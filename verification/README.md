# frc_scout

Match statistics for FIRST Robotics Competition teams, as kept by a
scouting service that follows an event on The Blue Alliance.

- `src/` is the verified library: match records, per-team season
  statistics (wins, losses, score lists and their extremes), event
  records, the caches that decide whether a fetched list is news, team
  keys, rosters, and the service's settings. Every function carries a
  contract that Verus proves.
- `app/` is the service around it: HTTP requests, Redis and Firestore,
  the update loops, and the floating-point side of the statistics
  (averages, spreads, ratings).
- `tests/` runs the library on concrete match lists.
