//! Team keys: The Blue Alliance names team 604 `"frc604"`.  Formatting a
//! team number as a key, and reading the number back out of a key.

use vstd::prelude::*;
use crate::text::{chars_of, push_char, remove_all, remove_str};

verus! {

/// The key prefix, `"frc"`.
pub open spec fn frc() -> Seq<char> {
    seq!['f', 'r', 'c']
}

pub open spec fn is_digit(c: char) -> bool {
    '0' <= c && c <= '9'
}

pub open spec fn digit_value(c: char) -> int {
    c as int - '0' as int
}

pub open spec fn digit_char(d: int) -> char {
    ('0' as int + d) as char
}

pub open spec fn all_digits(s: Seq<char>) -> bool {
    forall|i: int| 0 <= i < s.len() ==> is_digit(#[trigger] s[i])
}

/// The number that a run of decimal digits denotes (leading zeros allowed).
pub open spec fn digits_value(s: Seq<char>) -> int
    decreases s.len(),
{
    if s.len() == 0 {
        0
    } else {
        digits_value(s.drop_last()) * 10 + digit_value(s.last())
    }
}

/// The decimal representation of `n`, without leading zeros.
pub open spec fn decimal(n: nat) -> Seq<char>
    decreases n,
{
    if n < 10 {
        seq![digit_char(n as int)]
    } else {
        decimal(n / 10).push(digit_char((n % 10) as int))
    }
}

/// What `str::parse::<u16>` accepts: an optional `+` followed by one or
/// more ASCII digits whose value fits in a `u16`.
pub open spec fn parse_u16_spec(s: Seq<char>) -> Option<u16> {
    let body = if s.len() > 0 && s[0] == '+' { s.skip(1) } else { s };
    if body.len() > 0 && all_digits(body) && digits_value(body) <= u16::MAX {
        Some(digits_value(body) as u16)
    } else {
        None
    }
}

/// The key of team `team`: `"frc"` followed by the team number.
pub open spec fn team_key_spec(team: u16) -> Seq<char> {
    frc() + decimal(team as nat)
}

/// The team number in a key: the key with every `"frc"` removed, read as a
/// number, and 0 where that fails.
pub open spec fn team_number_spec(key: Seq<char>) -> u16 {
    match parse_u16_spec(remove_all(key, frc())) {
        Some(n) => n,
        None => 0,
    }
}

pub proof fn lemma_digits_value_nonneg(s: Seq<char>)
    requires
        all_digits(s),
    ensures
        digits_value(s) >= 0,
    decreases s.len(),
{
    if s.len() > 0 {
        lemma_digits_value_nonneg(s.drop_last());
    }
}

/// Reading more digits never gives a smaller number.
pub proof fn lemma_digits_value_prefix(s: Seq<char>, k: int)
    requires
        all_digits(s),
        0 <= k <= s.len(),
    ensures
        digits_value(s.take(k)) <= digits_value(s),
    decreases s.len(),
{
    if k < s.len() {
        lemma_digits_value_prefix(s.drop_last(), k);
        assert(s.drop_last().take(k) =~= s.take(k));
        lemma_digits_value_nonneg(s.drop_last());
    } else {
        assert(s.take(k) =~= s);
    }
}

proof fn lemma_decimal(n: nat)
    ensures
        decimal(n).len() > 0,
        all_digits(decimal(n)),
        digits_value(decimal(n)) == n,
        decimal(n)[0] != '+',
        decimal(n)[0] != 'f',
        forall|i: int| 0 <= i < decimal(n).len() ==> decimal(n)[i] != 'f',
    decreases n,
{
    let r = (n % 10) as int;
    assert(digit_value(digit_char(r)) == r);
    if n >= 10 {
        lemma_decimal(n / 10);
        let d = decimal(n);
        assert(d.drop_last() =~= decimal(n / 10));
        assert(d.last() == digit_char(r));
        assert(digits_value(d) == digits_value(decimal(n / 10)) * 10 + r);
    } else {
        assert(digits_value(seq![digit_char(n as int)].drop_last()) == 0);
    }
}

/// Removing a pattern from a text that never holds the pattern's first
/// character leaves the text as it was.
proof fn lemma_remove_absent(s: Seq<char>, pat: Seq<char>)
    requires
        pat.len() > 0,
        forall|i: int| 0 <= i < s.len() ==> s[i] != pat[0],
    ensures
        remove_all(s, pat) == s,
    decreases s.len(),
{
    if s.len() > 0 {
        lemma_remove_absent(s.skip(1), pat);
        if pat.len() <= s.len() {
            assert(s.subrange(0, pat.len() as int)[0] == s[0]);
        }
        assert(!occurs_at_zero(s, pat));
        assert(seq![s[0]] + s.skip(1) =~= s);
    }
}

spec fn occurs_at_zero(s: Seq<char>, pat: Seq<char>) -> bool {
    crate::text::occurs_at(s, pat, 0)
}

/// Reading a team number back out of the key that `team_key` writes for it
/// gives the same number.
pub proof fn team_key_round_trip(team: u16)
    ensures
        team_number_spec(team_key_spec(team)) == team,
        parse_u16_spec(decimal(team as nat)) == Some(team),
{
    let d = decimal(team as nat);
    lemma_decimal(team as nat);
    let k = team_key_spec(team);
    assert(crate::text::occurs_at(k, frc(), 0)) by {
        assert(k.subrange(0, 3) =~= frc());
    }
    assert(k.skip(3) =~= d);
    lemma_remove_absent(d, frc());
}

/// Appends the decimal digits of `n` to `s`.
fn push_decimal(s: &mut String, n: u16)
    ensures
        final(s)@ == old(s)@ + decimal(n as nat),
    decreases n,
{
    if n >= 10 {
        push_decimal(s, n / 10);
    }
    let d: u8 = (n % 10) as u8;
    let c = (48u8 + d) as char;
    push_char(s, c);
    proof {
        assert(decimal(n as nat) =~= if n >= 10 {
            decimal((n / 10) as nat).push(digit_char((n % 10) as int))
        } else {
            seq![digit_char(n as int)]
        });
    }
}

/// The decimal representation of `n`: `n.to_string()`.
pub fn number_text(n: u16) -> (s: String)
    ensures
        s@ == decimal(n as nat),
{
    let mut s = String::new();
    push_decimal(&mut s, n);
    assert(s@ =~= decimal(n as nat));
    s
}

/// The key of team `team`: `format!("frc{team}")`.
pub fn team_key(team: u16) -> (s: String)
    ensures
        s@ == team_key_spec(team),
{
    let mut s = String::new();
    push_char(&mut s, 'f');
    push_char(&mut s, 'r');
    push_char(&mut s, 'c');
    push_decimal(&mut s, team);
    assert(s@ =~= team_key_spec(team));
    s
}

/// `str::parse::<u16>`, with `None` for every input it refuses.
pub fn parse_u16(s: &str) -> (r: Option<u16>)
    ensures
        r == parse_u16_spec(s@),
{
    let v = chars_of(s);
    let start: usize = if v.len() > 0 && v[0] == '+' { 1 } else { 0 };
    let ghost body = if s@.len() > 0 && s@[0] == '+' { s@.skip(1) } else { s@ };
    assert(body =~= s@.skip(start as int));
    if start >= v.len() {
        return None;
    }
    let mut acc: u32 = 0;
    let mut i: usize = start;
    while i < v.len()
        invariant
            v@ == s@,
            start <= i <= v.len(),
            start < v.len(),
            body == s@.skip(start as int),
            body == (if s@.len() > 0 && s@[0] == '+' { s@.skip(1) } else { s@ }),
            all_digits(s@.subrange(start as int, i as int)),
            acc == digits_value(s@.subrange(start as int, i as int)),
            acc <= u16::MAX,
        decreases v.len() - i,
    {
        let c = v[i];
        let ghost pre = s@.subrange(start as int, i as int);
        let ghost next = s@.subrange(start as int, i + 1);
        assert(next.drop_last() =~= pre);
        if !('0' <= c && c <= '9') {
            assert(!all_digits(body)) by {
                assert(body[i - start] == c);
            }
            assert(parse_u16_spec(s@) is None);
            return None;
        }
        let d: u32 = (c as u32) - 48;
        acc = acc * 10 + d;
        assert(all_digits(next));
        if acc > 65535 {
            proof {
                if all_digits(body) {
                    lemma_digits_value_prefix(body, i + 1 - start);
                    assert(body.take(i + 1 - start) =~= next);
                }
            }
            assert(parse_u16_spec(s@) is None);
            return None;
        }
        i = i + 1;
    }
    assert(s@.subrange(start as int, v.len() as int) =~= body);
    Some(acc as u16)
}

/// The team number in a key: `key.replace("frc", "").parse().unwrap_or(0)`.
pub fn team_number(key: &str) -> (n: u16)
    ensures
        n == team_number_spec(key@),
{
    proof {
        reveal_strlit("frc");
    }
    let pat = "frc";
    assert(pat@ =~= frc());
    let bare = remove_str(key, pat);
    match parse_u16(bare.as_str()) {
        Some(n) => n,
        None => 0,
    }
}

} // verus!
