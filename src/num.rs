//! Unsigned integer parsing in a given radix, as `from_str_radix` and
//! `str::parse` read unsigned types: an optional `+`, then at least one digit.

use vstd::prelude::*;

verus! {

/// The value of a digit character (`0`-`9`, then letters of either case), if any.
pub open spec fn digit_value(c: char) -> int {
    let v = c as u32;
    if 48 <= v <= 57 {
        v - 48
    } else if 97 <= v <= 122 {
        v - 97 + 10
    } else if 65 <= v <= 90 {
        v - 65 + 10
    } else {
        99
    }
}

/// Whether every character of `s` is a digit of `radix`.
pub open spec fn all_digits(s: Seq<char>, radix: nat) -> bool {
    forall|k: int| 0 <= k < s.len() ==> #[trigger] digit_value(s[k]) < radix
}

/// The number that the digits `s` spell in `radix`, most significant first.
pub open spec fn digits_value(s: Seq<char>, radix: nat) -> nat
    decreases s.len(),
{
    if s.len() == 0 {
        0
    } else {
        (digits_value(s.drop_last(), radix) * radix + digit_value(s.last())) as nat
    }
}

/// The digits of `s` once an optional leading `+` is removed.
pub open spec fn unsigned_body(s: Seq<char>) -> Seq<char> {
    if s.len() > 0 && s[0] == '+' {
        s.drop_first()
    } else {
        s
    }
}

/// The number `s` denotes in `radix`, with no bound on its size.
pub open spec fn radix_value(s: Seq<char>, radix: nat) -> Option<nat> {
    let body = unsigned_body(s);
    if body.len() > 0 && all_digits(body, radix) {
        Some(digits_value(body, radix))
    } else {
        None
    }
}

/// The number `s` denotes in `radix` when it is at most `max`.
pub open spec fn parse_spec(s: Seq<char>, radix: nat, max: nat) -> Option<nat> {
    match radix_value(s, radix) {
        Some(v) => if v <= max {
            Some(v)
        } else {
            None
        },
        None => None,
    }
}

fn digit_of(c: char) -> (r: u32)
    ensures
        r == digit_value(c),
{
    let v = c as u32;
    if 48 <= v && v <= 57 {
        v - 48
    } else if 97 <= v && v <= 122 {
        v - 97 + 10
    } else if 65 <= v && v <= 90 {
        v - 65 + 10
    } else {
        99
    }
}

proof fn lemma_prefix_value_le(s: Seq<char>, i: int, radix: nat)
    requires
        0 <= i <= s.len(),
        radix >= 1,
        all_digits(s, radix),
    ensures
        digits_value(s.subrange(0, i), radix) <= digits_value(s, radix),
    decreases s.len(),
{
    if i < s.len() {
        let t = s.drop_last();
        assert(t.subrange(0, i) =~= s.subrange(0, i));
        assert forall|k: int| 0 <= k < t.len() implies #[trigger] digit_value(t[k]) < radix by {
            assert(t[k] == s[k]);
        }
        lemma_prefix_value_le(t, i, radix);
        let w = digits_value(t, radix);
        assert(w * radix >= w) by (nonlinear_arith)
            requires
                radix >= 1,
        ;
        assert(digit_value(s[s.len() - 1]) >= 0);
    } else {
        assert(s.subrange(0, i) =~= s);
    }
}

/// Parses `s` as an unsigned number in `radix` (10 or 16) no larger than `max`.
pub fn parse_unsigned(s: &Vec<char>, radix: u64, max: u64) -> (r: Option<u64>)
    requires
        radix == 10 || radix == 16,
    ensures
        match parse_spec(s@, radix as nat, max as nat) {
            Some(v) => r == Some(v as u64),
            None => r is None,
        },
{
    let start: usize = if s.len() > 0 && s[0] == '+' {
        1
    } else {
        0
    };
    let ghost body = unsigned_body(s@);
    assert(body =~= s@.subrange(start as int, s@.len() as int));
    if start >= s.len() {
        return None;
    }
    let mut v: u64 = 0;
    let mut i: usize = start;
    while i < s.len()
        invariant
            start <= i <= s@.len(),
            body == s@.subrange(start as int, s@.len() as int),
            body == unsigned_body(s@),
            radix == 10 || radix == 16,
            all_digits(s@.subrange(start as int, i as int), radix as nat),
            v == digits_value(s@.subrange(start as int, i as int), radix as nat),
            v <= max,
        decreases s.len() - i,
    {
        let d = digit_of(s[i]) as u64;
        let ghost pre = s@.subrange(start as int, i as int);
        let ghost next = s@.subrange(start as int, i + 1);
        assert(next.drop_last() =~= pre);
        if d >= radix {
            assert(!all_digits(body, radix as nat)) by {
                assert(body[i - start] == s@[i as int]);
                assert(digit_value(body[i - start]) >= radix);
            }
            return None;
        }
        assert forall|k: int| 0 <= k < next.len() implies #[trigger] digit_value(next[k])
            < radix as nat by {
            if k < pre.len() {
                assert(next[k] == pre[k]);
            }
        }
        if d > max || v > (max - d) / radix {
            proof {
                let (vi, di, mi, ri) = (v as int, d as int, max as int, radix as int);
                assert(vi * ri + di > mi) by (nonlinear_arith)
                    requires
                        di > mi || (mi >= di && vi > (mi - di) / ri),
                        ri > 0,
                        vi >= 0,
                ;
                assert(next.last() == s@[i as int]);
                assert(digits_value(next, radix as nat) == v * radix + d);
                if all_digits(body, radix as nat) {
                    lemma_prefix_value_le(body, i + 1 - start, radix as nat);
                    assert(body.subrange(0, i + 1 - start) =~= next);
                }
            }
            return None;
        }
        proof {
            let (vi, di, mi, ri) = (v as int, d as int, max as int, radix as int);
            assert(vi * ri + di <= mi) by (nonlinear_arith)
                requires
                    di <= mi,
                    vi <= (mi - di) / ri,
                    ri > 0,
            ;
        }
        assert(next.last() == s@[i as int]);
        v = v * radix + d;
        i = i + 1;
    }
    assert(s@.subrange(start as int, i as int) =~= body);
    Some(v)
}

} // verus!
