//! Character-level helpers shared by the parsers.

use vstd::prelude::*;
use vstd::std_specs::iter::IteratorSpec;

verus! {

broadcast use {vstd::string::group_string_axioms, vstd::string::next_postcondition};

/// Whitespace as `char::is_whitespace` defines it (the Unicode White_Space set).
pub open spec fn is_space(c: char) -> bool {
    let v = c as u32;
    (9 <= v <= 13) || v == 32 || v == 0x85 || v == 0xa0 || v == 0x1680 || (0x2000 <= v <= 0x200a)
        || v == 0x2028 || v == 0x2029 || v == 0x202f || v == 0x205f || v == 0x3000
}

pub fn is_space_char(c: char) -> (r: bool)
    ensures
        r == is_space(c),
{
    let v = c as u32;
    (9 <= v && v <= 13) || v == 32 || v == 0x85 || v == 0xa0 || v == 0x1680 || (0x2000 <= v && v
        <= 0x200a) || v == 0x2028 || v == 0x2029 || v == 0x202f || v == 0x205f || v == 0x3000
}

/// The characters of a string, in order.
pub fn to_chars(s: &str) -> (r: Vec<char>)
    ensures
        r@ == s@,
{
    let mut it = s.chars();
    let mut out: Vec<char> = Vec::new();
    loop
        invariant
            it.obeys_prophetic_iter_laws(),
            out@ + it.remaining() == s@,
            it.decrease() is Some,
        ensures
            out@ == s@,
        decreases it.decrease()->0,
    {
        match it.next() {
            Some(c) => {
                out.push(c);
            },
            None => {
                assert(out@ =~= s@);
                break ;
            },
        }
    }
    out
}

/// Relies on `String::push`: appends one character.
#[verifier::external_body]
pub(crate) fn push_char(s: &mut String, c: char)
    ensures
        final(s)@ == old(s)@.push(c),
{
    s.push(c)
}

/// A string holding the given characters.
pub fn from_chars(cs: &Vec<char>) -> (r: String)
    ensures
        r@ == cs@,
{
    let mut out = String::new();
    for i in 0..cs.len()
        invariant
            out@ == cs@.subrange(0, i as int),
    {
        push_char(&mut out, cs[i]);
        assert(cs@.subrange(0, i + 1) =~= cs@.subrange(0, i as int).push(cs@[i as int]));
    }
    assert(cs@.subrange(0, cs.len() as int) =~= cs@);
    out
}

/// The character sequences held by a list of character vectors.
pub open spec fn views(v: Seq<Vec<char>>) -> Seq<Seq<char>> {
    v.map_values(|x: Vec<char>| x@)
}

/// Appends `cur` to `acc` unless it is empty.
pub open spec fn flush(acc: Seq<Seq<char>>, cur: Seq<char>) -> Seq<Seq<char>> {
    if cur.len() > 0 {
        acc.push(cur)
    } else {
        acc
    }
}

/// The pieces of `s` between occurrences of `sep`, scanning from position `i`
/// with `cur` the piece begun so far and `acc` the pieces already closed.
pub open spec fn split_from(
    s: Seq<char>,
    sep: char,
    i: int,
    cur: Seq<char>,
    acc: Seq<Seq<char>>,
) -> Seq<Seq<char>>
    decreases s.len() - i,
{
    if i >= s.len() {
        acc.push(cur)
    } else if s[i] == sep {
        split_from(s, sep, i + 1, Seq::empty(), acc.push(cur))
    } else {
        split_from(s, sep, i + 1, cur.push(s[i]), acc)
    }
}

/// `s` cut at every `sep`, empty pieces included (as `str::split` does).
pub open spec fn split_spec(s: Seq<char>, sep: char) -> Seq<Seq<char>> {
    split_from(s, sep, 0, Seq::empty(), Seq::empty())
}

/// The maximal runs of non-whitespace in `s`, scanning from position `i`.
pub open spec fn fields_from(s: Seq<char>, i: int, cur: Seq<char>, acc: Seq<Seq<char>>) -> Seq<
    Seq<char>,
>
    decreases s.len() - i,
{
    if i >= s.len() {
        flush(acc, cur)
    } else if is_space(s[i]) {
        fields_from(s, i + 1, Seq::empty(), flush(acc, cur))
    } else {
        fields_from(s, i + 1, cur.push(s[i]), acc)
    }
}

/// The whitespace-separated fields of `s` (as `str::split_whitespace` gives them).
pub open spec fn fields_spec(s: Seq<char>) -> Seq<Seq<char>> {
    fields_from(s, 0, Seq::empty(), Seq::empty())
}

/// Cuts `s` at every occurrence of `sep`.
pub fn split_chars(s: &Vec<char>, sep: char) -> (r: Vec<Vec<char>>)
    ensures
        views(r@) == split_spec(s@, sep),
        r@.len() >= 1,
{
    proof {
        lemma_split_nonempty(s@, sep, 0, Seq::empty(), Seq::empty());
    }
    let mut acc: Vec<Vec<char>> = Vec::new();
    let mut cur: Vec<char> = Vec::new();
    let mut i: usize = 0;
    assert(views(acc@) =~= Seq::empty());
    while i < s.len()
        invariant
            i <= s.len(),
            split_from(s@, sep, i as int, cur@, views(acc@)) == split_spec(s@, sep),
        decreases s.len() - i,
    {
        if s[i] == sep {
            let ghost prev = views(acc@);
            let ghost piece = cur@;
            acc.push(cur);
            assert(views(acc@) =~= prev.push(piece));
            cur = Vec::new();
        } else {
            cur.push(s[i]);
        }
        i = i + 1;
    }
    let ghost prev = views(acc@);
    let ghost piece = cur@;
    acc.push(cur);
    assert(views(acc@) =~= prev.push(piece));
    acc
}

/// The whitespace-separated fields of `s`.
pub fn fields(s: &Vec<char>) -> (r: Vec<Vec<char>>)
    ensures
        views(r@) == fields_spec(s@),
{
    let mut acc: Vec<Vec<char>> = Vec::new();
    let mut cur: Vec<char> = Vec::new();
    let mut i: usize = 0;
    assert(views(acc@) =~= Seq::empty());
    while i < s.len()
        invariant
            i <= s.len(),
            fields_from(s@, i as int, cur@, views(acc@)) == fields_spec(s@),
        decreases s.len() - i,
    {
        if is_space_char(s[i]) {
            if cur.len() > 0 {
                let ghost prev = views(acc@);
                let ghost piece = cur@;
                acc.push(cur);
                assert(views(acc@) =~= prev.push(piece));
                cur = Vec::new();
            } else {
                assert(cur@ =~= Seq::<char>::empty());
            }
        } else {
            cur.push(s[i]);
        }
        i = i + 1;
    }
    if cur.len() > 0 {
        let ghost prev = views(acc@);
        let ghost piece = cur@;
        acc.push(cur);
        assert(views(acc@) =~= prev.push(piece));
    }
    acc
}

/// Whether `s` begins with `p`.
pub open spec fn has_prefix(s: Seq<char>, p: Seq<char>) -> bool {
    p.len() <= s.len() && s.subrange(0, p.len() as int) == p
}

/// Whether `s` begins with `p`.
pub fn starts_with(s: &Vec<char>, p: &str) -> (r: bool)
    ensures
        r == has_prefix(s@, p@),
{
    let pc = to_chars(p);
    if pc.len() > s.len() {
        return false;
    }
    for i in 0..pc.len()
        invariant
            pc@ == p@,
            pc@.len() <= s@.len(),
            forall|k: int| 0 <= k < i ==> s@[k] == pc@[k],
    {
        if s[i] != pc[i] {
            assert(s@.subrange(0, pc@.len() as int)[i as int] != p@[i as int]);
            return false;
        }
    }
    assert(s@.subrange(0, pc@.len() as int) =~= p@);
    true
}

/// The characters of `s` from position `from` up to `to`.
pub fn sub_chars(s: &Vec<char>, from: usize, to: usize) -> (r: Vec<char>)
    requires
        from <= to <= s@.len(),
    ensures
        r@ == s@.subrange(from as int, to as int),
{
    let mut out: Vec<char> = Vec::new();
    let mut i: usize = from;
    while i < to
        invariant
            from <= i <= to <= s@.len(),
            out@ == s@.subrange(from as int, i as int),
        decreases to - i,
    {
        out.push(s[i]);
        assert(out@ =~= s@.subrange(from as int, i + 1));
        i = i + 1;
    }
    out
}

/// Splitting always yields at least one piece.
pub proof fn lemma_split_nonempty(s: Seq<char>, sep: char, i: int, cur: Seq<char>, acc: Seq<Seq<char>>)
    ensures
        split_from(s, sep, i, cur, acc).len() >= acc.len() + 1,
    decreases s.len() - i,
{
    if i < s.len() {
        if s[i] == sep {
            lemma_split_nonempty(s, sep, i + 1, Seq::empty(), acc.push(cur));
        } else {
            lemma_split_nonempty(s, sep, i + 1, cur.push(s[i]), acc);
        }
    }
}

} // verus!
