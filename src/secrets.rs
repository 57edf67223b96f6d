//! Credential-like strings in command lines and environment entries.

use vstd::prelude::*;
use crate::text::{from_chars, split_spec, to_chars, views};

verus! {

/// Number of keywords the scanner looks for.
pub const KEYWORD_COUNT: usize = 22;

/// Longest value a finding carries before it is cut.
pub const MAX_VALUE_LEN: usize = 512;

/// The keywords, all lower case.
pub open spec fn keyword_spec(j: usize) -> Seq<char> {
    match j {
        0 => "password"@,
        1 => "passwd"@,
        2 => "pass"@,
        3 => "pwd"@,
        4 => "secret"@,
        5 => "token"@,
        6 => "apikey"@,
        7 => "api_key"@,
        8 => "api-key"@,
        9 => "access_key"@,
        10 => "accesskey"@,
        11 => "secret_key"@,
        12 => "secretkey"@,
        13 => "auth"@,
        14 => "credential"@,
        15 => "session"@,
        16 => "aws_access_key_id"@,
        17 => "aws_secret_access_key"@,
        18 => "db_user"@,
        19 => "db_pass"@,
        20 => "db_password"@,
        _ => "jdbc:"@,
    }
}

/// ASCII upper-case letters lowered; every other character kept.
pub open spec fn lower_char(c: char) -> char {
    if 65 <= c as u32 <= 90 {
        ((c as u32) + 32) as char
    } else {
        c
    }
}

/// `s` with ASCII letters lowered (as `str::to_ascii_lowercase`).
pub open spec fn ascii_lower(s: Seq<char>) -> Seq<char> {
    s.map_values(|c: char| lower_char(c))
}

/// Whether `k` occurs in `s` as a contiguous run.
pub open spec fn occurs_in(s: Seq<char>, k: Seq<char>) -> bool {
    exists|i: int| 0 <= i && i + k.len() <= s.len() && #[trigger] s.subrange(i, i + k.len()) == k
}

/// Whether some keyword occurs in `s`, ignoring ASCII case.
pub open spec fn sensitive_spec(s: Seq<char>) -> bool {
    exists|j: usize| j < KEYWORD_COUNT && occurs_in(ascii_lower(s), #[trigger] keyword_spec(j))
}

/// `s` cut to `n` characters with `...` appended when it is longer.
pub open spec fn truncate_spec(s: Seq<char>, n: nat) -> Seq<char> {
    if s.len() <= n {
        s
    } else {
        s.subrange(0, n as int) + "..."@
    }
}

/// The non-empty pieces joined by single spaces.
pub open spec fn join_nonempty_spec(pieces: Seq<Seq<char>>) -> Seq<char>
    decreases pieces.len(),
{
    if pieces.len() == 0 {
        Seq::empty()
    } else {
        let prev = join_nonempty_spec(pieces.drop_last());
        let last = pieces.last();
        if last.len() == 0 {
            prev
        } else if prev.len() == 0 {
            last
        } else {
            prev + seq![' '] + last
        }
    }
}

/// A NUL-separated argument block as one space-joined line.
pub open spec fn joined_args(raw: Seq<char>) -> Seq<char> {
    join_nonempty_spec(split_spec(raw, '\0'))
}

/// The keyword at position `j`.
pub fn keyword(j: usize) -> (r: &'static str)
    requires
        j < KEYWORD_COUNT,
    ensures
        r@ == keyword_spec(j),
{
    match j {
        0 => "password",
        1 => "passwd",
        2 => "pass",
        3 => "pwd",
        4 => "secret",
        5 => "token",
        6 => "apikey",
        7 => "api_key",
        8 => "api-key",
        9 => "access_key",
        10 => "accesskey",
        11 => "secret_key",
        12 => "secretkey",
        13 => "auth",
        14 => "credential",
        15 => "session",
        16 => "aws_access_key_id",
        17 => "aws_secret_access_key",
        18 => "db_user",
        19 => "db_pass",
        20 => "db_password",
        _ => "jdbc:",
    }
}

fn lower_of(c: char) -> (r: char)
    ensures
        r == lower_char(c),
{
    let v = c as u32;
    if 65 <= v && v <= 90 {
        ((v + 32) as u8) as char
    } else {
        c
    }
}

/// `s` with ASCII letters lowered.
pub fn to_ascii_lower(s: &Vec<char>) -> (r: Vec<char>)
    ensures
        r@ == ascii_lower(s@),
{
    let mut out: Vec<char> = Vec::new();
    for i in 0..s.len()
        invariant
            out@ == ascii_lower(s@.subrange(0, i as int)),
    {
        out.push(lower_of(s[i]));
        assert(ascii_lower(s@.subrange(0, i + 1)) =~= ascii_lower(s@.subrange(0, i as int)).push(
            lower_char(s@[i as int]),
        ));
    }
    assert(s@.subrange(0, s@.len() as int) =~= s@);
    out
}

/// Whether `k` occurs in `s` as a contiguous run.
pub fn occurs(s: &Vec<char>, k: &Vec<char>) -> (r: bool)
    ensures
        r == occurs_in(s@, k@),
{
    let n = s.len();
    if k.len() > n {
        return false;
    }
    if k.len() == 0 {
        assert(s@.subrange(0int, 0int + k@.len()) =~= k@);
        return true;
    }
    let last = n - k.len();
    let mut i: usize = 0;
    while i <= last
        invariant
            n == s@.len(),
            k@.len() > 0,
            last == s@.len() - k@.len(),
            forall|p: int| 0 <= p < i ==> #[trigger] s@.subrange(p, p + k@.len()) != k@,
        decreases last + 1 - i,
    {
        let mut same = true;
        let mut j: usize = 0;
        while j < k.len()
            invariant
                i <= last,
                n == s@.len(),
                last == s@.len() - k@.len(),
                j <= k@.len(),
                same <==> (forall|q: int| 0 <= q < j ==> s@[i + q] == k@[q]),
            decreases k.len() - j,
        {
            if s[i + j] != k[j] {
                same = false;
            }
            j = j + 1;
        }
        if same {
            assert(s@.subrange(i as int, i + k@.len()) =~= k@);
            return true;
        }
        assert(s@.subrange(i as int, i + k@.len()) != k@) by {
            let q = choose|q: int| 0 <= q < k@.len() && s@[i + q] != k@[q];
            assert(s@.subrange(i as int, i + k@.len())[q] != k@[q]);
        }
        i = i + 1;
    }
    false
}

/// Whether `s` contains a credential keyword, ignoring ASCII case.
pub fn looks_sensitive(s: &Vec<char>) -> (r: bool)
    ensures
        r == sensitive_spec(s@),
{
    let lower = to_ascii_lower(s);
    for j in 0..KEYWORD_COUNT
        invariant
            lower@ == ascii_lower(s@),
            forall|q: usize| q < j ==> !occurs_in(ascii_lower(s@), #[trigger] keyword_spec(q)),
    {
        let k = to_chars(keyword(j));
        if occurs(&lower, &k) {
            return true;
        }
    }
    false
}

/// `s` cut to `n` characters, with `...` appended when it was longer.
pub fn truncate(s: &Vec<char>, n: usize) -> (r: String)
    ensures
        r@ == truncate_spec(s@, n as nat),
{
    if s.len() <= n {
        return from_chars(s);
    }
    let mut head: Vec<char> = Vec::new();
    for i in 0..n
        invariant
            n < s@.len(),
            head@ == s@.subrange(0, i as int),
    {
        head.push(s[i]);
        assert(head@ =~= s@.subrange(0, i + 1));
    }
    from_chars(&head).concat("...")
}

/// The non-empty pieces joined by single spaces.
pub fn join_nonempty(pieces: &Vec<Vec<char>>) -> (r: Vec<char>)
    ensures
        r@ == join_nonempty_spec(views(pieces@)),
{
    let mut out: Vec<char> = Vec::new();
    for i in 0..pieces.len()
        invariant
            out@ == join_nonempty_spec(views(pieces@).subrange(0, i as int)),
    {
        assert(views(pieces@).subrange(0, i + 1).drop_last() =~= views(pieces@).subrange(0, i as int));
        let piece = &pieces[i];
        if piece.len() > 0 {
            if out.len() > 0 {
                out.push(' ');
            }
            let ghost before = out@;
            for q in 0..piece.len()
                invariant
                    out@ == before + piece@.subrange(0, q as int),
            {
                out.push(piece[q]);
                assert(out@ =~= before + piece@.subrange(0, q + 1));
            }
            assert(piece@.subrange(0, piece@.len() as int) =~= piece@);
            assert(out@ =~= join_nonempty_spec(views(pieces@).subrange(0, i + 1)));
        }
    }
    assert(views(pieces@).subrange(0, pieces@.len() as int) =~= views(pieces@));
    out
}

/// Matching ignores ASCII case and looks for substrings: a value whose
/// lowered form contains a keyword is sensitive.
pub proof fn lemma_match_ignores_case(s: Seq<char>, j: usize, at: int)
    requires
        j < KEYWORD_COUNT,
        0 <= at,
        at + keyword_spec(j).len() <= s.len(),
        ascii_lower(s).subrange(at, at + keyword_spec(j).len()) == keyword_spec(j),
    ensures
        sensitive_spec(s),
{
    assert(occurs_in(ascii_lower(s), keyword_spec(j)));
}

/// A value no longer than the limit is kept as it is; one character over
/// is cut to the limit with `...` appended.
pub proof fn lemma_truncate_threshold(s: Seq<char>, n: nat)
    ensures
        s.len() <= n ==> truncate_spec(s, n) == s,
        s.len() == n + 1 ==> truncate_spec(s, n) == s.subrange(0, n as int) + "..."@,
{
}

} // verus!
