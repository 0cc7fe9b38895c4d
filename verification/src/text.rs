//! Characters, lower-casing and lexicographic ordering of strings.
//!
//! Paths are matched case-insensitively: a path is normalized by lower-casing
//! its ASCII letters and dropping one leading `/`, and the route table is
//! ordered by plain lexicographic comparison of normalized character
//! sequences.

use core::cmp::Ordering;
use vstd::prelude::*;
use vstd::string::StrSliceExecFns;

verus! {

/// One character lower-cased: an ASCII upper-case letter maps to the
/// corresponding lower-case letter, every other character is unchanged.
pub open spec fn lower_char(c: char) -> char {
    if 'A' <= c && c <= 'Z' {
        ((c as u8) + 32) as char
    } else {
        c
    }
}

/// A whole character sequence lower-cased.
pub open spec fn lower_seq(s: Seq<char>) -> Seq<char> {
    s.map_values(|c: char| lower_char(c))
}

/// A sequence with one leading `/` removed, if there is one.
pub open spec fn strip_slash(s: Seq<char>) -> Seq<char> {
    if s.len() > 0 && s[0] == '/' {
        s.drop_first()
    } else {
        s
    }
}

/// The normalized form of a raw path: one leading `/` dropped (it is implied,
/// not stored), then lower-cased.
pub open spec fn normal_of(s: Seq<char>) -> Seq<char> {
    lower_seq(strip_slash(s))
}

/// A sequence already in lower case, as every stored route path is.
pub open spec fn is_lower(s: Seq<char>) -> bool {
    lower_seq(s) == s
}

/// The display form of a normalized path: the leading `/` put back.
pub open spec fn render_of(p: Seq<char>) -> Seq<char> {
    seq!['/'] + p
}

/// Rendering a stored path for display and normalizing the rendering gives
/// the stored path back unchanged.
pub proof fn lemma_render_round_trip(p: Seq<char>)
    requires
        is_lower(p),
    ensures
        normal_of(render_of(p)) == p,
{
    assert(render_of(p)[0] == '/');
    assert(render_of(p).drop_first() =~= p);
    assert(strip_slash(render_of(p)) == p);
}

/// Law: path matching is case-insensitive — raw paths that agree up to
/// letter case have the same normalized form, so every lookup treats them
/// alike.
pub proof fn lemma_normal_case_insensitive(p1: Seq<char>, p2: Seq<char>)
    requires
        lower_seq(p1) == lower_seq(p2),
    ensures
        normal_of(p1) == normal_of(p2),
{
    assert(p1.len() == p2.len()) by {
        assert(lower_seq(p1).len() == p1.len());
        assert(lower_seq(p2).len() == p2.len());
    }
    if p1.len() > 0 {
        assert(lower_char(p1[0]) == lower_char(p2[0])) by {
            assert(lower_seq(p1)[0] == lower_char(p1[0]));
            assert(lower_seq(p2)[0] == lower_char(p2[0]));
        }
        assert(p1[0] == '/' <==> p2[0] == '/') by {
            assert(forall|c: char| lower_char(c) == '/' <==> c == '/');
        }
        if p1[0] == '/' {
            assert(lower_seq(p1.drop_first()) =~= lower_seq(p1).drop_first());
            assert(lower_seq(p2.drop_first()) =~= lower_seq(p2).drop_first());
        }
    }
}

/// Relies on `String::push` from std: appends exactly one character at the
/// end of the string.
#[verifier::external_body]
pub(crate) fn push_char(s: &mut String, c: char)
    ensures
        final(s)@ == old(s)@.push(c),
{
    s.push(c);
}

/// Lower-case one character.
fn lower_char_exec(c: char) -> (r: char)
    ensures
        r == lower_char(c),
{
    if 'A' <= c && c <= 'Z' {
        ((c as u8) + 32) as char
    } else {
        c
    }
}

/// Normalize a raw path: drop one leading `/` and lower-case the rest.
pub fn normalize(s: &str) -> (r: String)
    ensures
        r@ == normal_of(s@),
        is_lower(r@),
{
    let len = s.unicode_len();
    let start: usize = if len > 0 && s.get_char(0) == '/' {
        1
    } else {
        0
    };
    let mut out = String::new();
    let mut i: usize = start;
    while i < len
        invariant
            start <= i <= len,
            len == s@.len(),
            start == 1 ==> len > 0 && s@[0] == '/',
            start == 0 ==> !(s@.len() > 0 && s@[0] == '/'),
            out@ == lower_seq(s@.subrange(start as int, i as int)),
        decreases len - i,
    {
        let c = lower_char_exec(s.get_char(i));
        push_char(&mut out, c);
        proof {
            assert(s@.subrange(start as int, i + 1) =~= s@.subrange(
                start as int,
                i as int,
            ).push(s@[i as int]));
            assert(lower_seq(s@.subrange(start as int, i + 1)) =~= lower_seq(
                s@.subrange(start as int, i as int),
            ).push(lower_char(s@[i as int])));
        }
        i += 1;
    }
    proof {
        assert(s@.subrange(start as int, len as int) =~= strip_slash(s@));
        lemma_lower_seq_fixed(strip_slash(s@));
    }
    out
}

/// Lower-casing is idempotent: the image of `lower_seq` is lower-case.
pub proof fn lemma_lower_seq_fixed(s: Seq<char>)
    ensures
        is_lower(lower_seq(s)),
{
    assert(lower_seq(lower_seq(s)) =~= lower_seq(s)) by {
        assert forall|i: int| 0 <= i < s.len() implies lower_char(lower_char(s[i])) == lower_char(
            s[i],
        ) by {}
    }
}

/// Lexicographic comparison of two character sequences, character by
/// character, shorter prefix first.
pub open spec fn lex_cmp(a: Seq<char>, b: Seq<char>) -> Ordering
    decreases a.len(),
{
    if a.len() == 0 && b.len() == 0 {
        Ordering::Equal
    } else if a.len() == 0 {
        Ordering::Less
    } else if b.len() == 0 {
        Ordering::Greater
    } else if a[0] < b[0] {
        Ordering::Less
    } else if b[0] < a[0] {
        Ordering::Greater
    } else {
        lex_cmp(a.drop_first(), b.drop_first())
    }
}

/// `lex_cmp` answers `Equal` exactly on equal sequences.
pub proof fn lemma_lex_cmp_eq(a: Seq<char>, b: Seq<char>)
    ensures
        (lex_cmp(a, b) == Ordering::Equal) <==> (a == b),
    decreases a.len(),
{
    if a.len() == 0 && b.len() == 0 {
        assert(a =~= b);
    } else if a.len() == 0 || b.len() == 0 {
    } else if a[0] < b[0] || b[0] < a[0] {
    } else {
        lemma_lex_cmp_eq(a.drop_first(), b.drop_first());
        if lex_cmp(a, b) == Ordering::Equal {
            assert(a =~= seq![a[0]] + a.drop_first());
            assert(b =~= seq![b[0]] + b.drop_first());
        } else {
            if a == b {
                assert(a.drop_first() =~= b.drop_first());
            }
        }
    }
}

/// The opposite of an ordering answer.
pub open spec fn flip(o: Ordering) -> Ordering {
    match o {
        Ordering::Less => Ordering::Greater,
        Ordering::Equal => Ordering::Equal,
        Ordering::Greater => Ordering::Less,
    }
}

/// Swapping the arguments of `lex_cmp` flips the answer.
pub proof fn lemma_lex_cmp_flip(a: Seq<char>, b: Seq<char>)
    ensures
        lex_cmp(b, a) == flip(lex_cmp(a, b)),
    decreases a.len(),
{
    if a.len() > 0 && b.len() > 0 && !(a[0] < b[0]) && !(b[0] < a[0]) {
        lemma_lex_cmp_flip(a.drop_first(), b.drop_first());
    }
}

/// `lex_cmp`'s strict order is transitive.
pub proof fn lemma_lex_cmp_trans(a: Seq<char>, b: Seq<char>, c: Seq<char>)
    requires
        lex_cmp(a, b) == Ordering::Less,
        lex_cmp(b, c) == Ordering::Less,
    ensures
        lex_cmp(a, c) == Ordering::Less,
    decreases a.len(),
{
    if a.len() == 0 {
    } else {
        if a.len() > 0 && b.len() > 0 && c.len() > 0 && !(a[0] < b[0]) && !(b[0] < a[0]) && !(b[0]
            < c[0]) && !(c[0] < b[0]) {
            lemma_lex_cmp_trans(a.drop_first(), b.drop_first(), c.drop_first());
        }
    }
}

/// Compare two strings lexicographically by characters.
pub fn cmp_str(a: &str, b: &str) -> (o: Ordering)
    ensures
        o == lex_cmp(a@, b@),
{
    let la = a.unicode_len();
    let lb = b.unicode_len();
    let mut i: usize = 0;
    proof {
        assert(a@.skip(0) =~= a@);
        assert(b@.skip(0) =~= b@);
    }
    while i < la && i < lb
        invariant
            i <= la,
            i <= lb,
            la == a@.len(),
            lb == b@.len(),
            lex_cmp(a@, b@) == lex_cmp(a@.skip(i as int), b@.skip(i as int)),
        decreases la - i,
    {
        let ca = a.get_char(i);
        let cb = b.get_char(i);
        if ca < cb {
            return Ordering::Less;
        }
        if cb < ca {
            return Ordering::Greater;
        }
        proof {
            assert(a@.skip(i as int).drop_first() =~= a@.skip(i + 1));
            assert(b@.skip(i as int).drop_first() =~= b@.skip(i + 1));
        }
        i += 1;
    }
    if la < lb {
        Ordering::Less
    } else if lb < la {
        Ordering::Greater
    } else {
        Ordering::Equal
    }
}

} // verus!
