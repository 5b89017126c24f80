//! Small text helpers shared by the lexer, the parser and the evaluator:
//! converting between `&str` and character vectors, ASCII case folding, and
//! the lexicographic order on character sequences that record dates are
//! sorted by.

use vstd::prelude::*;

verus! {

/// Relies on `String::push`: appends exactly the given character at the end.
#[verifier::external_body]
pub fn push_char(s: &mut String, c: char)
    ensures
        final(s)@ == old(s)@.push(c),
{
    s.push(c);
}

/// The characters of `s` as a vector.
pub fn str_chars(s: &str) -> (r: Vec<char>)
    ensures
        r@ == s@,
{
    let n = s.unicode_len();
    let mut v: Vec<char> = Vec::new();
    let mut i: usize = 0;
    while i < n
        invariant
            n == s@.len(),
            i <= n,
            v@ == s@.subrange(0, i as int),
        decreases n - i,
    {
        let c = s.get_char(i);
        v.push(c);
        i = i + 1;
        proof {
            assert(v@ =~= s@.subrange(0, i as int));
        }
    }
    proof {
        assert(v@ =~= s@);
    }
    v
}

/// The characters `chars[from..to]` collected into an owned string.
pub fn chars_to_string_range(chars: &Vec<char>, from: usize, to: usize) -> (r: String)
    requires
        from <= to <= chars@.len(),
    ensures
        r@ == chars@.subrange(from as int, to as int),
{
    let mut s = String::new();
    let mut i: usize = from;
    while i < to
        invariant
            from <= i <= to <= chars@.len(),
            s@ == chars@.subrange(from as int, i as int),
        decreases to - i,
    {
        push_char(&mut s, chars[i]);
        i = i + 1;
        proof {
            assert(s@ =~= chars@.subrange(from as int, i as int));
        }
    }
    s
}

/// ASCII lower-case letters mapped to upper case; everything else unchanged.
pub open spec fn spec_upper_char(c: char) -> char {
    if 'a' <= c && c <= 'z' {
        (((c as u8) - 0x20u8) as char)
    } else {
        c
    }
}

/// A character sequence with each character ASCII-upper-cased.
pub open spec fn spec_upper(s: Seq<char>) -> Seq<char> {
    s.map_values(|c: char| spec_upper_char(c))
}

/// ASCII upper-casing of one character.
pub fn upper_char(c: char) -> (r: char)
    ensures
        r == spec_upper_char(c),
{
    if 'a' <= c && c <= 'z' {
        ((c as u8) - 0x20u8) as char
    } else {
        c
    }
}

/// `s` ASCII-upper-cased into an owned string.
pub fn to_upper_string(s: &str) -> (r: String)
    ensures
        r@ == spec_upper(s@),
{
    let chars = str_chars(s);
    let n = chars.len();
    let mut out = String::new();
    let mut i: usize = 0;
    while i < n
        invariant
            n == chars@.len(),
            chars@ == s@,
            i <= n,
            out@ == spec_upper(s@).subrange(0, i as int),
        decreases n - i,
    {
        push_char(&mut out, upper_char(chars[i]));
        i = i + 1;
        proof {
            assert(out@ =~= spec_upper(s@).subrange(0, i as int));
        }
    }
    proof {
        assert(out@ =~= spec_upper(s@));
    }
    out
}

/// Lexicographic order on character sequences, by code point; this is the
/// order byte-wise comparison of UTF-8 strings induces on their characters.
pub open spec fn spec_lex_le(a: Seq<char>, b: Seq<char>) -> bool
    decreases a.len(),
{
    if a.len() == 0 {
        true
    } else if b.len() == 0 {
        false
    } else if a[0] == b[0] {
        spec_lex_le(a.subrange(1, a.len() as int), b.subrange(1, b.len() as int))
    } else {
        (a[0] as u32) < (b[0] as u32)
    }
}

/// The lexicographic order is total.
pub proof fn lemma_lex_le_total(a: Seq<char>, b: Seq<char>)
    ensures
        spec_lex_le(a, b) || spec_lex_le(b, a),
    decreases a.len(),
{
    if a.len() != 0 && b.len() != 0 {
        if a[0] == b[0] {
            lemma_lex_le_total(a.subrange(1, a.len() as int), b.subrange(1, b.len() as int));
        } else {
            vstd::utf8::char_u32_cast(a[0], a[0] as u32);
            vstd::utf8::char_u32_cast(b[0], b[0] as u32);
            assert((a[0] as u32) != (b[0] as u32));
        }
    }
}

/// The lexicographic order is transitive.
pub proof fn lemma_lex_le_trans(a: Seq<char>, b: Seq<char>, c: Seq<char>)
    requires
        spec_lex_le(a, b),
        spec_lex_le(b, c),
    ensures
        spec_lex_le(a, c),
    decreases a.len(),
{
    if a.len() != 0 && b.len() != 0 && c.len() != 0 {
        if a[0] == b[0] && b[0] == c[0] {
            lemma_lex_le_trans(
                a.subrange(1, a.len() as int),
                b.subrange(1, b.len() as int),
                c.subrange(1, c.len() as int),
            );
        }
    }
}

/// Whether `a` comes no later than `b` in lexicographic order.
pub fn str_le(a: &str, b: &str) -> (r: bool)
    ensures
        r == spec_lex_le(a@, b@),
{
    let av = str_chars(a);
    let bv = str_chars(b);
    let an = av.len();
    let bn = bv.len();
    let mut i: usize = 0;
    proof {
        assert(a@.subrange(0, an as int) =~= a@);
        assert(b@.subrange(0, bn as int) =~= b@);
    }
    loop
        invariant
            av@ == a@,
            bv@ == b@,
            an == av@.len(),
            bn == bv@.len(),
            i <= an,
            i <= bn,
            spec_lex_le(a@, b@) == spec_lex_le(
                a@.subrange(i as int, an as int),
                b@.subrange(i as int, bn as int),
            ),
        decreases an - i,
    {
        proof {
            let ra = a@.subrange(i as int, an as int);
            let rb = b@.subrange(i as int, bn as int);
            if i < an && i < bn && av@[i as int] == bv@[i as int] {
                assert(ra.subrange(1, ra.len() as int) =~= a@.subrange(i + 1, an as int));
                assert(rb.subrange(1, rb.len() as int) =~= b@.subrange(i + 1, bn as int));
            }
        }
        if i >= an {
            return true;
        }
        if i >= bn {
            return false;
        }
        let ca = av[i];
        let cb = bv[i];
        if ca != cb {
            return (ca as u32) < (cb as u32);
        }
        i = i + 1;
    }
}

} // verus!
