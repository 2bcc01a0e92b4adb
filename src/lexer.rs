//! Turns text into the terms that the search model counts.
//!
//! A term is a maximal run of characters that are neither whitespace nor ASCII
//! punctuation, with ASCII capitals folded to lower case. Any other character
//! (a non-ASCII letter, a digit) stays as it is.

use vstd::prelude::*;

verus! {

/// The characters that Unicode calls white space.
pub open spec fn is_space(c: char) -> bool {
    c == ' ' || ('\t' <= c && c <= '\r') || c == '\u{85}' || c == '\u{a0}' || c == '\u{1680}'
        || ('\u{2000}' <= c && c <= '\u{200a}') || c == '\u{2028}' || c == '\u{2029}'
        || c == '\u{202f}' || c == '\u{205f}' || c == '\u{3000}'
}

/// ASCII characters that are neither letters nor digits.
pub open spec fn is_ascii_punct(c: char) -> bool {
    ('!' <= c && c <= '/') || (':' <= c && c <= '@') || ('[' <= c && c <= '`') || ('{' <= c
        && c <= '~')
}

/// A character that ends a term.
pub open spec fn is_separator(c: char) -> bool {
    is_space(c) || is_ascii_punct(c) || c == '\u{7f}' || ('\0' <= c && c < ' ')
}

/// Case folding of one character: ASCII capitals become small letters.
pub open spec fn fold(c: char) -> char {
    if 'A' <= c && c <= 'Z' {
        ((c as u8) + 32u8) as char
    } else {
        c
    }
}

/// The terms of `s` from position `i` on, `cur` being the part of a term already read.
pub open spec fn lex_from(s: Seq<char>, i: int, cur: Seq<char>) -> Seq<Seq<char>>
    decreases s.len() - i,
{
    if i >= s.len() {
        if cur.len() == 0 {
            seq![]
        } else {
            seq![cur]
        }
    } else if is_separator(s[i]) {
        (if cur.len() == 0 {
            seq![]
        } else {
            seq![cur]
        }) + lex_from(s, i + 1, seq![])
    } else {
        lex_from(s, i + 1, cur.push(fold(s[i])))
    }
}

/// The terms of a text, in order of appearance.
pub open spec fn terms_of(s: Seq<char>) -> Seq<Seq<char>> {
    lex_from(s, 0, seq![])
}

pub fn is_separator_char(c: char) -> (r: bool)
    ensures
        r == is_separator(c),
{
    c == ' ' || ('\t' <= c && c <= '\r') || c == '\u{85}' || c == '\u{a0}' || c == '\u{1680}'
        || ('\u{2000}' <= c && c <= '\u{200a}') || c == '\u{2028}' || c == '\u{2029}'
        || c == '\u{202f}' || c == '\u{205f}' || c == '\u{3000}' || ('!' <= c && c <= '/') || (
    ':' <= c && c <= '@') || ('[' <= c && c <= '`') || ('{' <= c && c <= '~') || c == '\u{7f}'
        || c < ' '
}

pub fn fold_char(c: char) -> (r: char)
    ensures
        r == fold(c),
{
    if 'A' <= c && c <= 'Z' {
        ((c as u8) + 32u8) as char
    } else {
        c
    }
}

/// Relies on String::push: the character is appended to the string.
#[verifier::external_body]
fn push_char(s: &mut String, c: char)
    ensures
        final(s)@ == old(s)@.push(c),
{
    s.push(c);
}

/// The terms of `content`, in order of appearance. Documents and queries are both
/// read with this one function.
pub fn tokenize(content: &[char]) -> (r: Vec<String>)
    ensures
        crate::project::texts(r@) == terms_of(content@),
{
    let mut r: Vec<String> = Vec::new();
    let mut cur = String::new();
    let mut in_term = false;
    let mut i: usize = 0;
    while i < content.len()
        invariant
            i <= content@.len(),
            in_term == (cur@.len() > 0),
            crate::project::texts(r@) + lex_from(content@, i as int, cur@) == terms_of(
                content@,
            ),
        decreases content.len() - i,
    {
        let c = content[i];
        if is_separator_char(c) {
            let ghost r0 = crate::project::texts(r@);
            let ghost c0 = cur@;
            assert(lex_from(content@, i as int, c0) == (if c0.len() == 0 {
                seq![]
            } else {
                seq![c0]
            }) + lex_from(content@, i + 1, seq![]));
            if in_term {
                proof {
                    assert(crate::project::texts(r@.push(cur)) =~= crate::project::texts(r@)
                        + seq![cur@]);
                }
                r.push(cur);
                cur = String::new();
                in_term = false;
            }
            assert(cur@ =~= seq![]);
            assert(crate::project::texts(r@) + lex_from(content@, i + 1, cur@) =~= r0 + lex_from(
                content@,
                i as int,
                c0,
            ));
        } else {
            push_char(&mut cur, fold_char(c));
            in_term = true;
        }
        i += 1;
    }
    if in_term {
        proof {
            assert(crate::project::texts(r@.push(cur)) =~= crate::project::texts(r@) + seq![
                cur@,
            ]);
        }
        r.push(cur);
    }
    assert(crate::project::texts(r@) =~= terms_of(content@));
    r
}

} // verus!
