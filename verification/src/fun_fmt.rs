//! The layout of the specifier clauses at the end of a function header.

use crate::text::{
    chars_of, matches_at, occurs_at, push_chars, string_of, trim_end, trim_end_in_place,
};
use vstd::prelude::*;

verus! {

/// A character of which names are made.
pub open spec fn is_ident_char(c: char) -> bool {
    let u = c as u32;
    ||| 0x30 <= u <= 0x39
    ||| 0x41 <= u <= 0x5a
    ||| 0x61 <= u <= 0x7a
    ||| u == 0x5f
}

fn ident_char(c: char) -> (r: bool)
    ensures
        r == is_ident_char(c),
{
    let u: u32 = c as u32;
    (0x30 <= u && u <= 0x39) || (0x41 <= u && u <= 0x5a) || (0x61 <= u && u <= 0x7a) || u == 0x5f
}

/// Whether `word` stands in `s` at index `i` as a word of its own.
pub open spec fn word_at(s: Seq<char>, word: Seq<char>, i: int) -> bool {
    &&& occurs_at(s, word, i)
    &&& (i == 0 || !is_ident_char(s[i - 1]))
    &&& (i + word.len() == s.len() || !is_ident_char(s[i + word.len()]))
}

/// Whether one of the words `acquires`, `reads`, `writes`, `pure` stands at index `i`.
pub open spec fn specifier_at(s: Seq<char>, i: int) -> bool {
    ||| word_at(s, "acquires"@, i)
    ||| word_at(s, "reads"@, i)
    ||| word_at(s, "writes"@, i)
    ||| word_at(s, "pure"@, i)
}

/// Whether a specifier clause begins at index `i`: with its word, or with the
/// `!` that negates it.
pub open spec fn clause_at(s: Seq<char>, i: int) -> bool {
    if 0 <= i < s.len() && s[i] == '!' {
        specifier_at(s, i + 1)
    } else {
        specifier_at(s, i) && !(i > 0 && s[i - 1] == '!')
    }
}

/// `out`, followed by `s[i..]` with each clause on a line of its own.
pub open spec fn split_from(s: Seq<char>, indent: Seq<char>, i: nat, out: Seq<char>) -> Seq<char>
    decreases s.len() - i,
{
    if i >= s.len() {
        out
    } else if clause_at(s, i as int) {
        split_from(s, indent, i + 1, (trim_end(out) + seq!['\n'] + indent).push(s[i as int]))
    } else {
        split_from(s, indent, i + 1, out.push(s[i as int]))
    }
}

/// The header text `s` with each specifier clause on a line of its own: the
/// whitespace before a clause gives way to a line feed and `indent`.
pub open spec fn specifiers_split(s: Seq<char>, indent: Seq<char>) -> Seq<char> {
    split_from(s, indent, 0, Seq::empty())
}

/// Whether `word` stands in `s` at index `i` as a word of its own.
pub fn word_stands_at(s: &Vec<char>, word: &Vec<char>, i: usize) -> (r: bool)
    ensures
        r == word_at(s@, word@, i as int),
{
    if !matches_at(s, i, word) {
        return false;
    }
    let end = s.len();
    let len = word.len();
    assert(i + len <= end);
    if i > 0 && ident_char(s[i - 1]) {
        return false;
    }
    if i + len < end && ident_char(s[i + len]) {
        return false;
    }
    true
}

struct Specifiers {
    acquires: Vec<char>,
    reads: Vec<char>,
    writes: Vec<char>,
    pure: Vec<char>,
}

impl Specifiers {
    spec fn wf(&self) -> bool {
        &&& self.acquires@ == "acquires"@
        &&& self.reads@ == "reads"@
        &&& self.writes@ == "writes"@
        &&& self.pure@ == "pure"@
    }

    fn new() -> (w: Self)
        ensures
            w.wf(),
    {
        Specifiers {
            acquires: chars_of("acquires"),
            reads: chars_of("reads"),
            writes: chars_of("writes"),
            pure: chars_of("pure"),
        }
    }

    fn stands_at(&self, s: &Vec<char>, i: usize) -> (r: bool)
        requires
            self.wf(),
        ensures
            r == specifier_at(s@, i as int),
    {
        word_stands_at(s, &self.acquires, i) || word_stands_at(s, &self.reads, i)
            || word_stands_at(s, &self.writes, i) || word_stands_at(s, &self.pure, i)
    }

    fn clause_stands_at(&self, s: &Vec<char>, i: usize) -> (r: bool)
        requires
            self.wf(),
            i < s.len(),
        ensures
            r == clause_at(s@, i as int),
    {
        if s[i] == '!' {
            if i + 1 < s.len() {
                self.stands_at(s, i + 1)
            } else {
                proof {
                    reveal_strlit("acquires");
                    reveal_strlit("reads");
                    reveal_strlit("writes");
                    reveal_strlit("pure");
                }
                false
            }
        } else {
            self.stands_at(s, i) && !(i > 0 && s[i - 1] == '!')
        }
    }
}

/// The header text `s` with each specifier clause on a line of its own.
pub fn split_specifiers(s: &Vec<char>, indent: &Vec<char>) -> (out: Vec<char>)
    ensures
        out@ == specifiers_split(s@, indent@),
{
    let words = Specifiers::new();
    let mut out: Vec<char> = Vec::new();
    let mut i: usize = 0;
    while i < s.len()
        invariant
            i <= s.len(),
            words.wf(),
            split_from(s@, indent@, i as nat, out@) == specifiers_split(s@, indent@),
        decreases s.len() - i,
    {
        if words.clause_stands_at(s, i) {
            let ghost before = out@;
            trim_end_in_place(&mut out);
            out.push('\n');
            push_chars(&mut out, indent);
            out.push(s[i]);
            assert(out@ == (trim_end(before) + seq!['\n'] + indent@).push(s@[i as int]));
        } else {
            out.push(s[i]);
        }
        i += 1;
    }
    out
}

/// The end of a function header, from after the `f` of `fun`, with each of
/// its specifier clauses (`acquires`, `reads`, `writes`, `pure`) moved to a
/// continuation line that begins with `indent_str`.
pub fn fun_header_specifier_fmt(specifier: &str, indent_str: &str) -> (text: String)
    ensures
        text@ == specifiers_split(specifier@, indent_str@),
{
    let s = chars_of(specifier);
    let indent = chars_of(indent_str);
    let out = split_specifiers(&s, &indent);
    string_of(&out)
}

} // verus!
