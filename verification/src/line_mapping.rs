//! From byte offsets to source lines.

use crate::text::{chars_of, lemma_utf8_len_push, utf8_len, utf8_width_of};
use vstd::prelude::*;

verus! {

/// How many entries of `offsets` lie below `pos`.
pub open spec fn count_below(offsets: Seq<u32>, pos: u32) -> nat
    decreases offsets.len(),
{
    if offsets.len() == 0 {
        0
    } else {
        count_below(offsets.drop_last(), pos) + if offsets.last() < pos {
            1nat
        } else {
            0nat
        }
    }
}

/// The byte offsets of the line feeds of `content`, in their order.
pub open spec fn newline_offsets(content: Seq<char>) -> Seq<u32>
    decreases content.len(),
{
    if content.len() == 0 {
        Seq::empty()
    } else if content.last() == '\n' {
        newline_offsets(content.drop_last()).push(utf8_len(content.drop_last()) as u32)
    } else {
        newline_offsets(content.drop_last())
    }
}

/// How many line feeds of `content` begin at a byte offset below `pos`.
pub open spec fn lines_before(content: Seq<char>, pos: nat) -> nat
    decreases content.len(),
{
    if content.len() == 0 {
        0
    } else {
        lines_before(content.drop_last(), pos) + if content.last() == '\n' && utf8_len(
            content.drop_last(),
        ) < pos {
            1nat
        } else {
            0nat
        }
    }
}

/// The line feeds of one source file.
#[derive(Clone, Debug, PartialEq, Eq)]
pub struct LineMapping {
    /// The byte offset of each line feed.
    pub newlines: Vec<u32>,
}

impl LineMapping {
    /// Every line number fits in a `u32`.
    pub open spec fn wf(&self) -> bool {
        self.newlines@.len() <= u32::MAX
    }

    /// The line, counted from 0, on which the byte at `pos` stands.
    pub open spec fn line_of(&self, pos: u32) -> nat {
        count_below(self.newlines@, pos)
    }

    /// Whether every line number fits in a `u32`.
    pub fn is_wf(&self) -> (b: bool)
        ensures
            b == self.wf(),
    {
        self.newlines.len() <= 0xffff_ffff
    }

    /// The mapping of a file that holds `content`.
    pub fn new(content: &str) -> (m: Self)
        requires
            utf8_len(content@) <= u32::MAX,
        ensures
            m.wf(),
            m.newlines@ == newline_offsets(content@),
            forall|pos: u32| m.line_of(pos) == lines_before(content@, pos as nat),
    {
        let v = chars_of(content);
        let mut newlines: Vec<u32> = Vec::new();
        let mut offset: u32 = 0;
        let mut i: usize = 0;
        assert(v@.take(v@.len() as int) == v@);
        while i < v.len()
            invariant
                i <= v.len(),
                v@ == content@,
                utf8_len(v@) <= u32::MAX,
                offset == utf8_len(v@.take(i as int)),
                newlines@.len() <= offset,
                newlines@ == newline_offsets(v@.take(i as int)),
                forall|pos: u32|
                    count_below(newlines@, pos) == lines_before(v@.take(i as int), pos as nat),
            decreases v.len() - i,
        {
            let c = v[i];
            let ghost before = v@.take(i as int);
            let ghost offsets = newlines@;
            proof {
                assert(v@.take(i + 1) == before.push(c));
                assert(before.push(c).drop_last() == before);
                lemma_utf8_len_push(before, c);
                lemma_utf8_len_take(v@, i + 1);
            }
            if c == '\n' {
                newlines.push(offset);
                assert(newlines@.drop_last() == offsets);
            }
            assert forall|pos: u32|
                count_below(newlines@, pos) == lines_before(
                    v@.take(i + 1),
                    pos as nat,
                ) by {
                assert(count_below(offsets, pos) == lines_before(before, pos as nat));
            }
            offset = offset + utf8_width_of(c) as u32;
            i += 1;
        }
        LineMapping { newlines }
    }

    /// The line, counted from 0, on which the byte at `pos` stands.
    pub fn translate_line(&self, pos: u32) -> (line: u32)
        requires
            self.wf(),
        ensures
            line == self.line_of(pos),
    {
        let mut line: u32 = 0;
        let mut i: usize = 0;
        assert(self.newlines@.take(self.newlines@.len() as int) == self.newlines@);
        while i < self.newlines.len()
            invariant
                i <= self.newlines.len(),
                self.newlines@.len() <= u32::MAX,
                line == count_below(self.newlines@.take(i as int), pos),
                line <= i,
            decreases self.newlines.len() - i,
        {
            assert(self.newlines@.take(i + 1).drop_last() == self.newlines@.take(i as int));
            if self.newlines[i] < pos {
                line = line + 1;
            }
            i += 1;
        }
        line
    }
}

/// A prefix of a text is no longer than the text.
pub proof fn lemma_utf8_len_take(s: Seq<char>, n: int)
    requires
        0 <= n <= s.len(),
    ensures
        utf8_len(s.take(n)) <= utf8_len(s),
    decreases s.len() - n,
{
    if n < s.len() {
        lemma_utf8_len_take(s, n + 1);
        assert(s.take(n + 1).drop_last() == s.take(n));
    } else {
        assert(s.take(n) == s);
    }
}

} // verus!
