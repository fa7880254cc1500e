//! How a comment is classified and what text stands for it in the output.

use crate::text::{chars_of, lemma_utf8_len_zero, str_fits_within, str_len_within, utf8_len};
use crate::token_tree::{Comment, CommentKind};
use vstd::prelude::*;

verus! {

impl Comment {
    /// A comment that opens with `//` is doc-style, any other block-style.
    pub open spec fn kind(&self) -> CommentKind {
        if self.content@.len() >= 2 && self.content@[0] == '/' && self.content@[1] == '/' {
            CommentKind::DocComment
        } else {
            CommentKind::BlockComment
        }
    }

    /// The comment is not empty and ends at an offset that a `u32` holds.
    pub open spec fn wf(&self) -> bool {
        0 < utf8_len(self.content@) && self.start_offset + utf8_len(self.content@) <= u32::MAX
    }

    /// The offset after the last byte of the comment.
    pub open spec fn end_offset(&self) -> int {
        self.start_offset + utf8_len(self.content@)
    }

    /// The comment holds an answer of the rewrap service for `depth`, or needs none.
    pub open spec fn covers(&self, depth: nat) -> bool {
        self.kind() == CommentKind::BlockComment ==> depth < self.reflowed@.len()
    }

    /// What the rewrap service's answer makes of the comment: its text where
    /// it gave one, the comment as written where it gave none.
    pub open spec fn rewrapped(&self, answer: Option<String>) -> Seq<char> {
        match answer {
            Some(text) => text@,
            None => self.content@,
        }
    }

    /// The text that stands for the comment at nesting depth `depth`, when
    /// it is taken to be of kind `kind`.
    pub open spec fn formatted(&self, kind: CommentKind, depth: nat) -> Seq<char> {
        match kind {
            CommentKind::DocComment => self.content@,
            CommentKind::BlockComment => self.rewrapped(self.reflowed@[depth as int]),
        }
    }

    /// Whether the comment is not empty and ends at an offset that a `u32` holds.
    pub fn is_wf(&self) -> (b: bool)
        ensures
            b == self.wf(),
    {
        proof {
            lemma_utf8_len_zero(self.content@);
        }
        let room: u32 = u32::MAX - self.start_offset;
        !self.content.as_str().is_empty() && str_fits_within(self.content.as_str(), room as usize)
    }

    /// Whether the comment holds an answer of the rewrap service for `depth`,
    /// or needs none.
    pub fn has_text_for(&self, depth: usize) -> (b: bool)
        ensures
            b == self.covers(depth as nat),
    {
        match self.comment_kind() {
            CommentKind::DocComment => true,
            CommentKind::BlockComment => depth < self.reflowed.len(),
        }
    }

    pub fn comment_kind(&self) -> (kind: CommentKind)
        ensures
            kind == self.kind(),
    {
        let v = chars_of(self.content.as_str());
        if v.len() >= 2 && v[0] == '/' && v[1] == '/' {
            CommentKind::DocComment
        } else {
            CommentKind::BlockComment
        }
    }

    /// The number of bytes of the comment.
    pub fn byte_len(&self) -> (n: u32)
        requires
            self.wf(),
        ensures
            n == utf8_len(self.content@),
    {
        let room: u32 = u32::MAX - self.start_offset;
        str_len_within(self.content.as_str(), room as usize) as u32
    }

    /// A block comment after the rewrap service has seen it.
    pub fn format_doc_comment_with_multi_star(&self, answer: &Option<String>) -> (text: String)
        ensures
            text@ == self.rewrapped(*answer),
    {
        let mut result = self.content.clone();
        if let Some(comment) = answer {
            result = comment.clone();
        }
        result
    }

    /// The text that stands for the comment in the output: a doc comment as
    /// it is written, a block comment as the rewrap service left it for
    /// nesting depth `depth`.
    pub fn format_comment(&self, kind: CommentKind, depth: usize) -> (text: String)
        requires
            kind == CommentKind::BlockComment ==> depth < self.reflowed@.len(),
        ensures
            text@ == self.formatted(kind, depth as nat),
    {
        if kind == CommentKind::DocComment {
            self.content.clone()
        } else {
            self.format_doc_comment_with_multi_star(&self.reflowed[depth])
        }
    }
}

} // verus!
