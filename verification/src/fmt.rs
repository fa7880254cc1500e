//! The formatting engine: one pass over the token forest that writes the
//! canonical text, tokens and comments in step.

use crate::expr_fmt::{need_space, need_space_after_token};
use crate::fun_fmt::{split_specifiers, word_at, word_stands_at};
use crate::layout::{
    lemma_supports_less, clings, delimiter_of, follows_pound, names_module, next_of, splittable,
    Cursor, Env, Piece, Run, MAX_ELEMENTS_LENGTH, MAX_LINE_LENGTH,
};
use crate::line_mapping::LineMapping;
use crate::text::{
    chars_of, contains_char, last_line, last_line_bounds, push_chars, push_spaces, push_text,
    spaces, string_of, strip_line_ends, strip_lines, text_rfind, trim_end,
    trim_end_in_place, utf8_len, utf8_len_within,
};
use crate::token_tree::{
    forest_height, forest_height_within, forest_is_wf, forest_wf, lemma_forest_height,
    lemma_forest_wf, tree_of, Comment, CommentKind, Delimiter, NestKind, NestKind_, Note, Tok,
    TokenTree,
};
use vstd::prelude::*;

verus! {

/// The construct that is being formatted.
#[derive(Clone, Copy, Debug, PartialEq, Eq, Structural)]
pub enum FormatEnv {
    FormatUse,
    FormatStruct,
    FormatExp,
    FormatTuple,
    FormatList,
    FormatLambda,
    FormatFun,
    FormatSpecModule,
    FormatSpecStruct,
    FormatSpecFun,
    FormatDefault,
}

/// The source text and the construct that is being formatted.
#[derive(Debug, PartialEq, Eq)]
pub struct FormatContext {
    pub content: String,
    pub env: FormatEnv,
}

impl FormatContext {
    /// The context of `content`, taken as the construct `env`.
    pub fn new(content: String, env: FormatEnv) -> (context: Self)
        ensures
            context.content == content,
            context.env == env,
    {
        FormatContext { content, env }
    }

    /// Takes the content as the construct `env` from now on.
    pub fn set_env(&mut self, env: FormatEnv)
        ensures
            final(self).env == env,
            final(self).content == old(self).content,
    {
        self.env = env;
    }
}

/// How the output is laid out.
#[derive(Clone, Copy, Debug, PartialEq, Eq, Structural)]
pub struct FormatConfig {
    /// The number of spaces for one level of nesting.
    pub indent_size: usize,
}

/// A formatting run: the forest and the comments of one source file, and
/// what has been written of them.
pub struct Format {
    pub config: FormatConfig,
    /// The number of brackets that are open.
    pub depth: usize,
    pub token_tree: Vec<TokenTree>,
    pub comments: Vec<Comment>,
    pub line_mapping: LineMapping,
    /// The index of the first comment that is not in the output yet.
    pub comments_index: usize,
    /// The output so far.
    pub ret: Vec<char>,
    /// The tokens and comments written so far, in the order in which they
    /// were written.
    pub written: Ghost<Seq<Piece>>,
    /// The source line of what was written last.
    pub cur_line: u32,
    pub format_context: FormatContext,
    /// The index of the next top-level tree.
    pub next_item: usize,
    /// The index of the last top-level attribute marker, until the tree
    /// after it is written.
    pub pound_sign: Option<usize>,
}

/// How far a run has come.
pub enum Progress {
    /// A top-level brace block has been written. The output waits for the
    /// comment blocks before its function headers to be reflowed and for a
    /// blank row between adjacent functions; `declarations_rewritten` takes
    /// the text back.
    Declarations(Format),
    /// The output waits for each `if`/`else` on the right of a `let` to be
    /// split over lines; `let_bindings_rewritten` takes the text back.
    LetBindings(Format),
    /// The whole forest is written: the formatted text.
    Finished(String),
}

/// The index kept in an optional `usize`.
pub open spec fn index_of(pound: Option<usize>) -> Option<nat> {
    match pound {
        Some(p) => Some(p as nat),
        None => None,
    }
}

fn token_clings(content: &str) -> (r: bool)
    ensures
        r == clings(content@),
{
    contains_char(content, ')') || contains_char(content, ',') || contains_char(content, ';')
        || contains_char(content, '.')
}

impl Format {
    /// What the run reads and never changes.
    pub open spec fn env(&self) -> Env {
        Env {
            indent_size: self.config.indent_size as nat,
            comments: self.comments@,
            lines: self.line_mapping,
        }
    }

    /// What the run has written and where it stands.
    pub open spec fn cursor(&self) -> Cursor {
        Cursor {
            out: self.ret@,
            written: self.written@,
            depth: self.depth as nat,
            next_comment: self.comments_index as nat,
            cur_line: self.cur_line as nat,
        }
    }

    /// The comments and the line mapping are well formed, and the comment
    /// cursor stands within the comments.
    pub open spec fn wf(&self) -> bool {
        &&& self.env().wf()
        &&& self.comments_index <= self.comments@.len()
    }

    /// The run can go on from here through trees of height `height`.
    pub open spec fn ready(&self, height: nat) -> bool {
        &&& self.wf()
        &&& self.env().supports(self.depth as nat + height)
    }

    /// `self` reads what `before` reads, and stands at the same top-level tree.
    pub open spec fn continues(&self, before: &Format) -> bool {
        &&& self.env() == before.env()
        &&& self.token_tree == before.token_tree
        &&& self.format_context == before.format_context
        &&& self.next_item == before.next_item
        &&& self.pound_sign == before.pound_sign
    }

    /// A run that has written nothing yet.
    pub fn new(
        config: FormatConfig,
        comments: Vec<Comment>,
        line_mapping: LineMapping,
        token_tree: Vec<TokenTree>,
        format_context: FormatContext,
    ) -> (format: Self)
        ensures
            format.config == config,
            format.comments == comments,
            format.line_mapping == line_mapping,
            format.token_tree == token_tree,
            format.format_context == format_context,
            format.cursor() == (Cursor {
                out: Seq::empty(),
                written: Seq::empty(),
                depth: 0,
                next_comment: 0,
                cur_line: 0,
            }),
            format.next_item == 0,
            format.pound_sign is None,
    {
        Format {
            comments_index: 0,
            config,
            depth: 0,
            token_tree,
            comments,
            line_mapping,
            ret: Vec::new(),
            written: Ghost(Seq::empty()),
            cur_line: 0,
            format_context,
            next_item: 0,
            pound_sign: None,
        }
    }

    /// Goes one level deeper.
    pub fn inc_depth(&mut self)
        requires
            old(self).depth < usize::MAX,
        ensures
            final(self).continues(old(self)),
            final(self).cursor() == (Cursor {
                depth: old(self).depth as nat + 1,
                ..old(self).cursor()
            }),
    {
        let old = self.depth;
        self.depth = old + 1;
    }

    /// Goes one level back.
    pub fn dec_depth(&mut self)
        requires
            old(self).depth > 0,
        ensures
            final(self).continues(old(self)),
            final(self).cursor() == (Cursor {
                depth: (old(self).depth - 1) as nat,
                ..old(self).cursor()
            }),
    {
        let old = self.depth;
        self.depth = old - 1;
    }

    /// Writes `s`.
    pub fn push_str(&mut self, s: &str)
        ensures
            final(self).continues(old(self)),
            final(self).cursor() == old(self).cursor().push(s@),
    {
        push_text(&mut self.ret, s);
    }

    /// Whether a comment that is written next is set off by a space.
    pub fn no_space_or_new_line_for_comment(&self) -> (r: bool)
        ensures
            r == self.cursor().wants_space(),
    {
        let n = self.ret.len();
        if n > 0 {
            let last = self.ret[n - 1];
            last != '\n' && last != ' ' && last != '('
        } else {
            false
        }
    }

    /// Writes the indentation of the current depth.
    pub fn indent(&mut self)
        requires
            old(self).depth * old(self).config.indent_size <= usize::MAX,
        ensures
            final(self).continues(old(self)),
            final(self).cursor() == old(self).cursor().push(
                spaces(old(self).depth as nat * old(self).config.indent_size as nat),
            ),
    {
        let n = self.depth * self.config.indent_size;
        push_spaces(&mut self.ret, n);
    }

    /// The line, counted from 0, on which the byte at `pos` stands.
    pub fn translate_line(&self, pos: u32) -> (line: u32)
        requires
            self.line_mapping.wf(),
        ensures
            line == self.env().line_at(pos),
    {
        self.line_mapping.translate_line(pos)
    }

    /// The length in bytes of the last line of the output, `usize::MAX`
    /// where it is longer than that.
    pub fn last_line_length(&self) -> (n: usize)
        ensures
            n == if utf8_len(last_line(self.ret@)) <= usize::MAX {
                utf8_len(last_line(self.ret@))
            } else {
                usize::MAX as nat
            },
    {
        let (start, end) = last_line_bounds(&self.ret);
        utf8_len_within(&self.ret, start, end, usize::MAX)
    }

    /// The last line of the output.
    pub fn last_line(&self) -> (line: String)
        ensures
            line@ == last_line(self.ret@),
    {
        let (start, end) = last_line_bounds(&self.ret);
        let mut line = String::new();
        let mut i: usize = start;
        while i < end
            invariant
                start <= i <= end <= self.ret.len(),
                line@ == self.ret@.subrange(start as int, i as int),
            decreases end - i,
        {
            line.push(self.ret[i]);
            i += 1;
            assert(self.ret@.subrange(start as int, i as int) == self.ret@.subrange(
                start as int,
                i - 1,
            ).push(self.ret@[i - 1]));
        }
        line
    }

    /// Whether the last line of the output holds the word `module` as a
    /// word of its own.
    fn last_line_names_module(&self) -> (r: bool)
        ensures
            r == names_module(last_line(self.ret@)),
    {
        let (start, end) = last_line_bounds(&self.ret);
        let word = chars_of("module");
        let mut line: Vec<char> = Vec::new();
        let mut k: usize = start;
        while k < end
            invariant
                start <= k <= end <= self.ret.len(),
                line@ == self.ret@.subrange(start as int, k as int),
            decreases end - k,
        {
            line.push(self.ret[k]);
            k += 1;
            assert(line@ =~= self.ret@.subrange(start as int, k as int));
        }
        let mut i: usize = 0;
        while i < line.len()
            invariant
                i <= line.len(),
                line@ == last_line(self.ret@),
                word@ == "module"@,
                forall|j: int| 0 <= j < i ==> !word_at(line@, word@, j),
            decreases line.len() - i,
        {
            if word_stands_at(&line, &word, i) {
                return true;
            }
            i += 1;
        }
        proof {
            reveal_strlit("module");
            assert forall|j: int| !word_at(line@, word@, j) by {
                if j >= line@.len() {
                    assert(!crate::text::occurs_at(line@, word@, j));
                }
            }
        }
        false
    }

    /// Takes the spaces at the end of each line of the output away.
    pub fn remove_trailing_whitespaces(&mut self)
        ensures
            final(self).continues(old(self)),
            final(self).cursor() == (Cursor {
                out: strip_lines(old(self).ret@),
                ..old(self).cursor()
            }),
    {
        let result = strip_line_ends(&self.ret);
        self.ret = result;
    }

    /// Writes a line feed and the indentation.
    fn line_feed(&mut self)
        requires
            old(self).depth * old(self).config.indent_size <= usize::MAX,
        ensures
            final(self).continues(old(self)),
            final(self).cursor() == old(self).env().new_line(old(self).cursor()),
    {
        self.ret.push('\n');
        self.indent();
        assert(self.ret@ =~= old(self).ret@ + (seq!['\n'] + spaces(
            old(self).depth as nat * old(self).config.indent_size as nat,
        )));
    }

    /// Sets one empty line and begins a line.
    fn blank_line(&mut self)
        requires
            old(self).depth * old(self).config.indent_size <= usize::MAX,
        ensures
            final(self).continues(old(self)),
            final(self).cursor() == old(self).env().blank_line(old(self).cursor()),
    {
        trim_end_in_place(&mut self.ret);
        if self.ret.len() > 0 {
            self.ret.push('\n');
            assert(self.ret@ =~= trim_end(old(self).ret@) + seq!['\n']);
        }
        self.line_feed();
    }

    /// Ends the line: with `None` by a line feed and the indentation, with
    /// an offset by what ends the line behind the token that ends there.
    pub fn new_line(&mut self, add_line_comment_option: Option<u32>)
        requires
            old(self).ready(0),
        ensures
            final(self).continues(old(self)),
            final(self).wf(),
            final(self).cursor() == match add_line_comment_option {
                Some(pos) => old(self).env().process_same_line_comment(
                    old(self).cursor(),
                    pos,
                    false,
                ),
                None => old(self).env().new_line(old(self).cursor()),
            },
            final(self).depth == old(self).depth,
    {
        match add_line_comment_option {
            Some(add_line_comment) => {
                self.process_same_line_comment(add_line_comment, false);
            },
            None => {
                proof {
                    self.lemma_indent_fits();
                }
                self.line_feed();
            },
        }
    }

    /// The indentation of the current depth fits.
    proof fn lemma_indent_fits(&self)
        requires
            self.env().supports(self.depth as nat),
        ensures
            self.depth * self.config.indent_size <= usize::MAX,
            (self.depth + 1) * self.config.indent_size <= usize::MAX,
    {
        assert(self.depth * self.config.indent_size <= (self.depth + 1) * self.config.indent_size)
            by (nonlinear_arith);
    }

    /// Writes the comments that trail the token that ends at `pos`, and
    /// says whether a line break was written with them.
    fn trailing_comments(&mut self, pos: u32, tail: bool) -> (broke: bool)
        requires
            old(self).ready(0),
        ensures
            final(self).continues(old(self)),
            final(self).wf(),
            (final(self).cursor(), broke) == old(self).env().trailing_comments(
                old(self).cursor(),
                pos,
                tail,
                false,
            ),
            final(self).depth == old(self).depth,
    {
        let ghost env = self.env();
        let ghost start = self.cursor();
        let mut broke = false;
        let line = self.translate_line(pos);
        proof {
            self.lemma_indent_fits();
        }
        while self.comments_index < self.comments.len()
            invariant
                self.wf(),
                self.continues(old(self)),
                env == old(self).env(),
                self.depth == old(self).depth,
                self.depth * self.config.indent_size <= usize::MAX,
                env.supports(self.depth as nat),
                line == env.line_at(pos),
                env.trailing_comments(self.cursor(), pos, tail, broke) == env.trailing_comments(
                    start,
                    pos,
                    tail,
                    false,
                ),
            ensures
                env.trailing_comments(start, pos, tail, false) == (self.cursor(), broke),
                self.wf(),
                self.continues(old(self)),
                self.depth == old(self).depth,
            decreases self.comments.len() - self.comments_index,
        {
            let ghost before = self.cursor();
            let c = &self.comments[self.comments_index];
            assert(c.wf() && c.covers(self.depth as nat));
            let start_offset = c.start_offset;
            if !tail && start_offset > pos {
                break ;
            }
            if line != self.line_mapping.translate_line(start_offset) {
                break ;
            }
            let kind = c.comment_kind();
            let text = c.format_comment(kind, self.depth);
            let len = c.byte_len();
            let line_start = self.line_mapping.translate_line(start_offset);
            let line_end = self.line_mapping.translate_line(start_offset + len);
            let last_line = self.line_mapping.translate_line(start_offset + len - 1);
            if self.no_space_or_new_line_for_comment() {
                self.ret.push(' ');
                assert(self.ret@ == before.out + seq![' ']);
            }
            push_text(&mut self.ret, text.as_str());
            self.written = Ghost(
                self.written@.push(Piece::Comment(before.next_comment, before.depth)),
            );
            let step = match kind {
                CommentKind::BlockComment => line_start != line_end,
                _ => true,
            };
            if step {
                self.line_feed();
                broke = true;
            }
            self.comments_index = self.comments_index + 1;
            self.cur_line = last_line;
            assert(self.cursor() == env.trailing_comment(before).0);
        }
        broke
    }

    /// Ends the line behind the token that ends at `add_line_comment_pos`:
    /// writes the comments that trail it on its source line (with
    /// `process_tail_comment_of_line`, also those that begin after the
    /// offset), then a line break, unless the comments brought one or moved
    /// on to another source line.
    pub fn process_same_line_comment(
        &mut self,
        add_line_comment_pos: u32,
        process_tail_comment_of_line: bool,
    )
        requires
            old(self).ready(0),
        ensures
            final(self).continues(old(self)),
            final(self).wf(),
            final(self).cursor() == old(self).env().process_same_line_comment(
                old(self).cursor(),
                add_line_comment_pos,
                process_tail_comment_of_line,
            ),
            final(self).depth == old(self).depth,
    {
        let cur_line = self.cur_line;
        let call_new_line = self.trailing_comments(
            add_line_comment_pos,
            process_tail_comment_of_line,
        );
        if cur_line != self.cur_line || call_new_line {
            return ;
        }
        proof {
            self.lemma_indent_fits();
        }
        self.line_feed();
    }

    /// Writes every comment that begins at or before `pos`, in front of the
    /// token with the text `content`: after a blank line where the source
    /// has blank lines before it, on a new line where it begins the next
    /// source line; a doc comment ends its line, a block comment only where
    /// it spans lines.
    pub fn add_comments(&mut self, pos: u32, content: &str)
        requires
            old(self).ready(0),
        ensures
            final(self).continues(old(self)),
            final(self).wf(),
            final(self).cursor() == old(self).env().add_comments(
                old(self).cursor(),
                pos,
                content@,
            ),
            final(self).depth == old(self).depth,
    {
        let ghost env = self.env();
        let ghost start = self.cursor();
        let shy = token_clings(content);
        proof {
            self.lemma_indent_fits();
        }
        while self.comments_index < self.comments.len()
            invariant
                self.wf(),
                self.continues(old(self)),
                env == old(self).env(),
                self.depth == old(self).depth,
                self.depth * self.config.indent_size <= usize::MAX,
                env.supports(self.depth as nat),
                shy == clings(content@),
                env.add_comments(self.cursor(), pos, content@) == env.add_comments(
                    start,
                    pos,
                    content@,
                ),
            ensures
                env.add_comments(start, pos, content@) == self.cursor(),
                self.wf(),
                self.continues(old(self)),
                self.depth == old(self).depth,
            decreases self.comments.len() - self.comments_index,
        {
            let ghost before = self.cursor();
            let c = &self.comments[self.comments_index];
            assert(c.wf() && c.covers(self.depth as nat));
            let start_offset = c.start_offset;
            if start_offset > pos {
                break ;
            }
            let kind = c.comment_kind();
            let text = c.format_comment(kind, self.depth);
            let len = c.byte_len();
            let line_start = self.line_mapping.translate_line(start_offset);
            let line_end = self.line_mapping.translate_line(start_offset + len);
            let last_line = self.line_mapping.translate_line(start_offset + len - 1);
            if line_start > self.cur_line && line_start - self.cur_line > 1 {
                self.blank_line();
            } else if line_start > self.cur_line && line_start - self.cur_line == 1 {
                trim_end_in_place(&mut self.ret);
                self.line_feed();
            }
            if self.no_space_or_new_line_for_comment() {
                self.ret.push(' ');
            }
            push_text(&mut self.ret, text.as_str());
            self.written = Ghost(
                self.written@.push(Piece::Comment(before.next_comment, before.depth)),
            );
            match kind {
                CommentKind::DocComment => {
                    self.line_feed();
                },
                _ => {
                    if !shy {
                        self.ret.push(' ');
                    }
                    if line_start != line_end {
                        self.line_feed();
                    }
                },
            }
            self.comments_index = self.comments_index + 1;
            self.cur_line = last_line;
            assert(self.cursor().out =~= env.leading_comment(before, content@).out);
            assert(self.cursor() == env.leading_comment(before, content@));
        }
    }
}

fn note_is(note: &Option<Note>, wanted: Note) -> (r: bool)
    ensures
        r == (*note == Some(wanted)),
{
    match note {
        Some(n) => *n == wanted,
        None => false,
    }
}

impl Format {
    /// Lays the function header at the end of the output out anew: the text
    /// after the `f` of the last `fun` gets its specifier clauses on
    /// continuation lines, one level below the header.
    fn rewrite_fun_header(&mut self)
        requires
            old(self).depth < usize::MAX,
            (old(self).depth + 1) * old(self).config.indent_size <= usize::MAX,
        ensures
            final(self).continues(old(self)),
            final(self).cursor() == old(self).env().rewrite_header(old(self).cursor()),
    {
        let word = chars_of("fun");
        proof {
            reveal_strlit("fun");
        }
        let len = self.ret.len();
        if let Some(last_fun_idx) = text_rfind(&self.ret, &word) {
            proof {
                crate::text::lemma_rfind_from(self.ret@, word@, self.ret@.len() - word@.len());
                assert(crate::text::occurs_at(self.ret@, word@, last_fun_idx as int));
                assert(last_fun_idx + 3 <= len);
            }
            let header = self.ret.split_off(last_fun_idx + 1);
            let mut indent_str: Vec<char> = Vec::new();
            push_spaces(&mut indent_str, (self.depth + 1) * self.config.indent_size);
            assert(indent_str@ =~= spaces(
                (old(self).depth as nat + 1) * old(self).config.indent_size as nat,
            ));
            let fun_specifier_fmted_str = split_specifiers(&header, &indent_str);
            push_chars(&mut self.ret, &fun_specifier_fmted_str);
        }
    }

    /// Writes a simple token: the comments that come before it, a blank
    /// line where the source has blank lines before it, its text, and then a
    /// line break where the line has grown too long and the token is
    /// splittable, or a space where one belongs between it and the next
    /// tree. With `new_line_after` nothing follows the text: the caller ends
    /// the line.
    pub fn format_simple_token(
        &mut self,
        content: &str,
        pos: u32,
        tok: Tok,
        note: Option<Note>,
        next_token: Option<&TokenTree>,
        new_line_after: bool,
    )
        requires
            old(self).ready(0),
        ensures
            final(self).continues(old(self)),
            final(self).wf(),
            final(self).cursor() == old(self).env().render_token(
                old(self).cursor(),
                content@,
                pos,
                tok,
                note,
                tree_of(next_token),
                new_line_after,
            ),
            final(self).depth == old(self).depth,
    {
        let ghost env = self.env();
        self.add_comments(pos, content);
        let ghost c1 = self.cursor();
        let line = self.translate_line(pos);
        proof {
            self.lemma_indent_fits();
        }
        if line > self.cur_line && line - self.cur_line > 1 {
            self.blank_line();
        }
        let ghost c2 = self.cursor();
        assert(c2 == if env.line_at(pos) > c1.cur_line + 1 {
            env.blank_line(c1)
        } else {
            c1
        });
        self.push_str(content);
        self.written = Ghost(self.written@.push(Piece::Token(content@)));
        self.cur_line = line;
        let ghost c3 = self.cursor();
        assert(c3 == (Cursor {
            cur_line: env.line_at(pos),
            ..c2.write(Piece::Token(content@), content@)
        }));
        if new_line_after {
            return ;
        }
        if self.last_line_length() > MAX_LINE_LENGTH && Self::tok_suitable_for_new_line(
            tok,
            note,
            next_token,
        ) {
            self.line_feed();
            return ;
        }
        if need_space_after_token(tok, note, next_token) {
            self.ret.push(' ');
            assert(self.ret@ =~= c3.out + seq![' ']);
        }
    }

    /// Opens a nested node: lays the header before a function body out
    /// anew, decides on multi-line mode, writes the opening bracket, goes
    /// one level deeper unless the node is the address of a module, and in
    /// multi-line mode follows the bracket up. Returns the mode.
    fn open_nested(&mut self, elements: &Vec<TokenTree>, kind: &NestKind, note: &Option<Note>) -> (
        new_line_mode: bool
    )
        requires
            old(self).ready(1),
        ensures
            final(self).continues(old(self)),
            final(self).wf(),
            new_line_mode == old(self).env().lays_out_in_lines(
                old(self).cursor(),
                elements@,
                kind.kind,
                *note,
            ),
            final(self).cursor() == old(self).env().open_node(
                old(self).cursor(),
                elements@,
                *kind,
                *note,
            ),
            final(self).depth == if *note != Some(Note::ModuleAddress) {
                old(self).depth + 1
            } else {
                old(self).depth as int
            },
    {
        let ghost env = self.env();
        let nested_in_struct_definition = note_is(note, Note::StructDefinition);
        let fun_body = note_is(note, Note::FunBody);
        let length = Self::analyze_token_tree_length(elements, MAX_ELEMENTS_LENGTH);
        let (delimiter, _has_colon) = Self::analyze_token_tree_delimiter(elements);
        proof {
            lemma_supports_less(env, self.depth as nat + 1, self.depth as nat);
            self.lemma_indent_fits();
        }
        if fun_body {
            self.rewrite_fun_header();
        }
        assert(self.cursor() == env.header_done(old(self).cursor(), *note));
        let semicolon = match delimiter {
            Some(Delimiter::Semicolon) => true,
            _ => false,
        };
        let mut new_line_mode = length > MAX_ELEMENTS_LENGTH || semicolon || (
        nested_in_struct_definition && elements.len() > 0) || fun_body;
        if fun_body && elements.len() == 0 {
            new_line_mode = false;
        }
        let b_add_indent = !note_is(note, Note::ModuleAddress);
        match kind.kind {
            NestKind_::Brace => {
                if !(fun_body && elements.len() == 0) && self.last_line_names_module() {
                    new_line_mode = true;
                }
            },
            _ => {
                if delimiter.is_none() {
                    new_line_mode = false;
                }
            },
        }
        assert(new_line_mode == env.multi_line(self.cursor(), elements@, kind.kind, *note));
        self.format_simple_token(
            kind.kind.start_str(),
            kind.start_pos,
            kind.kind.start_tok(),
            None,
            None,
            new_line_mode,
        );
        if b_add_indent {
            self.inc_depth();
        }
        if new_line_mode {
            if elements.len() > 0 {
                let next_token_start_pos = elements[0].start_pos();
                if self.translate_line(next_token_start_pos) > self.translate_line(
                    kind.start_pos,
                ) {
                    self.process_same_line_comment(kind.start_pos, true);
                } else {
                    self.trailing_comments(kind.start_pos, false);
                }
            } else {
                self.new_line(Some(kind.start_pos));
            }
        }
        new_line_mode
    }

    /// Closes the nested node `token`: writes the comments up to the closing
    /// bracket, goes back to the depth of the node, closes the whitespace at
    /// the end of the output up, ends the line in multi-line mode, writes
    /// the closing bracket, and a space where one belongs between the node
    /// and `next_token`.
    fn close_nested(
        &mut self,
        token: &TokenTree,
        next_token: Option<&TokenTree>,
        new_line_mode: bool,
    )
        requires
            *token is Nested,
            old(self).wf(),
            old(self).env().supports(old(self).depth as nat),
            token.note_of() != Some(Note::ModuleAddress) ==> old(self).depth > 0,
        ensures
            final(self).continues(old(self)),
            final(self).wf(),
            final(self).cursor() == old(self).env().close_node(
                old(self).cursor(),
                *token,
                tree_of(next_token),
                new_line_mode,
            ),
            final(self).depth == if token.note_of() != Some(Note::ModuleAddress) {
                old(self).depth - 1
            } else {
                old(self).depth as int
            },
    {
        let ghost env = self.env();
        match token {
            TokenTree::Nested { kind, note, .. } => {
                let b_add_indent = !note_is(note, Note::ModuleAddress);
                self.add_comments(kind.end_pos, kind.kind.end_str());
                proof {
                    if self.depth > 0 {
                        lemma_supports_less(env, self.depth as nat, (self.depth - 1) as nat);
                    }
                }
                if b_add_indent {
                    self.dec_depth();
                }
                let ghost open = self.cursor();
                let ends_in_space = self.ret.len() > 0 && self.ret[self.ret.len() - 1] == ' ';
                trim_end_in_place(&mut self.ret);
                if ends_in_space {
                    self.ret.push(' ');
                    assert(self.ret@ =~= trim_end(open.out) + seq![' ']);
                }
                assert(self.cursor() == open.closed_up());
                if new_line_mode {
                    self.new_line(Some(kind.end_pos));
                }
                self.format_simple_token(
                    kind.kind.end_str(),
                    kind.end_pos,
                    kind.kind.end_tok(),
                    None,
                    None,
                    false,
                );
                let ghost closed = self.cursor();
                if need_space(token, next_token) {
                    self.ret.push(' ');
                    assert(self.ret@ =~= closed.out + seq![' ']);
                }
            },
            TokenTree::SimpleToken { .. } => {},
        }
    }

    /// Writes the tree `token`; `next_token` is the tree that follows it.
    /// A simple token is written by `format_simple_token`. Of a nested node
    /// the brackets are written as tokens of their own and the children
    /// between them, one level deeper unless the node is the address of a
    /// module; in multi-line mode a line ends behind the opening bracket
    /// where the first child begins on a later source line, behind each
    /// child that its node breaks after, and before the closing bracket.
    /// Before a function body the header is laid out anew.
    pub fn format_token_trees_(
        &mut self,
        token: &TokenTree,
        next_token: Option<&TokenTree>,
        new_line_after: bool,
    )
        requires
            old(self).ready(token.height()),
            token.wf(),
        ensures
            final(self).continues(old(self)),
            final(self).wf(),
            final(self).cursor() == old(self).env().render(
                old(self).cursor(),
                *token,
                tree_of(next_token),
                new_line_after,
            ),
            final(self).depth == old(self).depth,
        decreases *token,
    {
        let ghost env = self.env();
        match token {
            TokenTree::Nested { elements, kind, note } => {
                let ghost deepest = self.depth as nat + token.height();
                proof {
                    lemma_supports_less(env, deepest, self.depth as nat + 1);
                }
                let (delimiter, has_colon) = Self::analyze_token_tree_delimiter(elements);
                let new_line_mode = self.open_nested(elements, kind, note);
                let ghost first = self.cursor();
                proof {
                    lemma_supports_less(
                        env,
                        deepest,
                        self.depth as nat + forest_height(elements@, 0),
                    );
                }
                let mut pound_sign: Option<usize> = None;
                let len = elements.len();
                let mut index: usize = 0;
                while index < len
                    invariant
                        index <= len,
                        len == elements.len(),
                        self.wf(),
                        self.continues(old(self)),
                        env == old(self).env(),
                        self.depth == first.depth,
                        env.supports(self.depth as nat + forest_height(elements@, 0)),
                        forest_wf(elements@, 0),
                        pound_sign matches Some(x) ==> x < index,
                        delimiter == delimiter_of(elements@),
                        *token is Nested,
                        token->elements == *elements,
                        token->kind == *kind,
                        env.render_children(
                            self.cursor(),
                            elements@,
                            kind.kind,
                            new_line_mode,
                            index as nat,
                            index_of(pound_sign),
                        ) == env.render_children(
                            first,
                            elements@,
                            kind.kind,
                            new_line_mode,
                            0,
                            None,
                        ),
                    decreases len - index,
                {
                    let t = &elements[index];
                    proof {
                        lemma_forest_height(elements@, 0, index as int);
                        lemma_forest_wf(elements@, 0, index as int);
                        let deepest = self.depth as nat + forest_height(elements@, 0);
                        lemma_supports_less(env, deepest, self.depth as nat + t.height());
                        lemma_supports_less(env, deepest, self.depth as nat);
                    }
                    if t.is_pound() {
                        pound_sign = Some(index);
                    }
                    let next_t = if index + 1 < len {
                        Some(&elements[index + 1])
                    } else {
                        None
                    };
                    assert(tree_of(next_t) == next_of(elements@, index as nat));
                    let pound_sign_new_line = match pound_sign {
                        Some(x) => x + 1 == index,
                        None => false,
                    };
                    assert(pound_sign_new_line == follows_pound(
                        index_of(pound_sign),
                        index as nat,
                    ));
                    let new_line = Self::need_new_line_for_each_token_in_nested(
                        kind,
                        elements,
                        delimiter,
                        has_colon,
                        index,
                        new_line_mode,
                    );
                    self.format_token_trees_(t, next_t, pound_sign_new_line || new_line);
                    if pound_sign_new_line {
                        self.new_line(Some(t.end_pos()));
                        pound_sign = None;
                    } else if new_line {
                        let process_tail_comment_of_line = match next_t {
                            Some(next_token) => {
                                let next_token_start_pos = next_token.start_pos();
                                self.translate_line(next_token_start_pos) > self.translate_line(
                                    t.end_pos(),
                                )
                            },
                            None => true,
                        };
                        self.process_same_line_comment(t.end_pos(), process_tail_comment_of_line);
                    }
                    index += 1;
                }
                proof {
                    lemma_supports_less(
                        env,
                        self.depth as nat + forest_height(elements@, 0),
                        self.depth as nat,
                    );
                }
                self.close_nested(token, next_token, new_line_mode);
            },
            TokenTree::SimpleToken { content, pos, tok, note } => {
                self.format_simple_token(
                    content.as_str(),
                    *pos,
                    *tok,
                    *note,
                    next_token,
                    new_line_after,
                );
            },
        }
    }
}

impl Format {
    /// Whether the run can go on from here to its end: `format_token_trees`
    /// asks for no more.
    pub fn can_run(&self) -> (b: bool)
        ensures
            b == (self.ready(forest_height(self.token_tree@, 0)) && forest_wf(self.token_tree@, 0)),
    {
        if !self.line_mapping.is_wf() || self.comments_index > self.comments.len() {
            return false;
        }
        if !forest_is_wf(&self.token_tree) {
            return false;
        }
        let room = usize::MAX - self.depth;
        let height = forest_height_within(&self.token_tree, room);
        if height >= room {
            return false;
        }
        let deepest = self.depth + height;
        if (deepest + 1).checked_mul(self.config.indent_size).is_none() {
            return false;
        }
        let mut i: usize = 0;
        while i < self.comments.len()
            invariant
                i <= self.comments.len(),
                deepest == self.depth + forest_height(self.token_tree@, 0),
                forall|j: int| 0 <= j < i ==> (#[trigger] self.comments@[j]).wf(),
                forall|j: int| 0 <= j < i ==> (#[trigger] self.comments@[j]).covers(deepest as nat),
            decreases self.comments.len() - i,
        {
            if !self.comments[i].is_wf() || !self.comments[i].has_text_for(deepest) {
                assert(self.env().comments[i as int] == self.comments@[i as int]);
                return false;
            }
            i += 1;
        }
        true
    }

    /// The output so far.
    pub fn text(&self) -> (text: String)
        ensures
            text@ == self.ret@,
    {
        string_of(&self.ret)
    }

    /// Where the run comes to when it goes on from here: through the
    /// top-level trees up to and with the next brace block, or to the end.
    pub open spec fn run(&self) -> Run {
        self.env().render_items(
            self.cursor(),
            self.token_tree@,
            self.next_item as nat,
            index_of(self.pound_sign),
        )
    }

    /// `progress` is what `run` describes, of a run that reads what `self` reads.
    pub open spec fn arrives_at(&self, run: Run, progress: Progress) -> bool {
        match progress {
            Progress::Declarations(f) => {
                &&& run.paused
                &&& f.cursor() == run.cursor
                &&& f.depth == self.depth
                &&& f.next_item == run.index
                &&& index_of(f.pound_sign) == run.pound
                &&& f.env() == self.env()
                &&& f.token_tree == self.token_tree
                &&& f.format_context == self.format_context
                &&& f.wf()
            },
            Progress::LetBindings(_) => false,
            Progress::Finished(text) => !run.paused && text@ == run.cursor.out,
        }
    }

    /// Writes the top-level trees from the next one on. The tree after an
    /// attribute marker `#` ends its line. After a brace block the line ends,
    /// unless it has ended so, and the run stops for the output to be rewritten:
    /// `Progress::Declarations`. After the last tree the comments that are
    /// left are written, and the run ends: `Progress::Finished`.
    pub fn format_token_trees(self) -> (progress: Progress)
        requires
            self.ready(forest_height(self.token_tree@, 0)),
            forest_wf(self.token_tree@, 0),
        ensures
            self.arrives_at(self.run(), progress),
    {
        let ghost env = self.env();
        let ghost run = self.run();
        let ghost start = self;
        let mut this = self;
        let mut forest: Vec<TokenTree> = Vec::new();
        core::mem::swap(&mut forest, &mut this.token_tree);
        let length = forest.len();
        while this.next_item < length
            invariant
                length == forest.len(),
                forest == start.token_tree,
                env == start.env(),
                run == start.run(),
                start == self,
                this.depth == start.depth,
                this.token_tree@.len() == 0,
                this.env() == env,
                this.format_context == start.format_context,
                this.ready(forest_height(forest@, 0)),
                forest_wf(forest@, 0),
                env.render_items(
                    this.cursor(),
                    forest@,
                    this.next_item as nat,
                    index_of(this.pound_sign),
                ) == run,
            decreases length - this.next_item,
        {
            let index = this.next_item;
            let t = &forest[index];
            proof {
                lemma_forest_height(forest@, 0, index as int);
                lemma_forest_wf(forest@, 0, index as int);
                let deepest = this.depth as nat + forest_height(forest@, 0);
                lemma_supports_less(env, deepest, this.depth as nat + t.height());
                lemma_supports_less(env, deepest, this.depth as nat);
            }
            if t.is_pound() {
                this.pound_sign = Some(index);
            }
            let new_line = match this.pound_sign {
                Some(x) => index > 0 && x == index - 1,
                None => false,
            };
            assert(new_line == follows_pound(index_of(this.pound_sign), index as nat));
            let next_t = if index + 1 < length {
                Some(&forest[index + 1])
            } else {
                None
            };
            assert(tree_of(next_t) == next_of(forest@, index as nat));
            this.format_token_trees_(t, next_t, new_line);
            if new_line {
                this.new_line(Some(t.end_pos()));
                this.pound_sign = None;
            }
            this.next_item = index + 1;
            let brace = match t {
                TokenTree::SimpleToken { .. } => false,
                TokenTree::Nested { kind, .. } => kind.kind == NestKind_::Brace,
            };
            if brace {
                if !new_line {
                    this.new_line(Some(t.end_pos()));
                }
                core::mem::swap(&mut forest, &mut this.token_tree);
                return Progress::Declarations(this);
            }
        }
        proof {
            lemma_supports_less(
                env,
                this.depth as nat + forest_height(forest@, 0),
                this.depth as nat,
            );
        }
        this.add_comments(u32::MAX, "end_of_move_file");
        Progress::Finished(string_of(&this.ret))
    }

    /// Takes the output back after the comment blocks before its function
    /// headers were reflowed and blank rows set between adjacent functions:
    /// `text` comes in its place, without the spaces at the end of its
    /// lines. The run then waits for the `let` bindings:
    /// `Progress::LetBindings`.
    pub fn declarations_rewritten(self, text: String) -> (progress: Progress)
        ensures
            progress matches Progress::LetBindings(f) && f.continues(&self) && f.cursor() == (Cursor {
                out: strip_lines(text@),
                ..self.cursor()
            }),
    {
        let mut this = self;
        this.ret = chars_of(text.as_str());
        this.remove_trailing_whitespaces();
        Progress::LetBindings(this)
    }

    /// The cursor with `text`, without the spaces at the end of its lines,
    /// as its output.
    pub open spec fn rewritten(&self, text: Seq<char>) -> Cursor {
        Cursor { out: strip_lines(text), ..self.cursor() }
    }

    /// Takes the output back after each `if`/`else` on the right of a `let`
    /// was split over lines: `text` comes in its place, without the spaces at
    /// the end of its lines, and the run goes on with the next top-level tree
    /// as `format_token_trees` does.
    pub fn let_bindings_rewritten(self, text: String) -> (progress: Progress)
        requires
            self.ready(forest_height(self.token_tree@, 0)),
            forest_wf(self.token_tree@, 0),
        ensures
            self.arrives_at(
                self.env().render_items(
                    self.rewritten(text@),
                    self.token_tree@,
                    self.next_item as nat,
                    index_of(self.pound_sign),
                ),
                progress,
            ),
    {
        let mut this = self;
        this.ret = chars_of(text.as_str());
        this.remove_trailing_whitespaces();
        this.format_token_trees()
    }
}

} // verus!
