//! The mathematical model of a formatting run: what the engine writes,
//! stated as functions from one state of the output to the next.

use crate::expr_fmt::{is_ability, space_after, space_needed};
use crate::fun_fmt::{specifiers_split, word_at};
use crate::line_mapping::LineMapping;
use crate::text::{
    last_line, rfind_text, spaces, strip_lines, trim_end, utf8_len,
};
use crate::token_tree::{
    at_most, Comment, CommentKind, Delimiter, NestKind, NestKind_, Note, Tok, TokenTree,
};
use vstd::prelude::*;

verus! {

/// The length of a nested node's children above which they are laid out on
/// lines of their own.
pub const MAX_ELEMENTS_LENGTH: usize = 35;

/// The length of an output line above which it is broken at the next
/// splittable token.
pub const MAX_LINE_LENGTH: usize = 90;

/// What a run reads and never changes.
pub struct Env {
    /// The number of spaces for one level of nesting.
    pub indent_size: nat,
    /// The comments of the source, in the order of their offsets.
    pub comments: Seq<Comment>,
    /// The lines of the source.
    pub lines: LineMapping,
}

/// What a run writes for a part of the source.
pub enum Piece {
    /// A token, by its text.
    Token(Seq<char>),
    /// A comment, by its index, and the nesting depth at which it is written.
    Comment(nat, nat),
}

/// What a run has written and where it stands.
pub struct Cursor {
    /// The output so far.
    pub out: Seq<char>,
    /// The tokens and comments written so far, in the order in which they
    /// were written.
    pub written: Seq<Piece>,
    /// The number of brackets that are open.
    pub depth: nat,
    /// The index of the first comment that is not in the output yet.
    pub next_comment: nat,
    /// The source line of what was written last.
    pub cur_line: nat,
}

impl Cursor {
    /// The cursor after `s` was written.
    pub open spec fn push(self, s: Seq<char>) -> Cursor {
        Cursor { out: self.out + s, ..self }
    }

    /// The cursor after `piece` was written, as the text `text`.
    pub open spec fn write(self, piece: Piece, text: Seq<char>) -> Cursor {
        Cursor { out: self.out + text, written: self.written.push(piece), ..self }
    }

    /// The cursor with the whitespace at the end of the output taken away.
    pub open spec fn trimmed(self) -> Cursor {
        Cursor { out: trim_end(self.out), ..self }
    }

    /// The cursor with the whitespace at the end of the output taken away,
    /// but for one space where the output ended in a space.
    pub open spec fn closed_up(self) -> Cursor {
        if self.out.len() > 0 && self.out.last() == ' ' {
            self.trimmed().push(seq![' '])
        } else {
            self.trimmed()
        }
    }

    /// Whether a comment that is written next is set off by a space: the
    /// output ends in something other than a line feed, a space or `(`.
    pub open spec fn wants_space(self) -> bool {
        self.out.len() > 0 && self.out.last() != '\n' && self.out.last() != ' ' && self.out.last()
            != '('
    }
}

/// Whether a token's text holds `)`, `,`, `;` or `.`: a block comment before
/// such a token is not followed by a space.
pub open spec fn clings(content: Seq<char>) -> bool {
    content.contains(')') || content.contains(',') || content.contains(';') || content.contains(
        '.',
    )
}

/// Whether a token may end an output line that has grown too long: a binary,
/// comparison or logical operator, a number or a path separator, unless type
/// arguments follow it. A sign that is an operator in one place and something
/// else in another (`<`, `>`, `&`, `*`, `|`) counts where it is noted as a
/// binary operator.
pub open spec fn splittable(tok: Tok, note: Option<Note>, next: Option<TokenTree>) -> bool {
    if next matches Some(TokenTree::Nested { kind, .. }) && kind.kind == NestKind_::Type {
        false
    } else {
        match tok {
            Tok::Less | Tok::Amp | Tok::Star | Tok::Greater | Tok::Pipe => note == Some(
                Note::BinaryOP,
            ),
            Tok::ExclaimEqual
            | Tok::Percent
            | Tok::AmpAmp
            | Tok::PipePipe
            | Tok::Caret
            | Tok::ColonColon
            | Tok::Plus
            | Tok::Minus
            | Tok::Period
            | Tok::PeriodPeriod
            | Tok::Slash
            | Tok::LessEqual
            | Tok::LessLess
            | Tok::Equal
            | Tok::EqualEqual
            | Tok::EqualEqualGreater
            | Tok::LessEqualEqualGreater
            | Tok::GreaterEqual
            | Tok::GreaterGreater
            | Tok::NumValue => true,
            _ => false,
        }
    }
}

/// Whether `line` holds the word `module` as a word of its own.
pub open spec fn names_module(line: Seq<char>) -> bool {
    exists|i: int| word_at(line, "module"@, i)
}

/// Whether a token begins a declaration or a statement that stands on a line
/// of its own.
pub open spec fn begins_declaration(tok: Tok, content: Seq<char>) -> bool {
    match tok {
        Tok::Fun
        | Tok::Struct
        | Tok::Module
        | Tok::Use
        | Tok::Const
        | Tok::Spec
        | Tok::Return
        | Tok::Public
        | Tok::Native
        | Tok::Friend
        | Tok::Loop
        | Tok::While
        | Tok::If
        | Tok::Continue
        | Tok::Break
        | Tok::Abort
        | Tok::NumSign => true,
        Tok::Identifier => content == "entry"@,
        _ => false,
    }
}

/// The text of an optional delimiter.
pub open spec fn delimiter_text(delimiter: Option<Delimiter>) -> Option<Seq<char>> {
    match delimiter {
        Some(d) => Some(d.text()),
        None => None,
    }
}

/// The text of an optional tree, where it is a simple token.
pub open spec fn simple_text_of(t: Option<TokenTree>) -> Option<Seq<char>> {
    match t {
        Some(t) => t.simple_text(),
        None => None,
    }
}

/// Whether a line break separates a brace block from the declaration that
/// follows it inside a brace block. It never stands before the delimiter of
/// the enclosing node.
pub open spec fn breaks_after_block(
    kind: NestKind_,
    delimiter: Option<Delimiter>,
    current: TokenTree,
    next: Option<TokenTree>,
) -> bool {
    if simple_text_of(next) == delimiter_text(delimiter) {
        false
    } else {
        let declaration = match next {
            Some(n) => begins_declaration(n.first_tok(), n.first_text()),
            None => true,
        };
        &&& current matches TokenTree::Nested { kind: inner, .. }
        &&& inner.kind == NestKind_::Brace
        &&& kind == NestKind_::Brace
        &&& declaration
    }
}

/// Whether one of `trees` is the simple token `text`.
pub open spec fn has_token(trees: Seq<TokenTree>, text: Seq<char>) -> bool {
    exists|i: int| 0 <= i < trees.len() && #[trigger] trees[i].simple_text() == Some(text)
}

/// The delimiter of a node with the children `trees`: `;` where one of them
/// is `;`, else `,` where one of them is `,`.
pub open spec fn delimiter_of(trees: Seq<TokenTree>) -> Option<Delimiter> {
    if has_token(trees, seq![';']) {
        Some(Delimiter::Semicolon)
    } else if has_token(trees, seq![',']) {
        Some(Delimiter::Comma)
    } else {
        None
    }
}

/// The length of the text of `trees[from..]`, each pair of brackets counted as 2.
pub open spec fn forest_len(trees: Seq<TokenTree>, from: nat) -> nat
    decreases trees, trees.len() - from,
{
    if from >= trees.len() {
        0
    } else {
        tree_len(trees[from as int]) + forest_len(trees, from + 1)
    }
}

/// The length of the text of `t`, each pair of brackets counted as 2.
pub open spec fn tree_len(t: TokenTree) -> nat
    decreases t,
{
    match t {
        TokenTree::SimpleToken { content, .. } => utf8_len(content@),
        TokenTree::Nested { elements, .. } => forest_len(elements@, 0) + 2,
    }
}

/// `n`, cut off at `max + 1`.
pub open spec fn capped(n: nat, max: nat) -> nat {
    if n > max {
        max + 1
    } else {
        n
    }
}

/// What measuring makes of a sum that stands at `start` when a length `len`
/// comes to it: a sum above `max` stays as it is; else the length is added,
/// a sum above `max` is cut off at `max + 1`, and one that no `usize` holds
/// at `usize::MAX`.
pub open spec fn measured(start: nat, len: nat, max: nat) -> nat {
    if start > max {
        start
    } else {
        at_most(capped(start + len, max), usize::MAX as nat)
    }
}

/// Whether one of the words `acquires`, `reads`, `writes`, `pure` is the
/// text `s`.
pub open spec fn is_specifier_word(s: Seq<char>) -> bool {
    s == "acquires"@ || s == "reads"@ || s == "writes"@ || s == "pure"@
}

/// Whether the child at `index` belongs to a specifier list: going back from
/// it, a specifier word comes before a nested node and before the first child.
pub open spec fn in_specifier_list(trees: Seq<TokenTree>, index: nat) -> bool
    decreases index,
{
    if index == 0 {
        false
    } else {
        match trees[index as int].simple_text() {
            None => false,
            Some(s) => is_specifier_word(s) || in_specifier_list(trees, (index - 1) as nat),
        }
    }
}

/// The tree that follows the child at `index`.
pub open spec fn next_of(trees: Seq<TokenTree>, index: nat) -> Option<TokenTree> {
    if index + 1 < trees.len() {
        Some(trees[index as int + 1])
    } else {
        None
    }
}

/// Whether the child at `index` is the delimiter of its node.
pub open spec fn is_delimiter(
    trees: Seq<TokenTree>,
    delimiter: Option<Delimiter>,
    index: nat,
) -> bool {
    delimiter is Some && trees[index as int].simple_text() == delimiter_text(delimiter)
}

/// Whether a line break follows the child at `index` of a node of kind
/// `kind`: in multi-line mode, after each delimiter and between a brace block
/// and a declaration, but not after the last child, not inside a specifier
/// list and not before an ability.
pub open spec fn breaks_after_child(
    kind: NestKind_,
    trees: Seq<TokenTree>,
    delimiter: Option<Delimiter>,
    index: nat,
    multi_line: bool,
) -> bool {
    let t = trees[index as int];
    let next = next_of(trees, index);
    let wanted = multi_line && (breaks_after_block(kind, delimiter, t, next) || is_delimiter(
        trees,
        delimiter,
        index,
    )) && index + 1 != trees.len();
    let listed = is_delimiter(trees, delimiter, index) && delimiter == Some(Delimiter::Comma)
        && in_specifier_list(trees, index);
    let ability = next matches Some(n) && is_ability(n.first_tok(), n.first_text());
    wanted && !listed && !ability
}

/// Whether the children of a node are laid out on lines of their own, as far
/// as the node itself decides it.
pub open spec fn wants_lines(trees: Seq<TokenTree>, kind: NestKind_, note: Option<Note>) -> bool {
    let delimiter = delimiter_of(trees);
    let long = forest_len(trees, 0) > MAX_ELEMENTS_LENGTH;
    let wanted = long || delimiter == Some(Delimiter::Semicolon) || (note == Some(
        Note::StructDefinition,
    ) && trees.len() > 0) || note == Some(Note::FunBody);
    let wanted = wanted && !(note == Some(Note::FunBody) && trees.len() == 0);
    match kind {
        NestKind_::Brace => wanted,
        _ => wanted && delimiter is Some,
    }
}

/// Whether the token after which the line breaks, if it does, is followed by
/// trailing comments up to the end of its line: the next tree begins on a
/// later line, or there is none.
pub open spec fn ends_line(env: Env, end: u32, next: Option<TokenTree>) -> bool {
    match next {
        Some(n) => env.line_at(n.start_offset()) > env.line_at(end),
        None => true,
    }
}

/// The index of the child before `index`, if it is the attribute marker noted in `pound`.
pub open spec fn follows_pound(pound: Option<nat>, index: nat) -> bool {
    pound matches Some(p) && p + 1 == index
}

/// Where the rendering of a forest stands.
pub struct Run {
    pub cursor: Cursor,
    /// The index of the next top-level tree.
    pub index: nat,
    /// The index of the last attribute marker seen, until the tree after it is written.
    pub pound: Option<nat>,
    /// Whether the run stopped after a top-level brace block, for the output to be rewritten.
    pub paused: bool,
}

impl Env {
    /// Every comment is well formed, and so is the line mapping.
    pub open spec fn wf(self) -> bool {
        &&& self.lines.wf()
        &&& forall|i: int| 0 <= i < self.comments.len() ==> (#[trigger] self.comments[i]).wf()
    }

    /// The run can indent to `depth` and one level beyond, and each block
    /// comment holds its text for every depth up to `depth`.
    pub open spec fn supports(self, depth: nat) -> bool {
        &&& depth < usize::MAX
        &&& (depth + 1) * self.indent_size <= usize::MAX
        &&& forall|i: int|
            0 <= i < self.comments.len() ==> (#[trigger] self.comments[i]).covers(depth)
    }

    /// The line, counted from 0, on which the byte at `pos` stands.
    pub open spec fn line_at(self, pos: u32) -> nat {
        self.lines.line_of(pos)
    }

    /// The text that stands for the comment with the index `index` at the
    /// nesting depth `depth`.
    pub open spec fn comment_text(self, index: nat, depth: nat) -> Seq<char> {
        self.comments[index as int].formatted(self.comments[index as int].kind(), depth)
    }

    /// The text that stands for the next comment where the cursor stands.
    pub open spec fn text_of_next(self, c: Cursor) -> Seq<char> {
        self.comment_text(c.next_comment, c.depth)
    }

    /// The text of a piece.
    pub open spec fn text_of(self, piece: Piece) -> Seq<char> {
        match piece {
            Piece::Token(text) => text,
            Piece::Comment(index, depth) => self.comment_text(index, depth),
        }
    }

    /// The cursor after a line feed and the indentation of its depth.
    pub open spec fn new_line(self, c: Cursor) -> Cursor {
        c.push(seq!['\n'] + spaces(c.depth * self.indent_size))
    }

    /// The cursor after one empty line was set and a line begun: the
    /// whitespace at the end of the output gives way to two line feeds and
    /// the indentation; to one line feed and the indentation where nothing
    /// else is written yet.
    pub open spec fn blank_line(self, c: Cursor) -> Cursor {
        if trim_end(c.out).len() == 0 {
            self.new_line(c.trimmed())
        } else {
            self.new_line(c.trimmed().push(seq!['\n']))
        }
    }

    /// The cursor after the next comment was written in front of a token
    /// with the text `content`.
    pub open spec fn leading_comment(self, c: Cursor, content: Seq<char>) -> Cursor {
        let comment = self.comments[c.next_comment as int];
        let line = self.line_at(comment.start_offset);
        let c1 = if line > c.cur_line + 1 {
            // blank lines in the source: one empty line
            self.blank_line(c)
        } else if line == c.cur_line + 1 {
            self.new_line(c.trimmed())
        } else {
            c
        };
        let c2 = if c1.wants_space() {
            c1.push(seq![' '])
        } else {
            c1
        };
        let c3 = c2.write(Piece::Comment(c.next_comment, c.depth), self.text_of_next(c));
        let c4 = match comment.kind() {
            CommentKind::DocComment => self.new_line(c3),
            CommentKind::BlockComment => {
                let c3 = if clings(content) {
                    c3
                } else {
                    c3.push(seq![' '])
                };
                if line != self.line_at(comment.end_offset() as u32) {
                    self.new_line(c3)
                } else {
                    c3
                }
            },
        };
        Cursor {
            next_comment: c.next_comment + 1,
            cur_line: self.line_at((comment.end_offset() - 1) as u32),
            ..c4
        }
    }

    /// The cursor after every comment that begins at or before `pos` was
    /// written, in front of a token with the text `content`.
    pub open spec fn add_comments(self, c: Cursor, pos: u32, content: Seq<char>) -> Cursor
        decreases self.comments.len() - c.next_comment,
    {
        if c.next_comment >= self.comments.len() || self.comments[c.next_comment as int].start_offset
            > pos {
            c
        } else {
            self.add_comments(self.leading_comment(c, content), pos, content)
        }
    }

    /// The cursor after the next comment was written behind the token that
    /// it trails, and whether a line break was written after it.
    pub open spec fn trailing_comment(self, c: Cursor) -> (Cursor, bool) {
        let comment = self.comments[c.next_comment as int];
        let c1 = if c.wants_space() {
            c.push(seq![' '])
        } else {
            c
        };
        let c2 = c1.write(Piece::Comment(c.next_comment, c.depth), self.text_of_next(c));
        let broke = comment.kind() == CommentKind::DocComment || self.line_at(comment.start_offset)
            != self.line_at(comment.end_offset() as u32);
        let c3 = if broke {
            self.new_line(c2)
        } else {
            c2
        };
        (
            Cursor {
                next_comment: c.next_comment + 1,
                cur_line: self.line_at((comment.end_offset() - 1) as u32),
                ..c3
            },
            broke,
        )
    }

    /// The cursor after the comments that trail the token that ends at `pos`
    /// were written: those on its line that begin at or before `pos`, or,
    /// with `tail`, all that follow on its line. `broke` says whether a line
    /// break was written.
    pub open spec fn trailing_comments(self, c: Cursor, pos: u32, tail: bool, broke: bool) -> (
        Cursor,
        bool,
    )
        decreases self.comments.len() - c.next_comment,
    {
        if c.next_comment >= self.comments.len() {
            (c, broke)
        } else {
            let comment = self.comments[c.next_comment as int];
            if (!tail && comment.start_offset > pos) || self.line_at(pos) != self.line_at(
                comment.start_offset,
            ) {
                (c, broke)
            } else {
                let (c1, b1) = self.trailing_comment(c);
                self.trailing_comments(c1, pos, tail, broke || b1)
            }
        }
    }

    /// The cursor after the line was ended behind the token that ends at
    /// `pos`: its trailing comments are written, and a line break unless
    /// they brought one or moved on to another source line.
    pub open spec fn process_same_line_comment(self, c: Cursor, pos: u32, tail: bool) -> Cursor {
        let (c1, broke) = self.trailing_comments(c, pos, tail, false);
        if c1.cur_line != c.cur_line || broke {
            c1
        } else {
            self.new_line(c1)
        }
    }

    /// The cursor after a simple token was written.
    pub open spec fn render_token(
        self,
        c: Cursor,
        content: Seq<char>,
        pos: u32,
        tok: Tok,
        note: Option<Note>,
        next: Option<TokenTree>,
        new_line_after: bool,
    ) -> Cursor {
        let c1 = self.add_comments(c, pos, content);
        let c2 = if self.line_at(pos) > c1.cur_line + 1 {
            self.blank_line(c1)
        } else {
            c1
        };
        let c3 = Cursor { cur_line: self.line_at(pos), ..c2.write(Piece::Token(content), content) };
        if new_line_after {
            c3
        } else if utf8_len(last_line(c3.out)) > MAX_LINE_LENGTH && splittable(tok, note, next) {
            self.new_line(c3)
        } else if space_after(tok, note, next) {
            c3.push(seq![' '])
        } else {
            c3
        }
    }

    /// The cursor after the function header at the end of the output was
    /// laid out anew: the text after the `f` of the last `fun` has its
    /// specifier clauses on continuation lines, one level below the header.
    pub open spec fn rewrite_header(self, c: Cursor) -> Cursor {
        match rfind_text(c.out, "fun"@) {
            Some(i) => Cursor {
                out: c.out.subrange(0, i + 1) + specifiers_split(
                    c.out.subrange(i + 1, c.out.len() as int),
                    spaces((c.depth + 1) * self.indent_size),
                ),
                ..c
            },
            None => c,
        }
    }

    /// Whether the children of a node are laid out on lines of their own: as
    /// the node decides it, and always in a brace block that follows a line
    /// with the word `module`; but a function body without children never.
    pub open spec fn multi_line(
        self,
        c: Cursor,
        trees: Seq<TokenTree>,
        kind: NestKind_,
        note: Option<Note>,
    ) -> bool {
        wants_lines(trees, kind, note) || (kind == NestKind_::Brace && names_module(
            last_line(c.out),
        ) && !(note == Some(Note::FunBody) && trees.len() == 0))
    }

    /// The cursor after the opening bracket of a node in multi-line mode was
    /// followed up: where the first child begins on a later source line, the
    /// line ends behind the bracket with all its trailing comments; where it
    /// begins on the bracket's line, it stays there, after the comments that
    /// trail the bracket; where there is no child, the line ends.
    pub open spec fn after_open(self, c: Cursor, trees: Seq<TokenTree>, kind: NestKind) -> Cursor {
        if trees.len() > 0 {
            if self.line_at(trees[0].start_offset()) > self.line_at(kind.start_pos) {
                self.process_same_line_comment(c, kind.start_pos, true)
            } else {
                self.trailing_comments(c, kind.start_pos, false, false).0
            }
        } else {
            self.process_same_line_comment(c, kind.start_pos, false)
        }
    }

    /// The cursor after the header before a function body was laid out anew.
    pub open spec fn header_done(self, c: Cursor, note: Option<Note>) -> Cursor {
        if note == Some(Note::FunBody) {
            self.rewrite_header(c)
        } else {
            c
        }
    }

    /// Whether the node that is written next at `c` is in multi-line mode.
    pub open spec fn lays_out_in_lines(
        self,
        c: Cursor,
        trees: Seq<TokenTree>,
        kind: NestKind_,
        note: Option<Note>,
    ) -> bool {
        self.multi_line(self.header_done(c, note), trees, kind, note)
    }

    /// The cursor after a nested node was opened: the header before a
    /// function body laid out anew, the opening bracket written, the depth
    /// one more unless the node is the address of a module, and in
    /// multi-line mode the bracket followed up.
    pub open spec fn open_node(
        self,
        c: Cursor,
        trees: Seq<TokenTree>,
        kind: NestKind,
        note: Option<Note>,
    ) -> Cursor {
        let multi_line = self.lays_out_in_lines(c, trees, kind.kind, note);
        let c = self.header_done(c, note);
        let c = self.render_token(
            c,
            kind.kind.start_text(),
            kind.start_pos,
            kind.kind.start_token(),
            None,
            None,
            multi_line,
        );
        let c = if note != Some(Note::ModuleAddress) {
            Cursor { depth: c.depth + 1, ..c }
        } else {
            c
        };
        if multi_line {
            self.after_open(c, trees, kind)
        } else {
            c
        }
    }

    /// The cursor after the nested node `t` was closed: the comments up to
    /// the closing bracket written, the depth as before the node, the
    /// whitespace at the end of the output closed up, in multi-line mode the
    /// line ended, the closing bracket written, and a space where one
    /// belongs between the node and the tree that follows it.
    pub open spec fn close_node(
        self,
        c: Cursor,
        t: TokenTree,
        next: Option<TokenTree>,
        multi_line: bool,
    ) -> Cursor
        recommends
            t is Nested,
    {
        let kind = t->kind;
        let c = self.add_comments(c, kind.end_pos, kind.kind.end_text());
        let c = if t.note_of() != Some(Note::ModuleAddress) {
            Cursor { depth: (c.depth - 1) as nat, ..c }
        } else {
            c
        };
        let c = c.closed_up();
        let c = if multi_line {
            self.process_same_line_comment(c, kind.end_pos, false)
        } else {
            c
        };
        let c = self.render_token(
            c,
            kind.kind.end_text(),
            kind.end_pos,
            kind.kind.end_token(),
            None,
            None,
            false,
        );
        if space_needed(t, next) {
            c.push(seq![' '])
        } else {
            c
        }
    }

    /// The cursor after `trees[index..]`, the children of a node of kind
    /// `kind`, were written.
    pub open spec fn render_children(
        self,
        c: Cursor,
        trees: Seq<TokenTree>,
        kind: NestKind_,
        multi_line: bool,
        index: nat,
        pound: Option<nat>,
    ) -> Cursor
        decreases trees, trees.len() - index,
    {
        if index >= trees.len() {
            c
        } else {
            let t = trees[index as int];
            let next = next_of(trees, index);
            let pound = if t.is_pound_sign() {
                Some(index)
            } else {
                pound
            };
            let attribute = follows_pound(pound, index);
            let breaks = breaks_after_child(kind, trees, delimiter_of(trees), index, multi_line);
            let c1 = self.render(c, t, next, attribute || breaks);
            if attribute {
                self.render_children(
                    self.process_same_line_comment(c1, t.end_offset() as u32, false),
                    trees,
                    kind,
                    multi_line,
                    index + 1,
                    None,
                )
            } else if breaks {
                self.render_children(
                    self.process_same_line_comment(
                        c1,
                        t.end_offset() as u32,
                        ends_line(self, t.end_offset() as u32, next),
                    ),
                    trees,
                    kind,
                    multi_line,
                    index + 1,
                    pound,
                )
            } else {
                self.render_children(c1, trees, kind, multi_line, index + 1, pound)
            }
        }
    }

    /// The cursor after the tree `t` was written; `next` is the tree that
    /// follows it, and `new_line_after` says that the caller ends the line
    /// behind it.
    pub open spec fn render(
        self,
        c: Cursor,
        t: TokenTree,
        next: Option<TokenTree>,
        new_line_after: bool,
    ) -> Cursor
        decreases t,
    {
        match t {
            TokenTree::SimpleToken { content, pos, tok, note } => self.render_token(
                c,
                content@,
                pos,
                tok,
                note,
                next,
                new_line_after,
            ),
            TokenTree::Nested { elements, kind, note } => {
                let multi_line = self.lays_out_in_lines(c, elements@, kind.kind, note);
                let c = self.open_node(c, elements@, kind, note);
                let c = self.render_children(c, elements@, kind.kind, multi_line, 0, None);
                self.close_node(c, t, next, multi_line)
            },
        }
    }

    /// The cursor at the end of the run that goes on from `c` with the
    /// top-level trees from `index` on, where `reflow` is what becomes of the
    /// output when the comment blocks before its function headers are
    /// reflowed and blank rows set between its functions, and `split` what
    /// becomes of it when the `let` bindings are split: after each stop the
    /// output gives way to what `reflow` makes of it, and that to what
    /// `split` makes of it, each without the spaces at the end of its lines.
    pub open spec fn finish(
        self,
        c: Cursor,
        forest: Seq<TokenTree>,
        index: nat,
        pound: Option<nat>,
        reflow: spec_fn(Seq<char>) -> Seq<char>,
        split: spec_fn(Seq<char>) -> Seq<char>,
    ) -> Cursor
        decreases forest.len() - index,
    {
        let run = self.render_items(c, forest, index, pound);
        if !run.paused {
            run.cursor
        } else {
            proof {
                lemma_stop_is_further(self, c, forest, index, pound);
            }
            let c1 = Cursor { out: strip_lines(reflow(run.cursor.out)), ..run.cursor };
            let c2 = Cursor { out: strip_lines(split(c1.out)), ..c1 };
            self.finish(c2, forest, run.index, run.pound, reflow, split)
        }
    }

    /// The run after the top-level trees from `index` on were written, up to
    /// and with the first brace block among them, or to the end of the forest
    /// and the comments that are left. The line ends behind the tree that
    /// follows an attribute marker and behind a brace block, once.
    pub open spec fn render_items(
        self,
        c: Cursor,
        forest: Seq<TokenTree>,
        index: nat,
        pound: Option<nat>,
    ) -> Run
        decreases forest.len() - index,
    {
        if index >= forest.len() {
            Run {
                cursor: self.add_comments(c, u32::MAX, "end_of_move_file"@),
                index,
                pound,
                paused: false,
            }
        } else {
            let t = forest[index as int];
            let pound = if t.is_pound_sign() {
                Some(index)
            } else {
                pound
            };
            let attribute = follows_pound(pound, index);
            let c1 = self.render(c, t, next_of(forest, index), attribute);
            let c2 = if attribute {
                self.process_same_line_comment(c1, t.end_offset() as u32, false)
            } else {
                c1
            };
            let pound = if attribute {
                None
            } else {
                pound
            };
            if t matches TokenTree::Nested { kind, .. } && kind.kind == NestKind_::Brace {
                Run {
                    cursor: if attribute {
                        // the line is ended already
                        c2
                    } else {
                        self.process_same_line_comment(c2, t.end_offset() as u32, false)
                    },
                    index: index + 1,
                    pound,
                    paused: true,
                }
            } else {
                self.render_items(c2, forest, index + 1, pound)
            }
        }
    }
}

/// A run that stops after a brace block has passed at least that block, and
/// stands within the forest.
pub proof fn lemma_stop_is_further(
    env: Env,
    c: Cursor,
    forest: Seq<TokenTree>,
    index: nat,
    pound: Option<nat>,
)
    ensures
        env.render_items(c, forest, index, pound).paused ==> index < env.render_items(
            c,
            forest,
            index,
            pound,
        ).index <= forest.len(),
    decreases forest.len() - index,
{
    if index < forest.len() {
        let t = forest[index as int];
        let pound = if t.is_pound_sign() {
            Some(index)
        } else {
            pound
        };
        let attribute = follows_pound(pound, index);
        let c1 = env.render(c, t, next_of(forest, index), attribute);
        let c2 = if attribute {
            env.process_same_line_comment(c1, t.end_offset() as u32, false)
        } else {
            c1
        };
        let pound = if attribute {
            None
        } else {
            pound
        };
        if !(t matches TokenTree::Nested { kind, .. } && kind.kind == NestKind_::Brace) {
            lemma_stop_is_further(env, c2, forest, index + 1, pound);
        }
    }
}

/// A run that can go to some depth can go to any depth below it.
pub proof fn lemma_supports_less(env: Env, depth: nat, less: nat)
    requires
        env.supports(depth),
        less <= depth,
    ensures
        env.supports(less),
{
    assert((less + 1) * env.indent_size <= (depth + 1) * env.indent_size) by (nonlinear_arith)
        requires
            less <= depth,
    ;
}

} // verus!
