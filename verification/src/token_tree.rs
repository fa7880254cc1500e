//! The token forest and the comments that the engine renders.

use crate::text::{str_fits_within, str_len_within, utf8_len};
use vstd::prelude::*;

verus! {

/// The lexical category of a token.
#[derive(Clone, Copy, Debug, PartialEq, Eq, Structural)]
pub enum Tok {
    EOF,
    NumValue,
    NumTypedValue,
    ByteStringValue,
    Identifier,
    Exclaim,
    ExclaimEqual,
    Percent,
    Amp,
    AmpAmp,
    AmpMut,
    LParen,
    RParen,
    LBracket,
    RBracket,
    Star,
    Plus,
    Comma,
    Minus,
    Period,
    PeriodPeriod,
    Slash,
    Colon,
    ColonColon,
    Semicolon,
    Less,
    LessEqual,
    LessLess,
    Equal,
    EqualEqual,
    EqualEqualGreater,
    LessEqualEqualGreater,
    Greater,
    GreaterEqual,
    GreaterGreater,
    Caret,
    Abort,
    Acquires,
    As,
    Break,
    Continue,
    Copy,
    Else,
    False,
    If,
    Invariant,
    Let,
    Loop,
    Module,
    Move,
    Native,
    Public,
    Return,
    Spec,
    Struct,
    True,
    Use,
    While,
    LBrace,
    Pipe,
    PipePipe,
    RBrace,
    Fun,
    Script,
    Const,
    Friend,
    NumSign,
    AtSign,
}

/// What the builder of the forest knows of a node beyond its tokens.
#[derive(Clone, Copy, Debug, PartialEq, Eq, Structural)]
pub enum Note {
    /// A binary operator such as `+` or `*`.
    BinaryOP,
    /// The body of a struct definition.
    StructDefinition,
    /// The body of a function.
    FunBody,
    /// The parentheses round the address of a module.
    ModuleAddress,
}

/// The pair of brackets that encloses a nested node.
#[derive(Clone, Copy, Debug, PartialEq, Eq, Structural)]
pub enum NestKind_ {
    /// `()`
    ParentTheses,
    /// `[]`
    Bracket,
    /// `{}`
    Brace,
    /// `<>` round type arguments
    Type,
    /// `||` round the parameters of a lambda
    Lambda,
}

/// The brackets of a nested node and where they stand in the source.
#[derive(Clone, Copy, Debug, PartialEq, Eq, Structural)]
pub struct NestKind {
    pub kind: NestKind_,
    pub start_pos: u32,
    pub end_pos: u32,
}

/// The token that separates the children of a nested node.
#[derive(Clone, Copy, Debug, PartialEq, Eq, Structural)]
pub enum Delimiter {
    Semicolon,
    Comma,
}

/// A token, or a bracketed run of token trees. The brackets of a nested node
/// are not among its elements.
#[derive(Debug, PartialEq, Eq)]
pub enum TokenTree {
    SimpleToken { content: String, pos: u32, tok: Tok, note: Option<Note> },
    Nested { elements: Vec<TokenTree>, kind: NestKind, note: Option<Note> },
}

#[derive(Clone, Copy, Debug, PartialEq, Eq, Structural)]
pub enum CommentKind {
    /// `//`
    DocComment,
    /// `/* */`
    BlockComment,
}

/// A comment of the source.
#[derive(Clone, Debug, PartialEq, Eq)]
pub struct Comment {
    /// The byte offset at which the comment begins.
    pub start_offset: u32,
    /// The comment as written, markers included.
    pub content: String,
    /// What the text rewrap service made of `content`, for each nesting depth
    /// at which the comment may come to stand: entry `d` is its answer for a
    /// block indented by `d` levels, `None` where it gave none.
    pub reflowed: Vec<Option<String>>,
}

impl NestKind_ {
    pub open spec fn start_token(self) -> Tok {
        match self {
            NestKind_::ParentTheses => Tok::LParen,
            NestKind_::Bracket => Tok::LBracket,
            NestKind_::Brace => Tok::LBrace,
            NestKind_::Type => Tok::Less,
            NestKind_::Lambda => Tok::Pipe,
        }
    }

    pub open spec fn end_token(self) -> Tok {
        match self {
            NestKind_::ParentTheses => Tok::RParen,
            NestKind_::Bracket => Tok::RBracket,
            NestKind_::Brace => Tok::RBrace,
            NestKind_::Type => Tok::Greater,
            NestKind_::Lambda => Tok::Pipe,
        }
    }

    pub open spec fn start_text(self) -> Seq<char> {
        match self {
            NestKind_::ParentTheses => seq!['('],
            NestKind_::Bracket => seq!['['],
            NestKind_::Brace => seq!['{'],
            NestKind_::Type => seq!['<'],
            NestKind_::Lambda => seq!['|'],
        }
    }

    pub open spec fn end_text(self) -> Seq<char> {
        match self {
            NestKind_::ParentTheses => seq![')'],
            NestKind_::Bracket => seq![']'],
            NestKind_::Brace => seq!['}'],
            NestKind_::Type => seq!['>'],
            NestKind_::Lambda => seq!['|'],
        }
    }

    /// The token that opens the brackets.
    pub fn start_tok(self) -> (tok: Tok)
        ensures
            tok == self.start_token(),
    {
        match self {
            NestKind_::ParentTheses => Tok::LParen,
            NestKind_::Bracket => Tok::LBracket,
            NestKind_::Brace => Tok::LBrace,
            NestKind_::Type => Tok::Less,
            NestKind_::Lambda => Tok::Pipe,
        }
    }

    /// The token that closes the brackets.
    pub fn end_tok(self) -> (tok: Tok)
        ensures
            tok == self.end_token(),
    {
        match self {
            NestKind_::ParentTheses => Tok::RParen,
            NestKind_::Bracket => Tok::RBracket,
            NestKind_::Brace => Tok::RBrace,
            NestKind_::Type => Tok::Greater,
            NestKind_::Lambda => Tok::Pipe,
        }
    }

    /// The opening bracket as it is written.
    pub fn start_str(self) -> (s: &'static str)
        ensures
            s@ == self.start_text(),
    {
        proof {
            reveal_strlit("(");
            reveal_strlit("[");
            reveal_strlit("{");
            reveal_strlit("<");
            reveal_strlit("|");
        }
        let s = match self {
            NestKind_::ParentTheses => "(",
            NestKind_::Bracket => "[",
            NestKind_::Brace => "{",
            NestKind_::Type => "<",
            NestKind_::Lambda => "|",
        };
        assert(s@ =~= self.start_text());
        s
    }

    /// The closing bracket as it is written.
    pub fn end_str(self) -> (s: &'static str)
        ensures
            s@ == self.end_text(),
    {
        proof {
            reveal_strlit(")");
            reveal_strlit("]");
            reveal_strlit("}");
            reveal_strlit(">");
            reveal_strlit("|");
        }
        let s = match self {
            NestKind_::ParentTheses => ")",
            NestKind_::Bracket => "]",
            NestKind_::Brace => "}",
            NestKind_::Type => ">",
            NestKind_::Lambda => "|",
        };
        assert(s@ =~= self.end_text());
        s
    }

    fn start_char(self) -> (c: char)
        ensures
            seq![c] == self.start_text(),
    {
        match self {
            NestKind_::ParentTheses => '(',
            NestKind_::Bracket => '[',
            NestKind_::Brace => '{',
            NestKind_::Type => '<',
            NestKind_::Lambda => '|',
        }
    }

    fn end_char(self) -> (c: char)
        ensures
            seq![c] == self.end_text(),
    {
        match self {
            NestKind_::ParentTheses => ')',
            NestKind_::Bracket => ']',
            NestKind_::Brace => '}',
            NestKind_::Type => '>',
            NestKind_::Lambda => '|',
        }
    }
}

impl NestKind {
    /// The opening bracket as a token of its own.
    pub fn start_token_tree(&self) -> (t: TokenTree)
        ensures
            t matches TokenTree::SimpleToken { content, pos, tok, note } && content@
                == self.kind.start_text() && pos == self.start_pos && tok
                == self.kind.start_token() && note is None,
    {
        let mut content = String::new();
        content.push(self.kind.start_char());
        TokenTree::SimpleToken {
            content,
            pos: self.start_pos,
            tok: self.kind.start_tok(),
            note: None,
        }
    }

    /// The closing bracket as a token of its own.
    pub fn end_token_tree(&self) -> (t: TokenTree)
        ensures
            t matches TokenTree::SimpleToken { content, pos, tok, note } && content@
                == self.kind.end_text() && pos == self.end_pos && tok == self.kind.end_token()
                && note is None,
    {
        let mut content = String::new();
        content.push(self.kind.end_char());
        TokenTree::SimpleToken {
            content,
            pos: self.end_pos,
            tok: self.kind.end_tok(),
            note: None,
        }
    }
}

impl Delimiter {
    pub open spec fn text(self) -> Seq<char> {
        match self {
            Delimiter::Semicolon => seq![';'],
            Delimiter::Comma => seq![','],
        }
    }

    /// The delimiter as it is written.
    pub fn to_static_str(self) -> (s: &'static str)
        ensures
            s@ == self.text(),
    {
        match self {
            Delimiter::Semicolon => {
                proof {
                    reveal_strlit(";");
                }
                assert(";"@ =~= seq![';']);
                ";"
            },
            Delimiter::Comma => {
                proof {
                    reveal_strlit(",");
                }
                assert(","@ =~= seq![',']);
                ","
            },
        }
    }
}

/// The greatest height among `trees[from..]`, 0 where there is none.
pub open spec fn forest_height(trees: Seq<TokenTree>, from: nat) -> nat
    decreases trees, trees.len() - from,
{
    if from >= trees.len() {
        0
    } else {
        let h = trees[from as int].height();
        let rest = forest_height(trees, from + 1);
        if h >= rest {
            h
        } else {
            rest
        }
    }
}

/// Whether each of `trees[from..]` is well formed.
pub open spec fn forest_wf(trees: Seq<TokenTree>, from: nat) -> bool
    decreases trees, trees.len() - from,
{
    if from >= trees.len() {
        true
    } else {
        trees[from as int].wf() && forest_wf(trees, from + 1)
    }
}

impl TokenTree {
    /// How many brackets enclose the innermost token of the tree.
    pub open spec fn height(self) -> nat
        decreases self,
    {
        match self {
            TokenTree::SimpleToken { .. } => 0,
            TokenTree::Nested { elements, .. } => 1 + forest_height(elements@, 0),
        }
    }

    /// Every token of the tree ends at an offset that a `u32` holds.
    pub open spec fn wf(self) -> bool
        decreases self,
    {
        match self {
            TokenTree::SimpleToken { content, pos, .. } => pos + utf8_len(content@) <= u32::MAX,
            TokenTree::Nested { elements, .. } => forest_wf(elements@, 0),
        }
    }

    /// The text of a simple token.
    pub open spec fn simple_text(self) -> Option<Seq<char>> {
        match self {
            TokenTree::SimpleToken { content, .. } => Some(content@),
            TokenTree::Nested { .. } => None,
        }
    }

    /// The token with which the tree begins.
    pub open spec fn first_tok(self) -> Tok {
        match self {
            TokenTree::SimpleToken { tok, .. } => tok,
            TokenTree::Nested { kind, .. } => kind.kind.start_token(),
        }
    }

    /// The text with which the tree begins.
    pub open spec fn first_text(self) -> Seq<char> {
        match self {
            TokenTree::SimpleToken { content, .. } => content@,
            TokenTree::Nested { kind, .. } => kind.kind.start_text(),
        }
    }

    /// The token with which the tree ends.
    pub open spec fn last_tok(self) -> Tok {
        match self {
            TokenTree::SimpleToken { tok, .. } => tok,
            TokenTree::Nested { kind, .. } => kind.kind.end_token(),
        }
    }

    pub open spec fn note_of(self) -> Option<Note> {
        match self {
            TokenTree::SimpleToken { note, .. } => note,
            TokenTree::Nested { note, .. } => note,
        }
    }

    pub open spec fn start_offset(self) -> u32 {
        match self {
            TokenTree::SimpleToken { pos, .. } => pos,
            TokenTree::Nested { kind, .. } => kind.start_pos,
        }
    }

    pub open spec fn end_offset(self) -> int {
        match self {
            TokenTree::SimpleToken { content, pos, .. } => pos + utf8_len(content@),
            TokenTree::Nested { kind, .. } => kind.end_pos as int,
        }
    }

    pub open spec fn is_pound_sign(self) -> bool {
        self matches TokenTree::SimpleToken { tok, .. } && tok == Tok::NumSign
    }

    /// The offset at which the tree begins.
    pub fn start_pos(&self) -> (p: u32)
        ensures
            p == self.start_offset(),
    {
        match self {
            TokenTree::SimpleToken { pos, .. } => *pos,
            TokenTree::Nested { kind, .. } => kind.start_pos,
        }
    }

    /// The offset after the last byte of a simple token; the offset of the
    /// closing bracket of a nested node.
    pub fn end_pos(&self) -> (p: u32)
        requires
            self.wf(),
        ensures
            p == self.end_offset(),
    {
        match self {
            TokenTree::SimpleToken { content, pos, .. } => {
                let room: u32 = u32::MAX - *pos;
                let len = str_len_within(content.as_str(), room as usize);
                *pos + len as u32
            },
            TokenTree::Nested { kind, .. } => kind.end_pos,
        }
    }

    /// Whether the tree is the attribute marker `#`.
    pub fn is_pound(&self) -> (b: bool)
        ensures
            b == self.is_pound_sign(),
    {
        match self {
            TokenTree::SimpleToken { tok, .. } => *tok == Tok::NumSign,
            TokenTree::Nested { .. } => false,
        }
    }

    /// The text of a simple token, `None` for a nested node.
    pub fn simple_str(&self) -> (s: Option<&str>)
        ensures
            match s {
                Some(text) => self.simple_text() == Some(text@),
                None => self.simple_text() is None,
            },
    {
        match self {
            TokenTree::SimpleToken { content, .. } => Some(content.as_str()),
            TokenTree::Nested { .. } => None,
        }
    }

    /// The token with which the tree begins.
    pub fn start_tok(&self) -> (tok: Tok)
        ensures
            tok == self.first_tok(),
    {
        match self {
            TokenTree::SimpleToken { tok, .. } => *tok,
            TokenTree::Nested { kind, .. } => kind.kind.start_tok(),
        }
    }

    /// The token with which the tree ends.
    pub fn end_tok(&self) -> (tok: Tok)
        ensures
            tok == self.last_tok(),
    {
        match self {
            TokenTree::SimpleToken { tok, .. } => *tok,
            TokenTree::Nested { kind, .. } => kind.kind.end_tok(),
        }
    }

    pub fn get_note(&self) -> (note: Option<Note>)
        ensures
            note == self.note_of(),
    {
        match self {
            TokenTree::SimpleToken { note, .. } => *note,
            TokenTree::Nested { note, .. } => *note,
        }
    }
}

/// `n`, or `cap` where `n` exceeds it.
pub open spec fn at_most(n: nat, cap: nat) -> nat {
    if n <= cap {
        n
    } else {
        cap
    }
}

impl TokenTree {
    /// Whether every token of the tree ends at an offset that a `u32` holds.
    pub fn is_wf(&self) -> (b: bool)
        ensures
            b == self.wf(),
        decreases *self,
    {
        match self {
            TokenTree::SimpleToken { content, pos, .. } => {
                let room: u32 = u32::MAX - *pos;
                str_fits_within(content.as_str(), room as usize)
            },
            TokenTree::Nested { elements, .. } => {
                let mut i: usize = 0;
                while i < elements.len()
                    invariant
                        i <= elements.len(),
                        forest_wf(elements@, 0) == forest_wf(elements@, i as nat),
                        *self is Nested,
                        self->elements == *elements,
                    decreases elements.len() - i,
                {
                    if !elements[i].is_wf() {
                        return false;
                    }
                    i += 1;
                }
                true
            },
        }
    }

    /// The height of the tree, or `cap` where the height exceeds it.
    pub fn height_within(&self, cap: usize) -> (h: usize)
        ensures
            h == at_most(self.height(), cap as nat),
        decreases *self,
    {
        match self {
            TokenTree::SimpleToken { .. } => 0,
            TokenTree::Nested { elements, .. } => {
                if cap == 0 {
                    return 0;
                }
                let mut highest: usize = 0;
                let mut i: usize = 0;
                while i < elements.len()
                    invariant
                        i <= elements.len(),
                        0 < cap,
                        highest <= cap - 1,
                        at_most(forest_height(elements@, 0), (cap - 1) as nat) == at_most(
                            if highest >= forest_height(elements@, i as nat) {
                                highest as nat
                            } else {
                                forest_height(elements@, i as nat)
                            },
                            (cap - 1) as nat,
                        ),
                        *self is Nested,
                        self->elements == *elements,
                    decreases elements.len() - i,
                {
                    let h = elements[i].height_within(cap - 1);
                    if h > highest {
                        highest = h;
                    }
                    i += 1;
                }
                highest + 1
            },
        }
    }
}

/// Whether every token of `trees` ends at an offset that a `u32` holds.
pub fn forest_is_wf(trees: &Vec<TokenTree>) -> (b: bool)
    ensures
        b == forest_wf(trees@, 0),
{
    let mut i: usize = 0;
    while i < trees.len()
        invariant
            i <= trees.len(),
            forest_wf(trees@, 0) == forest_wf(trees@, i as nat),
        decreases trees.len() - i,
    {
        if !trees[i].is_wf() {
            return false;
        }
        i += 1;
    }
    true
}

/// The greatest height among `trees`, or `cap` where it exceeds it.
pub fn forest_height_within(trees: &Vec<TokenTree>, cap: usize) -> (h: usize)
    ensures
        h == at_most(forest_height(trees@, 0), cap as nat),
{
    let mut highest: usize = 0;
    let mut i: usize = 0;
    while i < trees.len()
        invariant
            i <= trees.len(),
            highest <= cap,
            at_most(forest_height(trees@, 0), cap as nat) == at_most(
                if highest >= forest_height(trees@, i as nat) {
                    highest as nat
                } else {
                    forest_height(trees@, i as nat)
                },
                cap as nat,
            ),
        decreases trees.len() - i,
    {
        let h = trees[i].height_within(cap);
        if h > highest {
            highest = h;
        }
        i += 1;
    }
    highest
}

/// The tree behind an optional reference.
pub open spec fn tree_of(t: Option<&TokenTree>) -> Option<TokenTree> {
    match t {
        Some(t) => Some(*t),
        None => None,
    }
}

pub proof fn lemma_forest_height(trees: Seq<TokenTree>, from: nat, i: int)
    requires
        from <= i < trees.len(),
    ensures
        trees[i].height() <= forest_height(trees, from),
    decreases trees.len() - from,
{
    if from < i {
        lemma_forest_height(trees, from + 1, i);
    }
}

pub proof fn lemma_forest_wf(trees: Seq<TokenTree>, from: nat, i: int)
    requires
        from <= i < trees.len(),
        forest_wf(trees, from),
    ensures
        trees[i].wf(),
    decreases trees.len() - from,
{
    if from < i {
        lemma_forest_wf(trees, from + 1, i);
    }
}

} // verus!
