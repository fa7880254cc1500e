//! Where a space stands between two neighbouring tokens.

use crate::text::same_text;
use crate::token_tree::{Note, Tok, TokenTree};
use vstd::prelude::*;

verus! {

/// How a token behaves towards the space on either side of it.
#[derive(Clone, Copy, Debug, PartialEq, Eq, Structural)]
pub enum TokType {
    /// A name or a keyword.
    Alphabet,
    /// A byte string.
    Text,
    /// A number.
    Number,
    /// An operator between two operands.
    MathSign,
    /// A sign in front of its operand.
    Prefix,
    /// `&mut`
    AmpMut,
    /// `.`, `..` and `::`
    NoNeedSpace,
    /// `:`
    Colon,
    /// `;`
    Semicolon,
    /// `,`
    Comma,
    /// An opening bracket.
    Open,
    /// A closing bracket.
    Close,
}

/// The type of `tok`; `binary` says that the token is noted as a binary operator.
pub open spec fn tok_type(tok: Tok, binary: bool) -> TokType {
    match tok {
        Tok::NumValue | Tok::NumTypedValue => TokType::Number,
        Tok::ByteStringValue => TokType::Text,
        Tok::ExclaimEqual
        | Tok::Percent
        | Tok::AmpAmp
        | Tok::Plus
        | Tok::Minus
        | Tok::Slash
        | Tok::LessEqual
        | Tok::LessLess
        | Tok::Equal
        | Tok::EqualEqual
        | Tok::EqualEqualGreater
        | Tok::LessEqualEqualGreater
        | Tok::GreaterEqual
        | Tok::GreaterGreater
        | Tok::Caret
        | Tok::PipePipe => TokType::MathSign,
        Tok::Amp | Tok::Star => if binary {
            TokType::MathSign
        } else {
            TokType::Prefix
        },
        Tok::Less | Tok::Pipe => if binary {
            TokType::MathSign
        } else {
            TokType::Open
        },
        Tok::Greater => if binary {
            TokType::MathSign
        } else {
            TokType::Close
        },
        Tok::Exclaim | Tok::NumSign | Tok::AtSign => TokType::Prefix,
        Tok::AmpMut => TokType::AmpMut,
        Tok::Period | Tok::PeriodPeriod | Tok::ColonColon => TokType::NoNeedSpace,
        Tok::Colon => TokType::Colon,
        Tok::Semicolon => TokType::Semicolon,
        Tok::Comma => TokType::Comma,
        Tok::LParen | Tok::LBracket | Tok::LBrace => TokType::Open,
        Tok::RParen | Tok::RBracket | Tok::RBrace => TokType::Close,
        _ => TokType::Alphabet,
    }
}

pub fn tok_type_of(tok: Tok, binary: bool) -> (t: TokType)
    ensures
        t == tok_type(tok, binary),
{
    match tok {
        Tok::NumValue | Tok::NumTypedValue => TokType::Number,
        Tok::ByteStringValue => TokType::Text,
        Tok::ExclaimEqual
        | Tok::Percent
        | Tok::AmpAmp
        | Tok::Plus
        | Tok::Minus
        | Tok::Slash
        | Tok::LessEqual
        | Tok::LessLess
        | Tok::Equal
        | Tok::EqualEqual
        | Tok::EqualEqualGreater
        | Tok::LessEqualEqualGreater
        | Tok::GreaterEqual
        | Tok::GreaterGreater
        | Tok::Caret
        | Tok::PipePipe => TokType::MathSign,
        Tok::Amp | Tok::Star => if binary {
            TokType::MathSign
        } else {
            TokType::Prefix
        },
        Tok::Less | Tok::Pipe => if binary {
            TokType::MathSign
        } else {
            TokType::Open
        },
        Tok::Greater => if binary {
            TokType::MathSign
        } else {
            TokType::Close
        },
        Tok::Exclaim | Tok::NumSign | Tok::AtSign => TokType::Prefix,
        Tok::AmpMut => TokType::AmpMut,
        Tok::Period | Tok::PeriodPeriod | Tok::ColonColon => TokType::NoNeedSpace,
        Tok::Colon => TokType::Colon,
        Tok::Semicolon => TokType::Semicolon,
        Tok::Comma => TokType::Comma,
        Tok::LParen | Tok::LBracket | Tok::LBrace => TokType::Open,
        Tok::RParen | Tok::RBracket | Tok::RBrace => TokType::Close,
        _ => TokType::Alphabet,
    }
}

/// Whether a simple token is noted as a binary operator.
pub open spec fn is_binary(t: TokenTree) -> bool {
    t is SimpleToken && t.note_of() == Some(Note::BinaryOP)
}

/// The type with which a tree ends.
pub open spec fn type_at_end(t: TokenTree) -> TokType {
    match t {
        TokenTree::SimpleToken { .. } => tok_type(t.last_tok(), is_binary(t)),
        TokenTree::Nested { .. } => TokType::Close,
    }
}

/// The type with which a tree begins.
pub open spec fn type_at_start(t: TokenTree) -> TokType {
    match t {
        TokenTree::SimpleToken { .. } => tok_type(t.first_tok(), is_binary(t)),
        TokenTree::Nested { .. } => TokType::Open,
    }
}

/// Whether a space stands between a token of type `current`, which is the
/// token `current_tok`, and a following one of type `next` that begins with
/// the token `next_tok`.
pub open spec fn space_between(
    current: TokType,
    current_tok: Tok,
    next: TokType,
    next_tok: Tok,
) -> bool {
    if next == TokType::Semicolon || next == TokType::Comma || next == TokType::NoNeedSpace || next
        == TokType::Close || next == TokType::Colon {
        // nothing stands before a separator, a path sign or a closing bracket
        false
    } else if current == TokType::NoNeedSpace || current == TokType::Open || current
        == TokType::Prefix {
        // nothing stands after a path sign, an opening bracket or a prefix
        false
    } else if current == TokType::MathSign || next == TokType::MathSign {
        true
    } else if current == TokType::Colon || current == TokType::Comma || current
        == TokType::Semicolon || current == TokType::AmpMut {
        true
    } else if next == TokType::Open {
        // a brace is set off; the other brackets cling to a name and to a
        // closing bracket, and are set off from a keyword
        if next_tok == Tok::LBrace {
            true
        } else {
            current == TokType::Alphabet && current_tok != Tok::Identifier && current_tok
                != Tok::Public
        }
    } else {
        // name, number, string, prefix or `&mut` after name, number, string
        // or closing bracket
        true
    }
}

/// Whether a space is needed between `current` and the tree that follows it.
pub open spec fn space_needed(current: TokenTree, next: Option<TokenTree>) -> bool {
    match next {
        None => false,
        Some(next) => space_between(
            type_at_end(current),
            current.last_tok(),
            type_at_start(next),
            next.first_tok(),
        ),
    }
}

fn ends_with_type(t: &TokenTree) -> (r: TokType)
    ensures
        r == type_at_end(*t),
{
    match t {
        TokenTree::SimpleToken { tok, note, .. } => {
            let binary = match note {
                Some(n) => *n == Note::BinaryOP,
                None => false,
            };
            tok_type_of(*tok, binary)
        },
        TokenTree::Nested { .. } => TokType::Close,
    }
}

fn begins_with_type(t: &TokenTree) -> (r: TokType)
    ensures
        r == type_at_start(*t),
{
    match t {
        TokenTree::SimpleToken { tok, note, .. } => {
            let binary = match note {
                Some(n) => *n == Note::BinaryOP,
                None => false,
            };
            tok_type_of(*tok, binary)
        },
        TokenTree::Nested { .. } => TokType::Open,
    }
}

fn space_stands_between(c: TokType, c_tok: Tok, n: TokType, n_tok: Tok) -> (r: bool)
    ensures
        r == space_between(c, c_tok, n, n_tok),
{
    if n == TokType::Semicolon || n == TokType::Comma || n == TokType::NoNeedSpace || n
        == TokType::Close || n == TokType::Colon {
        false
    } else if c == TokType::NoNeedSpace || c == TokType::Open || c == TokType::Prefix {
        false
    } else if c == TokType::MathSign || n == TokType::MathSign {
        true
    } else if c == TokType::Colon || c == TokType::Comma || c == TokType::Semicolon || c
        == TokType::AmpMut {
        true
    } else if n == TokType::Open {
        if n_tok == Tok::LBrace {
            true
        } else {
            c == TokType::Alphabet && c_tok != Tok::Identifier && c_tok != Tok::Public
        }
    } else {
        true
    }
}

/// Whether a space is needed between `current` and the tree that follows it.
pub fn need_space(current: &TokenTree, next: Option<&TokenTree>) -> (r: bool)
    ensures
        r == space_needed(*current, crate::token_tree::tree_of(next)),
{
    match next {
        None => false,
        Some(next) => space_stands_between(
            ends_with_type(current),
            current.end_tok(),
            begins_with_type(next),
            next.start_tok(),
        ),
    }
}

/// Whether a space follows a simple token of category `tok` with the note `note`.
pub open spec fn space_after(tok: Tok, note: Option<Note>, next: Option<TokenTree>) -> bool {
    match next {
        None => false,
        Some(next) => space_between(
            tok_type(tok, note == Some(Note::BinaryOP)),
            tok,
            type_at_start(next),
            next.first_tok(),
        ),
    }
}

/// Whether a space is needed between a simple token of category `tok` with
/// the note `note` and the tree that follows it.
pub fn need_space_after_token(tok: Tok, note: Option<Note>, next: Option<&TokenTree>) -> (r: bool)
    ensures
        r == space_after(tok, note, crate::token_tree::tree_of(next)),
{
    match next {
        None => false,
        Some(next) => {
            let binary = match note {
                Some(n) => n == Note::BinaryOP,
                None => false,
            };
            space_stands_between(
                tok_type_of(tok, binary),
                tok,
                begins_with_type(next),
                next.start_tok(),
            )
        },
    }
}

/// Whether a token names an ability: `copy`, `drop`, `store` or `key`.
pub open spec fn is_ability(tok: Tok, content: Seq<char>) -> bool {
    tok == Tok::Copy || (tok == Tok::Identifier && (content == "drop"@ || content == "store"@
        || content == "key"@))
}

/// Whether a token names an ability.
pub fn token_to_ability(tok: Tok, content: &str) -> (r: bool)
    ensures
        r == is_ability(tok, content@),
{
    match tok {
        Tok::Copy => true,
        Tok::Identifier => same_text(content, "drop") || same_text(content, "store") || same_text(
            content,
            "key",
        ),
        _ => false,
    }
}

} // verus!
