//! What the engine learns of a nested node before it writes it: its
//! delimiter, its length, and where its lines break.

use crate::expr_fmt::{is_ability, token_to_ability};
use crate::fmt::Format;
use crate::layout::{
    begins_declaration, breaks_after_block, breaks_after_child, delimiter_of,
    delimiter_text, forest_len, has_token, in_specifier_list, is_delimiter, is_specifier_word,
    measured, next_of, splittable, tree_len,
};
use crate::text::{chars_of, same_text, str_len_within};
use crate::token_tree::{at_most, tree_of, Delimiter, NestKind, NestKind_, Note, Tok, TokenTree};
use vstd::prelude::*;

verus! {

fn is_char_text(s: &str, c: char) -> (r: bool)
    ensures
        r == (s@ == seq![c]),
{
    let v = chars_of(s);
    if v.len() == 1 && v[0] == c {
        assert(v@ =~= seq![c]);
        true
    } else {
        false
    }
}

fn is_specifier(s: &str) -> (r: bool)
    ensures
        r == is_specifier_word(s@),
{
    same_text(s, "acquires") || same_text(s, "reads") || same_text(s, "writes") || same_text(
        s,
        "pure",
    )
}

fn begins_declaration_exec(tok: Tok, content: &str) -> (r: bool)
    ensures
        r == begins_declaration(tok, content@),
{
    match tok {
        Tok::Fun
        | Tok::Struct
        | Tok::Module
        | Tok::Use
        | Tok::Const
        | Tok::Spec
        | Tok::Return
        | Tok::Public
        | Tok::Native
        | Tok::Friend
        | Tok::Loop
        | Tok::While
        | Tok::If
        | Tok::Continue
        | Tok::Break
        | Tok::Abort
        | Tok::NumSign => true,
        Tok::Identifier => same_text(content, "entry"),
        _ => false,
    }
}

/// Whether the tree begins a declaration, and whether it begins with an ability.
fn looks_ahead(t: &TokenTree) -> (r: (bool, bool))
    ensures
        r.0 == begins_declaration(t.first_tok(), t.first_text()),
        r.1 == is_ability(t.first_tok(), t.first_text()),
{
    match t {
        TokenTree::SimpleToken { content, tok, .. } => (
            begins_declaration_exec(*tok, content.as_str()),
            token_to_ability(*tok, content.as_str()),
        ),
        TokenTree::Nested { kind, .. } => {
            proof {
                reveal_strlit("entry");
                reveal_strlit("drop");
                reveal_strlit("store");
                reveal_strlit("key");
            }
            assert(kind.kind.start_text().len() == 1);
            (false, false)
        },
    }
}

/// Whether the text of an optional simple token is that of an optional delimiter.
fn same_as_delimiter(text: Option<&str>, delimiter: Option<Delimiter>) -> (r: bool)
    ensures
        r == (match text {
            Some(s) => Some(s@),
            None => None,
        } == delimiter_text(delimiter)),
{
    match (text, delimiter) {
        (None, None) => true,
        (Some(s), Some(d)) => same_text(s, d.to_static_str()),
        _ => false,
    }
}

/// Whether one of the first `n` of `trees` is the simple token `text`.
spec fn seen(trees: Seq<TokenTree>, text: Seq<char>, n: int) -> bool {
    exists|j: int| 0 <= j < n && #[trigger] trees[j].simple_text() == Some(text)
}

proof fn lemma_seen_step(trees: Seq<TokenTree>, text: Seq<char>, n: int)
    requires
        0 <= n < trees.len(),
    ensures
        seen(trees, text, n + 1) == (seen(trees, text, n) || trees[n].simple_text() == Some(text)),
{
    if seen(trees, text, n + 1) {
        let j = choose|j: int| 0 <= j < n + 1 && #[trigger] trees[j].simple_text() == Some(text);
        if j < n {
            assert(seen(trees, text, n));
        }
    }
    if seen(trees, text, n) {
        let j = choose|j: int| 0 <= j < n && #[trigger] trees[j].simple_text() == Some(text);
        assert(0 <= j < n + 1 && trees[j].simple_text() == Some(text));
    }
    if trees[n].simple_text() == Some(text) {
        assert(0 <= n < n + 1 && trees[n].simple_text() == Some(text));
    }
}

impl Format {
    /// The delimiter of a node with the children `token_tree`, `;` before
    /// `,`, and whether one of them is `:`.
    pub fn analyze_token_tree_delimiter(token_tree: &Vec<TokenTree>) -> (r: (
        Option<Delimiter>,
        bool,
    ))
        ensures
            r.0 == delimiter_of(token_tree@),
            r.1 == has_token(token_tree@, seq![':']),
    {
        let mut semicolon = false;
        let mut comma = false;
        let mut has_colon = false;
        let mut i: usize = 0;
        while i < token_tree.len()
            invariant
                i <= token_tree.len(),
                semicolon == seen(token_tree@, seq![';'], i as int),
                comma == seen(token_tree@, seq![','], i as int),
                has_colon == seen(token_tree@, seq![':'], i as int),
            decreases token_tree.len() - i,
        {
            proof {
                lemma_seen_step(token_tree@, seq![';'], i as int);
                lemma_seen_step(token_tree@, seq![','], i as int);
                lemma_seen_step(token_tree@, seq![':'], i as int);
            }
            match &token_tree[i] {
                TokenTree::SimpleToken { content, .. } => {
                    if is_char_text(content.as_str(), ';') {
                        semicolon = true;
                    } else if is_char_text(content.as_str(), ',') {
                        comma = true;
                    } else if is_char_text(content.as_str(), ':') {
                        has_colon = true;
                    }
                    assert(seq![';'][0] != seq![','][0]);
                    assert(seq![';'][0] != seq![':'][0]);
                    assert(seq![','][0] != seq![':'][0]);
                },
                TokenTree::Nested { .. } => {},
            }
            i += 1;
        }
        let d = if semicolon {
            Some(Delimiter::Semicolon)
        } else if comma {
            Some(Delimiter::Comma)
        } else {
            None
        };
        (d, has_colon)
    }

    /// The offset at which `token_tree` begins.
    pub fn analyzer_token_tree_start_pos_(ret: &mut u32, token_tree: &TokenTree)
        ensures
            *final(ret) == token_tree.start_offset(),
    {
        match token_tree {
            TokenTree::SimpleToken { pos, .. } => {
                *ret = *pos;
            },
            TokenTree::Nested { kind, .. } => {
                *ret = kind.start_pos;
            },
        }
    }

    /// Adds the length of `token_tree` to `ret`, and stops at `max + 1`; a
    /// sum that stands above `max` stays as it is.
    pub fn analyzer_token_tree_length_(ret: &mut usize, token_tree: &TokenTree, max: usize)
        ensures
            *final(ret) == measured(*old(ret) as nat, tree_len(*token_tree), max as nat),
        decreases *token_tree,
    {
        if *ret > max {
            return ;
        }
        match token_tree {
            TokenTree::SimpleToken { content, .. } => {
                let room: usize = max - *ret;
                let left: usize = usize::MAX - *ret;
                let cap = if room < left {
                    room + 1
                } else {
                    left
                };
                let len = str_len_within(content.as_str(), cap);
                *ret = *ret + len;
            },
            TokenTree::Nested { elements, .. } => {
                let ghost start = *ret as nat;
                let mut i: usize = 0;
                while i < elements.len()
                    invariant
                        i <= elements.len(),
                        start == *old(ret),
                        start <= max,
                        *ret <= max,
                        forest_len(elements@, i as nat) <= forest_len(elements@, 0),
                        *ret == at_most(
                            (start + forest_len(elements@, 0) - forest_len(elements@, i as nat)) as nat,
                            usize::MAX as nat,
                        ),
                        *token_tree is Nested,
                        token_tree->elements == *elements,
                    decreases elements.len() - i,
                {
                    assert(forest_len(elements@, i as nat) == tree_len(elements@[i as int])
                        + forest_len(elements@, (i + 1) as nat));
                    Self::analyzer_token_tree_length_(ret, &elements[i], max);
                    if *ret > max {
                        assert(start + forest_len(elements@, 0) > max);
                        return ;
                    }
                    i += 1;
                }
                if *ret > usize::MAX - 2 {
                    *ret = usize::MAX;
                } else if *ret + 2 > max {
                    *ret = max + 1;
                } else {
                    *ret = *ret + 2;
                }
            },
        }
    }

    /// The length of the text of `token_tree`, each pair of brackets
    /// counted as 2, cut off at `max + 1`.
    pub fn analyze_token_tree_length(token_tree: &Vec<TokenTree>, max: usize) -> (len: usize)
        ensures
            len == measured(0, forest_len(token_tree@, 0), max as nat),
    {
        let mut ret: usize = 0;
        let mut i: usize = 0;
        while i < token_tree.len()
            invariant
                i <= token_tree.len(),
                ret <= max,
                forest_len(token_tree@, i as nat) <= forest_len(token_tree@, 0),
                ret == at_most(
                    (forest_len(token_tree@, 0) - forest_len(token_tree@, i as nat)) as nat,
                    usize::MAX as nat,
                ),
            decreases token_tree.len() - i,
        {
            assert(forest_len(token_tree@, i as nat) == tree_len(token_tree@[i as int])
                + forest_len(token_tree@, (i + 1) as nat));
            Self::analyzer_token_tree_length_(&mut ret, &token_tree[i], max);
            if ret > max {
                return ret;
            }
            i += 1;
        }
        ret
    }

    /// Whether a line break separates the brace block `current` from the
    /// declaration `next` that follows it in a node of kind `kind`.
    pub fn need_new_line(
        kind: NestKind_,
        delimiter: Option<Delimiter>,
        _has_colon: bool,
        current: &TokenTree,
        next: Option<&TokenTree>,
    ) -> (r: bool)
        ensures
            r == breaks_after_block(kind, delimiter, *current, tree_of(next)),
    {
        let next_text = match next {
            Some(n) => n.simple_str(),
            None => None,
        };
        if same_as_delimiter(next_text, delimiter) {
            return false;
        }
        let b_judge_next_token = match next {
            Some(n) => looks_ahead(n).0,
            None => true,
        };
        let after_brace = match current {
            TokenTree::SimpleToken { .. } => false,
            TokenTree::Nested { kind: inner, .. } => inner.kind == NestKind_::Brace,
        };
        after_brace && kind == NestKind_::Brace && b_judge_next_token
    }

    /// Whether a line break follows the child at `index` of a node.
    pub fn need_new_line_for_each_token_in_nested(
        kind: &NestKind,
        elements: &Vec<TokenTree>,
        delimiter: Option<Delimiter>,
        has_colon: bool,
        index: usize,
        new_line_mode: bool,
    ) -> (r: bool)
        requires
            index < elements.len(),
        ensures
            r == breaks_after_child(kind.kind, elements@, delimiter, index as nat, new_line_mode),
    {
        let t = &elements[index];
        let next_t = if index + 1 < elements.len() {
            Some(&elements[index + 1])
        } else {
            None
        };
        assert(tree_of(next_t) == next_of(elements@, index as nat));
        let is_delimiter = delimiter.is_some() && same_as_delimiter(t.simple_str(), delimiter);
        let mut new_line = new_line_mode && (Self::need_new_line(
            kind.kind,
            delimiter,
            has_colon,
            t,
            next_t,
        ) || is_delimiter) && index != elements.len() - 1;
        if is_delimiter {
            let comma = match delimiter {
                Some(Delimiter::Comma) => true,
                _ => false,
            };
            if comma {
                let wanted = new_line;
                let mut idx = index;
                while idx > 0
                    invariant_except_break
                        new_line == wanted,
                    invariant
                        idx <= index < elements.len(),
                        in_specifier_list(elements@, idx as nat) == in_specifier_list(
                            elements@,
                            index as nat,
                        ),
                    ensures
                        new_line == (wanted && !in_specifier_list(elements@, index as nat)),
                    decreases idx,
                {
                    let word = match elements[idx].simple_str() {
                        None => {
                            break ;
                        },
                        Some(s) => is_specifier(s),
                    };
                    if word {
                        new_line = false;
                        break ;
                    }
                    idx = idx - 1;
                }
            }
        }
        if let Some(next) = next_t {
            if looks_ahead(next).1 {
                new_line = false;
            }
        }
        new_line
    }

    /// Whether a token may end an output line that has grown too long.
    pub fn tok_suitable_for_new_line(tok: Tok, note: Option<Note>, next: Option<&TokenTree>) -> (r:
        bool)
        ensures
            r == splittable(tok, note, tree_of(next)),
    {
        let before_type = match next {
            Some(TokenTree::Nested { kind, .. }) => kind.kind == NestKind_::Type,
            _ => false,
        };
        if before_type {
            return false;
        }
        let is_bin = match note {
            Some(n) => n == Note::BinaryOP,
            None => false,
        };
        match tok {
            Tok::Less | Tok::Amp | Tok::Star | Tok::Greater | Tok::Pipe => is_bin,
            Tok::ExclaimEqual
            | Tok::Percent
            | Tok::AmpAmp
            | Tok::PipePipe
            | Tok::Caret
            | Tok::ColonColon
            | Tok::Plus
            | Tok::Minus
            | Tok::Period
            | Tok::PeriodPeriod
            | Tok::Slash
            | Tok::LessEqual
            | Tok::LessLess
            | Tok::Equal
            | Tok::EqualEqual
            | Tok::EqualEqualGreater
            | Tok::LessEqualEqualGreater
            | Tok::GreaterEqual
            | Tok::GreaterGreater
            | Tok::NumValue => true,
            _ => false,
        }
    }
}

} // verus!
