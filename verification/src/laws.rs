//! What holds of every run: the tokens of the forest are written in their
//! order, every comment is written once and in its order, and nothing else
//! is written but whitespace.

use crate::fun_fmt::{clause_at, specifiers_split, split_from};
use crate::expr_fmt::{is_ability, space_after, space_needed};
use crate::layout::{
    breaks_after_child, delimiter_of, ends_line, follows_pound, forest_len, in_specifier_list,
    is_delimiter, next_of, splittable, Cursor, Env, Piece, MAX_ELEMENTS_LENGTH, MAX_LINE_LENGTH,
};
use crate::layout::lemma_stop_is_further;
use crate::text::{
    first_newline, is_whitespace, last_line, lemma_first_newline, lemma_rfind_from, rfind_text,
    spaces, strip_cr, strip_lines, trim_end, trim_spaces_end, utf8_len,
};
use crate::token_tree::{Delimiter, NestKind, NestKind_, Note, Tok, TokenTree};
use vstd::prelude::*;

verus! {

/// `s` without its whitespace.
pub open spec fn ink(s: Seq<char>) -> Seq<char>
    decreases s.len(),
{
    if s.len() == 0 {
        s
    } else if is_whitespace(s.last()) {
        ink(s.drop_last())
    } else {
        ink(s.drop_last()).push(s.last())
    }
}

/// Whether `s` holds nothing but whitespace.
pub open spec fn blank(s: Seq<char>) -> bool {
    forall|i: int| 0 <= i < s.len() ==> is_whitespace(#[trigger] s[i])
}

/// The texts of `pieces`, one after the other.
pub open spec fn texts(env: Env, pieces: Seq<Piece>) -> Seq<char>
    decreases pieces.len(),
{
    if pieces.len() == 0 {
        Seq::empty()
    } else {
        texts(env, pieces.drop_last()) + env.text_of(pieces.last())
    }
}

/// The texts of the tokens among `pieces`, in their order.
pub open spec fn tokens_in(pieces: Seq<Piece>) -> Seq<Seq<char>>
    decreases pieces.len(),
{
    if pieces.len() == 0 {
        Seq::empty()
    } else {
        match pieces.last() {
            Piece::Token(text) => tokens_in(pieces.drop_last()).push(text),
            Piece::Comment(..) => tokens_in(pieces.drop_last()),
        }
    }
}

/// The indices of the comments among `pieces`, in their order.
pub open spec fn comments_in(pieces: Seq<Piece>) -> Seq<nat>
    decreases pieces.len(),
{
    if pieces.len() == 0 {
        Seq::empty()
    } else {
        match pieces.last() {
            Piece::Token(..) => comments_in(pieces.drop_last()),
            Piece::Comment(index, _) => comments_in(pieces.drop_last()).push(index),
        }
    }
}

/// The numbers from `from` up to, not with, `to`.
pub open spec fn count_up(from: nat, to: nat) -> Seq<nat> {
    Seq::new((to - from) as nat, |k: int| (from + k) as nat)
}

/// The texts of the tokens of `t` in the order of the source, its brackets
/// among them.
pub open spec fn leaves(t: TokenTree) -> Seq<Seq<char>>
    decreases t,
{
    match t {
        TokenTree::SimpleToken { content, .. } => seq![content@],
        TokenTree::Nested { elements, kind, .. } => seq![kind.kind.start_text()] + forest_leaves(
            elements@,
            0,
            elements@.len(),
        ) + seq![kind.kind.end_text()],
    }
}

/// The texts of the tokens of `trees[from..to]` in the order of the source.
pub open spec fn forest_leaves(trees: Seq<TokenTree>, from: nat, to: nat) -> Seq<Seq<char>>
    decreases trees, to - from,
{
    if from >= to || to > trees.len() {
        Seq::empty()
    } else {
        leaves(trees[from as int]) + forest_leaves(trees, from + 1, to)
    }
}

/// From `a` a run has come to `b` by writing `added`: the tokens `tokens`
/// and the comments from the one that was next at `a` up to the one that
/// is next at `b`, each once and in order, and nothing else but whitespace.
pub open spec fn wrote(
    env: Env,
    a: Cursor,
    b: Cursor,
    added: Seq<Piece>,
    tokens: Seq<Seq<char>>,
) -> bool {
    &&& b.written == a.written + added
    &&& tokens_in(added) == tokens
    &&& a.next_comment <= b.next_comment
    &&& comments_in(added) == count_up(a.next_comment, b.next_comment)
    &&& a.next_comment <= env.comments.len() ==> b.next_comment <= env.comments.len()
    &&& ink(b.out) == ink(a.out) + ink(texts(env, added))
}

pub proof fn lemma_ink_add(a: Seq<char>, b: Seq<char>)
    ensures
        ink(a + b) == ink(a) + ink(b),
    decreases b.len(),
{
    if b.len() == 0 {
        assert(a + b == a);
        assert(ink(a) + ink(b) == ink(a));
    } else {
        lemma_ink_add(a, b.drop_last());
        assert((a + b).drop_last() == a + b.drop_last());
        if !is_whitespace(b.last()) {
            assert((ink(a) + ink(b.drop_last())).push(b.last()) == ink(a) + ink(b.drop_last()).push(
                b.last(),
            ));
        }
    }
}

pub proof fn lemma_ink_blank(s: Seq<char>)
    requires
        blank(s),
    ensures
        ink(s) == Seq::<char>::empty(),
    decreases s.len(),
{
    if s.len() > 0 {
        assert(is_whitespace(s[s.len() - 1]));
        lemma_ink_blank(s.drop_last());
    }
}

/// Whitespace at the end of a text adds no ink.
pub proof fn lemma_ink_pad(s: Seq<char>, pad: Seq<char>)
    requires
        blank(pad),
    ensures
        ink(s + pad) == ink(s),
{
    lemma_ink_add(s, pad);
    lemma_ink_blank(pad);
    assert(ink(s) + Seq::<char>::empty() == ink(s));
}

pub proof fn lemma_ink_trim_end(s: Seq<char>)
    ensures
        ink(trim_end(s)) == ink(s),
    decreases s.len(),
{
    if s.len() > 0 && is_whitespace(s.last()) {
        lemma_ink_trim_end(s.drop_last());
    }
}

pub proof fn lemma_blank_line_feed(n: nat)
    ensures
        blank(seq!['\n'] + spaces(n)),
        blank(seq![' ']),
        blank(spaces(n)),
{
}

/// Laying the specifier clauses out on lines of their own changes
/// whitespace only.
pub proof fn lemma_ink_split_from(s: Seq<char>, indent: Seq<char>, i: nat, out: Seq<char>)
    requires
        blank(indent),
        i <= s.len(),
    ensures
        ink(split_from(s, indent, i, out)) == ink(out) + ink(s.skip(i as int)),
    decreases s.len() - i,
{
    if i >= s.len() {
        assert(s.skip(i as int) == Seq::<char>::empty());
        assert(ink(out) + Seq::<char>::empty() == ink(out));
    } else {
        let c = s[i as int];
        let rest = s.skip(i as int + 1);
        assert(s.skip(i as int) == seq![c] + rest);
        lemma_ink_add(seq![c], rest);
        let next = if clause_at(s, i as int) {
            (trim_end(out) + seq!['\n'] + indent).push(c)
        } else {
            out.push(c)
        };
        lemma_ink_split_from(s, indent, i + 1, next);
        assert(ink(next) == ink(out) + ink(seq![c])) by {
            if clause_at(s, i as int) {
                lemma_ink_trim_end(out);
                assert(blank(seq!['\n']));
                lemma_ink_pad(trim_end(out), seq!['\n']);
                lemma_ink_pad(trim_end(out) + seq!['\n'], indent);
                assert(next == (trim_end(out) + seq!['\n'] + indent) + seq![c]);
                lemma_ink_add(trim_end(out) + seq!['\n'] + indent, seq![c]);
            } else {
                assert(next == out + seq![c]);
                lemma_ink_add(out, seq![c]);
            }
        }
        assert((ink(out) + ink(seq![c])) + ink(rest) == ink(out) + (ink(seq![c]) + ink(rest)));
    }
}

pub proof fn lemma_ink_specifiers_split(s: Seq<char>, indent: Seq<char>)
    requires
        blank(indent),
    ensures
        ink(specifiers_split(s, indent)) == ink(s),
{
    lemma_ink_split_from(s, indent, 0, Seq::empty());
    assert(s.skip(0) == s);
    assert(Seq::<char>::empty() + ink(s) == ink(s));
}

pub proof fn lemma_ink_trim_spaces_end(s: Seq<char>)
    ensures
        ink(trim_spaces_end(s)) == ink(s),
    decreases s.len(),
{
    if s.len() > 0 && s.last() == ' ' {
        lemma_ink_trim_spaces_end(s.drop_last());
    }
}

/// Taking the spaces at the end of each line away changes whitespace only.
pub proof fn lemma_ink_strip_lines(s: Seq<char>)
    ensures
        ink(strip_lines(s)) == ink(s),
    decreases s.len(),
{
    if s.len() > 0 {
        let k = first_newline(s) as int;
        lemma_first_newline(s);
        if k >= s.len() {
            lemma_ink_trim_spaces_end(s);
        } else {
            let line = s.subrange(0, k);
            let rest = s.subrange(k + 1, s.len() as int);
            let head = trim_spaces_end(strip_cr(line));
            assert(ink(head) == ink(line)) by {
                lemma_ink_trim_spaces_end(strip_cr(line));
            }
            assert(s == line + seq!['\n'] + rest);
            assert(blank(seq!['\n']));
            lemma_ink_pad(line, seq!['\n']);
            lemma_ink_add(line + seq!['\n'], rest);
            if rest.len() == 0 {
                assert(ink(rest) == Seq::<char>::empty());
                assert(ink(line) + Seq::<char>::empty() == ink(line));
            } else {
                lemma_ink_strip_lines(rest);
                lemma_ink_pad(head, seq!['\n']);
                lemma_ink_add(head + seq!['\n'], strip_lines(rest));
            }
        }
    }
}

pub proof fn lemma_texts_add(env: Env, a: Seq<Piece>, b: Seq<Piece>)
    ensures
        texts(env, a + b) == texts(env, a) + texts(env, b),
        tokens_in(a + b) == tokens_in(a) + tokens_in(b),
        comments_in(a + b) == comments_in(a) + comments_in(b),
    decreases b.len(),
{
    if b.len() == 0 {
        assert(a + b == a);
        assert(texts(env, a) + texts(env, b) == texts(env, a));
        assert(tokens_in(a) + tokens_in(b) == tokens_in(a));
        assert(comments_in(a) + comments_in(b) == comments_in(a));
    } else {
        lemma_texts_add(env, a, b.drop_last());
        assert((a + b).drop_last() == a + b.drop_last());
        assert((texts(env, a) + texts(env, b.drop_last())) + env.text_of(b.last()) == texts(env, a)
            + (texts(env, b.drop_last()) + env.text_of(b.last())));
        match b.last() {
            Piece::Token(text) => {
                assert((tokens_in(a) + tokens_in(b.drop_last())).push(text) == tokens_in(a)
                    + tokens_in(b.drop_last()).push(text));
            },
            Piece::Comment(index, _) => {
                assert((comments_in(a) + comments_in(b.drop_last())).push(index) == comments_in(a)
                    + comments_in(b.drop_last()).push(index));
            },
        }
    }
}

pub proof fn lemma_texts_one(env: Env, piece: Piece)
    ensures
        texts(env, seq![piece]) == env.text_of(piece),
        tokens_in(seq![piece]) == match piece {
            Piece::Token(text) => seq![text],
            Piece::Comment(..) => Seq::<Seq<char>>::empty(),
        },
        comments_in(seq![piece]) == match piece {
            Piece::Token(..) => Seq::<nat>::empty(),
            Piece::Comment(index, _) => seq![index],
        },
{
    let one = seq![piece];
    assert(one.drop_last() == Seq::<Piece>::empty());
    assert(texts(env, one.drop_last()) == Seq::<char>::empty());
    assert(Seq::<char>::empty() + env.text_of(piece) == env.text_of(piece));
    assert(tokens_in(one.drop_last()) == Seq::<Seq<char>>::empty());
    assert(comments_in(one.drop_last()) == Seq::<nat>::empty());
    match piece {
        Piece::Token(text) => {
            assert(Seq::<Seq<char>>::empty().push(text) == seq![text]);
        },
        Piece::Comment(index, _) => {
            assert(Seq::<nat>::empty().push(index) == seq![index]);
        },
    }
}

/// What was written from `a` to `b` and what was written from `b` to `c`
/// is what was written from `a` to `c`.
pub proof fn lemma_wrote_then(
    env: Env,
    a: Cursor,
    b: Cursor,
    c: Cursor,
    first: Seq<Piece>,
    first_tokens: Seq<Seq<char>>,
    second: Seq<Piece>,
    second_tokens: Seq<Seq<char>>,
)
    requires
        wrote(env, a, b, first, first_tokens),
        wrote(env, b, c, second, second_tokens),
    ensures
        wrote(env, a, c, first + second, first_tokens + second_tokens),
{
    lemma_texts_add(env, first, second);
    lemma_ink_add(texts(env, first), texts(env, second));
    assert((a.written + first) + second == a.written + (first + second));
    assert(count_up(a.next_comment, b.next_comment) + count_up(b.next_comment, c.next_comment)
        =~= count_up(a.next_comment, c.next_comment));
    assert((ink(a.out) + ink(texts(env, first))) + ink(texts(env, second)) == ink(a.out) + (ink(
        texts(env, first),
    ) + ink(texts(env, second))));
}

/// A step that changes whitespace only has written nothing.
pub proof fn lemma_wrote_nothing(env: Env, a: Cursor, b: Cursor)
    requires
        b.written == a.written,
        b.next_comment == a.next_comment,
        ink(b.out) == ink(a.out),
    ensures
        wrote(env, a, b, Seq::empty(), Seq::empty()),
{
    assert(a.written + Seq::<Piece>::empty() == a.written);
    assert(count_up(a.next_comment, a.next_comment) =~= Seq::<nat>::empty());
    assert(ink(a.out) + ink(texts(env, Seq::<Piece>::empty())) == ink(a.out));
}

pub proof fn lemma_new_line(env: Env, c: Cursor)
    ensures
        wrote(env, c, env.new_line(c), Seq::empty(), Seq::empty()),
        env.new_line(c).depth == c.depth,
{
    lemma_blank_line_feed(c.depth * env.indent_size);
    lemma_ink_pad(c.out, seq!['\n'] + spaces(c.depth * env.indent_size));
    lemma_wrote_nothing(env, c, env.new_line(c));
}

pub proof fn lemma_blank_line(env: Env, c: Cursor)
    ensures
        wrote(env, c, env.blank_line(c), Seq::empty(), Seq::empty()),
        env.blank_line(c).depth == c.depth,
{
    lemma_ink_trim_end(c.out);
    assert(blank(seq!['\n']));
    lemma_ink_pad(trim_end(c.out), seq!['\n']);
    lemma_new_line(env, c.trimmed());
    lemma_new_line(env, c.trimmed().push(seq!['\n']));
    lemma_wrote_nothing(env, c, env.blank_line(c));
}

/// After its whitespace is taken away, a text does not end in whitespace.
pub proof fn lemma_trim_end_ends_in_ink(s: Seq<char>)
    ensures
        trim_end(s).len() > 0 ==> !is_whitespace(trim_end(s).last()),
        trim_end(s).len() <= s.len(),
    decreases s.len(),
{
    if s.len() > 0 && is_whitespace(s.last()) {
        lemma_trim_end_ends_in_ink(s.drop_last());
    }
}

/// Writing one piece after whitespace, and whitespace after it, writes that piece.
proof fn lemma_wrote_one(env: Env, a: Cursor, before: Cursor, after: Cursor, b: Cursor, piece: Piece)
    requires
        before.written == a.written,
        ink(before.out) == ink(a.out),
        after == before.write(piece, env.text_of(piece)),
        b.written == after.written,
        ink(b.out) == ink(after.out),
        match piece {
            Piece::Token(_) => b.next_comment == a.next_comment,
            Piece::Comment(index, _) => index == a.next_comment && b.next_comment == a.next_comment
                + 1 && a.next_comment < env.comments.len(),
        },
    ensures
        wrote(
            env,
            a,
            b,
            seq![piece],
            match piece {
                Piece::Token(text) => seq![text],
                Piece::Comment(..) => Seq::empty(),
            },
        ),
{
    lemma_texts_one(env, piece);
    lemma_ink_add(before.out, env.text_of(piece));
    assert(a.written.push(piece) == a.written + seq![piece]);
    match piece {
        Piece::Token(_) => {
            assert(count_up(a.next_comment, a.next_comment) =~= Seq::<nat>::empty());
        },
        Piece::Comment(index, _) => {
            assert(count_up(a.next_comment, a.next_comment + 1) =~= seq![index]);
        },
    }
}

pub proof fn lemma_leading_comment(env: Env, c: Cursor, content: Seq<char>) -> (piece: Piece)
    requires
        c.next_comment < env.comments.len(),
    ensures
        wrote(env, c, env.leading_comment(c, content), seq![piece], Seq::empty()),
        env.leading_comment(c, content).depth == c.depth,
{
    let comment = env.comments[c.next_comment as int];
    let line = env.line_at(comment.start_offset);
    let pad = seq!['\n'] + spaces(c.depth * env.indent_size);
    lemma_blank_line_feed(c.depth * env.indent_size);
    let c1 = if line > c.cur_line + 1 {
        env.blank_line(c)
    } else if line == c.cur_line + 1 {
        env.new_line(c.trimmed())
    } else {
        c
    };
    assert(ink(c1.out) == ink(c.out)) by {
        lemma_ink_trim_end(c.out);
        lemma_blank_line(env, c);
        lemma_ink_pad(trim_end(c.out), pad);
    }
    let c2 = if c1.wants_space() {
        c1.push(seq![' '])
    } else {
        c1
    };
    assert(ink(c2.out) == ink(c1.out)) by {
        lemma_ink_pad(c1.out, seq![' ']);
    }
    let piece = Piece::Comment(c.next_comment, c.depth);
    let c3 = c2.write(piece, env.text_of(piece));
    let end = env.leading_comment(c, content);
    assert(ink(end.out) == ink(c3.out)) by {
        lemma_ink_pad(c3.out, pad);
        lemma_ink_pad(c3.out, seq![' ']);
        lemma_ink_pad(c3.out + seq![' '], pad);
    }
    lemma_wrote_one(env, c, c2, c3, end, piece);
    piece
}

pub proof fn lemma_add_comments(env: Env, c: Cursor, pos: u32, content: Seq<char>) -> (added: Seq<
    Piece,
>)
    ensures
        wrote(env, c, env.add_comments(c, pos, content), added, Seq::empty()),
        env.add_comments(c, pos, content).depth == c.depth,
    decreases env.comments.len() - c.next_comment,
{
    if c.next_comment >= env.comments.len() || env.comments[c.next_comment as int].start_offset
        > pos {
        lemma_wrote_nothing(env, c, c);
        Seq::empty()
    } else {
        let piece = lemma_leading_comment(env, c, content);
        let c1 = env.leading_comment(c, content);
        let rest = lemma_add_comments(env, c1, pos, content);
        lemma_wrote_then(
            env,
            c,
            c1,
            env.add_comments(c, pos, content),
            seq![piece],
            Seq::empty(),
            rest,
            Seq::empty(),
        );
        assert(Seq::<Seq<char>>::empty() + Seq::<Seq<char>>::empty() == Seq::<Seq<char>>::empty());
        seq![piece] + rest
    }
}

/// After the comments that begin at or before the greatest offset, no
/// comment is left.
pub proof fn lemma_add_comments_to_the_end(env: Env, c: Cursor, content: Seq<char>)
    ensures
        env.add_comments(c, u32::MAX, content).next_comment >= env.comments.len(),
    decreases env.comments.len() - c.next_comment,
{
    if c.next_comment < env.comments.len() {
        lemma_add_comments_to_the_end(env, env.leading_comment(c, content), content);
    }
}

pub proof fn lemma_trailing_comment(env: Env, c: Cursor) -> (piece: Piece)
    requires
        c.next_comment < env.comments.len(),
    ensures
        wrote(env, c, env.trailing_comment(c).0, seq![piece], Seq::empty()),
        env.trailing_comment(c).0.depth == c.depth,
{
    let comment = env.comments[c.next_comment as int];
    let pad = seq!['\n'] + spaces(c.depth * env.indent_size);
    lemma_blank_line_feed(c.depth * env.indent_size);
    let c1 = if c.wants_space() {
        c.push(seq![' '])
    } else {
        c
    };
    assert(ink(c1.out) == ink(c.out)) by {
        lemma_ink_pad(c.out, seq![' ']);
    }
    let piece = Piece::Comment(c.next_comment, c.depth);
    let c2 = c1.write(piece, env.text_of(piece));
    let end = env.trailing_comment(c).0;
    assert(ink(end.out) == ink(c2.out)) by {
        lemma_ink_pad(c2.out, pad);
    }
    lemma_wrote_one(env, c, c1, c2, end, piece);
    piece
}

pub proof fn lemma_trailing_comments(env: Env, c: Cursor, pos: u32, tail: bool, broke: bool) -> (added:
    Seq<Piece>)
    ensures
        wrote(env, c, env.trailing_comments(c, pos, tail, broke).0, added, Seq::empty()),
        env.trailing_comments(c, pos, tail, broke).0.depth == c.depth,
    decreases env.comments.len() - c.next_comment,
{
    if c.next_comment >= env.comments.len() {
        lemma_wrote_nothing(env, c, c);
        Seq::empty()
    } else {
        let comment = env.comments[c.next_comment as int];
        if (!tail && comment.start_offset > pos) || env.line_at(pos) != env.line_at(
            comment.start_offset,
        ) {
            lemma_wrote_nothing(env, c, c);
            Seq::empty()
        } else {
            let piece = lemma_trailing_comment(env, c);
            let (c1, b1) = env.trailing_comment(c);
            let rest = lemma_trailing_comments(env, c1, pos, tail, broke || b1);
            lemma_wrote_then(
                env,
                c,
                c1,
                env.trailing_comments(c, pos, tail, broke).0,
                seq![piece],
                Seq::empty(),
                rest,
                Seq::empty(),
            );
            assert(Seq::<Seq<char>>::empty() + Seq::<Seq<char>>::empty() == Seq::<
                Seq<char>,
            >::empty());
            seq![piece] + rest
        }
    }
}

pub proof fn lemma_process_same_line_comment(env: Env, c: Cursor, pos: u32, tail: bool) -> (added:
    Seq<Piece>)
    ensures
        wrote(env, c, env.process_same_line_comment(c, pos, tail), added, Seq::empty()),
        env.process_same_line_comment(c, pos, tail).depth == c.depth,
{
    let added = lemma_trailing_comments(env, c, pos, tail, false);
    let (c1, broke) = env.trailing_comments(c, pos, tail, false);
    if c1.cur_line != c.cur_line || broke {
        added
    } else {
        lemma_new_line(env, c1);
        lemma_wrote_then(
            env,
            c,
            c1,
            env.new_line(c1),
            added,
            Seq::empty(),
            Seq::empty(),
            Seq::empty(),
        );
        assert(added + Seq::<Piece>::empty() == added);
        assert(Seq::<Seq<char>>::empty() + Seq::<Seq<char>>::empty() == Seq::<Seq<char>>::empty());
        added
    }
}

pub proof fn lemma_render_token(
    env: Env,
    c: Cursor,
    content: Seq<char>,
    pos: u32,
    tok: Tok,
    note: Option<Note>,
    next: Option<TokenTree>,
    new_line_after: bool,
) -> (added: Seq<Piece>)
    ensures
        wrote(
            env,
            c,
            env.render_token(c, content, pos, tok, note, next, new_line_after),
            added,
            seq![content],
        ),
        env.render_token(c, content, pos, tok, note, next, new_line_after).depth == c.depth,
{
    let comments = lemma_add_comments(env, c, pos, content);
    let c1 = env.add_comments(c, pos, content);
    let c2 = if env.line_at(pos) > c1.cur_line + 1 {
        env.blank_line(c1)
    } else {
        c1
    };
    let pad = seq!['\n'] + spaces(c1.depth * env.indent_size);
    lemma_blank_line_feed(c1.depth * env.indent_size);
    assert(ink(c2.out) == ink(c1.out)) by {
        lemma_blank_line(env, c1);
    }
    let piece = Piece::Token(content);
    let c3 = c2.write(piece, content);
    let end = env.render_token(c, content, pos, tok, note, next, new_line_after);
    assert(ink(end.out) == ink(c3.out)) by {
        lemma_ink_pad(c3.out, pad);
        lemma_ink_pad(c3.out, seq![' ']);
    }
    lemma_wrote_one(env, c1, c2, c3, end, piece);
    lemma_wrote_then(env, c, c1, end, comments, Seq::empty(), seq![piece], seq![content]);
    assert(Seq::<Seq<char>>::empty() + seq![content] == seq![content]);
    comments + seq![piece]
}

pub proof fn lemma_rewrite_header(env: Env, c: Cursor)
    ensures
        wrote(env, c, env.rewrite_header(c), Seq::empty(), Seq::empty()),
        env.rewrite_header(c).depth == c.depth,
{
    match rfind_text(c.out, "fun"@) {
        Some(i) => {
            reveal_strlit("fun");
            lemma_rfind_from(c.out, "fun"@, c.out.len() - "fun"@.len());
            let head = c.out.subrange(0, i + 1);
            let tail = c.out.subrange(i + 1, c.out.len() as int);
            let indent = spaces((c.depth + 1) * env.indent_size);
            lemma_blank_line_feed((c.depth + 1) * env.indent_size);
            lemma_ink_specifiers_split(tail, indent);
            lemma_ink_add(head, specifiers_split(tail, indent));
            lemma_ink_add(head, tail);
            assert(head + tail == c.out);
        },
        None => {},
    }
    lemma_wrote_nothing(env, c, env.rewrite_header(c));
}

pub proof fn lemma_open_node(
    env: Env,
    c: Cursor,
    trees: Seq<TokenTree>,
    kind: NestKind,
    note: Option<Note>,
) -> (added: Seq<Piece>)
    ensures
        wrote(env, c, env.open_node(c, trees, kind, note), added, seq![kind.kind.start_text()]),
        env.open_node(c, trees, kind, note).depth == if note != Some(Note::ModuleAddress) {
            c.depth + 1
        } else {
            c.depth
        },
{
    let nothing = Seq::<Piece>::empty();
    let none = Seq::<Seq<char>>::empty();
    let bracket = seq![kind.kind.start_text()];
    let multi_line = env.lays_out_in_lines(c, trees, kind.kind, note);
    let c1 = env.header_done(c, note);
    if note == Some(Note::FunBody) {
        lemma_rewrite_header(env, c);
    } else {
        lemma_wrote_nothing(env, c, c);
    }
    let token = lemma_render_token(
        env,
        c1,
        kind.kind.start_text(),
        kind.start_pos,
        kind.kind.start_token(),
        None,
        None,
        multi_line,
    );
    let c2 = env.render_token(
        c1,
        kind.kind.start_text(),
        kind.start_pos,
        kind.kind.start_token(),
        None,
        None,
        multi_line,
    );
    lemma_wrote_then(env, c, c1, c2, nothing, none, token, bracket);
    assert(nothing + token == token);
    assert(none + bracket == bracket);
    let c3 = if note != Some(Note::ModuleAddress) {
        Cursor { depth: c2.depth + 1, ..c2 }
    } else {
        c2
    };
    assert(wrote(env, c, c3, token, bracket));
    if multi_line {
        let comments = if trees.len() > 0 {
            if env.line_at(trees[0].start_offset()) > env.line_at(kind.start_pos) {
                lemma_process_same_line_comment(env, c3, kind.start_pos, true)
            } else {
                lemma_trailing_comments(env, c3, kind.start_pos, false, false)
            }
        } else {
            lemma_process_same_line_comment(env, c3, kind.start_pos, false)
        };
        lemma_wrote_then(
            env,
            c,
            c3,
            env.after_open(c3, trees, kind),
            token,
            bracket,
            comments,
            none,
        );
        assert(bracket + none == bracket);
        token + comments
    } else {
        token
    }
}

pub proof fn lemma_close_node(
    env: Env,
    c: Cursor,
    t: TokenTree,
    next: Option<TokenTree>,
    multi_line: bool,
) -> (added: Seq<Piece>)
    requires
        t is Nested,
    ensures
        wrote(env, c, env.close_node(c, t, next, multi_line), added, seq![t->kind.kind.end_text()]),
        env.close_node(c, t, next, multi_line).depth == if t.note_of() != Some(Note::ModuleAddress) {
            (c.depth - 1) as nat
        } else {
            c.depth
        },
{
    let none = Seq::<Seq<char>>::empty();
    let kind = t->kind;
    let bracket = seq![kind.kind.end_text()];
    let comments = lemma_add_comments(env, c, kind.end_pos, kind.kind.end_text());
    let c1 = env.add_comments(c, kind.end_pos, kind.kind.end_text());
    let c2 = if t.note_of() != Some(Note::ModuleAddress) {
        Cursor { depth: (c1.depth - 1) as nat, ..c1 }
    } else {
        c1
    };
    let c3 = c2.closed_up();
    assert(ink(c3.out) == ink(c1.out)) by {
        lemma_ink_trim_end(c2.out);
        lemma_ink_pad(trim_end(c2.out), seq![' ']);
    }
    lemma_wrote_nothing(env, c1, c3);
    lemma_wrote_then(env, c, c1, c3, comments, none, Seq::empty(), none);
    assert(comments + Seq::<Piece>::empty() == comments);
    assert(none + none == none);
    let trailing = if multi_line {
        lemma_process_same_line_comment(env, c3, kind.end_pos, false)
    } else {
        lemma_wrote_nothing(env, c3, c3);
        Seq::empty()
    };
    let c4 = if multi_line {
        env.process_same_line_comment(c3, kind.end_pos, false)
    } else {
        c3
    };
    lemma_wrote_then(env, c, c3, c4, comments, none, trailing, none);
    let token = lemma_render_token(
        env,
        c4,
        kind.kind.end_text(),
        kind.end_pos,
        kind.kind.end_token(),
        None,
        None,
        false,
    );
    let c5 = env.render_token(
        c4,
        kind.kind.end_text(),
        kind.end_pos,
        kind.kind.end_token(),
        None,
        None,
        false,
    );
    lemma_wrote_then(env, c, c4, c5, comments + trailing, none, token, bracket);
    assert(none + bracket == bracket);
    let end = env.close_node(c, t, next, multi_line);
    assert(ink(end.out) == ink(c5.out)) by {
        lemma_ink_pad(c5.out, seq![' ']);
    }
    lemma_wrote_nothing(env, c5, end);
    lemma_wrote_then(
        env,
        c,
        c5,
        end,
        comments + trailing + token,
        bracket,
        Seq::empty(),
        none,
    );
    assert(bracket + none == bracket);
    assert(comments + trailing + token + Seq::<Piece>::empty() == comments + trailing + token);
    comments + trailing + token
}

/// Whatever a tree is written after, its tokens are written in the order of
/// the source, the brackets of its nodes among them; the comments that are
/// written with it are those that were next, each once and in their order;
/// nothing else is written but whitespace; and the depth after the tree is
/// the depth before it.
pub proof fn lemma_render(
    env: Env,
    c: Cursor,
    t: TokenTree,
    next: Option<TokenTree>,
    new_line_after: bool,
) -> (added: Seq<Piece>)
    ensures
        wrote(env, c, env.render(c, t, next, new_line_after), added, leaves(t)),
        env.render(c, t, next, new_line_after).depth == c.depth,
    decreases t,
{
    match t {
        TokenTree::SimpleToken { content, pos, tok, note } => lemma_render_token(
            env,
            c,
            content@,
            pos,
            tok,
            note,
            next,
            new_line_after,
        ),
        TokenTree::Nested { elements, kind, note } => {
            let multi_line = env.lays_out_in_lines(c, elements@, kind.kind, note);
            let open = lemma_open_node(env, c, elements@, kind, note);
            let c1 = env.open_node(c, elements@, kind, note);
            let children = lemma_render_children(
                env,
                c1,
                elements@,
                kind.kind,
                multi_line,
                0,
                None,
            );
            let c2 = env.render_children(c1, elements@, kind.kind, multi_line, 0, None);
            let close = lemma_close_node(env, c2, t, next, multi_line);
            let c3 = env.close_node(c2, t, next, multi_line);
            let inner = forest_leaves(elements@, 0, elements@.len());
            lemma_wrote_then(env, c, c1, c2, open, seq![kind.kind.start_text()], children, inner);
            lemma_wrote_then(
                env,
                c,
                c2,
                c3,
                open + children,
                seq![kind.kind.start_text()] + inner,
                close,
                seq![kind.kind.end_text()],
            );
            open + children + close
        },
    }
}

pub proof fn lemma_render_children(
    env: Env,
    c: Cursor,
    trees: Seq<TokenTree>,
    kind: NestKind_,
    multi_line: bool,
    index: nat,
    pound: Option<nat>,
) -> (added: Seq<Piece>)
    ensures
        wrote(
            env,
            c,
            env.render_children(c, trees, kind, multi_line, index, pound),
            added,
            forest_leaves(trees, index, trees.len()),
        ),
        env.render_children(c, trees, kind, multi_line, index, pound).depth == c.depth,
    decreases trees, trees.len() - index,
{
    let none = Seq::<Seq<char>>::empty();
    if index >= trees.len() {
        lemma_wrote_nothing(env, c, c);
        Seq::empty()
    } else {
        let t = trees[index as int];
        let next = next_of(trees, index);
        let pound = if t.is_pound_sign() {
            Some(index)
        } else {
            pound
        };
        let attribute = follows_pound(pound, index);
        let breaks = breaks_after_child(kind, trees, delimiter_of(trees), index, multi_line);
        let tree = lemma_render(env, c, t, next, attribute || breaks);
        let c1 = env.render(c, t, next, attribute || breaks);
        let end = t.end_offset() as u32;
        let trailing = if attribute {
            lemma_process_same_line_comment(env, c1, end, false)
        } else if breaks {
            lemma_process_same_line_comment(env, c1, end, ends_line(env, end, next))
        } else {
            lemma_wrote_nothing(env, c1, c1);
            Seq::empty()
        };
        let c2 = if attribute {
            env.process_same_line_comment(c1, end, false)
        } else if breaks {
            env.process_same_line_comment(c1, end, ends_line(env, end, next))
        } else {
            c1
        };
        let pound = if attribute {
            None
        } else {
            pound
        };
        lemma_wrote_then(env, c, c1, c2, tree, leaves(t), trailing, none);
        assert(leaves(t) + none == leaves(t));
        let rest = lemma_render_children(env, c2, trees, kind, multi_line, index + 1, pound);
        let c3 = env.render_children(c2, trees, kind, multi_line, index + 1, pound);
        lemma_wrote_then(
            env,
            c,
            c2,
            c3,
            tree + trailing,
            leaves(t),
            rest,
            forest_leaves(trees, index + 1, trees.len()),
        );
        tree + trailing + rest
    }
}

/// Of a run over the top-level trees from `index` on, up to its next stop:
/// the tokens of the trees that it passes are written in the order of the
/// source; the comments that are written are those that were next, each
/// once and in their order; nothing else is written but whitespace; and
/// where the run ends, no tree and no comment is left.
pub proof fn lemma_render_items(
    env: Env,
    c: Cursor,
    forest: Seq<TokenTree>,
    index: nat,
    pound: Option<nat>,
) -> (added: Seq<Piece>)
    requires
        index <= forest.len(),
    ensures
        ({
            let run = env.render_items(c, forest, index, pound);
            &&& index <= run.index <= forest.len()
            &&& wrote(env, c, run.cursor, added, forest_leaves(forest, index, run.index))
            &&& run.cursor.depth == c.depth
            &&& !run.paused ==> run.index == forest.len() && run.cursor.next_comment
                >= env.comments.len()
        }),
    decreases forest.len() - index,
{
    let none = Seq::<Seq<char>>::empty();
    if index >= forest.len() {
        lemma_add_comments_to_the_end(env, c, "end_of_move_file"@);
        lemma_add_comments(env, c, u32::MAX, "end_of_move_file"@)
    } else {
        let t = forest[index as int];
        let pound = if t.is_pound_sign() {
            Some(index)
        } else {
            pound
        };
        let attribute = follows_pound(pound, index);
        let tree = lemma_render(env, c, t, next_of(forest, index), attribute);
        let c1 = env.render(c, t, next_of(forest, index), attribute);
        let end = t.end_offset() as u32;
        let trailing = if attribute {
            lemma_process_same_line_comment(env, c1, end, false)
        } else {
            lemma_wrote_nothing(env, c1, c1);
            Seq::empty()
        };
        let c2 = if attribute {
            env.process_same_line_comment(c1, end, false)
        } else {
            c1
        };
        let pound = if attribute {
            None
        } else {
            pound
        };
        lemma_wrote_then(env, c, c1, c2, tree, leaves(t), trailing, none);
        assert(leaves(t) + none == leaves(t));
        if t matches TokenTree::Nested { kind, .. } && kind.kind == NestKind_::Brace {
            let last = if attribute {
                lemma_wrote_nothing(env, c2, c2);
                Seq::empty()
            } else {
                lemma_process_same_line_comment(env, c2, end, false)
            };
            let c3 = if attribute {
                c2
            } else {
                env.process_same_line_comment(c2, end, false)
            };
            lemma_wrote_then(env, c, c2, c3, tree + trailing, leaves(t), last, none);
            assert(forest_leaves(forest, index + 1, index + 1) == none);
            tree + trailing + last
        } else {
            let rest = lemma_render_items(env, c2, forest, index + 1, pound);
            let run = env.render_items(c2, forest, index + 1, pound);
            lemma_wrote_then(
                env,
                c,
                c2,
                run.cursor,
                tree + trailing,
                leaves(t),
                rest,
                forest_leaves(forest, index + 1, run.index),
            );
            tree + trailing + rest
        }
    }
}

/// The line feed and the indentation that begin a line at `c`.
pub open spec fn line_feed(env: Env, c: Cursor) -> Seq<char> {
    seq!['\n'] + spaces(c.depth * env.indent_size)
}

/// What stands in front of an element that is set off by one empty line:
/// the output without the whitespace at its end, two line feeds with
/// nothing between them, and the indentation. At the very beginning of the
/// output one line feed makes the empty line.
pub open spec fn set_off(env: Env, c: Cursor) -> Seq<char> {
    let kept = trim_end(c.out);
    if kept.len() == 0 {
        line_feed(env, c)
    } else {
        kept + seq!['\n'] + line_feed(env, c)
    }
}

/// What `set_off` leaves of the output does not end in whitespace: the
/// empty line that it sets is the only one before the element.
pub proof fn lemma_set_off_sets_one_empty_line(env: Env, c: Cursor)
    ensures
        env.blank_line(c).out == set_off(env, c),
        trim_end(c.out).len() > 0 ==> !is_whitespace(trim_end(c.out).last()),
{
    lemma_trim_end_ends_in_ink(c.out);
    assert(env.blank_line(c).out =~= set_off(env, c));
}

/// Blank lines collapse before a token. Where no comment comes before the
/// token: however many blank lines the source has between what was written
/// last and the token, exactly one empty line stands before it in the
/// output — the whitespace at the end of the output gives way to two line
/// feeds and the indentation; and nothing is written before it where it
/// stands on the source line of what was written last or on the next.
pub proof fn lemma_blank_lines_collapse_before_token(
    env: Env,
    c: Cursor,
    content: Seq<char>,
    pos: u32,
    tok: Tok,
    note: Option<Note>,
    next: Option<TokenTree>,
    new_line_after: bool,
)
    requires
        c.next_comment >= env.comments.len() || env.comments[c.next_comment as int].start_offset
            > pos,
    ensures
        ({
            let before = if env.line_at(pos) > c.cur_line + 1 {
                set_off(env, c)
            } else {
                c.out
            };
            (before + content).is_prefix_of(
                env.render_token(c, content, pos, tok, note, next, new_line_after).out,
            )
        }),
        trim_end(c.out).len() > 0 ==> !is_whitespace(trim_end(c.out).last()),
{
    lemma_set_off_sets_one_empty_line(env, c);
    let before = if env.line_at(pos) > c.cur_line + 1 {
        set_off(env, c)
    } else {
        c.out
    };
    let text = before + content;
    let len = text.len() as int;
    assert(text =~= text.subrange(0, len));
    assert(text =~= (text + seq![' ']).subrange(0, len));
    assert(text =~= (text + line_feed(env, c)).subrange(0, len));
}

/// Blank lines collapse before a comment: however many blank lines the
/// source has between what was written last and the comment, exactly one
/// empty line stands before it in the output; where the comment begins on
/// the next source line, the whitespace at the end of the output gives way
/// to one line feed with the indentation, and no empty line stands before
/// it; and on the same source line nothing but a space is written before it.
pub proof fn lemma_blank_lines_collapse_before_comment(env: Env, c: Cursor, content: Seq<char>)
    requires
        c.next_comment < env.comments.len(),
    ensures
        ({
            let line = env.line_at(env.comments[c.next_comment as int].start_offset);
            let before = if line > c.cur_line + 1 {
                set_off(env, c)
            } else if line == c.cur_line + 1 {
                trim_end(c.out) + line_feed(env, c)
            } else if c.wants_space() {
                c.out + seq![' ']
            } else {
                c.out
            };
            (before + env.text_of_next(c)).is_prefix_of(env.leading_comment(c, content).out)
        }),
        trim_end(c.out).len() > 0 ==> !is_whitespace(trim_end(c.out).last()),
{
    lemma_set_off_sets_one_empty_line(env, c);
    let comment = env.comments[c.next_comment as int];
    let line = env.line_at(comment.start_offset);
    let text = env.text_of_next(c);
    let c1 = if line > c.cur_line + 1 {
        env.blank_line(c)
    } else if line == c.cur_line + 1 {
        env.new_line(c.trimmed())
    } else {
        c
    };
    let c2 = if c1.wants_space() {
        c1.push(seq![' '])
    } else {
        c1
    };
    if line >= c.cur_line + 1 {
        // a line that was begun ends in the line feed or in a space of the indentation
        let fed = c1.out;
        assert(fed.last() == '\n' || fed.last() == ' ');
        assert(!c1.wants_space());
    }
    let c3 = c2.write(Piece::Comment(c.next_comment, c.depth), text);
    let end = env.leading_comment(c, content).out;
    assert(c3.out.is_prefix_of(end)) by {
        let feed = line_feed(env, c);
        assert(c3.out =~= (c3.out + feed).subrange(0, c3.out.len() as int));
        assert(c3.out =~= (c3.out + seq![' ']).subrange(0, c3.out.len() as int));
        assert(c3.out =~= (c3.out + seq![' '] + feed).subrange(0, c3.out.len() as int));
        assert(c3.out =~= c3.out.subrange(0, c3.out.len() as int));
    }
}

/// Where no comment is left, a line ends by a line feed and the indentation.
pub proof fn lemma_line_ends_without_comments(env: Env, c: Cursor, pos: u32, tail: bool)
    requires
        c.next_comment >= env.comments.len(),
    ensures
        env.process_same_line_comment(c, pos, tail) == env.new_line(c),
{
}

/// One delimited child per line. A node whose children are longer than
/// `MAX_ELEMENTS_LENGTH` bytes, or hold a `;`, or that is a struct body with children or a
/// function body, is laid out in multi-line mode, and in that mode the line
/// is broken behind each delimiter that is not the last child: the
/// delimiter is written with nothing after it, and the line ends behind it
/// (with the comments that follow on its source line, unless the delimiter
/// stands behind an attribute marker). Left out are the nodes which are laid out otherwise: a function body
/// without children, a node in other brackets than braces that has no
/// delimiter, a comma of a specifier list, and a delimiter that an ability
/// follows.
pub proof fn lemma_one_child_per_line(
    env: Env,
    c: Cursor,
    inner: Cursor,
    trees: Seq<TokenTree>,
    kind: NestKind_,
    note: Option<Note>,
    index: nat,
    pound: Option<nat>,
)
    requires
        forest_len(trees, 0) > MAX_ELEMENTS_LENGTH || delimiter_of(trees) == Some(
            Delimiter::Semicolon,
        ) || (note == Some(Note::StructDefinition) && trees.len() > 0) || note == Some(
            Note::FunBody,
        ),
        !(note == Some(Note::FunBody) && trees.len() == 0),
        kind == NestKind_::Brace || delimiter_of(trees) is Some,
        index + 1 < trees.len(),
        is_delimiter(trees, delimiter_of(trees), index),
        !(delimiter_of(trees) == Some(Delimiter::Comma) && in_specifier_list(trees, index)),
        !is_ability(trees[index as int + 1].first_tok(), trees[index as int + 1].first_text()),
    ensures
        env.lays_out_in_lines(c, trees, kind, note),
        breaks_after_child(kind, trees, delimiter_of(trees), index, true),
        ({
            let t = trees[index as int];
            let next = next_of(trees, index);
            let end = t.end_offset() as u32;
            let seen = if t.is_pound_sign() {
                Some(index)
            } else {
                pound
            };
            let attribute = follows_pound(seen, index);
            let written = env.render(inner, t, next, true);
            let ended = env.process_same_line_comment(
                written,
                end,
                !attribute && ends_line(env, end, next),
            );
            &&& env.render_children(inner, trees, kind, true, index, pound) == env.render_children(
                ended,
                trees,
                kind,
                true,
                index + 1,
                if attribute {
                    None
                } else {
                    seen
                },
            )
            &&& inner.next_comment >= env.comments.len() ==> ended.out == (if env.line_at(
                t.start_offset(),
            ) > inner.cur_line + 1 {
                set_off(env, inner)
            } else {
                inner.out
            }) + t.simple_text()->0 + line_feed(env, inner)
        }),
{
    let t = trees[index as int];
    assert(t is SimpleToken);
}

pub proof fn lemma_forest_leaves_join(trees: Seq<TokenTree>, from: nat, mid: nat, to: nat)
    requires
        from <= mid <= to <= trees.len(),
    ensures
        forest_leaves(trees, from, mid) + forest_leaves(trees, mid, to) == forest_leaves(
            trees,
            from,
            to,
        ),
    decreases mid - from,
{
    if from >= mid {
        assert(forest_leaves(trees, from, mid) == Seq::<Seq<char>>::empty());
        assert(Seq::<Seq<char>>::empty() + forest_leaves(trees, mid, to) == forest_leaves(
            trees,
            mid,
            to,
        ));
    } else {
        lemma_forest_leaves_join(trees, from + 1, mid, to);
        let first = leaves(trees[from as int]);
        assert((first + forest_leaves(trees, from + 1, mid)) + forest_leaves(trees, mid, to)
            == first + (forest_leaves(trees, from + 1, mid) + forest_leaves(trees, mid, to)));
    }
}

/// Of a whole run, from where it stands to its end: where the rewritings of
/// the output between its stops change whitespace only, the tokens of the
/// top-level trees from `index` on are written in the order of the source,
/// the comments that were left are written each once and in their order,
/// none is left at the end, and nothing else is written but whitespace.
pub proof fn lemma_finish(
    env: Env,
    c: Cursor,
    forest: Seq<TokenTree>,
    index: nat,
    pound: Option<nat>,
    reflow: spec_fn(Seq<char>) -> Seq<char>,
    split: spec_fn(Seq<char>) -> Seq<char>,
) -> (added: Seq<Piece>)
    requires
        index <= forest.len(),
        forall|s: Seq<char>| ink(#[trigger] reflow(s)) == ink(s),
        forall|s: Seq<char>| ink(#[trigger] split(s)) == ink(s),
    ensures
        wrote(
            env,
            c,
            env.finish(c, forest, index, pound, reflow, split),
            added,
            forest_leaves(forest, index, forest.len()),
        ),
        env.finish(c, forest, index, pound, reflow, split).next_comment >= env.comments.len(),
        env.finish(c, forest, index, pound, reflow, split).depth == c.depth,
    decreases forest.len() - index,
{
    let none = Seq::<Seq<char>>::empty();
    let first = lemma_render_items(env, c, forest, index, pound);
    let run = env.render_items(c, forest, index, pound);
    if !run.paused {
        first
    } else {
        lemma_stop_is_further(env, c, forest, index, pound);
        let c1 = Cursor { out: strip_lines(reflow(run.cursor.out)), ..run.cursor };
        let c2 = Cursor { out: strip_lines(split(c1.out)), ..c1 };
        assert(ink(c2.out) == ink(run.cursor.out)) by {
            lemma_ink_strip_lines(reflow(run.cursor.out));
            lemma_ink_strip_lines(split(c1.out));
        }
        lemma_wrote_nothing(env, run.cursor, c2);
        let passed = forest_leaves(forest, index, run.index);
        lemma_wrote_then(env, c, run.cursor, c2, first, passed, Seq::empty(), none);
        assert(first + Seq::<Piece>::empty() == first);
        assert(passed + none == passed);
        let rest = lemma_finish(env, c2, forest, run.index, run.pound, reflow, split);
        let end = env.finish(c2, forest, run.index, run.pound, reflow, split);
        lemma_wrote_then(
            env,
            c,
            c2,
            end,
            first,
            passed,
            rest,
            forest_leaves(forest, run.index, forest.len()),
        );
        lemma_forest_leaves_join(forest, index, run.index, forest.len());
        first + rest
    }
}

/// What stands between a token and the tree that follows it on its output
/// line: a line feed with the indentation where the caller ends the line or
/// the line has grown too long behind a splittable token, else one space
/// where one belongs, else nothing.
pub open spec fn between(
    env: Env,
    c: Cursor,
    written: Seq<char>,
    tok: Tok,
    note: Option<Note>,
    next: Option<TokenTree>,
    ended: bool,
) -> Seq<char> {
    if ended || (utf8_len(last_line(written)) > MAX_LINE_LENGTH && splittable(tok, note, next)) {
        line_feed(env, c)
    } else if space_after(tok, note, next) {
        seq![' ']
    } else {
        Seq::empty()
    }
}

/// No empty line without a blank line in the source. Where no comment is
/// left: of two tokens of which the second stands on the source line of the
/// first or on the next, the second is written behind the first with
/// nothing between them but one line feed with the indentation, one space,
/// or nothing. `ended` says that the line is ended behind the first.
pub proof fn lemma_no_empty_line_without_gap(
    env: Env,
    c: Cursor,
    first: Seq<char>,
    first_pos: u32,
    tok: Tok,
    note: Option<Note>,
    next: Option<TokenTree>,
    ended: bool,
    end: u32,
    tail: bool,
    second: Seq<char>,
    second_pos: u32,
    second_tok: Tok,
    second_note: Option<Note>,
    second_next: Option<TokenTree>,
    second_ended: bool,
)
    requires
        c.next_comment >= env.comments.len(),
        env.line_at(second_pos) <= env.line_at(first_pos) + 1,
    ensures
        ({
            let c1 = env.render_token(c, first, first_pos, tok, note, next, ended);
            let c2 = if ended {
                env.process_same_line_comment(c1, end, tail)
            } else {
                c1
            };
            let c3 = env.render_token(
                c2,
                second,
                second_pos,
                second_tok,
                second_note,
                second_next,
                second_ended,
            );
            let before = if env.line_at(first_pos) > c.cur_line + 1 {
                set_off(env, c)
            } else {
                c.out
            };
            (before + first + between(env, c, before + first, tok, note, next, ended)
                + second).is_prefix_of(c3.out)
        }),
{
    let c1 = env.render_token(c, first, first_pos, tok, note, next, ended);
    let c2 = if ended {
        env.process_same_line_comment(c1, end, tail)
    } else {
        c1
    };
    let before = if env.line_at(first_pos) > c.cur_line + 1 {
        set_off(env, c)
    } else {
        c.out
    };
    lemma_set_off_sets_one_empty_line(env, c);
    let text = before + first + between(env, c, before + first, tok, note, next, ended);
    assert(c2.out =~= text);
    assert(c2.cur_line == env.line_at(first_pos));
    let whole = text + second;
    let len = whole.len() as int;
    assert(whole =~= whole.subrange(0, len));
    assert(whole =~= (whole + seq![' ']).subrange(0, len));
    assert(whole =~= (whole + line_feed(env, c)).subrange(0, len));
}

/// Behind the one clause of a header, everything is written as it stands.
proof fn lemma_split_behind_the_clause(s: Seq<char>, indent: Seq<char>, k: int, i: nat, out: Seq<char>)
    requires
        forall|j: int| 0 <= j < s.len() && j != k ==> !(#[trigger] clause_at(s, j)),
        k < i <= s.len(),
    ensures
        split_from(s, indent, i, out) == out + s.skip(i as int),
    decreases s.len() - i,
{
    if i >= s.len() {
        assert(out + s.skip(i as int) =~= out);
    } else {
        lemma_split_behind_the_clause(s, indent, k, i + 1, out.push(s[i as int]));
        assert(out.push(s[i as int]) + s.skip(i as int + 1) =~= out + s.skip(i as int));
    }
}

/// Before the one clause of a header, everything is written as it stands.
proof fn lemma_split_before_the_clause(s: Seq<char>, indent: Seq<char>, k: int, i: nat)
    requires
        forall|j: int| 0 <= j < s.len() && j != k ==> !(#[trigger] clause_at(s, j)),
        i <= k <= s.len(),
    ensures
        split_from(s, indent, i, s.take(i as int)) == split_from(s, indent, k as nat, s.take(k)),
    decreases k - i,
{
    if i < k {
        assert(s.take(i as int).push(s[i as int]) =~= s.take(i as int + 1));
        lemma_split_before_the_clause(s, indent, k, i + 1);
    }
}

/// A header with one specifier clause: the clause goes to a line of its
/// own, behind the header without the whitespace at its end, a line feed
/// and `indent`; and the clause itself, with all that follows it, stays as
/// it is written.
pub proof fn lemma_one_clause_on_a_continuation_line(s: Seq<char>, indent: Seq<char>, k: int)
    requires
        0 <= k < s.len(),
        clause_at(s, k),
        forall|j: int| 0 <= j < s.len() && j != k ==> !(#[trigger] clause_at(s, j)),
    ensures
        specifiers_split(s, indent) == trim_end(s.take(k)) + seq!['\n'] + indent + s.skip(k),
{
    lemma_split_before_the_clause(s, indent, k, 0);
    assert(s.take(0) =~= Seq::<char>::empty());
    let out = (trim_end(s.take(k)) + seq!['\n'] + indent).push(s[k]);
    lemma_split_behind_the_clause(s, indent, k, (k + 1) as nat, out);
    assert(out + s.skip(k + 1) =~= trim_end(s.take(k)) + seq!['\n'] + indent + s.skip(k));
}

/// Before a function body, a header with one specifier clause comes out
/// with the clause on a continuation line, one level below the depth of the
/// header, whatever the length of the header: up to the clause the output
/// stays as it is, but for the whitespace before the clause; then come a
/// line feed, the indentation of the next level, and the clause as written.
pub proof fn lemma_clause_beneath_its_header(env: Env, c: Cursor, at: int, k: int)
    requires
        rfind_text(c.out, "fun"@) == Some(at),
        0 <= k < c.out.len() - (at + 1),
        clause_at(c.out.skip(at + 1), k),
        forall|j: int|
            0 <= j < c.out.len() - (at + 1) && j != k ==> !(#[trigger] clause_at(
                c.out.skip(at + 1),
                j,
            )),
    ensures
        env.header_done(c, Some(Note::FunBody)).out == c.out.take(at + 1) + trim_end(
            c.out.skip(at + 1).take(k),
        ) + seq!['\n'] + spaces((c.depth + 1) * env.indent_size) + c.out.skip(at + 1).skip(k),
{
    reveal_strlit("fun");
    lemma_rfind_from(c.out, "fun"@, c.out.len() - "fun"@.len());
    let tail = c.out.skip(at + 1);
    let indent = spaces((c.depth + 1) * env.indent_size);
    assert(c.out.subrange(at + 1, c.out.len() as int) =~= tail);
    assert(c.out.subrange(0, at + 1) =~= c.out.take(at + 1));
    lemma_one_clause_on_a_continuation_line(tail, indent, k);
    assert(c.out.take(at + 1) + (trim_end(tail.take(k)) + seq!['\n'] + indent + tail.skip(k))
        =~= c.out.take(at + 1) + trim_end(tail.take(k)) + seq!['\n'] + indent + tail.skip(k));
}

/// No line of its own for what stands in brackets without a delimiter. A
/// node in round, square or angle brackets or in the bars of a lambda whose
/// children hold neither `,` nor `;` is never laid out in lines, however
/// long it is. Where no comment is left and the bracket stands on the
/// source line of what was written last or on the next, the opening bracket
/// is written with nothing before and nothing after it, and before the
/// closing bracket the whitespace at the end of the output is closed up, so
/// that no line feed stands between the last child and the bracket.
pub proof fn lemma_bare_brackets_stay_on_the_line(
    env: Env,
    c: Cursor,
    inner: Cursor,
    t: TokenTree,
    next: Option<TokenTree>,
)
    requires
        t matches TokenTree::Nested { elements, kind, note } && kind.kind != NestKind_::Brace
            && delimiter_of(elements@) is None && note != Some(Note::FunBody),
        c.next_comment >= env.comments.len(),
        inner.next_comment >= env.comments.len(),
        env.line_at(t->kind.start_pos) <= c.cur_line + 1,
        env.line_at(t->kind.end_pos) <= inner.cur_line + 1,
    ensures
        !env.lays_out_in_lines(c, t->elements@, t->kind.kind, t.note_of()),
        env.open_node(c, t->elements@, t->kind, t.note_of()).out == c.out
            + t->kind.kind.start_text(),
        env.close_node(inner, t, next, false).out == inner.closed_up().out
            + t->kind.kind.end_text() + if space_needed(t, next) {
            seq![' ']
        } else {
            Seq::empty()
        },
        inner.closed_up().out == trim_end(inner.out) + if inner.out.len() > 0 && inner.out.last()
            == ' ' {
            seq![' ']
        } else {
            Seq::empty()
        },
        trim_end(inner.out).len() > 0 ==> !is_whitespace(trim_end(inner.out).last()),
{
    let kind = t->kind;
    assert(env.close_node(inner, t, next, false).out =~= inner.closed_up().out
        + kind.kind.end_text() + if space_needed(t, next) {
        seq![' ']
    } else {
        Seq::empty()
    });
    lemma_trim_end_ends_in_ink(inner.out);
    assert(inner.closed_up().out =~= trim_end(inner.out) + if inner.out.len() > 0
        && inner.out.last() == ' ' {
        seq![' ']
    } else {
        Seq::empty()
    });
}

/// Whether no line of `text` ends in a space: a space is followed by
/// something other than a line feed.
pub open spec fn no_space_at_a_line_end(text: Seq<char>) -> bool {
    forall|i: int|
        0 <= i < text.len() && #[trigger] text[i] == ' ' ==> i + 1 < text.len() && text[i + 1]
            != '\n'
}

/// A text without the spaces at its end is the beginning of the text, and
/// does not end in a space.
pub proof fn lemma_trim_spaces_end(s: Seq<char>)
    ensures
        trim_spaces_end(s).len() <= s.len(),
        trim_spaces_end(s) == s.take(trim_spaces_end(s).len() as int),
        trim_spaces_end(s).len() > 0 ==> trim_spaces_end(s).last() != ' ',
    decreases s.len(),
{
    if s.len() > 0 && s.last() == ' ' {
        lemma_trim_spaces_end(s.drop_last());
        let r = trim_spaces_end(s);
        assert(r =~= s.take(r.len() as int));
    } else {
        assert(s =~= s.take(s.len() as int));
    }
}

/// After the spaces at the end of each line are taken away, no line ends in
/// a space.
pub proof fn lemma_strip_lines_leaves_no_space_at_a_line_end(s: Seq<char>)
    ensures
        no_space_at_a_line_end(strip_lines(s)),
    decreases s.len(),
{
    if s.len() > 0 {
        let k = first_newline(s) as int;
        lemma_first_newline(s);
        if k >= s.len() {
            lemma_trim_spaces_end(s);
            let r = trim_spaces_end(s);
            assert forall|i: int| 0 <= i < r.len() && #[trigger] r[i] == ' ' implies i + 1
                < r.len() && r[i + 1] != '\n' by {
                assert(r[i + 1] == s[i + 1]);
            }
        } else {
            let line = strip_cr(s.subrange(0, k));
            let head = trim_spaces_end(line);
            let rest = s.subrange(k + 1, s.len() as int);
            lemma_trim_spaces_end(line);
            assert forall|i: int| 0 <= i < head.len() implies head[i] == s[i] by {
                assert(head[i] == line[i]);
            }
            if rest.len() == 0 {
                assert forall|i: int| 0 <= i < head.len() && #[trigger] head[i] == ' ' implies i
                    + 1 < head.len() && head[i + 1] != '\n' by {
                    assert(head[i + 1] == s[i + 1]);
                }
            } else {
                lemma_strip_lines_leaves_no_space_at_a_line_end(rest);
                let tail = strip_lines(rest);
                let r = head + seq!['\n'] + tail;
                assert forall|i: int| 0 <= i < r.len() && #[trigger] r[i] == ' ' implies i + 1
                    < r.len() && r[i + 1] != '\n' by {
                    if i < head.len() {
                        assert(r[i] == head[i]);
                        assert(i + 1 < head.len());
                        assert(r[i + 1] == head[i + 1]);
                        assert(head[i + 1] == s[i + 1]);
                    } else {
                        let j = i - head.len() - 1;
                        assert(r[i] == tail[j]);
                        assert(tail[j] == ' ');
                        assert(r[i + 1] == tail[j + 1]);
                    }
                }
            }
        }
    }
}

/// Whether `c` is written as it stands when it ends a line: it is no
/// space, no carriage return and no line feed.
pub open spec fn stays_at_a_line_end(c: char) -> bool {
    c != ' ' && c != '\r' && c != '\n'
}

/// No line feed at the end. Where the last line of a text ends in a
/// character that stays, and in one line feed behind it or in none, the
/// text without the spaces at the end of its lines ends in that character.
pub proof fn lemma_strip_lines_ends_in_the_last_line(s: Seq<char>)
    requires
        s.len() > 0,
        if s.last() == '\n' {
            s.len() > 1 && stays_at_a_line_end(s[s.len() - 2])
        } else {
            stays_at_a_line_end(s.last())
        },
    ensures
        strip_lines(s).len() > 0,
        strip_lines(s).last() == if s.last() == '\n' {
            s[s.len() - 2]
        } else {
            s.last()
        },
    decreases s.len(),
{
    let k = first_newline(s) as int;
    lemma_first_newline(s);
    if k >= s.len() {
        assert(trim_spaces_end(s) == s);
    } else {
        let line = s.subrange(0, k);
        let rest = s.subrange(k + 1, s.len() as int);
        if rest.len() == 0 {
            assert(line.last() == s[s.len() - 2]);
            assert(strip_cr(line) == line);
            assert(trim_spaces_end(line) == line);
        } else {
            assert(rest.last() == s.last());
            if s.last() == '\n' {
                assert(rest.len() > 1) by {
                    if rest.len() == 1 {
                        assert(s[s.len() - 2] == s[k]);
                    }
                }
                assert(rest[rest.len() - 2] == s[s.len() - 2]);
            }
            lemma_strip_lines_ends_in_the_last_line(rest);
        }
    }
}

} // verus!
