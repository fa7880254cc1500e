use movefmt::expr_fmt::{need_space, need_space_after_token, tok_type_of, token_to_ability, TokType};
use movefmt::fmt::{Format, FormatConfig, FormatContext, FormatEnv};
use movefmt::fun_fmt::{fun_header_specifier_fmt, split_specifiers, word_stands_at};
use movefmt::line_mapping::LineMapping;
use movefmt::text::{
    chars_of, contains_char, is_whitespace_char, last_line_bounds, matches_at, push_chars,
    push_spaces, push_text, same_text, str_fits_within, str_len_within, string_of,
    strip_line_ends, text_rfind, trim_end_in_place, utf8_len_within, utf8_width_of,
};
use movefmt::token_tree::{
    forest_height_within, forest_is_wf, Comment, CommentKind, Delimiter, NestKind, NestKind_, Note,
    Tok, TokenTree,
};

fn token(content: &str, pos: u32, tok: Tok) -> TokenTree {
    TokenTree::SimpleToken { content: content.to_string(), pos, tok, note: None }
}

fn binary(content: &str, pos: u32, tok: Tok) -> TokenTree {
    TokenTree::SimpleToken { content: content.to_string(), pos, tok, note: Some(Note::BinaryOP) }
}

fn nested(kind: NestKind_, start_pos: u32, end_pos: u32, elements: Vec<TokenTree>) -> TokenTree {
    TokenTree::Nested { elements, kind: NestKind { kind, start_pos, end_pos }, note: None }
}

fn doc(start_offset: u32, content: &str) -> Comment {
    Comment { start_offset, content: content.to_string(), reflowed: Vec::new() }
}

fn block(start_offset: u32, content: &str) -> Comment {
    Comment { start_offset, content: content.to_string(), reflowed: vec![None; 4] }
}

fn engine(source: &str, comments: Vec<Comment>) -> Format {
    Format::new(
        FormatConfig { indent_size: 4 },
        comments,
        LineMapping::new(source),
        Vec::new(),
        FormatContext::new(source.to_string(), FormatEnv::FormatDefault),
    )
}

fn out(format: &Format) -> String {
    format.ret.iter().collect()
}

// ---------------------------------------------------------------------------
// text

#[test]
fn string_of_gives_the_characters_in_order() {
    assert_eq!(string_of(&vec!['a', 'é', '\n', 'z']), "aé\nz");
    assert_eq!(string_of(&Vec::new()), "");
    assert_eq!(chars_of("aé\nz"), vec!['a', 'é', '\n', 'z']);
}

#[test]
fn same_text_compares_the_characters() {
    assert!(same_text("entry", "entry"));
    assert!(!same_text("entry", "entr"));
    assert!(!same_text("", ";"));
    assert!(contains_char("a.b", '.'));
    assert!(!contains_char("a,b", '.'));
}

#[test]
fn whitespace_is_the_unicode_property() {
    for c in [' ', '\t', '\n', '\r', '\u{b}', '\u{c}', '\u{85}', '\u{a0}', '\u{1680}', '\u{2003}', '\u{2028}', '\u{2029}', '\u{202f}', '\u{205f}', '\u{3000}'] {
        assert!(is_whitespace_char(c), "{:?}", c);
        assert_eq!(is_whitespace_char(c), c.is_whitespace());
    }
    for c in ['a', '0', '_', '\u{200b}', '\u{feff}', '\u{1c}'] {
        assert!(!is_whitespace_char(c), "{:?}", c);
        assert_eq!(is_whitespace_char(c), c.is_whitespace());
    }
}

#[test]
fn utf8_length_counts_bytes() {
    assert_eq!(utf8_width_of('a'), 1);
    assert_eq!(utf8_width_of('é'), 2);
    assert_eq!(utf8_width_of('示'), 3);
    assert_eq!(utf8_width_of('😀'), 4);
    assert_eq!(str_len_within("a示例b", 100), 8);
    assert_eq!(str_len_within("a示例b", 8), 8);
    assert_eq!(str_len_within("a示例b", 7), 7);
    assert_eq!(str_len_within("a示例b", 0), 0);
    assert_eq!(str_len_within("", 5), 0);
    let v = chars_of("xy示z");
    assert_eq!(utf8_len_within(&v, 1, 4, 100), 5);
    assert_eq!(utf8_len_within(&v, 2, 2, 100), 0);
}

#[test]
fn fitting_within_a_limit() {
    assert!(str_fits_within("a示例b", 8));
    assert!(!str_fits_within("a示例b", 7));
    assert!(str_fits_within("", 0));
    assert!(!str_fits_within("a", 0));
    assert!(str_fits_within("a", usize::MAX));
}

#[test]
fn pushing_appends() {
    let mut v = chars_of("ab");
    push_spaces(&mut v, 3);
    push_text(&mut v, "cd");
    push_chars(&mut v, &vec!['e']);
    push_spaces(&mut v, 0);
    assert_eq!(string_of(&v), "ab   cde");
}

#[test]
fn trim_end_takes_all_whitespace_at_the_end() {
    let mut v = chars_of(" a b \t\n\u{a0} ");
    trim_end_in_place(&mut v);
    assert_eq!(string_of(&v), " a b");
    let mut v = chars_of(" \n ");
    trim_end_in_place(&mut v);
    assert_eq!(string_of(&v), "");
}

#[test]
fn searching_a_text() {
    let hay = chars_of("fun f() { funny } fun");
    let fun = chars_of("fun");
    assert!(matches_at(&hay, 0, &fun));
    assert!(matches_at(&hay, 10, &fun));
    assert!(!matches_at(&hay, 1, &fun));
    assert!(!matches_at(&hay, 19, &fun));
    assert_eq!(text_rfind(&hay, &fun), Some(18));
    assert_eq!(text_rfind(&chars_of("fun f() { funny }"), &fun), Some(10));
    assert_eq!(text_rfind(&chars_of("fu n"), &fun), None);
    assert_eq!(text_rfind(&chars_of("fu"), &fun), None);
}

#[test]
fn last_line_is_what_follows_the_last_line_feed() {
    let bounds = |s: &str| {
        let v = chars_of(s);
        let (a, b) = last_line_bounds(&v);
        string_of(&v[a..b].to_vec())
    };
    assert_eq!(bounds(""), "");
    assert_eq!(bounds("abc"), "abc");
    assert_eq!(bounds("abc\n    de"), "    de");
    assert_eq!(bounds("abc\nde\n"), "de");
    assert_eq!(bounds("abc\nde\r\n"), "de");
    assert_eq!(bounds("abc\nde\r"), "de\r");
    assert_eq!(bounds("abc\n\n"), "");
    assert_eq!(bounds("\n"), "");
}

#[test]
fn stripping_line_ends_takes_the_spaces_away() {
    let strip = |s: &str| string_of(&strip_line_ends(&chars_of(s)));
    assert_eq!(strip("a  \nb \n"), "a\nb");
    assert_eq!(strip("a\n\n"), "a\n");
    assert_eq!(strip("a \r\nb\t \n  c  "), "a\nb\t\n  c");
    assert_eq!(strip(""), "");
    assert_eq!(strip("   "), "");
    assert_eq!(strip("\n"), "");
    assert_eq!(strip("x"), "x");
}

// ---------------------------------------------------------------------------
// line mapping

#[test]
fn line_mapping_counts_the_line_feeds_before_an_offset() {
    let m = LineMapping::new("ab\ncd\n\nef");
    assert_eq!(m.newlines, vec![2, 5, 6]);
    assert_eq!(m.translate_line(0), 0);
    assert_eq!(m.translate_line(2), 0);
    assert_eq!(m.translate_line(3), 1);
    assert_eq!(m.translate_line(5), 1);
    assert_eq!(m.translate_line(6), 2);
    assert_eq!(m.translate_line(7), 3);
    assert_eq!(m.translate_line(u32::MAX), 3);
    let m = LineMapping::new("示\nx");
    assert_eq!(m.newlines, vec![3]);
    assert_eq!(m.translate_line(3), 0);
    assert_eq!(m.translate_line(4), 1);
    assert_eq!(LineMapping::new("").translate_line(9), 0);
    assert!(m.is_wf());
}

// ---------------------------------------------------------------------------
// token trees

#[test]
fn brackets_of_each_kind() {
    let kinds = [
        (NestKind_::ParentTheses, Tok::LParen, Tok::RParen, "(", ")"),
        (NestKind_::Bracket, Tok::LBracket, Tok::RBracket, "[", "]"),
        (NestKind_::Brace, Tok::LBrace, Tok::RBrace, "{", "}"),
        (NestKind_::Type, Tok::Less, Tok::Greater, "<", ">"),
        (NestKind_::Lambda, Tok::Pipe, Tok::Pipe, "|", "|"),
    ];
    for (kind, start, end, open, close) in kinds {
        assert_eq!(kind.start_tok(), start);
        assert_eq!(kind.end_tok(), end);
        assert_eq!(kind.start_str(), open);
        assert_eq!(kind.end_str(), close);
        let nest = NestKind { kind, start_pos: 3, end_pos: 9 };
        assert_eq!(nest.start_token_tree(), token(open, 3, start));
        assert_eq!(nest.end_token_tree(), token(close, 9, end));
    }
}

#[test]
fn positions_of_a_tree() {
    let t = token("示例", 10, Tok::Identifier);
    assert_eq!(t.start_pos(), 10);
    assert_eq!(t.end_pos(), 16);
    assert_eq!(t.simple_str(), Some("示例"));
    assert!(!t.is_pound());
    assert!(token("#", 0, Tok::NumSign).is_pound());
    let n = nested(NestKind_::Brace, 4, 20, vec![token("x", 5, Tok::Identifier)]);
    assert_eq!(n.start_pos(), 4);
    assert_eq!(n.end_pos(), 20);
    assert_eq!(n.simple_str(), None);
    assert!(!n.is_pound());
    assert_eq!(n.start_tok(), Tok::LBrace);
    assert_eq!(n.end_tok(), Tok::RBrace);
    assert_eq!(n.get_note(), None);
    assert_eq!(binary("+", 1, Tok::Plus).get_note(), Some(Note::BinaryOP));
    assert_eq!(Delimiter::Semicolon.to_static_str(), ";");
    assert_eq!(Delimiter::Comma.to_static_str(), ",");
}

#[test]
fn height_and_well_formedness_of_a_tree() {
    let leaf = token("x", 5, Tok::Identifier);
    let one = nested(NestKind_::Brace, 4, 20, vec![token("x", 5, Tok::Identifier)]);
    let three = nested(
        NestKind_::Brace,
        0,
        9,
        vec![
            token("a", 1, Tok::Identifier),
            nested(NestKind_::ParentTheses, 2, 8, vec![nested(NestKind_::Bracket, 3, 4, vec![])]),
            nested(NestKind_::ParentTheses, 5, 6, vec![]),
        ],
    );
    assert_eq!(leaf.height_within(9), 0);
    assert_eq!(one.height_within(9), 1);
    assert_eq!(one.height_within(0), 0);
    assert_eq!(three.height_within(9), 3);
    assert_eq!(three.height_within(3), 3);
    assert_eq!(three.height_within(2), 2);
    assert_eq!(forest_height_within(&vec![], 9), 0);
    let forest = vec![leaf, three, one];
    assert_eq!(forest_height_within(&forest, 9), 3);
    assert_eq!(forest_height_within(&forest, 1), 1);
    assert!(forest_is_wf(&forest));
    assert!(token("ab", u32::MAX - 2, Tok::Identifier).is_wf());
    assert!(!token("ab", u32::MAX - 1, Tok::Identifier).is_wf());
    assert!(!token("示", u32::MAX - 2, Tok::Identifier).is_wf());
    let bad = vec![nested(
        NestKind_::Brace,
        0,
        9,
        vec![nested(NestKind_::Brace, 0, 9, vec![token("ab", u32::MAX, Tok::Identifier)])],
    )];
    assert!(!forest_is_wf(&bad));
    assert!(forest_is_wf(&vec![]));
}

// ---------------------------------------------------------------------------
// comments

#[test]
fn test_cmt_add_space() {
    let examples = vec![
        "//comment_content",
        "///comment_content",
        "//!comment_content",
        "//*comment_content",
        "/*!comment_content*/",
        "/**comment_content*/",
        r#"    
        /*    
        *comment_content1   
        *comment_content2*/    
        "#,
        "/**  \n         * This function returns a tuple containing two boolean values.  \n         */",
    ];
    for (idx, example) in examples.into_iter().enumerate() {
        let comment = Comment {
            start_offset: 0,
            content: example.to_string(),
            reflowed: vec![None],
        };
        let kind = comment.comment_kind();
        assert_eq!(kind == CommentKind::DocComment, idx < 4);
        let output = comment.format_comment(kind, 0);
        println!("示例{}:\n输入:\n{}\n输出:\n{}\n", idx + 1, example, output);
        // a doc comment passes as it is written, and so does a block comment
        // for which the rewrap service gave no answer
        assert_eq!(output, example);
    }
}

#[test]
fn test_rewrite_comment_1() {
    let orig = "\n/**  \n         * This function demonstrates various examples using tuples.  \n         * It includes assignments to tuple variables and reassignments using conditional statements.  \n*/";
    let rewritten = "/**\n     * This function demonstrates various examples using tuples.\n     */";
    let comment = Comment {
        start_offset: 100,
        content: orig.to_string(),
        reflowed: vec![None, Some(rewritten.to_string())],
    };
    assert_eq!(comment.comment_kind(), CommentKind::BlockComment);
    assert_eq!(comment.format_comment(CommentKind::BlockComment, 0), orig);
    assert_eq!(comment.format_comment(CommentKind::BlockComment, 1), rewritten);
    println!("{}", comment.format_comment(CommentKind::BlockComment, 1));
}

#[test]
fn comment_kind_goes_by_the_opening_marker() {
    assert_eq!(doc(0, "// x").comment_kind(), CommentKind::DocComment);
    assert_eq!(doc(0, "//").comment_kind(), CommentKind::DocComment);
    assert_eq!(doc(0, "/// x").comment_kind(), CommentKind::DocComment);
    assert_eq!(doc(0, "/* x */").comment_kind(), CommentKind::BlockComment);
    assert_eq!(doc(0, "/").comment_kind(), CommentKind::BlockComment);
    assert_eq!(doc(0, " // x").comment_kind(), CommentKind::BlockComment);
}

#[test]
fn format_comment_takes_the_answer_of_the_rewrap_service() {
    let comment = Comment {
        start_offset: 7,
        content: "/*  a  */".to_string(),
        reflowed: vec![Some("/* a */".to_string()), None, Some("/* a2 */".to_string())],
    };
    assert_eq!(comment.format_comment(CommentKind::BlockComment, 0), "/* a */");
    assert_eq!(comment.format_comment(CommentKind::BlockComment, 1), "/*  a  */");
    assert_eq!(comment.format_comment(CommentKind::BlockComment, 2), "/* a2 */");
    // taken as a doc comment it passes as written, whatever the depth
    assert_eq!(comment.format_comment(CommentKind::DocComment, 9), "/*  a  */");
    assert_eq!(comment.format_doc_comment_with_multi_star(&None), "/*  a  */");
    assert_eq!(comment.format_doc_comment_with_multi_star(&Some("/**/".to_string())), "/**/");
    assert_eq!(comment.byte_len(), 9);
    assert_eq!(doc(0, "// 示").byte_len(), 6);
    assert!(comment.is_wf());
    assert!(!doc(0, "").is_wf());
    assert!(doc(u32::MAX - 4, "// x").is_wf());
    assert!(!doc(u32::MAX - 3, "// x").is_wf());
    assert!(comment.has_text_for(2));
    assert!(!comment.has_text_for(3));
    assert!(doc(0, "// x").has_text_for(3));
}

// ---------------------------------------------------------------------------
// spaces between tokens

#[test]
fn token_types() {
    assert_eq!(tok_type_of(Tok::Identifier, false), TokType::Alphabet);
    assert_eq!(tok_type_of(Tok::Fun, false), TokType::Alphabet);
    assert_eq!(tok_type_of(Tok::NumValue, false), TokType::Number);
    assert_eq!(tok_type_of(Tok::ByteStringValue, false), TokType::Text);
    assert_eq!(tok_type_of(Tok::Plus, false), TokType::MathSign);
    assert_eq!(tok_type_of(Tok::Star, true), TokType::MathSign);
    assert_eq!(tok_type_of(Tok::Star, false), TokType::Prefix);
    assert_eq!(tok_type_of(Tok::Less, true), TokType::MathSign);
    assert_eq!(tok_type_of(Tok::Less, false), TokType::Open);
    assert_eq!(tok_type_of(Tok::Greater, false), TokType::Close);
    assert_eq!(tok_type_of(Tok::AmpMut, false), TokType::AmpMut);
    assert_eq!(tok_type_of(Tok::ColonColon, false), TokType::NoNeedSpace);
    assert_eq!(tok_type_of(Tok::Colon, false), TokType::Colon);
    assert_eq!(tok_type_of(Tok::Semicolon, false), TokType::Semicolon);
    assert_eq!(tok_type_of(Tok::Comma, false), TokType::Comma);
    assert_eq!(tok_type_of(Tok::LBrace, false), TokType::Open);
    assert_eq!(tok_type_of(Tok::RParen, false), TokType::Close);
}

#[test]
fn spaces_between_neighbours() {
    let x = token("x", 0, Tok::Identifier);
    let y = token("y", 2, Tok::Identifier);
    let fun = token("fun", 0, Tok::Fun);
    let iff = token("if", 0, Tok::If);
    let public = token("public", 0, Tok::Public);
    let one = token("1", 0, Tok::NumValue);
    let plus = token("+", 0, Tok::Plus);
    let star = token("*", 0, Tok::Star);
    let times = binary("*", 0, Tok::Star);
    let colon = token(":", 0, Tok::Colon);
    let comma = token(",", 0, Tok::Comma);
    let semicolon = token(";", 0, Tok::Semicolon);
    let path = token("::", 0, Tok::ColonColon);
    let dot = token(".", 0, Tok::Period);
    let not = token("!", 0, Tok::Exclaim);
    let amp_mut = token("&mut", 0, Tok::AmpMut);
    let paren = nested(NestKind_::ParentTheses, 0, 1, vec![]);
    let brace = nested(NestKind_::Brace, 0, 1, vec![]);
    let types = nested(NestKind_::Type, 0, 1, vec![]);
    let yes = [
        (&x, &y), (&fun, &x), (&x, &one), (&x, &plus), (&plus, &x), (&x, &times), (&times, &x),
        (&colon, &x), (&comma, &x), (&semicolon, &x), (&amp_mut, &x), (&x, &brace),
        (&paren, &brace), (&iff, &paren), (&paren, &x), (&brace, &fun), (&x, &not),
        (&x, &amp_mut), (&comma, &paren), (&plus, &paren), (&types, &x),
    ];
    for (a, b) in yes {
        assert!(need_space(a, Some(b)), "{:?} {:?}", a, b);
    }
    let no = [
        (&x, &comma), (&x, &semicolon), (&x, &colon), (&x, &path), (&path, &x), (&x, &dot),
        (&dot, &x), (&x, &paren), (&x, &types), (&public, &paren), (&paren, &paren),
        (&star, &x), (&not, &x), (&paren, &comma), (&brace, &semicolon), (&types, &paren),
        (&one, &paren),
    ];
    for (a, b) in no {
        assert!(!need_space(a, Some(b)), "{:?} {:?}", a, b);
    }
    assert!(!need_space(&x, None));
    assert!(!need_space(&plus, None));
    assert!(need_space_after_token(Tok::Star, Some(Note::BinaryOP), Some(&x)));
    assert!(!need_space_after_token(Tok::Star, None, Some(&x)));
    assert!(!need_space_after_token(Tok::LBrace, None, Some(&x)));
    assert!(!need_space_after_token(Tok::Identifier, None, None));
}

#[test]
fn abilities() {
    assert!(token_to_ability(Tok::Copy, "copy"));
    assert!(token_to_ability(Tok::Copy, "anything"));
    assert!(token_to_ability(Tok::Identifier, "drop"));
    assert!(token_to_ability(Tok::Identifier, "store"));
    assert!(token_to_ability(Tok::Identifier, "key"));
    assert!(!token_to_ability(Tok::Identifier, "keys"));
    assert!(!token_to_ability(Tok::Identifier, "copy"));
    assert!(!token_to_ability(Tok::Move, "drop"));
}

// ---------------------------------------------------------------------------
// function headers

#[test]
fn specifier_clauses_go_to_continuation_lines() {
    assert_eq!(
        fun_header_specifier_fmt("un f(a: u64): u64 acquires R1, R2 ", "        "),
        "un f(a: u64): u64\n        acquires R1, R2 "
    );
    assert_eq!(
        fun_header_specifier_fmt("un f() reads R writes T, S !reads G pure ", "  "),
        "un f()\n  reads R\n  writes T, S\n  !reads G\n  pure "
    );
    // without a clause the header stays as it is
    assert_eq!(fun_header_specifier_fmt("un f(a: u64): u64 ", "    "), "un f(a: u64): u64 ");
    // a specifier word inside a name is no clause
    assert_eq!(
        fun_header_specifier_fmt("un pure_reads(writes_x: u64, acquires2: u8) ", "    "),
        "un pure_reads(writes_x: u64, acquires2: u8) "
    );
    // a clause at the very beginning, and a `!` that negates nothing
    assert_eq!(fun_header_specifier_fmt("pure", "  "), "\n  pure");
    assert_eq!(fun_header_specifier_fmt("a ! b", "  "), "a ! b");
    assert_eq!(fun_header_specifier_fmt("", "  "), "");
    assert_eq!(
        string_of(&split_specifiers(&chars_of("f()   \t acquires R"), &chars_of("\t"))),
        "f()\n\tacquires R"
    );
}

#[test]
fn word_of_its_own() {
    let line = chars_of("module modules a_module module");
    let word = chars_of("module");
    assert!(word_stands_at(&line, &word, 0));
    assert!(!word_stands_at(&line, &word, 7));
    assert!(!word_stands_at(&line, &word, 17));
    assert!(word_stands_at(&line, &word, 24));
    assert!(!word_stands_at(&line, &word, 25));
    assert!(!word_stands_at(&line, &word, 30));
}

// ---------------------------------------------------------------------------
// what the engine learns of a node

fn fields() -> Vec<TokenTree> {
    vec![
        token("a", 10, Tok::Identifier),
        token(":", 11, Tok::Colon),
        token("u64", 13, Tok::Identifier),
        token(",", 16, Tok::Comma),
        token("b", 18, Tok::Identifier),
        token(":", 19, Tok::Colon),
        nested(NestKind_::ParentTheses, 21, 30, vec![token(";", 22, Tok::Semicolon)]),
    ]
}

#[test]
fn delimiter_of_a_node() {
    assert_eq!(Format::analyze_token_tree_delimiter(&fields()), (Some(Delimiter::Comma), true));
    let mut with_semicolon = fields();
    with_semicolon.push(token(";", 31, Tok::Semicolon));
    assert_eq!(
        Format::analyze_token_tree_delimiter(&with_semicolon),
        (Some(Delimiter::Semicolon), true)
    );
    with_semicolon.insert(0, token(";", 9, Tok::Semicolon));
    assert_eq!(
        Format::analyze_token_tree_delimiter(&with_semicolon),
        (Some(Delimiter::Semicolon), true)
    );
    assert_eq!(Format::analyze_token_tree_delimiter(&Vec::new()), (None, false));
    assert_eq!(
        Format::analyze_token_tree_delimiter(&vec![token("x", 0, Tok::Identifier)]),
        (None, false)
    );
    // what stands inside a nested child does not count
    assert_eq!(
        Format::analyze_token_tree_delimiter(&vec![nested(
            NestKind_::Brace,
            0,
            9,
            vec![token(",", 1, Tok::Comma), token(":", 2, Tok::Colon)]
        )]),
        (None, false)
    );
}

#[test]
fn start_of_a_tree() {
    let mut pos = 0;
    Format::analyzer_token_tree_start_pos_(&mut pos, &token("x", 42, Tok::Identifier));
    assert_eq!(pos, 42);
    Format::analyzer_token_tree_start_pos_(&mut pos, &nested(NestKind_::Brace, 7, 9, vec![]));
    assert_eq!(pos, 7);
}

#[test]
fn length_of_a_node_is_cut_off_above_the_limit() {
    // a : u64 , b : ( ; ) = 1 + 1 + 3 + 1 + 1 + 1 + (1 + 2) = 11
    assert_eq!(Format::analyze_token_tree_length(&fields(), 35), 11);
    assert_eq!(Format::analyze_token_tree_length(&fields(), 11), 11);
    assert_eq!(Format::analyze_token_tree_length(&fields(), 10), 11);
    assert_eq!(Format::analyze_token_tree_length(&fields(), 5), 6);
    assert_eq!(Format::analyze_token_tree_length(&fields(), 0), 1);
    assert_eq!(Format::analyze_token_tree_length(&Vec::new(), 35), 0);
    let long = vec![token("abcdefghijklmnopqrstuvwxyzabcdefghi", 0, Tok::Identifier)];
    assert_eq!(Format::analyze_token_tree_length(&long, 35), 35);
    let longer = vec![token("abcdefghijklmnopqrstuvwxyzabcdefghij", 0, Tok::Identifier)];
    assert_eq!(Format::analyze_token_tree_length(&longer, 35), 36);
    let mut ret = 30;
    Format::analyzer_token_tree_length_(&mut ret, &nested(NestKind_::Brace, 0, 9, fields()), 35);
    assert_eq!(ret, 36);
    let mut ret = 3;
    Format::analyzer_token_tree_length_(&mut ret, &nested(NestKind_::Brace, 0, 9, fields()), 35);
    assert_eq!(ret, 16);
    let mut ret = 34;
    Format::analyzer_token_tree_length_(&mut ret, &nested(NestKind_::Brace, 0, 9, vec![]), 35);
    assert_eq!(ret, 36);
    let mut ret = 33;
    Format::analyzer_token_tree_length_(&mut ret, &nested(NestKind_::Brace, 0, 9, vec![]), 35);
    assert_eq!(ret, 35);
    // a sum above the limit stays as it is
    let mut ret = 40;
    Format::analyzer_token_tree_length_(&mut ret, &nested(NestKind_::Brace, 0, 9, fields()), 35);
    assert_eq!(ret, 40);
    // with the greatest limit nothing is cut off but what no `usize` holds
    assert_eq!(Format::analyze_token_tree_length(&fields(), usize::MAX), 11);
    let mut ret = usize::MAX - 5;
    Format::analyzer_token_tree_length_(&mut ret, &nested(NestKind_::Brace, 0, 9, fields()), usize::MAX);
    assert_eq!(ret, usize::MAX);
    let mut ret = usize::MAX - 1;
    Format::analyzer_token_tree_length_(&mut ret, &token("ab", 0, Tok::Identifier), usize::MAX - 1);
    assert_eq!(ret, usize::MAX);
}

#[test]
fn line_break_between_a_block_and_a_declaration() {
    let body = nested(NestKind_::Brace, 0, 9, vec![]);
    let paren = nested(NestKind_::ParentTheses, 0, 9, vec![]);
    let fun = token("fun", 10, Tok::Fun);
    let entry = token("entry", 10, Tok::Identifier);
    let other = token("other", 10, Tok::Identifier);
    let let_ = token("let", 10, Tok::Let);
    let semicolon = token(";", 10, Tok::Semicolon);
    let brace = NestKind_::Brace;
    assert!(Format::need_new_line(brace, None, false, &body, Some(&fun)));
    assert!(Format::need_new_line(brace, None, false, &body, Some(&entry)));
    assert!(Format::need_new_line(brace, Some(Delimiter::Comma), true, &body, Some(&fun)));
    assert!(Format::need_new_line(brace, Some(Delimiter::Semicolon), false, &body, None));
    for tok in [
        Tok::Struct, Tok::Module, Tok::Use, Tok::Const, Tok::Spec, Tok::Return, Tok::Public,
        Tok::Native, Tok::Friend, Tok::Loop, Tok::While, Tok::If, Tok::Continue, Tok::Break,
        Tok::Abort, Tok::NumSign,
    ] {
        assert!(Format::need_new_line(brace, None, false, &body, Some(&token("w", 10, tok))));
    }
    // no declaration follows
    assert!(!Format::need_new_line(brace, None, false, &body, Some(&other)));
    assert!(!Format::need_new_line(brace, None, false, &body, Some(&let_)));
    // nothing follows, and the node has no delimiter
    assert!(!Format::need_new_line(brace, None, false, &body, None));
    // a nested node follows, and the node has no delimiter
    assert!(!Format::need_new_line(brace, None, false, &body, Some(&paren)));
    // the delimiter follows
    assert!(!Format::need_new_line(brace, Some(Delimiter::Semicolon), false, &body, Some(&semicolon)));
    // the child is no brace block, or the node is none
    assert!(!Format::need_new_line(brace, None, false, &paren, Some(&fun)));
    assert!(!Format::need_new_line(brace, None, false, &other, Some(&fun)));
    assert!(!Format::need_new_line(NestKind_::ParentTheses, None, false, &body, Some(&fun)));
}

#[test]
fn line_break_after_each_child() {
    let kind = NestKind { kind: NestKind_::Brace, start_pos: 0, end_pos: 99 };
    let elements = fields();
    let comma = Some(Delimiter::Comma);
    let breaks = |index: usize, mode: bool| {
        Format::need_new_line_for_each_token_in_nested(&kind, &elements, comma, true, index, mode)
    };
    assert_eq!(
        (0..7).map(|i| breaks(i, true)).collect::<Vec<_>>(),
        vec![false, false, false, true, false, false, false]
    );
    assert_eq!((0..7).map(|i| breaks(i, false)).collect::<Vec<_>>(), vec![false; 7]);

    // a delimiter that is the last child
    let last = vec![token("a", 0, Tok::Identifier), token(",", 1, Tok::Comma)];
    assert!(!Format::need_new_line_for_each_token_in_nested(&kind, &last, comma, false, 1, true));

    // the commas of a specifier list
    let header = vec![
        token("fun", 0, Tok::Fun),
        token("f", 4, Tok::Identifier),
        nested(NestKind_::ParentTheses, 5, 6, vec![]),
        token("acquires", 8, Tok::Acquires),
        token("R1", 17, Tok::Identifier),
        token(",", 19, Tok::Comma),
        token("R2", 21, Tok::Identifier),
        nested(NestKind_::Brace, 24, 25, vec![]),
        token("struct", 30, Tok::Struct),
        token("S", 37, Tok::Identifier),
        token("has", 39, Tok::Identifier),
        token("copy", 43, Tok::Copy),
        token(",", 47, Tok::Comma),
        token("drop", 49, Tok::Identifier),
        token(",", 53, Tok::Comma),
        token("x", 55, Tok::Identifier),
    ];
    let breaks = |index: usize| {
        Format::need_new_line_for_each_token_in_nested(&kind, &header, comma, false, index, true)
    };
    assert!(!breaks(5));
    // the block of `f` before the declaration of `S`
    assert!(breaks(7));
    // a comma before an ability
    assert!(!breaks(12));
    // a comma before something else
    assert!(breaks(14));
}

#[test]
fn splittable_tokens() {
    let x = token("x", 0, Tok::Identifier);
    let types = nested(NestKind_::Type, 0, 1, vec![]);
    let paren = nested(NestKind_::ParentTheses, 0, 1, vec![]);
    for tok in [
        Tok::ExclaimEqual, Tok::Percent, Tok::AmpAmp, Tok::ColonColon, Tok::Plus, Tok::Minus,
        Tok::Period, Tok::PeriodPeriod, Tok::Slash, Tok::LessEqual, Tok::LessLess, Tok::Equal,
        Tok::EqualEqual, Tok::EqualEqualGreater, Tok::LessEqualEqualGreater, Tok::GreaterEqual,
        Tok::GreaterGreater, Tok::NumValue, Tok::PipePipe, Tok::Caret,
    ] {
        assert!(Format::tok_suitable_for_new_line(tok, None, Some(&x)), "{:?}", tok);
        assert!(Format::tok_suitable_for_new_line(tok, Some(Note::BinaryOP), None), "{:?}", tok);
        assert!(Format::tok_suitable_for_new_line(tok, None, None), "{:?}", tok);
        assert!(Format::tok_suitable_for_new_line(tok, None, Some(&paren)), "{:?}", tok);
        assert!(!Format::tok_suitable_for_new_line(tok, None, Some(&types)), "{:?}", tok);
    }
    for tok in [Tok::Less, Tok::Amp, Tok::Star, Tok::Greater, Tok::Pipe] {
        assert!(Format::tok_suitable_for_new_line(tok, Some(Note::BinaryOP), Some(&x)));
        assert!(!Format::tok_suitable_for_new_line(tok, None, Some(&x)));
        assert!(!Format::tok_suitable_for_new_line(tok, Some(Note::FunBody), Some(&x)));
        assert!(!Format::tok_suitable_for_new_line(tok, Some(Note::BinaryOP), Some(&types)));
    }
    for tok in [Tok::Identifier, Tok::Comma, Tok::Semicolon, Tok::Exclaim, Tok::Colon, Tok::Fun] {
        assert!(!Format::tok_suitable_for_new_line(tok, Some(Note::BinaryOP), Some(&x)));
    }
}

// ---------------------------------------------------------------------------
// the engine, step by step

#[test]
fn context_keeps_content_and_env() {
    let mut c = FormatContext::new("module 0x1::M {}".to_string(), FormatEnv::FormatDefault);
    assert_eq!(c.content, "module 0x1::M {}");
    assert_eq!(c.env, FormatEnv::FormatDefault);
    c.set_env(FormatEnv::FormatFun);
    assert_eq!(c.env, FormatEnv::FormatFun);
    assert_eq!(c.content, "module 0x1::M {}");
}

#[test]
fn new_run_has_written_nothing() {
    let f = engine("x", vec![doc(0, "// c")]);
    assert_eq!(f.depth, 0);
    assert_eq!(f.comments_index, 0);
    assert_eq!(f.cur_line, 0);
    assert_eq!(f.next_item, 0);
    assert_eq!(f.pound_sign, None);
    assert_eq!(out(&f), "");
    assert_eq!(f.text(), "");
    assert_eq!(f.config, FormatConfig { indent_size: 4 });
    assert_eq!(f.comments.len(), 1);
}

#[test]
fn depth_and_indentation() {
    let mut f = engine("", vec![]);
    f.indent();
    assert_eq!(out(&f), "");
    f.inc_depth();
    f.inc_depth();
    assert_eq!(f.depth, 2);
    f.push_str("a");
    f.indent();
    assert_eq!(out(&f), "a        ");
    f.dec_depth();
    assert_eq!(f.depth, 1);
    f.new_line(None);
    f.push_str("b");
    assert_eq!(out(&f), "a        \n    b");
    assert_eq!(f.text(), "a        \n    b");
}

#[test]
fn last_line_of_the_output() {
    let mut f = engine("", vec![]);
    assert_eq!(f.last_line(), "");
    assert_eq!(f.last_line_length(), 0);
    f.push_str("module 示\n    fun");
    assert_eq!(f.last_line(), "    fun");
    assert_eq!(f.last_line_length(), 7);
    f.push_str("\n");
    assert_eq!(f.last_line(), "    fun");
    f.push_str("示例");
    assert_eq!(f.last_line_length(), 6);
}

#[test]
fn space_before_a_comment() {
    let mut f = engine("", vec![]);
    assert!(!f.no_space_or_new_line_for_comment());
    f.push_str("x");
    assert!(f.no_space_or_new_line_for_comment());
    f.push_str(" ");
    assert!(!f.no_space_or_new_line_for_comment());
    f.push_str("(");
    assert!(!f.no_space_or_new_line_for_comment());
    f.push_str(")");
    assert!(f.no_space_or_new_line_for_comment());
    f.push_str("\n");
    assert!(!f.no_space_or_new_line_for_comment());
}

#[test]
fn trailing_whitespace_is_removed_from_each_line() {
    let mut f = engine("", vec![]);
    f.push_str("a  \n  b \n\n c\t \n");
    f.remove_trailing_whitespaces();
    assert_eq!(out(&f), "a\n  b\n\n c\t");
}

#[test]
fn translate_line_goes_by_the_mapping() {
    let f = engine("a\nb\n\nc", vec![]);
    assert_eq!(f.translate_line(0), 0);
    assert_eq!(f.translate_line(2), 1);
    assert_eq!(f.translate_line(5), 3);
}

#[test]
fn comments_before_a_token() {
    //            0         1         2          3
    //            0123456789012345678901234567 89012345
    let source = "a\n// one\n/* two */\n\n\n/* th\nree */ b";
    let comments = vec![doc(2, "// one"), block(9, "/* two */"), block(21, "/* th\nree */"), doc(90, "// late")];
    let mut f = engine(source, comments);
    f.push_str("a");
    f.add_comments(33, "b");
    // on the next line: a new line; the doc comment ends its line; the block
    // comment on one line is followed by a space; after blank lines one empty
    // line, and the block comment over two lines ends its line
    assert_eq!(out(&f), "a\n// one\n/* two */\n\n/* th\nree */ \n");
    assert_eq!(f.comments_index, 3);
    assert_eq!(f.cur_line, 6);
    // nothing is left at or before the offset
    f.add_comments(33, "b");
    assert_eq!(f.comments_index, 3);
    assert_eq!(out(&f), "a\n// one\n/* two */\n\n/* th\nree */ \n");
}

#[test]
fn block_comment_clings_to_a_separator() {
    let source = "f(a /* x */, b)";
    for (content, expected) in [(",", "a /* x */"), (")", "a /* x */"), (";", "a /* x */"), ("a.b", "a /* x */"), ("b", "a /* x */ ")] {
        let mut f = engine(source, vec![block(4, "/* x */")]);
        f.push_str("a");
        f.add_comments(11, content);
        assert_eq!(out(&f), expected, "{}", content);
    }
}

#[test]
fn comments_behind_a_token() {
    //            0123456789012345678901 2345678
    let source = "a; /* x */ // y\nb; // z\n";
    let comments = || vec![block(3, "/* x */"), doc(11, "// y"), doc(19, "// z")];
    // with the tail, every comment on the line of the offset is written
    let mut f = engine(source, comments());
    f.push_str("a;");
    f.process_same_line_comment(2, true);
    assert_eq!(out(&f), "a; /* x */ // y\n");
    assert_eq!(f.comments_index, 2);
    // without it, only those that begin at or before the offset
    let mut f = engine(source, comments());
    f.push_str("a;");
    f.process_same_line_comment(2, false);
    assert_eq!(out(&f), "a;\n");
    assert_eq!(f.comments_index, 0);
    let mut f = engine(source, comments());
    f.push_str("a;");
    f.new_line(Some(5));
    assert_eq!(out(&f), "a; /* x */\n");
    assert_eq!(f.comments_index, 1);
    // a comment on another line is not written
    let mut f = engine(source, vec![doc(19, "// z")]);
    f.inc_depth();
    f.push_str("a;");
    f.process_same_line_comment(2, true);
    assert_eq!(out(&f), "a;\n    ");
    assert_eq!(f.comments_index, 0);
}

#[test]
fn simple_token_is_written_with_what_belongs_before_and_after_it() {
    let source = "a\n\n\nb + c";
    let mut f = engine(source, vec![]);
    let plus = binary("+", 6, Tok::Plus);
    let c = token("c", 8, Tok::Identifier);
    f.format_simple_token("a", 0, Tok::Identifier, None, None, false);
    assert_eq!(out(&f), "a");
    // blank lines before `b`: one empty line; a space before the operator
    f.format_simple_token("b", 4, Tok::Identifier, None, Some(&plus), false);
    assert_eq!(out(&f), "a\n\nb ");
    assert_eq!(f.cur_line, 3);
    // the caller ends the line: nothing after the text
    f.format_simple_token("+", 6, Tok::Plus, Some(Note::BinaryOP), Some(&c), true);
    assert_eq!(out(&f), "a\n\nb +");
    f.format_simple_token("c", 8, Tok::Identifier, None, None, false);
    assert_eq!(out(&f), "a\n\nb +c");
}

#[test]
fn one_empty_line_stands_for_any_number_of_blank_lines() {
    // whatever the output ends in, and however far down the token stands
    for (written, pos) in [("(a", 3u32), ("(a", 5), ("(a \n    ", 3), ("(a\n\n\n", 5), ("1 + ", 4)] {
        let mut f = engine("x\n\n\n\n\ny", vec![]);
        f.inc_depth();
        f.push_str(written);
        f.format_simple_token("b", pos, Tok::Identifier, None, None, false);
        let kept = written.trim_end();
        assert_eq!(out(&f), format!("{}\n\n    b", kept), "{:?}", written);
    }
    // on the next source line nothing is written before the token
    let mut f = engine("x\ny", vec![]);
    f.push_str("(a");
    f.format_simple_token("b", 2, Tok::Identifier, None, None, false);
    assert_eq!(out(&f), "(ab");
    // at the very beginning one line feed makes the empty line
    let mut f = engine("\n\n\ny", vec![]);
    f.format_simple_token("y", 3, Tok::Identifier, None, None, false);
    assert_eq!(out(&f), "\ny");
    // before a comment
    let mut f = engine("1 +\n\n\n// c\n2", vec![doc(6, "// c")]);
    f.push_str("1 + ");
    f.add_comments(11, "2");
    assert_eq!(out(&f), "1 +\n\n// c\n");
}

#[test]
fn line_is_broken_behind_a_logical_or() {
    let x = token("x", 0, Tok::Identifier);
    let mut f = engine("", vec![]);
    f.inc_depth();
    f.push_str(&"a".repeat(89));
    f.format_simple_token("||", 0, Tok::PipePipe, Some(Note::BinaryOP), Some(&x), false);
    assert_eq!(out(&f), format!("{}||\n    ", "a".repeat(89)));
    let mut f = engine("", vec![]);
    f.push_str(&"a".repeat(88));
    f.format_simple_token("||", 0, Tok::PipePipe, Some(Note::BinaryOP), Some(&x), false);
    assert_eq!(out(&f), format!("{}|| ", "a".repeat(88)));
}

#[test]
fn line_is_broken_behind_a_splittable_token_above_ninety_bytes() {
    let x = token("x", 0, Tok::Identifier);
    let at = |width: usize, tok: Tok| {
        let mut f = engine("", vec![]);
        f.inc_depth();
        f.push_str(&"a".repeat(width));
        f.format_simple_token("+", 0, tok, None, Some(&x), false);
        out(&f)
    };
    // 89 bytes and the token: 90, not above
    assert_eq!(at(89, Tok::Plus), format!("{}+ ", "a".repeat(89)));
    // 90 bytes and the token: 91
    assert_eq!(at(90, Tok::Plus), format!("{}+\n    ", "a".repeat(90)));
    // a token that is not splittable
    assert_eq!(at(90, Tok::Comma), format!("{}+ ", "a".repeat(90)));
}

#[test]
fn nested_node_is_written_with_its_brackets() {
    let source = "f(a, b)";
    let mut f = engine(source, vec![]);
    let call = nested(
        NestKind_::ParentTheses,
        1,
        6,
        vec![token("a", 2, Tok::Identifier), token(",", 3, Tok::Comma), token("b", 5, Tok::Identifier)],
    );
    let next = token("x", 8, Tok::Identifier);
    f.format_token_trees_(&token("f", 0, Tok::Identifier), Some(&call), false);
    f.format_token_trees_(&call, Some(&next), false);
    assert_eq!(out(&f), "f(a, b) ");
    assert_eq!(f.depth, 0);
}
