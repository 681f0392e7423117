use proc_macro2::Span;
use token_stream2::ClassifyError;
use token_stream2::GroupDelimiter;
use token_stream2::LiteralText;
use token_stream2::Token;
use token_stream2::TokenStream;
use token_stream2::TreeNode;

fn sp() -> Span {
    Span::call_site()
}

fn lit(text: &str) -> TreeNode {
    let float_bits = text.parse::<f64>().ok().map(|v| v.to_bits());
    TreeNode::Literal(
        LiteralText {
            text: text.to_string(),
            float_bits,
        },
        sp(),
    )
}

fn tokens_of(trees: Vec<TreeNode>) -> Vec<Token> {
    let mut stream = TokenStream::from_trees(&trees).expect("classification failed");
    let mut out = Vec::new();
    while let Some(st) = stream.next() {
        out.push(st.token().clone());
    }
    out
}

#[test]
fn decimal_literal_yields_integer() {
    let toks = tokens_of(vec![lit("42")]);
    assert_eq!(toks[0], Token::Integer(42));
    // the floating reading also matches the same text and is appended after
    assert_eq!(toks, vec![Token::Integer(42), Token::Float(42f64.to_bits())]);
}

#[test]
fn negative_decimal_literal() {
    let toks = tokens_of(vec![lit("-7")]);
    assert_eq!(toks[0], Token::Integer(-7));
}

#[test]
fn decimal_literal_at_i128_bounds() {
    let toks = tokens_of(vec![lit("170141183460469231731687303715884105727")]);
    assert_eq!(toks[0], Token::Integer(i128::MAX));
    let toks = tokens_of(vec![lit("-170141183460469231731687303715884105728")]);
    assert_eq!(toks[0], Token::Integer(i128::MIN));
}

#[test]
fn decimal_literal_beyond_i128_is_not_an_integer() {
    let toks = tokens_of(vec![lit("170141183460469231731687303715884105728")]);
    assert!(!toks.iter().any(|t| matches!(t, Token::Integer(_))));
    assert!(matches!(toks[0], Token::Float(_)));
}

#[test]
fn float_literal_yields_bits() {
    let toks = tokens_of(vec![lit("4.2")]);
    assert_eq!(toks, vec![Token::Float(4.2f64.to_bits())]);
}

#[test]
fn hex_literal_yields_integer() {
    let toks = tokens_of(vec![lit("0x2A")]);
    assert_eq!(toks, vec![Token::Integer(42)]);
}

#[test]
fn hex_literal_lower_and_upper_digits() {
    assert_eq!(tokens_of(vec![lit("0xff")]), vec![Token::Integer(255)]);
    assert_eq!(tokens_of(vec![lit("0xFF")]), vec![Token::Integer(255)]);
}

#[test]
fn hex_literal_repeated_prefix_is_stripped() {
    // every leading `0x` repetition is removed before the base-16 parse
    assert_eq!(tokens_of(vec![lit("0x0x2A")]), vec![Token::Integer(42)]);
}

#[test]
fn hex_literal_with_sign_after_prefix() {
    assert_eq!(tokens_of(vec![lit("0x-2A")]), vec![Token::Integer(-42)]);
}

#[test]
fn hex_literal_with_bad_digit_misses() {
    assert_eq!(
        tokens_of(vec![lit("0xZZ")]),
        vec![Token::Literal("0xZZ".to_string())]
    );
}

#[test]
fn byte_char_literal() {
    assert_eq!(tokens_of(vec![lit("b'a'")]), vec![Token::ByteChar('a')]);
}

#[test]
fn char_literal() {
    assert_eq!(tokens_of(vec![lit("'a'")]), vec![Token::Char('a')]);
}

#[test]
fn string_literal_strips_quotes_only() {
    let toks = tokens_of(vec![lit("\"hi\"")]);
    assert_eq!(toks, vec![Token::String("hi".to_string())]);
    assert!(!toks
        .iter()
        .any(|t| matches!(t, Token::ByteString(_) | Token::Char(_) | Token::ByteChar(_))));
}

#[test]
fn string_literal_keeps_escapes_verbatim() {
    // no escape decoding: the backslash-n stays two characters
    let toks = tokens_of(vec![lit("\"a\\nb\"")]);
    assert_eq!(toks, vec![Token::String("a\\nb".to_string())]);
}

#[test]
fn byte_string_literal_collapses_to_string() {
    assert_eq!(
        tokens_of(vec![lit("b\"hi\"")]),
        vec![Token::String("hi".to_string())]
    );
}

#[test]
fn unrecognized_literal_is_kept_raw() {
    assert_eq!(
        tokens_of(vec![lit("1_000u32")]),
        vec![Token::Literal("1_000u32".to_string())]
    );
}

#[test]
fn unsupported_punct_aborts() {
    let trees = vec![TreeNode::Punct('`', sp())];
    let r = TokenStream::from_trees(&trees);
    assert!(matches!(r, Err(ClassifyError::UnsupportedPunct)));
}

#[test]
fn group_markers_wrap_inner_sequence() {
    let inner = vec![TreeNode::Ident("x".to_string(), sp())];
    let trees = vec![TreeNode::Group(GroupDelimiter::Parenthesis, sp(), inner)];
    assert_eq!(
        tokens_of(trees),
        vec![
            Token::OpenParen,
            Token::Ident("x".to_string()),
            Token::CloseParen
        ]
    );
}

#[test]
fn delimiterless_group_uses_marker_kind_twice() {
    let trees = vec![TreeNode::Group(GroupDelimiter::NoDelim, sp(), vec![])];
    assert_eq!(tokens_of(trees), vec![Token::NoDelim, Token::NoDelim]);
}

#[test]
fn every_supported_punct_classifies_to_its_kind() {
    let table = vec![
        ('+', Token::Plus),
        ('-', Token::Minus),
        ('/', Token::Slash),
        ('*', Token::Star),
        ('@', Token::At),
        ('&', Token::Ampersand),
        (';', Token::Semi),
        (':', Token::Colon),
        ('>', Token::GreaterThan),
        ('<', Token::LessThan),
        ('{', Token::OpenBrace),
        ('}', Token::CloseBrace),
        ('[', Token::OpenBracket),
        (']', Token::CloseBracket),
        ('(', Token::OpenParen),
        (')', Token::CloseParen),
        (',', Token::Comma),
        ('\'', Token::SingleQuote),
        ('"', Token::DoubleQuote),
        ('!', Token::Bang),
        ('?', Token::Question),
        ('.', Token::Dot),
        ('~', Token::Tilde),
        ('%', Token::Percent),
        ('^', Token::Caret),
        ('|', Token::Pipe),
        ('#', Token::Hash),
        ('$', Token::Dollar),
        ('=', Token::Equal),
    ];
    for (c, expected) in table {
        let toks = tokens_of(vec![TreeNode::Punct(c, sp())]);
        assert_eq!(toks.len(), 1, "punct {:?}", c);
        assert_eq!(toks[0], expected, "punct {:?}", c);
        assert!(!matches!(toks[0], Token::Literal(_)));
    }
}

#[test]
fn char_literal_of_only_whitespace_misses() {
    // the inside is whitespace-trimmed before the character is read, so a
    // quoted space leaves no character and no reading matches
    assert_eq!(
        tokens_of(vec![lit("' '")]),
        vec![Token::Literal("' '".to_string())]
    );
}

#[test]
fn byte_char_literal_of_letter_b() {
    assert_eq!(tokens_of(vec![lit("b'b'")]), vec![Token::ByteChar('b')]);
}

#[test]
fn empty_string_literal() {
    assert_eq!(
        tokens_of(vec![lit("\"\"")]),
        vec![Token::String(String::new())]
    );
}

#[test]
fn nested_groups_flatten_depth_first() {
    let inner = vec![TreeNode::Group(
        GroupDelimiter::Bracket,
        sp(),
        vec![TreeNode::Ident("x".to_string(), sp())],
    )];
    let trees = vec![TreeNode::Group(GroupDelimiter::Brace, sp(), inner)];
    assert_eq!(
        tokens_of(trees),
        vec![
            Token::OpenBrace,
            Token::OpenBracket,
            Token::Ident("x".to_string()),
            Token::CloseBracket,
            Token::CloseBrace
        ]
    );
}
