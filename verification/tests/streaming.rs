use proc_macro2::Span;
use token_stream2::Token;
use token_stream2::TokenStream;
use token_stream2::TreeNode;

fn sp() -> Span {
    Span::call_site()
}

fn read_bits(s: &str) -> Option<u64> {
    s.parse::<f64>().ok().map(|v| v.to_bits())
}

fn stream_of(source: &str) -> TokenStream {
    let host: proc_macro2::TokenStream = source.parse().expect("source should tokenize");
    let trees: Vec<proc_macro2::TokenTree> = host.into_iter().collect();
    TokenStream::from_host(trees, &read_bits).expect("classification failed")
}

fn kinds(stream: &mut TokenStream) -> Vec<Token> {
    let mut out = Vec::new();
    while let Some(st) = stream.next() {
        out.push(st.token().clone());
    }
    out
}

#[test]
fn advance_over_empty_input_signals_end_immediately() {
    let mut stream = TokenStream::from_trees(&vec![]).unwrap();
    assert!(stream.next().is_none());
    assert!(stream.next().is_none());
}

#[test]
fn peek_one_before_any_advance_is_the_first_token() {
    let trees = vec![
        TreeNode::Ident("a".to_string(), sp()),
        TreeNode::Ident("b".to_string(), sp()),
    ];
    let mut stream = TokenStream::from_trees(&trees).unwrap();
    let peeked = stream.peek(1).unwrap();
    assert_eq!(peeked.token(), &Token::Ident("a".to_string()));
    // peeking never moves the cursor: the same peek and the advance agree
    let again = stream.peek(1).unwrap();
    assert_eq!(again.token(), &Token::Ident("a".to_string()));
    let first = stream.next().unwrap();
    assert_eq!(first.token(), &Token::Ident("a".to_string()));
    let second_peek = stream.peek(1).unwrap();
    assert_eq!(second_peek.token(), &Token::Ident("b".to_string()));
}

#[test]
fn peek_past_the_end_signals_absence() {
    let trees = vec![TreeNode::Ident("a".to_string(), sp())];
    let mut stream = TokenStream::from_trees(&trees).unwrap();
    assert!(stream.peek(2).is_none());
    assert!(stream.peek(1).is_some());
}

#[test]
fn exhausted_stream_keeps_signalling_end() {
    let trees = vec![TreeNode::Ident("a".to_string(), sp())];
    let mut stream = TokenStream::from_trees(&trees).unwrap();
    assert!(stream.next().is_some());
    assert!(stream.next().is_none());
    assert!(stream.next().is_none());
    assert!(stream.peek(1).is_none());
}

#[test]
fn nested_markup_round_trip() {
    let mut stream = stream_of("<h1>{ \"Hello\" }</h1>");
    let toks = kinds(&mut stream);
    assert_eq!(
        toks,
        vec![
            Token::LessThan,
            Token::Ident("h1".to_string()),
            Token::GreaterThan,
            Token::OpenBrace,
            Token::String("Hello".to_string()),
            Token::CloseBrace,
            Token::LessThan,
            Token::Slash,
            Token::Ident("h1".to_string()),
            Token::GreaterThan,
        ]
    );
}

#[test]
fn host_program_classifies_and_peeks() {
    let mut stream = stream_of("fn main() { println!(\"Hello world!\"); }");
    assert_eq!(stream.peek(1).unwrap().token(), &Token::Ident("fn".to_string()));
    assert_eq!(stream.peek(3).unwrap().token(), &Token::OpenParen);
    assert_eq!(stream.peek(4).unwrap().token(), &Token::CloseParen);
    let toks = kinds(&mut stream);
    assert_eq!(
        toks,
        vec![
            Token::Ident("fn".to_string()),
            Token::Ident("main".to_string()),
            Token::OpenParen,
            Token::CloseParen,
            Token::OpenBrace,
            Token::Ident("println".to_string()),
            Token::Bang,
            Token::OpenParen,
            Token::String("Hello world!".to_string()),
            Token::CloseParen,
            Token::Semi,
            Token::CloseBrace,
        ]
    );
}

#[test]
fn host_literals_carry_their_floating_reading() {
    let mut stream = stream_of("1.5");
    let toks = kinds(&mut stream);
    assert_eq!(toks, vec![Token::Float(1.5f64.to_bits())]);
}

#[test]
fn host_decimal_gets_both_readings() {
    let mut stream = stream_of("42");
    let toks = kinds(&mut stream);
    assert_eq!(toks, vec![Token::Integer(42), Token::Float(42f64.to_bits())]);
}

#[test]
fn spans_are_carried_through() {
    let trees = vec![TreeNode::Ident("a".to_string(), sp())];
    let mut stream = TokenStream::from_trees(&trees).unwrap();
    let st = stream.next().unwrap();
    // the span is an opaque handle; it must at least be present and readable
    let _ = st.span();
}
