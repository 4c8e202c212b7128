use blog_markup::{
    create_figure, highlight_code, parse_equation, transform, EventIterator, Highlighter,
    MarkupError, Rendered, Token,
};

fn text(s: &str) -> Token<u32> {
    Token::Text(s.to_string())
}

fn run(tokens: Vec<Token<u32>>) -> Result<Rendered<u32>, MarkupError> {
    let hl = Highlighter::new();
    transform(tokens, &hl)
}

fn ok(r: Result<Rendered<u32>, MarkupError>) -> Rendered<u32> {
    match r {
        Ok(done) => done,
        Err(e) => panic!("transform failed: {:?}", e),
    }
}

fn err(r: Result<Rendered<u32>, MarkupError>) -> MarkupError {
    match r {
        Ok(_) => panic!("transform succeeded"),
        Err(e) => e,
    }
}

#[test]
fn inline_text_becomes_markup() {
    let done = ok(run(vec![text("  cost is $x+y$ and $z$ ")]));
    let (expected, _) = parse_equation("cost is $x+y$ and $z$").unwrap();
    assert_eq!(done.tokens, vec![Token::Markup(expected)]);
    assert!(done.has_katex);
}

#[test]
fn display_block_over_three_tokens() {
    let done = ok(run(vec![text("$$"), text("x^2"), text("$$")]));
    let (expected, used) = parse_equation("$$x^2$$").unwrap();
    assert!(used);
    assert_eq!(done.tokens, vec![Token::Markup(expected)]);
    assert!(done.has_katex);
}

#[test]
fn display_block_skips_other_tokens() {
    let done = ok(run(vec![text("$$"), Token::Other(1), text("x^2"), text("$$"), Token::Other(2)]));
    let (expected, _) = parse_equation("$$x^2$$").unwrap();
    assert_eq!(done.tokens, vec![Token::Markup(expected), Token::Other(2)]);
}

#[test]
fn display_in_one_token_is_not_buffered() {
    let done = ok(run(vec![text("$$x^2$$"), Token::Other(7)]));
    let (expected, _) = parse_equation("$$x^2$$").unwrap();
    assert_eq!(done.tokens, vec![Token::Markup(expected), Token::Other(7)]);
}

#[test]
fn text_without_dollar_passes() {
    let done = ok(run(vec![text("just words")]));
    assert_eq!(done.tokens, vec![text("just words")]);
    assert!(!done.has_katex);
}

#[test]
fn lone_dollar_text_fails_document() {
    assert_eq!(err(run(vec![text("price $5 not closed")])), MarkupError::UnbalancedDelimiters);
}

#[test]
fn odd_dollars_fail_whole_document() {
    assert_eq!(err(run(vec![text("ok"), text("a $b$ and $c")])), MarkupError::UnbalancedDelimiters);
}

#[test]
fn image_with_caption_and_scale() {
    let done = ok(run(vec![
        Token::ImageStart { url: "posts/images/photo.jpg".to_string(), title: String::new() },
        text("Fig 1"),
        text("{width=50%}"),
    ]));
    assert_eq!(
        done.tokens,
        vec![Token::Figure {
            url: "posts/images/photo.jpg".to_string(),
            caption: Some("Fig 1".to_string()),
            scale: Some(50),
        }]
    );
    assert_eq!(done.image_scale.get(&"photo.jpg".to_string()), Some(50));
    assert_eq!(done.image_scale.to_vec().len(), 1);
    let html = create_figure("posts/images/photo.jpg", Some("Fig 1".to_string()), Some(50), 800, 600);
    assert!(html.contains("<figcaption>Fig 1</figcaption>"));
    assert!(html.contains("alt=\"Fig 1\""));
    assert!(html.contains("width=\"400\" heigth=\"300\""));
}

#[test]
fn image_without_caption_or_scale() {
    let done = ok(run(vec![
        Token::ImageStart { url: "images/a.png".to_string(), title: String::new() },
        Token::Other(3),
    ]));
    assert_eq!(
        done.tokens,
        vec![
            Token::Figure { url: "images/a.png".to_string(), caption: None, scale: None },
            Token::Other(3)
        ]
    );
    assert_eq!(done.image_scale.to_vec().len(), 0);
    let html = create_figure("images/a.png", None, None, 10, 20);
    assert!(html.contains("alt=\"No description\""));
    assert!(!html.contains("figcaption"));
}

#[test]
fn text_after_caption_that_is_no_annotation_stays() {
    let done = ok(run(vec![
        Token::ImageStart { url: "x/y.jpg".to_string(), title: String::new() },
        text("cap"),
        text("next paragraph"),
    ]));
    assert_eq!(
        done.tokens,
        vec![
            Token::Figure { url: "x/y.jpg".to_string(), caption: Some("cap".to_string()), scale: None },
            text("next paragraph")
        ]
    );
    assert_eq!(done.image_scale.to_vec().len(), 0);
}

#[test]
fn later_scale_for_same_name_wins() {
    let done = ok(run(vec![
        Token::ImageStart { url: "a/p.jpg".to_string(), title: String::new() },
        text("one"),
        text("{ width = 30 % }"),
        Token::ImageStart { url: "b/p.jpg".to_string(), title: String::new() },
        text("two"),
        text("{width=70%}"),
    ]));
    assert_eq!(done.image_scale.get(&"p.jpg".to_string()), Some(70));
    assert_eq!(done.image_scale.to_vec(), vec![("p.jpg".to_string(), 70)]);
}

#[test]
fn code_block_texts_joined_in_order() {
    let hl = Highlighter::new();
    let r = transform(
        vec![
            Token::CodeBlockStart { fence_info: Some("rust".to_string()) },
            text("fn main() {\n"),
            text("    let x = 1;\n"),
            text("}\n"),
            Token::CodeBlockEnd,
        ],
        &hl,
    );
    let done = ok(r);
    let expected =
        highlight_code(&hl, "fn main() {\n    let x = 1;\n}\n", Some("rust".to_string())).unwrap();
    let reordered =
        highlight_code(&hl, "}\n    let x = 1;\nfn main() {\n", Some("rust".to_string())).unwrap();
    assert_eq!(done.tokens, vec![Token::Markup(expected)]);
    assert_ne!(done.tokens, vec![Token::Markup(reordered)]);
}

#[test]
fn unterminated_code_block_fails() {
    let r = run(vec![Token::CodeBlockStart { fence_info: None }, text("let x = 1;")]);
    assert_eq!(err(r), MarkupError::UnterminatedCodeBlock);
}

#[test]
fn stray_token_in_code_block_fails() {
    let r = run(vec![Token::CodeBlockStart { fence_info: None }, text("a"), Token::Other(1)]);
    assert_eq!(err(r), MarkupError::StrayTokenInCodeBlock);
}

#[test]
fn unterminated_display_equation_fails() {
    let r = run(vec![text("$$"), text("x^2"), Token::Other(4)]);
    assert_eq!(err(r), MarkupError::UnterminatedDisplayEquation);
}

#[test]
fn other_tokens_pass_through_unchanged() {
    let done = ok(run(vec![Token::Other(42), Token::CodeBlockEnd, Token::Markup("<hr>".to_string())]));
    assert_eq!(
        done.tokens,
        vec![Token::Other(42), Token::CodeBlockEnd, Token::Markup("<hr>".to_string())]
    );
    let again = ok(run(done.tokens));
    assert_eq!(
        again.tokens,
        vec![Token::Other(42), Token::CodeBlockEnd, Token::Markup("<hr>".to_string())]
    );
}

#[test]
fn empty_stream_gives_nothing() {
    let done = ok(run(vec![]));
    assert!(done.tokens.is_empty());
    assert!(!done.has_katex);
}

#[test]
fn iterator_stops_after_error() {
    let hl = Highlighter::new();
    let mut it = EventIterator::new(vec![text("a $b$ $c"), Token::Other(1u32)], &hl);
    assert_eq!(it.next(), Some(Err(MarkupError::UnbalancedDelimiters)));
    assert_eq!(it.next(), None);
}

#[test]
fn iterator_records_math_and_images() {
    let hl = Highlighter::new();
    let mut it = EventIterator::new(vec![Token::Other(1u32)], &hl);
    assert!(!it.has_katex());
    it.enable_katex();
    assert!(it.has_katex());
    it.add_image("pic.png".to_string(), 25);
    assert_eq!(it.image_scale().get(&"pic.png".to_string()), Some(25));
    assert_eq!(it.next(), Some(Ok(Token::Other(1))));
    assert_eq!(it.next(), None);
}
