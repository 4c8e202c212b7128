use blog_markup::{parse_equation, splice_equations, MarkupError};

fn katex_inline(expr: &str) -> String {
    let mut opts = katex::Opts::default();
    opts.set_display_mode(false);
    katex::render_with_opts(expr, opts).unwrap()
}

fn katex_display(expr: &str) -> String {
    let mut opts = katex::Opts::default();
    opts.set_display_mode(true);
    katex::render_with_opts(expr, opts).unwrap()
}

#[test]
fn two_inline_equations_keep_surrounding_text() {
    let (out, used) = parse_equation("cost is $x+y$ and $z$").unwrap();
    let expected = format!("cost is {} and {}", katex_inline("x+y"), katex_inline("z"));
    assert_eq!(out, expected);
    assert!(used);
}

#[test]
fn text_after_last_pair_is_kept() {
    let (out, used) = parse_equation("$a$ then more").unwrap();
    assert_eq!(out, format!("{} then more", katex_inline("a")));
    assert!(used);
}

#[test]
fn single_dollar_is_unbalanced() {
    assert_eq!(parse_equation("price $5 not closed"), Err(MarkupError::UnbalancedDelimiters));
}

#[test]
fn escaped_and_lone_dollar_is_unbalanced() {
    assert_eq!(parse_equation(r"\$5 and $x"), Err(MarkupError::UnbalancedDelimiters));
}

#[test]
fn odd_dollar_count_is_structural_error() {
    let r = parse_equation("a $b$ and $c");
    assert_eq!(r, Err(MarkupError::UnbalancedDelimiters));
    assert!(MarkupError::UnbalancedDelimiters.is_structural());
}

#[test]
fn escaped_dollars_do_not_delimit() {
    let (out, used) = parse_equation(r"costs \$5 or $x$").unwrap();
    assert_eq!(out, format!(r"costs \$5 or {}", katex_inline("x")));
    assert!(used);
}

#[test]
fn only_escaped_dollars_leave_text_unchanged() {
    let (out, used) = parse_equation(r"from \$3 to \$4").unwrap();
    assert_eq!(out, r"from \$3 to \$4");
    assert!(!used);
}

#[test]
fn short_text_is_unchanged() {
    assert_eq!(parse_equation("$$").unwrap(), ("$$".to_string(), false));
    assert_eq!(parse_equation("").unwrap(), ("".to_string(), false));
}

#[test]
fn text_without_math_is_unchanged() {
    assert_eq!(parse_equation("plain words").unwrap(), ("plain words".to_string(), false));
}

#[test]
fn display_equation_renders_body() {
    let (out, used) = parse_equation("$$x^2$$").unwrap();
    assert_eq!(out, katex_display("x^2"));
    assert!(used);
}

#[test]
fn display_equation_is_trimmed_first() {
    let (out, used) = parse_equation("  $$x^2$$\n").unwrap();
    assert_eq!(out, katex_display("x^2"));
    assert!(used);
}

#[test]
fn nested_dollar_in_display_fails() {
    assert_eq!(parse_equation("$$a$b$$"), Err(MarkupError::NestedDelimiter));
}

#[test]
fn invalid_expression_is_render_error() {
    let r = parse_equation(r"$\frac{$");
    assert_eq!(r, Err(MarkupError::MathRender));
    assert!(!MarkupError::MathRender.is_structural());
}

#[test]
fn splice_replaces_pairs_in_order() {
    let text = "a $1$ b $2$ c";
    let out = splice_equations(text, &vec![2, 4, 8, 10], &vec!["X".to_string(), "Y".to_string()]);
    assert_eq!(out, "a X b Y c");
}

#[test]
fn splice_with_no_pairs_copies_text() {
    let out = splice_equations("abc", &vec![], &vec![]);
    assert_eq!(out, "abc");
}

#[test]
fn padded_four_dollars_is_empty_display_equation() {
    let (out, used) = parse_equation(" $$$$").unwrap();
    assert_eq!(out, katex_display(""));
    assert!(used);
}

#[test]
fn invalid_display_expression_is_render_error() {
    assert_eq!(parse_equation(r"$$\frac{$$"), Err(MarkupError::MathRender));
}
