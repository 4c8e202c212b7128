use blog_markup::annotate::{base_name, width_percent};
use blog_markup::figure::decimal_string;
use blog_markup::text::trim;
use blog_markup::{
    code_block_html, create_figure, is_css_minifiable, is_page_css_minifiable, create_index, encoding_for, highlight_code, minify_css,
    minify_html, modify_url, scaled_size, slug_and_url, split_front_matter, Date, Encoding,
    Highlighter, Metadata, Post,
};

#[test]
fn width_annotation_shapes() {
    assert_eq!(width_percent("{width=50%}"), Some(50));
    assert_eq!(width_percent("{ .wide width = 120 % }"), Some(120));
    assert_eq!(width_percent("{width=%}"), None);
    assert_eq!(width_percent("{width=5x%}"), None);
    assert_eq!(width_percent("width=50%"), None);
    assert_eq!(width_percent("{height=50%}"), None);
    assert_eq!(width_percent("{width=99999999999999999999999%}"), None);
}

#[test]
fn base_name_drops_directories() {
    assert_eq!(base_name("posts/images/photo.jpg"), "photo.jpg");
    assert_eq!(base_name("photo.jpg"), "photo.jpg");
}

#[test]
fn trim_drops_unicode_white_space() {
    assert_eq!(trim("\u{a0} a b \n\t"), "a b");
    assert_eq!(trim("   "), "");
}

#[test]
fn decimal_strings() {
    assert_eq!(decimal_string(0), "0");
    assert_eq!(decimal_string(1234567890), "1234567890");
}

#[test]
fn served_urls() {
    assert_eq!(modify_url("images/cat.jpg"), "/images/cat.webp");
    assert_eq!(modify_url("images/cat.jpeg"), "/images/cat.webp");
    assert_eq!(modify_url("images/diagram.png"), "/images/diagram.webp");
    assert_eq!(modify_url("images/anim.gif"), "/images/anim.gif");
    assert_eq!(modify_url("noext"), "noext");
}

#[test]
fn figure_markup_exact() {
    let html = create_figure("images/cat.jpg", Some("A cat".to_string()), None, 640, 480);
    assert_eq!(
        html,
        "<figure>\n    <img src=\"/images/cat.webp\" width=\"640\" heigth=\"480\" alt=\"A cat\">\n    <figcaption>A cat</figcaption>\n    </figure>"
    );
}

#[test]
fn figure_scale_rounds_down() {
    let html = create_figure("images/cat.png", None, Some(33), 100, 10);
    assert_eq!(
        html,
        "<figure>\n    <img src=\"/images/cat.webp\" width=\"33\" heigth=\"3\" alt=\"No description\">\n    \n    </figure>"
    );
}

#[test]
fn encodings_by_extension() {
    assert_eq!(encoding_for("a.png"), Encoding::WebpLossless);
    assert_eq!(encoding_for("a.jpg"), Encoding::WebpLossy);
    assert_eq!(encoding_for("a.jpeg"), Encoding::WebpLossy);
    assert_eq!(encoding_for("a.gif"), Encoding::Copy);
    assert_eq!(encoding_for(".png"), Encoding::Copy);
    assert_eq!(encoding_for("png"), Encoding::Copy);
}

#[test]
fn scaled_sizes() {
    assert_eq!(scaled_size(200, 100, 50), (100, 50));
    assert_eq!(scaled_size(200, 100, 100), (200, 100));
    assert_eq!(scaled_size(u32::MAX, 1, 200), (u32::MAX, 2));
}

#[test]
fn code_block_wrapping() {
    let raw = "<pre style=\"background-color:#2d2d2d;\">\n<span>x</span>\n</pre>\n";
    assert_eq!(
        code_block_html(raw),
        Some("<pre><code class=\"code-block\"><span>x</span></code></pre>".to_string())
    );
    assert_eq!(code_block_html("no markup"), None);
}

#[test]
fn highlighting_wraps_code() {
    let hl = Highlighter::new();
    let html = highlight_code(&hl, "let x = 1;\n", Some("rs".to_string())).unwrap();
    assert!(html.starts_with("<pre><code class=\"code-block\">"));
    assert!(html.ends_with("</code></pre>"));
    assert!(!html.contains("background-color"));
    let plain = highlight_code(&hl, "just text\n", None).unwrap();
    assert!(plain.contains("just text"));
}

#[test]
fn css_double_semicolons_collapse() {
    let a = minify_css(&"a { color: red;; }".to_string()).unwrap();
    let b = minify_css(&"a { color: red; }".to_string()).unwrap();
    assert_eq!(a, b);
    assert!(a.len() < "a { color: red; }".len());
}

#[test]
fn html_is_minified() {
    let page = "<html>\n  <body>\n    <p>  hello  </p>\n  </body>\n</html>\n".to_string();
    let out = minify_html(&page).unwrap();
    assert!(out.len() < page.len());
    assert!(out.contains("hello"));
}

#[test]
fn front_matter_split() {
    let post = "---\ntitle: Hi\n---\nbody\n";
    assert_eq!(
        split_front_matter(post),
        Some(("title: Hi\n".to_string(), "---\nbody\n".to_string()))
    );
    assert_eq!(split_front_matter("no front matter"), None);
    assert_eq!(split_front_matter("---\nunterminated"), None);
}

#[test]
fn slug_and_url_from_title() {
    let (slug, url) = slug_and_url("https://blog.example", "Hello, World!");
    assert_eq!(slug, "hello-world");
    assert_eq!(url, "https://blog.example/posts/hello-world/");
}

fn post(title: &str, slug: &str, year: i32, month: u32, day: u32) -> Post {
    Post {
        metadata: Metadata {
            title: title.to_string(),
            date: Date { year, month, day },
            slug: slug.to_string(),
            tags: vec![],
            url: String::new(),
        },
        contents: String::new(),
    }
}

#[test]
fn index_newest_first_grouped_by_year() {
    let posts = vec![
        post("Old", "old", 2021, 5, 1),
        post("New", "new", 2023, 1, 2),
        post("Mid", "mid", 2023, 1, 1),
        post("Twin", "twin", 2023, 1, 2),
    ];
    assert_eq!(
        create_index(&posts),
        "<dl><dt> 2023 </dt> <dd><a href=\"/posts/twin\">Twin</a></dd><dd><a href=\"/posts/new\">New</a></dd><dd><a href=\"/posts/mid\">Mid</a></dd><dt> 2021 </dt> <dd><a href=\"/posts/old\">Old</a></dd></dl>"
    );
    assert_eq!(create_index(&[]), "<dl></dl>");
}

#[test]
fn unknown_language_hint_is_like_none() {
    let hl = Highlighter::new();
    let code = "#!/bin/bash\necho hi\n";
    assert_eq!(
        highlight_code(&hl, code, Some("nosuchlang".to_string())),
        highlight_code(&hl, code, None)
    );
}

#[test]
fn highlighted_code_keeps_its_text() {
    let hl = Highlighter::new();
    let html = highlight_code(&hl, "alpha beta\n", Some("txt".to_string())).unwrap();
    assert!(html.contains("alpha beta"));
}

#[test]
fn stylesheets_the_minifier_cannot_take() {
    assert!(!is_css_minifiable("a{color:#ab}"));
    assert!(!is_css_minifiable("a{color:rgb(300,0,0)}"));
    assert!(is_css_minifiable("#ad{color:#abc;background:rgba(0,0,0,0.5)}"));
    assert!(is_css_minifiable("a{color:rgb(1,2,3)}"));
    assert_eq!(minify_css(&"a{color:#ab}".to_string()), None);
    assert_eq!(minify_css(&"a{color:rgb(300,0,0)}".to_string()), None);
    assert!(minify_css(&"a{color:rgb(1,2,3)}".to_string()).is_some());
    assert!(minify_css(&"#ad { color: red; }".to_string()).is_some());
}

#[test]
fn page_css_is_minified_where_safe() {
    let page = "<style>\n  p {  color:  #aabbcc;  }\n</style><p>x</p>".to_string();
    assert!(is_page_css_minifiable(&page));
    let out = minify_html(&page).unwrap();
    assert!(!out.contains("  color"));
    assert!(!is_page_css_minifiable("<p style=\"color:#ab\">x</p>"));
    assert!(!is_page_css_minifiable("<p title=\"&#x23;\">x</p>"));
    assert!(is_page_css_minifiable("<p>a &amp; b, issue #12 {</p>"));
}

#[test]
fn page_style_values_are_left_alone() {
    let page = "<p style=\"color:#ab\">  x  </p>".to_string();
    let out = minify_html(&page).unwrap();
    assert!(out.contains("#ab"));
}
