use blog_core::config::Config;
use blog_core::config::Webmaster;
use blog_core::events::MarkupEvent;
use blog_core::render::render_full;
use blog_core::render::render_full_events;
use blog_core::render::render_preview;
use blog_core::text::TextSpan;

fn span(text: &str) -> TextSpan {
    TextSpan { owned: false, text: String::from(text) }
}

#[test]
fn render_full_renders_markdown() {
    let html = render_full("# Hello");
    assert!(html.contains("<h1>Hello</h1>"));
}

#[test]
fn render_full_keeps_link_destinations() {
    let html = render_full("[read](https://example.net/a)");
    assert!(html.contains("href=\"https://example.net/a\""));
    assert!(html.contains(">read</a>"));
}

#[test]
fn render_full_supports_strikethrough() {
    let html = render_full("~~gone~~");
    assert!(html.contains("<del>gone</del>"));
}

#[test]
fn render_full_escapes_raw_html() {
    let html = render_full("hi <script>alert(1)</script> there");
    assert!(!html.contains("<script>"));
    assert!(html.contains("&lt;script&gt;"));
}

#[test]
fn render_full_events_retags_html_only() {
    let events: Vec<MarkupEvent<i32>> = vec![
        MarkupEvent::StartTag(0, 1),
        MarkupEvent::Html(span("<i>x</i>")),
        MarkupEvent::Text(span("plain")),
        MarkupEvent::EndTag(0, 1),
    ];
    let out = render_full_events(events);
    assert!(matches!(out[0], MarkupEvent::StartTag(0, 1)));
    assert!(matches!(&out[1], MarkupEvent::Text(sp) if sp.text == "<i>x</i>"));
    assert!(matches!(&out[2], MarkupEvent::Text(sp) if sp.text == "plain"));
    assert!(matches!(out[3], MarkupEvent::EndTag(0, 1)));
}

#[test]
fn render_full_events_twice_is_once() {
    let events: Vec<MarkupEvent<i32>> = vec![
        MarkupEvent::Html(span("<i>x</i>")),
        MarkupEvent::Text(span("t")),
        MarkupEvent::Rule,
    ];
    let once = render_full_events(events);
    let expect: Vec<MarkupEvent<i32>> = vec![
        MarkupEvent::Text(span("<i>x</i>")),
        MarkupEvent::Text(span("t")),
        MarkupEvent::Rule,
    ];
    assert_eq!(once, expect);
    let twice = render_full_events(once);
    assert_eq!(twice, expect);
}

#[test]
fn render_full_is_deterministic() {
    let body = "# t\n\n[a](https://example.net/x) *em* ~~s~~\n\n- one\n- two";
    assert_eq!(render_full(body), render_full(body));
}

#[test]
fn render_preview_keeps_short_posts_whole() {
    let mut buffer = String::new();
    let shortened = render_preview("just a few words", &mut buffer);
    assert!(!shortened);
    assert!(buffer.contains("just a few words"));
    assert!(!buffer.contains("..."));
}

#[test]
fn render_preview_shortens_long_posts() {
    let mut body = String::new();
    for i in 0..500 {
        body.push_str(&format!("word{} ", i));
    }
    body.push_str("\n\nanother paragraph");
    let mut buffer = String::new();
    let shortened = render_preview(&body, &mut buffer);
    assert!(shortened);
    assert!(buffer.contains("..."));
    assert!(!buffer.contains("another paragraph"));
}

#[test]
fn render_preview_appends_to_buffer() {
    let mut buffer = String::from("<header>");
    render_preview("tail", &mut buffer);
    assert!(buffer.starts_with("<header>"));
    assert!(buffer.contains("tail"));
}

#[test]
fn render_preview_never_crosses_a_rule() {
    let mut buffer = String::new();
    let shortened = render_preview("above\n\n---\n\nbelow", &mut buffer);
    assert!(shortened);
    assert!(buffer.contains("above"));
    assert!(!buffer.contains("below"));
}

fn config_with_taglines(taglines: Vec<String>) -> Config {
    Config {
        title: String::from("blog"),
        url: String::from("https://blog.example"),
        description: String::from("a blog"),
        webmaster: Webmaster { email: String::from("w@example.net"), name: String::from("w") },
        taglines,
        preview_size: 400,
        page_size: 5,
        rss_size: 25,
    }
}

#[test]
fn tagline_picks_a_configured_line() {
    let cfg = config_with_taglines(vec![String::from("one"), String::from("two")]);
    let t = cfg.tagline().expect("taglines are configured");
    assert!(t == "one" || t == "two");
}

#[test]
fn tagline_is_none_without_taglines() {
    let cfg = config_with_taglines(Vec::new());
    assert!(cfg.tagline().is_none());
}
