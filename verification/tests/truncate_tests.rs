use blog_core::events::MarkupEvent;
use blog_core::preview::truncate;
use blog_core::text::is_white_char;
use blog_core::text::take_words;
use blog_core::text::trunc_span;
use blog_core::text::TextSpan;

fn span(text: &str) -> TextSpan {
    TextSpan { owned: false, text: String::from(text) }
}

fn text_of(e: &MarkupEvent<i32>) -> &str {
    match e {
        MarkupEvent::Text(sp) => &sp.text,
        MarkupEvent::Code(sp) => &sp.text,
        MarkupEvent::Html(sp) => &sp.text,
        _ => panic!("not a content span"),
    }
}

#[test]
fn whitespace_classifier_pins_documented_cases() {
    assert!(is_white_char(' '));
    assert!(is_white_char('\t'));
    assert!(is_white_char('\n'));
    assert!(!is_white_char('a'));
    assert!(!is_white_char('7'));
    assert!(!is_white_char('.'));
}

#[test]
fn take_words_cuts_at_exhausting_boundary() {
    let mut left: usize = 3;
    let cut = take_words(&mut left, "alpha beta gamma delta");
    assert_eq!(cut, 16);
    assert_eq!(left, 0);
}

#[test]
fn take_words_counts_trailing_word_at_span_close() {
    let mut left: usize = 2;
    let cut = take_words(&mut left, "one two");
    assert_eq!(cut, 7);
    assert_eq!(left, 0);
}

#[test]
fn take_words_leaves_budget_when_span_fits() {
    let mut left: usize = 5;
    let cut = take_words(&mut left, "a b c");
    assert_eq!(cut, 5);
    assert_eq!(left, 2);
}

#[test]
fn take_words_zero_budget_cuts_to_nothing() {
    let mut left: usize = 0;
    let cut = take_words(&mut left, "anything at all");
    assert_eq!(cut, 0);
    assert_eq!(left, 0);
}

#[test]
fn take_words_runs_of_whitespace_are_one_boundary() {
    let mut left: usize = 2;
    let cut = take_words(&mut left, "a  b  c");
    assert_eq!(cut, 4);
    assert_eq!(left, 0);
}

#[test]
fn take_words_empty_span_consumes_nothing() {
    let mut left: usize = 4;
    let cut = take_words(&mut left, "");
    assert_eq!(cut, 0);
    assert_eq!(left, 4);
}

#[test]
fn trunc_span_appends_ellipsis_and_owns() {
    let r = trunc_span(span("hello world"), 5, true);
    assert_eq!(r.text, "hello...");
    assert!(r.owned);
}

#[test]
fn trunc_span_without_ellipsis_keeps_ownership() {
    let r = trunc_span(span("hello world"), 5, false);
    assert_eq!(r.text, "hello");
    assert!(!r.owned);
}

#[test]
fn trunc_span_full_length_is_untouched() {
    let r = trunc_span(span("hello"), 5, true);
    assert_eq!(r.text, "hello");
    assert!(!r.owned);
}

#[test]
fn trunc_span_zero_cut_is_bare_ellipsis() {
    let r = trunc_span(span("hello"), 0, true);
    assert_eq!(r.text, "...");
    let r2 = trunc_span(span("hello"), 0, false);
    assert_eq!(r2.text, "");
}

#[test]
fn truncate_budget_three_example() {
    // budget 3 over "alpha beta gamma delta", with content following:
    // the span is cut to "alpha beta gamma..." and the stream is shortened
    let events: Vec<MarkupEvent<i32>> = vec![
        MarkupEvent::Text(span("alpha beta gamma delta")),
        MarkupEvent::SoftBreak,
    ];
    let (out, shortened) = truncate(events, 3);
    assert_eq!(out.len(), 1);
    assert_eq!(text_of(&out[0]), "alpha beta gamma...");
    assert!(shortened);
}

#[test]
fn truncate_lone_span_cut_at_natural_end() {
    // the same cut on a lone span: production never stops before the
    // natural end of the input, so the stream does not count as shortened
    let events: Vec<MarkupEvent<i32>> = vec![MarkupEvent::Text(span("alpha beta gamma delta"))];
    let (out, shortened) = truncate(events, 3);
    assert_eq!(out.len(), 1);
    assert_eq!(text_of(&out[0]), "alpha beta gamma...");
    assert!(!shortened);
}

#[test]
fn truncate_word_budget_spans_several_spans() {
    let events: Vec<MarkupEvent<i32>> = vec![
        MarkupEvent::Text(span("a b")),
        MarkupEvent::Text(span("c d")),
    ];
    let (out, shortened) = truncate(events, 3);
    assert_eq!(out.len(), 2);
    assert_eq!(text_of(&out[0]), "a b");
    assert_eq!(text_of(&out[1]), "c...");
    assert!(!shortened);
}

#[test]
fn truncate_keeps_tags_balanced_at_stop() {
    let events: Vec<MarkupEvent<i32>> = vec![
        MarkupEvent::StartTag(1, 0),
        MarkupEvent::Text(span("one two three four five")),
        MarkupEvent::EndTag(1, 0),
        MarkupEvent::StartTag(2, 0),
        MarkupEvent::Text(span("later text")),
        MarkupEvent::EndTag(2, 0),
    ];
    let (out, shortened) = truncate(events, 3);
    assert!(shortened);
    assert_eq!(out.len(), 3);
    assert!(matches!(out[0], MarkupEvent::StartTag(1, _)));
    assert_eq!(text_of(&out[1]), "one two three...");
    assert!(matches!(out[2], MarkupEvent::EndTag(1, _)));
}

#[test]
fn truncate_stops_at_rule_with_budget_left() {
    let events: Vec<MarkupEvent<i32>> = vec![
        MarkupEvent::Text(span("a")),
        MarkupEvent::Rule,
        MarkupEvent::Text(span("b")),
    ];
    let (out, shortened) = truncate(events, 10);
    assert_eq!(out.len(), 1);
    assert_eq!(text_of(&out[0]), "a");
    assert!(shortened);
}

#[test]
fn truncate_retags_html_as_text() {
    let events: Vec<MarkupEvent<i32>> = vec![MarkupEvent::Html(span("<b>hi</b>"))];
    let (out, shortened) = truncate(events, 5);
    assert_eq!(out.len(), 1);
    assert!(matches!(out[0], MarkupEvent::Text(_)));
    assert_eq!(text_of(&out[0]), "<b>hi</b>");
    assert!(!shortened);
}

#[test]
fn truncate_zero_budget_emits_nothing() {
    let events: Vec<MarkupEvent<i32>> = vec![MarkupEvent::Text(span("abc"))];
    let (out, shortened) = truncate(events, 0);
    assert!(out.is_empty());
    assert!(shortened);
}

#[test]
fn truncate_carries_payloads_through() {
    let events: Vec<MarkupEvent<i32>> = vec![
        MarkupEvent::StartTag(3, 42),
        MarkupEvent::Text(span("w")),
        MarkupEvent::EndTag(3, 43),
    ];
    let (out, shortened) = truncate(events, 5);
    assert!(!shortened);
    assert!(matches!(out[0], MarkupEvent::StartTag(3, 42)));
    assert!(matches!(out[2], MarkupEvent::EndTag(3, 43)));
}

#[test]
fn truncate_exact_exhaustion_at_span_end_keeps_span_whole() {
    // the budget hits zero exactly as the span ends: no ellipsis
    let events: Vec<MarkupEvent<i32>> = vec![
        MarkupEvent::Text(span("one two")),
        MarkupEvent::Text(span("ignored")),
    ];
    let (out, shortened) = truncate(events, 2);
    assert_eq!(out.len(), 1);
    assert_eq!(text_of(&out[0]), "one two");
    assert!(shortened);
}

#[test]
fn truncate_empty_input_is_untouched() {
    let events: Vec<MarkupEvent<i32>> = vec![];
    let (out, shortened) = truncate(events, 7);
    assert!(out.is_empty());
    assert!(!shortened);
}
