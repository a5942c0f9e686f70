//! Rendering pipelines: a full rendering and a truncated preview of a
//! markdown document.
//!
//! Parsing is done by the outside tokenizer and serialization by the
//! outside HTML serializer, both behind trusted wrappers; the event
//! transforms between them — truncation and the re-tagging of raw HTML as
//! plain text — are the engine's own, verified work.
//!
//! Every token is carried as plain values (tag kinds and tag content,
//! span text, breaks), so both what the tokenizer produces and what the
//! serializer emits are functions of those values alone, and the two
//! wrappers can bind them to the named results [`parsed_events`] and
//! [`html_of`].

use vstd::prelude::*;
use pulldown_cmark::Alignment;
use pulldown_cmark::CodeBlockKind;
use pulldown_cmark::CowStr;
use pulldown_cmark::Event;
use pulldown_cmark::HeadingLevel;
use pulldown_cmark::LinkType;
use pulldown_cmark::Options;
use pulldown_cmark::Parser;
use pulldown_cmark::Tag;
use crate::events::EventView;
use crate::events::MarkupEvent;
use crate::events::events_view;
use crate::events::well_nested;
use crate::preview::truncate;
use crate::preview::truncate_spec;
use crate::text::TextSpan;

verus! {

/// Word budget of a preview.
pub const PREVIEW_SIZE: usize = 400;

#[verifier::external_type_specification]
#[verifier::external_body]
pub struct ExEvent<'a>(Event<'a>);

#[verifier::external_type_specification]
#[verifier::external_body]
pub struct ExTag<'a>(Tag<'a>);

#[verifier::external_type_specification]
#[verifier::external_body]
pub struct ExHeadingLevel(HeadingLevel);

#[verifier::external_type_specification]
#[verifier::external_body]
pub struct ExLinkType(LinkType);

#[verifier::external_type_specification]
#[verifier::external_body]
pub struct ExAlignment(Alignment);

#[verifier::external_type_specification]
#[verifier::external_body]
pub struct ExCowStr<'a>(CowStr<'a>);

/// The content of a markup tag, as plain values: one variant per variant
/// of the tokenizer's tag type.  Heading levels, link types and table
/// column alignments are carried as the small integers the corresponding
/// fieldless outside enums cast to.  A heading's fragment identifier and
/// classes are not carried: they exist only under the tokenizer's
/// heading-attributes extension, which the blog does not enable.
#[derive(Debug, PartialEq, Eq)]
pub enum TagInfo {
    Paragraph,
    Heading(u8),
    BlockQuote,
    CodeBlockIndented,
    CodeBlockFenced(String),
    List(Option<u64>),
    Item,
    FootnoteDefinition(String),
    Table(Vec<u8>),
    TableHead,
    TableRow,
    TableCell,
    Emphasis,
    Strong,
    Strikethrough,
    Link(u8, String, String),
    Image(u8, String, String),
}

/// The payload a document event carries through the engine: the content of
/// its tag for start and end tags, and the plain content of the tokens the
/// engine passes through untouched.
#[derive(Debug, PartialEq, Eq)]
pub enum PayloadInfo {
    Tag(TagInfo),
    Footnote(String),
    Task(bool),
}

/// A markup event of a parsed document, with its tag or token content
/// carried as plain values, so that serialization loses nothing.
pub type DocEvent = MarkupEvent<PayloadInfo>;

/// The events that the outside tokenizer produces for a document: tag
/// kinds and tag content, span text, breaks.  Named here because parsing
/// (with the blog's fixed options) is a function of the input text alone.
pub uninterp spec fn parsed_events(s: Seq<char>) -> Seq<EventView<PayloadInfo>>;

/// The HTML that the outside serializer produces for an event stream.
/// Named here because the events hold their content as plain values, so
/// the serialization is a function of the events alone.
pub uninterp spec fn html_of(evs: Seq<EventView<PayloadInfo>>) -> Seq<char>;

/// Conversion of a tag to a small integer kind, one arm per variant of
/// `pulldown_cmark::Tag`.  Equal tags get equal kinds, so an end tag's
/// kind always matches the kind of the start tag it closes.
#[verifier::external_body]
fn tag_kind(t: &Tag<'_>) -> u32 {
    match t {
        Tag::Paragraph => 0, Tag::Heading(..) => 1, Tag::BlockQuote => 2, Tag::CodeBlock(..) => 3,
        Tag::List(..) => 4, Tag::Item => 5, Tag::FootnoteDefinition(..) => 6, Tag::Table(..) => 7,
        Tag::TableHead => 8, Tag::TableRow => 9, Tag::TableCell => 10, Tag::Emphasis => 11,
        Tag::Strong => 12, Tag::Strikethrough => 13, Tag::Link(..) => 14, Tag::Image(..) => 15,
    }
}

/// Conversion of the tokenizer's tag into its plain content, one arm per
/// variant, moving fields; fieldless outside enums become their cast
/// integers.  A heading's fragment and classes are dropped: without the
/// heading-attributes extension they are always absent.
#[verifier::external_body]
fn tag_info(t: Tag<'_>) -> TagInfo {
    match t {
        Tag::Link(lt, u, ti) => TagInfo::Link(lt as u8, u.into_string(), ti.into_string()),
        Tag::Image(lt, u, ti) => TagInfo::Image(lt as u8, u.into_string(), ti.into_string()),
        other => carrier_tag_info(other),
    }
}

/// Continuation of `tag_info`: the field-carrying tag variants short of
/// links and images.
#[verifier::external_body]
fn carrier_tag_info(t: Tag<'_>) -> TagInfo {
    match t {
        Tag::Heading(l, _, _) => TagInfo::Heading(l as u8),
        Tag::CodeBlock(CodeBlockKind::Indented) => TagInfo::CodeBlockIndented,
        Tag::CodeBlock(CodeBlockKind::Fenced(s)) => TagInfo::CodeBlockFenced(s.into_string()),
        Tag::List(n) => TagInfo::List(n),
        Tag::FootnoteDefinition(s) => TagInfo::FootnoteDefinition(s.into_string()),
        Tag::Table(a) => TagInfo::Table(a.into_iter().map(|x| x as u8).collect()),
        other => unit_tag_info(&other),
    }
}

/// Continuation of `tag_info`: the fieldless tag variants (the last one
/// left to the catch-all arm is strikethrough).
#[verifier::external_body]
fn unit_tag_info(t: &Tag<'_>) -> TagInfo {
    match t {
        Tag::Paragraph => TagInfo::Paragraph, Tag::BlockQuote => TagInfo::BlockQuote,
        Tag::Item => TagInfo::Item, Tag::TableHead => TagInfo::TableHead,
        Tag::TableRow => TagInfo::TableRow, Tag::TableCell => TagInfo::TableCell,
        Tag::Emphasis => TagInfo::Emphasis, Tag::Strong => TagInfo::Strong,
        _ => TagInfo::Strikethrough,
    }
}

/// Conversion back of a heading level, inverse of the cast in `tag_info`;
/// an integer outside the six levels restores as the top level.
#[verifier::external_body]
fn heading_of(l: u8) -> HeadingLevel {
    match l {
        2 => HeadingLevel::H2,
        3 => HeadingLevel::H3,
        4 => HeadingLevel::H4,
        5 => HeadingLevel::H5,
        6 => HeadingLevel::H6,
        _ => HeadingLevel::H1,
    }
}

/// Conversion back of a link type, inverse of the cast in `tag_info` (the
/// variants of `pulldown_cmark::LinkType` in declaration order); an
/// integer beyond them restores as an inline link.
#[verifier::external_body]
fn link_of(k: u8) -> LinkType {
    match k {
        1 => LinkType::Reference, 2 => LinkType::ReferenceUnknown, 3 => LinkType::Collapsed,
        4 => LinkType::CollapsedUnknown, 5 => LinkType::Shortcut, 6 => LinkType::ShortcutUnknown,
        7 => LinkType::Autolink, 8 => LinkType::Email, _ => LinkType::Inline,
    }
}

/// Conversion back of a table column alignment, inverse of the cast in
/// `tag_info`; an integer beyond the four restores as the default.
#[verifier::external_body]
fn align_of(k: u8) -> Alignment {
    match k {
        1 => Alignment::Left,
        2 => Alignment::Center,
        3 => Alignment::Right,
        _ => Alignment::None,
    }
}

/// Conversion back of tag content to the tokenizer's tag type.
#[verifier::external_body]
fn restore_tag(t: TagInfo) -> Tag<'static> {
    match t {
        TagInfo::Link(lt, u, ti) => Tag::Link(link_of(lt), CowStr::from(u), CowStr::from(ti)),
        TagInfo::Image(lt, u, ti) => Tag::Image(link_of(lt), CowStr::from(u), CowStr::from(ti)),
        other => restore_carrier_tag(other),
    }
}

/// Continuation of `restore_tag`: the field-carrying variants short of
/// links and images.
#[verifier::external_body]
fn restore_carrier_tag(t: TagInfo) -> Tag<'static> {
    match t {
        TagInfo::Heading(l) => Tag::Heading(heading_of(l), Option::None, Vec::new()),
        TagInfo::CodeBlockIndented => Tag::CodeBlock(CodeBlockKind::Indented),
        TagInfo::CodeBlockFenced(s) => Tag::CodeBlock(CodeBlockKind::Fenced(CowStr::from(s))),
        TagInfo::List(n) => Tag::List(n),
        TagInfo::FootnoteDefinition(s) => Tag::FootnoteDefinition(CowStr::from(s)),
        TagInfo::Table(a) => Tag::Table(a.into_iter().map(align_of).collect()),
        other => restore_unit_tag(&other),
    }
}

/// Continuation of `restore_tag`: the fieldless variants (the last one
/// left to the catch-all arm is strikethrough).
#[verifier::external_body]
fn restore_unit_tag(t: &TagInfo) -> Tag<'static> {
    match t {
        TagInfo::Paragraph => Tag::Paragraph, TagInfo::BlockQuote => Tag::BlockQuote,
        TagInfo::Item => Tag::Item, TagInfo::TableHead => Tag::TableHead,
        TagInfo::TableRow => Tag::TableRow, TagInfo::TableCell => Tag::TableCell,
        TagInfo::Emphasis => Tag::Emphasis, TagInfo::Strong => Tag::Strong,
        _ => Tag::Strikethrough,
    }
}

/// The tag content a payload carries in a tag position; any non-tag
/// payload there counts as a paragraph, keeping restoration total and
/// deterministic.
fn payload_tag(p: PayloadInfo) -> (t: TagInfo)
    ensures
        p is Tag ==> t == p->Tag_0,
        !(p is Tag) ==> t == TagInfo::Paragraph,
{
    match p {
        PayloadInfo::Tag(t) => t,
        _ => TagInfo::Paragraph,
    }
}

/// A content span of the tokenizer, carried as a borrowed-from-source span.
#[verifier::external_body]
fn span_of(s: CowStr<'_>) -> TextSpan {
    TextSpan { owned: false, text: s.into_string() }
}

/// Conversion of the tokenizer's event into the engine's model: tag events
/// become kinds with their content as payload, content spans become text
/// spans, breaks and rules map one to one, footnote references and task
/// markers ride through as `Other`.
#[verifier::external_body]
fn convert_event(e: Event<'_>) -> DocEvent {
    match e {
        Event::Start(t) => MarkupEvent::StartTag(tag_kind(&t), PayloadInfo::Tag(tag_info(t))),
        Event::End(t) => MarkupEvent::EndTag(tag_kind(&t), PayloadInfo::Tag(tag_info(t))),
        Event::Text(s) => MarkupEvent::Text(span_of(s)),
        Event::Code(s) => MarkupEvent::Code(span_of(s)),
        Event::Html(s) => MarkupEvent::Html(span_of(s)),
        Event::FootnoteReference(s) => MarkupEvent::Other(PayloadInfo::Footnote(s.into_string())),
        Event::SoftBreak => MarkupEvent::SoftBreak,
        Event::HardBreak => MarkupEvent::HardBreak,
        Event::Rule => MarkupEvent::Rule,
        Event::TaskListMarker(b) => MarkupEvent::Other(PayloadInfo::Task(b)),
    }
}

/// Conversion of an engine event back to the tokenizer's event type for
/// serialization, rebuilt from its plain content.  A tag payload in an
/// `Other` position restores as a soft break, keeping restoration total
/// and deterministic.
#[verifier::external_body]
fn restore_event(e: DocEvent) -> Event<'static> {
    match e {
        MarkupEvent::StartTag(_, p) => Event::Start(restore_tag(payload_tag(p))),
        MarkupEvent::EndTag(_, p) => Event::End(restore_tag(payload_tag(p))),
        MarkupEvent::Text(sp) => Event::Text(CowStr::from(sp.text)),
        MarkupEvent::Code(sp) => Event::Code(CowStr::from(sp.text)),
        MarkupEvent::Html(sp) => Event::Html(CowStr::from(sp.text)),
        MarkupEvent::SoftBreak => Event::SoftBreak,
        MarkupEvent::HardBreak => Event::HardBreak,
        MarkupEvent::Rule => Event::Rule,
        MarkupEvent::Other(PayloadInfo::Footnote(s)) => Event::FootnoteReference(CowStr::from(s)),
        MarkupEvent::Other(PayloadInfo::Task(b)) => Event::TaskListMarker(b),
        MarkupEvent::Other(PayloadInfo::Tag(_)) => Event::SoftBreak,
    }
}

/// Relies on `pulldown_cmark::Parser::new_ext`: parses the document (with
/// the strikethrough extension, as the blog enables it) into a stream of
/// events in document order.  The stream is a function of the input text
/// alone, and its start and end events are guaranteed to be balanced
/// (documented on `pulldown_cmark::Event::Start`; an end tag is built from
/// the same tree item as its start, so the kinds match).  The whole stream
/// is collected here before truncation: the truncator stops emitting
/// early, but the events of a large document are still materialized.
#[verifier::external_body]
fn parse_markdown(body: &str) -> (r: Vec<DocEvent>)
    ensures
        events_view(r@) == parsed_events(body@),
        well_nested(events_view(r@)),
{
    Parser::new_ext(body, Options::ENABLE_STRIKETHROUGH).map(convert_event).collect()
}

/// Relies on `pulldown_cmark::html::push_html`: serializes the events as
/// HTML onto the end of `out`.  The serializer only appends, and what it
/// appends is a function of the events' plain content, bound to
/// [`html_of`].
#[verifier::external_body]
fn push_html_events(out: &mut String, events: Vec<DocEvent>)
    ensures
        final(out)@ == old(out)@ + html_of(events_view(events@)),
{
    pulldown_cmark::html::push_html(out, events.into_iter().map(restore_event));
}

/// The event transform of full rendering: raw HTML events are re-tagged as
/// plain text (never interpreted as live markup); everything else passes
/// through unchanged.
pub open spec fn sanitize_event<P>(e: EventView<P>) -> EventView<P> {
    match e {
        EventView::Html(sp) => EventView::Text(sp),
        _ => e,
    }
}

/// The full-render transform over a whole event stream.
pub open spec fn sanitize_spec<P>(evs: Seq<EventView<P>>) -> Seq<EventView<P>> {
    evs.map_values(|e: EventView<P>| sanitize_event(e))
}

/// The identity transform over an event stream, except that raw HTML
/// events are re-tagged as plain text before serialization — a
/// sanitization decision, not a truncation concern.
pub fn render_full_events<P>(events: Vec<MarkupEvent<P>>) -> (r: Vec<MarkupEvent<P>>)
    ensures
        events_view(r@) == sanitize_spec(events_view(events@)),
{
    let ghost evs0 = events_view(events@);
    let mut events = events;
    let mut out: Vec<MarkupEvent<P>> = Vec::new();
    while events.len() != 0
        invariant
            sanitize_spec(evs0) =~= events_view(out@) + sanitize_spec(events_view(events@)),
        decreases events@.len(),
    {
        let ghost pre = events_view(events@);
        let e = events.remove(0);
        proof {
            assert(pre[0] == e@);
            assert(events_view(events@) =~= pre.drop_first());
        }
        let ne = match e {
            MarkupEvent::Html(sp) => MarkupEvent::Text(sp),
            other => other,
        };
        proof {
            assert(ne@ == sanitize_event(pre[0]));
            assert(sanitize_spec(pre) =~= seq![sanitize_event(pre[0])] + sanitize_spec(
                pre.drop_first(),
            ));
            assert(events_view(out@.push(ne)) =~= events_view(out@) + seq![ne@]);
            assert(events_view(out@) + (seq![ne@] + sanitize_spec(pre.drop_first())) =~= (
            events_view(out@) + seq![ne@]) + sanitize_spec(pre.drop_first()));
        }
        out.push(ne);
    }
    proof {
        assert(sanitize_spec(events_view(events@)) =~= Seq::<EventView<P>>::empty());
        assert(events_view(out@) + Seq::<EventView<P>>::empty() =~= events_view(out@));
    }
    out
}

/// Idempotence of full rendering: the full-render transform applied twice
/// yields the same event stream as once — raw HTML events already
/// converted to plain text are stable under re-application.
pub proof fn lemma_render_full_idempotent<P>(evs: Seq<EventView<P>>)
    ensures
        sanitize_spec(sanitize_spec(evs)) == sanitize_spec(evs),
{
    assert(sanitize_spec(sanitize_spec(evs)) =~= sanitize_spec(evs));
}

/// Renders a markdown document to HTML in full: the result is the outside
/// serializer's output for the parsed event stream with raw HTML re-tagged
/// as plain text by [`render_full_events`] — the identity transform
/// otherwise — and so is a function of the document alone.
pub fn render_full(body: &str) -> (html: String)
    ensures
        html@ == html_of(sanitize_spec(parsed_events(body@))),
{
    let events = parse_markdown(body);
    let cleaned = render_full_events(events);
    let mut out = String::new();
    push_html_events(&mut out, cleaned);
    proof {
        assert(Seq::<char>::empty() + html_of(sanitize_spec(parsed_events(body@))) =~= html_of(
            sanitize_spec(parsed_events(body@)),
        ));
    }
    out
}

/// Renders a truncated preview of a markdown document onto the end of
/// `buffer`: what is appended is the outside serializer's output for the
/// parsed event stream shortened to [`PREVIEW_SIZE`] words by
/// [`truncate`].  Returns whether the preview stopped before the natural
/// end of the document.  The preview's markup stays balanced whenever the
/// document's rule events sit outside any open tag (see
/// [`crate::preview::lemma_truncate_balanced`]); a rule inside an open
/// tag — as a blockquoted rule is tokenized — stops production with that
/// tag still open.
pub fn render_preview(full_body: &str, buffer: &mut String) -> (shortened: bool)
    ensures
        shortened == truncate_spec(parsed_events(full_body@), PREVIEW_SIZE as nat).1,
        final(buffer)@ == old(buffer)@ + html_of(
            truncate_spec(parsed_events(full_body@), PREVIEW_SIZE as nat).0,
        ),
{
    let events = parse_markdown(full_body);
    let (kept, shortened) = truncate(events, PREVIEW_SIZE);
    push_html_events(buffer, kept);
    shortened
}

} // verus!
