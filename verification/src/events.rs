//! The markup event model: the tokens of a parsed markdown document, their
//! mathematical views, and tag balance.
//!
//! Tag kinds are small integers assigned at the tokenizer boundary.  The
//! payload type `P` carries whatever the downstream serializer needs to
//! reproduce a token; the engine's own logic reads only tag kinds and span
//! text and passes payloads through untouched.

use vstd::prelude::*;
use crate::text::SpanView;
use crate::text::TextSpan;

verus! {

/// One structural or content token of a parsed markdown document.
#[derive(Debug, PartialEq, Eq)]
pub enum MarkupEvent<P> {
    StartTag(u32, P),
    EndTag(u32, P),
    Text(TextSpan),
    Code(TextSpan),
    Html(TextSpan),
    SoftBreak,
    HardBreak,
    Rule,
    Other(P),
}

/// Mathematical model of a [`MarkupEvent`]: the same token over character
/// sequences.
pub enum EventView<P> {
    StartTag(u32, P),
    EndTag(u32, P),
    Text(SpanView),
    Code(SpanView),
    Html(SpanView),
    SoftBreak,
    HardBreak,
    Rule,
    Other(P),
}

impl<P> View for MarkupEvent<P> {
    type V = EventView<P>;

    open spec fn view(&self) -> EventView<P> {
        match *self {
            MarkupEvent::StartTag(k, p) => EventView::StartTag(k, p),
            MarkupEvent::EndTag(k, p) => EventView::EndTag(k, p),
            MarkupEvent::Text(sp) => EventView::Text(sp@),
            MarkupEvent::Code(sp) => EventView::Code(sp@),
            MarkupEvent::Html(sp) => EventView::Html(sp@),
            MarkupEvent::SoftBreak => EventView::SoftBreak,
            MarkupEvent::HardBreak => EventView::HardBreak,
            MarkupEvent::Rule => EventView::Rule,
            MarkupEvent::Other(p) => EventView::Other(p),
        }
    }
}

/// The views of a sequence of events.
pub open spec fn events_view<P>(s: Seq<MarkupEvent<P>>) -> Seq<EventView<P>> {
    s.map_values(|e: MarkupEvent<P>| e@)
}

/// Processes the tag events of `evs` against a stack of open tag kinds:
/// a start tag pushes its kind, an end tag must match the innermost open
/// kind and pops it.  Yields the stack left open, or nothing on a
/// mismatched or unmatched end tag.
pub open spec fn scan_tags<P>(stack: Seq<u32>, evs: Seq<EventView<P>>) -> Option<Seq<u32>>
    decreases evs.len(),
{
    if evs.len() == 0 {
        Option::Some(stack)
    } else {
        match evs[0] {
            EventView::StartTag(k, _) => scan_tags(stack.push(k), evs.drop_first()),
            EventView::EndTag(k, _) => if stack.len() > 0 && stack.last() == k {
                scan_tags(stack.drop_last(), evs.drop_first())
            } else {
                Option::None
            },
            _ => scan_tags(stack, evs.drop_first()),
        }
    }
}

/// Every end tag matches its innermost open start tag, and no tag is left
/// open at the end of the sequence.
pub open spec fn well_nested<P>(evs: Seq<EventView<P>>) -> bool {
    scan_tags(Seq::empty(), evs) == Option::Some(Seq::<u32>::empty())
}

/// Rule events occur only outside any open tag, starting from `depth` open
/// tags.
pub open spec fn rules_at_top<P>(evs: Seq<EventView<P>>, depth: int) -> bool
    decreases evs.len(),
{
    if evs.len() == 0 {
        true
    } else {
        match evs[0] {
            EventView::StartTag(_, _) => rules_at_top(evs.drop_first(), depth + 1),
            EventView::EndTag(_, _) => rules_at_top(evs.drop_first(), depth - 1),
            EventView::Rule => depth == 0 && rules_at_top(evs.drop_first(), depth),
            _ => rules_at_top(evs.drop_first(), depth),
        }
    }
}

/// Number of start tags of kind `k` in `evs`.
pub open spec fn count_starts<P>(evs: Seq<EventView<P>>, k: u32) -> nat
    decreases evs.len(),
{
    if evs.len() == 0 {
        0nat
    } else {
        (match evs[0] {
            EventView::StartTag(kk, _) => if kk == k {
                1nat
            } else {
                0nat
            },
            _ => 0nat,
        }) + count_starts(evs.drop_first(), k)
    }
}

/// Number of end tags of kind `k` in `evs`.
pub open spec fn count_ends<P>(evs: Seq<EventView<P>>, k: u32) -> nat
    decreases evs.len(),
{
    if evs.len() == 0 {
        0nat
    } else {
        (match evs[0] {
            EventView::EndTag(kk, _) => if kk == k {
                1nat
            } else {
                0nat
            },
            _ => 0nat,
        }) + count_ends(evs.drop_first(), k)
    }
}

/// Number of occurrences of `k` in a stack of tag kinds.
pub open spec fn count_eq(s: Seq<u32>, k: u32) -> nat
    decreases s.len(),
{
    if s.len() == 0 {
        0nat
    } else {
        (if s[0] == k {
            1nat
        } else {
            0nat
        }) + count_eq(s.drop_first(), k)
    }
}

proof fn lemma_count_eq_push(s: Seq<u32>, x: u32, k: u32)
    ensures
        count_eq(s.push(x), k) == count_eq(s, k) + if x == k {
            1nat
        } else {
            0nat
        },
    decreases s.len(),
{
    if s.len() == 0 {
        assert(s.push(x)[0] == x);
        assert(s.push(x).drop_first() =~= Seq::<u32>::empty());
        assert(count_eq(s.push(x), k) == (if x == k {
            1nat
        } else {
            0nat
        }) + count_eq(s.push(x).drop_first(), k));
    } else {
        assert(s.push(x)[0] == s[0]);
        assert(s.push(x).drop_first() =~= s.drop_first().push(x));
        lemma_count_eq_push(s.drop_first(), x, k);
        assert(count_eq(s.push(x), k) == (if s[0] == k {
            1nat
        } else {
            0nat
        }) + count_eq(s.drop_first().push(x), k));
    }
}

proof fn lemma_count_eq_drop_last(s: Seq<u32>, k: u32)
    requires
        s.len() >= 1,
    ensures
        count_eq(s, k) == count_eq(s.drop_last(), k) + if s.last() == k {
            1nat
        } else {
            0nat
        },
    decreases s.len(),
{
    if s.len() == 1 {
        assert(s.drop_last() =~= Seq::<u32>::empty());
        assert(s.drop_first() =~= Seq::<u32>::empty());
    } else {
        assert(s.drop_last().drop_first() =~= s.drop_first().drop_last());
        lemma_count_eq_drop_last(s.drop_first(), k);
    }
}

proof fn lemma_scan_counts<P>(stack: Seq<u32>, evs: Seq<EventView<P>>, k: u32)
    requires
        scan_tags(stack, evs) is Some,
    ensures
        count_starts(evs, k) + count_eq(stack, k) == count_ends(evs, k) + count_eq(
            scan_tags(stack, evs)->0,
            k,
        ),
    decreases evs.len(),
{
    if evs.len() > 0 {
        match evs[0] {
            EventView::StartTag(kk, _) => {
                lemma_count_eq_push(stack, kk, k);
                lemma_scan_counts(stack.push(kk), evs.drop_first(), k);
            },
            EventView::EndTag(kk, _) => {
                lemma_count_eq_drop_last(stack, k);
                lemma_scan_counts(stack.drop_last(), evs.drop_first(), k);
            },
            _ => {
                lemma_scan_counts(stack, evs.drop_first(), k);
            },
        }
    }
}

/// A well-nested event sequence holds equally many start and end tags of
/// every tag kind.
pub proof fn lemma_well_nested_counts<P>(evs: Seq<EventView<P>>, k: u32)
    requires
        well_nested(evs),
    ensures
        count_starts(evs, k) == count_ends(evs, k),
{
    lemma_scan_counts(Seq::<u32>::empty(), evs, k);
}

} // verus!
