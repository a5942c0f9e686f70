//! The truncator: shortens a markdown event stream to an approximate word
//! budget without breaking the markup structure.
//!
//! Words are consumed from `Text`, `Code` and `Html` spans (raw HTML is
//! counted — and re-emitted — as plain text).  Start and end tags always
//! pass through; the stream stops only outside any open tag, once the
//! budget is spent, or at a rule event, which marks a hard content
//! boundary the preview never crosses.

use vstd::prelude::*;
use crate::events::EventView;
use crate::events::MarkupEvent;
use crate::events::count_ends;
use crate::events::count_starts;
use crate::events::events_view;
use crate::events::lemma_well_nested_counts;
use crate::events::rules_at_top;
use crate::events::scan_tags;
use crate::events::well_nested;
use crate::text::SpanView;
use crate::text::ellipsis_chars;
use crate::text::is_white;
use crate::text::lemma_ellipsis_uniform;
use crate::text::lemma_take_words;
use crate::text::lemma_word_count_append_uniform;
use crate::text::take_words;
use crate::text::take_words_spec;
use crate::text::trunc_span;
use crate::text::trunc_view;
use crate::text::word_count;

verus! {

/// What truncation leaves of `evs` with `left` words of budget remaining
/// and `depth` tags open: the emitted events, and whether production
/// stopped before the natural end of the input.
pub open spec fn truncate_rec<P>(evs: Seq<EventView<P>>, left: nat, depth: int) -> (Seq<
    EventView<P>,
>, bool)
    decreases evs.len(),
{
    if evs.len() == 0 {
        (Seq::empty(), false)
    } else if depth == 0 && left == 0 {
        (Seq::empty(), true)
    } else {
        let rest = evs.drop_first();
        match evs[0] {
            EventView::Rule => (Seq::empty(), true),
            EventView::StartTag(k, p) => {
                let r = truncate_rec(rest, left, depth + 1);
                (seq![EventView::StartTag(k, p)] + r.0, r.1)
            },
            EventView::EndTag(k, p) => {
                let r = truncate_rec(rest, left, depth - 1);
                (seq![EventView::EndTag(k, p)] + r.0, r.1)
            },
            EventView::Text(sp) => {
                let tw = take_words_spec(left, sp.chars);
                let r = truncate_rec(rest, tw.0, depth);
                (seq![EventView::Text(trunc_view(sp, tw.1, left > 0))] + r.0, r.1)
            },
            EventView::Code(sp) => {
                let tw = take_words_spec(left, sp.chars);
                let r = truncate_rec(rest, tw.0, depth);
                (seq![EventView::Code(trunc_view(sp, tw.1, left > 0))] + r.0, r.1)
            },
            EventView::Html(sp) => {
                let tw = take_words_spec(left, sp.chars);
                let r = truncate_rec(rest, tw.0, depth);
                (seq![EventView::Text(trunc_view(sp, tw.1, left > 0))] + r.0, r.1)
            },
            e => {
                let r = truncate_rec(rest, left, depth);
                (seq![e] + r.0, r.1)
            },
        }
    }
}

/// The truncation of `evs` to a budget of `budget` words, and whether the
/// stream was shortened.
pub open spec fn truncate_spec<P>(evs: Seq<EventView<P>>, budget: nat) -> (Seq<EventView<P>>, bool) {
    truncate_rec(evs, budget, 0)
}

/// Shortens an event stream to a word budget.
///
/// `Text`, `Code` and `Html` spans consume the budget (raw HTML is
/// re-emitted as plain text); the span on which the budget runs out is cut
/// at the whitespace boundary that exhausted it and marked with an
/// ellipsis.  Tags always pass through and the stream ends only outside
/// any open tag, or at a rule event.  Returns the emitted events and
/// whether production stopped before the natural end of the input.
pub fn truncate<P>(events: Vec<MarkupEvent<P>>, budget: usize) -> (r: (Vec<MarkupEvent<P>>, bool))
    ensures
        events_view(r.0@) == truncate_spec(events_view(events@), budget as nat).0,
        r.1 == truncate_spec(events_view(events@), budget as nat).1,
{
    let ghost evs0 = events_view(events@);
    let mut events = events;
    let n0 = events.len();
    proof {
        assert(evs0.len() == n0);
    }
    let mut out: Vec<MarkupEvent<P>> = Vec::new();
    let mut left: usize = budget;
    let mut opened: usize = 0;
    let mut closed: usize = 0;
    let mut shortened = false;
    loop
        invariant_except_break
            evs0.len() <= usize::MAX,
            opened + closed + events@.len() <= evs0.len(),
            truncate_spec(evs0, budget as nat).0 == events_view(out@) + truncate_rec(
                events_view(events@),
                left as nat,
                opened as int - closed as int,
            ).0,
            truncate_spec(evs0, budget as nat).1 == truncate_rec(
                events_view(events@),
                left as nat,
                opened as int - closed as int,
            ).1,
            !shortened,
        ensures
            events_view(out@) == truncate_spec(evs0, budget as nat).0,
            shortened == truncate_spec(evs0, budget as nat).1,
        decreases events@.len(),
    {
        proof {
            assert(events_view(events@).len() == events@.len());
        }
        if events.len() == 0 {
            proof {
                assert(events_view(out@) + truncate_rec(
                    events_view(events@),
                    left as nat,
                    opened as int - closed as int,
                ).0 =~= events_view(out@));
            }
            break ;
        }
        if opened == closed && left == 0 {
            shortened = true;
            proof {
                assert(events_view(out@) + truncate_rec(
                    events_view(events@),
                    left as nat,
                    opened as int - closed as int,
                ).0 =~= events_view(out@));
            }
            break ;
        }
        let ghost pre = events_view(events@);
        let ghost l0 = left as nat;
        let ghost d0 = opened as int - closed as int;
        let e = events.remove(0);
        proof {
            assert(pre[0] == e@);
            assert(events_view(events@) =~= pre.drop_first());
        }
        let ne: MarkupEvent<P> = match e {
            MarkupEvent::Rule => {
                shortened = true;
                proof {
                    assert(events_view(out@) + truncate_rec(pre, l0, d0).0 =~= events_view(out@));
                }
                break ;
            },
            MarkupEvent::StartTag(k, p) => {
                opened = opened + 1;
                MarkupEvent::StartTag(k, p)
            },
            MarkupEvent::EndTag(k, p) => {
                closed = closed + 1;
                MarkupEvent::EndTag(k, p)
            },
            MarkupEvent::Text(sp) => {
                let ellipses = left > 0;
                proof {
                    lemma_take_words(left as nat, sp.text@);
                }
                let cut = take_words(&mut left, sp.text.as_str());
                MarkupEvent::Text(trunc_span(sp, cut, ellipses))
            },
            MarkupEvent::Code(sp) => {
                let ellipses = left > 0;
                proof {
                    lemma_take_words(left as nat, sp.text@);
                }
                let cut = take_words(&mut left, sp.text.as_str());
                MarkupEvent::Code(trunc_span(sp, cut, ellipses))
            },
            MarkupEvent::Html(sp) => {
                let ellipses = left > 0;
                proof {
                    lemma_take_words(left as nat, sp.text@);
                }
                let cut = take_words(&mut left, sp.text.as_str());
                MarkupEvent::Text(trunc_span(sp, cut, ellipses))
            },
            other => other,
        };
        proof {
            let d1 = opened as int - closed as int;
            let rec = truncate_rec(events_view(events@), left as nat, d1);
            assert(truncate_rec(pre, l0, d0).0 == seq![ne@] + rec.0);
            assert(truncate_rec(pre, l0, d0).1 == rec.1);
            assert(events_view(out@.push(ne)) =~= events_view(out@) + seq![ne@]);
            assert(events_view(out@) + (seq![ne@] + rec.0) =~= (events_view(out@) + seq![ne@])
                + rec.0);
        }
        out.push(ne);
    }
    (out, shortened)
}

proof fn lemma_truncate_scan<P>(evs: Seq<EventView<P>>, left: nat, stack: Seq<u32>)
    requires
        scan_tags(stack, evs) == Option::Some(Seq::<u32>::empty()),
        rules_at_top(evs, stack.len() as int),
    ensures
        scan_tags(stack, truncate_rec(evs, left, stack.len() as int).0) == Option::Some(
            Seq::<u32>::empty(),
        ),
    decreases evs.len(),
{
    let out = truncate_rec(evs, left, stack.len() as int).0;
    if evs.len() == 0 {
    } else if stack.len() == 0 && left == 0 {
        assert(out =~= Seq::<EventView<P>>::empty());
        assert(stack =~= Seq::<u32>::empty());
    } else {
        let rest = evs.drop_first();
        match evs[0] {
            EventView::Rule => {
                assert(stack =~= Seq::<u32>::empty());
                assert(out =~= Seq::<EventView<P>>::empty());
            },
            EventView::StartTag(k, _) => {
                lemma_truncate_scan(rest, left, stack.push(k));
                let r0 = truncate_rec(rest, left, stack.len() as int + 1).0;
                assert(out == seq![evs[0]] + r0);
                assert((seq![evs[0]] + r0)[0] == evs[0]);
                assert((seq![evs[0]] + r0).drop_first() =~= r0);
            },
            EventView::EndTag(k, _) => {
                assert(stack.len() > 0 && stack.last() == k);
                lemma_truncate_scan(rest, left, stack.drop_last());
                let r0 = truncate_rec(rest, left, stack.len() as int - 1).0;
                assert(out == seq![evs[0]] + r0);
                assert((seq![evs[0]] + r0)[0] == evs[0]);
                assert((seq![evs[0]] + r0).drop_first() =~= r0);
            },
            EventView::Text(sp) => {
                let tw = take_words_spec(left, sp.chars);
                lemma_truncate_scan(rest, tw.0, stack);
                let r0 = truncate_rec(rest, tw.0, stack.len() as int).0;
                let h = EventView::<P>::Text(trunc_view(sp, tw.1, left > 0));
                assert(out == seq![h] + r0);
                assert((seq![h] + r0)[0] == h);
                assert((seq![h] + r0).drop_first() =~= r0);
            },
            EventView::Code(sp) => {
                let tw = take_words_spec(left, sp.chars);
                lemma_truncate_scan(rest, tw.0, stack);
                let r0 = truncate_rec(rest, tw.0, stack.len() as int).0;
                let h = EventView::<P>::Code(trunc_view(sp, tw.1, left > 0));
                assert(out == seq![h] + r0);
                assert((seq![h] + r0)[0] == h);
                assert((seq![h] + r0).drop_first() =~= r0);
            },
            EventView::Html(sp) => {
                let tw = take_words_spec(left, sp.chars);
                lemma_truncate_scan(rest, tw.0, stack);
                let r0 = truncate_rec(rest, tw.0, stack.len() as int).0;
                let h = EventView::<P>::Text(trunc_view(sp, tw.1, left > 0));
                assert(out == seq![h] + r0);
                assert((seq![h] + r0)[0] == h);
                assert((seq![h] + r0).drop_first() =~= r0);
            },
            e => {
                lemma_truncate_scan(rest, left, stack);
                let r0 = truncate_rec(rest, left, stack.len() as int).0;
                assert(out == seq![e] + r0);
                assert((seq![e] + r0)[0] == e);
                assert((seq![e] + r0).drop_first() =~= r0);
            },
        }
    }
}

/// Balance invariant: truncating a well-nested event stream whose rule
/// events sit outside any open tag yields a well-nested stream — every tag
/// opened before the stop point is still closed, and start and end tags of
/// every kind come in equal numbers.
pub proof fn lemma_truncate_balanced<P>(evs: Seq<EventView<P>>, budget: nat)
    requires
        well_nested(evs),
        rules_at_top(evs, 0),
    ensures
        well_nested(truncate_spec(evs, budget).0),
        forall|k: u32|
            count_starts(truncate_spec(evs, budget).0, k) == count_ends(
                truncate_spec(evs, budget).0,
                k,
            ),
{
    lemma_truncate_scan(evs, budget, Seq::<u32>::empty());
    assert forall|k: u32|
        count_starts(truncate_spec(evs, budget).0, k) == count_ends(
            truncate_spec(evs, budget).0,
            k,
        ) by {
        lemma_well_nested_counts(truncate_spec(evs, budget).0, k);
    }
}

/// Sum of the word counts of the content spans (`Text`, `Code`, `Html`)
/// of `evs`.
pub open spec fn span_words<P>(evs: Seq<EventView<P>>) -> nat
    decreases evs.len(),
{
    if evs.len() == 0 {
        0nat
    } else {
        (match evs[0] {
            EventView::Text(sp) => word_count(sp.chars),
            EventView::Code(sp) => word_count(sp.chars),
            EventView::Html(sp) => word_count(sp.chars),
            _ => 0nat,
        }) + span_words(evs.drop_first())
    }
}

/// No rule event is reached in `evs` before a budget of `left` words is
/// spent.
pub open spec fn no_rule_before_exhaustion<P>(evs: Seq<EventView<P>>, left: nat) -> bool
    decreases evs.len(),
{
    left == 0 || evs.len() == 0 || (match evs[0] {
        EventView::Rule => false,
        EventView::Text(sp) => no_rule_before_exhaustion(
            evs.drop_first(),
            take_words_spec(left, sp.chars).0,
        ),
        EventView::Code(sp) => no_rule_before_exhaustion(
            evs.drop_first(),
            take_words_spec(left, sp.chars).0,
        ),
        EventView::Html(sp) => no_rule_before_exhaustion(
            evs.drop_first(),
            take_words_spec(left, sp.chars).0,
        ),
        _ => no_rule_before_exhaustion(evs.drop_first(), left),
    })
}

proof fn lemma_span_cut_words(sp: SpanView, left: nat)
    requires
        1 <= left,
        take_words_spec(left, sp.chars).1 < sp.chars.len(),
    ensures
        word_count(trunc_view(sp, take_words_spec(left, sp.chars).1, true).chars) == left,
        take_words_spec(left, sp.chars).0 == 0,
{
    let tw = take_words_spec(left, sp.chars);
    lemma_take_words(left, sp.chars);
    let prefix = sp.chars.subrange(0, tw.1);
    assert(word_count(prefix) == left);
    assert(prefix[prefix.len() - 1] == sp.chars[tw.1 - 1]);
    assert(!is_white(prefix[prefix.len() - 1]));
    assert(trunc_view(sp, tw.1, true).chars == prefix + ellipsis_chars());
    lemma_ellipsis_uniform();
    lemma_word_count_append_uniform(prefix, ellipsis_chars());
}

proof fn lemma_truncate_words_rec<P>(evs: Seq<EventView<P>>, left: nat, depth: int)
    ensures
        span_words(truncate_rec(evs, left, depth).0) <= left,
        span_words(evs) >= left && no_rule_before_exhaustion(evs, left) ==> span_words(
            truncate_rec(evs, left, depth).0,
        ) == left,
    decreases evs.len(), 1nat,
{
    if evs.len() == 0 {
    } else if depth == 0 && left == 0 {
    } else {
        let rest = evs.drop_first();
        match evs[0] {
            EventView::Rule => {},
            EventView::StartTag(_, _) => {
                lemma_truncate_words_rec(rest, left, depth + 1);
                let r0 = truncate_rec(rest, left, depth + 1).0;
                assert((seq![evs[0]] + r0)[0] == evs[0]);
                assert((seq![evs[0]] + r0).drop_first() =~= r0);
            },
            EventView::EndTag(_, _) => {
                lemma_truncate_words_rec(rest, left, depth - 1);
                let r0 = truncate_rec(rest, left, depth - 1).0;
                assert((seq![evs[0]] + r0)[0] == evs[0]);
                assert((seq![evs[0]] + r0).drop_first() =~= r0);
            },
            EventView::Text(sp) => {
                lemma_trunc_head_words(sp, evs, left, depth);
            },
            EventView::Code(sp) => {
                lemma_trunc_head_words(sp, evs, left, depth);
            },
            EventView::Html(sp) => {
                lemma_trunc_head_words(sp, evs, left, depth);
            },
            e => {
                lemma_truncate_words_rec(rest, left, depth);
                let r0 = truncate_rec(rest, left, depth).0;
                assert((seq![e] + r0)[0] == e);
                assert((seq![e] + r0).drop_first() =~= r0);
            },
        }
    }
}

proof fn lemma_trunc_head_words<P>(sp: SpanView, evs: Seq<EventView<P>>, left: nat, depth: int)
    requires
        evs.len() >= 1,
        !(depth == 0 && left == 0),
        evs[0] == EventView::<P>::Text(sp) || evs[0] == EventView::<P>::Code(sp) || evs[0]
            == EventView::<P>::Html(sp),
    ensures
        span_words(truncate_rec(evs, left, depth).0) <= left,
        span_words(evs) >= left && no_rule_before_exhaustion(evs, left) ==> span_words(
            truncate_rec(evs, left, depth).0,
        ) == left,
    decreases evs.len(), 0nat,
{
    let rest = evs.drop_first();
    let tw = take_words_spec(left, sp.chars);
    let head = trunc_view(sp, tw.1, left > 0);
    let h = if evs[0] == EventView::<P>::Code(sp) {
        EventView::<P>::Code(head)
    } else {
        EventView::<P>::Text(head)
    };
    let r0 = truncate_rec(rest, tw.0, depth).0;
    assert(truncate_rec(evs, left, depth).0 == seq![h] + r0);
    assert((seq![h] + r0)[0] == h);
    assert((seq![h] + r0).drop_first() =~= r0);
    assert(span_words(seq![h] + r0) == word_count(head.chars) + span_words(r0));
    lemma_take_words(left, sp.chars);
    lemma_truncate_words_rec(rest, tw.0, depth);
    if left == 0 {
        // the span is cut to nothing (or is empty) and consumes nothing
        assert(tw == (0nat, 0int));
        if sp.chars.len() == 0 {
            assert(head == sp);
        } else {
            assert(head.chars =~= Seq::<char>::empty());
        }
        assert(word_count(head.chars) == 0);
    } else if tw.1 == sp.chars.len() {
        assert(head == sp);
    } else {
        lemma_span_cut_words(sp, left);
    }
}

/// Monotonic shrink: the truncated stream holds at most `budget` words,
/// and exactly `budget` words whenever the input holds at least that many
/// and no rule event is reached before the budget is spent.
pub proof fn lemma_truncate_word_budget<P>(evs: Seq<EventView<P>>, budget: nat)
    ensures
        span_words(truncate_spec(evs, budget).0) <= budget,
        span_words(evs) >= budget && no_rule_before_exhaustion(evs, budget) ==> span_words(
            truncate_spec(evs, budget).0,
        ) == budget,
{
    lemma_truncate_words_rec(evs, budget, 0);
}

} // verus!
