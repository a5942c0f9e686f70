//! Word counting over text spans, and span truncation.
//!
//! A word is a maximal run of non-whitespace characters.  Counting consumes
//! a budget left to right: each whitespace boundary that follows a non-empty
//! word run costs one word, and a span that ends while still inside a word
//! costs that word as the span closes.

use vstd::prelude::*;
use vstd::string::*;

verus! {

/// Whether a character counts as whitespace for word counting.
///
/// Names the result of `char::is_whitespace` (the Unicode `White_Space`
/// property), which is a function of the character alone.
pub uninterp spec fn is_white(c: char) -> bool;

/// Relies on `char::is_whitespace` from std: whether `c` has the Unicode
/// `White_Space` property; deterministic in `c`.  The pinned cases stand
/// plainly in std's documentation of that property: space, tab and the
/// line feed have it; letters, digits and the full stop do not.
#[verifier::external_body]
fn char_is_white(c: char) -> (r: bool)
    ensures
        r == is_white(c),
        c == ' ' ==> r,
        c == '\t' ==> r,
        c == '\n' ==> r,
        'a' <= c && c <= 'z' ==> !r,
        '0' <= c && c <= '9' ==> !r,
        c == '.' ==> !r,
{
    c.is_whitespace()
}

/// Whether a character counts as whitespace for word counting, with the
/// classifier's documented cases pinned so that callers can settle
/// concrete examples: space, tab and the line feed are whitespace; ASCII
/// letters, digits and the full stop are not.
pub fn is_white_char(c: char) -> (r: bool)
    ensures
        r == is_white(c),
        c == ' ' ==> r,
        c == '\t' ==> r,
        c == '\n' ==> r,
        'a' <= c && c <= 'z' ==> !r,
        '0' <= c && c <= '9' ==> !r,
        c == '.' ==> !r,
{
    char_is_white(c)
}

/// Number of maximal non-whitespace runs in `s` from position `i` on,
/// given whether position `i` sits inside such a run.
pub open spec fn word_count_from(s: Seq<char>, i: int, in_word: bool) -> nat
    decreases s.len() - i,
{
    if i < 0 || i >= s.len() {
        if in_word {
            1nat
        } else {
            0nat
        }
    } else if is_white(s[i]) {
        (if in_word {
            1nat
        } else {
            0nat
        }) + word_count_from(s, i + 1, false)
    } else {
        word_count_from(s, i + 1, true)
    }
}

/// Number of words in `s`: maximal runs of non-whitespace characters.
pub open spec fn word_count(s: Seq<char>) -> nat {
    word_count_from(s, 0, false)
}

/// One step short of `take_words_spec`: consuming words of `s` from
/// position `i` (inside a word iff `in_word`) against a budget `left`.
/// Yields the remaining budget and the character position at which the
/// span is to be cut.
pub open spec fn take_words_from(left: nat, s: Seq<char>, i: int, in_word: bool) -> (nat, int)
    decreases s.len() - i,
{
    if i < 0 || i >= s.len() {
        if in_word && left >= 1 {
            ((left - 1) as nat, s.len() as int)
        } else {
            (left, s.len() as int)
        }
    } else if is_white(s[i]) {
        if in_word {
            if left <= 1 {
                (0nat, i)
            } else {
                take_words_from((left - 1) as nat, s, i + 1, false)
            }
        } else {
            take_words_from(left, s, i + 1, false)
        }
    } else {
        take_words_from(left, s, i + 1, true)
    }
}

/// Consuming the words of `s` against a budget of `left` words: the
/// remaining budget, and the character length to which the span is cut.
/// The cut is the full length unless the budget runs out strictly inside
/// the span, in which case it is the position of the whitespace boundary
/// that exhausted the budget.
pub open spec fn take_words_spec(left: nat, s: Seq<char>) -> (nat, int) {
    if left == 0 {
        (0nat, 0int)
    } else {
        take_words_from(left, s, 0, false)
    }
}

/// Takes words from `cow` as long as there are words left in the budget.
///
/// Decrements `*left` once per word consumed and returns the character
/// length at which the span is to be cut: the full length unless the
/// budget reaches zero at a whitespace boundary strictly inside the span.
/// A span that ends inside a word costs that word as the span closes, but
/// is kept whole.
pub fn take_words(left: &mut usize, cow: &str) -> (cut: usize)
    ensures
        *final(left) as nat == take_words_spec(*old(left) as nat, cow@).0,
        cut as int == take_words_spec(*old(left) as nat, cow@).1,
{
    if *left == 0 {
        return 0;
    }
    let n = cow.unicode_len();
    let mut i: usize = 0;
    let mut in_word = false;
    while i < n
        invariant
            1 <= *old(left),
            1 <= *left,
            i <= n,
            n as nat == cow@.len(),
            take_words_from(*old(left) as nat, cow@, 0, false) == take_words_from(
                *left as nat,
                cow@,
                i as int,
                in_word,
            ),
        decreases n - i,
    {
        let c = cow.get_char(i);
        if char_is_white(c) {
            if in_word {
                if *left == 1 {
                    *left = 0;
                    return i;
                }
                *left = *left - 1;
                in_word = false;
            }
        } else {
            in_word = true;
        }
        i = i + 1;
    }
    if in_word {
        *left = *left - 1;
    }
    n
}

proof fn lemma_take_words_from(left: nat, s: Seq<char>, i: int, w: bool)
    requires
        1 <= left,
        0 <= i <= s.len(),
    ensures
        ({
            let (nl, cut) = take_words_from(left, s, i, w);
            &&& nl <= left
            &&& i <= cut <= s.len()
            &&& (cut == s.len() ==> nl + word_count_from(s, i, w) == left)
            &&& (cut < s.len() ==> nl == 0 && is_white(s[cut]) && (i < cut || w) && (i < cut
                ==> !is_white(s[cut - 1])) && word_count_from(s.subrange(0, cut), i, w) == left)
        }),
    decreases s.len() - i,
{
    let (nl, cut) = take_words_from(left, s, i, w);
    if i >= s.len() {
    } else if is_white(s[i]) {
        if w {
            if left <= 1 {
                assert(s.subrange(0, i).len() == i);
            } else {
                lemma_take_words_from((left - 1) as nat, s, i + 1, false);
                if cut < s.len() {
                    assert(s.subrange(0, cut)[i] == s[i]);
                }
            }
        } else {
            lemma_take_words_from(left, s, i + 1, false);
            if cut < s.len() {
                assert(s.subrange(0, cut)[i] == s[i]);
            }
        }
    } else {
        lemma_take_words_from(left, s, i + 1, true);
        if cut < s.len() {
            assert(s.subrange(0, cut)[i] == s[i]);
        }
    }
}

/// How word consumption accounts for the budget: the remaining budget plus
/// the words consumed equals the original budget, and a cut strictly inside
/// the span happens only once the budget is spent, at a whitespace boundary
/// that follows a non-empty word run.
pub proof fn lemma_take_words(left: nat, s: Seq<char>)
    ensures
        ({
            let (nl, cut) = take_words_spec(left, s);
            &&& nl <= left
            &&& 0 <= cut <= s.len()
            &&& (cut == s.len() ==> nl + word_count(s) == left)
            &&& (cut < s.len() ==> nl == 0)
            &&& (left >= 1 && cut < s.len() ==> is_white(s[cut]) && 1 <= cut && !is_white(
                s[cut - 1],
            ) && word_count(s.subrange(0, cut)) == left)
        }),
{
    if left >= 1 {
        lemma_take_words_from(left, s, 0, false);
    }
}

proof fn lemma_word_count_tail_nonwhite(s: Seq<char>, i: int)
    requires
        0 <= i <= s.len(),
        forall|j: int| i <= j < s.len() ==> !is_white(s[j]),
    ensures
        word_count_from(s, i, true) == 1,
    decreases s.len() - i,
{
    if i < s.len() {
        lemma_word_count_tail_nonwhite(s, i + 1);
    }
}

proof fn lemma_word_count_tail_white(s: Seq<char>, i: int, w: bool)
    requires
        0 <= i <= s.len(),
        forall|j: int| i <= j < s.len() ==> is_white(s[j]),
    ensures
        word_count_from(s, i, w) == if w {
            1nat
        } else {
            0nat
        },
    decreases s.len() - i,
{
    if i < s.len() {
        lemma_word_count_tail_white(s, i + 1, false);
    }
}

proof fn lemma_wcf_append_uniform(s: Seq<char>, t: Seq<char>, i: int, w: bool)
    requires
        0 <= i < s.len(),
        !is_white(s[s.len() - 1]),
        (forall|j: int| 0 <= j < t.len() ==> !is_white(t[j])) || (forall|j: int|
            0 <= j < t.len() ==> is_white(t[j])),
    ensures
        word_count_from(s + t, i, w) == word_count_from(s, i, w),
    decreases s.len() - i,
{
    assert((s + t)[i] == s[i]);
    if i + 1 < s.len() {
        lemma_wcf_append_uniform(
            s,
            t,
            i + 1,
            if is_white(s[i]) {
                false
            } else {
                true
            },
        );
    } else {
        assert(!is_white(s[i]));
        assert(word_count_from(s, i + 1, true) == 1);
        assert forall|j: int| s.len() <= j < (s + t).len() implies (s + t)[j] == t[
            j - s.len()
        ] by {}
        if forall|j: int| 0 <= j < t.len() ==> !is_white(t[j]) {
            lemma_word_count_tail_nonwhite(s + t, i + 1);
        } else {
            lemma_word_count_tail_white(s + t, i + 1, true);
        }
    }
}

/// Appending characters of one kind (all non-whitespace, as the ellipsis
/// marker is, or all whitespace) to a span that ends inside a word does not
/// change its word count.
pub proof fn lemma_word_count_append_uniform(s: Seq<char>, t: Seq<char>)
    requires
        1 <= s.len(),
        !is_white(s[s.len() - 1]),
        (forall|j: int| 0 <= j < t.len() ==> !is_white(t[j])) || (forall|j: int|
            0 <= j < t.len() ==> is_white(t[j])),
    ensures
        word_count(s + t) == word_count(s),
{
    lemma_wcf_append_uniform(s, t, 0, false);
}

/// The ellipsis marker is made of one character, so whichever way the
/// whitespace predicate decides `'.'`, the marker is uniform.
pub proof fn lemma_ellipsis_uniform()
    ensures
        (forall|j: int| 0 <= j < ellipsis_chars().len() ==> !is_white(ellipsis_chars()[j]))
            || (forall|j: int| 0 <= j < ellipsis_chars().len() ==> is_white(ellipsis_chars()[j])),
{
    assert(ellipsis_chars().len() == 3);
    assert(ellipsis_chars()[0] == '.');
    assert(ellipsis_chars()[1] == '.');
    assert(ellipsis_chars()[2] == '.');
    if is_white('.') {
        assert forall|j: int| 0 <= j < ellipsis_chars().len() implies is_white(
            ellipsis_chars()[j],
        ) by {
            assert(ellipsis_chars()[j] == '.');
        }
    } else {
        assert forall|j: int| 0 <= j < ellipsis_chars().len() implies !is_white(
            ellipsis_chars()[j],
        ) by {
            assert(ellipsis_chars()[j] == '.');
        }
    }
}

/// A text span of a markdown document, with an explicit ownership tag:
/// either borrowed from the source (the zero-copy fast path) or an owned
/// copy, the fallback when truncation forces a new allocation.
#[derive(Debug, PartialEq, Eq)]
pub struct TextSpan {
    pub owned: bool,
    pub text: String,
}

/// Mathematical model of a [`TextSpan`]: its ownership tag and characters.
pub struct SpanView {
    pub owned: bool,
    pub chars: Seq<char>,
}

impl View for TextSpan {
    type V = SpanView;

    open spec fn view(&self) -> SpanView {
        SpanView { owned: self.owned, chars: self.text@ }
    }
}

impl Clone for TextSpan {
    fn clone(&self) -> (r: Self)
        ensures
            r == *self,
    {
        TextSpan { owned: self.owned, text: self.text.clone() }
    }
}

/// The literal ellipsis marker appended where a span is cut short.
pub open spec fn ellipsis_chars() -> Seq<char> {
    seq!['.', '.', '.']
}

/// The span that truncation emits for `sp` cut to `cut` characters: the
/// span itself when nothing is cut; otherwise the prefix, with the ellipsis
/// appended (as an owned copy) when the marker is called for, and the bare
/// ellipsis when the prefix is empty.
pub open spec fn trunc_view(sp: SpanView, cut: int, ellipses: bool) -> SpanView {
    if cut == sp.chars.len() {
        sp
    } else if cut == 0 {
        SpanView {
            owned: false,
            chars: if ellipses {
                ellipsis_chars()
            } else {
                Seq::empty()
            },
        }
    } else if ellipses {
        SpanView { owned: true, chars: sp.chars.subrange(0, cut) + ellipsis_chars() }
    } else {
        SpanView { owned: sp.owned, chars: sp.chars.subrange(0, cut) }
    }
}

/// Cuts `span` to its first `cut` characters.  The cut positions produced
/// by word counting are whitespace or span-end positions, so the slice is
/// always well formed.  When `ellipses` is set and the span was shortened,
/// a literal `"..."` is appended and the result becomes owned.
pub fn trunc_span(span: TextSpan, cut: usize, ellipses: bool) -> (r: TextSpan)
    requires
        cut as int <= span.text@.len(),
    ensures
        r@ == trunc_view(span@, cut as int, ellipses),
{
    proof {
        reveal_strlit("...");
        assert("..."@ =~= ellipsis_chars());
    }
    let n = span.text.as_str().unicode_len();
    if cut == n {
        return span;
    }
    if cut == 0 {
        let text = if ellipses {
            String::from_str("...")
        } else {
            String::new()
        };
        proof {
            assert(trunc_view(span@, 0, ellipses).chars =~= text@);
        }
        return TextSpan { owned: false, text };
    }
    let mut text = String::from_str(span.text.as_str().substring_char(0, cut));
    if ellipses {
        text.append("...");
        return TextSpan { owned: true, text };
    }
    TextSpan { owned: span.owned, text }
}

} // verus!
