//! Cursor pagination: an ordered set of posts is paged by a monotonic
//! integer key, newest first, with opaque cursors and next/prev markers.
//!
//! The model is the whole table in descending key order.  A cursor request
//! is answered by one bounded fetch (ascending at the source for `After`
//! pages, then reversed in memory) and two existence probes; the storage
//! collaborator runs the queries, and the functions here decide what to
//! run and assemble the page.

use vstd::prelude::*;
use vstd::math::min;

verus! {

/// A stored blog post, as the engine sees it: plain values only.  The
/// post's date is carried as seconds since the Unix epoch; only the
/// surrounding application turns it into a calendar date.
#[derive(Debug, PartialEq, Eq)]
pub struct Post {
    pub post_id: u32,
    pub title: String,
    pub body: String,
    pub username: String,
    pub post_date: i64,
    pub description: Option<String>,
}

impl Clone for Post {
    fn clone(&self) -> (r: Self)
        ensures
            r == *self,
    {
        Post {
            post_id: self.post_id,
            title: self.title.clone(),
            body: self.body.clone(),
            username: self.username.clone(),
            post_date: self.post_date,
            description: match &self.description {
                Option::Some(d) => Option::Some(d.clone()),
                Option::None => Option::None,
            },
        }
    }
}

/// A cursor request, as it arrives from the query string: at most one of
/// the two bounds drives the page.
pub struct CursorQuery {
    pub before: Option<u32>,
    pub after: Option<u32>,
}

impl Default for CursorQuery {
    fn default() -> (q: CursorQuery)
        ensures
            q.before is None && q.after is None,
    {
        CursorQuery { before: Option::None, after: Option::None }
    }
}

/// The direction a cursor request drives: the newest page, the posts
/// before a key (older), or the posts after a key (newer).
#[derive(Clone, Copy, PartialEq, Eq, Structural, Debug)]
pub enum Direction {
    Newest,
    Before(u32),
    After(u32),
}

impl CursorQuery {
    /// `after` wins over `before` when both are given.
    pub open spec fn direction_spec(&self) -> Direction {
        if self.after is Some {
            Direction::After(self.after->0)
        } else if self.before is Some {
            Direction::Before(self.before->0)
        } else {
            Direction::Newest
        }
    }

    /// The direction this request drives; `after` wins over `before`.
    pub fn direction(&self) -> (d: Direction)
        ensures
            d == self.direction_spec(),
    {
        match self.after {
            Option::Some(k) => Direction::After(k),
            Option::None => match self.before {
                Option::Some(k) => Direction::Before(k),
                Option::None => Direction::Newest,
            },
        }
    }
}

/// A page of posts in display order (newest first), with `next` and `prev`
/// markers, each set iff a newer or older post actually exists beyond the
/// page's boundary.
#[derive(Debug, PartialEq, Eq)]
pub struct Page {
    pub items: Vec<Post>,
    pub next: Option<u32>,
    pub prev: Option<u32>,
}

/// The table invariant: posts in strictly descending key order.
pub open spec fn sorted_desc(t: Seq<Post>) -> bool {
    forall|i: int, j: int| 0 <= i < j < t.len() ==> t[i].post_id > t[j].post_id
}

/// The first `p` posts of `t` in table order whose key is below `k`: what
/// the storage returns for a `Before` fetch when `t` is the whole table in
/// descending order.
pub open spec fn fetch_lt(t: Seq<Post>, k: u32, p: nat) -> Seq<Post>
    decreases t.len(),
{
    if t.len() == 0 || p == 0 {
        Seq::empty()
    } else if t[0].post_id < k {
        seq![t[0]] + fetch_lt(t.drop_first(), k, (p - 1) as nat)
    } else {
        fetch_lt(t.drop_first(), k, p)
    }
}

/// The first `p` posts of `t` in table order: the unbounded (newest) fetch.
pub open spec fn fetch_front(t: Seq<Post>, p: nat) -> Seq<Post> {
    t.take(min(p as int, t.len() as int))
}

/// The first `p` posts with key above `k` of an ascending table: what the
/// storage returns for an `After` fetch, which queries ascending at the
/// source.
pub open spec fn fetch_gt_asc(t_asc: Seq<Post>, k: u32, p: nat) -> Seq<Post>
    decreases t_asc.len(),
{
    if t_asc.len() == 0 || p == 0 {
        Seq::empty()
    } else if t_asc[0].post_id > k {
        seq![t_asc[0]] + fetch_gt_asc(t_asc.drop_first(), k, (p - 1) as nat)
    } else {
        fetch_gt_asc(t_asc.drop_first(), k, p)
    }
}

/// What the storage hands back, in source order, for a request.
pub open spec fn source_fetch(t: Seq<Post>, dir: Direction, p: nat) -> Seq<Post> {
    match dir {
        Direction::Newest => fetch_front(t, p),
        Direction::Before(k) => fetch_lt(t, k, p),
        Direction::After(k) => fetch_gt_asc(t.reverse(), k, p),
    }
}

/// The page items in display order: an `After` fetch arrives ascending and
/// is reversed in memory; the others arrive descending already.
pub open spec fn display_items(t: Seq<Post>, dir: Direction, p: nat) -> Seq<Post> {
    match dir {
        Direction::After(_) => source_fetch(t, dir, p).reverse(),
        _ => source_fetch(t, dir, p),
    }
}

/// Whether some post of `t` has a key below `k`.
pub open spec fn exists_lt(t: Seq<Post>, k: u32) -> bool {
    exists|i: int| 0 <= i < t.len() && t[i].post_id < k
}

/// Whether some post of `t` has a key above `k`.
pub open spec fn exists_gt(t: Seq<Post>, k: u32) -> bool {
    exists|i: int| 0 <= i < t.len() && t[i].post_id > k
}

/// The page for a request over the whole table `t`: the items in display
/// order; `next` set to the newest displayed key iff a newer post exists;
/// `prev` set to the oldest displayed key iff an older post exists; an
/// empty page has neither marker.
pub open spec fn page_model(t: Seq<Post>, dir: Direction, p: nat) -> (Seq<Post>, Option<u32>, Option<
    u32,
>) {
    let items = display_items(t, dir, p);
    let nxt = if items.len() > 0 && exists_gt(t, items[0].post_id) {
        Option::Some(items[0].post_id)
    } else {
        Option::<u32>::None
    };
    let prv = if items.len() > 0 && exists_lt(t, items.last().post_id) {
        Option::Some(items.last().post_id)
    } else {
        Option::<u32>::None
    };
    (items, nxt, prv)
}

proof fn lemma_exists_lt_sorted(t: Seq<Post>, k: u32)
    requires
        sorted_desc(t),
    ensures
        exists_lt(t, k) <==> (t.len() > 0 && t[t.len() - 1].post_id < k),
{
    if t.len() > 0 && t[t.len() - 1].post_id < k {
        assert(exists_lt(t, k)) by {
            assert(0 <= t.len() - 1 < t.len() && t[t.len() - 1].post_id < k);
        }
    }
    if exists_lt(t, k) {
        let i = choose|i: int| 0 <= i < t.len() && t[i].post_id < k;
        if i < t.len() - 1 {
            assert(t[t.len() - 1].post_id < t[i].post_id);
        }
    }
}

proof fn lemma_exists_gt_sorted(t: Seq<Post>, k: u32)
    requires
        sorted_desc(t),
    ensures
        exists_gt(t, k) <==> (t.len() > 0 && t[0].post_id > k),
{
    if t.len() > 0 && t[0].post_id > k {
        assert(exists_gt(t, k)) by {
            assert(0 <= 0 < t.len() && t[0].post_id > k);
        }
    }
    if exists_gt(t, k) {
        let i = choose|i: int| 0 <= i < t.len() && t[i].post_id > k;
        if i > 0 {
            assert(t[0].post_id > t[i].post_id);
        }
    }
}

/// Puts a fetched page into display order: an ascending source fetch is
/// reversed in memory, a descending one is already in display order.
pub fn display_order(entries: Vec<Post>, ascending: bool) -> (r: Vec<Post>)
    ensures
        r@ == if ascending {
            entries@.reverse()
        } else {
            entries@
        },
{
    if !ascending {
        return entries;
    }
    let ghost a0 = entries@;
    let mut entries = entries;
    let mut items: Vec<Post> = Vec::new();
    proof {
        assert(a0.take(a0.len() as int) =~= a0);
        assert(a0.skip(a0.len() as int).reverse() =~= Seq::<Post>::empty());
    }
    while entries.len() > 0
        invariant
            entries@.len() <= a0.len(),
            entries@ == a0.take(entries@.len() as int),
            items@ == a0.skip(entries@.len() as int).reverse(),
        decreases entries@.len(),
    {
        let ghost m = entries@.len() as int;
        let last = entries.pop().unwrap();
        proof {
            assert(last == a0[m - 1]);
            assert(a0.take(m).drop_last() =~= a0.take(m - 1));
            assert(a0.skip(m - 1).reverse() =~= a0.skip(m).reverse().push(a0[m - 1]));
        }
        items.push(last);
    }
    proof {
        assert(items@ =~= a0.reverse());
    }
    items
}

/// Finishes a page from the displayed items and the storage's existence
/// probes: `prev` points at the oldest displayed key iff an older post
/// exists, `next` at the newest displayed key iff a newer one exists; an
/// empty page gets neither marker.
pub fn finish_page(items: Vec<Post>, has_prev: bool, has_next: bool) -> (pg: Page)
    ensures
        pg.items@ == items@,
        pg.next == if items@.len() > 0 && has_next {
            Option::Some(items@[0].post_id)
        } else {
            Option::<u32>::None
        },
        pg.prev == if items@.len() > 0 && has_prev {
            Option::Some(items@.last().post_id)
        } else {
            Option::<u32>::None
        },
{
    if items.len() == 0 {
        return Page { items, next: Option::None, prev: Option::None };
    }
    let newest = items[0].post_id;
    let oldest = items[items.len() - 1].post_id;
    Page {
        items,
        next: if has_next {
            Option::Some(newest)
        } else {
            Option::None
        },
        prev: if has_prev {
            Option::Some(oldest)
        } else {
            Option::None
        },
    }
}

/// What the storage collaborator must run for a cursor request: whether
/// the source orders ascending, the exclusive key bounds, and the row
/// limit.
#[derive(Clone, Copy, PartialEq, Eq, Debug)]
pub struct FetchPlan {
    pub ascending: bool,
    pub above: Option<u32>,
    pub below: Option<u32>,
    pub limit: u64,
}

/// The query each direction calls for: `After` pages query ascending above
/// the key and are reversed in memory for display; the others query
/// descending, below the key for `Before` pages.
pub open spec fn plan_spec(dir: Direction, limit: u64) -> FetchPlan {
    match dir {
        Direction::Newest => FetchPlan {
            ascending: false,
            above: Option::None,
            below: Option::None,
            limit,
        },
        Direction::Before(k) => FetchPlan {
            ascending: false,
            above: Option::None,
            below: Option::Some(k),
            limit,
        },
        Direction::After(k) => FetchPlan {
            ascending: true,
            above: Option::Some(k),
            below: Option::None,
            limit,
        },
    }
}

/// Decides the storage query for a cursor request.
pub fn plan_fetch(q: &CursorQuery, page_size: u64) -> (plan: FetchPlan)
    ensures
        plan == plan_spec(q.direction_spec(), page_size),
{
    match q.direction() {
        Direction::Newest => FetchPlan {
            ascending: false,
            above: Option::None,
            below: Option::None,
            limit: page_size,
        },
        Direction::Before(k) => FetchPlan {
            ascending: false,
            above: Option::None,
            below: Option::Some(k),
            limit: page_size,
        },
        Direction::After(k) => FetchPlan {
            ascending: true,
            above: Option::Some(k),
            below: Option::None,
            limit: page_size,
        },
    }
}

/// Decides a storage existence probe from its bounded count query: posts
/// beyond the boundary exist iff the count row came back and is positive.
pub fn probe_found(count: Option<i64>) -> (r: bool)
    ensures
        r == (count is Some && count->0 > 0),
{
    match count {
        Option::Some(c) => c > 0,
        Option::None => false,
    }
}

/// Assembling a page from a faithful storage collaborator yields the page
/// of the model: if the collaborator returned, in source order, exactly
/// the planned fetch over the descending table `t`, and its probes
/// answered whether an older / newer post exists in `t`, then the items in
/// display order and the markers of [`finish_page`] equal [`page_model`].
pub proof fn lemma_assembly_matches_model(
    t: Seq<Post>,
    dir: Direction,
    p: nat,
    fetched: Seq<Post>,
    has_prev: bool,
    has_next: bool,
)
    requires
        fetched == source_fetch(t, dir, p),
        ({
            let items = if dir is After {
                fetched.reverse()
            } else {
                fetched
            };
            &&& (items.len() > 0 ==> has_prev == exists_lt(t, items.last().post_id))
            &&& (items.len() > 0 ==> has_next == exists_gt(t, items[0].post_id))
        }),
    ensures
        ({
            let items = if dir is After {
                fetched.reverse()
            } else {
                fetched
            };
            &&& items == page_model(t, dir, p).0
            &&& (if items.len() > 0 && has_next {
                Option::Some(items[0].post_id)
            } else {
                Option::<u32>::None
            }) == page_model(t, dir, p).1
            &&& (if items.len() > 0 && has_prev {
                Option::Some(items.last().post_id)
            } else {
                Option::<u32>::None
            }) == page_model(t, dir, p).2
        }),
{
}

/// Computes the page for a request from the whole table `posts`, held in
/// memory in descending key order.  This is the reference paginator: the
/// storage-backed path splits the same work into one bounded fetch and two
/// existence probes.
pub fn page_of_posts(posts: &Vec<Post>, dir: &Direction, page_size: usize) -> (pg: Page)
    requires
        sorted_desc(posts@),
    ensures
        pg.items@ == page_model(posts@, *dir, page_size as nat).0,
        pg.next == page_model(posts@, *dir, page_size as nat).1,
        pg.prev == page_model(posts@, *dir, page_size as nat).2,
{
    let items: Vec<Post> = match dir {
        Direction::Newest => {
            let mut fetched: Vec<Post> = Vec::new();
            let mut i: usize = 0;
            while i < posts.len() && fetched.len() < page_size
                invariant
                    i <= posts@.len(),
                    fetched@ =~= posts@.take(i as int),
                    i == fetched@.len(),
                    fetched@.len() <= page_size,
                decreases posts@.len() - i,
            {
                let e = posts[i].clone();
                proof {
                    assert(posts@.take(i as int + 1) =~= posts@.take(i as int).push(posts@[i as int]));
                }
                fetched.push(e);
                i = i + 1;
            }
            proof {
                assert(fetched@ =~= fetch_front(posts@, page_size as nat));
            }
            fetched
        },
        Direction::Before(bound) => {
            let k = *bound;
            let mut fetched: Vec<Post> = Vec::new();
            let mut i: usize = 0;
            proof {
                assert(posts@.skip(0int) =~= posts@);
                assert(Seq::<Post>::empty() + fetch_lt(posts@, k, page_size as nat) =~= fetch_lt(
                    posts@,
                    k,
                    page_size as nat,
                ));
            }
            while i < posts.len() && fetched.len() < page_size
                invariant
                    i <= posts@.len(),
                    fetched@.len() <= page_size,
                    fetch_lt(posts@, k, page_size as nat) == fetched@ + fetch_lt(
                        posts@.skip(i as int),
                        k,
                        (page_size - fetched@.len()) as nat,
                    ),
                decreases posts@.len() - i,
            {
                let ghost rem = posts@.skip(i as int);
                proof {
                    assert(rem[0] == posts@[i as int]);
                    assert(rem.drop_first() =~= posts@.skip(i as int + 1));
                }
                if posts[i].post_id < k {
                    let e = posts[i].clone();
                    proof {
                        assert(fetched@ + (seq![rem[0]] + fetch_lt(
                            rem.drop_first(),
                            k,
                            (page_size - fetched@.len() - 1) as nat,
                        )) =~= (fetched@ + seq![rem[0]]) + fetch_lt(
                            rem.drop_first(),
                            k,
                            (page_size - fetched@.len() - 1) as nat,
                        ));
                        assert(fetched@.push(posts@[i as int]) =~= fetched@ + seq![rem[0]]);
                    }
                    fetched.push(e);
                }
                i = i + 1;
            }
            proof {
                if fetched@.len() == page_size {
                    assert(fetch_lt(posts@.skip(i as int), k, 0nat) =~= Seq::<Post>::empty());
                } else {
                    assert(posts@.skip(i as int) =~= Seq::<Post>::empty());
                }
                assert(fetched@ + Seq::<Post>::empty() =~= fetched@);
            }
            fetched
        },
        Direction::After(bound) => {
            let k = *bound;
            let ghost rev = posts@.reverse();
            let mut asc: Vec<Post> = Vec::new();
            let mut j: usize = posts.len();
            proof {
                assert(rev.skip(0int) =~= rev);
                assert(Seq::<Post>::empty() + fetch_gt_asc(rev, k, page_size as nat)
                    =~= fetch_gt_asc(rev, k, page_size as nat));
            }
            while j > 0 && asc.len() < page_size
                invariant
                    j <= posts@.len(),
                    rev == posts@.reverse(),
                    asc@.len() <= page_size,
                    fetch_gt_asc(rev, k, page_size as nat) == asc@ + fetch_gt_asc(
                        rev.skip(posts@.len() - j),
                        k,
                        (page_size - asc@.len()) as nat,
                    ),
                decreases j,
            {
                let ghost rem = rev.skip(posts@.len() - j);
                proof {
                    assert(rem[0] == rev[posts@.len() - j]);
                    assert(rev[posts@.len() - j] == posts@[j - 1]);
                    assert(rem.drop_first() =~= rev.skip(posts@.len() - (j - 1)));
                }
                if posts[j - 1].post_id > k {
                    let e = posts[j - 1].clone();
                    proof {
                        assert(asc@ + (seq![rem[0]] + fetch_gt_asc(
                            rem.drop_first(),
                            k,
                            (page_size - asc@.len() - 1) as nat,
                        )) =~= (asc@ + seq![rem[0]]) + fetch_gt_asc(
                            rem.drop_first(),
                            k,
                            (page_size - asc@.len() - 1) as nat,
                        ));
                        assert(asc@.push(posts@[j - 1]) =~= asc@ + seq![rem[0]]);
                    }
                    asc.push(e);
                }
                j = j - 1;
            }
            proof {
                if asc@.len() == page_size {
                    assert(fetch_gt_asc(rev.skip(posts@.len() - j), k, 0nat) =~= Seq::<
                        Post,
                    >::empty());
                } else {
                    assert(rev.skip(posts@.len() - j) =~= Seq::<Post>::empty());
                }
                assert(asc@ + Seq::<Post>::empty() =~= asc@);
            }
            display_order(asc, true)
        },
    };
    if items.len() == 0 {
        return Page { items, next: Option::None, prev: Option::None };
    }
    let newest = items[0].post_id;
    let oldest = items[items.len() - 1].post_id;
    proof {
        lemma_exists_gt_sorted(posts@, newest);
        lemma_exists_lt_sorted(posts@, oldest);
    }
    let has_next = posts.len() > 0 && posts[0].post_id > newest;
    let has_prev = posts.len() > 0 && posts[posts.len() - 1].post_id < oldest;
    finish_page(items, has_prev, has_next)
}

proof fn lemma_sorted_drop_first(t: Seq<Post>)
    requires
        sorted_desc(t),
        t.len() > 0,
    ensures
        sorted_desc(t.drop_first()),
{
    assert forall|i: int, j: int| 0 <= i < j < t.drop_first().len() implies t.drop_first()[i].post_id
        > t.drop_first()[j].post_id by {
        assert(t.drop_first()[i] == t[i + 1]);
        assert(t.drop_first()[j] == t[j + 1]);
    }
}

/// Index of the first post of `t` with key below `k`: on a descending
/// table, the posts below `k` are exactly the suffix from here on.
pub open spec fn first_below(t: Seq<Post>, k: u32) -> int
    decreases t.len(),
{
    if t.len() == 0 {
        0int
    } else if t[0].post_id < k {
        0int
    } else {
        1 + first_below(t.drop_first(), k)
    }
}

/// On a descending table, a `Before` fetch is a contiguous run: the first
/// `p` posts of the suffix that starts at the first key below `k`.
pub proof fn lemma_fetch_lt_subrange(t: Seq<Post>, k: u32, p: nat)
    requires
        sorted_desc(t),
    ensures
        0 <= first_below(t, k) <= t.len(),
        fetch_lt(t, k, p) == t.subrange(
            first_below(t, k),
            min(first_below(t, k) + p, t.len() as int),
        ),
    decreases t.len(),
{
    let s = first_below(t, k);
    if t.len() == 0 {
        assert(fetch_lt(t, k, p) =~= t.subrange(0, 0));
    } else if t[0].post_id < k {
        if p == 0 {
            assert(fetch_lt(t, k, p) =~= t.subrange(0, 0));
        } else {
            let rest = t.drop_first();
            lemma_sorted_drop_first(t);
            lemma_fetch_lt_subrange(rest, k, (p - 1) as nat);
            if rest.len() > 0 {
                assert(rest[0] == t[1]);
                assert(rest[0].post_id < k);
            }
            assert(first_below(rest, k) == 0);
            assert(seq![t[0]] + rest.subrange(0, min(p - 1, rest.len() as int)) =~= t.subrange(
                0,
                min(p as int, t.len() as int),
            ));
        }
    } else {
        let rest = t.drop_first();
        lemma_sorted_drop_first(t);
        lemma_fetch_lt_subrange(rest, k, p);
        let s1 = first_below(rest, k);
        assert(rest.subrange(s1, min(s1 + p, rest.len() as int)) =~= t.subrange(
            s1 + 1,
            min(s1 + 1 + p, t.len() as int),
        ));
    }
}

proof fn lemma_first_below_at(t: Seq<Post>, m: int)
    requires
        sorted_desc(t),
        0 <= m < t.len(),
    ensures
        first_below(t, t[m].post_id) == m + 1,
    decreases t.len(),
{
    let k = t[m].post_id;
    assert(!(t[0].post_id < k));
    let rest = t.drop_first();
    if m == 0 {
        if rest.len() > 0 {
            assert(rest[0] == t[1]);
            assert(rest[0].post_id < k);
        }
        assert(first_below(rest, k) == 0);
    } else {
        lemma_sorted_drop_first(t);
        assert(rest[m - 1] == t[m]);
        lemma_first_below_at(rest, m - 1);
    }
}

/// The `j`-th page of the forward traversal: page 0 is the newest page,
/// page `j + 1` is the page before page `j`'s `prev` marker; once the
/// marker is gone the traversal has terminated and the page repeats.
pub open spec fn chain_page(t: Seq<Post>, p: nat, j: nat) -> (Seq<Post>, Option<u32>, Option<u32>)
    decreases j,
{
    if j == 0 {
        page_model(t, Direction::Newest, p)
    } else {
        let prior = chain_page(t, p, (j - 1) as nat);
        match prior.2 {
            Option::Some(k) => page_model(t, Direction::Before(k), p),
            Option::None => prior,
        }
    }
}

/// Pagination coverage: over a table of `N` posts in descending key order,
/// the `j`-th page of the traversal that starts at the newest page and
/// follows `prev` markers is exactly the `j`-th chunk of `p` posts, and
/// its `prev` marker is set iff posts remain beyond it.  The chunks are
/// disjoint and exhaust the table, so the traversal visits every post
/// exactly once and terminates after ⌈N/p⌉ pages.
pub proof fn lemma_pagination_coverage(t: Seq<Post>, p: nat, j: nat)
    requires
        sorted_desc(t),
        1 <= p,
        j == 0 || j * p < t.len(),
    ensures
        chain_page(t, p, j).0 == t.subrange(
            (j * p) as int,
            min((j * p + p) as int, t.len() as int),
        ),
        (chain_page(t, p, j).2 is Some) <==> ((j * p + p) as int) < t.len(),
        chain_page(t, p, j).2 is Some ==> chain_page(t, p, j).2->0 == t[min(
            (j * p + p) as int,
            t.len() as int,
        ) - 1].post_id,
    decreases j,
{
    if j == 0 {
        let items = display_items(t, Direction::Newest, p);
        assert(items =~= t.subrange(0, min(p as int, t.len() as int)));
        if t.len() > 0 {
            let m = min(p as int, t.len() as int);
            assert(items.last() == t[m - 1]);
            lemma_exists_lt_sorted(t, t[m - 1].post_id);
            if m < t.len() {
                assert(t[t.len() - 1].post_id < t[m - 1].post_id);
            }
        }
    } else {
        assert((j - 1) * p == j * p - p) by (nonlinear_arith);
        lemma_pagination_coverage(t, p, (j - 1) as nat);
        let prior = chain_page(t, p, (j - 1) as nat);
        let start = (j * p) as int;
        assert(prior.2 is Some);
        let k = prior.2->0;
        assert(k == t[start - 1].post_id);
        lemma_first_below_at(t, start - 1);
        lemma_fetch_lt_subrange(t, k, p);
        let items = display_items(t, Direction::Before(k), p);
        assert(items == t.subrange(start, min(start + p, t.len() as int)));
        let m = min(start + p, t.len() as int);
        assert(items.len() == m - start);
        assert(items.last() == t[m - 1]);
        lemma_exists_lt_sorted(t, t[m - 1].post_id);
        if m < t.len() {
            assert(t[t.len() - 1].post_id < t[m - 1].post_id);
        }
    }
}

/// Every post is visited exactly once by the traversal: post `i` of the
/// table appears on page `i / p`, at offset `i % p`, and nowhere else,
/// the pages being disjoint chunks.
pub proof fn lemma_chain_visits_each(t: Seq<Post>, p: nat, i: int)
    requires
        sorted_desc(t),
        1 <= p,
        0 <= i < t.len(),
    ensures
        chain_page(t, p, (i / p as int) as nat).0[i % p as int] == t[i],
{
    let d = p as int;
    let j = i / d;
    vstd::arithmetic::div_mod::lemma_fundamental_div_mod(i, d);
    vstd::arithmetic::div_mod::lemma_mod_bound(i, d);
    vstd::arithmetic::div_mod::lemma_div_pos_is_pos(i, d);
    assert(j * d == d * j) by (nonlinear_arith);
    assert((j as nat) * p == j * d);
    lemma_pagination_coverage(t, p, j as nat);
    assert(chain_page(t, p, j as nat).0[i % d] == t[j * d + i % d]);
}

proof fn lemma_fetch_lt_empty(t: Seq<Post>, k: u32, p: nat)
    requires
        forall|i: int| 0 <= i < t.len() ==> t[i].post_id >= k,
    ensures
        fetch_lt(t, k, p) == Seq::<Post>::empty(),
    decreases t.len(),
{
    if t.len() > 0 && p > 0 {
        assert forall|i: int| 0 <= i < t.drop_first().len() implies t.drop_first()[i].post_id
            >= k by {
            assert(t.drop_first()[i] == t[i + 1]);
        }
        lemma_fetch_lt_empty(t.drop_first(), k, p);
    }
}

/// Boundary: a `Before` page at or below the table's smallest key is an
/// empty page with no `next` and no `prev` marker.
pub proof fn lemma_before_min_boundary(t: Seq<Post>, k: u32, p: nat)
    requires
        forall|i: int| 0 <= i < t.len() ==> t[i].post_id >= k,
    ensures
        page_model(t, Direction::Before(k), p).0 == Seq::<Post>::empty(),
        page_model(t, Direction::Before(k), p).1 is None,
        page_model(t, Direction::Before(k), p).2 is None,
{
    lemma_fetch_lt_empty(t, k, p);
}

} // verus!
