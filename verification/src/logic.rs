//! Picking random videos: the decisions of a search loop that asks a backend for pages
//! of results at random sort orders and offsets until it has enough distinct videos.
//!
//! The loop itself awaits the backend, so it runs outside; [`VideoCollector`] decides,
//! after each page, which search comes next or what the result is. Its decisions take
//! the chance values (sort fields, directions, offsets, shuffle orders) as arguments;
//! `draw_for_start` and `draw_for_page` draw them through the `rand` crate.

use vstd::prelude::*;

use rand::seq::SliceRandom;
use rand::rngs::StdRng;
use rand::RngExt;

verus! {

/// The most searches one collection sends.
pub const MAX_SEARCH_REQUESTS: usize = 10;

/// The number of matching videos assumed before the first page reports it.
pub const INITIAL_TOTAL_COUNT: usize = 1600;

/// The most results the backend returns in one page.
pub const SNAPSHOT_PAGE_LIMIT: usize = 100;

/// The largest offset a random search asks for.
pub const MAX_RANDOM_OFFSET: usize = 100000;

/// The order of a search.
#[derive(Debug, Clone, Copy, PartialEq, Eq, Structural)]
pub enum SortDirection {
    Asc,
    Desc,
}

#[verifier::external_type_specification]
#[verifier::external_body]
pub struct ExStdRng(StdRng);

/// Calls `RngExt::random_range` of the `rand` crate with the range `0..=max`, which it
/// documents as returning a value drawn from that range; which one is left to chance.
#[verifier::external_body]
fn random_up_to(rng: &mut StdRng, max: usize) -> (r: usize)
    ensures
        r <= max,
{
    rng.random_range(0..=max)
}

/// Calls `SliceRandom::shuffle` of the `rand` crate, which it documents as putting the
/// items in a random order: the result is a permutation of the items, which one is left
/// to chance.
#[verifier::external_body]
fn shuffle<T>(rng: &mut StdRng, items: &mut Vec<T>)
    ensures
        is_permutation(old(items)@, final(items)@),
{
    items.as_mut_slice().shuffle(rng)
}

/// Whether `b` holds the items of `a` in some order.
pub open spec fn is_permutation<T>(a: Seq<T>, b: Seq<T>) -> bool {
    exists|p: Seq<int>|
        {
            &&& #[trigger] p.len() == a.len()
            &&& b.len() == a.len()
            &&& forall|i: int| 0 <= i < p.len() ==> 0 <= #[trigger] p[i] < a.len()
            &&& forall|i: int, j: int| 0 <= i < j < p.len() ==> p[i] != p[j]
            &&& forall|i: int| 0 <= i < b.len() ==> b[i] == a[#[trigger] p[i]]
        }
}

/// The direction a draw stands for: ascending for `0`, descending otherwise.
pub open spec fn direction_of(d: usize) -> SortDirection {
    if d == 0 {
        SortDirection::Asc
    } else {
        SortDirection::Desc
    }
}

impl SortDirection {
    /// The direction a draw of `0` or `1` stands for: ascending for `0`, descending for
    /// `1`.
    pub fn from_draw(d: usize) -> (r: SortDirection)
        requires
            d <= 1,
        ensures
            r == direction_of(d),
    {
        if d == 0 {
            SortDirection::Asc
        } else {
            SortDirection::Desc
        }
    }
}

/// A page of search results and the number of all matching videos.
#[derive(Debug, Clone, PartialEq, Eq)]
pub struct SearchPage<R> {
    pub total_count: usize,
    pub result: Vec<R>,
}

/// Something with a content identifier, by which results are told apart.
pub trait ContentId {
    /// The content identifier.
    spec fn spec_content_id(&self) -> Seq<char>;

    /// The content identifier.
    fn content_id(&self) -> (r: &str)
        ensures
            r@ == self.spec_content_id(),
    ;
}

/// Whether no two items share a content identifier.
pub open spec fn distinct_ids<R: ContentId>(items: Seq<R>) -> bool {
    forall|a: int, b: int|
        0 <= a < b < items.len() ==> (#[trigger] items[a]).spec_content_id() != (
        #[trigger] items[b]).spec_content_id()
}

/// A search to send: which of the sort fields, which order, how many results and from
/// which offset.
#[derive(Debug, Clone, Copy, PartialEq, Eq, Structural)]
pub struct SearchRequest {
    pub sort_index: usize,
    pub direction: SortDirection,
    pub limit: usize,
    pub offset: usize,
}

/// The chance values that the step after a page uses: those of the next search, the
/// order in which to shuffle the page or the result, and, after the last search, the
/// order in which to shuffle the result.
#[derive(Debug)]
pub struct PageDraws {
    pub search: SearchDraw,
    pub order: Vec<usize>,
    pub final_order: Vec<usize>,
}

/// What to do next: send a search and hand its page back, or take the result.
pub enum CollectStep<R> {
    Search(SearchRequest),
    Done(Vec<R>),
}

/// Where a collection stands.
#[derive(Debug, Clone, Copy, PartialEq, Eq, Structural)]
pub enum CollectPhase {
    /// A random search is out.
    Random,
    /// So few videos match that one search fetches them; it is out.
    Shortcut,
    /// The random searches are used up; the last search is out.
    Last,
    /// The result has been handed out.
    Finished,
}

/// `⌈a / b⌉` for a positive `b`, as `usize::div_ceil` computes it.
pub open spec fn div_ceil(a: int, b: int) -> int {
    a / b + if a % b > 0 {
        1int
    } else {
        0int
    }
}

/// The page size of a random search: enough to finish in the searches that are left
/// with some margin, at least three (or the page limit if lower) and at most the page
/// limit or the number of matching videos.
pub open spec fn random_limit(remaining: int, remaining_requests: int, total_count: int) -> int {
    let max_limit = if total_count < 1 {
        1
    } else if total_count < SNAPSHOT_PAGE_LIMIT {
        total_count
    } else {
        SNAPSHOT_PAGE_LIMIT as int
    };
    let min_limit = if max_limit < 3 {
        max_limit
    } else {
        3
    };
    let wanted = div_ceil(remaining * 3, (if remaining_requests < 1 {
        1
    } else {
        remaining_requests
    }) * 2);
    if wanted < min_limit {
        min_limit
    } else if wanted > max_limit {
        max_limit
    } else {
        wanted
    }
}

/// The largest offset of a random search.
pub open spec fn random_max_offset(total_count: int, limit: int) -> int {
    let room = if total_count > limit {
        total_count - limit
    } else {
        0
    };
    if room < MAX_RANDOM_OFFSET {
        room
    } else {
        MAX_RANDOM_OFFSET as int
    }
}

/// The page size of a search that fetches everything left at once.
pub open spec fn final_limit(count: int, total_count: int) -> int {
    let a = if count < total_count {
        count
    } else {
        total_count
    };
    if a < SNAPSHOT_PAGE_LIMIT {
        a
    } else {
        SNAPSHOT_PAGE_LIMIT as int
    }
}

/// The largest offset of a search that fetches everything left at once.
pub open spec fn final_max_offset(total_count: int, limit: int) -> int {
    if total_count > limit {
        total_count - limit
    } else {
        0
    }
}

/// Whether `order` lists each index below `n` exactly once.
pub open spec fn index_permutation(order: Seq<usize>, n: nat) -> bool {
    &&& order.len() == n
    &&& forall|i: int| 0 <= i < order.len() ==> #[trigger] order[i] < n
    &&& forall|i: int, j: int| 0 <= i < j < order.len() ==> order[i] != order[j]
}

/// The items in the given order: the `i`th is the item at index `order[i]`.
pub open spec fn apply_order<T>(order: Seq<usize>, items: Seq<T>) -> Seq<T> {
    Seq::new(order.len(), |i: int| items[order[i] as int])
}

/// Putting items in an order that lists each index once reorders them.
pub proof fn lemma_apply_order_permutation<T>(order: Seq<usize>, items: Seq<T>)
    requires
        index_permutation(order, items.len()),
    ensures
        is_permutation(items, apply_order(order, items)),
{
    let b = apply_order(order, items);
    let p = Seq::new(order.len(), |i: int| order[i] as int);
    assert(p.len() == items.len());
    assert(forall|i: int| 0 <= i < p.len() ==> 0 <= #[trigger] p[i] < items.len());
    assert(forall|i: int, j: int| 0 <= i < j < p.len() ==> p[i] != p[j]);
    assert(forall|i: int| 0 <= i < b.len() ==> b[i] == items[#[trigger] p[i]]);
}

/// The indices below `n` in increasing order.
fn identity_order(n: usize) -> (r: Vec<usize>)
    ensures
        index_permutation(r@, n as nat),
        forall|i: int| 0 <= i < n ==> #[trigger] r@[i] == i,
{
    let mut r: Vec<usize> = Vec::new();
    let mut i: usize = 0;
    while i < n
        invariant
            i <= n,
            r@.len() == i,
            forall|k: int| 0 <= k < i ==> #[trigger] r@[k] == k,
        decreases n - i,
    {
        r.push(i);
        i += 1;
    }
    r
}

/// The items in the increasing order of their indices are the items.
proof fn lemma_apply_identity<T>(order: Seq<usize>, items: Seq<T>)
    requires
        order.len() == items.len(),
        forall|i: int| 0 <= i < order.len() ==> #[trigger] order[i] == i,
    ensures
        apply_order(order, items) == items,
{
    assert(apply_order(order, items) =~= items);
}

/// Puts the items in the given order.
pub fn reorder<T>(items: Vec<T>, order: &Vec<usize>) -> (r: Vec<T>)
    requires
        index_permutation(order@, items@.len()),
    ensures
        r@ == apply_order(order@, items@),
{
    let ghost orig = items@;
    let n = items.len();
    let mut items = items;
    let mut slots: Vec<Option<T>> = Vec::new();
    while items.len() > 0
        invariant
            slots@.len() + items@.len() == n,
            orig.len() == n,
            items@ == orig.skip(slots@.len() as int),
            forall|k: int| 0 <= k < slots@.len() ==> #[trigger] slots@[k] == Some(orig[k]),
        decreases items.len(),
    {
        let ghost before = items@;
        let x = items.remove(0);
        assert(x == orig[slots@.len() as int]);
        slots.push(Some(x));
        assert(items@ =~= orig.skip(slots@.len() as int));
    }
    let mut r: Vec<T> = Vec::new();
    let mut i: usize = 0;
    while i < n
        invariant
            i <= n,
            slots@.len() == n,
            orig.len() == n,
            index_permutation(order@, n as nat),
            r@ == apply_order(order@.take(i as int), orig),
            forall|k: int|
                0 <= k < n ==> #[trigger] slots@[k] == if order@.take(i as int).contains(k as usize) {
                    None
                } else {
                    Some(orig[k])
                },
        decreases n - i,
    {
        let k = order[i];
        assert(!order@.take(i as int).contains(k)) by {
            if order@.take(i as int).contains(k) {
                let j = choose|j: int| 0 <= j < i && order@.take(i as int)[j] == k;
                assert(order@[j] == order@[i as int]);
            }
        }
        let x = slots[k].take();
        assert(order@.take(i + 1) =~= order@.take(i as int).push(k));
        match x {
            Some(v) => {
                r.push(v);
            },
            None => {
                assert(false);
            },
        }
        assert forall|m: int| 0 <= m < n implies #[trigger] slots@[m] == if order@.take(i + 1).contains(
            m as usize,
        ) {
            None
        } else {
            Some(orig[m])
        } by {
            if m != k {
                assert(order@.take(i + 1).contains(m as usize) == order@.take(i as int).contains(m as usize));
            } else {
                assert(order@.take(i + 1)[i as int] == k);
            }
        }
        assert(r@ =~= apply_order(order@.take(i + 1), orig));
        i += 1;
    }
    assert(order@.take(n as int) =~= order@);
    r
}

/// Draws an order of `n` indices at random, through the `rand` crate's shuffle of the
/// indices in increasing order; which order is left to chance.
pub fn draw_order(rng: &mut StdRng, n: usize) -> (r: Vec<usize>)
    ensures
        index_permutation(r@, n as nat),
{
    let mut r = identity_order(n);
    let ghost id = r@;
    shuffle(rng, &mut r);
    proof {
        let p = choose|p: Seq<int>|
            {
                &&& #[trigger] p.len() == id.len()
                &&& r@.len() == id.len()
                &&& forall|i: int| 0 <= i < p.len() ==> 0 <= #[trigger] p[i] < id.len()
                &&& forall|i: int, j: int| 0 <= i < j < p.len() ==> p[i] != p[j]
                &&& forall|i: int| 0 <= i < r@.len() ==> r@[i] == id[#[trigger] p[i]]
            };
        assert forall|i: int| 0 <= i < r@.len() implies #[trigger] r@[i] < n by {
            assert(r@[i] == id[p[i]]);
        }
        assert forall|i: int, j: int| 0 <= i < j < r@.len() implies r@[i] != r@[j] by {
            assert(r@[i] == id[p[i]]);
            assert(r@[j] == id[p[j]]);
        }
    }
    r
}

/// The chance values of one search: which sort field, which direction (`0` ascending,
/// `1` descending) and which offset.
#[derive(Debug, Clone, Copy, PartialEq, Eq, Structural)]
pub struct SearchDraw {
    pub sort_index: usize,
    pub direction: usize,
    pub offset: usize,
}

/// Whether a search draw lies within its ranges: a sort field below `sort_field_count`,
/// a direction of `0` or `1`, an offset of at most `max_offset`.
pub open spec fn search_draw_fits(d: SearchDraw, sort_field_count: usize, max_offset: int) -> bool {
    &&& d.sort_index < sort_field_count
    &&& d.direction <= 1
    &&& d.offset <= max_offset
}

/// The search that a draw makes with the given page size.
pub open spec fn search_of(d: SearchDraw, limit: int) -> SearchRequest {
    SearchRequest {
        sort_index: d.sort_index,
        direction: direction_of(d.direction),
        limit: limit as usize,
        offset: d.offset,
    }
}

/// Draws a sort field, a direction and an offset at random, in that order, through the
/// `rand` crate; which values is left to chance.
pub fn draw_search(rng: &mut StdRng, sort_field_count: usize, max_offset: usize) -> (d: SearchDraw)
    requires
        sort_field_count > 0,
    ensures
        search_draw_fits(d, sort_field_count, max_offset as int),
{
    let sort_index = random_up_to(rng, sort_field_count - 1);
    let direction = random_up_to(rng, 1);
    let offset = random_up_to(rng, max_offset);
    SearchDraw { sort_index, direction, offset }
}

/// The page size and largest offset of a random search.
pub fn random_plan(remaining: usize, remaining_requests: usize, total_count: usize) -> (r: (usize, usize))
    requires
        remaining <= usize::MAX / 3,
        remaining_requests < MAX_SEARCH_REQUESTS,
    ensures
        r.0 == random_limit(remaining as int, remaining_requests as int, total_count as int),
        r.1 == random_max_offset(total_count as int, r.0 as int),
{
    let max_limit = if total_count < 1 {
        1
    } else if total_count < SNAPSHOT_PAGE_LIMIT {
        total_count
    } else {
        SNAPSHOT_PAGE_LIMIT
    };
    let min_limit = if max_limit < 3 {
        max_limit
    } else {
        3
    };
    let divisor = (if remaining_requests < 1 {
        1
    } else {
        remaining_requests
    }) * 2;
    let scaled = remaining * 3;
    assert(scaled / divisor < usize::MAX) by (nonlinear_arith)
        requires
            divisor >= 2,
            scaled <= usize::MAX,
    ;
    let wanted = scaled / divisor + if scaled % divisor > 0 {
        1
    } else {
        0
    };
    assert(wanted == div_ceil(
        remaining * 3,
        (if remaining_requests < 1 {
            1
        } else {
            remaining_requests as int
        }) * 2,
    ));
    let limit = if wanted < min_limit {
        min_limit
    } else if wanted > max_limit {
        max_limit
    } else {
        wanted
    };
    let room = if total_count > limit {
        total_count - limit
    } else {
        0
    };
    let max_offset = if room < MAX_RANDOM_OFFSET {
        room
    } else {
        MAX_RANDOM_OFFSET
    };
    (limit, max_offset)
}

/// The page size and largest offset of a search that fetches everything left at once.
pub fn final_plan(count: usize, total_count: usize) -> (r: (usize, usize))
    ensures
        r.0 == final_limit(count as int, total_count as int),
        r.1 == final_max_offset(total_count as int, r.0 as int),
{
    let a = if count < total_count {
        count
    } else {
        total_count
    };
    let limit = if a < SNAPSHOT_PAGE_LIMIT {
        a
    } else {
        SNAPSHOT_PAGE_LIMIT
    };
    let max_offset = if total_count > limit {
        total_count - limit
    } else {
        0
    };
    (limit, max_offset)
}

/// Whether some item has content identifier `id`.
pub open spec fn has_id<R: ContentId>(items: Seq<R>, id: Seq<char>) -> bool {
    exists|j: int| 0 <= j < items.len() && (#[trigger] items[j]).spec_content_id() == id
}

/// Adding the items of a page, in order, to the collected ones: an item whose content
/// identifier is already there is skipped, and adding stops once `count` are collected.
pub open spec fn dedup_extend<R: ContentId>(acc: Seq<R>, page: Seq<R>, count: nat) -> Seq<R>
    decreases page.len(),
{
    if page.len() == 0 || acc.len() >= count {
        acc
    } else {
        let next = if has_id(acc, page[0].spec_content_id()) {
            acc
        } else {
            acc.push(page[0])
        };
        dedup_extend(next, page.drop_first(), count)
    }
}

/// The first `count` items, or all of them when there are fewer.
pub open spec fn truncated<R>(items: Seq<R>, count: nat) -> Seq<R> {
    if items.len() <= count {
        items
    } else {
        items.take(count as int)
    }
}

/// Reordering keeps content identifiers distinct.
proof fn lemma_permutation_keeps_distinct_ids<R: ContentId>(a: Seq<R>, b: Seq<R>)
    requires
        is_permutation(a, b),
        distinct_ids(a),
    ensures
        distinct_ids(b),
        b.len() == a.len(),
{
    let p = choose|p: Seq<int>|
        {
            &&& #[trigger] p.len() == a.len()
            &&& b.len() == a.len()
            &&& forall|i: int| 0 <= i < p.len() ==> 0 <= #[trigger] p[i] < a.len()
            &&& forall|i: int, j: int| 0 <= i < j < p.len() ==> p[i] != p[j]
            &&& forall|i: int| 0 <= i < b.len() ==> b[i] == a[#[trigger] p[i]]
        };
    assert forall|x: int, y: int| 0 <= x < y < b.len() implies (#[trigger] b[x]).spec_content_id()
        != (#[trigger] b[y]).spec_content_id() by {
        assert(b[x] == a[p[x]]);
        assert(b[y] == a[p[y]]);
        if p[x] < p[y] {
            assert(a[p[x]].spec_content_id() != a[p[y]].spec_content_id());
        } else {
            assert(a[p[y]].spec_content_id() != a[p[x]].spec_content_id());
        }
    }
}

/// Keeping a prefix keeps content identifiers distinct.
proof fn lemma_truncated_keeps_distinct_ids<R: ContentId>(a: Seq<R>, count: nat)
    requires
        distinct_ids(a),
    ensures
        distinct_ids(truncated(a, count)),
        truncated(a, count).len() <= count || truncated(a, count) == a,
{
    let t = truncated(a, count);
    assert forall|x: int, y: int| 0 <= x < y < t.len() implies (#[trigger] t[x]).spec_content_id()
        != (#[trigger] t[y]).spec_content_id() by {
        assert(t[x] == a[x]);
        assert(t[y] == a[y]);
    }
}

/// How many items of `page` carry an identifier that `acc` holds.
pub open spec fn known_count<R: ContentId>(acc: Seq<R>, page: Seq<R>) -> nat
    decreases page.len(),
{
    if page.len() == 0 {
        0
    } else {
        known_count(acc, page.drop_last()) + if has_id(acc, page.last().spec_content_id()) {
            1nat
        } else {
            0nat
        }
    }
}

/// How many items of `page` carry identifier `id`.
pub open spec fn id_count<R: ContentId>(page: Seq<R>, id: Seq<char>) -> nat
    decreases page.len(),
{
    if page.len() == 0 {
        0
    } else {
        id_count(page.drop_last(), id) + if page.last().spec_content_id() == id {
            1nat
        } else {
            0nat
        }
    }
}

proof fn lemma_distinct_prefix<R: ContentId>(page: Seq<R>)
    requires
        distinct_ids(page),
        page.len() > 0,
    ensures
        distinct_ids(page.drop_last()),
        !has_id(page.drop_last(), page.last().spec_content_id()),
{
    let w = page.drop_last();
    assert forall|a: int, b: int| 0 <= a < b < w.len() implies (#[trigger] w[a]).spec_content_id() != (
    #[trigger] w[b]).spec_content_id() by {
        assert(w[a] == page[a]);
        assert(w[b] == page[b]);
    }
    if has_id(w, page.last().spec_content_id()) {
        let j = choose|j: int| 0 <= j < w.len() && (#[trigger] w[j]).spec_content_id() == page.last().spec_content_id();
        assert(w[j] == page[j]);
        assert(page[j].spec_content_id() != page[page.len() - 1].spec_content_id());
    }
}

proof fn lemma_id_count_absent<R: ContentId>(page: Seq<R>, id: Seq<char>)
    requires
        !has_id(page, id),
    ensures
        id_count(page, id) == 0,
    decreases page.len(),
{
    if page.len() > 0 {
        let w = page.drop_last();
        if has_id(w, id) {
            let j = choose|j: int| 0 <= j < w.len() && (#[trigger] w[j]).spec_content_id() == id;
            assert(w[j] == page[j]);
        }
        lemma_id_count_absent(w, id);
        assert(page.last() == page[page.len() - 1]);
    }
}

/// A list with distinct identifiers holds each identifier at most once.
proof fn lemma_id_count_at_most_one<R: ContentId>(page: Seq<R>, id: Seq<char>)
    requires
        distinct_ids(page),
    ensures
        id_count(page, id) <= 1,
    decreases page.len(),
{
    if page.len() > 0 {
        let w = page.drop_last();
        lemma_distinct_prefix(page);
        if page.last().spec_content_id() == id {
            lemma_id_count_absent(w, id);
        } else {
            lemma_id_count_at_most_one(w, id);
        }
    }
}

/// One more collected item makes as many more items of the page known as carry its
/// identifier.
proof fn lemma_known_count_push<R: ContentId>(acc: Seq<R>, a: R, page: Seq<R>)
    requires
        !has_id(acc, a.spec_content_id()),
    ensures
        known_count(acc.push(a), page) == known_count(acc, page) + id_count(page, a.spec_content_id()),
    decreases page.len(),
{
    if page.len() > 0 {
        let w = page.drop_last();
        lemma_known_count_push(acc, a, w);
        let id = page.last().spec_content_id();
        let longer = acc.push(a);
        if has_id(longer, id) {
            let j = choose|j: int| 0 <= j < longer.len() && (#[trigger] longer[j]).spec_content_id() == id;
            if j < acc.len() {
                assert(longer[j] == acc[j]);
            }
        }
        if has_id(acc, id) {
            let j = choose|j: int| 0 <= j < acc.len() && (#[trigger] acc[j]).spec_content_id() == id;
            assert(longer[j] == acc[j]);
        }
        if id == a.spec_content_id() {
            assert(longer[acc.len() as int] == a);
        }
    }
}

/// At most as many items of a page with distinct identifiers are known as are collected.
proof fn lemma_known_count_bound<R: ContentId>(acc: Seq<R>, page: Seq<R>)
    requires
        distinct_ids(acc),
        distinct_ids(page),
    ensures
        known_count(acc, page) <= acc.len(),
    decreases acc.len(),
{
    if acc.len() == 0 {
        lemma_known_count_empty(acc, page);
    } else {
        let w = acc.drop_last();
        lemma_distinct_prefix(acc);
        lemma_known_count_bound(w, page);
        assert(w.push(acc.last()) == acc);
        lemma_known_count_push(w, acc.last(), page);
        lemma_id_count_at_most_one(page, acc.last().spec_content_id());
    }
}

proof fn lemma_known_count_empty<R: ContentId>(acc: Seq<R>, page: Seq<R>)
    requires
        acc.len() == 0,
    ensures
        known_count(acc, page) == 0,
    decreases page.len(),
{
    if page.len() > 0 {
        lemma_known_count_empty(acc, page.drop_last());
    }
}

/// Known items are never counted past the page.
proof fn lemma_known_count_le_len<R: ContentId>(acc: Seq<R>, page: Seq<R>)
    ensures
        known_count(acc, page) <= page.len(),
    decreases page.len(),
{
    if page.len() > 0 {
        lemma_known_count_le_len(acc, page.drop_last());
    }
}

/// How far a page fills the collected items: adding a page with distinct identifiers
/// to fewer than `count` items collects `count` items, or all of its new ones.
proof fn lemma_dedup_extend_len<R: ContentId>(acc: Seq<R>, page: Seq<R>, count: nat)
    requires
        distinct_ids(page),
        acc.len() < count,
    ensures
        dedup_extend(acc, page, count).len() == if acc.len() + (page.len() - known_count(acc, page))
            < count {
            acc.len() + (page.len() - known_count(acc, page))
        } else {
            count as int
        },
    decreases page.len(),
{
    lemma_known_count_le_len(acc, page);
    if page.len() > 0 {
        let first = page[0];
        let tail = page.drop_first();
        assert forall|a: int, b: int| 0 <= a < b < tail.len() implies (#[trigger] tail[a]).spec_content_id()
            != (#[trigger] tail[b]).spec_content_id() by {
            assert(tail[a] == page[a + 1]);
            assert(tail[b] == page[b + 1]);
        }
        assert(!has_id(tail, first.spec_content_id())) by {
            if has_id(tail, first.spec_content_id()) {
                let j = choose|j: int| 0 <= j < tail.len() && (#[trigger] tail[j]).spec_content_id()
                    == first.spec_content_id();
                assert(tail[j] == page[j + 1]);
            }
        }
        lemma_known_count_front(acc, page);
        lemma_known_count_le_len(acc, tail);
        if has_id(acc, first.spec_content_id()) {
            lemma_dedup_extend_len(acc, tail, count);
        } else {
            let next = acc.push(first);
            lemma_id_count_absent(tail, first.spec_content_id());
            lemma_known_count_push(acc, first, tail);
            if next.len() < count {
                lemma_dedup_extend_len(next, tail, count);
            } else {
                lemma_dedup_extend_stops(next, tail, count);
            }
        }
    }
}

proof fn lemma_dedup_extend_stops<R: ContentId>(acc: Seq<R>, page: Seq<R>, count: nat)
    requires
        acc.len() >= count,
    ensures
        dedup_extend(acc, page, count) == acc,
{
}

/// Counting the known items from the front.
proof fn lemma_known_count_front<R: ContentId>(acc: Seq<R>, page: Seq<R>)
    requires
        page.len() > 0,
    ensures
        known_count(acc, page) == known_count(acc, page.drop_first()) + if has_id(
            acc,
            page[0].spec_content_id(),
        ) {
            1nat
        } else {
            0nat
        },
    decreases page.len(),
{
    if page.len() > 1 {
        let w = page.drop_last();
        let t = page.drop_first();
        lemma_known_count_front(acc, w);
        assert(w.drop_first() == t.drop_last());
        assert(t.last() == page.last());
        assert(w[0] == page[0]);
        assert(known_count(acc, t) == known_count(acc, t.drop_last()) + if has_id(
            acc,
            t.last().spec_content_id(),
        ) {
            1nat
        } else {
            0nat
        });
        assert(known_count(acc, page) == known_count(acc, w) + if has_id(
            acc,
            page.last().spec_content_id(),
        ) {
            1nat
        } else {
            0nat
        });
    } else {
        assert(page.drop_first().len() == 0);
        assert(page.drop_last().len() == 0);
        assert(page.last() == page[0]);
        assert(known_count(acc, page.drop_first()) == 0);
        assert(known_count(acc, page.drop_last()) == 0);
    }
}

/// Adding a page of at least `count` items with distinct identifiers to fewer than
/// `count` collected items with distinct identifiers collects exactly `count` items:
/// the last search of a collection fills it when the search service has enough
/// videos.
pub proof fn lemma_dedup_extend_fills<R: ContentId>(acc: Seq<R>, page: Seq<R>, count: nat)
    requires
        distinct_ids(acc),
        distinct_ids(page),
        acc.len() < count,
        page.len() >= count,
    ensures
        dedup_extend(acc, page, count).len() == count,
{
    lemma_known_count_bound(acc, page);
    lemma_dedup_extend_len(acc, page, count);
}

/// The result of a collection that fetched all matches at once holds as many videos as
/// the page, up to `count`.
pub proof fn lemma_shortcut_len<R>(page: Seq<R>, p: Seq<R>, count: nat)
    requires
        is_permutation(page, p),
    ensures
        truncated(p, count).len() == if page.len() < count {
            page.len()
        } else {
            count
        },
{
}

/// Whether every item carries the identifier of one of `videos`.
pub open spec fn ids_within<R: ContentId>(items: Seq<R>, videos: Seq<R>) -> bool {
    forall|i: int| 0 <= i < items.len() ==> has_id(videos, (#[trigger] items[i]).spec_content_id())
}

/// A list holding an identifier counts it at least once.
proof fn lemma_id_count_present<R: ContentId>(page: Seq<R>, id: Seq<char>)
    requires
        has_id(page, id),
    ensures
        id_count(page, id) >= 1,
    decreases page.len(),
{
    let w = page.drop_last();
    if page.last().spec_content_id() != id {
        let j = choose|j: int| 0 <= j < page.len() && (#[trigger] page[j]).spec_content_id() == id;
        assert(j != page.len() - 1);
        assert(w[j] == page[j]);
        lemma_id_count_present(w, id);
    }
}

/// When every collected identifier is on a page with distinct identifiers, as many items
/// of the page are known as are collected.
proof fn lemma_known_count_all<R: ContentId>(acc: Seq<R>, page: Seq<R>)
    requires
        distinct_ids(acc),
        distinct_ids(page),
        ids_within(acc, page),
    ensures
        known_count(acc, page) == acc.len(),
    decreases acc.len(),
{
    if acc.len() == 0 {
        lemma_known_count_empty(acc, page);
    } else {
        let w = acc.drop_last();
        lemma_distinct_prefix(acc);
        assert forall|i: int| 0 <= i < w.len() implies has_id(page, (#[trigger] w[i]).spec_content_id()) by {
            assert(w[i] == acc[i]);
        }
        lemma_known_count_all(w, page);
        assert(w.push(acc.last()) == acc);
        lemma_known_count_push(w, acc.last(), page);
        assert(acc.last() == acc[acc.len() - 1]);
        lemma_id_count_at_most_one(page, acc.last().spec_content_id());
        lemma_id_count_present(page, acc.last().spec_content_id());
    }
}

/// Items with distinct identifiers, all of them identifiers of `videos`, are no more
/// than the videos.
proof fn lemma_ids_within_len<R: ContentId>(items: Seq<R>, videos: Seq<R>)
    requires
        distinct_ids(items),
        distinct_ids(videos),
        ids_within(items, videos),
    ensures
        items.len() <= videos.len(),
{
    lemma_known_count_all(items, videos);
    lemma_known_count_le_len(items, videos);
}

/// A reordering keeps items within the videos.
proof fn lemma_permutation_within<R: ContentId>(a: Seq<R>, b: Seq<R>, videos: Seq<R>)
    requires
        is_permutation(a, b),
        ids_within(a, videos),
    ensures
        ids_within(b, videos),
{
    let p = choose|p: Seq<int>|
        {
            &&& #[trigger] p.len() == a.len()
            &&& b.len() == a.len()
            &&& forall|i: int| 0 <= i < p.len() ==> 0 <= #[trigger] p[i] < a.len()
            &&& forall|i: int, j: int| 0 <= i < j < p.len() ==> p[i] != p[j]
            &&& forall|i: int| 0 <= i < b.len() ==> b[i] == a[#[trigger] p[i]]
        };
    assert forall|i: int| 0 <= i < b.len() implies has_id(videos, (#[trigger] b[i]).spec_content_id()) by {
        assert(b[i] == a[p[i]]);
    }
}

/// Items that each come from one of the pages are within the videos when every page is.
pub proof fn lemma_from_pages_within<R: ContentId>(items: Seq<R>, pages: Seq<Seq<R>>, videos: Seq<R>)
    requires
        from_pages(items, pages),
        forall|k: int| 0 <= k < pages.len() ==> ids_within(#[trigger] pages[k], videos),
    ensures
        ids_within(items, videos),
{
    assert forall|i: int| 0 <= i < items.len() implies has_id(videos, (#[trigger] items[i]).spec_content_id()) by {
        assert(in_pages(items[i], pages));
        let k = choose|k: int| 0 <= k < pages.len() && #[trigger] pages[k].contains(items[i]);
        let j = choose|j: int| 0 <= j < pages[k].len() && pages[k][j] == items[i];
        assert(ids_within(pages[k], videos));
        assert(has_id(videos, pages[k][j].spec_content_id()));
    }
}

/// The last search of a collection, against a search service that holds `videos` with
/// distinct identifiers and answers it with as many of them as asked for (the wanted
/// count, or all videos when there are fewer), leaves exactly that many videos: the
/// wanted count, or all videos when there are fewer. The videos collected before come
/// from the same service.
pub proof fn lemma_last_search_len<R: ContentId>(
    videos: Seq<R>,
    acc: Seq<R>,
    page: Seq<R>,
    p1: Seq<R>,
    p2: Seq<R>,
    count: nat,
)
    requires
        distinct_ids(videos),
        distinct_ids(acc),
        ids_within(acc, videos),
        acc.len() < count,
        distinct_ids(page),
        ids_within(page, videos),
        page.len() >= if videos.len() < count {
            videos.len()
        } else {
            count
        },
        is_permutation(page, p1),
        is_permutation(dedup_extend(acc, p1, count), p2),
    ensures
        truncated(p2, count).len() == if videos.len() < count {
            videos.len()
        } else {
            count
        },
{
    lemma_permutation_keeps_distinct_ids(page, p1);
    lemma_permutation_within(page, p1, videos);
    lemma_ids_within_len(p1, videos);
    if videos.len() >= count {
        lemma_dedup_extend_fills(acc, p1, count);
    } else {
        assert forall|i: int| 0 <= i < acc.len() implies has_id(p1, (#[trigger] acc[i]).spec_content_id()) by {
            if !has_id(p1, acc[i].spec_content_id()) {
                let more = p1.push(acc[i]);
                assert forall|a: int, b: int| 0 <= a < b < more.len() implies (
                #[trigger] more[a]).spec_content_id() != (#[trigger] more[b]).spec_content_id() by {
                    assert(more[a] == p1[a]);
                    if b < p1.len() {
                        assert(more[b] == p1[b]);
                    } else {
                        assert(more[b] == acc[i]);
                    }
                }
                assert forall|k: int| 0 <= k < more.len() implies has_id(
                    videos,
                    (#[trigger] more[k]).spec_content_id(),
                ) by {
                    if k < p1.len() {
                        assert(more[k] == p1[k]);
                    } else {
                        assert(more[k] == acc[i]);
                    }
                }
                lemma_ids_within_len(more, videos);
            }
        }
        lemma_known_count_all(acc, p1);
        lemma_dedup_extend_len(acc, p1, count);
    }
}

/// The search that fetches all matches at once, against a search service that holds
/// `videos` with distinct identifiers and answers it with as many of them as asked for,
/// leaves the wanted count of videos, or all videos when there are fewer.
pub proof fn lemma_shortcut_search_len<R: ContentId>(videos: Seq<R>, page: Seq<R>, p: Seq<R>, count: nat)
    requires
        distinct_ids(videos),
        distinct_ids(page),
        ids_within(page, videos),
        page.len() >= if videos.len() < count {
            videos.len()
        } else {
            count
        },
        is_permutation(page, p),
    ensures
        truncated(p, count).len() == if videos.len() < count {
            videos.len()
        } else {
            count
        },
{
    lemma_ids_within_len(page, videos);
    lemma_shortcut_len(page, p, count);
}

/// A random search that completes a collection leaves the wanted count of videos, which
/// the search service, holding `videos` with distinct identifiers, has at least.
pub proof fn lemma_random_search_len<R: ContentId>(videos: Seq<R>, acc: Seq<R>, p: Seq<R>, count: nat)
    requires
        distinct_ids(videos),
        distinct_ids(acc),
        ids_within(acc, videos),
        acc.len() >= count,
        is_permutation(acc, p),
    ensures
        truncated(p, count).len() == count,
        count <= videos.len(),
{
    lemma_ids_within_len(acc, videos);
}

/// Whether `x` is an item of one of the pages.
pub open spec fn in_pages<R>(x: R, pages: Seq<Seq<R>>) -> bool {
    exists|k: int| 0 <= k < pages.len() && #[trigger] pages[k].contains(x)
}

/// Whether every item was an item of one of the pages.
pub open spec fn from_pages<R>(items: Seq<R>, pages: Seq<Seq<R>>) -> bool {
    forall|i: int| 0 <= i < items.len() ==> in_pages(#[trigger] items[i], pages)
}

/// Items taken from earlier pages or from a new page come from the pages with the new
/// one added.
proof fn lemma_from_pages_extend<R>(acc: Seq<R>, items: Seq<R>, pages: Seq<Seq<R>>, page: Seq<R>)
    requires
        from_pages(acc, pages),
        forall|i: int| 0 <= i < items.len() ==> acc.contains(#[trigger] items[i]) || page.contains(items[i]),
    ensures
        from_pages(items, pages.push(page)),
{
    let ps = pages.push(page);
    assert forall|i: int| 0 <= i < items.len() implies in_pages(#[trigger] items[i], ps) by {
        if page.contains(items[i]) {
            assert(ps[pages.len() as int] == page);
        } else {
            let j = choose|j: int| 0 <= j < acc.len() && acc[j] == items[i];
            assert(in_pages(acc[j], pages));
            let k = choose|k: int| 0 <= k < pages.len() && #[trigger] pages[k].contains(acc[j]);
            assert(ps[k] == pages[k]);
        }
    }
}

/// Items from earlier pages still come from the pages when one more is added.
proof fn lemma_from_pages_push<R>(acc: Seq<R>, pages: Seq<Seq<R>>, page: Seq<R>)
    requires
        from_pages(acc, pages),
    ensures
        from_pages(acc, pages.push(page)),
        forall|i: int| 0 <= i < page.len() ==> page.contains(#[trigger] page[i]),
{
    assert forall|i: int| 0 <= i < acc.len() implies acc.contains(#[trigger] acc[i]) || page.contains(acc[i]) by {
        assert(acc[i] == acc[i]);
    }
    lemma_from_pages_extend(acc, acc, pages, page);
    assert forall|i: int| 0 <= i < page.len() implies page.contains(#[trigger] page[i]) by {
        assert(page[i] == page[i]);
    }
}

/// What adding a page collects comes from the collected items or the page.
/// Adding items as [`dedup_extend`] does keeps identifiers distinct.
proof fn lemma_dedup_extend_distinct<R: ContentId>(acc: Seq<R>, page: Seq<R>, count: nat)
    requires
        distinct_ids(acc),
    ensures
        distinct_ids(dedup_extend(acc, page, count)),
    decreases page.len(),
{
    if page.len() > 0 && acc.len() < count {
        let next = if has_id(acc, page[0].spec_content_id()) {
            acc
        } else {
            acc.push(page[0])
        };
        if !has_id(acc, page[0].spec_content_id()) {
            assert forall|a: int, b: int| 0 <= a < b < next.len() implies (#[trigger] next[a]).spec_content_id()
                != (#[trigger] next[b]).spec_content_id() by {
                assert(next[a] == acc[a]);
                if b < acc.len() {
                    assert(next[b] == acc[b]);
                }
            }
        }
        lemma_dedup_extend_distinct(next, page.drop_first(), count);
    }
}

proof fn lemma_dedup_extend_from<R: ContentId>(acc: Seq<R>, page: Seq<R>, count: nat)
    ensures
        forall|i: int|
            0 <= i < dedup_extend(acc, page, count).len() ==> acc.contains(
                #[trigger] dedup_extend(acc, page, count)[i],
            ) || page.contains(dedup_extend(acc, page, count)[i]),
    decreases page.len(),
{
    if page.len() > 0 && acc.len() < count {
        let next = if has_id(acc, page[0].spec_content_id()) {
            acc
        } else {
            acc.push(page[0])
        };
        let tail = page.drop_first();
        lemma_dedup_extend_from(next, tail, count);
        let d = dedup_extend(acc, page, count);
        assert(d == dedup_extend(next, tail, count));
        assert forall|i: int| 0 <= i < d.len() implies acc.contains(#[trigger] d[i]) || page.contains(d[i]) by {
            if next.contains(d[i]) {
                let j = choose|j: int| 0 <= j < next.len() && next[j] == d[i];
                if j < acc.len() {
                    assert(acc[j] == next[j]);
                } else {
                    assert(page[0] == d[i]);
                }
            } else {
                let j = choose|j: int| 0 <= j < tail.len() && tail[j] == d[i];
                assert(page[j + 1] == tail[j]);
            }
        }
    }
}

/// A reordering holds only items of the original.
proof fn lemma_permutation_contains<T>(a: Seq<T>, b: Seq<T>)
    requires
        is_permutation(a, b),
    ensures
        forall|i: int| 0 <= i < b.len() ==> a.contains(#[trigger] b[i]),
{
    let p = choose|p: Seq<int>|
        {
            &&& #[trigger] p.len() == a.len()
            &&& b.len() == a.len()
            &&& forall|i: int| 0 <= i < p.len() ==> 0 <= #[trigger] p[i] < a.len()
            &&& forall|i: int, j: int| 0 <= i < j < p.len() ==> p[i] != p[j]
            &&& forall|i: int| 0 <= i < b.len() ==> b[i] == a[#[trigger] p[i]]
        };
    assert forall|i: int| 0 <= i < b.len() implies a.contains(#[trigger] b[i]) by {
        assert(b[i] == a[p[i]]);
    }
}

/// The result of a finished step, made of a reordering of `acc` cut to `count`, comes
/// from the pages that `acc` came from.
proof fn lemma_truncated_from_pages<R>(acc: Seq<R>, shuffled: Seq<R>, count: nat, pages: Seq<Seq<R>>)
    requires
        from_pages(acc, pages),
        is_permutation(acc, shuffled),
    ensures
        from_pages(truncated(shuffled, count), pages),
{
    lemma_permutation_contains(acc, shuffled);
    let t = truncated(shuffled, count);
    assert forall|i: int| 0 <= i < t.len() implies in_pages(#[trigger] t[i], pages) by {
        assert(t[i] == shuffled[i]);
        assert(acc.contains(shuffled[i]));
        let j = choose|j: int| 0 <= j < acc.len() && acc[j] == shuffled[i];
        assert(in_pages(acc[j], pages));
    }
}

/// The decisions of one collection of `count` random videos.
pub struct VideoCollector<R> {
    count: usize,
    small_total_threshold: usize,
    sort_field_count: usize,
    attempt: usize,
    searches: usize,
    total_count: usize,
    result: Vec<R>,
    phase: CollectPhase,
    pages: Ghost<Seq<Seq<R>>>,
}

impl<R: ContentId> VideoCollector<R> {
    /// The results of the pages handed in so far, in order.
    pub closed spec fn spec_pages(&self) -> Seq<Seq<R>> {
        self.pages@
    }

    /// How many videos are wanted.
    pub closed spec fn spec_count(&self) -> usize {
        self.count
    }

    /// Below how many matching videos one search fetches them all.
    pub closed spec fn spec_small_total_threshold(&self) -> usize {
        self.small_total_threshold
    }

    /// How many sort fields there are to choose from.
    pub closed spec fn spec_sort_field_count(&self) -> usize {
        self.sort_field_count
    }

    /// How many searches have been sent.
    pub closed spec fn spec_searches(&self) -> usize {
        self.searches
    }

    /// Where the collection stands.
    pub closed spec fn spec_phase(&self) -> CollectPhase {
        self.phase
    }

    /// How many random searches have been sent.
    pub closed spec fn spec_attempt(&self) -> usize {
        self.attempt
    }

    /// The number of matching videos that the last page reported.
    pub closed spec fn spec_total_count(&self) -> usize {
        self.total_count
    }

    /// The distinct videos collected so far.
    pub closed spec fn spec_result(&self) -> Seq<R> {
        self.result@
    }

    /// The collector's invariant: at most [`MAX_SEARCH_REQUESTS`] searches, one more than
    /// the pages handed in, and fewer distinct videos than wanted, all from those pages.
    pub closed spec fn wf(&self) -> bool {
        &&& self.searches <= MAX_SEARCH_REQUESTS
        &&& self.attempt < MAX_SEARCH_REQUESTS
        &&& self.count <= usize::MAX / 3
        &&& self.sort_field_count > 0
        &&& self.result.len() < self.count
        &&& distinct_ids(self.result@)
        &&& from_pages(self.result@, self.pages@)
        &&& self.searches == self.pages@.len() + 1
        &&& (self.phase == CollectPhase::Random ==> self.searches == self.attempt + 1
            && self.attempt < MAX_SEARCH_REQUESTS - 1)
        &&& (self.phase == CollectPhase::Shortcut ==> self.attempt < MAX_SEARCH_REQUESTS - 1)
        &&& (self.phase == CollectPhase::Shortcut ==> self.searches == self.attempt + 2)
        &&& (self.phase == CollectPhase::Last ==> self.searches == MAX_SEARCH_REQUESTS
            && self.attempt == MAX_SEARCH_REQUESTS - 1)
    }

    /// While a collection runs, the videos collected so far have distinct identifiers,
    /// are fewer than wanted and come from the pages handed in, and every search sent but
    /// the one outstanding has had its page handed in, at most [`MAX_SEARCH_REQUESTS`]
    /// in all.
    pub proof fn lemma_wf_result(&self)
        requires
            self.wf(),
        ensures
            distinct_ids(self.spec_result()),
            self.spec_result().len() < self.spec_count(),
            from_pages(self.spec_result(), self.spec_pages()),
            self.spec_searches() == self.spec_pages().len() + 1,
            self.spec_searches() <= MAX_SEARCH_REQUESTS,
    {
    }

    /// The random search for the state the collector is in, made of `draw`.
    fn random_search(&self, draw: &SearchDraw) -> (req: SearchRequest)
        requires
            self.wf(),
            search_draw_fits(
                *draw,
                self.sort_field_count,
                random_max_offset(
                    self.total_count as int,
                    random_limit(
                        self.count - self.result.len(),
                        (MAX_SEARCH_REQUESTS - 1) - self.attempt,
                        self.total_count as int,
                    ),
                ),
            ),
        ensures
            req == search_of(
                *draw,
                random_limit(
                    self.count - self.result.len(),
                    (MAX_SEARCH_REQUESTS - 1) - self.attempt,
                    self.total_count as int,
                ),
            ),
    {
        let (limit, _) = random_plan(
            self.count - self.result.len(),
            (MAX_SEARCH_REQUESTS - 1) - self.attempt,
            self.total_count,
        );
        SearchRequest {
            sort_index: draw.sort_index,
            direction: SortDirection::from_draw(draw.direction),
            limit,
            offset: draw.offset,
        }
    }

    /// The search that fetches everything left at once, made of `draw`.
    fn final_search(&self, draw: &SearchDraw) -> (req: SearchRequest)
        requires
            search_draw_fits(
                *draw,
                self.sort_field_count,
                final_max_offset(
                    self.total_count as int,
                    final_limit(self.count as int, self.total_count as int),
                ),
            ),
        ensures
            req == search_of(*draw, final_limit(self.count as int, self.total_count as int)),
    {
        let (limit, _) = final_plan(self.count, self.total_count);
        SearchRequest {
            sort_index: draw.sort_index,
            direction: SortDirection::from_draw(draw.direction),
            limit,
            offset: draw.offset,
        }
    }

    /// Draws the chance values of the first search of a collection of `count` videos:
    /// none when `count` is zero.
    pub fn draw_for_start(count: usize, sort_field_count: usize, rng: &mut StdRng) -> (d: SearchDraw)
        requires
            sort_field_count > 0,
            count <= usize::MAX / 3,
        ensures
            count > 0 ==> search_draw_fits(
                d,
                sort_field_count,
                random_max_offset(
                    INITIAL_TOTAL_COUNT as int,
                    random_limit(count as int, MAX_SEARCH_REQUESTS - 1, INITIAL_TOTAL_COUNT as int),
                ),
            ),
    {
        if count == 0 {
            return SearchDraw { sort_index: 0, direction: 0, offset: 0 };
        }
        let (_, max_offset) = random_plan(count, MAX_SEARCH_REQUESTS - 1, INITIAL_TOTAL_COUNT);
        draw_search(rng, sort_field_count, max_offset)
    }

    /// Starts collecting `count` videos, with `sort_field_count` sort fields to choose
    /// from; the first search is made of `draw`. A first page reporting fewer than
    /// `small_total_threshold` matching videos makes the next search fetch them all at
    /// once.
    pub fn start(count: usize, small_total_threshold: usize, sort_field_count: usize, draw: SearchDraw) -> (r: (
        VideoCollector<R>,
        CollectStep<R>,
    ))
        requires
            sort_field_count > 0,
            count <= usize::MAX / 3,
            count > 0 ==> search_draw_fits(
                draw,
                sort_field_count,
                random_max_offset(
                    INITIAL_TOTAL_COUNT as int,
                    random_limit(count as int, MAX_SEARCH_REQUESTS - 1, INITIAL_TOTAL_COUNT as int),
                ),
            ),
        ensures
            r.0.spec_count() == count,
            r.0.spec_total_count() == INITIAL_TOTAL_COUNT,
            r.0.spec_small_total_threshold() == small_total_threshold,
            r.0.spec_sort_field_count() == sort_field_count,
            r.0.spec_result().len() == 0,
            r.0.spec_pages().len() == 0,
            count == 0 ==> {
                &&& r.0.spec_phase() == CollectPhase::Finished
                &&& r.0.spec_searches() == 0
                &&& r.1 matches CollectStep::Done(v) && v.len() == 0
            },
            count > 0 ==> {
                &&& r.0.wf()
                &&& r.0.spec_phase() == CollectPhase::Random
                &&& r.0.spec_searches() == 1
                &&& r.0.spec_attempt() == 0
                &&& r.1 matches CollectStep::Search(req)
                &&& req == search_of(
                    draw,
                    random_limit(count as int, MAX_SEARCH_REQUESTS - 1, INITIAL_TOTAL_COUNT as int),
                )
            },
    {
        let mut collector = VideoCollector {
            count,
            small_total_threshold,
            sort_field_count,
            attempt: 0,
            searches: 0,
            total_count: INITIAL_TOTAL_COUNT,
            result: Vec::new(),
            phase: CollectPhase::Finished,
            pages: Ghost(Seq::empty()),
        };
        if count == 0 {
            return (collector, CollectStep::Done(Vec::new()));
        }
        collector.phase = CollectPhase::Random;
        collector.searches = 1;
        let req = collector.random_search(&draw);
        (collector, CollectStep::Search(req))
    }

    /// How many videos are collected after adding the items in the given order, as
    /// [`dedup_extend`] adds them.
    fn dedup_len(&self, items: &Vec<R>, order: &Vec<usize>) -> (n: usize)
        requires
            self.wf(),
            index_permutation(order@, items@.len()),
        ensures
            n == dedup_extend(self.result@, apply_order(order@, items@), self.count as nat).len(),
    {
        let ghost seq = apply_order(order@, items@);
        let ghost target = dedup_extend(self.result@, seq, self.count as nat);
        let mut added: Vec<usize> = Vec::new();
        let ghost mut acc = self.result@;
        let mut i: usize = 0;
        assert(seq.skip(0) =~= seq);
        assert(acc =~= self.result@ + apply_order(added@, items@));
        while i < order.len() && self.result.len() + added.len() < self.count
            invariant
                i <= order@.len(),
                order@.len() == items@.len(),
                seq == apply_order(order@, items@),
                index_permutation(order@, items@.len()),
                self.wf(),
                acc == self.result@ + apply_order(added@, items@),
                forall|k: int| 0 <= k < added@.len() ==> #[trigger] added@[k] < items@.len(),
                acc.len() <= self.count,
                dedup_extend(acc, seq.skip(i as int), self.count as nat) == target,
            decreases order@.len() - i,
        {
            let idx = order[i];
            let id = items[idx].content_id();
            let found = self.holds_id(items, &added, id, Ghost(acc));
            let ghost tail = seq.skip(i as int);
            assert(tail[0] == items@[idx as int]);
            assert(tail.drop_first() =~= seq.skip(i + 1));
            if !found {
                let ghost before = added@;
                added.push(idx);
                proof {
                    assert(apply_order(added@, items@) =~= apply_order(before, items@).push(items@[idx as int]));
                    acc = acc.push(items@[idx as int]);
                }
            }
            i += 1;
        }
        proof {
            if i as int == order@.len() {
                assert(seq.skip(i as int).len() == 0);
            }
        }
        self.result.len() + added.len()
    }

    /// Whether the collected videos, followed by the items at the indices in `added`,
    /// hold a video with identifier `id`.
    fn holds_id(&self, items: &Vec<R>, added: &Vec<usize>, id: &str, Ghost(acc): Ghost<Seq<R>>) -> (r: bool)
        requires
            acc == self.result@ + apply_order(added@, items@),
            forall|k: int| 0 <= k < added@.len() ==> #[trigger] added@[k] < items@.len(),
        ensures
            r == has_id(acc, id@),
    {
        let mut j: usize = 0;
        while j < self.result.len()
            invariant
                j <= self.result@.len(),
                acc == self.result@ + apply_order(added@, items@),
                forall|m: int| 0 <= m < j ==> (#[trigger] acc[m]).spec_content_id() != id@,
            decreases self.result@.len() - j,
        {
            if crate::text::text_eq(self.result[j].content_id(), id) {
                assert(acc[j as int] == self.result@[j as int]);
                return true;
            }
            assert(acc[j as int] == self.result@[j as int]);
            j += 1;
        }
        let mut k: usize = 0;
        while k < added.len()
            invariant
                k <= added@.len(),
                acc == self.result@ + apply_order(added@, items@),
                forall|k2: int| 0 <= k2 < added@.len() ==> #[trigger] added@[k2] < items@.len(),
                forall|m: int| 0 <= m < self.result@.len() + k ==> (#[trigger] acc[m]).spec_content_id() != id@,
            decreases added@.len() - k,
        {
            let at = added[k];
            let ghost m = self.result@.len() + k;
            assert(acc[m] == items@[at as int]);
            if crate::text::text_eq(items[at].content_id(), id) {
                return true;
            }
            k += 1;
        }
        false
    }

    /// Takes in items in order, skipping those whose content identifier is already
    /// collected, until `count` are collected.
    fn add_unique(&mut self, items: Vec<R>)
        ensures
            final(self).result@ == dedup_extend(old(self).result@, items@, old(self).count as nat),
            distinct_ids(old(self).result@) ==> distinct_ids(final(self).result@),
            final(self).result.len() <= if old(self).result.len() <= old(self).count {
                old(self).count as int
            } else {
                old(self).result.len() as int
            },
            final(self).count == old(self).count,
            final(self).small_total_threshold == old(self).small_total_threshold,
            final(self).sort_field_count == old(self).sort_field_count,
            final(self).attempt == old(self).attempt,
            final(self).searches == old(self).searches,
            final(self).total_count == old(self).total_count,
            final(self).phase == old(self).phase,
            final(self).pages == old(self).pages,
    {
        let mut items = items;
        let ghost target = dedup_extend(self.result@, items@, self.count as nat);
        let ghost start_len = self.result.len();
        let ghost was_distinct = distinct_ids(self.result@);
        while items.len() > 0 && self.result.len() < self.count
            invariant
                dedup_extend(self.result@, items@, self.count as nat) == target,
                was_distinct ==> distinct_ids(self.result@),
                self.result.len() <= if start_len <= self.count {
                    self.count as int
                } else {
                    start_len as int
                },
                self.result.len() >= start_len,
                self.count == old(self).count,
                self.small_total_threshold == old(self).small_total_threshold,
                self.sort_field_count == old(self).sort_field_count,
                self.attempt == old(self).attempt,
                self.searches == old(self).searches,
                self.total_count == old(self).total_count,
                self.phase == old(self).phase,
                self.pages == old(self).pages,
            decreases items.len(),
        {
            let ghost before = items@;
            let item = items.remove(0);
            assert(items@ == before.drop_first());
            let id = item.content_id().to_owned();
            let mut j: usize = 0;
            let mut found = false;
            while j < self.result.len()
                invariant
                    j <= self.result.len(),
                    id@ == item.spec_content_id(),
                    !found ==> forall|k: int|
                        0 <= k < j ==> (#[trigger] self.result@[k]).spec_content_id() != id@,
                    found ==> has_id(self.result@, id@),
                decreases self.result.len() - j,
            {
                let other = self.result[j].content_id().to_owned();
                if other == id {
                    found = true;
                }
                j += 1;
            }
            if !found {
                let ghost prev = self.result@;
                self.result.push(item);
                proof {
                    assert(self.result@ == prev.push(before[0]));
                    if was_distinct {
                        assert forall|a: int, b: int|
                            0 <= a < b < self.result@.len() implies (
                            #[trigger] self.result@[a]).spec_content_id() != (
                            #[trigger] self.result@[b]).spec_content_id() by {
                            if b == prev.len() {
                                assert(self.result@[a] == prev[a]);
                            } else {
                                assert(self.result@[a] == prev[a]);
                                assert(self.result@[b] == prev[b]);
                            }
                        }
                    }
                }
            }
        }
    }

    /// Keeps the first `count` items.
    fn truncate_to_count(items: &mut Vec<R>, count: usize)
        ensures
            final(items)@ == truncated(old(items)@, count as nat),
    {
        if items.len() > count {
            items.truncate(count);
        }
    }

    /// Whether draws fit the step after a page reporting `total_count` matches with the
    /// given items: the next search's draw lies within its ranges, and each order lists
    /// the indices of what it shuffles.
    pub open spec fn page_draws_fit(&self, total_count: usize, items: Seq<R>, d: PageDraws) -> bool {
        let count = self.spec_count();
        let sfc = self.spec_sort_field_count();
        let final_offset = final_max_offset(
            total_count as int,
            final_limit(count as int, total_count as int),
        );
        match self.spec_phase() {
            CollectPhase::Random => if total_count < self.spec_small_total_threshold() {
                search_draw_fits(d.search, sfc, final_offset)
            } else {
                let acc = dedup_extend(self.spec_result(), items, count as nat);
                if acc.len() >= count {
                    index_permutation(d.order@, acc.len())
                } else if self.spec_attempt() + 1 < MAX_SEARCH_REQUESTS - 1 {
                    search_draw_fits(
                        d.search,
                        sfc,
                        random_max_offset(
                            total_count as int,
                            random_limit(
                                count - acc.len(),
                                (MAX_SEARCH_REQUESTS - 1) - (self.spec_attempt() + 1),
                                total_count as int,
                            ),
                        ),
                    )
                } else {
                    search_draw_fits(d.search, sfc, final_offset)
                }
            },
            CollectPhase::Shortcut => index_permutation(d.order@, items.len()),
            CollectPhase::Last => index_permutation(d.order@, items.len()) && index_permutation(
                d.final_order@,
                dedup_extend(self.spec_result(), apply_order(d.order@, items), count as nat).len(),
            ),
            CollectPhase::Finished => true,
        }
    }

    /// The result that the step after a page hands out, if it finishes the collection:
    /// a completed random search's videos, the page of the search that fetched every
    /// match, or the last search's videos added to those collected, each shuffled by its
    /// draw and cut to the wanted count.
    pub open spec fn done_result(&self, total_count: usize, items: Seq<R>, d: PageDraws) -> Option<Seq<R>> {
        let count = self.spec_count() as nat;
        match self.spec_phase() {
            CollectPhase::Random => {
                let acc = dedup_extend(self.spec_result(), items, count);
                if total_count >= self.spec_small_total_threshold() && acc.len() >= count {
                    Some(truncated(apply_order(d.order@, acc), count))
                } else {
                    None
                }
            },
            CollectPhase::Shortcut => Some(truncated(apply_order(d.order@, items), count)),
            CollectPhase::Last => Some(
                truncated(
                    apply_order(
                        d.final_order@,
                        dedup_extend(self.spec_result(), apply_order(d.order@, items), count),
                    ),
                    count,
                ),
            ),
            CollectPhase::Finished => None,
        }
    }

    /// Against a search service that holds `videos` with distinct identifiers, answers
    /// every search with some of them, none twice, and answers a search that fetches every
    /// match with as many videos as are wanted or all of them, a collection ends with the
    /// wanted count of videos, or with all videos when there are fewer.
    pub proof fn lemma_collection_len(
        &self,
        total_count: usize,
        items: Seq<R>,
        d: PageDraws,
        videos: Seq<R>,
    )
        requires
            self.wf(),
            self.spec_phase() != CollectPhase::Finished,
            self.page_draws_fit(total_count, items, d),
            distinct_ids(videos),
            forall|k: int|
                0 <= k < self.spec_pages().len() ==> ids_within(#[trigger] self.spec_pages()[k], videos),
            distinct_ids(items),
            ids_within(items, videos),
            self.spec_phase() == CollectPhase::Shortcut || self.spec_phase() == CollectPhase::Last
                ==> items.len() >= if videos.len() < self.spec_count() {
                videos.len()
            } else {
                self.spec_count() as nat
            },
            self.done_result(total_count, items, d) is Some,
        ensures
            self.done_result(total_count, items, d)->0.len() == if videos.len() < self.spec_count() {
                videos.len()
            } else {
                self.spec_count() as nat
            },
    {
        let count = self.count as nat;
        assert forall|k: int| 0 <= k < self.pages@.len() implies ids_within(#[trigger] self.pages@[k], videos) by {
            assert(ids_within(self.spec_pages()[k], videos));
        }
        lemma_from_pages_within(self.result@, self.pages@, videos);
        match self.phase {
            CollectPhase::Random => {
                let acc = dedup_extend(self.result@, items, count);
                lemma_dedup_extend_distinct(self.result@, items, count);
                lemma_dedup_extend_from(self.result@, items, count);
                assert forall|i: int| 0 <= i < acc.len() implies has_id(
                    videos,
                    (#[trigger] acc[i]).spec_content_id(),
                ) by {
                    if self.result@.contains(acc[i]) {
                        let j = choose|j: int| 0 <= j < self.result@.len() && self.result@[j] == acc[i];
                        assert(has_id(videos, self.result@[j].spec_content_id()));
                    } else {
                        let j = choose|j: int| 0 <= j < items.len() && items[j] == acc[i];
                        assert(has_id(videos, items[j].spec_content_id()));
                    }
                }
                lemma_dedup_extend_len(self.result@, items, count);
                lemma_apply_order_permutation(d.order@, acc);
                lemma_random_search_len(videos, acc, apply_order(d.order@, acc), count);
            },
            CollectPhase::Shortcut => {
                lemma_apply_order_permutation(d.order@, items);
                lemma_shortcut_search_len(videos, items, apply_order(d.order@, items), count);
            },
            CollectPhase::Last => {
                let p1 = apply_order(d.order@, items);
                lemma_apply_order_permutation(d.order@, items);
                lemma_apply_order_permutation(d.final_order@, dedup_extend(self.result@, p1, count));
                lemma_last_search_len(
                    videos,
                    self.result@,
                    items,
                    p1,
                    apply_order(d.final_order@, dedup_extend(self.result@, p1, count)),
                    count,
                );
            },
            CollectPhase::Finished => {},
        }
    }

    /// Draws the chance values of the step after `page`, in the order in which that step
    /// uses them; which values is left to chance.
    pub fn draw_for_page(&self, page: &SearchPage<R>, rng: &mut StdRng) -> (d: PageDraws)
        requires
            self.wf(),
        ensures
            self.page_draws_fit(page.total_count, page.result@, d),
    {
        let none = SearchDraw { sort_index: 0, direction: 0, offset: 0 };
        match self.phase {
            CollectPhase::Random => {
                if page.total_count < self.small_total_threshold {
                    let (_, max_offset) = final_plan(self.count, page.total_count);
                    let search = draw_search(rng, self.sort_field_count, max_offset);
                    return PageDraws { search, order: Vec::new(), final_order: Vec::new() };
                }
                let identity = identity_order(page.result.len());
                let acc_len = self.dedup_len(&page.result, &identity);
                proof {
                    lemma_apply_identity(identity@, page.result@);
                }
                if acc_len >= self.count {
                    let order = draw_order(rng, acc_len);
                    PageDraws { search: none, order, final_order: Vec::new() }
                } else if self.attempt + 1 < MAX_SEARCH_REQUESTS - 1 {
                    let (_, max_offset) = random_plan(
                        self.count - acc_len,
                        (MAX_SEARCH_REQUESTS - 1) - (self.attempt + 1),
                        page.total_count,
                    );
                    let search = draw_search(rng, self.sort_field_count, max_offset);
                    PageDraws { search, order: Vec::new(), final_order: Vec::new() }
                } else {
                    let (_, max_offset) = final_plan(self.count, page.total_count);
                    let search = draw_search(rng, self.sort_field_count, max_offset);
                    PageDraws { search, order: Vec::new(), final_order: Vec::new() }
                }
            },
            CollectPhase::Shortcut => {
                let order = draw_order(rng, page.result.len());
                PageDraws { search: none, order, final_order: Vec::new() }
            },
            CollectPhase::Last => {
                let order = draw_order(rng, page.result.len());
                let n = self.dedup_len(&page.result, &order);
                let final_order = draw_order(rng, n);
                PageDraws { search: none, order, final_order }
            },
            CollectPhase::Finished => PageDraws { search: none, order: Vec::new(), final_order: Vec::new() },
        }
    }

    /// Decides what follows a page of results, with the chance values `draws`: the next
    /// search, or the result.
    pub fn on_page(&mut self, page: SearchPage<R>, draws: PageDraws) -> (r: CollectStep<R>)
        requires
            old(self).wf(),
            old(self).spec_phase() != CollectPhase::Finished,
            old(self).page_draws_fit(page.total_count, page.result@, draws),
        ensures
            final(self).spec_count() == old(self).spec_count(),
            final(self).spec_small_total_threshold() == old(self).spec_small_total_threshold(),
            final(self).spec_sort_field_count() == old(self).spec_sort_field_count(),
            final(self).spec_searches() <= MAX_SEARCH_REQUESTS,
            r is Search ==> final(self).wf() && final(self).spec_searches() == old(self).spec_searches() + 1,
            r is Done ==> final(self).spec_phase() == CollectPhase::Finished,
            final(self).spec_pages() == old(self).spec_pages().push(page.result@),
            final(self).spec_pages().len() <= MAX_SEARCH_REQUESTS,
            r is Search ==> final(self).spec_searches() == final(self).spec_pages().len() + 1,
            match old(self).done_result(page.total_count, page.result@, draws) {
                Some(v0) => r matches CollectStep::Done(v) && v@ == v0,
                None => r is Search,
            },
            r matches CollectStep::Done(v) ==> from_pages(v@, final(self).spec_pages()),
            r matches CollectStep::Done(v) ==> v.len() <= old(self).spec_count(),
            r matches CollectStep::Done(v) ==> (old(self).spec_phase() != CollectPhase::Shortcut
                ==> distinct_ids(v@)),
            old(self).spec_phase() == CollectPhase::Shortcut ==> (r matches CollectStep::Done(v) && v@
                == truncated(apply_order(draws.order@, page.result@), old(self).spec_count() as nat)),
            old(self).spec_phase() == CollectPhase::Last ==> (r matches CollectStep::Done(v) && v@
                == truncated(
                apply_order(
                    draws.final_order@,
                    dedup_extend(
                        old(self).spec_result(),
                        apply_order(draws.order@, page.result@),
                        old(self).spec_count() as nat,
                    ),
                ),
                old(self).spec_count() as nat,
            )),
            old(self).spec_phase() == CollectPhase::Random && page.total_count < old(
                self,
            ).spec_small_total_threshold() ==> {
                &&& r matches CollectStep::Search(req)
                &&& final(self).spec_phase() == CollectPhase::Shortcut
                &&& final(self).spec_total_count() == page.total_count
                &&& req == search_of(
                    draws.search,
                    final_limit(old(self).spec_count() as int, page.total_count as int),
                )
            },
            old(self).spec_phase() == CollectPhase::Random && page.total_count >= old(
                self,
            ).spec_small_total_threshold() ==> {
                let acc = dedup_extend(
                    old(self).spec_result(),
                    page.result@,
                    old(self).spec_count() as nat,
                );
                &&& acc.len() >= old(self).spec_count() ==> (r matches CollectStep::Done(v) && v@
                    == truncated(apply_order(draws.order@, acc), old(self).spec_count() as nat))
                &&& acc.len() < old(self).spec_count() ==> {
                    &&& r matches CollectStep::Search(req)
                    &&& final(self).spec_result() == acc
                    &&& final(self).spec_total_count() == page.total_count
                    &&& old(self).spec_attempt() + 1 < MAX_SEARCH_REQUESTS - 1 ==> {
                        &&& final(self).spec_phase() == CollectPhase::Random
                        &&& final(self).spec_attempt() == old(self).spec_attempt() + 1
                        &&& req == search_of(
                            draws.search,
                            random_limit(
                                old(self).spec_count() - acc.len(),
                                (MAX_SEARCH_REQUESTS - 1) - (old(self).spec_attempt() + 1),
                                page.total_count as int,
                            ),
                        )
                    }
                    &&& old(self).spec_attempt() + 1 >= MAX_SEARCH_REQUESTS - 1 ==> {
                        &&& final(self).spec_phase() == CollectPhase::Last
                        &&& req == search_of(
                            draws.search,
                            final_limit(old(self).spec_count() as int, page.total_count as int),
                        )
                    }
                }
            },
    {
        let ghost old_pages = self.pages@;
        let ghost old_result = self.result@;
        let ghost page_items = page.result@;
        self.pages = Ghost(self.pages@.push(page.result@));
        match self.phase {
            CollectPhase::Random => {
                self.total_count = page.total_count;
                if page.total_count < self.small_total_threshold {
                    proof {
                        lemma_from_pages_push(old_result, old_pages, page_items);
                    }
                    self.phase = CollectPhase::Shortcut;
                    self.searches = self.searches + 1;
                    let req = self.final_search(&draws.search);
                    return CollectStep::Search(req);
                }
                self.add_unique(page.result);
                proof {
                    lemma_dedup_extend_from(old_result, page_items, self.count as nat);
                    lemma_from_pages_extend(old_result, self.result@, old_pages, page_items);
                }
                if self.result.len() >= self.count {
                    let mut result: Vec<R> = Vec::new();
                    std::mem::swap(&mut result, &mut self.result);
                    let ghost acc = result@;
                    let mut result = reorder(result, &draws.order);
                    let ghost shuffled = result@;
                    proof {
                        lemma_apply_order_permutation(draws.order@, acc);
                        lemma_permutation_keeps_distinct_ids(acc, shuffled);
                    }
                    Self::truncate_to_count(&mut result, self.count);
                    self.phase = CollectPhase::Finished;
                    proof {
                        lemma_truncated_keeps_distinct_ids(shuffled, self.count as nat);
                        lemma_truncated_from_pages(acc, shuffled, self.count as nat, self.pages@);
                    }
                    return CollectStep::Done(result);
                }
                self.attempt = self.attempt + 1;
                self.searches = self.searches + 1;
                if self.attempt < MAX_SEARCH_REQUESTS - 1 {
                    let req = self.random_search(&draws.search);
                    CollectStep::Search(req)
                } else {
                    self.phase = CollectPhase::Last;
                    let req = self.final_search(&draws.search);
                    CollectStep::Search(req)
                }
            },
            CollectPhase::Shortcut => {
                let mut items = reorder(page.result, &draws.order);
                proof {
                    lemma_apply_order_permutation(draws.order@, page_items);
                    lemma_from_pages_push(Seq::empty(), old_pages, page_items);
                    lemma_from_pages_extend(Seq::empty(), page_items, old_pages, page_items);
                    lemma_truncated_from_pages(page_items, items@, self.count as nat, self.pages@);
                }
                Self::truncate_to_count(&mut items, self.count);
                self.phase = CollectPhase::Finished;
                CollectStep::Done(items)
            },
            CollectPhase::Last => {
                let ghost start = self.result@;
                let items = reorder(page.result, &draws.order);
                let ghost p1 = items@;
                proof {
                    lemma_apply_order_permutation(draws.order@, page_items);
                }
                self.add_unique(items);
                let mut result: Vec<R> = Vec::new();
                std::mem::swap(&mut result, &mut self.result);
                let ghost acc = result@;
                let mut result = reorder(result, &draws.final_order);
                let ghost shuffled = result@;
                proof {
                    lemma_apply_order_permutation(draws.final_order@, acc);
                    lemma_permutation_keeps_distinct_ids(acc, shuffled);
                }
                Self::truncate_to_count(&mut result, self.count);
                proof {
                    lemma_truncated_keeps_distinct_ids(shuffled, self.count as nat);
                    assert(acc == dedup_extend(start, p1, self.count as nat));
                    lemma_dedup_extend_from(start, p1, self.count as nat);
                    lemma_permutation_contains(page_items, p1);
                    assert forall|i: int| 0 <= i < acc.len() implies start.contains(#[trigger] acc[i])
                        || page_items.contains(acc[i]) by {
                        if !start.contains(acc[i]) {
                            let j = choose|j: int| 0 <= j < p1.len() && p1[j] == acc[i];
                            assert(page_items.contains(p1[j]));
                        }
                    }
                    lemma_from_pages_extend(start, acc, old_pages, page_items);
                    lemma_truncated_from_pages(acc, shuffled, self.count as nat, self.pages@);
                }
                self.phase = CollectPhase::Finished;
                CollectStep::Done(result)
            },
            CollectPhase::Finished => CollectStep::Done(Vec::new()),
        }
    }
}

} // verus!
