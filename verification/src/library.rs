//! The client's data in memory: bounded caches of loaded pages, lookups of a
//! bangumi by name or id, subscriptions and the episode filter keywords.

use vstd::prelude::*;

use crate::assoc::{AssocKey, AssocMap, lemma_filter_all};
use crate::download::{DownloadCmd, DownloadEvent};
use crate::paths::{join_path, spec_subgroup_dir_name, subgroup_download_dir};
use crate::model::{
    copy_item, copy_opt_string, BangumiGroup, BangumiGroupView, BangumiItem, BangumiItemView,
    SearchResults, SearchResultsView, Subscription, SubscriptionView,
};

verus! {

// ───────────────────────── bounded caches ─────────────────────────

/// Capacity of the caches of details, searches and scroll positions.
pub const BOUNDED_CACHE_LIMIT: usize = 64;

/// The map and key order after inserting `k ↦ v` into a cache of capacity
/// `limit`: a known key gets the new value in place; a new key goes last, and
/// when the cache is full the oldest key goes first.
pub open spec fn spec_bounded_insert<V>(
    m: Map<Seq<char>, V>,
    order: Seq<Seq<char>>,
    limit: nat,
    k: Seq<char>,
    v: V,
) -> (Map<Seq<char>, V>, Seq<Seq<char>>) {
    if m.dom().contains(k) {
        (m.insert(k, v), order)
    } else if order.len() >= limit {
        (m.remove(order[0]).insert(k, v), order.drop_first().push(k))
    } else {
        (m.insert(k, v), order.push(k))
    }
}

/// A map with a capacity that forgets its oldest key when full (insertion
/// order approximates least recent use).
pub struct BoundedCache<V> {
    map: AssocMap<String, V>,
    limit: usize,
}

proof fn lemma_filter_first<A>(s: Seq<A>)
    requires
        s.len() > 0,
        s.no_duplicates(),
    ensures
        s.filter(|x: A| x != s[0]) == s.drop_first(),
{
    let f = |x: A| x != s[0];
    assert(s =~= seq![s[0]] + s.drop_first());
    Seq::filter_distributes_over_add(seq![s[0]], s.drop_first(), f);
    assert(seq![s[0]].filter(f) =~= Seq::<A>::empty()) by {
        reveal_with_fuel(Seq::filter, 2);
    }
    assert forall|i: int| 0 <= i < s.drop_first().len() implies f(#[trigger] s.drop_first()[i]) by {
        assert(s.drop_first()[i] == s[i + 1]);
    }
    lemma_filter_all(s.drop_first(), f);
    assert(Seq::<A>::empty() + s.drop_first() =~= s.drop_first());
}

impl<V> BoundedCache<V> {
    /// Key → value.
    pub closed spec fn map(&self) -> Map<Seq<char>, V> {
        self.map@
    }

    /// Keys, oldest first.
    pub closed spec fn order(&self) -> Seq<Seq<char>> {
        self.map.key_order()
    }

    pub closed spec fn limit(&self) -> nat {
        self.limit as nat
    }

    pub closed spec fn wf(&self) -> bool {
        &&& self.map.wf()
        &&& self.limit > 0
        &&& self.map@.dom().len() <= self.limit
    }

    /// The values, oldest key first.
    pub open spec fn values(&self) -> Seq<V> {
        self.order().map_values(|k: Seq<char>| self.map()[k])
    }

    pub proof fn lemma_order(&self)
        requires
            self.wf(),
        ensures
            self.order().len() == self.map().dom().len(),
            self.order().len() <= self.limit(),
            self.order().no_duplicates(),
            self.order().to_set() == self.map().dom(),
    {
        self.map.lemma_key_order();
    }

    /// An empty cache holding at most `limit` keys.
    pub fn new(limit: usize) -> (r: Self)
        requires
            limit > 0,
        ensures
            r.wf(),
            r.map() == Map::<Seq<char>, V>::empty(),
            r.order() == Seq::<Seq<char>>::empty(),
            r.limit() == limit,
    {
        BoundedCache { map: AssocMap::new(), limit }
    }

    pub fn len(&self) -> (n: usize)
        requires
            self.wf(),
        ensures
            n == self.map().dom().len(),
    {
        self.map.len()
    }

    pub fn contains_key(&self, k: &str) -> (r: bool)
        requires
            self.wf(),
        ensures
            r == self.map().dom().contains(k@),
    {
        self.map.contains_key(&k.to_owned())
    }

    pub fn get(&self, k: &str) -> (r: Option<&V>)
        requires
            self.wf(),
        ensures
            match r {
                Some(v) => self.map().dom().contains(k@) && *v == self.map()[k@],
                None => !self.map().dom().contains(k@),
            },
    {
        self.map.get(&k.to_owned())
    }

    /// Inserts `k ↦ v` (see [`spec_bounded_insert`]).
    pub fn insert(&mut self, k: String, v: V)
        requires
            old(self).wf(),
        ensures
            final(self).wf(),
            final(self).limit() == old(self).limit(),
            (final(self).map(), final(self).order()) == spec_bounded_insert(
                old(self).map(),
                old(self).order(),
                old(self).limit(),
                k@,
                v,
            ),
    {
        proof {
            self.map.lemma_key_order();
        }
        if !self.map.contains_key(&k) && self.map.len() >= self.limit {
            let oldest = self.map.entries()[0].0.clone();
            let ghost o = self.map.key_order();
            assert(o[0] == oldest@);
            self.map.remove(&oldest);
            proof {
                lemma_filter_first(o);
            }
        }
        proof {
            self.map.lemma_key_order();
        }
        self.map.insert(k, v);
        proof {
            self.map.lemma_key_order();
        }
    }

    /// The entries, oldest key first.
    pub fn entries(&self) -> (r: &Vec<(String, V)>)
        requires
            self.wf(),
        ensures
            r@.map_values(|e: (String, V)| e.0@) == self.order(),
            forall|i: int| 0 <= i < r@.len() ==> #[trigger] r@[i].1 == self.map()[r@[i].0@],
            r@.len() == self.order().len(),
    {
        let r = self.map.entries();
        proof {
            self.map.lemma_key_order();
            assert(r@.map_values(|e: (String, V)| e.0@) =~= r@.map_values(|e: (String, V)| e.0.key_model()));
            assert forall|i: int| 0 <= i < r@.len() implies #[trigger] r@[i].1 == self.map()[r@[i].0@] by {
                assert(self.map@.dom().contains(r@[i].0.key_model()));
            }
        }
        r
    }
}

/// A full cache stays at its capacity, a key just inserted holds its new
/// value, and a cache never holds more keys than its capacity.
pub proof fn law_bounded_insert<V>(
    m: Map<Seq<char>, V>,
    order: Seq<Seq<char>>,
    limit: nat,
    k: Seq<char>,
    v: V,
)
    requires
        limit > 0,
        order.no_duplicates(),
        order.to_set() == m.dom(),
        order.len() <= limit,
    ensures
        ({
            let (m2, o2) = spec_bounded_insert(m, order, limit, k, v);
            &&& m2.dom().contains(k) && m2[k] == v
            &&& o2.len() <= limit
            &&& o2.no_duplicates()
            &&& o2.to_set() == m2.dom()
            &&& (!m.dom().contains(k) && order.len() >= limit) ==> !m2.dom().contains(order[0])
        }),
{
    let (m2, o2) = spec_bounded_insert(m, order, limit, k, v);
    if m.dom().contains(k) {
        assert(o2.to_set() =~= m2.dom());
    } else if order.len() >= limit {
        assert(order[0] != k) by {
            assert(order.to_set().contains(order[0]));
        }
        assert forall|x: Seq<char>| o2.to_set().contains(x) == m2.dom().contains(x) by {
            if o2.to_set().contains(x) {
                let i = choose|i: int| 0 <= i < o2.len() && o2[i] == x;
                if i < o2.len() - 1 {
                    assert(x == order[i + 1]);
                    assert(order.to_set().contains(x));
                    assert(x != order[0]);
                }
            }
            if m2.dom().contains(x) && x != k {
                assert(order.to_set().contains(x));
                let i = choose|i: int| 0 <= i < order.len() && order[i] == x;
                assert(i != 0);
                assert(o2[i - 1] == x);
            }
            if x == k {
                assert(o2[o2.len() - 1] == k);
            }
        }
        assert(o2.to_set() =~= m2.dom());
        assert forall|a: int, b: int| 0 <= a < o2.len() && 0 <= b < o2.len() && a != b implies o2[a] != o2[b] by {
            if a < o2.len() - 1 && b < o2.len() - 1 {
                assert(o2[a] == order[a + 1]);
                assert(o2[b] == order[b + 1]);
            } else if a == o2.len() - 1 {
                assert(order.to_set().contains(order[b + 1]));
            } else {
                assert(order.to_set().contains(order[a + 1]));
            }
        }
    } else {
        assert forall|x: Seq<char>| o2.to_set().contains(x) == m2.dom().contains(x) by {
            if o2.to_set().contains(x) {
                let i = choose|i: int| 0 <= i < o2.len() && o2[i] == x;
                if i < order.len() {
                    assert(order.to_set().contains(x));
                }
            }
            if m2.dom().contains(x) && x != k {
                assert(order.to_set().contains(x));
                let i = choose|i: int| 0 <= i < order.len() && order[i] == x;
                assert(o2[i] == x);
            }
            if x == k {
                assert(o2[o2.len() - 1] == k);
            }
        }
        assert(o2.to_set() =~= m2.dom());
        assert forall|a: int, b: int| 0 <= a < o2.len() && 0 <= b < o2.len() && a != b implies o2[a] != o2[b] by {
            if a < order.len() && b < order.len() {
            } else if a == order.len() {
                assert(order.to_set().contains(order[b]));
            } else {
                assert(order.to_set().contains(order[a]));
            }
        }
    }
}

// ───────────────────────── lookups ─────────────────────────

/// The first element of `s` that `p` accepts.
pub open spec fn first_where<A>(s: Seq<A>, p: spec_fn(A) -> bool) -> Option<A>
    decreases s.len(),
{
    if s.len() == 0 {
        None
    } else if p(s[0]) {
        Some(s[0])
    } else {
        first_where(s.drop_first(), p)
    }
}

proof fn lemma_first_where_at<A>(s: Seq<A>, p: spec_fn(A) -> bool, i: int)
    requires
        0 <= i < s.len(),
        p(s[i]),
        forall|k: int| 0 <= k < i ==> !p(#[trigger] s[k]),
    ensures
        first_where(s, p) == Some(s[i]),
    decreases i,
{
    if i > 0 {
        assert(!p(s[0]));
        assert forall|k: int| 0 <= k < i - 1 implies !p(#[trigger] s.drop_first()[k]) by {
            assert(s.drop_first()[k] == s[k + 1]);
        }
        lemma_first_where_at(s.drop_first(), p, i - 1);
    }
}

proof fn lemma_first_where_none<A>(s: Seq<A>, p: spec_fn(A) -> bool)
    requires
        forall|k: int| 0 <= k < s.len() ==> !p(#[trigger] s[k]),
    ensures
        first_where(s, p) is None,
    decreases s.len(),
{
    if s.len() > 0 {
        assert(!p(s[0]));
        assert forall|k: int| 0 <= k < s.len() - 1 implies !p(#[trigger] s.drop_first()[k]) by {
            assert(s.drop_first()[k] == s[k + 1]);
        }
        lemma_first_where_none(s.drop_first(), p);
    }
}

/// All items of the groups, group by group.
pub open spec fn flat_items(gs: Seq<BangumiGroupView>) -> Seq<BangumiItemView>
    decreases gs.len(),
{
    if gs.len() == 0 {
        Seq::empty()
    } else {
        flat_items(gs.drop_last()) + gs.last().items
    }
}

/// All items of the search results, result by result.
pub open spec fn flat_search_items(rs: Seq<SearchResultsView>) -> Seq<BangumiItemView>
    decreases rs.len(),
{
    if rs.len() == 0 {
        Seq::empty()
    } else {
        flat_search_items(rs.drop_last()) + rs.last().items
    }
}

/// What a bangumi is looked up by.
#[derive(Debug, Clone)]
pub enum ItemQuery {
    Name(String),
    Id(u32),
}

pub enum ItemQueryView {
    Name(Seq<char>),
    Id(u32),
}

impl DeepView for ItemQuery {
    type V = ItemQueryView;

    open spec fn deep_view(&self) -> ItemQueryView {
        match self {
            ItemQuery::Name(n) => ItemQueryView::Name(n@),
            ItemQuery::Id(i) => ItemQueryView::Id(*i),
        }
    }
}

pub open spec fn query_matches(q: ItemQueryView, it: BangumiItemView) -> bool {
    match q {
        ItemQueryView::Name(n) => it.name == n,
        ItemQueryView::Id(i) => it.bangumi_id == Some(i),
    }
}

pub open spec fn query_fn(q: ItemQueryView) -> spec_fn(BangumiItemView) -> bool {
    |it: BangumiItemView| query_matches(q, it)
}

fn item_matches(q: &ItemQuery, it: &BangumiItem) -> (r: bool)
    ensures
        r == query_matches(q.deep_view(), it.deep_view()),
{
    match q {
        ItemQuery::Name(n) => it.name == *n,
        ItemQuery::Id(i) => match it.bangumi_id {
            Some(b) => b == *i,
            None => false,
        },
    }
}

/// The first item among `items` that the query names, in order.
fn find_in_items(items: &Vec<BangumiItem>, q: &ItemQuery) -> (r: Option<usize>)
    ensures
        match r {
            Some(j) => j < items@.len() && query_matches(q.deep_view(), items.deep_view()[j as int])
                && forall|k: int| 0 <= k < j ==> !query_matches(q.deep_view(), #[trigger] items.deep_view()[k]),
            None => forall|k: int| 0 <= k < items@.len() ==> !query_matches(q.deep_view(), #[trigger] items.deep_view()[k]),
        },
{
    let mut j: usize = 0;
    while j < items.len()
        invariant
            j <= items.len(),
            forall|k: int| 0 <= k < j ==> !query_matches(q.deep_view(), #[trigger] items.deep_view()[k]),
        decreases items.len() - j,
    {
        if item_matches(q, &items[j]) {
            return Some(j);
        }
        j = j + 1;
    }
    None
}

proof fn lemma_flat_step(gs: Seq<BangumiGroupView>, i: int)
    requires
        0 <= i < gs.len(),
    ensures
        flat_items(gs.take(i + 1)) == flat_items(gs.take(i)) + gs[i].items,
{
    assert(gs.take(i + 1).drop_last() =~= gs.take(i));
}

/// The first item of the groups that the query names.
pub fn find_in_groups(groups: &Vec<BangumiGroup>, q: &ItemQuery) -> (r: Option<BangumiItem>)
    ensures
        r.deep_view() == first_where(flat_items(groups.deep_view()), query_fn(q.deep_view())),
{
    let ghost p = query_fn(q.deep_view());
    let ghost gs = groups.deep_view();
    let mut i: usize = 0;
    assert(flat_items(gs.take(0)) =~= Seq::<BangumiItemView>::empty());
    while i < groups.len()
        invariant
            i <= groups.len(),
            gs == groups.deep_view(),
            p == query_fn(q.deep_view()),
            forall|k: int| 0 <= k < flat_items(gs.take(i as int)).len() ==> !p(#[trigger] flat_items(gs.take(i as int))[k]),
        decreases groups.len() - i,
    {
        proof {
            lemma_flat_step(gs, i as int);
        }
        let ghost prefix = flat_items(gs.take(i as int));
        let ghost items = gs[i as int].items;
        assert(groups@[i as int].items.deep_view() == items);
        match find_in_items(&groups[i].items, q) {
            Some(j) => {
                let found = copy_item(&groups[i].items[j]);
                proof {
                    let whole = flat_items(gs);
                    let rest = gs.skip(i + 1);
                    assert(gs =~= gs.take(i + 1) + rest);
                    lemma_flat_concat(gs.take(i + 1), rest);
                    let idx = prefix.len() + j;
                    assert(whole[idx] == items[j as int]);
                    assert forall|k: int| 0 <= k < idx implies !p(#[trigger] whole[k]) by {
                        if k < prefix.len() {
                            assert(whole[k] == prefix[k]);
                        } else {
                            assert(whole[k] == items[k - prefix.len()]);
                        }
                    }
                    lemma_first_where_at(whole, p, idx);
                }
                return Some(found);
            },
            None => {
                proof {
                    let next = flat_items(gs.take(i + 1));
                    assert forall|k: int| 0 <= k < next.len() implies !p(#[trigger] next[k]) by {
                        if k < prefix.len() {
                            assert(next[k] == prefix[k]);
                        } else {
                            assert(next[k] == items[k - prefix.len()]);
                        }
                    }
                }
            },
        }
        i = i + 1;
    }
    proof {
        assert(gs.take(groups.len() as int) =~= gs);
        lemma_first_where_none(flat_items(gs), p);
    }
    None
}

proof fn lemma_flat_concat(a: Seq<BangumiGroupView>, b: Seq<BangumiGroupView>)
    ensures
        flat_items(a + b) == flat_items(a) + flat_items(b),
    decreases b.len(),
{
    if b.len() == 0 {
        assert(a + b =~= a);
        assert(flat_items(a) + flat_items(b) =~= flat_items(a));
    } else {
        assert((a + b).drop_last() =~= a + b.drop_last());
        lemma_flat_concat(a, b.drop_last());
        assert(flat_items(a + b) =~= flat_items(a) + flat_items(b));
    }
}

proof fn lemma_flat_search_concat(a: Seq<SearchResultsView>, b: Seq<SearchResultsView>)
    ensures
        flat_search_items(a + b) == flat_search_items(a) + flat_search_items(b),
    decreases b.len(),
{
    if b.len() == 0 {
        assert(a + b =~= a);
        assert(flat_search_items(a) + flat_search_items(b) =~= flat_search_items(a));
    } else {
        assert((a + b).drop_last() =~= a + b.drop_last());
        lemma_flat_search_concat(a, b.drop_last());
        assert(flat_search_items(a + b) =~= flat_search_items(a) + flat_search_items(b));
    }
}

/// The search results of a cache, oldest query first.
pub open spec fn search_views(c: BoundedCache<SearchResults>) -> Seq<SearchResultsView> {
    c.values().map_values(|r: SearchResults| r.deep_view())
}

/// The first item of the cached search results that the query names.
pub fn find_in_searches(searches: &BoundedCache<SearchResults>, q: &ItemQuery) -> (r: Option<BangumiItem>)
    requires
        searches.wf(),
    ensures
        r.deep_view() == first_where(flat_search_items(search_views(*searches)), query_fn(q.deep_view())),
{
    let entries = searches.entries();
    let ghost p = query_fn(q.deep_view());
    let ghost rs = search_views(*searches);
    assert forall|i: int| 0 <= i < entries@.len() implies #[trigger] entries@[i].1.deep_view() == rs[i] by {
        assert(entries@.map_values(|e: (String, SearchResults)| e.0@)[i] == searches.order()[i]);
    }
    let mut i: usize = 0;
    assert(flat_search_items(rs.take(0)) =~= Seq::<BangumiItemView>::empty());
    while i < entries.len()
        invariant
            i <= entries.len(),
            entries@.len() == rs.len(),
            rs == search_views(*searches),
            forall|i: int| 0 <= i < entries@.len() ==> #[trigger] entries@[i].1.deep_view() == rs[i],
            p == query_fn(q.deep_view()),
            forall|k: int| 0 <= k < flat_search_items(rs.take(i as int)).len() ==> !p(#[trigger] flat_search_items(rs.take(i as int))[k]),
        decreases entries.len() - i,
    {
        assert(rs.take(i + 1).drop_last() =~= rs.take(i as int));
        let ghost prefix = flat_search_items(rs.take(i as int));
        let ghost items = rs[i as int].items;
        assert(entries@[i as int].1.deep_view() == rs[i as int]);
        assert(entries@[i as int].1.items.deep_view() == items);
        match find_in_items(&entries[i].1.items, q) {
            Some(j) => {
                let found = copy_item(&entries[i].1.items[j]);
                proof {
                    let whole = flat_search_items(rs);
                    let rest = rs.skip(i + 1);
                    assert(rs =~= rs.take(i + 1) + rest);
                    lemma_flat_search_concat(rs.take(i + 1), rest);
                    let idx = prefix.len() + j;
                    assert(whole[idx] == items[j as int]);
                    assert forall|k: int| 0 <= k < idx implies !p(#[trigger] whole[k]) by {
                        if k < prefix.len() {
                            assert(whole[k] == prefix[k]);
                        } else {
                            assert(whole[k] == items[k - prefix.len()]);
                        }
                    }
                    lemma_first_where_at(whole, p, idx);
                }
                return Some(found);
            },
            None => {
                proof {
                    let next = flat_search_items(rs.take(i + 1));
                    assert forall|k: int| 0 <= k < next.len() implies !p(#[trigger] next[k]) by {
                        if k < prefix.len() {
                            assert(next[k] == prefix[k]);
                        } else {
                            assert(next[k] == items[k - prefix.len()]);
                        }
                    }
                }
            },
        }
        i = i + 1;
    }
    proof {
        assert(rs.take(entries.len() as int) =~= rs);
        lemma_first_where_none(flat_search_items(rs), p);
    }
    None
}

/// The base entry of a bangumi by name: the weekly list first, then the
/// cached search results.
pub open spec fn spec_find_list_item(
    groups: Seq<BangumiGroupView>,
    searches: Seq<SearchResultsView>,
    name: Seq<char>,
) -> Option<BangumiItemView> {
    match first_where(flat_items(groups), query_fn(ItemQueryView::Name(name))) {
        Some(it) => Some(it),
        None => first_where(flat_search_items(searches), query_fn(ItemQueryView::Name(name))),
    }
}

/// Looks a bangumi up by name (see [`spec_find_list_item`]).
pub fn find_list_item(
    groups: &Vec<BangumiGroup>,
    searches: &BoundedCache<SearchResults>,
    name: &str,
) -> (r: Option<BangumiItem>)
    requires
        searches.wf(),
    ensures
        r.deep_view() == spec_find_list_item(groups.deep_view(), search_views(*searches), name@),
{
    let q = ItemQuery::Name(name.to_owned());
    match find_in_groups(groups, &q) {
        Some(it) => Some(it),
        None => find_in_searches(searches, &q),
    }
}

/// Looks a bangumi of the weekly list up by id.
pub fn find_list_item_by_id(groups: &Vec<BangumiGroup>, bid: u32) -> (r: Option<BangumiItem>)
    ensures
        r.deep_view() == first_where(flat_items(groups.deep_view()), query_fn(ItemQueryView::Id(bid))),
{
    find_in_groups(groups, &ItemQuery::Id(bid))
}

// ───────────────────────── details ─────────────────────────

/// The loaded detail pages, oldest first.
pub open spec fn detail_views(c: BoundedCache<BangumiItem>) -> Seq<BangumiItemView> {
    c.values().map_values(|i: BangumiItem| i.deep_view())
}

/// The first loaded detail page that the query names.
pub fn find_in_details(details: &BoundedCache<BangumiItem>, q: &ItemQuery) -> (r: Option<BangumiItem>)
    requires
        details.wf(),
    ensures
        r.deep_view() == first_where(detail_views(*details), query_fn(q.deep_view())),
{
    let entries = details.entries();
    let ghost p = query_fn(q.deep_view());
    let ghost ds = detail_views(*details);
    assert forall|i: int| 0 <= i < entries@.len() implies #[trigger] entries@[i].1.deep_view() == ds[i] by {
        assert(entries@.map_values(|e: (String, BangumiItem)| e.0@)[i] == details.order()[i]);
    }
    let mut i: usize = 0;
    while i < entries.len()
        invariant
            i <= entries.len(),
            entries@.len() == ds.len(),
            ds == detail_views(*details),
            p == query_fn(q.deep_view()),
            forall|i: int| 0 <= i < entries@.len() ==> #[trigger] entries@[i].1.deep_view() == ds[i],
            forall|k: int| 0 <= k < i ==> !p(#[trigger] ds[k]),
        decreases entries.len() - i,
    {
        assert(entries@[i as int].1.deep_view() == ds[i as int]);
        if item_matches(q, &entries[i].1) {
            let found = copy_item(&entries[i].1);
            proof {
                lemma_first_where_at(ds, p, i as int);
            }
            return Some(found);
        }
        i = i + 1;
    }
    proof {
        lemma_first_where_none(ds, p);
    }
    None
}

/// The base entry of a detail page: the weekly list or a cached search by
/// name, else a subscription of that name (a bangumi no longer listed), which
/// gives the name, id and cover.
pub open spec fn spec_detail_base(
    groups: Seq<BangumiGroupView>,
    searches: Seq<SearchResultsView>,
    subs: Seq<SubscriptionView>,
    name: Seq<char>,
) -> Option<BangumiItemView> {
    match spec_find_list_item(groups, searches, name) {
        Some(it) => Some(it),
        None => match first_where(subs, |s: SubscriptionView| s.bangumi_name == name) {
            Some(s) => Some(
                BangumiItemView {
                    name,
                    bangumi_id: Some(s.bangumi_id),
                    cover_url: s.cover_url,
                    detail_url: None,
                    meta: None,
                    subtitle_groups: Seq::empty(),
                    update_date: None,
                },
            ),
            None => None,
        },
    }
}

/// The base entry from which a detail page is loaded (see [`spec_detail_base`]).
pub fn detail_base_item(
    groups: &Vec<BangumiGroup>,
    searches: &BoundedCache<SearchResults>,
    subs: &Vec<Subscription>,
    name: &str,
) -> (r: Option<BangumiItem>)
    requires
        searches.wf(),
    ensures
        r.deep_view() == spec_detail_base(groups.deep_view(), search_views(*searches), subs.deep_view(), name@),
{
    match find_list_item(groups, searches, name) {
        Some(it) => return Some(it),
        None => {},
    }
    let ghost p = |s: SubscriptionView| s.bangumi_name == name@;
    let ghost sv = subs.deep_view();
    let n = name.to_owned();
    let mut i: usize = 0;
    while i < subs.len()
        invariant
            i <= subs.len(),
            sv == subs.deep_view(),
            n@ == name@,
            p == (|s: SubscriptionView| s.bangumi_name == name@),
            spec_find_list_item(groups.deep_view(), search_views(*searches), name@) is None,
            forall|k: int| 0 <= k < i ==> !p(#[trigger] sv[k]),
        decreases subs.len() - i,
    {
        if subs[i].bangumi_name == n {
            let s = &subs[i];
            let mut it = BangumiItem::default();
            it.name = n;
            it.bangumi_id = Some(s.bangumi_id);
            it.cover_url = copy_opt_string(&s.cover_url);
            proof {
                assert(sv[i as int].bangumi_name == name@);
                lemma_first_where_at(sv, p, i as int);
                assert(it.subtitle_groups.deep_view() =~= Seq::<crate::model::SubtitleGroupView>::empty());
            }
            return Some(it);
        }
        i = i + 1;
    }
    proof {
        lemma_first_where_none(sv, p);
    }
    None
}

/// The name of a bangumi by id: a loaded detail page, then the name noted when
/// its loading started, then the weekly list, then the subscriptions.
pub open spec fn spec_detail_name_by_bid(
    details: Seq<BangumiItemView>,
    names: Map<u32, String>,
    groups: Seq<BangumiGroupView>,
    subs: Seq<SubscriptionView>,
    bid: u32,
) -> Option<Seq<char>> {
    match first_where(details, query_fn(ItemQueryView::Id(bid))) {
        Some(it) => Some(it.name),
        None => if names.dom().contains(bid) {
            Some(names[bid]@)
        } else {
            match first_where(flat_items(groups), query_fn(ItemQueryView::Id(bid))) {
                Some(it) => Some(it.name),
                None => match first_where(subs, |s: SubscriptionView| s.bangumi_id == bid) {
                    Some(s) => Some(s.bangumi_name),
                    None => None,
                },
            }
        },
    }
}

/// The first subscription of a bangumi.
fn first_subscription_of(subs: &Vec<Subscription>, bid: u32) -> (r: Option<String>)
    ensures
        r.deep_view() == match first_where(subs.deep_view(), |s: SubscriptionView| s.bangumi_id == bid) {
            Some(s) => Some(s.bangumi_name),
            None => None,
        },
{
    let ghost p = |s: SubscriptionView| s.bangumi_id == bid;
    let ghost sv = subs.deep_view();
    let mut i: usize = 0;
    while i < subs.len()
        invariant
            i <= subs.len(),
            sv == subs.deep_view(),
            p == (|s: SubscriptionView| s.bangumi_id == bid),
            forall|k: int| 0 <= k < i ==> !p(#[trigger] sv[k]),
        decreases subs.len() - i,
    {
        if subs[i].bangumi_id == bid {
            proof {
                assert(sv[i as int].bangumi_id == bid);
                lemma_first_where_at(sv, p, i as int);
            }
            return Some(subs[i].bangumi_name.clone());
        }
        i = i + 1;
    }
    proof {
        lemma_first_where_none(sv, p);
    }
    None
}

/// The name of a bangumi by id (see [`spec_detail_name_by_bid`]).
pub fn detail_name_by_bid(
    details: &BoundedCache<BangumiItem>,
    names: &AssocMap<u32, String>,
    groups: &Vec<BangumiGroup>,
    subs: &Vec<Subscription>,
    bid: u32,
) -> (r: Option<String>)
    requires
        details.wf(),
        names.wf(),
    ensures
        r.deep_view() == spec_detail_name_by_bid(detail_views(*details), names@, groups.deep_view(), subs.deep_view(), bid),
{
    match find_in_details(details, &ItemQuery::Id(bid)) {
        Some(it) => return Some(it.name),
        None => {},
    }
    match names.get(&bid) {
        Some(n) => return Some(n.clone()),
        None => {},
    }
    match find_list_item_by_id(groups, bid) {
        Some(it) => return Some(it.name),
        None => {},
    }
    first_subscription_of(subs, bid)
}

/// The name under which a finished detail load is filed: the name noted when
/// its loading started (the note is consumed), else the weekly list, else a
/// cached search, by id.
pub fn take_detail_name(
    names: &mut AssocMap<u32, String>,
    groups: &Vec<BangumiGroup>,
    searches: &BoundedCache<SearchResults>,
    bid: u32,
) -> (r: Option<String>)
    requires
        old(names).wf(),
        searches.wf(),
    ensures
        final(names).wf(),
        final(names)@ == old(names)@.remove(bid),
        r.deep_view() == if old(names)@.dom().contains(bid) {
            Some(old(names)@[bid]@)
        } else {
            match first_where(flat_items(groups.deep_view()), query_fn(ItemQueryView::Id(bid))) {
                Some(it) => Some(it.name),
                None => match first_where(flat_search_items(search_views(*searches)), query_fn(ItemQueryView::Id(bid))) {
                    Some(it) => Some(it.name),
                    None => None,
                },
            }
        },
{
    match names.remove(&bid) {
        Some(n) => return Some(n),
        None => {},
    }
    match find_list_item_by_id(groups, bid) {
        Some(it) => return Some(it.name),
        None => {},
    }
    match find_in_searches(searches, &ItemQuery::Id(bid)) {
        Some(it) => Some(it.name),
        None => None,
    }
}

// ───────────────────────── subscriptions ─────────────────────────

/// Whether `subs` holds the pair (bangumi, subtitle group).
pub open spec fn spec_is_subscribed(subs: Seq<SubscriptionView>, bangumi_id: u32, subgroup_id: u32) -> bool {
    exists|i: int| 0 <= i < subs.len() && subs[i].bangumi_id == bangumi_id && subs[i].subgroup_id == subgroup_id
}

/// Whether one subtitle group of one bangumi is subscribed.
pub fn is_pair_subscribed(subs: &Vec<Subscription>, bangumi_id: u32, subgroup_id: u32) -> (r: bool)
    ensures
        r == spec_is_subscribed(subs.deep_view(), bangumi_id, subgroup_id),
{
    let mut i: usize = 0;
    while i < subs.len()
        invariant
            i <= subs.len(),
            forall|k: int| 0 <= k < i ==> !(#[trigger] subs.deep_view()[k].bangumi_id == bangumi_id
                && subs.deep_view()[k].subgroup_id == subgroup_id),
        decreases subs.len() - i,
    {
        if subs[i].bangumi_id == bangumi_id && subs[i].subgroup_id == subgroup_id {
            assert(subs.deep_view()[i as int].bangumi_id == bangumi_id);
            return true;
        }
        i = i + 1;
    }
    false
}

/// The name given to a subscription whose bangumi or group name is unknown.
pub open spec fn unknown_name() -> Seq<char> {
    "未知"@
}

/// The cover of a new subscription: the weekly list entry of the bangumi's
/// name first, then a cached search entry with the bangumi's id.
pub open spec fn spec_subscription_cover(
    groups: Seq<BangumiGroupView>,
    searches: Seq<SearchResultsView>,
    bangumi_name: Option<Seq<char>>,
    bangumi_id: u32,
) -> Option<Seq<char>> {
    let name = match bangumi_name {
        Some(n) => n,
        None => Seq::empty(),
    };
    let by_name = match spec_find_list_item(groups, searches, name) {
        Some(it) => it.cover_url,
        None => None,
    };
    match by_name {
        Some(c) => Some(c),
        None => match first_where(flat_search_items(searches), query_fn(ItemQueryView::Id(bangumi_id))) {
            Some(it) => it.cover_url,
            None => None,
        },
    }
}

/// A new subscription of (bangumi, group); a missing name reads `未知`.
pub open spec fn spec_new_subscription(
    bangumi_id: u32,
    subgroup_id: u32,
    bangumi_name: Option<Seq<char>>,
    group_name: Option<Seq<char>>,
    cover: Option<Seq<char>>,
) -> SubscriptionView {
    SubscriptionView {
        bangumi_id,
        subgroup_id,
        bangumi_name: match bangumi_name {
            Some(n) => n,
            None => unknown_name(),
        },
        group_name: match group_name {
            Some(n) => n,
            None => unknown_name(),
        },
        cover_url: cover,
    }
}

/// What toggling a subscription leads to.
#[derive(Debug, Clone, Copy, PartialEq, Eq, Structural)]
pub enum Toggle {
    /// The pair was subscribed: the unsubscribe clean-up is to start.
    StartUnsubscribe,
    /// The pair is now subscribed (and the list is to be saved).
    Subscribed,
}

/// Toggles the subscription of one subtitle group: an unsubscribed pair is
/// added at the end of the list with its cover; a subscribed one is left to
/// the unsubscribe clean-up.
pub fn toggle_subscription(
    subs: &mut Vec<Subscription>,
    groups: &Vec<BangumiGroup>,
    searches: &BoundedCache<SearchResults>,
    bangumi_id: u32,
    subgroup_id: u32,
    bangumi_name: Option<&str>,
    group_name: Option<&str>,
) -> (r: Toggle)
    requires
        searches.wf(),
    ensures
        spec_is_subscribed(old(subs).deep_view(), bangumi_id, subgroup_id) ==> r == Toggle::StartUnsubscribe
            && final(subs).deep_view() == old(subs).deep_view(),
        !spec_is_subscribed(old(subs).deep_view(), bangumi_id, subgroup_id) ==> r == Toggle::Subscribed
            && final(subs).deep_view() == old(subs).deep_view().push(
                spec_new_subscription(
                    bangumi_id,
                    subgroup_id,
                    match bangumi_name {
                        Some(n) => Some(n@),
                        None => None,
                    },
                    match group_name {
                        Some(n) => Some(n@),
                        None => None,
                    },
                    spec_subscription_cover(
                        groups.deep_view(),
                        search_views(*searches),
                        match bangumi_name {
                            Some(n) => Some(n@),
                            None => None,
                        },
                        bangumi_id,
                    ),
                ),
            ),
{
    if is_pair_subscribed(subs, bangumi_id, subgroup_id) {
        return Toggle::StartUnsubscribe;
    }
    proof {
        reveal_strlit("");
    }
    let name = match bangumi_name {
        Some(n) => n,
        None => "",
    };
    let by_name = match find_list_item(groups, searches, name) {
        Some(it) => it.cover_url,
        None => None,
    };
    let cover = match by_name {
        Some(c) => Some(c),
        None => match find_in_searches(searches, &ItemQuery::Id(bangumi_id)) {
            Some(it) => it.cover_url,
            None => None,
        },
    };
    let ghost before = subs.deep_view();
    proof {
        reveal_strlit("未知");
    }
    let s = Subscription {
        bangumi_id,
        subgroup_id,
        bangumi_name: match bangumi_name {
            Some(n) => n.to_owned(),
            None => "未知".to_owned(),
        },
        group_name: match group_name {
            Some(n) => n.to_owned(),
            None => "未知".to_owned(),
        },
        cover_url: cover,
    };
    let ghost sv = s.deep_view();
    let ghost nm = match bangumi_name {
        Some(n) => Some(n@),
        None => None,
    };
    let ghost gn = match group_name {
        Some(n) => Some(n@),
        None => None,
    };
    assert(name@ == match nm { Some(n) => n, None => Seq::<char>::empty() });
    assert(s.cover_url.deep_view() == spec_subscription_cover(groups.deep_view(), search_views(*searches), nm, bangumi_id));
    assert(sv == spec_new_subscription(bangumi_id, subgroup_id, nm, gn, s.cover_url.deep_view()));
    subs.push(s);
    assert(subs.deep_view() =~= before.push(sv));
    Toggle::Subscribed
}

/// The subscription of (bangumi, group), if any.
pub fn find_subscription(subs: &Vec<Subscription>, bangumi_id: u32, subgroup_id: u32) -> (r: Option<Subscription>)
    ensures
        match r {
            Some(s) => exists|i: int| 0 <= i < subs@.len() && subs.deep_view()[i] == s.deep_view()
                && s.bangumi_id == bangumi_id && s.subgroup_id == subgroup_id && forall|k: int| 0 <= k < i
                    ==> !(#[trigger] subs.deep_view()[k].bangumi_id == bangumi_id && subs.deep_view()[k].subgroup_id
                    == subgroup_id),
            None => !spec_is_subscribed(subs.deep_view(), bangumi_id, subgroup_id),
        },
{
    let mut i: usize = 0;
    while i < subs.len()
        invariant
            i <= subs.len(),
            forall|k: int| 0 <= k < i ==> !(#[trigger] subs.deep_view()[k].bangumi_id == bangumi_id
                && subs.deep_view()[k].subgroup_id == subgroup_id),
        decreases subs.len() - i,
    {
        if subs[i].bangumi_id == bangumi_id && subs[i].subgroup_id == subgroup_id {
            let s = crate::model::copy_subscription(&subs[i]);
            assert(subs.deep_view()[i as int] == s.deep_view());
            return Some(s);
        }
        i = i + 1;
    }
    None
}

/// `subs` without the pair (bangumi, group).
pub open spec fn without_pair(subs: Seq<SubscriptionView>, bangumi_id: u32, subgroup_id: u32) -> Seq<SubscriptionView> {
    subs.filter(|s: SubscriptionView| !(s.bangumi_id == bangumi_id && s.subgroup_id == subgroup_id))
}

/// Finishes an unsubscribe: the subscription and its filter keyword go.
pub fn finish_unsubscribe(
    subs: &mut Vec<Subscription>,
    keywords: &mut KeywordMap,
    bangumi_id: u32,
    subgroup_id: u32,
)
    requires
        old(keywords).wf(),
    ensures
        final(keywords).wf(),
        final(subs).deep_view() == without_pair(old(subs).deep_view(), bangumi_id, subgroup_id),
        final(keywords).map() == old(keywords).map().remove((bangumi_id, subgroup_id)),
{
    let ghost f = |s: SubscriptionView| !(s.bangumi_id == bangumi_id && s.subgroup_id == subgroup_id);
    let ghost orig = subs.deep_view();
    let mut kept: Vec<Subscription> = Vec::new();
    let mut i: usize = 0;
    while i < subs.len()
        invariant
            i <= subs.len(),
            orig == subs.deep_view(),
            f == (|s: SubscriptionView| !(s.bangumi_id == bangumi_id && s.subgroup_id == subgroup_id)),
            kept.deep_view() == orig.take(i as int).filter(f),
        decreases subs.len() - i,
    {
        let ghost before = kept.deep_view();
        assert(orig.take(i + 1).drop_last() =~= orig.take(i as int));
        reveal_with_fuel(Seq::filter, 1);
        if !(subs[i].bangumi_id == bangumi_id && subs[i].subgroup_id == subgroup_id) {
            let s = crate::model::copy_subscription(&subs[i]);
            let ghost sv = s.deep_view();

            kept.push(s);
            assert(kept.deep_view() =~= before.push(sv));
        }
        i = i + 1;
    }
    assert(orig.take(subs.len() as int) =~= orig);
    *subs = kept;
    keywords.remove(bangumi_id, subgroup_id);
}

/// After subscribing a pair it is subscribed; after unsubscribing it, it is
/// not, and every other subscription is kept.
pub proof fn law_subscribe_unsubscribe(
    subs: Seq<SubscriptionView>,
    s: SubscriptionView,
    bangumi_id: u32,
    subgroup_id: u32,
)
    requires
        s.bangumi_id == bangumi_id,
        s.subgroup_id == subgroup_id,
    ensures
        spec_is_subscribed(subs.push(s), bangumi_id, subgroup_id),
        !spec_is_subscribed(without_pair(subs, bangumi_id, subgroup_id), bangumi_id, subgroup_id),
        forall|t: SubscriptionView| #[trigger] subs.contains(t) && !(t.bangumi_id == bangumi_id && t.subgroup_id == subgroup_id)
            ==> without_pair(subs, bangumi_id, subgroup_id).contains(t),
{
    let f = |t: SubscriptionView| !(t.bangumi_id == bangumi_id && t.subgroup_id == subgroup_id);
    assert(subs.push(s)[subs.len() as int] == s);
    let w = without_pair(subs, bangumi_id, subgroup_id);
    assert forall|i: int| 0 <= i < w.len() implies f(#[trigger] w[i]) by {
        subs.lemma_filter_pred(f, i);
    }
    assert forall|t: SubscriptionView| #[trigger] subs.contains(t) && f(t) implies w.contains(t) by {
        subs.lemma_filter_contains_rev(f, t);
    }
}

// ───────────────────────── unsubscribing ─────────────────────────

/// An unsubscribe waiting for the download engine to clean its folder.
#[derive(Debug, Clone)]
pub struct PendingUnsubscribe {
    pub bangumi_id: u32,
    pub subgroup_id: u32,
    pub bangumi_name: String,
    pub group_name: String,
}

/// The folder that an unsubscribe cleans.
pub open spec fn unsubscribe_dir(download_dir: Seq<char>, p: PendingUnsubscribe) -> Seq<char> {
    join_path(download_dir, spec_subgroup_dir_name(p.bangumi_name@, p.group_name@))
}

/// Starts unsubscribing a pair: for a subscribed pair, what to wait for and
/// the clean-up command of its download folder (named after the first
/// subscription of the pair); nothing otherwise.
pub fn start_unsubscribe(
    subs: &Vec<Subscription>,
    download_dir: &str,
    bangumi_id: u32,
    subgroup_id: u32,
) -> (r: Option<(PendingUnsubscribe, DownloadCmd)>)
    ensures
        r is None <==> !spec_is_subscribed(subs.deep_view(), bangumi_id, subgroup_id),
        r matches Some((p, cmd)) ==> {
            &&& p.bangumi_id == bangumi_id && p.subgroup_id == subgroup_id
            &&& exists|i: int|
                0 <= i < subs@.len() && subs.deep_view()[i].bangumi_id == bangumi_id
                    && subs.deep_view()[i].subgroup_id == subgroup_id
                    && subs.deep_view()[i].bangumi_name == p.bangumi_name@
                    && subs.deep_view()[i].group_name == p.group_name@
                    && forall|k: int| 0 <= k < i ==> !(#[trigger] subs.deep_view()[k].bangumi_id == bangumi_id
                        && subs.deep_view()[k].subgroup_id == subgroup_id)
            &&& cmd matches DownloadCmd::CleanupDir { dir, bangumi_name, group_name }
                && dir@ == unsubscribe_dir(download_dir@, p)
                && bangumi_name@ == p.bangumi_name@ && group_name@ == p.group_name@
        },
{
    let s = match find_subscription(subs, bangumi_id, subgroup_id) {
        Some(s) => s,
        None => return None,
    };
    let dir = subgroup_download_dir(download_dir, s.bangumi_name.as_str(), s.group_name.as_str());
    let cmd = DownloadCmd::CleanupDir {
        dir,
        bangumi_name: s.bangumi_name.clone(),
        group_name: s.group_name.clone(),
    };
    let p = PendingUnsubscribe {
        bangumi_id,
        subgroup_id,
        bangumi_name: s.bangumi_name,
        group_name: s.group_name,
    };
    Some((p, cmd))
}

/// What an answer of the download engine means for the waiting unsubscribe.
#[derive(Debug, Clone)]
pub enum UnsubscribeOutcome {
    /// No unsubscribe waits, or the answer is about another folder.
    Ignored,
    /// Tasks in the folder still run: the user is warned (with their titles)
    /// and the unsubscribe is dropped.
    Blocked { bangumi_name: String, group_name: String, titles: Vec<String> },
    /// The folder is cleaned: the subscription and its keyword go.
    Done { bangumi_id: u32, subgroup_id: u32 },
}

/// The folder an engine notice is about, if it is an unsubscribe answer.
pub open spec fn event_dir(e: DownloadEvent) -> Option<Seq<char>> {
    match e {
        DownloadEvent::UnsubscribeBlocked { dir, .. } => Some(dir@),
        DownloadEvent::UnsubscribeDone { dir } => Some(dir@),
        _ => None,
    }
}

/// Whether a notice answers the waiting unsubscribe (same folder).
pub open spec fn answers(pending: Option<PendingUnsubscribe>, download_dir: Seq<char>, e: DownloadEvent) -> bool {
    match pending {
        Some(p) => event_dir(e) == Some(unsubscribe_dir(download_dir, p)),
        None => false,
    }
}

/// Applies an engine notice to the waiting unsubscribe: an answer about its
/// folder concludes it (warning or removal); anything else leaves it waiting.
pub fn on_download_event(
    pending: &mut Option<PendingUnsubscribe>,
    download_dir: &str,
    event: &DownloadEvent,
) -> (r: UnsubscribeOutcome)
    ensures
        !answers(*old(pending), download_dir@, *event) ==> r is Ignored && *final(pending) == *old(pending),
        answers(*old(pending), download_dir@, *event) ==> {
            let p = old(pending).unwrap();
            &&& *final(pending) is None
            &&& match *event {
                DownloadEvent::UnsubscribeBlocked { titles, .. } => r matches UnsubscribeOutcome::Blocked {
                    bangumi_name: b,
                    group_name: g,
                    titles: t,
                } && b@ == p.bangumi_name@ && g@ == p.group_name@ && t.deep_view() == titles.deep_view(),
                _ => r == UnsubscribeOutcome::Done { bangumi_id: p.bangumi_id, subgroup_id: p.subgroup_id },
            }
        },
{
    let (bid, gid, expected, bname, gname) = match pending {
        Some(p) => (
            p.bangumi_id,
            p.subgroup_id,
            subgroup_download_dir(download_dir, p.bangumi_name.as_str(), p.group_name.as_str()),
            p.bangumi_name.clone(),
            p.group_name.clone(),
        ),
        None => return UnsubscribeOutcome::Ignored,
    };
    match event {
        DownloadEvent::UnsubscribeBlocked { dir, titles } => {
            if *dir == expected {
                *pending = None;
                let mut t: Vec<String> = Vec::new();
                let mut i: usize = 0;
                while i < titles.len()
                    invariant
                        i <= titles.len(),
                        t.deep_view() == titles.deep_view().take(i as int),
                    decreases titles.len() - i,
                {
                    let ghost before = t.deep_view();
                    let x = titles[i].clone();
                    t.push(x);
                    assert(t.deep_view() =~= titles.deep_view().take(i + 1)) by {
                        assert(titles.deep_view().take(i + 1) =~= before.push(titles.deep_view()[i as int]));
                    }
                    i = i + 1;
                }
                assert(titles.deep_view().take(titles.len() as int) =~= titles.deep_view());
                UnsubscribeOutcome::Blocked { bangumi_name: bname, group_name: gname, titles: t }
            } else {
                UnsubscribeOutcome::Ignored
            }
        },
        DownloadEvent::UnsubscribeDone { dir } => {
            if *dir == expected {
                *pending = None;
                UnsubscribeOutcome::Done { bangumi_id: bid, subgroup_id: gid }
            } else {
                UnsubscribeOutcome::Ignored
            }
        },
        _ => UnsubscribeOutcome::Ignored,
    }
}

// ───────────────────────── filter keywords ─────────────────────────

/// The episode filter keywords: (bangumi id, subtitle group id) → keyword.
pub struct KeywordMap {
    map: AssocMap<(u32, u32), String>,
}

impl KeywordMap {
    pub closed spec fn map(&self) -> Map<(u32, u32), Seq<char>> {
        self.map@.map_values(|v: String| v@)
    }

    pub closed spec fn order(&self) -> Seq<(u32, u32)> {
        self.map.key_order()
    }

    pub closed spec fn wf(&self) -> bool {
        self.map.wf()
    }

    pub proof fn lemma_order(&self)
        requires
            self.wf(),
        ensures
            self.order().no_duplicates(),
            self.order().to_set() == self.map().dom(),
            self.order().len() == self.map().dom().len(),
            self.map().dom().finite(),
    {
        self.map.lemma_key_order();
        assert(self.map().dom() =~= self.map@.dom());
    }

    /// The number of keywords.
    pub fn len(&self) -> (n: usize)
        requires
            self.wf(),
        ensures
            n == self.map().dom().len(),
    {
        proof {
            assert(self.map().dom() =~= self.map@.dom());
        }
        self.map.len()
    }

    pub fn new() -> (r: Self)
        ensures
            r.wf(),
            r.order() == Seq::<(u32, u32)>::empty(),
            r.map() == Map::<(u32, u32), Seq<char>>::empty(),
    {
        let r = KeywordMap { map: AssocMap::new() };
        assert(r.map() =~= Map::<(u32, u32), Seq<char>>::empty());
        r
    }

    /// The keyword of a subscription, if any.
    pub fn get(&self, bangumi_id: u32, subgroup_id: u32) -> (r: Option<String>)
        requires
            self.wf(),
        ensures
            r.deep_view() == if self.map().dom().contains((bangumi_id, subgroup_id)) {
                Some(self.map()[(bangumi_id, subgroup_id)])
            } else {
                None
            },
    {
        match self.map.get(&(bangumi_id, subgroup_id)) {
            Some(v) => Some(v.clone()),
            None => None,
        }
    }

    pub fn insert(&mut self, bangumi_id: u32, subgroup_id: u32, keyword: String)
        requires
            old(self).wf(),
        ensures
            final(self).wf(),
            final(self).map() == old(self).map().insert((bangumi_id, subgroup_id), keyword@),
    {
        self.map.insert((bangumi_id, subgroup_id), keyword);
        assert(self.map() =~= old(self).map().insert((bangumi_id, subgroup_id), keyword@));
    }

    pub fn remove(&mut self, bangumi_id: u32, subgroup_id: u32)
        requires
            old(self).wf(),
        ensures
            final(self).wf(),
            final(self).map() == old(self).map().remove((bangumi_id, subgroup_id)),
    {
        self.map.remove(&(bangumi_id, subgroup_id));
        assert(self.map() =~= old(self).map().remove((bangumi_id, subgroup_id)));
    }

    /// Applies what the user typed as the keyword of a subscription: the
    /// trimmed text, or no keyword when nothing is left.
    pub fn apply_input(&mut self, bangumi_id: u32, subgroup_id: u32, input: &str)
        requires
            old(self).wf(),
        ensures
            final(self).wf(),
            final(self).map() == if crate::text::trim(input@).len() == 0 {
                old(self).map().remove((bangumi_id, subgroup_id))
            } else {
                old(self).map().insert((bangumi_id, subgroup_id), crate::text::trim(input@))
            },
    {
        let t = crate::text::trim_str(input);
        if t.as_str().is_empty() {
            self.remove(bangumi_id, subgroup_id);
        } else {
            self.insert(bangumi_id, subgroup_id, t);
        }
    }

    /// The entries, in insertion order.
    pub fn entries(&self) -> (r: &Vec<((u32, u32), String)>)
        requires
            self.wf(),
        ensures
            r@.map_values(|e: ((u32, u32), String)| e.0) == self.order(),
            forall|i: int| 0 <= i < r@.len() ==> self.map().dom().contains(#[trigger] r@[i].0) && self.map()[r@[i].0] == r@[i].1@,
            r@.len() == self.map().dom().len(),
    {
        let r = self.map.entries();
        proof {
            assert(r@.map_values(|e: ((u32, u32), String)| e.0) =~= r@.map_values(|e: ((u32, u32), String)| e.0.key_model()));
            assert(self.map().dom() =~= self.map@.dom());
            assert forall|i: int| 0 <= i < r@.len() implies self.map().dom().contains(#[trigger] r@[i].0) && self.map()[r@[i].0] == r@[i].1@ by {
                assert(self.map@.dom().contains(r@[i].0.key_model()));
                assert(self.map@[r@[i].0.key_model()] == r@[i].1);
            }
        }
        r
    }
}

} // verus!
