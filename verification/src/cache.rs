//! Disk cache rules: images are kept for good under a size cap (oldest go
//! first), page data as JSON with a time to live.
//!
//! Layout under the cache directory:
//! ```text
//! images/<resource key, sha-256>   covers, permanent, capped at 512 MiB
//! list.json                        list page (30 min)
//! detail/<id>.json                 detail pages (24 h)
//! search/<query hash>.json         searches (10 min)
//! ```

use vstd::prelude::*;

use crate::text::{
    chars_of, decimal, first_index_of, has_prefix, lemma_decimal, push_chars, push_decimal, push_str,
    starts_with_str, string_of,
};

verus! {

/// Time to live of the list page, in milliseconds.
pub const LIST_TTL_MS: u64 = 30 * 60 * 1000;

/// Time to live of a detail page, in milliseconds.
pub const DETAIL_TTL_MS: u64 = 24 * 60 * 60 * 1000;

/// Time to live of a search, in milliseconds.
pub const SEARCH_TTL_MS: u64 = 10 * 60 * 1000;

/// Soft cap of the image cache, in bytes.
pub const IMAGE_CACHE_LIMIT: u64 = 512 * 1024 * 1024;

/// What an oversized image cache is brought down to: 80 % of the cap,
/// rounded down (`(512 MiB as f64 * 0.8) as u64`).
pub const IMAGE_CACHE_TARGET: u64 = 429_496_729;

// ───────────────────────── hashing ─────────────────────────

/// The SHA-256 digest of `data`.
pub uninterp spec fn sha256_digest(data: Seq<u8>) -> Seq<u8>;

/// SHA-256 of `data` (`sha2::Sha256::digest`).
///
/// Trusted: the digest is a function of the data alone and is 32 bytes long.
#[verifier::external_body]
fn sha256(data: &[u8]) -> (res: Vec<u8>)
    ensures
        res@ == sha256_digest(data@),
        res@.len() == 32,
{
    <sha2::Sha256 as sha2::Digest>::digest(data).to_vec()
}

pub open spec fn hex_lower_digit(d: u8) -> char {
    if d < 10 {
        crate::text::digit_char(d as nat)
    } else if d == 10 {
        'a'
    } else if d == 11 {
        'b'
    } else if d == 12 {
        'c'
    } else if d == 13 {
        'd'
    } else if d == 14 {
        'e'
    } else {
        'f'
    }
}

fn hex_lower_char(d: u8) -> (c: char)
    requires
        d < 16,
    ensures
        c == hex_lower_digit(d),
{
    if d < 10 {
        crate::text::digit_to_char(d as u64)
    } else if d == 10 {
        'a'
    } else if d == 11 {
        'b'
    } else if d == 12 {
        'c'
    } else if d == 13 {
        'd'
    } else if d == 14 {
        'e'
    } else {
        'f'
    }
}

/// Two lower-case hex digits per byte (what `{:x}` prints for a digest).
pub open spec fn hex_lower(bytes: Seq<u8>) -> Seq<char>
    decreases bytes.len(),
{
    if bytes.len() == 0 {
        Seq::empty()
    } else {
        hex_lower(bytes.drop_last()) + seq![hex_lower_digit(bytes.last() / 16), hex_lower_digit(bytes.last() % 16)]
    }
}

proof fn lemma_hex_lower_len(bytes: Seq<u8>)
    ensures
        hex_lower(bytes).len() == 2 * bytes.len(),
    decreases bytes.len(),
{
    if bytes.len() > 0 {
        lemma_hex_lower_len(bytes.drop_last());
    }
}

/// The cache name of a text: the lower-case hex SHA-256 of its UTF-8 bytes.
pub open spec fn spec_url_hash(s: Seq<char>) -> Seq<char> {
    hex_lower(sha256_digest(vstd::utf8::encode_utf8(s)))
}

/// The cache name of a text (see [`spec_url_hash`]); 64 characters long.
pub fn url_hash(url: &str) -> (res: String)
    ensures
        res@ == spec_url_hash(url@),
        res@.len() == 64,
{
    let digest = sha256(url.as_bytes());
    let mut out: Vec<char> = Vec::new();
    let mut i: usize = 0;
    while i < digest.len()
        invariant
            i <= digest@.len(),
            out@ == hex_lower(digest@.take(i as int)),
        decreases digest@.len() - i,
    {
        let b = digest[i];
        assert(digest@.take(i + 1).drop_last() =~= digest@.take(i as int));
        out.push(hex_lower_char(b / 16));
        out.push(hex_lower_char(b % 16));
        i = i + 1;
        assert(out@ =~= hex_lower(digest@.take(i as int)));
    }
    assert(digest@.take(digest@.len() as int) =~= digest@);
    proof {
        lemma_hex_lower_len(digest@);
    }
    string_of(&out)
}

// ───────────────────────── keys ─────────────────────────

/// The part of an image URL that names the resource: for an `http://` or
/// `https://` address with a path, `/` and the path with its query; anything
/// else whole. The host takes no part, so the same picture under the site's
/// spare domain is the same cache entry; the query does (it picks the size).
pub open spec fn spec_image_resource(url: Seq<char>) -> Seq<char> {
    let rest = if has_prefix(url, "https://"@) {
        Some(url.skip(8))
    } else if has_prefix(url, "http://"@) {
        Some(url.skip(7))
    } else {
        None
    };
    match rest {
        Some(r) => match first_index_of(r, '/') {
            Some(i) => seq!['/'] + r.skip(i + 1),
            None => url,
        },
        None => url,
    }
}

/// The cache key of an image URL: the hash of its resource part.
pub open spec fn spec_image_key(url: Seq<char>) -> Seq<char> {
    spec_url_hash(spec_image_resource(url))
}

fn image_resource(url: &str) -> (res: Vec<char>)
    ensures
        res@ == spec_image_resource(url@),
{
    let u = chars_of(url);
    proof {
        reveal_strlit("https://");
        reveal_strlit("http://");
    }
    let rest = if starts_with_str(&u, "https://") {
        Some(crate::text::slice_chars(&u, 8, u.len()))
    } else if starts_with_str(&u, "http://") {
        Some(crate::text::slice_chars(&u, 7, u.len()))
    } else {
        None
    };
    match rest {
        Some(r) => {
            assert(r@ =~= if has_prefix(u@, "https://"@) { u@.skip(8) } else { u@.skip(7) });
            match crate::text::find_char(&r, '/') {
                Some(i) => {
                    let mut out: Vec<char> = Vec::new();
                    out.push('/');
                    let tail = crate::text::slice_chars(&r, i + 1, r.len());
                    push_chars(&mut out, &tail);
                    assert(out@ =~= seq!['/'] + r@.skip(i + 1));
                    out
                },
                None => u,
            }
        },
        None => u,
    }
}

/// The cache key (file name) of an image URL (see [`spec_image_key`]).
pub fn image_key(url: &str) -> (res: String)
    ensures
        res@ == spec_image_key(url@),
{
    let r = image_resource(url);
    let s = string_of(&r);
    url_hash(s.as_str())
}

/// The image cache does not depend on the site's host: two `http(s)` URLs
/// that differ only in scheme and host (a host holds no `/`) and share the
/// path and query have the same cache key.
pub proof fn law_image_key_host_independent(
    scheme1: Seq<char>,
    host1: Seq<char>,
    scheme2: Seq<char>,
    host2: Seq<char>,
    path: Seq<char>,
)
    requires
        scheme1 == "https://"@ || scheme1 == "http://"@,
        scheme2 == "https://"@ || scheme2 == "http://"@,
        forall|i: int| 0 <= i < host1.len() ==> host1[i] != '/',
        forall|i: int| 0 <= i < host2.len() ==> host2[i] != '/',
    ensures
        spec_image_key(scheme1 + host1 + seq!['/'] + path) == spec_image_key(scheme2 + host2 + seq!['/'] + path),
        spec_image_resource(scheme1 + host1 + seq!['/'] + path) == seq!['/'] + path,
{
    lemma_image_resource_of(scheme1, host1, path);
    lemma_image_resource_of(scheme2, host2, path);
}

proof fn lemma_image_resource_of(scheme: Seq<char>, host: Seq<char>, path: Seq<char>)
    requires
        scheme == "https://"@ || scheme == "http://"@,
        forall|i: int| 0 <= i < host.len() ==> host[i] != '/',
    ensures
        spec_image_resource(scheme + host + seq!['/'] + path) == seq!['/'] + path,
{
    reveal_strlit("https://");
    reveal_strlit("http://");
    let url = scheme + host + seq!['/'] + path;
    let r = host + seq!['/'] + path;
    if scheme == "https://"@ {
        assert(url.subrange(0, 8) =~= "https://"@);
        assert(url.skip(8) =~= r);
    } else {
        assert(url.subrange(0, 7) =~= "http://"@);
        assert(url[4] == ':');
        assert(!has_prefix(url, "https://"@));
        assert(url.skip(7) =~= r);
    }
    let n = host.len() as int;
    assert(r[n] == '/');
    assert forall|k: int| 0 <= k < n implies r[k] != '/' by {
        assert(r[k] == host[k]);
    }
    assert(first_index_of(r, '/') == Some(n)) by {
        let i = choose|i: int| 0 <= i < r.len() && r[i] == '/' && forall|k: int| 0 <= k < i ==> r[k] != '/';
        if i < n {
            assert(r[i] == host[i]);
        }
    }
    assert(r.skip(n + 1) =~= path);
}

/// The key of the list page cache.
pub fn list_cache_key() -> (res: String)
    ensures
        res@ == "list"@,
{
    "list".to_owned()
}

/// The key of a detail page cache: `detail/<id>`.
pub fn detail_cache_key(id: u32) -> (res: String)
    ensures
        res@ == "detail/"@ + decimal(id as nat),
{
    let mut out: Vec<char> = Vec::new();
    push_str(&mut out, "detail/");
    push_decimal(&mut out, id as u64);
    string_of(&out)
}

/// Two detail pages share a cache file only when they are the same page.
pub proof fn law_detail_keys_distinct(a: u32, b: u32)
    ensures
        ("detail/"@ + decimal(a as nat) == "detail/"@ + decimal(b as nat)) <==> a == b,
{
    if "detail/"@ + decimal(a as nat) == "detail/"@ + decimal(b as nat) {
        let n = "detail/"@.len() as int;
        assert(decimal(a as nat) =~= ("detail/"@ + decimal(a as nat)).skip(n));
        assert(decimal(b as nat) =~= ("detail/"@ + decimal(b as nat)).skip(n));
        lemma_decimal(a as nat);
        lemma_decimal(b as nat);
    }
}

/// The key of a search cache: `search/<hash of the query>`.
pub fn search_cache_key(query: &str) -> (res: String)
    ensures
        res@ == "search/"@ + spec_url_hash(query@),
{
    let h = url_hash(query);
    let mut out: Vec<char> = Vec::new();
    push_str(&mut out, "search/");
    push_str(&mut out, h.as_str());
    string_of(&out)
}

/// The file of a JSON cache key, relative to the cache directory:
/// `<key>.json`.
pub fn json_file_name(key: &str) -> (res: String)
    ensures
        res@ == key@ + ".json"@,
{
    let mut out: Vec<char> = Vec::new();
    push_str(&mut out, key);
    push_str(&mut out, ".json");
    string_of(&out)
}

/// A cache file is fresh when its age is known and below the time to live; a
/// file whose age cannot be told (no time stamp, stamped in the future) is
/// stale.
pub fn is_fresh(age_ms: Option<u64>, ttl_ms: u64) -> (res: bool)
    ensures
        res == match age_ms {
            Some(a) => a < ttl_ms,
            None => false,
        },
{
    match age_ms {
        Some(a) => a < ttl_ms,
        None => false,
    }
}

// ───────────────────────── image cache cap ─────────────────────────

/// `k` comes before `l` when ordering by time stamp, then by position.
pub open spec fn stamp_before(stamps: Seq<u64>, k: usize, l: usize) -> bool {
    stamps[k as int] < stamps[l as int] || (stamps[k as int] == stamps[l as int] && k < l)
}

/// `order` lists every position of `stamps` once, oldest first; files with the
/// same time stamp keep their listing order (a stable sort by time stamp).
pub open spec fn is_age_order(stamps: Seq<u64>, order: Seq<usize>) -> bool {
    &&& order.len() == stamps.len()
    &&& forall|k: int| 0 <= k < order.len() ==> #[trigger] order[k] < stamps.len()
    &&& order.no_duplicates()
    &&& forall|a: int, b: int| 0 <= a < b < order.len() ==> stamp_before(stamps, #[trigger] order[a], #[trigger] order[b])
}

/// The sum of `sizes`.
pub open spec fn total_size(sizes: Seq<u64>) -> nat
    decreases sizes.len(),
{
    if sizes.len() == 0 {
        0
    } else {
        total_size(sizes.drop_last()) + (sizes.last() as nat)
    }
}

/// The positions of the files oldest first, by a stable insertion sort on
/// the time stamps.
pub fn age_order(stamps: &Vec<u64>) -> (order: Vec<usize>)
    ensures
        is_age_order(stamps@, order@),
{
    let mut order: Vec<usize> = Vec::new();
    let mut i: usize = 0;
    while i < stamps.len()
        invariant
            i <= stamps.len(),
            order@.len() == i,
            forall|k: int| 0 <= k < order@.len() ==> #[trigger] order@[k] < i,
            order@.no_duplicates(),
            forall|a: int, b: int| 0 <= a < b < order@.len() ==> stamp_before(stamps@, #[trigger] order@[a], #[trigger] order@[b]),
        decreases stamps.len() - i,
    {
        // position at which `i` goes: after every entry that comes before it
        let mut p: usize = order.len();
        while p > 0 && stamps[order[p - 1]] > stamps[i]
            invariant
                p <= order@.len(),
                i < stamps@.len(),
                forall|k: int| 0 <= k < order@.len() ==> #[trigger] order@[k] < i,
                forall|k: int| p <= k < order@.len() ==> stamps@[#[trigger] order@[k] as int] > stamps@[i as int],
            decreases p,
        {
            p = p - 1;
        }
        let ghost old_order = order@;
        order.insert(p, i);
        proof {
            assert(order@ == old_order.insert(p as int, i));
            assert forall|k: int| 0 <= k < order@.len() implies #[trigger] order@[k] < i + 1 by {
                if k < p {
                    assert(order@[k] == old_order[k]);
                } else if k > p {
                    assert(order@[k] == old_order[k - 1]);
                }
            }
            assert forall|a: int, b: int| 0 <= a < order@.len() && 0 <= b < order@.len() && a != b implies order@[a] != order@[b] by {
                let oa = if a < p { a } else { a - 1 };
                let ob = if b < p { b } else { b - 1 };
                if a != p && b != p {
                    assert(order@[a] == old_order[oa]);
                    assert(order@[b] == old_order[ob]);
                } else if a == p {
                    assert(order@[b] == old_order[ob]);
                } else {
                    assert(order@[a] == old_order[oa]);
                }
            }
            assert forall|a: int, b: int| 0 <= a < b < order@.len() implies stamp_before(stamps@, #[trigger] order@[a], #[trigger] order@[b]) by {
                if a < p && b < p {
                    assert(order@[a] == old_order[a]);
                    assert(order@[b] == old_order[b]);
                } else if a < p && b == p {
                    assert(order@[a] == old_order[a]);
                    assert(stamps@[old_order[p - 1] as int] <= stamps@[i as int]);
                    if a < p - 1 {
                        assert(stamp_before(stamps@, old_order[a], old_order[p - 1]));
                    }
                } else if a < p && b > p {
                    assert(order@[a] == old_order[a]);
                    assert(order@[b] == old_order[b - 1]);
                } else if a == p {
                    assert(order@[b] == old_order[b - 1]);
                    assert(stamps@[old_order[b - 1] as int] > stamps@[i as int]);
                } else {
                    assert(order@[a] == old_order[a - 1]);
                    assert(order@[b] == old_order[b - 1]);
                }
            }
        }
        i = i + 1;
    }
    order
}

/// The abstract state of a clean-up of the image cache.
pub struct EvictionModel {
    /// Sizes of the files, as listed.
    pub sizes: Seq<u64>,
    /// The order in which files are tried.
    pub order: Seq<usize>,
    /// Total size before the clean-up.
    pub total: nat,
    /// Bytes removed so far.
    pub freed: nat,
    /// How many files have been tried.
    pub next: nat,
}

/// The clean-up goes on while the cache is above the target and files are
/// left to try.
pub open spec fn eviction_goes_on(m: EvictionModel) -> bool {
    m.total - m.freed > IMAGE_CACHE_TARGET as int && m.next < m.order.len()
}

/// A clean-up of the image cache, run one file at a time: the oldest files go
/// first until the cache is back to [`IMAGE_CACHE_TARGET`]; a file that cannot
/// be removed frees nothing and the next one is tried.
pub struct Eviction {
    sizes: Vec<u64>,
    order: Vec<usize>,
    total: u64,
    freed: u128,
    next: usize,
}

impl View for Eviction {
    type V = EvictionModel;

    closed spec fn view(&self) -> EvictionModel {
        EvictionModel {
            sizes: self.sizes@,
            order: self.order@,
            total: self.total as nat,
            freed: self.freed as nat,
            next: self.next as nat,
        }
    }
}

proof fn lemma_total_prefix(sizes: Seq<u64>, i: int)
    requires
        0 <= i < sizes.len(),
    ensures
        total_size(sizes.take(i + 1)) == total_size(sizes.take(i)) + sizes[i],
{
    assert(sizes.take(i + 1).drop_last() =~= sizes.take(i));
}

impl Eviction {
    pub closed spec fn wf(&self) -> bool {
        &&& self.order@.len() == self.sizes@.len()
        &&& self.order@.no_duplicates()
        &&& forall|k: int| 0 <= k < self.order@.len() ==> #[trigger] self.order@[k] < self.sizes@.len()
        &&& self.total as nat == total_size(self.sizes@)
        &&& self.next <= self.order@.len()
        &&& self.freed <= self.next * (u64::MAX as nat)
    }

    /// Starts a clean-up over files with the given time stamps and sizes: no
    /// clean-up (`None`) when the cache is within [`IMAGE_CACHE_LIMIT`].
    pub fn start(stamps: &Vec<u64>, sizes: Vec<u64>) -> (res: Option<Eviction>)
        requires
            stamps@.len() == sizes@.len(),
            total_size(sizes@) <= u64::MAX,
        ensures
            res is None <==> total_size(sizes@) <= IMAGE_CACHE_LIMIT,
            res matches Some(e) ==> e.wf() && e@.sizes == sizes@ && is_age_order(stamps@, e@.order)
                && e@.total == total_size(sizes@) && e@.freed == 0 && e@.next == 0,
    {
        let mut total: u64 = 0;
        let mut i: usize = 0;
        while i < sizes.len()
            invariant
                i <= sizes@.len(),
                total == total_size(sizes@.take(i as int)),
                total_size(sizes@) <= u64::MAX,
            decreases sizes@.len() - i,
        {
            proof {
                lemma_total_prefix(sizes@, i as int);
                lemma_total_prefix_le(sizes@, i + 1);
            }
            total = total + sizes[i];
            i = i + 1;
        }
        assert(sizes@.take(sizes@.len() as int) =~= sizes@);
        if total <= IMAGE_CACHE_LIMIT {
            return None;
        }
        let order = age_order(stamps);
        Some(Eviction { sizes, order, total, freed: 0, next: 0 })
    }

    /// The position of the next file to remove, or `None` when the clean-up is
    /// over.
    pub fn next_victim(&self) -> (res: Option<usize>)
        requires
            self.wf(),
        ensures
            res is Some <==> eviction_goes_on(self@),
            res matches Some(k) ==> k == self@.order[self@.next as int] && k < self@.sizes.len(),
    {
        proof {
            assert(self.next * (u64::MAX as nat) <= usize::MAX * (u64::MAX as nat)) by (nonlinear_arith)
                requires
                    self.next <= usize::MAX,
            ;
        }
        if (self.total as u128) > self.freed + (IMAGE_CACHE_TARGET as u128) && self.next < self.order.len() {
            Some(self.order[self.next])
        } else {
            None
        }
    }

    /// Records whether the file that [`Eviction::next_victim`] named was removed.
    pub fn record(&mut self, removed: bool)
        requires
            old(self).wf(),
            eviction_goes_on(old(self)@),
        ensures
            final(self).wf(),
            final(self)@ == (EvictionModel {
                next: old(self)@.next + 1,
                freed: if removed {
                    old(self)@.freed + (old(self)@.sizes[old(self)@.order[old(self)@.next as int] as int] as nat)
                } else {
                    old(self)@.freed
                },
                ..old(self)@
            }),
    {
        let k = self.order[self.next];
        let n = self.order.len();
        proof {
            assert(self.next + 1 <= usize::MAX);
            assert(self.freed + (u64::MAX as nat) <= (self.next + 1) * (u64::MAX as nat)) by (nonlinear_arith)
                requires
                    self.freed <= self.next * (u64::MAX as nat),
            ;
            assert((self.next + 1) * (u64::MAX as nat) <= usize::MAX * (u64::MAX as nat)) by (nonlinear_arith)
                requires
                    self.next + 1 <= usize::MAX,
            ;
        }
        if removed {
            self.freed = self.freed + self.sizes[k] as u128;
        }
        self.next = self.next + 1;
    }

    /// Bytes removed so far.
    pub fn freed(&self) -> (res: u128)
        ensures
            res == self@.freed,
    {
        self.freed
    }
}

proof fn lemma_total_prefix_le(sizes: Seq<u64>, i: int)
    requires
        0 <= i <= sizes.len(),
    ensures
        total_size(sizes.take(i)) <= total_size(sizes),
    decreases sizes.len() - i,
{
    if i < sizes.len() {
        lemma_total_prefix_le(sizes, i + 1);
        lemma_total_prefix(sizes, i);
    } else {
        assert(sizes.take(i) =~= sizes);
    }
}

} // verus!
