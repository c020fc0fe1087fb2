//! Access policy of the Mikan site (the aim: touch the server as little as
//! possible) and the URL rules of the site.
//!
//! - **Throttling**: a minimum interval between two requests.
//! - **Backoff**: after a failure the same URL is not requested for a while,
//!   the while growing with the global streak of failures.
//! - **Bounded concurrency**: at most two requests in flight.
//! - **Deduplication**: one download per image URL at a time.
//!
//! The state lives in plain values ([`NetState`], [`ImageRegistry`]); the
//! caller owns it (behind its own lock) and passes the current time in
//! milliseconds of a monotonic clock. The HTTP exchange itself happens at the
//! caller, between [`NetState::begin_fetch`], [`NetState::try_acquire_slot`] and
//! [`NetState::complete_fetch`].

use vstd::prelude::*;

use crate::assoc::{AssocKey, AssocMap};
use crate::text::{
    ascii_lower_chars, ascii_lower_seq, chars_of, decimal, digit_char, digit_to_char, eq_str,
    find_char, first_index_of, has_prefix, lines, lines_of, push_chars, push_decimal, push_str,
    slice_chars, starts_with_chars, starts_with_str, string_of, trim, trim_chars, trim_start,
    trim_start_chars, TrimSet,
};

verus! {

/// Minimum interval between two requests, in milliseconds.
pub const MIN_INTERVAL_MS: u64 = 300;

/// Base backoff after a failure, in milliseconds.
pub const BACKOFF_BASE_MS: u64 = 30_000;

/// Most requests in flight at once.
pub const MAX_CONCURRENCY: usize = 2;

/// Cool-down after a failed image download before it may be claimed again, in
/// milliseconds.
pub const IMAGE_RETRY_COOLDOWN_MS: u64 = 60_000;

/// Size limit of one image, in bytes.
pub const MAX_IMAGE_BYTES: usize = 10 * 1024 * 1024;

/// The longest backoff that one failure can set, in milliseconds.
pub const MAX_BACKOFF_MS: u64 = 480_000;

/// The root address of the site.
pub open spec fn spec_base_url() -> Seq<char> {
    "https://mikanani.me"@
}

/// The root address of the site.
pub fn base_url() -> (res: &'static str)
    ensures
        res@ == spec_base_url(),
{
    "https://mikanani.me"
}

/// Time from `then` to `now`, zero when `now` is earlier (the clock's
/// `duration_since` saturates).
pub open spec fn elapsed(now: u64, then: u64) -> int {
    if now >= then {
        now - then
    } else {
        0
    }
}

fn elapsed_ms(now: u64, then: u64) -> (res: u64)
    ensures
        res == elapsed(now, then),
{
    if now >= then {
        now - then
    } else {
        0
    }
}

// ───────────────────────── request state ─────────────────────────

/// The abstract request state.
pub struct NetModel {
    /// Time of the last request that was let through.
    pub last_request: Option<u64>,
    /// Requests in flight.
    pub inflight: nat,
    /// URL → earliest time at which it may be requested again.
    pub backoff: Map<Seq<char>, u64>,
    /// Consecutive failures, over all URLs.
    pub fail_streak: u32,
}

/// The multiplier of the base backoff after `streak` consecutive failures:
/// 1, 2, 4, 8, then 16 from the fifth failure on, so that the backoff runs
/// 30 s → 60 s → 120 s → 240 s → 480 s.
pub open spec fn backoff_factor(streak: u32) -> u64 {
    if streak <= 1 {
        1
    } else if streak == 2 {
        2
    } else if streak == 3 {
        4
    } else if streak == 4 {
        8
    } else {
        16
    }
}

/// Whether `url` is inside its backoff window at `now`.
pub open spec fn spec_in_backoff(m: NetModel, url: Seq<char>, now: u64) -> bool {
    m.backoff.dom().contains(url) && now < m.backoff[url]
}

/// The state after asking whether `url` is in backoff: an expired entry is
/// dropped, so the table stays bounded.
pub open spec fn spec_after_backoff_check(m: NetModel, url: Seq<char>, now: u64) -> NetModel {
    if m.backoff.dom().contains(url) && now >= m.backoff[url] {
        NetModel { backoff: m.backoff.remove(url), ..m }
    } else {
        m
    }
}

/// Whether a request may start at `now`: a free slot and the minimum interval
/// since the last request.
pub open spec fn spec_may_acquire(m: NetModel, now: u64) -> bool {
    &&& m.inflight < MAX_CONCURRENCY
    &&& match m.last_request {
        Some(last) => elapsed(now, last) >= MIN_INTERVAL_MS,
        None => true,
    }
}

/// The state after trying to start a request at `now`.
pub open spec fn spec_after_acquire(m: NetModel, now: u64) -> NetModel {
    if spec_may_acquire(m, now) {
        NetModel { last_request: Some(now), inflight: m.inflight + 1, ..m }
    } else {
        m
    }
}

/// The failure streak after one more failure (it stops growing at `u32::MAX`).
pub open spec fn next_streak(streak: u32) -> u32 {
    if streak == u32::MAX {
        streak
    } else {
        (streak + 1) as u32
    }
}

/// The end of a backoff window of `len` milliseconds from `now` (the end of
/// time when that does not fit).
pub open spec fn window_end(now: u64, len: u64) -> u64 {
    if now + len > u64::MAX {
        u64::MAX
    } else {
        (now + len) as u64
    }
}

/// The state after a failed request of `url` at `now`.
pub open spec fn spec_after_failure(m: NetModel, url: Seq<char>, now: u64) -> NetModel {
    let streak = next_streak(m.fail_streak);
    NetModel {
        fail_streak: streak,
        backoff: m.backoff.insert(url, window_end(now, (BACKOFF_BASE_MS * backoff_factor(streak)) as u64)),
        ..m
    }
}

/// The per-process request state: throttle, slots, backoff table.
pub struct NetState {
    last_request: Option<u64>,
    inflight: usize,
    backoff: AssocMap<String, u64>,
    fail_streak: u32,
}

impl View for NetState {
    type V = NetModel;

    closed spec fn view(&self) -> NetModel {
        NetModel {
            last_request: self.last_request,
            inflight: self.inflight as nat,
            backoff: self.backoff@,
            fail_streak: self.fail_streak,
        }
    }
}

impl NetState {
    /// The state is consistent: distinct backoff keys, at most
    /// [`MAX_CONCURRENCY`] requests in flight.
    pub closed spec fn wf(&self) -> bool {
        self.backoff.wf() && self.inflight <= MAX_CONCURRENCY
    }

    /// No request yet, nothing in flight, no backoff, no failure.
    pub fn new() -> (r: Self)
        ensures
            r.wf(),
            r@ == (NetModel {
                last_request: None,
                inflight: 0,
                backoff: Map::empty(),
                fail_streak: 0,
            }),
    {
        NetState { last_request: None, inflight: 0, backoff: AssocMap::new(), fail_streak: 0 }
    }

    /// The number of requests in flight.
    pub fn inflight(&self) -> (n: usize)
        ensures
            n == self@.inflight,
    {
        self.inflight
    }

    /// The number of failures in a row.
    pub fn fail_streak(&self) -> (n: u32)
        ensures
            n == self@.fail_streak,
    {
        self.fail_streak
    }

    /// Whether `url` is inside its backoff window; an expired entry is removed
    /// on the way.
    pub fn in_backoff(&mut self, url: &str, now: u64) -> (res: bool)
        requires
            old(self).wf(),
        ensures
            final(self).wf(),
            res == spec_in_backoff(old(self)@, url@, now),
            final(self)@ == spec_after_backoff_check(old(self)@, url@, now),
    {
        let key = url.to_owned();
        match self.backoff.get(&key) {
            Some(until) => {
                if now >= *until {
                    self.backoff.remove(&key);
                    false
                } else {
                    true
                }
            },
            None => false,
        }
    }

    /// Forgets the backoff of `url`. A request the user asks for explicitly
    /// (a retry) goes through at once; backoff only holds back automatic retries.
    pub fn reset_backoff(&mut self, url: &str)
        requires
            old(self).wf(),
        ensures
            final(self).wf(),
            final(self)@ == (NetModel { backoff: old(self)@.backoff.remove(url@), ..old(self)@ }),
    {
        let key = url.to_owned();
        self.backoff.remove(&key);
    }

    /// Takes a request slot if one is free and the minimum interval since the
    /// last request has passed; the caller waits and tries again otherwise.
    pub fn try_acquire_slot(&mut self, now: u64) -> (ok: bool)
        requires
            old(self).wf(),
        ensures
            final(self).wf(),
            ok == spec_may_acquire(old(self)@, now),
            final(self)@ == spec_after_acquire(old(self)@, now),
    {
        if self.inflight >= MAX_CONCURRENCY {
            return false;
        }
        match self.last_request {
            Some(last) => {
                if elapsed_ms(now, last) < MIN_INTERVAL_MS {
                    return false;
                }
            },
            None => {},
        }
        self.last_request = Some(now);
        self.inflight = self.inflight + 1;
        true
    }

    /// Gives a request slot back.
    pub fn release_slot(&mut self)
        requires
            old(self).wf(),
            old(self)@.inflight > 0,
        ensures
            final(self).wf(),
            final(self)@ == (NetModel { inflight: (old(self)@.inflight - 1) as nat, ..old(self)@ }),
    {
        self.inflight = self.inflight - 1;
    }

    /// Records a failed request of `url`: the global streak grows and `url` is
    /// held back for `30 s × 2^min(streak - 1, 4)` (30 s, 60 s, 120 s, 240 s,
    /// then 480 s).
    pub fn note_failure(&mut self, url: &str, now: u64)
        requires
            old(self).wf(),
        ensures
            final(self).wf(),
            final(self)@ == spec_after_failure(old(self)@, url@, now),
    {
        if self.fail_streak < u32::MAX {
            self.fail_streak = self.fail_streak + 1;
        }
        let s = self.fail_streak;
        let factor: u64 = if s <= 1 {
            1
        } else if s == 2 {
            2
        } else if s == 3 {
            4
        } else if s == 4 {
            8
        } else {
            16
        };
        let len = BACKOFF_BASE_MS * factor;
        let until = if now > u64::MAX - len {
            u64::MAX
        } else {
            now + len
        };
        self.backoff.insert(url.to_owned(), until);
    }

    /// Records a successful request: the failure streak starts over.
    pub fn note_success(&mut self)
        requires
            old(self).wf(),
        ensures
            final(self).wf(),
            final(self)@ == (NetModel { fail_streak: 0, ..old(self)@ }),
    {
        self.fail_streak = 0;
    }

    /// The check before a fetch of `url`: refused while `url` is in backoff.
    pub fn begin_fetch(&mut self, url: &str, now: u64) -> (res: Result<(), String>)
        requires
            old(self).wf(),
        ensures
            final(self).wf(),
            final(self)@ == spec_after_backoff_check(old(self)@, url@, now),
            res is Err <==> spec_in_backoff(old(self)@, url@, now),
            res matches Err(msg) ==> msg@ == throttled_message(),
    {
        if self.in_backoff(url, now) {
            Err("请求过于频繁,请稍后重试".to_owned())
        } else {
            Ok(())
        }
    }

    /// The bookkeeping after a fetch of `url` that held a slot: the slot is
    /// given back, and the outcome feeds the failure streak and the backoff
    /// table. The outcome is handed back unchanged.
    pub fn complete_fetch<T>(&mut self, url: &str, result: Result<T, String>, now: u64) -> (res:
        Result<T, String>)
        requires
            old(self).wf(),
            old(self)@.inflight > 0,
        ensures
            final(self).wf(),
            res == result,
            ({
                let released = NetModel { inflight: (old(self)@.inflight - 1) as nat, ..old(self)@ };
                final(self)@ == if result is Ok {
                    NetModel { fail_streak: 0, ..released }
                } else {
                    spec_after_failure(released, url@, now)
                }
            }),
    {
        self.release_slot();
        match result {
            Ok(v) => {
                self.note_success();
                Ok(v)
            },
            Err(e) => {
                self.note_failure(url, now);
                Err(e)
            },
        }
    }
}

/// The message of a fetch refused by backoff.
pub open spec fn throttled_message() -> Seq<char> {
    "请求过于频繁,请稍后重试"@
}

/// The message of an image over [`MAX_IMAGE_BYTES`].
pub open spec fn image_too_large_message() -> Seq<char> {
    "图片超过 "@ + decimal((MAX_IMAGE_BYTES / 1024 / 1024) as nat) + "MB 上限"@
}

/// An image body is accepted up to [`MAX_IMAGE_BYTES`]; a longer one is an
/// error (the caller reads one byte more than the limit to see the overflow),
/// never a silent truncation.
pub fn check_image_size(body: Vec<u8>) -> (res: Result<Vec<u8>, String>)
    ensures
        body.len() <= MAX_IMAGE_BYTES ==> res == Ok::<Vec<u8>, String>(body),
        body.len() > MAX_IMAGE_BYTES ==> (res matches Err(msg) && msg@ == image_too_large_message()),
{
    if body.len() > MAX_IMAGE_BYTES {
        let mut msg: Vec<char> = Vec::new();
        push_str(&mut msg, "图片超过 ");
        push_decimal(&mut msg, (MAX_IMAGE_BYTES / 1024 / 1024) as u64);
        push_str(&mut msg, "MB 上限");
        Err(string_of(&msg))
    } else {
        Ok(body)
    }
}

// ───────────────────────── laws of the request state ─────────────────────────

/// A URL that just failed is held back for at least the base backoff (30 s),
/// whatever the streak was.
pub proof fn law_failure_starts_backoff(m: NetModel, url: Seq<char>, now: u64, later: u64)
    requires
        now <= u64::MAX - MAX_BACKOFF_MS,
        now <= later < now + BACKOFF_BASE_MS,
    ensures
        spec_in_backoff(spec_after_failure(m, url, now), url, later),
{
}

/// Consecutive failures back a URL off for 30 s, 60 s, 120 s, 240 s, then
/// 480 s from the fifth failure on.
pub proof fn law_backoff_sequence(m: NetModel, url: Seq<char>, now: u64)
    requires
        now <= u64::MAX - MAX_BACKOFF_MS,
        m.fail_streak < u32::MAX,
    ensures
        ({
            let until = spec_after_failure(m, url, now).backoff[url];
            &&& m.fail_streak == 0 ==> until == now + 30_000
            &&& m.fail_streak == 1 ==> until == now + 60_000
            &&& m.fail_streak == 2 ==> until == now + 120_000
            &&& m.fail_streak == 3 ==> until == now + 240_000
            &&& m.fail_streak >= 4 ==> until == now + 480_000
        }),
{
}

/// The backoff of a URL ends when its window is over: the check then lets the
/// URL through and drops its entry.
pub proof fn law_backoff_expires(m: NetModel, url: Seq<char>, now: u64)
    requires
        m.backoff.dom().contains(url),
        now >= m.backoff[url],
    ensures
        !spec_in_backoff(m, url, now),
        !spec_after_backoff_check(m, url, now).backoff.dom().contains(url),
{
}

/// After a reset the URL is let through at any time, and the backoff of every
/// other URL is as it was.
pub proof fn law_reset_lets_through(m: NetModel, url: Seq<char>, other: Seq<char>, now: u64)
    requires
        other != url,
    ensures
        !spec_in_backoff(NetModel { backoff: m.backoff.remove(url), ..m }, url, now),
        spec_in_backoff(NetModel { backoff: m.backoff.remove(url), ..m }, other, now)
            == spec_in_backoff(m, other, now),
{
}

/// A URL inside its backoff window is held back; once the user resets it,
/// it is let through at once, and a URL with no backoff is never held back.
pub proof fn law_backoff_blocks_then_resets(m: NetModel, url: Seq<char>, other: Seq<char>, now: u64)
    requires
        m.backoff.dom().contains(url),
        now < m.backoff[url],
        other != url,
        !m.backoff.dom().contains(other),
    ensures
        spec_in_backoff(m, url, now),
        spec_after_backoff_check(m, url, now) == m,
        !spec_in_backoff(NetModel { backoff: m.backoff.remove(url), ..m }, url, now),
        !spec_in_backoff(NetModel { backoff: m.backoff.remove(url), ..m }, other, now),
{
}

/// A failure of one URL leaves the backoff of every other URL as it was.
pub proof fn law_failure_is_per_url(m: NetModel, url: Seq<char>, other: Seq<char>, now: u64, t: u64)
    requires
        other != url,
    ensures
        spec_in_backoff(spec_after_failure(m, url, now), other, t) == spec_in_backoff(m, other, t),
{
}

/// Never more than [`MAX_CONCURRENCY`] requests in flight.
pub proof fn law_concurrency_bounded(m: NetModel, now: u64)
    requires
        m.inflight <= MAX_CONCURRENCY,
    ensures
        spec_after_acquire(m, now).inflight <= MAX_CONCURRENCY,
{
}

/// Two requests that both start are at least [`MIN_INTERVAL_MS`] apart, as long
/// as the clock does not run backwards.
pub proof fn law_min_interval(m: NetModel, t1: u64, t2: u64)
    requires
        spec_may_acquire(m, t1),
        spec_may_acquire(spec_after_acquire(m, t1), t2),
    ensures
        t2 >= t1 + MIN_INTERVAL_MS,
{
}

// ───────────────────────── image downloads ─────────────────────────

/// The state of one image URL.
#[derive(Debug, Clone, Copy, PartialEq, Eq, Structural)]
pub enum ImgStatus {
    /// Not downloaded yet.
    Pending,
    /// A download is under way.
    Loading,
    /// Downloaded; the cache file is ready.
    Loaded,
    /// The download failed; it may be retried after the cool-down.
    Error,
}

/// The abstract image table.
pub struct ImageModel {
    /// URL → state; an absent URL is [`ImgStatus::Pending`].
    pub images: Map<Seq<char>, ImgStatus>,
    /// URL → time of its last failure.
    pub errors: Map<Seq<char>, u64>,
    /// Bumped on every finished download, so that the UI knows to redraw.
    pub version: u64,
}

/// The version after `v`, wrapping at the top.
pub open spec fn next_version(v: u64) -> u64 {
    if v == u64::MAX {
        0
    } else {
        (v + 1) as u64
    }
}

/// The state of `url`.
pub open spec fn spec_image_status(m: ImageModel, url: Seq<char>) -> ImgStatus {
    if m.images.dom().contains(url) {
        m.images[url]
    } else {
        ImgStatus::Pending
    }
}

/// Whether a claim of `url` at `now` succeeds: a pending URL is claimed; a
/// failed one only once its cool-down is over; one that is loading or loaded
/// never.
pub open spec fn spec_claim_ok(m: ImageModel, url: Seq<char>, now: u64) -> bool {
    match spec_image_status(m, url) {
        ImgStatus::Pending => true,
        ImgStatus::Error => !m.errors.dom().contains(url) || elapsed(now, m.errors[url])
            >= IMAGE_RETRY_COOLDOWN_MS,
        _ => false,
    }
}

/// The table after a claim of `url` at `now`.
pub open spec fn spec_after_claim(m: ImageModel, url: Seq<char>, now: u64) -> ImageModel {
    if spec_claim_ok(m, url, now) {
        ImageModel { images: m.images.insert(url, ImgStatus::Loading), ..m }
    } else {
        m
    }
}

/// The table after the download of `url` ended at `now`, well (`ok`) or not.
pub open spec fn spec_after_finish(m: ImageModel, url: Seq<char>, ok: bool, now: u64) -> ImageModel {
    ImageModel {
        images: m.images.insert(url, if ok { ImgStatus::Loaded } else { ImgStatus::Error }),
        errors: if ok { m.errors } else { m.errors.insert(url, now) },
        version: next_version(m.version),
    }
}

/// The per-process image table: one download per URL at a time.
pub struct ImageRegistry {
    images: AssocMap<String, ImgStatus>,
    errors: AssocMap<String, u64>,
    version: u64,
}

impl View for ImageRegistry {
    type V = ImageModel;

    closed spec fn view(&self) -> ImageModel {
        ImageModel { images: self.images@, errors: self.errors@, version: self.version }
    }
}

impl ImageRegistry {
    pub closed spec fn wf(&self) -> bool {
        self.images.wf() && self.errors.wf()
    }

    /// No image known, version zero.
    pub fn new() -> (r: Self)
        ensures
            r.wf(),
            r@ == (ImageModel { images: Map::empty(), errors: Map::empty(), version: 0 }),
    {
        ImageRegistry { images: AssocMap::new(), errors: AssocMap::new(), version: 0 }
    }

    /// The version of the image cache (bumped whenever a download ends).
    pub fn image_version(&self) -> (v: u64)
        ensures
            v == self@.version,
    {
        self.version
    }

    /// Bumps the version (wrapping).
    pub fn bump_image_version(&mut self)
        requires
            old(self).wf(),
        ensures
            final(self).wf(),
            final(self)@ == (ImageModel {
                version: next_version(old(self)@.version),
                ..old(self)@
            }),
    {
        self.version = self.version.wrapping_add(1);
    }

    /// The state of `url`.
    pub fn image_status(&self, url: &str) -> (res: ImgStatus)
        requires
            self.wf(),
        ensures
            res == spec_image_status(self@, url@),
    {
        let key = url.to_owned();
        match self.images.get(&key) {
            Some(s) => *s,
            None => ImgStatus::Pending,
        }
    }

    /// Claims the download of `url`: only the first caller gets `true`; a failed
    /// URL can be claimed again once its cool-down is over (automatic retry).
    pub fn claim_image(&mut self, url: &str, now: u64) -> (res: bool)
        requires
            old(self).wf(),
        ensures
            final(self).wf(),
            res == spec_claim_ok(old(self)@, url@, now),
            final(self)@ == spec_after_claim(old(self)@, url@, now),
    {
        let key = url.to_owned();
        let status = match self.images.get(&key) {
            Some(s) => *s,
            None => ImgStatus::Pending,
        };
        match status {
            ImgStatus::Pending => {
                self.images.insert(key, ImgStatus::Loading);
                true
            },
            ImgStatus::Error => {
                let cooldown_ok = match self.errors.get(&key) {
                    Some(at) => elapsed_ms(now, *at) >= IMAGE_RETRY_COOLDOWN_MS,
                    None => true,
                };
                if cooldown_ok {
                    self.images.insert(key, ImgStatus::Loading);
                    true
                } else {
                    false
                }
            },
            _ => false,
        }
    }

    /// Records how the download of `url` ended.
    pub fn finish_image(&mut self, url: &str, ok: bool, now: u64)
        requires
            old(self).wf(),
        ensures
            final(self).wf(),
            final(self)@ == spec_after_finish(old(self)@, url@, ok, now),
    {
        let key = url.to_owned();
        self.images.insert(
            url.to_owned(),
            if ok {
                ImgStatus::Loaded
            } else {
                ImgStatus::Error
            },
        );
        if !ok {
            self.errors.insert(key, now);
        }
        self.bump_image_version();
    }
}

// ───────────────────────── laws of the image table ─────────────────────────

/// Deduplication: once a claim of `url` succeeds, no further claim of it
/// succeeds until its download has ended.
pub proof fn law_claim_is_exclusive(m: ImageModel, url: Seq<char>, t1: u64, t2: u64)
    requires
        spec_claim_ok(m, url, t1),
    ensures
        spec_image_status(spec_after_claim(m, url, t1), url) == ImgStatus::Loading,
        !spec_claim_ok(spec_after_claim(m, url, t1), url, t2),
{
}

/// A loaded image is never downloaded again.
pub proof fn law_loaded_is_final(m: ImageModel, url: Seq<char>, t1: u64, t2: u64)
    ensures
        spec_image_status(spec_after_finish(m, url, true, t1), url) == ImgStatus::Loaded,
        !spec_claim_ok(spec_after_finish(m, url, true, t1), url, t2),
{
}

/// A failed image may be claimed again exactly when its cool-down is over.
pub proof fn law_failed_retry_after_cooldown(m: ImageModel, url: Seq<char>, t1: u64, t2: u64)
    requires
        t1 <= t2,
    ensures
        spec_image_status(spec_after_finish(m, url, false, t1), url) == ImgStatus::Error,
        spec_claim_ok(spec_after_finish(m, url, false, t1), url, t2) <==> t2 - t1
            >= IMAGE_RETRY_COOLDOWN_MS,
{
}

/// Claims and results of one URL leave every other URL as it was.
pub proof fn law_images_are_independent(
    m: ImageModel,
    url: Seq<char>,
    other: Seq<char>,
    ok: bool,
    t: u64,
)
    requires
        url != other,
    ensures
        spec_image_status(spec_after_claim(m, url, t), other) == spec_image_status(m, other),
        spec_image_status(spec_after_finish(m, url, ok, t), other) == spec_image_status(m, other),
{
}

/// Every finished download bumps the version.
pub proof fn law_finish_bumps_version(m: ImageModel, url: Seq<char>, ok: bool, t: u64)
    requires
        m.version < u64::MAX,
    ensures
        spec_after_finish(m, url, ok, t).version == m.version + 1,
{
}

// ───────────────────────── URLs of the site ─────────────────────────

/// Whether `lower` (already lower-cased) names an HTTP(S) address.
pub open spec fn is_http_scheme(lower: Seq<char>) -> bool {
    has_prefix(lower, "https://"@) || has_prefix(lower, "http://"@)
}

/// The full address for a link found on the site: an `http`/`https` address
/// (scheme in any case) is kept, trimmed; a scheme-relative `//host/...` gets
/// `https:`; anything else is a path under the site root, joined with a `/`
/// when it has none. A link can thus never turn into a malformed address, an
/// address on another host, or a `file://` resource.
pub open spec fn spec_site_url(path: Seq<char>) -> Seq<char> {
    let lower = ascii_lower_seq(trim(path));
    if is_http_scheme(lower) {
        trim(path)
    } else if has_prefix(lower, "//"@) {
        "https:"@ + trim(path)
    } else if has_prefix(path, "/"@) {
        spec_base_url() + path
    } else {
        spec_base_url() + "/"@ + path
    }
}

/// A link that is neither an `http(s)` nor a scheme-relative address stays on
/// the site: its full address starts with the site root and a `/`.
pub proof fn law_site_links_stay_on_site(path: Seq<char>)
    requires
        !is_http_scheme(ascii_lower_seq(trim(path))),
        !has_prefix(ascii_lower_seq(trim(path)), "//"@),
    ensures
        has_prefix(spec_site_url(path), spec_base_url() + "/"@),
{
    reveal_strlit("/");
    let b = spec_base_url() + "/"@;
    if has_prefix(path, "/"@) {
        assert(path.subrange(0, 1)[0] == path[0]);
        assert(path[0] == '/');
        assert((spec_base_url() + path).subrange(0, b.len() as int) =~= b);
    } else {
        assert((spec_base_url() + "/"@ + path).subrange(0, b.len() as int) =~= b);
    }
}

/// Joins a site link into a full address (see [`spec_site_url`]).
pub fn site_url(path: &str) -> (res: String)
    ensures
        res@ == spec_site_url(path@),
{
    let chars = chars_of(path);
    let trimmed = trim_chars(TrimSet::Whitespace, &chars);
    let lower = ascii_lower_chars(&trimmed);
    let mut out: Vec<char> = Vec::new();
    proof {
        reveal_strlit("/");
    }
    if starts_with_str(&lower, "https://") || starts_with_str(&lower, "http://") {
        push_chars(&mut out, &trimmed);
    } else if starts_with_str(&lower, "//") {
        push_str(&mut out, "https:");
        push_chars(&mut out, &trimmed);
    } else {
        push_str(&mut out, base_url());
        if !starts_with_str(&chars, "/") {
            out.push('/');
        }
        push_chars(&mut out, &chars);
    }
    assert(out@ =~= spec_site_url(path@));
    string_of(&out)
}

/// A byte that stays as it is in a query string (RFC 3986 unreserved).
pub open spec fn is_unreserved(b: u8) -> bool {
    ||| (65 <= b && b <= 90)
    ||| (97 <= b && b <= 122)
    ||| (48 <= b && b <= 57)
    ||| b == 45
    ||| b == 95
    ||| b == 46
    ||| b == 126
}

/// Upper-case hexadecimal digit of `d < 16`.
pub open spec fn hex_upper(d: u8) -> char {
    if d < 10 {
        digit_char(d as nat)
    } else if d == 10 {
        'A'
    } else if d == 11 {
        'B'
    } else if d == 12 {
        'C'
    } else if d == 13 {
        'D'
    } else if d == 14 {
        'E'
    } else {
        'F'
    }
}

pub fn hex_upper_char(d: u8) -> (c: char)
    requires
        d < 16,
    ensures
        c == hex_upper(d),
{
    if d < 10 {
        digit_to_char(d as u64)
    } else if d == 10 {
        'A'
    } else if d == 11 {
        'B'
    } else if d == 12 {
        'C'
    } else if d == 13 {
        'D'
    } else if d == 14 {
        'E'
    } else {
        'F'
    }
}

/// One byte of a query: unreserved bytes as themselves, any other as `%XX`.
pub open spec fn encode_query_byte(b: u8) -> Seq<char> {
    if is_unreserved(b) {
        seq![b as char]
    } else {
        seq!['%', hex_upper(b / 16), hex_upper(b % 16)]
    }
}

/// Percent-encoding of a byte string.
pub open spec fn percent_encode(bytes: Seq<u8>) -> Seq<char>
    decreases bytes.len(),
{
    if bytes.len() == 0 {
        Seq::empty()
    } else {
        percent_encode(bytes.drop_last()) + encode_query_byte(bytes.last())
    }
}

/// The search page for `query`, the query's UTF-8 bytes percent-encoded.
pub open spec fn spec_search_url(query: Seq<char>) -> Seq<char> {
    spec_base_url() + "/Home/Search?searchstr="@ + percent_encode(vstd::utf8::encode_utf8(query))
}

/// The value of a hexadecimal digit (either case).
pub open spec fn hex_value(c: char) -> Option<u8> {
    if '0' <= c && c <= '9' {
        Some(((c as int) - ('0' as int)) as u8)
    } else if 'A' <= c && c <= 'F' {
        Some(((c as int) - ('A' as int) + 10) as u8)
    } else if 'a' <= c && c <= 'f' {
        Some(((c as int) - ('a' as int) + 10) as u8)
    } else {
        None
    }
}

/// Percent-decoding: `%XX` is the byte `XX`, any other character the byte of
/// its code (the encoded text is ASCII).
pub open spec fn percent_decode(s: Seq<char>) -> Seq<u8>
    decreases s.len(),
{
    if s.len() == 0 {
        Seq::empty()
    } else if s.len() >= 3 && s[0] == '%' && hex_value(s[1]) is Some && hex_value(s[2]) is Some {
        seq![(hex_value(s[1]).unwrap() * 16 + hex_value(s[2]).unwrap()) as u8] + percent_decode(s.skip(3))
    } else {
        seq![s[0] as u8] + percent_decode(s.skip(1))
    }
}

proof fn lemma_hex_upper_value(d: u8)
    requires
        d < 16,
    ensures
        hex_value(hex_upper(d)) == Some(d),
{
}

proof fn lemma_encode_front(bytes: Seq<u8>)
    requires
        bytes.len() > 0,
    ensures
        percent_encode(bytes) == encode_query_byte(bytes[0]) + percent_encode(bytes.drop_first()),
    decreases bytes.len(),
{
    if bytes.len() == 1 {
        assert(bytes.drop_last() =~= Seq::<u8>::empty());
        assert(bytes.drop_first() =~= Seq::<u8>::empty());
        assert(percent_encode(bytes) =~= encode_query_byte(bytes[0]) + percent_encode(bytes.drop_first()));
    } else {
        let p = bytes.drop_last();
        lemma_encode_front(p);
        assert(p.drop_first() =~= bytes.drop_first().drop_last());
        assert(bytes.drop_first().last() == bytes.last());
        assert(percent_encode(bytes) =~= encode_query_byte(bytes[0]) + percent_encode(bytes.drop_first()));
    }
}

proof fn lemma_decode_byte(b: u8, rest: Seq<char>)
    ensures
        percent_decode(encode_query_byte(b) + rest) == seq![b] + percent_decode(rest),
{
    let s = encode_query_byte(b) + rest;
    if is_unreserved(b) {
        assert(s[0] == b as char);
        assert((b as char) as u8 == b);
        assert(s.skip(1) =~= rest);
    } else {
        lemma_hex_upper_value(b / 16);
        lemma_hex_upper_value(b % 16);
        assert(s[0] == '%');
        assert(s[1] == hex_upper(b / 16));
        assert(s[2] == hex_upper(b % 16));
        assert(s.skip(3) =~= rest);
        assert((b / 16) * 16 + b % 16 == b);
    }
}

/// Percent-decoding the encoding of bytes gives the bytes back.
proof fn lemma_decode_encode(bytes: Seq<u8>)
    ensures
        percent_decode(percent_encode(bytes)) == bytes,
    decreases bytes.len(),
{
    if bytes.len() == 0 {
        assert(percent_encode(bytes) =~= Seq::<char>::empty());
    } else {
        lemma_encode_front(bytes);
        lemma_decode_encode(bytes.drop_first());
        lemma_decode_byte(bytes[0], percent_encode(bytes.drop_first()));
        assert(seq![bytes[0]] + bytes.drop_first() =~= bytes);
    }
}

/// The search address is the search page followed by the query, whose
/// percent-decoding gives back exactly the query's UTF-8 bytes.
pub proof fn law_search_url_decodes(query: Seq<char>)
    ensures
        spec_search_url(query) == spec_base_url() + "/Home/Search?searchstr="@ + percent_encode(
            vstd::utf8::encode_utf8(query),
        ),
        percent_decode(percent_encode(vstd::utf8::encode_utf8(query))) == vstd::utf8::encode_utf8(query),
{
    lemma_decode_encode(vstd::utf8::encode_utf8(query));
}

/// A character that a query keeps as it is (RFC 3986 unreserved).
pub open spec fn is_unreserved_char(c: char) -> bool {
    ||| ('A' <= c && c <= 'Z')
    ||| ('a' <= c && c <= 'z')
    ||| ('0' <= c && c <= '9')
    ||| c == '-'
    ||| c == '_'
    ||| c == '.'
    ||| c == '~'
}

/// An upper-case hexadecimal digit.
pub open spec fn is_upper_hex(c: char) -> bool {
    ('0' <= c && c <= '9') || ('A' <= c && c <= 'F')
}

/// Text in canonical percent-encoded form: unreserved characters, and `%`
/// followed by two upper-case hex digits, nothing else.
pub open spec fn canonical_encoding(s: Seq<char>) -> bool
    decreases s.len(),
{
    if s.len() == 0 {
        true
    } else if s[0] == '%' {
        s.len() >= 3 && is_upper_hex(s[1]) && is_upper_hex(s[2]) && canonical_encoding(s.skip(3))
    } else {
        is_unreserved_char(s[0]) && canonical_encoding(s.skip(1))
    }
}

proof fn lemma_hex_upper_is_upper_hex(d: u8)
    requires
        d < 16,
    ensures
        is_upper_hex(hex_upper(d)),
{
}

proof fn lemma_byte_canonical(b: u8, rest: Seq<char>)
    requires
        canonical_encoding(rest),
    ensures
        canonical_encoding(encode_query_byte(b) + rest),
{
    let s = encode_query_byte(b) + rest;
    if is_unreserved(b) {
        assert(s[0] == b as char);
        assert(s.skip(1) =~= rest);
        assert(is_unreserved_char(b as char));
    } else {
        lemma_hex_upper_is_upper_hex(b / 16);
        lemma_hex_upper_is_upper_hex(b % 16);
        assert(s.skip(3) =~= rest);
    }
}

proof fn lemma_encode_canonical(bytes: Seq<u8>)
    ensures
        canonical_encoding(percent_encode(bytes)),
    decreases bytes.len(),
{
    if bytes.len() == 0 {
        assert(percent_encode(bytes) =~= Seq::<char>::empty());
    } else {
        lemma_encode_front(bytes);
        lemma_encode_canonical(bytes.drop_first());
        lemma_byte_canonical(bytes[0], percent_encode(bytes.drop_first()));
    }
}

proof fn lemma_encode_unreserved(bytes: Seq<u8>)
    requires
        forall|i: int| 0 <= i < bytes.len() ==> is_unreserved(#[trigger] bytes[i]),
    ensures
        percent_encode(bytes) == bytes.map_values(|b: u8| b as char),
    decreases bytes.len(),
{
    if bytes.len() == 0 {
        assert(percent_encode(bytes) =~= bytes.map_values(|b: u8| b as char));
    } else {
        let p = bytes.drop_last();
        assert forall|i: int| 0 <= i < p.len() implies is_unreserved(#[trigger] p[i]) by {
            assert(p[i] == bytes[i]);
        }
        lemma_encode_unreserved(p);
        assert(is_unreserved(bytes[bytes.len() - 1]));
        assert(percent_encode(bytes) =~= bytes.map_values(|b: u8| b as char));
    }
}

/// The query part of the search address is canonical percent-encoding: only
/// unreserved characters and `%` with two upper-case hex digits appear; and a
/// query whose bytes are all unreserved appears as it is.
pub proof fn law_search_url_is_canonical(query: Seq<char>)
    ensures
        canonical_encoding(percent_encode(vstd::utf8::encode_utf8(query))),
        (forall|i: int|
            0 <= i < vstd::utf8::encode_utf8(query).len() ==> is_unreserved(
                #[trigger] vstd::utf8::encode_utf8(query)[i],
            )) ==> percent_encode(vstd::utf8::encode_utf8(query))
            == vstd::utf8::encode_utf8(query).map_values(|b: u8| b as char),
{
    let bytes = vstd::utf8::encode_utf8(query);
    lemma_encode_canonical(bytes);
    if forall|i: int| 0 <= i < bytes.len() ==> is_unreserved(#[trigger] bytes[i]) {
        lemma_encode_unreserved(bytes);
    }
}

/// The search page address for `query`.
pub fn search_url(query: &str) -> (res: String)
    ensures
        res@ == spec_search_url(query@),
{
    let bytes = query.as_bytes();
    let mut enc: Vec<char> = Vec::new();
    let mut i: usize = 0;
    while i < bytes.len()
        invariant
            i <= bytes@.len(),
            enc@ == percent_encode(bytes@.take(i as int)),
        decreases bytes@.len() - i,
    {
        let b = bytes[i];
        let ghost before = enc@;
        if (65 <= b && b <= 90) || (97 <= b && b <= 122) || (48 <= b && b <= 57) || b == 45 || b
            == 95 || b == 46 || b == 126 {
            enc.push(b as char);
        } else {
            enc.push('%');
            enc.push(hex_upper_char(b / 16));
            enc.push(hex_upper_char(b % 16));
        }
        proof {
            assert(bytes@.take(i + 1).drop_last() =~= bytes@.take(i as int));
            assert(enc@ =~= before + encode_query_byte(b));
        }
        i = i + 1;
    }
    assert(bytes@.take(bytes@.len() as int) =~= bytes@);
    let mut out: Vec<char> = Vec::new();
    push_str(&mut out, base_url());
    push_str(&mut out, "/Home/Search?searchstr=");
    push_chars(&mut out, &enc);
    string_of(&out)
}

// ───────────────────────── system proxy settings ─────────────────────────

/// The first line that starts with `key` once its leading whitespace is gone.
pub open spec fn first_line_with(ls: Seq<Seq<char>>, key: Seq<char>) -> Option<Seq<char>>
    decreases ls.len(),
{
    if ls.len() == 0 {
        None
    } else if has_prefix(trim_start(ls[0]), key) {
        Some(ls[0])
    } else {
        first_line_with(ls.drop_first(), key)
    }
}

/// The value of `key` in `scutil --proxy` output (`  Key : value` lines): what
/// follows the first `:` of the first line of the key, trimmed, unless empty.
pub open spec fn spec_line_value(text: Seq<char>, key: Seq<char>) -> Option<Seq<char>> {
    match first_line_with(lines(text), key) {
        Some(l) => match first_index_of(l, ':') {
            Some(i) => {
                let v = trim(l.skip(i + 1));
                if v.len() > 0 {
                    Some(v)
                } else {
                    None
                }
            },
            None => None,
        },
        None => None,
    }
}

/// The value of `key` in `scutil --proxy` output (see [`spec_line_value`]).
pub fn line_value(text: &str, key: &str) -> (r: Option<String>)
    ensures
        r.deep_view() == spec_line_value(text@, key@),
{
    let chars = chars_of(text);
    let ls = lines_of(&chars);
    let k = chars_of(key);
    let ghost all = lines(text@);
    let mut i: usize = 0;
    assert(all.skip(0) =~= all);
    while i < ls.len()
        invariant
            i <= ls.len(),
            ls.deep_view() == all,
            all == lines(text@),
            k@ == key@,
            first_line_with(all.skip(i as int), key@) == first_line_with(all, key@),
        decreases ls.len() - i,
    {
        assert(ls[i as int]@ == all[i as int]);
        assert(all.skip(i as int)[0] == all[i as int]);
        let t = trim_start_chars(&ls[i]);
        if starts_with_chars(&t, &k) {
            let l = &ls[i];
            return match find_char(l, ':') {
                Some(j) => {
                    let rest = slice_chars(l, j + 1, l.len());
                    assert(rest@ =~= l@.skip(j + 1));
                    let v = trim_chars(TrimSet::Whitespace, &rest);
                    if v.len() > 0 {
                        Some(string_of(&v))
                    } else {
                        None
                    }
                },
                None => None,
            };
        }
        assert(all.skip(i as int).drop_first() =~= all.skip(i + 1));
        i = i + 1;
    }
    assert(all.skip(i as int) =~= Seq::<Seq<char>>::empty());
    None
}

/// Whether `key` is set to `1` in `scutil --proxy` output.
pub fn line_bool(text: &str, key: &str) -> (r: bool)
    ensures
        r == (spec_line_value(text@, key@) == Some("1"@)),
{
    match line_value(text, key) {
        Some(v) => {
            let c = chars_of(v.as_str());
            eq_str(&c, "1")
        },
        None => {
            assert(spec_line_value(text@, key@) is None);
            false
        },
    }
}

/// The proxy address that one kind of `scutil --proxy` entry gives, if it is
/// enabled and names a host and a port: `http://<host>:<port>`.
pub open spec fn spec_proxy_candidate(text: Seq<char>, enable: Seq<char>, host: Seq<char>, port: Seq<char>) -> Seq<Seq<char>> {
    match (spec_line_value(text, host), spec_line_value(text, port)) {
        (Some(h), Some(p)) => if spec_line_value(text, enable) == Some("1"@) {
            seq!["http://"@ + h + ":"@ + p]
        } else {
            Seq::empty()
        },
        _ => Seq::empty(),
    }
}

/// The proxy addresses that `scutil --proxy` output offers, HTTPS first.
pub open spec fn spec_proxy_candidates(text: Seq<char>) -> Seq<Seq<char>> {
    spec_proxy_candidate(text, "HTTPSEnable"@, "HTTPSProxy"@, "HTTPSPort"@)
        + spec_proxy_candidate(text, "HTTPEnable"@, "HTTPProxy"@, "HTTPPort"@)
}

fn proxy_candidate(text: &str, enable: &str, host: &str, port: &str, out: &mut Vec<String>)
    ensures
        final(out).deep_view() == old(out).deep_view() + spec_proxy_candidate(text@, enable@, host@, port@),
{
    let ghost before = out.deep_view();
    if !line_bool(text, enable) {
        assert(before + spec_proxy_candidate(text@, enable@, host@, port@) =~= before);
        return;
    }
    let h = match line_value(text, host) {
        Some(h) => h,
        None => {
            assert(before + spec_proxy_candidate(text@, enable@, host@, port@) =~= before);
            return;
        },
    };
    let p = match line_value(text, port) {
        Some(p) => p,
        None => {
            assert(before + spec_proxy_candidate(text@, enable@, host@, port@) =~= before);
            return;
        },
    };
    let mut v: Vec<char> = Vec::new();
    push_str(&mut v, "http://");
    push_str(&mut v, h.as_str());
    push_str(&mut v, ":");
    push_str(&mut v, p.as_str());
    let url = string_of(&v);
    out.push(url);
    assert(out.deep_view() =~= before + spec_proxy_candidate(text@, enable@, host@, port@));
}

/// The proxy addresses offered by the system settings (the text of
/// `scutil --proxy`), to be tried in order.
pub fn system_proxy_candidates(text: &str) -> (r: Vec<String>)
    ensures
        r.deep_view() == spec_proxy_candidates(text@),
{
    let mut out: Vec<String> = Vec::new();
    proxy_candidate(text, "HTTPSEnable", "HTTPSProxy", "HTTPSPort", &mut out);
    proxy_candidate(text, "HTTPEnable", "HTTPProxy", "HTTPPort", &mut out);
    assert(out.deep_view() =~= spec_proxy_candidates(text@));
    out
}

} // verus!
