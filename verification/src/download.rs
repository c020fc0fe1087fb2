//! Download bookkeeping: what the UI sees of a download task, the commands
//! and events exchanged with the download engine, and the decisions the
//! engine takes between its calls into the BitTorrent session.
//!
//! The engine itself (the BitTorrent session, its runtime and the file
//! system) runs outside this crate; it hands plain values in and performs the
//! actions decided here.

use vstd::prelude::*;

use crate::assoc::{AssocKey, AssocMap};
use crate::text::{
    ascii_lower_seq, chars_of, decimal, digit_to_char, push_chars, push_decimal, push_str, string_of,
};

verus! {

// ───────────────────────── magnet links ─────────────────────────

/// The lower-case form of `s` that `str::to_lowercase` returns (full Unicode
/// case mapping).
pub uninterp spec fn unicode_lowercase(s: Seq<char>) -> Seq<char>;

/// `str::to_lowercase`.
///
/// Trusted: the result is the Unicode lower-case mapping of the argument, a
/// function of the argument alone. On ASCII text that mapping is the ASCII
/// one (`A`–`Z` to `a`–`z`, every other character kept), which is the one
/// further claim; of other text nothing more is claimed.
#[verifier::external_body]
pub(crate) fn to_lowercase(s: &str) -> (res: String)
    ensures
        res@ == unicode_lowercase(s@),
        (forall|i: int| 0 <= i < s@.len() ==> (s@[i] as u32) < 128) ==> res@ == ascii_lower_seq(
            s@,
        ),
{
    s.to_lowercase()
}

/// The marker that precedes the info-hash in a magnet link.
pub open spec fn btih_marker() -> Seq<char> {
    "xt=urn:btih:"@
}

/// `p` occurs in `s` at position `i`.
pub open spec fn occurs_at(s: Seq<char>, p: Seq<char>, i: int) -> bool {
    0 <= i && i + p.len() <= s.len() && s.subrange(i, i + p.len()) == p
}

/// The first position at which `p` occurs in `s` (`str::find`).
#[verifier::opaque]
pub open spec fn first_occurrence(s: Seq<char>, p: Seq<char>) -> Option<int> {
    if exists|i: int| occurs_at(s, p, i) {
        Some(choose|i: int| occurs_at(s, p, i) && forall|j: int| 0 <= j < i ==> !occurs_at(s, p, j))
    } else {
        None
    }
}

pub open spec fn is_ascii_hex(c: char) -> bool {
    ('0' <= c && c <= '9') || ('a' <= c && c <= 'f') || ('A' <= c && c <= 'F')
}

/// The longest prefix of `s` made of ASCII hexadecimal digits.
pub open spec fn hex_prefix_len(s: Seq<char>) -> nat
    decreases s.len(),
{
    if s.len() > 0 && is_ascii_hex(s[0]) {
        1 + hex_prefix_len(s.drop_first())
    } else {
        0
    }
}

/// The info-hash read from an already lower-cased magnet link: the hex digits
/// right after the first `xt=urn:btih:`, when there are exactly 40 of them.
pub open spec fn spec_info_hash_of_lower(lower: Seq<char>) -> Option<Seq<char>> {
    match first_occurrence(lower, btih_marker()) {
        Some(i) => hex40_after(lower, i + btih_marker().len()),
        None => None,
    }
}

/// The 40 hex digits that start at `start`, if the run there is 40 long.
pub open spec fn hex40_after(s: Seq<char>, start: int) -> Option<Seq<char>> {
    let rest = s.skip(start);
    let n = hex_prefix_len(rest);
    if n == 40 {
        Some(rest.take(n as int))
    } else {
        None
    }
}

fn occurs_at_exec(s: &Vec<char>, p: &Vec<char>, i: usize) -> (res: bool)
    ensures
        res == occurs_at(s@, p@, i as int),
{
    if i > s.len() || p.len() > s.len() - i {
        return false;
    }
    let mut k: usize = 0;
    while k < p.len()
        invariant
            i + p.len() <= s.len(),
            k <= p.len(),
            forall|j: int| 0 <= j < k ==> s@[i + j] == p@[j],
        decreases p.len() - k,
    {
        if s[i + k] != p[k] {
            assert(s@.subrange(i as int, i + p.len())[k as int] != p@[k as int]);
            return false;
        }
        k = k + 1;
    }
    assert(s@.subrange(i as int, i + p.len()) =~= p@);
    true
}

/// `str::find` of `p` in `s`, in characters.
pub fn find_chars(s: &Vec<char>, p: &Vec<char>) -> (res: Option<usize>)
    ensures
        res matches Some(i) ==> first_occurrence(s@, p@) == Some(i as int) && occurs_at(
            s@,
            p@,
            i as int,
        ),
        res is None ==> first_occurrence(s@, p@) is None,
{
    reveal(first_occurrence);
    if p.len() > s.len() {
        return None;
    }
    let last = s.len() - p.len();
    let mut i: usize = 0;
    while i <= last
        invariant
            last == s.len() - p.len(),
            i <= last + 1,
            forall|j: int| 0 <= j < i ==> !occurs_at(s@, p@, j),
        decreases last + 1 - i,
    {
        if occurs_at_exec(s, p, i) {
            proof {
                reveal(first_occurrence);
                let c = choose|c: int|
                    occurs_at(s@, p@, c) && forall|j: int| 0 <= j < c ==> !occurs_at(s@, p@, j);
                assert(occurs_at(s@, p@, i as int) && forall|j: int|
                    0 <= j < i ==> !occurs_at(s@, p@, j));
                if c < i {
                } else if c > i {
                }
            }
            return Some(i);
        }
        if i == last {
            proof {
                reveal(first_occurrence);
                assert forall|j: int| !occurs_at(s@, p@, j) by {
                    if 0 <= j <= last {
                    }
                }
            }
            return None;
        }
        i = i + 1;
    }
    None
}

fn char_is_ascii_hex(c: char) -> (res: bool)
    ensures
        res == is_ascii_hex(c),
{
    ('0' <= c && c <= '9') || ('a' <= c && c <= 'f') || ('A' <= c && c <= 'F')
}

proof fn lemma_hex_prefix(s: Seq<char>, k: int)
    requires
        0 <= k <= s.len(),
        forall|j: int| 0 <= j < k ==> is_ascii_hex(#[trigger] s[j]),
    ensures
        hex_prefix_len(s) == k + hex_prefix_len(s.skip(k)),
    decreases k,
{
    if k > 0 {
        lemma_hex_prefix(s.drop_first(), k - 1);
        assert(s.drop_first().skip(k - 1) =~= s.skip(k));
    } else {
        assert(s.skip(0) =~= s);
    }
}

/// The run of hex digits of `s` that starts at `start`.
fn hex_run(s: &Vec<char>, start: usize) -> (res: Vec<char>)
    requires
        start <= s.len(),
    ensures
        res@ == s@.skip(start as int).take(hex_prefix_len(s@.skip(start as int)) as int),
        res@.len() == hex_prefix_len(s@.skip(start as int)),
{
    let ghost rest = s@.skip(start as int);
    let mut k: usize = start;
    let mut hex: Vec<char> = Vec::new();
    while k < s.len() && char_is_ascii_hex(s[k])
        invariant
            start <= k <= s.len(),
            rest == s@.skip(start as int),
            hex@ == rest.take(k - start),
            forall|j: int| 0 <= j < k - start ==> is_ascii_hex(#[trigger] rest[j]),
        decreases s.len() - k,
    {
        hex.push(s[k]);
        k = k + 1;
        assert(hex@ =~= rest.take(k - start));
    }
    proof {
        lemma_hex_prefix(rest, k - start);
        let tail = rest.skip(k - start);
        if tail.len() > 0 {
            assert(tail[0] == s@[k as int]);
        }
        assert(hex_prefix_len(tail) == 0);
    }
    hex
}

/// The info-hash of an already lower-cased magnet link (see
/// [`spec_info_hash_of_lower`]).
pub fn info_hash_of_lower(lower: &str) -> (res: Option<String>)
    ensures
        res is Some <==> spec_info_hash_of_lower(lower@) is Some,
        res matches Some(h) ==> spec_info_hash_of_lower(lower@) == Some(h@),
{
    let s = chars_of(lower);
    let marker = chars_of("xt=urn:btih:");
    let found = find_chars(&s, &marker);
    assert(marker@ == btih_marker());
    match found {
        Some(idx) => {
            assert(occurs_at(s@, marker@, idx as int));
            let n = s.len();
            let ml = marker.len();
            assert(idx + ml <= n);
            let hex = hex_run(&s, idx + ml);
            if hex.len() == 40 {
                Some(string_of(&hex))
            } else {
                None
            }
        },
        None => None,
    }
}

/// The info-hash (`btih`, lower-case hex) of a magnet link, e.g.
/// `magnet:?xt=urn:btih:abc123…` → `abc123…`; `None` unless it has exactly 40
/// hex digits.
pub fn magnet_info_hash(magnet: &str) -> (res: Option<String>)
    ensures
        res is Some <==> spec_info_hash_of_lower(unicode_lowercase(magnet@)) is Some,
        res matches Some(h) ==> spec_info_hash_of_lower(unicode_lowercase(magnet@)) == Some(h@),
{
    let lower = to_lowercase(magnet);
    info_hash_of_lower(lower.as_str())
}

// ───────────────────────── rates ─────────────────────────

/// 2^53: below it every integer is exactly a `f64`.
pub open spec fn f64_exact_bound() -> nat {
    0x20_0000_0000_0000
}

/// How many low bits a `u64` loses when it becomes a `f64`.
pub open spec fn f64_shift(x: nat) -> nat
    decreases x,
{
    if x < f64_exact_bound() {
        0
    } else {
        1 + f64_shift(x / 2)
    }
}

/// `2^k`.
pub open spec fn pow2(k: nat) -> nat
    decreases k,
{
    if k == 0 {
        1
    } else {
        2 * pow2((k - 1) as nat)
    }
}

/// `q` rounded from `q + r/unit`, ties to even.
pub open spec fn round_half_even(q: nat, r: nat, unit: nat) -> nat {
    if 2 * r > unit || (2 * r == unit && q % 2 == 1) {
        q + 1
    } else {
        q
    }
}

/// The value of `x as f64`: the nearest multiple of `2^f64_shift(x)`, ties to
/// even (53 significant bits).
pub open spec fn f64_value(x: nat) -> nat {
    let unit = pow2(f64_shift(x));
    round_half_even(x / unit, x % unit, unit) * unit
}

/// One mebibyte.
pub open spec fn mib() -> nat {
    0x10_0000
}

/// `v / unit` with one decimal, rounded half to even, then ` MB/s`.
pub open spec fn tenths_text(v: nat, unit: nat) -> Seq<char> {
    let tenths = round_half_even(v * 10 / unit, (v * 10) % unit, unit);
    decimal(tenths / 10) + "."@ + decimal(tenths % 10) + " MB/s"@
}

/// The text of a rate of `x` bytes per second (`1536` → `1.5 MB/s`,
/// `512` → `512 B/s`): from one MiB/s the value
/// of `x as f64` divided by 1024 twice, from one KiB/s divided by 1024 once,
/// each with one decimal (rounded half to even) and `MB/s`; `{} B/s` below.
pub open spec fn spec_rate_text(x: u64) -> Seq<char> {
    let v = f64_value(x as nat);
    if x >= mib() {
        tenths_text(v, mib())
    } else if x >= 1024 {
        tenths_text(v, 1024)
    } else {
        decimal(x as nat) + " B/s"@
    }
}

proof fn lemma_pow2_pos(k: nat)
    ensures
        pow2(k) >= 1,
    decreases k,
{
    if k > 0 {
        lemma_pow2_pos((k - 1) as nat);
    }
}

proof fn lemma_shift_step(x: nat, y: nat, s: nat)
    requires
        y == x / pow2(s),
    ensures
        y / 2 == x / pow2(s + 1),
{
    lemma_pow2_pos(s);
    assert(pow2(s + 1) == 2 * pow2(s));
    vstd::arithmetic::div_mod::lemma_div_denominator(x as int, pow2(s) as int, 2);
    assert(pow2(s) * 2 == pow2(s + 1)) by (nonlinear_arith)
        requires
            pow2(s + 1) == 2 * pow2(s),
    ;
}

/// The value of `x as f64`, exactly (see [`f64_value`]).
fn f64_value_of(x: u64) -> (res: u128)
    ensures
        res == f64_value(x as nat),
        res <= x + 2048,
{
    let mut y: u64 = x;
    let mut unit: u128 = 1;
    let ghost mut s: nat = 0;
    assert(x as nat / pow2(0) == x) by {
        assert(pow2(0) == 1);
    }
    while y >= 0x20_0000_0000_0000u64
        invariant
            y == x as nat / pow2(s),
            unit == pow2(s),
            f64_shift(x as nat) == s + f64_shift(y as nat),
            s <= 11,
            unit <= 2048,
            y as nat * pow2(s) <= x,
        decreases y,
    {
        proof {
            lemma_shift_step(x as nat, y as nat, s);
            assert(f64_shift(y as nat) == 1 + f64_shift(y as nat / 2));
            lemma_pow2_pos(s);
            assert(y as nat * pow2(s) <= x);
            assert(y >= 0x20_0000_0000_0000);
            assert(pow2(s) * 0x20_0000_0000_0000 <= x) by (nonlinear_arith)
                requires
                    y as nat * pow2(s) <= x,
                    y >= 0x20_0000_0000_0000,
                    pow2(s) >= 1,
            ;
            if s >= 11 {
                assert(pow2(s) >= 2048) by {
                    assert(pow2(11) == 2048) by {
                        reveal_with_fuel(pow2, 12);
                    }
                    lemma_pow2_mono(11, s);
                }
                assert(false) by (nonlinear_arith)
                    requires
                        pow2(s) * 0x20_0000_0000_0000 <= x,
                        pow2(s) >= 2048,
                        x < 0x1_0000_0000_0000_0000,
                ;
            }
        }
        y = y / 2;
        unit = unit * 2;
        proof {
            s = s + 1;
            assert(pow2(s) == 2 * pow2((s - 1) as nat));
            assert(s <= 11);
            assert(unit <= 2048) by {
                assert(pow2(s) <= pow2(11)) by {
                    lemma_pow2_mono(s, 11);
                }
                assert(pow2(11) == 2048) by {
                        reveal_with_fuel(pow2, 12);
                    }
            }
            lemma_pow2_pos(s);
            vstd::arithmetic::div_mod::lemma_fundamental_div_mod(x as int, pow2(s) as int);
            assert(y as nat * pow2(s) <= x) by (nonlinear_arith)
                requires
                    y == x as nat / pow2(s),
                    pow2(s) >= 1,
            {
                vstd::arithmetic::div_mod::lemma_fundamental_div_mod(x as int, pow2(s) as int);
            }
        }
    }
    proof {
        lemma_pow2_pos(s);
        vstd::arithmetic::div_mod::lemma_fundamental_div_mod(x as int, pow2(s) as int);
    }
    let q: u128 = y as u128;
    let r: u128 = (x as u128) - q * unit;
    assert(r == (x as nat) % pow2(s)) by {
        vstd::arithmetic::div_mod::lemma_fundamental_div_mod(x as int, pow2(s) as int);
    }
    let rounded: u128 = if 2 * r > unit || (2 * r == unit && q % 2 == 1) {
        q + 1
    } else {
        q
    };
    assert(rounded * unit <= x + 2048) by (nonlinear_arith)
        requires
            rounded <= q + 1,
            q * unit + r == x,
            unit <= 2048,
            r >= 0,
    ;
    rounded * unit
}

proof fn lemma_pow2_mono(a: nat, b: nat)
    requires
        a <= b,
    ensures
        pow2(a) <= pow2(b),
    decreases b,
{
    if a < b {
        lemma_pow2_mono(a, (b - 1) as nat);
        lemma_pow2_pos((b - 1) as nat);
    }
}

/// `v / unit` with one decimal, rounded half to even, then ` MB/s`.
fn push_tenths(out: &mut Vec<char>, v: u128, unit: u128)
    requires
        unit == 1024 || unit == 0x10_0000,
        v <= u64::MAX + 2048,
    ensures
        final(out)@ == old(out)@ + tenths_text(v as nat, unit as nat),
{
    let scaled = v * 10;
    let q = scaled / unit;
    let r = scaled % unit;
    let tenths: u128 = if 2 * r > unit || (2 * r == unit && q % 2 == 1) {
        q + 1
    } else {
        q
    };
    assert(tenths / 10 <= u64::MAX) by (nonlinear_arith)
        requires
            q == scaled / unit,
            scaled == v * 10,
            unit >= 1024,
            tenths <= q + 1,
            v <= u64::MAX + 2048,
    {
        vstd::arithmetic::div_mod::lemma_fundamental_div_mod(scaled as int, unit as int);
    }
    push_decimal(out, (tenths / 10) as u64);
    push_str(out, ".");
    push_decimal(out, (tenths % 10) as u64);
    push_str(out, " MB/s");
    assert(final(out)@ =~= old(out)@ + tenths_text(v as nat, unit as nat));
}

/// A download or upload rate as text: `1536` → `1.5 MB/s`, `512` → `512 B/s`
/// (see [`spec_rate_text`]).
pub fn format_rate(bytes_per_sec: u64) -> (res: String)
    ensures
        res@ == spec_rate_text(bytes_per_sec),
{
    let mut out: Vec<char> = Vec::new();
    if bytes_per_sec >= 1024 * 1024 {
        let v = f64_value_of(bytes_per_sec);
        push_tenths(&mut out, v, 1024 * 1024);
    } else if bytes_per_sec >= 1024 {
        let v = f64_value_of(bytes_per_sec);
        push_tenths(&mut out, v, 1024);
    } else {
        push_decimal(&mut out, bytes_per_sec);
        push_str(&mut out, " B/s");
    }
    assert(out@ =~= spec_rate_text(bytes_per_sec));
    string_of(&out)
}

// ───────────────────────── tasks ─────────────────────────

/// The state of a download as the UI shows it.
#[derive(Debug, Clone, PartialEq, Eq)]
pub enum TaskState {
    /// Fetching metadata or checking what is on disk.
    Initializing,
    /// Downloading.
    Downloading,
    /// Done.
    Completed,
    /// Done, but the file on disk has been deleted (the UI offers the
    /// download again).
    Missing,
    /// Failed; no automatic retry, the user decides.
    Error(String),
}

pub enum TaskStateView {
    Initializing,
    Downloading,
    Completed,
    Missing,
    Error(Seq<char>),
}

impl DeepView for TaskState {
    type V = TaskStateView;

    open spec fn deep_view(&self) -> TaskStateView {
        match self {
            TaskState::Initializing => TaskStateView::Initializing,
            TaskState::Downloading => TaskStateView::Downloading,
            TaskState::Completed => TaskStateView::Completed,
            TaskState::Missing => TaskStateView::Missing,
            TaskState::Error(e) => TaskStateView::Error(e@),
        }
    }
}

/// The state of a torrent in the BitTorrent session.
#[derive(Debug, Clone, Copy, PartialEq, Eq, Structural)]
pub enum SessionState {
    Initializing,
    Live,
    Paused,
    Error,
}

/// The message of a failed torrent that carries none.
pub open spec fn unknown_error() -> Seq<char> {
    "未知错误"@
}

/// The UI state of a torrent: live and finished is completed (missing when its
/// output file is known and no longer exists); live or paused otherwise is
/// downloading; a failed torrent shows its error.
pub open spec fn spec_task_state(
    state: SessionState,
    finished: bool,
    error: Option<Seq<char>>,
    output_exists: Option<bool>,
) -> TaskStateView {
    match state {
        SessionState::Initializing => TaskStateView::Initializing,
        SessionState::Live => if finished {
            if output_exists == Some(false) {
                TaskStateView::Missing
            } else {
                TaskStateView::Completed
            }
        } else {
            TaskStateView::Downloading
        },
        SessionState::Paused => TaskStateView::Downloading,
        SessionState::Error => TaskStateView::Error(
            match error {
                Some(e) => e,
                None => unknown_error(),
            },
        ),
    }
}

/// The UI state of a torrent (see [`spec_task_state`]); `output_exists` is
/// `None` when the torrent has no known output file.
pub fn task_state_of(
    state: SessionState,
    finished: bool,
    error: Option<String>,
    output_exists: Option<bool>,
) -> (res: TaskState)
    ensures
        res.deep_view() == spec_task_state(state, finished, error.deep_view(), output_exists),
{
    match state {
        SessionState::Initializing => TaskState::Initializing,
        SessionState::Live => {
            if finished {
                match output_exists {
                    Some(false) => TaskState::Missing,
                    _ => TaskState::Completed,
                }
            } else {
                TaskState::Downloading
            }
        },
        SessionState::Paused => TaskState::Downloading,
        SessionState::Error => TaskState::Error(
            match error {
                Some(e) => e,
                None => "未知错误".to_owned(),
            },
        ),
    }
}

/// The file of a finished torrent: its first file name, cleaned like any
/// other name, inside the task's output folder. A name from the remote
/// metadata can thus never point outside that folder.
pub open spec fn spec_completed_output(output_dir: Seq<char>, file_name: Seq<char>) -> Seq<char> {
    crate::paths::join_path(output_dir, crate::paths::spec_sanitize_file_name(file_name))
}

/// Where the file of a finished torrent lies (see [`spec_completed_output`]).
pub fn completed_output_file(output_dir: &str, file_name: &str) -> (res: String)
    ensures
        res@ == spec_completed_output(output_dir@, file_name@),
        has_prefix_seq(res@, output_dir@),
{
    let safe = crate::paths::sanitize_file_name(file_name);
    let sc = chars_of(safe.as_str());
    let r = crate::paths::join_path_str(output_dir, &sc);
    assert(r@.subrange(0, output_dir@.len() as int) =~= output_dir@);
    r
}

pub open spec fn has_prefix_seq(s: Seq<char>, p: Seq<char>) -> bool {
    p.len() <= s.len() && s.subrange(0, p.len() as int) == p
}

/// What the UI sees of one task. Progress is `downloaded / total`, shown by
/// the caller.
#[derive(Debug, Clone)]
pub struct TaskRecord {
    /// Info-hash (hex), the identity of the task.
    pub id: String,
    /// Shown name (the episode title).
    pub title: String,
    pub downloaded: u64,
    pub total: u64,
    /// Bytes per second.
    pub download_rate: u64,
    /// Bytes per second.
    pub upload_rate: u64,
    pub state: TaskState,
    /// Connected peers.
    pub peers: usize,
    /// The finished file, for "open".
    pub output_file: Option<String>,
    /// The output folder, to find tasks by folder on unsubscribe.
    pub output_dir: Option<String>,
}

/// A download whose metadata is still being fetched: it is not yet a task of
/// the session, but the UI already shows it.
#[derive(Debug, Clone)]
pub struct PendingAdd {
    pub title: String,
    pub output_dir: String,
}

/// The record shown for a pending download: initializing, nothing
/// transferred.
pub open spec fn pending_record_ok(id: Seq<char>, p: PendingAdd, r: TaskRecord) -> bool {
    &&& r.id@ == id
    &&& r.title@ == p.title@
    &&& r.downloaded == 0 && r.total == 0 && r.download_rate == 0 && r.upload_rate == 0
    &&& r.state.deep_view() == TaskStateView::Initializing
    &&& r.peers == 0
    &&& r.output_file is None
    &&& r.output_dir.deep_view() == Some(p.output_dir@)
}

// ───────────────────────── commands and events ─────────────────────────

/// UI → download engine.
#[derive(Debug, Clone)]
pub enum DownloadCmd {
    /// Start a download.
    Add { magnet: String, title: String, output_dir: String },
    /// Cancel a task and delete what it downloaded.
    Cancel { id: String },
    /// Unsubscribe clean-up of a folder: refused while a task in it is still
    /// running; otherwise leftover tasks are cancelled and the folder removed.
    CleanupDir { dir: String, bangumi_name: String, group_name: String },
}

/// Download engine → UI notices.
#[derive(Debug, Clone)]
pub enum DownloadEvent {
    /// A download could not be started (bad magnet, metadata failure or
    /// time-out).
    AddFailed { title: String, error: String },
    /// The engine did not start; downloading is unavailable.
    EngineFailed { error: String },
    /// The unsubscribe clean-up was refused: tasks in the folder are running.
    UnsubscribeBlocked { dir: String, titles: Vec<String> },
    /// The unsubscribe clean-up is done; the subscription can go.
    UnsubscribeDone { dir: String },
}

/// Two task records show the same thing: every field equal, the texts by
/// their characters.
pub open spec fn same_record(a: TaskRecord, b: TaskRecord) -> bool {
    &&& a.id@ == b.id@
    &&& a.title@ == b.title@
    &&& a.downloaded == b.downloaded
    &&& a.total == b.total
    &&& a.download_rate == b.download_rate
    &&& a.upload_rate == b.upload_rate
    &&& a.state.deep_view() == b.state.deep_view()
    &&& a.peers == b.peers
    &&& a.output_file.deep_view() == b.output_file.deep_view()
    &&& a.output_dir.deep_view() == b.output_dir.deep_view()
}

/// Two snapshots show the same records in the same order.
pub open spec fn same_records(a: Seq<TaskRecord>, b: Seq<TaskRecord>) -> bool {
    a.len() == b.len() && forall|i: int| 0 <= i < a.len() ==> same_record(#[trigger] a[i], b[i])
}

/// The snapshot version after publishing `records` over `shown`: unchanged
/// when they show the same thing, else the next one.
pub open spec fn publish_version(v: u64, shown: Seq<TaskRecord>, records: Seq<TaskRecord>) -> u64 {
    if same_records(shown, records) {
        v
    } else {
        crate::network::next_version(v)
    }
}

fn same_opt_text(a: &Option<String>, b: &Option<String>) -> (r: bool)
    ensures
        r == (a.deep_view() == b.deep_view()),
{
    match (a, b) {
        (Some(x), Some(y)) => *x == *y,
        (None, None) => true,
        _ => false,
    }
}

fn same_state(a: &TaskState, b: &TaskState) -> (r: bool)
    ensures
        r == (a.deep_view() == b.deep_view()),
{
    match (a, b) {
        (TaskState::Initializing, TaskState::Initializing) => true,
        (TaskState::Downloading, TaskState::Downloading) => true,
        (TaskState::Completed, TaskState::Completed) => true,
        (TaskState::Missing, TaskState::Missing) => true,
        (TaskState::Error(x), TaskState::Error(y)) => *x == *y,
        _ => false,
    }
}

fn same_record_exec(a: &TaskRecord, b: &TaskRecord) -> (r: bool)
    ensures
        r == same_record(*a, *b),
{
    a.id == b.id && a.title == b.title && a.downloaded == b.downloaded && a.total == b.total
        && a.download_rate == b.download_rate && a.upload_rate == b.upload_rate
        && same_state(&a.state, &b.state) && a.peers == b.peers
        && same_opt_text(&a.output_file, &b.output_file)
        && same_opt_text(&a.output_dir, &b.output_dir)
}

fn same_records_exec(a: &Vec<TaskRecord>, b: &Vec<TaskRecord>) -> (r: bool)
    ensures
        r == same_records(a@, b@),
{
    if a.len() != b.len() {
        return false;
    }
    let mut i: usize = 0;
    while i < a.len()
        invariant
            a.len() == b.len(),
            i <= a.len(),
            forall|k: int| 0 <= k < i ==> same_record(#[trigger] a@[k], b@[k]),
        decreases a.len() - i,
    {
        if !same_record_exec(&a[i], &b[i]) {
            return false;
        }
        i = i + 1;
    }
    true
}

/// The snapshot version moves on exactly when the published records change:
/// by one (wrapping) when they differ, not at all when they show the same
/// thing, so publishing the same records again leaves it as it is.
pub proof fn law_snapshot_version_tracks_changes(
    v: u64,
    shown: Seq<TaskRecord>,
    records: Seq<TaskRecord>,
)
    ensures
        publish_version(v, shown, records) != v <==> !same_records(shown, records),
        !same_records(shown, records) ==> publish_version(v, shown, records)
            == crate::network::next_version(v),
        publish_version(v, records, records) == v,
{
}

/// The engine's shared bookkeeping: downloads whose metadata is being
/// fetched, downloads cancelled during that time, the events not yet read by
/// the UI, and the task records last published with the version of that
/// snapshot.
pub struct DownloadRegistry {
    pending: AssocMap<String, PendingAdd>,
    cancelled: AssocMap<String, ()>,
    events: Vec<DownloadEvent>,
    snapshot_version: u64,
    published: Vec<TaskRecord>,
}

impl DownloadRegistry {
    pub closed spec fn wf(&self) -> bool {
        self.pending.wf() && self.cancelled.wf()
    }

    /// Pending downloads: info-hash → title and folder.
    pub closed spec fn pending(&self) -> Map<Seq<char>, PendingAdd> {
        self.pending@
    }

    /// The order in which pending downloads were registered.
    pub closed spec fn pending_order(&self) -> Seq<Seq<char>> {
        self.pending.key_order()
    }

    /// Info-hashes cancelled while pending.
    pub closed spec fn cancelled(&self) -> Set<Seq<char>> {
        self.cancelled@.dom()
    }

    /// Events not yet taken by the UI, oldest first.
    pub closed spec fn events(&self) -> Seq<DownloadEvent> {
        self.events@
    }

    pub closed spec fn version(&self) -> u64 {
        self.snapshot_version
    }

    /// The task records of the snapshot last published.
    pub closed spec fn published(&self) -> Seq<TaskRecord> {
        self.published@
    }

    pub fn new() -> (r: Self)
        ensures
            r.wf(),
            r.pending() == Map::<Seq<char>, PendingAdd>::empty(),
            r.pending_order() == Seq::<Seq<char>>::empty(),
            r.cancelled() == Set::<Seq<char>>::empty(),
            r.events() == Seq::<DownloadEvent>::empty(),
            r.version() == 0,
            r.published() == Seq::<TaskRecord>::empty(),
    {
        let r = DownloadRegistry {
            pending: AssocMap::new(),
            cancelled: AssocMap::new(),
            events: Vec::new(),
            snapshot_version: 0,
            published: Vec::new(),
        };
        assert(r.cancelled@.dom() =~= Set::<Seq<char>>::empty());
        r
    }

    /// Registers a download whose metadata is being fetched.
    pub fn pending_insert(&mut self, hash: String, title: String, output_dir: String)
        requires
            old(self).wf(),
        ensures
            final(self).wf(),
            final(self).pending() == old(self).pending().insert(hash@, PendingAdd { title, output_dir }),
            final(self).cancelled() == old(self).cancelled(),
            final(self).events() == old(self).events(),
            final(self).version() == old(self).version(),
            final(self).published() == old(self).published(),
    {
        self.pending.insert(hash, PendingAdd { title, output_dir });
    }

    /// Forgets a pending download.
    pub fn pending_remove(&mut self, hash: &str)
        requires
            old(self).wf(),
        ensures
            final(self).wf(),
            final(self).pending() == old(self).pending().remove(hash@),
            final(self).cancelled() == old(self).cancelled(),
            final(self).events() == old(self).events(),
            final(self).version() == old(self).version(),
            final(self).published() == old(self).published(),
    {
        self.pending.remove(&hash.to_owned());
    }

    /// Notes that a download was cancelled while its metadata was fetched.
    pub fn cancelled_insert(&mut self, hash: &str)
        requires
            old(self).wf(),
        ensures
            final(self).wf(),
            final(self).cancelled() == old(self).cancelled().insert(hash@),
            final(self).pending() == old(self).pending(),
            final(self).events() == old(self).events(),
            final(self).version() == old(self).version(),
            final(self).published() == old(self).published(),
    {
        self.cancelled.insert(hash.to_owned(), ());
    }

    /// Whether a download was cancelled while pending; the mark is consumed.
    pub fn cancelled_take(&mut self, hash: &str) -> (res: bool)
        requires
            old(self).wf(),
        ensures
            final(self).wf(),
            res == old(self).cancelled().contains(hash@),
            final(self).cancelled() == old(self).cancelled().remove(hash@),
            final(self).pending() == old(self).pending(),
            final(self).events() == old(self).events(),
            final(self).version() == old(self).version(),
            final(self).published() == old(self).published(),
    {
        let r = self.cancelled.remove(&hash.to_owned());
        r.is_some()
    }

    /// Queues an event for the UI.
    pub fn push_event(&mut self, event: DownloadEvent)
        requires
            old(self).wf(),
        ensures
            final(self).wf(),
            final(self).events() == old(self).events().push(event),
            final(self).pending() == old(self).pending(),
            final(self).cancelled() == old(self).cancelled(),
            final(self).version() == old(self).version(),
            final(self).published() == old(self).published(),
    {
        self.events.push(event);
    }

    /// Takes every queued event, oldest first.
    pub fn take_events(&mut self) -> (res: Vec<DownloadEvent>)
        requires
            old(self).wf(),
        ensures
            final(self).wf(),
            res@ == old(self).events(),
            final(self).events() == Seq::<DownloadEvent>::empty(),
            final(self).pending() == old(self).pending(),
            final(self).cancelled() == old(self).cancelled(),
            final(self).version() == old(self).version(),
            final(self).published() == old(self).published(),
    {
        let mut taken: Vec<DownloadEvent> = Vec::new();
        std::mem::swap(&mut taken, &mut self.events);
        taken
    }

    /// The version of the task snapshot (it changes when the snapshot does).
    pub fn snapshot_version(&self) -> (v: u64)
        ensures
            v == self.version(),
    {
        self.snapshot_version
    }

    /// Publishes the task records of a new snapshot: when they differ from the
    /// ones last published they replace them and the version moves on by one;
    /// when they show the same thing nothing changes. Returns whether they
    /// differed.
    pub fn publish_snapshot(&mut self, records: Vec<TaskRecord>) -> (changed: bool)
        requires
            old(self).wf(),
        ensures
            final(self).wf(),
            changed == !same_records(old(self).published(), records@),
            final(self).published() == (if changed { records@ } else { old(self).published() }),
            final(self).version() == publish_version(old(self).version(), old(self).published(), records@),
            final(self).pending() == old(self).pending(),
            final(self).pending_order() == old(self).pending_order(),
            final(self).cancelled() == old(self).cancelled(),
            final(self).events() == old(self).events(),
    {
        if same_records_exec(&self.published, &records) {
            false
        } else {
            self.published = records;
            self.snapshot_version = self.snapshot_version.wrapping_add(1);
            true
        }
    }

    /// A cancel command: the task leaves the pending list, and a download whose
    /// metadata is still being fetched is marked so that it is removed the
    /// moment it arrives.
    pub fn cancel(&mut self, id: &str)
        requires
            old(self).wf(),
        ensures
            final(self).wf(),
            final(self).pending() == old(self).pending().remove(id@),
            final(self).cancelled() == old(self).cancelled().insert(id@),
            final(self).events() == old(self).events(),
            final(self).version() == old(self).version(),
            final(self).published() == old(self).published(),
    {
        self.pending_remove(id);
        self.cancelled_insert(id);
    }

    /// A download could not be added: it leaves the pending list and the UI is
    /// told why.
    pub fn add_failed(&mut self, hash: Option<String>, title: String, error: String)
        requires
            old(self).wf(),
        ensures
            final(self).wf(),
            final(self).pending() == match hash {
                Some(h) => old(self).pending().remove(h@),
                None => old(self).pending(),
            },
            final(self).events() == old(self).events().push(DownloadEvent::AddFailed { title, error }),
            final(self).cancelled() == old(self).cancelled(),
            final(self).version() == old(self).version(),
            final(self).published() == old(self).published(),
    {
        match &hash {
            Some(h) => self.pending_remove(h.as_str()),
            None => {},
        }
        self.push_event(DownloadEvent::AddFailed { title, error });
    }

    /// A download was added to the session: it leaves the pending list; the
    /// result says whether it was cancelled meanwhile and must be deleted at
    /// once.
    pub fn add_finished(&mut self, hash: &str) -> (delete_now: bool)
        requires
            old(self).wf(),
        ensures
            final(self).wf(),
            delete_now == old(self).cancelled().contains(hash@),
            final(self).pending() == old(self).pending().remove(hash@),
            final(self).cancelled() == old(self).cancelled().remove(hash@),
            final(self).events() == old(self).events(),
            final(self).version() == old(self).version(),
            final(self).published() == old(self).published(),
    {
        self.pending_remove(hash);
        self.cancelled_take(hash)
    }

    /// The titles of pending downloads into `dir`, in registration order.
    pub fn pending_titles_in(&self, dir: &str) -> (res: Vec<String>)
        requires
            self.wf(),
        ensures
            res.deep_view() == pending_titles_spec(self.pending(), self.pending_order(), dir@),
    {
        let entries = self.pending.entries();
        let mut out: Vec<String> = Vec::new();
        let mut i: usize = 0;
        while i < entries.len()
            invariant
                self.wf(),
                entries@.map_values(|e: (String, PendingAdd)| e.0.key_model()) == self.pending_order(),
                forall|k: int| 0 <= k < entries@.len() ==> self.pending().dom().contains(#[trigger] entries@[k].0.key_model()) && self.pending()[entries@[k].0.key_model()] == entries@[k].1,
                i <= entries.len(),
                out.deep_view() == pending_titles_spec(self.pending(), self.pending_order().take(i as int), dir@),
            decreases entries.len() - i,
        {
            let ghost before = out.deep_view();
            let ghost key = entries@[i as int].0.key_model();
            assert(self.pending_order().take(i + 1).drop_last() =~= self.pending_order().take(i as int));
            assert(self.pending_order()[i as int] == key);
            let p = &entries[i].1;
            if p.output_dir == dir.to_owned() {
                out.push(p.title.clone());
                assert(out.deep_view() =~= before.push(p.title@));
            }
            i = i + 1;
        }
        assert(self.pending_order().take(entries.len() as int) =~= self.pending_order());
        out
    }

    /// The records shown for pending downloads, in registration order.
    pub fn pending_records(&self) -> (res: Vec<TaskRecord>)
        requires
            self.wf(),
        ensures
            res@.len() == self.pending_order().len(),
            forall|k: int| 0 <= k < res@.len() ==> pending_record_ok(
                self.pending_order()[k],
                self.pending()[self.pending_order()[k]],
                #[trigger] res@[k],
            ),
    {
        let entries = self.pending.entries();
        let mut out: Vec<TaskRecord> = Vec::new();
        let mut i: usize = 0;
        while i < entries.len()
            invariant
                self.wf(),
                entries@.map_values(|e: (String, PendingAdd)| e.0.key_model()) == self.pending_order(),
                forall|k: int| 0 <= k < entries@.len() ==> self.pending().dom().contains(#[trigger] entries@[k].0.key_model()) && self.pending()[entries@[k].0.key_model()] == entries@[k].1,
                i <= entries.len(),
                out@.len() == i,
                forall|k: int| 0 <= k < i ==> pending_record_ok(
                    self.pending_order()[k],
                    self.pending()[self.pending_order()[k]],
                    #[trigger] out@[k],
                ),
            decreases entries.len() - i,
        {
            let (hash, p) = (&entries[i].0, &entries[i].1);
            let ghost key = entries@[i as int].0.key_model();
            assert(self.pending_order()[i as int] == key);
            let r = TaskRecord {
                id: hash.clone(),
                title: p.title.clone(),
                downloaded: 0,
                total: 0,
                download_rate: 0,
                upload_rate: 0,
                state: TaskState::Initializing,
                peers: 0,
                output_file: None,
                output_dir: Some(p.output_dir.clone()),
            };
            out.push(r);
            i = i + 1;
        }
        out
    }
}

/// A download cancelled while its metadata is fetched is shown no more (it is
/// in no record of the pending list), and when its metadata arrives after the
/// cancel, [`DownloadRegistry::add_finished`] says to delete it at once.
pub proof fn law_cancel_pending(before: DownloadRegistry, after: DownloadRegistry, id: Seq<char>)
    requires
        before.wf(),
        after.wf(),
        after.pending() == before.pending().remove(id),
        after.cancelled() == before.cancelled().insert(id),
    ensures
        !after.pending_order().contains(id),
        after.cancelled().contains(id),
{
    after.pending.lemma_key_order();
    if after.pending_order().contains(id) {
        assert(after.pending_order().to_set().contains(id));
    }
}

// ───────────────────────── the task snapshot ─────────────────────────

/// The first position of a record of task `id`, if any.
pub open spec fn index_of_id(vs: Seq<TaskRecord>, id: Seq<char>) -> Option<int> {
    if exists|i: int| 0 <= i < vs.len() && vs[i].id@ == id {
        Some(choose|i: int| 0 <= i < vs.len() && vs[i].id@ == id && forall|k: int| 0 <= k < i ==> vs[k].id@ != id)
    } else {
        None
    }
}

pub(crate) proof fn lemma_index_of_id(vs: Seq<TaskRecord>, id: Seq<char>)
    ensures
        match index_of_id(vs, id) {
            Some(i) => 0 <= i < vs.len() && vs[i].id@ == id,
            None => forall|k: int| 0 <= k < vs.len() ==> (#[trigger] vs[k]).id@ != id,
        },
{
    if exists|i: int| 0 <= i < vs.len() && vs[i].id@ == id {
        let w = choose|i: int| 0 <= i < vs.len() && vs[i].id@ == id;
        lemma_first_index(vs, id, w);
    } else {
        assert forall|k: int| 0 <= k < vs.len() implies (#[trigger] vs[k]).id@ != id by {
            if vs[k].id@ == id {
                assert(exists|i: int| 0 <= i < vs.len() && vs[i].id@ == id);
            }
        }
    }
}

proof fn lemma_first_index(vs: Seq<TaskRecord>, id: Seq<char>, w: int)
    requires
        0 <= w < vs.len(),
        vs[w].id@ == id,
    ensures
        exists|i: int| 0 <= i < vs.len() && vs[i].id@ == id && forall|k: int| 0 <= k < i ==> vs[k].id@ != id,
    decreases w,
{
    if exists|k: int| 0 <= k < w && vs[k].id@ == id {
        let k = choose|k: int| 0 <= k < w && vs[k].id@ == id;
        lemma_first_index(vs, id, k);
    } else {
        assert(forall|k: int| 0 <= k < w ==> vs[k].id@ != id);
    }
}

/// One session record added to the snapshot: it takes the place of the
/// record of the same task, or goes last.
pub open spec fn merge_one(vs: Seq<TaskRecord>, r: TaskRecord) -> Seq<TaskRecord> {
    match index_of_id(vs, r.id@) {
        Some(i) => vs.update(i, r),
        None => vs.push(r),
    }
}

/// The snapshot: the records of pending downloads, each replaced by the
/// session's record of the same task, and the session's other records after
/// them, in the session's order.
pub open spec fn merge_records(pending: Seq<TaskRecord>, session: Seq<TaskRecord>) -> Seq<TaskRecord>
    decreases session.len(),
{
    if session.len() == 0 {
        pending
    } else {
        merge_one(merge_records(pending, session.drop_last()), session.last())
    }
}

fn copy_opt(v: &Option<String>) -> (r: Option<String>)
    ensures
        r == *v,
{
    match v {
        Some(x) => Some(x.clone()),
        None => None,
    }
}

fn copy_record(t: &TaskRecord) -> (r: TaskRecord)
    ensures
        r == *t,
{
    let state = match &t.state {
        TaskState::Initializing => TaskState::Initializing,
        TaskState::Downloading => TaskState::Downloading,
        TaskState::Completed => TaskState::Completed,
        TaskState::Missing => TaskState::Missing,
        TaskState::Error(e) => TaskState::Error(e.clone()),
    };
    TaskRecord {
        id: t.id.clone(),
        title: t.title.clone(),
        downloaded: t.downloaded,
        total: t.total,
        download_rate: t.download_rate,
        upload_rate: t.upload_rate,
        state,
        peers: t.peers,
        output_file: copy_opt(&t.output_file),
        output_dir: copy_opt(&t.output_dir),
    }
}

pub(crate) fn find_id(vs: &Vec<TaskRecord>, id: &String) -> (r: Option<usize>)
    ensures
        match r {
            Some(i) => index_of_id(vs@, id@) == Some(i as int),
            None => index_of_id(vs@, id@) is None,
        },
{
    let mut i: usize = 0;
    while i < vs.len()
        invariant
            i <= vs.len(),
            forall|k: int| 0 <= k < i ==> vs@[k].id@ != id@,
        decreases vs.len() - i,
    {
        if vs[i].id == *id {
            proof {
                let c = choose|c: int| 0 <= c < vs@.len() && vs@[c].id@ == id@ && forall|k: int| 0 <= k < c ==> vs@[k].id@ != id@;
                assert(vs@[i as int].id@ == id@);
                if c < i {
                } else if c > i {
                }
            }
            return Some(i);
        }
        i = i + 1;
    }
    None
}

/// The task snapshot (see [`merge_records`]).
pub fn snapshot_records(pending: Vec<TaskRecord>, session: &Vec<TaskRecord>) -> (res: Vec<TaskRecord>)
    ensures
        res@ == merge_records(pending@, session@),
{
    let mut out = pending;
    let ghost p = out@;
    let mut i: usize = 0;
    assert(session@.take(0) =~= Seq::<TaskRecord>::empty());
    while i < session.len()
        invariant
            i <= session.len(),
            out@ == merge_records(p, session@.take(i as int)),
        decreases session.len() - i,
    {
        assert(session@.take(i + 1).drop_last() =~= session@.take(i as int));
        let r = copy_record(&session[i]);
        proof {
            lemma_index_of_id(out@, r.id@);
        }
        match find_id(&out, &r.id) {
            Some(j) => {
                out.set(j, r);
            },
            None => {
                out.push(r);
            },
        }
        i = i + 1;
    }
    assert(session@.take(session.len() as int) =~= session@);
    out
}

proof fn lemma_merge_keeps_id(pending: Seq<TaskRecord>, session: Seq<TaskRecord>, id: Seq<char>)
    requires
        forall|k: int| 0 <= k < session.len() ==> (#[trigger] session[k]).id@ != id,
    ensures
        forall|i: int| 0 <= i < pending.len() ==> (#[trigger] merge_records(pending, session)[i]).id@ == id ==> merge_records(pending, session)[i] == pending[i],
        forall|i: int| 0 <= i < pending.len() && (#[trigger] pending[i]).id@ == id ==> merge_records(pending, session)[i] == pending[i],
        forall|i: int| pending.len() <= i < merge_records(pending, session).len() ==> (#[trigger] merge_records(pending, session)[i]).id@ != id,
        merge_records(pending, session).len() >= pending.len(),
    decreases session.len(),
{
    if session.len() > 0 {
        let q = session.drop_last();
        assert forall|k: int| 0 <= k < q.len() implies (#[trigger] q[k]).id@ != id by {
            assert(q[k] == session[k]);
        }
        lemma_merge_keeps_id(pending, q, id);
        let vs = merge_records(pending, q);
        let r = session.last();
        assert(r == session[session.len() - 1]);
        let m = merge_records(pending, session);
        assert(m == merge_one(vs, r));
        lemma_index_of_id(vs, r.id@);
        match index_of_id(vs, r.id@) {
            Some(j) => {
                assert(vs[j].id@ == r.id@);
                assert forall|i: int| 0 <= i < pending.len() implies (#[trigger] m[i]).id@ == id ==> m[i] == pending[i] by {
                    if i != j {
                        assert(m[i] == vs[i]);
                    }
                }
                assert forall|i: int| 0 <= i < pending.len() && (#[trigger] pending[i]).id@ == id implies m[i] == pending[i] by {
                    assert(vs[i] == pending[i]);
                    assert(i != j);
                }
                assert forall|i: int| pending.len() <= i < m.len() implies (#[trigger] m[i]).id@ != id by {
                    if i != j {
                        assert(m[i] == vs[i]);
                    }
                }
            },
            None => {
                assert forall|i: int| 0 <= i < pending.len() implies (#[trigger] m[i]).id@ == id ==> m[i] == pending[i] by {
                    assert(m[i] == vs[i]);
                }
                assert forall|i: int| 0 <= i < pending.len() && (#[trigger] pending[i]).id@ == id implies m[i] == pending[i] by {
                    assert(m[i] == vs[i]);
                }
                assert forall|i: int| pending.len() <= i < m.len() implies (#[trigger] m[i]).id@ != id by {
                    if i < vs.len() {
                        assert(m[i] == vs[i]);
                    }
                }
            },
        }
    }
}

/// A download whose metadata is still being fetched shows in the snapshot as
/// exactly one record, initializing with nothing transferred (as long as the
/// session has no task of it); a download that is not pending (for one, once
/// cancelled) and that the session does not have shows in none.
pub proof fn law_pending_shown_once(
    registry: DownloadRegistry,
    pending: Seq<TaskRecord>,
    session: Seq<TaskRecord>,
    id: Seq<char>,
)
    requires
        registry.wf(),
        pending.len() == registry.pending_order().len(),
        forall|k: int| 0 <= k < pending.len() ==> pending_record_ok(
            registry.pending_order()[k],
            registry.pending()[registry.pending_order()[k]],
            #[trigger] pending[k],
        ),
        forall|k: int| 0 <= k < session.len() ==> (#[trigger] session[k]).id@ != id,
    ensures
        registry.pending().dom().contains(id) ==> exists|i: int|
            0 <= i < merge_records(pending, session).len() && pending_record_ok(
                id,
                registry.pending()[id],
                #[trigger] merge_records(pending, session)[i],
            ) && forall|j: int|
                0 <= j < merge_records(pending, session).len() && j != i ==> merge_records(pending, session)[j].id@ != id,
        !registry.pending().dom().contains(id) ==> forall|j: int|
            0 <= j < merge_records(pending, session).len() ==> (#[trigger] merge_records(pending, session)[j]).id@ != id,
{
    registry.pending.lemma_key_order();
    let order = registry.pending_order();
    lemma_merge_keeps_id(pending, session, id);
    let m = merge_records(pending, session);
    assert forall|k: int| 0 <= k < pending.len() implies (#[trigger] pending[k]).id@ == order[k] by {}
    if registry.pending().dom().contains(id) {
        assert(order.to_set().contains(id));
        let i = choose|i: int| 0 <= i < order.len() && order[i] == id;
        assert(pending[i].id@ == id);
        assert(m[i] == pending[i]);
        assert forall|j: int| 0 <= j < m.len() && j != i implies m[j].id@ != id by {
            if j < pending.len() {
                if m[j].id@ == id {
                    assert(m[j] == pending[j]);
                    assert(order[j] == id);
                    assert(order[i] == order[j]);
                }
            }
        }
    } else {
        assert forall|j: int| 0 <= j < m.len() implies (#[trigger] m[j]).id@ != id by {
            if j < pending.len() && m[j].id@ == id {
                assert(m[j] == pending[j]);
                assert(order[j] == id);
                assert(order.to_set().contains(id));
            }
        }
    }
}

/// The titles of the pending downloads among `order` whose folder is `dir`.
pub open spec fn pending_titles_spec(
    pending: Map<Seq<char>, PendingAdd>,
    order: Seq<Seq<char>>,
    dir: Seq<char>,
) -> Seq<Seq<char>>
    decreases order.len(),
{
    if order.len() == 0 {
        Seq::empty()
    } else {
        let prev = pending_titles_spec(pending, order.drop_last(), dir);
        let p = pending[order.last()];
        if p.output_dir@ == dir {
            prev.push(p.title@)
        } else {
            prev
        }
    }
}

/// How an unsubscribe clean-up of a folder goes.
#[derive(Debug, Clone)]
pub enum CleanupOutcome {
    /// Tasks in the folder are still running (their titles, tasks of the
    /// session first, then pending downloads): nothing is touched.
    Blocked(Vec<String>),
    /// Nothing runs: the listed tasks are cancelled, their records deleted,
    /// and the folder removed.
    Proceed(Vec<String>),
}

/// One recorded task of the folder being cleaned: its info-hash, title and
/// whether the session still runs it (neither finished nor failed).
#[derive(Debug, Clone)]
pub struct FolderTask {
    pub hash: String,
    pub title: String,
    pub running: bool,
}

/// The titles of the running tasks among `ts`.
pub open spec fn running_titles(ts: Seq<FolderTask>) -> Seq<Seq<char>>
    decreases ts.len(),
{
    if ts.len() == 0 {
        Seq::empty()
    } else {
        let prev = running_titles(ts.drop_last());
        if ts.last().running {
            prev.push(ts.last().title@)
        } else {
            prev
        }
    }
}

/// Decides an unsubscribe clean-up of `dir`: blocked when a recorded task of
/// the folder is running or a download into it is pending; otherwise every
/// recorded task of the folder is to be cancelled.
pub fn cleanup_decision(tasks: &Vec<FolderTask>, registry: &DownloadRegistry, dir: &str) -> (res:
    CleanupOutcome)
    requires
        registry.wf(),
    ensures
        ({
            let active = running_titles(tasks@) + pending_titles_spec(
                registry.pending(),
                registry.pending_order(),
                dir@,
            );
            match res {
                CleanupOutcome::Blocked(titles) => active.len() > 0 && titles.deep_view() == active,
                CleanupOutcome::Proceed(hashes) => active.len() == 0 && hashes.deep_view()
                    == tasks@.map_values(|t: FolderTask| t.hash@),
            }
        }),
{
    let mut active: Vec<String> = Vec::new();
    let mut i: usize = 0;
    while i < tasks.len()
        invariant
            i <= tasks.len(),
            active.deep_view() == running_titles(tasks@.take(i as int)),
        decreases tasks.len() - i,
    {
        let ghost before = active.deep_view();
        assert(tasks@.take(i + 1).drop_last() =~= tasks@.take(i as int));
        if tasks[i].running {
            active.push(tasks[i].title.clone());
            assert(active.deep_view() =~= before.push(tasks@[i as int].title@));
        }
        i = i + 1;
    }
    assert(tasks@.take(tasks.len() as int) =~= tasks@);
    let pend = registry.pending_titles_in(dir);
    let ghost a1 = active.deep_view();
    let mut j: usize = 0;
    while j < pend.len()
        invariant
            j <= pend.len(),
            active.deep_view() == a1 + pend.deep_view().take(j as int),
        decreases pend.len() - j,
    {
        let ghost before = active.deep_view();
        let x = pend[j].clone();
        assert(x@ == pend.deep_view()[j as int]);
        active.push(x);
        assert(active.deep_view() =~= before.push(x@));
        assert(pend.deep_view().take(j + 1) =~= pend.deep_view().take(j as int).push(x@));
        j = j + 1;
        assert(active.deep_view() =~= a1 + pend.deep_view().take(j as int));
    }
    assert(pend.deep_view().take(pend.len() as int) =~= pend.deep_view());
    if active.len() > 0 {
        return CleanupOutcome::Blocked(active);
    }
    let mut hashes: Vec<String> = Vec::new();
    let mut k: usize = 0;
    while k < tasks.len()
        invariant
            k <= tasks.len(),
            hashes.deep_view() == tasks@.take(k as int).map_values(|t: FolderTask| t.hash@),
        decreases tasks.len() - k,
    {
        let ghost before = hashes.deep_view();
        let x = tasks[k].hash.clone();
        hashes.push(x);
        assert(hashes.deep_view() =~= before.push(x@));
        k = k + 1;
        assert(hashes.deep_view() =~= tasks@.take(k as int).map_values(|t: FolderTask| t.hash@));
    }
    assert(tasks@.take(tasks.len() as int) =~= tasks@);
    CleanupOutcome::Proceed(hashes)
}

// ───────────────────────── trackers ─────────────────────────

/// The public trackers added to every magnet link (one list, no ranking).
pub open spec fn spec_trackers() -> Seq<Seq<char>> {
    seq![
        "http://tracker.opentrackr.org:1337/announce"@,
        "https://tracker.gbitt.info:443/announce"@,
        "udp://tracker.opentrackr.org:1337/announce"@,
        "udp://tracker.openbittorrent.com:6969/announce"@,
        "http://tracker.openbittorrent.com:80/announce"@,
        "https://open.acgnxtracker.com/announce"@,
        "udp://open.stealth.si:80/announce"@,
        "https://tr.bangumi.moe:9696/announce"@,
        "udp://tracker.torrent.eu.org:451/announce"@,
        "http://tracker.bt4g.com:2095/announce"@,
        "https://tracker.zhuqiy.com:443/announce"@,
        "http://share.camoe.cn:8080/announce"@,
        "http://t.nyaatracker.com/announce"@,
        "https://tracker.pmman.tech:443/announce"@,
        "https://tracker.nekomi.cn:443/announce"@,
        "http://opentracker.acgnx.se/announce"@,
        "udp://exodus.desync.com:6969/announce"@,
        "udp://open.demonii.com:1337/announce"@,
        "udp://explodie.org:6969/announce"@,
        "udp://zer0day.ch:1337/announce"@,
        "udp://tracker-udp.gbitt.info:80/announce"@,
        "udp://tracker.tiny-vps.com:6969/announce"@,
        "udp://opentracker.i2p.rocks:6969/announce"@,
        "udp://tracker.moeking.me:6969/announce"@,
        "udp://tracker.cyberia.is:6969/announce"@,
        "udp://tracker.leechers-paradise.org:6969/announce"@,
        "udp://tracker.internetwarriors.net:1337/announce"@,
    ]
}

/// The public tracker list.
pub fn trackers() -> (res: Vec<&'static str>)
    ensures
        res@.map_values(|t: &str| t@) == spec_trackers(),
{
    let res = vec![
        "http://tracker.opentrackr.org:1337/announce",
        "https://tracker.gbitt.info:443/announce",
        "udp://tracker.opentrackr.org:1337/announce",
        "udp://tracker.openbittorrent.com:6969/announce",
        "http://tracker.openbittorrent.com:80/announce",
        "https://open.acgnxtracker.com/announce",
        "udp://open.stealth.si:80/announce",
        "https://tr.bangumi.moe:9696/announce",
        "udp://tracker.torrent.eu.org:451/announce",
        "http://tracker.bt4g.com:2095/announce",
        "https://tracker.zhuqiy.com:443/announce",
        "http://share.camoe.cn:8080/announce",
        "http://t.nyaatracker.com/announce",
        "https://tracker.pmman.tech:443/announce",
        "https://tracker.nekomi.cn:443/announce",
        "http://opentracker.acgnx.se/announce",
        "udp://exodus.desync.com:6969/announce",
        "udp://open.demonii.com:1337/announce",
        "udp://explodie.org:6969/announce",
        "udp://zer0day.ch:1337/announce",
        "udp://tracker-udp.gbitt.info:80/announce",
        "udp://tracker.tiny-vps.com:6969/announce",
        "udp://opentracker.i2p.rocks:6969/announce",
        "udp://tracker.moeking.me:6969/announce",
        "udp://tracker.cyberia.is:6969/announce",
        "udp://tracker.leechers-paradise.org:6969/announce",
        "udp://tracker.internetwarriors.net:1337/announce",
    ];
    assert(res@.map_values(|t: &str| t@) =~= spec_trackers());
    res
}

/// `trackers` appended to `existing`, each one only if the list does not hold
/// it yet.
pub open spec fn merged_trackers(existing: Seq<Seq<char>>, trackers: Seq<Seq<char>>) -> Seq<Seq<char>>
    decreases trackers.len(),
{
    if trackers.len() == 0 {
        existing
    } else {
        let m = merged_trackers(existing, trackers.drop_last());
        if m.contains(trackers.last()) {
            m
        } else {
            m.push(trackers.last())
        }
    }
}

fn contains_string(v: &Vec<String>, s: &str) -> (res: bool)
    ensures
        res == v.deep_view().contains(s@),
{
    let mut i: usize = 0;
    let target = s.to_owned();
    while i < v.len()
        invariant
            i <= v.len(),
            target@ == s@,
            forall|k: int| 0 <= k < i ==> v.deep_view()[k] != s@,
        decreases v.len() - i,
    {
        if v[i] == target {
            assert(v.deep_view()[i as int] == s@);
            return true;
        }
        i = i + 1;
    }
    false
}

/// The trackers of a magnet link merged with the public list into one list
/// without repeats (the link's own first, in their order).
pub fn merge_trackers(existing: Vec<String>) -> (res: Vec<String>)
    ensures
        res.deep_view() == merged_trackers(existing.deep_view(), spec_trackers()),
{
    let ts = trackers();
    let mut out = existing;
    let ghost start = out.deep_view();
    let mut i: usize = 0;
    while i < ts.len()
        invariant
            i <= ts.len(),
            ts@.map_values(|t: &str| t@) == spec_trackers(),
            out.deep_view() == merged_trackers(start, spec_trackers().take(i as int)),
        decreases ts.len() - i,
    {
        assert(spec_trackers().take(i + 1).drop_last() =~= spec_trackers().take(i as int));
        assert(spec_trackers().take(i + 1).last() == ts@[i as int]@);
        if !contains_string(&out, ts[i]) {
            let ghost before = out.deep_view();
            out.push(ts[i].to_owned());
            assert(out.deep_view() =~= before.push(ts@[i as int]@));
        }
        i = i + 1;
    }
    assert(spec_trackers().take(ts.len() as int) =~= spec_trackers());
    out
}

// ───────────────────────── the magnet handed to the session ─────────────────────────

/// `p` occurs somewhere in `s`.
pub open spec fn has_text(s: Seq<char>, p: Seq<char>) -> bool {
    exists|i: int| occurs_at(s, p, i)
}

/// The `xt` value that starts at `j` is `urn:btih:` and exactly 40 hex
/// digits, ended by `&`, `#` or the end of the link.
pub open spec fn xt_value_ok(s: Seq<char>, j: int) -> bool {
    &&& j + 49 <= s.len()
    &&& occurs_at(s, "urn:btih:"@, j)
    &&& forall|m: int| j + 9 <= m < j + 49 ==> is_ascii_hex(#[trigger] s[m])
    &&& (j + 49 == s.len() || s[j + 49] == '&' || s[j + 49] == '#')
}

/// A magnet link in the plain form this client adds: every `xt=` is followed
/// by a hex `btih` hash of 40 digits, there is no file selection (`so=`), and
/// no escape or control character could spell `xt` or `so` another way
/// (`%78`, `%74`, `%73`, `%6f`, `%6F`; tab and line breaks, which URL parsing
/// drops). `librqbit::Magnet::parse` panics on some links outside this form:
/// on a file range too large to collect, and on a base32 hash whose padding
/// decodes to the wrong number of bytes.
pub open spec fn spec_plain_magnet(link: Seq<char>) -> bool {
    &&& !has_text(link, "%78"@)
    &&& !has_text(link, "%74"@)
    &&& !has_text(link, "%73"@)
    &&& !has_text(link, "%6f"@)
    &&& !has_text(link, "%6F"@)
    &&& !has_text(link, "so="@)
    &&& !has_text(link, "\t"@)
    &&& !has_text(link, "\n"@)
    &&& !has_text(link, "\r"@)
    &&& forall|i: int| #[trigger] occurs_at(link, "xt="@, i) ==> xt_value_ok(link, i + 3)
}

fn has_text_exec(s: &Vec<char>, p: &str) -> (res: bool)
    ensures
        res == has_text(s@, p@),
{
    let pv = chars_of(p);
    let found = find_chars(s, &pv);
    proof {
        reveal(first_occurrence);
    }
    found.is_some()
}

fn xt_value_ok_exec(s: &Vec<char>, j: usize) -> (res: bool)
    ensures
        res == xt_value_ok(s@, j as int),
{
    let urn = chars_of("urn:btih:");
    proof {
        reveal_strlit("urn:btih:");
    }
    if j > s.len() || s.len() - j < 49 {
        return false;
    }
    if !occurs_at_exec(s, &urn, j) {
        return false;
    }
    let mut k: usize = j + 9;
    while k < j + 49
        invariant
            j + 49 <= s.len(),
            j + 9 <= k <= j + 49,
            forall|m: int| j + 9 <= m < k ==> is_ascii_hex(#[trigger] s@[m]),
        decreases j + 49 - k,
    {
        if !char_is_ascii_hex(s[k]) {
            return false;
        }
        k = k + 1;
    }
    let e: usize = j + 49;
    e == s.len() || s[e] == '&' || s[e] == '#'
}

/// Whether a magnet link is in the plain form that the magnet parser is
/// handed (see [`spec_plain_magnet`]).
pub fn plain_magnet(link: &str) -> (res: bool)
    ensures
        res == spec_plain_magnet(link@),
{
    let s = chars_of(link);
    if has_text_exec(&s, "%78") || has_text_exec(&s, "%74") || has_text_exec(&s, "%73")
        || has_text_exec(&s, "%6f") || has_text_exec(&s, "%6F") || has_text_exec(&s, "so=")
        || has_text_exec(&s, "\t") || has_text_exec(&s, "\n") || has_text_exec(&s, "\r") {
        return false;
    }
    let xt = chars_of("xt=");
    proof {
        reveal_strlit("xt=");
    }
    let mut i: usize = 0;
    while i < s.len()
        invariant
            i <= s.len(),
            s@ == link@,
            xt@ == "xt="@,
            xt@.len() == 3,
            forall|m: int| 0 <= m < i ==> (#[trigger] occurs_at(s@, xt@, m)) ==> xt_value_ok(s@, m + 3),
        decreases s.len() - i,
    {
        if occurs_at_exec(&s, &xt, i) {
            if !xt_value_ok_exec(&s, i + 3) {
                assert(occurs_at(link@, "xt="@, i as int));
                return false;
            }
        }
        i = i + 1;
    }
    assert forall|m: int| #[trigger] occurs_at(s@, xt@, m) implies xt_value_ok(s@, m + 3) by {
        if m >= i {
            assert(m + 3 > s@.len());
        }
    }
    true
}

/// What `librqbit::Magnet::parse` makes of a magnet link: its trackers (the
/// `tr` parameters, in order), or the text of its error.
pub uninterp spec fn magnet_parse(magnet: Seq<char>) -> Result<Seq<Seq<char>>, Seq<char>>;

/// The link that results from two outside functions in turn:
/// `librqbit::Magnet::parse` of `magnet`, then, with the parsed trackers
/// replaced by `trackers`, the link that `Magnet`'s `Display` prints.
pub uninterp spec fn magnet_with_trackers(magnet: Seq<char>, trackers: Seq<Seq<char>>) -> Seq<char>;

/// Parses a magnet link with `librqbit::Magnet::parse`.
///
/// Trusted: the outcome is named by [`magnet_parse`], a function of the link
/// alone; the trackers are those the parse keeps, the error its text. The
/// link must be plain ([`spec_plain_magnet`]): on some other links the parser
/// panics.
#[verifier::external_body]
fn parse_magnet_trackers(magnet: &str) -> (r: Result<Vec<String>, String>)
    requires
        spec_plain_magnet(magnet@),
    ensures
        match magnet_parse(magnet@) {
            Ok(t) => r matches Ok(v) && v.deep_view() == t,
            Err(e) => r matches Err(m) && m@ == e,
        },
{
    match librqbit::Magnet::parse(magnet) {
        Ok(m) => Ok(m.trackers),
        Err(e) => Err(format!("{e}")),
    }
}

/// The link of the parsed magnet with its trackers replaced
/// (`librqbit::Magnet::parse`, then its `Display`).
///
/// Trusted: the result is named by [`magnet_with_trackers`], a function of the
/// link and the trackers alone. The link must be plain
/// ([`spec_plain_magnet`]), as for [`parse_magnet_trackers`].
#[verifier::external_body]
fn rebuild_magnet(magnet: &str, trackers: Vec<String>) -> (r: String)
    requires
        spec_plain_magnet(magnet@),
    ensures
        r@ == magnet_with_trackers(magnet@, trackers.deep_view()),
{
    match librqbit::Magnet::parse(magnet) {
        Ok(mut m) => {
            m.trackers = trackers;
            m.to_string()
        },
        Err(_) => String::new(),
    }
}

/// The message of a magnet link that does not parse.
pub open spec fn magnet_error_message(e: Seq<char>) -> Seq<char> {
    "磁力解析失败: "@ + e
}

/// The parse error of a link that is not in the plain form.
pub open spec fn unsupported_magnet() -> Seq<char> {
    "unsupported magnet link: expected xt=urn:btih: with 40 hex digits and no file selection"@
}

/// The link handed to the session for a download: the magnet with its own
/// trackers merged with the public ones (no repeats). A link that is not in
/// the plain form ([`spec_plain_magnet`]) is refused before it is parsed; an
/// unparsable link is an error with the parser's message.
pub fn magnet_for_add(magnet: &str) -> (r: Result<String, String>)
    ensures
        !spec_plain_magnet(magnet@) ==> (r matches Err(msg) && msg@ == magnet_error_message(
            unsupported_magnet(),
        )),
        spec_plain_magnet(magnet@) ==> match magnet_parse(magnet@) {
            Ok(t) => r matches Ok(m) && m@ == magnet_with_trackers(magnet@, merged_trackers(t, spec_trackers())),
            Err(e) => r matches Err(msg) && msg@ == magnet_error_message(e),
        },
{
    if !plain_magnet(magnet) {
        let mut out: Vec<char> = Vec::new();
        push_str(&mut out, "磁力解析失败: ");
        push_str(&mut out, "unsupported magnet link: expected xt=urn:btih: with 40 hex digits and no file selection");
        assert(out@ =~= magnet_error_message(unsupported_magnet()));
        return Err(string_of(&out));
    }
    match parse_magnet_trackers(magnet) {
        Ok(t) => {
            let merged = merge_trackers(t);
            Ok(rebuild_magnet(magnet, merged))
        },
        Err(e) => {
            let mut out: Vec<char> = Vec::new();
            push_str(&mut out, "磁力解析失败: ");
            push_str(&mut out, e.as_str());
            assert(out@ =~= magnet_error_message(e@));
            Err(string_of(&out))
        },
    }
}

/// The message of a download that the session refused.
pub open spec fn add_error_message(detail: Seq<char>) -> Seq<char> {
    "添加任务失败: "@ + detail
}

/// The message of a download that the session refused, with the session's
/// own account of why.
pub fn add_error_text(detail: &str) -> (res: String)
    ensures
        res@ == add_error_message(detail@),
{
    let mut out: Vec<char> = Vec::new();
    push_str(&mut out, "添加任务失败: ");
    push_str(&mut out, detail);
    assert(out@ =~= add_error_message(detail@));
    string_of(&out)
}

/// The message of a download whose metadata did not come within `secs`
/// seconds.
pub open spec fn metadata_timeout_message(secs: nat) -> Seq<char> {
    "获取资源信息超时("@ + decimal(secs) + "s),该资源可能暂无可用来源"@
}

/// The message of a download whose metadata did not come in time.
pub fn metadata_timeout_text(secs: u64) -> (res: String)
    ensures
        res@ == metadata_timeout_message(secs as nat),
{
    let mut out: Vec<char> = Vec::new();
    push_str(&mut out, "获取资源信息超时(");
    push_decimal(&mut out, secs);
    push_str(&mut out, "s),该资源可能暂无可用来源");
    assert(out@ =~= metadata_timeout_message(secs as nat));
    string_of(&out)
}

} // verus!
