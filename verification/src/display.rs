//! Text and lookup rules of the pages: the broadcast start date, poster
//! addresses, the group of a weekday, the format badge of a card.

use vstd::prelude::*;

use crate::model::{BangumiGroup, BangumiGroupView};
use crate::navigation::{spec_weekday_names, HomeFilter};
use crate::text::{
    chars_of, decimal, has_prefix, parse_u32, parse_u32_chars, push_chars, push_decimal,
    push_str, starts_with_str, string_of,
};

verus! {

// ───────────────────────── splitting ─────────────────────────

/// The texts held by a list of character vectors.
pub open spec fn texts(v: Seq<Vec<char>>) -> Seq<Seq<char>> {
    v.map_values(|x: Vec<char>| x@)
}

/// The pieces of `s` between the characters that `sep` picks, empty pieces
/// included (`str::split`).
pub open spec fn split_by(s: Seq<char>, sep: spec_fn(char) -> bool) -> Seq<Seq<char>>
    decreases s.len(),
{
    if s.len() == 0 {
        seq![Seq::empty()]
    } else {
        let p = split_by(s.drop_last(), sep);
        if sep(s.last()) {
            p.push(Seq::empty())
        } else {
            p.update(p.len() - 1, p.last().push(s.last()))
        }
    }
}

proof fn lemma_split_nonempty(s: Seq<char>, sep: spec_fn(char) -> bool)
    ensures
        split_by(s, sep).len() >= 1,
    decreases s.len(),
{
    if s.len() > 0 {
        lemma_split_nonempty(s.drop_last(), sep);
    }
}

/// Which separators a split uses.
#[derive(Debug, Clone, Copy, PartialEq, Eq, Structural)]
pub enum Separators {
    /// `/` or `-` (dates).
    DateMarks,
    /// `&` (query strings).
    Ampersand,
}

pub open spec fn is_sep(which: Separators, c: char) -> bool {
    match which {
        Separators::DateMarks => c == '/' || c == '-',
        Separators::Ampersand => c == '&',
    }
}

pub open spec fn sep_fn(which: Separators) -> spec_fn(char) -> bool {
    |c: char| is_sep(which, c)
}

/// Splits `s` (see [`split_by`]).
pub fn split_chars(s: &Vec<char>, which: Separators) -> (res: Vec<Vec<char>>)
    ensures
        texts(res@) == split_by(s@, sep_fn(which)),
{
    let mut parts: Vec<Vec<char>> = Vec::new();
    let mut cur: Vec<char> = Vec::new();
    let mut i: usize = 0;
    assert(s@.take(0) =~= Seq::<char>::empty());
    while i < s.len()
        invariant
            i <= s.len(),
            texts(parts@).push(cur@) == split_by(s@.take(i as int), sep_fn(which)),
        decreases s.len() - i,
    {
        let c = s[i];
        let ghost t2 = s@.take(i + 1);
        assert(t2.drop_last() =~= s@.take(i as int));
        assert(t2.last() == c);
        proof {
            lemma_split_nonempty(s@.take(i as int), sep_fn(which));
        }
        let is = match which {
            Separators::DateMarks => c == '/' || c == '-',
            Separators::Ampersand => c == '&',
        };
        if is {
            let ghost before = texts(parts@);
            let mut done: Vec<char> = Vec::new();
            std::mem::swap(&mut done, &mut cur);
            parts.push(done);
            assert(texts(parts@) =~= before.push(done@));
            assert(texts(parts@).push(cur@) =~= split_by(t2, sep_fn(which)));
        } else {
            let ghost before = texts(parts@).push(cur@);
            cur.push(c);
            assert(texts(parts@).push(cur@) =~= before.update(before.len() - 1, before.last().push(c)));
        }
        i = i + 1;
    }
    assert(s@.take(s.len() as int) =~= s@);
    let ghost before = texts(parts@);
    parts.push(cur);
    assert(texts(parts@) =~= before.push(parts@.last()@));
    parts
}

// ───────────────────────── dates ─────────────────────────

/// A broadcast start written `M/D/YYYY` or `M-D-YYYY` (month 1-12, day 1-31,
/// four-digit year) reads `YYYY年M月D日`; anything else is shown as it is.
pub open spec fn spec_format_broadcast_start(raw: Seq<char>) -> Seq<char> {
    let parts = split_by(raw, sep_fn(Separators::DateMarks));
    if parts.len() == 3 {
        match (parse_u32(parts[0]), parse_u32(parts[1]), parse_u32(parts[2])) {
            (Some(m), Some(d), Some(y)) => if 1 <= m <= 12 && 1 <= d <= 31 && 1000 <= y <= 9999 {
                decimal(y as nat) + "年"@ + decimal(m as nat) + "月"@ + decimal(d as nat) + "日"@
            } else {
                raw
            },
            _ => raw,
        }
    } else {
        raw
    }
}

/// Formats a broadcast start date (see [`spec_format_broadcast_start`]).
pub fn format_broadcast_start(raw: &str) -> (res: String)
    ensures
        res@ == spec_format_broadcast_start(raw@),
{
    let chars = chars_of(raw);
    let parts = split_chars(&chars, Separators::DateMarks);
    if parts.len() == 3 {
        let m = parse_u32_chars(&parts[0]);
        let d = parse_u32_chars(&parts[1]);
        let y = parse_u32_chars(&parts[2]);
        assert(texts(parts@)[0] == parts@[0]@);
        assert(texts(parts@)[1] == parts@[1]@);
        assert(texts(parts@)[2] == parts@[2]@);
        match (m, d, y) {
            (Some(m), Some(d), Some(y)) => {
                if 1 <= m && m <= 12 && 1 <= d && d <= 31 && 1000 <= y && y <= 9999 {
                    let mut out: Vec<char> = Vec::new();
                    push_decimal(&mut out, y as u64);
                    push_str(&mut out, "年");
                    push_decimal(&mut out, m as u64);
                    push_str(&mut out, "月");
                    push_decimal(&mut out, d as u64);
                    push_str(&mut out, "日");
                    return string_of(&out);
                }
            },
            _ => {},
        }
    }
    raw.to_owned()
}

// ───────────────────────── posters ─────────────────────────

/// The query pieces that do not fix a size.
pub open spec fn keep_non_size(pieces: Seq<Seq<char>>) -> Seq<Seq<char>>
    decreases pieces.len(),
{
    if pieces.len() == 0 {
        Seq::empty()
    } else {
        let prev = keep_non_size(pieces.drop_last());
        let p = pieces.last();
        if has_prefix(p, "width="@) || has_prefix(p, "height="@) {
            prev
        } else {
            prev.push(p)
        }
    }
}

/// Pieces joined with `&`.
pub open spec fn join_amp(pieces: Seq<Seq<char>>) -> Seq<char>
    decreases pieces.len(),
{
    if pieces.len() == 0 {
        Seq::empty()
    } else if pieces.len() == 1 {
        pieces[0]
    } else {
        join_amp(pieces.drop_last()) + seq!['&'] + pieces.last()
    }
}

/// The address before the first `?` and the query after it (empty without
/// one).
pub open spec fn split_query(url: Seq<char>) -> (Seq<char>, Seq<char>) {
    match crate::text::first_index_of(url, '?') {
        Some(i) => (url.take(i), url.skip(i + 1)),
        None => (url, Seq::empty()),
    }
}

/// A cover address asking the server for the portrait poster size: its
/// `width=` and `height=` parameters are replaced by `width=400` and
/// `height=560` (cropped by the server, nothing is done to the image here).
pub open spec fn spec_cover_url(url: Seq<char>) -> Seq<char> {
    let (base, query) = split_query(url);
    let kept = keep_non_size(split_by(query, sep_fn(Separators::Ampersand)));
    base + seq!['?'] + join_amp(kept.push("width=400"@).push("height=560"@))
}

fn join_amp_exec(pieces: &Vec<Vec<char>>) -> (res: Vec<char>)
    ensures
        res@ == join_amp(texts(pieces@)),
{
    let mut out: Vec<char> = Vec::new();
    let mut i: usize = 0;
    while i < pieces.len()
        invariant
            i <= pieces.len(),
            out@ == join_amp(texts(pieces@).take(i as int)),
        decreases pieces.len() - i,
    {
        let ghost t2 = texts(pieces@).take(i + 1);
        assert(t2.drop_last() =~= texts(pieces@).take(i as int));
        assert(t2.last() == pieces@[i as int]@);
        if i > 0 {
            out.push('&');
        }
        push_chars(&mut out, &pieces[i]);
        i = i + 1;
        assert(out@ =~= join_amp(t2));
    }
    assert(texts(pieces@).take(pieces.len() as int) =~= texts(pieces@));
    out
}

/// The portrait poster address of a cover (see [`spec_cover_url`]).
pub fn cover_url(url: &str) -> (res: String)
    ensures
        res@ == spec_cover_url(url@),
{
    let u = chars_of(url);
    let (base, query) = match crate::text::find_char(&u, '?') {
        Some(i) => {
            let b = crate::text::slice_chars(&u, 0, i);
            let q = crate::text::slice_chars(&u, i + 1, u.len());
            assert(b@ =~= u@.take(i as int));
            assert(q@ =~= u@.skip(i + 1));
            (b, q)
        },
        None => (u, Vec::new()),
    };
    let pieces = split_chars(&query, Separators::Ampersand);
    let mut kept: Vec<Vec<char>> = Vec::new();
    let mut i: usize = 0;
    while i < pieces.len()
        invariant
            i <= pieces.len(),
            texts(kept@) == keep_non_size(texts(pieces@).take(i as int)),
        decreases pieces.len() - i,
    {
        let ghost t2 = texts(pieces@).take(i + 1);
        assert(t2.drop_last() =~= texts(pieces@).take(i as int));
        assert(t2.last() == pieces@[i as int]@);
        let p = &pieces[i];
        if !starts_with_str(p, "width=") && !starts_with_str(p, "height=") {
            let ghost before = texts(kept@);
            kept.push(p.clone());
            assert(texts(kept@) =~= before.push(p@));
        }
        i = i + 1;
    }
    assert(texts(pieces@).take(pieces.len() as int) =~= texts(pieces@));
    let ghost k0 = texts(kept@);
    kept.push(chars_of("width=400"));
    kept.push(chars_of("height=560"));
    assert(texts(kept@) =~= k0.push("width=400"@).push("height=560"@));
    let joined = join_amp_exec(&kept);
    let mut out: Vec<char> = Vec::new();
    push_chars(&mut out, &base);
    out.push('?');
    push_chars(&mut out, &joined);
    assert(out@ =~= spec_cover_url(url@));
    string_of(&out)
}

// ───────────────────────── home page ─────────────────────────

/// The position of the first group of day `day`, if any.
pub open spec fn spec_group_by_day(groups: Seq<BangumiGroupView>, day: Seq<char>) -> Option<int> {
    if exists|i: int| 0 <= i < groups.len() && groups[i].day == day {
        Some(
            choose|i: int|
                0 <= i < groups.len() && groups[i].day == day && forall|k: int|
                    0 <= k < i ==> groups[k].day != day,
        )
    } else {
        None
    }
}

/// The group of day `day` (`monday` … `sunday`, `movie`).
pub fn group_by_day<'a>(groups: &'a Vec<BangumiGroup>, day: &str) -> (res: Option<&'a BangumiGroup>)
    ensures
        match spec_group_by_day(groups.deep_view(), day@) {
            Some(i) => res matches Some(g) && g.deep_view() == groups.deep_view()[i],
            None => res is None,
        },
{
    let target = day.to_owned();
    let mut i: usize = 0;
    while i < groups.len()
        invariant
            i <= groups.len(),
            target@ == day@,
            forall|k: int| 0 <= k < i ==> groups.deep_view()[k].day != day@,
        decreases groups.len() - i,
    {
        if groups[i].day == target {
            proof {
                let gs = groups.deep_view();
                assert(gs[i as int].day == day@);
                let c = choose|c: int|
                    0 <= c < gs.len() && gs[c].day == day@ && forall|k: int| 0 <= k < c ==> gs[k].day != day@;
                if c < i {
                } else if c > i {
                }
            }
            return Some(&groups[i]);
        }
        i = i + 1;
    }
    None
}

/// The list key of weekday `day` (0 = Monday).
pub open spec fn spec_day_key(day: int) -> Seq<char> {
    seq!["monday"@, "tuesday"@, "wednesday"@, "thursday"@, "friday"@, "saturday"@, "sunday"@][day]
}

/// The list key of weekday `day` (0 = Monday … 6 = Sunday).
pub fn day_key(day: usize) -> (res: &'static str)
    requires
        day < 7,
    ensures
        res@ == spec_day_key(day as int),
{
    if day == 0 {
        "monday"
    } else if day == 1 {
        "tuesday"
    } else if day == 2 {
        "wednesday"
    } else if day == 3 {
        "thursday"
    } else if day == 4 {
        "friday"
    } else if day == 5 {
        "saturday"
    } else {
        "sunday"
    }
}

/// The English day word and the Chinese weekday name denote the same day.
pub open spec fn same_weekday(key: Seq<char>, name: Seq<char>) -> bool {
    ||| key == "monday"@ && name == "星期一"@
    ||| key == "tuesday"@ && name == "星期二"@
    ||| key == "wednesday"@ && name == "星期三"@
    ||| key == "thursday"@ && name == "星期四"@
    ||| key == "friday"@ && name == "星期五"@
    ||| key == "saturday"@ && name == "星期六"@
    ||| key == "sunday"@ && name == "星期日"@
}

/// The list key of weekday `day` names the same day as the weekday label the
/// home page shows for it, so a weekday's section lists that weekday's
/// bangumi; and no two weekdays share a key.
pub proof fn law_day_key_is_the_labelled_weekday(day: int, other: int)
    requires
        0 <= day < 7,
        0 <= other < 7,
    ensures
        same_weekday(spec_day_key(day), spec_weekday_names()[day]),
        day != other ==> spec_day_key(day) != spec_day_key(other),
{
    reveal_strlit("monday");
    reveal_strlit("tuesday");
    reveal_strlit("wednesday");
    reveal_strlit("thursday");
    reveal_strlit("friday");
    reveal_strlit("saturday");
    reveal_strlit("sunday");
    let k1 = spec_day_key(day);
    let k2 = spec_day_key(other);
    if day != other && k1 == k2 {
        if k1.len() == k2.len() {
            assert(k1[0] == k2[0] && k1[1] == k2[1] && k1[2] == k2[2]);
        }
    }
}

/// One block of the home page.
#[derive(Debug, Clone, Copy, PartialEq, Eq, Structural)]
pub enum HomeSection {
    /// The bangumi of a weekday; a featured one carries the "today" badge.
    Day { day: usize, featured: bool },
    /// The movie shelf.
    Movies,
}

/// The blocks of the home page under a filter: today's updates put today's
/// weekday first (featured), then the other weekdays in order, then the
/// movies; a weekday shows itself; the movie filter shows the movies.
pub open spec fn spec_home_sections(filter: HomeFilter, today: usize) -> Seq<HomeSection> {
    match filter {
        HomeFilter::Today => seq![HomeSection::Day { day: today, featured: true }]
            + Seq::new(6, |i: int| HomeSection::Day {
                day: (if i < today { i } else { i + 1 }) as usize,
                featured: false,
            })
            + seq![HomeSection::Movies],
        HomeFilter::Weekday(d) => seq![HomeSection::Day { day: d, featured: false }],
        HomeFilter::Movies => seq![HomeSection::Movies],
    }
}

/// The blocks of the home page (see [`spec_home_sections`]).
pub fn home_sections(filter: HomeFilter, today: usize) -> (res: Vec<HomeSection>)
    requires
        today < 7,
        filter matches HomeFilter::Weekday(d) ==> d < 7,
    ensures
        res@ == spec_home_sections(filter, today),
{
    let mut out: Vec<HomeSection> = Vec::new();
    match filter {
        HomeFilter::Today => {
            out.push(HomeSection::Day { day: today, featured: true });
            let mut day: usize = 0;
            while day < 7
                invariant
                    day <= 7,
                    today < 7,
                    out@.len() == 1 + (if day <= today { day as int } else { day - 1 }),
                    out@[0] == (HomeSection::Day { day: today, featured: true }),
                    forall|i: int| 0 <= i < out@.len() - 1 ==> #[trigger] out@[i + 1] == (HomeSection::Day {
                        day: (if i < today { i } else { i + 1 }) as usize,
                        featured: false,
                    }),
                decreases 7 - day,
            {
                if day != today {
                    out.push(HomeSection::Day { day, featured: false });
                }
                day = day + 1;
            }
            let ghost before = out@;
            out.push(HomeSection::Movies);
            proof {
                let rest = Seq::new(6, |i: int| HomeSection::Day {
                    day: (if i < today { i } else { i + 1 }) as usize,
                    featured: false,
                });
                let want = seq![HomeSection::Day { day: today, featured: true }] + rest + seq![HomeSection::Movies];
                assert forall|k: int| 0 <= k < 8 implies out@[k] == want[k] by {
                    if 1 <= k < 7 {
                        assert(before[(k - 1) + 1] == rest[k - 1]);
                    }
                }
                assert(out@ =~= want);
            }
        },
        HomeFilter::Weekday(d) => {
            out.push(HomeSection::Day { day: d, featured: false });
            assert(out@ =~= spec_home_sections(filter, today));
        },
        HomeFilter::Movies => {
            out.push(HomeSection::Movies);
            assert(out@ =~= spec_home_sections(filter, today));
        },
    }
    out
}

/// The weekday of a block, if it is one.
pub open spec fn section_day(s: HomeSection) -> Option<usize> {
    match s {
        HomeSection::Day { day, .. } => Some(day),
        HomeSection::Movies => None,
    }
}

/// Under today's updates every weekday is shown exactly once, today first
/// (featured), and the movies close the page.
pub proof fn law_today_shows_every_day_once(today: usize, day: usize)
    requires
        today < 7,
        day < 7,
    ensures
        spec_home_sections(HomeFilter::Today, today).len() == 8,
        spec_home_sections(HomeFilter::Today, today)[0] == (HomeSection::Day { day: today, featured: true }),
        spec_home_sections(HomeFilter::Today, today)[7] == HomeSection::Movies,
        exists|i: int| 0 <= i < 7 && section_day(#[trigger] spec_home_sections(HomeFilter::Today, today)[i]) == Some(day),
        forall|i: int, j: int|
            0 <= i < j < 7 ==> section_day(#[trigger] spec_home_sections(HomeFilter::Today, today)[i]) is Some
                && section_day(spec_home_sections(HomeFilter::Today, today)[i]) != section_day(
                #[trigger] spec_home_sections(HomeFilter::Today, today)[j],
            ),
{
    let s = spec_home_sections(HomeFilter::Today, today);
    let rest = Seq::new(6, |i: int| HomeSection::Day { day: (if i < today { i } else { i + 1 }) as usize, featured: false });
    assert(s =~= seq![HomeSection::Day { day: today, featured: true }] + rest + seq![HomeSection::Movies]);
    assert forall|i: int| 1 <= i < 7 implies s[i] == rest[i - 1] by {}
    if day == today {
        assert(section_day(s[0]) == Some(day));
    } else if day < today {
        assert(s[day + 1] == rest[day as int]);
        assert(section_day(s[day + 1]) == Some(day));
    } else {
        assert(s[day as int] == rest[day - 1]);
        assert(section_day(s[day as int]) == Some(day));
    }
}

/// The format badge of a card.
#[derive(Debug, Clone, Copy, PartialEq, Eq, Structural)]
pub enum BangumiFormat {
    Tv,
    Movie,
}

impl BangumiFormat {
    /// The badge text.
    pub fn label(&self) -> (res: &'static str)
        ensures
            res@ == match *self {
                BangumiFormat::Tv => "TV"@,
                BangumiFormat::Movie => "剧场版"@,
            },
    {
        match self {
            BangumiFormat::Tv => "TV",
            BangumiFormat::Movie => "剧场版",
        }
    }
}

} // verus!
