//! Readers of the Mikan pages (the page structure is named once, in the
//! selectors below; a redesign of the site only touches those).
//!
//! Structure of mikanani.me:
//! - list page: `div.sk-bangumi[data-dayofweek]` groups (0-6 = Sunday..Saturday,
//!   7 = movies) → `ul.an-ul > li` cards, each with
//!   `span.js-expand_bangumi[data-src][data-bangumiid]` (cover and id),
//!   `a.an-text` (name) and `div.date-text` (update date);
//! - detail page `/Home/Bangumi/<id>`: `p.bangumi-info` lines (broadcast day,
//!   start, official site, Bangumi link), the summary (a class containing
//!   `intro`), and per subtitle group a `div.subgroup-text[id]` block followed by
//!   a `div.episode-table` holding `table.table-striped` rows;
//! - search page: cards `li a[href^='/Home/Bangumi/']` and rows
//!   `tr.js-search-results-row`.
//!
//! Each reader is split in two: the walk over the page (selection, attributes,
//! text) and pure functions that turn the values read into model values.

use vstd::prelude::*;

use crate::html::{html_attr, html_has_class, html_select_all, html_select_in, html_text, HtmlDocument};
use crate::model::{
    BangumiGroup, BangumiGroupView, BangumiItem, BangumiItemView, BangumiMeta, BangumiMetaView,
    Episode, EpisodeView, SearchEpisode, SearchEpisodeView, SearchResults, SearchResultsView,
    SubtitleGroup, SubtitleGroupView,
};
use crate::display::spec_day_key;
use crate::network::{base_url, site_url, spec_base_url, spec_site_url};
use crate::text::{
    chars_of, decimal, digit_char, eq_str, has_prefix, parse_u32, parse_u32_chars, push_chars, push_decimal,
    push_str, starts_with_str, string_of, trim, trim_chars, TrimSet,
};

verus! {

// ───────────────────────── days ─────────────────────────

/// Mikan's `data-dayofweek` → the day key of the app: `0` = Sunday …
/// `6` = Saturday, `7` = movies.
pub open spec fn spec_mikan_day_key(d: Seq<char>) -> Option<Seq<char>> {
    if d == "0"@ {
        Some("sunday"@)
    } else if d == "1"@ {
        Some("monday"@)
    } else if d == "2"@ {
        Some("tuesday"@)
    } else if d == "3"@ {
        Some("wednesday"@)
    } else if d == "4"@ {
        Some("thursday"@)
    } else if d == "5"@ {
        Some("friday"@)
    } else if d == "6"@ {
        Some("saturday"@)
    } else if d == "7"@ {
        Some("movie"@)
    } else {
        None
    }
}

/// Mikan's day number as the app's day key (see [`spec_mikan_day_key`]).
pub fn mikan_day_key(mikan_day: &str) -> (res: Option<&'static str>)
    ensures
        match res {
            Some(k) => spec_mikan_day_key(mikan_day@) == Some(k@),
            None => spec_mikan_day_key(mikan_day@) is None,
        },
{
    let d = chars_of(mikan_day);
    if eq_str(&d, "0") {
        Some("sunday")
    } else if eq_str(&d, "1") {
        Some("monday")
    } else if eq_str(&d, "2") {
        Some("tuesday")
    } else if eq_str(&d, "3") {
        Some("wednesday")
    } else if eq_str(&d, "4") {
        Some("thursday")
    } else if eq_str(&d, "5") {
        Some("friday")
    } else if eq_str(&d, "6") {
        Some("saturday")
    } else if eq_str(&d, "7") {
        Some("movie")
    } else {
        None
    }
}

/// Mikan numbers the weekdays from Sunday (`0`) to Saturday (`6`), while the
/// app's day keys count from Monday: Mikan's day `n` is the app's day
/// `(n + 6) % 7`, so the two readings of a weekday agree; `7` is the movies.
pub proof fn law_mikan_days_count_from_sunday(n: nat)
    requires
        n < 7,
    ensures
        spec_mikan_day_key(seq![digit_char(n)]) == Some(spec_day_key(((n + 6) % 7) as int)),
        spec_mikan_day_key("7"@) == Some("movie"@),
{
    reveal_strlit("0");
    reveal_strlit("1");
    reveal_strlit("2");
    reveal_strlit("3");
    reveal_strlit("4");
    reveal_strlit("5");
    reveal_strlit("6");
    reveal_strlit("7");
    let d = seq![digit_char(n)];
    let names = seq!["monday"@, "tuesday"@, "wednesday"@, "thursday"@, "friday"@, "saturday"@, "sunday"@];
    assert(spec_day_key(((n + 6) % 7) as int) == names[((n + 6) % 7) as int]);
    assert("7"@ != "0"@ && "7"@ != "1"@ && "7"@ != "2"@ && "7"@ != "3"@) by {
        assert("7"@[0] == '7');
    }
    assert("7"@ != "4"@ && "7"@ != "5"@ && "7"@ != "6"@) by {
        assert("7"@[0] == '7');
    }
    if n == 0 {
        assert(d =~= "0"@);
    } else if n == 1 {
        assert(d =~= "1"@);
        assert(d != "0"@) by { assert(d[0] != "0"@[0]); }
    } else if n == 2 {
        assert(d =~= "2"@);
        assert(d != "0"@ && d != "1"@) by { assert(d[0] == '2'); }
    } else if n == 3 {
        assert(d =~= "3"@);
        assert(d != "0"@ && d != "1"@ && d != "2"@) by { assert(d[0] == '3'); }
    } else if n == 4 {
        assert(d =~= "4"@);
        assert(d != "0"@ && d != "1"@ && d != "2"@ && d != "3"@) by { assert(d[0] == '4'); }
    } else if n == 5 {
        assert(d =~= "5"@);
        assert(d != "0"@ && d != "1"@ && d != "2"@ && d != "3"@ && d != "4"@) by { assert(d[0] == '5'); }
    } else {
        assert(d =~= "6"@);
        assert(d != "0"@ && d != "1"@ && d != "2"@ && d != "3"@ && d != "4"@ && d != "5"@) by {
            assert(d[0] == '6');
        }
    }
}

// ───────────────────────── shared pieces ─────────────────────────

/// The detail page of bangumi `bid`.
pub open spec fn spec_detail_url(bid: u32) -> Seq<char> {
    spec_base_url() + "/Home/Bangumi/"@ + decimal(bid as nat)
}

/// The detail page address of bangumi `bid`.
pub fn detail_url(bid: u32) -> (res: String)
    ensures
        res@ == spec_detail_url(bid),
{
    let mut out: Vec<char> = Vec::new();
    push_str(&mut out, base_url());
    push_str(&mut out, "/Home/Bangumi/");
    push_decimal(&mut out, bid as u64);
    string_of(&out)
}

/// The trimmed text, or the empty text when there is none.
pub open spec fn trimmed_or_empty(t: Option<Seq<char>>) -> Seq<char> {
    match t {
        Some(s) => trim(s),
        None => Seq::empty(),
    }
}

fn trimmed_or_empty_exec(t: &Option<String>) -> (res: Vec<char>)
    ensures
        res@ == trimmed_or_empty(t.deep_view()),
{
    match t {
        Some(s) => {
            let c = chars_of(s.as_str());
            trim_chars(TrimSet::Whitespace, &c)
        },
        None => Vec::new(),
    }
}

/// The text of the first of `nodes`, if any.
pub open spec fn first_text(src: Seq<char>, nodes: Seq<usize>) -> Option<Seq<char>> {
    if nodes.len() > 0 {
        Some(html_text(src, nodes[0]))
    } else {
        None
    }
}

/// The attribute `name` of the first of `nodes`, if there is a first one.
pub open spec fn first_attr(src: Seq<char>, nodes: Seq<usize>, name: Seq<char>) -> Option<
    Seq<char>,
> {
    if nodes.len() > 0 {
        html_attr(src, nodes[0], name)
    } else {
        None
    }
}

fn first_text_exec(doc: &HtmlDocument, nodes: &Vec<usize>) -> (res: Option<String>)
    ensures
        res.deep_view() == first_text(doc@, nodes@),
{
    if nodes.len() > 0 {
        Some(doc.text(nodes[0]))
    } else {
        None
    }
}

fn first_attr_exec(doc: &HtmlDocument, nodes: &Vec<usize>, name: &str) -> (res: Option<String>)
    ensures
        res.deep_view() == first_attr(doc@, nodes@, name@),
{
    if nodes.len() > 0 {
        doc.attr(nodes[0], name)
    } else {
        None
    }
}

fn string_of_opt(v: Vec<char>) -> (res: Option<String>)
    ensures
        res.deep_view() == (if v@.len() == 0 {
            None
        } else {
            Some(v@)
        }),
{
    if v.len() == 0 {
        None
    } else {
        Some(string_of(&v))
    }
}

fn map_site_url(v: &Option<String>) -> (res: Option<String>)
    ensures
        res.deep_view() == match v.deep_view() {
            Some(s) => Some(spec_site_url(s)),
            None => None,
        },
{
    match v {
        Some(s) => Some(site_url(s.as_str())),
        None => None,
    }
}

// ───────────────────────── list page ─────────────────────────

/// A card of the list page from what it holds: the id attribute, the cover
/// attribute, the name text and the date text. No card without a numeric id
/// or a non-empty name; the cover becomes a full site address; an empty date
/// is no date.
pub open spec fn spec_list_item(
    bid: Option<Seq<char>>,
    cover: Option<Seq<char>>,
    name: Option<Seq<char>>,
    date: Option<Seq<char>>,
) -> Option<BangumiItemView> {
    match bid {
        Some(b) => match parse_u32(b) {
            Some(id) => {
                let nm = trimmed_or_empty(name);
                let d = trimmed_or_empty(date);
                if nm.len() == 0 {
                    None
                } else {
                    Some(
                        BangumiItemView {
                            name: nm,
                            bangumi_id: Some(id),
                            cover_url: match cover {
                                Some(c) => Some(spec_site_url(c)),
                                None => None,
                            },
                            detail_url: Some(spec_detail_url(id)),
                            meta: None,
                            subtitle_groups: Seq::empty(),
                            update_date: if d.len() == 0 {
                                None
                            } else {
                                Some(d)
                            },
                        },
                    )
                }
            },
            None => None,
        },
        None => None,
    }
}

/// A list card from the values read off it (see [`spec_list_item`]).
pub fn list_item_from_parts(
    bid_attr: Option<String>,
    cover_attr: Option<String>,
    name_text: Option<String>,
    date_text: Option<String>,
) -> (res: Option<BangumiItem>)
    ensures
        res.deep_view() == spec_list_item(
            bid_attr.deep_view(),
            cover_attr.deep_view(),
            name_text.deep_view(),
            date_text.deep_view(),
        ),
{
    let bid_str = match &bid_attr {
        Some(b) => b,
        None => return None,
    };
    let bc = chars_of(bid_str.as_str());
    let bid = match parse_u32_chars(&bc) {
        Some(v) => v,
        None => return None,
    };
    let cover_url = map_site_url(&cover_attr);
    let name = trimmed_or_empty_exec(&name_text);
    if name.len() == 0 {
        return None;
    }
    let date = trimmed_or_empty_exec(&date_text);
    let item = BangumiItem {
        name: string_of(&name),
        bangumi_id: Some(bid),
        cover_url,
        detail_url: Some(detail_url(bid)),
        meta: None,
        subtitle_groups: Vec::new(),
        update_date: string_of_opt(date),
    };
    assert(item.subtitle_groups.deep_view() =~= Seq::<SubtitleGroupView>::empty());
    Some(item)
}

/// A weekday group from its day attribute, its heading text and its cards:
/// none for an unknown day or no cards.
pub open spec fn spec_list_group(
    day: Option<Seq<char>>,
    title: Option<Seq<char>>,
    items: Seq<BangumiItemView>,
) -> Option<BangumiGroupView> {
    match day {
        Some(d) => match spec_mikan_day_key(d) {
            Some(k) => if items.len() == 0 {
                None
            } else {
                Some(BangumiGroupView { day: k, title: trimmed_or_empty(title), items })
            },
            None => None,
        },
        None => None,
    }
}

/// A card group of the list page whose `data-dayofweek` is Mikan's day `n`
/// (counted from Sunday) is filed under the app's weekday `(n + 6) % 7`
/// (counted from Monday), with its cards as read; day `7` is the movies.
pub proof fn law_list_group_day_follows_mikan_numbering(
    n: nat,
    title: Option<Seq<char>>,
    items: Seq<BangumiItemView>,
)
    requires
        n < 7,
        items.len() > 0,
    ensures
        spec_list_group(Some(seq![digit_char(n)]), title, items) matches Some(g) && g.day
            == spec_day_key(((n + 6) % 7) as int) && g.items == items,
        spec_list_group(Some("7"@), title, items) matches Some(g) && g.day == "movie"@ && g.items
            == items,
{
    law_mikan_days_count_from_sunday(n);
}

/// A weekday group from the values read off it (see [`spec_list_group`]).
pub fn list_group_from_parts(
    day_attr: Option<String>,
    title_text: Option<String>,
    items: Vec<BangumiItem>,
) -> (res: Option<BangumiGroup>)
    ensures
        res.deep_view() == spec_list_group(
            day_attr.deep_view(),
            title_text.deep_view(),
            items.deep_view(),
        ),
{
    let day = match &day_attr {
        Some(d) => d,
        None => return None,
    };
    let key = match mikan_day_key(day.as_str()) {
        Some(k) => k,
        None => return None,
    };
    if items.len() == 0 {
        return None;
    }
    let title = trimmed_or_empty_exec(&title_text);
    Some(BangumiGroup { day: key.to_owned(), title: string_of(&title), items })
}

/// The card at `card` of the list page.
pub open spec fn spec_card_item(src: Seq<char>, card: usize) -> Option<BangumiItemView> {
    let imgs = html_select_in(src, card, "span.js-expand_bangumi"@);
    spec_list_item(
        first_attr(src, imgs, "data-bangumiid"@),
        first_attr(src, imgs, "data-src"@),
        first_text(src, html_select_in(src, card, "a.an-text"@)),
        first_text(src, html_select_in(src, card, "div.date-text"@)),
    )
}

/// The cards at `cards` that make items, in order.
pub open spec fn spec_card_items(src: Seq<char>, cards: Seq<usize>) -> Seq<BangumiItemView>
    decreases cards.len(),
{
    if cards.len() == 0 {
        Seq::empty()
    } else {
        let prev = spec_card_items(src, cards.drop_last());
        match spec_card_item(src, cards.last()) {
            Some(i) => prev.push(i),
            None => prev,
        }
    }
}

/// The group at `g` of the list page.
pub open spec fn spec_group_at(src: Seq<char>, g: usize) -> Option<BangumiGroupView> {
    spec_list_group(
        html_attr(src, g, "data-dayofweek"@),
        first_text(src, html_select_in(src, g, "div.row"@)),
        spec_card_items(src, html_select_in(src, g, "ul.an-ul > li"@)),
    )
}

/// The groups at `gs` that make groups, in order.
pub open spec fn spec_groups(src: Seq<char>, gs: Seq<usize>) -> Seq<BangumiGroupView>
    decreases gs.len(),
{
    if gs.len() == 0 {
        Seq::empty()
    } else {
        let prev = spec_groups(src, gs.drop_last());
        match spec_group_at(src, gs.last()) {
            Some(g) => prev.push(g),
            None => prev,
        }
    }
}

/// What the list page shows: the weekday groups with their cards.
pub open spec fn spec_parse_bangumi_list(html: Seq<char>) -> Seq<BangumiGroupView> {
    spec_groups(html, html_select_all(html, "div.sk-bangumi"@))
}

fn card_item(doc: &HtmlDocument, card: usize) -> (res: Option<BangumiItem>)
    ensures
        res.deep_view() == spec_card_item(doc@, card),
{
    let imgs = doc.select_in(card, "span.js-expand_bangumi");
    let bid = first_attr_exec(doc, &imgs, "data-bangumiid");
    let cover = first_attr_exec(doc, &imgs, "data-src");
    let names = doc.select_in(card, "a.an-text");
    let name = first_text_exec(doc, &names);
    let dates = doc.select_in(card, "div.date-text");
    let date = first_text_exec(doc, &dates);
    list_item_from_parts(bid, cover, name, date)
}

fn card_items(doc: &HtmlDocument, cards: &Vec<usize>) -> (res: Vec<BangumiItem>)
    ensures
        res.deep_view() == spec_card_items(doc@, cards@),
{
    let mut items: Vec<BangumiItem> = Vec::new();
    let mut i: usize = 0;
    while i < cards.len()
        invariant
            i <= cards.len(),
            items.deep_view() == spec_card_items(doc@, cards@.take(i as int)),
        decreases cards.len() - i,
    {
        let ghost before = items.deep_view();
        assert(cards@.take(i + 1).drop_last() =~= cards@.take(i as int));
        match card_item(doc, cards[i]) {
            Some(item) => {
                items.push(item);
                assert(items.deep_view() =~= before.push(items@.last().deep_view()));
            },
            None => {},
        }
        i = i + 1;
    }
    assert(cards@.take(cards.len() as int) =~= cards@);
    items
}

fn group_at(doc: &HtmlDocument, g: usize) -> (res: Option<BangumiGroup>)
    ensures
        res.deep_view() == spec_group_at(doc@, g),
{
    let day = doc.attr(g, "data-dayofweek");
    let titles = doc.select_in(g, "div.row");
    let title = first_text_exec(doc, &titles);
    let cards = doc.select_in(g, "ul.an-ul > li");
    let items = card_items(doc, &cards);
    list_group_from_parts(day, title, items)
}

/// Reads the list page: the weekday groups with their cards (see
/// [`spec_parse_bangumi_list`]).
pub fn parse_bangumi_list(html: &str) -> (res: Vec<BangumiGroup>)
    ensures
        res.deep_view() == spec_parse_bangumi_list(html@),
{
    let doc = HtmlDocument::parse(html);
    let gs = doc.select_all("div.sk-bangumi");
    let mut groups: Vec<BangumiGroup> = Vec::new();
    let mut i: usize = 0;
    while i < gs.len()
        invariant
            i <= gs.len(),
            doc@ == html@,
            gs@ == html_select_all(html@, "div.sk-bangumi"@),
            groups.deep_view() == spec_groups(doc@, gs@.take(i as int)),
        decreases gs.len() - i,
    {
        let ghost before = groups.deep_view();
        assert(gs@.take(i + 1).drop_last() =~= gs@.take(i as int));
        match group_at(&doc, gs[i]) {
            Some(g) => {
                groups.push(g);
                assert(groups.deep_view() =~= before.push(groups@.last().deep_view()));
            },
            None => {},
        }
        i = i + 1;
    }
    assert(gs@.take(gs.len() as int) =~= gs@);
    groups
}

// ───────────────────────── text rules of the pages ─────────────────────────

/// `s` with every leading occurrence of `p` removed (`str::trim_start_matches`).
pub open spec fn strip_all_prefix(s: Seq<char>, p: Seq<char>) -> Seq<char>
    decreases s.len(),
{
    if p.len() > 0 && has_prefix(s, p) {
        strip_all_prefix(s.skip(p.len() as int), p)
    } else {
        s
    }
}

fn strip_all_prefix_exec(s: &Vec<char>, p: &str) -> (res: Vec<char>)
    ensures
        res@ == strip_all_prefix(s@, p@),
{
    let pv = chars_of(p);
    if pv.len() == 0 {
        return s.clone();
    }
    let mut i: usize = 0;
    let mut rest = s.clone();
    while starts_with_str(&rest, p)
        invariant
            pv@ == p@,
            pv@.len() > 0,
            i <= s@.len(),
            rest@ == s@.skip(i as int),
            strip_all_prefix(s@, p@) == strip_all_prefix(rest@, p@),
        decreases s@.len() - i,
    {
        assert(pv@.len() <= rest@.len());
        assert(rest@.skip(pv@.len() as int) =~= s@.skip(i + pv@.len()));
        let n = s.len();
        assert(i + pv.len() <= n);
        i = i + pv.len();
        rest = crate::text::slice_chars(s, i, s.len());
        assert(rest@ =~= s@.skip(i as int));
    }
    rest
}

/// `s` with every occurrence of `from` replaced by `to`, left to right
/// (`str::replace`).
pub open spec fn replace_all(s: Seq<char>, from: Seq<char>, to: Seq<char>) -> Seq<char>
    decreases s.len(),
{
    if s.len() == 0 {
        Seq::empty()
    } else if from.len() > 0 && has_prefix(s, from) {
        to + replace_all(s.skip(from.len() as int), from, to)
    } else {
        seq![s[0]] + replace_all(s.drop_first(), from, to)
    }
}

fn replace_all_exec(s: &Vec<char>, from: &str, to: &str) -> (res: Vec<char>)
    ensures
        res@ == replace_all(s@, from@, to@),
{
    let fv = chars_of(from);
    let mut out: Vec<char> = Vec::new();
    let mut i: usize = 0;
    assert(s@.skip(0) =~= s@);
    assert(out@ + replace_all(s@, from@, to@) =~= replace_all(s@, from@, to@));
    while i < s.len()
        invariant
            fv@ == from@,
            i <= s@.len(),
            replace_all(s@, from@, to@) == out@ + replace_all(s@.skip(i as int), from@, to@),
        decreases s@.len() - i,
    {
        let rest = crate::text::slice_chars(s, i, s.len());
        assert(rest@ =~= s@.skip(i as int));
        if fv.len() > 0 && starts_with_str(&rest, from) {
            push_str(&mut out, to);
            assert(rest@.skip(fv@.len() as int) =~= s@.skip(i + fv@.len()));
            i = i + fv.len();
        } else {
            out.push(s[i]);
            assert(rest@.drop_first() =~= s@.skip(i + 1));
            i = i + 1;
        }
    }
    assert(s@.skip(i as int) =~= Seq::<char>::empty());
    assert(out@ + Seq::<char>::empty() =~= out@);
    out
}

// ───────────────────────── detail page ─────────────────────────

/// The target of the first link of a line, when the line has a link (an
/// empty target when the link has no `href`).
pub open spec fn link_target(src: Seq<char>, p: usize) -> Option<Seq<char>> {
    let links = html_select_in(src, p, "a"@);
    if links.len() > 0 {
        match html_attr(src, links[0], "href"@) {
            Some(h) => Some(h),
            None => Some(Seq::empty()),
        }
    } else {
        None
    }
}

/// One `p.bangumi-info` line read into the metadata: the broadcast day and
/// start come from the text after their label, the official site and the
/// Bangumi link from the line's first link; other lines change nothing.
pub open spec fn spec_meta_line(m: BangumiMetaView, raw: Seq<char>, link: Option<Seq<char>>) -> BangumiMetaView {
    let text = trim(raw);
    if has_prefix(text, "放送日期"@) {
        BangumiMetaView { broadcast_day: Some(trim(strip_all_prefix(text, "放送日期："@))), ..m }
    } else if has_prefix(text, "放送开始"@) {
        BangumiMetaView { broadcast_start: Some(trim(strip_all_prefix(text, "放送开始："@))), ..m }
    } else if has_prefix(text, "官方网站"@) {
        BangumiMetaView { official_site: link, ..m }
    } else if has_prefix(text, "Bangumi番组计划"@) {
        BangumiMetaView { bangumi_link: link, ..m }
    } else {
        m
    }
}

/// Reads one metadata line into `meta` (see [`spec_meta_line`]).
pub fn apply_meta_line(meta: &mut BangumiMeta, line_text: &str, link: Option<String>)
    ensures
        final(meta).deep_view() == spec_meta_line(old(meta).deep_view(), line_text@, link.deep_view()),
{
    let raw = chars_of(line_text);
    let text = trim_chars(TrimSet::Whitespace, &raw);
    if starts_with_str(&text, "放送日期") {
        let v = strip_all_prefix_exec(&text, "放送日期：");
        let v = trim_chars(TrimSet::Whitespace, &v);
        meta.broadcast_day = Some(string_of(&v));
    } else if starts_with_str(&text, "放送开始") {
        let v = strip_all_prefix_exec(&text, "放送开始：");
        let v = trim_chars(TrimSet::Whitespace, &v);
        meta.broadcast_start = Some(string_of(&v));
    } else if starts_with_str(&text, "官方网站") {
        meta.official_site = link;
    } else if starts_with_str(&text, "Bangumi番组计划") {
        meta.bangumi_link = link;
    }
}

/// The metadata after reading the lines `ps` in order.
pub open spec fn spec_meta_lines(src: Seq<char>, m: BangumiMetaView, ps: Seq<usize>) -> BangumiMetaView
    decreases ps.len(),
{
    if ps.len() == 0 {
        m
    } else {
        let prev = spec_meta_lines(src, m, ps.drop_last());
        spec_meta_line(prev, html_text(src, ps.last()), link_target(src, ps.last()))
    }
}

/// The summary from the text of the first intro element: trimmed, without a
/// leading `概况介绍` heading; none when nothing is left.
pub open spec fn spec_summary(t: Option<Seq<char>>) -> Option<Seq<char>> {
    match t {
        Some(raw) => {
            let s = trim(raw);
            let r = if has_prefix(s, "概况介绍"@) {
                trim(s.skip("概况介绍"@.len() as int))
            } else {
                s
            };
            if r.len() == 0 {
                None
            } else {
                Some(r)
            }
        },
        None => None,
    }
}

/// The summary from the intro text (see [`spec_summary`]).
pub fn summary_from_text(t: Option<String>) -> (res: Option<String>)
    ensures
        res.deep_view() == spec_summary(t.deep_view()),
{
    match t {
        Some(raw) => {
            let rc = chars_of(raw.as_str());
            let s = trim_chars(TrimSet::Whitespace, &rc);
            let heading = chars_of("概况介绍");
            let r = if starts_with_str(&s, "概况介绍") {
                let rest = crate::text::slice_chars(&s, heading.len(), s.len());
                assert(rest@ =~= s@.skip(heading@.len() as int));
                trim_chars(TrimSet::Whitespace, &rest)
            } else {
                s
            };
            string_of_opt(r)
        },
        None => None,
    }
}

/// An episode row from its magnet attribute, title text and the texts of its
/// third and fourth cells: none without a title.
pub open spec fn spec_episode(
    magnet: Option<Seq<char>>,
    title: Option<Seq<char>>,
    size: Option<Seq<char>>,
    date: Option<Seq<char>>,
) -> Option<EpisodeView> {
    let t = trimmed_or_empty(title);
    if t.len() == 0 {
        None
    } else {
        Some(
            EpisodeView {
                title: t,
                magnet_link: magnet,
                size: match size {
                    Some(x) => Some(trim(x)),
                    None => None,
                },
                publish_date: match date {
                    Some(x) => Some(trim(x)),
                    None => None,
                },
            },
        )
    }
}

fn map_trim(v: &Option<String>) -> (res: Option<String>)
    ensures
        res.deep_view() == match v.deep_view() {
            Some(x) => Some(trim(x)),
            None => None,
        },
{
    match v {
        Some(x) => Some(crate::text::trim_str(x.as_str())),
        None => None,
    }
}

/// An episode from the values read off its row (see [`spec_episode`]).
pub fn episode_from_parts(
    magnet: Option<String>,
    title_text: Option<String>,
    size_text: Option<String>,
    date_text: Option<String>,
) -> (res: Option<Episode>)
    ensures
        res.deep_view() == spec_episode(
            magnet.deep_view(),
            title_text.deep_view(),
            size_text.deep_view(),
            date_text.deep_view(),
        ),
{
    let title = trimmed_or_empty_exec(&title_text);
    if title.len() == 0 {
        return None;
    }
    Some(
        Episode {
            title: string_of(&title),
            magnet_link: magnet,
            size: map_trim(&size_text),
            publish_date: map_trim(&date_text),
        },
    )
}

/// The text of the `n`-th of `nodes`, if there is one.
pub open spec fn nth_text(src: Seq<char>, nodes: Seq<usize>, n: int) -> Option<Seq<char>> {
    if 0 <= n < nodes.len() {
        Some(html_text(src, nodes[n]))
    } else {
        None
    }
}

fn nth_text_exec(doc: &HtmlDocument, nodes: &Vec<usize>, n: usize) -> (res: Option<String>)
    ensures
        res.deep_view() == nth_text(doc@, nodes@, n as int),
{
    if n < nodes.len() {
        Some(doc.text(nodes[n]))
    } else {
        None
    }
}

/// The episode of the row at `row`.
pub open spec fn spec_row_episode(src: Seq<char>, row: usize) -> Option<EpisodeView> {
    let tds = html_select_in(src, row, "td"@);
    spec_episode(
        first_attr(src, html_select_in(src, row, "input.js-episode-select"@), "data-magnet"@),
        first_text(src, html_select_in(src, row, "a.magnet-link-wrap"@)),
        nth_text(src, tds, 2),
        nth_text(src, tds, 3),
    )
}

/// The episodes of the rows at `rows`, in order.
pub open spec fn spec_row_episodes(src: Seq<char>, rows: Seq<usize>) -> Seq<EpisodeView>
    decreases rows.len(),
{
    if rows.len() == 0 {
        Seq::empty()
    } else {
        let prev = spec_row_episodes(src, rows.drop_last());
        match spec_row_episode(src, rows.last()) {
            Some(e) => prev.push(e),
            None => prev,
        }
    }
}

/// The episodes of the first episode table inside the element at `el`.
pub open spec fn spec_table_episodes(src: Seq<char>, el: usize) -> Seq<EpisodeView> {
    let tables = html_select_in(src, el, "table.table-striped"@);
    if tables.len() > 0 {
        spec_row_episodes(src, html_select_in(src, tables[0], "tbody tr"@))
    } else {
        Seq::empty()
    }
}

/// A row of an episode table gives an episode exactly when the text of its
/// first `a.magnet-link-wrap` link is not blank; the episode's title is that
/// text trimmed and its magnet the `data-magnet` of the row's first
/// `input.js-episode-select`.
pub proof fn law_row_episode_is_its_link_text(src: Seq<char>, row: usize)
    ensures
        ({
            let links = html_select_in(src, row, "a.magnet-link-wrap"@);
            let inputs = html_select_in(src, row, "input.js-episode-select"@);
            &&& spec_row_episode(src, row) is Some <==> (links.len() > 0 && trim(
                html_text(src, links[0]),
            ).len() > 0)
            &&& spec_row_episode(src, row) matches Some(e) ==> e.title == trim(
                html_text(src, links[0]),
            ) && e.magnet_link == (if inputs.len() > 0 {
                html_attr(src, inputs[0], "data-magnet"@)
            } else {
                None
            })
        }),
{
}

/// Whether the row at `r` yields an episode (it has a title).
pub open spec fn yields_episode(src: Seq<char>) -> spec_fn(usize) -> bool {
    |r: usize| spec_row_episode(src, r) is Some
}

proof fn lemma_row_episodes_cover_titled_rows(src: Seq<char>, rows: Seq<usize>)
    ensures
        spec_row_episodes(src, rows).len() == rows.filter(yields_episode(src)).len(),
        forall|k: int|
            0 <= k < rows.filter(yields_episode(src)).len() ==> Some(
                #[trigger] spec_row_episodes(src, rows)[k],
            ) == spec_row_episode(src, rows.filter(yields_episode(src))[k]),
    decreases rows.len(),
{
    reveal(Seq::filter);
    if rows.len() > 0 {
        lemma_row_episodes_cover_titled_rows(src, rows.drop_last());
    }
}

/// Every row of a group's episode table that has a title gives one episode,
/// in row order, and no other episode is listed: the `k`-th episode is the
/// one of the `k`-th titled row of the table's body.
pub proof fn law_table_lists_every_titled_row(src: Seq<char>, el: usize)
    requires
        html_select_in(src, el, "table.table-striped"@).len() > 0,
    ensures
        ({
            let rows = html_select_in(
                src,
                html_select_in(src, el, "table.table-striped"@)[0],
                "tbody tr"@,
            );
            let titled = rows.filter(yields_episode(src));
            &&& spec_table_episodes(src, el).len() == titled.len()
            &&& forall|k: int|
                0 <= k < titled.len() ==> Some(#[trigger] spec_table_episodes(src, el)[k])
                    == spec_row_episode(src, titled[k])
        }),
{
    let rows = html_select_in(src, html_select_in(src, el, "table.table-striped"@)[0], "tbody tr"@);
    lemma_row_episodes_cover_titled_rows(src, rows);
}

/// A subtitle group block from its `id` attribute, name text and RSS link:
/// none unless the id is a number.
pub open spec fn spec_subtitle_group(
    id: Option<Seq<char>>,
    name: Option<Seq<char>>,
    rss: Option<Seq<char>>,
) -> Option<SubtitleGroupView> {
    match id {
        Some(i) => match parse_u32(i) {
            Some(sid) => Some(
                SubtitleGroupView {
                    name: trimmed_or_empty(name),
                    subgroup_id: Some(sid),
                    subscription_url: match rss {
                        Some(r) => Some(spec_site_url(r)),
                        None => None,
                    },
                    episodes: Seq::empty(),
                },
            ),
            None => None,
        },
        None => None,
    }
}

/// A subtitle group from the values read off its block (see
/// [`spec_subtitle_group`]).
pub fn subtitle_group_from_parts(
    id_attr: Option<String>,
    name_text: Option<String>,
    rss_href: Option<String>,
) -> (res: Option<SubtitleGroup>)
    ensures
        res.deep_view() == spec_subtitle_group(
            id_attr.deep_view(),
            name_text.deep_view(),
            rss_href.deep_view(),
        ),
{
    let id = match &id_attr {
        Some(i) => i,
        None => return None,
    };
    let ic = chars_of(id.as_str());
    let sid = match parse_u32_chars(&ic) {
        Some(v) => v,
        None => return None,
    };
    let name = trimmed_or_empty_exec(&name_text);
    let g = SubtitleGroup {
        name: string_of(&name),
        subgroup_id: Some(sid),
        subscription_url: map_site_url(&rss_href),
        episodes: Vec::new(),
    };
    assert(g.episodes.deep_view() =~= Seq::<EpisodeView>::empty());
    Some(g)
}

/// Gives the last group so far the episodes of a table; before any group
/// the table belongs to none.
pub open spec fn attach_episodes(gs: Seq<SubtitleGroupView>, eps: Seq<EpisodeView>) -> Seq<SubtitleGroupView> {
    if gs.len() > 0 {
        gs.update(gs.len() - 1, SubtitleGroupView { episodes: eps, ..gs.last() })
    } else {
        gs
    }
}

/// The groups after reading the block or table at `el`, with whether the
/// last block read was kept: a subtitle-group block starts a group (a block
/// without a numeric id is skipped, and so are the tables after it); an
/// episode table fills the group of the block just before it.
pub open spec fn spec_pair_step(
    src: Seq<char>,
    st: (Seq<SubtitleGroupView>, bool),
    el: usize,
) -> (Seq<SubtitleGroupView>, bool) {
    if html_has_class(src, el, "subgroup-text"@) {
        match spec_subtitle_group(
            html_attr(src, el, "id"@),
            first_text(src, html_select_in(src, el, "a[href^='/Home/PublishGroup/']"@)),
            first_attr(src, html_select_in(src, el, "a.mikan-rss"@), "href"@),
        ) {
            Some(g) => (st.0.push(g), true),
            None => (st.0, false),
        }
    } else if st.1 {
        (attach_episodes(st.0, spec_table_episodes(src, el)), true)
    } else {
        st
    }
}

/// The groups after reading the elements `els` in the given order, with
/// whether the last block read was kept.
pub open spec fn spec_pairs(src: Seq<char>, els: Seq<usize>) -> (Seq<SubtitleGroupView>, bool)
    decreases els.len(),
{
    if els.len() == 0 {
        (Seq::empty(), false)
    } else {
        spec_pair_step(src, spec_pairs(src, els.drop_last()), els.last())
    }
}

/// The metadata of a detail page.
pub open spec fn spec_detail_meta(html: Seq<char>) -> BangumiMetaView {
    let m = spec_meta_lines(
        html,
        BangumiMetaView {
            broadcast_day: None,
            broadcast_start: None,
            official_site: None,
            bangumi_link: None,
            cover_url: None,
            summary: None,
        },
        html_select_all(html, "p.bangumi-info"@),
    );
    BangumiMetaView {
        summary: spec_summary(first_text(html, html_select_all(html, "[class*='intro']"@))),
        ..m
    }
}

/// The subtitle groups of a detail page. Blocks and tables are read together,
/// in the order in which the page's selection yields them, and a table
/// belongs to the nearest block before it, so unrelated tables or numbered
/// `div`s elsewhere on the page neither shift the pairing nor make phantom
/// groups.
pub open spec fn spec_detail_groups(html: Seq<char>) -> Seq<SubtitleGroupView> {
    spec_pairs(html, html_select_all(html, "div.subgroup-text[id], div.episode-table"@)).0
}

fn row_episode(doc: &HtmlDocument, row: usize) -> (res: Option<Episode>)
    ensures
        res.deep_view() == spec_row_episode(doc@, row),
{
    let tds = doc.select_in(row, "td");
    let inputs = doc.select_in(row, "input.js-episode-select");
    let magnet = first_attr_exec(doc, &inputs, "data-magnet");
    let titles = doc.select_in(row, "a.magnet-link-wrap");
    let title = first_text_exec(doc, &titles);
    let size = nth_text_exec(doc, &tds, 2);
    let date = nth_text_exec(doc, &tds, 3);
    episode_from_parts(magnet, title, size, date)
}

fn table_episodes(doc: &HtmlDocument, el: usize) -> (res: Vec<Episode>)
    ensures
        res.deep_view() == spec_table_episodes(doc@, el),
{
    let tables = doc.select_in(el, "table.table-striped");
    let mut episodes: Vec<Episode> = Vec::new();
    if tables.len() == 0 {
        assert(episodes.deep_view() =~= Seq::<EpisodeView>::empty());
        return episodes;
    }
    let rows = doc.select_in(tables[0], "tbody tr");
    let mut i: usize = 0;
    while i < rows.len()
        invariant
            i <= rows.len(),
            episodes.deep_view() == spec_row_episodes(doc@, rows@.take(i as int)),
        decreases rows.len() - i,
    {
        let ghost before = episodes.deep_view();
        assert(rows@.take(i + 1).drop_last() =~= rows@.take(i as int));
        match row_episode(doc, rows[i]) {
            Some(e) => {
                episodes.push(e);
                assert(episodes.deep_view() =~= before.push(episodes@.last().deep_view()));
            },
            None => {},
        }
        i = i + 1;
    }
    assert(rows@.take(rows.len() as int) =~= rows@);
    episodes
}

fn pair_step(doc: &HtmlDocument, groups: &mut Vec<SubtitleGroup>, open: &mut bool, el: usize)
    ensures
        (final(groups).deep_view(), *final(open)) == spec_pair_step(
            doc@,
            (old(groups).deep_view(), *old(open)),
            el,
        ),
{
    if doc.has_class(el, "subgroup-text") {
        let id = doc.attr(el, "id");
        let names = doc.select_in(el, "a[href^='/Home/PublishGroup/']");
        let name = first_text_exec(doc, &names);
        let rss_links = doc.select_in(el, "a.mikan-rss");
        let rss = first_attr_exec(doc, &rss_links, "href");
        match subtitle_group_from_parts(id, name, rss) {
            Some(g) => {
                let ghost before = groups.deep_view();
                groups.push(g);
                assert(groups.deep_view() =~= before.push(groups@.last().deep_view()));
                *open = true;
            },
            None => {
                *open = false;
            },
        }
    } else if *open {
        let episodes = table_episodes(doc, el);
        if groups.len() > 0 {
            let ghost before = groups.deep_view();
            let mut last = groups.pop().unwrap();
            last.episodes = episodes;
            groups.push(last);
            assert(groups.deep_view() =~= attach_episodes(before, spec_table_episodes(doc@, el)));
        }
    }
}

/// Reads a detail page: its metadata and its subtitle groups with their
/// episodes (see [`spec_detail_meta`] and [`spec_detail_groups`]).
pub fn parse_bangumi_detail(html: &str) -> (res: (BangumiMeta, Vec<SubtitleGroup>))
    ensures
        res.0.deep_view() == spec_detail_meta(html@),
        res.1.deep_view() == spec_detail_groups(html@),
{
    let doc = HtmlDocument::parse(html);
    let mut meta = BangumiMeta::default();
    let ghost empty_meta = meta.deep_view();
    let ps = doc.select_all("p.bangumi-info");
    let mut i: usize = 0;
    while i < ps.len()
        invariant
            i <= ps.len(),
            meta.deep_view() == spec_meta_lines(doc@, empty_meta, ps@.take(i as int)),
        decreases ps.len() - i,
    {
        assert(ps@.take(i + 1).drop_last() =~= ps@.take(i as int));
        let p = ps[i];
        let text = doc.text(p);
        let links = doc.select_in(p, "a");
        let link = if links.len() > 0 {
            match doc.attr(links[0], "href") {
                Some(h) => Some(h),
                None => Some(String::new()),
            }
        } else {
            None
        };
        apply_meta_line(&mut meta, text.as_str(), link);
        i = i + 1;
    }
    assert(ps@.take(ps.len() as int) =~= ps@);
    let intros = doc.select_all("[class*='intro']");
    let intro = first_text_exec(&doc, &intros);
    meta.summary = summary_from_text(intro);

    let els = doc.select_all("div.subgroup-text[id], div.episode-table");
    let mut groups: Vec<SubtitleGroup> = Vec::new();
    let mut open = false;
    let mut j: usize = 0;
    assert(groups.deep_view() =~= Seq::<SubtitleGroupView>::empty());
    while j < els.len()
        invariant
            j <= els.len(),
            (groups.deep_view(), open) == spec_pairs(doc@, els@.take(j as int)),
        decreases els.len() - j,
    {
        assert(els@.take(j + 1).drop_last() =~= els@.take(j as int));
        pair_step(&doc, &mut groups, &mut open, els[j]);
        j = j + 1;
    }
    assert(els@.take(els.len() as int) =~= els@);
    (meta, groups)
}

// ───────────────────────── search page ─────────────────────────

/// A search-page card from its link target, cover attribute and name text:
/// the link must be `/Home/Bangumi/<number>` and the name non-empty; the
/// square 400×400 cover is asked for in the 400×560 portrait size of the rest
/// of the app.
pub open spec fn spec_search_item(
    href: Option<Seq<char>>,
    cover: Option<Seq<char>>,
    name: Option<Seq<char>>,
) -> Option<BangumiItemView> {
    let h = match href {
        Some(x) => x,
        None => Seq::empty(),
    };
    if !has_prefix(h, "/Home/Bangumi/"@) {
        None
    } else {
        match parse_u32(h.skip("/Home/Bangumi/"@.len() as int)) {
            Some(bid) => {
                let nm = trimmed_or_empty(name);
                if nm.len() == 0 {
                    None
                } else {
                    Some(
                        BangumiItemView {
                            name: nm,
                            bangumi_id: Some(bid),
                            cover_url: match cover {
                                Some(c) => Some(
                                    spec_site_url(
                                        replace_all(c, "width=400&height=400"@, "width=400&height=560"@),
                                    ),
                                ),
                                None => None,
                            },
                            detail_url: Some(spec_detail_url(bid)),
                            meta: None,
                            subtitle_groups: Seq::empty(),
                            update_date: None,
                        },
                    )
                }
            },
            None => None,
        }
    }
}

/// A search card from the values read off it (see [`spec_search_item`]).
pub fn search_item_from_parts(
    href: Option<String>,
    cover_attr: Option<String>,
    name_text: Option<String>,
) -> (res: Option<BangumiItem>)
    ensures
        res.deep_view() == spec_search_item(
            href.deep_view(),
            cover_attr.deep_view(),
            name_text.deep_view(),
        ),
{
    let h = match &href {
        Some(x) => chars_of(x.as_str()),
        None => Vec::new(),
    };
    if !starts_with_str(&h, "/Home/Bangumi/") {
        return None;
    }
    let prefix = chars_of("/Home/Bangumi/");
    let rest = crate::text::slice_chars(&h, prefix.len(), h.len());
    assert(rest@ =~= h@.skip("/Home/Bangumi/"@.len() as int));
    let bid = match parse_u32_chars(&rest) {
        Some(v) => v,
        None => return None,
    };
    let cover_url = match &cover_attr {
        Some(c) => {
            let cc = chars_of(c.as_str());
            let r = replace_all_exec(&cc, "width=400&height=400", "width=400&height=560");
            let rs = string_of(&r);
            Some(site_url(rs.as_str()))
        },
        None => None,
    };
    let name = trimmed_or_empty_exec(&name_text);
    if name.len() == 0 {
        return None;
    }
    let item = BangumiItem {
        name: string_of(&name),
        bangumi_id: Some(bid),
        cover_url,
        detail_url: Some(detail_url(bid)),
        meta: None,
        subtitle_groups: Vec::new(),
        update_date: None,
    };
    assert(item.subtitle_groups.deep_view() =~= Seq::<SubtitleGroupView>::empty());
    Some(item)
}

/// A search result row from its magnet attribute, title text and the texts
/// of its third and fourth cells: none without a title; missing values are
/// empty.
pub open spec fn spec_search_episode(
    magnet: Option<Seq<char>>,
    title: Option<Seq<char>>,
    size: Option<Seq<char>>,
    date: Option<Seq<char>>,
) -> Option<SearchEpisodeView> {
    let t = trimmed_or_empty(title);
    if t.len() == 0 {
        None
    } else {
        Some(
            SearchEpisodeView {
                title: t,
                magnet: match magnet {
                    Some(m) => m,
                    None => Seq::empty(),
                },
                size: trimmed_or_empty(size),
                date: trimmed_or_empty(date),
            },
        )
    }
}

/// A search result row from the values read off it (see
/// [`spec_search_episode`]).
pub fn search_episode_from_parts(
    magnet: Option<String>,
    title_text: Option<String>,
    size_text: Option<String>,
    date_text: Option<String>,
) -> (res: Option<SearchEpisode>)
    ensures
        res.deep_view() == spec_search_episode(
            magnet.deep_view(),
            title_text.deep_view(),
            size_text.deep_view(),
            date_text.deep_view(),
        ),
{
    let title = trimmed_or_empty_exec(&title_text);
    if title.len() == 0 {
        return None;
    }
    let size = trimmed_or_empty_exec(&size_text);
    let date = trimmed_or_empty_exec(&date_text);
    Some(
        SearchEpisode {
            title: string_of(&title),
            magnet: match magnet {
                Some(m) => m,
                None => String::new(),
            },
            size: string_of(&size),
            date: string_of(&date),
        },
    )
}

/// The card at `card` of the search page.
pub open spec fn spec_search_card(src: Seq<char>, card: usize) -> Option<BangumiItemView> {
    spec_search_item(
        html_attr(src, card, "href"@),
        first_attr(src, html_select_in(src, card, "span[data-src]"@), "data-src"@),
        first_text(src, html_select_in(src, card, "div.an-text"@)),
    )
}

pub open spec fn spec_search_cards(src: Seq<char>, cards: Seq<usize>) -> Seq<BangumiItemView>
    decreases cards.len(),
{
    if cards.len() == 0 {
        Seq::empty()
    } else {
        let prev = spec_search_cards(src, cards.drop_last());
        match spec_search_card(src, cards.last()) {
            Some(i) => prev.push(i),
            None => prev,
        }
    }
}

/// The result row at `row` of the search page.
pub open spec fn spec_search_row(src: Seq<char>, row: usize) -> Option<SearchEpisodeView> {
    let tds = html_select_in(src, row, "td"@);
    spec_search_episode(
        first_attr(src, html_select_in(src, row, "input.js-episode-select"@), "data-magnet"@),
        first_text(src, html_select_in(src, row, "a.magnet-link-wrap"@)),
        nth_text(src, tds, 2),
        nth_text(src, tds, 3),
    )
}

pub open spec fn spec_search_rows(src: Seq<char>, rows: Seq<usize>) -> Seq<SearchEpisodeView>
    decreases rows.len(),
{
    if rows.len() == 0 {
        Seq::empty()
    } else {
        let prev = spec_search_rows(src, rows.drop_last());
        match spec_search_row(src, rows.last()) {
            Some(e) => prev.push(e),
            None => prev,
        }
    }
}

/// What the search page lists.
pub open spec fn spec_parse_search_results(html: Seq<char>) -> SearchResultsView {
    SearchResultsView {
        items: spec_search_cards(html, html_select_all(html, "li a[href^='/Home/Bangumi/']"@)),
        episodes: spec_search_rows(html, html_select_all(html, "tr.js-search-results-row"@)),
    }
}

/// A search result row gives an episode exactly when the text of its first
/// `a.magnet-link-wrap` link is not blank; the episode's title is that text
/// trimmed and its magnet the `data-magnet` of the row's first
/// `input.js-episode-select` (empty when there is none).
pub proof fn law_search_row_is_its_link_text(src: Seq<char>, row: usize)
    ensures
        ({
            let links = html_select_in(src, row, "a.magnet-link-wrap"@);
            let inputs = html_select_in(src, row, "input.js-episode-select"@);
            &&& spec_search_row(src, row) is Some <==> (links.len() > 0 && trim(
                html_text(src, links[0]),
            ).len() > 0)
            &&& spec_search_row(src, row) matches Some(e) ==> e.title == trim(
                html_text(src, links[0]),
            ) && e.magnet == (if inputs.len() > 0 {
                match html_attr(src, inputs[0], "data-magnet"@) {
                    Some(m) => m,
                    None => Seq::empty(),
                }
            } else {
                Seq::empty()
            })
        }),
{
}

/// Whether the search result row at `r` yields an episode (it has a title).
pub open spec fn yields_search_episode(src: Seq<char>) -> spec_fn(usize) -> bool {
    |r: usize| spec_search_row(src, r) is Some
}

proof fn lemma_search_rows_cover_titled_rows(src: Seq<char>, rows: Seq<usize>)
    ensures
        spec_search_rows(src, rows).len() == rows.filter(yields_search_episode(src)).len(),
        forall|k: int|
            0 <= k < rows.filter(yields_search_episode(src)).len() ==> Some(
                #[trigger] spec_search_rows(src, rows)[k],
            ) == spec_search_row(src, rows.filter(yields_search_episode(src))[k]),
    decreases rows.len(),
{
    reveal(Seq::filter);
    if rows.len() > 0 {
        lemma_search_rows_cover_titled_rows(src, rows.drop_last());
    }
}

/// Every search result row (`tr.js-search-results-row`) that has a title
/// gives one episode, in the order of the rows, and no other episode is
/// listed: the `k`-th episode is the one of the `k`-th titled row.
pub proof fn law_search_lists_every_titled_row(html: Seq<char>)
    ensures
        ({
            let titled = html_select_all(html, "tr.js-search-results-row"@).filter(
                yields_search_episode(html),
            );
            &&& spec_parse_search_results(html).episodes.len() == titled.len()
            &&& forall|k: int|
                0 <= k < titled.len() ==> Some(
                    #[trigger] spec_parse_search_results(html).episodes[k],
                ) == spec_search_row(html, titled[k])
        }),
{
    lemma_search_rows_cover_titled_rows(html, html_select_all(html, "tr.js-search-results-row"@));
}

fn search_card(doc: &HtmlDocument, card: usize) -> (res: Option<BangumiItem>)
    ensures
        res.deep_view() == spec_search_card(doc@, card),
{
    let href = doc.attr(card, "href");
    let imgs = doc.select_in(card, "span[data-src]");
    let cover = first_attr_exec(doc, &imgs, "data-src");
    let names = doc.select_in(card, "div.an-text");
    let name = first_text_exec(doc, &names);
    search_item_from_parts(href, cover, name)
}

fn search_row(doc: &HtmlDocument, row: usize) -> (res: Option<SearchEpisode>)
    ensures
        res.deep_view() == spec_search_row(doc@, row),
{
    let tds = doc.select_in(row, "td");
    let inputs = doc.select_in(row, "input.js-episode-select");
    let magnet = first_attr_exec(doc, &inputs, "data-magnet");
    let titles = doc.select_in(row, "a.magnet-link-wrap");
    let title = first_text_exec(doc, &titles);
    let size = nth_text_exec(doc, &tds, 2);
    let date = nth_text_exec(doc, &tds, 3);
    search_episode_from_parts(magnet, title, size, date)
}

/// Reads the search page: bangumi cards and episode rows (see
/// [`spec_parse_search_results`]).
pub fn parse_search_results(html: &str) -> (res: SearchResults)
    ensures
        res.deep_view() == spec_parse_search_results(html@),
{
    let doc = HtmlDocument::parse(html);
    let cards = doc.select_all("li a[href^='/Home/Bangumi/']");
    let mut items: Vec<BangumiItem> = Vec::new();
    let mut i: usize = 0;
    while i < cards.len()
        invariant
            i <= cards.len(),
            items.deep_view() == spec_search_cards(doc@, cards@.take(i as int)),
        decreases cards.len() - i,
    {
        let ghost before = items.deep_view();
        assert(cards@.take(i + 1).drop_last() =~= cards@.take(i as int));
        match search_card(&doc, cards[i]) {
            Some(item) => {
                items.push(item);
                assert(items.deep_view() =~= before.push(items@.last().deep_view()));
            },
            None => {},
        }
        i = i + 1;
    }
    assert(cards@.take(cards.len() as int) =~= cards@);
    let rows = doc.select_all("tr.js-search-results-row");
    let mut episodes: Vec<SearchEpisode> = Vec::new();
    let mut j: usize = 0;
    while j < rows.len()
        invariant
            j <= rows.len(),
            episodes.deep_view() == spec_search_rows(doc@, rows@.take(j as int)),
        decreases rows.len() - j,
    {
        let ghost before = episodes.deep_view();
        assert(rows@.take(j + 1).drop_last() =~= rows@.take(j as int));
        match search_row(&doc, rows[j]) {
            Some(e) => {
                episodes.push(e);
                assert(episodes.deep_view() =~= before.push(episodes@.last().deep_view()));
            },
            None => {},
        }
        j = j + 1;
    }
    assert(rows@.take(rows.len() as int) =~= rows@);
    SearchResults { items, episodes }
}

} // verus!
