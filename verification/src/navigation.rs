//! Pages, sections and filters of the app, their titles and scroll keys, and
//! the back-navigation history.

use vstd::prelude::*;

use crate::text::{decimal, push_decimal, push_str, string_of};

verus! {

/// Top-level sections of the toolbar: home, subscriptions, settings.
#[derive(Debug, Clone, Copy, PartialEq, Eq, Structural)]
pub enum TopSection {
    Home,
    Subscription,
    Settings,
}

/// Filters of the home page.
#[derive(Debug, Clone, Copy, PartialEq, Eq, Structural)]
pub enum HomeFilter {
    /// Today's updates first, then everything.
    Today,
    /// One weekday, 0 = Monday … 6 = Sunday.
    Weekday(usize),
    /// Movies.
    Movies,
}

/// A page of the app.
#[derive(Debug, Clone)]
pub enum Page {
    Home(HomeFilter),
    Subscription,
    Settings,
    BangumiDetail(String),
    SubGroupDetail(u32, u32),
    SearchResult(String),
}

pub enum PageView {
    Home(HomeFilter),
    Subscription,
    Settings,
    BangumiDetail(Seq<char>),
    SubGroupDetail(u32, u32),
    SearchResult(Seq<char>),
}

impl DeepView for Page {
    type V = PageView;

    open spec fn deep_view(&self) -> PageView {
        match self {
            Page::Home(f) => PageView::Home(*f),
            Page::Subscription => PageView::Subscription,
            Page::Settings => PageView::Settings,
            Page::BangumiDetail(n) => PageView::BangumiDetail(n@),
            Page::SubGroupDetail(b, s) => PageView::SubGroupDetail(*b, *s),
            Page::SearchResult(q) => PageView::SearchResult(q@),
        }
    }
}

/// Whether two pages are the same page.
pub fn same_page(a: &Page, b: &Page) -> (res: bool)
    ensures
        res == (a.deep_view() == b.deep_view()),
{
    match (a, b) {
        (Page::Home(x), Page::Home(y)) => *x == *y,
        (Page::Subscription, Page::Subscription) => true,
        (Page::Settings, Page::Settings) => true,
        (Page::BangumiDetail(x), Page::BangumiDetail(y)) => *x == *y,
        (Page::SubGroupDetail(a1, a2), Page::SubGroupDetail(b1, b2)) => *a1 == *b1 && *a2 == *b2,
        (Page::SearchResult(x), Page::SearchResult(y)) => *x == *y,
        _ => false,
    }
}

/// A copy of a page.
pub fn copy_page(p: &Page) -> (res: Page)
    ensures
        res.deep_view() == p.deep_view(),
{
    match p {
        Page::Home(f) => Page::Home(*f),
        Page::Subscription => Page::Subscription,
        Page::Settings => Page::Settings,
        Page::BangumiDetail(n) => Page::BangumiDetail(n.clone()),
        Page::SubGroupDetail(b, s) => Page::SubGroupDetail(*b, *s),
        Page::SearchResult(q) => Page::SearchResult(q.clone()),
    }
}

impl TopSection {
    /// The sections in toolbar order.
    pub fn all() -> (res: [TopSection; 3])
        ensures
            res@ == seq![TopSection::Home, TopSection::Subscription, TopSection::Settings],
    {
        let r = [TopSection::Home, TopSection::Subscription, TopSection::Settings];
        assert(r@ =~= seq![TopSection::Home, TopSection::Subscription, TopSection::Settings]);
        r
    }

    /// The section a page belongs to; detail and search pages belong to none.
    pub fn from_page(page: &Page) -> (res: Option<TopSection>)
        ensures
            res == match page.deep_view() {
                PageView::Home(_) => Some(TopSection::Home),
                PageView::Subscription => Some(TopSection::Subscription),
                PageView::Settings => Some(TopSection::Settings),
                _ => None,
            },
    {
        match page {
            Page::Home(_) => Some(TopSection::Home),
            Page::Subscription => Some(TopSection::Subscription),
            Page::Settings => Some(TopSection::Settings),
            _ => None,
        }
    }

    /// The toolbar label.
    pub fn label(&self) -> (res: &'static str)
        ensures
            res@ == match *self {
                TopSection::Home => "首页"@,
                TopSection::Subscription => "我的订阅"@,
                TopSection::Settings => "设置"@,
            },
    {
        match self {
            TopSection::Home => "首页",
            TopSection::Subscription => "我的订阅",
            TopSection::Settings => "设置",
        }
    }
}

/// Weekday names, 0 = Monday … 6 = Sunday.
pub open spec fn spec_weekday_names() -> Seq<Seq<char>> {
    seq!["星期一"@, "星期二"@, "星期三"@, "星期四"@, "星期五"@, "星期六"@, "星期日"@]
}

/// Short weekday names for badges, 0 = Monday … 6 = Sunday.
pub open spec fn spec_weekday_short() -> Seq<Seq<char>> {
    seq!["周一"@, "周二"@, "周三"@, "周四"@, "周五"@, "周六"@, "周日"@]
}

/// The name of weekday `day` (0 = Monday), if it is one.
pub fn weekday_name(day: usize) -> (res: Option<&'static str>)
    ensures
        match res {
            Some(n) => day < 7 && n@ == spec_weekday_names()[day as int],
            None => day >= 7,
        },
{
    if day == 0 {
        Some("星期一")
    } else if day == 1 {
        Some("星期二")
    } else if day == 2 {
        Some("星期三")
    } else if day == 3 {
        Some("星期四")
    } else if day == 4 {
        Some("星期五")
    } else if day == 5 {
        Some("星期六")
    } else if day == 6 {
        Some("星期日")
    } else {
        None
    }
}

/// The short name of weekday `day` (0 = Monday), if it is one.
pub fn weekday_short(day: usize) -> (res: Option<&'static str>)
    ensures
        match res {
            Some(n) => day < 7 && n@ == spec_weekday_short()[day as int],
            None => day >= 7,
        },
{
    if day == 0 {
        Some("周一")
    } else if day == 1 {
        Some("周二")
    } else if day == 2 {
        Some("周三")
    } else if day == 3 {
        Some("周四")
    } else if day == 4 {
        Some("周五")
    } else if day == 5 {
        Some("周六")
    } else if day == 6 {
        Some("周日")
    } else {
        None
    }
}

/// The label of a home filter; a weekday out of range reads `星期`.
pub open spec fn spec_filter_label(f: HomeFilter) -> Seq<char> {
    match f {
        HomeFilter::Today => "今日更新"@,
        HomeFilter::Weekday(d) => if d < 7 {
            spec_weekday_names()[d as int]
        } else {
            "星期"@
        },
        HomeFilter::Movies => "剧场版"@,
    }
}

impl HomeFilter {
    /// The label used in menus and page titles.
    pub fn label(&self) -> (res: &'static str)
        ensures
            res@ == spec_filter_label(*self),
    {
        match self {
            HomeFilter::Today => "今日更新",
            HomeFilter::Weekday(day) => match weekday_name(*day) {
                Some(n) => n,
                None => "星期",
            },
            HomeFilter::Movies => "剧场版",
        }
    }
}

/// The title of a page in the toolbar (breadcrumb).
pub open spec fn spec_page_title(p: PageView) -> Seq<char> {
    match p {
        PageView::Home(f) => spec_filter_label(f),
        PageView::Subscription => "我的订阅"@,
        PageView::Settings => "设置"@,
        PageView::BangumiDetail(name) => name,
        PageView::SubGroupDetail(_, _) => "字幕组"@,
        PageView::SearchResult(q) => "搜索「"@ + q + "」"@,
    }
}

/// The toolbar title of a page (see [`spec_page_title`]).
pub fn page_title(page: &Page) -> (res: String)
    ensures
        res@ == spec_page_title(page.deep_view()),
{
    match page {
        Page::Home(f) => f.label().to_owned(),
        Page::Subscription => "我的订阅".to_owned(),
        Page::Settings => "设置".to_owned(),
        Page::BangumiDetail(name) => name.clone(),
        Page::SubGroupDetail(_, _) => "字幕组".to_owned(),
        Page::SearchResult(q) => {
            let mut out: Vec<char> = Vec::new();
            push_str(&mut out, "搜索「");
            push_str(&mut out, q.as_str());
            push_str(&mut out, "」");
            string_of(&out)
        },
    }
}

/// How a home filter prints with `{:?}`.
pub open spec fn spec_filter_debug(f: HomeFilter) -> Seq<char> {
    match f {
        HomeFilter::Today => "Today"@,
        HomeFilter::Weekday(d) => "Weekday("@ + decimal(d as nat) + ")"@,
        HomeFilter::Movies => "Movies"@,
    }
}

/// The key under which a page keeps its scroll position; every page and
/// every home filter has its own.
pub open spec fn spec_page_scroll_key(p: PageView) -> Seq<char> {
    match p {
        PageView::Home(f) => "home:"@ + spec_filter_debug(f),
        PageView::Subscription => "subscription"@,
        PageView::Settings => "settings"@,
        PageView::BangumiDetail(name) => "detail:"@ + name,
        PageView::SubGroupDetail(b, s) => "subgroup:"@ + decimal(b as nat) + ":"@ + decimal(s as nat),
        PageView::SearchResult(q) => "search:"@ + q,
    }
}

/// The scroll key of a page (see [`spec_page_scroll_key`]).
pub fn page_scroll_key(page: &Page) -> (res: String)
    ensures
        res@ == spec_page_scroll_key(page.deep_view()),
{
    let mut out: Vec<char> = Vec::new();
    match page {
        Page::Home(f) => {
            push_str(&mut out, "home:");
            match f {
                HomeFilter::Today => push_str(&mut out, "Today"),
                HomeFilter::Weekday(d) => {
                    push_str(&mut out, "Weekday(");
                    push_decimal(&mut out, *d as u64);
                    push_str(&mut out, ")");
                },
                HomeFilter::Movies => push_str(&mut out, "Movies"),
            }
        },
        Page::Subscription => push_str(&mut out, "subscription"),
        Page::Settings => push_str(&mut out, "settings"),
        Page::BangumiDetail(name) => {
            push_str(&mut out, "detail:");
            push_str(&mut out, name.as_str());
        },
        Page::SubGroupDetail(b, s) => {
            push_str(&mut out, "subgroup:");
            push_decimal(&mut out, *b as u64);
            push_str(&mut out, ":");
            push_decimal(&mut out, *s as u64);
        },
        Page::SearchResult(q) => {
            push_str(&mut out, "search:");
            push_str(&mut out, q.as_str());
        },
    }
    assert(out@ =~= spec_page_scroll_key(page.deep_view()));
    string_of(&out)
}

// ───────────────────────── history ─────────────────────────

/// Most pages kept for going back.
pub const HISTORY_LIMIT: usize = 100;

/// The abstract navigation state.
pub struct NavModel {
    pub current: PageView,
    /// Oldest first.
    pub history: Seq<PageView>,
}

/// The state after navigating to `page`: a different page pushes the current
/// one onto the history, which drops its oldest entry beyond
/// [`HISTORY_LIMIT`]; the same page changes nothing but the current page.
pub open spec fn spec_after_navigate(m: NavModel, page: PageView) -> NavModel {
    if m.current != page {
        let h = m.history.push(m.current);
        NavModel {
            current: page,
            history: if h.len() > HISTORY_LIMIT {
                h.drop_first()
            } else {
                h
            },
        }
    } else {
        NavModel { current: page, ..m }
    }
}

/// The state after going back: the last page of the history becomes current;
/// with no history nothing changes.
pub open spec fn spec_after_back(m: NavModel) -> NavModel {
    if m.history.len() > 0 {
        NavModel { current: m.history.last(), history: m.history.drop_last() }
    } else {
        m
    }
}

/// The current page and the pages to go back to.
pub struct Navigator {
    current: Page,
    history: Vec<Page>,
}

impl Navigator {
    pub closed spec fn view_model(&self) -> NavModel {
        NavModel {
            current: self.current.deep_view(),
            history: self.history.deep_view(),
        }
    }

    pub closed spec fn wf(&self) -> bool {
        self.history@.len() <= HISTORY_LIMIT
    }

    /// Starts on `page` with no history.
    pub fn new(page: Page) -> (r: Self)
        ensures
            r.wf(),
            r.view_model() == (NavModel { current: page.deep_view(), history: Seq::empty() }),
    {
        let r = Navigator { current: page, history: Vec::new() };
        assert(r.history.deep_view() =~= Seq::<PageView>::empty());
        r
    }

    /// The current page.
    pub fn current(&self) -> (r: &Page)
        ensures
            r.deep_view() == self.view_model().current,
    {
        &self.current
    }

    /// How many pages can be gone back to.
    pub fn history_len(&self) -> (n: usize)
        ensures
            n == self.view_model().history.len(),
    {
        self.history.len()
    }

    /// Goes to `page` (see [`spec_after_navigate`]).
    pub fn navigate_to(&mut self, page: Page)
        requires
            old(self).wf(),
        ensures
            final(self).wf(),
            final(self).view_model() == spec_after_navigate(old(self).view_model(), page.deep_view()),
    {
        if !same_page(&self.current, &page) {
            let prev = copy_page(&self.current);
            let ghost h0 = self.history.deep_view();
            self.history.push(prev);
            assert(self.history.deep_view() =~= h0.push(old(self).current.deep_view()));
            if self.history.len() > HISTORY_LIMIT {
                let ghost h1 = self.history.deep_view();
                self.history.remove(0);
                assert(self.history.deep_view() =~= h1.drop_first());
            }
        }
        self.current = page;
    }

    /// Goes back one page (see [`spec_after_back`]); `true` if there was one.
    pub fn go_back(&mut self) -> (moved: bool)
        requires
            old(self).wf(),
        ensures
            final(self).wf(),
            moved == (old(self).view_model().history.len() > 0),
            final(self).view_model() == spec_after_back(old(self).view_model()),
    {
        let ghost h0 = self.history.deep_view();
        match self.history.pop() {
            Some(prev) => {
                assert(self.history.deep_view() =~= h0.drop_last());
                self.current = prev;
                true
            },
            None => false,
        }
    }
}

/// Going back right after navigating to a different page returns to the page
/// before, with the history as it was (as long as it was not full).
pub proof fn law_back_undoes_navigate(m: NavModel, page: PageView)
    requires
        m.current != page,
        m.history.len() < HISTORY_LIMIT,
    ensures
        spec_after_back(spec_after_navigate(m, page)) == m,
{
    assert(m.history.push(m.current).drop_last() =~= m.history);
}

/// The history never holds more than [`HISTORY_LIMIT`] pages.
pub proof fn law_history_bounded(m: NavModel, page: PageView)
    requires
        m.history.len() <= HISTORY_LIMIT,
    ensures
        spec_after_navigate(m, page).history.len() <= HISTORY_LIMIT,
        spec_after_back(m).history.len() <= HISTORY_LIMIT,
{
}

} // verus!
