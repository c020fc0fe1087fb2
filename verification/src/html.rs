//! A parsed HTML page, as far as the page readers need it: CSS selection,
//! attributes, text and classes of elements. The parsing and the selector
//! matching are those of the `scraper` crate; an element is named by the
//! position of its node in the parsed tree.

use vstd::prelude::*;

verus! {

#[verifier::external_type_specification]
#[verifier::external_body]
pub struct ExHtml(scraper::Html);

/// The elements of the page parsed from `html` that `selector` selects, in
/// the order in which `scraper::Html::select` yields them (the order of the
/// parsed tree's nodes). Empty for a selector that does not parse.
pub uninterp spec fn html_select_all(html: Seq<char>, selector: Seq<char>) -> Seq<usize>;

/// The descendants of the element at position `node` of the page parsed from
/// `html` that `selector` selects, in the order in which
/// `scraper::ElementRef::select` yields them (document order). Empty for a
/// selector that does not parse or where `node` is no element.
pub uninterp spec fn html_select_in(html: Seq<char>, node: usize, selector: Seq<char>) -> Seq<usize>;

/// The value of attribute `name` of the element at position `node` of the page
/// parsed from `html`.
pub uninterp spec fn html_attr(html: Seq<char>, node: usize, name: Seq<char>) -> Option<Seq<char>>;

/// The text of the element at position `node` of the page parsed from `html`:
/// its descendant text nodes, concatenated in order.
pub uninterp spec fn html_text(html: Seq<char>, node: usize) -> Seq<char>;

/// Whether the element at position `node` of the page parsed from `html` has
/// class `class`.
pub uninterp spec fn html_has_class(html: Seq<char>, node: usize, class: Seq<char>) -> bool;

/// A page parsed as an HTML document, with the text it was parsed from.
pub struct HtmlDocument {
    source: String,
    doc: scraper::Html,
}

impl View for HtmlDocument {
    type V = Seq<char>;

    closed spec fn view(&self) -> Seq<char> {
        self.source@
    }
}

impl HtmlDocument {
    /// Parses `html` as a document (`scraper::Html::parse_document`).
    ///
    /// Trusted: the document keeps the text it was parsed from, so that the
    /// names above describe it.
    #[verifier::external_body]
    pub(crate) fn parse(html: &str) -> (res: HtmlDocument)
        ensures
            res@ == html@,
    {
        HtmlDocument { source: html.to_owned(), doc: scraper::Html::parse_document(html) }
    }

    /// The elements of the whole page that `selector` selects
    /// (`scraper::Html::select`).
    ///
    /// Trusted: the positions are those of the selected nodes, in the order in
    /// which `scraper` yields them, a function of the page and the selector.
    #[verifier::external_body]
    pub(crate) fn select_all(&self, selector: &str) -> (res: Vec<usize>)
        ensures
            res@ == html_select_all(self@, selector@),
    {
        let Ok(sel) = scraper::Selector::parse(selector) else { return Vec::new() };
        let index: std::collections::HashMap<_, usize> = self.doc.tree.nodes().enumerate().map(
            |(i, n)| (n.id(), i),
        ).collect();
        self.doc.select(&sel).map(|e| index[&e.id()]).collect()
    }

    /// The descendants of the element at `node` that `selector` selects
    /// (`scraper::ElementRef::select`).
    ///
    /// Trusted: as [`HtmlDocument::select_all`], within the element; no element
    /// at `node` selects nothing.
    #[verifier::external_body]
    pub(crate) fn select_in(&self, node: usize, selector: &str) -> (res: Vec<usize>)
        ensures
            res@ == html_select_in(self@, node, selector@),
    {
        let Ok(sel) = scraper::Selector::parse(selector) else { return Vec::new() };
        let index: std::collections::HashMap<_, usize> = self.doc.tree.nodes().enumerate().map(
            |(i, n)| (n.id(), i),
        ).collect();
        match self.doc.tree.nodes().nth(node).and_then(scraper::ElementRef::wrap) {
            Some(el) => el.select(&sel).map(|e| index[&e.id()]).collect(),
            None => Vec::new(),
        }
    }

    /// The value of attribute `name` of the element at `node`
    /// (`scraper::ElementRef::attr`).
    ///
    /// Trusted: a function of the page, the position and the name; `None` where
    /// there is no such element or attribute.
    #[verifier::external_body]
    pub(crate) fn attr(&self, node: usize, name: &str) -> (res: Option<String>)
        ensures
            res.deep_view() == html_attr(self@, node, name@),
    {
        let el = self.doc.tree.nodes().nth(node).and_then(scraper::ElementRef::wrap)?;
        el.attr(name).map(|v| v.to_owned())
    }

    /// The text of the element at `node` (`scraper::ElementRef::text`,
    /// concatenated).
    ///
    /// Trusted: a function of the page and the position; empty where there is
    /// no such element.
    #[verifier::external_body]
    pub(crate) fn text(&self, node: usize) -> (res: String)
        ensures
            res@ == html_text(self@, node),
    {
        match self.doc.tree.nodes().nth(node).and_then(scraper::ElementRef::wrap) {
            Some(el) => el.text().collect(),
            None => String::new(),
        }
    }

    /// Whether the element at `node` has class `class`
    /// (`scraper::node::Element::classes`).
    ///
    /// Trusted: a function of the page, the position and the class.
    #[verifier::external_body]
    pub(crate) fn has_class(&self, node: usize, class: &str) -> (res: bool)
        ensures
            res == html_has_class(self@, node, class@),
    {
        match self.doc.tree.nodes().nth(node).and_then(scraper::ElementRef::wrap) {
            Some(el) => el.value().classes().any(|c| c == class),
            None => false,
        }
    }
}

} // verus!
