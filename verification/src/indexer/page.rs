//! Reading a fetched page: the parts of it that indexing uses, as the HTML
//! parser finds them, and the scores its words get.
//!
//! A word's score is, for every occurrence, the rate of the part of the page
//! it occurs in: title 20, description 8, `p`/`span` 1, `h1` 15, `h2` 10,
//! `h3` 7, `h4` 5, `h5` 3.
use vstd::prelude::*;
use vstd::string::*;
use crate::indexer::scoring::{
    bump_all, lemma_bump_all_distinct, lemma_bump_all_positive, lemma_bump_all_score, lemma_score_at,
    lemma_score_in_empty, lemma_scored_word_present, lemma_unfit_stays, line_words, occurrences, score_in,
    scores_fit, words_distinct, ScoresView,
};
use crate::indexer::url::{formatted_url, result_view, selection_texts, url_format_defined, selection_view, ElementNodes, IndexData, QueueBot};
use crate::text::views;
use crate::url_parts::opt_view;

verus! {

broadcast use vstd::string::group_string_axioms;

// ---------------------------------------------------------------------------
// What the HTML parser finds
// ---------------------------------------------------------------------------

/// What `scraper` selects with the CSS selector `css` in `page` (read with
/// `Html::parse_fragment`): for each selected element, in document order,
/// the nodes of its subtree in document order, each by its text when it is
/// a text node and by the empty text otherwise. `None` when `css` is not a
/// valid selector.
pub uninterp spec fn selected_nodes(page: Seq<char>, css: Seq<char>) -> Option<Seq<Seq<Seq<char>>>>;

/// For each element `css` selects in `page`, in document order, the text of
/// its first child when that child is a text node. `None` when `css` is not
/// a valid selector.
pub uninterp spec fn first_child_texts(page: Seq<char>, css: Seq<char>) -> Option<Seq<Option<Seq<char>>>>;

/// For each element `css` selects in `page`, in document order, the value
/// of its attribute `attr`, if it has one. `None` when `css` is not a valid
/// selector.
pub uninterp spec fn attribute_values(page: Seq<char>, css: Seq<char>, attr: Seq<char>) -> Option<Seq<Option<Seq<char>>>>;

/// The selectors a page is read with: type selectors (`title`, `h1` to
/// `h5`, `a`, `html`), the selector list `p, span`, and `meta` with an
/// attribute selector. All are valid CSS selectors, which
/// `scraper::Selector::parse` accepts.
pub open spec fn page_selector(css: Seq<char>) -> bool {
    ||| css == "title"@
    ||| css == "meta[name='description']"@
    ||| css == "p, span"@
    ||| css == "h1"@
    ||| css == "h2"@
    ||| css == "h3"@
    ||| css == "h4"@
    ||| css == "h5"@
    ||| css == "a"@
    ||| css == "html"@
    ||| css == "meta[http-equiv=\"content_language\"]"@
}

/// Each optional text by its view.
pub open spec fn opt_views(v: Seq<Option<String>>) -> Seq<Option<Seq<char>>> {
    v.map_values(|o: Option<String>| opt_view(o))
}

/// Parses `page` with `scraper::Html::parse_fragment`, selects with
/// `scraper::Selector::parse(css)` and gives, for each selected element, the
/// nodes of `ElementRef::descendants` (the element and its subtree, in tree
/// order), each by its text (`Node::as_text`) or by the empty text. The
/// contract claims that the result is the named selection of its two
/// arguments, and that a selector the library reads pages with parses.
#[verifier::external_body]
fn select_nodes(page: &str, css: &str) -> (r: Option<Vec<ElementNodes>>)
    ensures
        page_selector(css@) ==> r is Some,
        match r {
            Some(v) => selected_nodes(page@, css@) == Some(selection_view(v@)),
            None => selected_nodes(page@, css@) is None,
        },
{
    let selector = scraper::Selector::parse(css).ok()?;
    let dom = scraper::Html::parse_fragment(page);
    let found = dom.select(&selector).map(|e| {
        e.descendants().map(|n| n.value().as_text().map(|t| t.to_string()).unwrap_or_default()).collect()
    });
    Some(found.collect())
}

/// Parses `page` as `select_nodes` does and gives, for each selected
/// element, the text of `first_child` when `Node::as_text` reads it. The
/// contract claims that the result is the named list of its arguments, and
/// that a selector the library reads pages with parses.
#[verifier::external_body]
fn select_first_child_texts(page: &str, css: &str) -> (r: Option<Vec<Option<String>>>)
    ensures
        page_selector(css@) ==> r is Some,
        match r {
            Some(v) => first_child_texts(page@, css@) == Some(opt_views(v@)),
            None => first_child_texts(page@, css@) is None,
        },
{
    let selector = scraper::Selector::parse(css).ok()?;
    let dom = scraper::Html::parse_fragment(page);
    let found = dom.select(&selector).map(|e| e.first_child().and_then(|c| c.value().as_text().map(|t| t.to_string())));
    Some(found.collect())
}

/// Parses `page` as `select_nodes` does and gives, for each selected
/// element, `ElementRef::attr(attr)`. The contract claims that the result is
/// the named list of its arguments, and that a selector the library reads
/// pages with parses.
#[verifier::external_body]
fn select_attribute_values(page: &str, css: &str, attr: &str) -> (r: Option<Vec<Option<String>>>)
    ensures
        page_selector(css@) ==> r is Some,
        match r {
            Some(v) => attribute_values(page@, css@, attr@) == Some(opt_views(v@)),
            None => attribute_values(page@, css@, attr@) is None,
        },
{
    let selector = scraper::Selector::parse(css).ok()?;
    let dom = scraper::Html::parse_fragment(page);
    let found = dom.select(&selector).map(|e| e.attr(attr).map(|a| a.to_string()));
    Some(found.collect())
}

// ---------------------------------------------------------------------------
// The parts of a page
// ---------------------------------------------------------------------------

/// The parts of a page that indexing uses.
pub struct PageParts {
    /// The first `title` element: the text of its first child (`None` inside
    /// when that child is missing or is not a text).
    pub title: Option<Option<String>>,
    /// The first `meta[name='description']` element: its `content`.
    pub description: Option<Option<String>>,
    /// The `p` and `span` elements.
    pub paragraphs: Vec<ElementNodes>,
    pub h1: Vec<ElementNodes>,
    pub h2: Vec<ElementNodes>,
    pub h3: Vec<ElementNodes>,
    pub h4: Vec<ElementNodes>,
    pub h5: Vec<ElementNodes>,
    /// The `href` of each `a` element.
    pub links: Vec<Option<String>>,
    /// The `lang` of the first `html` element.
    pub html_lang: Option<String>,
    /// The first `meta[http-equiv="content_language"]` element: its `lang`.
    pub meta_lang: Option<Option<String>>,
}

/// `PageParts` with every text by its view.
pub struct PageView {
    pub title: Option<Option<Seq<char>>>,
    pub description: Option<Option<Seq<char>>>,
    pub paragraphs: Seq<Seq<Seq<char>>>,
    pub h1: Seq<Seq<Seq<char>>>,
    pub h2: Seq<Seq<Seq<char>>>,
    pub h3: Seq<Seq<Seq<char>>>,
    pub h4: Seq<Seq<Seq<char>>>,
    pub h5: Seq<Seq<Seq<char>>>,
    pub links: Seq<Option<Seq<char>>>,
    pub html_lang: Option<Seq<char>>,
    pub meta_lang: Option<Option<Seq<char>>>,
}

/// An optional optional text by its view.
pub open spec fn opt_opt_view(o: Option<Option<String>>) -> Option<Option<Seq<char>>> {
    match o {
        Some(i) => Some(opt_view(i)),
        None => None,
    }
}

impl View for PageParts {
    type V = PageView;

    open spec fn view(&self) -> PageView {
        PageView {
            title: opt_opt_view(self.title),
            description: opt_opt_view(self.description),
            paragraphs: selection_view(self.paragraphs@),
            h1: selection_view(self.h1@),
            h2: selection_view(self.h2@),
            h3: selection_view(self.h3@),
            h4: selection_view(self.h4@),
            h5: selection_view(self.h5@),
            links: opt_views(self.links@),
            html_lang: opt_view(self.html_lang),
            meta_lang: opt_opt_view(self.meta_lang),
        }
    }
}

/// The first item of `s`, if any.
pub open spec fn first_of<T>(s: Seq<T>) -> Option<T> {
    if s.len() > 0 {
        Some(s[0])
    } else {
        None
    }
}

/// The inner value of `o`, if both are there.
pub open spec fn inner(o: Option<Option<Seq<char>>>) -> Option<Seq<char>> {
    match o {
        Some(Some(x)) => Some(x),
        _ => None,
    }
}

/// The parts of `page`, as the parser finds them (`None` would mean that a
/// selector did not parse).
pub open spec fn page_parts(page: Seq<char>) -> Option<PageView> {
    let title = first_child_texts(page, "title"@);
    let description = attribute_values(page, "meta[name='description']"@, "content"@);
    let paragraphs = selected_nodes(page, "p, span"@);
    let h1 = selected_nodes(page, "h1"@);
    let h2 = selected_nodes(page, "h2"@);
    let h3 = selected_nodes(page, "h3"@);
    let h4 = selected_nodes(page, "h4"@);
    let h5 = selected_nodes(page, "h5"@);
    let links = attribute_values(page, "a"@, "href"@);
    let html = attribute_values(page, "html"@, "lang"@);
    let meta = attribute_values(page, "meta[http-equiv=\"content_language\"]"@, "lang"@);
    if title is Some && description is Some && paragraphs is Some && h1 is Some && h2 is Some && h3 is Some
        && h4 is Some && h5 is Some && links is Some && html is Some && meta is Some {
        Some(
            PageView {
                title: first_of(title->0),
                description: first_of(description->0),
                paragraphs: paragraphs->0,
                h1: h1->0,
                h2: h2->0,
                h3: h3->0,
                h4: h4->0,
                h5: h5->0,
                links: links->0,
                html_lang: inner(first_of(html->0)),
                meta_lang: first_of(meta->0),
            },
        )
    } else {
        None
    }
}

/// Each part of a read page comes from its own selector: the title from the
/// first `title` element, the description from the `content` of the first
/// `meta[name='description']` element, the paragraphs from `p, span`, each
/// heading level `hN` from the selector `hN`, the links from the `href` of
/// the `a` elements, and the languages from `html` and the content-language
/// `meta`.
pub proof fn lemma_page_parts_sources(page: Seq<char>)
    requires
        page_parts(page) is Some,
    ensures
        page_parts(page)->0.title == first_of(first_child_texts(page, "title"@)->0),
        page_parts(page)->0.description == first_of(attribute_values(page, "meta[name='description']"@, "content"@)->0),
        Some(page_parts(page)->0.paragraphs) == selected_nodes(page, "p, span"@),
        Some(page_parts(page)->0.h1) == selected_nodes(page, "h1"@),
        Some(page_parts(page)->0.h2) == selected_nodes(page, "h2"@),
        Some(page_parts(page)->0.h3) == selected_nodes(page, "h3"@),
        Some(page_parts(page)->0.h4) == selected_nodes(page, "h4"@),
        Some(page_parts(page)->0.h5) == selected_nodes(page, "h5"@),
        Some(page_parts(page)->0.links) == attribute_values(page, "a"@, "href"@),
        page_parts(page)->0.html_lang == inner(first_of(attribute_values(page, "html"@, "lang"@)->0)),
        page_parts(page)->0.meta_lang == first_of(
            attribute_values(page, "meta[http-equiv=\"content_language\"]"@, "lang"@)->0,
        ),
{
}

/// The weights of the parts of a page: a word's score is 20 per occurrence
/// in the title, 8 in the description, 1 in a `p` or `span`, 15 in an `h1`,
/// 10 in an `h2`, 7 in an `h3`, 5 in an `h4` and 3 in an `h5`. So a word
/// that occurs once, in an `h3` element and nowhere else, scores 7.
pub proof fn lemma_part_weights(p: PageView, w: Seq<char>)
    ensures
        score_in(page_scores(p), w) == 20 * occurrences(line_words(line_of(p.title)), w) + 8 * occurrences(
            line_words(line_of(p.description)),
            w,
        ) + occurrences(line_words(selection_texts(p.paragraphs)), w) + 15 * occurrences(
            line_words(selection_texts(p.h1)),
            w,
        ) + 10 * occurrences(line_words(selection_texts(p.h2)), w) + 7 * occurrences(
            line_words(selection_texts(p.h3)),
            w,
        ) + 5 * occurrences(line_words(selection_texts(p.h4)), w) + 3 * occurrences(
            line_words(selection_texts(p.h5)),
            w,
        ),
{
    lemma_page_scores(p, w);
}

/// The first item of `v`, if any.
fn first_item(v: Vec<Option<String>>) -> (r: Option<Option<String>>)
    ensures
        opt_opt_view(r) == first_of(opt_views(v@)),
{
    let mut v = v;
    if v.len() == 0 {
        None
    } else {
        Some(v.remove(0))
    }
}

/// Reads the parts of a fetched page.
pub fn read_page(page: &str) -> (p: PageParts)
    ensures
        page_parts(page@) == Some(p@),
{
    let title = select_first_child_texts(page, "title");
    let description = select_attribute_values(page, "meta[name='description']", "content");
    let paragraphs = select_nodes(page, "p, span");
    let h1 = select_nodes(page, "h1");
    let h2 = select_nodes(page, "h2");
    let h3 = select_nodes(page, "h3");
    let h4 = select_nodes(page, "h4");
    let h5 = select_nodes(page, "h5");
    let links = select_attribute_values(page, "a", "href");
    let html = select_attribute_values(page, "html", "lang");
    let meta = select_attribute_values(page, "meta[http-equiv=\"content_language\"]", "lang");
    match (title, description, paragraphs, h1, h2, h3, h4, h5, links, html, meta) {
        (
            Some(title),
            Some(description),
            Some(paragraphs),
            Some(h1),
            Some(h2),
            Some(h3),
            Some(h4),
            Some(h5),
            Some(links),
            Some(html),
            Some(meta),
        ) => {
            let html_lang = match first_item(html) {
                Some(Some(l)) => Some(l),
                _ => None,
            };
            let p = PageParts {
                title: first_item(title),
                description: first_item(description),
                paragraphs,
                h1,
                h2,
                h3,
                h4,
                h5,
                links,
                html_lang,
                meta_lang: first_item(meta),
            };
            p
        },
        _ => {
            // unreachable: every selector of a page parses
            PageParts {
                title: None,
                description: None,
                paragraphs: Vec::new(),
                h1: Vec::new(),
                h2: Vec::new(),
                h3: Vec::new(),
                h4: Vec::new(),
                h5: Vec::new(),
                links: Vec::new(),
                html_lang: None,
                meta_lang: None,
            }
        },
    }
}

// ---------------------------------------------------------------------------
// Scores of a page
// ---------------------------------------------------------------------------

/// The line a title or description gives: its text, when there is one.
pub open spec fn line_of(t: Option<Option<Seq<char>>>) -> Seq<Seq<char>> {
    match t {
        Some(Some(x)) => seq![x],
        _ => Seq::empty(),
    }
}

/// The page can be scored: a title that is there has a text first child, a
/// description that is there has a `content`.
pub open spec fn page_scorable(p: PageView) -> bool {
    p.title != Some(None::<Seq<char>>) && p.description != Some(None::<Seq<char>>)
}

/// The scores after the title and the description.
pub open spec fn head_scores(p: PageView) -> ScoresView {
    bump_all(bump_all(Seq::empty(), line_words(line_of(p.title)), 20), line_words(line_of(p.description)), 8)
}

/// The scores after the paragraphs and the `h1` and `h2` headings.
pub open spec fn upper_scores(p: PageView) -> ScoresView {
    bump_all(
        bump_all(bump_all(head_scores(p), line_words(selection_texts(p.paragraphs)), 1), line_words(selection_texts(p.h1)), 15),
        line_words(selection_texts(p.h2)),
        10,
    )
}

/// The scores of every word of the page: the title at 20, the description
/// at 8, the paragraphs at 1, then the headings `h1` to `h5` at 15, 10, 7,
/// 5 and 3.
pub open spec fn page_scores(p: PageView) -> ScoresView {
    bump_all(
        bump_all(bump_all(upper_scores(p), line_words(selection_texts(p.h3)), 7), line_words(selection_texts(p.h4)), 5),
        line_words(selection_texts(p.h5)),
        3,
    )
}

/// The score the page gives to `w`, by the scoring rule.
pub open spec fn rule_score(p: PageView, w: Seq<char>) -> nat {
    20 * occurrences(line_words(line_of(p.title)), w) + 8 * occurrences(line_words(line_of(p.description)), w)
        + 1 * occurrences(line_words(selection_texts(p.paragraphs)), w) + 15 * occurrences(
        line_words(selection_texts(p.h1)),
        w,
    ) + 10 * occurrences(line_words(selection_texts(p.h2)), w) + 7 * occurrences(line_words(selection_texts(p.h3)), w)
        + 5 * occurrences(line_words(selection_texts(p.h4)), w) + 3 * occurrences(line_words(selection_texts(p.h5)), w)
}

/// The scoring rule: a word's score on a page is, summed over the parts of
/// the page, the part's rate times the number of occurrences of the word in
/// it.
pub proof fn lemma_page_scores(p: PageView, w: Seq<char>)
    ensures
        score_in(page_scores(p), w) == rule_score(p, w),
{
    let e = Seq::<(Seq<char>, nat)>::empty();
    lemma_score_in_empty(w);
    let s1 = bump_all(e, line_words(line_of(p.title)), 20);
    lemma_bump_all_score(e, line_words(line_of(p.title)), w, 20);
    let s2 = head_scores(p);
    lemma_bump_all_score(s1, line_words(line_of(p.description)), w, 8);
    let s3 = bump_all(s2, line_words(selection_texts(p.paragraphs)), 1);
    lemma_bump_all_score(s2, line_words(selection_texts(p.paragraphs)), w, 1);
    let s4 = bump_all(s3, line_words(selection_texts(p.h1)), 15);
    lemma_bump_all_score(s3, line_words(selection_texts(p.h1)), w, 15);
    let s5 = upper_scores(p);
    lemma_bump_all_score(s4, line_words(selection_texts(p.h2)), w, 10);
    let s6 = bump_all(s5, line_words(selection_texts(p.h3)), 7);
    lemma_bump_all_score(s5, line_words(selection_texts(p.h3)), w, 7);
    let s7 = bump_all(s6, line_words(selection_texts(p.h4)), 5);
    lemma_bump_all_score(s6, line_words(selection_texts(p.h4)), w, 5);
    lemma_bump_all_score(s7, line_words(selection_texts(p.h5)), w, 3);
}

/// The scores of a page are, word by word, the scoring rule: each entry's
/// score is its word's rule score and is positive, every word the rule
/// scores has an entry, and no word has two. So storing the entries stores
/// exactly the words that occur in the page, each with its rule score.
pub proof fn lemma_page_rows(p: PageView)
    ensures
        words_distinct(page_scores(p)),
        forall|i: int|
            0 <= i < page_scores(p).len() ==> (#[trigger] page_scores(p)[i]).1 == rule_score(p, page_scores(p)[i].0)
                && page_scores(p)[i].1 > 0,
        forall|w: Seq<char>| rule_score(p, w) > 0 ==> exists|i: int| 0 <= i < page_scores(p).len() && (#[trigger] page_scores(p)[i]).0 == w,
{
    let e = Seq::<(Seq<char>, nat)>::empty();
    let s1 = bump_all(e, line_words(line_of(p.title)), 20);
    let s2 = head_scores(p);
    let s3 = bump_all(s2, line_words(selection_texts(p.paragraphs)), 1);
    let s4 = bump_all(s3, line_words(selection_texts(p.h1)), 15);
    let s5 = upper_scores(p);
    let s6 = bump_all(s5, line_words(selection_texts(p.h3)), 7);
    let s7 = bump_all(s6, line_words(selection_texts(p.h4)), 5);
    lemma_bump_all_distinct(e, line_words(line_of(p.title)), 20);
    lemma_bump_all_distinct(s1, line_words(line_of(p.description)), 8);
    lemma_bump_all_distinct(s2, line_words(selection_texts(p.paragraphs)), 1);
    lemma_bump_all_distinct(s3, line_words(selection_texts(p.h1)), 15);
    lemma_bump_all_distinct(s4, line_words(selection_texts(p.h2)), 10);
    lemma_bump_all_distinct(s5, line_words(selection_texts(p.h3)), 7);
    lemma_bump_all_distinct(s6, line_words(selection_texts(p.h4)), 5);
    lemma_bump_all_distinct(s7, line_words(selection_texts(p.h5)), 3);
    lemma_bump_all_positive(e, line_words(line_of(p.title)), 20);
    lemma_bump_all_positive(s1, line_words(line_of(p.description)), 8);
    lemma_bump_all_positive(s2, line_words(selection_texts(p.paragraphs)), 1);
    lemma_bump_all_positive(s3, line_words(selection_texts(p.h1)), 15);
    lemma_bump_all_positive(s4, line_words(selection_texts(p.h2)), 10);
    lemma_bump_all_positive(s5, line_words(selection_texts(p.h3)), 7);
    lemma_bump_all_positive(s6, line_words(selection_texts(p.h4)), 5);
    lemma_bump_all_positive(s7, line_words(selection_texts(p.h5)), 3);
    let r = page_scores(p);
    assert forall|i: int| 0 <= i < r.len() implies (#[trigger] r[i]).1 == rule_score(p, r[i].0) && r[i].1 > 0 by {
        lemma_score_at(r, i);
        lemma_page_scores(p, r[i].0);
    }
    assert forall|w: Seq<char>| rule_score(p, w) > 0 implies exists|i: int| 0 <= i < r.len() && (#[trigger] r[i]).0 == w by {
        lemma_page_scores(p, w);
        lemma_scored_word_present(r, w);
    }
}

/// The scores of the words of a page, by the scoring rule; `None` when a
/// score would not fit a `usize`.
pub fn score_page(p: &PageParts) -> (r: Option<IndexData>)
    requires
        page_scorable(p@),
    ensures
        r is Some <==> scores_fit(page_scores(p@)),
        r matches Some(d) ==> d@ == page_scores(p@) && d.wf(),
        r matches Some(d) ==> forall|w: Seq<char>| #[trigger] score_in(d@, w) == rule_score(p@, w),
{
    let ghost pv = p@;
    let mut d = IndexData::new();
    let ghost e = d@;
    let title_line: Vec<String> = match &p.title {
        Some(Some(t)) => vec![t.clone()],
        _ => Vec::new(),
    };
    assert(views(title_line@) =~= line_of(pv.title));
    if !d.try_incr_score(title_line, 20) {
        proof {
            let s1 = bump_all(e, line_words(line_of(pv.title)), 20);
            lemma_unfit_stays(s1, line_words(line_of(pv.description)), 8);
            lemma_rest_unfit(pv, head_scores(pv));
        }
        return None;
    }
    let description_line: Vec<String> = match &p.description {
        Some(Some(t)) => vec![t.clone()],
        _ => Vec::new(),
    };
    assert(views(description_line@) =~= line_of(pv.description));
    if !d.try_incr_score(description_line, 8) {
        proof {
            lemma_rest_unfit(pv, head_scores(pv));
        }
        return None;
    }
    assert(d@ == head_scores(pv));
    if !d.try_incr_score_selector(&p.paragraphs, 1) {
        proof {
            let s3 = bump_all(head_scores(pv), line_words(selection_texts(pv.paragraphs)), 1);
            let s4 = bump_all(s3, line_words(selection_texts(pv.h1)), 15);
            lemma_unfit_stays(s3, line_words(selection_texts(pv.h1)), 15);
            lemma_unfit_stays(s4, line_words(selection_texts(pv.h2)), 10);
            lemma_upper_unfit(pv);
        }
        return None;
    }
    if !d.try_incr_score_selector(&p.h1, 15) {
        proof {
            let s3 = bump_all(head_scores(pv), line_words(selection_texts(pv.paragraphs)), 1);
            let s4 = bump_all(s3, line_words(selection_texts(pv.h1)), 15);
            lemma_unfit_stays(s4, line_words(selection_texts(pv.h2)), 10);
            lemma_upper_unfit(pv);
        }
        return None;
    }
    if !d.try_incr_score_selector(&p.h2, 10) {
        proof {
            lemma_upper_unfit(pv);
        }
        return None;
    }
    assert(d@ == upper_scores(pv));
    if !d.try_incr_score_selector(&p.h3, 7) {
        proof {
            let s6 = bump_all(upper_scores(pv), line_words(selection_texts(pv.h3)), 7);
            let s7 = bump_all(s6, line_words(selection_texts(pv.h4)), 5);
            lemma_unfit_stays(s6, line_words(selection_texts(pv.h4)), 5);
            lemma_unfit_stays(s7, line_words(selection_texts(pv.h5)), 3);
        }
        return None;
    }
    if !d.try_incr_score_selector(&p.h4, 5) {
        proof {
            let s6 = bump_all(upper_scores(pv), line_words(selection_texts(pv.h3)), 7);
            let s7 = bump_all(s6, line_words(selection_texts(pv.h4)), 5);
            lemma_unfit_stays(s7, line_words(selection_texts(pv.h5)), 3);
        }
        return None;
    }
    if !d.try_incr_score_selector(&p.h5, 3) {
        return None;
    }
    assert(d@ == page_scores(pv));
    proof {
        d.lemma_fits();
        assert forall|w: Seq<char>| #[trigger] score_in(d@, w) == rule_score(pv, w) by {
            lemma_page_scores(pv, w);
        }
    }
    Some(d)
}

/// Once the scores after the title and description do not fit, the page's
/// scores do not either.
proof fn lemma_rest_unfit(p: PageView, head: ScoresView)
    requires
        head == head_scores(p),
        !scores_fit(head),
    ensures
        !scores_fit(page_scores(p)),
{
    let s3 = bump_all(head, line_words(selection_texts(p.paragraphs)), 1);
    let s4 = bump_all(s3, line_words(selection_texts(p.h1)), 15);
    lemma_unfit_stays(head, line_words(selection_texts(p.paragraphs)), 1);
    lemma_unfit_stays(s3, line_words(selection_texts(p.h1)), 15);
    lemma_unfit_stays(s4, line_words(selection_texts(p.h2)), 10);
    lemma_upper_unfit(p);
}

/// Once the scores after the `h2` headings do not fit, the page's scores do
/// not either.
proof fn lemma_upper_unfit(p: PageView)
    requires
        !scores_fit(upper_scores(p)),
    ensures
        !scores_fit(page_scores(p)),
{
    let s6 = bump_all(upper_scores(p), line_words(selection_texts(p.h3)), 7);
    let s7 = bump_all(s6, line_words(selection_texts(p.h4)), 5);
    lemma_unfit_stays(upper_scores(p), line_words(selection_texts(p.h3)), 7);
    lemma_unfit_stays(s6, line_words(selection_texts(p.h4)), 5);
    lemma_unfit_stays(s7, line_words(selection_texts(p.h5)), 3);
}

/// Indexing will not index pages that didn't return a successful 2XX HTTP
/// code: whether the response status `code` lets indexing go on.
pub fn indexable_status(code: u16) -> (ok: bool)
    ensures
        ok == (200 <= code && code < 300),
{
    200 <= code && code < 300
}

// ---------------------------------------------------------------------------
// The record and the links of a page
// ---------------------------------------------------------------------------

/// The title recorded for a page: its title, or `unnamed`.
pub open spec fn recorded_title(p: PageView) -> Seq<char> {
    match p.title {
        Some(Some(t)) => t,
        _ => "unnamed"@,
    }
}

/// The description recorded for a page: its description, or
/// `No description.`.
pub open spec fn recorded_description(p: PageView) -> Seq<char> {
    match p.description {
        Some(Some(t)) => t,
        _ => "No description."@,
    }
}

/// The title and description recorded for a page.
pub fn record_texts(p: &PageParts) -> (r: (String, String))
    ensures
        r.0@ == recorded_title(p@),
        r.1@ == recorded_description(p@),
{
    let title = match &p.title {
        Some(Some(t)) => t.clone(),
        _ => String::from_str("unnamed"),
    };
    let description = match &p.description {
        Some(Some(t)) => t.clone(),
        _ => String::from_str("No description."),
    };
    (title, description)
}

/// The links of a page found from `source`: the absolute form of each
/// `href`, in order, leaving out those that do not parse.
pub open spec fn found_links(source: Seq<char>, links: Seq<Option<Seq<char>>>) -> Seq<Seq<char>>
    decreases links.len(),
{
    if links.len() == 0 {
        Seq::empty()
    } else {
        let prev = found_links(source, links.drop_last());
        match links.last() {
            Some(h) => match formatted_url(source, h) {
                Ok(u) => prev.push(u),
                Err(_) => prev,
            },
            None => prev,
        }
    }
}

/// Whether link `l` has an absolute form from `source`.
pub open spec fn formats(source: Seq<char>, l: Option<Seq<char>>) -> bool {
    l matches Some(h) && formatted_url(source, h) is Ok
}

/// The absolute form of link `l` from `source` (empty when it has none).
pub open spec fn absolute_form(source: Seq<char>, l: Option<Seq<char>>) -> Seq<char> {
    match l {
        Some(h) => match formatted_url(source, h) {
            Ok(u) => u,
            Err(_) => Seq::empty(),
        },
        None => Seq::empty(),
    }
}

/// The links found on a page are exactly its links that have an absolute
/// form, in page order, each in that form: none is left out and none added.
pub proof fn lemma_found_links(source: Seq<char>, links: Seq<Option<Seq<char>>>)
    ensures
        found_links(source, links) == links.filter(|l: Option<Seq<char>>| formats(source, l)).map_values(
            |l: Option<Seq<char>>| absolute_form(source, l),
        ),
        found_links(source, links).len() == links.filter(|l: Option<Seq<char>>| formats(source, l)).len(),
    decreases links.len(),
{
    reveal(Seq::filter);
    let pred = |l: Option<Seq<char>>| formats(source, l);
    let f = |l: Option<Seq<char>>| absolute_form(source, l);
    if links.len() == 0 {
        assert(links.filter(pred) =~= Seq::<Option<Seq<char>>>::empty());
        assert(found_links(source, links) =~= links.filter(pred).map_values(f));
    } else {
        let d = links.drop_last();
        lemma_found_links(source, d);
        let fd = d.filter(pred);
        if formats(source, links.last()) {
            assert(links.filter(pred) == fd.push(links.last()));
            assert(fd.push(links.last()).map_values(f) =~= fd.map_values(f).push(f(links.last())));
        } else {
            assert(links.filter(pred) == fd);
        }
    }
}

/// Every `href` can be put in its absolute form from `source`.
pub open spec fn links_formattable(source: Seq<char>, links: Seq<Option<Seq<char>>>) -> bool {
    forall|i: int| 0 <= i < links.len() ==> (#[trigger] links[i] matches Some(h) ==> url_format_defined(source, h))
}

/// We find other URLs we could index: the links of the page at `source`;
/// `None` when a link would need the host of a source that has none.
pub fn discovered_links(source: &String, p: &PageParts) -> (urls: Option<Vec<String>>)
    ensures
        urls is Some <==> links_formattable(source@, p@.links),
        urls matches Some(u) ==> views(u@) == found_links(source@, p@.links),
{
    let n = p.links.len();
    let ghost ls = p@.links;
    let mut urls: Vec<String> = Vec::new();
    let mut i: usize = 0;
    proof {
        assert(ls.take(0) =~= Seq::<Option<Seq<char>>>::empty());
    }
    while i < n
        invariant
            i <= n,
            n == p.links@.len(),
            ls == p@.links,
            ls.len() == n,
            views(urls@) == found_links(source@, ls.take(i as int)),
            links_formattable(source@, ls.take(i as int)),
        decreases n - i,
    {
        proof {
            assert(ls.take(i + 1).drop_last() =~= ls.take(i as int));
            assert(ls.take(i + 1).last() == opt_view(p.links@[i as int]));
            assert(ls[i as int] == opt_view(p.links@[i as int]));
        }
        match &p.links[i] {
            Some(h) => {
                match QueueBot::try_ensure_url_format(source.clone(), h.clone()) {
                    None => {
                        proof {
                            assert(ls[i as int] matches Some(x) && !url_format_defined(source@, x));
                        }
                        return None;
                    },
                    Some(Ok(u)) => {
                        let ghost before = views(urls@);
                        urls.push(u);
                        assert(views(urls@) =~= before.push(urls@[urls@.len() - 1]@));
                    },
                    Some(Err(_)) => {},
                }
            },
            None => {},
        }
        proof {
            assert forall|k: int| 0 <= k < i + 1 implies (#[trigger] ls.take(i + 1)[k] matches Some(h)
                ==> url_format_defined(source@, h)) by {
                if k < i {
                    assert(ls.take(i + 1)[k] == ls.take(i as int)[k]);
                }
            }
        }
        i = i + 1;
    }
    proof {
        assert(ls.take(n as int) =~= ls);
    }
    Some(urls)
}

} // verus!
