//! Indexing of pages: word scoring, text extraction and the URL queue.
use vstd::prelude::*;
use vstd::string::*;
use crate::data_pool::DataPool;
use crate::indexer::scoring::{
    bump, bump_all, lemma_bump_all_distinct, lemma_bump_all_prefix, lemma_bump_grows,
    lemma_line_words_concat, lemma_word_position, line_words, scores_fit, word_position,
    words_distinct, ScoresView,
};
use crate::sanitize::{nonempty_pieces, sanitize_string, sanitized};
use crate::text::views;
use crate::url_parts::{
    join_url, parse_url, percent_decode, percent_decoded, rewrite_host_and_scheme, url_joined, url_parse,
    url_with_host_and_scheme, UrlParseError, UrlPartsView,
};

verus! {

broadcast use vstd::string::group_string_axioms;

// ---------------------------------------------------------------------------
// Text of an element
// ---------------------------------------------------------------------------

/// An element, as text extraction reads it: the nodes of its subtree (the
/// element itself and all its descendants, at any depth) in document order,
/// each given by its text when it is a text node and by the empty text
/// otherwise.
pub type ElementNodes = Vec<String>;

/// Every non-empty text node of an element, in document order.
pub open spec fn all_texts(nodes: Seq<Seq<char>>) -> Seq<Seq<char>> {
    nonempty_pieces(nodes)
}

/// Extract all texts from a root element: every non-empty text node of its
/// subtree, in document order.
pub fn get_all_texts(from: &ElementNodes) -> (texts: Vec<String>)
    ensures
        views(texts@) == all_texts(views(from@)),
{
    let n = from.len();
    let ghost ns = views(from@);
    let mut texts: Vec<String> = Vec::new();
    let mut i: usize = 0;
    proof {
        assert(ns.take(0) =~= Seq::<Seq<char>>::empty());
    }
    while i < n
        invariant
            i <= n,
            n == ns.len(),
            ns == views(from@),
            views(texts@) == nonempty_pieces(ns.take(i as int)),
        decreases n - i,
    {
        proof {
            assert(ns.take(i + 1).drop_last() =~= ns.take(i as int));
            assert(ns.take(i + 1).last() == from@[i as int]@);
        }
        if !from[i].as_str().is_empty() {
            let ghost before = views(texts@);
            texts.push(from[i].clone());
            assert(views(texts@) =~= before.push(from@[i as int]@));
        }
        i = i + 1;
    }
    proof {
        assert(ns.take(n as int) =~= ns);
    }
    texts
}

/// The nodes of each selected element, as texts.
pub open spec fn selection_view(sel: Seq<ElementNodes>) -> Seq<Seq<Seq<char>>> {
    sel.map_values(|e: ElementNodes| views(e@))
}

/// The texts of every selected element, element after element.
pub open spec fn selection_texts(sel: Seq<Seq<Seq<char>>>) -> Seq<Seq<char>>
    decreases sel.len(),
{
    if sel.len() == 0 {
        Seq::empty()
    } else {
        selection_texts(sel.drop_last()) + all_texts(sel.last())
    }
}

/// The texts of every selected element, element after element.
pub fn selection_content(selected: &Vec<ElementNodes>) -> (content: Vec<String>)
    ensures
        views(content@) == selection_texts(selection_view(selected@)),
{
    let n = selected.len();
    let ghost sv = selection_view(selected@);
    let mut content: Vec<String> = Vec::new();
    let mut i: usize = 0;
    proof {
        assert(sv.take(0) =~= Seq::<Seq<Seq<char>>>::empty());
    }
    while i < n
        invariant
            i <= n,
            n == selected@.len(),
            sv == selection_view(selected@),
            views(content@) == selection_texts(sv.take(i as int)),
        decreases n - i,
    {
        let mut texts = get_all_texts(&selected[i]);
        let ghost before = views(content@);
        let ghost added = views(texts@);
        content.append(&mut texts);
        proof {
            assert(sv.take(i + 1).drop_last() =~= sv.take(i as int));
            assert(sv.take(i + 1).last() == views(selected@[i as int]@));
            assert(views(content@) =~= before + added);
        }
        i = i + 1;
    }
    proof {
        assert(sv.take(n as int) =~= sv);
    }
    content
}

// ---------------------------------------------------------------------------
// Word scores
// ---------------------------------------------------------------------------

/// Indexing data, before it can be stored on the database: the score of each
/// word met so far.
pub struct IndexData {
    words: Vec<(String, usize)>,
}

impl View for IndexData {
    type V = ScoresView;

    closed spec fn view(&self) -> ScoresView {
        self.words@.map_values(|e: (String, usize)| (e.0@, e.1 as nat))
    }
}

impl IndexData {
    /// No word has two scores.
    pub open spec fn wf(&self) -> bool {
        words_distinct(self@)
    }

    /// No word scored yet.
    pub fn new() -> (d: Self)
        ensures
            d@ == Seq::<(Seq<char>, nat)>::empty(),
            d.wf(),
    {
        let d = IndexData { words: Vec::new() };
        assert(d@ =~= Seq::<(Seq<char>, nat)>::empty());
        d
    }

    /// The number of words scored.
    pub fn len(&self) -> (n: usize)
        ensures
            n == self@.len(),
    {
        self.words.len()
    }

    /// Word `i` and its score.
    pub fn entry_at(&self, i: usize) -> (e: (&String, usize))
        requires
            i < self@.len(),
        ensures
            e.0@ == self@[i as int].0,
            e.1 as nat == self@[i as int].1,
    {
        (&self.words[i].0, self.words[i].1)
    }

    /// The position of `w`, when it has a score.
    fn position(&self, w: &String) -> (r: Option<usize>)
        ensures
            match r {
                Some(i) => i as int == word_position(self@, w@),
                None => word_position(self@, w@) < 0,
            },
    {
        let n = self.words.len();
        let mut i: usize = 0;
        while i < n
            invariant
                i <= n,
                n == self@.len(),
                forall|j: int| 0 <= j < i ==> self@[j].0 != w@,
            decreases n - i,
        {
            if self.words[i].0 == *w {
                proof {
                    lemma_word_position(self@, w@);
                    assert(self@[i as int].0 == w@);
                }
                return Some(i);
            }
            assert(self@[i as int].0 != w@);
            i = i + 1;
        }
        proof {
            lemma_word_position(self@, w@);
            if word_position(self@, w@) >= 0 {
                assert(self@[word_position(self@, w@)].0 == w@);
            }
        }
        None
    }

    /// Scores one occurrence of `w` at `rate`, unless the score would not fit
    /// a `usize`, in which case nothing changes.
    fn checked_bump(&mut self, w: &String, rate: usize) -> (ok: bool)
        ensures
            ok == scores_fit(bump(old(self)@, w@, rate as nat)),
            ok ==> final(self)@ == bump(old(self)@, w@, rate as nat),
            !ok ==> final(self)@ == old(self)@,
    {
        proof {
            lemma_word_position(self@, w@);
            self.lemma_fits();
        }
        match self.position(w) {
            Some(i) => {
                let (word, count) = self.words.remove(i);
                if count > usize::MAX - rate {
                    self.words.insert(i, (word, count));
                    assert(self@ =~= old(self)@);
                    assert(bump(old(self)@, w@, rate as nat)[i as int].1 > usize::MAX);
                    return false;
                }
                self.words.insert(i, (word, count + rate));
                assert(self@ =~= bump(old(self)@, w@, rate as nat));
                proof {
                    if scores_fit(old(self)@) {
                        assert forall|k: int| 0 <= k < self@.len() implies #[trigger] self@[k].1 <= usize::MAX by {
                            if k != i {
                                assert(self@[k] == old(self)@[k]);
                            }
                        }
                    }
                }
                true
            },
            None => {
                self.words.push((w.clone(), rate));
                assert(self@ =~= bump(old(self)@, w@, rate as nat));
                proof {
                    if scores_fit(old(self)@) {
                        assert forall|k: int| 0 <= k < self@.len() implies #[trigger] self@[k].1 <= usize::MAX by {
                            if k < old(self)@.len() {
                                assert(self@[k] == old(self)@[k]);
                            }
                        }
                    }
                }
                true
            },
        }
    }

    /// Increase a word score from a string vec and a multiplier: every word
    /// of every line gets `rate` more, once per occurrence.
    pub fn incr_score(&mut self, lines: Vec<String>, rate: usize)
        requires
            scores_fit(bump_all(old(self)@, line_words(views(lines@)), rate as nat)),
        ensures
            final(self)@ == bump_all(old(self)@, line_words(views(lines@)), rate as nat),
            old(self).wf() ==> final(self).wf(),
    {
        let ghost all = line_words(views(lines@));
        let ghost start = self@;
        let n = lines.len();
        let mut i: usize = 0;
        proof {
            assert(views(lines@).take(0) =~= Seq::<Seq<char>>::empty());
            assert(bump_all(start, Seq::<Seq<char>>::empty(), rate as nat) == start);
            if words_distinct(start) {
                lemma_bump_all_distinct(start, all, rate as nat);
            }
        }
        while i < n
            invariant
                i <= n,
                n == lines@.len(),
                all == line_words(views(lines@)),
                scores_fit(bump_all(start, all, rate as nat)),
                self@ == bump_all(start, line_words(views(lines@).take(i as int)), rate as nat),
                words_distinct(start) ==> words_distinct(self@),
            decreases n - i,
        {
            let words = sanitize_string(lines[i].as_str());
            let ghost done = line_words(views(lines@).take(i as int));
            let ghost ws = views(words@);
            proof {
                assert(views(lines@).take(i + 1).drop_last() =~= views(lines@).take(i as int));
                assert(views(lines@)[i as int] == lines@[i as int]@);
                assert(line_words(views(lines@).take(i + 1)) == done + ws);
                lemma_line_words_concat(views(lines@).take(i + 1), views(lines@).skip(i + 1));
                assert(views(lines@).take(i + 1) + views(lines@).skip(i + 1) =~= views(lines@));
                assert(all == done + ws + line_words(views(lines@).skip(i + 1)));
                assert((done + ws).take(done.len() as int) =~= done);
            }
            let m = words.len();
            let mut j: usize = 0;
            while j < m
                invariant
                    j <= m,
                    m == ws.len(),
                    ws == views(words@),
                    all == done + ws + line_words(views(lines@).skip(i + 1)),
                    scores_fit(bump_all(start, all, rate as nat)),
                    self@ == bump_all(start, (done + ws).take(done.len() + j), rate as nat),
                    words_distinct(start) ==> words_distinct(self@),
                decreases m - j,
            {
                let ghost k = done.len() + j;
                proof {
                    assert(all.take(k + 1) =~= (done + ws).take(k + 1));
                    assert((done + ws).take(k + 1).drop_last() =~= (done + ws).take(k));
                    assert((done + ws).take(k + 1).last() == ws[j as int]);
                    assert(ws[j as int] == words@[j as int]@);
                    lemma_bump_all_prefix(start, all, k + 1, rate as nat);
                    let cur = bump_all(start, (done + ws).take(k + 1), rate as nat);
                    assert forall|q: int| 0 <= q < cur.len() implies #[trigger] cur[q].1 <= usize::MAX by {
                        assert(cur[q].1 <= bump_all(start, all, rate as nat)[q].1);
                    }
                    lemma_bump_grows(self@, ws[j as int], rate as nat);
                    assert forall|q: int| 0 <= q < self@.len() implies #[trigger] self@[q].1 <= usize::MAX by {
                        assert(self@[q].1 <= cur[q].1);
                    }
                }
                let ok = self.checked_bump(&words[j], rate);
                proof {
                    assert(ok);
                }
                j = j + 1;
            }
            proof {
                assert((done + ws).take(done.len() + m) =~= done + ws);
            }
            i = i + 1;
        }
        proof {
            assert(views(lines@).take(n as int) =~= views(lines@));
        }
    }

    /// A copy of these scores.
    pub fn duplicate(&self) -> (d: Self)
        ensures
            d@ == self@,
    {
        let n = self.words.len();
        let mut words: Vec<(String, usize)> = Vec::new();
        let mut i: usize = 0;
        while i < n
            invariant
                i <= n,
                n == self@.len(),
                words@.len() == i,
                forall|k: int| 0 <= k < i ==> (#[trigger] words@[k]).0@ == self@[k].0 && words@[k].1 as nat == self@[k].1,
            decreases n - i,
        {
            words.push((self.words[i].0.clone(), self.words[i].1));
            i = i + 1;
        }
        let d = IndexData { words };
        assert(d@ =~= self@);
        d
    }

    /// Whether scoring the words of `lines` at `rate` keeps every score
    /// within a `usize`.
    pub fn fits_after(&self, lines: &Vec<String>, rate: usize) -> (ok: bool)
        ensures
            ok == scores_fit(bump_all(self@, line_words(views(lines@)), rate as nat)),
    {
        let ghost all = line_words(views(lines@));
        let mut scratch = self.duplicate();
        proof {
            self.lemma_fits();
        }
        let n = lines.len();
        let mut i: usize = 0;
        proof {
            assert(views(lines@).take(0) =~= Seq::<Seq<char>>::empty());
        }
        while i < n
            invariant
                i <= n,
                n == lines@.len(),
                all == line_words(views(lines@)),
                scratch@ == bump_all(self@, line_words(views(lines@).take(i as int)), rate as nat),
                scores_fit(self@) ==> scores_fit(scratch@),
            decreases n - i,
        {
            let words = sanitize_string(lines[i].as_str());
            let ghost done = line_words(views(lines@).take(i as int));
            let ghost ws = views(words@);
            proof {
                assert(views(lines@).take(i + 1).drop_last() =~= views(lines@).take(i as int));
                assert(views(lines@)[i as int] == lines@[i as int]@);
                assert(line_words(views(lines@).take(i + 1)) == done + ws);
                assert((done + ws).take(done.len() as int) =~= done);
            }
            let m = words.len();
            let mut j: usize = 0;
            while j < m
                invariant
                    j <= m,
                    m == ws.len(),
                    ws == views(words@),
                    i < n,
                    n == lines@.len(),
                    done == line_words(views(lines@).take(i as int)),
                    line_words(views(lines@).take(i + 1)) == done + ws,
                    all == line_words(views(lines@)),
                    scratch@ == bump_all(self@, (done + ws).take(done.len() + j), rate as nat),
                    scores_fit(self@) ==> scores_fit(scratch@),
                decreases m - j,
            {
                let ghost k = done.len() + j;
                proof {
                    assert((done + ws).take(k + 1).drop_last() =~= (done + ws).take(k));
                    assert((done + ws).take(k + 1).last() == ws[j as int]);
                    assert(ws[j as int] == words@[j as int]@);
                }
                if !scratch.checked_bump(&words[j], rate) {
                    proof {
                        // The full scoring is at least the failing step.
                        lemma_line_words_concat(views(lines@).take(i + 1), views(lines@).skip(i + 1));
                        assert(views(lines@).take(i + 1) + views(lines@).skip(i + 1) =~= views(lines@));
                        assert(all == done + ws + line_words(views(lines@).skip(i + 1)));
                        assert(all.take(k + 1) =~= (done + ws).take(k + 1));
                        lemma_bump_all_prefix(self@, all, k + 1, rate as nat);
                        let failing = bump_all(self@, all.take(k + 1), rate as nat);
                        if scores_fit(self@) {
                            assert(!scores_fit(failing));
                            let q = choose|q: int| 0 <= q < failing.len() && !(#[trigger] failing[q].1 <= usize::MAX);
                            assert(failing[q].1 <= bump_all(self@, all, rate as nat)[q].1);
                            assert(!scores_fit(bump_all(self@, all, rate as nat)));
                        } else {
                            lemma_bump_all_prefix(self@, all, 0, rate as nat);
                            assert(all.take(0) =~= Seq::<Seq<char>>::empty());
                            let q = choose|q: int| 0 <= q < self@.len() && !(#[trigger] self@[q].1 <= usize::MAX);
                            assert(self@[q].1 <= bump_all(self@, all, rate as nat)[q].1);
                        }
                    }
                    return false;
                }
                j = j + 1;
            }
            proof {
                assert((done + ws).take(done.len() + m) =~= done + ws);
            }
            i = i + 1;
        }
        proof {
            assert(views(lines@).take(n as int) =~= views(lines@));
            if !scores_fit(self@) {
                assert(!scores_fit(scratch@)) by {
                    lemma_bump_all_prefix(self@, all, 0, rate as nat);
                    assert(all.take(0) =~= Seq::<Seq<char>>::empty());
                    let q = choose|q: int| 0 <= q < self@.len() && !(#[trigger] self@[q].1 <= usize::MAX);
                    assert(self@[q].1 <= scratch@[q].1);
                }
            }
        }
        proof {
            scratch.lemma_fits();
        }
        true
    }

    /// Scores the words of `lines` at `rate` when every resulting score fits
    /// a `usize` (then `true`); otherwise leaves the scores unchanged and
    /// gives `false`.
    pub fn try_incr_score(&mut self, lines: Vec<String>, rate: usize) -> (ok: bool)
        ensures
            ok == scores_fit(bump_all(old(self)@, line_words(views(lines@)), rate as nat)),
            ok ==> final(self)@ == bump_all(old(self)@, line_words(views(lines@)), rate as nat),
            !ok ==> final(self)@ == old(self)@,
            old(self).wf() ==> final(self).wf(),
    {
        if self.fits_after(&lines, rate) {
            self.incr_score(lines, rate);
            true
        } else {
            false
        }
    }

    /// Increase scores from the elements a selector picked (each given by its
    /// children): every text of every element is scored at `rate`.
    pub fn incr_score_selector(&mut self, selected: &Vec<ElementNodes>, rate: usize)
        requires
            scores_fit(bump_all(old(self)@, line_words(selection_texts(selection_view(selected@))), rate as nat)),
        ensures
            final(self)@ == bump_all(old(self)@, line_words(selection_texts(selection_view(selected@))), rate as nat),
            old(self).wf() ==> final(self).wf(),
    {
        let content = selection_content(selected);
        self.incr_score(content, rate);
    }

    /// Scores the elements a selector picked at `rate` when every resulting
    /// score fits a `usize` (then `true`); otherwise leaves the scores
    /// unchanged and gives `false`.
    pub fn try_incr_score_selector(&mut self, selected: &Vec<ElementNodes>, rate: usize) -> (ok: bool)
        ensures
            ok == scores_fit(bump_all(old(self)@, line_words(selection_texts(selection_view(selected@))), rate as nat)),
            ok ==> final(self)@ == bump_all(old(self)@, line_words(selection_texts(selection_view(selected@))), rate as nat),
            !ok ==> final(self)@ == old(self)@,
            old(self).wf() ==> final(self).wf(),
    {
        let content = selection_content(selected);
        if self.fits_after(&content, rate) {
            self.incr_score_selector(selected, rate);
            true
        } else {
            false
        }
    }

    /// Every score held fits a `usize`.
    pub proof fn lemma_fits(&self)
        ensures
            scores_fit(self@),
    {
    }
}

// ---------------------------------------------------------------------------
// URL queue
// ---------------------------------------------------------------------------

/// What `ensure_url_format` gives: the absolute form of `url`, resolved
/// against `source` when it is relative, percent-decoded; or why `source` or
/// `url` does not parse.
pub open spec fn formatted_url(source: Seq<char>, url: Seq<char>) -> Result<Seq<char>, UrlParseError> {
    match url_parse(source) {
        Err(e) => Err(e),
        Ok(s) => match url_parse(url) {
            Ok(u) => Ok(
                percent_decoded(
                    if u.domain is None {
                        url_with_host_and_scheme(url, s.host->0, s.scheme)
                    } else {
                        u.serialization
                    },
                ),
            ),
            Err(UrlParseError::RelativeUrlWithoutBase) => match url_joined(source, url) {
                Err(e) => Err(e),
                Ok(j) => Ok(percent_decoded(j)),
            },
            Err(e) => Err(e),
        },
    }
}

/// `ensure_url_format` does not fail on these arguments: when `url` parses
/// without a domain, `source` parses with a host.
pub open spec fn url_format_defined(source: Seq<char>, url: Seq<char>) -> bool {
    match (url_parse(source), url_parse(url)) {
        (Ok(s), Ok(u)) => u.domain is None ==> s.host is Some,
        _ => true,
    }
}

pub open spec fn result_view(r: Result<String, UrlParseError>) -> Result<Seq<char>, UrlParseError> {
    match r {
        Ok(s) => Ok(s@),
        Err(e) => Err(e),
    }
}

/// The indexer's URL queue: URLs leave it in the order they were queued.
pub struct QueueBot {
    pub data_pool: DataPool<String>,
    /// While paused, the bot indexes nothing and the queue keeps its URLs.
    pub is_paused: bool,
}

/// What the queue bot does next.
pub enum QueueBotAction {
    /// The bot is paused: wait, then look again. The queue is left as it is.
    Wait,
    /// Index this URL.
    Index(String),
    /// Nothing queued: look again.
    Idle,
}

/// What the queue bot does in one turn, by the URL's view.
pub enum ActionView {
    Wait,
    Index(Seq<char>),
    Idle,
}

/// The action by its view.
pub open spec fn action_view(a: QueueBotAction) -> ActionView {
    match a {
        QueueBotAction::Wait => ActionView::Wait,
        QueueBotAction::Index(u) => ActionView::Index(u@),
        QueueBotAction::Idle => ActionView::Idle,
    }
}

/// One turn of the queue bot on the queue `q`: the queue after it and the
/// action taken.
pub open spec fn queue_turn(q: Seq<Seq<char>>, paused: bool) -> (Seq<Seq<char>>, ActionView) {
    if paused {
        (q, ActionView::Wait)
    } else if q.len() == 0 {
        (q, ActionView::Idle)
    } else {
        (q.drop_first(), ActionView::Index(q[0]))
    }
}

/// `k` turns of the queue bot on the queue `q`, with nothing queued
/// meanwhile: the queue after them and the actions taken, in order.
pub open spec fn queue_run(q: Seq<Seq<char>>, paused: bool, k: nat) -> (Seq<Seq<char>>, Seq<ActionView>)
    decreases k,
{
    if k == 0 {
        (q, Seq::empty())
    } else {
        let prev = queue_run(q, paused, (k - 1) as nat);
        let next = queue_turn(prev.0, paused);
        (next.0, prev.1.push(next.1))
    }
}

/// The queue loop: while running, `k` turns index the queued URLs once
/// each, in the order they were queued, taking each off the queue, and then
/// stay idle; while paused, they only wait, and the queue keeps every URL.
pub proof fn lemma_queue_run(q: Seq<Seq<char>>, k: nat)
    ensures
        queue_run(q, false, k).1 == Seq::new(
            k,
            |i: int|
                if i < q.len() {
                    ActionView::Index(q[i])
                } else {
                    ActionView::Idle
                },
        ),
        queue_run(q, false, k).0 == if k <= q.len() {
            q.skip(k as int)
        } else {
            Seq::<Seq<char>>::empty()
        },
        queue_run(q, true, k) == (q, Seq::new(k, |i: int| ActionView::Wait)),
    decreases k,
{
    if k > 0 {
        let k1 = (k - 1) as nat;
        lemma_queue_run(q, k1);
        let prev = queue_run(q, false, k1);
        if k1 < q.len() {
            assert(prev.0 == q.skip(k1 as int));
            assert(prev.0[0] == q[k1 as int]);
            assert(prev.0.drop_first() =~= q.skip(k as int));
        } else {
            if k1 == q.len() {
                assert(q.skip(k1 as int) =~= Seq::<Seq<char>>::empty());
            }
        }
        assert(queue_run(q, false, k).1 =~= Seq::new(
            k,
            |i: int|
                if i < q.len() {
                    ActionView::Index(q[i])
                } else {
                    ActionView::Idle
                },
        ));
        assert(queue_run(q, true, k).1 =~= Seq::new(k, |i: int| ActionView::Wait));
    } else {
        assert(q.skip(0) =~= q);
        assert(queue_run(q, false, 0).1 =~= Seq::new(
            0,
            |i: int|
                if i < q.len() {
                    ActionView::Index(q[i])
                } else {
                    ActionView::Idle
                },
        ));
        assert(queue_run(q, true, 0).1 =~= Seq::new(0, |i: int| ActionView::Wait));
    }
}

impl QueueBot {
    /// The URLs waiting, front first.
    pub open spec fn queued(&self) -> Seq<Seq<char>> {
        views(self.data_pool@)
    }

    /// An empty, running queue.
    pub fn init() -> (bot: Self)
        ensures
            bot.queued() == Seq::<Seq<char>>::empty(),
            !bot.is_paused,
    {
        let bot = QueueBot { data_pool: DataPool::init(), is_paused: false };
        assert(bot.queued() =~= Seq::<Seq<char>>::empty());
        bot
    }

    /// The URLs waiting, front first.
    pub fn get_remaining_urls(&self) -> (urls: Vec<String>)
        ensures
            views(urls@) == self.queued(),
    {
        self.data_pool.get_content()
    }

    /// This function MUST be called when auto-queuing to ensure only correcly
    /// formatted URLs are submitted.
    /// The source parameter is used to ensure that relative URLs gets their
    /// absolute definition before being submitted to the queue.
    /// A relative link is resolved against the source; an absolute one
    /// without a domain (an IP address, say) takes the source's host and
    /// scheme.
    pub fn ensure_url_format(source: String, url: String) -> (r: Result<String, UrlParseError>)
        requires
            url_format_defined(source@, url@),
        ensures
            result_view(r) == formatted_url(source@, url@),
    {
        let source_url = parse_url(source.as_str())?;
        let out = match parse_url(url.as_str()) {
            Ok(parsed) => match parsed.domain {
                None => {
                    let host = match source_url.host {
                        Some(h) => h,
                        None => {
                            return Err(UrlParseError::Other);  // unreachable: see the requires
                        },
                    };
                    rewrite_host_and_scheme(url.as_str(), host.as_str(), source_url.scheme.as_str())
                },
                Some(_) => parsed.serialization,
            },
            Err(UrlParseError::RelativeUrlWithoutBase) => join_url(source.as_str(), url.as_str())?,
            Err(e) => {
                return Err(e);
            },
        };
        Ok(percent_decode(out.as_str()))
    }

    /// `ensure_url_format`, where it is defined; `None` where an absolute
    /// link without a domain would need the source's host and the source has
    /// none.
    pub fn try_ensure_url_format(source: String, url: String) -> (r: Option<Result<String, UrlParseError>>)
        ensures
            match r {
                Some(res) => url_format_defined(source@, url@) && result_view(res) == formatted_url(source@, url@),
                None => !url_format_defined(source@, url@),
            },
    {
        let s = parse_url(source.as_str());
        let u = parse_url(url.as_str());
        match (s, u) {
            (Ok(sp), Ok(up)) => {
                if up.domain.is_none() && sp.host.is_none() {
                    return None;
                }
            },
            _ => {},
        }
        Some(Self::ensure_url_format(source, url))
    }

    /// Queues every URL of `urls`, in order.
    pub fn queue_url(&mut self, urls: Vec<String>)
        ensures
            final(self).queued() == old(self).queued() + views(urls@),
            final(self).is_paused == old(self).is_paused,
    {
        self.data_pool.add_batch(urls);
    }

    /// One turn of the indexing loop: while paused, waits and leaves the
    /// queue as it is; otherwise takes the next URL, if any, to index it.
    pub fn next_action(&mut self) -> (a: QueueBotAction)
        ensures
            final(self).is_paused == old(self).is_paused,
            old(self).is_paused ==> a is Wait && final(self).queued() == old(self).queued(),
            !old(self).is_paused && old(self).queued().len() == 0 ==> a is Idle && final(self).queued() == old(self).queued(),
            !old(self).is_paused && old(self).queued().len() > 0 ==> (a matches QueueBotAction::Index(u) && u@ == old(self).queued()[0])
                && final(self).queued() == old(self).queued().drop_first(),
            (final(self).queued(), action_view(a)) == queue_turn(old(self).queued(), old(self).is_paused),
    {
        if self.is_paused {
            return QueueBotAction::Wait;
        }
        let url = self.data_pool.get_next();
        proof {
            if old(self).queued().len() > 0 {
                assert(self.queued() =~= old(self).queued().drop_first());
            }
        }
        match url {
            Some(u) => QueueBotAction::Index(u),
            None => QueueBotAction::Idle,
        }
    }
}

} // verus!
