//! Sitemaps: reading them, and the bot that walks them.
//!
//! Goes through a sitemap and index content of websites depending on those
//! sitemaps. If a sitemap links to another sitemap, this other sitemap will
//! be analyzed. If a sitemap references other sitemaps, it means that this
//! sitemap is an index.
use vstd::prelude::*;
use vstd::string::*;
use crate::text::{chars_of, views};

verus! {

broadcast use vstd::string::group_string_axioms;

/// An XML event, as far as the sitemap reader looks at it.
pub enum SitemapXmlEvent {
    /// An element starts.
    Start,
    /// An element ends.
    End,
    /// Character data.
    Characters(String),
    /// Anything else (declaration, whitespace, comment, ...).
    Other,
}

/// The abstract XML events.
pub enum SitemapEventView {
    Start,
    End,
    Characters(Seq<char>),
    Other,
}

impl View for SitemapXmlEvent {
    type V = SitemapEventView;

    open spec fn view(&self) -> SitemapEventView {
        match self {
            SitemapXmlEvent::Start => SitemapEventView::Start,
            SitemapXmlEvent::End => SitemapEventView::End,
            SitemapXmlEvent::Characters(s) => SitemapEventView::Characters(s@),
            SitemapXmlEvent::Other => SitemapEventView::Other,
        }
    }
}

pub open spec fn event_views(v: Seq<SitemapXmlEvent>) -> Seq<SitemapEventView> {
    v.map_values(|e: SitemapXmlEvent| e@)
}

/// What `xml::EventReader` gives for a document: its events, in order, or
/// `None` when the reader reports an error.
pub uninterp spec fn sitemap_events(data: Seq<char>) -> Option<Seq<SitemapEventView>>;

/// Reads the events of `data` with `xml::EventReader` (default configuration)
/// until the end of the document, telling apart start tags, end tags and
/// character data. The contract claims only that the result is the named
/// event list of the document, a function of the document alone; how XML is
/// read is left unsaid.
#[verifier::external_body]
fn xml_events(data: &str) -> (r: Option<Vec<SitemapXmlEvent>>)
    ensures
        match r {
            Some(v) => sitemap_events(data@) == Some(event_views(v@)),
            None => sitemap_events(data@) is None,
        },
{
    let mut out = Vec::new();
    for ev in xml::EventReader::new(data.as_bytes()) {
        match ev {
            Ok(xml::reader::XmlEvent::StartElement { .. }) => out.push(SitemapXmlEvent::Start),
            Ok(xml::reader::XmlEvent::EndElement { .. }) => out.push(SitemapXmlEvent::End),
            Ok(xml::reader::XmlEvent::Characters(text)) => out.push(SitemapXmlEvent::Characters(text)),
            Ok(_) => out.push(SitemapXmlEvent::Other),
            Err(_) => return None,
        }
    }
    Some(out)
}

/// `s` ends with `suffix`.
pub open spec fn ends_with(s: Seq<char>, suffix: Seq<char>) -> bool {
    s.len() >= suffix.len() && s.skip(s.len() - suffix.len()) == suffix
}

/// Whether `s` ends with `suffix`.
pub fn text_ends_with(s: &str, suffix: &str) -> (b: bool)
    ensures
        b == ends_with(s@, suffix@),
{
    let a = chars_of(s);
    let b = chars_of(suffix);
    if a.len() < b.len() {
        return false;
    }
    let off = a.len() - b.len();
    let mut i: usize = 0;
    while i < b.len()
        invariant
            i <= b@.len(),
            off + b@.len() == a@.len(),
            a@.len() == a.len(),
            a@ == s@,
            b@ == suffix@,
            forall|k: int| 0 <= k < i ==> a@[off + k] == b@[k],
        decreases b@.len() - i,
    {
        let k = off + i;
        if a[k] != b[i] {
            assert(s@.skip(off as int)[i as int] != suffix@[i as int]);
            return false;
        }
        i = i + 1;
    }
    assert(s@.skip(off as int) =~= suffix@);
    true
}

pub open spec fn gz_suffix() -> Seq<char> {
    seq!['.', 'g', 'z']
}

pub open spec fn xml_suffix() -> Seq<char> {
    seq!['.', 'x', 'm', 'l']
}

/// Character data that names a sitemap (it ends with `.gz` or `.xml`).
pub open spec fn names_sitemap(d: Seq<char>) -> bool {
    ends_with(d, gz_suffix()) || ends_with(d, xml_suffix())
}

/// The character data of the events, in order.
pub open spec fn sitemap_urls(evs: Seq<SitemapEventView>) -> Seq<Seq<char>>
    decreases evs.len(),
{
    if evs.len() == 0 {
        Seq::empty()
    } else {
        match evs.last() {
            SitemapEventView::Characters(d) => sitemap_urls(evs.drop_last()).push(d),
            _ => sitemap_urls(evs.drop_last()),
        }
    }
}

/// Some character data of the events names a sitemap.
pub open spec fn sitemap_is_index(evs: Seq<SitemapEventView>) -> bool
    decreases evs.len(),
{
    if evs.len() == 0 {
        false
    } else {
        sitemap_is_index(evs.drop_last()) || match evs.last() {
            SitemapEventView::Characters(d) => names_sitemap(d),
            _ => false,
        }
    }
}

/// What was read of a sitemap: every text it holds, and whether it is an
/// index of other sitemaps.
pub struct SitemapDefinition {
    pub outgoing_urls: Vec<String>,
    pub is_index: bool,
}

/// Where a sitemap is to be read from, by the end of its URL.
#[derive(PartialEq, Eq, Structural, Clone, Copy, Debug)]
pub enum SitemapSource {
    /// An XML document (`.xml`).
    Xml,
    /// A gzipped tarball of XML documents (`.tar.gz`).
    TarGz,
    /// Anything else: not read.
    Unsupported,
}

impl SitemapDefinition {
    /// How a sitemap at `url` is read: XML when it ends with `.xml`, tarball
    /// when it ends with `.tar.gz`, not at all otherwise.
    pub fn source_of(url: &str) -> (k: SitemapSource)
        ensures
            k == if ends_with(url@, xml_suffix()) {
                SitemapSource::Xml
            } else if ends_with(url@, seq!['.', 't', 'a', 'r', '.', 'g', 'z']) {
                SitemapSource::TarGz
            } else {
                SitemapSource::Unsupported
            },
    {
        proof {
            reveal_strlit(".xml");
            reveal_strlit(".tar.gz");
            assert(".xml"@ =~= xml_suffix());
            assert(".tar.gz"@ =~= seq!['.', 't', 'a', 'r', '.', 'g', 'z']);
        }
        if text_ends_with(url, ".xml") {
            SitemapSource::Xml
        } else if text_ends_with(url, ".tar.gz") {
            SitemapSource::TarGz
        } else {
            SitemapSource::Unsupported
        }
    }

    /// Reads the events of a sitemap document.
    pub fn from_events(events: &Vec<SitemapXmlEvent>) -> (def: Self)
        ensures
            views(def.outgoing_urls@) == sitemap_urls(event_views(events@)),
            def.is_index == sitemap_is_index(event_views(events@)),
    {
        let ghost evs = event_views(events@);
        let n = events.len();
        let mut def = SitemapDefinition { outgoing_urls: Vec::new(), is_index: false };
        let mut i: usize = 0;
        proof {
            reveal_strlit(".gz");
            reveal_strlit(".xml");
            assert(".gz"@ =~= gz_suffix());
            assert(".xml"@ =~= xml_suffix());
            assert(evs.take(0) =~= Seq::<SitemapEventView>::empty());
            assert(views(def.outgoing_urls@) =~= Seq::<Seq<char>>::empty());
        }
        while i < n
            invariant
                i <= n,
                n == evs.len(),
                evs == event_views(events@),
                views(def.outgoing_urls@) == sitemap_urls(evs.take(i as int)),
                def.is_index == sitemap_is_index(evs.take(i as int)),
                ".gz"@ == gz_suffix(),
                ".xml"@ == xml_suffix(),
            decreases n - i,
        {
            proof {
                assert(evs.take(i + 1).drop_last() =~= evs.take(i as int));
                assert(evs.take(i + 1).last() == events@[i as int]@);
            }
            match &events[i] {
                SitemapXmlEvent::Characters(data) => {
                    if text_ends_with(data.as_str(), ".gz") || text_ends_with(data.as_str(), ".xml") {
                        def.is_index = true;
                    }
                    let ghost before = views(def.outgoing_urls@);
                    def.outgoing_urls.push(data.clone());
                    assert(views(def.outgoing_urls@) =~= before.push(data@));
                },
                _ => {},
            }
            i = i + 1;
        }
        proof {
            assert(evs.take(n as int) =~= evs);
        }
        def
    }

    /// It's the function that actually parses the sitemap.
    pub fn parser(data: String) -> (def: Self)
        requires
            sitemap_events(data@) is Some,
        ensures
            views(def.outgoing_urls@) == sitemap_urls(sitemap_events(data@)->0),
            def.is_index == sitemap_is_index(sitemap_events(data@)->0),
    {
        match xml_events(data.as_str()) {
            Some(events) => Self::from_events(&events),
            None => SitemapDefinition { outgoing_urls: Vec::new(), is_index: false },  // unreachable: see the requires
        }
    }

    /// `parser`, for a document that reads without error; `None` otherwise.
    pub fn try_parser(data: String) -> (def: Option<Self>)
        ensures
            def is None <==> sitemap_events(data@) is None,
            def matches Some(d) ==> views(d.outgoing_urls@) == sitemap_urls(sitemap_events(data@)->0)
                && d.is_index == sitemap_is_index(sitemap_events(data@)->0),
    {
        if xml_events(data.as_str()).is_none() {
            return None;
        }
        Some(Self::parser(data))
    }
}

/// A sitemap document is an index exactly when some character data of it
/// ends with `.gz` or with `.xml`; its URLs are all its character data, in
/// document order.
pub proof fn lemma_sitemap_reading(evs: Seq<SitemapEventView>)
    ensures
        sitemap_is_index(evs) <==> exists|i: int|
            0 <= i < evs.len() && (#[trigger] evs[i] matches SitemapEventView::Characters(d) && (ends_with(
                d,
                seq!['.', 'g', 'z'],
            ) || ends_with(d, seq!['.', 'x', 'm', 'l']))),
        sitemap_urls(evs) == evs.filter(|e: SitemapEventView| e is Characters).map_values(
            |e: SitemapEventView| e->Characters_0,
        ),
    decreases evs.len(),
{
    reveal(Seq::filter);
    if evs.len() == 0 {
        assert(evs.filter(|e: SitemapEventView| e is Characters) =~= Seq::<SitemapEventView>::empty());
        assert(sitemap_urls(evs) =~= evs.filter(|e: SitemapEventView| e is Characters).map_values(
            |e: SitemapEventView| e->Characters_0,
        ));
    } else {
        let d = evs.drop_last();
        lemma_sitemap_reading(d);
        assert forall|i: int| 0 <= i < d.len() implies #[trigger] d[i] == evs[i] by {}
        assert(gz_suffix() =~= seq!['.', 'g', 'z']);
        assert(xml_suffix() =~= seq!['.', 'x', 'm', 'l']);
        if sitemap_is_index(evs) {
            if sitemap_is_index(d) {
                let i = choose|i: int|
                    0 <= i < d.len() && (#[trigger] d[i] matches SitemapEventView::Characters(x) && (ends_with(
                        x,
                        seq!['.', 'g', 'z'],
                    ) || ends_with(x, seq!['.', 'x', 'm', 'l'])));
                assert(evs[i] == d[i]);
            } else {
                assert(evs[evs.len() - 1] == evs.last());
            }
        }
        if exists|i: int|
            0 <= i < evs.len() && (#[trigger] evs[i] matches SitemapEventView::Characters(x) && (ends_with(
                x,
                seq!['.', 'g', 'z'],
            ) || ends_with(x, seq!['.', 'x', 'm', 'l']))) {
            let i = choose|i: int|
                0 <= i < evs.len() && (#[trigger] evs[i] matches SitemapEventView::Characters(x) && (ends_with(
                    x,
                    seq!['.', 'g', 'z'],
                ) || ends_with(x, seq!['.', 'x', 'm', 'l'])));
            if i < d.len() {
                assert(d[i] == evs[i]);
                assert(sitemap_is_index(d));
            } else {
                assert(evs.last() == evs[i]);
            }
        }
        let fd = d.filter(|e: SitemapEventView| e is Characters);
        let f = evs.filter(|e: SitemapEventView| e is Characters);
        if evs.last() is Characters {
            assert(f == fd.push(evs.last()));
            assert(f.map_values(|e: SitemapEventView| e->Characters_0) =~= fd.map_values(
                |e: SitemapEventView| e->Characters_0,
            ).push(evs.last()->Characters_0));
        } else {
            assert(f == fd);
        }
    }
}

/// The texts of the files of a tar archive, in the archive's order, as
/// `tar::Archive` reads them from `buf`; `None` when the archive or a file
/// cannot be read, or a file is not UTF-8.
pub uninterp spec fn tar_entry_texts(buf: Seq<u8>) -> Option<Seq<Seq<char>>>;

/// Reads the entries of `tar::Archive::new(buf)` with `Archive::entries` and
/// each entry with `Read::read_to_string`. The contract claims only that the
/// result is the named list of texts of the bytes.
#[verifier::external_body]
fn tar_texts(buf: &[u8]) -> (r: Option<Vec<String>>)
    ensures
        match r {
            Some(v) => tar_entry_texts(buf@) == Some(views(v@)),
            None => tar_entry_texts(buf@) is None,
        },
{
    let mut archive = tar::Archive::new(buf);
    let mut out = Vec::new();
    for entry in archive.entries().ok()? {
        let mut content = String::new();
        std::io::Read::read_to_string(&mut entry.ok()?, &mut content).ok()?;
        out.push(content);
    }
    Some(out)
}

/// Every text is a document that reads without error.
pub open spec fn all_readable(texts: Seq<Seq<char>>) -> bool {
    forall|i: int| 0 <= i < texts.len() ==> (#[trigger] sitemap_events(texts[i])) is Some
}

/// `def` is what reading the sitemap document `text` gives.
pub open spec fn read_as(def: SitemapDefinition, text: Seq<char>) -> bool {
    &&& views(def.outgoing_urls@) == sitemap_urls(sitemap_events(text)->0)
    &&& def.is_index == sitemap_is_index(sitemap_events(text)->0)
}

/// Reads a tarball of sitemaps: one sitemap per file of the archive, in
/// order. `None` when the archive cannot be read or one of its files is not
/// a document that reads without error.
pub fn sitemaps_from_tar(buf: &[u8]) -> (r: Option<Vec<SitemapDefinition>>)
    ensures
        match r {
            Some(defs) => tar_entry_texts(buf@) matches Some(ts) && all_readable(ts) && defs@.len() == ts.len()
                && forall|i: int| 0 <= i < ts.len() ==> read_as(#[trigger] defs@[i], ts[i]),
            None => tar_entry_texts(buf@) matches Some(ts) ==> !all_readable(ts),
        },
{
    let texts = match tar_texts(buf) {
        Some(t) => t,
        None => {
            return None;
        },
    };
    let ghost ts = views(texts@);
    let n = texts.len();
    let mut defs: Vec<SitemapDefinition> = Vec::new();
    let mut i: usize = 0;
    while i < n
        invariant
            i <= n,
            n == texts@.len(),
            ts == views(texts@),
            tar_entry_texts(buf@) == Some(ts),
            defs@.len() == i,
            forall|k: int| 0 <= k < i ==> (#[trigger] sitemap_events(ts[k])) is Some,
            forall|k: int| 0 <= k < i ==> read_as(#[trigger] defs@[k], ts[k]),
        decreases n - i,
    {
        match SitemapDefinition::try_parser(texts[i].clone()) {
            Some(d) => {
                defs.push(d);
                proof {
                    assert(ts[i as int] == texts@[i as int]@);
                    assert(read_as(defs@[i as int], ts[i as int]));
                }
            },
            None => {
                proof {
                    assert(ts[i as int] == texts@[i as int]@);
                    assert(sitemap_events(ts[i as int]) is None);
                }
                return None;
            },
        }
        i = i + 1;
    }
    Some(defs)
}

/// Where the texts of a read sitemap go.
pub enum SitemapRoute {
    /// Pages: queue them for indexing.
    QueueUrls(Vec<String>),
    /// Sitemaps (the sitemap was an index): queue them for reading.
    QueueSitemaps(Vec<String>),
}

/// Routes a read sitemap: the texts of an index go back to the sitemap bot,
/// those of any other sitemap to the indexing queue.
pub fn route_sitemap(def: SitemapDefinition) -> (r: SitemapRoute)
    ensures
        match r {
            SitemapRoute::QueueUrls(u) => !def.is_index && u@ == def.outgoing_urls@,
            SitemapRoute::QueueSitemaps(s) => def.is_index && s@ == def.outgoing_urls@,
        },
{
    if !def.is_index {
        SitemapRoute::QueueUrls(def.outgoing_urls)
    } else {
        SitemapRoute::QueueSitemaps(def.outgoing_urls)
    }
}

/// The page URLs that routing `defs` queues for indexing: the texts of each
/// sitemap that is not an index, sitemap after sitemap.
pub open spec fn routed_urls(defs: Seq<SitemapDefinition>) -> Seq<Seq<char>>
    decreases defs.len(),
{
    if defs.len() == 0 {
        Seq::empty()
    } else {
        routed_urls(defs.drop_last()) + if defs.last().is_index {
            Seq::empty()
        } else {
            views(defs.last().outgoing_urls@)
        }
    }
}

/// The sitemap URLs that routing `defs` queues for reading: the texts of
/// each index, sitemap after sitemap.
pub open spec fn routed_sitemaps(defs: Seq<SitemapDefinition>) -> Seq<Seq<char>>
    decreases defs.len(),
{
    if defs.len() == 0 {
        Seq::empty()
    } else {
        routed_sitemaps(defs.drop_last()) + if defs.last().is_index {
            views(defs.last().outgoing_urls@)
        } else {
            Seq::empty()
        }
    }
}

/// Routes every sitemap read from one source, in order: the page URLs to
/// queue for indexing and the sitemaps to queue for reading.
pub fn route_all(defs: Vec<SitemapDefinition>) -> (r: (Vec<String>, Vec<String>))
    ensures
        views(r.0@) == routed_urls(defs@),
        views(r.1@) == routed_sitemaps(defs@),
{
    let ghost all = defs@;
    let n = defs.len();
    let mut rest = defs;
    let mut urls: Vec<String> = Vec::new();
    let mut sitemaps: Vec<String> = Vec::new();
    let mut i: usize = 0;
    proof {
        assert(all.take(0) =~= Seq::<SitemapDefinition>::empty());
        assert(all.skip(0) =~= all);
    }
    while i < n
        invariant
            i <= n,
            n == all.len(),
            rest@ == all.skip(i as int),
            views(urls@) == routed_urls(all.take(i as int)),
            views(sitemaps@) == routed_sitemaps(all.take(i as int)),
        decreases n - i,
    {
        let d = rest.remove(0);
        proof {
            assert(d == all[i as int]);
            assert(rest@ =~= all.skip(i + 1));
            assert(all.take(i + 1).drop_last() =~= all.take(i as int));
            assert(all.take(i + 1).last() == all[i as int]);
        }
        let ghost d_urls = views(d.outgoing_urls@);
        let ghost d_index = d.is_index;
        match route_sitemap(d) {
            SitemapRoute::QueueUrls(mut u) => {
                let ghost before = views(urls@);
                let ghost added = views(u@);
                urls.append(&mut u);
                assert(views(urls@) =~= before + added);
                assert(views(sitemaps@) =~= views(sitemaps@) + Seq::<Seq<char>>::empty());
            },
            SitemapRoute::QueueSitemaps(mut m) => {
                let ghost before = views(sitemaps@);
                let ghost added = views(m@);
                sitemaps.append(&mut m);
                assert(views(sitemaps@) =~= before + added);
                assert(views(urls@) =~= views(urls@) + Seq::<Seq<char>>::empty());
            },
        }
        i = i + 1;
    }
    proof {
        assert(all.take(n as int) =~= all);
    }
    (urls, sitemaps)
}

/// One round of the sitemap bot, on its queue `q` with `batch` queued before
/// the round takes: the sitemaps taken and the queue left.
pub open spec fn sitemap_round(q: Seq<String>, batch: Seq<String>) -> (Seq<String>, Seq<String>) {
    (q + batch, Seq::empty())
}

/// Rounds of the sitemap bot from an empty queue, `batches[i]` being queued
/// before round `i` takes: the sitemaps each round took, and the queue left.
pub open spec fn sitemap_rounds(batches: Seq<Seq<String>>) -> (Seq<Seq<String>>, Seq<String>)
    decreases batches.len(),
{
    if batches.len() == 0 {
        (Seq::empty(), Seq::empty())
    } else {
        let prev = sitemap_rounds(batches.drop_last());
        let round = sitemap_round(prev.1, batches.last());
        (prev.0.push(round.0), round.1)
    }
}

/// The sitemap loop processes each queued sitemap exactly once, in the
/// order it was queued: every round takes exactly what was queued since the
/// round before, and leaves the queue empty.
pub proof fn lemma_sitemap_rounds(batches: Seq<Seq<String>>)
    ensures
        sitemap_rounds(batches).0 == batches,
        sitemap_rounds(batches).1 == Seq::<String>::empty(),
    decreases batches.len(),
{
    if batches.len() > 0 {
        lemma_sitemap_rounds(batches.drop_last());
        assert(Seq::<String>::empty() + batches.last() =~= batches.last());
        assert(batches.drop_last().push(batches.last()) =~= batches);
    } else {
        assert(sitemap_rounds(batches).0 =~= batches);
    }
}

/// The `SitemapBot` will manage sitemaps to visit by keeping a queue of every
/// sitemap that should be visited. This bot will send URLs to visit to the
/// `QueueBot`.
pub struct SitemapBot {
    pub queue: Vec<String>,
}

impl SitemapBot {
    /// A bot with nothing to visit.
    pub fn init() -> (bot: Self)
        ensures
            bot.queue@.len() == 0,
    {
        SitemapBot { queue: Vec::new() }
    }

    /// Adds a sitemap to visit, last.
    pub fn queue_sitemap(&mut self, sitemap: String)
        ensures
            final(self).queue@ == old(self).queue@.push(sitemap),
    {
        self.queue.push(sitemap);
    }

    /// Takes every sitemap waiting, in order, leaving the queue empty.
    pub fn take_queue(&mut self) -> (taken: Vec<String>)
        ensures
            taken@ == old(self).queue@,
            final(self).queue@.len() == 0,
            (taken@, final(self).queue@) == sitemap_round(old(self).queue@, Seq::empty()),
    {
        let mut taken: Vec<String> = Vec::new();
        std::mem::swap(&mut taken, &mut self.queue);
        taken
    }
}

} // verus!
