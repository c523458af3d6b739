//! The first indexing queue: a plain list of URLs, taken all at once.
use vstd::prelude::*;
use crate::indexer::url::{formatted_url, result_view, url_format_defined, QueueBot as UrlQueueBot};
use crate::text::views;
use crate::url_parts::UrlParseError;

pub use crate::indexer::url::{get_all_texts, IndexData};

verus! {

/// The `QueueBot` will manage links to index by keeping a queue of every
/// website that should be indexed; the indexing loop takes the whole queue at
/// once.
pub struct QueueBot {
    pub queue: Vec<String>,
}

impl QueueBot {
    /// An empty queue.
    pub fn init() -> (bot: Self)
        ensures
            bot.queue@.len() == 0,
    {
        QueueBot { queue: Vec::new() }
    }

    /// This function MUST be called when auto-queuing to ensure only correcly
    /// formatted URLs are submitted (see the indexer's queue).
    pub fn ensure_url_format(source: String, url: String) -> (r: Result<String, UrlParseError>)
        requires
            url_format_defined(source@, url@),
        ensures
            result_view(r) == formatted_url(source@, url@),
    {
        UrlQueueBot::ensure_url_format(source, url)
    }

    /// Queues every URL of `urls`, in order.
    pub fn queue_url(&mut self, urls: Vec<String>)
        ensures
            views(final(self).queue@) == views(old(self).queue@) + views(urls@),
    {
        let n = urls.len();
        let mut i: usize = 0;
        while i < n
            invariant
                i <= n,
                n == urls@.len(),
                views(self.queue@) == views(old(self).queue@) + views(urls@).take(i as int),
            decreases n - i,
        {
            let ghost before = views(self.queue@);
            self.queue.push(urls[i].clone());
            assert(views(self.queue@) =~= before.push(urls@[i as int]@));
            assert(views(urls@).take(i + 1) =~= views(urls@).take(i as int).push(urls@[i as int]@));
            i = i + 1;
        }
        assert(views(urls@).take(n as int) =~= views(urls@));
    }

    /// Takes every URL waiting, in order, leaving the queue empty.
    pub fn take_queue(&mut self) -> (taken: Vec<String>)
        ensures
            taken@ == old(self).queue@,
            final(self).queue@.len() == 0,
    {
        let mut taken: Vec<String> = Vec::new();
        std::mem::swap(&mut taken, &mut self.queue);
        taken
    }
}

} // verus!
