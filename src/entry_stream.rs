//! The entry-stream traversal: a cursor into the entry endpoint, and the
//! rules that turn each received entry into the next thing to fetch.
use vstd::prelude::*;
use vstd::string::StringExecFns;

use crate::text::{decimal_of, i64_to_decimal};

verus! {

/// Where the next poll of the entry endpoint starts.
#[derive(Clone, Copy, Debug, PartialEq, Eq, Structural)]
pub enum ViewQuery {
    Now,
    At(i64),
}

/// One entry of the entry stream.
pub enum Entry {
    /// Move the cursor to the given time.
    Next { at: i64 },
    /// A segment of chat messages can be fetched from `uri`.
    Segment { uri: String },
    /// Any other kind of entry; it is skipped.
    Other,
}

/// What the fetch of the entry endpoint delivered next.
pub enum EntryEvent {
    Item(Entry),
    /// One frame did not decode as an entry.
    Malformed,
    /// The response ended, or the transport failed.
    End,
}

/// What the caller does next.
pub enum TraversalStep {
    /// Start a new fetch of the entry endpoint at this URL.
    Poll(String),
    /// Read the next item of the current entry fetch.
    PullEntry,
    /// Fetch this segment and hand all its messages on, then report its end.
    Drain(String),
}

#[derive(Clone, Copy, Debug, PartialEq, Eq, Structural)]
pub enum Phase {
    Polling,
    Draining,
}

/// The text after `at=` in a poll URL.
pub open spec fn query_text(q: ViewQuery) -> Seq<char> {
    match q {
        ViewQuery::Now => seq!['n', 'o', 'w'],
        ViewQuery::At(t) => decimal_of(t as int),
    }
}

/// The URL that polls `view_uri` from the cursor `q`: `<view_uri>?at=<q>`.
pub open spec fn entry_url_spec(view_uri: Seq<char>, q: ViewQuery) -> Seq<char> {
    view_uri + seq!['?', 'a', 't', '='] + query_text(q)
}

/// The URL of the entry endpoint polled from `query`.
pub fn entry_url(view_uri: &str, query: &ViewQuery) -> (r: String)
    ensures
        r@ == entry_url_spec(view_uri@, *query),
{
    let mut url = String::from_str(view_uri);
    proof {
        reveal_strlit("?at=");
        reveal_strlit("now");
    }
    url.append("?at=");
    match query {
        ViewQuery::Now => url.append("now"),
        ViewQuery::At(at) => {
            let digits = i64_to_decimal(*at);
            url.append(digits.as_str());
        },
    }
    url
}

/// The traversal's state: the entry endpoint, the cursor, and whether a
/// segment is being drained.
pub struct EntryTraversal {
    pub view_uri: String,
    pub query: ViewQuery,
    pub phase: Phase,
}

impl EntryTraversal {
    /// A traversal that starts polling from the latest entries.
    pub fn new(view_uri: String) -> (r: Self)
        ensures
            r.view_uri@ == view_uri@,
            r.query == ViewQuery::Now,
            r.phase == Phase::Polling,
    {
        EntryTraversal { view_uri, query: ViewQuery::Now, phase: Phase::Polling }
    }

    /// The URL of the next poll, from the current cursor.
    pub fn poll_url(&self) -> (r: String)
        ensures
            r@ == entry_url_spec(self.view_uri@, self.query),
    {
        entry_url(self.view_uri.as_str(), &self.query)
    }

    /// Handles what the entry fetch delivered. A `Next` entry moves the
    /// cursor; a `Segment` entry starts draining it; other entries and
    /// malformed frames are skipped. When the fetch ends, a new poll is issued
    /// from the unchanged cursor.
    pub fn on_entry(&mut self, event: EntryEvent) -> (r: TraversalStep)
        requires
            old(self).phase == Phase::Polling,
        ensures
            final(self).view_uri@ == old(self).view_uri@,
            match event {
                EntryEvent::Item(Entry::Next { at }) => {
                    &&& final(self).query == ViewQuery::At(at)
                    &&& final(self).phase == Phase::Polling
                    &&& r is PullEntry
                },
                EntryEvent::Item(Entry::Segment { uri }) => {
                    &&& final(self).query == old(self).query
                    &&& final(self).phase == Phase::Draining
                    &&& r matches TraversalStep::Drain(u) && u@ == uri@
                },
                EntryEvent::End => {
                    &&& final(self).query == old(self).query
                    &&& final(self).phase == Phase::Polling
                    &&& r matches TraversalStep::Poll(url) && url@ == entry_url_spec(
                        old(self).view_uri@,
                        old(self).query,
                    )
                },
                _ => {
                    &&& final(self).query == old(self).query
                    &&& final(self).phase == Phase::Polling
                    &&& r is PullEntry
                },
            },
    {
        match event {
            EntryEvent::Item(Entry::Next { at }) => {
                self.query = ViewQuery::At(at);
                TraversalStep::PullEntry
            },
            EntryEvent::Item(Entry::Segment { uri }) => {
                self.phase = Phase::Draining;
                TraversalStep::Drain(uri)
            },
            EntryEvent::End => TraversalStep::Poll(self.poll_url()),
            _ => TraversalStep::PullEntry,
        }
    }

    /// The drained segment has ended: go on reading the current entry fetch,
    /// with the cursor unchanged.
    pub fn on_segment_end(&mut self) -> (r: TraversalStep)
        requires
            old(self).phase == Phase::Draining,
        ensures
            final(self).view_uri@ == old(self).view_uri@,
            final(self).query == old(self).query,
            final(self).phase == Phase::Polling,
            r is PullEntry,
    {
        self.phase = Phase::Polling;
        TraversalStep::PullEntry
    }
}

} // verus!
