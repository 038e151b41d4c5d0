//! The plugin worker: one autonomous unit per data source. It owns its
//! entry set and its last query, and decides, for each incoming request
//! (or a synthesized timeout), which messages to emit toward the
//! controller. The surrounding process runs the poll loop and performs
//! the sends; every decision is made here.

use vstd::prelude::*;

use crate::filter::{filter_entries, search_entries};
use crate::model::{ControllerMessage, Entry, EntryView, MessageView, PluginRequest};

verus! {

/// Mathematical abstraction of a worker's state.
pub ghost struct WorkerView {
    pub id: Seq<char>,
    pub priority: u32,
    pub title: Seq<char>,
    pub entries: Seq<EntryView>,
    pub last_query: Seq<char>,
}

/// One plugin's worker-side state.
pub struct PluginWorker {
    pub id: String,
    pub priority: u32,
    pub title: String,
    pub entries: Vec<Entry>,
    pub last_query: String,
}

impl View for PluginWorker {
    type V = WorkerView;

    open spec fn view(&self) -> WorkerView {
        WorkerView {
            id: self.id@,
            priority: self.priority,
            title: self.title@,
            entries: self.entries.deep_view(),
            last_query: self.last_query@,
        }
    }
}

/// The exact message sequence a worker emits when serving a search:
/// one `Clear`, then one `AppendEntry` per filtered entry, in filtered
/// order.
pub open spec fn search_emissions(id: Seq<char>, entries: Seq<EntryView>, q: Seq<char>) -> Seq<
    MessageView,
> {
    seq![MessageView::Clear { plugin_id: id }] + filter_entries(entries, q).map_values(
        |e: EntryView| MessageView::AppendEntry { plugin_id: id, entry: e },
    )
}

/// A worker's state after it has served `Search(q)`: only the stored
/// query changes.
pub open spec fn after_search(w: WorkerView, q: Seq<char>) -> WorkerView {
    WorkerView { last_query: q, ..w }
}

/// A worker's state after a timeout refresh that re-derived `fresh` from
/// its data source: only the entry set changes.
pub open spec fn after_timeout(w: WorkerView, fresh: Seq<EntryView>) -> WorkerView {
    WorkerView { entries: fresh, ..w }
}

/// Serving `Search(q)` twice in a row emits the same message sequence
/// both times and leaves the worker in the same state, given unchanged
/// underlying entries.
pub proof fn lemma_search_idempotent(w: WorkerView, q: Seq<char>)
    ensures
        after_search(after_search(w, q), q) == after_search(w, q),
        search_emissions(after_search(w, q).id, after_search(w, q).entries, q) == search_emissions(
            w.id,
            w.entries,
            q,
        ),
{
}

impl PluginWorker {
    pub fn new(id: String, priority: u32, title: String, entries: Vec<Entry>) -> (w: Self)
        ensures
            w@ == (WorkerView {
                id: id@,
                priority: priority,
                title: title@,
                entries: entries.deep_view(),
                last_query: Seq::<char>::empty(),
            }),
    {
        PluginWorker { id, priority, title, entries, last_query: String::new() }
    }

    /// A copy of the worker's current entries.
    pub fn cloned_entries(&self) -> (r: Vec<Entry>)
        ensures
            r.deep_view() == self@.entries,
    {
        let mut entries: Vec<Entry> = Vec::new();
        let n = self.entries.len();
        let mut i: usize = 0;
        while i < n
            invariant
                n == self.entries@.len(),
                i <= n,
                entries.deep_view() == self.entries.deep_view().take(i as int),
            decreases n - i,
        {
            entries.push(self.entries[i].clone());
            proof {
                assert(entries.deep_view() =~= self.entries.deep_view().take(i as int).push(
                    self.entries@[i as int]@,
                ));
                assert(self.entries.deep_view().take(i + 1) =~= self.entries.deep_view().take(
                    i as int,
                ).push(self.entries@[i as int]@));
            }
            i = i + 1;
        }
        proof {
            assert(self.entries.deep_view().take(n as int) =~= self.entries.deep_view());
        }
        entries
    }

    /// The one-shot registration handshake message, carrying the
    /// worker's identity, priority, section title and initial entries.
    pub fn register_message(&self) -> (m: ControllerMessage)
        ensures
            m@ == (MessageView::RegisterPlugin {
                id: self@.id,
                priority: self@.priority,
                title: self@.title,
                entries: self@.entries,
            }),
    {
        ControllerMessage::RegisterPlugin {
            id: self.id.clone(),
            priority: self.priority,
            title: self.title.clone(),
            entries: self.cloned_entries(),
        }
    }

    /// Filters the current entries against `query` and reproduces the
    /// result as a `Clear` followed by `AppendEntry` messages.
    fn emit_filtered(&self, query: &str) -> (out: Vec<ControllerMessage>)
        ensures
            out.deep_view() == search_emissions(self@.id, self@.entries, query@),
    {
        let filtered = search_entries(&self.entries, query);
        let mut out: Vec<ControllerMessage> = Vec::new();
        out.push(ControllerMessage::Clear { plugin_id: self.id.clone() });
        let ghost fview = filter_entries(self@.entries, query@);
        let n = filtered.len();
        let mut k: usize = 0;
        while k < n
            invariant
                n == filtered@.len(),
                k <= n,
                filtered.deep_view() == fview,
                fview.len() == n,
                out.deep_view().len() == 1 + k,
                out.deep_view()[0] == (MessageView::Clear { plugin_id: self@.id }),
                forall|m: int|
                    1 <= m < out.deep_view().len() ==> #[trigger] out.deep_view()[m]
                        == (MessageView::AppendEntry { plugin_id: self@.id, entry: fview[m - 1] }),
            decreases n - k,
        {
            let ghost prev = out.deep_view();
            out.push(
                ControllerMessage::AppendEntry {
                    plugin_id: self.id.clone(),
                    entry: filtered[k].clone(),
                },
            );
            proof {
                assert(filtered.deep_view()[k as int] == fview[k as int]);
                assert(forall|m: int|
                    0 <= m < prev.len() ==> #[trigger] out.deep_view()[m] == prev[m]);
                assert(out.deep_view()[1 + k] == MessageView::AppendEntry {
                    plugin_id: self@.id,
                    entry: fview[k as int],
                });
            }
            k = k + 1;
        }
        proof {
            assert(out.deep_view() =~= search_emissions(self@.id, self@.entries, query@));
        }
        out
    }

    /// Serves `Search(query)`: records the query as the last one seen
    /// and emits the filtered entry set.
    pub fn on_search(&mut self, query: String) -> (out: Vec<ControllerMessage>)
        ensures
            final(self)@ == after_search(old(self)@, query@),
            out.deep_view() == search_emissions(old(self)@.id, old(self)@.entries, query@),
    {
        let out = self.emit_filtered(query.as_str());
        self.last_query = query;
        out
    }

    /// Serves a poll timeout: replaces the entry set with `fresh`
    /// (re-derived from the data source by the caller) and re-applies
    /// the last stored query.
    pub fn on_timeout(&mut self, fresh: Vec<Entry>) -> (out: Vec<ControllerMessage>)
        ensures
            final(self)@ == after_timeout(old(self)@, fresh.deep_view()),
            out.deep_view() == search_emissions(
                old(self)@.id,
                fresh.deep_view(),
                old(self)@.last_query,
            ),
    {
        self.entries = fresh;
        let out = self.emit_filtered(self.last_query.as_str());
        out
    }

    /// Looks the activation key up among the worker's own entries and
    /// returns the position of the first entry carrying it. An unknown
    /// id yields `None`: activation of an id the plugin does not hold is
    /// a silent no-op, never an error.
    pub fn on_activate(&self, entry_id: &String) -> (found: Option<usize>)
        ensures
            found is Some <==> (exists|j: int|
                0 <= j < self@.entries.len() && self@.entries[j].id == entry_id@),
            match found {
                Some(i) => {
                    &&& 0 <= i < self@.entries.len()
                    &&& self@.entries[i as int].id == entry_id@
                    &&& forall|j: int| 0 <= j < i ==> self@.entries[j].id != entry_id@
                },
                None => true,
            },
    {
        let n = self.entries.len();
        let mut i: usize = 0;
        while i < n
            invariant
                n == self@.entries.len(),
                i <= n,
                forall|j: int| 0 <= j < i ==> self@.entries[j].id != entry_id@,
            decreases n - i,
        {
            if self.entries[i].id.eq(entry_id) {
                proof {
                    assert(self@.entries[i as int].id == entry_id@);
                }
                return Some(i);
            }
            i = i + 1;
        }
        None
    }

    /// One step of the serving loop: dispatches one request (or the
    /// synthesized `Timeout`). `fresh` is the entry set re-derived from
    /// the data source, consulted only by a timeout refresh. The second
    /// result is the position of the entry to activate, if any.
    pub fn handle_request(&mut self, req: PluginRequest, fresh: Vec<Entry>) -> (r: (
        Vec<ControllerMessage>,
        Option<usize>,
    ))
        ensures
            match req@ {
                crate::model::RequestView::Search(q) => {
                    &&& final(self)@ == after_search(old(self)@, q)
                    &&& r.0.deep_view() == search_emissions(old(self)@.id, old(self)@.entries, q)
                    &&& r.1 is None
                },
                crate::model::RequestView::Timeout => {
                    &&& final(self)@ == after_timeout(old(self)@, fresh.deep_view())
                    &&& r.0.deep_view() == search_emissions(
                        old(self)@.id,
                        fresh.deep_view(),
                        old(self)@.last_query,
                    )
                    &&& r.1 is None
                },
                crate::model::RequestView::Activate(eid) => {
                    &&& final(self)@ == old(self)@
                    &&& r.0.deep_view() == Seq::<MessageView>::empty()
                    &&& (r.1 is Some <==> (exists|j: int|
                        0 <= j < old(self)@.entries.len() && old(self)@.entries[j].id == eid))
                    &&& match r.1 {
                        Some(i) => {
                            &&& 0 <= i < old(self)@.entries.len()
                            &&& old(self)@.entries[i as int].id == eid
                        },
                        None => true,
                    }
                },
            },
    {
        match req {
            PluginRequest::Search(query) => {
                let out = self.on_search(query);
                (out, None)
            },
            PluginRequest::Timeout => {
                let out = self.on_timeout(fresh);
                (out, None)
            },
            PluginRequest::Activate(entry_id) => {
                let found = self.on_activate(&entry_id);
                let out: Vec<ControllerMessage> = Vec::new();
                proof {
                    assert(out.deep_view() =~= Seq::<MessageView>::empty());
                }
                (out, found)
            },
        }
    }
}

} // verus!
