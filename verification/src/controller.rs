//! The controller / aggregator: owns the registry of plugins, merges
//! their entry sets into one navigable ordered list, routes user input
//! into every registered plugin's request mailbox, and manages the
//! active selection.
//!
//! The merged list is the concatenation of each registered plugin's
//! entries, plugins ordered by ascending priority value (a lower value
//! stands earlier), ties broken by registration order, entries within a
//! plugin in emission order.

use vstd::prelude::*;

use crate::mailbox::Mailbox;
use crate::model::{ControllerMessage, Entry, EntryView, PluginRequest, RequestView, MAILBOX_CAPACITY};

verus! {

/// Mathematical abstraction of one registered plugin: its identity,
/// precedence, section title, current entries, and the contents and
/// bound of its request mailbox.
pub ghost struct PluginRecordView {
    pub id: Seq<char>,
    pub priority: u32,
    pub title: Seq<char>,
    pub entries: Seq<EntryView>,
    pub mailbox: Seq<RequestView>,
    pub mailbox_capacity: nat,
}

/// One registered plugin, as the controller holds it: the record plus
/// the sending side of that plugin's dedicated request mailbox.
pub struct PluginRecord {
    pub id: String,
    pub priority: u32,
    pub title: String,
    pub entries: Vec<Entry>,
    pub mailbox: Mailbox,
}

impl View for PluginRecord {
    type V = PluginRecordView;

    open spec fn view(&self) -> PluginRecordView {
        PluginRecordView {
            id: self.id@,
            priority: self.priority,
            title: self.title@,
            entries: self.entries.deep_view(),
            mailbox: self.mailbox.contents(),
            mailbox_capacity: self.mailbox.capacity(),
        }
    }
}

impl DeepView for PluginRecord {
    type V = PluginRecordView;

    open spec fn deep_view(&self) -> PluginRecordView {
        self.view()
    }
}

/// The aggregate navigable list: the concatenation of every registered
/// plugin's entries, in registry order.
pub open spec fn merged(plugins: Seq<PluginRecordView>) -> Seq<EntryView>
    decreases plugins.len(),
{
    if plugins.len() == 0 {
        Seq::<EntryView>::empty()
    } else {
        plugins[0].entries + merged(plugins.drop_first())
    }
}

/// Registry order follows ascending priority values.
pub open spec fn sorted_by_priority(plugins: Seq<PluginRecordView>) -> bool {
    forall|i: int, j: int|
        0 <= i < j < plugins.len() ==> #[trigger] plugins[i].priority <= #[trigger] plugins[j].priority
}

/// Plugin ids are unique across the registry.
pub open spec fn ids_unique(plugins: Seq<PluginRecordView>) -> bool {
    forall|i: int, j: int|
        0 <= i < j < plugins.len() ==> #[trigger] plugins[i].id != #[trigger] plugins[j].id
}

pub open spec fn has_plugin(plugins: Seq<PluginRecordView>, id: Seq<char>) -> bool {
    exists|i: int| 0 <= i < plugins.len() && #[trigger] plugins[i].id == id
}

/// The position of the first record carrying `id`, or the registry
/// length when no record does.
pub open spec fn find_plugin(plugins: Seq<PluginRecordView>, id: Seq<char>) -> int
    decreases plugins.len(),
{
    if plugins.len() == 0 {
        0
    } else if plugins[0].id == id {
        0
    } else {
        1 + find_plugin(plugins.drop_first(), id)
    }
}

/// Where a new record of the given priority is inserted: after every
/// record whose priority value is less than or equal, so that equal
/// priorities keep registration order.
pub open spec fn insert_pos(plugins: Seq<PluginRecordView>, priority: u32) -> int
    decreases plugins.len(),
{
    if plugins.len() == 0 {
        0
    } else if plugins[0].priority <= priority {
        1 + insert_pos(plugins.drop_first(), priority)
    } else {
        0
    }
}

/// A record's mailbox never exceeds its bound.
pub open spec fn record_wf(p: PluginRecordView) -> bool {
    p.mailbox.len() <= p.mailbox_capacity
}

pub open spec fn registry_wf(plugins: Seq<PluginRecordView>) -> bool {
    &&& sorted_by_priority(plugins)
    &&& ids_unique(plugins)
    &&& forall|i: int| 0 <= i < plugins.len() ==> record_wf(#[trigger] plugins[i])
}

/// The registry after a `Clear(id)` message: the record carrying `id`
/// loses its entries; an unknown id changes nothing.
pub open spec fn clear_spec(plugins: Seq<PluginRecordView>, id: Seq<char>) -> Seq<
    PluginRecordView,
> {
    let k = find_plugin(plugins, id);
    if k < plugins.len() {
        plugins.update(k, PluginRecordView { entries: Seq::<EntryView>::empty(), ..plugins[k] })
    } else {
        plugins
    }
}

/// The registry after an `AppendEntry(id, e)` message: the record
/// carrying `id` gains `e` at the end of its entries; an unknown id is
/// dropped.
pub open spec fn append_spec(
    plugins: Seq<PluginRecordView>,
    id: Seq<char>,
    e: EntryView,
) -> Seq<PluginRecordView> {
    let k = find_plugin(plugins, id);
    if k < plugins.len() {
        plugins.update(k, PluginRecordView { entries: plugins[k].entries.push(e), ..plugins[k] })
    } else {
        plugins
    }
}

/// One plugin's record after the controller fanned a search out to it:
/// the request lands in its mailbox unless the mailbox is full, in
/// which case it is dropped (bounded staleness, not an error).
pub open spec fn send_search_spec(p: PluginRecordView, q: Seq<char>) -> PluginRecordView {
    if p.mailbox.len() < p.mailbox_capacity {
        PluginRecordView { mailbox: p.mailbox.push(RequestView::Search(q)), ..p }
    } else {
        p
    }
}

/// One plugin's record after an activation was routed to it.
pub open spec fn send_activate_spec(p: PluginRecordView, entry_id: Seq<char>) -> PluginRecordView {
    if p.mailbox.len() < p.mailbox_capacity {
        PluginRecordView { mailbox: p.mailbox.push(RequestView::Activate(entry_id)), ..p }
    } else {
        p
    }
}

/// The registry after a registration is accepted.
pub open spec fn register_spec(
    plugins: Seq<PluginRecordView>,
    p: PluginRecordView,
) -> Seq<PluginRecordView> {
    plugins.insert(insert_pos(plugins, p.priority), p)
}

/// The selection index re-clamped to a merged list of length `n`.
pub open spec fn reclamp_spec(idx: int, n: int) -> int {
    if n == 0 {
        0
    } else if idx >= n {
        n - 1
    } else {
        idx
    }
}

/// Mathematical abstraction of the whole controller state.
pub ghost struct ControllerView {
    pub query: Seq<char>,
    pub active_entry_index: int,
    pub plugins: Seq<PluginRecordView>,
}

/// The controller: registry, current query and active selection.
pub struct Controller {
    pub query: String,
    pub active_entry_index: usize,
    pub plugins: Vec<PluginRecord>,
}

impl View for Controller {
    type V = ControllerView;

    open spec fn view(&self) -> ControllerView {
        ControllerView {
            query: self.query@,
            active_entry_index: self.active_entry_index as int,
            plugins: self.plugins.deep_view(),
        }
    }
}

/// The selection is always a valid index into the merged list, or zero
/// when the list is empty.
pub open spec fn index_ok(s: ControllerView) -> bool {
    &&& merged(s.plugins).len() == 0 ==> s.active_entry_index == 0
    &&& merged(s.plugins).len() > 0 ==> 0 <= s.active_entry_index < merged(s.plugins).len()
}

pub proof fn lemma_find_plugin(plugins: Seq<PluginRecordView>, id: Seq<char>)
    ensures
        0 <= find_plugin(plugins, id) <= plugins.len(),
        find_plugin(plugins, id) < plugins.len() ==> plugins[find_plugin(plugins, id)].id == id,
        forall|k: int| 0 <= k < find_plugin(plugins, id) ==> #[trigger] plugins[k].id != id,
        find_plugin(plugins, id) == plugins.len() ==> !has_plugin(plugins, id),
    decreases plugins.len(),
{
    if plugins.len() == 0 {
    } else if plugins[0].id == id {
    } else {
        lemma_find_plugin(plugins.drop_first(), id);
        assert(forall|k: int|
            1 <= k < plugins.len() ==> plugins[k] == #[trigger] plugins.drop_first()[k - 1]);
        assert forall|k: int| 0 <= k < find_plugin(plugins, id) implies #[trigger] plugins[k].id
            != id by {
            if k > 0 {
                assert(plugins.drop_first()[k - 1].id != id);
                assert(plugins[k] == plugins.drop_first()[k - 1]);
            }
        }
        if find_plugin(plugins, id) == plugins.len() {
            assert(!has_plugin(plugins.drop_first(), id));
            assert forall|i: int| 0 <= i < plugins.len() implies #[trigger] plugins[i].id != id by {
                if i > 0 {
                    assert(plugins.drop_first()[i - 1].id != id);
                }
            }
        }
    }
}

pub proof fn lemma_insert_pos(plugins: Seq<PluginRecordView>, priority: u32)
    ensures
        0 <= insert_pos(plugins, priority) <= plugins.len(),
        forall|k: int|
            0 <= k < insert_pos(plugins, priority) ==> #[trigger] plugins[k].priority <= priority,
        insert_pos(plugins, priority) < plugins.len() ==> plugins[insert_pos(
            plugins,
            priority,
        )].priority > priority,
    decreases plugins.len(),
{
    if plugins.len() == 0 {
    } else if plugins[0].priority <= priority {
        lemma_insert_pos(plugins.drop_first(), priority);
        assert(forall|k: int|
            1 <= k < plugins.len() ==> plugins[k] == #[trigger] plugins.drop_first()[k - 1]);
        assert forall|k: int| 0 <= k < insert_pos(plugins, priority) implies #[trigger] plugins[k].priority
            <= priority by {
            if k > 0 {
                assert(plugins.drop_first()[k - 1].priority <= priority);
                assert(plugins[k] == plugins.drop_first()[k - 1]);
            }
        }
    } else {
    }
}

/// Concatenating one more plugin at the end of the registry appends its
/// entries at the end of the merged list.
pub proof fn lemma_merged_snoc(plugins: Seq<PluginRecordView>, p: PluginRecordView)
    ensures
        merged(plugins.push(p)) == merged(plugins) + p.entries,
    decreases plugins.len(),
{
    if plugins.len() == 0 {
        assert(plugins.push(p).drop_first() =~= Seq::<PluginRecordView>::empty());
        assert(plugins.push(p)[0] == p);
        assert(merged(plugins.push(p)) == p.entries + merged(
            plugins.push(p).drop_first(),
        ));
        assert(merged(Seq::<PluginRecordView>::empty()) == Seq::<EntryView>::empty());
        assert(merged(plugins.push(p)) =~= merged(plugins) + p.entries);
    } else {
        lemma_merged_snoc(plugins.drop_first(), p);
        assert(plugins.push(p).drop_first() =~= plugins.drop_first().push(p));
        assert(plugins.push(p)[0] == plugins[0]);
        assert(merged(plugins.push(p)) == plugins[0].entries + (merged(plugins.drop_first())
            + p.entries));
        assert(plugins[0].entries + (merged(plugins.drop_first()) + p.entries) =~= (
        plugins[0].entries + merged(plugins.drop_first())) + p.entries);
    }
}

pub proof fn lemma_merged_take_succ(plugins: Seq<PluginRecordView>, i: int)
    requires
        0 <= i < plugins.len(),
    ensures
        merged(plugins.take(i + 1)) == merged(plugins.take(i)) + plugins[i].entries,
{
    assert(plugins.take(i + 1) =~= plugins.take(i).push(plugins[i]));
    lemma_merged_snoc(plugins.take(i), plugins[i]);
}

/// The merged list depends only on each record's entries.
pub proof fn lemma_merged_congruent(s1: Seq<PluginRecordView>, s2: Seq<PluginRecordView>)
    requires
        s1.len() == s2.len(),
        forall|i: int| 0 <= i < s1.len() ==> #[trigger] s1[i].entries == #[trigger] s2[i].entries,
    ensures
        merged(s1) == merged(s2),
    decreases s1.len(),
{
    if s1.len() == 0 {
        assert(merged(s1) =~= merged(s2));
    } else {
        assert(forall|i: int|
            0 <= i < s1.len() - 1 ==> #[trigger] s1.drop_first()[i] == s1[i + 1]);
        assert(forall|i: int|
            0 <= i < s2.len() - 1 ==> #[trigger] s2.drop_first()[i] == s2[i + 1]);
        lemma_merged_congruent(s1.drop_first(), s2.drop_first());
    }
}

/// Delivery interleaving across plugins does not matter: `AppendEntry`
/// messages from two different plugins reach the same registry in
/// either order. Together with the priority-sorted registry invariant
/// and the per-plugin emission order kept by `append_spec`, this makes
/// the merged-list order stable under any interleaving.
pub proof fn lemma_append_commutes(
    plugins: Seq<PluginRecordView>,
    id1: Seq<char>,
    e1: EntryView,
    id2: Seq<char>,
    e2: EntryView,
)
    requires
        id1 != id2,
    ensures
        append_spec(append_spec(plugins, id1, e1), id2, e2) == append_spec(
            append_spec(plugins, id2, e2),
            id1,
            e1,
        ),
    decreases plugins.len(),
{
    if plugins.len() == 0 {
    } else {
        lemma_append_commutes(plugins.drop_first(), id1, e1, id2, e2);
        lemma_find_plugin(plugins, id1);
        lemma_find_plugin(plugins, id2);
        let a = append_spec(plugins, id1, e1);
        let b = append_spec(plugins, id2, e2);
        lemma_append_same_ids(plugins, id1, e1);
        lemma_append_same_ids(plugins, id2, e2);
        lemma_find_plugin_congruent(plugins, a, id2);
        lemma_find_plugin_congruent(plugins, b, id1);
        lemma_find_plugin(a, id2);
        lemma_find_plugin(b, id1);
        let k1 = find_plugin(plugins, id1);
        let k2 = find_plugin(plugins, id2);
        if k1 < plugins.len() && k2 < plugins.len() {
            assert(plugins[k1].id == id1);
            assert(plugins[k2].id == id2);
            assert(k1 != k2);
            assert(append_spec(a, id2, e2) =~= append_spec(b, id1, e1));
        } else if k1 < plugins.len() {
            assert(append_spec(a, id2, e2) =~= append_spec(b, id1, e1));
        } else if k2 < plugins.len() {
            assert(append_spec(a, id2, e2) =~= append_spec(b, id1, e1));
        } else {
            assert(append_spec(a, id2, e2) =~= append_spec(b, id1, e1));
        }
    }
}

/// One plugin's `Clear` and another's `AppendEntry` reach the same
/// registry in either order.
pub proof fn lemma_clear_append_commute(
    plugins: Seq<PluginRecordView>,
    id1: Seq<char>,
    id2: Seq<char>,
    e2: EntryView,
)
    requires
        id1 != id2,
    ensures
        clear_spec(append_spec(plugins, id2, e2), id1) == append_spec(
            clear_spec(plugins, id1),
            id2,
            e2,
        ),
{
    lemma_find_plugin(plugins, id1);
    lemma_find_plugin(plugins, id2);
    let a = append_spec(plugins, id2, e2);
    let c = clear_spec(plugins, id1);
    lemma_append_same_ids(plugins, id2, e2);
    lemma_clear_same_ids(plugins, id1);
    lemma_find_plugin_congruent(plugins, a, id1);
    lemma_find_plugin_congruent(plugins, c, id2);
    let k1 = find_plugin(plugins, id1);
    let k2 = find_plugin(plugins, id2);
    if k1 < plugins.len() && k2 < plugins.len() {
        assert(plugins[k1].id == id1);
        assert(plugins[k2].id == id2);
        assert(k1 != k2);
        assert(clear_spec(a, id1) =~= append_spec(c, id2, e2));
    } else {
        assert(clear_spec(a, id1) =~= append_spec(c, id2, e2));
    }
}

/// `clear_spec` keeps every record's id in place.
pub proof fn lemma_clear_same_ids(plugins: Seq<PluginRecordView>, id: Seq<char>)
    ensures
        clear_spec(plugins, id).len() == plugins.len(),
        forall|i: int|
            0 <= i < plugins.len() ==> #[trigger] clear_spec(plugins, id)[i].id == plugins[i].id,
{
    lemma_find_plugin(plugins, id);
}

/// `append_spec` keeps every record's id in place.
pub proof fn lemma_append_same_ids(plugins: Seq<PluginRecordView>, id: Seq<char>, e: EntryView)
    ensures
        append_spec(plugins, id, e).len() == plugins.len(),
        forall|i: int|
            0 <= i < plugins.len() ==> #[trigger] append_spec(plugins, id, e)[i].id
                == plugins[i].id,
{
    lemma_find_plugin(plugins, id);
}

/// Two registries with the same ids in the same places are searched at
/// the same position.
pub proof fn lemma_find_plugin_congruent(
    s1: Seq<PluginRecordView>,
    s2: Seq<PluginRecordView>,
    id: Seq<char>,
)
    requires
        s1.len() == s2.len(),
        forall|i: int| 0 <= i < s1.len() ==> #[trigger] s1[i].id == #[trigger] s2[i].id,
    ensures
        find_plugin(s1, id) == find_plugin(s2, id),
    decreases s1.len(),
{
    if s1.len() == 0 {
    } else {
        assert(s1[0].id == s2[0].id);
        if s1[0].id == id {
        } else {
            assert(forall|i: int|
                0 <= i < s1.len() - 1 ==> #[trigger] s1.drop_first()[i] == s1[i + 1]);
            assert(forall|i: int|
                0 <= i < s2.len() - 1 ==> #[trigger] s2.drop_first()[i] == s2[i + 1]);
            lemma_find_plugin_congruent(s1.drop_first(), s2.drop_first(), id);
        }
    }
}

/// The registry after one emitted message is handled. Registration and
/// exit are routed elsewhere; they leave the registry as
/// `handle_message` describes.
pub open spec fn apply_message(
    plugins: Seq<PluginRecordView>,
    m: crate::model::MessageView,
) -> Seq<PluginRecordView> {
    match m {
        crate::model::MessageView::Clear { plugin_id } => clear_spec(plugins, plugin_id),
        crate::model::MessageView::AppendEntry { plugin_id, entry } => append_spec(
            plugins,
            plugin_id,
            entry,
        ),
        _ => plugins,
    }
}

/// The registry after a message sequence is handled in order.
pub open spec fn apply_messages(
    plugins: Seq<PluginRecordView>,
    msgs: Seq<crate::model::MessageView>,
) -> Seq<PluginRecordView>
    decreases msgs.len(),
{
    if msgs.len() == 0 {
        plugins
    } else {
        apply_messages(apply_message(plugins, msgs[0]), msgs.drop_first())
    }
}

proof fn lemma_apply_appends(
    plugins: Seq<PluginRecordView>,
    id: Seq<char>,
    es: Seq<EntryView>,
    msgs: Seq<crate::model::MessageView>,
)
    requires
        0 <= find_plugin(plugins, id) < plugins.len(),
        msgs.len() == es.len(),
        forall|i: int|
            0 <= i < msgs.len() ==> #[trigger] msgs[i] == (crate::model::MessageView::AppendEntry {
                plugin_id: id,
                entry: es[i],
            }),
    ensures
        apply_messages(plugins, msgs) == plugins.update(
            find_plugin(plugins, id),
            PluginRecordView {
                entries: plugins[find_plugin(plugins, id)].entries + es,
                ..plugins[find_plugin(plugins, id)]
            },
        ),
    decreases es.len(),
{
    let k = find_plugin(plugins, id);
    lemma_find_plugin(plugins, id);
    if es.len() == 0 {
        assert(plugins[k].entries + es =~= plugins[k].entries);
        assert(plugins.update(k, PluginRecordView { entries: plugins[k].entries + es, ..plugins[k] })
            =~= plugins);
    } else {
        let p1 = append_spec(plugins, id, es[0]);
        assert(msgs[0] == (crate::model::MessageView::AppendEntry { plugin_id: id, entry: es[0] }));
        assert(apply_message(plugins, msgs[0]) == p1);
        lemma_append_same_ids(plugins, id, es[0]);
        lemma_find_plugin_congruent(plugins, p1, id);
        assert(forall|i: int|
            0 <= i < msgs.len() - 1 ==> #[trigger] msgs.drop_first()[i] == msgs[i + 1]);
        assert(forall|i: int|
            0 <= i < es.len() - 1 ==> #[trigger] es.drop_first()[i] == es[i + 1]);
        lemma_apply_appends(p1, id, es.drop_first(), msgs.drop_first());
        assert(p1[k].entries + es.drop_first() =~= plugins[k].entries + es) by {
            assert(p1[k].entries == plugins[k].entries.push(es[0]));
        }
        assert(p1.update(k, PluginRecordView { entries: p1[k].entries + es.drop_first(), ..p1[k] })
            =~= plugins.update(
            k,
            PluginRecordView { entries: plugins[k].entries + es, ..plugins[k] },
        ));
    }
}

/// A plugin's registry entries reflect exactly the message sequence it
/// emitted since its last `Clear`: once one search round's `Clear` and
/// `AppendEntry` messages are handled in order, the emitting plugin's
/// entries are exactly the filtered set, and every other record is
/// untouched.
pub proof fn lemma_search_round_rebuilds_entries(
    plugins: Seq<PluginRecordView>,
    id: Seq<char>,
    entries: Seq<EntryView>,
    q: Seq<char>,
)
    requires
        0 <= find_plugin(plugins, id) < plugins.len(),
    ensures
        apply_messages(plugins, crate::worker::search_emissions(id, entries, q)) == plugins.update(
            find_plugin(plugins, id),
            PluginRecordView {
                entries: crate::filter::filter_entries(entries, q),
                ..plugins[find_plugin(plugins, id)]
            },
        ),
{
    let k = find_plugin(plugins, id);
    lemma_find_plugin(plugins, id);
    let msgs = crate::worker::search_emissions(id, entries, q);
    let filtered = crate::filter::filter_entries(entries, q);
    assert(msgs[0] == (crate::model::MessageView::Clear { plugin_id: id }));
    let p1 = clear_spec(plugins, id);
    assert(apply_message(plugins, msgs[0]) == p1);
    assert(p1[k].entries == Seq::<EntryView>::empty());
    assert(forall|i: int| 0 <= i < p1.len() ==> #[trigger] p1[i].id == plugins[i].id) by {
        assert(forall|i: int| 0 <= i < p1.len() && i != k ==> #[trigger] p1[i] == plugins[i]);
    }
    lemma_find_plugin_congruent(plugins, p1, id);
    let tail = msgs.drop_first();
    assert(tail.len() == filtered.len());
    assert(forall|i: int|
        0 <= i < tail.len() ==> #[trigger] tail[i] == (crate::model::MessageView::AppendEntry {
            plugin_id: id,
            entry: filtered[i],
        }));
    lemma_apply_appends(p1, id, filtered, tail);
    assert(p1[k].entries + filtered =~= filtered);
    assert(p1.update(k, PluginRecordView { entries: p1[k].entries + filtered, ..p1[k] }) =~= plugins
        .update(k, PluginRecordView { entries: filtered, ..plugins[k] }));
}

impl Controller {
    /// Everything the controller relies on between message-handling
    /// steps: a priority-sorted registry with unique ids, bounded
    /// mailboxes, and a valid selection index.
    pub open spec fn wf(&self) -> bool {
        &&& registry_wf(self@.plugins)
        &&& index_ok(self@)
    }

    pub fn new() -> (c: Self)
        ensures
            c@.query == Seq::<char>::empty(),
            c@.active_entry_index == 0,
            c@.plugins == Seq::<PluginRecordView>::empty(),
            c.wf(),
    {
        let c = Controller { query: String::new(), active_entry_index: 0, plugins: Vec::new() };
        proof {
            assert(c@.plugins =~= Seq::<PluginRecordView>::empty());
        }
        c
    }

    /// The merged navigable list: every registered plugin's current
    /// entries, concatenated in registry order.
    pub fn merged_entries(&self) -> (r: Vec<Entry>)
        ensures
            r.deep_view() == merged(self@.plugins),
    {
        let mut r: Vec<Entry> = Vec::new();
        let n = self.plugins.len();
        let mut i: usize = 0;
        proof {
            assert(r.deep_view() =~= merged(self@.plugins.take(0)));
        }
        while i < n
            invariant
                n == self.plugins@.len(),
                i <= n,
                r.deep_view() == merged(self@.plugins.take(i as int)),
            decreases n - i,
        {
            let m = self.plugins[i].entries.len();
            let mut j: usize = 0;
            while j < m
                invariant
                    n == self.plugins@.len(),
                    i < n,
                    m == self.plugins@[i as int].entries@.len(),
                    j <= m,
                    r.deep_view() == merged(self@.plugins.take(i as int))
                        + self@.plugins[i as int].entries.take(j as int),
                decreases m - j,
            {
                let e = self.plugins[i].entries[j].clone();
                let ghost prev = r.deep_view();
                let ghost ev = e@;
                r.push(e);
                proof {
                    assert(r.deep_view() =~= prev.push(ev));
                    assert(self@.plugins[i as int] == self.plugins@[i as int]@);
                    assert(ev == self@.plugins[i as int].entries[j as int]);
                    assert(self@.plugins[i as int].entries.take(j + 1) =~= self@.plugins[
                    i as int].entries.take(j as int).push(ev));
                    assert(r.deep_view() =~= merged(self@.plugins.take(i as int))
                        + self@.plugins[i as int].entries.take(j + 1));
                }
                j = j + 1;
            }
            proof {
                assert(self@.plugins[i as int].entries.take(m as int)
                    =~= self@.plugins[i as int].entries);
                lemma_merged_take_succ(self@.plugins, i as int);
                assert(r.deep_view() =~= merged(self@.plugins.take(i + 1)));
            }
            i = i + 1;
        }
        proof {
            assert(self@.plugins.take(n as int) =~= self@.plugins);
        }
        r
    }

    /// Re-clamps the selection to the current merged list.
    fn reclamp(&mut self)
        ensures
            final(self)@.plugins == old(self)@.plugins,
            final(self)@.query == old(self)@.query,
            final(self)@.active_entry_index == reclamp_spec(
                old(self)@.active_entry_index,
                merged(old(self)@.plugins).len() as int,
            ),
            index_ok(final(self)@),
    {
        let m = self.merged_entries();
        let n = m.len();
        if n == 0 {
            self.active_entry_index = 0;
        } else if self.active_entry_index >= n {
            self.active_entry_index = n - 1;
        }
    }

    /// Handles a `RegisterPlugin` message: stores the plugin record and
    /// its routing mailbox so that later searches reach every
    /// registered plugin. The record is inserted after every record of
    /// lower or equal priority value, keeping the registry sorted with
    /// ties in registration order. A duplicate id is rejected and
    /// changes nothing.
    #[verifier::loop_isolation(false)]
    pub fn handle_register(
        &mut self,
        id: String,
        priority: u32,
        title: String,
        entries: Vec<Entry>,
    ) -> (registered: bool)
        requires
            old(self).wf(),
        ensures
            final(self).wf(),
            final(self)@.query == old(self)@.query,
            registered == !has_plugin(old(self)@.plugins, id@),
            !registered ==> final(self)@.plugins == old(self)@.plugins,
            !registered ==> final(self)@.active_entry_index == old(self)@.active_entry_index,
            registered ==> final(self)@.plugins == register_spec(
                old(self)@.plugins,
                PluginRecordView {
                    id: id@,
                    priority: priority,
                    title: title@,
                    entries: entries.deep_view(),
                    mailbox: Seq::<RequestView>::empty(),
                    mailbox_capacity: MAILBOX_CAPACITY as nat,
                },
            ),
            registered ==> final(self)@.active_entry_index == reclamp_spec(
                old(self)@.active_entry_index,
                merged(final(self)@.plugins).len() as int,
            ),
    {
        let ghost s0 = old(self)@.plugins;
        let n = self.plugins.len();
        let mut i: usize = 0;
        while i < n
            invariant
                i <= n,
                forall|k: int| 0 <= k < i ==> #[trigger] self@.plugins[k].id != id@,
            decreases n - i,
        {
            if self.plugins[i].id.eq(&id) {
                proof {
                    assert(0 <= (i as int) < s0.len() && s0[i as int].id == id@);
                    assert(has_plugin(s0, id@));
                }
                return false;
            }
            i = i + 1;
        }
        proof {
            assert(!has_plugin(s0, id@));
        }
        let mut pos: usize = 0;
        while pos < n && self.plugins[pos].priority <= priority
            invariant
                pos <= n,
                forall|k: int| 0 <= k < pos ==> #[trigger] self@.plugins[k].priority <= priority,
            decreases n - pos,
        {
            pos = pos + 1;
        }
        proof {
            lemma_insert_pos(s0, priority);
            let ip = insert_pos(s0, priority);
            if ip < pos {
                assert(s0[ip].priority > priority);
                assert(s0[ip].priority <= priority);
            }
            if pos < ip {
                assert(s0[pos as int].priority <= priority);
                assert(pos < n);
                assert(self@.plugins[pos as int].priority > priority);
            }
            assert(pos as int == ip);
        }
        let rec = PluginRecord {
            id,
            priority,
            title,
            entries,
            mailbox: Mailbox::new(MAILBOX_CAPACITY),
        };
        let ghost rv = rec@;
        self.plugins.insert(pos, rec);
        proof {
            let s1 = self@.plugins;
            assert(s1 =~= s0.insert(pos as int, rv));
            assert(s1 == register_spec(s0, rv));
            assert(forall|k: int| 0 <= k < pos ==> #[trigger] s1[k] == s0[k]);
            assert(s1[pos as int] == rv);
            assert(forall|k: int| pos < k < s1.len() ==> #[trigger] s1[k] == s0[k - 1]);
            lemma_insert_pos(s0, priority);
            assert forall|a: int, b: int| 0 <= a < b < s1.len() implies #[trigger] s1[a].priority
                <= #[trigger] s1[b].priority by {
                if b < pos {
                } else if b == pos {
                    assert(s1[a] == s0[a]);
                } else if a == pos {
                    assert(b - 1 >= pos);
                    assert(s0[b - 1].priority >= priority) by {
                        if pos < s0.len() {
                            assert(s0[pos as int].priority > priority);
                            if b - 1 > pos {
                                assert(s0[pos as int].priority <= s0[b - 1].priority);
                            }
                        }
                    }
                } else if a < pos {
                    assert(s1[a] == s0[a]);
                    assert(s1[b] == s0[b - 1]);
                    assert(b - 1 >= pos);
                    if b - 1 == pos {
                        if pos < s0.len() {
                            assert(s0[b - 1].priority > priority);
                        }
                        assert(s0[a].priority <= priority);
                    }
                } else {
                }
            }
            assert forall|a: int, b: int| 0 <= a < b < s1.len() implies #[trigger] s1[a].id
                != #[trigger] s1[b].id by {
                if a == pos {
                    assert(s1[b] == s0[b - 1]);
                } else if b == pos {
                    assert(s1[a] == s0[a]);
                } else {
                }
            }
            assert(forall|k: int| 0 <= k < s1.len() ==> record_wf(#[trigger] s1[k]));
            assert(registry_wf(s1));
        }
        self.reclamp();
        true
    }

    /// Handles a `Clear(pluginId)` message: empties that plugin's entry
    /// list in the registry. An unknown id changes nothing.
    #[verifier::loop_isolation(false)]
    pub fn handle_clear(&mut self, plugin_id: &String)
        requires
            old(self).wf(),
        ensures
            final(self).wf(),
            final(self)@.query == old(self)@.query,
            final(self)@.plugins == clear_spec(old(self)@.plugins, plugin_id@),
            final(self)@.active_entry_index == reclamp_spec(
                old(self)@.active_entry_index,
                merged(final(self)@.plugins).len() as int,
            ),
    {
        let ghost s0 = old(self)@.plugins;
        proof {
            lemma_find_plugin(s0, plugin_id@);
        }
        let n = self.plugins.len();
        let mut i: usize = 0;
        while i < n
            invariant
                i <= n,
                self@ == old(self)@,
                forall|k: int| 0 <= k < i ==> #[trigger] s0[k].id != plugin_id@,
            decreases n - i,
        {
            if self.plugins[i].id.eq(plugin_id) {
                proof {
                    assert(s0[i as int].id == plugin_id@);
                    let fp = find_plugin(s0, plugin_id@);
                    if fp < i as int {
                        assert(s0[fp].id == plugin_id@);
                    }
                    if (i as int) < fp {
                        assert(s0[i as int].id != plugin_id@);
                    }
                    assert(fp == i as int);
                }
                let mut rec = self.plugins.remove(i);
                rec.entries = Vec::new();
                self.plugins.insert(i, rec);
                proof {
                    assert(rec@.entries =~= Seq::<EntryView>::empty());
                    assert(rec@ == (PluginRecordView {
                        entries: Seq::<EntryView>::empty(),
                        ..s0[i as int]
                    }));
                    assert(self@.plugins =~= clear_spec(s0, plugin_id@));
                    assert(forall|k: int|
                        0 <= k < n ==> (#[trigger] self@.plugins[k]).id == s0[k].id
                            && self@.plugins[k].priority == s0[k].priority
                            && record_wf(self@.plugins[k]));
                    assert(registry_wf(self@.plugins));
                }
                self.reclamp();
                return;
            }
            i = i + 1;
        }
        proof {
            let fp = find_plugin(s0, plugin_id@);
            if fp < s0.len() {
                assert(s0[fp].id == plugin_id@);
            }
            assert(clear_spec(s0, plugin_id@) == s0);
        }
        self.reclamp();
    }

    /// Handles an `AppendEntry(pluginId, entry)` message: appends to
    /// that plugin's list. An unknown id is dropped: the plugin must
    /// have registered first.
    #[verifier::loop_isolation(false)]
    pub fn handle_append(&mut self, plugin_id: &String, entry: Entry)
        requires
            old(self).wf(),
        ensures
            final(self).wf(),
            final(self)@.query == old(self)@.query,
            final(self)@.plugins == append_spec(old(self)@.plugins, plugin_id@, entry@),
            final(self)@.active_entry_index == reclamp_spec(
                old(self)@.active_entry_index,
                merged(final(self)@.plugins).len() as int,
            ),
    {
        let ghost s0 = old(self)@.plugins;
        let ghost ev = entry@;
        proof {
            lemma_find_plugin(s0, plugin_id@);
        }
        let n = self.plugins.len();
        let mut i: usize = 0;
        while i < n
            invariant
                i <= n,
                self@ == old(self)@,
                forall|k: int| 0 <= k < i ==> #[trigger] s0[k].id != plugin_id@,
            decreases n - i,
        {
            if self.plugins[i].id.eq(plugin_id) {
                proof {
                    assert(s0[i as int].id == plugin_id@);
                    let fp = find_plugin(s0, plugin_id@);
                    if fp < i as int {
                        assert(s0[fp].id == plugin_id@);
                    }
                    if (i as int) < fp {
                        assert(s0[i as int].id != plugin_id@);
                    }
                    assert(fp == i as int);
                }
                let mut rec = self.plugins.remove(i);
                rec.entries.push(entry);
                self.plugins.insert(i, rec);
                proof {
                    assert(rec@.entries =~= s0[i as int].entries.push(ev));
                    assert(rec@ == (PluginRecordView {
                        entries: s0[i as int].entries.push(ev),
                        ..s0[i as int]
                    }));
                    assert(self@.plugins =~= append_spec(s0, plugin_id@, ev));
                    assert(forall|k: int|
                        0 <= k < n ==> (#[trigger] self@.plugins[k]).id == s0[k].id
                            && self@.plugins[k].priority == s0[k].priority
                            && record_wf(self@.plugins[k]));
                    assert(registry_wf(self@.plugins));
                }
                self.reclamp();
                return;
            }
            i = i + 1;
        }
        proof {
            let fp = find_plugin(s0, plugin_id@);
            if fp < s0.len() {
                assert(s0[fp].id == plugin_id@);
            }
            assert(append_spec(s0, plugin_id@, ev) == s0);
        }
        self.reclamp();
    }

    /// Fans a changed query out: records it and attempts a non-blocking
    /// `Search` send into every registered plugin's request mailbox. A
    /// full mailbox drops the request; that plugin serves its next
    /// timeout with stale results instead.
    #[verifier::loop_isolation(false)]
    pub fn search(&mut self, query: String)
        requires
            old(self).wf(),
        ensures
            final(self).wf(),
            final(self)@.query == query@,
            final(self)@.active_entry_index == old(self)@.active_entry_index,
            final(self)@.plugins.len() == old(self)@.plugins.len(),
            forall|i: int|
                0 <= i < old(self)@.plugins.len() ==> final(self)@.plugins[i] == send_search_spec(
                    #[trigger] old(self)@.plugins[i],
                    query@,
                ),
    {
        let ghost s0 = old(self)@.plugins;
        let n = self.plugins.len();
        let mut i: usize = 0;
        while i < n
            invariant
                i <= n,
                self.plugins@.len() == n,
                self@.query == old(self)@.query,
                self@.active_entry_index == old(self)@.active_entry_index,
                forall|k: int|
                    0 <= k < i ==> self@.plugins[k] == send_search_spec(#[trigger] s0[k], query@),
                forall|k: int| i <= k < n ==> #[trigger] self@.plugins[k] == s0[k],
            decreases n - i,
        {
            let ghost pre = self@.plugins;
            let mut rec = self.plugins.remove(i);
            proof {
                assert(rec@ == pre[i as int]);
                assert(rec@ == s0[i as int]);
                assert(record_wf(s0[i as int]));
            }
            let _ = rec.mailbox.try_send(PluginRequest::Search(query.clone()));
            proof {
                assert(rec@ == send_search_spec(s0[i as int], query@));
            }
            self.plugins.insert(i, rec);
            proof {
                assert(self@.plugins =~= pre.update(
                    i as int,
                    send_search_spec(s0[i as int], query@),
                ));
                assert(forall|k: int|
                    0 <= k < i ==> self@.plugins[k] == send_search_spec(#[trigger] s0[k], query@));
                assert(self@.plugins[i as int] == send_search_spec(s0[i as int], query@));
                assert(forall|k: int| i < k < n ==> #[trigger] self@.plugins[k] == s0[k]);
            }
            i = i + 1;
        }
        self.query = query;
        proof {
            let s1 = self@.plugins;
            assert(forall|k: int|
                0 <= k < n ==> (#[trigger] s1[k]).id == s0[k].id && s1[k].priority
                    == s0[k].priority && s1[k].entries == s0[k].entries && record_wf(s1[k]));
            assert(registry_wf(s1));
            lemma_merged_congruent(s1, s0);
        }
    }

    /// Up navigation: wraps from the top of the merged list to its
    /// bottom, stays inside the list otherwise, and is a no-op on an
    /// empty list.
    pub fn navigate_up(&mut self)
        requires
            old(self).wf(),
        ensures
            final(self).wf(),
            final(self)@.query == old(self)@.query,
            final(self)@.plugins == old(self)@.plugins,
            ({
                let n = merged(old(self)@.plugins).len() as int;
                let idx = old(self)@.active_entry_index;
                if n == 0 {
                    final(self)@.active_entry_index == 0
                } else if idx == 0 {
                    final(self)@.active_entry_index == n - 1
                } else {
                    final(self)@.active_entry_index == idx - 1
                }
            }),
            merged(old(self)@.plugins).len() > 0 ==> 0 <= final(self)@.active_entry_index
                < merged(old(self)@.plugins).len(),
    {
        let m = self.merged_entries();
        let n = m.len();
        if n == 0 {
            self.active_entry_index = 0;
        } else if self.active_entry_index == 0 {
            self.active_entry_index = n - 1;
        } else {
            self.active_entry_index = self.active_entry_index - 1;
        }
    }

    /// Down navigation: wraps from the bottom of the merged list to its
    /// top, stays inside the list otherwise, and is a no-op on an empty
    /// list.
    pub fn navigate_down(&mut self)
        requires
            old(self).wf(),
        ensures
            final(self).wf(),
            final(self)@.query == old(self)@.query,
            final(self)@.plugins == old(self)@.plugins,
            ({
                let n = merged(old(self)@.plugins).len() as int;
                let idx = old(self)@.active_entry_index;
                if n == 0 {
                    final(self)@.active_entry_index == 0
                } else if idx == n - 1 {
                    final(self)@.active_entry_index == 0
                } else {
                    final(self)@.active_entry_index == idx + 1
                }
            }),
            merged(old(self)@.plugins).len() > 0 ==> 0 <= final(self)@.active_entry_index
                < merged(old(self)@.plugins).len(),
    {
        let m = self.merged_entries();
        let n = m.len();
        if n == 0 || self.active_entry_index == n - 1 {
            self.active_entry_index = 0;
        } else {
            self.active_entry_index = self.active_entry_index + 1;
        }
    }

    /// The id of the currently selected entry, if the merged list is
    /// not empty.
    pub fn active_entry_id(&self) -> (r: Option<String>)
        requires
            self.wf(),
        ensures
            merged(self@.plugins).len() == 0 ==> r is None,
            merged(self@.plugins).len() > 0 ==> (r matches Some(id) && id@ == merged(
                self@.plugins,
            )[self@.active_entry_index].id),
    {
        let m = self.merged_entries();
        if m.len() == 0 {
            None
        } else {
            proof {
                assert(m.deep_view()[self@.active_entry_index] == merged(
                    self@.plugins,
                )[self@.active_entry_index]);
            }
            Some(m[self.active_entry_index].id.clone())
        }
    }

    /// Routes an activation of the currently selected entry to the one
    /// plugin that owns it, by a non-blocking `Activate` send into that
    /// plugin's mailbox. On an empty merged list nothing is sent.
    /// Returns the owning plugin's registry position.
    #[verifier::loop_isolation(false)]
    pub fn activate(&mut self) -> (owner: Option<usize>)
        requires
            old(self).wf(),
        ensures
            final(self).wf(),
            final(self)@.query == old(self)@.query,
            final(self)@.active_entry_index == old(self)@.active_entry_index,
            merged(old(self)@.plugins).len() == 0 ==> owner is None && final(self)@.plugins == old(
                self,
            )@.plugins,
            merged(old(self)@.plugins).len() > 0 ==> (owner matches Some(k) && {
                let e = merged(old(self)@.plugins)[old(self)@.active_entry_index];
                let before = merged(old(self)@.plugins.take(k as int)).len();
                &&& 0 <= (k as int) < old(self)@.plugins.len()
                &&& before <= old(self)@.active_entry_index < before + old(self)@.plugins[
                    k as int].entries.len()
                &&& old(self)@.plugins[k as int].entries[old(self)@.active_entry_index
                    - before] == e
                &&& final(self)@.plugins == old(self)@.plugins.update(
                    k as int,
                    send_activate_spec(old(self)@.plugins[k as int], e.id),
                )
            }),
    {
        let ghost s0 = old(self)@.plugins;
        let m = self.merged_entries();
        if m.len() == 0 {
            return None;
        }
        let ghost target = merged(s0)[old(self)@.active_entry_index];
        let entry_id = m[self.active_entry_index].id.clone();
        proof {
            assert(m.deep_view()[self@.active_entry_index] == target);
            assert(entry_id@ == target.id);
        }
        let n = self.plugins.len();
        let mut i: usize = 0;
        let mut rem: usize = self.active_entry_index;
        proof {
            assert(s0.skip(0) =~= s0);
            assert(s0.take(0) =~= Seq::<PluginRecordView>::empty());
        }
        while i < n
            invariant
                i <= n,
                self@ == old(self)@,
                rem as int <= self@.active_entry_index,
                rem < merged(s0.skip(i as int)).len(),
                merged(s0.skip(i as int))[rem as int] == target,
                merged(s0.take(i as int)).len() == self@.active_entry_index - rem,
            decreases n - i,
        {
            proof {
                assert(s0.skip(i as int).drop_first() =~= s0.skip(i + 1));
                assert(s0.skip(i as int)[0] == s0[i as int]);
                assert(merged(s0.skip(i as int)) == s0[i as int].entries + merged(
                    s0.skip(i + 1),
                ));
            }
            let len_i = self.plugins[i].entries.len();
            proof {
                assert(len_i == s0[i as int].entries.len());
            }
            if rem < len_i {
                proof {
                    assert(s0[i as int].entries[rem as int] == target);
                }
                let ghost pre = self@.plugins;
                let mut rec = self.plugins.remove(i);
                proof {
                    assert(rec@ == pre[i as int]);
                    assert(record_wf(s0[i as int]));
                }
                let _ = rec.mailbox.try_send(PluginRequest::Activate(entry_id));
                proof {
                    assert(rec@ == send_activate_spec(s0[i as int], target.id));
                }
                self.plugins.insert(i, rec);
                proof {
                    assert(self@.plugins =~= pre.update(
                        i as int,
                        send_activate_spec(s0[i as int], target.id),
                    ));
                    let s1 = self@.plugins;
                    assert(forall|k: int|
                        0 <= k < n ==> (#[trigger] s1[k]).id == s0[k].id && s1[k].priority
                            == s0[k].priority && s1[k].entries == s0[k].entries && record_wf(
                            s1[k],
                        ));
                    assert(registry_wf(s1));
                    lemma_merged_congruent(s1, s0);
                }
                return Some(i);
            }
            rem = rem - len_i;
            proof {
                lemma_merged_take_succ(s0, i as int);
            }
            i = i + 1;
        }
        proof {
            assert(s0.skip(n as int) =~= Seq::<PluginRecordView>::empty());
            assert(false);
        }
        None
    }

    /// Takes the oldest request out of one plugin's mailbox, for the
    /// loop that forwards requests to the plugin's worker.
    pub fn take_request(&mut self, i: usize) -> (r: Option<PluginRequest>)
        requires
            old(self).wf(),
            i < old(self)@.plugins.len(),
        ensures
            final(self).wf(),
            final(self)@.query == old(self)@.query,
            final(self)@.active_entry_index == old(self)@.active_entry_index,
            final(self)@.plugins.len() == old(self)@.plugins.len(),
            forall|k: int|
                0 <= k < old(self)@.plugins.len() && k != i ==> #[trigger] final(self)@.plugins[k]
                    == old(self)@.plugins[k],
            ({
                let p = old(self)@.plugins[i as int];
                if p.mailbox.len() == 0 {
                    r is None && final(self)@.plugins[i as int] == p
                } else {
                    r.deep_view() == Some(p.mailbox[0]) && final(self)@.plugins[i as int]
                        == (PluginRecordView { mailbox: p.mailbox.drop_first(), ..p })
                }
            }),
    {
        let ghost s0 = old(self)@.plugins;
        let ghost pre = self@.plugins;
        let mut rec = self.plugins.remove(i);
        proof {
            assert(rec@ == s0[i as int]);
            assert(record_wf(s0[i as int]));
        }
        let r = rec.mailbox.try_recv();
        self.plugins.insert(i, rec);
        proof {
            let p = s0[i as int];
            if p.mailbox.len() == 0 {
                assert(self@.plugins =~= s0);
            } else {
                assert(self@.plugins =~= s0.update(
                    i as int,
                    PluginRecordView { mailbox: p.mailbox.drop_first(), ..p },
                ));
            }
            let s1 = self@.plugins;
            assert(forall|k: int|
                0 <= k < s1.len() ==> (#[trigger] s1[k]).id == s0[k].id && s1[k].priority
                    == s0[k].priority && s1[k].entries == s0[k].entries && record_wf(s1[k]));
            assert(registry_wf(s1));
            lemma_merged_congruent(s1, s0);
        }
        r
    }

    /// How many plugins are registered.
    pub fn plugin_count(&self) -> (n: usize)
        ensures
            n == self@.plugins.len(),
    {
        self.plugins.len()
    }

    /// The id of the plugin at one registry position.
    pub fn plugin_id_at(&self, i: usize) -> (id: String)
        requires
            i < self@.plugins.len(),
        ensures
            id@ == self@.plugins[i as int].id,
    {
        self.plugins[i].id.clone()
    }

    /// One step of the controller's message loop: dispatches one
    /// message a plugin emitted. Returns whether the plugin asked the
    /// application to exit; the decision to act on it stays with the
    /// caller, as the request is advisory.
    pub fn handle_message(&mut self, msg: ControllerMessage) -> (exit: bool)
        requires
            old(self).wf(),
        ensures
            final(self).wf(),
            final(self)@.query == old(self)@.query,
            match msg@ {
                crate::model::MessageView::RegisterPlugin { id, priority, title, entries } => {
                    &&& !exit
                    &&& !has_plugin(old(self)@.plugins, id) ==> final(self)@.plugins
                        == register_spec(
                        old(self)@.plugins,
                        PluginRecordView {
                            id: id,
                            priority: priority,
                            title: title,
                            entries: entries,
                            mailbox: Seq::<RequestView>::empty(),
                            mailbox_capacity: MAILBOX_CAPACITY as nat,
                        },
                    )
                    &&& has_plugin(old(self)@.plugins, id) ==> final(self)@.plugins == old(
                        self,
                    )@.plugins
                },
                crate::model::MessageView::Clear { plugin_id } => {
                    &&& !exit
                    &&& final(self)@.plugins == clear_spec(old(self)@.plugins, plugin_id)
                },
                crate::model::MessageView::AppendEntry { plugin_id, entry } => {
                    &&& !exit
                    &&& final(self)@.plugins == append_spec(old(self)@.plugins, plugin_id, entry)
                },
                crate::model::MessageView::Exit => {
                    &&& exit
                    &&& final(self)@ == old(self)@
                },
            },
    {
        match msg {
            ControllerMessage::RegisterPlugin { id, priority, title, entries } => {
                let _ = self.handle_register(id, priority, title, entries);
                false
            },
            ControllerMessage::Clear { plugin_id } => {
                self.handle_clear(&plugin_id);
                false
            },
            ControllerMessage::AppendEntry { plugin_id, entry } => {
                self.handle_append(&plugin_id, entry);
                false
            },
            ControllerMessage::Exit => true,
        }
    }
}

} // verus!
