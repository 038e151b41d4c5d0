//! The pure search/filter utility: reduce an ordered entry sequence
//! against a query string, keeping the entries whose title or meta text
//! contains the query case-insensitively, in their original order.
//! Case-insensitivity means ASCII case folding: `'A'..='Z'` compare
//! equal to their lower-case counterparts, every other character only
//! to itself.

use vstd::prelude::*;

use crate::model::{Entry, EntryView};
use crate::text::{contains_insens, contains_insensitive, lower_seq, match_at};

verus! {

/// An entry matches a query when its title or its meta text contains the
/// query as a substring, up to ASCII case.
pub open spec fn entry_matches(e: EntryView, q: Seq<char>) -> bool {
    contains_insensitive(e.title, q) || contains_insensitive(e.meta, q)
}

/// The subsequence of `s` whose members match `q`, in original order.
pub open spec fn filter_entries(s: Seq<EntryView>, q: Seq<char>) -> Seq<EntryView> {
    s.filter(|e: EntryView| entry_matches(e, q))
}

/// Executable matcher for one entry.
pub fn entry_matches_exec(e: &Entry, query: &str) -> (r: bool)
    ensures
        r == entry_matches(e@, query@),
{
    if contains_insens(e.title.as_str(), query) {
        true
    } else {
        contains_insens(e.meta.as_str(), query)
    }
}

proof fn lemma_filter_push(s: Seq<EntryView>, q: Seq<char>, e: EntryView)
    ensures
        entry_matches(e, q) ==> filter_entries(s.push(e), q) == filter_entries(s, q).push(e),
        !entry_matches(e, q) ==> filter_entries(s.push(e), q) == filter_entries(s, q),
{
    reveal(Seq::filter);
    assert(s.push(e).drop_last() =~= s);
    assert(s.push(e).last() == e);
}

/// The filter utility itself: pure, no side effects.
pub fn search_entries(entries: &Vec<Entry>, query: &str) -> (r: Vec<Entry>)
    ensures
        r.deep_view() == filter_entries(entries.deep_view(), query@),
{
    let n = entries.len();
    let mut r: Vec<Entry> = Vec::new();
    let mut i: usize = 0;
    while i < n
        invariant
            n == entries@.len(),
            i <= n,
            r.deep_view() == filter_entries(entries.deep_view().take(i as int), query@),
        decreases n - i,
    {
        let matched = entry_matches_exec(&entries[i], query);
        proof {
            assert(entries.deep_view().take(i + 1) =~= entries.deep_view().take(i as int).push(
                entries@[i as int]@,
            ));
            lemma_filter_push(entries.deep_view().take(i as int), query@, entries@[i as int]@);
        }
        if matched {
            r.push(entries[i].clone());
            proof {
                assert(r.deep_view() =~= filter_entries(
                    entries.deep_view().take(i as int),
                    query@,
                ).push(entries@[i as int]@));
            }
        }
        i = i + 1;
    }
    proof {
        assert(entries.deep_view().take(n as int) =~= entries.deep_view());
    }
    r
}

/// `sub` is an order-preserving subsequence of `full`: some strictly
/// increasing index map carries `sub` into `full`.
pub open spec fn subsequence_map(f: Seq<int>, sub: Seq<EntryView>, full: Seq<EntryView>) -> bool {
    &&& f.len() == sub.len()
    &&& (forall|i: int|
        0 <= i < f.len() ==> 0 <= #[trigger] f[i] < full.len() && full[f[i]] == sub[i])
    &&& (forall|i: int, j: int| 0 <= i < j < f.len() ==> #[trigger] f[i] < #[trigger] f[j])
}

pub open spec fn is_subsequence(sub: Seq<EntryView>, full: Seq<EntryView>) -> bool {
    exists|f: Seq<int>| subsequence_map(f, sub, full)
}

/// The filtered sequence is an order-preserving subsequence of its input.
pub proof fn lemma_filter_is_subsequence(s: Seq<EntryView>, q: Seq<char>)
    ensures
        is_subsequence(filter_entries(s, q), s),
    decreases s.len(),
{
    reveal(Seq::filter);
    if s.len() == 0 {
        let f = Seq::<int>::empty();
        assert(filter_entries(s, q) =~= Seq::<EntryView>::empty());
        assert(subsequence_map(f, filter_entries(s, q), s));
    } else {
        let s0 = s.drop_last();
        let e = s.last();
        lemma_filter_is_subsequence(s0, q);
        let f0 = choose|f0: Seq<int>| subsequence_map(f0, filter_entries(s0, q), s0);
        assert(subsequence_map(f0, filter_entries(s0, q), s0));
        assert(forall|i: int| 0 <= i < s0.len() ==> s[i] == s0[i]);
        if entry_matches(e, q) {
            let f = f0.push(s.len() - 1);
            assert(filter_entries(s, q) == filter_entries(s0, q).push(e));
            assert(f.len() == filter_entries(s, q).len());
            assert(forall|i: int|
                0 <= i < f.len() ==> 0 <= #[trigger] f[i] < s.len() && s[f[i]] == filter_entries(
                    s,
                    q,
                )[i]) by {
                assert(forall|i: int|
                    0 <= i < f0.len() ==> #[trigger] f[i] == f0[i] && filter_entries(s, q)[i]
                        == filter_entries(s0, q)[i]);
                assert(f[f.len() - 1] == s.len() - 1);
                assert(s[s.len() - 1] == e);
                assert(filter_entries(s, q)[f.len() - 1] == e);
            }
            assert(forall|i: int, j: int| 0 <= i < j < f.len() ==> #[trigger] f[i] < #[trigger] f[j]) by {
                assert(forall|i: int, j: int|
                    0 <= i < j < f0.len() ==> #[trigger] f0[i] < #[trigger] f0[j]);
                assert(forall|i: int| 0 <= i < f0.len() ==> #[trigger] f0[i] < s0.len());
            }
            assert(subsequence_map(f, filter_entries(s, q), s));
        } else {
            assert(filter_entries(s, q) == filter_entries(s0, q));
            assert(f0.len() == filter_entries(s, q).len());
            assert(forall|i: int|
                0 <= i < f0.len() ==> 0 <= #[trigger] f0[i] < s.len() && s[f0[i]]
                    == filter_entries(s, q)[i]);
            assert(subsequence_map(f0, filter_entries(s, q), s));
        }
    }
}

/// Every filtered entry matches the query.
pub proof fn lemma_filter_entries_match(s: Seq<EntryView>, q: Seq<char>)
    ensures
        forall|i: int|
            0 <= i < filter_entries(s, q).len() ==> entry_matches(
                #[trigger] filter_entries(s, q)[i],
                q,
            ),
{
    broadcast use vstd::seq_lib::group_filter_ensures;

    assert(filter_entries(s, q) == s.filter(|e: EntryView| entry_matches(e, q)));
}

/// Every entry matches the empty query.
pub proof fn lemma_empty_query_matches_all(e: EntryView)
    ensures
        entry_matches(e, Seq::<char>::empty()),
{
    assert(lower_seq(Seq::<char>::empty()) =~= Seq::<char>::empty());
    assert(match_at(lower_seq(e.title), Seq::<char>::empty(), 0));
}

/// The empty query keeps the full sequence unchanged.
pub proof fn lemma_filter_empty_query(s: Seq<EntryView>)
    ensures
        filter_entries(s, Seq::<char>::empty()) == s,
    decreases s.len(),
{
    reveal(Seq::filter);
    if s.len() == 0 {
        assert(filter_entries(s, Seq::<char>::empty()) =~= s);
    } else {
        lemma_filter_empty_query(s.drop_last());
        lemma_empty_query_matches_all(s.last());
        assert(filter_entries(s, Seq::<char>::empty()) =~= s.drop_last().push(s.last()));
        assert(s.drop_last().push(s.last()) =~= s);
    }
}

} // verus!
