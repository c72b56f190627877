//! The bounded search engine: it consumes the events of a directory walk
//! one by one, counts every visited entry, matches names against the
//! lowered query, accepts matches up to the result cap, and asks the walk
//! to halt once the cap is reached. Its whole behaviour is pinned to a
//! recursive specification over the event sequence.

use vstd::prelude::*;

use crate::sort::{
    lemma_spec_sort_len, lemma_spec_sort_preserves, lemma_spec_sort_sorted, sort_entries,
    sorted_entries, spec_sort,
};
use crate::strops::{lemma_empty_query_matches, match_ok, name_matches};
use crate::trusted::{lower_of, lowercase};
use crate::types::{FileInfo, Meta, SearchResponse, SearchStats, WalkEvent, MAX_RESULTS};

verus! {

/// The engine's abstract state: the accepted matches in discovery order,
/// the count of visited entries, and whether the cap has asked the walk
/// to halt.
pub struct SearchSt {
    pub results: Seq<FileInfo>,
    pub visited: nat,
    pub halted: bool,
}

/// One more visited entry; the counter saturates rather than wraps.
pub open spec fn sat_inc(v: nat) -> nat {
    if v < usize::MAX as nat {
        v + 1
    } else {
        v
    }
}

/// The size recorded for an entry: its byte length for regular files,
/// 0 for everything else.
pub open spec fn entry_size(m: Meta) -> u64 {
    if m.is_file {
        m.len
    } else {
        0
    }
}

/// How one walk event changes the engine's state. After a halt nothing
/// changes. A walk failure is absorbed. A found entry is counted, then:
/// if the cap is already reached the engine halts; otherwise a matching
/// entry with readable metadata is accepted.
pub open spec fn step_state(st: SearchSt, ev: WalkEvent, qlow: Seq<char>) -> SearchSt {
    if st.halted {
        st
    } else {
        match ev {
            WalkEvent::Failed { msg: _ } => st,
            WalkEvent::Found { name, path, depth: _, meta } => {
                let st1 = SearchSt { results: st.results, visited: sat_inc(st.visited), halted: st.halted };
                if st1.results.len() >= MAX_RESULTS {
                    SearchSt { results: st1.results, visited: st1.visited, halted: true }
                } else if !match_ok(name@, qlow) {
                    st1
                } else {
                    match meta {
                        None => st1,
                        Some(m) => SearchSt {
                            results: st1.results.push(
                                FileInfo { name, path, is_dir: m.is_dir, size: entry_size(m) },
                            ),
                            visited: st1.visited,
                            halted: st1.halted,
                        },
                    }
                }
            },
        }
    }
}

/// The engine's state after a whole sequence of walk events.
pub open spec fn fold_events(events: Seq<WalkEvent>, qlow: Seq<char>) -> SearchSt
    decreases events.len(),
{
    if events.len() == 0 {
        SearchSt { results: Seq::empty(), visited: 0, halted: false }
    } else {
        step_state(fold_events(events.drop_last(), qlow), events.last(), qlow)
    }
}

/// The results a search hands back for a given traversal: the accepted
/// matches in the finalizer's order.
pub open spec fn spec_search_results(events: Seq<WalkEvent>, qlow: Seq<char>) -> Seq<FileInfo> {
    spec_sort(fold_events(events, qlow).results)
}

/// The standing invariants of the engine's state: never more results
/// than the cap, no fewer visits than results, every result matches the
/// query, and a halted engine holds exactly the cap.
pub proof fn lemma_fold_invariants(events: Seq<WalkEvent>, qlow: Seq<char>)
    ensures
        fold_events(events, qlow).results.len() <= MAX_RESULTS,
        fold_events(events, qlow).visited >= fold_events(events, qlow).results.len(),
        forall|i: int|
            0 <= i < fold_events(events, qlow).results.len() ==> match_ok(
                #[trigger] fold_events(events, qlow).results[i].name@,
                qlow,
            ),
        fold_events(events, qlow).halted ==> fold_events(events, qlow).results.len()
            == MAX_RESULTS,
    decreases events.len(),
{
    if events.len() == 0 {
    } else {
        lemma_fold_invariants(events.drop_last(), qlow);
    }
}

/// Walk failures are absorbed: a failure event anywhere in the traversal
/// leaves the engine's state exactly as if the event had not occurred,
/// so matches from the accessible parts of the tree are still returned.
pub proof fn lemma_failed_events_ignored(
    pre: Seq<WalkEvent>,
    msg: String,
    post: Seq<WalkEvent>,
    qlow: Seq<char>,
)
    ensures
        fold_events(pre + seq![WalkEvent::Failed { msg }] + post, qlow) == fold_events(
            pre + post,
            qlow,
        ),
    decreases post.len(),
{
    let f = WalkEvent::Failed { msg };
    if post.len() == 0 {
        assert(pre + seq![f] + post =~= pre + seq![f]);
        assert(pre + post =~= pre);
        assert((pre + seq![f]).drop_last() =~= pre);
        assert((pre + seq![f]).last() == f);
    } else {
        lemma_failed_events_ignored(pre, msg, post.drop_last(), qlow);
        assert((pre + seq![f] + post).drop_last() =~= pre + seq![f] + post.drop_last());
        assert((pre + seq![f] + post).last() == post.last());
        assert((pre + post).drop_last() =~= pre + post.drop_last());
        assert((pre + post).last() == post.last());
    }
}

/// Once the engine has halted, the remaining events change nothing.
pub proof fn lemma_fold_halted(events: Seq<WalkEvent>, qlow: Seq<char>, i: int)
    requires
        0 <= i <= events.len(),
        fold_events(events.take(i), qlow).halted,
    ensures
        fold_events(events, qlow) == fold_events(events.take(i), qlow),
    decreases events.len() - i,
{
    if i == events.len() {
        assert(events.take(i) =~= events);
    } else {
        assert(events.take(i + 1).drop_last() =~= events.take(i));
        assert(events.take(i + 1).last() == events[i]);
        lemma_fold_halted(events, qlow, i + 1);
    }
}

/// Idempotence: the same traversal events and the same lowered query
/// always give the same result sequence.
pub proof fn lemma_search_idempotent(
    e1: Seq<WalkEvent>,
    e2: Seq<WalkEvent>,
    q1: Seq<char>,
    q2: Seq<char>,
)
    requires
        e1 == e2,
        q1 == q2,
    ensures
        spec_search_results(e1, q1) == spec_search_results(e2, q2),
{
}

/// The readable entries a traversal found, in discovery order, with no
/// cap and no query applied.
pub open spec fn all_found(events: Seq<WalkEvent>) -> Seq<FileInfo>
    decreases events.len(),
{
    if events.len() == 0 {
        Seq::empty()
    } else {
        all_found(events.drop_last()) + match events.last() {
            WalkEvent::Found { name, path, depth: _, meta: Some(m) } => seq![
                FileInfo { name, path, is_dir: m.is_dir, size: entry_size(m) },
            ],
            _ => Seq::empty(),
        }
    }
}

/// How many entries of a traversal the cap lets through.
pub open spec fn capped_len(n: nat) -> nat {
    if n < MAX_RESULTS {
        n
    } else {
        MAX_RESULTS as nat
    }
}

/// An empty query accepts every readable entry the walk yields, up to
/// the cap: the engine's results are exactly the first entries found.
pub proof fn lemma_empty_query_returns_all(events: Seq<WalkEvent>, qlow: Seq<char>)
    requires
        qlow.len() == 0,
    ensures
        fold_events(events, qlow).results == all_found(events).take(
            capped_len(all_found(events).len()) as int,
        ),
    decreases events.len(),
{
    if events.len() == 0 {
        assert(fold_events(events, qlow).results =~= all_found(events).take(0));
    } else {
        let prev = events.drop_last();
        lemma_empty_query_returns_all(prev, qlow);
        lemma_fold_invariants(prev, qlow);
        let st = fold_events(prev, qlow);
        let af = all_found(prev);
        let afn = all_found(events);
        assert(st.results.len() == capped_len(af.len()));
        match events.last() {
            WalkEvent::Failed { msg: _ } => {
                assert(afn =~= af);
            },
            WalkEvent::Found { name, path, depth: _, meta } => {
                lemma_empty_query_matches(name@, qlow);
                match meta {
                    None => {
                        assert(afn =~= af);
                    },
                    Some(m) => {
                        let fi = FileInfo { name, path, is_dir: m.is_dir, size: entry_size(m) };
                        assert(afn =~= af.push(fi));
                        if st.halted || st.results.len() >= MAX_RESULTS {
                            assert(af.len() >= MAX_RESULTS);
                            assert(capped_len(afn.len()) == MAX_RESULTS as nat);
                            assert(afn.take(MAX_RESULTS as int) =~= af.take(MAX_RESULTS as int));
                        } else {
                            assert(af.len() < MAX_RESULTS);
                            assert(st.results == af.take(af.len() as int));
                            assert(af.take(af.len() as int) =~= af);
                            assert(afn.take(afn.len() as int) =~= afn);
                            assert(st.results.push(fi) =~= afn);
                        }
                    },
                }
            },
        }
    }
}

/// The running state of one search invocation.
pub struct SearchEngine {
    pub results: Vec<FileInfo>,
    pub visited: usize,
    pub halted: bool,
    pub query_lower: String,
    pub events: Ghost<Seq<WalkEvent>>,
}

impl SearchEngine {
    /// The engine's data agrees with the specification's fold over the
    /// events it has consumed.
    pub open spec fn wf(self) -> bool {
        let st = fold_events(self.events@, self.query_lower@);
        self.results@ == st.results && self.visited as nat == st.visited && self.halted
            == st.halted
    }

    /// A fresh engine for one search: the query is lowered once here.
    pub fn new(query: &str) -> (r: SearchEngine)
        ensures
            r.wf(),
            r.events@ == Seq::<WalkEvent>::empty(),
            r.query_lower@ == lower_of(query@),
    {
        SearchEngine {
            results: Vec::new(),
            visited: 0,
            halted: false,
            query_lower: lowercase(query),
            events: Ghost(Seq::empty()),
        }
    }

    /// Consume one walk event.
    pub fn step(&mut self, ev: WalkEvent)
        requires
            old(self).wf(),
        ensures
            final(self).wf(),
            final(self).events@ == old(self).events@.push(ev),
            final(self).query_lower == old(self).query_lower,
    {
        proof {
            assert(self.events@.push(ev).drop_last() =~= self.events@);
            assert(self.events@.push(ev).last() == ev);
        }
        self.events = Ghost(self.events@.push(ev));
        if self.halted {
            return ;
        }
        match ev {
            WalkEvent::Failed { msg: _ } => {},
            WalkEvent::Found { name, path, depth: _, meta } => {
                if self.visited < usize::MAX {
                    self.visited = self.visited + 1;
                }
                if self.results.len() >= MAX_RESULTS {
                    self.halted = true;
                } else if name_matches(name.as_str(), self.query_lower.as_str()) {
                    match meta {
                        None => {},
                        Some(m) => {
                            let size = if m.is_file {
                                m.len
                            } else {
                                0
                            };
                            self.results.push(FileInfo { name, path, is_dir: m.is_dir, size });
                        },
                    }
                }
            },
        }
    }

    /// Whether the cap has been reached and the walk should stop.
    pub fn is_halted(&self) -> (r: bool)
        ensures
            r == self.halted,
    {
        self.halted
    }

    /// Finalize: sort the accepted matches (directories first, then
    /// ascending case-insensitive name order) and assemble the
    /// statistics. The results are capped, every one matches the query,
    /// and the visit count is never below the match count.
    pub fn finish(self, elapsed_ms: u64) -> (r: SearchResponse)
        requires
            self.wf(),
        ensures
            r.results@ == spec_search_results(self.events@, self.query_lower@),
            r.stats.matches_found == r.results@.len(),
            r.stats.files_indexed as nat == fold_events(self.events@, self.query_lower@).visited,
            r.stats.elapsed_ms == elapsed_ms,
            r.stats.files_indexed >= r.stats.matches_found,
            r.results@.len() <= MAX_RESULTS,
            forall|i: int|
                0 <= i < r.results@.len() ==> match_ok(
                    #[trigger] r.results@[i].name@,
                    self.query_lower@,
                ),
            sorted_entries(r.results@),
    {
        let ghost events = self.events@;
        let ghost qlow = self.query_lower@;
        proof {
            lemma_fold_invariants(events, qlow);
            lemma_spec_sort_len(fold_events(events, qlow).results);
            lemma_spec_sort_sorted(fold_events(events, qlow).results);
            lemma_spec_sort_preserves(
                fold_events(events, qlow).results,
                |fi: FileInfo| match_ok(fi.name@, qlow),
            );
        }
        let SearchEngine { results, visited, halted: _, query_lower: _, events: _ } = self;
        let sorted = sort_entries(results);
        let matches_found = sorted.len();
        SearchResponse {
            results: sorted,
            stats: SearchStats { elapsed_ms, files_indexed: visited, matches_found },
        }
    }
}

/// Run a whole search over an already collected sequence of walk events:
/// lower the query, feed the engine until it halts or the events run out,
/// and finalize with the given elapsed time.
pub fn run_search(events: Vec<WalkEvent>, query: &str, elapsed_ms: u64) -> (r: SearchResponse)
    ensures
        r.results@ == spec_search_results(events@, lower_of(query@)),
        r.stats.matches_found == r.results@.len(),
        r.stats.files_indexed as nat == fold_events(events@, lower_of(query@)).visited,
        r.stats.elapsed_ms == elapsed_ms,
        r.stats.files_indexed >= r.stats.matches_found,
        r.results@.len() <= MAX_RESULTS,
        forall|i: int|
            0 <= i < r.results@.len() ==> match_ok(#[trigger] r.results@[i].name@, lower_of(query@)),
        sorted_entries(r.results@),
{
    let ghost orig = events@;
    let n = events.len();
    let mut events = events;
    let mut eng = SearchEngine::new(query);
    let mut i: usize = 0;
    proof {
        assert(orig.take(0) =~= Seq::<WalkEvent>::empty());
        assert(orig.skip(0) =~= orig);
    }
    while events.len() > 0 && !eng.is_halted()
        invariant
            i <= n,
            orig.len() == n,
            events@ == orig.skip(i as int),
            eng.wf(),
            eng.events@ == orig.take(i as int),
            eng.query_lower@ == lower_of(query@),
        decreases events.len(),
    {
        proof {
            assert(orig.skip(i as int).len() > 0);
        }
        let ev = events.remove(0);
        proof {
            assert(orig.skip(i as int)[0] == orig[i as int]);
            assert(orig.skip(i as int).remove(0) =~= orig.skip(i + 1));
            assert(orig.take(i as int).push(orig[i as int]) =~= orig.take(i + 1));
        }
        eng.step(ev);
        i = i + 1;
    }
    proof {
        if eng.halted {
            lemma_fold_halted(orig, lower_of(query@), i as int);
        } else {
            assert(orig.skip(i as int).len() == 0);
            assert(i == n);
            assert(orig.take(i as int) =~= orig);
        }
    }
    eng.finish(elapsed_ms)
}

} // verus!
