//! The operations the front end invokes: the bounded search, the flat
//! directory listing, the folder-size accumulator, and the small
//! formatting helpers for greeting and drive entries.

use vstd::prelude::*;

use crate::engine::SearchEngine;
use crate::sort::{
    lemma_spec_sort_preserves, lemma_spec_sort_sorted, sort_entries, sorted_entries, spec_sort,
};
use crate::strops::match_ok;
use crate::trusted::{
    build_full_walk, build_search_walk, build_shallow_walk, clock_elapsed_ms, clock_now,
    fs_is_dir, lower_of, push_char, walk_next,
};
use crate::types::{DriveInfo, FileInfo, SearchResponse, WalkEvent, MAX_RESULTS};

verus! {

/// Search the subtree under `start_path` for entries whose name contains
/// `query` case-insensitively, honoring hidden-file and version-control
/// ignore rules, up to the result cap. Never fails: an invalid root
/// yields empty results with zero statistics.
pub fn search_files(start_path: &str, query: &str) -> (r: Result<SearchResponse, String>)
    ensures
        r is Ok,
        r->Ok_0.results@.len() <= MAX_RESULTS,
        forall|i: int|
            0 <= i < r->Ok_0.results@.len() ==> match_ok(
                #[trigger] r->Ok_0.results@[i].name@,
                lower_of(query@),
            ),
        sorted_entries(r->Ok_0.results@),
        r->Ok_0.stats.matches_found == r->Ok_0.results@.len(),
        r->Ok_0.stats.files_indexed >= r->Ok_0.stats.matches_found,
{
    let t0 = clock_now();
    let mut walk = build_search_walk(start_path);
    let mut eng = SearchEngine::new(query);
    let mut fuel: usize = usize::MAX;
    while fuel > 0
        invariant
            eng.wf(),
            eng.query_lower@ == lower_of(query@),
        decreases fuel,
    {
        fuel = fuel - 1;
        if eng.is_halted() {
            break ;
        }
        match walk_next(&mut walk) {
            None => {
                break ;
            },
            Some(ev) => {
                eng.step(ev);
            },
        }
    }
    let elapsed = clock_elapsed_ms(&t0);
    Ok(eng.finish(elapsed))
}

/// An entry name passes the hidden-name filter: either hidden entries
/// were asked for, or the name does not start with a dot.
pub open spec fn keep_name(name: Seq<char>, show_hidden: bool) -> bool {
    show_hidden || name.len() == 0 || name[0] != '.'
}

/// Whether a name is hidden by the dot convention.
pub fn is_hidden_name(name: &str) -> (r: bool)
    ensures
        r == (name@.len() > 0 && name@[0] == '.'),
{
    if name.unicode_len() == 0 {
        false
    } else {
        let c = name.get_char(0);
        c == '.'
    }
}

/// The entry a listing keeps for one walk event: an immediate child
/// (depth 1) with readable metadata whose name passes the hidden filter.
pub open spec fn kept_entry(ev: WalkEvent, show_hidden: bool) -> Option<FileInfo> {
    match ev {
        WalkEvent::Found { name, path, depth, meta } => match meta {
            Some(m) => if depth == 1 && keep_name(name@, show_hidden) {
                Some(
                    FileInfo {
                        name,
                        path,
                        is_dir: m.is_dir,
                        size: crate::engine::entry_size(m),
                    },
                )
            } else {
                None
            },
            None => None,
        },
        WalkEvent::Failed { msg: _ } => None,
    }
}

/// The entries a listing keeps, in discovery order, before sorting.
pub open spec fn flat_entries(events: Seq<WalkEvent>, show_hidden: bool) -> Seq<FileInfo>
    decreases events.len(),
{
    if events.len() == 0 {
        Seq::empty()
    } else {
        flat_entries(events.drop_last(), show_hidden) + match kept_entry(
            events.last(),
            show_hidden,
        ) {
            Some(fi) => seq![fi],
            None => Seq::empty(),
        }
    }
}

/// The message of the first walk failure, if any.
pub open spec fn first_failure(events: Seq<WalkEvent>) -> Option<Seq<char>>
    decreases events.len(),
{
    if events.len() == 0 {
        None
    } else {
        match first_failure(events.drop_last()) {
            Some(m) => Some(m),
            None => match events.last() {
                WalkEvent::Failed { msg } => Some(msg@),
                WalkEvent::Found { .. } => None,
            },
        }
    }
}

/// A failure already seen stays the first failure, whatever follows.
proof fn lemma_first_failure_extend(a: Seq<WalkEvent>, b: Seq<WalkEvent>)
    requires
        first_failure(a) is Some,
    ensures
        first_failure(a + b) == first_failure(a),
    decreases b.len(),
{
    if b.len() == 0 {
        assert(a + b =~= a);
    } else {
        lemma_first_failure_extend(a, b.drop_last());
        assert((a + b).drop_last() =~= a + b.drop_last());
    }
}

/// Every entry a listing keeps passes the hidden-name filter.
proof fn lemma_flat_entries_keep(events: Seq<WalkEvent>, show_hidden: bool)
    ensures
        forall|i: int|
            0 <= i < flat_entries(events, show_hidden).len() ==> keep_name(
                #[trigger] flat_entries(events, show_hidden)[i].name@,
                show_hidden,
            ),
    decreases events.len(),
{
    if events.len() == 0 {
    } else {
        lemma_flat_entries_keep(events.drop_last(), show_hidden);
        let pre = flat_entries(events.drop_last(), show_hidden);
        let all = flat_entries(events, show_hidden);
        assert forall|i: int| 0 <= i < all.len() implies keep_name(
            #[trigger] all[i].name@,
            show_hidden,
        ) by {
            if i < pre.len() {
                assert(all[i] == pre[i]);
            } else {
                match kept_entry(events.last(), show_hidden) {
                    Some(fi) => {
                        assert(all[i] == fi);
                    },
                    None => {},
                }
            }
        }
    }
}

/// Assemble a directory listing from the events of a shallow walk: the
/// first walk failure fails the listing; otherwise the kept entries are
/// handed back sorted, directories first then ascending case-insensitive
/// name order.
#[verifier::loop_isolation(false)]
pub fn build_listing(events: Vec<WalkEvent>, show_hidden: bool) -> (r: Result<Vec<FileInfo>, String>)
    ensures
        (first_failure(events@) matches Some(m) ==> r is Err && r->Err_0@ == m),
        first_failure(events@) is None ==> r is Ok && r->Ok_0@ == spec_sort(
            flat_entries(events@, show_hidden),
        ),
{
    let ghost orig = events@;
    let n = events.len();
    let mut events = events;
    let mut acc: Vec<FileInfo> = Vec::new();
    let mut i: usize = 0;
    proof {
        assert(orig.take(0) =~= Seq::<WalkEvent>::empty());
        assert(orig.skip(0) =~= orig);
    }
    while events.len() > 0
        invariant
            i <= n,
            orig.len() == n,
            events@ == orig.skip(i as int),
            first_failure(orig.take(i as int)) is None,
            acc@ == flat_entries(orig.take(i as int), show_hidden),
        decreases events.len(),
    {
        proof {
            assert(orig.skip(i as int).len() > 0);
        }
        let ev = events.remove(0);
        proof {
            assert(orig.skip(i as int)[0] == orig[i as int]);
            assert(orig.skip(i as int).remove(0) =~= orig.skip(i + 1));
            assert(orig.take(i as int).push(orig[i as int]) =~= orig.take(i + 1));
            assert(orig.take(i + 1).drop_last() =~= orig.take(i as int));
        }
        match ev {
            WalkEvent::Failed { msg } => {
                proof {
                    assert(orig[i as int] == WalkEvent::Failed { msg });
                    assert(orig.take(i + 1).last() == orig[i as int]);
                    assert(first_failure(orig.take(i + 1)) == Some(msg@));
                    lemma_first_failure_extend(orig.take(i + 1), orig.skip(i + 1));
                    assert(orig.take(i + 1) + orig.skip(i + 1) =~= orig);
                    assert(first_failure(orig) == Some(msg@));
                }
                return Err(msg);
            },
            WalkEvent::Found { name, path, depth, meta } => {
                match meta {
                    None => {},
                    Some(m) => {
                        if depth == 1 {
                            if show_hidden || !is_hidden_name(name.as_str()) {
                                let size = if m.is_file {
                                    m.len
                                } else {
                                    0
                                };
                                acc.push(FileInfo { name, path, is_dir: m.is_dir, size });
                            }
                        }
                    },
                }
            },
        }
        i = i + 1;
    }
    proof {
        assert(orig.skip(i as int).len() == 0);
        assert(i == n);
        assert(orig.take(i as int) =~= orig);
    }
    Ok(sort_entries(acc))
}

/// List the immediate children of `path`, hidden entries only when asked
/// for, sorted directories first then ascending case-insensitive name
/// order. Fails when the path cannot be opened as a directory.
pub fn list_directory_contents(path: &str, search_hidden: Option<bool>) -> (r: Result<
    Vec<FileInfo>,
    String,
>)
    ensures
        r is Ok ==> sorted_entries(r->Ok_0@),
        r is Ok ==> forall|i: int|
            0 <= i < r->Ok_0@.len() ==> keep_name(
                #[trigger] r->Ok_0@[i].name@,
                search_hidden.unwrap_or(false),
            ),
{
    let show_hidden = search_hidden.unwrap_or(false);
    if !fs_is_dir(path) {
        return Err(String::from_str("Not a directory"));
    }
    let mut walk = build_shallow_walk(path);
    let mut events: Vec<WalkEvent> = Vec::new();
    let mut fuel: usize = usize::MAX;
    while fuel > 0
        decreases fuel,
    {
        fuel = fuel - 1;
        match walk_next(&mut walk) {
            None => {
                break ;
            },
            Some(ev) => {
                events.push(ev);
            },
        }
    }
    let ghost evs = events@;
    let r = build_listing(events, show_hidden);
    proof {
        if first_failure(evs) is None {
            lemma_flat_entries_keep(evs, show_hidden);
            lemma_spec_sort_preserves(
                flat_entries(evs, show_hidden),
                |fi: FileInfo| keep_name(fi.name@, show_hidden),
            );
            lemma_spec_sort_sorted(flat_entries(evs, show_hidden));
        }
    }
    r
}

/// Saturating addition on byte counts.
pub open spec fn sat_add_u64(a: u64, b: u64) -> u64 {
    if a + b > u64::MAX {
        u64::MAX
    } else {
        (a + b) as u64
    }
}

/// Saturating sum of a sequence of byte counts.
pub open spec fn sat_sum(s: Seq<u64>) -> u64
    decreases s.len(),
{
    if s.len() == 0 {
        0
    } else {
        sat_add_u64(sat_sum(s.drop_last()), s.last())
    }
}

/// The byte sizes of the readable regular files a walk found, in
/// discovery order.
pub open spec fn file_sizes(events: Seq<WalkEvent>) -> Seq<u64>
    decreases events.len(),
{
    if events.len() == 0 {
        Seq::empty()
    } else {
        file_sizes(events.drop_last()) + match events.last() {
            WalkEvent::Found { name: _, path: _, depth: _, meta } => match meta {
                Some(m) => if m.is_file {
                    seq![m.len]
                } else {
                    Seq::empty()
                },
                None => Seq::empty(),
            },
            WalkEvent::Failed { msg: _ } => Seq::empty(),
        }
    }
}

/// Sum a list of byte sizes, saturating instead of overflowing.
pub fn sum_file_sizes(sizes: &Vec<u64>) -> (r: u64)
    ensures
        r == sat_sum(sizes@),
{
    let mut total: u64 = 0;
    let mut i: usize = 0;
    proof {
        assert(sizes@.take(0) =~= Seq::<u64>::empty());
    }
    while i < sizes.len()
        invariant
            i <= sizes@.len(),
            total == sat_sum(sizes@.take(i as int)),
        decreases sizes@.len() - i,
    {
        let s = sizes[i];
        proof {
            assert(sizes@.take(i + 1).drop_last() =~= sizes@.take(i as int));
            assert(sizes@.take(i + 1).last() == sizes@[i as int]);
        }
        if s > u64::MAX - total {
            total = u64::MAX;
        } else {
            total = total + s;
        }
        i = i + 1;
    }
    proof {
        assert(sizes@.take(i as int) =~= sizes@);
    }
    total
}

/// The folder-size accumulator over the events of a full walk: the
/// saturating sum of every readable regular file's size. Unreadable
/// entries and walk failures contribute nothing.
pub fn folder_size_from_events(events: &Vec<WalkEvent>) -> (r: u64)
    ensures
        r == sat_sum(file_sizes(events@)),
{
    let mut sizes: Vec<u64> = Vec::new();
    let mut i: usize = 0;
    proof {
        assert(events@.take(0) =~= Seq::<WalkEvent>::empty());
    }
    while i < events.len()
        invariant
            i <= events@.len(),
            sizes@ == file_sizes(events@.take(i as int)),
        decreases events@.len() - i,
    {
        proof {
            assert(events@.take(i + 1).drop_last() =~= events@.take(i as int));
            assert(events@.take(i + 1).last() == events@[i as int]);
        }
        match &events[i] {
            WalkEvent::Found { name: _, path: _, depth: _, meta } => {
                match meta {
                    Some(m) => {
                        if m.is_file {
                            sizes.push(m.len);
                        }
                    },
                    None => {},
                }
            },
            WalkEvent::Failed { msg: _ } => {},
        }
        i = i + 1;
    }
    proof {
        assert(events@.take(i as int) =~= events@);
    }
    sum_file_sizes(&sizes)
}

/// Recursively sum the byte size of every regular file under `path`,
/// hidden entries included. Fails when the path is not an existing
/// directory; unreadable entries are skipped, not fatal.
pub fn calculate_folder_size(path: &str) -> (r: Result<u64, String>)
    ensures
        r is Err ==> r->Err_0@ == "Invalid directory path"@,
{
    if !fs_is_dir(path) {
        return Err(String::from_str("Invalid directory path"));
    }
    let mut walk = build_full_walk(path);
    let mut events: Vec<WalkEvent> = Vec::new();
    let mut fuel: usize = usize::MAX;
    while fuel > 0
        decreases fuel,
    {
        fuel = fuel - 1;
        match walk_next(&mut walk) {
            None => {
                break ;
            },
            Some(ev) => {
                events.push(ev);
            },
        }
    }
    Ok(folder_size_from_events(&events))
}

/// The drive entry shown for one drive letter.
pub fn drive_entry(letter: char) -> (r: DriveInfo)
    ensures
        r.path@ == seq![letter, ':', '\\'],
        r.name@ == "Drive ("@ + seq![letter] + ":)"@,
{
    let mut path = String::new();
    push_char(&mut path, letter);
    path.append(":\\");
    let mut name = String::from_str("Drive (");
    push_char(&mut name, letter);
    name.append(":)");
    proof {
        reveal_strlit(":\\");
        assert(Seq::<char>::empty().push(letter) + ":\\"@ =~= seq![letter, ':', '\\']);
    }
    DriveInfo { path, name }
}

/// The greeting the front end shows for a name.
pub fn greet(name: &str) -> (r: String)
    ensures
        r@ == "Hello, "@ + name@ + "! You've been greeted from Rust!"@,
{
    let mut s = String::from_str("Hello, ");
    s.append(name);
    s.append("! You've been greeted from Rust!");
    s
}

} // verus!
