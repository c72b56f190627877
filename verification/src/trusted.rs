//! The trusted boundary: every call into an outside crate, and into the
//! few std functions vstd gives no specification, goes through here.

use vstd::prelude::*;

use crate::strops::contains_seq;
use crate::types::{Meta, WalkEvent};
use ignore::WalkBuilder;

verus! {

/// What `str::to_lowercase` returns for a given character sequence.
/// Unicode case folding takes pages to state, so the result only gets a
/// name here; it depends on the input characters alone.
pub uninterp spec fn lower_of(s: Seq<char>) -> Seq<char>;

/// Relies on `str::to_lowercase`: the result depends on the characters
/// alone, and an empty string stays empty.
#[verifier::external_body]
pub fn lowercase(s: &str) -> (r: String)
    ensures
        r@ == lower_of(s@),
        s@.len() == 0 ==> r@.len() == 0,
{
    s.to_lowercase()
}

/// Relies on `str::contains` with a `&str` pattern: true exactly when the
/// pattern occurs as a contiguous substring.
#[verifier::external_body]
pub fn str_contains(s: &str, pat: &str) -> (r: bool)
    ensures
        r == contains_seq(s@, pat@),
{
    s.contains(pat)
}

/// Relies on `String::push`: appends one character.
#[verifier::external_body]
pub fn push_char(s: &mut String, c: char)
    ensures
        final(s)@ == old(s)@.push(c),
{
    s.push(c)
}

#[verifier::external_type_specification]
#[verifier::external_body]
pub struct ExWalk(ignore::Walk);

#[verifier::external_type_specification]
#[verifier::external_body]
pub struct ExDirEntry(ignore::DirEntry);

#[verifier::external_type_specification]
#[verifier::external_body]
pub struct ExIgnoreError(ignore::Error);

/// Relies on `ignore::WalkBuilder`: a recursive walk of the subtree under
/// `root` that skips hidden entries and entries excluded by
/// version-control ignore files (the builder's `hidden` and `git_ignore`
/// filters). What it yields depends on the filesystem, so nothing is
/// claimed of it.
#[verifier::external_body]
pub fn build_search_walk(root: &str) -> ignore::Walk {
    WalkBuilder::new(root).hidden(true).git_ignore(true).build()
}

/// Relies on `ignore::WalkBuilder`: a recursive walk of the subtree under
/// `root` with every standard filter off, so hidden entries are included
/// and ignore files are not consulted.
#[verifier::external_body]
pub fn build_full_walk(root: &str) -> ignore::Walk {
    WalkBuilder::new(root).standard_filters(false).build()
}

/// Relies on `ignore::WalkBuilder` with `max_depth(Some(1))`: yields the
/// root and its immediate children only, with every standard filter off.
#[verifier::external_body]
pub fn build_shallow_walk(root: &str) -> ignore::Walk {
    WalkBuilder::new(root).standard_filters(false).max_depth(Some(1)).build()
}

/// Relies on `ignore::Walk` as an `Iterator`: hands back the next entry,
/// or a walk error, or `None` once the walk is exhausted. The entry's
/// name, path, depth and metadata are moved over into plain values; a
/// metadata read failure becomes `meta: None`. What comes back depends on
/// the filesystem, so nothing is claimed of it.
#[verifier::external_body]
pub fn walk_next(w: &mut ignore::Walk) -> (r: Option<WalkEvent>) {
    match w.next() {
        None => None,
        Some(Err(e)) => Some(WalkEvent::Failed { msg: e.to_string() }),
        Some(Ok(d)) => Some(WalkEvent::Found {
            name: d.file_name().to_string_lossy().to_string(),
            path: d.path().to_string_lossy().to_string(),
            depth: d.depth(),
            meta: match d.metadata() {
                Ok(m) => Some(Meta { is_dir: m.is_dir(), is_file: m.is_file(), len: m.len() }),
                Err(_) => None,
            },
        }),
    }
}

/// Relies on `std::path::Path::is_dir`: whether the path names an
/// existing, accessible directory. Depends on the filesystem, so nothing
/// is claimed of the result.
#[verifier::external_body]
pub fn fs_is_dir(p: &str) -> bool {
    std::path::Path::new(p).is_dir()
}

#[verifier::external_type_specification]
#[verifier::external_body]
pub struct ExInstant(std::time::Instant);

/// Relies on `std::time::Instant::now`: the current instant.
#[verifier::external_body]
pub fn clock_now() -> std::time::Instant {
    std::time::Instant::now()
}

/// Relies on `Instant::elapsed`: the wall-clock time since the instant,
/// in whole milliseconds, truncated into a `u64`. Depends on the clock,
/// so nothing is claimed of the result.
#[verifier::external_body]
pub fn clock_elapsed_ms(t: &std::time::Instant) -> u64 {
    t.elapsed().as_millis() as u64
}

} // verus!
