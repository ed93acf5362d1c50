//! The manifest of the filter cache and the test of its validity.

use crate::text::same_text;
use vstd::prelude::*;

verus! {

/// The version of the manifest layout.
pub const CACHE_VERSION: u32 = 3;

/// The name under which the manifest holds the time stamp of the program
/// itself.
pub const BINARY_KEY: &'static str = "<binary>";

/// A single filter as the cache holds it.
#[derive(Debug, Clone)]
pub struct CachedFilter {
    /// The rule set, serialized as JSON.
    pub config_json: String,
    pub source_path: String,
    pub relative_path: String,
    pub priority: u8,
}

/// The manifest of the cache: version guard, time stamps, and the filter
/// list.
#[derive(Debug)]
pub struct ResolvedManifest {
    pub version: u32,
    /// The path of each search directory with the time of its last
    /// change, and the entry of the program itself.
    pub dir_mtimes: Vec<(String, u64)>,
    pub filters: Vec<CachedFilter>,
}

/// The views of a list of time stamps.
pub open spec fn mtime_views(mtimes: Seq<(String, u64)>) -> Seq<(Seq<char>, u64)> {
    mtimes.map_values(|m: (String, u64)| (m.0@, m.1))
}

/// The time stamps of the search directories, followed by the entry of the
/// program itself.
pub fn compute_mtimes(dir_mtimes: Vec<(String, u64)>, binary_mtime: u64) -> (out: Vec<
    (String, u64),
>)
    ensures
        mtime_views(out@) == mtime_views(dir_mtimes@).push((BINARY_KEY@, binary_mtime)),
{
    let mut out = dir_mtimes;
    out.push((BINARY_KEY.to_owned(), binary_mtime));
    assert(mtime_views(out@) =~= mtime_views(dir_mtimes@).push((BINARY_KEY@, binary_mtime)));
    out
}

/// Returns true iff the cached manifest is still valid: it has the current
/// version, and its time stamps are the current ones.
pub fn is_cache_valid(manifest: &ResolvedManifest, current: &[(String, u64)]) -> (out: bool)
    ensures
        out == (manifest.version == CACHE_VERSION && mtime_views(manifest.dir_mtimes@)
            == mtime_views(current@)),
{
    if manifest.version != CACHE_VERSION {
        return false;
    }
    let ghost a = mtime_views(manifest.dir_mtimes@);
    let ghost b = mtime_views(current@);
    if manifest.dir_mtimes.len() != current.len() {
        assert(a.len() != b.len());
        return false;
    }
    let mut i: usize = 0;
    while i < current.len()
        invariant
            i <= current.len() == manifest.dir_mtimes.len(),
            a == mtime_views(manifest.dir_mtimes@),
            b == mtime_views(current@),
            forall|j: int| 0 <= j < i ==> a[j] == b[j],
        decreases current.len() - i,
    {
        let same = manifest.dir_mtimes[i].1 == current[i].1 && same_text(
            manifest.dir_mtimes[i].0.as_str(),
            current[i].0.as_str(),
        );
        if !same {
            assert(a[i as int] != b[i as int]);
            return false;
        }
        i += 1;
    }
    assert(a =~= b);
    true
}

} // verus!
