//! Source cache: staleness of the extracted source tree, the snapshot URL,
//! and which archive entries belong in the cache.

use vstd::prelude::*;
use crate::date::Date;
use crate::strutil::views;

verus! {

/// Whether the cached tree can be kept or must be fetched again.
#[derive(Clone, Copy, PartialEq, Eq, Structural, Debug)]
pub enum CacheDecision {
    /// The marker matches the requested hash: nothing to do.
    Fresh,
    /// No marker, or another hash: purge and fetch.
    Refetch,
}

/// The decision as a function of the marker file's content (if the file
/// exists) and the requested commit hash.
pub open spec fn cache_decision_spec(marker: Option<Seq<char>>, hash: Seq<char>) -> CacheDecision {
    match marker {
        Some(m) => if m == hash {
            CacheDecision::Fresh
        } else {
            CacheDecision::Refetch
        },
        None => CacheDecision::Refetch,
    }
}

/// Decides whether the cache is fresh for the requested hash.
pub fn cache_decision(marker: &Option<String>, hash: &String) -> (r: CacheDecision)
    ensures
        r == cache_decision_spec(
            match *marker {
                Some(m) => Some(m@),
                None => None,
            },
            hash@,
        ),
{
    match marker {
        Some(m) => if *m == *hash {
            CacheDecision::Fresh
        } else {
            CacheDecision::Refetch
        },
        None => CacheDecision::Refetch,
    }
}

/// The address of the packaged source snapshot for a nightly date.
pub open spec fn snapshot_url_spec(date: Seq<char>) -> Seq<char> {
    "http://static.rust-lang.org/dist/"@ + date + "/rustc-nightly-src.tar.gz"@
}

/// Builds the snapshot URL for the nightly of the given date.
pub fn snapshot_url(nightly: &Date) -> (r: String)
    requires
        nightly.well_formed(),
    ensures
        r@ == snapshot_url_spec(nightly.ymd_seq()),
{
    let mut out = "http://static.rust-lang.org/dist/".to_owned();
    let d = nightly.format_ymd();
    out.append(d.as_str());
    out.append("/rustc-nightly-src.tar.gz");
    out
}

/// Everything the executor must do to make the cache fresh.
pub enum SourcePlan {
    /// The marker matches: no fetch, no change on disk.
    UpToDate,
    /// Purge the cache directory, fetch `url`, unpack what
    /// [`tar_entry_dest`] keeps, then write `marker` to the marker file.
    Fetch { url: String, marker: String },
}

impl SourcePlan {
    /// Whether this plan fetches nothing.
    pub open spec fn is_noop(self) -> bool {
        self is UpToDate
    }
}

/// Plans the source-cache stage: a no-op exactly when the marker already
/// holds the requested hash; otherwise a fetch of the snapshot for the
/// nightly date which ends by writing that hash to the marker.
pub fn source_plan(marker: &Option<String>, hash: &String, nightly: &Date) -> (r: SourcePlan)
    requires
        nightly.well_formed(),
    ensures
        r.is_noop() <==> cache_decision_spec(
            match *marker {
                Some(m) => Some(m@),
                None => None,
            },
            hash@,
        ) is Fresh,
        r matches SourcePlan::Fetch { url, marker: mk } ==> url@ == snapshot_url_spec(
            nightly.ymd_seq(),
        ) && mk@ == hash@,
{
    match cache_decision(marker, hash) {
        CacheDecision::Fresh => SourcePlan::UpToDate,
        CacheDecision::Refetch => SourcePlan::Fetch {
            url: snapshot_url(nightly),
            marker: hash.clone(),
        },
    }
}

/// Where an archive entry with the given path components belongs under the
/// cache directory: entries under the archive's `<top-level>/src/` keep what
/// follows those two components; every other entry is skipped.
pub open spec fn tar_entry_dest_spec(c: Seq<Seq<char>>) -> Option<Seq<Seq<char>>> {
    if c.len() >= 2 && c[1] == "src"@ {
        Some(c.subrange(2, c.len() as int))
    } else {
        None
    }
}

/// Decides whether an archive entry is unpacked, and to which relative path.
pub fn tar_entry_dest(components: &Vec<String>) -> (r: Option<Vec<String>>)
    ensures
        (match r {
            Some(v) => Some(views(v@)),
            None => None,
        }) == tar_entry_dest_spec(views(components@)),
{
    let key = "src".to_owned();
    if components.len() >= 2 && components[1] == key {
        let mut out: Vec<String> = Vec::new();
        let mut i: usize = 2;
        proof {
            assert(views(out@) =~= views(components@).subrange(2, 2));
        }
        while i < components.len()
            invariant
                2 <= i <= components@.len(),
                components@.len() >= 2,
                views(out@) == views(components@).subrange(2, i as int),
            decreases components@.len() - i,
        {
            out.push(components[i].clone());
            proof {
                crate::strutil::lemma_views_push(out@.drop_last(), out@.last());
                assert(out@.drop_last().push(out@.last()) =~= out@);
                assert(views(components@).subrange(2, i + 1) =~= views(components@).subrange(
                    2,
                    i as int,
                ).push(views(components@)[i as int]));
            }
            i = i + 1;
        }
        Some(out)
    } else {
        None
    }
}

/// The name of the marker file beside the cached tree.
pub fn marker_file_name() -> (r: String)
    ensures
        r@ == ".commit-hash"@,
{
    ".commit-hash".to_owned()
}

/// The name of the cache directory under the output directory.
pub fn source_dir_name() -> (r: String)
    ensures
        r@ == "src"@,
{
    "src".to_owned()
}

/// A marker written by a completed run makes the next run with the same hash
/// a no-op: the cache never fetches twice for one hash.
pub proof fn lemma_cache_idempotent(h: Seq<char>)
    ensures
        cache_decision_spec(Some(h), h) is Fresh,
{
}

/// A marker holding any other hash is stale: the tree is purged and fetched
/// again, and the plan ends by writing the requested hash to the marker.
pub proof fn lemma_cache_staleness(m: Seq<char>, h: Seq<char>)
    requires
        m != h,
    ensures
        cache_decision_spec(Some(m), h) is Refetch,
{
}

} // verus!
