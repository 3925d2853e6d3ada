//! Staleness evaluation: given the modification times of an object artifact,
//! its source file and the source's transitive headers, decide whether the
//! source must be recompiled.

use vstd::prelude::*;

verus! {

/// A recorded file modification time, as a plain tick count; files absent
/// from the record do not exist.
#[derive(Debug, Clone)]
pub struct MtimeEntry {
    pub path: String,
    pub mtime: u64,
}

pub open spec fn mt_model(s: Seq<MtimeEntry>) -> Seq<(Seq<char>, u64)> {
    Seq::new(s.len(), |i: int| (s[i].path@, s[i].mtime))
}

/// First-match lookup of a path's recorded mtime.
pub open spec fn spec_mtime_lookup(m: Seq<(Seq<char>, u64)>, key: Seq<char>) -> Option<u64>
    decreases m.len(),
{
    if m.len() == 0 {
        None
    } else if m[0].0 == key {
        Some(m[0].1)
    } else {
        spec_mtime_lookup(m.drop_first(), key)
    }
}

pub fn mtime_lookup(meta: &Vec<MtimeEntry>, key: &String) -> (r: Option<u64>)
    ensures
        r == spec_mtime_lookup(mt_model(meta@), key@),
{
    let ghost m = mt_model(meta@);
    let mut i: usize = 0;
    proof {
        assert(m.skip(0) =~= m);
    }
    while i < meta.len()
        invariant
            i <= meta.len(),
            m == mt_model(meta@),
            m.len() == meta@.len(),
            spec_mtime_lookup(m, key@) == spec_mtime_lookup(m.skip(i as int), key@),
        decreases meta.len() - i,
    {
        if meta[i].path == *key {
            proof {
                assert(m.skip(i as int)[0] == m[i as int]);
            }
            return Some(meta[i].mtime);
        }
        proof {
            assert(m.skip(i as int)[0] == m[i as int]);
            assert(m.skip(i as int).drop_first() =~= m.skip(i + 1 as int));
        }
        i += 1;
    }
    proof {
        assert(m.skip(meta@.len() as int) =~= Seq::<(Seq<char>, u64)>::empty());
    }
    None
}

/// Why a source file must be rebuilt. The conditions are decided in this
/// order, first match wins; each can be reported on its own.
#[derive(Clone, Copy, Debug, PartialEq, Eq, Structural)]
pub enum RebuildReason {
    /// The object artifact does not exist.
    ArtifactMissing,
    /// The artifact is older than the source file.
    OlderThanSource,
    /// The artifact is older than the transitive header at this index.
    OlderThanHeader(usize),
}

/// A recorded modification time: `None` when the file does not exist.
pub open spec fn spec_needs_rebuild(obj: Option<u64>, src: u64, hdrs: Seq<u64>) -> bool {
    match obj {
        None => true,
        Some(o) => o < src || exists|i: int| 0 <= i < hdrs.len() && o < hdrs[i],
    }
}

/// Decides rebuild necessity from modification times alone. `obj` is the
/// artifact's mtime (`None`: absent), `src` the source's, `hdrs` those of
/// the transitive headers, in resolution order.
pub fn rebuild_decision(obj: Option<u64>, src: u64, hdrs: &Vec<u64>) -> (r: Option<RebuildReason>)
    ensures
        (r is Some) == spec_needs_rebuild(obj, src, hdrs@),
        r == Some(RebuildReason::ArtifactMissing) <==> obj is None,
        r == Some(RebuildReason::OlderThanSource) <==> (obj matches Some(o) && o < src),
        forall|k: usize|
            r == Some(RebuildReason::OlderThanHeader(k)) ==> (obj matches Some(o) && src <= o
                && 0 <= k < hdrs@.len() && o < hdrs@[k as int] && (forall|j: int|
                0 <= j < k ==> hdrs@[j] <= o)),
{
    match obj {
        None => Some(RebuildReason::ArtifactMissing),
        Some(o) => {
            if o < src {
                Some(RebuildReason::OlderThanSource)
            } else {
                let mut i: usize = 0;
                while i < hdrs.len()
                    invariant
                        i <= hdrs.len(),
                        obj == Some(o),
                        src <= o,
                        forall|j: int| 0 <= j < i ==> hdrs@[j] <= o,
                    decreases hdrs.len() - i,
                {
                    if o < hdrs[i] {
                        proof {
                            let w = i as int;
                            assert(0 <= w < hdrs@.len() && o < hdrs@[w]);
                            assert(exists|q: int| 0 <= q < hdrs@.len() && o < hdrs@[q]);
                        }
                        return Some(RebuildReason::OlderThanHeader(i));
                    }
                    i += 1;
                }
                None
            }
        },
    }
}

/// With no headers, staleness depends on the artifact and source times
/// alone: an absent artifact forces a rebuild, an artifact at least as new
/// as the source suppresses it.
pub proof fn lemma_staleness_empty_headers(obj: Option<u64>, src: u64, hdrs: Seq<u64>)
    requires
        hdrs.len() == 0,
    ensures
        spec_needs_rebuild(obj, src, hdrs) <==> (obj is None || (obj matches Some(o) && o < src)),
{
}

} // verus!
