//! File metadata as the synchronizer sees it, and the staleness oracle.

use vstd::prelude::*;

verus! {

/// A file's last-modification instant: whole seconds since some fixed epoch,
/// plus a sub-second nanosecond part.
#[derive(Clone, Copy, Debug, PartialEq, Eq, Structural)]
pub struct Timestamp {
    pub secs: i64,
    pub nanos: u32,
}

/// The metadata of one file that the staleness decision reads: its byte
/// length and, when it could be retrieved, its modification time.
#[derive(Clone, Copy, Debug)]
#[verifier::ext_equal]
pub struct FileMeta {
    pub len: u64,
    pub mtime: Option<Timestamp>,
}

/// What the staleness oracle answers: the target must be (re)copied exactly
/// when it is absent, when either modification time is unavailable, or when
/// length or modification time disagree with the source.
pub open spec fn spec_needs_update(source: FileMeta, target: Option<FileMeta>) -> bool {
    match target {
        None => true,
        Some(t) => match (source.mtime, t.mtime) {
            (Some(sm), Some(tm)) => source.len != t.len || sm != tm,
            _ => true,
        },
    }
}

/// Lifts a borrowed optional metadata value to its mathematical content.
pub open spec fn opt_meta(target: Option<&FileMeta>) -> Option<FileMeta> {
    match target {
        Some(m) => Some(*m),
        None => None,
    }
}

/// The staleness oracle: a pure decision, no I/O.
///
/// A target that exists with a retrievable modification time is kept only if
/// both its byte length and its modification time equal the source's; the
/// comparison is exact inequality, not newer-than. Every doubtful situation
/// (absent target, unavailable timestamp on either side) answers `true`,
/// failing safe toward a re-copy.
pub fn needs_update(source: &FileMeta, target: Option<&FileMeta>) -> (stale: bool)
    ensures
        stale == spec_needs_update(*source, opt_meta(target)),
{
    match target {
        None => true,
        Some(t) => match (source.mtime, t.mtime) {
            (Some(sm), Some(tm)) => source.len != t.len || sm != tm,
            _ => true,
        },
    }
}

/// A target whose byte length differs from the source's is stale, even when
/// the modification times agree.
pub proof fn lemma_length_mismatch_stale(source: FileMeta, target: FileMeta)
    requires
        source.len != target.len,
    ensures
        spec_needs_update(source, Some(target)),
{
}

/// A target whose modification time differs from the source's is stale, even
/// when the byte lengths agree; an unavailable time on either side counts as
/// differing.
pub proof fn lemma_mtime_mismatch_stale(source: FileMeta, target: FileMeta)
    requires
        source.mtime != target.mtime,
    ensures
        spec_needs_update(source, Some(target)),
{
}

/// A target is kept exactly when it exists and agrees with the source in
/// byte length and in a modification time that both sides could retrieve.
pub proof fn lemma_up_to_date_characterization(source: FileMeta, target: Option<FileMeta>)
    ensures
        !spec_needs_update(source, target) <==> (target matches Some(t) && t.len == source.len
            && source.mtime is Some && t.mtime == source.mtime),
{
}

} // verus!
