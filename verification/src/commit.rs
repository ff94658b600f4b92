//! The safe commit protocol, over a model of the two directories it touches.
//!
//! A commit stages the collected file set under a temporary sibling of the
//! destination, validates that every file already present at the destination
//! carries the generation marker, and only then swaps the staged directory
//! into place in one step.  A leftover temporary directory from a crashed
//! run is cleared first, with bounded retries for transient locks.  The
//! destination is never touched on any failure path.
//!
//! The filesystem is modelled by [`Disk`]: the runner that performs the real
//! directory operations feeds in what deletion attempts ran into and mirrors
//! the steps the model takes.

use vstd::prelude::*;
use vstd::string::*;
use crate::collector::FileCollector;
use crate::collector::FileMap;

verus! {

/// What one deletion attempt on a leftover temporary directory ran into:
/// success, a transient lock worth retrying, or a hard failure.
#[derive(Clone, Copy, PartialEq, Eq, Structural, Debug)]
pub enum DeleteOutcome {
    Deleted,
    Busy,
    Failed,
}

/// The two directories the protocol touches: the destination and its
/// temporary sibling, each either absent or holding a file set.
pub struct Disk {
    pub dest: Option<FileMap>,
    pub temp: Option<FileMap>,
}

/// Why a commit failed.
#[derive(Debug)]
pub enum CommitError {
    /// The leftover temporary directory could not be removed within the
    /// bounded retries; `attempts` is the attempt that gave up.
    CleanupFailed { attempts: usize },
    /// The destination holds files the generator does not own: their
    /// relative paths, and whether the scan stopped before listing them all.
    UnsafeOverwrite { unknown: Vec<String>, at_least: bool },
}

/// How many deletion attempts the cleanup makes.
pub open spec fn retry_limit() -> int {
    3
}

/// How many unknown files the destination scan tolerates before stopping.
pub open spec fn max_unknown() -> int {
    4
}

/// Cleanup succeeds exactly when a deletion attempt succeeds within the
/// retry bound, every earlier attempt having failed transiently.
pub open spec fn cleanup_ok(sch: Seq<DeleteOutcome>) -> bool
    recommends
        sch.len() >= retry_limit(),
{
    sch[0] == DeleteOutcome::Deleted || (sch[0] == DeleteOutcome::Busy && (sch[1]
        == DeleteOutcome::Deleted || (sch[1] == DeleteOutcome::Busy && sch[2]
        == DeleteOutcome::Deleted)))
}

/// The attempt at which a failing cleanup gives up: the first attempt that
/// is not a transient lock, or the last attempt.
pub open spec fn cleanup_attempts(sch: Seq<DeleteOutcome>) -> int
    recommends
        sch.len() >= retry_limit(),
{
    if sch[0] != DeleteOutcome::Busy {
        1
    } else if sch[1] != DeleteOutcome::Busy {
        2
    } else {
        3
    }
}

/// Clears a leftover temporary directory from a prior crashed run.  Each
/// entry of `outcomes` reports what the corresponding deletion attempt ran
/// into; a transient lock is retried up to the bound, anything else fails
/// the commit before a single file is written.
pub fn try_delete_tmp_dir(temp: &mut Option<FileMap>, outcomes: &Vec<DeleteOutcome>) -> (r: Result<
    (),
    CommitError,
>)
    requires
        outcomes@.len() >= retry_limit(),
    ensures
        *old(temp) is None ==> r is Ok,
        *old(temp) is Some ==> (r is Ok <==> cleanup_ok(outcomes@)),
        r is Ok ==> *final(temp) is None,
        r is Err ==> *final(temp) == *old(temp) && (r matches Err(CommitError::CleanupFailed {
            attempts,
        }) && attempts == cleanup_attempts(outcomes@)),
{
    if temp.is_none() {
        return Ok(());
    }
    let mut attempt: usize = 0;
    loop
        invariant
            *temp == *old(temp),
            *temp is Some,
            outcomes@.len() >= 3,
            0 <= attempt <= 2,
            forall|j: int| 0 <= j < attempt ==> outcomes@[j] == DeleteOutcome::Busy,
        decreases 2 - attempt,
    {
        match outcomes[attempt] {
            DeleteOutcome::Deleted => {
                *temp = None;
                return Ok(());
            },
            DeleteOutcome::Busy => {
                if attempt >= 2 {
                    return Err(CommitError::CleanupFailed { attempts: 3 });
                }
                attempt = attempt + 1;
            },
            DeleteOutcome::Failed => {
                return Err(CommitError::CleanupFailed { attempts: attempt + 1 });
            },
        }
    }
}

/// The paths of the entries whose contents lack the marker, in directory
/// order.
pub open spec fn unknown_paths(entries: Seq<(Seq<char>, Seq<char>)>) -> Seq<Seq<char>>
    decreases entries.len(),
{
    if entries.len() == 0 {
        Seq::empty()
    } else {
        let rest = unknown_paths(entries.drop_last());
        if crate::collector::is_generated_content(entries.last().1) {
            rest
        } else {
            rest.push(entries.last().0)
        }
    }
}

/// Every file of the directory carries the marker.
pub open spec fn all_generated(entries: Seq<(Seq<char>, Seq<char>)>) -> bool {
    forall|i: int|
        0 <= i < entries.len() ==> crate::collector::is_generated_content(
            #[trigger] entries[i].1,
        )
}

/// The unknown paths a scan reports: all of them, or the first few when the
/// scan stopped early past the bound.
pub open spec fn reported_unknown(entries: Seq<(Seq<char>, Seq<char>)>) -> Seq<Seq<char>> {
    let u = unknown_paths(entries);
    if u.len() > max_unknown() + 1 {
        u.subrange(0, max_unknown() + 1)
    } else {
        u
    }
}

proof fn lemma_unknown_append(a: Seq<(Seq<char>, Seq<char>)>, b: Seq<(Seq<char>, Seq<char>)>)
    ensures
        unknown_paths(a + b) == unknown_paths(a) + unknown_paths(b),
    decreases b.len(),
{
    if b.len() == 0 {
        assert(a + b =~= a);
        assert(unknown_paths(a) + unknown_paths(b) =~= unknown_paths(a));
    } else {
        lemma_unknown_append(a, b.drop_last());
        assert((a + b).drop_last() =~= a + b.drop_last());
        assert((a + b).last() == b.last());
        if !crate::collector::is_generated_content(b.last().1) {
            assert(unknown_paths(a) + unknown_paths(b.drop_last()).push(b.last().0) =~= (
            unknown_paths(a) + unknown_paths(b.drop_last())).push(b.last().0));
        }
    }
}

proof fn lemma_no_unknown_iff_all_generated(entries: Seq<(Seq<char>, Seq<char>)>)
    ensures
        (unknown_paths(entries).len() == 0) <==> all_generated(entries),
    decreases entries.len(),
{
    if entries.len() > 0 {
        lemma_no_unknown_iff_all_generated(entries.drop_last());
        assert forall|i: int| 0 <= i < entries.len() - 1 implies entries.drop_last()[i]
            == entries[i] by {}
        assert(entries.last() == entries[entries.len() - 1]);
    }
}

/// Scans a present destination directory and decides whether it is safe to
/// replace: it is exactly when every file there carries the marker.  The
/// scan stops early once more unknown files than the bound are seen, so the
/// reported list holds all unknown paths or the first few of them.  Nothing
/// is deleted here.
pub fn validate_destination(dir: &FileMap) -> (r: Result<(), CommitError>)
    ensures
        r is Ok <==> all_generated(dir@),
        r is Err ==> (r matches Err(CommitError::UnsafeOverwrite { unknown, at_least })
            && unknown@.map_values(|s: String| s@) == reported_unknown(dir@) && at_least == (
        unknown_paths(dir@).len() >= max_unknown())),
{
    let mut unknown: Vec<String> = Vec::new();
    let n = dir.len();
    let mut i: usize = 0;
    proof {
        assert(unknown@.map_values(|s: String| s@) =~= unknown_paths(dir@.subrange(0, 0)));
    }
    while i < n && unknown.len() <= 4
        invariant
            i <= n,
            n == dir@.len(),
            unknown@.map_values(|s: String| s@) == unknown_paths(dir@.subrange(0, i as int)),
            unknown@.len() <= max_unknown() + 1,
        decreases n - i,
    {
        let entry = dir.entry_at(i);
        let generated = crate::collector::is_generated(entry.1.as_str());
        proof {
            assert(dir@.subrange(0, i as int + 1).drop_last() =~= dir@.subrange(0, i as int));
            assert(dir@.subrange(0, i as int + 1).last() == dir@[i as int]);
        }
        if !generated {
            unknown.push(entry.0.clone());
            proof {
                assert(unknown@.map_values(|s: String| s@) =~= unknown_paths(
                    dir@.subrange(0, i as int + 1),
                ));
            }
        }
        i = i + 1;
    }
    proof {
        if i == n {
            assert(dir@.subrange(0, n as int) =~= dir@);
        } else {
            assert(unknown@.len() == max_unknown() + 1);
            lemma_unknown_append(dir@.subrange(0, i as int), dir@.subrange(i as int, n as int));
            assert(dir@.subrange(0, i as int) + dir@.subrange(i as int, n as int) =~= dir@);
            let up = unknown_paths(dir@.subrange(0, i as int));
            let ur = unknown_paths(dir@.subrange(i as int, n as int));
            assert(unknown_paths(dir@) == up + ur);
            assert(unknown_paths(dir@).subrange(0, max_unknown() + 1) =~= up);
        }
        lemma_no_unknown_iff_all_generated(dir@);
    }
    if unknown.len() == 0 {
        Ok(())
    } else {
        let at_least = unknown.len() >= 4;
        Err(CommitError::UnsafeOverwrite { unknown, at_least })
    }
}

/// The view of an optional directory.
pub open spec fn dir_view(d: Option<FileMap>) -> Option<Seq<(Seq<char>, Seq<char>)>> {
    match d {
        Some(m) => Some(m@),
        None => None,
    }
}

/// The entries of an optional directory; an absent one holds none.
pub open spec fn dir_entries(d: Option<FileMap>) -> Seq<(Seq<char>, Seq<char>)> {
    match d {
        Some(m) => m@,
        None => Seq::empty(),
    }
}

/// An absent destination, or one whose every file carries the marker, is
/// safe to replace.
pub open spec fn disk_dest_safe(d: Option<FileMap>) -> bool {
    all_generated(dir_entries(d))
}

/// Everything a commit guarantees, relating the disk before the call, the
/// collected file set, the reported deletion outcomes, the disk after the
/// call, and the result.
pub open spec fn commit_rel(
    pre: Disk,
    files: Seq<(Seq<char>, Seq<char>)>,
    sch: Seq<DeleteOutcome>,
    post: Disk,
    r: Result<Vec<String>, CommitError>,
) -> bool {
    let ok_clean = pre.temp is None || cleanup_ok(sch);
    let safe = disk_dest_safe(pre.dest);
    &&& (r is Ok <==> ok_clean && safe)
    &&& (r is Ok ==> dir_view(post.dest) == Some(files) && post.temp is None && (r->Ok_0)
        @.map_values(|s: String| s@) == crate::collector::key_seq(files))
    &&& (r is Err ==> post.dest == pre.dest)
    &&& (!ok_clean ==> post.temp == pre.temp && (r matches Err(CommitError::CleanupFailed {
        attempts,
    }) && attempts == cleanup_attempts(sch)))
    &&& (ok_clean && !safe ==> dir_view(post.temp) == Some(files) && (r matches Err(
        CommitError::UnsafeOverwrite { unknown, at_least },
    ) && unknown@.map_values(|s: String| s@) == reported_unknown(dir_entries(pre.dest))
        && at_least == (unknown_paths(dir_entries(pre.dest)).len() >= max_unknown())))
}

impl FileCollector {
    /// Persists the collected file set: clears a leftover temporary
    /// directory, stages every file under it, refuses to replace a
    /// destination holding any file without the marker, and otherwise swaps
    /// the staged directory into place in one step, returning the sorted
    /// relative paths written.  On every failure the destination is exactly
    /// what it was before the call.
    pub fn commit(&self, disk: &mut Disk, outcomes: &Vec<DeleteOutcome>) -> (r: Result<
        Vec<String>,
        CommitError,
    >)
        requires
            self.wf(),
            outcomes@.len() >= retry_limit(),
        ensures
            commit_rel(*old(disk), self@, outcomes@, *final(disk), r),
    {
        match try_delete_tmp_dir(&mut disk.temp, outcomes) {
            Err(e) => {
                return Err(e);
            },
            Ok(()) => {},
        }
        disk.temp = Some(self.snapshot().duplicate());
        match &disk.dest {
            Some(d) => match validate_destination(d) {
                Err(e) => {
                    return Err(e);
                },
                Ok(()) => {},
            },
            None => {},
        }
        let staged = disk.temp.take();
        disk.dest = staged;
        let mut out: Vec<String> = Vec::new();
        let files = self.snapshot();
        let n = files.len();
        let mut i: usize = 0;
        proof {
            assert(out@.map_values(|s: String| s@) =~= crate::collector::key_seq(
                self@.subrange(0, 0),
            ));
        }
        while i < n
            invariant
                i <= n,
                n == self@.len(),
                files@ == self@,
                self.wf(),
                out@.len() == i,
                out@.map_values(|s: String| s@) == crate::collector::key_seq(
                    self@.subrange(0, i as int),
                ),
            decreases n - i,
        {
            let entry = files.entry_at(i);
            let cloned = entry.0.clone();
            proof {
                assert(cloned@ == self@[i as int].0);
            }
            out.push(cloned);
            proof {
                assert(out@.len() == i + 1);
                assert(out@[i as int]@ == self@[i as int].0);
                assert(crate::collector::key_seq(self@.subrange(0, i as int + 1)).len() == i + 1);
                assert forall|j: int| #![trigger out@[j]] 0 <= j < i + 1 implies out@.map_values(
                    |s: String| s@,
                )[j] == crate::collector::key_seq(self@.subrange(0, i as int + 1))[j] by {
                    assert(out@.map_values(|s: String| s@)[j] == out@[j]@);
                    assert(crate::collector::key_seq(self@.subrange(0, i as int + 1))[j]
                        == self@.subrange(0, i as int + 1)[j].0);
                    assert(self@.subrange(0, i as int + 1)[j] == self@[j]);
                    if j < i {
                        assert(out@.map_values(|s: String| s@)[j] == crate::collector::key_seq(
                            self@.subrange(0, i as int),
                        )[j]);
                        assert(crate::collector::key_seq(self@.subrange(0, i as int))[j]
                            == self@.subrange(0, i as int)[j].0);
                    }
                }
                assert(out@.map_values(|s: String| s@) =~= crate::collector::key_seq(
                    self@.subrange(0, i as int + 1),
                ));
            }
            i = i + 1;
        }
        proof {
            assert(self@.subrange(0, self@.len() as int) =~= self@);
        }
        Ok(out)
    }
}

/// Committing the same file set twice to the same clean destination
/// succeeds both times, never fires the overwrite guard, and leaves the
/// destination holding exactly that file set after each run.
pub proof fn lemma_commit_idempotent(
    pre: Disk,
    files: Seq<(Seq<char>, Seq<char>)>,
    s1: Seq<DeleteOutcome>,
    s2: Seq<DeleteOutcome>,
    mid: Disk,
    post: Disk,
    r1: Result<Vec<String>, CommitError>,
    r2: Result<Vec<String>, CommitError>,
)
    requires
        pre.dest is None,
        pre.temp is None,
        all_generated(files),
        commit_rel(pre, files, s1, mid, r1),
        commit_rel(mid, files, s2, post, r2),
    ensures
        r1 is Ok,
        r2 is Ok,
        dir_view(mid.dest) == Some(files),
        dir_view(post.dest) == Some(files),
{
    assert(disk_dest_safe(pre.dest));
    assert(dir_view(mid.dest) == Some(files));
    assert(dir_entries(mid.dest) == files);
    assert(disk_dest_safe(mid.dest));
}

/// A commit interrupted after staging leaves the destination untouched, and
/// a retry on the leftover state succeeds and produces the same destination
/// as a run from scratch: the staged-but-unswapped state is recoverable.
pub proof fn lemma_commit_recovers_from_staging(
    pre: Disk,
    scratch: Disk,
    files: Seq<(Seq<char>, Seq<char>)>,
    s1: Seq<DeleteOutcome>,
    s2: Seq<DeleteOutcome>,
    post1: Disk,
    post2: Disk,
    r1: Result<Vec<String>, CommitError>,
    r2: Result<Vec<String>, CommitError>,
)
    requires
        pre.temp is Some,
        cleanup_ok(s1),
        disk_dest_safe(pre.dest),
        scratch.temp is None,
        scratch.dest == pre.dest,
        commit_rel(pre, files, s1, post1, r1),
        commit_rel(scratch, files, s2, post2, r2),
    ensures
        r1 is Ok,
        r2 is Ok,
        dir_view(post1.dest) == Some(files),
        dir_view(post1.dest) == dir_view(post2.dest),
{
}

/// A destination holding even one file without the marker makes commit fail
/// with the overwrite guard, and the destination is left exactly as it was.
pub proof fn lemma_commit_refuses_unknown_files(
    pre: Disk,
    files: Seq<(Seq<char>, Seq<char>)>,
    sch: Seq<DeleteOutcome>,
    post: Disk,
    r: Result<Vec<String>, CommitError>,
    i: int,
)
    requires
        pre.temp is None || cleanup_ok(sch),
        0 <= i < dir_entries(pre.dest).len(),
        !crate::collector::is_generated_content(dir_entries(pre.dest)[i].1),
        commit_rel(pre, files, sch, post, r),
    ensures
        r matches Err(CommitError::UnsafeOverwrite { .. }),
        post.dest == pre.dest,
{
    assert(!disk_dest_safe(pre.dest));
}

/// Storing one more marked file keeps a file set entirely generator-owned:
/// together with the marked-header lemma of the collector, this lets a
/// caller conclude that everything a collector with a marked header
/// accumulates passes the destination scan.
pub proof fn lemma_insert_keeps_all_generated(
    s: Seq<(Seq<char>, Seq<char>)>,
    k: Seq<char>,
    v: Seq<char>,
)
    requires
        all_generated(s),
        crate::collector::is_generated_content(v),
    ensures
        all_generated(crate::collector::sorted_insert(s, k, v)),
    decreases s.len(),
{
    let r = crate::collector::sorted_insert(s, k, v);
    if s.len() == 0 {
    } else if crate::collector::lex_lt(s[0].0, k) {
        assert forall|i: int| 0 <= i < s.drop_first().len() implies
            crate::collector::is_generated_content(#[trigger] s.drop_first()[i].1) by {
            assert(s.drop_first()[i] == s[i + 1]);
        }
        lemma_insert_keeps_all_generated(s.drop_first(), k, v);
        let rt = crate::collector::sorted_insert(s.drop_first(), k, v);
        assert(r == seq![s[0]] + rt);
        assert forall|i: int| 0 <= i < r.len() implies crate::collector::is_generated_content(
            #[trigger] r[i].1,
        ) by {
            if i == 0 {
                assert(r[0] == s[0]);
            } else {
                assert(r[i] == rt[i - 1]);
            }
        }
    } else if s[0].0 == k {
        assert forall|i: int| 0 <= i < r.len() implies crate::collector::is_generated_content(
            #[trigger] r[i].1,
        ) by {
            if i > 0 {
                assert(r[i] == s[i]);
            }
        }
    } else {
        assert forall|i: int| 0 <= i < r.len() implies crate::collector::is_generated_content(
            #[trigger] r[i].1,
        ) by {
            if i > 0 {
                assert(r[i] == s[i - 1]);
            }
        }
    }
}

/// Each file a collector with a marked header stores is generator-owned, so
/// a destination built from such a collector always passes the scan: this
/// discharges, add by add, the ownership hypothesis of the commit laws.
pub proof fn lemma_add_file_keeps_owned(
    s: Seq<(Seq<char>, Seq<char>)>,
    header: Seq<char>,
    name: Seq<char>,
    body: Seq<char>,
)
    requires
        all_generated(s),
        crate::collector::header_is_marked(header),
    ensures
        all_generated(
            crate::collector::sorted_insert(
                s,
                name,
                crate::collector::stored_content(header, body),
            ),
        ),
{
    crate::collector::lemma_stored_content_is_generated(header, body);
    lemma_insert_keeps_all_generated(s, name, crate::collector::stored_content(header, body));
}

} // verus!
