use vstd::prelude::*;

use crate::encoding::decode_entry_name;
use crate::encoding::decode_spec;
use crate::errors::ExtractError;
use crate::paths::join_comps;
use crate::paths::join_under_root;
use crate::paths::join_under_root_take;
use crate::paths::joined_suffix;
use crate::paths::validate_entry_name;
use crate::paths::validate_spec;
use crate::times::get_zip_entry_file_times;
use crate::times::times_spec;
use crate::times::DosDateTime;
use crate::times::FileTimes;

verus! {

/// Settings for extracting one archive: the archive to read, the
/// destination root to write under, and whether to report each entry.
pub struct Options {
    pub input_file: String,
    pub out_path: String,
    pub verbose: bool,
}

/// What kind of object one archive entry stores.
#[derive(Clone, Copy, Debug, PartialEq, Eq, Structural)]
pub enum EntryKind {
    Dir,
    File,
    Other,
}

/// What decoding and validating an entry name yields: the decoded name
/// once its path shape passed validation, or the first error found.
pub open spec fn name_spec(raw: Seq<u8>) -> Result<Seq<char>, ExtractError> {
    match decode_spec(raw) {
        Err(e) => Err(e),
        Ok(name) => match validate_spec(name) {
            Err(e) => Err(e),
            Ok(_) => Ok(name),
        },
    }
}

/// Decode an entry's raw name and check it is safe to materialize: the
/// encoding must be guessed with confidence, decode cleanly, hold no NUL,
/// and the decoded name must stay relative and never ascend above the
/// extraction root.
pub fn get_zip_entry_file_name(raw: &[u8]) -> (r: Result<String, ExtractError>)
    ensures
        r is Ok <==> name_spec(raw@) is Ok,
        r matches Ok(s) ==> name_spec(raw@) matches Ok(n) && s@ == n,
        r matches Err(e) ==> name_spec(raw@) matches Err(d) && d == e,
{
    let name = match decode_entry_name(raw) {
        Ok(n) => n,
        Err(e) => {
            return Err(e);
        },
    };
    match validate_entry_name(name.as_str()) {
        Ok(_) => Ok(name),
        Err(e) => Err(e),
    }
}

/// What planning one entry yields: its validated path components and its
/// resolved timestamps, or the first error found in the order the entry
/// is examined (name decoding, path validation, timestamps, entry kind).
pub open spec fn plan_spec(raw: Seq<u8>, kind: EntryKind, lm: Option<DosDateTime>) -> Result<
    (Seq<Seq<char>>, FileTimes),
    ExtractError,
> {
    match decode_spec(raw) {
        Err(e) => Err(e),
        Ok(name) => match validate_spec(name) {
            Err(e) => Err(e),
            Ok(comps) => match times_spec(lm) {
                Err(e) => Err(e),
                Ok(t) => match kind {
                    EntryKind::Other => Err(ExtractError::UnsupportedEntryKind),
                    _ => Ok((comps, t)),
                },
            },
        },
    }
}

/// A directory whose timestamps wait until every entry is materialized,
/// since writing later entries into the directory would bump its times.
pub struct DeferredDirTime {
    pub path: String,
    pub times: FileTimes,
}

/// What the caller must do for one accepted entry. Creating a directory
/// is recursive and idempotent; creating a file is exclusive: a
/// collision with an existing file must fail with `FileAlreadyExists`
/// rather than overwrite. File timestamps are applied right after the
/// content is copied; directory timestamps are never applied here.
#[derive(Debug)]
pub enum EntryStep {
    CreateDirectory { out_path: String },
    CreateFile { out_path: String, parent_dir: Option<String>, times: FileTimes },
}

/// One deferred directory-timestamp application, using the most specific
/// primitive that matches which of the two settable times are present.
#[derive(Debug)]
pub enum DirTimeAction {
    SetBoth { path: String, accessed: i64, modified: i64 },
    SetAccessed { path: String, accessed: i64 },
    SetModified { path: String, modified: i64 },
}

impl View for DirTimeAction {
    type V = (Seq<char>, Option<i64>, Option<i64>);

    open spec fn view(&self) -> (Seq<char>, Option<i64>, Option<i64>) {
        match self {
            DirTimeAction::SetBoth { path, accessed, modified } => (
                path@,
                Some(*accessed),
                Some(*modified),
            ),
            DirTimeAction::SetAccessed { path, accessed } => (path@, Some(*accessed), None),
            DirTimeAction::SetModified { path, modified } => (path@, None, Some(*modified)),
        }
    }
}

/// The actions of the final pass over a deferred-directory queue: walked
/// in reverse, so the directory queued last has its times set first and a
/// parent's own write comes after every child's, and entries with neither
/// settable time are skipped.
pub open spec fn dir_actions_spec(q: Seq<(Seq<char>, FileTimes)>) -> Seq<
    (Seq<char>, Option<i64>, Option<i64>),
>
    decreases q.len(),
{
    if q.len() == 0 {
        Seq::<(Seq<char>, Option<i64>, Option<i64>)>::empty()
    } else {
        let e = q.last();
        let rest = dir_actions_spec(q.drop_last());
        if e.1.accessed is None && e.1.modified is None {
            rest
        } else {
            seq![(e.0, e.1.accessed, e.1.modified)] + rest
        }
    }
}

/// The directory queued last is handled first in the final pass: its
/// action, if any, precedes the actions of everything queued before it.
pub proof fn lemma_dir_times_reverse_order(q: Seq<(Seq<char>, FileTimes)>, e: (Seq<char>, FileTimes))
    ensures
        dir_actions_spec(q.push(e)) == (if e.1.accessed is None && e.1.modified is None {
            dir_actions_spec(q)
        } else {
            seq![(e.0, e.1.accessed, e.1.modified)] + dir_actions_spec(q)
        }),
{
    assert(q.push(e).last() == e);
    assert(q.push(e).drop_last() =~~= q);
}

/// An entry whose decoded name holds a root marker, a prefix marker, or
/// parent references whose cumulative depth goes negative is never
/// materialized: planning it fails with the matching error, whatever its
/// kind and timestamps, and a failed plan changes no state and yields no
/// step.
pub proof fn lemma_unsafe_entry_never_materialized(
    raw: Seq<u8>,
    kind: EntryKind,
    lm: Option<DosDateTime>,
)
    requires
        decode_spec(raw) matches Ok(name) && name.len() <= usize::MAX as int && (
        crate::paths::has_root_marker(name) || crate::paths::has_prefix_piece(
            crate::paths::split_pieces(name),
        ) || crate::paths::goes_negative_from(crate::paths::split_pieces(name), 0)),
    ensures
        plan_spec(raw, kind, lm) matches Err(e) && (e == ExtractError::AbsolutePathRejected || e
            == ExtractError::PrefixRejected || e == ExtractError::PathEscapesRoot),
{
    match decode_spec(raw) {
        Ok(name) => {
            crate::paths::lemma_unsafe_name_rejected(name);
        },
        Err(_) => {},
    }
}

/// Extracting the same archive into two different destination roots plans
/// the same outcome for every entry: the same acceptance or rejection,
/// the same components and timestamps, and target paths that differ only
/// by the root prefix, so the trees below the two roots are identical.
pub proof fn lemma_same_archive_same_tree(
    raw: Seq<u8>,
    kind: EntryKind,
    lm: Option<DosDateTime>,
    root1: Seq<char>,
    root2: Seq<char>,
)
    ensures
        plan_spec(raw, kind, lm) matches Ok(plan) ==> join_comps(root1, plan.0) == root1
            + joined_suffix(plan.0) && join_comps(root2, plan.0) == root2 + joined_suffix(plan.0),
{
}

/// Drives the extraction of one archive: plans each entry in container
/// order and queues directory timestamps for the final pass.
pub struct Extractor {
    pub root: String,
    pub dir_times: Vec<DeferredDirTime>,
}

impl Extractor {
    /// The queued directory timestamps, oldest first.
    pub open spec fn queued(&self) -> Seq<(Seq<char>, FileTimes)> {
        self.dir_times@.map_values(|d: DeferredDirTime| (d.path@, d.times))
    }

    /// Start an extraction into the given destination root.
    pub fn new(root: String) -> (r: Extractor)
        ensures
            r.root == root,
            r.queued() == Seq::<(Seq<char>, FileTimes)>::empty(),
    {
        let r = Extractor { root, dir_times: Vec::new() };
        proof {
            assert(r.queued() =~~= Seq::<(Seq<char>, FileTimes)>::empty());
        }
        r
    }

    /// Plan one entry: decode and validate its name, resolve its
    /// timestamps, and decide what the caller must materialize. A failed
    /// entry changes nothing and its error aborts the whole extraction.
    /// A directory with timestamps is queued for the final pass; a file
    /// carries its timestamps in its own step, and names the parent
    /// directory to create first, since some archives omit directory
    /// entries.
    pub fn process_entry(
        &mut self,
        raw_name: &[u8],
        kind: EntryKind,
        last_modified: Option<DosDateTime>,
    ) -> (r: Result<EntryStep, ExtractError>)
        ensures
            final(self).root == old(self).root,
            plan_spec(raw_name@, kind, last_modified) matches Err(e) ==> r matches Err(e2) && e2
                == e && final(self).dir_times == old(self).dir_times,
            plan_spec(raw_name@, kind, last_modified) matches Ok(plan) ==> ({
                let comps = plan.0;
                let t = plan.1;
                &&& (kind == EntryKind::Dir ==> (match r {
                    Ok(EntryStep::CreateDirectory { out_path }) => out_path@ == join_comps(
                        old(self).root@,
                        comps,
                    ) && (t.spec_has_time() ==> final(self).queued() == old(self).queued().push(
                        (join_comps(old(self).root@, comps), t),
                    )) && (!t.spec_has_time() ==> final(self).dir_times == old(self).dir_times),
                    _ => false,
                }))
                &&& (kind == EntryKind::File ==> (match r {
                    Ok(EntryStep::CreateFile { out_path, parent_dir, times }) => out_path@
                        == join_comps(old(self).root@, comps) && times == t && (comps.len() == 0
                        ==> parent_dir is None) && (comps.len() > 0 ==> (match parent_dir {
                        Some(pd) => pd@ == join_comps(old(self).root@, comps.drop_last()),
                        None => false,
                    })) && final(self).dir_times == old(self).dir_times,
                    _ => false,
                }))
            }),
    {
        let name = match decode_entry_name(raw_name) {
            Ok(n) => n,
            Err(e) => {
                return Err(e);
            },
        };
        let rel = match validate_entry_name(name.as_str()) {
            Ok(v) => v,
            Err(e) => {
                return Err(e);
            },
        };
        let times = match get_zip_entry_file_times(last_modified) {
            Ok(t) => t,
            Err(e) => {
                return Err(e);
            },
        };
        match kind {
            EntryKind::Dir => {
                let out_path = join_under_root(self.root.as_str(), &rel);
                if times.has_time() {
                    let ghost old_q = self.queued();
                    self.dir_times.push(DeferredDirTime { path: out_path.clone(), times });
                    proof {
                        assert(self.queued() =~~= old_q.push((out_path@, times)));
                    }
                }
                Ok(EntryStep::CreateDirectory { out_path })
            },
            EntryKind::File => {
                let out_path = join_under_root(self.root.as_str(), &rel);
                let parent_dir = if rel.components.len() == 0 {
                    None
                } else {
                    proof {
                        assert(rel@.take(rel.components.len() - 1) =~~= rel@.drop_last());
                    }
                    Some(join_under_root_take(self.root.as_str(), &rel, rel.components.len() - 1))
                };
                Ok(EntryStep::CreateFile { out_path, parent_dir, times })
            },
            EntryKind::Other => Err(ExtractError::UnsupportedEntryKind),
        }
    }

    /// End the extraction: hand back the deferred directory-timestamp
    /// applications, in reverse of the order the directories were queued,
    /// with the primitive matching which times are present.
    pub fn finish(self) -> (r: Vec<DirTimeAction>)
        ensures
            r@.map_values(|a: DirTimeAction| a@) == dir_actions_spec(self.queued()),
    {
        let Extractor { root: _, mut dir_times } = self;
        let ghost full = dir_times@.map_values(|d: DeferredDirTime| (d.path@, d.times));
        let mut actions: Vec<DirTimeAction> = Vec::new();
        proof {
            assert(actions@.map_values(|a: DirTimeAction| a@) =~~= Seq::<
                (Seq<char>, Option<i64>, Option<i64>),
            >::empty());
        }
        while dir_times.len() > 0
            invariant
                actions@.map_values(|a: DirTimeAction| a@) + dir_actions_spec(
                    dir_times@.map_values(|d: DeferredDirTime| (d.path@, d.times)),
                ) == dir_actions_spec(full),
            decreases dir_times.len(),
        {
            let ghost cur_q = dir_times@.map_values(|d: DeferredDirTime| (d.path@, d.times));
            let ghost old_actions = actions@;
            let e = match dir_times.pop() {
                Some(e) => e,
                None => {
                    proof {
                        assert(false);
                    }
                    return actions;
                },
            };
            proof {
                assert(dir_times@.map_values(|d: DeferredDirTime| (d.path@, d.times)) =~~=
                    cur_q.drop_last());
                assert(cur_q.last() == (e.path@, e.times));
            }
            match (e.times.accessed, e.times.modified) {
                (Some(accessed), Some(modified)) => {
                    actions.push(DirTimeAction::SetBoth { path: e.path, accessed, modified });
                },
                (Some(accessed), None) => {
                    actions.push(DirTimeAction::SetAccessed { path: e.path, accessed });
                },
                (None, Some(modified)) => {
                    actions.push(DirTimeAction::SetModified { path: e.path, modified });
                },
                (None, None) => {},
            }
            proof {
                let mapped = actions@.map_values(|a: DirTimeAction| a@);
                let old_mapped = old_actions.map_values(|a: DirTimeAction| a@);
                if e.times.accessed is None && e.times.modified is None {
                    assert(mapped =~~= old_mapped);
                } else {
                    assert(mapped =~~= old_mapped.push((e.path@, e.times.accessed,
                    e.times.modified)));
                    assert(old_mapped.push((e.path@, e.times.accessed, e.times.modified))
                        + dir_actions_spec(cur_q.drop_last()) =~~= old_mapped + (seq![
                        (e.path@, e.times.accessed, e.times.modified),
                    ] + dir_actions_spec(cur_q.drop_last())));
                }
            }
        }
        proof {
            assert(dir_times@.map_values(|d: DeferredDirTime| (d.path@, d.times)) =~~= Seq::<
                (Seq<char>, FileTimes),
            >::empty());
            assert(actions@.map_values(|a: DirTimeAction| a@) + Seq::<
                (Seq<char>, Option<i64>, Option<i64>),
            >::empty() =~~= actions@.map_values(|a: DirTimeAction| a@));
        }
        actions
    }
}

} // verus!
