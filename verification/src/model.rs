//! The run engine over a modeled target tree.
//!
//! A [`TargetModel`] stands for the metadata of the files below the target
//! root, keyed by relative path. Running a synchronization against it probes
//! each discovered entry, applies the staleness oracle, and records the
//! copy effect — the copied file takes the source's byte length and
//! modification time. The laws of a whole run are proved here: a fresh file
//! is copied and lands with the source's metadata, and a run over an
//! already synchronized target changes nothing and copies nothing.

use vstd::prelude::*;
use crate::meta::FileMeta;
use crate::meta::needs_update;
use crate::meta::spec_needs_update;
use crate::sync::OutcomeModel;
use crate::sync::SyncOutcome;
use crate::tree::EntryModel;
use crate::tree::Node;
use crate::tree::SourceEntry;
use crate::tree::files_of;
use crate::tree::lemma_files_of_paths;
use crate::tree::paths_distinct;
use crate::tree::well_formed;

verus! {

/// The metadata of the files below the target root, keyed by relative path.
/// Later entries of the list override earlier ones with the same path, so
/// recording a copy is a plain append.
pub struct TargetModel {
    pub files: Vec<(String, FileMeta)>,
}

/// The mapping a list of path/metadata pairs denotes, later pairs winning.
pub open spec fn map_of(s: Seq<(String, FileMeta)>) -> Map<Seq<char>, FileMeta>
    decreases s.len(),
{
    if s.len() == 0 {
        Map::empty()
    } else {
        map_of(s.drop_last()).insert(s.last().0@, s.last().1)
    }
}

impl View for TargetModel {
    type V = Map<Seq<char>, FileMeta>;

    open spec fn view(&self) -> Map<Seq<char>, FileMeta> {
        map_of(self.files@)
    }
}

/// A pair whose path no later pair repeats gives the mapping its value.
proof fn lemma_map_of_match(s: Seq<(String, FileMeta)>, i: int)
    requires
        0 <= i < s.len(),
        forall|k: int| i < k < s.len() ==> s[k].0@ != s[i].0@,
    ensures
        map_of(s).contains_key(s[i].0@),
        map_of(s)[s[i].0@] == s[i].1,
    decreases s.len(),
{
    if i == s.len() - 1 {
    } else {
        assert(s.drop_last()[i] == s[i]);
        lemma_map_of_match(s.drop_last(), i);
    }
}

/// A path no pair carries is absent from the mapping.
proof fn lemma_map_of_no_match(s: Seq<(String, FileMeta)>, p: Seq<char>)
    requires
        forall|k: int| 0 <= k < s.len() ==> s[k].0@ != p,
    ensures
        !map_of(s).contains_key(p),
    decreases s.len(),
{
    if s.len() > 0 {
        lemma_map_of_no_match(s.drop_last(), p);
    }
}

impl TargetModel {
    /// An empty target tree.
    pub fn new() -> (t: Self)
        ensures
            t@ == Map::<Seq<char>, FileMeta>::empty(),
    {
        TargetModel { files: Vec::new() }
    }

    /// Probes the metadata of the file at `path`, or `None` when the model
    /// holds no such file.
    pub fn lookup(&self, path: &String) -> (r: Option<FileMeta>)
        ensures
            match r {
                Some(m) => self@.contains_key(path@) && self@[path@] == m,
                None => !self@.contains_key(path@),
            },
    {
        let n = self.files.len();
        let mut i: usize = n;
        while i > 0
            invariant
                i <= n,
                n == self.files@.len(),
                forall|k: int| i <= k < n ==> self.files@[k].0@ != path@,
            decreases i,
        {
            i = i - 1;
            if path.eq(&self.files[i].0) {
                proof {
                    lemma_map_of_match(self.files@, i as int);
                }
                return Some(self.files[i].1);
            }
        }
        proof {
            lemma_map_of_no_match(self.files@, path@);
        }
        None
    }

    /// Records the effect of copying one file: the target now holds `meta`
    /// at `path`.
    pub fn store(&mut self, path: &String, meta: FileMeta)
        ensures
            final(self)@ == old(self)@.insert(path@, meta),
    {
        self.files.push((path.clone(), meta));
        proof {
            assert(self.files@.drop_last() =~= old(self).files@);
            assert(self@ =~= old(self)@.insert(path@, meta));
        }
    }
}

/// The target metadata one entry's probe sees in target state `t`.
pub open spec fn probe_of(e: EntryModel, t: Map<Seq<char>, FileMeta>) -> Option<FileMeta> {
    if t.contains_key(e.path) {
        Some(t[e.path])
    } else {
        None
    }
}

/// Whether one entry is stale against target state `t`.
pub open spec fn stale_in(e: EntryModel, t: Map<Seq<char>, FileMeta>) -> bool {
    spec_needs_update(e.meta, probe_of(e, t))
}

/// The target state after one entry's task: unchanged when the entry was up
/// to date, else holding the source's metadata at the entry's path.
pub open spec fn step_target(e: EntryModel, t: Map<Seq<char>, FileMeta>) -> Map<
    Seq<char>,
    FileMeta,
> {
    if stale_in(e, t) {
        t.insert(e.path, e.meta)
    } else {
        t
    }
}

/// The target state after a whole run, the entries' tasks applied in order.
pub open spec fn run_target(entries: Seq<EntryModel>, t: Map<Seq<char>, FileMeta>) -> Map<
    Seq<char>,
    FileMeta,
>
    decreases entries.len(),
{
    if entries.len() == 0 {
        t
    } else {
        run_target(entries.drop_first(), step_target(entries.first(), t))
    }
}

/// The copied-flags of a whole run, one per entry, in entry order.
pub open spec fn run_flags(entries: Seq<EntryModel>, t: Map<Seq<char>, FileMeta>) -> Seq<bool>
    decreases entries.len(),
{
    if entries.len() == 0 {
        Seq::empty()
    } else {
        seq![stale_in(entries.first(), t)] + run_flags(
            entries.drop_first(),
            step_target(entries.first(), t),
        )
    }
}

/// The copied-flags of a list of outcomes.
pub open spec fn flags_of(outs: Seq<OutcomeModel>) -> Seq<bool> {
    outs.map_values(|o: OutcomeModel| o.copied)
}

/// A run issues one flag per entry.
pub proof fn lemma_run_flags_len(entries: Seq<EntryModel>, t: Map<Seq<char>, FileMeta>)
    ensures
        run_flags(entries, t).len() == entries.len(),
    decreases entries.len(),
{
    if entries.len() > 0 {
        lemma_run_flags_len(entries.drop_first(), step_target(entries.first(), t));
    }
}

/// Runs one synchronization pass: probes each entry against the target
/// model, copies exactly the stale ones, and returns one outcome per entry,
/// in entry order, carrying the entry's relative path and whether it was
/// copied.
pub fn run_sync(entries: &Vec<SourceEntry>, target: &mut TargetModel) -> (outcomes: Vec<
    SyncOutcome,
>)
    ensures
        final(target)@ == run_target(entries.deep_view(), old(target)@),
        outcomes.deep_view().len() == entries@.len(),
        forall|i: int|
            0 <= i < entries@.len() ==> outcomes.deep_view()[i].path
                == entries.deep_view()[i].path,
        flags_of(outcomes.deep_view()) == run_flags(entries.deep_view(), old(target)@),
{
    let ghost dv = entries.deep_view();
    let ghost t0 = target@;
    let mut outcomes: Vec<SyncOutcome> = Vec::new();
    let n = entries.len();
    let mut i: usize = 0;
    proof {
        assert(dv.skip(0) =~= dv);
        assert(outcomes.deep_view() =~= Seq::<OutcomeModel>::empty());
        assert(flags_of(outcomes.deep_view()) =~= Seq::<bool>::empty());
        assert(flags_of(outcomes.deep_view()) + run_flags(dv, t0) =~= run_flags(dv, t0));
    }
    while i < n
        invariant
            i <= n,
            n == entries@.len(),
            dv == entries.deep_view(),
            dv.len() == n,
            run_target(dv.skip(i as int), target@) == run_target(dv, t0),
            outcomes.deep_view().len() == i,
            forall|k: int| 0 <= k < i ==> outcomes.deep_view()[k].path == dv[k].path,
            flags_of(outcomes.deep_view()) + run_flags(dv.skip(i as int), target@) == run_flags(
                dv,
                t0,
            ),
        decreases n - i,
    {
        let ghost t_pre = target@;
        let ghost outs_pre = outcomes.deep_view();
        let entry = &entries[i];
        let probe = target.lookup(&entry.rel_path);
        let target_meta: Option<&FileMeta> = match &probe {
            Some(m) => Some(m),
            None => None,
        };
        let stale = needs_update(&entry.meta, target_meta);
        proof {
            assert(dv[i as int] == entry.deep_view());
            assert(probe_of(dv[i as int], t_pre) == match probe {
                Some(m) => Some(m),
                None => None::<FileMeta>,
            });
            assert(stale == stale_in(dv[i as int], t_pre));
        }
        if stale {
            target.store(&entry.rel_path, entry.meta);
        }
        outcomes.push(SyncOutcome { rel_path: entry.rel_path.clone(), copied: stale });
        proof {
            assert(target@ == step_target(dv[i as int], t_pre));
            assert(dv.skip(i as int).first() == dv[i as int]);
            assert(dv.skip(i as int).drop_first() =~= dv.skip(i as int + 1));
            assert(run_target(dv.skip(i as int + 1), target@) == run_target(dv, t0));
            assert(outcomes.deep_view() =~= outs_pre.push(
                OutcomeModel { path: dv[i as int].path, copied: stale },
            ));
            assert(flags_of(outcomes.deep_view()) =~= flags_of(outs_pre).push(stale));
            assert(run_flags(dv.skip(i as int), t_pre) == seq![stale_in(dv[i as int], t_pre)]
                + run_flags(dv.skip(i as int + 1), target@));
            assert(flags_of(outcomes.deep_view()) + run_flags(dv.skip(i as int + 1), target@)
                =~= flags_of(outs_pre) + run_flags(dv.skip(i as int), t_pre));
        }
        i = i + 1;
    }
    proof {
        assert(dv.skip(n as int) =~= Seq::<EntryModel>::empty());
        assert(flags_of(outcomes.deep_view()) + Seq::<bool>::empty() =~= flags_of(
            outcomes.deep_view(),
        ));
    }
    outcomes
}

/// One entry is synchronized against target state `t`: its file is present
/// and the staleness oracle keeps it.
pub open spec fn entry_synced(e: EntryModel, t: Map<Seq<char>, FileMeta>) -> bool {
    t.contains_key(e.path) && !stale_in(e, t)
}

/// Every entry is synchronized against target state `t`.
pub open spec fn synchronized(entries: Seq<EntryModel>, t: Map<Seq<char>, FileMeta>) -> bool {
    forall|i: int| 0 <= i < entries.len() ==> #[trigger] entry_synced(entries[i], t)
}

/// A run never touches a path that no entry carries: such a file keeps its
/// metadata, and the run adds no file at that path.
proof fn lemma_run_preserves_other(
    entries: Seq<EntryModel>,
    t: Map<Seq<char>, FileMeta>,
    p: Seq<char>,
)
    requires
        forall|j: int| 0 <= j < entries.len() ==> entries[j].path != p,
    ensures
        run_target(entries, t).contains_key(p) == t.contains_key(p),
        t.contains_key(p) ==> run_target(entries, t)[p] == t[p],
    decreases entries.len(),
{
    if entries.len() > 0 {
        lemma_run_preserves_other(entries.drop_first(), step_target(entries.first(), t), p);
    }
}

/// A file present only in the source tree is copied by a run: if the target
/// lacks an entry's path and no earlier entry claims that path, the entry's
/// outcome is a copy.
pub proof fn lemma_new_file_is_copied(entries: Seq<EntryModel>, t: Map<Seq<char>, FileMeta>, i: int)
    requires
        0 <= i < entries.len(),
        !t.contains_key(entries[i].path),
        forall|j: int| 0 <= j < i ==> entries[j].path != entries[i].path,
    ensures
        run_flags(entries, t).len() == entries.len(),
        run_flags(entries, t)[i] == true,
    decreases entries.len(),
{
    lemma_run_flags_len(entries, t);
    lemma_run_flags_len(entries.drop_first(), step_target(entries.first(), t));
    if i == 0 {
    } else {
        let rest = entries.drop_first();
        let t1 = step_target(entries.first(), t);
        assert(forall|j: int| 0 <= j < i - 1 ==> (#[trigger] rest[j]).path != rest[i - 1].path);
        lemma_new_file_is_copied(rest, t1, i - 1);
    }
}

/// After a run, the target holds the source's byte length and modification
/// time at every entry's path (for an entry whose path no later entry
/// repeats): the copy happened, or the target already agreed.
pub proof fn lemma_run_stores_entry(entries: Seq<EntryModel>, t: Map<Seq<char>, FileMeta>, i: int)
    requires
        0 <= i < entries.len(),
        forall|j: int| i < j < entries.len() ==> entries[j].path != entries[i].path,
    ensures
        run_target(entries, t).contains_key(entries[i].path),
        run_target(entries, t)[entries[i].path] == entries[i].meta,
    decreases entries.len(),
{
    let e = entries.first();
    let t1 = step_target(e, t);
    let rest = entries.drop_first();
    if i == 0 {
        if !stale_in(e, t) {
            crate::meta::lemma_up_to_date_characterization(e.meta, probe_of(e, t));
            assert(t[e.path] =~= e.meta);
        }
        assert(t1.contains_key(e.path) && t1[e.path] == e.meta);
        assert(forall|j: int| 0 <= j < rest.len() ==> (#[trigger] rest[j]).path != e.path);
        lemma_run_preserves_other(rest, t1, e.path);
    } else {
        assert(rest[i - 1] == entries[i]);
        assert(forall|j: int| i - 1 < j < rest.len() ==> (#[trigger] rest[j]).path != rest[i - 1].path);
        lemma_run_stores_entry(rest, t1, i - 1);
    }
}

/// A run over an already synchronized target is a no-op: it changes nothing
/// and copies nothing — every file is reported up to date.
pub proof fn lemma_synchronized_run_is_noop(entries: Seq<EntryModel>, t: Map<Seq<char>, FileMeta>)
    requires
        synchronized(entries, t),
    ensures
        run_target(entries, t) == t,
        run_flags(entries, t).len() == entries.len(),
        forall|i: int| 0 <= i < entries.len() ==> run_flags(entries, t)[i] == false,
    decreases entries.len(),
{
    lemma_run_flags_len(entries, t);
    if entries.len() > 0 {
        let e = entries.first();
        let rest = entries.drop_first();
        assert(entry_synced(entries[0], t));
        assert(step_target(e, t) == t);
        assert(forall|i: int|
            0 <= i < rest.len() ==> #[trigger] rest[i] == entries[i + 1] && entry_synced(entries[i + 1], t));
        lemma_synchronized_run_is_noop(rest, t);
    }
}

/// One run synchronizes: when the entries' paths are distinct and every
/// source modification time was retrievable, the target state a run leaves
/// behind is synchronized with the source.
pub proof fn lemma_run_establishes_synchronized(
    entries: Seq<EntryModel>,
    t: Map<Seq<char>, FileMeta>,
)
    requires
        paths_distinct(entries),
        forall|i: int| 0 <= i < entries.len() ==> (#[trigger] entries[i].meta).mtime is Some,
    ensures
        synchronized(entries, run_target(entries, t)),
{
    let t1 = run_target(entries, t);
    assert forall|i: int| 0 <= i < entries.len() implies #[trigger] entry_synced(
        entries[i],
        t1,
    ) by {
        lemma_run_stores_entry(entries, t, i);
    }
}

/// Idempotence of a whole run: under the same conditions, a second run over
/// the target state the first one left behind changes nothing and reports
/// every file up to date.
pub proof fn lemma_rerun_is_clean(entries: Seq<EntryModel>, t: Map<Seq<char>, FileMeta>)
    requires
        paths_distinct(entries),
        forall|i: int| 0 <= i < entries.len() ==> (#[trigger] entries[i].meta).mtime is Some,
    ensures
        run_target(entries, run_target(entries, t)) == run_target(entries, t),
        run_flags(entries, run_target(entries, t)).len() == entries.len(),
        forall|i: int|
            0 <= i < entries.len() ==> run_flags(entries, run_target(entries, t))[i] == false,
{
    lemma_run_establishes_synchronized(entries, t);
    lemma_synchronized_run_is_noop(entries, run_target(entries, t));
}

/// The whole mirror is idempotent: for a well-formed source snapshot whose
/// files all carry a retrievable modification time, a second run over the
/// target state the first one left behind changes nothing and reports every
/// discovered file up to date.
pub proof fn lemma_mirror_rerun_clean(root: Node, t: Map<Seq<char>, FileMeta>)
    requires
        well_formed(root),
        forall|a: int|
            0 <= a < files_of(root, Seq::<char>::empty()).len() ==> (#[trigger] files_of(
                root,
                Seq::<char>::empty(),
            )[a]).meta.mtime is Some,
    ensures
        run_target(
            files_of(root, Seq::<char>::empty()),
            run_target(files_of(root, Seq::<char>::empty()), t),
        ) == run_target(files_of(root, Seq::<char>::empty()), t),
        forall|i: int|
            0 <= i < files_of(root, Seq::<char>::empty()).len() ==> run_flags(
                files_of(root, Seq::<char>::empty()),
                run_target(files_of(root, Seq::<char>::empty()), t),
            )[i] == false,
{
    lemma_files_of_paths(root, Seq::<char>::empty());
    lemma_rerun_is_clean(files_of(root, Seq::<char>::empty()), t);
}

} // verus!
