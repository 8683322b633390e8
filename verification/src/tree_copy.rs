//! Copying a directory tree without recursion: a job keeps the directories
//! that are still to be visited in the order in which they were found, and
//! the host visits them one at a time.

use crate::bytes::copy_bytes;
use crate::dir::{has_distinct_names, EntryKind, RawEntry, RawModel};
use crate::bytes::bytes_eq;
use crate::entry::{
    counted_names, lemma_resolved_name, name_is_taken, names_counted, names_of, resolve_name,
    resolved_name, Removal, RemovalModel,
};
use crate::error::BrowseError;
use crate::path::{
    file_name, file_name_of, get_parent_dir, is_component, is_valid_component, is_within,
    join_path, joined, lemma_joined_injective, lies_within, parent_of,
};
use vstd::prelude::*;

verus! {

/// One step of a directory copy: the file or directory `from` goes to `to`.
#[derive(Clone, Debug, PartialEq, Eq)]
pub struct Transfer {
    pub from: Vec<u8>,
    pub to: Vec<u8>,
    pub kind: EntryKind,
}

/// The mathematical value of a `Transfer`.
pub struct TransferModel {
    pub from: Seq<u8>,
    pub to: Seq<u8>,
    pub kind: EntryKind,
}

impl View for Transfer {
    type V = TransferModel;

    open spec fn view(&self) -> TransferModel {
        TransferModel { from: self.from@, to: self.to@, kind: self.kind }
    }
}

impl DeepView for Transfer {
    type V = TransferModel;

    open spec fn deep_view(&self) -> TransferModel {
        self@
    }
}

impl Transfer {
    /// A copy of this transfer.
    pub fn duplicate(&self) -> (copy: Transfer)
        ensures
            copy@ == self@,
    {
        Transfer { from: copy_bytes(&self.from), to: copy_bytes(&self.to), kind: self.kind }
    }
}

/// Whether a child of a directory is copied: it must be a file or a
/// directory under a name of one component.
pub open spec fn is_copied(child: RawModel) -> bool {
    is_component(child.name) && child.kind != EntryKind::Unknown
}

/// The names taken in the destination once the given children have been
/// placed there: each copied child takes the name it was resolved to.
pub open spec fn taken_after(children: Seq<RawModel>, taken: Seq<Seq<u8>>) -> Seq<Seq<u8>>
    decreases children.len(),
{
    if children.len() == 0 {
        taken
    } else {
        let before = taken_after(children.drop_last(), taken);
        if is_copied(children.last()) {
            before.push(resolved_name(children.last().name, before))
        } else {
            before
        }
    }
}

/// The transfers that copy the children of `src` into `dest`, in the order of
/// the children: each copied child goes to `dest` under its own name, or,
/// where that name is taken by then, under the name it is resolved to.
pub open spec fn level_transfers(
    src: Seq<u8>,
    dest: Seq<u8>,
    children: Seq<RawModel>,
    taken: Seq<Seq<u8>>,
) -> Seq<TransferModel>
    decreases children.len(),
{
    if children.len() == 0 {
        Seq::empty()
    } else {
        let before = level_transfers(src, dest, children.drop_last(), taken);
        let child = children.last();
        if is_copied(child) {
            before.push(
                TransferModel {
                    from: joined(src, child.name),
                    to: joined(
                        dest,
                        resolved_name(child.name, taken_after(children.drop_last(), taken)),
                    ),
                    kind: child.kind,
                },
            )
        } else {
            before
        }
    }
}

/// The paths of the children of `src` that are not copied.
pub open spec fn level_skipped(src: Seq<u8>, children: Seq<RawModel>) -> Seq<Seq<u8>>
    decreases children.len(),
{
    if children.len() == 0 {
        Seq::empty()
    } else {
        let before = level_skipped(src, children.drop_last());
        if is_copied(children.last()) {
            before
        } else {
            before.push(joined(src, children.last().name))
        }
    }
}

/// The transfers among `transfers` that are directories.
pub open spec fn directories_of(transfers: Seq<TransferModel>) -> Seq<TransferModel>
    decreases transfers.len(),
{
    if transfers.len() == 0 {
        Seq::empty()
    } else if transfers.last().kind == EntryKind::Directory {
        directories_of(transfers.drop_last()).push(transfers.last())
    } else {
        directories_of(transfers.drop_last())
    }
}

/// Whether a child of a directory is copied.
pub fn is_copied_child(child: &RawEntry) -> (copied: bool)
    ensures
        copied == is_copied(child@),
{
    match child.kind {
        EntryKind::Unknown => false,
        _ => is_valid_component(&child.name),
    }
}

/// Plans the copy of one directory level: `children` is what the host found
/// in `src_dirpath`, `taken` the names that `dest_dirpath` already holds.
/// Files and directories are placed in `dest_dirpath` in the order found, each
/// under a name that neither was taken nor has been given to an earlier child.
pub fn copy_dir(
    src_dirpath: &Vec<u8>,
    dest_dirpath: &Vec<u8>,
    children: &Vec<RawEntry>,
    taken: &Vec<Vec<u8>>,
) -> (transfers: Vec<Transfer>)
    ensures
        transfers.deep_view() == level_transfers(
            src_dirpath@,
            dest_dirpath@,
            children.deep_view(),
            names_of(taken),
        ),
        forall|a: int, b: int|
            0 <= a < b < transfers.len() ==> transfers.deep_view()[a].to
                != transfers.deep_view()[b].to,
        forall|a: int, k: int|
            0 <= a < transfers.len() && 0 <= k < taken.len() ==> transfers.deep_view()[a].to
                != joined(dest_dirpath@, names_of(taken)[k]),
{
    proof {
        lemma_level_never_collides(
            src_dirpath@,
            dest_dirpath@,
            children.deep_view(),
            names_of(taken),
        );
    }
    let mut transfers: Vec<Transfer> = Vec::new();
    let mut held = names_counted(false, taken);
    let mut i: usize = 0;
    assert(children.deep_view().take(0) =~= Seq::<RawModel>::empty());
    assert(transfers.deep_view() =~= Seq::<TransferModel>::empty());
    while i < children.len()
        invariant
            i <= children.len(),
            names_of(&held) == taken_after(children.deep_view().take(i as int), names_of(taken)),
            transfers.deep_view() == level_transfers(
                src_dirpath@,
                dest_dirpath@,
                children.deep_view().take(i as int),
                names_of(taken),
            ),
        decreases children.len() - i,
    {
        let child = &children[i];
        let ghost upto = children.deep_view().take(i + 1);
        assert(upto.drop_last() =~= children.deep_view().take(i as int));
        assert(upto.last() == child@);
        if is_copied_child(child) {
            let name = resolve_name(&child.name, &held);
            let transfer = Transfer {
                from: join_path(src_dirpath, &child.name),
                to: join_path(dest_dirpath, &name),
                kind: child.kind,
            };
            let ghost before = transfers.deep_view();
            let ghost added = transfer@;
            let ghost held_before = names_of(&held);
            transfers.push(transfer);
            assert(transfers.deep_view() =~= before.push(added));
            held.push(name);
            assert(names_of(&held) =~= held_before.push(name@));
        }
        i += 1;
    }
    assert(children.deep_view().take(children.len() as int) =~= children.deep_view());
    transfers
}

/// The children of `src_dirpath` that a copy leaves out: those of unknown
/// kind and those whose name is not a single component.
pub fn skipped_children(src_dirpath: &Vec<u8>, children: &Vec<RawEntry>) -> (skipped: Vec<Vec<u8>>)
    ensures
        names_of(&skipped) == level_skipped(src_dirpath@, children.deep_view()),
{
    let mut skipped: Vec<Vec<u8>> = Vec::new();
    let mut i: usize = 0;
    assert(children.deep_view().take(0) =~= Seq::<RawModel>::empty());
    assert(names_of(&skipped) =~= Seq::<Seq<u8>>::empty());
    while i < children.len()
        invariant
            i <= children.len(),
            names_of(&skipped) == level_skipped(
                src_dirpath@,
                children.deep_view().take(i as int),
            ),
        decreases children.len() - i,
    {
        let child = &children[i];
        let ghost upto = children.deep_view().take(i + 1);
        assert(upto.drop_last() =~= children.deep_view().take(i as int));
        assert(upto.last() == child@);
        if !is_copied_child(child) {
            let ghost before = names_of(&skipped);
            let path = join_path(src_dirpath, &child.name);
            skipped.push(path);
            assert(names_of(&skipped) =~= before.push(joined(src_dirpath@, child@.name)));
        }
        i += 1;
    }
    assert(children.deep_view().take(children.len() as int) =~= children.deep_view());
    skipped
}

/// The destination of a directory copy: `dest_dir` itself where its name is
/// free among the names taken beside it, else a directory beside it under the
/// name that its own name is resolved to.
pub open spec fn top_destination(dest_dir: Seq<u8>, taken: Seq<Seq<u8>>) -> Seq<u8> {
    if taken.contains(file_name_of(dest_dir)) {
        joined(parent_of(dest_dir), resolved_name(file_name_of(dest_dir), taken))
    } else {
        dest_dir
    }
}

/// The mathematical value of a `CopyJob`.
pub struct CopyJobModel {
    /// The directory that is copied.
    pub source: Seq<u8>,
    /// The directories of the tree found so far, each with its destination,
    /// in the order found.
    pub queue: Seq<TransferModel>,
    /// How many directories of the queue have been visited.
    pub visited: nat,
    /// The paths that could not be copied.
    pub failures: Seq<Seq<u8>>,
    /// Whether the source is deleted once everything has been copied.
    pub move_contents: bool,
    /// Whether entries of the same name are replaced: no name that a
    /// destination holds counts as taken then.
    pub overwrite: bool,
}

impl CopyJobModel {
    /// The job as it starts: only the top directory is known. It goes to
    /// `dest_dir`, or beside it where its name counts as taken among the
    /// names `held` there.
    pub open spec fn start(
        src_path: Seq<u8>,
        dest_dir: Seq<u8>,
        held: Seq<Seq<u8>>,
        move_contents: bool,
        overwrite: bool,
    ) -> CopyJobModel {
        CopyJobModel {
            source: src_path,
            queue: seq![
                TransferModel {
                    from: src_path,
                    to: top_destination(dest_dir, counted_names(overwrite, held)),
                    kind: EntryKind::Directory,
                },
            ],
            visited: 0,
            failures: Seq::empty(),
            move_contents,
            overwrite,
        }
    }

    /// The job that copies the directory `src_path` to `dest_dir`. There is
    /// none where the destination has no name, or where the directory would
    /// be copied onto or into itself.
    pub open spec fn planned(
        src_path: Seq<u8>,
        dest_dir: Seq<u8>,
        held: Seq<Seq<u8>>,
        move_contents: bool,
        overwrite: bool,
    ) -> Result<CopyJobModel, BrowseError> {
        let to = top_destination(dest_dir, counted_names(overwrite, held));
        if file_name_of(dest_dir).len() == 0 || to == src_path || lies_within(to, src_path) {
            Err(BrowseError::CopyError)
        } else {
            Ok(CopyJobModel::start(src_path, dest_dir, held, move_contents, overwrite))
        }
    }

    /// Whether the visited directories are among the known ones.
    pub open spec fn well_formed(self) -> bool {
        self.visited <= self.queue.len()
    }

    /// Whether every known directory has been visited.
    pub open spec fn is_done(self) -> bool {
        self.visited >= self.queue.len()
    }

    /// The transfers that a visit of the next directory yields, where
    /// `children` is what the host found in it (`None` where it could not be
    /// created or read) and `held` the names that its destination holds.
    pub open spec fn visit_transfers(
        self,
        children: Option<Seq<RawModel>>,
        held: Seq<Seq<u8>>,
    ) -> Seq<TransferModel> {
        if self.is_done() || children is None {
            Seq::empty()
        } else {
            let current = self.queue[self.visited as int];
            level_transfers(
                current.from,
                current.to,
                children->0,
                counted_names(self.overwrite, held),
            )
        }
    }

    /// The job after a visit of the next directory: the directories found in
    /// it join the queue, what is not copied joins the failures, and a
    /// directory that could not be created or read is a failure itself.
    pub open spec fn after_visit(
        self,
        children: Option<Seq<RawModel>>,
        taken: Seq<Seq<u8>>,
    ) -> CopyJobModel {
        if self.is_done() {
            self
        } else {
            let current = self.queue[self.visited as int];
            match children {
                None => CopyJobModel {
                    visited: self.visited + 1,
                    failures: self.failures.push(current.from),
                    ..self
                },
                Some(found) => CopyJobModel {
                    queue: self.queue + directories_of(self.visit_transfers(children, taken)),
                    visited: self.visited + 1,
                    failures: self.failures + level_skipped(current.from, found),
                    ..self
                },
            }
        }
    }

    /// How the job ends: with an error where anything failed or a directory
    /// is still to be visited; else, for a move, with the removal of the
    /// source tree; else with nothing to remove.
    pub open spec fn outcome(self) -> Result<RemovalModel, BrowseError> {
        if self.failures.len() > 0 || !self.is_done() {
            Err(BrowseError::CopyError)
        } else if self.move_contents {
            Ok(RemovalModel::Tree(self.source))
        } else {
            Ok(RemovalModel::Nothing)
        }
    }
}

/// A directory copy in progress.
pub struct CopyJob {
    source: Vec<u8>,
    queue: Vec<Transfer>,
    visited: usize,
    failures: Vec<Vec<u8>>,
    move_contents: bool,
    overwrite: bool,
}

impl View for CopyJob {
    type V = CopyJobModel;

    closed spec fn view(&self) -> CopyJobModel {
        CopyJobModel {
            source: self.source@,
            queue: self.queue.deep_view(),
            visited: self.visited as nat,
            failures: names_of(&self.failures),
            move_contents: self.move_contents,
            overwrite: self.overwrite,
        }
    }
}

/// Starts the copy of the directory `src_path` to `dest_dir`, where `held`
/// lists the names that stand beside `dest_dir`: the copy goes to `dest_dir`
/// unless its name counts as taken, and with `overwrite` set none does. A
/// destination without a name, and a copy of a directory onto or into itself,
/// are copy errors.
pub fn copy_directory(
    src_path: &Vec<u8>,
    dest_dir: &Vec<u8>,
    held: &Vec<Vec<u8>>,
    move_contents: bool,
    overwrite: bool,
) -> (job: Result<CopyJob, BrowseError>)
    ensures
        match (
            job,
            CopyJobModel::planned(src_path@, dest_dir@, names_of(held), move_contents, overwrite),
        ) {
            (Ok(started), Ok(expected)) => started@ == expected && started@.well_formed(),
            (Err(error), Err(expected)) => error == expected,
            _ => false,
        },
{
    let name = file_name(dest_dir);
    if name.len() == 0 {
        return Err(BrowseError::CopyError);
    }
    let taken = names_counted(overwrite, held);
    let to = if name_is_taken(&taken, &name) {
        let free = resolve_name(&name, &taken);
        let holder = get_parent_dir(dest_dir);
        join_path(&holder, &free)
    } else {
        copy_bytes(dest_dir)
    };
    if bytes_eq(&to, src_path) || is_within(&to, src_path) {
        return Err(BrowseError::CopyError);
    }
    let top = Transfer { from: copy_bytes(src_path), to, kind: EntryKind::Directory };
    let mut queue: Vec<Transfer> = Vec::new();
    let ghost top_model = top@;
    queue.push(top);
    let failures: Vec<Vec<u8>> = Vec::new();
    assert(queue.deep_view() =~= seq![top_model]);
    assert(names_of(&failures) =~= Seq::<Seq<u8>>::empty());
    Ok(
        CopyJob {
            source: copy_bytes(src_path),
            queue,
            visited: 0,
            failures,
            move_contents,
            overwrite,
        },
    )
}

impl CopyJob {
    /// The directory to visit next: the host creates `to`, reads `from`, and
    /// hands what it found to `visit`. `None` once every directory has been
    /// visited.
    pub fn current(&self) -> (next: Option<Transfer>)
        ensures
            self@.is_done() <==> next is None,
            next matches Some(transfer) ==> transfer@ == self@.queue[self@.visited as int],
    {
        if self.visited < self.queue.len() {
            assert(self.queue.deep_view()[self.visited as int] == self.queue@[self.visited as int]@);
            Some(self.queue[self.visited].duplicate())
        } else {
            None
        }
    }

    /// Takes what the host found in the directory to visit next, and the
    /// names that its destination holds, and returns the transfers to carry
    /// out for it: the host copies the files, and the directories wait their
    /// turn in the queue.
    pub fn visit(&mut self, children: Option<&Vec<RawEntry>>, held: &Vec<Vec<u8>>) -> (transfers:
        Vec<Transfer>)
        ensures
            final(self)@ == old(self)@.after_visit(
                match children {
                    Some(found) => Some(found.deep_view()),
                    None => None,
                },
                names_of(held),
            ),
            transfers.deep_view() == old(self)@.visit_transfers(
                match children {
                    Some(found) => Some(found.deep_view()),
                    None => None,
                },
                names_of(held),
            ),
            old(self)@.well_formed() ==> final(self)@.well_formed(),
    {
        let ghost before = self@;
        if self.visited >= self.queue.len() {
            let nothing: Vec<Transfer> = Vec::new();
            assert(nothing.deep_view() =~= Seq::<TransferModel>::empty());
            return nothing;
        }
        assert(self.queue.deep_view()[self.visited as int] == self.queue@[self.visited as int]@);
        match children {
            None => {
                let failed = copy_bytes(&self.queue[self.visited].from);
                let ghost failed_path = failed@;
                self.failures.push(failed);
                self.visited = self.visited + 1;
                assert(names_of(&self.failures) =~= before.failures.push(failed_path));
                let nothing: Vec<Transfer> = Vec::new();
                assert(nothing.deep_view() =~= Seq::<TransferModel>::empty());
                nothing
            },
            Some(found) => {
                let taken = names_counted(self.overwrite, held);
                let transfers = copy_dir(
                    &self.queue[self.visited].from,
                    &self.queue[self.visited].to,
                    found,
                    &taken,
                );
                let skipped = skipped_children(&self.queue[self.visited].from, found);
                let mut i: usize = 0;
                assert(transfers.deep_view().take(0) =~= Seq::<TransferModel>::empty());
                assert(self.queue.deep_view() =~= before.queue + Seq::<TransferModel>::empty());
                while i < transfers.len()
                    invariant
                        i <= transfers.len(),
                        self.visited == before.visited,
                        self.visited < self.queue.len(),
                        self.source@ == before.source,
                        self.move_contents == before.move_contents,
                        self.overwrite == before.overwrite,
                        names_of(&self.failures) == before.failures,
                        self.queue.deep_view() == before.queue + directories_of(
                            transfers.deep_view().take(i as int),
                        ),
                    decreases transfers.len() - i,
                {
                    let ghost upto = transfers.deep_view().take(i + 1);
                    assert(upto.drop_last() =~= transfers.deep_view().take(i as int));
                    assert(upto.last() == transfers@[i as int]@);
                    match transfers[i].kind {
                        EntryKind::Directory => {
                            let ghost queue_before = self.queue.deep_view();
                            let next = transfers[i].duplicate();
                            self.queue.push(next);
                            assert(self.queue.deep_view() =~= queue_before.push(
                                transfers@[i as int]@,
                            ));
                            assert(before.queue + directories_of(upto) =~= (before.queue
                                + directories_of(upto.drop_last())).push(upto.last()));
                        },
                        _ => {},
                    }
                    i += 1;
                }
                assert(transfers.deep_view().take(transfers.len() as int)
                    =~= transfers.deep_view());
                let mut k: usize = 0;
                while k < skipped.len()
                    invariant
                        k <= skipped.len(),
                        self.visited == before.visited,
                        self.visited < self.queue.len(),
                        self.source@ == before.source,
                        self.move_contents == before.move_contents,
                        self.overwrite == before.overwrite,
                        self.queue.deep_view() == before.queue + directories_of(
                            transfers.deep_view(),
                        ),
                        names_of(&self.failures) == before.failures + names_of(&skipped).take(
                            k as int,
                        ),
                    decreases skipped.len() - k,
                {
                    let ghost failures_before = names_of(&self.failures);
                    let path = copy_bytes(&skipped[k]);
                    self.failures.push(path);
                    assert(names_of(&self.failures) =~= failures_before.push(skipped@[k as int]@));
                    assert(names_of(&skipped).take(k + 1) =~= names_of(&skipped).take(
                        k as int,
                    ).push(skipped@[k as int]@));
                    k += 1;
                }
                assert(names_of(&skipped).take(skipped.len() as int) =~= names_of(&skipped));
                self.visited = self.visited + 1;
                transfers
            },
        }
    }

    /// Records that the host could not carry out the transfer of `path`.
    pub fn record_failure(&mut self, path: &Vec<u8>)
        ensures
            final(self)@ == (CopyJobModel {
                failures: old(self)@.failures.push(path@),
                ..old(self)@
            }),
    {
        let ghost before = names_of(&self.failures);
        self.failures.push(copy_bytes(path));
        assert(names_of(&self.failures) =~= before.push(path@));
    }

    /// Whether every directory has been visited.
    pub fn is_done(&self) -> (done: bool)
        ensures
            done == self@.is_done(),
    {
        self.visited >= self.queue.len()
    }

    /// How many paths could not be copied so far.
    pub fn failure_count(&self) -> (count: usize)
        ensures
            count == self@.failures.len(),
    {
        self.failures.len()
    }

    /// How the job ends. A job that is not done, or in which anything failed,
    /// ends with a copy error. The source is removed only by a move whose
    /// every directory was visited without a single failure.
    pub fn finish(&self) -> (outcome: Result<Removal, BrowseError>)
        ensures
            match (outcome, self@.outcome()) {
                (Ok(removal), Ok(expected)) => removal@ == expected,
                (Err(error), Err(expected)) => error == expected,
                _ => false,
            },
    {
        if self.failures.len() > 0 || self.visited < self.queue.len() {
            Err(BrowseError::CopyError)
        } else if self.move_contents {
            Ok(Removal::Tree(copy_bytes(&self.source)))
        } else {
            Ok(Removal::Nothing)
        }
    }
}

/// The transfer that places `child` of `src` in `dest` under its own name.
pub open spec fn mirrored(src: Seq<u8>, dest: Seq<u8>, child: RawModel) -> TransferModel {
    TransferModel { from: joined(src, child.name), to: joined(dest, child.name), kind: child.kind }
}

/// The names given out on one level: each transfer goes to its own name in
/// `dest`, and no name given out was taken or given out before.
pub proof fn lemma_level_names(
    src: Seq<u8>,
    dest: Seq<u8>,
    children: Seq<RawModel>,
    taken: Seq<Seq<u8>>,
)
    ensures
        taken_after(children, taken).len() == taken.len() + level_transfers(
            src,
            dest,
            children,
            taken,
        ).len(),
        forall|k: int|
            0 <= k < taken.len() ==> #[trigger] taken_after(children, taken)[k] == taken[k],
        forall|k: int|
            0 <= k < level_transfers(src, dest, children, taken).len() ==> (
            #[trigger] level_transfers(src, dest, children, taken)[k]).to == joined(
                dest,
                taken_after(children, taken)[taken.len() + k],
            ),
        forall|i: int, j: int|
            0 <= j < i < taken_after(children, taken).len() && taken.len() <= i ==> taken_after(
                children,
                taken,
            )[j] != taken_after(children, taken)[i],
    decreases children.len(),
{
    if children.len() > 0 {
        let front = children.drop_last();
        lemma_level_names(src, dest, front, taken);
        let before = taken_after(front, taken);
        if is_copied(children.last()) {
            let name = resolved_name(children.last().name, before);
            lemma_resolved_name(children.last().name, before);
            let after = taken_after(children, taken);
            assert forall|i: int, j: int|
                0 <= j < i < after.len() && taken.len() <= i implies after[j] != after[i] by {
                if i == before.len() {
                    assert(before[j] == after[j]);
                    assert(before.contains(before[j]));
                }
            }
        }
    }
}

/// A directory copy never asks for two transfers to one destination, nor for
/// a transfer to a name that the destination already holds.
pub proof fn lemma_level_never_collides(
    src: Seq<u8>,
    dest: Seq<u8>,
    children: Seq<RawModel>,
    taken: Seq<Seq<u8>>,
)
    ensures
        forall|a: int, b: int|
            0 <= a < b < level_transfers(src, dest, children, taken).len() ==> level_transfers(
                src,
                dest,
                children,
                taken,
            )[a].to != level_transfers(src, dest, children, taken)[b].to,
        forall|a: int, k: int|
            0 <= a < level_transfers(src, dest, children, taken).len() && 0 <= k < taken.len()
                ==> level_transfers(src, dest, children, taken)[a].to != joined(dest, taken[k]),
{
    let transfers = level_transfers(src, dest, children, taken);
    let names = taken_after(children, taken);
    lemma_level_names(src, dest, children, taken);
    assert forall|a: int, b: int| 0 <= a < b < transfers.len() implies transfers[a].to
        != transfers[b].to by {
        if transfers[a].to == transfers[b].to {
            lemma_joined_injective(dest, names[taken.len() + a], names[taken.len() + b]);
        }
    }
    assert forall|a: int, k: int| 0 <= a < transfers.len() && 0 <= k < taken.len() implies transfers[a].to
        != joined(dest, taken[k]) by {
        assert(names[k] == taken[k]);
        if transfers[a].to == joined(dest, taken[k]) {
            lemma_joined_injective(dest, names[taken.len() + a], names[k]);
        }
    }
}

/// Without conflicts a level is mirrored: where the children have distinct
/// names of which none is taken, every copied child goes to the destination
/// under its own name.
pub proof fn lemma_level_mirrors(
    src: Seq<u8>,
    dest: Seq<u8>,
    children: Seq<RawModel>,
    taken: Seq<Seq<u8>>,
)
    requires
        has_distinct_names(children),
        forall|i: int| 0 <= i < children.len() ==> !taken.contains(#[trigger] children[i].name),
    ensures
        forall|n: Seq<u8>| #[trigger]
            taken_after(children, taken).contains(n) ==> taken.contains(n) || exists|i: int|
                0 <= i < children.len() && #[trigger] children[i].name == n,
        forall|i: int|
            0 <= i < children.len() && is_copied(#[trigger] children[i]) ==> level_transfers(
                src,
                dest,
                children,
                taken,
            ).contains(mirrored(src, dest, children[i])),
    decreases children.len(),
{
    if children.len() > 0 {
        let front = children.drop_last();
        let last = children.last();
        assert(has_distinct_names(front));
        assert forall|i: int| 0 <= i < front.len() implies !taken.contains(
            #[trigger] front[i].name,
        ) by {
            assert(front[i] == children[i]);
        }
        lemma_level_mirrors(src, dest, front, taken);
        let before = taken_after(front, taken);
        let after = taken_after(children, taken);
        let transfers = level_transfers(src, dest, children, taken);
        let earlier = level_transfers(src, dest, front, taken);
        assert(children[children.len() - 1] == last);
        if is_copied(last) {
            if before.contains(last.name) {
                if !taken.contains(last.name) {
                    let i = choose|i: int| 0 <= i < front.len() && #[trigger] front[i].name == last.name;
                    assert(children[i].name != children[children.len() - 1].name);
                }
            }
            lemma_resolved_name(last.name, before);
            assert(transfers[transfers.len() - 1] == mirrored(src, dest, last));
        }
        assert forall|n: Seq<u8>| #[trigger] after.contains(n) implies taken.contains(n)
            || exists|i: int| 0 <= i < children.len() && #[trigger] children[i].name == n by {
            let k = choose|k: int| 0 <= k < after.len() && after[k] == n;
            if k < before.len() {
                assert(before[k] == n);
                assert(before.contains(n));
                if !taken.contains(n) {
                    let i = choose|i: int| 0 <= i < front.len() && #[trigger] front[i].name == n;
                    assert(children[i].name == n);
                }
            } else {
                assert(children[children.len() - 1].name == n);
            }
        }
        assert forall|i: int|
            0 <= i < children.len() && is_copied(#[trigger] children[i]) implies transfers.contains(
            mirrored(src, dest, children[i]),
        ) by {
            if i < front.len() {
                assert(front[i] == children[i]);
                let t = mirrored(src, dest, children[i]);
                assert(earlier.contains(t));
                let k = choose|k: int| 0 <= k < earlier.len() && earlier[k] == t;
                assert(transfers[k] == t);
            } else {
                assert(transfers[transfers.len() - 1] == mirrored(src, dest, children[i]));
            }
        }
    }
}

/// A directory among the transfers is among their directories.
pub proof fn lemma_directories_of(transfers: Seq<TransferModel>, transfer: TransferModel)
    requires
        transfers.contains(transfer),
        transfer.kind == EntryKind::Directory,
    ensures
        directories_of(transfers).contains(transfer),
    decreases transfers.len(),
{
    let k = choose|k: int| 0 <= k < transfers.len() && transfers[k] == transfer;
    let front = transfers.drop_last();
    if k < transfers.len() - 1 {
        assert(front[k] == transfer);
        lemma_directories_of(front, transfer);
        let m = choose|m: int|
            0 <= m < directories_of(front).len() && directories_of(front)[m] == transfer;
        assert(directories_of(transfers)[m] == transfer);
    } else {
        assert(directories_of(transfers)[directories_of(transfers).len() - 1] == transfer);
    }
}

/// The path reached from `root` by going down through `names`, one directory
/// after the other.
pub open spec fn descend(root: Seq<u8>, names: Seq<Seq<u8>>) -> Seq<u8>
    decreases names.len(),
{
    if names.len() == 0 {
        root
    } else {
        joined(descend(root, names.drop_last()), names.last())
    }
}

/// Whether `names` leads down from `root` through directories of `tree`,
/// which says for each directory what the host finds in it.
pub open spec fn leads_down(
    tree: spec_fn(Seq<u8>) -> Seq<RawModel>,
    root: Seq<u8>,
    names: Seq<Seq<u8>>,
) -> bool {
    forall|i: int|
        0 <= i < names.len() ==> is_component(#[trigger] names[i]) && tree(
            descend(root, names.take(i)),
        ).contains(RawModel { name: names[i], kind: EntryKind::Directory })
}

impl CopyJobModel {
    /// The source of the directory to visit next.
    pub open spec fn next_source(self) -> Seq<u8> {
        self.queue[self.visited as int].from
    }

    /// The job after `steps` visits during which the host finds in every
    /// directory what `tree` holds, and every destination directory empty.
    pub open spec fn after_visits(self, tree: spec_fn(Seq<u8>) -> Seq<RawModel>, steps: nat)
        -> CopyJobModel
        decreases steps,
    {
        if steps == 0 {
            self
        } else {
            let before = self.after_visits(tree, (steps - 1) as nat);
            before.after_visit(Some(tree(before.next_source())), Seq::empty())
        }
    }
}

/// Visits never drop or change a directory of the queue, visit the
/// directories in queue order, one per visit, and keep what the job was
/// started with.
pub proof fn lemma_visits_in_order(
    job: CopyJobModel,
    tree: spec_fn(Seq<u8>) -> Seq<RawModel>,
    earlier: nat,
    later: nat,
)
    requires
        job.visited == 0,
        earlier <= later,
    ensures
        job.after_visits(tree, later).well_formed(),
        job.after_visits(tree, later).visited <= later,
        job.after_visits(tree, later).visited < later ==> job.after_visits(tree, later).is_done(),
        job.after_visits(tree, later).source == job.source,
        job.after_visits(tree, later).move_contents == job.move_contents,
        job.after_visits(tree, later).overwrite == job.overwrite,
        job.after_visits(tree, earlier).queue.len() <= job.after_visits(tree, later).queue.len(),
        forall|k: int|
            0 <= k < job.after_visits(tree, earlier).queue.len() ==> job.after_visits(
                tree,
                later,
            ).queue[k] == job.after_visits(tree, earlier).queue[k],
    decreases later,
{
    if later > 0 {
        let previous = (later - 1) as nat;
        if earlier < later {
            lemma_visits_in_order(job, tree, earlier, previous);
        } else {
            lemma_visits_in_order(job, tree, previous, previous);
        }
    }
}

/// A directory that is in the queue after some visits is visited by the
/// visit of its own position.
pub proof fn lemma_queued_is_visited(
    job: CopyJobModel,
    tree: spec_fn(Seq<u8>) -> Seq<RawModel>,
    steps: nat,
    position: nat,
)
    requires
        job.visited == 0,
        position < job.after_visits(tree, steps).queue.len(),
    ensures
        job.after_visits(tree, position).visited == position,
        position < job.after_visits(tree, position).queue.len(),
        job.after_visits(tree, position).queue[position as int] == job.after_visits(
            tree,
            steps,
        ).queue[position as int],
    decreases steps,
{
    if steps <= position {
        lemma_visits_in_order(job, tree, steps, position);
    } else {
        let previous = (steps - 1) as nat;
        let before = job.after_visits(tree, previous);
        lemma_visits_in_order(job, tree, previous, previous);
        lemma_visits_in_order(job, tree, previous, steps);
        if before.is_done() {
            lemma_queued_is_visited(job, tree, previous, position);
        } else {
            assert(before.visited == previous);
            lemma_queued_is_visited(job, tree, previous, position);
        }
    }
}

/// Every directory below the source joins the queue with its mirrored
/// destination: returns a number of visits after which it is queued, and its
/// position.
pub proof fn lemma_directory_is_queued(
    job: CopyJobModel,
    tree: spec_fn(Seq<u8>) -> Seq<RawModel>,
    names: Seq<Seq<u8>>,
) -> (at: (nat, nat))
    requires
        job.visited == 0,
        job.queue.len() == 1,
        job.queue[0].kind == EntryKind::Directory,
        forall|dir: Seq<u8>| has_distinct_names(#[trigger] tree(dir)),
        leads_down(tree, job.queue[0].from, names),
    ensures
        at.1 < job.after_visits(tree, at.0).queue.len(),
        job.after_visits(tree, at.0).queue[at.1 as int] == (TransferModel {
            from: descend(job.queue[0].from, names),
            to: descend(job.queue[0].to, names),
            kind: EntryKind::Directory,
        }),
    decreases names.len(),
{
    if names.len() == 0 {
        (0, 0)
    } else {
        let front = names.drop_last();
        assert forall|i: int| 0 <= i < front.len() implies is_component(#[trigger] front[i])
            && tree(descend(job.queue[0].from, front.take(i))).contains(
            RawModel { name: front[i], kind: EntryKind::Directory },
        ) by {
            assert(front[i] == names[i]);
            assert(front.take(i) =~= names.take(i));
        }
        let (steps, position) = lemma_directory_is_queued(job, tree, front);
        lemma_queued_is_visited(job, tree, steps, position);
        let before = job.after_visits(tree, position);
        let holder = before.queue[position as int];
        let children = tree(holder.from);
        let child = RawModel { name: names.last(), kind: EntryKind::Directory };
        assert(names[names.len() - 1] == names.last());
        assert(names.take(names.len() - 1) =~= front);
        assert(children.contains(child));
        let index = choose|index: int| 0 <= index < children.len() && children[index] == child;
        let none = Seq::<Seq<u8>>::empty();
        lemma_level_mirrors(holder.from, holder.to, children, none);
        let transfers = level_transfers(holder.from, holder.to, children, none);
        assert(counted_names(before.overwrite, none) == none);
        assert(is_copied(children[index]));
        let wanted = mirrored(holder.from, holder.to, child);
        assert(transfers.contains(wanted));
        lemma_directories_of(transfers, wanted);
        let found = directories_of(transfers);
        let m = choose|m: int| 0 <= m < found.len() && found[m] == wanted;
        let after = job.after_visits(tree, position + 1);
        assert(after == before.after_visit(Some(tree(before.next_source())), none));
        assert(after.queue == before.queue + found);
        assert(after.queue[before.queue.len() + m] == wanted);
        ((position + 1) as nat, (before.queue.len() + m) as nat)
    }
}

/// A directory copy is complete: where the host finds every directory as
/// `tree` holds it, with distinct names, and every destination directory
/// empty, each file below the source is copied by some visit to the mirrored
/// path below the destination. Returns the number of visits before that one.
pub proof fn lemma_copy_reaches_every_file(
    src_path: Seq<u8>,
    dest_dir: Seq<u8>,
    held: Seq<Seq<u8>>,
    move_contents: bool,
    overwrite: bool,
    tree: spec_fn(Seq<u8>) -> Seq<RawModel>,
    dirs: Seq<Seq<u8>>,
    file: Seq<u8>,
) -> (visits: nat)
    requires
        forall|dir: Seq<u8>| has_distinct_names(#[trigger] tree(dir)),
        leads_down(tree, src_path, dirs),
        is_component(file),
        tree(descend(src_path, dirs)).contains(RawModel { name: file, kind: EntryKind::File }),
    ensures
        ({
            let job = CopyJobModel::start(
                src_path,
                dest_dir,
                held,
                move_contents,
                overwrite,
            ).after_visits(tree, visits);
            &&& !job.is_done()
            &&& job.next_source() == descend(src_path, dirs)
            &&& job.visit_transfers(Some(tree(job.next_source())), Seq::empty()).contains(
                TransferModel {
                    from: joined(descend(src_path, dirs), file),
                    to: joined(
                        descend(
                            top_destination(dest_dir, counted_names(overwrite, held)),
                            dirs,
                        ),
                        file,
                    ),
                    kind: EntryKind::File,
                },
            )
        }),
{
    let start = CopyJobModel::start(src_path, dest_dir, held, move_contents, overwrite);
    let (steps, position) = lemma_directory_is_queued(start, tree, dirs);
    lemma_queued_is_visited(start, tree, steps, position);
    let job = start.after_visits(tree, position);
    let holder = job.queue[position as int];
    let children = tree(holder.from);
    let child = RawModel { name: file, kind: EntryKind::File };
    let index = choose|index: int| 0 <= index < children.len() && children[index] == child;
    lemma_level_mirrors(holder.from, holder.to, children, Seq::<Seq<u8>>::empty());
    assert(is_copied(children[index]));
    assert(counted_names(job.overwrite, Seq::<Seq<u8>>::empty()) == Seq::<Seq<u8>>::empty());
    position
}

/// A copy that is no move never removes its source, whatever the host finds.
pub proof fn lemma_copy_keeps_source(
    src_path: Seq<u8>,
    dest_dir: Seq<u8>,
    held: Seq<Seq<u8>>,
    overwrite: bool,
    tree: spec_fn(Seq<u8>) -> Seq<RawModel>,
    visits: nat,
)
    ensures
        !(CopyJobModel::start(src_path, dest_dir, held, false, overwrite).after_visits(
            tree,
            visits,
        ).outcome() matches Ok(RemovalModel::Tree(_))),
{
    let start = CopyJobModel::start(src_path, dest_dir, held, false, overwrite);
    lemma_visits_in_order(start, tree, visits, visits);
}

/// A move removes its source only once every directory has been visited and
/// nothing has failed.
pub proof fn lemma_move_removes_last(job: CopyJobModel)
    ensures
        job.outcome() matches Ok(RemovalModel::Tree(path)) ==> path == job.source
            && job.move_contents && job.is_done() && job.failures.len() == 0,
{
}

} // verus!
