//! Operations on single entries: choosing a destination name that collides
//! with nothing, planning a file copy, and deciding what a delete removes.

use crate::bytes::{bytes_eq, copy_bytes};
use crate::dir::{EntryKind, RawEntry};
use crate::error::BrowseError;
use crate::path::{
    file_name, file_name_of, is_component, join_path, joined, lemma_joined_injective,
};
use vstd::prelude::*;

verus! {

/// The byte appended to a name, once or more, until it collides with nothing.
pub const DUPLICATE_MARK: u8 = 95;

/// The names that a list of byte strings holds.
pub open spec fn names_of(names: &Vec<Vec<u8>>) -> Seq<Seq<u8>> {
    Seq::new(names@.len(), |i: int| names@[i]@)
}

/// `name` with `marks` duplicate marks appended.
pub open spec fn marked(name: Seq<u8>, marks: nat) -> Seq<u8> {
    name + Seq::new(marks, |i: int| DUPLICATE_MARK)
}

/// Whether `marks` is the smallest number of duplicate marks that makes
/// `name` differ from every taken name.
pub open spec fn is_first_free(name: Seq<u8>, taken: Seq<Seq<u8>>, marks: nat) -> bool {
    &&& !taken.contains(marked(name, marks))
    &&& forall|fewer: nat| fewer < marks ==> taken.contains(#[trigger] marked(name, fewer))
}

/// The smallest number of duplicate marks that makes `name` free.
pub open spec fn marks_needed(name: Seq<u8>, taken: Seq<Seq<u8>>) -> nat {
    choose|marks: nat| is_first_free(name, taken, marks)
}

/// The name under which `name` is stored beside the taken names: `name`
/// itself where it is free, else `name` with as few duplicate marks as make it
/// free.
pub open spec fn resolved_name(name: Seq<u8>, taken: Seq<Seq<u8>>) -> Seq<u8> {
    marked(name, marks_needed(name, taken))
}

/// The path under which `name` is stored in `dest_dir` beside the taken names.
pub open spec fn resolved_path(dest_dir: Seq<u8>, name: Seq<u8>, taken: Seq<Seq<u8>>) -> Seq<u8> {
    joined(dest_dir, resolved_name(name, taken))
}

/// The length of the longest of the names.
pub open spec fn longest(names: Seq<Seq<u8>>) -> nat
    decreases names.len(),
{
    if names.len() == 0 {
        0
    } else if names.last().len() > longest(names.drop_last()) {
        names.last().len()
    } else {
        longest(names.drop_last())
    }
}

/// No name is longer than the longest.
pub proof fn lemma_longest(names: Seq<Seq<u8>>, name: Seq<u8>)
    requires
        names.contains(name),
    ensures
        name.len() <= longest(names),
    decreases names.len(),
{
    let k = choose|k: int| 0 <= k < names.len() && names[k] == name;
    if k < names.len() - 1 {
        assert(names.drop_last()[k] == name);
        lemma_longest(names.drop_last(), name);
    }
}

/// At most one number of marks is the first that is free.
pub proof fn lemma_first_free_unique(name: Seq<u8>, taken: Seq<Seq<u8>>, a: nat, b: nat)
    requires
        is_first_free(name, taken, a),
        is_first_free(name, taken, b),
    ensures
        a == b,
{
    if a < b {
        assert(taken.contains(marked(name, a)));
    }
    if b < a {
        assert(taken.contains(marked(name, b)));
    }
}

/// Some number of marks is free where all smaller numbers from `from` down are
/// taken: marks make a name longer, and only so many names are taken.
proof fn lemma_free_from(name: Seq<u8>, taken: Seq<Seq<u8>>, from: nat)
    requires
        forall|fewer: nat| fewer < from ==> taken.contains(#[trigger] marked(name, fewer)),
    ensures
        exists|marks: nat| is_first_free(name, taken, marks),
    decreases longest(taken) + 1 - (name.len() + from),
{
    if taken.contains(marked(name, from)) {
        lemma_longest(taken, marked(name, from));
        assert forall|fewer: nat| fewer < from + 1 implies taken.contains(
            #[trigger] marked(name, fewer),
        ) by {
            if fewer == from {
            }
        }
        lemma_free_from(name, taken, from + 1);
    } else {
        assert(is_first_free(name, taken, from));
    }
}

/// The resolved name collides with no taken name, every shorter candidate
/// does, and a name that is free is kept as it is.
pub proof fn lemma_resolved_name(name: Seq<u8>, taken: Seq<Seq<u8>>)
    ensures
        is_first_free(name, taken, marks_needed(name, taken)),
        !taken.contains(resolved_name(name, taken)),
        !taken.contains(name) ==> resolved_name(name, taken) == name,
        taken.contains(name) ==> resolved_name(name, taken) != name,
        is_component(name) ==> is_component(resolved_name(name, taken)),
{
    lemma_free_from(name, taken, 0);
    assert(marked(name, 0) =~= name);
    if !taken.contains(name) {
        assert(is_first_free(name, taken, 0));
        lemma_first_free_unique(name, taken, 0, marks_needed(name, taken));
    }
}

/// Whether one of the taken names is `name`.
pub fn name_is_taken(taken: &Vec<Vec<u8>>, name: &Vec<u8>) -> (found: bool)
    ensures
        found == names_of(taken).contains(name@),
{
    let mut i: usize = 0;
    while i < taken.len()
        invariant
            i <= taken.len(),
            forall|k: int| 0 <= k < i ==> names_of(taken)[k] != name@,
        decreases taken.len() - i,
    {
        if bytes_eq(&taken[i], name) {
            assert(names_of(taken)[i as int] == name@);
            return true;
        }
        i += 1;
    }
    false
}

/// Chooses the name under which `name` is stored beside the taken names:
/// duplicate marks are appended, one at a time, until the name is free.
pub fn resolve_name(name: &Vec<u8>, taken: &Vec<Vec<u8>>) -> (free: Vec<u8>)
    ensures
        free@ == resolved_name(name@, names_of(taken)),
        !names_of(taken).contains(free@),
        !names_of(taken).contains(name@) ==> free@ == name@,
{
    let mut candidate = copy_bytes(name);
    let ghost mut marks: nat = 0;
    assert(candidate@ =~= marked(name@, 0));
    while name_is_taken(taken, &candidate)
        invariant
            candidate@ == marked(name@, marks),
            forall|fewer: nat|
                fewer < marks ==> names_of(taken).contains(#[trigger] marked(name@, fewer)),
        decreases longest(names_of(taken)) + 1 - candidate@.len(),
    {
        proof {
            lemma_longest(names_of(taken), candidate@);
        }
        candidate.push(DUPLICATE_MARK);
        proof {
            assert(candidate@ =~= marked(name@, marks + 1));
            assert forall|fewer: nat| fewer < marks + 1 implies names_of(taken).contains(
                #[trigger] marked(name@, fewer),
            ) by {
                if fewer == marks {
                }
            }
            marks = marks + 1;
        }
    }
    proof {
        assert(is_first_free(name@, names_of(taken), marks));
        lemma_resolved_name(name@, names_of(taken));
        lemma_first_free_unique(
            name@,
            names_of(taken),
            marks,
            marks_needed(name@, names_of(taken)),
        );
    }
    candidate
}

/// The path under which `name` is stored in `dest_dir`, where `taken` lists
/// the names that `dest_dir` already holds. Nothing is changed; the path is
/// `dest_dir/name` unless that name is taken.
pub fn resolve_conflict(dest_dir: &Vec<u8>, name: &Vec<u8>, taken: &Vec<Vec<u8>>) -> (final_path:
    Vec<u8>)
    ensures
        final_path@ == resolved_path(dest_dir@, name@, names_of(taken)),
        !names_of(taken).contains(resolved_name(name@, names_of(taken))),
        !names_of(taken).contains(name@) ==> final_path@ == joined(dest_dir@, name@),
{
    let free = resolve_name(name, taken);
    join_path(dest_dir, &free)
}

/// The names that count as taken in a destination: those that it holds, or
/// none where entries of the same name are to be replaced.
pub open spec fn counted_names(overwrite: bool, held: Seq<Seq<u8>>) -> Seq<Seq<u8>> {
    if overwrite {
        Seq::empty()
    } else {
        held
    }
}

/// The names that count as taken in a destination that holds the names
/// `held`: all of them, unless entries of the same name are to be replaced.
pub fn names_counted(overwrite: bool, held: &Vec<Vec<u8>>) -> (taken: Vec<Vec<u8>>)
    ensures
        names_of(&taken) == counted_names(overwrite, names_of(held)),
{
    let mut taken: Vec<Vec<u8>> = Vec::new();
    if !overwrite {
        let mut i: usize = 0;
        while i < held.len()
            invariant
                i <= held.len(),
                taken@.len() == i,
                forall|k: int| 0 <= k < i ==> taken@[k]@ == held@[k]@,
            decreases held.len() - i,
        {
            taken.push(copy_bytes(&held[i]));
            i += 1;
        }
    }
    assert(names_of(&taken) =~= counted_names(overwrite, names_of(held)));
    taken
}

/// The path under which the entry `src_entry` is stored in the directory
/// `dest_entry` beside the taken names; an error where `src_entry` has no
/// name (it is a root, or ends in `.` or `..`).
pub open spec fn duplicate_path(src_entry: Seq<u8>, dest_entry: Seq<u8>, taken: Seq<Seq<u8>>)
    -> Result<Seq<u8>, BrowseError> {
    if file_name_of(src_entry).len() == 0 {
        Err(BrowseError::CopyError)
    } else {
        Ok(resolved_path(dest_entry, file_name_of(src_entry), taken))
    }
}

/// The path under which the entry `src_entry` is stored in the directory
/// `dest_entry`, where `taken` lists the names that the directory already
/// holds. A source without a name is a copy error.
pub fn append_duplicates(src_entry: &Vec<u8>, dest_entry: &Vec<u8>, taken: &Vec<Vec<u8>>) -> (dest_path:
    Result<Vec<u8>, BrowseError>)
    ensures
        match (dest_path, duplicate_path(src_entry@, dest_entry@, names_of(taken))) {
            (Ok(path), Ok(expected)) => path@ == expected,
            (Err(error), Err(expected)) => error == expected,
            _ => false,
        },
        !names_of(taken).contains(resolved_name(file_name_of(src_entry@), names_of(taken))),
        !names_of(taken).contains(file_name_of(src_entry@)) ==> (dest_path matches Ok(path)
            ==> path@ == joined(dest_entry@, file_name_of(src_entry@))),
{
    let name = file_name(src_entry);
    if name.len() == 0 {
        proof {
            lemma_resolved_name(file_name_of(src_entry@), names_of(taken));
        }
        Err(BrowseError::CopyError)
    } else {
        Ok(resolve_conflict(dest_entry, &name, taken))
    }
}

/// The names of the entries that the host found in a directory.
pub fn entry_names(found: &Vec<RawEntry>) -> (names: Vec<Vec<u8>>)
    ensures
        names_of(&names) == Seq::new(found@.len(), |i: int| found@[i]@.name),
{
    let mut names: Vec<Vec<u8>> = Vec::new();
    let mut i: usize = 0;
    while i < found.len()
        invariant
            i <= found.len(),
            names@.len() == i,
            forall|k: int| 0 <= k < i ==> names@[k]@ == found@[k]@.name,
        decreases found.len() - i,
    {
        names.push(copy_bytes(&found[i].name));
        i += 1;
    }
    assert(names_of(&names) =~= Seq::new(found@.len(), |i: int| found@[i]@.name));
    names
}

/// What the host is asked to delete for good.
#[derive(Clone, Debug, PartialEq, Eq)]
pub enum Removal {
    /// Nothing is deleted.
    Nothing,
    /// One file.
    File(Vec<u8>),
    /// A directory with all that it holds.
    Tree(Vec<u8>),
}

/// The mathematical value of a `Removal`.
pub enum RemovalModel {
    Nothing,
    File(Seq<u8>),
    Tree(Seq<u8>),
}

impl View for Removal {
    type V = RemovalModel;

    open spec fn view(&self) -> RemovalModel {
        match self {
            Removal::Nothing => RemovalModel::Nothing,
            Removal::File(path) => RemovalModel::File(path@),
            Removal::Tree(path) => RemovalModel::Tree(path@),
        }
    }
}

/// What deleting an entry of the given kind removes: a file itself, a
/// directory with all that it holds. An entry that is neither (it is gone, or
/// its kind could not be read) cannot be deleted, which is a delete error.
pub open spec fn removal_of(path: Seq<u8>, kind: EntryKind) -> Result<RemovalModel, BrowseError> {
    match kind {
        EntryKind::File => Ok(RemovalModel::File(path)),
        EntryKind::Directory => Ok(RemovalModel::Tree(path)),
        EntryKind::Unknown => Err(BrowseError::DeleteError),
    }
}

/// Decides what a permanent delete of `selected_entry` removes: the file
/// itself, or the directory with all its contents. For an entry that is
/// neither, a delete error is reported and nothing is removed.
pub fn delete_entry(selected_entry: &Vec<u8>, kind: EntryKind) -> (removal: Result<
    Removal,
    BrowseError,
>)
    ensures
        match (removal, removal_of(selected_entry@, kind)) {
            (Ok(asked), Ok(expected)) => asked@ == expected,
            (Err(error), Err(expected)) => error == expected,
            _ => false,
        },
{
    match kind {
        EntryKind::File => Ok(Removal::File(copy_bytes(selected_entry))),
        EntryKind::Directory => Ok(Removal::Tree(copy_bytes(selected_entry))),
        EntryKind::Unknown => Err(BrowseError::DeleteError),
    }
}

/// Reports how a delete that the host carried out ended.
pub fn delete_outcome(deleted: bool) -> (outcome: Result<(), BrowseError>)
    ensures
        deleted <==> outcome is Ok,
        !deleted ==> outcome == Err::<(), BrowseError>(BrowseError::DeleteError),
{
    if deleted {
        Ok(())
    } else {
        Err(BrowseError::DeleteError)
    }
}

/// A byte-for-byte copy of one file that the host is asked to make.
#[derive(Clone, Debug, PartialEq, Eq)]
pub struct FileCopy {
    /// The file to read.
    pub from: Vec<u8>,
    /// The file to create; nothing stands there yet.
    pub to: Vec<u8>,
    /// Whether the source is deleted once the copy has succeeded.
    pub move_contents: bool,
}

/// The mathematical value of a `FileCopy`.
pub struct FileCopyModel {
    pub from: Seq<u8>,
    pub to: Seq<u8>,
    pub move_contents: bool,
}

impl View for FileCopy {
    type V = FileCopyModel;

    open spec fn view(&self) -> FileCopyModel {
        FileCopyModel { from: self.from@, to: self.to@, move_contents: self.move_contents }
    }
}

/// What follows a file copy: a failed copy is an error and leaves the source
/// alone whatever was intended; a move deletes the source after a copy that
/// succeeded; a plain copy deletes nothing.
pub open spec fn after_copy(plan: FileCopyModel, copied: bool) -> Result<
    RemovalModel,
    BrowseError,
> {
    if !copied {
        Err(BrowseError::CopyError)
    } else if plan.move_contents {
        Ok(RemovalModel::File(plan.from))
    } else {
        Ok(RemovalModel::Nothing)
    }
}

/// A copy that failed never removes its source; a move removes exactly its
/// source, and only after the copy has succeeded; a plain copy removes
/// nothing.
pub proof fn lemma_source_outlives_failed_copy(plan: FileCopyModel)
    ensures
        after_copy(plan, false) == Err::<RemovalModel, BrowseError>(BrowseError::CopyError),
        after_copy(plan, true) == Ok::<RemovalModel, BrowseError>(
            if plan.move_contents {
                RemovalModel::File(plan.from)
            } else {
                RemovalModel::Nothing
            },
        ),
{
}

/// The destination that a copy is resolved to is none of the taken paths:
/// nothing that the destination directory holds is written over.
pub proof fn lemma_resolved_path_is_free(dest_dir: Seq<u8>, name: Seq<u8>, taken: Seq<Seq<u8>>)
    ensures
        forall|k: int|
            0 <= k < taken.len() ==> resolved_path(dest_dir, name, taken) != joined(
                dest_dir,
                #[trigger] taken[k],
            ),
{
    lemma_resolved_name(name, taken);
    assert forall|k: int| 0 <= k < taken.len() implies resolved_path(dest_dir, name, taken)
        != joined(dest_dir, #[trigger] taken[k]) by {
        if resolved_path(dest_dir, name, taken) == joined(dest_dir, taken[k]) {
            lemma_joined_injective(dest_dir, resolved_name(name, taken), taken[k]);
            assert(taken.contains(taken[k]));
        }
    }
}

/// The copy of the file `src` into the directory `dest_dir` beside the taken
/// names. There is none where the source has no name, or where it would be
/// copied onto itself.
pub open spec fn planned_copy(
    src: Seq<u8>,
    dest_dir: Seq<u8>,
    taken: Seq<Seq<u8>>,
    move_contents: bool,
) -> Result<FileCopyModel, BrowseError> {
    let to = resolved_path(dest_dir, file_name_of(src), taken);
    if file_name_of(src).len() == 0 || to == src {
        Err(BrowseError::CopyError)
    } else {
        Ok(FileCopyModel { from: src, to, move_contents })
    }
}

/// Plans the copy of the file `src_filepath` into the directory `dest_dir`,
/// where `taken` lists the names that count as taken there: the destination
/// keeps the file's name unless that name is taken. A source without a name,
/// and a copy of a file onto itself, are copy errors.
pub fn copy_file(
    src_filepath: &Vec<u8>,
    dest_dir: &Vec<u8>,
    taken: &Vec<Vec<u8>>,
    move_contents: bool,
) -> (plan: Result<FileCopy, BrowseError>)
    ensures
        match (plan, planned_copy(src_filepath@, dest_dir@, names_of(taken), move_contents)) {
            (Ok(copy), Ok(expected)) => copy@ == expected,
            (Err(error), Err(expected)) => error == expected,
            _ => false,
        },
        plan matches Ok(copy) ==> copy@.to != copy@.from,
        !names_of(taken).contains(resolved_name(file_name_of(src_filepath@), names_of(taken))),
        !names_of(taken).contains(file_name_of(src_filepath@)) ==> (plan matches Ok(copy)
            ==> copy@.to == joined(dest_dir@, file_name_of(src_filepath@))),
{
    match append_duplicates(src_filepath, dest_dir, taken) {
        Err(error) => Err(error),
        Ok(to) => {
            if bytes_eq(&to, src_filepath) {
                Err(BrowseError::CopyError)
            } else {
                Ok(FileCopy { from: copy_bytes(src_filepath), to, move_contents })
            }
        },
    }
}

impl FileCopy {
    /// Decides what follows once the host has tried the copy.
    pub fn finish(&self, copied: bool) -> (outcome: Result<Removal, BrowseError>)
        ensures
            match (outcome, after_copy(self@, copied)) {
                (Ok(removal), Ok(expected)) => removal@ == expected,
                (Err(error), Err(expected)) => error == expected,
                _ => false,
            },
    {
        if !copied {
            Err(BrowseError::CopyError)
        } else if self.move_contents {
            Ok(Removal::File(copy_bytes(&self.from)))
        } else {
            Ok(Removal::Nothing)
        }
    }
}

} // verus!
