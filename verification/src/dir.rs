//! Directory listings: what a directory was found to hold, filtered and put
//! in order.

use crate::bytes::{
    bytes_eq, bytes_le, copy_bytes, lemma_lex_le_antisymmetric, lemma_lex_le_total,
    lemma_lex_le_transitive, lex_le,
};
use crate::error::BrowseError;
use crate::path::{
    is_component, is_hidden, is_hidden_name, is_valid_component, join_path, joined,
    lemma_joined_injective,
};
use vstd::prelude::*;

verus! {

/// What an entry of a directory is.
#[derive(Clone, Copy, Debug, PartialEq, Eq, Structural)]
pub enum EntryKind {
    /// Anything that can be copied byte for byte.
    File,
    /// A directory.
    Directory,
    /// An entry whose metadata could not be read.
    Unknown,
}

/// One entry as the host found it when it read a directory.
#[derive(Clone, Debug, PartialEq, Eq)]
pub struct RawEntry {
    pub name: Vec<u8>,
    pub kind: EntryKind,
}

/// The mathematical value of a `RawEntry`.
pub struct RawModel {
    pub name: Seq<u8>,
    pub kind: EntryKind,
}

impl View for RawEntry {
    type V = RawModel;

    open spec fn view(&self) -> RawModel {
        RawModel { name: self.name@, kind: self.kind }
    }
}

impl DeepView for RawEntry {
    type V = RawModel;

    open spec fn deep_view(&self) -> RawModel {
        self@
    }
}

/// One entry of a listing.
#[derive(Clone, Debug, PartialEq, Eq)]
pub struct DirectoryEntry {
    pub name: Vec<u8>,
    pub path: Vec<u8>,
    pub kind: EntryKind,
}

/// The mathematical value of a `DirectoryEntry`.
pub struct EntryModel {
    pub name: Seq<u8>,
    pub path: Seq<u8>,
    pub kind: EntryKind,
}

impl View for DirectoryEntry {
    type V = EntryModel;

    open spec fn view(&self) -> EntryModel {
        EntryModel { name: self.name@, path: self.path@, kind: self.kind }
    }
}

impl DeepView for DirectoryEntry {
    type V = EntryModel;

    open spec fn deep_view(&self) -> EntryModel {
        self@
    }
}

impl DirectoryEntry {
    /// A copy of this entry.
    pub fn duplicate(&self) -> (copy: DirectoryEntry)
        ensures
            copy@ == self@,
    {
        DirectoryEntry {
            name: copy_bytes(&self.name),
            path: copy_bytes(&self.path),
            kind: self.kind,
        }
    }
}

/// Whether a listing shows what was found: its name must be the name of an
/// entry, and a hidden name is shown only where hidden entries are asked for.
pub open spec fn is_listed(found: RawModel, show_hidden: bool) -> bool {
    is_component(found.name) && (show_hidden || !is_hidden_name(found.name))
}

/// The listing entry for what was found in `dir`.
pub open spec fn entry_of(dir: Seq<u8>, found: RawModel) -> EntryModel {
    EntryModel { name: found.name, path: joined(dir, found.name), kind: found.kind }
}

/// Whether the paths of a listing ascend in byte-wise lexicographic order.
pub open spec fn is_sorted_by_path(entries: Seq<EntryModel>) -> bool {
    forall|i: int, j: int| 0 <= i < j < entries.len() ==> lex_le(entries[i].path, entries[j].path)
}

/// Whether the paths of a listing ascend strictly: each sorts before the
/// next and differs from it.
pub open spec fn ascends_strictly(entries: Seq<EntryModel>) -> bool {
    forall|i: int, j: int|
        0 <= i < j < entries.len() ==> lex_le(entries[i].path, entries[j].path)
            && entries[i].path != entries[j].path
}

/// Whether no two entries of a listing share a path.
pub open spec fn has_distinct_paths(entries: Seq<EntryModel>) -> bool {
    forall|i: int, j: int| 0 <= i < j < entries.len() ==> entries[i].path != entries[j].path
}

/// Whether no two of the entries found share a name.
pub open spec fn has_distinct_names(found: Seq<RawModel>) -> bool {
    forall|i: int, j: int| 0 <= i < j < found.len() ==> found[i].name != found[j].name
}

/// Whether one of the entries has the given path.
pub open spec fn holds_path(entries: Seq<EntryModel>, path: Seq<u8>) -> bool {
    exists|i: int| 0 <= i < entries.len() && (#[trigger] entries[i]).path == path
}

/// Whether nothing found before position `k` has the name found there.
pub open spec fn is_first_of_name(found: Seq<RawModel>, k: int) -> bool {
    forall|j: int| 0 <= j < k ==> (#[trigger] found[j]).name != found[k].name
}

/// Where an entry with the given path goes into a sorted listing: behind
/// every entry whose path sorts no later.
pub open spec fn insert_point(sorted: Seq<EntryModel>, path: Seq<u8>) -> int
    decreases sorted.len(),
{
    if sorted.len() == 0 || lex_le(sorted.last().path, path) {
        sorted.len() as int
    } else {
        insert_point(sorted.drop_last(), path)
    }
}

/// A sorted listing with `entry` put in at its place.
pub open spec fn insert_by_path(sorted: Seq<EntryModel>, entry: EntryModel) -> Seq<EntryModel> {
    sorted.insert(insert_point(sorted, entry.path), entry)
}

/// The listing of `dir`: the entries found there that are shown, each name
/// once (the first that was found of it), sorted by path.
pub open spec fn listing_of(dir: Seq<u8>, found: Seq<RawModel>, show_hidden: bool) -> Seq<
    EntryModel,
>
    decreases found.len(),
{
    if found.len() == 0 {
        Seq::empty()
    } else {
        let before = listing_of(dir, found.drop_last(), show_hidden);
        let entry = entry_of(dir, found.last());
        if is_listed(found.last(), show_hidden) && !holds_path(before, entry.path) {
            insert_by_path(before, entry)
        } else {
            before
        }
    }
}

/// The entries found that a listing shows, in the order in which they were
/// found.
pub open spec fn shown_entries(dir: Seq<u8>, found: Seq<RawModel>, show_hidden: bool) -> Seq<
    EntryModel,
> {
    found.filter(|f: RawModel| is_listed(f, show_hidden)).map_values(
        |f: RawModel| entry_of(dir, f),
    )
}

/// What `insert_point` finds: the entry before it sorts no later than the
/// path, and every entry from it on sorts later.
pub proof fn lemma_insert_point(sorted: Seq<EntryModel>, path: Seq<u8>)
    ensures
        0 <= insert_point(sorted, path) <= sorted.len(),
        insert_point(sorted, path) > 0 ==> lex_le(
            sorted[insert_point(sorted, path) - 1].path,
            path,
        ),
        forall|k: int|
            insert_point(sorted, path) <= k < sorted.len() ==> !lex_le(
                (#[trigger] sorted[k]).path,
                path,
            ),
    decreases sorted.len(),
{
    if !(sorted.len() == 0 || lex_le(sorted.last().path, path)) {
        let front = sorted.drop_last();
        lemma_insert_point(front, path);
        let at = insert_point(front, path);
        assert forall|k: int| at <= k < sorted.len() implies !lex_le(
            (#[trigger] sorted[k]).path,
            path,
        ) by {
            if k < front.len() {
                assert(front[k] == sorted[k]);
            }
        }
        if at > 0 {
            assert(front[at - 1] == sorted[at - 1]);
        }
    }
}

/// The place of an entry is the one position that has only later paths
/// behind it and no later path right before it.
pub proof fn lemma_insert_position(sorted: Seq<EntryModel>, entry: EntryModel, at: int)
    requires
        0 <= at <= sorted.len(),
        at > 0 ==> lex_le(sorted[at - 1].path, entry.path),
        forall|k: int| at <= k < sorted.len() ==> !lex_le((#[trigger] sorted[k]).path, entry.path),
    ensures
        insert_point(sorted, entry.path) == at,
        insert_by_path(sorted, entry) == sorted.insert(at, entry),
    decreases sorted.len(),
{
    if at < sorted.len() {
        let front = sorted.drop_last();
        assert(!lex_le(sorted[sorted.len() - 1].path, entry.path));
        if at > 0 {
            assert(front[at - 1] == sorted[at - 1]);
        }
        assert forall|k: int| at <= k < front.len() implies !lex_le(
            (#[trigger] front[k]).path,
            entry.path,
        ) by {
            assert(front[k] == sorted[k]);
        }
        lemma_insert_position(front, entry, at);
    }
}

/// Putting an entry into a sorted listing keeps it sorted, keeps the old
/// entries, and adds the new one and nothing else. Where the entry's path is
/// new, the paths stay distinct.
pub proof fn lemma_insert_by_path(sorted: Seq<EntryModel>, entry: EntryModel)
    requires
        is_sorted_by_path(sorted),
    ensures
        is_sorted_by_path(insert_by_path(sorted, entry)),
        insert_by_path(sorted, entry).len() == sorted.len() + 1,
        insert_by_path(sorted, entry).to_multiset() == sorted.to_multiset().insert(entry),
        forall|e: EntryModel|
            #![trigger insert_by_path(sorted, entry).contains(e)]
            #![trigger sorted.contains(e)]
            insert_by_path(sorted, entry).contains(e) <==> (sorted.contains(e) || e == entry),
        has_distinct_paths(sorted) && !holds_path(sorted, entry.path) ==> has_distinct_paths(
            insert_by_path(sorted, entry),
        ),
{
    broadcast use vstd::seq_lib::group_to_multiset_ensures;

    let at = insert_point(sorted, entry.path);
    let after = insert_by_path(sorted, entry);
    lemma_insert_point(sorted, entry.path);
    assert forall|i: int| 0 <= i < at implies lex_le(
        (#[trigger] sorted[i]).path,
        entry.path,
    ) by {
        if i < at - 1 {
            assert(lex_le(sorted[i].path, sorted[at - 1].path));
            lemma_lex_le_transitive(sorted[i].path, sorted[at - 1].path, entry.path);
        }
    }
    assert forall|k: int| at <= k < sorted.len() implies lex_le(
        entry.path,
        (#[trigger] sorted[k]).path,
    ) by {
        lemma_lex_le_total(sorted[k].path, entry.path);
    }
    assert forall|i: int, j: int| 0 <= i < j < after.len() implies lex_le(
        after[i].path,
        after[j].path,
    ) by {
        let x = if i < at {
            sorted[i]
        } else if i == at {
            entry
        } else {
            sorted[i - 1]
        };
        let y = if j < at {
            sorted[j]
        } else if j == at {
            entry
        } else {
            sorted[j - 1]
        };
        assert(after[i] == x);
        assert(after[j] == y);
        if i < at && j < at {
            assert(lex_le(sorted[i].path, sorted[j].path));
        } else if i < at && j > at {
            assert(lex_le(sorted[i].path, sorted[j - 1].path));
        } else if i > at {
            assert(lex_le(sorted[i - 1].path, sorted[j - 1].path));
        }
    }
    assert forall|e: EntryModel|
        #![trigger after.contains(e)]
        #![trigger sorted.contains(e)]
        after.contains(e) <==> (sorted.contains(e) || e == entry) by {
        if after.contains(e) {
            let k = choose|k: int| 0 <= k < after.len() && after[k] == e;
            if k < at {
                assert(sorted[k] == e);
            } else if k > at {
                assert(sorted[k - 1] == e);
            }
        }
        if sorted.contains(e) {
            let k = choose|k: int| 0 <= k < sorted.len() && sorted[k] == e;
            if k < at {
                assert(after[k] == e);
            } else {
                assert(after[k + 1] == e);
            }
        }
        if e == entry {
            assert(after[at] == e);
        }
    }
    if has_distinct_paths(sorted) && !holds_path(sorted, entry.path) {
        assert forall|i: int, j: int| 0 <= i < j < after.len() implies after[i].path
            != after[j].path by {
            let a = if i < at {
                i
            } else {
                i - 1
            };
            let b = if j < at {
                j
            } else {
                j - 1
            };
            if i != at && j != at {
                assert(after[i] == sorted[a]);
                assert(after[j] == sorted[b]);
                assert(sorted[a].path != sorted[b].path);
            } else if i == at {
                assert(after[j] == sorted[b]);
                assert(sorted[b].path != entry.path);
            } else {
                assert(after[i] == sorted[a]);
                assert(sorted[a].path != entry.path);
            }
        }
    }
}

/// Whether `listing` holds exactly the entries for what was found and is
/// shown, of each name the first that was found.
pub open spec fn holds_first_of_each(
    dir: Seq<u8>,
    found: Seq<RawModel>,
    show_hidden: bool,
    listing: Seq<EntryModel>,
) -> bool {
    forall|e: EntryModel|
        listing.contains(e) <==> exists|k: int|
            0 <= k < found.len() && is_listed(#[trigger] found[k], show_hidden)
                && is_first_of_name(found, k) && e == entry_of(dir, found[k])
}

/// Whether `listing` holds the path of everything that was found and is
/// shown.
pub open spec fn holds_every_path(
    dir: Seq<u8>,
    found: Seq<RawModel>,
    show_hidden: bool,
    listing: Seq<EntryModel>,
) -> bool {
    forall|k: int|
        0 <= k < found.len() && is_listed(#[trigger] found[k], show_hidden) ==> holds_path(
            listing,
            joined(dir, found[k].name),
        )
}

/// What stands first of its name among all but the last entry found stands
/// first of its name among all.
proof fn lemma_first_in_front(found: Seq<RawModel>, k: int)
    requires
        0 <= k < found.len() - 1,
    ensures
        found.drop_last()[k] == found[k],
        is_first_of_name(found.drop_last(), k) == is_first_of_name(found, k),
{
    let front = found.drop_last();
    assert(front[k] == found[k]);
    if is_first_of_name(front, k) {
        assert forall|j: int| 0 <= j < k implies (#[trigger] found[j]).name != found[k].name by {
            assert(front[j] == found[j]);
        }
    }
    if is_first_of_name(found, k) {
        assert forall|j: int| 0 <= j < k implies (#[trigger] front[j]).name != front[k].name by {
            assert(front[j] == found[j]);
        }
    }
}

/// The last entry found is the first of its name exactly where the listing
/// of what was found before does not hold its path.
proof fn lemma_last_is_first(
    dir: Seq<u8>,
    found: Seq<RawModel>,
    show_hidden: bool,
    before: Seq<EntryModel>,
)
    requires
        found.len() > 0,
        is_listed(found.last(), show_hidden),
        holds_first_of_each(dir, found.drop_last(), show_hidden, before),
        holds_every_path(dir, found.drop_last(), show_hidden, before),
    ensures
        is_first_of_name(found, found.len() - 1) <==> !holds_path(
            before,
            joined(dir, found.last().name),
        ),
{
    let front = found.drop_last();
    let last = found.len() - 1;
    let path = joined(dir, found.last().name);
    if holds_path(before, path) {
        let i = choose|i: int| 0 <= i < before.len() && (#[trigger] before[i]).path == path;
        assert(before.contains(before[i]));
        let k = choose|k: int|
            0 <= k < front.len() && is_listed(#[trigger] front[k], show_hidden)
                && is_first_of_name(front, k) && before[i] == entry_of(dir, front[k]);
        lemma_joined_injective(dir, front[k].name, found.last().name);
        assert(front[k] == found[k]);
        assert(found[k].name == found[last].name);
    } else {
        assert forall|j: int| 0 <= j < last implies (#[trigger] found[j]).name
            != found[last].name by {
            if found[j].name == found[last].name {
                assert(front[j] == found[j]);
                assert(is_listed(front[j], show_hidden));
            }
        }
    }
}

/// One more entry found keeps the listing holding the first of each name.
proof fn lemma_member_step(
    dir: Seq<u8>,
    found: Seq<RawModel>,
    show_hidden: bool,
    before: Seq<EntryModel>,
    listing: Seq<EntryModel>,
)
    requires
        found.len() > 0,
        holds_first_of_each(dir, found.drop_last(), show_hidden, before),
        is_listed(found.last(), show_hidden) ==> (is_first_of_name(found, found.len() - 1)
            <==> !holds_path(before, joined(dir, found.last().name))),
        is_listed(found.last(), show_hidden) && !holds_path(
            before,
            joined(dir, found.last().name),
        ) ==> forall|e: EntryModel|
            #![trigger listing.contains(e)]
            listing.contains(e) <==> (before.contains(e) || e == entry_of(dir, found.last())),
        !(is_listed(found.last(), show_hidden) && !holds_path(
            before,
            joined(dir, found.last().name),
        )) ==> listing == before,
    ensures
        holds_first_of_each(dir, found, show_hidden, listing),
{
    let front = found.drop_last();
    let last = found.len() - 1;
    let entry = entry_of(dir, found.last());
    let added = is_listed(found.last(), show_hidden) && !holds_path(before, entry.path);
    assert(found[last] == found.last());
    assert forall|e: EntryModel| listing.contains(e) <==> exists|k: int|
        0 <= k < found.len() && is_listed(#[trigger] found[k], show_hidden) && is_first_of_name(
            found,
            k,
        ) && e == entry_of(dir, found[k]) by {
        if listing.contains(e) {
            if before.contains(e) {
                let k = choose|k: int|
                    0 <= k < front.len() && is_listed(#[trigger] front[k], show_hidden)
                        && is_first_of_name(front, k) && e == entry_of(dir, front[k]);
                lemma_first_in_front(found, k);
                assert(is_listed(found[k], show_hidden));
            } else {
                assert(is_listed(found[last], show_hidden));
            }
        }
        if exists|k: int|
            0 <= k < found.len() && is_listed(#[trigger] found[k], show_hidden)
                && is_first_of_name(found, k) && e == entry_of(dir, found[k]) {
            let k = choose|k: int|
                0 <= k < found.len() && is_listed(#[trigger] found[k], show_hidden)
                    && is_first_of_name(found, k) && e == entry_of(dir, found[k]);
            if k < last {
                lemma_first_in_front(found, k);
                assert(is_listed(front[k], show_hidden));
                assert(before.contains(e));
            } else {
                assert(added);
            }
        }
    }
}

/// One more entry found keeps the listing holding every path.
proof fn lemma_cover_step(
    dir: Seq<u8>,
    found: Seq<RawModel>,
    show_hidden: bool,
    before: Seq<EntryModel>,
    listing: Seq<EntryModel>,
)
    requires
        found.len() > 0,
        holds_every_path(dir, found.drop_last(), show_hidden, before),
        forall|e: EntryModel| before.contains(e) ==> #[trigger] listing.contains(e),
        is_listed(found.last(), show_hidden) ==> holds_path(
            before,
            joined(dir, found.last().name),
        ) || listing.contains(entry_of(dir, found.last())),
    ensures
        holds_every_path(dir, found, show_hidden, listing),
{
    let front = found.drop_last();
    let last = found.len() - 1;
    assert forall|k: int|
        0 <= k < found.len() && is_listed(#[trigger] found[k], show_hidden) implies holds_path(
        listing,
        joined(dir, found[k].name),
    ) by {
        let path = joined(dir, found[k].name);
        if k < last {
            assert(front[k] == found[k]);
        }
        if holds_path(before, path) {
            let i = choose|i: int| 0 <= i < before.len() && (#[trigger] before[i]).path == path;
            assert(before.contains(before[i]));
            assert(listing.contains(before[i]));
            let m = choose|m: int| 0 <= m < listing.len() && listing[m] == before[i];
            assert(listing[m].path == path);
        } else {
            assert(k == last);
            assert(listing.contains(entry_of(dir, found.last())));
            let m = choose|m: int|
                0 <= m < listing.len() && listing[m] == entry_of(dir, found.last());
            assert(listing[m].path == path);
        }
    }
}

/// A listing is sorted by full path and holds no path twice. Each of its
/// entries is the first that was found of its name, and of every name that
/// is shown the first that was found is in the listing.
pub proof fn lemma_listing_of(dir: Seq<u8>, found: Seq<RawModel>, show_hidden: bool)
    ensures
        is_sorted_by_path(listing_of(dir, found, show_hidden)),
        has_distinct_paths(listing_of(dir, found, show_hidden)),
        ascends_strictly(listing_of(dir, found, show_hidden)),
        listing_of(dir, found, show_hidden).len() <= found.len(),
        holds_first_of_each(dir, found, show_hidden, listing_of(dir, found, show_hidden)),
        holds_every_path(dir, found, show_hidden, listing_of(dir, found, show_hidden)),
    decreases found.len(),
{
    let listing = listing_of(dir, found, show_hidden);
    if found.len() > 0 {
        let front = found.drop_last();
        let before = listing_of(dir, front, show_hidden);
        let entry = entry_of(dir, found.last());
        lemma_listing_of(dir, front, show_hidden);
        if is_listed(found.last(), show_hidden) {
            lemma_last_is_first(dir, found, show_hidden, before);
            if !holds_path(before, entry.path) {
                lemma_insert_by_path(before, entry);
            }
        }
        lemma_member_step(dir, found, show_hidden, before, listing);
        lemma_cover_step(dir, found, show_hidden, before, listing);
    } else {
        assert(listing =~= Seq::<EntryModel>::empty());
    }
}

/// Where no name was found twice, a listing is a rearrangement of the entries
/// shown: none is lost, none is added, and none occurs twice.
pub proof fn lemma_listing_is_rearranged(dir: Seq<u8>, found: Seq<RawModel>, show_hidden: bool)
    requires
        has_distinct_names(found),
    ensures
        listing_of(dir, found, show_hidden).to_multiset() == shown_entries(
            dir,
            found,
            show_hidden,
        ).to_multiset(),
        listing_of(dir, found, show_hidden).len() == shown_entries(dir, found, show_hidden).len(),
    decreases found.len(),
{
    broadcast use vstd::seq_lib::group_to_multiset_ensures;

    reveal(Seq::filter);
    let listed = |f: RawModel| is_listed(f, show_hidden);
    if found.len() == 0 {
        assert(shown_entries(dir, found, show_hidden) =~= Seq::<EntryModel>::empty());
    } else {
        let front = found.drop_last();
        let last = found.len() - 1;
        assert(has_distinct_names(front)) by {
            assert forall|i: int, j: int| 0 <= i < j < front.len() implies front[i].name
                != front[j].name by {
                assert(found[i].name != found[j].name);
            }
        }
        lemma_listing_is_rearranged(dir, front, show_hidden);
        lemma_listing_of(dir, front, show_hidden);
        let before = listing_of(dir, front, show_hidden);
        let shown = shown_entries(dir, front, show_hidden);
        let entry = entry_of(dir, found.last());
        if is_listed(found.last(), show_hidden) {
            if holds_path(before, entry.path) {
                let i = choose|i: int| 0 <= i < before.len() && (#[trigger] before[i]).path == entry.path;
                assert(before.contains(before[i]));
                let k = choose|k: int|
                    0 <= k < front.len() && is_listed(#[trigger] front[k], show_hidden)
                        && is_first_of_name(front, k) && before[i] == entry_of(dir, front[k]);
                lemma_joined_injective(dir, front[k].name, found.last().name);
                assert(found[k].name != found[last].name);
            }
            lemma_insert_by_path(before, entry);
            assert(found.filter(listed) == front.filter(listed).push(found.last()));
            assert(shown_entries(dir, found, show_hidden) =~= shown.push(entry));
        } else {
            assert(found.filter(listed) == front.filter(listed));
        }
    }
}

/// Every entry of a listing is a child of the listed directory under the
/// name of an entry, and a listing without hidden entries holds no name that
/// starts with the hidden mark.
pub proof fn lemma_listing_entries(dir: Seq<u8>, found: Seq<RawModel>, show_hidden: bool)
    ensures
        forall|i: int|
            0 <= i < listing_of(dir, found, show_hidden).len() ==> {
                let e = #[trigger] listing_of(dir, found, show_hidden)[i];
                &&& is_component(e.name)
                &&& e.path == joined(dir, e.name)
                &&& !show_hidden ==> !is_hidden_name(e.name)
            },
{
    let listing = listing_of(dir, found, show_hidden);
    lemma_listing_of(dir, found, show_hidden);
    assert forall|i: int| 0 <= i < listing.len() implies {
        let e = #[trigger] listing[i];
        &&& is_component(e.name)
        &&& e.path == joined(dir, e.name)
        &&& !show_hidden ==> !is_hidden_name(e.name)
    } by {
        assert(listing.contains(listing[i]));
    }
}

/// The listing without hidden entries holds no hidden name, and each of its
/// entries is also in the listing with hidden entries.
pub proof fn lemma_hidden_filter(dir: Seq<u8>, found: Seq<RawModel>)
    ensures
        forall|e: EntryModel|
            listing_of(dir, found, false).contains(e) ==> !is_hidden_name(e.name)
                && listing_of(dir, found, true).contains(e),
        listing_of(dir, found, false).len() <= listing_of(dir, found, true).len(),
{
    let shown = listing_of(dir, found, false);
    let all = listing_of(dir, found, true);
    lemma_listing_of(dir, found, false);
    lemma_listing_of(dir, found, true);
    assert forall|e: EntryModel| shown.contains(e) implies !is_hidden_name(e.name)
        && all.contains(e) by {
        let k = choose|k: int|
            0 <= k < found.len() && is_listed(#[trigger] found[k], false) && is_first_of_name(
                found,
                k,
            ) && e == entry_of(dir, found[k]);
        assert(is_listed(found[k], true));
    }
    lemma_no_longer_than_what_holds_it(shown, all);
}

/// A listing of distinct paths whose entries are all in another listing is no
/// longer than that one.
proof fn lemma_no_longer_than_what_holds_it(part: Seq<EntryModel>, whole: Seq<EntryModel>)
    requires
        has_distinct_paths(part),
        forall|e: EntryModel| part.contains(e) ==> whole.contains(e),
    ensures
        part.len() <= whole.len(),
    decreases whole.len(),
{
    if part.len() > 0 {
        assert(part.contains(part[0]));
        let last = whole.last();
        let rest = whole.drop_last();
        if exists|i: int| 0 <= i < part.len() && part[i] == last {
            let i = choose|i: int| 0 <= i < part.len() && part[i] == last;
            let fewer = part.remove(i);
            assert forall|a: int, b: int| 0 <= a < b < fewer.len() implies fewer[a].path
                != fewer[b].path by {
                let x = if a < i {
                    a
                } else {
                    a + 1
                };
                let y = if b < i {
                    b
                } else {
                    b + 1
                };
                assert(fewer[a] == part[x]);
                assert(fewer[b] == part[y]);
            }
            assert forall|e: EntryModel| fewer.contains(e) implies rest.contains(e) by {
                let a = choose|a: int| 0 <= a < fewer.len() && fewer[a] == e;
                let x = if a < i {
                    a
                } else {
                    a + 1
                };
                assert(fewer[a] == part[x]);
                assert(part.contains(e));
                assert(part[x].path != part[i].path);
                let m = choose|m: int| 0 <= m < whole.len() && whole[m] == e;
                assert(rest[m] == e);
            }
            lemma_no_longer_than_what_holds_it(fewer, rest);
        } else {
            assert forall|e: EntryModel| part.contains(e) implies rest.contains(e) by {
                let a = choose|a: int| 0 <= a < part.len() && part[a] == e;
                let m = choose|m: int| 0 <= m < whole.len() && whole[m] == e;
                assert(rest[m] == e);
            }
            lemma_no_longer_than_what_holds_it(part, rest);
        }
    }
}

/// Two listings that are sorted by path, free of repeated paths, and hold the
/// same entries are the same listing.
pub proof fn lemma_sorted_listing_unique(a: Seq<EntryModel>, b: Seq<EntryModel>)
    requires
        is_sorted_by_path(a),
        is_sorted_by_path(b),
        has_distinct_paths(a),
        has_distinct_paths(b),
        forall|e: EntryModel| a.contains(e) <==> b.contains(e),
    ensures
        a == b,
    decreases a.len(),
{
    if a.len() == 0 {
        if b.len() > 0 {
            assert(b.contains(b[0]));
        }
        assert(a =~= b);
    } else if b.len() == 0 {
        assert(a.contains(a[0]));
    } else {
        let x = a.last();
        let y = b.last();
        assert(a.contains(x)) by {
            assert(a[a.len() - 1] == x);
        }
        assert(b.contains(y)) by {
            assert(b[b.len() - 1] == y);
        }
        let i = choose|i: int| 0 <= i < b.len() && b[i] == x;
        let j = choose|j: int| 0 <= j < a.len() && a[j] == y;
        assert(lex_le(x.path, y.path)) by {
            if i < b.len() - 1 {
                assert(lex_le(b[i].path, b[b.len() - 1].path));
            }
            crate::bytes::lemma_lex_le_reflexive(x.path);
        }
        assert(lex_le(y.path, x.path)) by {
            if j < a.len() - 1 {
                assert(lex_le(a[j].path, a[a.len() - 1].path));
            }
            crate::bytes::lemma_lex_le_reflexive(y.path);
        }
        lemma_lex_le_antisymmetric(x.path, y.path);
        assert(i == b.len() - 1);
        assert(x == y);
        let a0 = a.drop_last();
        let b0 = b.drop_last();
        assert forall|e: EntryModel| a0.contains(e) <==> b0.contains(e) by {
            if a0.contains(e) {
                let k = choose|k: int| 0 <= k < a0.len() && a0[k] == e;
                assert(a[k] == e);
                assert(a.contains(e));
                let m = choose|m: int| 0 <= m < b.len() && b[m] == e;
                assert(a[k].path != a[a.len() - 1].path);
                assert(b0[m] == e);
            }
            if b0.contains(e) {
                let k = choose|k: int| 0 <= k < b0.len() && b0[k] == e;
                assert(b[k] == e);
                assert(b.contains(e));
                let m = choose|m: int| 0 <= m < a.len() && a[m] == e;
                assert(b[k].path != b[b.len() - 1].path);
                assert(a0[m] == e);
            }
        }
        lemma_sorted_listing_unique(a0, b0);
        assert(a =~= a0.push(x));
        assert(b =~= b0.push(y));
    }
}

/// The order of a listing does not depend on the order in which the host
/// found the entries: two readings of a directory that hold the same entries,
/// each name once, give the same listing.
pub proof fn lemma_listing_ignores_read_order(
    dir: Seq<u8>,
    first: Seq<RawModel>,
    second: Seq<RawModel>,
    show_hidden: bool,
)
    requires
        has_distinct_names(first),
        has_distinct_names(second),
        forall|r: RawModel| first.contains(r) <==> second.contains(r),
    ensures
        listing_of(dir, first, show_hidden) == listing_of(dir, second, show_hidden),
{
    let a = listing_of(dir, first, show_hidden);
    let b = listing_of(dir, second, show_hidden);
    lemma_listing_of(dir, first, show_hidden);
    lemma_listing_of(dir, second, show_hidden);
    assert forall|e: EntryModel| a.contains(e) <==> b.contains(e) by {
        if a.contains(e) {
            let k = choose|k: int|
                0 <= k < first.len() && is_listed(#[trigger] first[k], show_hidden)
                    && is_first_of_name(first, k) && e == entry_of(dir, first[k]);
            assert(first.contains(first[k]));
            let m = choose|m: int| 0 <= m < second.len() && second[m] == first[k];
            assert(is_listed(second[m], show_hidden));
            assert(is_first_of_name(second, m));
        }
        if b.contains(e) {
            let k = choose|k: int|
                0 <= k < second.len() && is_listed(#[trigger] second[k], show_hidden)
                    && is_first_of_name(second, k) && e == entry_of(dir, second[k]);
            assert(second.contains(second[k]));
            let m = choose|m: int| 0 <= m < first.len() && first[m] == second[k];
            assert(is_listed(first[m], show_hidden));
            assert(is_first_of_name(first, m));
        }
    }
    lemma_sorted_listing_unique(a, b);
}

/// Lists a directory from what the host found in it: drops names that are no
/// name of an entry and, unless `show_hidden` is set, hidden names; keeps of
/// each name the first that was found; gives each entry its full path; and
/// sorts by that path, byte by byte. The paths of the listing ascend strictly.
pub fn get_dir_items(selected_dir: &Vec<u8>, found: &Vec<RawEntry>, show_hidden: &bool) -> (items:
    Vec<DirectoryEntry>)
    ensures
        items.deep_view() == listing_of(selected_dir@, found.deep_view(), *show_hidden),
        ascends_strictly(items.deep_view()),
        has_distinct_names(found.deep_view()) ==> items.deep_view().to_multiset()
            == shown_entries(selected_dir@, found.deep_view(), *show_hidden).to_multiset(),
        items.len() <= found.len(),
        forall|i: int|
            0 <= i < items.len() ==> {
                let e = #[trigger] items.deep_view()[i];
                &&& is_component(e.name)
                &&& e.path == joined(selected_dir@, e.name)
                &&& !*show_hidden ==> !is_hidden_name(e.name)
            },
{
    let mut items: Vec<DirectoryEntry> = Vec::new();
    let mut i: usize = 0;
    assert(found.deep_view().take(0) =~= Seq::<RawModel>::empty());
    assert(items.deep_view() =~= Seq::<EntryModel>::empty());
    while i < found.len()
        invariant
            i <= found.len(),
            items.deep_view() == listing_of(
                selected_dir@,
                found.deep_view().take(i as int),
                *show_hidden,
            ),
        decreases found.len() - i,
    {
        let raw = &found[i];
        let ghost before = items.deep_view();
        let ghost upto = found.deep_view().take(i + 1);
        assert(upto.drop_last() =~= found.deep_view().take(i as int));
        assert(upto.last() == raw@);
        proof {
            lemma_listing_of(selected_dir@, found.deep_view().take(i as int), *show_hidden);
        }
        if is_valid_component(&raw.name) && (*show_hidden || !is_hidden(&raw.name)) {
            let entry = DirectoryEntry {
                name: copy_bytes(&raw.name),
                path: join_path(selected_dir, &raw.name),
                kind: raw.kind,
            };
            let mut at: usize = items.len();
            while at > 0 && !bytes_le(&items[at - 1].path, &entry.path)
                invariant
                    at <= items.len(),
                    items.deep_view() == before,
                    forall|k: int|
                        at <= k < items.len() ==> !lex_le(
                            (#[trigger] before[k]).path,
                            entry@.path,
                        ),
                decreases at,
            {
                assert(items.deep_view()[at - 1] == items@[at - 1]@);
                at -= 1;
            }
            proof {
                if at > 0 {
                    assert(items.deep_view()[at - 1] == items@[at - 1]@);
                }
                lemma_insert_position(before, entry@, at as int);
            }
            let held = at > 0 && bytes_eq(&items[at - 1].path, &entry.path);
            proof {
                lemma_held_is_at_hand(before, entry@.path, at as int);
            }
            if !held {
                let ghost added = entry@;
                items.insert(at, entry);
                assert(items.deep_view() =~= before.insert(at as int, added));
            }
        }
        i += 1;
    }
    proof {
        assert(found.deep_view().take(found.len() as int) =~= found.deep_view());
        lemma_listing_of(selected_dir@, found.deep_view(), *show_hidden);
        lemma_listing_entries(selected_dir@, found.deep_view(), *show_hidden);
        if has_distinct_names(found.deep_view()) {
            lemma_listing_is_rearranged(selected_dir@, found.deep_view(), *show_hidden);
        }
    }
    items
}

/// In a sorted listing, a path is held exactly where the entry right before
/// its place has it.
proof fn lemma_held_is_at_hand(sorted: Seq<EntryModel>, path: Seq<u8>, at: int)
    requires
        is_sorted_by_path(sorted),
        0 <= at <= sorted.len(),
        at > 0 ==> lex_le(sorted[at - 1].path, path),
        forall|k: int| at <= k < sorted.len() ==> !lex_le((#[trigger] sorted[k]).path, path),
    ensures
        holds_path(sorted, path) <==> (at > 0 && sorted[at - 1].path == path),
{
    if holds_path(sorted, path) {
        let i = choose|i: int| 0 <= i < sorted.len() && (#[trigger] sorted[i]).path == path;
        if i >= at {
            crate::bytes::lemma_lex_le_reflexive(path);
        } else if i < at - 1 {
            assert(lex_le(sorted[i].path, sorted[at - 1].path));
            lemma_lex_le_antisymmetric(sorted[at - 1].path, path);
        }
    }
    if at > 0 && sorted[at - 1].path == path {
        assert(holds_path(sorted, path));
    }
}

/// Lists a directory from what the host read: `found` is what it holds, or
/// `None` where it could not be opened, which is a read error.
pub fn list(dir_path: &Vec<u8>, found: Option<&Vec<RawEntry>>, show_hidden: bool) -> (listing:
    Result<Vec<DirectoryEntry>, BrowseError>)
    ensures
        match (listing, found) {
            (Ok(items), Some(read)) => items.deep_view() == listing_of(
                dir_path@,
                read.deep_view(),
                show_hidden,
            ),
            (Err(error), None) => error == BrowseError::ReadError,
            _ => false,
        },
{
    match found {
        Some(read) => Ok(get_dir_items(dir_path, read, &show_hidden)),
        None => Err(BrowseError::ReadError),
    }
}

} // verus!
