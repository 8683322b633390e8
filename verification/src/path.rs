//! Paths as byte strings: components separated by `/`.
//!
//! A path is read from its end. Separators at the end are ignored, and so is
//! a `.` component anywhere but at the very start of a relative path. The
//! bytes after the last remaining separator are the path's last component,
//! and what stands before that separator is its parent.

use crate::bytes::append_bytes;
use vstd::prelude::*;

verus! {

/// The byte that separates the components of a path.
pub const SEPARATOR: u8 = 47;

/// The byte that a hidden entry's name starts with.
pub const HIDDEN_MARK: u8 = 46;

/// The byte of which the components `.` and `..` are made.
pub const DOT: u8 = 46;

/// Whether the byte before `end` belongs to no component: it is a separator,
/// or a `.` that stands alone right behind a separator.
pub open spec fn is_filler(p: Seq<u8>, end: int) -> bool {
    &&& 0 < end <= p.len()
    &&& (p[end - 1] == SEPARATOR || (end >= 2 && p[end - 1] == DOT && p[end - 2] == SEPARATOR))
}

/// Where `p[..end]` ends once the separators and `.` components at its end
/// are taken off.
pub open spec fn trim_end(p: Seq<u8>, end: int) -> int
    decreases end,
{
    if is_filler(p, end) {
        trim_end(p, end - 1)
    } else {
        end
    }
}

/// Where the run of non-separator bytes that ends at `end` starts.
pub open spec fn name_start(p: Seq<u8>, end: int) -> int
    decreases end,
{
    if 0 < end <= p.len() && p[end - 1] != SEPARATOR {
        name_start(p, end - 1)
    } else {
        end
    }
}

/// A path without a parent: the empty path, or a path that holds nothing
/// behind its leading separator.
pub open spec fn is_root(p: Seq<u8>) -> bool {
    trim_end(p, p.len() as int) == 0
}

/// The last component of a path; empty for a root.
pub open spec fn last_component(p: Seq<u8>) -> Seq<u8> {
    let end = trim_end(p, p.len() as int);
    p.subrange(name_start(p, end), end)
}

/// Whether a component names the directory itself (`.`) or the one above
/// (`..`), and so is no name of an entry.
pub open spec fn is_dots(component: Seq<u8>) -> bool {
    component == seq![DOT] || component == seq![DOT, DOT]
}

/// The name of the entry that a path leads to: its last component. A path
/// that ends in `..`, a lone `.`, and a root have no name: theirs is empty.
pub open spec fn file_name_of(p: Seq<u8>) -> Seq<u8> {
    if is_dots(last_component(p)) {
        Seq::empty()
    } else {
        last_component(p)
    }
}

/// The directory that holds a path: the path without its last component. A
/// root is its own parent; the parent of a single relative component is the
/// empty path.
pub open spec fn parent_of(p: Seq<u8>) -> Seq<u8> {
    let end = trim_end(p, p.len() as int);
    let start = name_start(p, end);
    let cut = trim_end(p, start);
    if end == 0 {
        p
    } else if start == 0 {
        Seq::empty()
    } else if cut == 0 {
        p.take(1)
    } else {
        p.take(cut)
    }
}

/// A name that can stand for one entry of a directory: not empty, free of
/// separators, and neither `.` nor `..`.
pub open spec fn is_component(name: Seq<u8>) -> bool {
    &&& name.len() > 0
    &&& forall|i: int| 0 <= i < name.len() ==> name[i] != SEPARATOR
    &&& !is_dots(name)
}

/// A name that listings leave out unless hidden entries are asked for.
pub open spec fn is_hidden_name(name: Seq<u8>) -> bool {
    name.len() > 0 && name[0] == HIDDEN_MARK
}

/// The path of the entry `name` inside the directory `dir`.
pub open spec fn joined(dir: Seq<u8>, name: Seq<u8>) -> Seq<u8> {
    if dir.len() == 0 {
        name
    } else if dir.last() == SEPARATOR {
        dir + name
    } else {
        dir + seq![SEPARATOR] + name
    }
}

/// Whether `path` leads into the directory `dir`: it starts with `dir` and a
/// separator.
pub open spec fn lies_within(path: Seq<u8>, dir: Seq<u8>) -> bool {
    let stem = joined(dir, Seq::empty());
    stem.len() <= path.len() && path.take(stem.len() as int) == stem
}

/// A directory path in the form that `parent_of` returns: nothing at its end
/// is ignored, unless it is the one-byte root.
pub open spec fn is_tidy(dir: Seq<u8>) -> bool {
    trim_end(dir, dir.len() as int) == dir.len() || dir == seq![SEPARATOR]
}

/// A path without what is ignored at its end; a root that is not empty is
/// cut down to its leading separator.
pub open spec fn tidied(p: Seq<u8>) -> Seq<u8> {
    let end = trim_end(p, p.len() as int);
    if end > 0 {
        p.take(end)
    } else if p.len() > 0 {
        p.take(1)
    } else {
        p
    }
}

/// What `trim_end` finds: only bytes that belong to no component were taken
/// off, and no such byte is left at the end.
pub proof fn lemma_trim_end(p: Seq<u8>, end: int)
    requires
        0 <= end <= p.len(),
    ensures
        0 <= trim_end(p, end) <= end,
        !is_filler(p, trim_end(p, end)),
        forall|k: int| trim_end(p, end) < k <= end ==> is_filler(p, k),
    decreases end,
{
    if is_filler(p, end) {
        lemma_trim_end(p, end - 1);
    }
}

/// What `name_start` finds: the bytes from there to `end` hold no separator,
/// and a separator or the start of the path stands before them.
pub proof fn lemma_name_start(p: Seq<u8>, end: int)
    requires
        0 <= end <= p.len(),
    ensures
        0 <= name_start(p, end) <= end,
        name_start(p, end) > 0 ==> p[name_start(p, end) - 1] == SEPARATOR,
        forall|i: int| name_start(p, end) <= i < end ==> p[i] != SEPARATOR,
    decreases end,
{
    if end > 0 && p[end - 1] != SEPARATOR {
        lemma_name_start(p, end - 1);
    }
}

/// The two scans depend only on the bytes before `end`.
pub proof fn lemma_scans_of_prefix(p: Seq<u8>, q: Seq<u8>, end: int)
    requires
        0 <= end <= p.len(),
        end <= q.len(),
        p.take(end) == q.take(end),
    ensures
        trim_end(p, end) == trim_end(q, end),
        name_start(p, end) == name_start(q, end),
    decreases end,
{
    if end > 0 {
        assert(p[end - 1] == p.take(end)[end - 1]);
        assert(q[end - 1] == q.take(end)[end - 1]);
        if end >= 2 {
            assert(p[end - 2] == p.take(end)[end - 2]);
            assert(q[end - 2] == q.take(end)[end - 2]);
        }
        assert(p.take(end - 1) =~= p.take(end).take(end - 1));
        assert(q.take(end - 1) =~= q.take(end).take(end - 1));
        lemma_scans_of_prefix(p, q, end - 1);
    }
}

/// A `.` component at the end of a path that is no root changes neither its
/// parent nor its name.
pub proof fn lemma_trailing_dot_is_ignored(p: Seq<u8>)
    requires
        !is_root(p),
    ensures
        parent_of(p + seq![SEPARATOR, DOT]) == parent_of(p),
        file_name_of(p + seq![SEPARATOR, DOT]) == file_name_of(p),
        !is_root(p + seq![SEPARATOR, DOT]),
{
    let q = p + seq![SEPARATOR, DOT];
    let len = p.len() as int;
    assert(q[len] == SEPARATOR);
    assert(q[len + 1] == DOT);
    assert(is_filler(q, len + 2));
    assert(is_filler(q, len + 1));
    assert(trim_end(q, len + 2) == trim_end(q, len + 1));
    assert(trim_end(q, len + 1) == trim_end(q, len));
    assert(q.take(len) =~= p);
    assert(p.take(len) =~= p);
    lemma_scans_of_prefix(p, q, len);
    let end = trim_end(p, len);
    lemma_trim_end(p, len);
    assert(p.take(end) =~= q.take(end));
    lemma_scans_of_prefix(p, q, end);
    let start = name_start(p, end);
    lemma_name_start(p, end);
    assert(p.take(start) =~= q.take(start));
    lemma_scans_of_prefix(p, q, start);
    let cut = trim_end(p, start);
    lemma_trim_end(p, start);
    assert(p.subrange(start, end) =~= q.subrange(start, end));
    if start > 0 {
        assert(p.take(1) =~= q.take(1));
        assert(p.take(cut) =~= q.take(cut));
    }
}

/// A path that ends where nothing is ignored is tidy, and so is each of its
/// prefixes that does.
pub proof fn lemma_prefix_is_tidy(p: Seq<u8>, end: int)
    requires
        0 <= end <= p.len(),
        !is_filler(p, end),
    ensures
        is_tidy(p.take(end)),
        end > 0 ==> !is_root(p.take(end)),
{
    let t = p.take(end);
    assert(!is_filler(t, end)) by {
        if end > 0 {
            assert(t[end - 1] == p[end - 1]);
            if end >= 2 {
                assert(t[end - 2] == p[end - 2]);
            }
        }
    }
}

/// A parent is never longer than the path it was taken from, and only a root
/// is its own parent.
pub proof fn lemma_parent_is_shorter(p: Seq<u8>)
    ensures
        parent_of(p).len() <= p.len(),
        parent_of(p) == p <==> is_root(p),
        !is_root(p) ==> parent_of(p).len() < p.len(),
{
    let end = trim_end(p, p.len() as int);
    lemma_trim_end(p, p.len() as int);
    lemma_name_start(p, end);
    let start = name_start(p, end);
    lemma_trim_end(p, start);
}

/// What `parent_of` returns is tidy.
pub proof fn lemma_parent_is_tidy(p: Seq<u8>)
    requires
        !is_root(p),
    ensures
        is_tidy(parent_of(p)),
{
    let end = trim_end(p, p.len() as int);
    lemma_trim_end(p, p.len() as int);
    lemma_name_start(p, end);
    let start = name_start(p, end);
    lemma_trim_end(p, start);
    let cut = trim_end(p, start);
    if start == 0 {
        assert(parent_of(p) =~= Seq::<u8>::empty());
    } else if cut == 0 {
        assert(is_filler(p, 1));
        assert(p.take(1) =~= seq![SEPARATOR]);
    } else {
        lemma_prefix_is_tidy(p, cut);
    }
}

/// A tidied path is tidy, a tidy path is left as it is, and tidying makes no
/// root and takes no root away.
pub proof fn lemma_tidied(p: Seq<u8>)
    ensures
        is_tidy(tidied(p)),
        is_tidy(p) ==> tidied(p) == p,
        is_root(tidied(p)) == is_root(p),
{
    let end = trim_end(p, p.len() as int);
    lemma_trim_end(p, p.len() as int);
    if end > 0 {
        lemma_prefix_is_tidy(p, end);
        if is_tidy(p) {
            if end == p.len() {
                assert(p.take(end) =~= p);
            } else {
                assert(p =~= seq![SEPARATOR]);
                assert(is_filler(p, 1));
            }
        }
    } else if p.len() > 0 {
        assert(is_filler(p, 1));
        assert(p.take(1) =~= seq![SEPARATOR]);
        if is_tidy(p) {
            assert(p.take(1) =~= p);
        }
        let t = p.take(1);
        assert(is_filler(t, 1));
        assert(trim_end(t, 0) == 0);
        assert(trim_end(t, 1) == 0);
    }
}

/// Joining a component to a directory gives a longer, tidy path that is not
/// a root and whose name is that component.
pub proof fn lemma_joined_name(dir: Seq<u8>, name: Seq<u8>)
    requires
        is_component(name),
    ensures
        joined(dir, name).len() > dir.len(),
        !is_root(joined(dir, name)),
        is_tidy(joined(dir, name)),
        file_name_of(joined(dir, name)) == name,
        trim_end(joined(dir, name), joined(dir, name).len() as int) == joined(dir, name).len(),
        name_start(joined(dir, name), joined(dir, name).len() as int) == joined(dir, name).len()
            - name.len(),
{
    let p = joined(dir, name);
    let len = p.len() as int;
    let first = len - name.len();
    assert(forall|i: int| first <= i < len ==> p[i] == name[i - first]);
    assert(p[len - 1] != SEPARATOR);
    assert(!is_filler(p, len)) by {
        if name.len() == 1 {
            if name[0] == DOT {
                assert(name =~= seq![DOT]);
            }
        } else {
            assert(p[len - 2] == name[len - 2 - first]);
        }
    }
    lemma_name_start(p, len);
    assert(first > 0 ==> p[first - 1] == SEPARATOR);
    let start = name_start(p, len);
    if start < first {
        assert(p[first - 1] != SEPARATOR);
    }
    if start > first {
        assert(p[start - 1] != SEPARATOR);
    }
    assert(p.subrange(first, len) =~= name);
}

/// The parent of an entry of a tidy directory is that directory.
pub proof fn lemma_parent_of_joined(dir: Seq<u8>, name: Seq<u8>)
    requires
        is_tidy(dir),
        is_component(name),
    ensures
        parent_of(joined(dir, name)) == dir,
{
    let p = joined(dir, name);
    let len = p.len() as int;
    lemma_joined_name(dir, name);
    let start = name_start(p, len);
    lemma_trim_end(p, start);
    lemma_trim_end(dir, dir.len() as int);
    let cut = trim_end(p, start);
    if dir.len() == 0 {
        assert(parent_of(p) =~= dir);
    } else if dir.last() == SEPARATOR {
        assert(is_filler(dir, dir.len() as int));
        assert(dir =~= seq![SEPARATOR]);
        assert(start == 1);
        assert(is_filler(p, 1));
        assert(trim_end(p, 0) == 0);
        assert(p.take(1) =~= dir);
    } else {
        let held = dir.len() as int;
        assert(start == held + 1);
        assert(p[start - 1] == SEPARATOR);
        assert(is_filler(p, start));
        assert(!is_filler(dir, held));
        assert(!is_filler(p, held)) by {
            assert(p[held - 1] == dir[held - 1]);
            if held >= 2 {
                assert(p[held - 2] == dir[held - 2]);
            }
        }
        assert(trim_end(p, held) == held);
        assert(cut == held);
        assert(p.take(cut) =~= dir);
    }
}

/// Two entries of one directory have the same path only if they have the same
/// name.
pub proof fn lemma_joined_injective(dir: Seq<u8>, a: Seq<u8>, b: Seq<u8>)
    requires
        joined(dir, a) == joined(dir, b),
    ensures
        a == b,
{
    let pa = joined(dir, a);
    let pb = joined(dir, b);
    let skip = pa.len() - a.len();
    assert(pb.len() - b.len() == skip);
    assert(a =~= pa.subrange(skip, pa.len() as int));
    assert(b =~= pb.subrange(skip, pb.len() as int));
}

/// Whether `name` can stand for one entry of a directory.
pub fn is_valid_component(name: &Vec<u8>) -> (valid: bool)
    ensures
        valid == is_component(name@),
{
    if name.len() == 0 || is_dot_component(name) {
        return false;
    }
    let mut i: usize = 0;
    while i < name.len()
        invariant
            i <= name.len(),
            forall|k: int| 0 <= k < i ==> name@[k] != SEPARATOR,
        decreases name.len() - i,
    {
        if name[i] == SEPARATOR {
            return false;
        }
        i += 1;
    }
    true
}

/// Whether `component` is `.` or `..`.
pub fn is_dot_component(component: &Vec<u8>) -> (dots: bool)
    ensures
        dots == is_dots(component@),
{
    if component.len() == 1 {
        let dots = component[0] == DOT;
        assert(dots == (component@ =~= seq![DOT]));
        dots
    } else if component.len() == 2 {
        let dots = component[0] == DOT && component[1] == DOT;
        assert(dots == (component@ =~= seq![DOT, DOT]));
        dots
    } else {
        false
    }
}

/// Whether listings leave `name` out unless hidden entries are asked for.
pub fn is_hidden(name: &Vec<u8>) -> (hidden: bool)
    ensures
        hidden == is_hidden_name(name@),
{
    name.len() > 0 && name[0] == HIDDEN_MARK
}

/// The path without what is ignored at its end.
pub fn tidy_path(path: &Vec<u8>) -> (tidy: Vec<u8>)
    ensures
        tidy@ == tidied(path@),
        is_tidy(tidy@),
{
    proof {
        lemma_tidied(path@);
    }
    let end: usize = trimmed_end(path, path.len());
    if end > 0 {
        slice_of(path, 0, end)
    } else if path.len() > 0 {
        slice_of(path, 0, 1)
    } else {
        Vec::new()
    }
}

/// Whether `path` has no parent.
pub fn is_root_path(path: &Vec<u8>) -> (root: bool)
    ensures
        root == is_root(path@),
{
    trimmed_end(path, path.len()) == 0
}

/// Scans back from `end` over separators and `.` components.
fn trimmed_end(path: &Vec<u8>, end: usize) -> (k: usize)
    requires
        end <= path.len(),
    ensures
        k == trim_end(path@, end as int),
        k <= end,
{
    let mut k: usize = end;
    while k > 0 && (path[k - 1] == SEPARATOR || (k >= 2 && path[k - 1] == DOT && path[k - 2]
        == SEPARATOR))
        invariant
            k <= end,
            end <= path.len(),
            trim_end(path@, end as int) == trim_end(path@, k as int),
        decreases k,
    {
        k -= 1;
    }
    k
}

/// Scans back from `end` over the bytes of one component.
fn component_start(path: &Vec<u8>, end: usize) -> (k: usize)
    requires
        end <= path.len(),
    ensures
        k == name_start(path@, end as int),
        k <= end,
{
    let mut k: usize = end;
    while k > 0 && path[k - 1] != SEPARATOR
        invariant
            k <= end,
            end <= path.len(),
            name_start(path@, end as int) == name_start(path@, k as int),
        decreases k,
    {
        k -= 1;
    }
    k
}

/// The bytes of `path` from `from` up to `to`.
fn slice_of(path: &Vec<u8>, from: usize, to: usize) -> (part: Vec<u8>)
    requires
        from <= to <= path.len(),
    ensures
        part@ == path@.subrange(from as int, to as int),
{
    let mut part: Vec<u8> = Vec::new();
    let mut i: usize = from;
    while i < to
        invariant
            from <= i <= to,
            to <= path.len(),
            part@ == path@.subrange(from as int, i as int),
        decreases to - i,
    {
        part.push(path[i]);
        assert(path@.subrange(from as int, i + 1) =~= path@.subrange(from as int, i as int).push(
            path@[i as int],
        ));
        i += 1;
    }
    part
}

/// The directory that holds `selected_dir`, or `selected_dir` itself where it
/// has no parent.
pub fn get_parent_dir(selected_dir: &Vec<u8>) -> (parent: Vec<u8>)
    ensures
        parent@ == parent_of(selected_dir@),
{
    let end: usize = trimmed_end(selected_dir, selected_dir.len());
    let start: usize = component_start(selected_dir, end);
    let cut: usize = trimmed_end(selected_dir, start);
    if end == 0 {
        let whole = slice_of(selected_dir, 0, selected_dir.len());
        assert(selected_dir@.subrange(0, selected_dir.len() as int) =~= selected_dir@);
        whole
    } else if start == 0 {
        Vec::new()
    } else if cut == 0 {
        slice_of(selected_dir, 0, 1)
    } else {
        slice_of(selected_dir, 0, cut)
    }
}

/// The name of the entry that `path` leads to: its last component, or
/// nothing where `path` is a root, a lone `.`, or ends in `..`.
pub fn file_name(path: &Vec<u8>) -> (name: Vec<u8>)
    ensures
        name@ == file_name_of(path@),
{
    let end: usize = trimmed_end(path, path.len());
    let start: usize = component_start(path, end);
    let last = slice_of(path, start, end);
    if is_dot_component(&last) {
        Vec::new()
    } else {
        last
    }
}

/// The path of the entry `name` inside the directory `dir`.
pub fn join_path(dir: &Vec<u8>, name: &Vec<u8>) -> (path: Vec<u8>)
    ensures
        path@ == joined(dir@, name@),
{
    let mut path = slice_of(dir, 0, dir.len());
    assert(dir@.subrange(0, dir.len() as int) =~= dir@);
    if dir.len() > 0 && dir[dir.len() - 1] != SEPARATOR {
        path.push(SEPARATOR);
    }
    append_bytes(&mut path, name);
    proof {
        if dir.len() == 0 {
            assert(path@ =~= name@);
        }
    }
    path
}

/// Whether `path` leads into the directory `dir`.
pub fn is_within(path: &Vec<u8>, dir: &Vec<u8>) -> (within: bool)
    ensures
        within == lies_within(path@, dir@),
{
    let nothing: Vec<u8> = Vec::new();
    let stem = join_path(dir, &nothing);
    assert(nothing@ =~= Seq::<u8>::empty());
    if stem.len() > path.len() {
        return false;
    }
    let mut i: usize = 0;
    while i < stem.len()
        invariant
            i <= stem.len(),
            stem.len() <= path.len(),
            stem@ == joined(dir@, Seq::<u8>::empty()),
            path@.take(i as int) == stem@.take(i as int),
        decreases stem.len() - i,
    {
        if path[i] != stem[i] {
            assert(path@.take(stem.len() as int)[i as int] == path@[i as int]);
            assert(path@.take(stem.len() as int) != stem@);
            return false;
        }
        assert(path@.take(i + 1) =~= path@.take(i as int).push(path@[i as int]));
        assert(stem@.take(i + 1) =~= stem@.take(i as int).push(stem@[i as int]));
        i += 1;
    }
    assert(stem@.take(stem.len() as int) =~= stem@);
    true
}

} // verus!
