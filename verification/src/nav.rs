//! Where the browser stands: the current directory, its parent, the listing
//! of the current directory with its selection, and whether hidden entries
//! are shown.
//!
//! The host reads directories; every operation that shows a directory anew
//! takes what the host found there, or `None` where the directory could not
//! be read. A failed read leaves the state as it was.

use crate::bytes::{bytes_eq, copy_bytes};
use crate::dir::{
    get_dir_items, lemma_listing_entries, listing_of, EntryKind, RawEntry, RawModel,
};
use crate::error::BrowseError;
use crate::path::{
    get_parent_dir, is_component, is_root, is_tidy, joined, lemma_joined_name,
    lemma_parent_is_shorter, lemma_parent_is_tidy, lemma_parent_of_joined, parent_of, tidied,
    tidy_path,
};
use crate::selection::{DirListModel, DirListState, Direction};
use vstd::prelude::*;

verus! {

/// What the host found in a directory, as a mathematical value.
pub open spec fn found_in(read: Option<&Vec<RawEntry>>) -> Option<Seq<RawModel>> {
    match read {
        Some(found) => Some(found.deep_view()),
        None => None,
    }
}

/// What opening the selected entry comes to.
#[derive(Clone, Debug, PartialEq, Eq)]
pub enum OpenTarget {
    /// Nothing is selected.
    Nothing,
    /// A directory to descend into.
    Directory(Vec<u8>),
    /// A file to hand to the opener.
    File(Vec<u8>),
    /// An entry whose kind could not be read.
    Unknown(Vec<u8>),
}

/// The mathematical value of an `OpenTarget`.
pub enum OpenTargetModel {
    Nothing,
    Directory(Seq<u8>),
    File(Seq<u8>),
    Unknown(Seq<u8>),
}

impl View for OpenTarget {
    type V = OpenTargetModel;

    open spec fn view(&self) -> OpenTargetModel {
        match self {
            OpenTarget::Nothing => OpenTargetModel::Nothing,
            OpenTarget::Directory(path) => OpenTargetModel::Directory(path@),
            OpenTarget::File(path) => OpenTargetModel::File(path@),
            OpenTarget::Unknown(path) => OpenTargetModel::Unknown(path@),
        }
    }
}

/// What an open has done.
#[derive(Clone, Debug, PartialEq, Eq)]
pub enum Opened {
    /// The browser stands in the selected directory now.
    Directory,
    /// The selected entry is a file: the host hands this path to the opener.
    File(Vec<u8>),
}

/// The mathematical value of an `Opened`.
pub enum OpenedModel {
    Directory,
    File(Seq<u8>),
}

impl View for Opened {
    type V = OpenedModel;

    open spec fn view(&self) -> OpenedModel {
        match self {
            Opened::Directory => OpenedModel::Directory,
            Opened::File(path) => OpenedModel::File(path@),
        }
    }
}

/// The mathematical value of a `NavigationState`.
pub struct NavModel {
    pub current_dir: Seq<u8>,
    pub parent_dir: Seq<u8>,
    pub list: DirListModel,
    pub show_hidden: bool,
}

impl NavModel {
    /// Whether the state is one that the operations produce: the current
    /// directory is written without trailing separators, the parent
    /// directory is the parent of the current one (a root is its own parent),
    /// the selection names an entry, and every entry of the listing is a child
    /// of the current directory.
    pub open spec fn well_formed(self) -> bool {
        &&& is_tidy(self.current_dir)
        &&& self.parent_dir == parent_of(self.current_dir)
        &&& self.list.well_formed()
        &&& forall|i: int|
            0 <= i < self.list.items.len() ==> {
                let e = #[trigger] self.list.items[i];
                is_component(e.name) && e.path == joined(self.current_dir, e.name)
            }
    }

    /// Whether the browser cannot go further up: the parent of the parent
    /// directory is the current directory.
    pub open spec fn at_top(self) -> bool {
        parent_of(self.parent_dir) == self.current_dir
    }

    /// The state on entering `dir`: its listing is shown, with the selection
    /// reset to the first entry.
    pub open spec fn entered(self, dir: Seq<u8>, found: Seq<RawModel>) -> NavModel {
        NavModel {
            current_dir: dir,
            parent_dir: parent_of(dir),
            list: DirListModel::reset(listing_of(dir, found, self.show_hidden)),
            show_hidden: self.show_hidden,
        }
    }

    /// The state after the current directory was read anew.
    pub open spec fn refreshed(self, read: Option<Seq<RawModel>>) -> NavModel {
        match read {
            Some(found) => NavModel {
                list: self.list.replaced(listing_of(self.current_dir, found, self.show_hidden)),
                ..self
            },
            None => self,
        }
    }

    /// The state after hidden entries were switched on or off and the current
    /// directory was read anew.
    pub open spec fn toggled(self, read: Option<Seq<RawModel>>) -> NavModel {
        match read {
            Some(found) => NavModel {
                list: self.list.replaced(listing_of(self.current_dir, found, !self.show_hidden)),
                show_hidden: !self.show_hidden,
                ..self
            },
            None => self,
        }
    }

    /// The state after the selection was moved.
    pub open spec fn moved(self, direction: Direction) -> NavModel {
        NavModel { list: self.list.moved(direction), ..self }
    }

    /// What opening the selected entry comes to.
    pub open spec fn open_target(self) -> OpenTargetModel {
        match self.list.selected_entry() {
            None => OpenTargetModel::Nothing,
            Some(entry) => match entry.kind {
                EntryKind::Directory => OpenTargetModel::Directory(entry.path),
                EntryKind::File => OpenTargetModel::File(entry.path),
                EntryKind::Unknown => OpenTargetModel::Unknown(entry.path),
            },
        }
    }

    /// The state after an open of the selected entry, where `read` is what the
    /// host found in it: only a directory that could be read changes the
    /// state.
    pub open spec fn opened(self, read: Option<Seq<RawModel>>) -> NavModel {
        match (self.open_target(), read) {
            (OpenTargetModel::Directory(dir), Some(found)) => NavModel {
                parent_dir: self.current_dir,
                ..self.entered(dir, found)
            },
            _ => self,
        }
    }

    /// What an open of the selected entry reports.
    pub open spec fn open_result(self, read: Option<Seq<RawModel>>) -> Result<
        OpenedModel,
        BrowseError,
    > {
        match self.open_target() {
            OpenTargetModel::Nothing => Err(BrowseError::NoSelection),
            OpenTargetModel::Unknown(_) => Err(BrowseError::ReadError),
            OpenTargetModel::File(path) => Ok(OpenedModel::File(path)),
            OpenTargetModel::Directory(_) => if read is Some {
                Ok(OpenedModel::Directory)
            } else {
                Err(BrowseError::ReadError)
            },
        }
    }

    /// The state after a step up, where `read` is what the host found in the
    /// parent directory: at the top nothing changes, and elsewhere only a
    /// parent that could be read does.
    pub open spec fn went_up(self, read: Option<Seq<RawModel>>) -> NavModel {
        match read {
            Some(found) if !self.at_top() => NavModel {
                parent_dir: parent_of(self.parent_dir),
                ..self.entered(self.parent_dir, found)
            },
            _ => self,
        }
    }

    /// What a step up reports: whether the browser moved, or that the parent
    /// could not be read.
    pub open spec fn up_result(self, read: Option<Seq<RawModel>>) -> Result<bool, BrowseError> {
        if self.at_top() {
            Ok(false)
        } else if read is Some {
            Ok(true)
        } else {
            Err(BrowseError::ReadError)
        }
    }
}

/// In a well-formed state the browser is at the top exactly where the current
/// directory has no parent.
pub proof fn lemma_at_top_is_root(nav: NavModel)
    requires
        nav.well_formed(),
    ensures
        nav.at_top() <==> is_root(nav.current_dir),
{
    lemma_parent_is_shorter(nav.current_dir);
    lemma_parent_is_shorter(nav.parent_dir);
}

/// Every operation keeps a well-formed state well-formed.
pub proof fn lemma_operations_keep_well_formed(
    nav: NavModel,
    read: Option<Seq<RawModel>>,
    direction: Direction,
)
    requires
        nav.well_formed(),
    ensures
        nav.refreshed(read).well_formed(),
        nav.toggled(read).well_formed(),
        nav.moved(direction).well_formed(),
        nav.opened(read).well_formed(),
        nav.went_up(read).well_formed(),
{
    if let Some(found) = read {
        lemma_listing_entries(nav.current_dir, found, nav.show_hidden);
        lemma_listing_entries(nav.current_dir, found, !nav.show_hidden);
        if let OpenTargetModel::Directory(dir) = nav.open_target() {
            lemma_listing_entries(dir, found, nav.show_hidden);
            lemma_opened_parent(nav, found);
        }
        lemma_listing_entries(nav.parent_dir, found, nav.show_hidden);
        lemma_at_top_is_root(nav);
        if !nav.at_top() {
            lemma_parent_is_tidy(nav.current_dir);
        }
    }
}

/// After an open into a directory, the directory left behind is the parent of
/// the one entered.
proof fn lemma_opened_parent(nav: NavModel, found: Seq<RawModel>)
    requires
        nav.well_formed(),
        nav.open_target() is Directory,
    ensures
        parent_of(nav.opened(Some(found)).current_dir) == nav.current_dir,
        nav.opened(Some(found)).parent_dir == nav.current_dir,
        nav.opened(Some(found)).current_dir.len() > nav.current_dir.len(),
        is_tidy(nav.opened(Some(found)).current_dir),
        !is_root(nav.opened(Some(found)).current_dir),
{
    let index = nav.list.selected->0 as int;
    let entry = nav.list.items[index];
    lemma_joined_name(nav.current_dir, entry.name);
    lemma_parent_of_joined(nav.current_dir, entry.name);
    assert(entry.path.last() == entry.name.last());
}

impl NavModel {
    /// The state in which the browser starts in `init_dir`: nothing is
    /// selected and hidden entries are not shown.
    pub open spec fn start(init_dir: Seq<u8>, found: Seq<RawModel>) -> NavModel {
        NavModel {
            current_dir: tidied(init_dir),
            parent_dir: parent_of(tidied(init_dir)),
            list: DirListModel::unselected(listing_of(tidied(init_dir), found, false)),
            show_hidden: false,
        }
    }
}

/// A step up from a directory without a parent changes nothing, whatever the
/// host read.
pub proof fn lemma_up_from_root(nav: NavModel, read: Option<Seq<RawModel>>)
    requires
        nav.well_formed(),
        is_root(nav.current_dir),
    ensures
        nav.went_up(read) == nav,
        nav.up_result(read) == Ok::<bool, BrowseError>(false),
{
    lemma_at_top_is_root(nav);
}

/// A step up from any other directory that could be read leads to its
/// parent.
pub proof fn lemma_up_leads_to_parent(nav: NavModel, found: Seq<RawModel>)
    requires
        nav.well_formed(),
        !is_root(nav.current_dir),
    ensures
        nav.went_up(Some(found)).current_dir == parent_of(nav.current_dir),
        nav.went_up(Some(found)).parent_dir == parent_of(parent_of(nav.current_dir)),
        nav.up_result(Some(found)) == Ok::<bool, BrowseError>(true),
{
    lemma_at_top_is_root(nav);
}

/// An open into a subdirectory followed by a step up leads back: the current
/// and the parent directory are those from before, and the listing is that of
/// what the host read on the way back.
pub proof fn lemma_open_then_up(nav: NavModel, inside: Seq<RawModel>, back: Seq<RawModel>)
    requires
        nav.well_formed(),
        nav.open_target() is Directory,
    ensures
        nav.opened(Some(inside)).current_dir == nav.open_target()->Directory_0,
        nav.opened(Some(inside)).parent_dir == nav.current_dir,
        nav.opened(Some(inside)).went_up(Some(back)).current_dir == nav.current_dir,
        nav.opened(Some(inside)).went_up(Some(back)).parent_dir == nav.parent_dir,
        nav.opened(Some(inside)).went_up(Some(back)).list == DirListModel::reset(
            listing_of(nav.current_dir, back, nav.show_hidden),
        ),
{
    let there = nav.opened(Some(inside));
    lemma_opened_parent(nav, inside);
    lemma_operations_keep_well_formed(nav, Some(inside), Direction::Down);
    lemma_at_top_is_root(there);
}

/// Where the browser stands.
pub struct NavigationState {
    current_dir: Vec<u8>,
    parent_dir: Vec<u8>,
    dir_items: DirListState,
    show_hidden: bool,
}

impl View for NavigationState {
    type V = NavModel;

    closed spec fn view(&self) -> NavModel {
        NavModel {
            current_dir: self.current_dir@,
            parent_dir: self.parent_dir@,
            list: self.dir_items@,
            show_hidden: self.show_hidden,
        }
    }
}

impl NavigationState {
    /// The state in which the browser starts in `init_dir`, where `found` is
    /// what the host found there.
    pub fn new(init_dir: &Vec<u8>, found: &Vec<RawEntry>) -> (nav: NavigationState)
        ensures
            nav@ == NavModel::start(init_dir@, found.deep_view()),
            nav@.well_formed(),
    {
        let current_dir = tidy_path(init_dir);
        let parent_dir = get_parent_dir(&current_dir);
        let items = get_dir_items(&current_dir, found, &false);
        NavigationState {
            current_dir,
            parent_dir,
            dir_items: DirListState::new(items),
            show_hidden: false,
        }
    }

    /// The directory whose listing is shown.
    pub fn current_dir(&self) -> (dir: &Vec<u8>)
        ensures
            dir@ == self@.current_dir,
    {
        &self.current_dir
    }

    /// The directory that a step up leads to.
    pub fn parent_dir(&self) -> (dir: &Vec<u8>)
        ensures
            dir@ == self@.parent_dir,
    {
        &self.parent_dir
    }

    /// The listing of the current directory and its selection.
    pub fn dir_items(&self) -> (list: &DirListState)
        ensures
            list@ == self@.list,
    {
        &self.dir_items
    }

    /// Whether hidden entries are shown.
    pub fn show_hidden(&self) -> (shown: bool)
        ensures
            shown == self@.show_hidden,
    {
        self.show_hidden
    }

    /// Shows the current directory anew from what the host found in it.
    pub fn refresh(&mut self, read: Option<&Vec<RawEntry>>) -> (outcome: Result<(), BrowseError>)
        ensures
            final(self)@ == old(self)@.refreshed(found_in(read)),
            outcome is Ok <==> read is Some,
            outcome is Err ==> outcome == Err::<(), BrowseError>(BrowseError::ReadError),
            old(self)@.well_formed() ==> final(self)@.well_formed(),
    {
        proof {
            if self@.well_formed() {
                lemma_operations_keep_well_formed(self@, found_in(read), Direction::Down);
            }
        }
        match read {
            Some(found) => {
                let items = get_dir_items(&self.current_dir, found, &self.show_hidden);
                self.dir_items.replace_items(items);
                Ok(())
            },
            None => Err(BrowseError::ReadError),
        }
    }

    /// Switches hidden entries on or off and shows the current directory
    /// anew from what the host found in it.
    pub fn toggle_hidden(&mut self, read: Option<&Vec<RawEntry>>) -> (outcome: Result<
        (),
        BrowseError,
    >)
        ensures
            final(self)@ == old(self)@.toggled(found_in(read)),
            outcome is Ok <==> read is Some,
            outcome is Err ==> outcome == Err::<(), BrowseError>(BrowseError::ReadError),
            old(self)@.well_formed() ==> final(self)@.well_formed(),
    {
        proof {
            if self@.well_formed() {
                lemma_operations_keep_well_formed(self@, found_in(read), Direction::Down);
            }
        }
        match read {
            Some(found) => {
                let show_hidden = !self.show_hidden;
                let items = get_dir_items(&self.current_dir, found, &show_hidden);
                self.show_hidden = show_hidden;
                self.dir_items.replace_items(items);
                Ok(())
            },
            None => Err(BrowseError::ReadError),
        }
    }

    /// Moves the selection by one entry, stopping at either end of the
    /// listing.
    pub fn move_selection(&mut self, direction: Direction)
        ensures
            final(self)@ == old(self)@.moved(direction),
            old(self)@.well_formed() ==> final(self)@.well_formed(),
    {
        self.dir_items.move_selection(direction);
    }

    /// What opening the selected entry comes to: for a directory the host
    /// reads it and calls `open_selected`, a file it hands to the opener.
    pub fn open_target(&self) -> (target: OpenTarget)
        ensures
            target@ == self@.open_target(),
    {
        match self.dir_items.selected_entry() {
            None => OpenTarget::Nothing,
            Some(entry) => match entry.kind {
                EntryKind::Directory => OpenTarget::Directory(copy_bytes(&entry.path)),
                EntryKind::File => OpenTarget::File(copy_bytes(&entry.path)),
                EntryKind::Unknown => OpenTarget::Unknown(copy_bytes(&entry.path)),
            },
        }
    }

    /// Opens the selected entry, where `read` is what the host found in it if
    /// it is a directory. A directory becomes the current one, with the old
    /// current directory as its parent and the first entry selected. A file
    /// changes nothing: its path is returned for the opener.
    pub fn open_selected(&mut self, read: Option<&Vec<RawEntry>>) -> (outcome: Result<
        Opened,
        BrowseError,
    >)
        ensures
            final(self)@ == old(self)@.opened(found_in(read)),
            match (outcome, old(self)@.open_result(found_in(read))) {
                (Ok(opened), Ok(expected)) => opened@ == expected,
                (Err(error), Err(expected)) => error == expected,
                _ => false,
            },
            old(self)@.well_formed() ==> final(self)@.well_formed(),
    {
        proof {
            if self@.well_formed() {
                lemma_operations_keep_well_formed(self@, found_in(read), Direction::Down);
            }
        }
        match self.open_target() {
            OpenTarget::Nothing => Err(BrowseError::NoSelection),
            OpenTarget::Unknown(_) => Err(BrowseError::ReadError),
            OpenTarget::File(path) => Ok(Opened::File(path)),
            OpenTarget::Directory(dir) => match read {
                None => Err(BrowseError::ReadError),
                Some(found) => {
                    let items = get_dir_items(&dir, found, &self.show_hidden);
                    let here = copy_bytes(&self.current_dir);
                    self.current_dir = dir;
                    self.parent_dir = here;
                    self.dir_items.set_items(items);
                    self.dir_items.auto_select_first();
                    Ok(Opened::Directory)
                },
            },
        }
    }

    /// Whether a step up would change nothing: the current directory has no
    /// parent to go to.
    pub fn at_top(&self) -> (top: bool)
        ensures
            top == self@.at_top(),
    {
        let above = get_parent_dir(&self.parent_dir);
        bytes_eq(&above, &self.current_dir)
    }

    /// Steps up to the parent directory, where `read` is what the host found
    /// there. At the top this does nothing and returns `false`.
    pub fn navigate_up(&mut self, read: Option<&Vec<RawEntry>>) -> (outcome: Result<
        bool,
        BrowseError,
    >)
        ensures
            final(self)@ == old(self)@.went_up(found_in(read)),
            outcome == old(self)@.up_result(found_in(read)),
            old(self)@.well_formed() ==> final(self)@.well_formed(),
    {
        proof {
            if self@.well_formed() {
                lemma_operations_keep_well_formed(self@, found_in(read), Direction::Down);
            }
        }
        let above = get_parent_dir(&self.parent_dir);
        if bytes_eq(&above, &self.current_dir) {
            return Ok(false);
        }
        match read {
            None => Err(BrowseError::ReadError),
            Some(found) => {
                let items = get_dir_items(&self.parent_dir, found, &self.show_hidden);
                let there = copy_bytes(&self.parent_dir);
                self.current_dir = there;
                self.parent_dir = above;
                self.dir_items.set_items(items);
                self.dir_items.auto_select_first();
                Ok(true)
            },
        }
    }
}

} // verus!
