//! A listing together with its selection: the selected index is always that
//! of an entry of the listing, or absent.

use crate::dir::{DirectoryEntry, EntryModel};
use vstd::prelude::*;

verus! {

/// Which way the selection moves.
#[derive(Clone, Copy, Debug, PartialEq, Eq, Structural)]
pub enum Direction {
    /// Towards the first entry.
    Up,
    /// Towards the last entry.
    Down,
}

/// The mathematical value of a `DirListState`.
pub struct DirListModel {
    pub items: Seq<EntryModel>,
    pub selected: Option<nat>,
}

impl DirListModel {
    /// Whether the selected index, if there is one, is that of an entry.
    pub open spec fn well_formed(self) -> bool {
        self.selected matches Some(index) ==> index < self.items.len()
    }

    /// The selected entry.
    pub open spec fn selected_entry(self) -> Option<EntryModel> {
        match self.selected {
            Some(index) if index < self.items.len() => Some(self.items[index as int]),
            _ => None,
        }
    }

    /// The given entries with nothing selected.
    pub open spec fn unselected(items: Seq<EntryModel>) -> DirListModel {
        DirListModel { items, selected: None }
    }

    /// The given entries with the first of them selected, if there is one.
    pub open spec fn reset(items: Seq<EntryModel>) -> DirListModel {
        DirListModel { items, selected: if items.len() > 0 { Some(0nat) } else { None } }
    }

    /// This listing with its first entry selected where nothing was.
    pub open spec fn with_first_selected(self) -> DirListModel {
        if self.selected is None && self.items.len() > 0 {
            DirListModel { selected: Some(0nat), ..self }
        } else {
            self
        }
    }

    /// The given entries in place of this listing's. The selected index stays
    /// where it still names an entry; where it does not, or where nothing was
    /// selected, the first entry is selected.
    pub open spec fn replaced(self, items: Seq<EntryModel>) -> DirListModel {
        DirListModel {
            items,
            selected: if items.len() == 0 {
                None
            } else {
                match self.selected {
                    Some(index) if index < items.len() => Some(index),
                    _ => Some(0nat),
                }
            },
        }
    }

    /// This listing with the selection moved by one entry, stopping at either
    /// end. Without a selection, moving down selects the first entry and
    /// moving up the last. An empty listing stays as it is.
    pub open spec fn moved(self, direction: Direction) -> DirListModel {
        if self.items.len() == 0 {
            self
        } else {
            let last = (self.items.len() - 1) as nat;
            DirListModel {
                selected: Some(
                    match (self.selected, direction) {
                        (None, Direction::Down) => 0nat,
                        (None, Direction::Up) => last,
                        (Some(index), Direction::Down) => if index < last {
                            index + 1
                        } else {
                            last
                        },
                        (Some(index), Direction::Up) => if index == 0 {
                            0nat
                        } else if index > last {
                            last
                        } else {
                            (index - 1) as nat
                        },
                    },
                ),
                ..self
            }
        }
    }
}

/// A listing and its selection.
pub struct DirListState {
    items: Vec<DirectoryEntry>,
    selected: Option<usize>,
}

impl View for DirListState {
    type V = DirListModel;

    closed spec fn view(&self) -> DirListModel {
        DirListModel {
            items: self.items.deep_view(),
            selected: match self.selected {
                Some(index) => Some(index as nat),
                None => None,
            },
        }
    }
}

impl DirListState {
    #[verifier::type_invariant]
    spec fn selection_in_range(&self) -> bool {
        match self.selected {
            Some(index) => index < self.items.len(),
            None => true,
        }
    }

    /// A listing with nothing selected.
    pub fn new(items: Vec<DirectoryEntry>) -> (list: DirListState)
        ensures
            list@ == DirListModel::unselected(items.deep_view()),
            list@.well_formed(),
    {
        DirListState { items, selected: None }
    }

    /// Replaces the entries and drops the selection.
    pub fn set_items(&mut self, items: Vec<DirectoryEntry>)
        ensures
            final(self)@ == DirListModel::unselected(items.deep_view()),
            final(self)@.well_formed(),
    {
        self.selected = None;
        self.items = items;
    }

    /// Replaces the entries and keeps the selected index where it still
    /// names an entry; else the first entry is selected.
    pub fn replace_items(&mut self, items: Vec<DirectoryEntry>)
        ensures
            final(self)@ == old(self)@.replaced(items.deep_view()),
            final(self)@.well_formed(),
    {
        let previous = self.selected;
        let count: usize = items.len();
        self.selected = None;
        self.items = items;
        if count > 0 {
            self.selected = match previous {
                Some(index) => if index < count {
                    Some(index)
                } else {
                    Some(0)
                },
                None => Some(0),
            };
        }
    }

    /// Selects the first entry where nothing is selected.
    pub fn auto_select_first(&mut self)
        ensures
            final(self)@ == old(self)@.with_first_selected(),
            final(self)@.well_formed(),
    {
        proof {
            use_type_invariant(&*self);
        }
        if self.selected.is_none() && self.items.len() > 0 {
            self.selected = Some(0);
        }
    }

    /// Moves the selection by one entry, stopping at either end.
    pub fn move_selection(&mut self, direction: Direction)
        ensures
            final(self)@ == old(self)@.moved(direction),
            final(self)@.well_formed(),
    {
        proof {
            use_type_invariant(&*self);
        }
        let count: usize = self.items.len();
        if count > 0 {
            let last: usize = count - 1;
            let target: usize = match (self.selected, direction) {
                (None, Direction::Down) => 0,
                (None, Direction::Up) => last,
                (Some(index), Direction::Down) => if index < last {
                    index + 1
                } else {
                    last
                },
                (Some(index), Direction::Up) => if index == 0 {
                    0
                } else {
                    index - 1
                },
            };
            self.selected = Some(target);
        }
    }

    /// The selected index; where there is one, it is that of an entry.
    pub fn selected(&self) -> (index: Option<usize>)
        ensures
            self@.well_formed(),
            match index {
                Some(i) => self@.selected == Some(i as nat),
                None => self@.selected is None,
            },
    {
        proof {
            use_type_invariant(self);
        }
        self.selected
    }

    /// The entries, in listing order.
    pub fn items(&self) -> (items: &Vec<DirectoryEntry>)
        ensures
            items.deep_view() == self@.items,
    {
        &self.items
    }

    /// How many entries the listing holds.
    pub fn len(&self) -> (count: usize)
        ensures
            count == self@.items.len(),
    {
        self.items.len()
    }

    /// The selected entry.
    pub fn selected_entry(&self) -> (entry: Option<&DirectoryEntry>)
        ensures
            self@.well_formed(),
            match entry {
                Some(e) => self@.selected_entry() == Some(e@),
                None => self@.selected_entry() is None,
            },
    {
        proof {
            use_type_invariant(self);
        }
        match self.selected {
            Some(index) => {
                assert(self.items.deep_view()[index as int] == self.items@[index as int]@);
                Some(&self.items[index])
            },
            None => None,
        }
    }
}

} // verus!
