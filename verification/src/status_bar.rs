//! The text of the status bar: permissions, owner, group and size of the
//! selected entry.

use vstd::prelude::*;
use vstd::string::*;

verus! {

/// What the host read of an entry's metadata.
#[derive(Clone, Debug, PartialEq, Eq)]
pub struct EntryAttributes {
    /// The mode bits: file type and permissions.
    pub mode: u32,
    /// The id of the owning user.
    pub user_id: u32,
    /// The id of the owning group.
    pub group_id: u32,
    /// The size, worded for a reader.
    pub size_text: String,
}

/// The mathematical value of an `EntryAttributes`.
pub struct AttributesModel {
    pub mode: u32,
    pub user_id: u32,
    pub group_id: u32,
    pub size_text: Seq<char>,
}

impl View for EntryAttributes {
    type V = AttributesModel;

    open spec fn view(&self) -> AttributesModel {
        AttributesModel {
            mode: self.mode,
            user_id: self.user_id,
            group_id: self.group_id,
            size_text: self.size_text@,
        }
    }
}

/// The text that `unix_mode::to_string` gives for mode bits: the file type
/// and the permissions, as `ls` shows them.
pub uninterp spec fn mode_text(mode: u32) -> Seq<char>;

/// The character of a decimal digit.
pub open spec fn digit_char(digit: nat) -> char {
    if digit == 0 {
        '0'
    } else if digit == 1 {
        '1'
    } else if digit == 2 {
        '2'
    } else if digit == 3 {
        '3'
    } else if digit == 4 {
        '4'
    } else if digit == 5 {
        '5'
    } else if digit == 6 {
        '6'
    } else if digit == 7 {
        '7'
    } else if digit == 8 {
        '8'
    } else {
        '9'
    }
}

/// A number written in decimal digits, without leading zeros.
pub open spec fn decimal_text(number: nat) -> Seq<char>
    decreases number,
{
    if number < 10 {
        seq![digit_char(number)]
    } else {
        decimal_text(number / 10).push(digit_char(number % 10))
    }
}

/// The characters of a name that was found, if one was.
pub open spec fn found_text(found: Option<String>) -> Option<Seq<char>> {
    match found {
        Some(name) => Some(name@),
        None => None,
    }
}

/// The name shown for a user or group: the name found for the id, or, where
/// none was found, the id itself.
pub open spec fn name_or_id(found: Option<Seq<char>>, id: u32) -> Seq<char> {
    match found {
        Some(name) => name,
        None => decimal_text(id as nat),
    }
}

/// The text of the status bar: permissions, owner, group and size, two
/// spaces between them.
pub open spec fn status_text(
    attributes: AttributesModel,
    owner: Option<Seq<char>>,
    group: Option<Seq<char>>,
) -> Seq<char> {
    mode_text(attributes.mode) + seq![' ', ' '] + name_or_id(owner, attributes.user_id) + seq![
        ' ',
        ' ',
    ] + name_or_id(group, attributes.group_id) + seq![' ', ' '] + attributes.size_text
}

/// Calls `unix_mode::to_string`, which words mode bits as `ls` does: one
/// character for the file type and nine for the permissions. The contract
/// only names that text.
#[verifier::external_body]
fn mode_string(mode: u32) -> (text: String)
    ensures
        text@ == mode_text(mode),
{
    unix_mode::to_string(mode)
}

/// Calls `users::get_user_by_uid`, which looks the id up in the system's user
/// database. Nothing is claimed of the result: it depends on the machine.
#[verifier::external_body]
fn user_name_by_id(user_id: u32) -> (name: Option<String>) {
    match users::get_user_by_uid(user_id) {
        Some(user) => Some(user.name().to_string_lossy().into_owned()),
        None => None,
    }
}

/// Calls `users::get_group_by_gid`, which looks the id up in the system's
/// group database. Nothing is claimed of the result: it depends on the
/// machine.
#[verifier::external_body]
fn group_name_by_id(group_id: u32) -> (name: Option<String>) {
    match users::get_group_by_gid(group_id) {
        Some(group) => Some(group.name().to_string_lossy().into_owned()),
        None => None,
    }
}

/// The text of one decimal digit.
fn digit_text(digit: u32) -> (text: &'static str)
    requires
        digit < 10,
    ensures
        text@ == seq![digit_char(digit as nat)],
{
    proof {
        reveal_strlit("0");
        reveal_strlit("1");
        reveal_strlit("2");
        reveal_strlit("3");
        reveal_strlit("4");
        reveal_strlit("5");
        reveal_strlit("6");
        reveal_strlit("7");
        reveal_strlit("8");
        reveal_strlit("9");
    }
    let text = if digit == 0 {
        "0"
    } else if digit == 1 {
        "1"
    } else if digit == 2 {
        "2"
    } else if digit == 3 {
        "3"
    } else if digit == 4 {
        "4"
    } else if digit == 5 {
        "5"
    } else if digit == 6 {
        "6"
    } else if digit == 7 {
        "7"
    } else if digit == 8 {
        "8"
    } else {
        "9"
    };
    assert(text@ =~= seq![digit_char(digit as nat)]);
    text
}

/// Writes a number in decimal digits.
pub fn decimal(number: u32) -> (text: String)
    ensures
        text@ == decimal_text(number as nat),
    decreases number,
{
    if number < 10 {
        String::from_str(digit_text(number))
    } else {
        let mut text = decimal(number / 10);
        text.append(digit_text(number % 10));
        assert(text@ =~= decimal_text(number as nat));
        text
    }
}

/// The name to show for an id: the name that was found for it, or the id in
/// decimal digits.
pub fn shown_name(found: Option<String>, id: u32) -> (name: String)
    ensures
        name@ == name_or_id(found_text(found), id),
{
    match found {
        Some(name) => name,
        None => decimal(id),
    }
}

/// The name of the user with the given id as the system knows it, or the id
/// itself where it knows none. Nothing is claimed of the result: which name
/// is found depends on the machine, and `shown_name` says what is made of it.
pub fn get_username_from_id(user_id: u32) -> (name: String) {
    shown_name(user_name_by_id(user_id), user_id)
}

/// The name of the group with the given id as the system knows it, or the id
/// itself where it knows none. Nothing is claimed of the result: which name
/// is found depends on the machine, and `shown_name` says what is made of it.
pub fn get_groupname_from_id(group_id: u32) -> (name: String) {
    shown_name(group_name_by_id(group_id), group_id)
}

/// Puts the status text together from the worded permissions, the names of
/// owner and group and the worded size.
pub fn status_line(permissions: &str, owner: &str, group: &str, size: &str) -> (text: String)
    ensures
        text@ == permissions@ + seq![' ', ' '] + owner@ + seq![' ', ' '] + group@ + seq![' ', ' ']
            + size@,
{
    proof {
        reveal_strlit("  ");
    }
    assert("  "@ =~= seq![' ', ' ']);
    let mut text = String::from_str(permissions);
    text.append("  ");
    text.append(owner);
    text.append("  ");
    text.append(group);
    text.append("  ");
    text.append(size);
    text
}

/// The status text for an entry with the given attributes, where `owner` and
/// `group` are the names found for its ids, if any.
pub fn status_of(attributes: &EntryAttributes, owner: Option<String>, group: Option<String>) -> (text:
    String)
    ensures
        text@ == status_text(attributes@, found_text(owner), found_text(group)),
{
    let permissions = mode_string(attributes.mode);
    let owner_name = shown_name(owner, attributes.user_id);
    let group_name = shown_name(group, attributes.group_id);
    status_line(
        permissions.as_str(),
        owner_name.as_str(),
        group_name.as_str(),
        attributes.size_text.as_str(),
    )
}

/// The status text for the selected entry, where `attributes` is what the
/// host read of its metadata: empty where the metadata could not be read, else
/// permissions, owner, group and size, with owner and group named as the
/// system names them.
pub fn status_string(attributes: Option<&EntryAttributes>) -> (text: String)
    ensures
        match attributes {
            None => text@ == Seq::<char>::empty(),
            Some(read) => exists|owner: Option<Seq<char>>, group: Option<Seq<char>>|
                text@ == status_text(read@, owner, group),
        },
{
    match attributes {
        None => String::new(),
        Some(read) => {
            let owner = user_name_by_id(read.user_id);
            let group = group_name_by_id(read.group_id);
            let ghost owner_seen = found_text(owner);
            let ghost group_seen = found_text(group);
            let text = status_of(read, owner, group);
            assert(text@ == status_text(read@, owner_seen, group_seen));
            text
        },
    }
}

} // verus!
