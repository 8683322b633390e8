//! The directory in which the browser starts, chosen from the command line.

use crate::bytes::copy_bytes;
use vstd::prelude::*;

verus! {

/// The arguments of a command line, each as a byte string.
pub open spec fn args_of(args: &Vec<Vec<u8>>) -> Seq<Seq<u8>> {
    Seq::new(args@.len(), |i: int| args@[i]@)
}

/// The directory that the command line asks for: its one argument after the
/// program's name. A command line with more or fewer arguments asks for none.
pub open spec fn requested(args: Seq<Seq<u8>>) -> Option<Seq<u8>> {
    if args.len() == 2 {
        Some(args[1])
    } else {
        None
    }
}

/// The directory in which the browser starts: the one asked for where it
/// exists, the home directory where it does not (or, without a home, the
/// working directory), and the working directory where none was asked for.
pub open spec fn start_dir(
    args: Seq<Seq<u8>>,
    dir_exists: bool,
    home_dir: Option<Seq<u8>>,
    working_dir: Seq<u8>,
) -> Seq<u8> {
    match requested(args) {
        None => working_dir,
        Some(dir) => if dir_exists {
            dir
        } else {
            match home_dir {
                Some(home) => home,
                None => working_dir,
            }
        },
    }
}

/// The directory that the command line asks for, for the host to look up.
pub fn requested_dir(args: &Vec<Vec<u8>>) -> (dir: Option<Vec<u8>>)
    ensures
        match dir {
            Some(path) => requested(args_of(args)) == Some(path@),
            None => requested(args_of(args)) is None,
        },
{
    if args.len() == 2 {
        Some(copy_bytes(&args[1]))
    } else {
        None
    }
}

/// Chooses the directory in which the browser starts, where `dir_exists` says
/// whether the host found the directory asked for, `home_dir` is the user's
/// home directory if there is one, and `working_dir` the working directory.
pub fn parse_args(
    args: &Vec<Vec<u8>>,
    dir_exists: bool,
    home_dir: Option<&Vec<u8>>,
    working_dir: &Vec<u8>,
) -> (init_dir: Vec<u8>)
    ensures
        init_dir@ == start_dir(
            args_of(args),
            dir_exists,
            match home_dir {
                Some(home) => Some(home@),
                None => None,
            },
            working_dir@,
        ),
{
    if args.len() == 2 {
        if dir_exists {
            copy_bytes(&args[1])
        } else {
            match home_dir {
                Some(home) => copy_bytes(home),
                None => copy_bytes(working_dir),
            }
        }
    } else {
        copy_bytes(working_dir)
    }
}

} // verus!
