//! Cloning the repository that holds the configuration: what to do with
//! the destination, and what to make of the way a command ended.

use vstd::prelude::*;
use vstd::string::StringExecFns;

verus! {

/// Why cloning was given up.
#[derive(Debug, PartialEq, Eq)]
pub enum CloneError {
    /// The path exists, but is not a directory.
    ExpectedDir(String),
    /// The directory exists, but is not empty.
    NotEmpty(String),
    /// The command was killed by a signal.
    KilledBySignal(String),
    /// The command ended with this status, which is not zero.
    NonZeroExit(String, i32),
}

/// The name of the command that clones.
pub const CLONE_CMD: &'static str = "clone";

/// The directory cloned into when none is given, below the user's data
/// directory.
pub const CLONE_DFLT_DIR: &'static str = "mononoke-config";

/// The directory cloned into when none is given, below the user's data
/// directory.
pub open spec fn clone_default_dir() -> Seq<char> {
    "mononoke-config"@
}

/// What is added to the configuration of the clone.
pub open spec fn hgrc_content() -> Seq<char> {
    "\n[extensions]\ntreemanifest=\nfastmanifest=!\n\n[treemanifest]\ntreeonly=True\nserver=True\n"@
}

/// What is added to the configuration of the clone.
pub fn hgrc() -> (text: &'static str)
    ensures
        text@ == hgrc_content(),
{
    "\n[extensions]\ntreemanifest=\nfastmanifest=!\n\n[treemanifest]\ntreeonly=True\nserver=True\n"
}

/// The data directory of a user.
pub fn data_dir(user: &str) -> (dir: String)
    ensures
        dir@ == "/data/users/"@ + user@,
{
    let mut dir = String::from_str("/data/users/");
    dir.append(user);
    dir
}

/// The directory cloned into when none is given.
pub fn default_destination(user: &str) -> (dir: String)
    ensures
        dir@ == "/data/users/"@ + user@ + "/"@ + clone_default_dir(),
{
    let mut dir = data_dir(user);
    dir.append("/");
    dir.append(CLONE_DFLT_DIR);
    dir
}

/// Where the destination of a clone comes from.
#[derive(Debug, PartialEq, Eq)]
pub enum Destination {
    /// Clone into this directory.
    Use(String),
    /// Ask the user, and offer this directory.
    Ask(String),
}

/// Where to clone to: the directory named on the command line; else the
/// user is asked, if the command is interactive; else the directory that
/// is taken when none is given.
pub fn choose_destination(dest: Option<String>, interactive: bool, default: String) -> (d: Destination)
    ensures
        d == (match dest {
            Some(dir) => Destination::Use(dir),
            None => if interactive {
                Destination::Ask(default)
            } else {
                Destination::Use(default)
            },
        }),
{
    match dest {
        Some(dir) => Destination::Use(dir),
        None => if interactive {
            Destination::Ask(default)
        } else {
            Destination::Use(default)
        },
    }
}

/// What to do with the destination before cloning.
#[derive(Clone, Copy, Debug, PartialEq, Eq, Structural)]
pub enum RemoveStep {
    /// Nothing: the destination does not exist.
    Nothing,
    /// Remove the directory: it is empty, or the user agreed.
    Remove,
    /// Ask the user whether the directory's content may be removed.
    Ask,
}

/// What to do with the destination before cloning, given what is there.
/// A destination that is no directory is an error; so is a directory
/// with content, unless the command is interactive.
pub fn remove_dir(dir: String, exists: bool, is_dir: bool, entries: usize, interactive: bool) -> (r:
    Result<RemoveStep, CloneError>)
    ensures
        r == (if exists && !is_dir {
            Err::<RemoveStep, CloneError>(CloneError::ExpectedDir(dir))
        } else if !exists {
            Ok(RemoveStep::Nothing)
        } else if entries == 0 {
            Ok(RemoveStep::Remove)
        } else if interactive {
            Ok(RemoveStep::Ask)
        } else {
            Err(CloneError::NotEmpty(dir))
        }),
{
    if exists && !is_dir {
        return Err(CloneError::ExpectedDir(dir));
    }
    if !exists {
        return Ok(RemoveStep::Nothing);
    }
    if entries == 0 {
        return Ok(RemoveStep::Remove);
    }
    if interactive {
        Ok(RemoveStep::Ask)
    } else {
        Err(CloneError::NotEmpty(dir))
    }
}

/// What to do after the user was asked whether the directory's content
/// may be removed.
pub fn remove_dir_answered(dir: String, agreed: bool) -> (r: Result<RemoveStep, CloneError>)
    ensures
        r == (if agreed {
            Ok::<RemoveStep, CloneError>(RemoveStep::Remove)
        } else {
            Err(CloneError::NotEmpty(dir))
        }),
{
    if agreed {
        Ok(RemoveStep::Remove)
    } else {
        Err(CloneError::NotEmpty(dir))
    }
}

/// What to make of the way a command ended: success is fine; a status
/// that is not zero and the death by a signal are errors.
pub fn check_status(success: bool, code: Option<i32>, proc_name: &str) -> (r: Result<(), CloneError>)
    ensures
        r is Ok <==> success,
        !success ==> (match code {
            None => r matches Err(CloneError::KilledBySignal(n)) && n@ == proc_name@,
            Some(c) => r matches Err(CloneError::NonZeroExit(n, found)) && n@ == proc_name@
                && found == c,
        }),
{
    if success {
        Ok(())
    } else {
        match code {
            None => Err(CloneError::KilledBySignal(String::from_str(proc_name))),
            Some(c) => Err(CloneError::NonZeroExit(String::from_str(proc_name), c)),
        }
    }
}

} // verus!
