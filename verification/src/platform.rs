//! The operating system of the host, and where the game lives on it.

use vstd::prelude::*;
use crate::error::{agrees, Error};
use crate::path::{join, join_path};
use crate::text::{contains, contains_text};

verus! {

/// The operating systems for which native bundles exist.
#[derive(Clone, Copy, Debug, PartialEq, Eq)]
pub enum OS {
    Windows,
    Linux,
    OSX,
}

/// The lowercase form of `text`: what `str::to_lowercase` makes of it.
pub uninterp spec fn lowercase(text: Seq<char>) -> Seq<char>;

/// `str::to_lowercase`: the lowercase form of a text, which depends on the
/// text alone.
#[verifier::external_body]
fn to_lowercase(text: &str) -> (lowered: String)
    ensures
        lowered@ == lowercase(text@),
{
    text.to_lowercase()
}

/// The operating system that a host's name in lower case stands for. `win`
/// anywhere in it means Windows; else `mac` means macOS; else any of `nix`,
/// `nux` and `uni` means Linux.
pub open spec fn os_named(lowered: Seq<char>) -> Result<OS, Error> {
    if contains(lowered, "win"@) {
        Ok(OS::Windows)
    } else if contains(lowered, "mac"@) {
        Ok(OS::OSX)
    } else if contains(lowered, "nix"@) || contains(lowered, "nux"@)
        || contains(lowered, "uni"@) {
        Ok(OS::Linux)
    } else {
        Err(Error::UnsupportedPlatform)
    }
}

/// Where the game keeps its data below the home directory `home`.
pub open spec fn minecraft_dir(os: OS, home: Seq<char>) -> Seq<char> {
    match os {
        OS::OSX => join(home, "Library/Application Support/minecraft"@),
        OS::Windows | OS::Linux => join(home, ".minecraft"@),
    }
}

/// The operating system that a host's name stands for, the name given in
/// lower case: see [`os_named`].
pub fn os_from_lowercase(lowered: &str) -> (os: Result<OS, Error>)
    ensures
        os == os_named(lowered@),
{
    if contains_text(lowered, "win") {
        Ok(OS::Windows)
    } else if contains_text(lowered, "mac") {
        Ok(OS::OSX)
    } else if contains_text(lowered, "nix") || contains_text(lowered, "nux")
        || contains_text(lowered, "uni") {
        Ok(OS::Linux)
    } else {
        Err(Error::UnsupportedPlatform)
    }
}

/// The operating system that a host's name stands for, whatever the case of
/// its letters.
pub fn get_os(os_name: &str) -> (os: Result<OS, Error>)
    ensures
        os == os_named(lowercase(os_name@)),
{
    let lowered = to_lowercase(os_name);
    os_from_lowercase(lowered.as_str())
}

/// Where the game keeps its data on a host with the home directory `home`.
/// A host without a home directory has no such place.
pub fn get_minecraft_dir(os: &OS, home: Option<&str>) -> (dir: Result<String, Error>)
    ensures
        agrees(
            dir,
            match home {
                Some(h) => Ok(minecraft_dir(*os, h@)),
                None => Err(Error::HomeDirectoryUnset),
            },
        ),
{
    match home {
        None => Err(Error::HomeDirectoryUnset),
        Some(h) => match os {
            OS::OSX => Ok(join_path(h, "Library/Application Support/minecraft")),
            OS::Windows | OS::Linux => Ok(join_path(h, ".minecraft")),
        },
    }
}

/// None of `win`, `mac`, `nix`, `nux` and `uni` occurs in `lowered`.
pub open spec fn names_no_os(lowered: Seq<char>) -> bool {
    &&& !contains(lowered, "win"@)
    &&& !contains(lowered, "mac"@)
    &&& !contains(lowered, "nix"@)
    &&& !contains(lowered, "nux"@)
    &&& !contains(lowered, "uni"@)
}

/// Every name stands for an operating system or is refused as unsupported,
/// and the names refused are those in which none of the patterns occurs.
pub proof fn lemma_os_named_total(lowered: Seq<char>)
    ensures
        os_named(lowered) is Ok <==> !names_no_os(lowered),
        os_named(lowered) == Err::<OS, Error>(Error::UnsupportedPlatform) <==> names_no_os(
            lowered,
        ),
{
}

} // verus!
