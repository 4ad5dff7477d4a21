//! The hardware and operating system that a package was built for.

use vstd::prelude::*;

use crate::error::{Error, ErrorView};
use crate::text::text_eq;

verus! {

/// A target that packages can be built for.
#[derive(Clone, Copy, Debug, PartialEq, Eq, Hash, Structural)]
pub enum PackageTarget {
    X86_64Darwin,
    X86_64Linux,
    X86_64LinuxKernel2,
    X86_64Windows,
}

/// The name of a target, as it stands in a `TARGET` metafile.
pub open spec fn target_name(target: PackageTarget) -> Seq<char> {
    match target {
        PackageTarget::X86_64Darwin => "x86_64-darwin"@,
        PackageTarget::X86_64Linux => "x86_64-linux"@,
        PackageTarget::X86_64LinuxKernel2 => "x86_64-linux-kernel2"@,
        PackageTarget::X86_64Windows => "x86_64-windows"@,
    }
}

/// The target that a name stands for, if it is the name of one.
pub open spec fn parse_target(name: Seq<char>) -> Option<PackageTarget> {
    if name == target_name(PackageTarget::X86_64Darwin) {
        Some(PackageTarget::X86_64Darwin)
    } else if name == target_name(PackageTarget::X86_64Linux) {
        Some(PackageTarget::X86_64Linux)
    } else if name == target_name(PackageTarget::X86_64LinuxKernel2) {
        Some(PackageTarget::X86_64LinuxKernel2)
    } else if name == target_name(PackageTarget::X86_64Windows) {
        Some(PackageTarget::X86_64Windows)
    } else {
        None
    }
}

/// The separator between the entries of a `PATH` value on a host that runs
/// the target.
pub open spec fn path_separator_of(target: PackageTarget) -> char {
    if target == PackageTarget::X86_64Windows {
        ';'
    } else {
        ':'
    }
}

/// Every target is found again under its own name.
pub proof fn lemma_target_name_parses(target: PackageTarget)
    ensures
        parse_target(target_name(target)) == Some(target),
{
    reveal_strlit("x86_64-darwin");
    reveal_strlit("x86_64-linux");
    reveal_strlit("x86_64-linux-kernel2");
    reveal_strlit("x86_64-windows");
    assert("x86_64-darwin"@.len() == 13);
    assert("x86_64-linux"@.len() == 12);
    assert("x86_64-linux-kernel2"@.len() == 20);
    assert("x86_64-windows"@.len() == 14);
}

impl DeepView for PackageTarget {
    type V = PackageTarget;

    open spec fn deep_view(&self) -> PackageTarget {
        *self
    }
}

impl PackageTarget {
    pub fn as_str(&self) -> (s: &'static str)
        ensures
            s@ == target_name(*self),
    {
        match self {
            PackageTarget::X86_64Darwin => "x86_64-darwin",
            PackageTarget::X86_64Linux => "x86_64-linux",
            PackageTarget::X86_64LinuxKernel2 => "x86_64-linux-kernel2",
            PackageTarget::X86_64Windows => "x86_64-windows",
        }
    }

    pub fn to_string(&self) -> (s: String)
        ensures
            s@ == target_name(*self),
    {
        self.as_str().to_owned()
    }

    /// Reads the name of a target. Any other text is no target.
    pub fn from_str(value: &str) -> (r: Result<PackageTarget, Error>)
        ensures
            match r {
                Ok(target) => parse_target(value@) == Some(target),
                Err(e) => parse_target(value@) is None && e@ == ErrorView::InvalidPackageTarget(
                    value@,
                ),
            },
    {
        if text_eq(value, PackageTarget::X86_64Darwin.as_str()) {
            Ok(PackageTarget::X86_64Darwin)
        } else if text_eq(value, PackageTarget::X86_64Linux.as_str()) {
            Ok(PackageTarget::X86_64Linux)
        } else if text_eq(value, PackageTarget::X86_64LinuxKernel2.as_str()) {
            Ok(PackageTarget::X86_64LinuxKernel2)
        } else if text_eq(value, PackageTarget::X86_64Windows.as_str()) {
            Ok(PackageTarget::X86_64Windows)
        } else {
            Err(Error::InvalidPackageTarget(value.to_owned()))
        }
    }

    /// The separator between the entries of a `PATH` value.
    pub fn path_separator(&self) -> (c: char)
        ensures
            c == path_separator_of(*self),
    {
        match self {
            PackageTarget::X86_64Windows => ';',
            _ => ':',
        }
    }
}

} // verus!
