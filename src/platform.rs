//! Naming of the host platform after the distribution server's convention,
//! and the names derived from it: download address and archive root.

use vstd::prelude::*;

verus! {

/// Character-wise equality of two strings.
pub fn str_eq(a: &str, b: &str) -> (r: bool)
    ensures
        r == (a@ == b@),
{
    let n = a.unicode_len();
    if n != b.unicode_len() {
        return false;
    }
    let mut i: usize = 0;
    while i < n
        invariant
            n == a@.len(),
            n == b@.len(),
            i <= n,
            forall|j: int| 0 <= j < i ==> a@[j] == b@[j],
        decreases n - i,
    {
        if a.get_char(i) != b.get_char(i) {
            return false;
        }
        i += 1;
    }
    proof {
        assert(a@ =~= b@);
    }
    true
}

/// The distribution's name for an operating system.
pub open spec fn so_name_spec(os: Seq<char>) -> Seq<char> {
    if os == "windows"@ {
        "win"@
    } else {
        os
    }
}

/// The distribution's name for a CPU architecture.
pub open spec fn arch_spec(arch: Seq<char>) -> Seq<char> {
    if arch == "x86_64"@ {
        "x64"@
    } else {
        arch
    }
}

/// Maps the host's operating system name (as Rust spells it) to the
/// distribution's: `windows` becomes `win`, any other name is kept.
pub fn get_so_name(os: &str) -> (r: String)
    ensures
        r@ == so_name_spec(os@),
{
    if str_eq(os, "windows") {
        String::from_str("win")
    } else {
        String::from_str(os)
    }
}

/// Maps the host's CPU architecture name (as Rust spells it) to the
/// distribution's: `x86_64` becomes `x64`, `x86` and any other name are kept.
pub fn get_arch(arch: &str) -> (r: String)
    ensures
        r@ == arch_spec(arch@),
{
    if str_eq(arch, "x86_64") {
        String::from_str("x64")
    } else if str_eq(arch, "x86") {
        String::from_str("x86")
    } else {
        String::from_str(arch)
    }
}

/// The top-level directory of a release archive:
/// `node-<version>-<os>-<arch>`.
pub open spec fn archive_root_spec(version: Seq<char>, os: Seq<char>, arch: Seq<char>) -> Seq<
    char,
> {
    "node-"@ + version + "-"@ + os + "-"@ + arch
}

/// Builds the archive's top-level directory name from the version and the
/// distribution's platform names.
pub fn archive_root(version: &str, so_name: &str, arch: &str) -> (r: String)
    ensures
        r@ == archive_root_spec(version@, so_name@, arch@),
{
    let mut r = String::from_str("node-");
    r.append(version);
    r.append("-");
    r.append(so_name);
    r.append("-");
    r.append(arch);
    r
}

} // verus!
