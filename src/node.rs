//! The runtime handle and the module handle: their paths, names and the
//! decisions they take; the process and network work is left to the caller.

use vstd::prelude::*;
use crate::platform::{archive_root, archive_root_spec, arch_spec, get_arch, get_so_name, so_name_spec, str_eq};

verus! {

/// Where the runtime is installed and which release is wanted.
pub struct NodeOptions {
    pub home: String,
    pub version: String,
}

impl Default for NodeOptions {
    /// Installs below `./bin/node` and asks for the LTS release.
    fn default() -> (r: Self)
        ensures
            r.home@ == "./bin/node"@,
            r.version@ == "lts"@,
    {
        NodeOptions { home: String::from_str("./bin/node"), version: String::from_str("lts") }
    }
}

/// What an `ensure` call asks of its caller.
#[derive(Debug, Clone, Copy, PartialEq, Eq, Structural)]
pub enum EnsureAction {
    /// Already installed: nothing to fetch or run.
    Ready,
    /// Absent: install it.
    Install,
}

/// The installed runtime: its configuration and the path of its binary.
pub struct Node {
    options: NodeOptions,
    path: String,
}

/// The runtime binary's file name on an operating system (as Rust spells it).
pub open spec fn binary_name_spec(os: Seq<char>) -> Seq<char> {
    if os == "windows"@ {
        "node.exe"@
    } else {
        "node"@
    }
}

/// The download address of a release archive:
/// `https://nodejs.org/dist/<version>/node-<version>-<os>-<arch>.zip`.
pub open spec fn download_uri_spec(version: Seq<char>, so_name: Seq<char>, arch: Seq<char>) -> Seq<
    char,
> {
    "https://nodejs.org/dist/"@ + version + "/"@ + archive_root_spec(version, so_name, arch)
        + ".zip"@
}

impl Node {
    pub closed spec fn home_spec(&self) -> Seq<char> {
        self.options.home@
    }

    pub closed spec fn path_spec(&self) -> Seq<char> {
        self.path@
    }

    pub closed spec fn version_spec(&self) -> Seq<char> {
        self.options.version@
    }

    /// A handle on the runtime installed below `options.home` for a host
    /// running `os`: its binary is `<home>/node`, or `<home>/node.exe` on
    /// Windows.
    pub fn new(options: NodeOptions, os: &str) -> (r: Node)
        ensures
            r.home_spec() == options.home@,
            r.version_spec() == options.version@,
            r.path_spec() == options.home@ + "/"@ + binary_name_spec(os@),
    {
        let mut path = options.home.clone();
        path.append("/");
        if str_eq(os, "windows") {
            path.append("node.exe");
        } else {
            path.append("node");
        }
        Node { options, path }
    }

    /// The install directory.
    pub fn home(&self) -> (r: &str)
        ensures
            r@ == self.home_spec(),
    {
        self.options.home.as_str()
    }

    /// The path of the runtime binary.
    pub fn path(&self) -> (r: &str)
        ensures
            r@ == self.path_spec(),
    {
        self.path.as_str()
    }

    /// The requested release.
    pub fn version(&self) -> (r: &str)
        ensures
            r@ == self.version_spec(),
    {
        self.options.version.as_str()
    }

    /// Decides whether the runtime must be installed, from whether its binary
    /// is present on disk: once it is, every further call is a no-op.
    pub fn ensure(&self, binary_present: bool) -> (r: EnsureAction)
        ensures
            r == (if binary_present {
                EnsureAction::Ready
            } else {
                EnsureAction::Install
            }),
    {
        if binary_present {
            EnsureAction::Ready
        } else {
            EnsureAction::Install
        }
    }

    /// The download address of release `version` for a host running `os` on
    /// `arch` (both as Rust spells them).
    pub fn get_node_lts_download_uri(version: &str, os: &str, arch: &str) -> (r: String)
        ensures
            r@ == download_uri_spec(version@, so_name_spec(os@), arch_spec(arch@)),
    {
        let so_name = get_so_name(os);
        let arch_name = get_arch(arch);
        let root = archive_root(version, so_name.as_str(), arch_name.as_str());
        let mut r = String::from_str("https://nodejs.org/dist/");
        r.append(version);
        r.append("/");
        r.append(root.as_str());
        r.append(".zip");
        r
    }

    /// The top-level directory of the archive of release `version` for a host
    /// running `os` on `arch`; it is stripped during extraction.
    pub fn extract_root(version: &str, os: &str, arch: &str) -> (r: String)
        ensures
            r@ == archive_root_spec(version@, so_name_spec(os@), arch_spec(arch@)),
    {
        let so_name = get_so_name(os);
        let arch_name = get_arch(arch);
        archive_root(version, so_name.as_str(), arch_name.as_str())
    }

    /// The handle of the module installed in directory `name`.
    pub fn node_module(&self, name: &str) -> (r: NodeModule)
        requires
            name@.len() > 0,
        ensures
            r.path_spec() == name@,
            is_module_name(name@, r.name_spec()),
    {
        NodeModule::new(name)
    }
}


/// The character at `k` is a lone `.` between separators (or the ends): a
/// current-directory part of the path.
pub open spec fn is_lone_dot(s: Seq<char>, k: int) -> bool {
    &&& 0 <= k < s.len()
    &&& s[k] == '.'
    &&& (k == 0 || s[k - 1] == '/')
    &&& (k + 1 == s.len() || s[k + 1] == '/')
}

/// The character at `k` belongs to no named part of the path: it is a
/// separator or a current-directory part.
pub open spec fn is_filler(s: Seq<char>, k: int) -> bool {
    s[k] == '/' || is_lone_dot(s, k)
}

/// `s[a..b]` is the final named segment of a path: no separator inside it,
/// it is not `.`, a separator (or the start) before it and after it only
/// separators and `.` parts.
pub open spec fn is_final_segment(s: Seq<char>, a: int, b: int) -> bool {
    &&& 0 <= a < b <= s.len()
    &&& forall|k: int| a <= k < b ==> #[trigger] s[k] != '/'
    &&& forall|k: int| b <= k < s.len() ==> #[trigger] is_filler(s, k)
    &&& (a == 0 || s[a - 1] == '/')
    &&& (b == s.len() || s[b] == '/')
    &&& s.subrange(a, b) != "."@
}

/// A module's name is the final named segment of its path, with empty and
/// `.` parts ignored. A path without one is named after what it starts
/// with: `/` for the root, `.` for the current directory.
pub open spec fn is_module_name(s: Seq<char>, name: Seq<char>) -> bool {
    if exists|k: int| 0 <= k < s.len() && !#[trigger] is_filler(s, k) {
        exists|a: int, b: int| is_final_segment(s, a, b) && name == s.subrange(a, b)
    } else if s.len() > 0 && s[0] == '/' {
        name == "/"@
    } else {
        name == "."@
    }
}

/// Whether the character at `k` is a lone `.` part of the path.
fn lone_dot_at(s: &str, k: usize) -> (r: bool)
    requires
        k < s@.len(),
    ensures
        r == is_lone_dot(s@, k as int),
{
    let n = s.unicode_len();
    s.get_char(k) == '.' && (k == 0 || s.get_char(k - 1) == '/') && (k + 1 == n || s.get_char(k + 1) == '/')
}

/// A module of the runtime: the directory that holds it, and its name.
pub struct NodeModule {
    name: String,
    path: String,
}

impl NodeModule {
    pub closed spec fn name_spec(&self) -> Seq<char> {
        self.name@
    }

    pub closed spec fn path_spec(&self) -> Seq<char> {
        self.path@
    }

    /// The handle of the module whose directory is `path_str`; its name is
    /// the final named segment of that path.
    pub fn new(path_str: &str) -> (r: NodeModule)
        requires
            path_str@.len() > 0,
        ensures
            r.path_spec() == path_str@,
            is_module_name(path_str@, r.name_spec()),
    {
        let n = path_str.unicode_len();
        let mut b: usize = n;
        while b > 0 && (path_str.get_char(b - 1) == '/' || lone_dot_at(path_str, b - 1))
            invariant
                b <= n,
                n == path_str@.len(),
                forall|k: int| b <= k < n ==> #[trigger] is_filler(path_str@, k),
            decreases b,
        {
            b -= 1;
        }
        if b == 0 {
            proof {
                assert(forall|k: int| 0 <= k < n ==> #[trigger] is_filler(path_str@, k));
            }
            let name = if path_str.get_char(0) == '/' {
                String::from_str("/")
            } else {
                String::from_str(".")
            };
            return NodeModule { name, path: String::from_str(path_str) };
        }
        let mut a: usize = b - 1;
        while a > 0 && path_str.get_char(a - 1) != '/'
            invariant
                a < b,
                b <= n,
                n == path_str@.len(),
                forall|k: int| a <= k < b ==> #[trigger] path_str@[k] != '/',
            decreases a,
        {
            a -= 1;
        }
        let name = String::from_str(path_str.substring_char(a, b));
        proof {
            let s = path_str@;
            assert(!is_filler(s, b - 1));
            if b < n {
                assert(is_filler(s, b as int));
                assert(s[b as int] == '/');
            }
            if s.subrange(a as int, b as int) == "."@ {
                reveal_strlit(".");
                assert(s.subrange(a as int, b as int).len() == 1);
                assert(a == b - 1);
                assert(s.subrange(a as int, b as int)[0] == s[b - 1]);
                assert(is_lone_dot(s, b - 1));
            }
            assert(is_final_segment(s, a as int, b as int));
        }
        NodeModule { name, path: String::from_str(path_str) }
    }

    /// The module's name.
    pub fn name(&self) -> (r: &str)
        ensures
            r@ == self.name_spec(),
    {
        self.name.as_str()
    }

    /// The module's directory.
    pub fn path(&self) -> (r: &str)
        ensures
            r@ == self.path_spec(),
    {
        self.path.as_str()
    }

    /// Decides whether the module must be installed, from whether its
    /// directory is present on disk.
    pub fn ensure(&self, dir_present: bool) -> (r: EnsureAction)
        ensures
            r == (if dir_present {
                EnsureAction::Ready
            } else {
                EnsureAction::Install
            }),
    {
        if dir_present {
            EnsureAction::Ready
        } else {
            EnsureAction::Install
        }
    }

    /// The arguments of the package manager's install call: `install <name>`.
    pub fn install_args(&self) -> (r: Vec<String>)
        ensures
            r@.len() == 2,
            r@[0]@ == "install"@,
            r@[1]@ == self.name_spec(),
    {
        let mut r: Vec<String> = Vec::new();
        r.push(String::from_str("install"));
        r.push(self.name.clone());
        r
    }

    /// The arguments of a run of the module: its directory `.` as entry
    /// point, then all of `args` joined by spaces into one argument.
    pub fn run_args(&self, args: &Vec<String>) -> (r: Vec<String>)
        ensures
            r@.len() == 2,
            r@[0]@ == "."@,
            r@[1]@ == join_spec(args@),
    {
        let mut r: Vec<String> = Vec::new();
        r.push(String::from_str("."));
        r.push(join_args(args));
        r
    }
}

/// The strings joined with a single space between neighbours.
pub open spec fn join_spec(args: Seq<String>) -> Seq<char>
    decreases args.len(),
{
    if args.len() == 0 {
        seq![]
    } else if args.len() == 1 {
        args[0]@
    } else {
        join_spec(args.drop_last()) + " "@ + args.last()@
    }
}

/// Joins arguments with single spaces.
pub fn join_args(args: &Vec<String>) -> (r: String)
    ensures
        r@ == join_spec(args@),
{
    let mut r = String::new();
    let mut i: usize = 0;
    while i < args.len()
        invariant
            i <= args@.len(),
            r@ == join_spec(args@.subrange(0, i as int)),
        decreases args@.len() - i,
    {
        proof {
            let p = args@.subrange(0, i + 1);
            assert(p.drop_last() =~= args@.subrange(0, i as int));
            assert(p.last() == args@[i as int]);
            if i == 0 {
                assert(r@ == Seq::<char>::empty());
            }
        }
        if i > 0 {
            r.append(" ");
        }
        r.append(args[i].as_str());
        proof {
            if i == 0 {
                assert(r@ =~= args@[0]@);
            }
        }
        i += 1;
    }
    proof {
        assert(args@.subrange(0, args@.len() as int) =~= args@);
    }
    r
}

} // verus!
