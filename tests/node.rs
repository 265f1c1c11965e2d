use portable_node::node::{join_args, EnsureAction, Node, NodeModule, NodeOptions};

fn options(home: &str) -> NodeOptions {
    NodeOptions { home: home.to_string(), version: "lts".to_string() }
}

#[test]
fn default_options() {
    let o = NodeOptions::default();
    assert_eq!(o.home, "./bin/node");
    assert_eq!(o.version, "lts");
}

#[test]
fn binary_path_depends_on_os() {
    assert_eq!(Node::new(options("./bin/node"), "linux").path(), "./bin/node/node");
    assert_eq!(Node::new(options("rt"), "windows").path(), "rt/node.exe");
    let n = Node::new(options("rt"), "macos");
    assert_eq!(n.home(), "rt");
    assert_eq!(n.version(), "lts");
}

#[test]
fn ensure_is_idempotent() {
    let n = Node::new(NodeOptions::default(), "linux");
    assert_eq!(n.ensure(false), EnsureAction::Install);
    // once the binary is there, no further install (and no fetch) is asked
    assert_eq!(n.ensure(true), EnsureAction::Ready);
    assert_eq!(n.ensure(true), EnsureAction::Ready);
}

#[test]
fn module_name_is_final_segment() {
    assert_eq!(NodeModule::new("modules/left-pad").name(), "left-pad");
    assert_eq!(NodeModule::new("modules/left-pad/").name(), "left-pad");
    assert_eq!(NodeModule::new("typescript").name(), "typescript");
    assert_eq!(NodeModule::new("/").name(), "/");
    assert_eq!(NodeModule::new("a/b").path(), "a/b");
    assert_eq!(NodeModule::new("a/.").name(), "a");
    assert_eq!(NodeModule::new("a/b/.").name(), "b");
    assert_eq!(NodeModule::new("a/./b").name(), "b");
    assert_eq!(NodeModule::new("./x").name(), "x");
    assert_eq!(NodeModule::new(".").name(), ".");
    assert_eq!(NodeModule::new("./").name(), ".");
    assert_eq!(NodeModule::new("/.").name(), "/");
    assert_eq!(NodeModule::new("a/..").name(), "..");
    assert_eq!(NodeModule::new(".hidden/").name(), ".hidden");
}

#[test]
fn node_module_uses_path() {
    let n = Node::new(NodeOptions::default(), "linux");
    let m = n.node_module("mods/prettier");
    assert_eq!(m.name(), "prettier");
    assert_eq!(m.path(), "mods/prettier");
}

#[test]
fn module_ensure_installs_when_absent() {
    let m = NodeModule::new("mods/prettier");
    assert_eq!(m.ensure(false), EnsureAction::Install);
    assert_eq!(m.ensure(true), EnsureAction::Ready);
}

#[test]
fn run_args_join_into_one_token() {
    let m = NodeModule::new("mods/tool");
    let args = vec!["--out".to_string(), "dist".to_string(), "-v".to_string()];
    assert_eq!(m.run_args(&args), vec![".".to_string(), "--out dist -v".to_string()]);
    assert_eq!(join_args(&Vec::new()), "");
    assert_eq!(join_args(&vec!["one".to_string()]), "one");
    assert_eq!(m.install_args(), vec!["install".to_string(), "tool".to_string()]);
}
