use portable_node::node::Node;
use portable_node::platform::{archive_root, get_arch, get_so_name};

#[test]
fn os_names_follow_the_distribution() {
    assert_eq!(get_so_name("windows"), "win");
    assert_eq!(get_so_name("linux"), "linux");
    assert_eq!(get_so_name("macos"), "macos");
    assert_eq!(get_so_name(""), "");
}

#[test]
fn arch_names_follow_the_distribution() {
    assert_eq!(get_arch("x86_64"), "x64");
    assert_eq!(get_arch("x86"), "x86");
    assert_eq!(get_arch("aarch64"), "aarch64");
    assert_eq!(get_arch("arm"), "arm");
}

#[test]
fn mapping_is_deterministic() {
    for os in ["windows", "linux", "macos", "freebsd"] {
        assert_eq!(get_so_name(os), get_so_name(os));
    }
    for arch in ["x86_64", "x86", "aarch64"] {
        assert_eq!(get_arch(arch), get_arch(arch));
    }
}

#[test]
fn archive_root_names_version_and_platform() {
    assert_eq!(archive_root("v20.0.0", "linux", "x64"), "node-v20.0.0-linux-x64");
    assert_eq!(Node::extract_root("v20.0.0", "windows", "x86_64"), "node-v20.0.0-win-x64");
}

#[test]
fn download_uri_is_templated() {
    assert_eq!(
        Node::get_node_lts_download_uri("v20.11.0", "windows", "x86_64"),
        "https://nodejs.org/dist/v20.11.0/node-v20.11.0-win-x64.zip"
    );
    assert_eq!(
        Node::get_node_lts_download_uri("v18.0.0", "linux", "aarch64"),
        "https://nodejs.org/dist/v18.0.0/node-v18.0.0-linux-aarch64.zip"
    );
}
