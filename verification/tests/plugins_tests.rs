use distri_core::plugins::{plugin_file_segments, plugin_object_prefix};

#[test]
fn object_prefix_uses_forward_slashes_under_the_root() {
    assert_eq!(plugin_object_prefix("my_plugin", None), "my_plugin");
    assert_eq!(plugin_object_prefix("a\\b", None), "a/b");
    assert_eq!(plugin_object_prefix("p", Some("")), "p");
    assert_eq!(plugin_object_prefix("p", Some("plugins//")), "plugins/p");
    assert_eq!(plugin_object_prefix("x\\y", Some("root")), "root/x/y");
}

#[test]
fn plugin_file_path_is_split_into_nonempty_segments() {
    assert_eq!(plugin_file_segments("/agents//search.md"), vec!["agents", "search.md"]);
    assert_eq!(plugin_file_segments("tools/a/b/"), vec!["tools", "a", "b"]);
    assert!(plugin_file_segments("///").is_empty());
}
