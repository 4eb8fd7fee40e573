use file_explorer::path_ops::join_path;
use file_explorer::path_ops::last_component_of;
use file_explorer::path_ops::parent_of;
use file_explorer::path_ops::stem_of;

#[test]
fn parent_of_nested_path() {
    assert_eq!(parent_of("/a/b"), Some("/a".to_string()));
    assert_eq!(parent_of("/home/user/docs"), Some("/home/user".to_string()));
}

#[test]
fn parent_of_top_level_path_is_root() {
    assert_eq!(parent_of("/a"), Some("/".to_string()));
    assert_eq!(parent_of("/Documents"), Some("/".to_string()));
}

#[test]
fn parent_of_root_is_none() {
    assert_eq!(parent_of("/"), None);
}

#[test]
fn parent_of_bare_name_is_none() {
    assert_eq!(parent_of("file.txt"), None);
    assert_eq!(parent_of(""), None);
}

#[test]
fn parent_of_relative_path() {
    assert_eq!(parent_of("a/b"), Some("a".to_string()));
}

#[test]
fn join_path_plain_directory() {
    assert_eq!(join_path("/home", "user"), "/home/user".to_string());
}

#[test]
fn join_path_root_adds_no_second_separator() {
    assert_eq!(join_path("/", "Documents"), "/Documents".to_string());
}

#[test]
fn join_then_parent_round_trip() {
    let joined = join_path("/home/user", "Documents");
    assert_eq!(joined, "/home/user/Documents");
    assert_eq!(parent_of(&joined), Some("/home/user".to_string()));
    assert_eq!(last_component_of(&joined), "Documents".to_string());
}

#[test]
fn stem_of_drops_one_trailing_separator() {
    assert_eq!(stem_of("Documents/"), "Documents".to_string());
    assert_eq!(stem_of("passport.png"), "passport.png".to_string());
    assert_eq!(stem_of(""), "".to_string());
}

#[test]
fn last_component_of_various() {
    assert_eq!(last_component_of("/a/b"), "b".to_string());
    assert_eq!(last_component_of("/a"), "a".to_string());
    assert_eq!(last_component_of("plain"), "plain".to_string());
}
