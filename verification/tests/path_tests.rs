use pacdef::group::is_valid_group_path;
use pacdef::path::{
    binary_candidates, components, get_config_path, get_config_path_old_version, get_group_dir, get_home_dir,
    get_relative_path, get_xdg_config_home, path_push, PathError,
};

#[test]
fn relative_path() {
    let full = "/a/b/c/d/e";
    let base = "/a/b/c";
    let relative = get_relative_path(full, base);
    assert_eq!(relative, "d/e");
}

#[test]
fn extract_group_name() {
    let path = "/a/b/c/d/e";
    let group_path = "/a/b/c";
    let expected = String::from("d/e");
    assert!(is_valid_group_path(path, group_path));
    let result = pacdef::group::extract_group_name(path, group_path);
    assert_eq!(result, expected);
}

#[test]
fn group_path_outside_group_dir_is_refused() {
    assert!(!is_valid_group_path("/a/b/z/d/e", "/a/b/c"));
    assert!(!is_valid_group_path("/a/b/c", "/a/b/c"));
}

#[test]
fn components_skip_root_and_empty_pieces() {
    assert_eq!(components("/a//b/./c/"), vec!["/".to_string(), "a".to_string(), "b".to_string(), "c".to_string()]);
}

#[test]
fn push_onto_path() {
    assert_eq!(path_push("/a/b", "c"), "/a/b/c");
    assert_eq!(path_push("/a/b/", "c"), "/a/b/c");
    assert_eq!(path_push("/a/b", "/c"), "/c");
    assert_eq!(path_push("", "c"), "c");
}

#[test]
fn config_locations() {
    let home = Some("/home/u".to_string());
    assert_eq!(get_home_dir(home.clone()).unwrap(), "/home/u");
    assert_eq!(get_xdg_config_home(None, home.clone()).unwrap(), "/home/u/.config");
    assert_eq!(get_xdg_config_home(Some("/x".to_string()), home.clone()).unwrap(), "/x");
    assert_eq!(get_group_dir(None, home.clone()).unwrap(), "/home/u/.config/pacdef/groups");
    assert_eq!(get_config_path(None, home.clone()).unwrap(), "/home/u/.config/pacdef/pacdef.yaml");
    assert_eq!(get_config_path_old_version(None, home.clone()).unwrap(), "/home/u/.config/pacdef/pacdef.conf");
}

#[test]
fn home_not_set() {
    assert!(matches!(get_home_dir(None), Err(PathError::HomeNotSet)));
    assert!(matches!(get_group_dir(None, None), Err(PathError::HomeNotSet)));
}

#[test]
fn binary_candidates_per_path_entry() {
    assert_eq!(
        binary_candidates("/usr/bin:/bin", "pacman"),
        vec!["/usr/bin/pacman".to_string(), "/bin/pacman".to_string()]
    );
}
