use pacdef::commands::{
    backend_is_queried, check_vars_in_order, export_path, get_assumed_group_file_names, get_editor,
    get_name_and_version, get_version_string, group_heading, may_export, new_group_paths, run_outcome,
    select_groups, sorted_group_names, user_confirmed, RunOutcome,
};
use pacdef::errors::Error;
use pacdef::group::{find_groups_by_name, Group};

fn groups() -> Vec<Group> {
    let files = vec![
        ("/g/base".to_string(), "[arch]\nzsh\n".to_string()),
        ("/g/audio".to_string(), "[arch]\npipewire\n".to_string()),
    ];
    Group::load_from_dir("/g", &files)
}

#[test]
fn queried_backends() {
    let disabled = vec!["rust".to_string()];
    assert!(!backend_is_queried("rust", &disabled, true));
    assert!(backend_is_queried("arch", &disabled, true));
    assert!(!backend_is_queried("arch", &disabled, false));
}

#[test]
fn groups_selected_by_name() {
    let gs = groups();
    assert_eq!(select_groups(&vec!["audio".to_string(), "base".to_string()], &gs).unwrap(), vec![1, 0]);
    assert_eq!(
        select_groups(&vec!["x".to_string(), "base".to_string(), "y".to_string()], &gs).unwrap_err(),
        vec!["x".to_string(), "y".to_string()]
    );
    let found = find_groups_by_name(&vec!["base".to_string()], &gs).unwrap();
    assert_eq!(found[0].name, "base");
    match find_groups_by_name(&vec!["nope".to_string()], &gs) {
        Err(e) => assert_eq!(e.to_string(), "group file 'nope' not found"),
        Ok(_) => panic!("expected an error"),
    }
    assert_eq!(sorted_group_names(&gs), vec!["audio", "base"]);
}

#[test]
fn heading_has_one_dash_per_byte() {
    assert_eq!(group_heading("base"), "base\n----\n");
    assert_eq!(group_heading("é"), "é\n--\n");
}

#[test]
fn new_groups() {
    assert_eq!(new_group_paths("/g", &vec!["a".to_string()]).unwrap(), vec!["/g/a"]);
    match new_group_paths("/g", &vec!["a".to_string(), "..".to_string()]) {
        Err(e) => {
            assert!(matches!(&e, Error::InvalidGroupName(n) if n == ".."));
            assert_eq!(e.to_string(), "group name '..' is not valid");
        },
        Ok(_) => panic!("expected an error"),
    }
    assert_eq!(get_assumed_group_file_names("/g", &vec!["b".to_string()]), vec!["/g/b"]);
}

#[test]
fn export() {
    assert_eq!(export_path("/out", "sub/base"), "/out/sub/base");
    assert!(may_export(false, false));
    assert!(!may_export(false, true));
    assert!(may_export(true, true));
}

#[test]
fn version_texts() {
    assert_eq!(get_version_string("1.0.0", ""), "1.0.0");
    assert_eq!(get_version_string("1.0.0", "abc"), "1.0.0 (abc)");
    assert_eq!(
        get_name_and_version("1.0.0", &vec!["arch", "rust"]),
        "pacdef, version: 1.0.0\nsupported backends:\n  arch\n  rust"
    );
}

#[test]
fn editor_and_confirmation() {
    assert_eq!(get_editor(None, Some("vi".to_string())), Some("vi".to_string()));
    assert_eq!(get_editor(Some("nano".to_string()), Some("vi".to_string())), Some("nano".to_string()));
    assert_eq!(check_vars_in_order(&vec![None, Some("b".to_string())]), Some("b".to_string()));
    assert!(user_confirmed(""));
    assert!(user_confirmed("  \n"));
    assert!(user_confirmed("Yes"));
    assert!(!user_confirmed("no"));
}

#[test]
fn exit_codes() {
    assert_eq!(run_outcome(Some(0)), RunOutcome::Success);
    assert_eq!(run_outcome(Some(2)), RunOutcome::Failed(2));
    assert_eq!(run_outcome(None), RunOutcome::Killed);
}

#[test]
fn error_messages() {
    assert_eq!(Error::NoPackagesFound.to_string(), "no packages matching query");
    assert_eq!(Error::ConfigFileNotFound.to_string(), "config file not found");
    assert_eq!(Error::GroupAlreadyExists("/g/a".to_string()).to_string(), "group file '/g/a' already exists");
}
