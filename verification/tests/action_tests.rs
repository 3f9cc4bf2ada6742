use pacdef::action::{GroupAction, PackageAction};

#[test]
fn actions_read_back() {
    assert_eq!(GroupAction::try_from("import"), Some(GroupAction::Import));
    assert_eq!(GroupAction::try_from("show"), Some(GroupAction::Show));
    assert_eq!(GroupAction::try_from("nothing"), None);
    assert_eq!(PackageAction::try_from("sync"), Some(PackageAction::Sync));
    assert_eq!(PackageAction::try_from("unmanaged"), Some(PackageAction::Unmanaged));
    assert_eq!(PackageAction::try_from("nothing"), None);
}
