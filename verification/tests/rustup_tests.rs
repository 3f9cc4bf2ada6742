use pacdef::backend::rustup::{
    components_from_output, convert_all_packages_to_rustup_packages, group_components_by_toolchains,
    id_commands, install_components, installed_ids, sort_packages_into_toolchains_and_components,
    toolchain_of_component_was_already_removed, toolchains_from_output, toolchains_of_list, Repotype, Rustup,
    RustupError, RustupPackage, RustupPackageId,
};
use pacdef::package::Package;

fn rp(repo: &str, name: &str) -> Package {
    Package { name: name.to_string(), repo: Some(repo.to_string()) }
}

#[test]
fn components_of_one_and_two_words() {
    let mut val = vec![];
    install_components("rustfmt-x86_64-unknown-linux-gnu", "stable", &mut val);
    install_components("rust-src", "nightly", &mut val);
    install_components("rust-analyzer-preview-x86_64-unknown-linux-gnu", "stable", &mut val);
    assert_eq!(val, vec!["stable/rustfmt", "nightly/rust-src", "stable/rust-analyzer"]);
}

#[test]
fn toolchain_names_from_list() {
    let out = "stable-x86_64-unknown-linux-gnu (default)\nnightly-x86_64-unknown-linux-gnu\n";
    assert_eq!(toolchains_from_output(out), vec!["stable", "nightly"]);
    assert_eq!(toolchains_of_list(out), vec!["stable-x86_64-unknown-linux-gnu", "nightly-x86_64-unknown-linux-gnu"]);
}

#[test]
fn components_listed_for_a_toolchain() {
    let mut val = vec![];
    components_from_output("cargo-x86_64-unknown-linux-gnu\nrust-std-x86_64-unknown-linux-gnu\n", "stable", &mut val);
    assert_eq!(val, vec!["stable/cargo", "stable/rust-std"]);
}

#[test]
fn packages_split_into_toolchains_and_components() {
    let packages = vec![rp("toolchain", "stable"), rp("component", "nightly/rust-src"), rp("toolchain", "nightly")];
    let converted = convert_all_packages_to_rustup_packages(&packages).unwrap();
    let (toolchains, components) = sort_packages_into_toolchains_and_components(converted);
    assert_eq!(toolchains.len(), 2);
    assert_eq!(components.len(), 1);
    assert_eq!(components[0].toolchain, "nightly");
    assert_eq!(components[0].component, Some("rust-src".to_string()));
}

#[test]
fn conversion_errors() {
    let none = vec![Package { name: "x".to_string(), repo: None }];
    assert!(matches!(convert_all_packages_to_rustup_packages(&none), Err(RustupError::MissingRepo)));
    let bad = vec![rp("crate", "x")];
    match convert_all_packages_to_rustup_packages(&bad) {
        Err(RustupError::UnknownRepotype(r)) => assert_eq!(r, "crate"),
        _ => panic!("expected an unknown repository type"),
    }
    let no_slash = vec![rp("component", "rust-src")];
    assert!(matches!(convert_all_packages_to_rustup_packages(&no_slash), Err(RustupError::MissingComponent)));
    assert!(Repotype::try_from("component").is_ok());
}

#[test]
fn components_grouped_by_toolchain() {
    let cs = vec![
        RustupPackage::new(Repotype::Component, "stable".to_string(), Some("a".to_string())),
        RustupPackage::new(Repotype::Component, "nightly".to_string(), Some("b".to_string())),
        RustupPackage::new(Repotype::Component, "stable".to_string(), Some("c".to_string())),
    ];
    let groups = group_components_by_toolchains(cs);
    assert_eq!(groups.len(), 2);
    assert_eq!(groups[0].len(), 2);
    assert_eq!(groups[0][1].component, Some("c".to_string()));
    assert_eq!(groups[1][0].toolchain, "nightly");
}

#[test]
fn install_and_remove_commands() {
    let r = Rustup::new();
    let packages = vec![
        rp("toolchain", "stable"),
        rp("component", "nightly/rust-src"),
        rp("component", "stable/clippy"),
        rp("component", "nightly/miri"),
    ];
    let (install, error) = r.install_packages(&packages);
    assert!(error.is_none());
    assert_eq!(install.len(), 4);
    assert_eq!(install[0], vec!["rustup", "toolchain", "install", "stable"]);
    assert_eq!(install[1], vec!["rustup", "component", "add", "--toolchain", "nightly", "rust-src"]);
    assert_eq!(install[2], vec!["rustup", "component", "add", "--toolchain", "stable", "clippy"]);
    assert_eq!(install[3], vec!["rustup", "component", "add", "--toolchain", "nightly", "miri"]);
    let remove = r.remove_packages(&packages).unwrap();
    assert_eq!(remove.len(), 3);
    assert_eq!(remove[0], vec!["rustup", "toolchain", "uninstall", "stable"]);
    assert_eq!(remove[1], vec!["rustup", "component", "remove", "--toolchain", "nightly", "rust-src"]);
    assert_eq!(remove[2], vec!["rustup", "component", "remove", "--toolchain", "nightly", "miri"]);
}

#[test]
fn already_removed_toolchain() {
    let c = RustupPackage::new(Repotype::Component, "stable".to_string(), Some("a".to_string()));
    assert!(toolchain_of_component_was_already_removed(&["stable".to_string()], &c));
    assert!(!toolchain_of_component_was_already_removed(&["nightly".to_string()], &c));
}

#[test]
fn installed_packages_as_set() {
    let r = Rustup::new();
    let ps = r.get_all_installed_packages(&vec!["stable".to_string()], &vec!["stable/rustfmt".to_string()]);
    assert_eq!(ps.len(), 2);
    assert_eq!(ps[0].to_string(), "toolchain/stable");
    assert_eq!(ps[1].to_string(), "stable/rustfmt");
}

#[test]
fn package_ids() {
    let t = RustupPackageId::try_from("toolchain/stable").unwrap();
    assert_eq!(t.to_string(), "stable");
    let c = RustupPackageId::try_from("component/nightly/rust-src").unwrap();
    assert_eq!(c.to_string(), "nightly/rust-src");
    assert!(RustupPackageId::try_from("component/nightly").is_none());
    assert!(RustupPackageId::try_from("crate/x").is_none());
    assert!(RustupPackageId::try_from("toolchain").is_none());
}

#[test]
fn ids_from_queries_and_their_commands() {
    let ids = installed_ids(&vec!["stable".to_string()], &vec!["cargo\nclippy\n".to_string()]);
    assert_eq!(ids.len(), 3);
    assert!(matches!(&ids[0], RustupPackageId::Toolchain(t) if t == "stable"));
    let cmds = id_commands(&ids, true);
    assert_eq!(cmds[0], vec!["rustup", "toolchain", "install", "stable"]);
    assert!(matches!(&ids[1], RustupPackageId::Component(t, c) if t == "stable" && c == "cargo"));
    assert!(matches!(&ids[2], RustupPackageId::Component(t, c) if t == "stable" && c == "clippy"));
    assert_eq!(cmds[1], vec!["rustup", "component", "add", "cargo", "--toolchain", "stable"]);
    let cmds = id_commands(&ids, false);
    assert_eq!(cmds[2], vec!["rustup", "component", "remove", "clippy", "--toolchain", "stable"]);
}

#[test]
fn install_stops_at_the_first_bad_package() {
    let r = Rustup::new();
    let packages = vec![
        rp("toolchain", "stable"),
        rp("component", "nightly"),
        rp("component", "stable/clippy"),
    ];
    let (install, error) = r.install_packages(&packages);
    assert_eq!(install.len(), 1);
    assert_eq!(install[0], vec!["rustup", "toolchain", "install", "stable"]);
    assert!(matches!(error, Some(RustupError::MissingComponent)));
    let (install, error) = r.install_packages(&[rp("crate", "x"), rp("toolchain", "stable")]);
    assert!(install.is_empty());
    assert!(matches!(error, Some(RustupError::UnknownRepotype(_))));
}
