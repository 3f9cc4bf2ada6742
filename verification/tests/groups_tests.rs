use pacdef::groups::{parse_group, Groups, ParseGroupError};
use pacdef::packages::{AnyBackend, PackagesInstall};
use pacdef::backend::pip::Pip;
use pacdef::backend::xbps::Xbps;
use pacdef::backend::pacman::{convert_to_pacdef_packages, Pacman};

#[test]
fn group_file_read_per_backend() {
    let content = "# my group\n[Arch]\nzsh # shell\nparu\n\n[Pip]\nblack\n[Rustup]\ntoolchain/stable\n[Unknown]\n";
    let p = parse_group(content).unwrap();
    assert_eq!(p.arch, vec!["paru", "zsh"]);
    assert_eq!(p.pip, vec!["black"]);
    assert_eq!(p.rustup.len(), 1);
    assert!(p.cargo.is_empty());
}

#[test]
fn group_file_errors() {
    assert!(matches!(parse_group("[Arch\nzsh\n"), Err(ParseGroupError::InvalidBackend(l)) if l == "[Arch"));
    assert!(matches!(parse_group("zsh\n"), Err(ParseGroupError::UnknownSection(l, 0)) if l == "zsh"));
    assert!(matches!(parse_group("[Nope]\nzsh\n"), Err(ParseGroupError::UnknownSection(l, 1)) if l == "zsh"));
    assert!(matches!(parse_group("[Rustup]\nstable\n"), Err(ParseGroupError::InvalidPackage(p)) if p == "stable"));
}

#[test]
fn backends_by_name() {
    assert_eq!(AnyBackend::from_str("Xbps"), Some(AnyBackend::Xbps));
    assert_eq!(AnyBackend::from_str("xbps"), None);
    assert_eq!(AnyBackend::Pipx.name(), "Pipx");
}

#[test]
fn groups_loaded_and_joined() {
    let files = vec![
        ("/g/b".to_string(), "[Arch]\nzsh\n".to_string()),
        ("/g/sub/a".to_string(), "[Arch]\nparu\nzsh\n".to_string()),
    ];
    let groups = Groups::load("/g", &files).unwrap();
    assert_eq!(groups.entries.len(), 2);
    assert_eq!(groups.entries[0].0, "b");
    assert_eq!(groups.entries[1].0, "sub/a");
    let all = groups.to_packages_install();
    assert_eq!(all.arch, vec!["paru", "zsh"]);
    let bad = vec![("/g/c".to_string(), "zsh\n".to_string())];
    match Groups::load("/g", &bad) {
        Err((path, ParseGroupError::UnknownSection(_, 0))) => assert_eq!(path, "/g/c"),
        _ => panic!("expected an error"),
    }
}

#[test]
fn packages_joined() {
    let mut a = PackagesInstall::new();
    assert!(a.is_empty());
    assert!(a.insert_backend_package(AnyBackend::Xbps, "vim".to_string()));
    assert!(!a.insert_backend_package(AnyBackend::Rustup, "nothing".to_string()));
    let mut b = PackagesInstall::new();
    assert!(b.insert_backend_package(AnyBackend::Xbps, "git".to_string()));
    assert!(b.insert_backend_package(AnyBackend::Xbps, "vim".to_string()));
    a.append(&b);
    assert_eq!(a.xbps, vec!["git", "vim"]);
    let mut g = Groups::new();
    g.insert("x".to_string(), a);
    g.insert("x".to_string(), PackagesInstall::new());
    assert_eq!(g.entries.len(), 1);
    assert!(g.entries[0].1.is_empty());
}

#[test]
fn pip_query_and_commands() {
    let all = vec!["requests".to_string(), "black".to_string(), "idna".to_string()];
    let implicit = vec!["black".to_string()];
    let q = Pip::query_installed_packages(&all, &implicit);
    assert_eq!(q.len(), 3);
    assert_eq!(q[0].0, "black");
    assert!(!q[0].1.explicit);
    assert!(q[1].1.explicit);
    assert_eq!(Pip::install_packages(&vec!["x".to_string()]), vec!["pip", "install", "x"]);
    assert_eq!(Pip::remove_packages(&vec!["x".to_string()]), vec!["pip", "uninstall", "x"]);
}

#[test]
fn xbps_query_uses_patterns() {
    let out = "ii vim-9.0_1 Vi improved\nii git-2.40.0_1 the fast version control\n";
    let names = Xbps::query_installed_packages(out).unwrap();
    assert_eq!(names, vec!["git", "vim"]);
    assert_eq!(Xbps::install_packages(&vec!["vim".to_string()], true), vec!["xbps-install", "-S", "-y", "vim"]);
    assert_eq!(Xbps::remove_packages(&vec!["vim".to_string()], false), vec!["xbps-remove", "-R", "vim"]);
    assert_eq!(Xbps::modify_packages(&vec!["vim".to_string()]), vec!["xbps-pkgdb", "-m", "auto", "vim"]);
}

#[test]
fn pacman_names_to_packages() {
    let ps = convert_to_pacdef_packages(&vec!["zsh".to_string(), "zsh".to_string(), "extra/vim".to_string()]);
    assert_eq!(ps.len(), 2);
    assert!(Pacman::new().packages.is_empty());
}

#[test]
fn pacman_reads_the_arch_section() {
    let mut p = Pacman::new();
    assert_eq!(p.get_section(), "arch");
    assert_eq!(p.get_binary(), "paru");
    assert_eq!(p.get_switches_install(), &["-S"]);
    assert_eq!(p.get_switches_remove(), &["-Rsn"]);
    p.load(&vec![]);
    assert!(p.packages.is_empty());
}

#[test]
fn load_names_the_first_bad_file() {
    let files = vec![
        ("/g/a".to_string(), "[Arch]\nzsh\n".to_string()),
        ("/g/b".to_string(), "vim\n".to_string()),
        ("/g/c".to_string(), "[Nope]\nx\n".to_string()),
    ];
    match Groups::load("/g", &files) {
        Err((path, ParseGroupError::UnknownSection(_, 0))) => assert_eq!(path, "/g/b"),
        _ => panic!("expected an error for the second file"),
    }
}
