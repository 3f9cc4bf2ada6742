use pacdef::backend::arch::Arch;
use pacdef::backend::rust::Rust;
use pacdef::backend::todo::{section_header, to_hashmap, ToDoPerBackend};
use pacdef::backend::{get_included_backends, get_missing_packages_sorted, get_unmanaged_packages_sorted, Backends};
use pacdef::group::{find_first_package_line_in_section, Group, SectionEditError};
use pacdef::package::Package;

fn pkg(name: &str) -> Package {
    Package { name: name.to_string(), repo: None }
}

fn names(v: &[Package]) -> Vec<String> {
    v.iter().map(|p| p.name.clone()).collect()
}

fn readme_groups() -> Vec<Group> {
    let files = vec![
        (
            "/g/base".to_string(),
            "[arch]\nparu\nzsh\n\n[rust]\npacdef\ntopgrade\n".to_string(),
        ),
        (
            "/g/development".to_string(),
            "[arch]\nrustup\nrust-analyzer\n\n[rust]\ncargo-tree\nflamegraph\n".to_string(),
        ),
    ];
    Group::load_from_dir("/g", &files)
}

#[test]
fn managed_packages_of_the_readme_example() {
    let groups = readme_groups();
    let mut arch = Arch::new();
    arch.load(&groups);
    assert_eq!(names(&arch.packages), vec!["paru", "zsh", "rustup", "rust-analyzer"]);
    let mut rust = Rust::new();
    rust.load(&groups);
    assert_eq!(names(&rust.packages), vec!["pacdef", "topgrade", "cargo-tree", "flamegraph"]);
}

#[test]
fn missing_and_unmanaged_are_sorted_differences() {
    let managed = vec![pkg("zsh"), pkg("paru"), pkg("neovim")];
    let installed = vec![pkg("paru"), pkg("bash"), pkg("acpi")];
    assert_eq!(names(&get_missing_packages_sorted(&managed, &installed)), vec!["neovim", "zsh"]);
    assert_eq!(names(&get_unmanaged_packages_sorted(&installed, &managed)), vec!["acpi", "bash"]);
}

#[test]
fn nothing_missing_when_all_installed() {
    let managed = vec![pkg("zsh"), pkg("paru")];
    let installed = vec![pkg("paru"), pkg("zsh"), pkg("bash")];
    assert!(get_missing_packages_sorted(&managed, &installed).is_empty());
}

#[test]
fn arch_commands() {
    let mut arch = Arch::new();
    arch.aur_rm_args = Some(vec!["--noconfirm".to_string()]);
    let cmd = arch.remove_packages(&[pkg("zsh")]);
    assert_eq!(cmd, vec!["pacman", "--remove", "--recursive", "--noconfirm", "zsh"]);
    let cmd = arch.install_packages(&[pkg("zsh"), pkg("paru")]);
    assert_eq!(cmd, vec!["pacman", "--sync", "zsh", "paru"]);
}

#[test]
fn included_backends_sorted() {
    assert_eq!(get_included_backends(), vec!["arch", "debian", "python", "rust"]);
    assert_eq!(Backends::iter().len(), 4);
    assert_eq!(Backends::Rust.get_section(), "rust");
    assert!(Backends::Rust.next().is_none());
}

#[test]
fn packages_gathered_per_group_and_sorted() {
    let to_assign = vec![(pkg("zsh"), 1), (pkg("acpi"), 0), (pkg("bash"), 1)];
    let map = to_hashmap(to_assign);
    assert_eq!(map.len(), 2);
    assert_eq!(map[0].0, 1);
    assert_eq!(names(&map[0].1), vec!["bash", "zsh"]);
    assert_eq!(map[1].0, 0);
    assert_eq!(names(&map[1].1), vec!["acpi"]);
    assert_eq!(section_header("arch"), "[arch]");
}

#[test]
fn todo_shown_per_backend() {
    let mut todo = ToDoPerBackend::new();
    todo.push(("arch".to_string(), vec![pkg("zsh"), pkg("paru")]));
    todo.push(("rust".to_string(), vec![]));
    assert!(!todo.nothing_to_do_for_all_backends());
    assert_eq!(todo.show(Some("install")), "Would install the following packages:\n[arch]\nzsh\nparu\n");
    assert_eq!(todo.show(None), "[arch]\nzsh\nparu\n");
    let empty = ToDoPerBackend::new();
    assert!(empty.is_empty());
}

#[test]
fn group_file_gets_new_packages() {
    let groups = readme_groups();
    let content = "[arch]\nparu\nzsh\n";
    let out = groups[0].save_packages(content, "[arch]", &[pkg("neovim")]).unwrap();
    assert_eq!(out, "[arch]\nneovim\nparu\nzsh\n");
    let out = groups[0].save_packages(content, "[rust]", &[pkg("topgrade")]).unwrap();
    assert_eq!(out, "[arch]\nparu\nzsh\n\n[rust]\ntopgrade\n");
}

#[test]
fn added_packages_read_back() {
    let groups = readme_groups();
    let content = "[arch]\nparu\n\n[rust]\npacdef\n";
    let out = groups[0].save_packages(content, "[rust]", &[pkg("topgrade")]).unwrap();
    let sections = pacdef::group::parse_group_sections(&out);
    let rust = sections.iter().find(|s| s.name == "rust").unwrap();
    assert!(rust.packages.iter().any(|p| p.name == "topgrade"));
    let out = groups[0].save_packages(content, "[python]", &[pkg("black")]).unwrap();
    let sections = pacdef::group::parse_group_sections(&out);
    let python = sections.iter().find(|s| s.name == "python").unwrap();
    assert_eq!(python.packages.len(), 1);
    assert_eq!(python.packages[0].name, "black");
}

#[test]
fn group_shown_with_sections_by_name() {
    let files = vec![("/g/base".to_string(), "[rust]\npacdef\n[arch]\nparu\nzsh\n".to_string())];
    let groups = Group::load_from_dir("/g", &files);
    assert_eq!(groups[0].to_string(), "[arch]\nparu\nzsh\n\n[rust]\npacdef");
    assert_eq!(groups[0].sections[0].to_string(), "[rust]\npacdef");
}

#[test]
fn section_edit_errors() {
    assert_eq!(find_first_package_line_in_section("[arch]\nzsh\n", "[arch]"), Ok(7));
    assert_eq!(find_first_package_line_in_section("[arch]\nzsh\n", "[rust]"), Err(SectionEditError::HeaderNotFound));
    assert_eq!(find_first_package_line_in_section("zsh\n[arch]", "[arch]"), Err(SectionEditError::NoNewlineAfterHeader));
    let groups = readme_groups();
    assert_eq!(groups[0].save_packages("[arch]", "[arch]", &[pkg("zsh")]), Err(SectionEditError::NoNewlineAfterHeader));
}

#[test]
fn pip_json_output_to_packages() {
    let ps = pacdef::backend::python::packages_of_pip_output(
        r#"[{"name": "black", "version": "23.1"}, {"name": "mypy", "version": "1.0"}, {"name": "black", "version": "23.1"}]"#,
    )
    .unwrap();
    let names: Vec<String> = ps.iter().map(|p| p.to_string()).collect();
    assert_eq!(names, vec!["black", "mypy"]);
    assert!(pacdef::backend::python::packages_of_pip_output("[]").unwrap().is_empty());
    assert!(pacdef::backend::python::packages_of_pip_output("not json").is_none());
    assert!(pacdef::backend::python::packages_of_pip_output(r#"{"name": "black"}"#).is_none());
    assert!(pacdef::backend::python::packages_of_pip_output(r#"[{"name": 3}]"#).is_none());
}

#[test]
fn pip_json_names_as_sorted_set() {
    let names = pacdef::backend::pip::extract_package_names(r#"[{"name": "mypy"}, {"name": "black"}, {"name": "mypy"}]"#)
        .unwrap();
    assert_eq!(names, vec!["black", "mypy"]);
    assert!(pacdef::backend::pip::extract_package_names("").is_none());
}

#[test]
fn crates_file_to_packages() {
    let text = r#"{"installs": {"ripgrep 13.0.0 (registry+https://github.com/rust-lang/crates.io-index)": {"bins": ["rg"]}, "cargo-edit 0.11.0 (registry+https://github.com/rust-lang/crates.io-index)": {}}}"#;
    let ps = pacdef::backend::rust::crates_of_file(text).unwrap();
    let mut names: Vec<String> = ps.iter().map(|p| p.to_string()).collect();
    names.sort();
    assert_eq!(names, vec!["cargo-edit", "ripgrep"]);
    assert!(pacdef::backend::rust::crates_of_file(r#"{"installs": {}}"#).unwrap().is_empty());
    assert!(pacdef::backend::rust::crates_of_file(r#"{"v1": {}}"#).is_none());
    assert!(pacdef::backend::rust::crates_of_file(r#"{"installs": []}"#).is_none());
    assert!(pacdef::backend::rust::crates_of_file(r#"{"installs": {"  ": {}}}"#).is_none());
    assert!(pacdef::backend::rust::crates_of_file("{").is_none());
}

#[test]
fn group_file_warnings() {
    assert_eq!(pacdef::group::unreadable_sections("[arch]\nzsh\n\n[rust]\nripgrep\n"), 0);
    assert_eq!(pacdef::group::unreadable_sections("zsh\nvim\n"), 1);
    assert_eq!(pacdef::group::unreadable_sections(""), 0);
    assert_eq!(pacdef::group::unreadable_sections("# only a comment\n[arch]\nzsh\n"), 0);
    assert!(pacdef::group::parse_group_sections("zsh\nvim\n").is_empty());
    assert_eq!(pacdef::group::parse_group_sections("[arch]\nzsh\n").len(), 1);
}

#[test]
fn search_matches_package_text() {
    let files = vec![
        ("/g/base".to_string(), "[arch]\nzsh\nextra/vim\n[rust]\nripgrep\n".to_string()),
        ("/g/dev".to_string(), "[arch]\nneovim\n".to_string()),
    ];
    let groups = Group::load_from_dir("/g", &files);
    let hits = pacdef::search::search_packages("vim", &groups).unwrap();
    let found: Vec<String> =
        hits.iter().map(|h| format!("{}/{}/{}", h.group, h.section, h.package.to_string())).collect();
    assert_eq!(found, vec!["base/arch/extra/vim", "dev/arch/neovim"]);
    let hits = pacdef::search::search_packages("^extra/", &groups).unwrap();
    assert_eq!(hits.len(), 1);
    assert!(matches!(
        pacdef::search::search_packages("emacs", &groups),
        Err(pacdef::search::SearchError::NoPackagesFound)
    ));
    assert!(matches!(
        pacdef::search::search_packages("(", &groups),
        Err(pacdef::search::SearchError::InvalidRegex)
    ));
    assert!(matches!(
        pacdef::search::search_packages("(", &vec![]),
        Err(pacdef::search::SearchError::InvalidRegex)
    ));
}
