use pacdef::package::Package;

#[test]
fn split_into_name_and_repo() {
    let x = "repo/name".to_string();
    let (name, repo) = Package::split_into_name_and_repo(&x);
    assert_eq!(name, "name");
    assert_eq!(repo, Some("repo".to_string()));

    let x = "something".to_string();
    let (name, repo) = Package::split_into_name_and_repo(&x);
    assert_eq!(name, "something");
    assert_eq!(repo, None);
}

#[test]
fn from() {
    let x = "myrepo/somepackage  #  ".to_string();
    let p = Package::try_from(&x).unwrap();
    assert_eq!(p.name, "somepackage");
    assert_eq!(p.repo, Some("myrepo".to_string()));
}

#[test]
fn blank_and_comment_lines_declare_nothing() {
    assert!(Package::try_from("").is_none());
    assert!(Package::try_from("   ").is_none());
    assert!(Package::try_from("# only a comment").is_none());
}

#[test]
fn comment_is_ignored() {
    let a = Package::try_from("zsh # the shell").unwrap();
    let b = Package::try_from("zsh").unwrap();
    assert_eq!(a.name, b.name);
    assert_eq!(a.repo, b.repo);
}

#[test]
fn display_roundtrip() {
    let p = Package { name: "zsh-theme-powerlevel10k".to_string(), repo: Some("mycustomrepo".to_string()) };
    let text = p.to_string();
    assert_eq!(text, "mycustomrepo/zsh-theme-powerlevel10k");
    let q = Package::try_from(&text).unwrap();
    assert_eq!(q.name, p.name);
    assert_eq!(q.repo, p.repo);
}

#[test]
fn name_after_last_slash() {
    let (name, repo) = Package::split_into_name_and_repo("a/b/c");
    assert_eq!(name, "c");
    assert_eq!(repo, Some("b".to_string()));
}

#[test]
fn from_lines_is_a_set() {
    let lines = vec![
        "alacritty".to_string(),
        "firefox  # this comment is ignored".to_string(),
        "".to_string(),
        "alacritty".to_string(),
        "mycustomrepo/zsh-theme-powerlevel10k".to_string(),
    ];
    let ps = Package::from_lines(&lines);
    assert_eq!(ps.len(), 3);
    assert_eq!(ps[0].name, "alacritty");
    assert_eq!(ps[1].name, "firefox");
    assert_eq!(ps[2].repo, Some("mycustomrepo".to_string()));
}

#[test]
fn package_equality_ignores_missing_repo() {
    let a = Package { name: "zsh".to_string(), repo: None };
    let b = Package { name: "zsh".to_string(), repo: Some("extra".to_string()) };
    let c = Package { name: "zsh".to_string(), repo: Some("core".to_string()) };
    assert!(a.matches(&b));
    assert!(!b.matches(&c));
}

#[test]
fn plain_entries_show_as_written() {
    for entry in ["zsh", "extra/vim", "aur/paru-bin", "/zsh", "zsh/"] {
        let p = Package::try_from(entry).unwrap();
        assert_eq!(p.to_string(), entry);
    }
}
