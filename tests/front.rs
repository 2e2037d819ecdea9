use turbo::cli::{
    classify_sync_targets, normalize_tag, pacman_u_args, parse_conf, parse_foreign_list,
    parse_selection, parse_upgrade_list, shell_escape, split_lines, split_repo_notation,
};
use turbo::config::AurSource;
use turbo::info::AurInfo;
use turbo::resolve::pkgbases_in_order;
use turbo::rpc::{rpc_info_url, unique_names};
use turbo::style::{aur_badge, badge, bullet, error_icon, github_aur_mirror_badge, github_badge, info_icon, pacman_badge, success, success_icon, warn_icon};
use turbo::updates::{select_upgrades, upgrade_pairs, Pickable};

fn s(v: &[&str]) -> Vec<String> {
    v.iter().map(|x| x.to_string()).collect()
}

#[test]
fn rpc_url_for_names() {
    assert_eq!(rpc_info_url(&vec![]), None);
    assert_eq!(
        rpc_info_url(&s(&["foo", "a b+c"])).unwrap(),
        "https://aur.archlinux.org/rpc/?v=5&type=info&arg[]=foo&arg[]=a%20b%2Bc"
    );
}

#[test]
fn unique_names_keep_first_occurrences() {
    assert_eq!(unique_names(&s(&["b", "a", "b", "c", "a"])), s(&["b", "a", "c"]));
    assert_eq!(unique_names(&vec![]), Vec::<String>::new());
}

#[test]
fn normalize_tag_drops_leading_v() {
    assert_eq!(normalize_tag("v1.2.0"), "1.2.0");
    assert_eq!(normalize_tag("vv3"), "3");
    assert_eq!(normalize_tag("1.0"), "1.0");
}

#[test]
fn repo_notation_split() {
    assert_eq!(split_repo_notation("aur/foo"), Some(("aur", "foo")));
    assert_eq!(split_repo_notation("extra/a/b"), Some(("extra", "a/b")));
    assert_eq!(split_repo_notation("foo"), None);
    assert_eq!(split_repo_notation("/foo"), None);
    assert_eq!(split_repo_notation("foo/"), None);
    assert_eq!(split_repo_notation("-S/x"), None);
}

#[test]
fn shell_escape_quotes() {
    assert_eq!(shell_escape("abc"), "'abc'");
    assert_eq!(shell_escape("it's"), "'it'\\''s'");
    assert_eq!(shell_escape(""), "''");
}

#[test]
fn classify_targets() {
    let t = classify_sync_targets(&s(&["--needed", "aur/foo", "GitHub-AUR/bar", "extra/vim", "baz"]));
    assert_eq!(t.repo, s(&["--needed", "extra/vim"]));
    assert_eq!(t.undecided, s(&["baz"]));
    assert_eq!(t.aur.len(), 2);
    assert_eq!(t.aur[0].name, "foo");
    assert_eq!(t.aur[0].display, "aur/foo");
    assert_eq!(t.aur[0].source, AurSource::Official);
    assert_eq!(t.aur[1].name, "bar");
    assert_eq!(t.aur[1].source, AurSource::Github);
}

#[test]
fn lines_are_split_like_str_lines() {
    assert_eq!(split_lines("a\nb\r\n\nc"), s(&["a", "b", "", "c"]));
    assert_eq!(split_lines("a\n"), s(&["a"]));
    assert_eq!(split_lines(""), Vec::<String>::new());
}

#[test]
fn foreign_list_parsing() {
    let out = "yay 12.3-1\nbroken\nparu 2.0-1\n";
    assert_eq!(
        parse_foreign_list(out),
        vec![("yay".to_string(), "12.3-1".to_string()), ("paru".to_string(), "2.0-1".to_string())]
    );
}

#[test]
fn upgrade_list_parsing() {
    let out = "linux 6.1-1 -> 6.2-1\n\n  vim 9.0-1 ->  9.1-1 \nnoise\n";
    assert_eq!(
        parse_upgrade_list(out),
        vec![
            ("linux".to_string(), "6.1-1".to_string(), "6.2-1".to_string()),
            ("vim".to_string(), "9.0-1".to_string(), "9.1-1".to_string()),
        ]
    );
}

#[test]
fn conf_parsing() {
    let text = "# comment\neditor = vim\n\nbad line\nmirror=GitHub\n";
    assert_eq!(
        parse_conf(text),
        vec![("editor".to_string(), "vim".to_string()), ("mirror".to_string(), "GitHub".to_string())]
    );
}

#[test]
fn selection_parsing() {
    assert_eq!(parse_selection("\n", 3), vec![1, 2, 3]);
    assert_eq!(parse_selection("1 3\n", 3), vec![1, 3]);
    assert_eq!(parse_selection("2,1", 3), vec![2, 1]);
    assert_eq!(parse_selection("1 x +2", 3), vec![1, 2]);
    assert_eq!(parse_selection("1 4", 3), Vec::<usize>::new());
    assert_eq!(parse_selection("0", 3), Vec::<usize>::new());
    assert_eq!(parse_selection("99999999999999999999999 1", 3), vec![1]);
}

#[test]
fn pacman_install_arguments() {
    assert_eq!(pacman_u_args(&s(&["a.zst"]), false), s(&["-U", "a.zst"]));
    assert_eq!(pacman_u_args(&s(&["a.zst", "b.zst"]), true), s(&["-U", "--noconfirm", "a.zst", "b.zst"]));
}

fn rec(name: &str, base: &str, version: &str) -> AurInfo {
    AurInfo {
        name: name.to_string(),
        pkgbase: base.to_string(),
        version: version.to_string(),
        depends: None,
        makedepends: None,
        checkdepends: None,
    }
}

#[test]
fn pkgbases_follow_first_output() {
    let recs = vec![rec("lib-a", "a", "1"), rec("b", "b", "1"), rec("lib-a-docs", "a", "1")];
    assert_eq!(pkgbases_in_order(&s(&["b", "lib-a-docs", "lib-a", "missing"]), &recs), s(&["b", "a"]));
}

#[test]
fn upgrade_candidates() {
    let installed = vec![
        ("a".to_string(), "1-1".to_string()),
        ("b".to_string(), "2-1".to_string()),
        ("gone".to_string(), "1-1".to_string()),
    ];
    let latest = vec![rec("a", "a", "1-2"), rec("b", "b", "2-1")];
    let pairs = upgrade_pairs(&installed, &latest);
    assert_eq!(pairs.len(), 2);
    assert_eq!((pairs[0].name.as_str(), pairs[0].current.as_str(), pairs[0].latest.as_str()), ("a", "1-1", "1-2"));
    let chosen: Vec<Pickable> = select_upgrades(&pairs, &vec![Some(-1), Some(0)]);
    assert_eq!(chosen.len(), 1);
    assert_eq!(chosen[0].name, "a");
    assert!(select_upgrades(&pairs, &vec![None, Some(1)]).is_empty());
}

#[test]
fn icons_and_badges_hold_their_text() {
    assert!(success_icon().contains('✔'));
    assert!(error_icon().contains('✘'));
    assert!(warn_icon().contains('⚠'));
    assert!(info_icon().contains('ℹ'));
    assert!(bullet().contains('•'));
    assert!(aur_badge().contains("[AUR]"));
    assert!(github_badge().contains("[GITHUB]"));
    assert!(github_aur_mirror_badge().contains("[GITHUB-AUR]"));
    assert!(pacman_badge().contains("[PACMAN]"));
    assert!(badge("X", success()).contains("[X]"));
}
