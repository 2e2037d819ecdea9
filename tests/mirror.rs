use turbo::branch::{candidate_urls, github_raw_base, wants_body, BranchFetch, FetchAction, FetchEvent, MirrorError};
use turbo::config::{AurSource, Config};
use turbo::info::AurInfo;
use turbo::mirror::{MirrorBatch, MirrorStep};
use turbo::srcinfo::{RequiredField, SrcinfoError};

fn cfg_with(base: Option<&str>) -> Config {
    let mut c = Config::default();
    c.aur_mirror = "github".to_string();
    c.mirror_base = base.map(|b| b.to_string());
    c
}

fn get_url(a: &FetchAction) -> (String, u64) {
    match a {
        FetchAction::Get { url, delay_secs } => (url.clone(), *delay_secs),
        FetchAction::Done(_) => panic!("expected a request"),
    }
}

#[test]
fn mirror_fallback_urls() {
    let raw = github_raw_base(&cfg_with(Some("https://github.com/acme/aur"))).unwrap();
    assert_eq!(raw, "https://raw.githubusercontent.com/acme/aur");
    let (mut f, first) = BranchFetch::new(&raw, "foo");
    assert_eq!(get_url(&first), ("https://raw.githubusercontent.com/acme/aur/foo/.SRCINFO".to_string(), 0));
    let second = f.on_event(FetchEvent::Response { status: 404, body: None });
    assert_eq!(get_url(&second).0, "https://raw.githubusercontent.com/acme/aur/master/foo/.SRCINFO");
    let third = f.on_event(FetchEvent::Response { status: 404, body: None });
    assert_eq!(get_url(&third).0, "https://raw.githubusercontent.com/acme/aur/main/foo/.SRCINFO");
    let body = "pkgbase = foo\npkgver = 1\npkgrel = 2\n".to_string();
    match f.on_event(FetchEvent::Response { status: 200, body: Some(body) }) {
        FetchAction::Done(Ok(v)) => {
            assert_eq!(v.len(), 1);
            assert_eq!(v[0].name, "foo");
            assert_eq!(v[0].version, "1-2");
        }
        _ => panic!("expected records"),
    }
}

#[test]
fn all_not_found_means_no_records() {
    let (mut f, _) = BranchFetch::new("https://raw.githubusercontent.com/o/r", "b");
    f.on_event(FetchEvent::Response { status: 404, body: None });
    f.on_event(FetchEvent::Response { status: 404, body: None });
    match f.on_event(FetchEvent::Response { status: 404, body: None }) {
        FetchAction::Done(Ok(v)) => assert!(v.is_empty()),
        _ => panic!("expected an empty result"),
    }
}

#[test]
fn error_status_is_fatal() {
    let (mut f, _) = BranchFetch::new("https://raw.githubusercontent.com/o/r", "b");
    match f.on_event(FetchEvent::Response { status: 500, body: None }) {
        FetchAction::Done(Err(MirrorError::Network(u))) => assert_eq!(u, "https://raw.githubusercontent.com/o/r/b/.SRCINFO"),
        _ => panic!("expected a network error"),
    }
}

#[test]
fn timeouts_retry_then_fail() {
    let (mut f, _) = BranchFetch::new("https://raw.githubusercontent.com/o/r", "b");
    let a = f.on_event(FetchEvent::Timeout);
    assert_eq!(get_url(&a), ("https://raw.githubusercontent.com/o/r/b/.SRCINFO".to_string(), 2));
    let b = f.on_event(FetchEvent::Timeout);
    assert_eq!(get_url(&b).1, 2);
    assert!(matches!(f.on_event(FetchEvent::Timeout), FetchAction::Done(Err(MirrorError::Network(_)))));
}

#[test]
fn other_transport_failure_is_fatal() {
    let (mut f, _) = BranchFetch::new("https://raw.githubusercontent.com/o/r", "b");
    assert!(matches!(f.on_event(FetchEvent::Failed), FetchAction::Done(Err(MirrorError::Network(_)))));
}

#[test]
fn unparsable_srcinfo_is_fatal() {
    let (mut f, _) = BranchFetch::new("https://raw.githubusercontent.com/o/r", "b");
    match f.on_event(FetchEvent::Response { status: 200, body: Some("pkgbase = b\npkgver = 1\n".to_string()) }) {
        FetchAction::Done(Err(MirrorError::Parse(b, e))) => {
            assert_eq!(b, "b");
            assert_eq!(e, SrcinfoError::MissingField(RequiredField::Pkgrel));
        }
        _ => panic!("expected a parse error"),
    }
}

#[test]
fn success_without_body_is_fatal() {
    let (mut f, _) = BranchFetch::new("https://raw.githubusercontent.com/o/r", "b");
    assert!(matches!(
        f.on_event(FetchEvent::Response { status: 204, body: None }),
        FetchAction::Done(Err(MirrorError::Network(_)))
    ));
    assert!(wants_body(200));
    assert!(!wants_body(404));
    assert!(!wants_body(301));
}

#[test]
fn raw_base_forms() {
    let raw = |b: Option<&str>| github_raw_base(&cfg_with(b)).ok();
    let want = Some("https://raw.githubusercontent.com/acme/aur".to_string());
    assert_eq!(raw(Some("https://github.com/acme/aur")), want);
    assert_eq!(raw(Some("  https://github.com/acme/aur.git/ ")), want);
    assert_eq!(raw(Some("http://github.com/acme/aur//")), want);
    assert_eq!(raw(Some("git@github.com:acme/aur.git")), want);
    assert_eq!(raw(Some("ssh://git@github.com/acme/aur")), want);
    assert_eq!(raw(None), Some("https://raw.githubusercontent.com/archlinux/aur".to_string()));
}

#[test]
fn unsupported_base_is_a_configuration_error() {
    match github_raw_base(&cfg_with(Some("https://gitlab.com/acme/aur"))) {
        Err(MirrorError::UnsupportedBase(b)) => assert_eq!(b, "https://gitlab.com/acme/aur"),
        _ => panic!("expected a configuration error"),
    }
}

#[test]
fn candidate_urls_in_order() {
    assert_eq!(
        candidate_urls("R", "p"),
        vec!["R/p/.SRCINFO".to_string(), "R/master/p/.SRCINFO".to_string(), "R/main/p/.SRCINFO".to_string()]
    );
}

#[test]
fn source_selection() {
    let mut c = Config::default();
    assert_eq!(AurSource::from_cfg(&c), AurSource::Official);
    c.aur_mirror = "GitHub".to_string();
    assert_eq!(AurSource::from_cfg(&c), AurSource::Github);
    c.aur_mirror = "github-AUR".to_string();
    assert_eq!(AurSource::from_cfg(&c), AurSource::Github);
    c.aur_mirror = "gitlab".to_string();
    assert_eq!(AurSource::from_cfg(&c), AurSource::Official);
}

#[test]
fn default_config_values() {
    let c = Config::default();
    assert_eq!(c.editor, "nvim");
    assert_eq!(c.file_manager, "nnn");
    assert_eq!(c.root_dir_name, "turbo");
    assert_eq!(c.aur_mirror, "aur");
    assert_eq!(c.mirror_base, None);
    assert!(!c.noconfirm);
}

fn rec(name: &str, base: &str) -> AurInfo {
    AurInfo {
        name: name.to_string(),
        pkgbase: base.to_string(),
        version: "1-1".to_string(),
        depends: None,
        makedepends: None,
        checkdepends: None,
    }
}

fn fetch_list(step: MirrorStep) -> Vec<String> {
    match step {
        MirrorStep::Fetch(b) => b,
        MirrorStep::Done(_) => panic!("expected branches to fetch"),
    }
}

#[test]
fn mirror_batch_split_packages_and_misses() {
    let mut m = MirrorBatch::new(&vec!["lib-a".to_string(), "b".to_string(), "b".to_string()]);
    assert_eq!(fetch_list(m.step()), vec!["lib-a".to_string(), "b".to_string()]);
    m.absorb(&vec![("lib-a".to_string(), vec![rec("lib-a", "lib-a"), rec("lib-a-docs", "lib-a")]), ("b".to_string(), vec![])]);
    // "b" missed once and was queued again; its branch is cached, so nothing is fetched.
    assert_eq!(fetch_list(m.step()), Vec::<String>::new());
    m.absorb(&vec![]);
    match m.step() {
        MirrorStep::Done(found) => {
            assert_eq!(found.len(), 1);
            assert_eq!(found[0].name, "lib-a");
        }
        MirrorStep::Fetch(_) => panic!("expected the lookup to end"),
    }
}

#[test]
fn mirror_batch_uses_known_owner_branch() {
    let mut m = MirrorBatch::new(&vec!["lib-a".to_string()]);
    assert_eq!(fetch_list(m.step()), vec!["lib-a".to_string()]);
    m.absorb(&vec![("lib-a".to_string(), vec![rec("lib-a", "lib-a"), rec("lib-a-docs", "lib-a")])]);
    match m.step() {
        MirrorStep::Done(found) => assert_eq!(found.len(), 1),
        MirrorStep::Fetch(_) => panic!("expected the lookup to end"),
    }
}

#[test]
fn mirror_batch_of_nothing_is_done() {
    let mut m = MirrorBatch::new(&vec![]);
    assert!(matches!(m.step(), MirrorStep::Done(v) if v.is_empty()));
}
