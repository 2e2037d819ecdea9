//! Fetching one branch's SRCINFO from the raw-file mirror.
//!
//! A [`BranchFetch`] decides, request by request, which URL to ask for next,
//! whether to retry after a timeout, and what the branch held. Its caller
//! performs the requests and reports what happened.

use crate::config::Config;
use crate::info::{infos_view, strs, AurInfo};
use crate::srcinfo::{parse_srcinfo, srcinfo_result, SrcinfoError};
use crate::text::{chars_of, has_prefix, range_is, range_starts_with, trim, trim_bounds};
use vstd::prelude::*;
use vstd::string::StrSliceExecFns;
use vstd::string::StringExecFns;

verus! {

/// Seconds that one request may take.
pub const SRCINFO_TIMEOUT_SECS: u64 = 45;

/// Attempts per URL when requests time out.
pub const SRCINFO_MAX_ATTEMPTS: usize = 3;

/// Seconds to wait before retrying after a timeout.
pub const SRCINFO_RETRY_DELAY_SECS: u64 = 2;

/// Why a mirror lookup failed.
#[derive(Debug)]
pub enum MirrorError {
    /// The configured mirror base is not a github.com repository.
    UnsupportedBase(String),
    /// The request for this URL failed or was answered with an error status.
    Network(String),
    /// The SRCINFO of this branch could not be parsed.
    Parse(String, SrcinfoError),
}

/// Mirror used when none is configured.
pub const DEFAULT_MIRROR_BASE: &'static str = "https://github.com/archlinux/aur";

/// Host that serves raw files of github.com repositories.
pub const RAW_HOST: &'static str = "https://raw.githubusercontent.com/";

/// End of `s` once trailing `/` characters are dropped.
pub open spec fn slash_end(s: Seq<char>, j: int) -> int
    decreases j,
{
    if 0 < j <= s.len() && s[j - 1] == '/' {
        slash_end(s, j - 1)
    } else {
        j
    }
}

/// `s` ends with `p`.
pub open spec fn has_suffix(s: Seq<char>, p: Seq<char>) -> bool {
    p.len() <= s.len() && s.subrange(s.len() - p.len(), s.len() as int) == p
}

/// A mirror base with white space, trailing slashes and one `.git` suffix removed.
pub open spec fn normalized_base(base: Seq<char>) -> Seq<char> {
    let t = trim(base);
    let u = t.subrange(0, slash_end(t, t.len() as int));
    if has_suffix(u, ".git"@) {
        u.subrange(0, u.len() - 4)
    } else {
        u
    }
}

/// The raw-file base for a repository path that follows prefix `p` in `u`.
pub open spec fn raw_after(u: Seq<char>, p: Seq<char>) -> Seq<char> {
    RAW_HOST@ + u.subrange(p.len() as int, u.len() as int)
}

/// The raw-file base of a mirror repository: the owner/repository path under
/// the raw host, or `None` for an address that is not github.com's.
pub open spec fn raw_base_of(base: Seq<char>) -> Option<Seq<char>> {
    let u = normalized_base(base);
    if has_prefix(u, "https://github.com/"@) {
        Some(raw_after(u, "https://github.com/"@))
    } else if has_prefix(u, "http://github.com/"@) {
        Some(raw_after(u, "http://github.com/"@))
    } else if has_prefix(u, "git@github.com:"@) {
        Some(raw_after(u, "git@github.com:"@))
    } else if has_prefix(u, "ssh://git@github.com/"@) {
        Some(raw_after(u, "ssh://git@github.com/"@))
    } else {
        None
    }
}

/// The mirror base that the settings select.
pub open spec fn configured_base(cfg: Config) -> Seq<char> {
    match cfg.mirror_base {
        Some(b) => b@,
        None => DEFAULT_MIRROR_BASE@,
    }
}

/// Bounds of the normalized form of `cs`.
fn normalized_bounds(cs: &Vec<char>) -> (r: (usize, usize))
    ensures
        r.0 <= r.1 <= cs.len(),
        cs@.subrange(r.0 as int, r.1 as int) == normalized_base(cs@),
{
    let (a, b0) = trim_bounds(cs, 0, cs.len());
    let ghost t = cs@.subrange(a as int, b0 as int);
    assert(cs@.subrange(0, cs.len() as int) =~= cs@);
    let mut e: usize = b0;
    while e > a && cs[e - 1] == '/'
        invariant
            a <= e <= b0 <= cs.len(),
            t == cs@.subrange(a as int, b0 as int),
            slash_end(t, e - a) == slash_end(t, t.len() as int),
        decreases e,
    {
        e -= 1;
    }
    let ghost u0 = t.subrange(0, e - a);
    assert(u0 =~= cs@.subrange(a as int, e as int));
    proof {
        reveal_strlit(".git");
    }
    if e - a >= 4 && range_is(cs, e - 4, e, ".git") {
        assert(u0.subrange(u0.len() - 4, u0.len() as int) =~= cs@.subrange(e - 4, e as int));
        assert(u0.subrange(0, u0.len() - 4) =~= cs@.subrange(a as int, e - 4));
        (a, e - 4)
    } else {
        assert(e - a >= 4 ==> u0.subrange(u0.len() - 4, u0.len() as int) =~= cs@.subrange(e - 4, e as int));
        (a, e)
    }
}

/// The raw-file base when `base[a..e]` starts with `p`.
fn raw_after_prefix(base: &str, cs: &Vec<char>, a: usize, e: usize, p: &str) -> (r: Option<String>)
    requires
        cs@ == base@,
        a <= e <= cs.len(),
    ensures
        match r {
            Some(s) => has_prefix(cs@.subrange(a as int, e as int), p@) && s@ == raw_after(cs@.subrange(a as int, e as int), p@),
            None => !has_prefix(cs@.subrange(a as int, e as int), p@),
        },
{
    if range_starts_with(cs, a, e, p) {
        let n = p.unicode_len();
        let mut out = String::from_str(RAW_HOST);
        out.append(base.substring_char(a + n, e));
        assert(cs@.subrange(a as int, e as int).subrange(n as int, (e - a) as int) =~= cs@.subrange(a + n, e as int));
        Some(out)
    } else {
        None
    }
}

/// The raw-file base of the configured mirror.
pub fn github_raw_base(cfg: &Config) -> (r: Result<String, MirrorError>)
    ensures
        match raw_base_of(configured_base(*cfg)) {
            Some(raw) => r matches Ok(s) && s@ == raw,
            None => r matches Err(MirrorError::UnsupportedBase(b)) && b@ == configured_base(*cfg),
        },
{
    let base: &str = match &cfg.mirror_base {
        Some(b) => b.as_str(),
        None => DEFAULT_MIRROR_BASE,
    };
    let cs = chars_of(base);
    let (a, e) = normalized_bounds(&cs);
    if let Some(r) = raw_after_prefix(base, &cs, a, e, "https://github.com/") {
        return Ok(r);
    }
    if let Some(r) = raw_after_prefix(base, &cs, a, e, "http://github.com/") {
        return Ok(r);
    }
    if let Some(r) = raw_after_prefix(base, &cs, a, e, "git@github.com:") {
        return Ok(r);
    }
    if let Some(r) = raw_after_prefix(base, &cs, a, e, "ssh://git@github.com/") {
        return Ok(r);
    }
    Err(MirrorError::UnsupportedBase(base.to_owned()))
}

/// The SRCINFO URLs tried for a branch, in order: the branch itself, then the
/// branch as a directory under the `master` and `main` default branches.
pub open spec fn branch_urls(raw: Seq<char>, branch: Seq<char>) -> Seq<Seq<char>> {
    seq![
        raw + "/"@ + branch + "/.SRCINFO"@,
        raw + "/master/"@ + branch + "/.SRCINFO"@,
        raw + "/main/"@ + branch + "/.SRCINFO"@,
    ]
}

/// `raw` + `mid` + `branch` + `/.SRCINFO`.
fn srcinfo_url(raw: &str, mid: &str, branch: &str) -> (r: String)
    ensures
        r@ == raw@ + mid@ + branch@ + "/.SRCINFO"@,
{
    let mut u = String::from_str(raw);
    u.append(mid);
    u.append(branch);
    u.append("/.SRCINFO");
    u
}

/// The SRCINFO URLs tried for a branch.
pub fn candidate_urls(raw: &str, branch: &str) -> (r: Vec<String>)
    ensures
        r.len() == 3,
        strs(r@) == branch_urls(raw@, branch@),
{
    let v = vec![
        srcinfo_url(raw, "/", branch),
        srcinfo_url(raw, "/master/", branch),
        srcinfo_url(raw, "/main/", branch),
    ];
    assert(strs(v@) =~= branch_urls(raw@, branch@));
    v
}

/// What happened to a request.
pub enum FetchEvent {
    /// A response with this status; the body is read only for a success status.
    Response { status: u16, body: Option<String> },
    /// The request timed out.
    Timeout,
    /// The request failed for another reason.
    Failed,
}

/// What to do next for a branch.
pub enum FetchAction {
    /// Request `url` after waiting `delay_secs` seconds.
    Get { url: String, delay_secs: u64 },
    /// The branch is settled: its records (none when no URL had it), or an error.
    Done(Result<Vec<AurInfo>, MirrorError>),
}

/// A success status: its body holds the SRCINFO.
pub open spec fn is_success(status: u16) -> bool {
    200 <= status < 300
}

/// Tells whether the body of a response with this status is wanted.
pub fn wants_body(status: u16) -> (r: bool)
    ensures
        r == is_success(status),
{
    200 <= status && status < 300
}

/// The state of one branch fetch, as mathematical values.
pub struct BranchModel {
    pub branch: Seq<char>,
    pub urls: Seq<Seq<char>>,
    /// The URL being tried.
    pub idx: nat,
    /// Attempts made on it before the current one.
    pub attempt: nat,
}

/// The fetch of one branch's SRCINFO.
pub struct BranchFetch {
    branch: String,
    urls: Vec<String>,
    idx: usize,
    attempt: usize,
}

impl View for BranchFetch {
    type V = BranchModel;

    closed spec fn view(&self) -> BranchModel {
        BranchModel { branch: self.branch@, urls: strs(self.urls@), idx: self.idx as nat, attempt: self.attempt as nat }
    }
}

/// What a finished fetch reports for `body`.
pub open spec fn parsed_outcome(branch: Seq<char>, body: Seq<char>, r: Result<Vec<AurInfo>, MirrorError>) -> bool {
    match srcinfo_result(body) {
        Ok(recs) => r matches Ok(v) && infos_view(v@) == recs,
        Err(e) => r matches Err(MirrorError::Parse(b, pe)) && b@ == branch && pe == e,
    }
}

impl BranchFetch {
    /// The URL index and attempt count lie within bounds.
    pub closed spec fn wf(&self) -> bool {
        self.urls.len() == 3 && self.idx < 3 && self.attempt < SRCINFO_MAX_ATTEMPTS
    }

    /// A fetch of `branch` under the raw-file base `raw`, with the request to
    /// make first.
    pub fn new(raw: &str, branch: &str) -> (r: (BranchFetch, FetchAction))
        ensures
            r.0.wf(),
            r.0@ == (BranchModel { branch: branch@, urls: branch_urls(raw@, branch@), idx: 0, attempt: 0 }),
            r.1 matches FetchAction::Get { url, delay_secs } && url@ == branch_urls(raw@, branch@)[0] && delay_secs == 0,
    {
        let urls = candidate_urls(raw, branch);
        let first = urls[0].clone();
        assert(strs(urls@)[0] == first@);
        (BranchFetch { branch: branch.to_owned(), urls, idx: 0, attempt: 0 }, FetchAction::Get { url: first, delay_secs: 0 })
    }

    /// Decides what follows an event on the current request.
    ///
    /// A 404 moves on to the next URL, and when none is left the branch has no
    /// records. Another status outside 2xx fails. A success body is parsed. A
    /// timeout is retried after a delay while attempts remain; another failure
    /// fails at once.
    pub fn on_event(&mut self, ev: FetchEvent) -> (r: FetchAction)
        requires
            old(self).wf(),
        ensures
            final(self).wf(),
            final(self)@.branch == old(self)@.branch,
            final(self)@.urls == old(self)@.urls,
            ({
                let m = old(self)@;
                let url = m.urls[m.idx as int];
                match ev {
                    FetchEvent::Response { status, body } => if status == 404 {
                        if m.idx + 1 < 3 {
                            &&& final(self)@.idx == m.idx + 1
                            &&& final(self)@.attempt == 0
                            &&& r matches FetchAction::Get { url: u, delay_secs } && u@ == m.urls[m.idx + 1 as int] && delay_secs == 0
                        } else {
                            r matches FetchAction::Done(Ok(v)) && v.len() == 0
                        }
                    } else if !is_success(status) {
                        r matches FetchAction::Done(Err(MirrorError::Network(u))) && u@ == url
                    } else {
                        match body {
                            Some(text) => r matches FetchAction::Done(res) && parsed_outcome(m.branch, text@, res),
                            None => r matches FetchAction::Done(Err(MirrorError::Network(u))) && u@ == url,
                        }
                    },
                    FetchEvent::Timeout => if m.attempt + 1 < SRCINFO_MAX_ATTEMPTS {
                        &&& final(self)@.idx == m.idx
                        &&& final(self)@.attempt == m.attempt + 1
                        &&& r matches FetchAction::Get { url: u, delay_secs } && u@ == url && delay_secs == SRCINFO_RETRY_DELAY_SECS
                    } else {
                        r matches FetchAction::Done(Err(MirrorError::Network(u))) && u@ == url
                    },
                    FetchEvent::Failed => r matches FetchAction::Done(Err(MirrorError::Network(u))) && u@ == url,
                }
            }),
    {
        let url = self.urls[self.idx].clone();
        match ev {
            FetchEvent::Response { status, body } => {
                if status == 404 {
                    if self.idx + 1 < 3 {
                        self.idx = self.idx + 1;
                        self.attempt = 0;
                        FetchAction::Get { url: self.urls[self.idx].clone(), delay_secs: 0 }
                    } else {
                        FetchAction::Done(Ok(Vec::new()))
                    }
                } else if !wants_body(status) {
                    FetchAction::Done(Err(MirrorError::Network(url)))
                } else {
                    match body {
                        Some(text) => match parse_srcinfo(text.as_str()) {
                            Ok(v) => FetchAction::Done(Ok(v)),
                            Err(e) => FetchAction::Done(Err(MirrorError::Parse(self.branch.clone(), e))),
                        },
                        None => FetchAction::Done(Err(MirrorError::Network(url))),
                    }
                }
            },
            FetchEvent::Timeout => {
                if self.attempt + 1 < SRCINFO_MAX_ATTEMPTS {
                    self.attempt = self.attempt + 1;
                    FetchAction::Get { url, delay_secs: SRCINFO_RETRY_DELAY_SECS }
                } else {
                    FetchAction::Done(Err(MirrorError::Network(url)))
                }
            },
            FetchEvent::Failed => FetchAction::Done(Err(MirrorError::Network(url))),
        }
    }
}

} // verus!
