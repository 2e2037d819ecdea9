//! User settings that the resolution core reads.

use crate::text::chars_of;
use vstd::prelude::*;
use vstd::string::StringExecFns;

verus! {

/// User settings.
#[derive(Debug, Clone)]
pub struct Config {
    /// Editor for PKGBUILDs.
    pub editor: String,
    /// File manager for inspecting build directories.
    pub file_manager: String,
    /// Name of the working directory under the home directory.
    pub root_dir_name: String,
    /// `aur` (the official endpoint) or `github` / `github-aur` (the mirror).
    pub aur_mirror: String,
    /// Custom mirror repository, used with the mirror source.
    pub mirror_base: Option<String>,
    pub noconfirm: bool,
}

impl Default for Config {
    fn default() -> (r: Config)
        ensures
            r.editor@ == "nvim"@,
            r.file_manager@ == "nnn"@,
            r.root_dir_name@ == "turbo"@,
            r.aur_mirror@ == "aur"@,
            r.mirror_base is None,
            !r.noconfirm,
    {
        Config {
            editor: String::from_str("nvim"),
            file_manager: String::from_str("nnn"),
            root_dir_name: String::from_str("turbo"),
            aur_mirror: String::from_str("aur"),
            mirror_base: None,
            noconfirm: false,
        }
    }
}

/// Where package metadata comes from.
#[derive(Clone, Copy, Debug, PartialEq, Eq, Structural)]
pub enum AurSource {
    /// The official JSON RPC endpoint.
    Official,
    /// The raw-file mirror of per-package branches.
    Github,
}

/// `c` with ASCII capitals made small.
pub open spec fn ascii_lower(c: char) -> char {
    if 'A' <= c && c <= 'Z' {
        ((c as u32) + 32) as char
    } else {
        c
    }
}

/// `a` and `b` are equal up to ASCII case.
pub open spec fn eq_ignore_case(a: Seq<char>, b: Seq<char>) -> bool {
    a.len() == b.len() && forall|i: int| 0 <= i < a.len() ==> ascii_lower(a[i]) == ascii_lower(b[i])
}

/// `c` with ASCII capitals made small.
fn to_ascii_lower(c: char) -> (r: char)
    ensures
        r == ascii_lower(c),
{
    if 'A' <= c && c <= 'Z' {
        let u = (c as u32) + 32;
        proof {
            assert(0x41 <= u - 32 <= 0x5A);
        }
        char_from_ascii(u)
    } else {
        c
    }
}

/// The ASCII character with code `u`.
fn char_from_ascii(u: u32) -> (r: char)
    requires
        u < 128,
    ensures
        r == u as char,
{
    (u as u8) as char
}

/// Tells whether `a` and `b` are equal up to ASCII case.
pub fn equals_ignore_case(a: &str, b: &str) -> (r: bool)
    ensures
        r == eq_ignore_case(a@, b@),
{
    let ac = chars_of(a);
    let bc = chars_of(b);
    if ac.len() != bc.len() {
        return false;
    }
    let mut i: usize = 0;
    while i < ac.len()
        invariant
            ac@ == a@,
            bc@ == b@,
            ac.len() == bc.len(),
            i <= ac.len(),
            forall|j: int| 0 <= j < i ==> ascii_lower(a@[j]) == ascii_lower(b@[j]),
        decreases ac.len() - i,
    {
        if to_ascii_lower(ac[i]) != to_ascii_lower(bc[i]) {
            return false;
        }
        i += 1;
    }
    true
}

/// The metadata source that a mirror setting selects: `github` or
/// `github-aur`, in any case, select the mirror.
pub open spec fn source_for(mirror: Seq<char>) -> AurSource {
    if eq_ignore_case(mirror, "github"@) || eq_ignore_case(mirror, "github-aur"@) {
        AurSource::Github
    } else {
        AurSource::Official
    }
}

impl AurSource {
    /// The metadata source that the settings select.
    pub fn from_cfg(cfg: &Config) -> (r: AurSource)
        ensures
            r == source_for(cfg.aur_mirror@),
    {
        if equals_ignore_case(cfg.aur_mirror.as_str(), "github") || equals_ignore_case(
            cfg.aur_mirror.as_str(),
            "github-aur",
        ) {
            AurSource::Github
        } else {
            AurSource::Official
        }
    }
}

} // verus!
