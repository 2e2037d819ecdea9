//! The package record shared by both metadata sources.

use crate::text::{strip_version, stripped};
use vstd::prelude::*;

verus! {

/// The views of a sequence of strings.
pub open spec fn strs(v: Seq<String>) -> Seq<Seq<char>> {
    v.map_values(|x: String| x@)
}

/// The view of an optional string.
pub open spec fn opt_str(o: Option<String>) -> Option<Seq<char>> {
    match o {
        Some(s) => Some(s@),
        None => None,
    }
}

/// The view of an optional list of strings.
pub open spec fn opt_strs(o: Option<Vec<String>>) -> Option<Seq<Seq<char>>> {
    match o {
        Some(v) => Some(strs(v@)),
        None => None,
    }
}

/// One build output of one source package.
#[derive(Debug, Clone)]
pub struct AurInfo {
    pub name: String,
    pub pkgbase: String,
    pub version: String,
    pub depends: Option<Vec<String>>,
    pub makedepends: Option<Vec<String>>,
    pub checkdepends: Option<Vec<String>>,
}

/// The envelope of an info response of the official endpoint.
#[derive(Debug)]
pub struct AurMeta {
    pub resultcount: u32,
    pub results: Vec<AurInfo>,
}

/// A response of the official endpoint: its type and its envelope.
#[derive(Debug)]
pub struct AurRpcResponse {
    pub kind: String,
    pub meta: AurMeta,
}

/// What a package record says, as mathematical values.
pub struct PkgView {
    pub name: Seq<char>,
    pub pkgbase: Seq<char>,
    pub version: Seq<char>,
    pub depends: Option<Seq<Seq<char>>>,
    pub makedepends: Option<Seq<Seq<char>>>,
    pub checkdepends: Option<Seq<Seq<char>>>,
}

impl View for AurInfo {
    type V = PkgView;

    open spec fn view(&self) -> PkgView {
        PkgView {
            name: self.name@,
            pkgbase: self.pkgbase@,
            version: self.version@,
            depends: opt_strs(self.depends),
            makedepends: opt_strs(self.makedepends),
            checkdepends: opt_strs(self.checkdepends),
        }
    }
}

/// The views of a sequence of records.
pub open spec fn infos_view(v: Seq<AurInfo>) -> Seq<PkgView> {
    v.map_values(|i: AurInfo| i@)
}

/// The entries of an optional list, or none.
pub open spec fn or_empty(o: Option<Seq<Seq<char>>>) -> Seq<Seq<char>> {
    match o {
        Some(v) => v,
        None => Seq::empty(),
    }
}

/// Every declaration of a sequence with its version constraint removed.
pub open spec fn stripped_all(v: Seq<Seq<char>>) -> Seq<Seq<char>> {
    v.map_values(|d: Seq<char>| stripped(d))
}

/// The bare names of everything a record needs: run-time, build and check
/// dependencies, in that order.
pub open spec fn dep_names(p: PkgView) -> Seq<Seq<char>> {
    stripped_all(or_empty(p.depends)) + stripped_all(or_empty(p.makedepends)) + stripped_all(
        or_empty(p.checkdepends),
    )
}

/// Appends the stripped form of each declaration of `src` to `out`.
fn push_stripped(out: &mut Vec<String>, src: &Option<Vec<String>>)
    ensures
        strs(final(out)@) == strs(old(out)@) + stripped_all(or_empty(opt_strs(*src))),
{
    if let Some(v) = src {
        let ghost start = strs(out@);
        for k in 0..v.len()
            invariant
                strs(out@) == start + stripped_all(strs(v@).subrange(0, k as int)),
        {
            let s = strip_version(v[k].as_str());
            let ghost before = out@;
            out.push(s);
            proof {
                assert(strs(out@) =~= strs(before).push(s@));
                assert(strs(v@).subrange(0, k + 1) =~= strs(v@).subrange(0, k as int).push(
                    v@[k as int]@,
                ));
                assert(strs(out@) =~= start + stripped_all(strs(v@).subrange(0, k + 1)));
            }
        }
        assert(strs(v@).subrange(0, v.len() as int) =~= strs(v@));
    } else {
        assert(strs(out@) =~= strs(out@) + Seq::<Seq<char>>::empty());
    }
}

/// The bare names of all dependencies of a record.
pub fn resolve_dep_names(info: &AurInfo) -> (r: Vec<String>)
    ensures
        strs(r@) == dep_names(info@),
{
    let mut out: Vec<String> = Vec::new();
    push_stripped(&mut out, &info.depends);
    push_stripped(&mut out, &info.makedepends);
    push_stripped(&mut out, &info.checkdepends);
    assert(strs(Seq::<String>::empty()) =~= Seq::<Seq<char>>::empty());
    assert(dep_names(info@) =~= Seq::<Seq<char>>::empty() + stripped_all(or_empty(info@.depends))
        + stripped_all(or_empty(info@.makedepends)) + stripped_all(or_empty(info@.checkdepends)));
    out
}

} // verus!
