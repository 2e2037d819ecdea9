//! Choosing which installed packages to upgrade.

use crate::info::{infos_view, AurInfo, PkgView};
use crate::resolve::{find_record, record_index_from};
use vstd::prelude::*;

verus! {

/// An installed package with a newer known version.
#[derive(Debug, Clone)]
pub struct Pickable {
    pub name: String,
    pub current: String,
    pub latest: String,
}

/// What a candidate says, as mathematical values.
pub struct PickView {
    pub name: Seq<char>,
    pub current: Seq<char>,
    pub latest: Seq<char>,
}

impl View for Pickable {
    type V = PickView;

    open spec fn view(&self) -> PickView {
        PickView { name: self.name@, current: self.current@, latest: self.latest@ }
    }
}

/// The views of a sequence of candidates.
pub open spec fn picks_view(v: Seq<Pickable>) -> Seq<PickView> {
    v.map_values(|p: Pickable| p@)
}

/// The views of installed (name, version) pairs.
pub open spec fn installed_view(v: Seq<(String, String)>) -> Seq<(Seq<char>, Seq<char>)> {
    v.map_values(|e: (String, String)| (e.0@, e.1@))
}

/// Installed packages that have a record, each with its installed version and
/// the record's version, in installed order.
pub open spec fn comparable(installed: Seq<(Seq<char>, Seq<char>)>, latest: Seq<PkgView>) -> Seq<PickView>
    decreases installed.len(),
{
    if installed.len() == 0 {
        Seq::empty()
    } else {
        let r = comparable(installed.drop_last(), latest);
        let (n, v) = installed.last();
        match record_index_from(latest, n, 0) {
            Some(j) => r.push(PickView { name: n, current: v, latest: latest[j].version }),
            None => r,
        }
    }
}

/// The version pairs to hand to the version comparator.
pub fn upgrade_pairs(installed: &Vec<(String, String)>, latest: &Vec<AurInfo>) -> (r: Vec<Pickable>)
    ensures
        picks_view(r@) == comparable(installed_view(installed@), infos_view(latest@)),
{
    let ghost iv = installed_view(installed@);
    let mut out: Vec<Pickable> = Vec::new();
    for k in 0..installed.len()
        invariant
            iv == installed_view(installed@),
            picks_view(out@) == comparable(iv.subrange(0, k as int), infos_view(latest@)),
    {
        let ghost sub = iv.subrange(0, k + 1);
        assert(sub.drop_last() =~= iv.subrange(0, k as int));
        assert(sub.last() == iv[k as int]);
        let name = &installed[k].0;
        match find_record(latest, name) {
            Some(j) => {
                let p = Pickable {
                    name: name.clone(),
                    current: installed[k].1.clone(),
                    latest: latest[j].version.clone(),
                };
                let ghost before = out@;
                let ghost pv = p@;
                out.push(p);
                assert(picks_view(out@) =~= picks_view(before).push(pv));
            },
            None => {},
        }
    }
    assert(iv.subrange(0, installed.len() as int) =~= iv);
    out
}

/// Candidates whose comparison said the installed version is older.
pub open spec fn older(pairs: Seq<PickView>, cmp: Seq<Option<i32>>) -> Seq<PickView>
    decreases pairs.len(),
{
    if pairs.len() == 0 || cmp.len() < pairs.len() {
        Seq::empty()
    } else {
        let r = older(pairs.drop_last(), cmp);
        match cmp[pairs.len() - 1] {
            Some(c) if c < 0 => r.push(pairs.last()),
            _ => r,
        }
    }
}

/// The upgrade candidates: the pairs whose three-way comparison (installed
/// against latest) came out negative. A comparison that failed counts as no upgrade.
pub fn select_upgrades(pairs: &Vec<Pickable>, cmp: &Vec<Option<i32>>) -> (r: Vec<Pickable>)
    requires
        cmp.len() == pairs.len(),
    ensures
        picks_view(r@) == older(picks_view(pairs@), cmp@),
{
    let ghost pv = picks_view(pairs@);
    let mut out: Vec<Pickable> = Vec::new();
    for k in 0..pairs.len()
        invariant
            pv == picks_view(pairs@),
            cmp.len() == pairs.len(),
            picks_view(out@) == older(pv.subrange(0, k as int), cmp@),
    {
        let ghost sub = pv.subrange(0, k + 1);
        assert(sub.drop_last() =~= pv.subrange(0, k as int));
        assert(sub.last() == pv[k as int]);
        match cmp[k] {
            Some(c) => {
                if c < 0 {
                    let p = Pickable {
                        name: pairs[k].name.clone(),
                        current: pairs[k].current.clone(),
                        latest: pairs[k].latest.clone(),
                    };
                    let ghost before = out@;
                    let ghost v = p@;
                    out.push(p);
                    assert(picks_view(out@) =~= picks_view(before).push(v));
                }
            },
            None => {},
        }
    }
    assert(pv.subrange(0, pairs.len() as int) =~= pv);
    out
}

} // verus!
