//! Parser for the line-oriented SRCINFO metadata format.

use crate::info::{strs, opt_str, opt_strs, AurInfo, PkgView};
use crate::text::{chars_of, has_prefix, range_is, range_starts_with, trim, trim_bounds};
use vstd::prelude::*;
use vstd::string::StrSliceExecFns;
use vstd::string::StringExecFns;

verus! {

/// The three dependency categories of a SRCINFO file.
#[derive(Clone, Copy, Debug, PartialEq, Eq, Structural)]
pub enum DepKind {
    Depends,
    MakeDepends,
    CheckDepends,
}

/// A field that every SRCINFO file must set.
#[derive(Clone, Copy, Debug, PartialEq, Eq, Structural)]
pub enum RequiredField {
    Pkgbase,
    Pkgver,
    Pkgrel,
}

/// Why a SRCINFO text could not be turned into records.
#[derive(Clone, Copy, Debug, PartialEq, Eq, Structural)]
pub enum SrcinfoError {
    MissingField(RequiredField),
}

/// Dependency declarations of the three categories.
pub struct DepLists {
    pub depends: Seq<Seq<char>>,
    pub makedepends: Seq<Seq<char>>,
    pub checkdepends: Seq<Seq<char>>,
}

/// No declarations at all.
pub open spec fn no_deps() -> DepLists {
    DepLists { depends: Seq::empty(), makedepends: Seq::empty(), checkdepends: Seq::empty() }
}

/// `d` with `v` appended to the list of category `k`.
pub open spec fn add_dep(d: DepLists, k: DepKind, v: Seq<char>) -> DepLists {
    match k {
        DepKind::Depends => DepLists { depends: d.depends.push(v), ..d },
        DepKind::MakeDepends => DepLists { makedepends: d.makedepends.push(v), ..d },
        DepKind::CheckDepends => DepLists { checkdepends: d.checkdepends.push(v), ..d },
    }
}

/// What has been read of a SRCINFO text so far.
pub struct ScanModel {
    pub pkgbase: Option<Seq<char>>,
    pub pkgver: Option<Seq<char>>,
    pub pkgrel: Option<Seq<char>>,
    pub epoch: Option<Seq<char>>,
    /// Declarations made outside any `pkgname` section.
    pub base: DepLists,
    /// One entry per distinct `pkgname`, in order of first appearance.
    pub sections: Seq<(Seq<char>, DepLists)>,
    /// Every `pkgname` value, in order.
    pub names: Seq<Seq<char>>,
    /// The section that declarations currently go to.
    pub current: Option<int>,
}

/// Nothing read yet.
pub open spec fn empty_scan() -> ScanModel {
    ScanModel {
        pkgbase: None,
        pkgver: None,
        pkgrel: None,
        epoch: None,
        base: no_deps(),
        sections: Seq::empty(),
        names: Seq::empty(),
        current: None,
    }
}

/// Index of the first section at or after `i` named `name`, if any.
pub open spec fn section_from(sections: Seq<(Seq<char>, DepLists)>, name: Seq<char>, i: int) -> Option<int>
    decreases sections.len() - i,
{
    if i < 0 || i >= sections.len() {
        None
    } else if sections[i].0 == name {
        Some(i)
    } else {
        section_from(sections, name, i + 1)
    }
}

/// The dependency category that a key declares, if it declares one; an
/// architecture suffix (`depends_x86_64`) counts as the plain category.
pub open spec fn dep_kind_of(key: Seq<char>) -> Option<DepKind> {
    if key == "depends"@ || has_prefix(key, "depends_"@) {
        Some(DepKind::Depends)
    } else if key == "makedepends"@ || has_prefix(key, "makedepends_"@) {
        Some(DepKind::MakeDepends)
    } else if key == "checkdepends"@ || has_prefix(key, "checkdepends_"@) {
        Some(DepKind::CheckDepends)
    } else {
        None
    }
}

/// The effect of one `key = value` line.
pub open spec fn apply_kv(st: ScanModel, key: Seq<char>, value: Seq<char>) -> ScanModel {
    if key == "pkgbase"@ {
        ScanModel { pkgbase: Some(value), current: None, ..st }
    } else if key == "pkgver"@ {
        ScanModel { pkgver: Some(value), ..st }
    } else if key == "pkgrel"@ {
        ScanModel { pkgrel: Some(value), ..st }
    } else if key == "epoch"@ {
        if value.len() > 0 {
            ScanModel { epoch: Some(value), ..st }
        } else {
            st
        }
    } else if key == "pkgname"@ {
        match section_from(st.sections, value, 0) {
            Some(j) => ScanModel { current: Some(j), names: st.names.push(value), ..st },
            None => ScanModel {
                sections: st.sections.push((value, no_deps())),
                current: Some(st.sections.len() as int),
                names: st.names.push(value),
                ..st
            },
        }
    } else {
        match dep_kind_of(key) {
            Some(k) => match st.current {
                Some(j) => ScanModel {
                    sections: st.sections.update(j, (st.sections[j].0, add_dep(st.sections[j].1, k, value))),
                    ..st
                },
                None => ScanModel { base: add_dep(st.base, k, value), ..st },
            },
            None => st,
        }
    }
}

/// Index of the first `=` at or after `i`, or the length of `s`.
pub open spec fn eq_sign_from(s: Seq<char>, i: int) -> int
    decreases s.len() - i,
{
    if i >= s.len() {
        s.len() as int
    } else if s[i] == '=' {
        i
    } else {
        eq_sign_from(s, i + 1)
    }
}

/// The effect of one line: blank lines, comments and lines without `=` change nothing.
pub open spec fn apply_line(st: ScanModel, line: Seq<char>) -> ScanModel {
    let t = trim(line);
    if t.len() == 0 || t[0] == '#' {
        st
    } else {
        let k = eq_sign_from(t, 0);
        if k >= t.len() {
            st
        } else {
            apply_kv(st, trim(t.subrange(0, k)), trim(t.subrange(k + 1, t.len() as int)))
        }
    }
}

/// Index of the first line break at or after `i`, or the length of `s`.
pub open spec fn line_end(s: Seq<char>, i: int) -> int
    decreases s.len() - i,
{
    if i >= s.len() {
        s.len() as int
    } else if s[i] == '\n' {
        i
    } else {
        line_end(s, i + 1)
    }
}

/// The state after reading the lines of `s` that start at or after `i`.
pub open spec fn scan_from(s: Seq<char>, i: int, st: ScanModel) -> ScanModel
    decreases s.len() - i,
{
    if i < 0 || i >= s.len() {
        st
    } else {
        let e = line_end(s, i);
        if e < i || e > s.len() {
            st
        } else if e == s.len() {
            apply_line(st, s.subrange(i, e))
        } else {
            scan_from(s, e + 1, apply_line(st, s.subrange(i, e)))
        }
    }
}

/// The version string: `epoch:pkgver-pkgrel` when the epoch is set and is not
/// `0`, else `pkgver-pkgrel`.
pub open spec fn version_string(epoch: Option<Seq<char>>, pkgver: Seq<char>, pkgrel: Seq<char>) -> Seq<char> {
    match epoch {
        Some(e) if e.len() > 0 && e != "0"@ => e + ":"@ + pkgver + "-"@ + pkgrel,
        _ => pkgver + "-"@ + pkgrel,
    }
}

/// A list, or none when it is empty.
pub open spec fn non_empty(v: Seq<Seq<char>>) -> Option<Seq<Seq<char>>> {
    if v.len() == 0 {
        None
    } else {
        Some(v)
    }
}

/// Declarations of the section named `name`, or none.
pub open spec fn section_deps(st: ScanModel, name: Seq<char>) -> DepLists {
    match section_from(st.sections, name, 0) {
        Some(j) => st.sections[j].1,
        None => no_deps(),
    }
}

/// The output names: the `pkgname` values, or the `pkgbase` when there are none.
pub open spec fn output_names(st: ScanModel, pkgbase: Seq<char>) -> Seq<Seq<char>> {
    if st.names.len() == 0 {
        seq![pkgbase]
    } else {
        st.names
    }
}

/// The record of output `name`: base-level declarations followed by its own.
pub open spec fn record_of(st: ScanModel, name: Seq<char>, version: Seq<char>) -> PkgView {
    let own = section_deps(st, name);
    PkgView {
        name,
        pkgbase: st.pkgbase.unwrap(),
        version,
        depends: non_empty(st.base.depends + own.depends),
        makedepends: non_empty(st.base.makedepends + own.makedepends),
        checkdepends: non_empty(st.base.checkdepends + own.checkdepends),
    }
}

/// What parsing `s` gives.
pub open spec fn srcinfo_result(s: Seq<char>) -> Result<Seq<PkgView>, SrcinfoError> {
    let st = scan_from(s, 0, empty_scan());
    if st.pkgbase is None {
        Err(SrcinfoError::MissingField(RequiredField::Pkgbase))
    } else if st.pkgver is None {
        Err(SrcinfoError::MissingField(RequiredField::Pkgver))
    } else if st.pkgrel is None {
        Err(SrcinfoError::MissingField(RequiredField::Pkgrel))
    } else {
        let version = version_string(st.epoch, st.pkgver.unwrap(), st.pkgrel.unwrap());
        Ok(output_names(st, st.pkgbase.unwrap()).map_values(|n: Seq<char>| record_of(st, n, version)))
    }
}

/// The key of a `key = value` line, if the line is one.
pub open spec fn line_key(line: Seq<char>) -> Option<Seq<char>> {
    let t = trim(line);
    if t.len() == 0 || t[0] == '#' {
        None
    } else {
        let k = eq_sign_from(t, 0);
        if k >= t.len() {
            None
        } else {
            Some(trim(t.subrange(0, k)))
        }
    }
}

/// No line of `s` at or after `i` has the key `key`.
pub open spec fn no_line_keyed(s: Seq<char>, i: int, key: Seq<char>) -> bool
    decreases s.len() - i,
{
    if i < 0 || i >= s.len() {
        true
    } else {
        let e = line_end(s, i);
        if e < i || e > s.len() {
            true
        } else {
            &&& line_key(s.subrange(i, e)) != Some(key)
            &&& (e == s.len() || no_line_keyed(s, e + 1, key))
        }
    }
}

/// Lines without a `pkgrel` key leave `pkgrel` unset.
proof fn lemma_pkgrel_stays_unset(s: Seq<char>, i: int, st: ScanModel)
    requires
        no_line_keyed(s, i, "pkgrel"@),
        st.pkgrel is None,
    ensures
        scan_from(s, i, st).pkgrel is None,
    decreases s.len() - i,
{
    if 0 <= i < s.len() {
        let e = line_end(s, i);
        if i <= e <= s.len() {
            let next = apply_line(st, s.subrange(i, e));
            assert(next.pkgrel is None);
            if e < s.len() {
                lemma_pkgrel_stays_unset(s, e + 1, next);
            }
        }
    }
}

/// A SRCINFO text in which no line sets `pkgrel` fails to parse with a
/// missing-field error, whatever its other lines hold.
pub proof fn lemma_missing_pkgrel_fails(s: Seq<char>)
    requires
        no_line_keyed(s, 0, "pkgrel"@),
    ensures
        srcinfo_result(s) matches Err(SrcinfoError::MissingField(_)),
{
    lemma_pkgrel_stays_unset(s, 0, empty_scan());
}

/// The view of a parse outcome.
pub open spec fn parse_view(r: Result<Vec<AurInfo>, SrcinfoError>) -> Result<Seq<PkgView>, SrcinfoError> {
    match r {
        Ok(v) => Ok(v@.map_values(|i: AurInfo| i@)),
        Err(e) => Err(e),
    }
}

/// Dependency declarations of the three categories.
pub struct DepFields {
    pub depends: Vec<String>,
    pub makedepends: Vec<String>,
    pub checkdepends: Vec<String>,
}

impl View for DepFields {
    type V = DepLists;

    open spec fn view(&self) -> DepLists {
        DepLists {
            depends: strs(self.depends@),
            makedepends: strs(self.makedepends@),
            checkdepends: strs(self.checkdepends@),
        }
    }
}

impl DepFields {
    /// No declarations.
    pub fn new() -> (r: DepFields)
        ensures
            r@ == no_deps(),
    {
        let r = DepFields { depends: Vec::new(), makedepends: Vec::new(), checkdepends: Vec::new() };
        assert(r@.depends =~= Seq::<Seq<char>>::empty());
        assert(r@.makedepends =~= Seq::<Seq<char>>::empty());
        assert(r@.checkdepends =~= Seq::<Seq<char>>::empty());
        r
    }

    /// Appends `v` to the list of category `k`.
    pub fn add(&mut self, k: DepKind, v: String)
        ensures
            final(self)@ == add_dep(old(self)@, k, v@),
    {
        let ghost d = self@;
        match k {
            DepKind::Depends => {
                self.depends.push(v);
                assert(self@.depends =~= d.depends.push(v@));
            },
            DepKind::MakeDepends => {
                self.makedepends.push(v);
                assert(self@.makedepends =~= d.makedepends.push(v@));
            },
            DepKind::CheckDepends => {
                self.checkdepends.push(v);
                assert(self@.checkdepends =~= d.checkdepends.push(v@));
            },
        }
    }
}

/// The declarations of one `pkgname` section.
struct Section {
    name: String,
    fields: DepFields,
}

/// What has been read of a SRCINFO text so far.
struct Scan {
    pkgbase: Option<String>,
    pkgver: Option<String>,
    pkgrel: Option<String>,
    epoch: Option<String>,
    base: DepFields,
    sections: Vec<Section>,
    names: Vec<String>,
    current: Option<usize>,
}

impl View for Scan {
    type V = ScanModel;

    closed spec fn view(&self) -> ScanModel {
        ScanModel {
            pkgbase: opt_str(self.pkgbase),
            pkgver: opt_str(self.pkgver),
            pkgrel: opt_str(self.pkgrel),
            epoch: opt_str(self.epoch),
            base: self.base@,
            sections: self.sections@.map_values(|x: Section| (x.name@, x.fields@)),
            names: strs(self.names@),
            current: match self.current {
                Some(j) => Some(j as int),
                None => None,
            },
        }
    }
}

impl Scan {
    spec fn wf(&self) -> bool {
        self.current matches Some(j) ==> j < self.sections.len()
    }
}

/// Index of the first section named `name`.
fn find_section(sections: &Vec<Section>, name: &String) -> (r: Option<usize>)
    ensures
        match r {
            Some(j) => section_from(sections@.map_values(|x: Section| (x.name@, x.fields@)), name@, 0)
                == Some(j as int) && j < sections.len(),
            None => section_from(sections@.map_values(|x: Section| (x.name@, x.fields@)), name@, 0)
                is None,
        },
{
    let ghost v = sections@.map_values(|x: Section| (x.name@, x.fields@));
    let mut i: usize = 0;
    while i < sections.len()
        invariant
            i <= sections.len(),
            v == sections@.map_values(|x: Section| (x.name@, x.fields@)),
            section_from(v, name@, 0) == section_from(v, name@, i as int),
        decreases sections.len() - i,
    {
        if sections[i].name == *name {
            return Some(i);
        }
        i += 1;
    }
    None
}

/// The category that the key `cs[a..b]` declares, if any.
fn dep_kind(cs: &Vec<char>, a: usize, b: usize) -> (r: Option<DepKind>)
    requires
        a <= b <= cs.len(),
    ensures
        r == dep_kind_of(cs@.subrange(a as int, b as int)),
{
    if range_is(cs, a, b, "depends") || range_starts_with(cs, a, b, "depends_") {
        Some(DepKind::Depends)
    } else if range_is(cs, a, b, "makedepends") || range_starts_with(cs, a, b, "makedepends_") {
        Some(DepKind::MakeDepends)
    } else if range_is(cs, a, b, "checkdepends") || range_starts_with(cs, a, b, "checkdepends_") {
        Some(DepKind::CheckDepends)
    } else {
        None
    }
}

/// Applies the line whose key is `cs[a..b]` and whose value is `value`.
fn apply_key_value(st: &mut Scan, cs: &Vec<char>, a: usize, b: usize, value: String)
    requires
        a <= b <= cs.len(),
        old(st).wf(),
    ensures
        final(st).wf(),
        final(st)@ == apply_kv(old(st)@, cs@.subrange(a as int, b as int), value@),
{
    let ghost key = cs@.subrange(a as int, b as int);
    let ghost m = st@;
    if range_is(cs, a, b, "pkgbase") {
        st.pkgbase = Some(value);
        st.current = None;
    } else if range_is(cs, a, b, "pkgver") {
        st.pkgver = Some(value);
    } else if range_is(cs, a, b, "pkgrel") {
        st.pkgrel = Some(value);
    } else if range_is(cs, a, b, "epoch") {
        if value.as_str().unicode_len() > 0 {
            st.epoch = Some(value);
        }
    } else if range_is(cs, a, b, "pkgname") {
        match find_section(&st.sections, &value) {
            Some(j) => {
                st.current = Some(j);
                st.names.push(value);
                assert(st@.names =~= m.names.push(value@));
            },
            None => {
                let n = st.sections.len();
                let name = value.clone();
                st.sections.push(Section { name, fields: DepFields::new() });
                st.current = Some(n);
                st.names.push(value);
                assert(st@.names =~= m.names.push(value@));
                assert(st@.sections =~= m.sections.push((value@, no_deps())));
            },
        }
    } else {
        match dep_kind(cs, a, b) {
            Some(k) => match st.current {
                Some(j) => {
                    st.sections[j].fields.add(k, value);
                    assert(st@.sections =~= m.sections.update(
                        j as int,
                        (m.sections[j as int].0, add_dep(m.sections[j as int].1, k, value@)),
                    ));
                },
                None => {
                    st.base.add(k, value);
                },
            },
            None => {},
        }
    }
}

/// Index of the first `=` in `cs[a..b]`, or `b`.
pub(crate) fn find_eq_sign(cs: &Vec<char>, a: usize, b: usize) -> (r: usize)
    requires
        a <= b <= cs.len(),
    ensures
        a <= r <= b,
        r - a == eq_sign_from(cs@.subrange(a as int, b as int), 0),
{
    let ghost t = cs@.subrange(a as int, b as int);
    let mut k: usize = a;
    while k < b && cs[k] != '='
        invariant
            a <= k <= b <= cs.len(),
            t == cs@.subrange(a as int, b as int),
            eq_sign_from(t, k - a) == eq_sign_from(t, 0),
        decreases b - k,
    {
        k += 1;
    }
    k
}

/// Applies the line `contents[lo..hi]`.
fn apply_line_at(st: &mut Scan, contents: &str, cs: &Vec<char>, lo: usize, hi: usize)
    requires
        lo <= hi <= cs.len(),
        cs@ == contents@,
        old(st).wf(),
    ensures
        final(st).wf(),
        final(st)@ == apply_line(old(st)@, cs@.subrange(lo as int, hi as int)),
{
    let ghost line = cs@.subrange(lo as int, hi as int);
    let (a, b) = trim_bounds(cs, lo, hi);
    let ghost t = cs@.subrange(a as int, b as int);
    if a == b || cs[a] == '#' {
        return;
    }
    let k = find_eq_sign(cs, a, b);
    if k == b {
        return;
    }
    let (ka, kb) = trim_bounds(cs, a, k);
    let (va, vb) = trim_bounds(cs, k + 1, b);
    assert(t.subrange(0, k - a) =~= cs@.subrange(a as int, k as int));
    assert(t.subrange(k - a + 1, t.len() as int) =~= cs@.subrange(k + 1, b as int));
    let value = contents.substring_char(va, vb).to_owned();
    apply_key_value(st, cs, ka, kb, value);
}

/// Index of the first line break at or after `i`, or the length of `cs`.
fn find_line_end(cs: &Vec<char>, i: usize) -> (r: usize)
    requires
        i <= cs.len(),
    ensures
        i <= r <= cs.len(),
        r == line_end(cs@, i as int),
{
    let mut k: usize = i;
    while k < cs.len() && cs[k] != '\n'
        invariant
            i <= k <= cs.len(),
            line_end(cs@, k as int) == line_end(cs@, i as int),
        decreases cs.len() - k,
    {
        k += 1;
    }
    k
}

/// Parses a SRCINFO text into one record per build output, in output order.
///
/// Blank lines, `#` comments and lines without `=` are skipped; `pkgbase`,
/// `pkgver` and `pkgrel` must be set.
pub fn parse_srcinfo(contents: &str) -> (r: Result<Vec<AurInfo>, SrcinfoError>)
    ensures
        parse_view(r) == srcinfo_result(contents@),
{
    let cs = chars_of(contents);
    let mut st = Scan {
        pkgbase: None,
        pkgver: None,
        pkgrel: None,
        epoch: None,
        base: DepFields::new(),
        sections: Vec::new(),
        names: Vec::new(),
        current: None,
    };
    assert(st@.sections =~= Seq::<(Seq<char>, DepLists)>::empty());
    assert(st@.names =~= Seq::<Seq<char>>::empty());
    assert(st@ == empty_scan());
    let mut i: usize = 0;
    while i < cs.len()
        invariant
            i <= cs.len(),
            cs@ == contents@,
            st.wf(),
            scan_from(cs@, 0, empty_scan()) == scan_from(cs@, i as int, st@),
        decreases cs.len() - i,
    {
        let e = find_line_end(&cs, i);
        apply_line_at(&mut st, contents, &cs, i, e);
        if e == cs.len() {
            i = e;
        } else {
            i = e + 1;
        }
    }
    let ghost m = st@;
    assert(m == scan_from(contents@, 0, empty_scan()));
    let Scan { pkgbase, pkgver, pkgrel, epoch, base, sections, names, current: _ } = st;
    let pkgbase = match pkgbase {
        Some(p) => p,
        None => {
            return Err(SrcinfoError::MissingField(RequiredField::Pkgbase));
        },
    };
    let pkgver = match pkgver {
        Some(p) => p,
        None => {
            return Err(SrcinfoError::MissingField(RequiredField::Pkgver));
        },
    };
    let pkgrel = match pkgrel {
        Some(p) => p,
        None => {
            return Err(SrcinfoError::MissingField(RequiredField::Pkgrel));
        },
    };
    let version = match &epoch {
        Some(e) => format_version(Some(e.as_str()), pkgver.as_str(), pkgrel.as_str()),
        None => format_version(None, pkgver.as_str(), pkgrel.as_str()),
    };
    let out_names = if names.len() == 0 {
        vec![pkgbase.clone()]
    } else {
        names
    };
    let ghost want = output_names(m, pkgbase@).map_values(|n: Seq<char>| record_of(m, n, version@));
    assert(strs(out_names@) =~= output_names(m, pkgbase@));
    let empty = DepFields::new();
    let mut infos: Vec<AurInfo> = Vec::new();
    for k in 0..out_names.len()
        invariant
            strs(out_names@) == output_names(m, pkgbase@),
            want == output_names(m, pkgbase@).map_values(|n: Seq<char>| record_of(m, n, version@)),
            m.pkgbase == Some(pkgbase@),
            m.base == base@,
            m.sections == sections@.map_values(|x: Section| (x.name@, x.fields@)),
            empty@ == no_deps(),
            infos@.map_values(|i: AurInfo| i@) == want.subrange(0, k as int),
    {
        let name = &out_names[k];
        let own = match find_section(&sections, name) {
            Some(j) => &sections[j].fields,
            None => &empty,
        };
        assert(own@ == section_deps(m, name@));
        let merged = merge_fields(&base, own);
        let info = AurInfo {
            name: name.clone(),
            pkgbase: pkgbase.clone(),
            version: version.clone(),
            depends: vec_to_option(merged.depends),
            makedepends: vec_to_option(merged.makedepends),
            checkdepends: vec_to_option(merged.checkdepends),
        };
        assert(info@ == record_of(m, name@, version@));
        assert(strs(out_names@)[k as int] == name@);
        assert(want[k as int] == record_of(m, name@, version@));
        let ghost before = infos@;
        let ghost iv = info@;
        infos.push(info);
        assert(infos@.map_values(|i: AurInfo| i@) =~= before.map_values(|i: AurInfo| i@).push(iv));
        assert(infos@.map_values(|i: AurInfo| i@) =~= want.subrange(0, k + 1));
    }
    assert(want.subrange(0, out_names.len() as int) =~= want);
    Ok(infos)
}

/// Concatenation of two lists of strings.
pub fn merge_lists(a: &Vec<String>, b: &Vec<String>) -> (r: Vec<String>)
    ensures
        strs(r@) == strs(a@) + strs(b@),
{
    let mut out: Vec<String> = Vec::new();
    for k in 0..a.len()
        invariant
            strs(out@) == strs(a@).subrange(0, k as int),
    {
        let ghost before = out@;
        out.push(a[k].clone());
        assert(strs(out@) =~= strs(before).push(a@[k as int]@));
        assert(strs(out@) =~= strs(a@).subrange(0, k + 1));
    }
    for k in 0..b.len()
        invariant
            strs(out@) == strs(a@) + strs(b@).subrange(0, k as int),
    {
        let ghost before = out@;
        out.push(b[k].clone());
        assert(strs(out@) =~= strs(before).push(b@[k as int]@));
        assert(strs(out@) =~= strs(a@) + strs(b@).subrange(0, k + 1));
    }
    assert(strs(a@).subrange(0, a.len() as int) =~= strs(a@));
    assert(strs(b@).subrange(0, b.len() as int) =~= strs(b@));
    out
}

/// The base-level declarations followed by a section's own, per category.
pub fn merge_fields(base: &DepFields, specific: &DepFields) -> (r: DepFields)
    ensures
        r@.depends == base@.depends + specific@.depends,
        r@.makedepends == base@.makedepends + specific@.makedepends,
        r@.checkdepends == base@.checkdepends + specific@.checkdepends,
{
    DepFields {
        depends: merge_lists(&base.depends, &specific.depends),
        makedepends: merge_lists(&base.makedepends, &specific.makedepends),
        checkdepends: merge_lists(&base.checkdepends, &specific.checkdepends),
    }
}

/// A list, or `None` when it is empty.
pub fn vec_to_option(v: Vec<String>) -> (r: Option<Vec<String>>)
    ensures
        opt_strs(r) == non_empty(strs(v@)),
{
    if v.len() == 0 {
        None
    } else {
        Some(v)
    }
}

/// The version string of a package: `epoch:pkgver-pkgrel`, or `pkgver-pkgrel`
/// when the epoch is missing, empty or `0`.
pub fn format_version(epoch: Option<&str>, pkgver: &str, pkgrel: &str) -> (r: String)
    ensures
        r@ == version_string(
            match epoch {
                Some(e) => Some(e@),
                None => None,
            },
            pkgver@,
            pkgrel@,
        ),
{
    let mut out = String::new();
    let mut with_epoch = false;
    if let Some(e) = epoch {
        let ec = chars_of(e);
        if ec.len() > 0 && !range_is(&ec, 0, ec.len(), "0") {
            assert(ec@.subrange(0, ec.len() as int) =~= e@);
            with_epoch = true;
            out.append(e);
            out.append(":");
        } else {
            assert(ec@.subrange(0, ec.len() as int) =~= e@);
        }
    }
    out.append(pkgver);
    out.append("-");
    out.append(pkgrel);
    proof {
        if with_epoch {
            assert(out@ =~= epoch.unwrap()@ + ":"@ + pkgver@ + "-"@ + pkgrel@);
        } else {
            assert(out@ =~= pkgver@ + "-"@ + pkgrel@);
        }
    }
    out
}

} // verus!
