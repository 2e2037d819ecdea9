//! Decisions of the command-line front end that need no I/O.

use crate::config::AurSource;
use crate::info::strs;
use crate::srcinfo::{eq_sign_from, find_eq_sign, line_end};
use crate::text::{chars_of, is_whitespace, is_ws, range_is, trim, trim_bounds};
use vstd::prelude::*;
use vstd::string::StrSliceExecFns;
use vstd::string::StringExecFns;

verus! {

/// Index of the first character at or after `i` that is not `v`.
pub open spec fn skip_v(s: Seq<char>, i: int) -> int
    decreases s.len() - i,
{
    if 0 <= i < s.len() && s[i] == 'v' {
        skip_v(s, i + 1)
    } else {
        i
    }
}

/// A release tag without its leading `v` characters (`v1.2.0` gives `1.2.0`).
pub fn normalize_tag(tag: &str) -> (r: String)
    ensures
        r@ == tag@.subrange(skip_v(tag@, 0), tag@.len() as int),
{
    let cs = chars_of(tag);
    let mut i: usize = 0;
    while i < cs.len() && cs[i] == 'v'
        invariant
            cs@ == tag@,
            i <= cs.len(),
            skip_v(tag@, i as int) == skip_v(tag@, 0),
        decreases cs.len() - i,
    {
        i += 1;
    }
    tag.substring_char(i, cs.len()).to_owned()
}

/// Index of the first `/` at or after `i`, or the length of `s`.
pub open spec fn slash_from(s: Seq<char>, i: int) -> int
    decreases s.len() - i,
{
    if i >= s.len() {
        s.len() as int
    } else if s[i] == '/' {
        i
    } else {
        slash_from(s, i + 1)
    }
}

/// The `repo/package` reading of an argument: the parts before and after the
/// first `/`, both non-empty, for an argument that is not an option.
pub open spec fn repo_notation(arg: Seq<char>) -> Option<(Seq<char>, Seq<char>)> {
    let k = slash_from(arg, 0);
    if arg.len() > 0 && arg[0] == '-' {
        None
    } else if k >= arg.len() || k == 0 || k + 1 == arg.len() {
        None
    } else {
        Some((arg.subrange(0, k), arg.subrange(k + 1, arg.len() as int)))
    }
}

/// Splits `repo/package` into its repository and package parts.
pub fn split_repo_notation<'a>(arg: &'a str) -> (r: Option<(&'a str, &'a str)>)
    ensures
        match repo_notation(arg@) {
            Some((repo, pkg)) => r matches Some((a, b)) && a@ == repo && b@ == pkg,
            None => r is None,
        },
{
    let cs = chars_of(arg);
    if cs.len() > 0 && cs[0] == '-' {
        return None;
    }
    let mut k: usize = 0;
    while k < cs.len() && cs[k] != '/'
        invariant
            cs@ == arg@,
            k <= cs.len(),
            slash_from(arg@, k as int) == slash_from(arg@, 0),
        decreases cs.len() - k,
    {
        k += 1;
    }
    if k >= cs.len() || k == 0 || k + 1 == cs.len() {
        return None;
    }
    Some((arg.substring_char(0, k), arg.substring_char(k + 1, cs.len())))
}

/// `s` with each `'` written as `'\''`, so that it can stand inside single quotes.
pub open spec fn quote_escaped(s: Seq<char>) -> Seq<char>
    decreases s.len(),
{
    if s.len() == 0 {
        Seq::empty()
    } else if s.last() == '\'' {
        quote_escaped(s.drop_last()) + "'\\''"@
    } else {
        quote_escaped(s.drop_last()).push(s.last())
    }
}

/// `s` as one single-quoted shell word.
pub fn shell_escape(s: &str) -> (r: String)
    ensures
        r@ == "'"@ + quote_escaped(s@) + "'"@,
{
    let cs = chars_of(s);
    let mut out = String::from_str("'");
    for k in 0..cs.len()
        invariant
            cs@ == s@,
            out@ == "'"@ + quote_escaped(s@.subrange(0, k as int)),
    {
        let ghost sub = s@.subrange(0, k + 1);
        assert(sub.drop_last() =~= s@.subrange(0, k as int));
        assert(sub.last() == cs@[k as int]);
        if cs[k] == '\'' {
            out.append("'\\''");
        } else {
            let piece = s.substring_char(k, k + 1);
            assert(piece@ =~= seq![cs@[k as int]]);
            out.append(piece);
        }
        assert(out@ =~= "'"@ + quote_escaped(sub));
    }
    assert(s@.subrange(0, cs.len() as int) =~= s@);
    out.append("'");
    out
}

/// The text of the line `s[i..e]`, without the `\r` of a `\r\n` ending.
pub open spec fn line_text(s: Seq<char>, i: int, e: int) -> Seq<char> {
    if i < e < s.len() && s[e - 1] == '\r' {
        s.subrange(i, e - 1)
    } else {
        s.subrange(i, e)
    }
}

/// The lines of `s` that start at or after `i`, as `str::lines` splits them.
pub open spec fn lines_from(s: Seq<char>, i: int) -> Seq<Seq<char>>
    decreases s.len() - i,
{
    if i < 0 || i >= s.len() {
        Seq::empty()
    } else {
        let e = line_end(s, i);
        if e < i || e >= s.len() {
            seq![line_text(s, i, s.len() as int)]
        } else {
            seq![line_text(s, i, e)] + lines_from(s, e + 1)
        }
    }
}

/// The lines of `s`.
pub fn split_lines(s: &str) -> (r: Vec<String>)
    ensures
        strs(r@) == lines_from(s@, 0),
{
    let cs = chars_of(s);
    let mut out: Vec<String> = Vec::new();
    let mut i: usize = 0;
    assert(strs(out@) + lines_from(s@, 0) =~= lines_from(s@, 0));
    while i < cs.len()
        invariant
            cs@ == s@,
            i <= cs.len(),
            strs(out@) + lines_from(s@, i as int) == lines_from(s@, 0),
        decreases cs.len() - i,
    {
        let mut e: usize = i;
        while e < cs.len() && cs[e] != '\n'
            invariant
                cs@ == s@,
                i <= e <= cs.len(),
                line_end(s@, e as int) == line_end(s@, i as int),
            decreases cs.len() - e,
        {
            e += 1;
        }
        let end = if i < e && e < cs.len() && cs[e - 1] == '\r' {
            e - 1
        } else {
            e
        };
        let line = s.substring_char(i, end).to_owned();
        let ghost before = out@;
        out.push(line);
        assert(strs(out@) =~= strs(before).push(line_text(s@, i as int, e as int)));
        if e >= cs.len() {
            assert(lines_from(s@, i as int) == seq![line_text(s@, i as int, s@.len() as int)]);
            assert(strs(out@) + lines_from(s@, cs.len() as int) =~= lines_from(s@, 0));
            i = cs.len();
        } else {
            assert(strs(out@) + lines_from(s@, e + 1) =~= lines_from(s@, 0));
            i = e + 1;
        }
    }
    assert(strs(out@) =~= lines_from(s@, 0));
    out
}

/// Index of the first space at or after `i`, or the length of `s`.
pub open spec fn space_from(s: Seq<char>, i: int) -> int
    decreases s.len() - i,
{
    if i >= s.len() {
        s.len() as int
    } else if s[i] == ' ' {
        i
    } else {
        space_from(s, i + 1)
    }
}

/// The (name, version) pairs of package-manager query lines `name version`;
/// a line without a space is passed over.
pub open spec fn name_version_pairs(lines: Seq<Seq<char>>) -> Seq<(Seq<char>, Seq<char>)>
    decreases lines.len(),
{
    if lines.len() == 0 {
        Seq::empty()
    } else {
        let r = name_version_pairs(lines.drop_last());
        let l = lines.last();
        let k = space_from(l, 0);
        if k >= l.len() {
            r
        } else {
            r.push((l.subrange(0, k), l.subrange(k + 1, l.len() as int)))
        }
    }
}

/// Reads the installed foreign packages from `pacman -Qm` output.
pub fn parse_foreign_list(out: &str) -> (r: Vec<(String, String)>)
    ensures
        r@.map_values(|e: (String, String)| (e.0@, e.1@)) == name_version_pairs(lines_from(out@, 0)),
{
    let lines = split_lines(out);
    let ghost lv = strs(lines@);
    let mut res: Vec<(String, String)> = Vec::new();
    for t in 0..lines.len()
        invariant
            lv == strs(lines@),
            lv == lines_from(out@, 0),
            res@.map_values(|e: (String, String)| (e.0@, e.1@)) == name_version_pairs(lv.subrange(0, t as int)),
    {
        let ghost sub = lv.subrange(0, t + 1);
        assert(sub.drop_last() =~= lv.subrange(0, t as int));
        assert(sub.last() == lines@[t as int]@);
        let line = lines[t].as_str();
        let cs = chars_of(line);
        let mut k: usize = 0;
        while k < cs.len() && cs[k] != ' '
            invariant
                cs@ == line@,
                k <= cs.len(),
                space_from(line@, k as int) == space_from(line@, 0),
            decreases cs.len() - k,
        {
            k += 1;
        }
        if k < cs.len() {
            let name = line.substring_char(0, k).to_owned();
            let ver = line.substring_char(k + 1, cs.len()).to_owned();
            let ghost before = res@;
            res.push((name, ver));
            assert(res@.map_values(|e: (String, String)| (e.0@, e.1@)) =~= before.map_values(
                |e: (String, String)| (e.0@, e.1@),
            ).push((line@.subrange(0, k as int), line@.subrange(k + 1, line@.len() as int))));
        }
    }
    assert(lv.subrange(0, lines.len() as int) =~= lv);
    res
}

/// The (key, value) of a `key = value` settings line; blank lines, `#`
/// comments and lines without `=` have none.
pub open spec fn key_value_of(line: Seq<char>) -> Option<(Seq<char>, Seq<char>)> {
    let t = trim(line);
    if t.len() == 0 || t[0] == '#' {
        None
    } else {
        let k = eq_sign_from(t, 0);
        if k >= t.len() {
            None
        } else {
            Some((trim(t.subrange(0, k)), trim(t.subrange(k + 1, t.len() as int))))
        }
    }
}

/// The pairs of the settings lines, in order.
pub open spec fn settings_pairs(lines: Seq<Seq<char>>) -> Seq<(Seq<char>, Seq<char>)>
    decreases lines.len(),
{
    if lines.len() == 0 {
        Seq::empty()
    } else {
        let r = settings_pairs(lines.drop_last());
        match key_value_of(lines.last()) {
            Some(x) => r.push(x),
            None => r,
        }
    }
}

/// The (key, value) of one settings line.
fn key_value(line: &str) -> (r: Option<(String, String)>)
    ensures
        match key_value_of(line@) {
            Some((k, v)) => r matches Some((a, b)) && a@ == k && b@ == v,
            None => r is None,
        },
{
    let cs = chars_of(line);
    let (a, b) = trim_bounds(&cs, 0, cs.len());
    assert(cs@.subrange(0, cs.len() as int) =~= line@);
    let ghost t = cs@.subrange(a as int, b as int);
    if a == b || cs[a] == '#' {
        return None;
    }
    let k = find_eq_sign(&cs, a, b);
    if k == b {
        return None;
    }
    let (ka, kb) = trim_bounds(&cs, a, k);
    let (va, vb) = trim_bounds(&cs, k + 1, b);
    assert(t.subrange(0, k - a) =~= cs@.subrange(a as int, k as int));
    assert(t.subrange(k - a + 1, t.len() as int) =~= cs@.subrange(k + 1, b as int));
    Some((line.substring_char(ka, kb).to_owned(), line.substring_char(va, vb).to_owned()))
}

/// Reads `key = value` settings lines.
pub fn parse_conf(contents: &str) -> (r: Vec<(String, String)>)
    ensures
        r@.map_values(|e: (String, String)| (e.0@, e.1@)) == settings_pairs(lines_from(contents@, 0)),
{
    let lines = split_lines(contents);
    let ghost lv = strs(lines@);
    let mut res: Vec<(String, String)> = Vec::new();
    for t in 0..lines.len()
        invariant
            lv == strs(lines@),
            lv == lines_from(contents@, 0),
            res@.map_values(|e: (String, String)| (e.0@, e.1@)) == settings_pairs(lv.subrange(0, t as int)),
    {
        let ghost sub = lv.subrange(0, t + 1);
        assert(sub.drop_last() =~= lv.subrange(0, t as int));
        assert(sub.last() == lines@[t as int]@);
        match key_value(lines[t].as_str()) {
            Some(x) => {
                let ghost before = res@;
                let ghost xv = (x.0@, x.1@);
                res.push(x);
                assert(res@.map_values(|e: (String, String)| (e.0@, e.1@)) =~= before.map_values(
                    |e: (String, String)| (e.0@, e.1@),
                ).push(xv));
            },
            None => {},
        }
    }
    assert(lv.subrange(0, lines.len() as int) =~= lv);
    res
}

/// Index of the first ` -> ` at or after `i`, or the length of `s`.
pub open spec fn arrow_from(s: Seq<char>, i: int) -> int
    decreases s.len() - i,
{
    if i < 0 || i + 4 > s.len() {
        s.len() as int
    } else if s.subrange(i, i + 4) == " -> "@ {
        i
    } else {
        arrow_from(s, i + 1)
    }
}

/// The (name, installed, available) triple of an upgrade line
/// `name installed -> available`, if the line is one.
pub open spec fn upgrade_line(l: Seq<char>) -> Option<(Seq<char>, Seq<char>, Seq<char>)> {
    let t = trim(l);
    let k = arrow_from(t, 0);
    if t.len() == 0 || k >= t.len() {
        None
    } else {
        let head = t.subrange(0, k);
        let j = space_from(head, 0);
        if j >= head.len() {
            None
        } else {
            Some((head.subrange(0, j), head.subrange(j + 1, head.len() as int), trim(t.subrange(k + 4, t.len() as int))))
        }
    }
}

/// The upgrade triples of the lines that are upgrade lines.
pub open spec fn upgrade_triples(lines: Seq<Seq<char>>) -> Seq<(Seq<char>, Seq<char>, Seq<char>)>
    decreases lines.len(),
{
    if lines.len() == 0 {
        Seq::empty()
    } else {
        let r = upgrade_triples(lines.drop_last());
        match upgrade_line(lines.last()) {
            Some(x) => r.push(x),
            None => r,
        }
    }
}

/// Index of the first ` -> ` in `cs[a..b]`, or `b`.
fn find_arrow(cs: &Vec<char>, a: usize, b: usize) -> (r: usize)
    requires
        a <= b <= cs.len(),
    ensures
        a <= r <= b,
        r - a == arrow_from(cs@.subrange(a as int, b as int), 0),
        r < b ==> r + 4 <= b,
{
    let ghost t = cs@.subrange(a as int, b as int);
    let mut k: usize = a;
    while b - k >= 4 && !range_is(cs, k, k + 4, " -> ")
        invariant
            a <= k <= b <= cs.len(),
            t == cs@.subrange(a as int, b as int),
            arrow_from(t, k - a) == arrow_from(t, 0),
        decreases b - k,
    {
        assert(t.subrange(k - a, k - a + 4) =~= cs@.subrange(k as int, k + 4));
        k += 1;
    }
    if b - k < 4 {
        return b;
    }
    assert(t.subrange(k - a, k - a + 4) =~= cs@.subrange(k as int, k + 4));
    k
}

/// Index of the first space in `cs[a..b]`, or `b`.
fn find_space(cs: &Vec<char>, a: usize, b: usize) -> (r: usize)
    requires
        a <= b <= cs.len(),
    ensures
        a <= r <= b,
        r - a == space_from(cs@.subrange(a as int, b as int), 0),
{
    let ghost t = cs@.subrange(a as int, b as int);
    let mut j: usize = a;
    while j < b && cs[j] != ' '
        invariant
            a <= j <= b <= cs.len(),
            t == cs@.subrange(a as int, b as int),
            space_from(t, j - a) == space_from(t, 0),
        decreases b - j,
    {
        j += 1;
    }
    j
}

/// The upgrade triple of one line.
#[verifier::rlimit(40)]
fn parse_upgrade_line(line: &str) -> (r: Option<(String, String, String)>)
    ensures
        match upgrade_line(line@) {
            Some((n, o, v)) => r matches Some((a, b, c)) && a@ == n && b@ == o && c@ == v,
            None => r is None,
        },
{
    let cs = chars_of(line);
    let (a, b) = trim_bounds(&cs, 0, cs.len());
    assert(cs@.subrange(0, cs.len() as int) =~= line@);
    let ghost t = cs@.subrange(a as int, b as int);
    if a == b {
        return None;
    }
    let k = find_arrow(&cs, a, b);
    if k == b {
        return None;
    }
    let ghost head = t.subrange(0, k - a);
    assert(head =~= cs@.subrange(a as int, k as int));
    let j = find_space(&cs, a, k);
    if j == k {
        return None;
    }
    let (va, vb) = trim_bounds(&cs, k + 4, b);
    assert(t.subrange(k - a + 4, t.len() as int) =~= cs@.subrange(k + 4, b as int));
    assert(head.subrange(0, j - a) =~= cs@.subrange(a as int, j as int));
    assert(head.subrange(j - a + 1, head.len() as int) =~= cs@.subrange(j + 1, k as int));
    Some((
        line.substring_char(a, j).to_owned(),
        line.substring_char(j + 1, k).to_owned(),
        line.substring_char(va, vb).to_owned(),
    ))
}

/// Reads pending upgrades from `pacman -Qu` output, one
/// `name installed -> available` line each; other lines are passed over.
pub fn parse_upgrade_list(out: &str) -> (r: Vec<(String, String, String)>)
    ensures
        r@.map_values(|e: (String, String, String)| (e.0@, e.1@, e.2@)) == upgrade_triples(lines_from(out@, 0)),
{
    let lines = split_lines(out);
    let ghost lv = strs(lines@);
    let mut res: Vec<(String, String, String)> = Vec::new();
    for t in 0..lines.len()
        invariant
            lv == strs(lines@),
            lv == lines_from(out@, 0),
            res@.map_values(|e: (String, String, String)| (e.0@, e.1@, e.2@)) == upgrade_triples(lv.subrange(0, t as int)),
    {
        let ghost sub = lv.subrange(0, t + 1);
        assert(sub.drop_last() =~= lv.subrange(0, t as int));
        assert(sub.last() == lines@[t as int]@);
        match parse_upgrade_line(lines[t].as_str()) {
            Some(x) => {
                let ghost before = res@;
                let ghost xv = (x.0@, x.1@, x.2@);
                res.push(x);
                assert(res@.map_values(|e: (String, String, String)| (e.0@, e.1@, e.2@)) =~= before.map_values(
                    |e: (String, String, String)| (e.0@, e.1@, e.2@),
                ).push(xv));
            },
            None => {},
        }
    }
    assert(lv.subrange(0, lines.len() as int) =~= lv);
    res
}

/// A character that separates the numbers of a selection.
pub open spec fn is_sep(c: char) -> bool {
    is_ws(c) || c == ','
}

/// Index of the first separator at or after `i`, or the length of `s`.
pub open spec fn token_end(s: Seq<char>, i: int) -> int
    decreases s.len() - i,
{
    if i < 0 || i >= s.len() || is_sep(s[i]) {
        if i < 0 { 0 } else if i > s.len() { s.len() as int } else { i }
    } else {
        token_end(s, i + 1)
    }
}

/// The non-empty separator-free pieces of `s` at or after `i`.
pub open spec fn tokens_from(s: Seq<char>, i: int) -> Seq<Seq<char>>
    decreases s.len() - i, 1int,
{
    if i < 0 || i >= s.len() {
        Seq::empty()
    } else if is_sep(s[i]) {
        tokens_from(s, i + 1)
    } else {
        let e = token_end(s, i);
        if e <= i || e > s.len() {
            Seq::empty()
        } else {
            seq![s.subrange(i, e)] + tokens_from(s, e)
        }
    }
}

/// The decimal value of a string of ASCII digits.
pub open spec fn decimal(t: Seq<char>) -> nat
    decreases t.len(),
{
    if t.len() == 0 {
        0
    } else {
        decimal(t.drop_last()) * 10 + ((t.last() as u32) - ('0' as u32)) as nat
    }
}

/// Every character of `t` is an ASCII digit.
pub open spec fn all_digits(t: Seq<char>) -> bool {
    forall|i: int| 0 <= i < t.len() ==> '0' <= #[trigger] t[i] && t[i] <= '9'
}

/// What `str::parse::<usize>` gives: an optional `+` and at least one digit,
/// whose value fits.
pub open spec fn parsed_number(t: Seq<char>) -> Option<nat> {
    let d = if t.len() > 0 && t[0] == '+' { t.subrange(1, t.len() as int) } else { t };
    if d.len() > 0 && all_digits(d) && decimal(d) <= usize::MAX {
        Some(decimal(d))
    } else {
        None
    }
}

/// The numbers picked by `tokens` out of `count` entries: the tokens that are
/// numbers, in order, or `None` when one is 0 or above `count`.
pub open spec fn picked(tokens: Seq<Seq<char>>, count: nat) -> Option<Seq<nat>>
    decreases tokens.len(),
{
    if tokens.len() == 0 {
        Some(Seq::empty())
    } else {
        match picked(tokens.drop_last(), count) {
            None => None,
            Some(v) => match parsed_number(tokens.last()) {
                Some(n) => if n == 0 || n > count {
                    None
                } else {
                    Some(v.push(n))
                },
                None => Some(v),
            },
        }
    }
}

/// The entries (numbered from 1) that a selection line picks out of `count`:
/// all of them for a blank line, none when a number is out of range.
pub open spec fn selection(line: Seq<char>, count: nat) -> Seq<nat> {
    if trim(line).len() == 0 {
        Seq::new(count, |i: int| (i + 1) as nat)
    } else {
        match picked(tokens_from(line, 0), count) {
            Some(v) => v,
            None => Seq::empty(),
        }
    }
}

/// The tokens of `cs`, as index ranges.
fn token_ranges(cs: &Vec<char>) -> (r: Vec<(usize, usize)>)
    ensures
        r@.map_values(|x: (usize, usize)| cs@.subrange(x.0 as int, x.1 as int)) == tokens_from(cs@, 0),
        forall|k: int| 0 <= k < r.len() ==> (#[trigger] r@[k]).0 <= r@[k].1 <= cs.len(),
{
    let mut out: Vec<(usize, usize)> = Vec::new();
    let mut i: usize = 0;
    assert(out@.map_values(|x: (usize, usize)| cs@.subrange(x.0 as int, x.1 as int)) + tokens_from(cs@, 0)
        =~= tokens_from(cs@, 0));
    while i < cs.len()
        invariant
            i <= cs.len(),
            out@.map_values(|x: (usize, usize)| cs@.subrange(x.0 as int, x.1 as int)) + tokens_from(cs@, i as int)
                == tokens_from(cs@, 0),
            forall|k: int| 0 <= k < out.len() ==> (#[trigger] out@[k]).0 <= out@[k].1 <= cs.len(),
        decreases cs.len() - i,
    {
        if is_whitespace(cs[i]) || cs[i] == ',' {
            i += 1;
        } else {
            let mut e: usize = i;
            while e < cs.len() && !(is_whitespace(cs[e]) || cs[e] == ',')
                invariant
                    i <= e <= cs.len(),
                    token_end(cs@, e as int) == token_end(cs@, i as int),
                decreases cs.len() - e,
            {
                e += 1;
            }
            let ghost before = out@;
            out.push((i, e));
            assert(out@.map_values(|x: (usize, usize)| cs@.subrange(x.0 as int, x.1 as int)) =~= before.map_values(
                |x: (usize, usize)| cs@.subrange(x.0 as int, x.1 as int),
            ).push(cs@.subrange(i as int, e as int)));
            assert(out@.map_values(|x: (usize, usize)| cs@.subrange(x.0 as int, x.1 as int)) + tokens_from(cs@, e as int)
                =~= before.map_values(|x: (usize, usize)| cs@.subrange(x.0 as int, x.1 as int)) + tokens_from(cs@, i as int));
            i = e;
        }
    }
    assert(out@.map_values(|x: (usize, usize)| cs@.subrange(x.0 as int, x.1 as int)) =~= tokens_from(cs@, 0));
    out
}

/// Prefixes of a digit string have no larger value.
proof fn lemma_decimal_prefix(t: Seq<char>, k: int)
    requires
        0 <= k <= t.len(),
        all_digits(t),
    ensures
        decimal(t.subrange(0, k)) <= decimal(t),
    decreases t.len() - k,
{
    if k < t.len() {
        lemma_decimal_prefix(t, k + 1);
        let p = t.subrange(0, k + 1);
        assert(p.drop_last() =~= t.subrange(0, k));
        assert('0' <= p.last());
    } else {
        assert(t.subrange(0, k) =~= t);
    }
}

/// The number that `cs[a..b]` spells, as `str::parse::<usize>` reads it.
fn parse_number(cs: &Vec<char>, a: usize, b: usize) -> (r: Option<usize>)
    requires
        a <= b <= cs.len(),
    ensures
        match parsed_number(cs@.subrange(a as int, b as int)) {
            Some(n) => r == Some(n as usize),
            None => r is None,
        },
{
    let ghost t = cs@.subrange(a as int, b as int);
    let start = if a < b && cs[a] == '+' {
        a + 1
    } else {
        a
    };
    let ghost d = cs@.subrange(start as int, b as int);
    assert(d =~= (if t.len() > 0 && t[0] == '+' { t.subrange(1, t.len() as int) } else { t }));
    if start == b {
        return None;
    }
    let mut v: usize = 0;
    let mut k: usize = start;
    while k < b
        invariant
            a <= start <= k <= b <= cs.len(),
            t == cs@.subrange(a as int, b as int),
            d == (if t.len() > 0 && t[0] == '+' { t.subrange(1, t.len() as int) } else { t }),
            d == cs@.subrange(start as int, b as int),
            all_digits(d.subrange(0, k - start)),
            v as nat == decimal(d.subrange(0, k - start)),
        decreases b - k,
    {
        let c = cs[k];
        let ghost p = d.subrange(0, k - start + 1);
        assert(p.drop_last() =~= d.subrange(0, k - start));
        if !('0' <= c && c <= '9') {
            assert(d[k - start] == c);
            assert(!all_digits(d));
            return None;
        }
        let digit = (c as u32 - '0' as u32) as usize;
        if v > (usize::MAX - digit) / 10 {
            proof {
                assert(all_digits(p));
                assert(decimal(p) == decimal(d.subrange(0, k - start)) * 10 + digit) by {
                    assert(p.last() == c);
                }
                assert(v * 10 + digit > usize::MAX) by (nonlinear_arith)
                    requires v > (usize::MAX - digit) / 10, digit <= 9;
                if all_digits(d) {
                    lemma_decimal_prefix(d, k - start + 1);
                    assert(d.subrange(0, k - start + 1) =~= p);
                }
            }
            return None;
        }
        assert(v * 10 + digit <= usize::MAX) by (nonlinear_arith)
            requires v <= (usize::MAX - digit) / 10, digit <= 9;
        v = v * 10 + digit;
        assert(p.last() == c);
        assert(all_digits(p));
        k += 1;
    }
    assert(d.subrange(0, b - start) =~= d);
    Some(v)
}

/// The entries (numbered from 1) that a selection line picks out of `count`.
pub fn parse_selection(line: &str, count: usize) -> (r: Vec<usize>)
    ensures
        r@.map_values(|n: usize| n as nat) == selection(line@, count as nat),
        forall|k: int| 0 <= k < r.len() ==> 1 <= #[trigger] r@[k] <= count,
{
    let cs = chars_of(line);
    let (a, b) = trim_bounds(&cs, 0, cs.len());
    assert(cs@.subrange(0, cs.len() as int) =~= line@);
    if a == b {
        let mut all: Vec<usize> = Vec::new();
        for i in 0..count
            invariant
                all.len() == i,
                forall|k: int| 0 <= k < all.len() ==> #[trigger] all@[k] == k + 1,
                forall|k: int| 0 <= k < all.len() ==> 1 <= #[trigger] all@[k] <= count,
        {
            all.push(i + 1);
            assert(all@[i as int] == i + 1);
            assert(all@.map_values(|n: usize| n as nat) =~= Seq::new((i + 1) as nat, |j: int| (j + 1) as nat));
        }
        return all;
    }
    assert(trim(line@) == cs@.subrange(a as int, b as int));
    let ranges = token_ranges(&cs);
    let ghost toks = ranges@.map_values(|x: (usize, usize)| cs@.subrange(x.0 as int, x.1 as int));
    let mut out: Vec<usize> = Vec::new();
    for t in 0..ranges.len()
        invariant
            toks == ranges@.map_values(|x: (usize, usize)| cs@.subrange(x.0 as int, x.1 as int)),
            toks == tokens_from(line@, 0),
            trim(line@).len() != 0,
            forall|k: int| 0 <= k < ranges.len() ==> (#[trigger] ranges@[k]).0 <= ranges@[k].1 <= cs.len(),
            picked(toks.subrange(0, t as int), count as nat) == Some(out@.map_values(|n: usize| n as nat)),
            forall|k: int| 0 <= k < out.len() ==> 1 <= #[trigger] out@[k] <= count,
    {
        let ghost sub = toks.subrange(0, t + 1);
        assert(sub.drop_last() =~= toks.subrange(0, t as int));
        assert(sub.last() == toks[t as int]);
        let (x, y) = ranges[t];
        assert(toks[t as int] == cs@.subrange(x as int, y as int));
        match parse_number(&cs, x, y) {
            Some(n) => {
                assert(parsed_number(toks[t as int]) == Some(n as nat));
                if n == 0 || n > count {
                    proof {
                        assert(picked(sub, count as nat) is None);
                        lemma_picked_none_stays(toks, count as nat, t as int + 1);
                        assert(picked(tokens_from(line@, 0), count as nat) is None);
                        assert(selection(line@, count as nat) == Seq::<nat>::empty());
                    }
                    let none: Vec<usize> = Vec::new();
                    assert(none@.map_values(|n: usize| n as nat) =~= Seq::<nat>::empty());
                    return none;
                }
                let ghost before = out@;
                out.push(n);
                assert(out@.map_values(|n: usize| n as nat) =~= before.map_values(|n: usize| n as nat).push(n as nat));
            },
            None => {},
        }
    }
    assert(toks.subrange(0, ranges.len() as int) =~= toks);
    out
}

/// Once a prefix of the tokens rules a selection out, so do all longer ones.
proof fn lemma_picked_none_stays(tokens: Seq<Seq<char>>, count: nat, k: int)
    requires
        0 <= k <= tokens.len(),
        picked(tokens.subrange(0, k), count) is None,
    ensures
        picked(tokens, count) is None,
    decreases tokens.len() - k,
{
    if k < tokens.len() {
        let p = tokens.subrange(0, k + 1);
        assert(p.drop_last() =~= tokens.subrange(0, k));
        lemma_picked_none_stays(tokens, count, k + 1);
    } else {
        assert(tokens.subrange(0, k) =~= tokens);
    }
}

/// The arguments of a package-manager install of built package files:
/// `-U`, then `--noconfirm` when asked, then the files.
pub fn pacman_u_args(zsts: &Vec<String>, noconfirm: bool) -> (r: Vec<String>)
    ensures
        strs(r@) == seq!["-U"@] + (if noconfirm { seq!["--noconfirm"@] } else { Seq::empty() }) + strs(zsts@),
{
    let mut args: Vec<String> = Vec::new();
    args.push(String::from_str("-U"));
    if noconfirm {
        args.push(String::from_str("--noconfirm"));
    }
    let ghost head = strs(args@);
    assert(head =~= seq!["-U"@] + (if noconfirm { seq!["--noconfirm"@] } else { Seq::<Seq<char>>::empty() }));
    for k in 0..zsts.len()
        invariant
            strs(args@) == head + strs(zsts@).subrange(0, k as int),
    {
        let ghost before = args@;
        args.push(zsts[k].clone());
        assert(strs(args@) =~= strs(before).push(zsts@[k as int]@));
        assert(strs(args@) =~= head + strs(zsts@).subrange(0, k + 1));
    }
    assert(strs(zsts@).subrange(0, zsts.len() as int) =~= strs(zsts@));
    args
}

/// A package requested from a user repository.
#[derive(Debug, Clone)]
pub struct AurRequest {
    /// The package name.
    pub name: String,
    /// The argument as the user wrote it.
    pub display: String,
    /// Where its metadata and sources come from.
    pub source: AurSource,
}

/// How the targets of an install split before the package manager is asked.
#[derive(Debug)]
pub struct SyncTargets {
    /// Options and packages named with a system repository.
    pub repo: Vec<String>,
    /// Packages named with `aur/` or `github-aur/`.
    pub aur: Vec<AurRequest>,
    /// Bare names, to be looked up in the system repositories.
    pub undecided: Vec<String>,
}

/// Where an explicit repository name sends a package: `aur` to the official
/// source, `github-aur` to the mirror, any other to the package manager.
pub open spec fn repo_source(repo: Seq<char>) -> Option<AurSource> {
    if crate::config::eq_ignore_case(repo, "aur"@) {
        Some(AurSource::Official)
    } else if crate::config::eq_ignore_case(repo, "github-aur"@) {
        Some(AurSource::Github)
    } else {
        None
    }
}

/// The class of one target.
pub enum TargetClass {
    Repo,
    Aur(AurSource),
    Undecided,
}

/// The class of a target: an option or a package of a system repository goes
/// to the package manager, `aur/x` and `github-aur/x` to a user repository,
/// and a bare name must be looked up.
pub open spec fn target_class(arg: Seq<char>) -> TargetClass {
    if arg.len() > 0 && arg[0] == '-' {
        TargetClass::Repo
    } else {
        match repo_notation(arg) {
            Some((repo, _)) => match repo_source(repo) {
                Some(src) => TargetClass::Aur(src),
                None => TargetClass::Repo,
            },
            None => TargetClass::Undecided,
        }
    }
}

/// The views of requests: (name, display, source).
pub open spec fn requests_view(v: Seq<AurRequest>) -> Seq<(Seq<char>, Seq<char>, AurSource)> {
    v.map_values(|q: AurRequest| (q.name@, q.display@, q.source))
}

/// How targets split, in order: package-manager targets, user-repository
/// requests (name, argument, source), and bare names.
pub open spec fn classified(args: Seq<Seq<char>>) -> (Seq<Seq<char>>, Seq<(Seq<char>, Seq<char>, AurSource)>, Seq<Seq<char>>)
    decreases args.len(),
{
    if args.len() == 0 {
        (Seq::empty(), Seq::empty(), Seq::empty())
    } else {
        let (r, a, u) = classified(args.drop_last());
        let x = args.last();
        match target_class(x) {
            TargetClass::Repo => (r.push(x), a, u),
            TargetClass::Aur(src) => (r, a.push((repo_notation(x).unwrap().1, x, src)), u),
            TargetClass::Undecided => (r, a, u.push(x)),
        }
    }
}

/// Sorts install targets by where they are named to come from, keeping their order.
pub fn classify_sync_targets(pkgs: &Vec<String>) -> (r: SyncTargets)
    ensures
        (strs(r.repo@), requests_view(r.aur@), strs(r.undecided@)) == classified(strs(pkgs@)),
{
    let ghost pv = strs(pkgs@);
    let mut repo: Vec<String> = Vec::new();
    let mut aur: Vec<AurRequest> = Vec::new();
    let mut undecided: Vec<String> = Vec::new();
    for k in 0..pkgs.len()
        invariant
            pv == strs(pkgs@),
            (strs(repo@), requests_view(aur@), strs(undecided@)) == classified(pv.subrange(0, k as int)),
    {
        let ghost sub = pv.subrange(0, k + 1);
        assert(sub.drop_last() =~= pv.subrange(0, k as int));
        assert(sub.last() == pkgs@[k as int]@);
        let pkg = &pkgs[k];
        let cs = chars_of(pkg.as_str());
        let ghost before_repo = repo@;
        let ghost before_und = undecided@;
        let ghost before_aur = aur@;
        if cs.len() > 0 && cs[0] == '-' {
            repo.push(pkg.clone());
            assert(strs(repo@) =~= strs(before_repo).push(pkg@));
        } else {
            match split_repo_notation(pkg.as_str()) {
                Some((r, name)) => {
                    if crate::config::equals_ignore_case(r, "aur") {
                        aur.push(AurRequest { name: name.to_owned(), display: pkg.clone(), source: AurSource::Official });
                        assert(requests_view(aur@) =~= requests_view(before_aur).push((name@, pkg@, AurSource::Official)));
                    } else if crate::config::equals_ignore_case(r, "github-aur") {
                        aur.push(AurRequest { name: name.to_owned(), display: pkg.clone(), source: AurSource::Github });
                        assert(requests_view(aur@) =~= requests_view(before_aur).push((name@, pkg@, AurSource::Github)));
                    } else {
                        repo.push(pkg.clone());
                        assert(strs(repo@) =~= strs(before_repo).push(pkg@));
                    }
                },
                None => {
                    undecided.push(pkg.clone());
                    assert(strs(undecided@) =~= strs(before_und).push(pkg@));
                },
            }
        }
    }
    assert(pv.subrange(0, pkgs.len() as int) =~= pv);
    SyncTargets { repo, aur, undecided }
}

} // verus!
