//! Character-level helpers shared by the parsers.

use vstd::prelude::*;
use vstd::string::StrSliceExecFns;

verus! {

/// Collects the characters of `s` into a vector.
pub fn chars_of(s: &str) -> (r: Vec<char>)
    ensures
        r@ == s@,
{
    let mut out: Vec<char> = Vec::new();
    for c in it: s.chars()
        invariant
            out@ == it.seq().subrange(0, it.index() as int),
            it.seq() == s@,
    {
        out.push(c);
    }
    out
}

/// Index of the first version-constraint operator (`<`, `>` or `=`) at or after `i`,
/// or the length of `s` when there is none.
pub open spec fn constraint_start(s: Seq<char>, i: int) -> int
    decreases s.len() - i,
{
    if i >= s.len() {
        s.len() as int
    } else if s[i] == '<' || s[i] == '>' || s[i] == '=' {
        i
    } else {
        constraint_start(s, i + 1)
    }
}

/// The package name of a dependency declaration: everything before the first
/// comparison operator.
pub open spec fn stripped(dep: Seq<char>) -> Seq<char> {
    dep.subrange(0, constraint_start(dep, 0))
}

/// `constraint_start` lies between its starting point and the end of the sequence.
pub proof fn lemma_constraint_start_bounds(s: Seq<char>, i: int)
    requires
        0 <= i <= s.len(),
    ensures
        i <= constraint_start(s, i) <= s.len(),
    decreases s.len() - i,
{
    if i < s.len() && !(s[i] == '<' || s[i] == '>' || s[i] == '=') {
        lemma_constraint_start_bounds(s, i + 1);
    }
}

/// Removes a version constraint from a dependency declaration (`foo>=1.2` gives `foo`).
pub fn strip_version(dep: &str) -> (r: String)
    ensures
        r@ == stripped(dep@),
{
    let cs = chars_of(dep);
    let mut k: usize = 0;
    while k < cs.len() && !(cs[k] == '<' || cs[k] == '>' || cs[k] == '=')
        invariant
            cs@ == dep@,
            k <= cs.len(),
            constraint_start(dep@, k as int) == constraint_start(dep@, 0),
        decreases cs.len() - k,
    {
        k += 1;
    }
    proof {
        lemma_constraint_start_bounds(dep@, 0);
    }
    dep.substring_char(0, k).to_owned()
}

/// Unicode white space, as `char::is_whitespace` defines it.
pub open spec fn is_ws(c: char) -> bool {
    let u = c as u32;
    ||| 9 <= u <= 13
    ||| u == 32
    ||| u == 0x85
    ||| u == 0xA0
    ||| u == 0x1680
    ||| 0x2000 <= u <= 0x200A
    ||| u == 0x2028
    ||| u == 0x2029
    ||| u == 0x202F
    ||| u == 0x205F
    ||| u == 0x3000
}

/// Tells whether `c` is white space.
pub fn is_whitespace(c: char) -> (r: bool)
    ensures
        r == is_ws(c),
{
    let u = c as u32;
    (9 <= u && u <= 13) || u == 32 || u == 0x85 || u == 0xA0 || u == 0x1680 || (0x2000 <= u && u
        <= 0x200A) || u == 0x2028 || u == 0x2029 || u == 0x202F || u == 0x205F || u == 0x3000
}

/// First index at or after `i` that does not hold white space.
pub open spec fn skip_ws(s: Seq<char>, i: int) -> int
    decreases s.len() - i,
{
    if 0 <= i < s.len() && is_ws(s[i]) {
        skip_ws(s, i + 1)
    } else {
        i
    }
}

/// End of `s` once the white space before `j` and at or after `lo` is dropped.
pub open spec fn skip_ws_back(s: Seq<char>, lo: int, j: int) -> int
    decreases j - lo,
{
    if lo < j && j <= s.len() && is_ws(s[j - 1]) {
        skip_ws_back(s, lo, j - 1)
    } else {
        j
    }
}

/// `s` without leading and trailing white space.
pub open spec fn trim(s: Seq<char>) -> Seq<char> {
    let a = skip_ws(s, 0);
    s.subrange(a, skip_ws_back(s, a, s.len() as int))
}

/// Bounds of the trimmed form of `cs[lo..hi]`.
pub fn trim_bounds(cs: &Vec<char>, lo: usize, hi: usize) -> (r: (usize, usize))
    requires
        lo <= hi <= cs.len(),
    ensures
        lo <= r.0 <= r.1 <= hi,
        cs@.subrange(r.0 as int, r.1 as int) == trim(cs@.subrange(lo as int, hi as int)),
{
    let ghost line = cs@.subrange(lo as int, hi as int);
    let mut p: usize = lo;
    while p < hi && is_whitespace(cs[p])
        invariant
            lo <= p <= hi <= cs.len(),
            line == cs@.subrange(lo as int, hi as int),
            skip_ws(line, p - lo) == skip_ws(line, 0),
        decreases hi - p,
    {
        p += 1;
    }
    let ghost a = p - lo;
    assert(skip_ws(line, a) == a);
    let mut q: usize = hi;
    while q > p && is_whitespace(cs[q - 1])
        invariant
            lo <= p <= q <= hi <= cs.len(),
            line == cs@.subrange(lo as int, hi as int),
            a == p - lo,
            skip_ws_back(line, a, q - lo) == skip_ws_back(line, a, line.len() as int),
        decreases q - p,
    {
        q -= 1;
    }
    assert(skip_ws_back(line, a, q - lo) == q - lo);
    assert(cs@.subrange(p as int, q as int) =~= line.subrange(a, q - lo));
    (p, q)
}

/// Tells whether `cs[lo..hi]` spells `lit`.
pub fn range_is(cs: &Vec<char>, lo: usize, hi: usize, lit: &str) -> (r: bool)
    requires
        lo <= hi <= cs.len(),
    ensures
        r == (cs@.subrange(lo as int, hi as int) == lit@),
{
    let n = lit.unicode_len();
    if hi - lo != n {
        return false;
    }
    let mut k: usize = 0;
    while k < n
        invariant
            lo <= hi <= cs.len(),
            hi - lo == n,
            n == lit@.len(),
            k <= n,
            forall|j: int| 0 <= j < k ==> cs@[lo + j] == lit@[j],
        decreases n - k,
    {
        if cs[lo + k] != lit.get_char(k) {
            assert(cs@.subrange(lo as int, hi as int)[k as int] != lit@[k as int]);
            return false;
        }
        k += 1;
    }
    assert(cs@.subrange(lo as int, hi as int) =~= lit@);
    true
}

/// `s` begins with `p`.
pub open spec fn has_prefix(s: Seq<char>, p: Seq<char>) -> bool {
    p.len() <= s.len() && s.subrange(0, p.len() as int) == p
}

/// Tells whether `cs[lo..hi]` begins with `lit`.
pub fn range_starts_with(cs: &Vec<char>, lo: usize, hi: usize, lit: &str) -> (r: bool)
    requires
        lo <= hi <= cs.len(),
    ensures
        r == has_prefix(cs@.subrange(lo as int, hi as int), lit@),
{
    let n = lit.unicode_len();
    if hi - lo < n {
        return false;
    }
    let r = range_is(cs, lo, lo + n, lit);
    assert(cs@.subrange(lo as int, hi as int).subrange(0, n as int) =~= cs@.subrange(
        lo as int,
        lo + n,
    ));
    r
}

} // verus!
