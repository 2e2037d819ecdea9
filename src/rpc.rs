//! Requests to the official metadata endpoint, and the batch that any
//! metadata source is asked for.

use crate::info::strs;
use vstd::prelude::*;
use vstd::string::StringExecFns;

verus! {

/// The endpoint of the info query, protocol version 5.
pub const RPC_INFO_BASE: &'static str = "https://aur.archlinux.org/rpc/?v=5&type=info";

/// What urlencoding's `encode` gives for a string.
pub uninterp spec fn url_encoded(s: Seq<char>) -> Seq<char>;

/// A character that urlencoding leaves as it is.
pub open spec fn is_unreserved(c: char) -> bool {
    ('a' <= c && c <= 'z') || ('A' <= c && c <= 'Z') || ('0' <= c && c <= '9') || c == '-' || c
        == '_' || c == '.' || c == '~'
}

/// Relies on urlencoding's `encode`: it percent-encodes every byte but ASCII
/// alphanumerics and `-`, `_`, `.`, `~`, so a string of those comes back as it is.
#[verifier::external_body]
fn encode_component(s: &str) -> (r: String)
    ensures
        r@ == url_encoded(s@),
        (forall|i: int| 0 <= i < s@.len() ==> is_unreserved(#[trigger] s@[i])) ==> r@ == s@,
{
    urlencoding::encode(s).into_owned()
}

/// The query suffix for `names`: one `&arg[]=` parameter per name.
pub open spec fn rpc_args(names: Seq<Seq<char>>) -> Seq<char>
    decreases names.len(),
{
    if names.len() == 0 {
        Seq::empty()
    } else {
        rpc_args(names.drop_last()) + "&arg[]="@ + url_encoded(names.last())
    }
}

/// The info request URL for `names`, or `None` for no names: an empty batch
/// needs no request.
pub fn rpc_info_url(names: &Vec<String>) -> (r: Option<String>)
    ensures
        names.len() == 0 <==> r is None,
        r matches Some(u) ==> u@ == RPC_INFO_BASE@ + rpc_args(strs(names@)),
{
    if names.len() == 0 {
        return None;
    }
    let ghost nv = strs(names@);
    let mut url = String::from_str(RPC_INFO_BASE);
    for k in 0..names.len()
        invariant
            nv == strs(names@),
            url@ == RPC_INFO_BASE@ + rpc_args(nv.subrange(0, k as int)),
    {
        let ghost sub = nv.subrange(0, k + 1);
        assert(sub.drop_last() =~= nv.subrange(0, k as int));
        assert(sub.last() == names@[k as int]@);
        url.append("&arg[]=");
        let enc = encode_component(names[k].as_str());
        url.append(enc.as_str());
        assert(url@ =~= RPC_INFO_BASE@ + rpc_args(sub));
    }
    assert(nv.subrange(0, names.len() as int) =~= nv);
    Some(url)
}

/// `names` with repeats removed, first occurrences kept in order.
pub open spec fn distinct(names: Seq<Seq<char>>) -> Seq<Seq<char>>
    decreases names.len(),
{
    if names.len() == 0 {
        Seq::empty()
    } else {
        let r = distinct(names.drop_last());
        if r.contains(names.last()) {
            r
        } else {
            r.push(names.last())
        }
    }
}

/// The names to ask a metadata source for: each requested name once, in order.
pub fn unique_names(names: &Vec<String>) -> (r: Vec<String>)
    ensures
        strs(r@) == distinct(strs(names@)),
{
    let ghost nv = strs(names@);
    let mut out: Vec<String> = Vec::new();
    for k in 0..names.len()
        invariant
            nv == strs(names@),
            strs(out@) == distinct(nv.subrange(0, k as int)),
    {
        let ghost sub = nv.subrange(0, k + 1);
        assert(sub.drop_last() =~= nv.subrange(0, k as int));
        assert(sub.last() == names@[k as int]@);
        let seen = crate::mirror::contains_string(&out, &names[k]);
        if !seen {
            let ghost before = out@;
            out.push(names[k].clone());
            assert(strs(out@) =~= strs(before).push(names@[k as int]@));
        }
    }
    assert(nv.subrange(0, names.len() as int) =~= nv);
    out
}

} // verus!
