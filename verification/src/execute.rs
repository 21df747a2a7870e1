//! The short form of a workspace execute request: a capability id, with an
//! optional version and request id.

use vstd::prelude::*;
use crate::text::{ascii_alnum, chars_of, is_ascii_alnum, owned, slice_vec, string_of, trim_bounds, trimmed};
use crate::routes::opt_str_view;

verus! {

/// The capability, version and request id of a short execute request.
pub struct SimplifiedExecute {
    pub capability_id: String,
    pub capability_version: String,
    pub request_id: String,
}

/// `c`, or `_` when it is not an ASCII letter or digit.
pub open spec fn id_char(c: char) -> char {
    if is_ascii_alnum(c) { c } else { '_' }
}

/// A trimmed optional value that is not empty.
pub open spec fn trimmed_present(v: Option<Seq<char>>) -> Option<Seq<char>> {
    match v {
        Some(x) => if trimmed(x).len() > 0 { Some(trimmed(x)) } else { None },
        None => None,
    }
}

/// The short form: the trimmed capability id, which must not be empty; the
/// trimmed version, `1.0.0` by default; the trimmed request id, by default
/// `http_` and the capability id with every character that is not an ASCII
/// letter or digit replaced by `_`.
pub open spec fn simplified_execute(
    capability_id: Seq<char>,
    capability_version: Option<Seq<char>>,
    request_id: Option<Seq<char>>,
) -> Option<(Seq<char>, Seq<char>, Seq<char>)> {
    let cap = trimmed(capability_id);
    if cap.len() == 0 {
        None
    } else {
        let version = match trimmed_present(capability_version) {
            Some(v) => v,
            None => "1.0.0"@,
        };
        let rid = match trimmed_present(request_id) {
            Some(r) => r,
            None => "http_"@ + cap.map_values(|c: char| id_char(c)),
        };
        Some((cap, version, rid))
    }
}

fn trimmed_string(s: &str) -> (r: String)
    ensures
        r@ == trimmed(s@),
{
    let v = chars_of(s);
    let (a, b) = trim_bounds(v.as_slice());
    let t = slice_vec(v.as_slice(), a, b);
    string_of(t.as_slice())
}

fn present(v: Option<&str>) -> (r: Option<String>)
    ensures
        crate::text::opt_view(r) == trimmed_present(opt_str_view(v)),
{
    match v {
        Some(x) => {
            let t = trimmed_string(x);
            if t.as_str().unicode_len() > 0 {
                Some(t)
            } else {
                None
            }
        },
        None => None,
    }
}

/// Reads the short form of an execute request, or `None` when its
/// capability id is blank.
pub fn parse_simplified_workspace_execute_request(
    capability_id: &str,
    capability_version: Option<&str>,
    request_id: Option<&str>,
) -> (r: Option<SimplifiedExecute>)
    ensures
        match (r, simplified_execute(capability_id@, opt_str_view(capability_version), opt_str_view(request_id))) {
            (Some(e), Some((c, v, q))) => e.capability_id@ == c && e.capability_version@ == v && e.request_id@ == q,
            (None, None) => true,
            _ => false,
        },
{
    let cap = trimmed_string(capability_id);
    if cap.as_str().unicode_len() == 0 {
        return None;
    }
    let capability_version = match present(capability_version) {
        Some(v) => v,
        None => owned("1.0.0"),
    };
    let request_id = match present(request_id) {
        Some(r) => r,
        None => {
            let cv = chars_of(cap.as_str());
            let mut id = owned("http_");
            let mut i: usize = 0;
            while i < cv.len()
                invariant
                    i <= cv@.len(),
                    cv@ == cap@,
                    id@ == "http_"@ + cv@.take(i as int).map_values(|c: char| id_char(c)),
                decreases cv.len() - i,
            {
                let c = cv[i];
                let mapped = if ascii_alnum(c) { c } else { '_' };
                id.push(mapped);
                i = i + 1;
                assert(id@ =~= "http_"@ + cv@.take(i as int).map_values(|c: char| id_char(c)));
            }
            assert(cv@.take(i as int) =~= cv@);
            id
        },
    };
    Some(SimplifiedExecute { capability_id: cap, capability_version, request_id })
}

} // verus!
