//! The top-level members of a JSON request body, as the body checks read
//! them: each member's name, and whether it is a string, a non-negative
//! integer, an object (with its member names) or anything else.

use vstd::prelude::*;
use serde_json::Value;
use crate::text::{str_equals, texts};

verus! {

/// What a body check reads of one member.
pub enum MemberShape {
    Text(String),
    /// A number that is a non-negative integer below 2^64.
    Unsigned(u64),
    /// An object, by the names of its members.
    Object(Vec<String>),
    /// Null, a boolean, an array, or another number.
    Other,
}

pub enum MemberShapeView {
    Text(Seq<char>),
    Unsigned(u64),
    Object(Seq<Seq<char>>),
    Other,
}

impl View for MemberShape {
    type V = MemberShapeView;

    open spec fn view(&self) -> MemberShapeView {
        match self {
            MemberShape::Text(s) => MemberShapeView::Text(s@),
            MemberShape::Unsigned(n) => MemberShapeView::Unsigned(*n),
            MemberShape::Object(keys) => MemberShapeView::Object(texts(keys@)),
            MemberShape::Other => MemberShapeView::Other,
        }
    }
}

pub open spec fn members_view(ms: Seq<(String, MemberShape)>) -> Seq<(Seq<char>, MemberShapeView)> {
    ms.map_values(|m: (String, MemberShape)| (m.0@, m.1@))
}

/// What `serde_json` makes of a text: the text of its error, `None` for a
/// JSON value that is not an object, or the object's members in the order
/// `serde_json` keeps them, each name once.
pub uninterp spec fn json_members(text: Seq<char>) -> Result<Option<Seq<(Seq<char>, MemberShapeView)>>, Seq<char>>;

/// Calls `serde_json::from_str::<Value>` and, for an object, reads each
/// member with `as_u64` and the variants of `Value`.  The claim: the outcome
/// is `json_members` of the text; what serde_json accepts is not stated.
#[verifier::external_body]
pub(crate) fn read_json_members(text: &str) -> (r: Result<Option<Vec<(String, MemberShape)>>, String>)
    ensures
        match r {
            Ok(Some(ms)) => json_members(text@) == Ok::<_, Seq<char>>(Some(members_view(ms@))),
            Ok(None) => json_members(text@) == Ok::<Option<Seq<(Seq<char>, MemberShapeView)>>, Seq<char>>(None),
            Err(e) => json_members(text@) == Err::<Option<Seq<(Seq<char>, MemberShapeView)>>, Seq<char>>(e@),
        },
{
    let v: Value = serde_json::from_str(text).map_err(|e| e.to_string())?;
    Ok(v.as_object().map(|o| o.iter().map(|(k, x)| (k.clone(), match x {
        Value::String(s) => MemberShape::Text(s.clone()),
        Value::Number(n) => n.as_u64().map_or(MemberShape::Other, MemberShape::Unsigned),
        Value::Object(m) => MemberShape::Object(m.keys().cloned().collect()),
        _ => MemberShape::Other,
    })).collect()))
}

/// The member named `key`, from position `k` on.
pub open spec fn member_from(ms: Seq<(Seq<char>, MemberShapeView)>, key: Seq<char>, k: int) -> Option<MemberShapeView>
    decreases ms.len() - k,
{
    if k < 0 || k >= ms.len() {
        None
    } else if ms[k].0 == key {
        Some(ms[k].1)
    } else {
        member_from(ms, key, k + 1)
    }
}

/// The member named `key` of a body; a body that is no object has none.
pub open spec fn body_member(m: Option<Seq<(Seq<char>, MemberShapeView)>>, key: Seq<char>) -> Option<MemberShapeView> {
    match m {
        Some(ms) => member_from(ms, key, 0),
        None => None,
    }
}

/// The member `key` when it is a string (`Value::get` then `as_str`).
pub open spec fn body_text(m: Option<Seq<(Seq<char>, MemberShapeView)>>, key: Seq<char>) -> Option<Seq<char>> {
    match body_member(m, key) {
        Some(MemberShapeView::Text(s)) => Some(s),
        _ => None,
    }
}

/// The member `key` when it is a non-negative integer (`as_u64`).
pub open spec fn body_unsigned(m: Option<Seq<(Seq<char>, MemberShapeView)>>, key: Seq<char>) -> Option<u64> {
    match body_member(m, key) {
        Some(MemberShapeView::Unsigned(n)) => Some(n),
        _ => None,
    }
}

/// The names of a body's members, or `None` when it is no object.
pub open spec fn body_keys(m: Option<Seq<(Seq<char>, MemberShapeView)>>) -> Option<Seq<Seq<char>>> {
    match m {
        Some(ms) => Some(ms.map_values(|p: (Seq<char>, MemberShapeView)| p.0)),
        None => None,
    }
}

/// The member named `key`.
pub fn find_member<'a>(ms: &'a Vec<(String, MemberShape)>, key: &str) -> (r: Option<&'a MemberShape>)
    ensures
        match r {
            Some(v) => member_from(members_view(ms@), key@, 0) == Some(v@),
            None => member_from(members_view(ms@), key@, 0) is None,
        },
{
    let ghost mv = members_view(ms@);
    let n = ms.len();
    let mut k: usize = 0;
    while k < n
        invariant
            n == ms@.len(),
            mv == members_view(ms@),
            k <= n,
            member_from(mv, key@, 0) == member_from(mv, key@, k as int),
        decreases n - k,
    {
        assert(mv[k as int] == (ms@[k as int].0@, ms@[k as int].1@));
        if str_equals(ms[k].0.as_str(), key) {
            return Some(&ms[k].1);
        }
        k = k + 1;
    }
    None
}

/// The names of the members.
pub fn member_names(ms: &Vec<(String, MemberShape)>) -> (r: Vec<String>)
    ensures
        texts(r@) == members_view(ms@).map_values(|p: (Seq<char>, MemberShapeView)| p.0),
{
    let mut r: Vec<String> = Vec::new();
    let n = ms.len();
    let mut k: usize = 0;
    while k < n
        invariant
            n == ms@.len(),
            k <= n,
            texts(r@) == members_view(ms@).map_values(|p: (Seq<char>, MemberShapeView)| p.0).take(k as int),
        decreases n - k,
    {
        let ghost before = texts(r@);
        r.push(ms[k].0.clone());
        assert(texts(r@) =~= before.push(ms@[k as int].0@));
        assert(members_view(ms@).map_values(|p: (Seq<char>, MemberShapeView)| p.0).take(k + 1) =~= before.push(
            ms@[k as int].0@,
        ));
        k = k + 1;
    }
    assert(members_view(ms@).map_values(|p: (Seq<char>, MemberShapeView)| p.0).take(n as int)
        =~= members_view(ms@).map_values(|p: (Seq<char>, MemberShapeView)| p.0));
    r
}

/// The member `key` when it is a string.
pub fn text_member(ms: &Option<Vec<(String, MemberShape)>>, key: &str) -> (r: Option<String>)
    ensures
        crate::text::opt_view(r) == body_text(opt_members_view(*ms), key@),
{
    match ms {
        Some(v) => match find_member(v, key) {
            Some(MemberShape::Text(s)) => Some(s.clone()),
            _ => None,
        },
        None => None,
    }
}

/// The member `key` when it is a non-negative integer.
pub fn unsigned_member(ms: &Option<Vec<(String, MemberShape)>>, key: &str) -> (r: Option<u64>)
    ensures
        r == body_unsigned(opt_members_view(*ms), key@),
{
    match ms {
        Some(v) => match find_member(v, key) {
            Some(MemberShape::Unsigned(n)) => Some(*n),
            _ => None,
        },
        None => None,
    }
}

/// Whether the body has a member `key`.
pub fn has_member(ms: &Option<Vec<(String, MemberShape)>>, key: &str) -> (r: bool)
    ensures
        r == (body_member(opt_members_view(*ms), key@) is Some),
{
    match ms {
        Some(v) => find_member(v, key).is_some(),
        None => false,
    }
}

/// The names of the body's members, `None` when it is no object.
pub fn body_member_names(ms: &Option<Vec<(String, MemberShape)>>) -> (r: Option<Vec<String>>)
    ensures
        crate::grants::opt_keys(match r { Some(k) => Some(&k), None => None }) == body_keys(opt_members_view(*ms)),
{
    match ms {
        Some(v) => Some(member_names(v)),
        None => None,
    }
}

pub open spec fn opt_members_view(ms: Option<Vec<(String, MemberShape)>>) -> Option<Seq<(Seq<char>, MemberShapeView)>> {
    match ms {
        Some(v) => Some(members_view(v@)),
        None => None,
    }
}

} // verus!
