//! JSON values.

use serde_json::Value;
use vstd::prelude::*;

use crate::binary64::{Binary64, Real64};
use crate::keyed::{find, lemma_put_skip, put};
use crate::text::{chars_of, same};

verus! {

/// A JSON value.
pub enum Json {
    /// `null`.
    Null,
    /// `true` or `false`.
    Bool(bool),
    /// A whole number that is not negative.
    Uint(u64),
    /// A whole number.
    Int(i64),
    /// Any other number.
    Float(Binary64),
    /// A string.
    Text(String),
    /// An array.
    Array(Vec<Json>),
    /// An object. Where a name occurs twice the first member counts.
    Object(Vec<(String, Json)>),
}

/// What a JSON value says.
pub enum Tree {
    Null,
    Bool(bool),
    Number(int),
    Float(Real64),
    Text(Seq<char>),
    Array(Seq<Tree>),
    Object(Seq<(Seq<char>, Tree)>),
}

/// What `json` says.
pub open spec fn tree(json: Json) -> Tree
    decreases json,
{
    match json {
        Json::Null => Tree::Null,
        Json::Bool(b) => Tree::Bool(b),
        Json::Uint(n) => Tree::Number(n as int),
        Json::Int(n) => Tree::Number(n as int),
        Json::Float(x) => Tree::Float(x@),
        Json::Text(s) => Tree::Text(s@),
        Json::Array(items) => Tree::Array(
            Seq::new(
                items@.len(),
                |i: int|
                    if 0 <= i < items@.len() {
                        tree(items@[i])
                    } else {
                        Tree::Null
                    },
            ),
        ),
        Json::Object(members) => Tree::Object(
            Seq::new(
                members@.len(),
                |i: int|
                    if 0 <= i < members@.len() {
                        (members@[i].0@, tree(members@[i].1))
                    } else {
                        (seq![], Tree::Null)
                    },
            ),
        ),
    }
}

impl View for Json {
    type V = Tree;

    open spec fn view(&self) -> Tree {
        tree(*self)
    }
}

// ── Reading ──────────────────────────────────────────────────────────────────

/// The member `key` of `node`, where that is an object that has it.
pub open spec fn member(node: Option<Tree>, key: Seq<char>) -> Option<Tree> {
    match node {
        Some(Tree::Object(members)) => find(members, key),
        _ => None,
    }
}

/// The text of `node`, empty where it is not a string.
pub open spec fn text_of(node: Option<Tree>) -> Seq<char> {
    match node {
        Some(Tree::Text(s)) => s,
        _ => seq![],
    }
}

/// The 64-bit whole number that `node` is.
pub open spec fn integer_of(node: Option<Tree>) -> Option<int> {
    match node {
        Some(Tree::Number(n)) => if i64::MIN <= n <= i64::MAX {
            Some(n)
        } else {
            None
        },
        _ => None,
    }
}

/// The items of `node`, where that is an array.
pub open spec fn items_of(node: Option<Tree>) -> Option<Seq<Tree>> {
    match node {
        Some(Tree::Array(items)) => Some(items),
        _ => None,
    }
}

/// The tree of a value that may be missing.
pub open spec fn node_of(node: Option<&Json>) -> Option<Tree> {
    match node {
        Some(v) => Some(v@),
        None => None,
    }
}

/// The member `key` of `node`, where that is an object that has it.
pub fn get<'a>(node: Option<&'a Json>, key: &str) -> (r: Option<&'a Json>)
    ensures
        node_of(r) == member(node_of(node), key@),
{
    match node {
        Some(Json::Object(members)) => {
            let mut i: usize = 0;
            let ghost all = match node_of(node) {
                Some(Tree::Object(m)) => m,
                _ => seq![],
            };
            proof {
                assert(all.skip(0) == all);
            }
            while i < members.len()
                invariant
                    i <= members.len(),
                    all.len() == members@.len(),
                    forall|j: int|
                        0 <= j < all.len() ==> #[trigger] all[j] == (members@[j].0@, tree(members@[j].1)),
                    member(node_of(node), key@) == find(all.skip(i as int), key@),
                decreases members.len() - i,
            {
                assert(all.skip(i as int)[0] == all[i as int]);
                assert(all.skip(i as int).drop_first() == all.skip(i + 1));
                if same(members[i].0.as_str(), key) {
                    return Some(&members[i].1);
                }
                i = i + 1;
            }
            None
        },
        _ => None,
    }
}

/// The text of `node`, where it is a string.
pub fn as_text<'a>(node: Option<&'a Json>) -> (r: Option<&'a str>)
    ensures
        match r {
            Some(s) => node_of(node) == Some(Tree::Text(s@)),
            None => !(node_of(node) matches Some(Tree::Text(_))),
        },
{
    match node {
        Some(Json::Text(s)) => Some(s.as_str()),
        _ => None,
    }
}

/// The text of `node`, empty where it is not a string.
pub fn text_or_empty<'a>(node: Option<&'a Json>) -> (r: &'a str)
    ensures
        r@ == text_of(node_of(node)),
{
    match as_text(node) {
        Some(s) => s,
        None => {
            proof {
                reveal_strlit("");
            }
            assert(""@ =~= seq![]);
            ""
        },
    }
}

/// The 64-bit whole number that `node` is.
pub fn as_integer(node: Option<&Json>) -> (r: Option<i64>)
    ensures
        match r {
            Some(n) => integer_of(node_of(node)) == Some(n as int),
            None => integer_of(node_of(node)) is None,
        },
{
    match node {
        Some(Json::Uint(n)) => if *n <= 0x7fff_ffff_ffff_ffff {
            Some(*n as i64)
        } else {
            None
        },
        Some(Json::Int(n)) => Some(*n),
        _ => None,
    }
}

/// Whether `node` is `true`.
pub fn is_true(node: Option<&Json>) -> (r: bool)
    ensures
        r == (node_of(node) == Some(Tree::Bool(true))),
{
    match node {
        Some(Json::Bool(b)) => *b,
        _ => false,
    }
}

/// The items of `node`, where that is an array.
pub fn as_items<'a>(node: Option<&'a Json>) -> (r: Option<&'a Vec<Json>>)
    ensures
        match r {
            Some(v) => items_of(node_of(node)) matches Some(items) && items.len() == v@.len() && forall|i: int|
                0 <= i < items.len() ==> #[trigger] items[i] == v@[i]@,
            None => items_of(node_of(node)) is None,
        },
{
    match node {
        Some(Json::Array(v)) => Some(v),
        _ => None,
    }
}

// ── Parsing ──────────────────────────────────────────────────────────────────

/// A JSON value as `serde_json` holds it.
#[verifier::external_type_specification]
#[verifier::external_body]
pub struct ExValue(Value);

/// What `serde_json::from_slice` reads in bytes, `None` where it reports an error.
pub uninterp spec fn json_document(bytes: Seq<u8>) -> Option<Tree>;

/// Takes a `serde_json::Value` over, variant by variant. A number that is a whole one stays a
/// whole one; any other keeps the bits of its `as_f64`. Called by [`read_document`] alone, which
/// names the whole outcome, so nothing is claimed of it.
#[verifier::external_body]
fn take_over(value: Value) -> (r: Json) {
    match value {
        Value::Null => Json::Null,
        Value::Bool(b) => Json::Bool(b),
        Value::Number(n) => match (n.as_u64(), n.as_i64()) {
            (Some(v), _) => Json::Uint(v),
            (_, Some(v)) => Json::Int(v),
            _ => Json::Float(Binary64::from_bits(n.as_f64().unwrap_or_default().to_bits())),
        },
        Value::String(s) => Json::Text(s),
        Value::Array(a) => Json::Array(a.into_iter().map(take_over).collect()),
        Value::Object(o) => Json::Object(o.into_iter().map(|(k, v)| (k, take_over(v))).collect()),
    }
}

/// Calls `serde_json::from_slice` and takes the value over. The contract gives the outcome a name;
/// which bytes are accepted is left to `serde_json`.
#[verifier::external_body]
fn read_document(bytes: &[u8]) -> (r: Option<Json>)
    ensures
        (match r {
            Some(v) => Some(v@),
            None => None,
        }) == json_document(bytes@),
{
    match serde_json::from_slice::<Value>(bytes) {
        Ok(v) => Some(take_over(v)),
        Err(_) => None,
    }
}

/// The JSON document that `bytes` are.
pub fn parse(bytes: &[u8]) -> (r: Option<Json>)
    ensures
        (match r {
            Some(v) => Some(v@),
            None => None,
        }) == json_document(bytes@),
{
    read_document(bytes)
}

// ── Writing ──────────────────────────────────────────────────────────────────

/// What the members of an object say.
pub open spec fn members_of(members: Seq<(String, Json)>) -> Seq<(Seq<char>, Tree)> {
    Seq::new(members.len(), |i: int| (members[i].0@, members[i].1@))
}

/// What the items of an array say.
pub open spec fn trees_of(items: Seq<Json>) -> Seq<Tree> {
    Seq::new(items.len(), |i: int| items[i]@)
}

/// The object with the given members.
pub fn object(members: Vec<(String, Json)>) -> (r: Json)
    ensures
        r@ == Tree::Object(members_of(members@)),
{
    let r: Json = Json::Object(members);
    assert(r@->Object_0 =~= members_of(members@));
    r
}

/// The array of the given items.
pub fn array(items: Vec<Json>) -> (r: Json)
    ensures
        r@ == Tree::Array(trees_of(items@)),
{
    let r: Json = Json::Array(items);
    assert(r@->Array_0 =~= trees_of(items@));
    r
}

/// Adds a member.
pub fn add_member(members: &mut Vec<(String, Json)>, name: &str, value: Json)
    ensures
        members_of(final(members)@) == members_of(old(members)@).push((name@, value@)),
{
    members.push((name.to_owned(), value));
    assert(members_of(members@) =~= members_of(old(members)@).push((name@, value@)));
}

/// Puts a member in the place of the first one of its name, or at the end.
pub fn put_member(members: Vec<(String, Json)>, name: &str, value: Json) -> (r: Vec<(String, Json)>)
    ensures
        members_of(r@) == put(members_of(members@), name@, value@),
{
    let mut r: Vec<(String, Json)> = members;
    let ghost before = members_of(r@);
    let mut i: usize = 0;
    while i < r.len()
        invariant
            i <= r.len(),
            before == members_of(members@),
            members_of(r@) == before,
            forall|j: int| 0 <= j < i ==> (#[trigger] before[j]).0 != name@,
        decreases r.len() - i,
    {
        if same(r[i].0.as_str(), name) {
            proof {
                lemma_put_skip(before, name@, value@, i as int);
                assert(before[i as int].0 == name@);
                assert(before.skip(i as int)[0] == before[i as int]);
            }
            r.set(i, (name.to_owned(), value));
            assert(members_of(r@) =~= put(before, name@, value@));
            return r;
        }
        assert(before[i as int].0 != name@);
        i = i + 1;
    }
    proof {
        lemma_put_skip(before, name@, value@, before.len() as int);
    }
    r.push((name.to_owned(), value));
    assert(members_of(r@) =~= put(before, name@, value@));
    r
}

/// Adds a member that is a string.
pub fn add_text(members: &mut Vec<(String, Json)>, name: &str, value: &str)
    ensures
        members_of(final(members)@) == members_of(old(members)@).push((name@, Tree::Text(value@))),
{
    add_member(members, name, Json::Text(value.to_owned()));
}

/// Adds a member that is a whole number.
pub fn add_count(members: &mut Vec<(String, Json)>, name: &str, value: u64)
    ensures
        members_of(final(members)@) == members_of(old(members)@).push((name@, Tree::Number(value as int))),
{
    add_member(members, name, Json::Uint(value));
}

/// A number as JSON holds it; JSON has no infinities and no not-a-number, which become `null`.
pub open spec fn measure_tree(x: Real64) -> Tree {
    if x is Finite {
        Tree::Float(x)
    } else {
        Tree::Null
    }
}

/// Adds a member that is a number.
pub fn add_measure(members: &mut Vec<(String, Json)>, name: &str, value: Binary64)
    ensures
        members_of(final(members)@) == members_of(old(members)@).push((name@, measure_tree(value@))),
{
    if value.is_finite() {
        add_member(members, name, Json::Float(value));
    } else {
        add_member(members, name, Json::Null);
    }
}

/// A member that is left out where there is no text for it.
pub open spec fn optional_text(name: Seq<char>, value: Option<Seq<char>>) -> Seq<(Seq<char>, Tree)> {
    match value {
        Some(s) => seq![(name, Tree::Text(s))],
        None => seq![],
    }
}

/// Adds a member that is a string, where there is one.
pub fn add_optional_text(members: &mut Vec<(String, Json)>, name: &str, value: &Option<String>)
    ensures
        members_of(final(members)@) == members_of(old(members)@) + optional_text(name@, chars_of(*value)),
{
    if let Some(s) = value {
        add_text(members, name, s.as_str());
    }
    assert(members_of(members@) =~= members_of(old(members)@) + optional_text(name@, chars_of(*value)));
}

} // verus!
