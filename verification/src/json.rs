//! JSON values as the library reads them: what a parsed document holds,
//! with the lookups `v[key]` and `v[i]` that give null for anything
//! missing.
use vstd::prelude::*;

use crate::text::str_eq;

verus! {

/// A JSON value as the parser reads it: numbers kept as their text, object
/// members in the order the parsed map yields them.
#[derive(Debug)]
pub enum Json {
    Null,
    Bool(bool),
    Number(String),
    Str(String),
    Array(Vec<Json>),
    Object(Vec<(String, Json)>),
}

/// The first member named `key`, or null.
pub open spec fn member(members: Seq<(String, Json)>, key: Seq<char>) -> Json
    decreases members.len(),
{
    if members.len() == 0 {
        Json::Null
    } else if members[0].0@ == key {
        members[0].1
    } else {
        member(members.drop_first(), key)
    }
}

/// `v[key]`: the member of an object, null for anything else.
pub open spec fn at_key(v: Json, key: Seq<char>) -> Json {
    match v {
        Json::Object(m) => member(m@, key),
        _ => Json::Null,
    }
}

/// `v[i]`: the element of an array, null for anything else.
pub open spec fn at_index(v: Json, i: int) -> Json {
    match v {
        Json::Array(items) => if 0 <= i < items@.len() {
            items@[i]
        } else {
            Json::Null
        },
        _ => Json::Null,
    }
}

pub open spec fn as_str(v: Json) -> Option<Seq<char>> {
    match v {
        Json::Str(s) => Some(s@),
        _ => None,
    }
}

pub fn member_exec<'a>(members: &'a Vec<(String, Json)>, key: &str) -> (r: Option<&'a Json>)
    ensures
        match r {
            Some(x) => *x == member(members@, key@),
            None => member(members@, key@) == Json::Null,
        },
{
    let mut i: usize = 0;
    proof {
        assert(members@.subrange(0, members@.len() as int) =~= members@);
    }
    while i < members.len()
        invariant
            i <= members@.len(),
            member(members@, key@) == member(members@.subrange(i as int, members@.len() as int), key@),
        decreases members@.len() - i,
    {
        proof {
            let rest = members@.subrange(i as int, members@.len() as int);
            assert(rest[0] == members@[i as int]);
            assert(rest.drop_first() =~= members@.subrange(i + 1, members@.len() as int));
        }
        if str_eq(members[i].0.as_str(), key) {
            return Some(&members[i].1);
        }
        i += 1;
    }
    None
}

pub fn at_key_exec<'a>(v: &'a Json, key: &str) -> (r: Option<&'a Json>)
    ensures
        match r {
            Some(x) => *x == at_key(*v, key@),
            None => at_key(*v, key@) == Json::Null,
        },
{
    match v {
        Json::Object(m) => member_exec(m, key),
        _ => None,
    }
}

pub fn at_index_exec<'a>(v: &'a Json, i: usize) -> (r: Option<&'a Json>)
    ensures
        match r {
            Some(x) => *x == at_index(*v, i as int),
            None => at_index(*v, i as int) == Json::Null,
        },
{
    match v {
        Json::Array(items) => if i < items.len() {
            Some(&items[i])
        } else {
            None
        },
        _ => None,
    }
}

pub fn str_at<'a>(v: &'a Json, key: &str) -> (r: Option<&'a String>)
    ensures
        match r {
            Some(s) => as_str(at_key(*v, key@)) == Some(s@),
            None => as_str(at_key(*v, key@)) is None,
        },
{
    match at_key_exec(v, key) {
        Some(x) => match x {
            Json::Str(s) => Some(s),
            _ => None,
        },
        None => None,
    }
}

/// `v[key]`, with `null` standing for a missing member.
pub fn key_or_null<'a>(v: &'a Json, key: &str, null: &'a Json) -> (r: &'a Json)
    requires
        *null == Json::Null,
    ensures
        *r == at_key(*v, key@),
{
    match at_key_exec(v, key) {
        Some(x) => x,
        None => null,
    }
}

/// What a JSON value holds, as text and sequences.
pub enum JsonView {
    Null,
    Bool(bool),
    Number(Seq<char>),
    Str(Seq<char>),
    Array(Seq<JsonView>),
    Object(Seq<(Seq<char>, JsonView)>),
}

pub open spec fn jview(j: Json) -> JsonView
    decreases j,
{
    match j {
        Json::Null => JsonView::Null,
        Json::Bool(b) => JsonView::Bool(b),
        Json::Number(n) => JsonView::Number(n@),
        Json::Str(s) => JsonView::Str(s@),
        Json::Array(items) => JsonView::Array(
            Seq::new(
                items@.len(),
                |i: int|
                    if 0 <= i < items@.len() {
                        jview(items@[i])
                    } else {
                        JsonView::Null
                    },
            ),
        ),
        Json::Object(m) => JsonView::Object(
            Seq::new(
                m@.len(),
                |i: int|
                    if 0 <= i < m@.len() {
                        (m@[i].0@, jview(m@[i].1))
                    } else {
                        (Seq::empty(), JsonView::Null)
                    },
            ),
        ),
    }
}

pub open spec fn members_view(m: Seq<(String, Json)>) -> Seq<(Seq<char>, JsonView)> {
    Seq::new(m.len(), |i: int| (m[i].0@, jview(m[i].1)))
}

pub open spec fn items_view(items: Seq<Json>) -> Seq<JsonView> {
    Seq::new(items.len(), |i: int| jview(items[i]))
}

pub proof fn lemma_jview_object(m: Vec<(String, Json)>)
    ensures
        jview(Json::Object(m)) == JsonView::Object(members_view(m@)),
{
    let v = jview(Json::Object(m));
    let x = v->Object_0;
    assert(x =~= members_view(m@));
}

pub proof fn lemma_jview_array(items: Vec<Json>)
    ensures
        jview(Json::Array(items)) == JsonView::Array(items_view(items@)),
{
    let v = jview(Json::Array(items));
    let x = v->Array_0;
    assert(x =~= items_view(items@));
}

/// The first member named `key`, if any.
pub open spec fn first_member(m: Seq<(Seq<char>, JsonView)>, key: Seq<char>) -> Option<int> {
    if exists|i: int| 0 <= i < m.len() && m[i].0 == key {
        Some(
            choose|i: int|
                0 <= i < m.len() && m[i].0 == key && forall|j: int| 0 <= j < i ==> m[j].0 != key,
        )
    } else {
        None
    }
}

/// The members with `key` set to `v`: in place of the first member named
/// `key`, else added.
pub open spec fn with_member(m: Seq<(Seq<char>, JsonView)>, key: Seq<char>, v: JsonView) -> Seq<
    (Seq<char>, JsonView),
> {
    match first_member(m, key) {
        Some(i) => m.update(i, (key, v)),
        None => m.push((key, v)),
    }
}

/// The value of the first member named `key`, else `default`.
pub open spec fn member_or(m: Seq<(Seq<char>, JsonView)>, key: Seq<char>, default: JsonView) -> JsonView {
    match first_member(m, key) {
        Some(i) => m[i].1,
        None => default,
    }
}

/// The index of the first member named `key`.
pub fn find_member(members: &Vec<(String, Json)>, key: &str) -> (r: Option<usize>)
    ensures
        match r {
            Some(i) => first_member(members_view(members@), key@) == Some(i as int) && i
                < members@.len(),
            None => first_member(members_view(members@), key@) is None,
        },
{
    let ghost mv = members_view(members@);
    let mut i: usize = 0;
    while i < members.len()
        invariant
            i <= members@.len(),
            mv == members_view(members@),
            forall|j: int| 0 <= j < i ==> mv[j].0 != key@,
        decreases members@.len() - i,
    {
        if str_eq(members[i].0.as_str(), key) {
            proof {
                assert(mv[i as int].0 == key@);
                let c = choose|c: int|
                    0 <= c < mv.len() && mv[c].0 == key@ && forall|j: int| 0 <= j < c ==> mv[j].0 != key@;
                assert(0 <= i < mv.len() && mv[i as int].0 == key@ && forall|j: int|
                    0 <= j < i ==> mv[j].0 != key@);
                if c < i {
                    assert(mv[c].0 != key@);
                } else if c > i {
                    assert(mv[i as int].0 != key@);
                }
            }
            return Some(i);
        }
        i += 1;
    }
    None
}

/// Append member `k: v`.
pub fn push_member(m: &mut Vec<(String, Json)>, k: &str, v: Json)
    ensures
        members_view(final(m)@) == members_view(old(m)@).push((k@, jview(v))),
{
    let ghost before = m@;
    m.push((crate::text::copy_str(k), v));
    assert(members_view(m@) =~= members_view(before).push((k@, jview(v))));
}

/// Put member `k: v` back where one was taken out, or at the end.
pub fn put_member(m: &mut Vec<(String, Json)>, at: Option<usize>, k: String, v: Json)
    requires
        match at {
            Some(i) => i <= old(m)@.len(),
            None => true,
        },
    ensures
        members_view(final(m)@) == match at {
            Some(i) => members_view(old(m)@).insert(i as int, (k@, jview(v))),
            None => members_view(old(m)@).push((k@, jview(v))),
        },
{
    let ghost before = m@;
    let ghost kv = (k@, jview(v));
    match at {
        Some(i) => {
            m.insert(i, (k, v));
            assert(members_view(m@) =~= members_view(before).insert(i as int, kv));
        },
        None => {
            m.push((k, v));
            assert(members_view(m@) =~= members_view(before).push(kv));
        },
    }
}

/// Taking member `i` out and putting `x` back at `i` replaces it.
pub proof fn lemma_replace_member(s: Seq<(Seq<char>, JsonView)>, i: int, x: (Seq<char>, JsonView))
    requires
        0 <= i < s.len(),
    ensures
        s.remove(i).insert(i, x) == s.update(i, x),
{
    assert(s.remove(i).insert(i, x) =~= s.update(i, x));
}

pub proof fn lemma_members_view_remove(m: Seq<(String, Json)>, i: int)
    requires
        0 <= i < m.len(),
    ensures
        members_view(m.remove(i)) == members_view(m).remove(i),
{
    assert(members_view(m.remove(i)) =~= members_view(m).remove(i));
}

pub proof fn lemma_first_member(m: Seq<(Seq<char>, JsonView)>, key: Seq<char>)
    ensures
        match first_member(m, key) {
            Some(i) => 0 <= i < m.len() && m[i].0 == key && forall|j: int| 0 <= j < i ==> m[j].0 != key,
            None => forall|j: int| 0 <= j < m.len() ==> m[j].0 != key,
        },
{
    if exists|i: int| 0 <= i < m.len() && m[i].0 == key {
        let w = choose|i: int| 0 <= i < m.len() && m[i].0 == key;
        lemma_min_witness(m, key, w);
    }
}

proof fn lemma_min_witness(m: Seq<(Seq<char>, JsonView)>, key: Seq<char>, w: int)
    requires
        0 <= w < m.len(),
        m[w].0 == key,
    ensures
        exists|i: int| 0 <= i < m.len() && m[i].0 == key && forall|j: int| 0 <= j < i ==> m[j].0 != key,
    decreases w,
{
    if exists|j: int| 0 <= j < w && m[j].0 == key {
        let j = choose|j: int| 0 <= j < w && m[j].0 == key;
        lemma_min_witness(m, key, j);
    } else {
        assert(forall|j: int| 0 <= j < w ==> m[j].0 != key);
    }
}

/// `m` with member `key: v` added when there is a value.
pub open spec fn push_opt(
    m: Seq<(Seq<char>, JsonView)>,
    key: Seq<char>,
    v: Option<JsonView>,
) -> Seq<(Seq<char>, JsonView)> {
    match v {
        Some(x) => m.push((key, x)),
        None => m,
    }
}

pub open spec fn opt_str_view(o: Option<String>) -> Option<JsonView> {
    match o {
        Some(s) => Some(JsonView::Str(s@)),
        None => None,
    }
}

pub open spec fn opt_num_view(o: Option<i64>) -> Option<JsonView> {
    match o {
        Some(n) => Some(JsonView::Number(crate::text::signed_decimal(n as int))),
        None => None,
    }
}

pub fn push_opt_str(m: &mut Vec<(String, Json)>, k: &str, v: &Option<String>)
    ensures
        members_view(final(m)@) == push_opt(members_view(old(m)@), k@, opt_str_view(*v)),
{
    match v {
        Some(s) => push_member(m, k, Json::Str(s.clone())),
        None => {},
    }
}

pub fn push_opt_num(m: &mut Vec<(String, Json)>, k: &str, v: Option<i64>)
    ensures
        members_view(final(m)@) == push_opt(members_view(old(m)@), k@, opt_num_view(v)),
{
    match v {
        Some(n) => push_member(m, k, Json::Number(crate::text::string_of(crate::text::i64_decimal(n).as_slice()))),
        None => {},
    }
}

/// Set member `key` to `v` (see `with_member`).
pub fn set_member(m: &mut Vec<(String, Json)>, key: &str, v: Json)
    ensures
        members_view(final(m)@) == with_member(members_view(old(m)@), key@, jview(v)),
{
    let ghost mv = members_view(m@);
    proof {
        lemma_first_member(mv, key@);
    }
    match find_member(m, key) {
        Some(i) => {
            proof {
                lemma_members_view_remove(m@, i as int);
            }
            let (k, _) = m.remove(i);
            assert(k@ == key@);
            put_member(m, Some(i), k, v);
            proof {
                lemma_replace_member(mv, i as int, (key@, jview(v)));
            }
        },
        None => {
            push_member(m, key, v);
        },
    }
}

} // verus!
