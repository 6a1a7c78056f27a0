//! Editing a JSON settings file of a mod by dotted keys
//! (`"quality.weather_quality"`: object `quality`, member
//! `weather_quality`). The file is read into a `Json` tree and written back
//! outside the library; numbers are kept as their text.

use vstd::prelude::*;

use crate::text::{split_on, split_ranges, string_of, to_chars, str_eq};

verus! {

/// A JSON value. An object is a list of members with distinct keys.
#[derive(Debug)]
pub enum Json {
    Null,
    Bool(bool),
    Number(String),
    Str(String),
    Array(Vec<Json>),
    Object(Vec<(String, Json)>),
}

/// Index of the last member with key `k`.
pub open spec fn key_index(ms: Seq<(String, Json)>, k: Seq<char>) -> Option<int>
    decreases ms.len(),
{
    if ms.len() == 0 {
        None
    } else if ms.last().0@ == k {
        Some(ms.len() - 1)
    } else {
        key_index(ms.drop_last(), k)
    }
}

/// The members of an object once member `k` is set to `v`: in its place
/// if the object has it, else at the end.
pub open spec fn member_set(ms: Seq<(String, Json)>, rs: Seq<(String, Json)>, k: Seq<char>, v: Json) -> bool {
    match key_index(ms, k) {
        Some(i) => rs == ms.update(i, (ms[i].0, v)),
        None => rs.len() == ms.len() + 1 && rs.drop_last() == ms && rs.last().0@ == k && rs.last().1 == v,
    }
}

/// `r` is the nest of objects an empty object becomes when the member
/// `parts` leads to is set to `v`.
pub open spec fn built(parts: Seq<Seq<char>>, v: Json, r: Json) -> bool
    decreases parts.len(),
{
    &&& parts.len() > 0
    &&& r matches Json::Object(rs)
    &&& rs@.len() == 1
    &&& rs@[0].0@ == parts[0]
    &&& if parts.len() == 1 {
        rs@[0].1 == v
    } else {
        built(parts.drop_first(), v, rs@[0].1)
    }
}

/// Setting the member `parts` leads to fails: on the way, or at the end,
/// there is something that is not an object.
pub open spec fn path_fails(j: Json, parts: Seq<Seq<char>>) -> bool
    decreases parts.len(),
{
    match j {
        Json::Object(ms) => parts.len() > 1 && match key_index(ms@, parts[0]) {
            Some(i) => path_fails(ms@[i].1, parts.drop_first()),
            None => false,
        },
        _ => true,
    }
}

/// `r` is `j` with the member `parts` leads to set to `v`; the objects
/// missing on the way are created empty.
pub open spec fn path_set(j: Json, parts: Seq<Seq<char>>, v: Json, r: Json) -> bool
    decreases parts.len(),
{
    &&& parts.len() > 0
    &&& j matches Json::Object(ms)
    &&& r matches Json::Object(rs)
    &&& if parts.len() == 1 {
        member_set(ms@, rs@, parts[0], v)
    } else {
        match key_index(ms@, parts[0]) {
            Some(i) => rs@.len() == ms@.len() && rs@ == ms@.update(i, (ms@[i].0, rs@[i].1)) && path_set(
                ms@[i].1,
                parts.drop_first(),
                v,
                rs@[i].1,
            ),
            None => rs@.len() == ms@.len() + 1 && rs@.drop_last() == ms@ && rs@.last().0@ == parts[0] && built(
                parts.drop_first(),
                v,
                rs@.last().1,
            ),
        }
    }
}

/// See `key_index`.
fn key_index_in(ms: &Vec<(String, Json)>, k: &str) -> (r: Option<usize>)
    ensures
        match r {
            Some(i) => key_index(ms@, k@) == Some(i as int),
            None => key_index(ms@, k@) is None,
        },
        r matches Some(i) ==> i < ms@.len() && ms@[i as int].0@ == k@,
{
    let mut i = ms.len();
    assert(ms@.take(i as int) =~= ms@);
    while i > 0
        invariant
            i <= ms@.len(),
            key_index(ms@, k@) == key_index(ms@.take(i as int), k@),
        decreases i,
    {
        let ghost t = ms@.take(i as int);
        assert(t.drop_last() =~= ms@.take(i - 1));
        assert(t.last() == ms@[i - 1]);
        if str_eq(ms[i - 1].0.as_str(), k) {
            return Some(i - 1);
        }
        i = i - 1;
    }
    None
}

/// Member `k` of `ms` set to `v` (see `member_set`).
fn set_member(ms: &mut Vec<(String, Json)>, k: &str, v: Json)
    ensures
        member_set(old(ms)@, final(ms)@, k@, v),
{
    match key_index_in(ms, k) {
        Some(i) => {
            let (name, _) = ms.remove(i);
            ms.insert(i, (name, v));
            assert(final(ms)@ =~= old(ms)@.update(i as int, (old(ms)@[i as int].0, v)));
        },
        None => {
            let name = k.to_owned();
            ms.push((name, v));
            assert(final(ms)@.drop_last() =~= old(ms)@);
        },
    }
}

/// An empty object turned into the nest of objects leading to `v`.
fn build(parts: &Vec<String>, from: usize, v: Json) -> (r: Json)
    requires
        from < parts@.len(),
    ensures
        built(Seq::new((parts@.len() - from) as nat, |i: int| parts@[from + i]@), v, r),
    decreases parts.len() - from,
{
    let ghost ps = Seq::new((parts@.len() - from) as nat, |i: int| parts@[from + i]@);
    let inner = if from + 1 == parts.len() {
        v
    } else {
        let c = build(parts, from + 1, v);
        assert(ps.drop_first() =~= Seq::new((parts@.len() - (from + 1)) as nat, |i: int| parts@[from + 1 + i]@));
        c
    };
    let mut ms: Vec<(String, Json)> = Vec::new();
    ms.push((parts[from].clone(), inner));
    Json::Object(ms)
}

/// `j` with the member `parts[from..]` leads to set to `v`, or `None` if
/// that meets something that is not an object (`path_fails`).
fn set_path(j: Json, parts: &Vec<String>, from: usize, v: Json) -> (r: Option<Json>)
    requires
        from < parts@.len(),
    ensures
        ({
            let ps = Seq::new((parts@.len() - from) as nat, |i: int| parts@[from + i]@);
            &&& r is None <==> path_fails(j, ps)
            &&& r matches Some(x) ==> path_set(j, ps, v, x)
        }),
    decreases parts.len() - from,
{
    let ghost ps = Seq::new((parts@.len() - from) as nat, |i: int| parts@[from + i]@);
    let ghost rest = Seq::new((parts@.len() - (from + 1)) as nat, |i: int| parts@[from + 1 + i]@);
    assert(ps.len() > 1 ==> ps.drop_first() =~= rest);
    assert(ps[0] == parts@[from as int]@);
    let ghost j0 = j;
    match j {
        Json::Object(mut ms) => {
            let ghost ms0 = ms@;
            if from + 1 == parts.len() {
                set_member(&mut ms, parts[from].as_str(), v);
                Some(Json::Object(ms))
            } else {
                match key_index_in(&ms, parts[from].as_str()) {
                    Some(i) => {
                        let (name, child) = ms.remove(i);
                        assert(child == ms0[i as int].1 && name == ms0[i as int].0);
                        match set_path(child, parts, from + 1, v) {
                            Some(c2) => {
                                ms.insert(i, (name, c2));
                                assert(ms@ =~= ms0.update(i as int, (ms0[i as int].0, ms@[i as int].1)));
                                Some(Json::Object(ms))
                            },
                            None => {
                                assert(path_fails(j0, ps));
                                None
                            },
                        }
                    },
                    None => {
                        let c = build(parts, from + 1, v);
                        ms.push((parts[from].clone(), c));
                        assert(ms@.drop_last() =~= ms0);
                        Some(Json::Object(ms))
                    },
                }
            }
        },
        _ => None,
    }
}

/// The member `key` of `root` set to `value`: the key as it is when the
/// root object already has it (a key holding dots itself), else the member
/// its dotted parts lead to, the objects missing on the way created; `None`
/// when that meets something that is not an object.
pub open spec fn spec_set_key(root: Json, key: Seq<char>, value: Json, r: Option<Json>) -> bool {
    let whole = match root {
        Json::Object(ms) => key_index(ms@, key) is Some,
        _ => false,
    };
    if whole {
        match root {
            Json::Object(ms) => r matches Some(x) && x matches Json::Object(rs) && member_set(ms@, rs@, key, value),
            _ => false,
        }
    } else {
        &&& r is None <==> path_fails(root, split_on(key, '.'))
        &&& r matches Some(x) ==> path_set(root, split_on(key, '.'), value, x)
    }
}

/// See `spec_set_key`.
pub fn set_key(root: Json, key: &str, value: Json) -> (r: Option<Json>)
    ensures
        spec_set_key(root, key@, value, r),
{
    let whole = match &root {
        Json::Object(ms) => key_index_in(ms, key).is_some(),
        _ => false,
    };
    if whole {
        match root {
            Json::Object(mut ms) => {
                set_member(&mut ms, key, value);
                return Some(Json::Object(ms));
            },
            _ => {
                return None;
            },
        }
    }
    let v = to_chars(key);
    let ranges = split_ranges(&v, 0, v.len(), '.');
    assert(v@.subrange(0, v@.len() as int) =~= v@);
    let ghost pieces = split_on(key@, '.');
    let mut parts: Vec<String> = Vec::new();
    let mut i: usize = 0;
    while i < ranges.len()
        invariant
            i <= ranges@.len(),
            ranges@.len() == pieces.len(),
            v@ == key@,
            pieces == split_on(key@, '.'),
            forall|k: int| 0 <= k < ranges@.len() ==> (#[trigger] ranges@[k]).0 <= ranges@[k].1 <= v@.len(),
            forall|k: int| 0 <= k < ranges@.len() ==> v@.subrange(ranges@[k].0 as int, ranges@[k].1 as int) == #[trigger] pieces[k],
            parts@.len() == i,
            forall|k: int| 0 <= k < i ==> (#[trigger] parts@[k])@ == pieces[k],
        decreases ranges.len() - i,
    {
        let (a, b) = ranges[i];
        parts.push(string_of(v.as_slice(), a, b));
        i = i + 1;
    }
    proof {
        assert(pieces.len() >= 1);
        assert(Seq::new((parts@.len() - 0) as nat, |k: int| parts@[0 + k]@) =~= pieces);
    }
    set_path(root, &parts, 0, value)
}


/// The texts of a list of strings.
pub open spec fn texts(v: Seq<String>) -> Seq<Seq<char>> {
    Seq::new(v.len(), |i: int| v[i]@)
}

/// The member `parts` leads to (each part a key, none split at dots) set to
/// `value`; `None` when that meets something that is not an object.
pub fn set_at(root: Json, parts: &Vec<String>, value: Json) -> (r: Option<Json>)
    requires
        parts@.len() > 0,
    ensures
        r is None <==> path_fails(root, texts(parts@)),
        r matches Some(x) ==> path_set(root, texts(parts@), value, x),
{
    assert(Seq::new((parts@.len() - 0) as nat, |i: int| parts@[0 + i]@) =~= texts(parts@));
    set_path(root, parts, 0, value)
}

/// The members of `ms` but those with key `k`.
pub open spec fn members_without(ms: Seq<(String, Json)>, k: Seq<char>) -> Seq<(String, Json)>
    decreases ms.len(),
{
    if ms.len() == 0 {
        Seq::empty()
    } else if ms.last().0@ == k {
        members_without(ms.drop_last(), k)
    } else {
        members_without(ms.drop_last(), k).push(ms.last())
    }
}

/// `root` without its member `key` (unchanged if it is not an object).
pub fn without_member(root: Json, key: &str) -> (r: Json)
    ensures
        match root {
            Json::Object(ms) => r matches Json::Object(rs) && rs@ == members_without(ms@, key@),
            _ => r == root,
        },
{
    match root {
        Json::Object(ms) => {
            let ghost m0 = ms@;
            let n = ms.len();
            let mut rs: Vec<(String, Json)> = Vec::new();
            let mut rest = ms;
            let mut i: usize = 0;
            assert(rest@ =~= m0.subrange(0, m0.len() as int));
            while rest.len() > 0
                invariant
                    i + rest@.len() == m0.len(),
                    m0.len() == n,
                    rest@ == m0.subrange(i as int, m0.len() as int),
                    rs@ == members_without(m0.take(i as int), key@),
                decreases rest.len(),
            {
                let m = rest.remove(0);
                assert(m == m0[i as int]);
                let ghost t = m0.take(i + 1);
                assert(t.drop_last() =~= m0.take(i as int));
                assert(t.last() == m0[i as int]);
                assert(rest@ =~= m0.subrange(i + 1, m0.len() as int));
                if !str_eq(m.0.as_str(), key) {
                    rs.push(m);
                }
                i = i + 1;
            }
            assert(m0.take(m0.len() as int) =~= m0);
            Json::Object(rs)
        },
        other => other,
    }
}


/// The parts of a dotted key (`"a.b.c"`: `a`, `b`, `c`; one at least).
pub fn dotted_parts(key: &str) -> (r: Vec<String>)
    ensures
        texts(r@) == split_on(key@, '.'),
        r@.len() >= 1,
{
    let v = to_chars(key);
    let ranges = split_ranges(&v, 0, v.len(), '.');
    assert(v@.subrange(0, v@.len() as int) =~= v@);
    let ghost pieces = split_on(key@, '.');
    let mut parts: Vec<String> = Vec::new();
    let mut i: usize = 0;
    while i < ranges.len()
        invariant
            i <= ranges@.len(),
            ranges@.len() == pieces.len(),
            v@ == key@,
            pieces == split_on(key@, '.'),
            forall|k: int| 0 <= k < ranges@.len() ==> (#[trigger] ranges@[k]).0 <= ranges@[k].1 <= v@.len(),
            forall|k: int| 0 <= k < ranges@.len() ==> v@.subrange(ranges@[k].0 as int, ranges@[k].1 as int) == #[trigger] pieces[k],
            parts@.len() == i,
            forall|k: int| 0 <= k < i ==> (#[trigger] parts@[k])@ == pieces[k],
        decreases ranges.len() - i,
    {
        let (a, b) = ranges[i];
        parts.push(string_of(v.as_slice(), a, b));
        i = i + 1;
    }
    assert(pieces.len() >= 1);
    assert(texts(parts@) =~= pieces);
    parts
}

} // verus!
