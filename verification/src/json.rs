//! JSON values as the library reads and builds them.
use vstd::prelude::*;

verus! {

broadcast use vstd::string::group_string_axioms;

/// A JSON value. Numbers keep their text, and their value where it is a whole number that
/// fits in a `u64`; an object keeps its members in order.
#[derive(Debug)]
pub enum Json {
    Null,
    Bool(bool),
    Number(Option<u64>, String),
    Str(String),
    Array(Vec<Json>),
    Object(Vec<(String, Json)>),
}

/// The value of the first member named `key`.
pub open spec fn member(fs: Seq<(String, Json)>, key: Seq<char>) -> Option<Json>
    decreases fs.len(),
{
    if fs.len() == 0 {
        None
    } else if fs[0].0@ == key {
        Some(fs[0].1)
    } else {
        member(fs.drop_first(), key)
    }
}

/// `value.get(key)`: the member `key` of an object.
pub open spec fn get(j: Json, key: Seq<char>) -> Option<Json> {
    match j {
        Json::Object(fs) => member(fs@, key),
        _ => None,
    }
}

/// The array under `content`, or nothing.
pub open spec fn content(j: Json) -> Seq<Json> {
    match get(j, "content"@) {
        Some(Json::Array(v)) => v@,
        _ => Seq::empty(),
    }
}

proof fn lemma_member_in(fs: Seq<(String, Json)>, key: Seq<char>)
    ensures
        member(fs, key) matches Some(x) ==> exists|i: int| 0 <= i < fs.len() && fs[i].1 == x,
    decreases fs.len(),
{
    if fs.len() > 0 && fs[0].0@ != key {
        lemma_member_in(fs.drop_first(), key);
        if member(fs, key) is Some {
            let i = choose|i: int| 0 <= i < fs.drop_first().len() && fs.drop_first()[i].1 == member(fs, key)->0;
            assert(fs[i + 1].1 == member(fs, key)->0);
        }
    }
}

pub proof fn lemma_content_decreases(j: Json, k: int)
    requires
        0 <= k < content(j).len(),
    ensures
        decreases_to!(j => content(j)[k]),
{
    broadcast use vstd::std_specs::vec::axiom_vec_decreases_to_view;
    match j {
        Json::Object(fs) => {
            lemma_member_in(fs@, "content"@);
            let i = choose|i: int| 0 <= i < fs@.len() && fs@[i].1 == member(fs@, "content"@)->0;
            match fs@[i].1 {
                Json::Array(v) => {
                    assert(decreases_to!(j => fs));
                    assert(decreases_to!(fs => fs@));
                    assert(decreases_to!(fs@ => fs@[i]));
                    assert(decreases_to!(fs@[i] => fs@[i].1));
                    assert(decreases_to!(fs@[i].1 => v));
                    assert(decreases_to!(v => v@));
                    assert(decreases_to!(v@ => v@[k]));
                    assert(decreases_to!(j => v@[k]));
                },
                _ => {},
            }
        },
        _ => {},
    }
}


fn text_eq(a: &String, b: &str) -> (r: bool)
    ensures
        r == (a@ == b@),
{
    crate::yaml::eq_chars(&crate::text::str_chars(a.as_str()), &crate::text::str_chars(b))
}

/// The value of the first member named `key`.
pub fn member_of<'a>(fs: &'a Vec<(String, Json)>, key: &str) -> (r: Option<&'a Json>)
    ensures
        match r {
            Some(x) => member(fs@, key@) == Some(*x),
            None => member(fs@, key@) is None,
        },
{
    let mut i: usize = 0;
    assert(fs@.skip(0) =~= fs@);
    while i < fs.len()
        invariant
            i <= fs.len(),
            member(fs@, key@) == member(fs@.skip(i as int), key@),
        decreases fs.len() - i,
    {
        assert(fs@.skip(i as int).drop_first() =~= fs@.skip(i + 1));
        assert(fs@.skip(i as int)[0] == fs@[i as int]);
        if text_eq(&fs[i].0, key) {
            return Some(&fs[i].1);
        }
        i = i + 1;
    }
    None
}

/// `value.get(key)`.
pub fn get_of<'a>(j: &'a Json, key: &str) -> (r: Option<&'a Json>)
    ensures
        match r {
            Some(x) => get(*j, key@) == Some(*x),
            None => get(*j, key@) is None,
        },
{
    match j {
        Json::Object(fs) => member_of(fs, key),
        _ => None,
    }
}

/// The array under `content`, where there is one.
pub fn content_of<'a>(j: &'a Json) -> (r: Option<&'a Vec<Json>>)
    ensures
        match r {
            Some(v) => v@ == content(*j),
            None => content(*j).len() == 0,
        },
{
    proof {
        reveal_strlit("content");
    }
    match get_of(j, "content") {
        Some(Json::Array(v)) => Some(v),
        _ => None,
    }
}

// ── Views ────────────────────────────────────────────────────────────

/// A JSON value as mathematics sees it: texts as character sequences.
pub enum JsonV {
    Null,
    Bool(bool),
    Number(Option<u64>, Seq<char>),
    Str(Seq<char>),
    Array(Seq<JsonV>),
    Object(Seq<(Seq<char>, JsonV)>),
}

/// The view of a JSON value.
pub open spec fn jv(j: Json) -> JsonV
    decreases j,
{
    match j {
        Json::Null => JsonV::Null,
        Json::Bool(b) => JsonV::Bool(b),
        Json::Number(n, t) => JsonV::Number(n, t@),
        Json::Str(s) => JsonV::Str(s@),
        Json::Array(v) => JsonV::Array(
            Seq::new(
                v@.len(),
                |i: int|
                    if 0 <= i < v@.len() {
                        jv(v@[i])
                    } else {
                        JsonV::Null
                    },
            ),
        ),
        Json::Object(fs) => JsonV::Object(
            Seq::new(
                fs@.len(),
                |i: int|
                    if 0 <= i < fs@.len() {
                        (fs@[i].0@, jv(fs@[i].1))
                    } else {
                        (Seq::empty(), JsonV::Null)
                    },
            ),
        ),
    }
}

proof fn lemma_item_decreases(j: Json, i: int)
    requires
        j matches Json::Array(v) && 0 <= i < v@.len(),
    ensures
        j matches Json::Array(v) && decreases_to!(j => v@[i]),
{
    broadcast use vstd::std_specs::vec::axiom_vec_decreases_to_view;
    if let Json::Array(v) = j {
        assert(decreases_to!(j => v));
        assert(decreases_to!(v => v@));
        assert(decreases_to!(v@ => v@[i]));
    }
}

proof fn lemma_member_decreases(j: Json, i: int)
    requires
        j matches Json::Object(fs) && 0 <= i < fs@.len(),
    ensures
        j matches Json::Object(fs) && decreases_to!(j => fs@[i].1),
{
    broadcast use vstd::std_specs::vec::axiom_vec_decreases_to_view;
    if let Json::Object(fs) = j {
        assert(decreases_to!(j => fs));
        assert(decreases_to!(fs => fs@));
        assert(decreases_to!(fs@ => fs@[i]));
        assert(decreases_to!(fs@[i] => fs@[i].1));
    }
}

/// A deep copy.
pub fn copy_json(j: &Json) -> (r: Json)
    ensures
        jv(r) == jv(*j),
    decreases j,
{
    match j {
        Json::Null => Json::Null,
        Json::Bool(b) => Json::Bool(*b),
        Json::Number(n, t) => Json::Number(*n, t.clone()),
        Json::Str(s) => Json::Str(s.clone()),
        Json::Array(v) => {
            let mut out: Vec<Json> = Vec::new();
            let mut i: usize = 0;
            while i < v.len()
                invariant
                    i <= v.len(),
                    *j == Json::Array(*v),
                    out@.len() == i,
                    forall|k: int| 0 <= k < i ==> jv(#[trigger] out@[k]) == jv(v@[k]),
                decreases v.len() - i,
            {
                proof {
                    lemma_item_decreases(*j, i as int);
                }
                out.push(copy_json(&v[i]));
                i = i + 1;
            }
            let r = Json::Array(out);
            assert(jv(r) == jv(*j)) by {
                if let JsonV::Array(a) = jv(r) {
                    if let JsonV::Array(b) = jv(*j) {
                        assert(a =~= b);
                    }
                }
            }
            r
        },
        Json::Object(fs) => {
            let mut out: Vec<(String, Json)> = Vec::new();
            let mut i: usize = 0;
            while i < fs.len()
                invariant
                    i <= fs.len(),
                    *j == Json::Object(*fs),
                    out@.len() == i,
                    forall|k: int|
                        0 <= k < i ==> (#[trigger] out@[k]).0@ == fs@[k].0@ && jv(out@[k].1) == jv(
                            fs@[k].1,
                        ),
                decreases fs.len() - i,
            {
                proof {
                    lemma_member_decreases(*j, i as int);
                }
                out.push((fs[i].0.clone(), copy_json(&fs[i].1)));
                i = i + 1;
            }
            let r = Json::Object(out);
            assert(jv(r) == jv(*j)) by {
                if let JsonV::Object(a) = jv(r) {
                    if let JsonV::Object(b) = jv(*j) {
                        assert(a =~= b);
                    }
                }
            }
            r
        },
    }
}

/// The view of an object's members.
pub open spec fn members_v(fs: Seq<(String, Json)>) -> Seq<(Seq<char>, JsonV)> {
    Seq::new(
        fs.len(),
        |i: int|
            if 0 <= i < fs.len() {
                (fs[i].0@, jv(fs[i].1))
            } else {
                (Seq::empty(), JsonV::Null)
            },
    )
}

pub proof fn lemma_jv_object(fs: Vec<(String, Json)>)
    ensures
        jv(Json::Object(fs)) == JsonV::Object(members_v(fs@)),
{
    if let JsonV::Object(a) = jv(Json::Object(fs)) {
        assert(a =~= members_v(fs@));
    }
}

/// Appends the member `key: value` to an object's members.
pub fn push_member(fs: &mut Vec<(String, Json)>, key: &str, value: Json)
    ensures
        members_v(final(fs)@) == members_v(old(fs)@).push((key@, jv(value))),
{
    let ghost before = members_v(fs@);
    fs.push((crate::text::string_from_chars(&crate::text::str_chars(key)), value));
    assert(members_v(fs@) =~= before.push((key@, jv(value))));
}

/// The object whose only member is `key: value`.
pub fn object1(key: &str, value: Json) -> (r: Json)
    ensures
        jv(r) == JsonV::Object(seq![(key@, jv(value))]),
{
    let mut fs: Vec<(String, Json)> = Vec::new();
    assert(members_v(fs@) =~= Seq::<(Seq<char>, JsonV)>::empty());
    push_member(&mut fs, key, value);
    assert(members_v(fs@) =~= seq![(key@, jv(value))]);
    proof {
        lemma_jv_object(fs);
    }
    Json::Object(fs)
}

} // verus!
