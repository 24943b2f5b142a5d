//! A JSON document as plain values, with object members kept in the order
//! they were written.
use vstd::prelude::*;

verus! {

/// A JSON number as serde_json holds one: an integer that fits `u64`, a
/// negative one that fits `i64`, or anything else, kept as its text.
#[derive(Debug)]
pub enum JsonNumber {
    PosInt(u64),
    NegInt(i64),
    Float(String),
}

/// A JSON value.
pub enum Json {
    Null,
    Bool(bool),
    Number(JsonNumber),
    Str(String),
    Array(Vec<Json>),
    Object(Vec<(String, Json)>),
}

/// What a JSON number denotes: an integer, or the text of any other number.
pub enum NumberView {
    Int(int),
    Other(Seq<char>),
}

/// What a JSON value denotes.
pub enum JsonView {
    Null,
    Bool(bool),
    Number(NumberView),
    Str(Seq<char>),
    Array(Seq<JsonView>),
    Object(Seq<(Seq<char>, JsonView)>),
}

impl JsonNumber {
    pub open spec fn view(self) -> NumberView {
        match self {
            JsonNumber::PosInt(u) => NumberView::Int(u as int),
            JsonNumber::NegInt(i) => NumberView::Int(i as int),
            JsonNumber::Float(s) => NumberView::Other(s@),
        }
    }
}

impl Json {
    pub open spec fn view(self) -> JsonView
        decreases self,
    {
        match self {
            Json::Null => JsonView::Null,
            Json::Bool(b) => JsonView::Bool(b),
            Json::Number(n) => JsonView::Number(n.view()),
            Json::Str(s) => JsonView::Str(s@),
            Json::Array(items) => JsonView::Array(
                Seq::new(items@.len(), |i: int| if 0 <= i < items@.len() { items@[i].view() } else { JsonView::Null }),
            ),
            Json::Object(members) => JsonView::Object(
                Seq::new(members@.len(), |i: int| if 0 <= i < members@.len() { (members@[i].0@, members@[i].1.view()) } else { (Seq::empty(), JsonView::Null) }),
            ),
        }
    }
}


/// The members of an object, by view.
pub open spec fn members_view(ms: Seq<(String, Json)>) -> Seq<(Seq<char>, JsonView)> {
    Seq::new(ms.len(), |i: int| (ms[i].0@, ms[i].1.view()))
}

/// The items of an array, by view.
pub open spec fn items_view(vs: Seq<Json>) -> Seq<JsonView> {
    Seq::new(vs.len(), |i: int| vs[i].view())
}

pub proof fn lemma_view_object(ms: Vec<(String, Json)>)
    ensures
        Json::Object(ms).view() == JsonView::Object(members_view(ms@)),
{
    assert(Json::Object(ms).view()->Object_0 =~= members_view(ms@));
}

pub proof fn lemma_view_array(vs: Vec<Json>)
    ensures
        Json::Array(vs).view() == JsonView::Array(items_view(vs@)),
{
    assert(Json::Array(vs).view()->Array_0 =~= items_view(vs@));
}

/// Where the member named `k` stands: the first with that name, or the
/// number of members when there is none.
pub open spec fn key_index(ms: Seq<(Seq<char>, JsonView)>, k: Seq<char>) -> int
    decreases ms.len(),
{
    if ms.len() == 0 {
        0
    } else if ms[0].0 == k {
        0
    } else {
        1 + key_index(ms.drop_first(), k)
    }
}

/// `Map::get`: the value of the member named `k`.
pub open spec fn member(ms: Seq<(Seq<char>, JsonView)>, k: Seq<char>) -> Option<JsonView> {
    let i = key_index(ms, k);
    if 0 <= i < ms.len() {
        Some(ms[i].1)
    } else {
        None
    }
}

/// `Map::insert`: the member named `k` takes `v` where it stands, or `k: v`
/// is added at the end.
pub open spec fn put(ms: Seq<(Seq<char>, JsonView)>, k: Seq<char>, v: JsonView) -> Seq<(Seq<char>, JsonView)> {
    let i = key_index(ms, k);
    if 0 <= i < ms.len() {
        ms.update(i, (k, v))
    } else {
        ms.push((k, v))
    }
}

/// `Value::get` on any value: a member of an object, else nothing.
pub open spec fn get(v: JsonView, k: Seq<char>) -> Option<JsonView> {
    match v {
        JsonView::Object(ms) => member(ms, k),
        _ => None,
    }
}

/// `Value::as_str`.
pub open spec fn as_str(v: Option<JsonView>) -> Option<Seq<char>> {
    match v {
        Some(JsonView::Str(s)) => Some(s),
        _ => None,
    }
}

/// `Value::as_i64`.
pub open spec fn as_i64(v: Option<JsonView>) -> Option<int> {
    match v {
        Some(JsonView::Number(NumberView::Int(n))) => if i64::MIN <= n <= i64::MAX {
            Some(n)
        } else {
            None
        },
        _ => None,
    }
}

/// `Value::as_u64`.
pub open spec fn as_u64(v: Option<JsonView>) -> Option<int> {
    match v {
        Some(JsonView::Number(NumberView::Int(n))) => if 0 <= n <= u64::MAX {
            Some(n)
        } else {
            None
        },
        _ => None,
    }
}

/// `Value::as_bool`.
pub open spec fn as_bool(v: Option<JsonView>) -> Option<bool> {
    match v {
        Some(JsonView::Bool(b)) => Some(b),
        _ => None,
    }
}

/// `Value::pointer` with a path of member names.
pub open spec fn at_path(v: JsonView, path: Seq<Seq<char>>) -> Option<JsonView>
    decreases path.len(),
{
    if path.len() == 0 {
        Some(v)
    } else {
        match get(v, path[0]) {
            Some(w) => at_path(w, path.drop_first()),
            None => None,
        }
    }
}

pub proof fn lemma_key_index(ms: Seq<(Seq<char>, JsonView)>, k: Seq<char>)
    ensures
        0 <= key_index(ms, k) <= ms.len(),
        key_index(ms, k) < ms.len() ==> ms[key_index(ms, k)].0 == k,
        forall|j: int| 0 <= j < key_index(ms, k) ==> ms[j].0 != k,
    decreases ms.len(),
{
    if ms.len() > 0 && ms[0].0 != k {
        lemma_key_index(ms.drop_first(), k);
        assert forall|j: int| 0 <= j < key_index(ms, k) implies ms[j].0 != k by {
            if j > 0 {
                assert(ms[j] == ms.drop_first()[j - 1]);
            }
        }
    }
}

pub proof fn lemma_key_index_is(ms: Seq<(Seq<char>, JsonView)>, k: Seq<char>, i: int)
    requires
        0 <= i <= ms.len(),
        i < ms.len() ==> ms[i].0 == k,
        forall|j: int| 0 <= j < i ==> ms[j].0 != k,
    ensures
        key_index(ms, k) == i,
    decreases ms.len(),
{
    if ms.len() > 0 && i > 0 {
        assert(ms[0].0 != k);
        lemma_key_index_is(ms.drop_first(), k, i - 1);
    }
}

// ---------------------------------------------------------------------------
// Executable access
// ---------------------------------------------------------------------------
/// Whether `s` reads `lit`.
pub fn str_is(s: &String, lit: &str) -> (b: bool)
    ensures
        b == (s@ == lit@),
{
    crate::text::chars_eq(&crate::text::chars_of(s.as_str()), &crate::text::chars_of(lit))
}

/// Where the member named `k` stands in `ms`.
pub fn find_key(ms: &Vec<(String, Json)>, k: &str) -> (i: usize)
    ensures
        i as int == key_index(members_view(ms@), k@),
{
    let ghost mv = members_view(ms@);
    let mut i: usize = 0;
    while i < ms.len()
        invariant
            i <= ms.len(),
            mv == members_view(ms@),
            forall|j: int| 0 <= j < i ==> mv[j].0 != k@,
        decreases ms.len() - i,
    {
        if str_is(&ms[i].0, k) {
            proof {
                lemma_key_index_is(mv, k@, i as int);
            }
            return i;
        }
        i += 1;
    }
    proof {
        lemma_key_index_is(mv, k@, i as int);
    }
    i
}

/// `Value::get(k)` on a value.
pub fn get_member<'a>(v: &'a Json, k: &str) -> (r: Option<&'a Json>)
    ensures
        match r {
            Some(w) => get(v.view(), k@) == Some(w.view()),
            None => get(v.view(), k@) is None,
        },
{
    match v {
        Json::Object(ms) => {
            proof {
                lemma_view_object(*ms);
                lemma_key_index(members_view(ms@), k@);
            }
            let i = find_key(ms, k);
            if i < ms.len() {
                Some(&ms[i].1)
            } else {
                None
            }
        },
        _ => None,
    }
}

/// `Value::as_str` on an optional value.
pub fn opt_as_str<'a>(v: Option<&'a Json>) -> (r: Option<&'a String>)
    ensures
        match r {
            Some(s) => as_str(opt_json_view(v)) == Some(s@),
            None => as_str(opt_json_view(v)) is None,
        },
{
    match v {
        Some(Json::Str(s)) => Some(s),
        _ => None,
    }
}

/// The view of an optional value.
pub open spec fn opt_json_view(v: Option<&Json>) -> Option<JsonView> {
    match v {
        Some(w) => Some(w.view()),
        None => None,
    }
}

/// `Value::as_i64` on an optional value.
pub fn opt_as_i64(v: Option<&Json>) -> (r: Option<i64>)
    ensures
        match r {
            Some(n) => as_i64(opt_json_view(v)) == Some(n as int),
            None => as_i64(opt_json_view(v)) is None,
        },
{
    match v {
        Some(Json::Number(JsonNumber::PosInt(u))) => if *u <= 0x7fff_ffff_ffff_ffffu64 {
            Some(*u as i64)
        } else {
            None
        },
        Some(Json::Number(JsonNumber::NegInt(i))) => Some(*i),
        _ => None,
    }
}

/// `Value::as_u64` on an optional value.
pub fn opt_as_u64(v: Option<&Json>) -> (r: Option<u64>)
    ensures
        match r {
            Some(n) => as_u64(opt_json_view(v)) == Some(n as int),
            None => as_u64(opt_json_view(v)) is None,
        },
{
    match v {
        Some(Json::Number(JsonNumber::PosInt(u))) => Some(*u),
        Some(Json::Number(JsonNumber::NegInt(i))) => if *i >= 0 {
            Some(*i as u64)
        } else {
            None
        },
        _ => None,
    }
}

/// `Value::as_bool` on an optional value.
pub fn opt_as_bool(v: Option<&Json>) -> (r: Option<bool>)
    ensures
        r == as_bool(opt_json_view(v)),
{
    match v {
        Some(Json::Bool(b)) => Some(*b),
        _ => None,
    }
}

} // verus!
