//! JSON as far as window lists and the launch history need it.
use crate::text::{chars_of, eq_str};
use vstd::prelude::*;

verus! {

broadcast use vstd::std_specs::vec::group_vec_axioms;

/// A JSON value of `serde_json`.
#[verifier::external_type_specification]
#[verifier::external_body]
pub struct ExValue(serde_json::Value);

/// A JSON value. Numbers that are no 64-bit integers, truth values and null are
/// not told apart.
#[derive(Debug)]
pub enum Json {
    Other,
    Int(i64),
    Text(String),
    List(Vec<Json>),
    /// Names and values, each name once.
    Fields(Vec<(String, Json)>),
}

/// The mathematical content of a JSON value.
pub enum JsonView {
    Other,
    Int(i64),
    Text(Seq<char>),
    List(Seq<JsonView>),
    Fields(Seq<(Seq<char>, JsonView)>),
}

impl View for Json {
    type V = JsonView;

    open spec fn view(&self) -> JsonView {
        json_view(*self)
    }
}

pub open spec fn json_view(j: Json) -> JsonView
    decreases j, 0nat,
{
    match j {
        Json::Other => JsonView::Other,
        Json::Int(i) => JsonView::Int(i),
        Json::Text(t) => JsonView::Text(t@),
        Json::List(l) => JsonView::List(list_view(l, l@.len())),
        Json::Fields(l) => JsonView::Fields(fields_view(l, l@.len())),
    }
}

/// The content of the first `k` items.
pub open spec fn list_view(l: Vec<Json>, k: nat) -> Seq<JsonView>
    decreases l, k,
{
    if k == 0 || k > l@.len() {
        Seq::empty()
    } else {
        list_view(l, (k - 1) as nat).push(json_view(l[k - 1]))
    }
}

/// The content of the first `k` fields.
pub open spec fn fields_view(l: Vec<(String, Json)>, k: nat) -> Seq<(Seq<char>, JsonView)>
    decreases l, k,
{
    if k == 0 || k > l@.len() {
        Seq::empty()
    } else {
        fields_view(l, (k - 1) as nat).push((l[k - 1].0@, json_view(l[k - 1].1)))
    }
}

/// A list holds the content of its items.
pub proof fn lemma_list_view(l: Vec<Json>, k: nat)
    requires
        k <= l@.len(),
    ensures
        list_view(l, k) == json_views(l@).take(k as int),
    decreases k,
{
    if k > 0 {
        lemma_list_view(l, (k - 1) as nat);
        assert(json_views(l@).take(k as int) =~= json_views(l@).take(k - 1).push(json_view(l[k - 1])));
    } else {
        assert(json_views(l@).take(0) =~= Seq::empty());
    }
}

// ---------------------------------------------------------------------------
// Parsing
// ---------------------------------------------------------------------------

/// What a parsed value holds.
pub uninterp spec fn content_of(v: serde_json::Value) -> JsonView;

/// The value that a JSON text stands for, or why it is none.
pub uninterp spec fn json_of(text: Seq<char>) -> Result<JsonView, Seq<char>>;

/// The values of the JSON list that a text stands for, or why it is none.
pub uninterp spec fn json_list_of(text: Seq<char>) -> Result<Seq<JsonView>, Seq<char>>;

pub open spec fn contents_of(l: Seq<serde_json::Value>) -> Seq<JsonView> {
    Seq::new(l.len(), |i: int| content_of(l[i]))
}

pub open spec fn value_result(r: Result<serde_json::Value, String>) -> Result<JsonView, Seq<char>> {
    match r {
        Ok(v) => Ok(content_of(v)),
        Err(e) => Err(e@),
    }
}

pub open spec fn values_result(r: Result<Vec<serde_json::Value>, String>) -> Result<
    Seq<JsonView>,
    Seq<char>,
> {
    match r {
        Ok(l) => Ok(contents_of(l@)),
        Err(e) => Err(e@),
    }
}

/// `serde_json::from_str` into a `Value`, its error taken by its text: the
/// outcome depends on the text alone.
#[verifier::external_body]
fn value_of(text: &str) -> (r: Result<serde_json::Value, String>)
    ensures
        value_result(r) == json_of(text@),
{
    serde_json::from_str(text).map_err(|e| e.to_string())
}

/// `serde_json::from_str` into a `Vec<Value>`, its error taken by its text: the
/// outcome depends on the text alone.
#[verifier::external_body]
fn values_of(text: &str) -> (r: Result<Vec<serde_json::Value>, String>)
    ensures
        values_result(r) == json_list_of(text@),
{
    serde_json::from_str(text).map_err(|e| e.to_string())
}

/// The variants of `serde_json::Value`, moved over one for one: strings, lists
/// and objects as they are, numbers where `Number::as_i64` gives one. What a
/// value holds depends on the value alone.
#[verifier::external_body]
fn json_from(v: serde_json::Value) -> (r: Json)
    ensures
        r@ == content_of(v),
{
    match v {
        serde_json::Value::Number(n) => n.as_i64().map_or(Json::Other, Json::Int),
        serde_json::Value::String(t) => Json::Text(t),
        serde_json::Value::Array(l) => Json::List(l.into_iter().map(json_from).collect()),
        serde_json::Value::Object(m) => Json::Fields(m.into_iter().map(|(k, x)| (k, json_from(x))).collect()),
        _ => Json::Other,
    }
}

pub open spec fn json_result(r: Result<Json, String>) -> Result<JsonView, Seq<char>> {
    match r {
        Ok(v) => Ok(v@),
        Err(e) => Err(e@),
    }
}

/// Read a JSON text.
pub fn parse_json(text: &str) -> (r: Result<Json, String>)
    ensures
        json_result(r) == json_of(text@),
{
    match value_of(text) {
        Ok(v) => Ok(json_from(v)),
        Err(e) => Err(e),
    }
}

/// The contents of a list of values.
pub open spec fn json_views(l: Seq<Json>) -> Seq<JsonView> {
    Seq::new(l.len(), |i: int| l[i]@)
}

pub open spec fn json_list_result(r: Result<Vec<Json>, String>) -> Result<Seq<JsonView>, Seq<char>> {
    match r {
        Ok(l) => Ok(json_views(l@)),
        Err(e) => Err(e@),
    }
}

/// Read the text of a JSON list.
pub fn parse_json_list(text: &str) -> (r: Result<Vec<Json>, String>)
    ensures
        json_list_result(r) == json_list_of(text@),
{
    let l = match values_of(text) {
        Ok(l) => l,
        Err(e) => {
            return Err(e);
        },
    };
    let ghost src = l@;
    let mut out: Vec<Json> = Vec::new();
    for v in it: l
        invariant
            it.seq() == src,
            out@.len() == it.index(),
            forall|k: int| 0 <= k < it.index() ==> (#[trigger] out@[k])@ == content_of(src[k]),
    {
        out.push(json_from(v));
    }
    proof {
        assert(json_views(out@) =~= contents_of(src));
    }
    Ok(out)
}

// ---------------------------------------------------------------------------
// Fields
// ---------------------------------------------------------------------------

/// The first field of that name.
pub open spec fn named(l: Seq<(Seq<char>, JsonView)>, name: Seq<char>) -> Option<JsonView>
    decreases l.len(),
{
    if l.len() == 0 {
        None
    } else {
        match named(l.drop_last(), name) {
            Some(v) => Some(v),
            None => if l.last().0 == name {
                Some(l.last().1)
            } else {
                None
            },
        }
    }
}

/// The field of an object; other values have none.
pub open spec fn field(v: JsonView, name: Seq<char>) -> Option<JsonView> {
    match v {
        JsonView::Fields(l) => named(l, name),
        _ => None,
    }
}

/// A field that is a text.
pub open spec fn text_field(v: JsonView, name: Seq<char>) -> Option<Seq<char>> {
    match field(v, name) {
        Some(JsonView::Text(t)) => Some(t),
        _ => None,
    }
}

/// A field that is an integer.
pub open spec fn int_field(v: JsonView, name: Seq<char>) -> Option<i64> {
    match field(v, name) {
        Some(JsonView::Int(i)) => Some(i),
        _ => None,
    }
}

proof fn lemma_named(l: Seq<(Seq<char>, JsonView)>, n: nat, name: Seq<char>)
    requires
        n <= l.len(),
    ensures
        named(l.take(n as int), name) matches Some(x) ==> decreases_to!(l => x),
    decreases n,
{
    if n > 0 {
        assert(l.take(n as int).drop_last() =~= l.take(n - 1));
        lemma_named(l, (n - 1) as nat, name);
        assert(decreases_to!(l => l[n - 1]));
    }
}

/// A field is smaller than what it belongs to.
pub proof fn lemma_field(v: JsonView, name: Seq<char>)
    ensures
        field(v, name) matches Some(x) ==> decreases_to!(v => x),
{
    if let JsonView::Fields(l) = v {
        assert(l.take(l.len() as int) =~= l);
        lemma_named(l, l.len(), name);
    }
}

proof fn lemma_fields_view(l: Vec<(String, Json)>, k: nat)
    requires
        k <= l@.len(),
    ensures
        fields_view(l, k).len() == k,
    decreases k,
{
    if k > 0 {
        lemma_fields_view(l, (k - 1) as nat);
    }
}

proof fn lemma_fields_front(l: Vec<(String, Json)>, k: nat, n: nat)
    requires
        k <= n <= l@.len(),
    ensures
        fields_view(l, n).take(k as int) == fields_view(l, k),
    decreases n - k,
{
    lemma_fields_view(l, n);
    lemma_fields_view(l, k);
    if k < n {
        lemma_fields_front(l, k + 1, n);
        assert(fields_view(l, n).take(k as int) =~= fields_view(l, n).take((k + 1) as int).drop_last());
        assert(fields_view(l, k + 1).drop_last() =~= fields_view(l, k));
    } else {
        assert(fields_view(l, n).take(k as int) =~= fields_view(l, n));
    }
}

proof fn lemma_named_front(l: Seq<(Seq<char>, JsonView)>, k: nat, name: Seq<char>)
    requires
        k <= l.len(),
        named(l.take(k as int), name) is Some,
    ensures
        named(l, name) == named(l.take(k as int), name),
    decreases l.len() - k,
{
    if k < l.len() {
        assert(l.take((k + 1) as int).drop_last() =~= l.take(k as int));
        lemma_named_front(l, k + 1, name);
    } else {
        assert(l.take(k as int) =~= l);
    }
}

/// Find a field of an object.
pub fn find_field<'a>(v: &'a Json, name: &str) -> (r: Option<&'a Json>)
    ensures
        r matches Some(x) ==> field(v@, name@) == Some(x@),
        r matches Some(x) ==> decreases_to!(*v => *x),
        r is None ==> field(v@, name@) is None,
{
    match v {
        Json::Fields(l) => {
            let mut i: usize = 0;
            let ghost all = fields_view(*l, l@.len());
            proof {
                lemma_fields_front(*l, 0, l@.len());
            }
            while i < l.len()
                invariant
                    i <= l@.len(),
                    all == fields_view(*l, l@.len()),
                    v@ == JsonView::Fields(all),
                    *v == Json::Fields(*l),
                    named(fields_view(*l, i as nat), name@) is None,
                decreases l@.len() - i,
            {
                proof {
                    lemma_fields_front(*l, (i + 1) as nat, l@.len());
                    lemma_fields_view(*l, l@.len());
                    lemma_fields_view(*l, i as nat);
                    assert(fields_view(*l, (i + 1) as nat).drop_last() =~= fields_view(*l, i as nat));
                }
                let c = chars_of(l[i].0.as_str());
                if eq_str(c.as_slice(), name) {
                    proof {
                        lemma_named_front(all, (i + 1) as nat, name@);
                        assert(decreases_to!(*l => l@[i as int]));
                    }
                    return Some(&l[i].1);
                }
                i += 1;
            }
            None
        },
        _ => None,
    }
}

/// Find a field that is a text.
pub fn find_text<'a>(v: &'a Json, name: &str) -> (r: Option<&'a String>)
    ensures
        r matches Some(t) ==> text_field(v@, name@) == Some(t@),
        r is None ==> text_field(v@, name@) is None,
{
    match find_field(v, name) {
        Some(Json::Text(t)) => Some(t),
        _ => None,
    }
}

/// Find a field that is an integer.
pub fn find_int(v: &Json, name: &str) -> (r: Option<i64>)
    ensures
        r == int_field(v@, name@),
{
    match find_field(v, name) {
        Some(Json::Int(i)) => Some(*i),
        _ => None,
    }
}

} // verus!
