//! JSON values as plain data, read and written by serde_json.

use crate::text::{opt_str_view, str_eq};
use serde_json::{Number, Value};
use vstd::prelude::*;
use vstd::utf8::encode_utf8;

verus! {

/// A JSON value. Where an object names a member twice, the later one counts.
#[derive(Debug, PartialEq)]
pub enum Json {
    Null,
    Bool(bool),
    Unsigned(u64),
    Signed(i64),
    Float(Float),
    Str(String),
    Array(Vec<Json>),
    Object(Vec<Member>),
}

/// A named member of an object.
#[derive(Debug, PartialEq)]
pub struct Member {
    pub key: String,
    pub value: Json,
}

/// What a JSON value says. Integers that are not negative are `Unsigned`.
pub enum JsonV {
    Null,
    Bool(bool),
    Unsigned(u64),
    Negative(i64),
    Float(Number),
    Str(Seq<char>),
    Array(Seq<JsonV>),
    Object(Map<Seq<char>, JsonV>),
}

/// A JSON number that is no integer. It is carried along and never computed with.
#[derive(Debug, PartialEq)]
pub struct Float {
    number: Number,
}

impl Float {
    #[verifier::type_invariant]
    closed spec fn inv(&self) -> bool {
        held_as_float(self.number)
    }

    pub closed spec fn number(&self) -> Number {
        self.number
    }
}

/// Whether some value of serde_json holds this number as a floating-point one.
pub open spec fn held_as_float(n: Number) -> bool {
    exists|v: Value| #[trigger] value_json(v) == JsonV::Float(n)
}

pub open spec fn signed_view(n: i64) -> JsonV {
    if n < 0 {
        JsonV::Negative(n)
    } else {
        JsonV::Unsigned(n as u64)
    }
}

pub open spec fn json_view(j: Json) -> JsonV
    decreases j,
{
    match j {
        Json::Null => JsonV::Null,
        Json::Bool(b) => JsonV::Bool(b),
        Json::Unsigned(n) => JsonV::Unsigned(n),
        Json::Signed(n) => signed_view(n),
        Json::Float(n) => JsonV::Float(n.number()),
        Json::Str(s) => JsonV::Str(s@),
        Json::Array(items) => JsonV::Array(items_view(items@)),
        Json::Object(members) => JsonV::Object(members_view(members@)),
    }
}

pub open spec fn items_view(items: Seq<Json>) -> Seq<JsonV>
    decreases items,
{
    Seq::new(
        items.len(),
        |i: int|
            if 0 <= i < items.len() {
                json_view(items[i])
            } else {
                JsonV::Null
            },
    )
}

pub open spec fn members_view(members: Seq<Member>) -> Map<Seq<char>, JsonV>
    decreases members,
{
    if members.len() == 0 {
        Map::empty()
    } else {
        members_view(members.drop_last()).insert(
            members.last().key@,
            json_view(members.last().value),
        )
    }
}

impl View for Json {
    type V = JsonV;

    open spec fn view(&self) -> JsonV {
        json_view(*self)
    }
}

/// What an optional JSON value says.
pub open spec fn opt_json_view(j: Option<Json>) -> Option<JsonV> {
    match j {
        Some(x) => Some(x@),
        None => None,
    }
}

/// The member of that name, `Null` where there is none.
pub open spec fn field(j: JsonV, key: Seq<char>) -> JsonV {
    match j {
        JsonV::Object(m) => if m.contains_key(key) {
            m[key]
        } else {
            JsonV::Null
        },
        _ => JsonV::Null,
    }
}

pub open spec fn str_of(j: JsonV) -> Option<Seq<char>> {
    match j {
        JsonV::Str(s) => Some(s),
        _ => None,
    }
}

pub open spec fn bool_of(j: JsonV) -> Option<bool> {
    match j {
        JsonV::Bool(b) => Some(b),
        _ => None,
    }
}

pub open spec fn unsigned_of(j: JsonV) -> Option<u64> {
    match j {
        JsonV::Unsigned(n) => Some(n),
        _ => None,
    }
}

/// The integer, where it lies in the range of `i64`.
pub open spec fn signed_of(j: JsonV) -> Option<i64> {
    match j {
        JsonV::Unsigned(n) => if n <= i64::MAX {
            Some(n as i64)
        } else {
            None
        },
        JsonV::Negative(n) => Some(n),
        _ => None,
    }
}

pub open spec fn array_of(j: JsonV) -> Option<Seq<JsonV>> {
    match j {
        JsonV::Array(s) => Some(s),
        _ => None,
    }
}

/// Whether a text comes before another, by the code points of the characters.
pub open spec fn comes_before(a: Seq<char>, b: Seq<char>) -> bool
    decreases a.len(),
{
    if b.len() == 0 {
        false
    } else if a.len() == 0 || a[0] < b[0] {
        true
    } else {
        a[0] == b[0] && comes_before(a.drop_first(), b.drop_first())
    }
}

proof fn lemma_order(a: Seq<char>, b: Seq<char>)
    ensures
        !comes_before(a, b) || !comes_before(b, a),
    decreases a.len(),
{
    if a.len() > 0 && b.len() > 0 {
        lemma_order(a.drop_first(), b.drop_first());
    }
}

/// Whether the members of every object stand in the order of their names.
pub open spec fn canonical(j: Json) -> bool
    decreases j,
{
    match j {
        Json::Array(items) => forall|i: int|
            0 <= i < items@.len() ==> canonical(#[trigger] items@[i]),
        Json::Object(members) => members_canonical(members@),
        _ => true,
    }
}

pub open spec fn members_canonical(members: Seq<Member>) -> bool
    decreases members,
{
    &&& forall|i: int, k: int|
        0 <= i < k < members.len() ==> comes_before(
            (#[trigger] members[i]).key@,
            (#[trigger] members[k]).key@,
        )
    &&& forall|i: int| 0 <= i < members.len() ==> canonical((#[trigger] members[i]).value)
}

/// The value in canonical form that says this.
pub open spec fn canonical_of(j: JsonV) -> Json {
    choose|x: Json| canonical(x) && x@ == j
}

proof fn lemma_has_member(members: Seq<Member>, key: Seq<char>) -> (i: int)
    requires
        members_view(members).contains_key(key),
    ensures
        0 <= i < members.len(),
        members[i].key@ == key,
    decreases members.len(),
{
    if members.last().key@ == key {
        members.len() - 1
    } else {
        lemma_has_member(members.drop_last(), key)
    }
}

proof fn lemma_not_last(members: Seq<Member>)
    requires
        members_canonical(members),
        members.len() > 0,
    ensures
        members_canonical(members.drop_last()),
        !members_view(members.drop_last()).contains_key(members.last().key@),
        members_view(members).contains_key(members.last().key@),
        members_view(members).remove(members.last().key@) == members_view(members.drop_last()),
{
    let rest = members.drop_last();
    assert forall|i: int| 0 <= i < rest.len() implies canonical((#[trigger] rest[i]).value) by {
        assert(rest[i] == members[i]);
    }
    assert forall|i: int, k: int| 0 <= i < k < rest.len() implies comes_before(
        (#[trigger] rest[i]).key@,
        (#[trigger] rest[k]).key@,
    ) by {
        assert(comes_before(members[i].key@, members[k].key@));
    }
    let last = members.last().key@;
    if members_view(rest).contains_key(last) {
        let i = lemma_has_member(rest, last);
        assert(comes_before(members[i].key@, members[members.len() - 1].key@));
        lemma_order(last, last);
    }
    assert(members_view(members).remove(last) =~= members_view(rest));
}

/// Two lists of members in canonical form that say the same have the same
/// names in the same order, with values that say the same.
pub proof fn lemma_same_members(a: Seq<Member>, b: Seq<Member>)
    requires
        members_canonical(a),
        members_canonical(b),
        members_view(a) == members_view(b),
    ensures
        a.len() == b.len(),
        forall|i: int|
            0 <= i < a.len() ==> (#[trigger] a[i]).key@ == b[i].key@ && a[i].value@ == b[i].value@,
    decreases a.len(),
{
    if a.len() > 0 {
        lemma_not_last(a);
    }
    if b.len() > 0 {
        lemma_not_last(b);
    }
    if a.len() > 0 && b.len() > 0 {
        let x = a.last().key@;
        let y = b.last().key@;
        if x != y {
            let i = lemma_has_member(b, x);
            let k = lemma_has_member(a, y);
            assert(comes_before(b[i].key@, b[b.len() - 1].key@));
            assert(comes_before(a[k].key@, a[a.len() - 1].key@));
            lemma_order(x, y);
        }
        lemma_same_members(a.drop_last(), b.drop_last());
        assert(members_view(a)[x] == a.last().value@);
        assert(members_view(b)[x] == b.last().value@);
        assert forall|i: int| 0 <= i < a.len() implies (#[trigger] a[i]).key@ == b[i].key@
            && a[i].value@ == b[i].value@ by {
            if i < a.len() - 1 {
                assert(a.drop_last()[i] == a[i]);
                assert(b.drop_last()[i] == b[i]);
            }
        }
    }
}

/// A member is smaller than the object that holds it.
pub proof fn lemma_field_smaller(j: JsonV, key: Seq<char>)
    ensures
        field(j, key) !is Null ==> decreases_to!(j => field(j, key)),
{
}

/// The last member of that name, as it stands in the object.
pub open spec fn member(j: Json, key: Seq<char>) -> Json {
    match j {
        Json::Object(members) => member_in(members@, key),
        _ => Json::Null,
    }
}

pub open spec fn member_in(members: Seq<Member>, key: Seq<char>) -> Json
    decreases members.len(),
{
    if members.len() == 0 {
        Json::Null
    } else if members.last().key@ == key {
        members.last().value
    } else {
        member_in(members.drop_last(), key)
    }
}

pub proof fn lemma_member_in(members: Seq<Member>, key: Seq<char>)
    ensures
        member_in(members, key)@ == field(JsonV::Object(members_view(members)), key),
        (forall|i: int| 0 <= i < members.len() ==> canonical((#[trigger] members[i]).value))
            ==> canonical(member_in(members, key)),
    decreases members.len(),
{
    if members.len() > 0 {
        let rest = members.drop_last();
        lemma_member_in(rest, key);
        assert(forall|i: int| 0 <= i < rest.len() ==> #[trigger] rest[i] == members[i]);
    }
}

/// The last member of a name says what the object has under that name.
pub proof fn lemma_member(j: Json, key: Seq<char>)
    ensures
        member(j, key)@ == field(j@, key),
        canonical(j) ==> canonical(member(j, key)),
{
    if let Json::Object(members) = j {
        lemma_member_in(members@, key);
        assert(canonical(j) ==> members_canonical(members@));
    }
}

pub proof fn lemma_items_push(items: Seq<Json>, x: Json)
    ensures
        items_view(items.push(x)) == items_view(items).push(x@),
{
    assert(items_view(items.push(x)) =~= items_view(items).push(x@));
}

pub proof fn lemma_members_push(members: Seq<Member>, x: Member)
    ensures
        members_view(members.push(x)) == members_view(members).insert(x.key@, x.value@),
{
    assert(members.push(x).drop_last() =~= members);
}

impl Json {
    /// The member of that name, `Null` where there is none.
    pub fn get(&self, key: &str) -> (r: &Json)
        ensures
            *r == member(*self, key@),
            r@ == field(self@, key@),
    {
        match self {
            Json::Object(members) => {
                let ghost all = members@;
                let mut i: usize = members.len();
                proof {
                    lemma_member_in(all, key@);
                    assert(all.take(all.len() as int) =~= all);
                }
                while i > 0
                    invariant
                        i <= members@.len(),
                        all == members@,
                        *self == Json::Object(*members),
                        member_in(all.take(i as int), key@) == member_in(all, key@),
                        member_in(all, key@)@ == field(self@, key@),
                    decreases i,
                {
                    proof {
                        assert(all.take(i as int).drop_last() =~= all.take(i - 1));
                    }
                    if str_eq(members[i - 1].key.as_str(), key) {
                        return &members[i - 1].value;
                    }
                    i = i - 1;
                }
                &Json::Null
            },
            _ => &Json::Null,
        }
    }

    pub fn as_str(&self) -> (r: Option<&str>)
        ensures
            opt_str_view(r) == str_of(self@),
    {
        match self {
            Json::Str(s) => Some(s.as_str()),
            _ => None,
        }
    }

    pub fn as_bool(&self) -> (r: Option<bool>)
        ensures
            r == bool_of(self@),
    {
        match self {
            Json::Bool(b) => Some(*b),
            _ => None,
        }
    }

    pub fn as_u64(&self) -> (r: Option<u64>)
        ensures
            r == unsigned_of(self@),
    {
        match self {
            Json::Unsigned(n) => Some(*n),
            Json::Signed(n) => if *n >= 0 {
                Some(*n as u64)
            } else {
                None
            },
            _ => None,
        }
    }

    pub fn as_i64(&self) -> (r: Option<i64>)
        ensures
            r == signed_of(self@),
    {
        match self {
            Json::Unsigned(n) => if *n <= i64::MAX as u64 {
                Some(*n as i64)
            } else {
                None
            },
            Json::Signed(n) => Some(*n),
            _ => None,
        }
    }

    pub fn as_array(&self) -> (r: Option<&Vec<Json>>)
        ensures
            match r {
                Some(items) => *self == Json::Array(*items) && self@ == JsonV::Array(
                    items_view(items@),
                ),
                None => array_of(self@) is None,
            },
    {
        match self {
            Json::Array(items) => Some(items),
            _ => None,
        }
    }

    pub fn is_null(&self) -> (r: bool)
        ensures
            r == (self@ is Null),
    {
        match self {
            Json::Null => true,
            _ => false,
        }
    }
}

impl Clone for Json {
    /// A copy that says the same.
    fn clone(&self) -> (r: Self)
        ensures
            r@ == self@,
        decreases *self,
    {
        match self {
            Json::Null => Json::Null,
            Json::Bool(b) => Json::Bool(*b),
            Json::Unsigned(n) => Json::Unsigned(*n),
            Json::Signed(n) => Json::Signed(*n),
            Json::Float(f) => {
                proof {
                    use_type_invariant(f);
                }
                Json::Float(Float { number: f.number.clone() })
            },
            Json::Str(s) => Json::Str(s.clone()),
            Json::Array(items) => {
                let mut out: Vec<Json> = Vec::new();
                let mut i: usize = 0;
                while i < items.len()
                    invariant
                        i <= items@.len(),
                        *self == Json::Array(*items),
                        items_view(out@) == items_view(items@.take(i as int)),
                    decreases items@.len() - i,
                {
                    assert(decreases_to!(*self => self->Array_0));
                    assert(decreases_to!(items => items[i as int]));
                    let x = items[i].clone();
                    proof {
                        lemma_items_push(out@, x);
                        lemma_items_push(items@.take(i as int), items@[i as int]);
                        assert(items@.take(i + 1) =~= items@.take(i as int).push(
                            items@[i as int],
                        ));
                    }
                    out.push(x);
                    i = i + 1;
                }
                proof {
                    assert(items@.take(i as int) =~= items@);
                }
                Json::Array(out)
            },
            Json::Object(members) => {
                let mut out: Vec<Member> = Vec::new();
                let mut i: usize = 0;
                while i < members.len()
                    invariant
                        i <= members@.len(),
                        *self == Json::Object(*members),
                        members_view(out@) == members_view(members@.take(i as int)),
                    decreases members@.len() - i,
                {
                    assert(decreases_to!(*self => self->Object_0));
                    assert(decreases_to!(members => members[i as int]));
                    assert(decreases_to!(members[i as int] => members[i as int].value));
                    let value = members[i].value.clone();
                    let x = Member { key: members[i].key.clone(), value };
                    proof {
                        lemma_members_push(out@, x);
                        lemma_members_push(members@.take(i as int), members@[i as int]);
                        assert(members@.take(i + 1) =~= members@.take(i as int).push(
                            members@[i as int],
                        ));
                    }
                    out.push(x);
                    i = i + 1;
                }
                proof {
                    assert(members@.take(i as int) =~= members@);
                }
                Json::Object(out)
            },
        }
    }
}

/// Adds a member to those of an object.
pub fn put(members: &mut Vec<Member>, key: &str, value: Json)
    ensures
        members_view(final(members)@) == members_view(old(members)@).insert(key@, value@),
{
    let x = Member { key: key.to_owned(), value };
    proof {
        lemma_members_push(members@, x);
    }
    members.push(x);
}

/// A JSON string.
pub fn text_json(s: &str) -> (r: Json)
    ensures
        r@ == JsonV::Str(s@),
{
    Json::Str(s.to_owned())
}

// What is below reaches into serde_json.

/// A JSON number of serde_json.
#[verifier::external_type_specification]
#[verifier::external_body]
pub struct ExNumber(serde_json::Number);

/// A JSON value of serde_json.
#[verifier::external_type_specification]
#[verifier::external_body]
pub struct ExValue(serde_json::Value);

/// What a value of serde_json holds.
pub uninterp spec fn value_json(v: Value) -> JsonV;

/// What `serde_json::from_slice` reads from these bytes as a `Value`: `None`
/// where it returns an error.
pub uninterp spec fn json_parsed(bytes: Seq<u8>) -> Option<JsonV>;

/// The text that `Value::to_string` writes for a value that holds this.
pub uninterp spec fn json_text(j: JsonV) -> Seq<char>;

/// A value of serde_json with its outermost layer taken off.
enum Layer {
    Null,
    Bool(bool),
    Unsigned(u64),
    Signed(i64),
    Float(Number),
    Str(String),
    Array(Vec<Value>),
    Object(Vec<(String, Value)>),
}

spec fn values_json(items: Seq<Value>) -> Seq<JsonV> {
    items.map_values(|v: Value| value_json(v))
}

spec fn entries_json(entries: Seq<(String, Value)>) -> Map<Seq<char>, JsonV>
    decreases entries.len(),
{
    if entries.len() == 0 {
        Map::empty()
    } else {
        entries_json(entries.drop_last()).insert(entries.last().0@, value_json(entries.last().1))
    }
}

/// Whether the entries stand in the order of their names.
spec fn in_order(entries: Seq<(String, Value)>) -> bool {
    forall|i: int, k: int|
        0 <= i < k < entries.len() ==> comes_before(
            (#[trigger] entries[i]).0@,
            (#[trigger] entries[k]).0@,
        )
}

/// Whether no two entries have the same name.
spec fn names_differ(entries: Seq<(String, Value)>) -> bool {
    forall|i: int, k: int|
        0 <= i < k < entries.len() ==> (#[trigger] entries[i]).0@ != (#[trigger] entries[k]).0@
}

spec fn layer_json(l: Layer) -> JsonV {
    match l {
        Layer::Null => JsonV::Null,
        Layer::Bool(b) => JsonV::Bool(b),
        Layer::Unsigned(n) => JsonV::Unsigned(n),
        Layer::Signed(n) => signed_view(n),
        Layer::Float(n) => JsonV::Float(n),
        Layer::Str(s) => JsonV::Str(s@),
        Layer::Array(items) => JsonV::Array(values_json(items@)),
        Layer::Object(entries) => JsonV::Object(entries_json(entries@)),
    }
}

/// `Number::clone` gives the same number.
pub assume_specification[ <Number as Clone>::clone ](n: &Number) -> (r: Number)
    ensures
        r == *n,
;

/// `serde_json::from_slice::<Value>` reads a value, or reports an error.
#[verifier::external_body]
fn value_from_slice(bytes: &[u8]) -> (r: Option<Value>)
    ensures
        match r {
            Some(v) => json_parsed(bytes@) == Some(value_json(v)),
            None => json_parsed(bytes@) is None,
        },
{
    serde_json::from_slice::<Value>(bytes).ok()
}

/// Whether a value is an object of members that are neither numbers with a
/// fraction nor nested.
pub open spec fn is_flat(j: JsonV) -> bool {
    j matches JsonV::Object(m) && forall|key: Seq<char>| #[trigger]
        m.contains_key(key) ==> m[key] !is Float && m[key] !is Array && m[key] !is Object
}

/// `Value::to_string` writes a value as compact JSON text. From the text of a
/// flat object `serde_json::from_slice` reads the same object again.
#[verifier::external_body]
fn value_to_string(v: &Value) -> (r: String)
    ensures
        r@ == json_text(value_json(*v)),
        is_flat(value_json(*v)) ==> json_parsed(encode_utf8(r@)) == Some(value_json(*v)),
{
    v.to_string()
}

/// Takes a `Value` apart, one variant each. A number is of one of three kinds,
/// which `Number::as_u64` and `Number::as_i64` tell apart. `Map::into_iter` goes
/// by a `BTreeMap`: the names of an object's members differ and come in order.
#[verifier::external_body]
fn open_value(v: Value) -> (r: Layer)
    ensures
        layer_json(r) == value_json(v),
        r matches Layer::Object(entries) ==> in_order(entries@),
{
    match v {
        Value::Null => Layer::Null,
        Value::Bool(b) => Layer::Bool(b),
        Value::Number(n) => match (n.as_u64(), n.as_i64()) {
            (Some(u), _) => Layer::Unsigned(u),
            (None, Some(i)) => Layer::Signed(i),
            (None, None) => Layer::Float(n),
        },
        Value::String(s) => Layer::Str(s),
        Value::Array(items) => Layer::Array(items),
        Value::Object(map) => Layer::Object(map.into_iter().collect()),
    }
}

/// Makes a `Value`, one variant each. From members whose names differ,
/// `Map::from_iter` makes an object that holds each of them.
#[verifier::external_body]
fn close_value(l: Layer) -> (r: Value)
    requires
        l matches Layer::Float(n) ==> held_as_float(n),
        l matches Layer::Object(entries) ==> names_differ(entries@),
    ensures
        value_json(r) == layer_json(l),
{
    match l {
        Layer::Null => Value::Null,
        Layer::Bool(b) => Value::Bool(b),
        Layer::Unsigned(n) => Value::from(n),
        Layer::Signed(n) => Value::from(n),
        Layer::Float(n) => Value::Number(n),
        Layer::Str(s) => Value::String(s),
        Layer::Array(items) => Value::Array(items),
        Layer::Object(entries) => Value::Object(entries.into_iter().collect()),
    }
}

proof fn lemma_entries_push(entries: Seq<(String, Value)>, x: (String, Value))
    ensures
        entries_json(entries.push(x)) == entries_json(entries).insert(x.0@, value_json(x.1)),
{
    assert(entries.push(x).drop_last() =~= entries);
}

proof fn lemma_entries_update(entries: Seq<(String, Value)>, k: int, x: (String, Value))
    requires
        names_differ(entries),
        0 <= k < entries.len(),
        entries[k].0@ == x.0@,
    ensures
        entries_json(entries.update(k, x)) == entries_json(entries).insert(x.0@, value_json(x.1)),
    decreases entries.len(),
{
    let rest = entries.drop_last();
    let last = entries.len() - 1;
    let after = entries.update(k, x);
    if k == last {
        assert(after.drop_last() =~= rest);
    } else {
        assert forall|i: int, n: int| 0 <= i < n < rest.len() implies (#[trigger] rest[i]).0@ != (
        #[trigger] rest[n]).0@ by {
            assert(entries[i].0@ != entries[n].0@);
        }
        lemma_entries_update(rest, k, x);
        assert(after.drop_last() =~= rest.update(k, x));
        assert(entries[k].0@ != entries[last].0@);
    }
    assert(entries_json(after) =~= entries_json(entries).insert(x.0@, value_json(x.1)));
}

/// Puts an entry in, in place of the one with that name.
fn put_entry(entries: &mut Vec<(String, Value)>, x: (String, Value))
    requires
        names_differ(old(entries)@),
    ensures
        names_differ(final(entries)@),
        entries_json(final(entries)@) == entries_json(old(entries)@).insert(
            x.0@,
            value_json(x.1),
        ),
{
    let ghost before = entries@;
    let mut i: usize = 0;
    while i < entries.len()
        invariant
            i <= entries@.len(),
            entries@ == before,
            before == old(entries)@,
            names_differ(before),
            forall|k: int| 0 <= k < i ==> (#[trigger] before[k]).0@ != x.0@,
        decreases entries@.len() - i,
    {
        if str_eq(entries[i].0.as_str(), x.0.as_str()) {
            entries.set(i, x);
            proof {
                lemma_entries_update(before, i as int, x);
                assert forall|a: int, b: int| 0 <= a < b < before.len() implies (#[trigger]
                entries@[a]).0@ != (#[trigger] entries@[b]).0@ by {
                    assert(before[a].0@ != before[b].0@);
                }
            }
            return;
        }
        i = i + 1;
    }
    proof {
        lemma_entries_push(before, x);
    }
    entries.push(x);
}

proof fn lemma_entry_held(entries: Seq<(String, Value)>, i: int)
    requires
        0 <= i < entries.len(),
        in_order(entries),
    ensures
        entries_json(entries).contains_key(entries[i].0@),
        entries_json(entries)[entries[i].0@] == value_json(entries[i].1),
    decreases entries.len(),
{
    if i < entries.len() - 1 {
        lemma_entry_held(entries.drop_last(), i);
        assert(comes_before(entries[i].0@, entries[entries.len() - 1].0@));
        lemma_order(entries[i].0@, entries[i].0@);
    }
}

/// The value of serde_json as plain data.
fn json_of_value(v: Value) -> (r: Json)
    ensures
        r@ == value_json(v),
        canonical(r),
    decreases value_json(v),
{
    match open_value(v) {
        Layer::Null => Json::Null,
        Layer::Bool(b) => Json::Bool(b),
        Layer::Unsigned(n) => Json::Unsigned(n),
        Layer::Signed(n) => Json::Signed(n),
        Layer::Float(n) => {
            assert(value_json(v) == JsonV::Float(n));
            Json::Float(Float { number: n })
        },
        Layer::Str(s) => Json::Str(s),
        Layer::Array(items) => {
            let ghost all = items@;
            let mut out: Vec<Json> = Vec::new();
            for x in it: items
                invariant
                    it.seq() == all,
                    value_json(v) == JsonV::Array(values_json(all)),
                    items_view(out@) == values_json(all).take(it.index()),
                    forall|k: int| 0 <= k < out@.len() ==> canonical(#[trigger] out@[k]),
            {
                proof {
                    let k = it.index();
                    assert(decreases_to!(value_json(v) => value_json(v)->Array_0));
                    assert(value_json(v)->Array_0[k] == value_json(x));
                    assert(values_json(all).take(k + 1) =~= values_json(all).take(k).push(
                        value_json(x),
                    ));
                }
                let y = json_of_value(x);
                proof {
                    lemma_items_push(out@, y);
                }
                out.push(y);
            }
            proof {
                assert(values_json(all).take(all.len() as int) =~= values_json(all));
            }
            Json::Array(out)
        },
        Layer::Object(entries) => {
            let ghost all = entries@;
            let mut out: Vec<Member> = Vec::new();
            proof {
                assert(all.take(0) =~= Seq::<(String, Value)>::empty());
            }
            for x in it: entries
                invariant
                    it.seq() == all,
                    value_json(v) == JsonV::Object(entries_json(all)),
                    in_order(all),
                    members_view(out@) == entries_json(all.take(it.index())),
                    out@.len() == it.index(),
                    forall|k: int| 0 <= k < out@.len() ==> (#[trigger] out@[k]).key@ == all[k].0@,
                    forall|k: int| 0 <= k < out@.len() ==> canonical((#[trigger] out@[k]).value),
            {
                proof {
                    let k = it.index();
                    lemma_entry_held(all, k);
                    assert(decreases_to!(value_json(v) => value_json(v)->Object_0));
                    assert(value_json(v)->Object_0[x.0@] == value_json(x.1));
                    lemma_entries_push(all.take(k), x);
                    assert(all.take(k + 1) =~= all.take(k).push(x));
                }
                let (key, inner) = x;
                let value = json_of_value(inner);
                let m = Member { key, value };
                proof {
                    lemma_members_push(out@, m);
                }
                out.push(m);
            }
            proof {
                assert(all.take(all.len() as int) =~= all);
                assert(members_canonical(out@)) by {
                    assert forall|i: int, k: int| 0 <= i < k < out@.len() implies comes_before(
                        (#[trigger] out@[i]).key@,
                        (#[trigger] out@[k]).key@,
                    ) by {
                        assert(comes_before(all[i].0@, all[k].0@));
                    }
                }
            }
            Json::Object(out)
        },
    }
}

/// The plain data as a value of serde_json.
fn value_of_json(j: &Json) -> (r: Value)
    ensures
        value_json(r) == j@,
    decreases *j,
{
    let layer = match j {
        Json::Null => Layer::Null,
        Json::Bool(b) => Layer::Bool(*b),
        Json::Unsigned(n) => Layer::Unsigned(*n),
        Json::Signed(n) => Layer::Signed(*n),
        Json::Float(f) => {
            proof {
                use_type_invariant(f);
            }
            Layer::Float(f.number.clone())
        },
        Json::Str(s) => Layer::Str(s.clone()),
        Json::Array(items) => {
            let mut out: Vec<Value> = Vec::new();
            let mut i: usize = 0;
            while i < items.len()
                invariant
                    i <= items@.len(),
                    *j == Json::Array(*items),
                    values_json(out@) == items_view(items@).take(i as int),
                decreases items@.len() - i,
            {
                assert(decreases_to!(*j => j->Array_0));
                assert(decreases_to!(items => items[i as int]));
                let x = value_of_json(&items[i]);
                proof {
                    assert(values_json(out@.push(x)) =~= values_json(out@).push(value_json(x)));
                    assert(items_view(items@).take(i + 1) =~= items_view(items@).take(
                        i as int,
                    ).push(items@[i as int]@));
                }
                out.push(x);
                i = i + 1;
            }
            proof {
                assert(items_view(items@).take(i as int) =~= items_view(items@));
            }
            Layer::Array(out)
        },
        Json::Object(members) => {
            let mut out: Vec<(String, Value)> = Vec::new();
            let mut i: usize = 0;
            while i < members.len()
                invariant
                    i <= members@.len(),
                    *j == Json::Object(*members),
                    names_differ(out@),
                    entries_json(out@) == members_view(members@.take(i as int)),
                decreases members@.len() - i,
            {
                assert(decreases_to!(*j => j->Object_0));
                assert(decreases_to!(members => members[i as int]));
                assert(decreases_to!(members[i as int] => members[i as int].value));
                let v = value_of_json(&members[i].value);
                let x = (members[i].key.clone(), v);
                proof {
                    lemma_members_push(members@.take(i as int), members@[i as int]);
                    assert(members@.take(i + 1) =~= members@.take(i as int).push(
                        members@[i as int],
                    ));
                }
                put_entry(&mut out, x);
                i = i + 1;
            }
            proof {
                assert(members@.take(i as int) =~= members@);
            }
            Layer::Object(out)
        },
    };
    close_value(layer)
}

/// Reads JSON text. `None` where it is not JSON.
pub fn parse_json(bytes: &[u8]) -> (r: Option<Json>)
    ensures
        opt_json_view(r) == json_parsed(bytes@),
        r matches Some(j) ==> canonical(j),
{
    match value_from_slice(bytes) {
        Some(v) => Some(json_of_value(v)),
        None => None,
    }
}

/// Writes a value as compact JSON text.
pub fn print_json(j: &Json) -> (r: String)
    ensures
        r@ == json_text(j@),
        is_flat(j@) ==> json_parsed(encode_utf8(r@)) == Some(j@),
{
    let v = value_of_json(j);
    value_to_string(&v)
}

} // verus!
