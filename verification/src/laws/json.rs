//! What holds of JSON values and of what is read from them.

use crate::convert::{bool_or, items_of, str_or, unsigned_or};
use crate::json::{
    array_of, bool_of, comes_before, field, member, member_in, members_view, signed_of, str_of,
    unsigned_of, Json, JsonV, Member,
};
use vstd::prelude::*;

verus! {

/// A member of an object is read by its name; where there is none, and of what
/// is no object, `Null` is read.
pub proof fn members_are_read_by_name(m: Map<Seq<char>, JsonV>, j: JsonV, key: Seq<char>)
    ensures
        m.contains_key(key) ==> field(JsonV::Object(m), key) == m[key],
        !m.contains_key(key) ==> field(JsonV::Object(m), key) == JsonV::Null,
        j !is Object ==> field(j, key) == JsonV::Null,
{
}

/// A value is read as what it is, and as nothing else.
pub proof fn values_are_read_as_what_they_are(
    j: JsonV,
    s: Seq<char>,
    b: bool,
    n: u64,
    i: i64,
    items: Seq<JsonV>,
)
    ensures
        str_of(j) == Some(s) <==> j == JsonV::Str(s),
        bool_of(j) == Some(b) <==> j == JsonV::Bool(b),
        unsigned_of(j) == Some(n) <==> j == JsonV::Unsigned(n),
        array_of(j) == Some(items) <==> j == JsonV::Array(items),
        signed_of(j) == Some(i) <==> j == JsonV::Negative(i) || (j is Unsigned && j->Unsigned_0
            == i),
        str_of(j) is Some <==> j is Str,
        bool_of(j) is Some <==> j is Bool,
        unsigned_of(j) is Some <==> j is Unsigned,
        array_of(j) is Some <==> j is Array,
        signed_of(j) is Some <==> j is Negative || (j is Unsigned && j->Unsigned_0 <= i64::MAX),
{
}

/// Where a value is not what is asked for, the default stands for it.
pub proof fn defaults_stand_for_what_is_missing(
    j: JsonV,
    s: Seq<char>,
    b: bool,
    n: u64,
    items: Seq<JsonV>,
)
    ensures
        j !is Str ==> str_or(j, s) == s,
        j !is Bool ==> bool_or(j, b) == b,
        j !is Unsigned ==> unsigned_or(j, n) == n,
        j !is Array ==> items_of(j).len() == 0,
        j is Str ==> j == JsonV::Str(str_or(j, s)),
        j is Bool ==> j == JsonV::Bool(bool_or(j, b)),
        j is Unsigned ==> j == JsonV::Unsigned(unsigned_or(j, n)),
        j is Array ==> j == JsonV::Array(items_of(j)),
{
}

/// Plain data says what it holds: a number that is not negative is the same
/// however it is held, an array says what its items say, one for one.
pub proof fn plain_data_says_what_it_holds(
    b: bool,
    n: u64,
    i: i64,
    s: String,
    items: Vec<Json>,
    k: int,
)
    ensures
        Json::Null@ == JsonV::Null,
        Json::Bool(b)@ == JsonV::Bool(b),
        Json::Unsigned(n)@ == JsonV::Unsigned(n),
        i >= 0 ==> Json::Signed(i)@ == JsonV::Unsigned(i as u64),
        i < 0 ==> Json::Signed(i)@ == JsonV::Negative(i),
        Json::Str(s)@ == JsonV::Str(s@),
        Json::Array(items)@ is Array,
        Json::Array(items)@->Array_0.len() == items@.len(),
        0 <= k < items@.len() ==> Json::Array(items)@->Array_0[k] == items@[k]@,
{
}

/// Of members with one name the last counts; a name that no member has is
/// missing.
pub proof fn the_last_member_of_a_name_counts(members: Vec<Member>, k: int, key: Seq<char>)
    ensures
        0 <= k < members@.len() && members@[k].key@ == key && (forall|n: int|
            k < n < members@.len() ==> (#[trigger] members@[n]).key@ != key) ==> field(
            Json::Object(members)@,
            key,
        ) == members@[k].value@ && member(Json::Object(members), key) == members@[k].value
            && Json::Object(members)@->Object_0.contains_key(key),
        (forall|n: int| 0 <= n < members@.len() ==> (#[trigger] members@[n]).key@ != key)
            ==> !Json::Object(members)@->Object_0.contains_key(key) && member(
            Json::Object(members),
            key,
        ) == Json::Null,
        Json::Object(members)@ is Object,
{
    lemma_last_member(members@, k, key);
    assert(members_view(members@) == Json::Object(members)@->Object_0);
}

proof fn lemma_last_member(members: Seq<Member>, k: int, key: Seq<char>)
    ensures
        0 <= k < members.len() && members[k].key@ == key && (forall|n: int|
            k < n < members.len() ==> (#[trigger] members[n]).key@ != key) ==> members_view(
            members,
        ).contains_key(key) && members_view(members)[key] == members[k].value@
            && member_in(members, key) == members[k].value,
        (forall|n: int| 0 <= n < members.len() ==> (#[trigger] members[n]).key@ != key)
            ==> !members_view(members).contains_key(key) && member_in(members, key)
            == Json::Null,
    decreases members.len(),
{
    if members.len() > 0 {
        let rest = members.drop_last();
        let last = members.len() - 1;
        lemma_last_member(rest, k, key);
        assert(forall|n: int| 0 <= n < last ==> #[trigger] rest[n] == members[n]);
        if forall|n: int| 0 <= n < members.len() ==> (#[trigger] members[n]).key@ != key {
            assert(members[last].key@ != key);
        }
        if 0 <= k < last && (forall|n: int|
            k < n < members.len() ==> (#[trigger] members[n]).key@ != key) {
            assert(members[last].key@ != key);
        }
    }
}

/// Names are ordered by the first character in which they differ; a name comes
/// before those that begin with it.
pub proof fn names_are_in_order(p: Seq<char>, x: char, y: char, a: Seq<char>, b: Seq<char>)
    ensures
        x < y ==> comes_before(p + seq![x] + a, p + seq![y] + b) && !comes_before(
            p + seq![y] + b,
            p + seq![x] + a,
        ),
        comes_before(p, p + seq![x] + a),
        !comes_before(p + seq![x] + a, p),
        !comes_before(p, p),
    decreases p.len(),
{
    let s = p + seq![x] + a;
    let t = p + seq![y] + b;
    if p.len() == 0 {
        assert(s[0] == x && t[0] == y);
    } else {
        let rest = p.drop_first();
        names_are_in_order(rest, x, y, a, b);
        assert(s[0] == p[0] && t[0] == p[0]);
        assert(s.drop_first() =~= rest + seq![x] + a);
        assert(t.drop_first() =~= rest + seq![y] + b);
    }
}

} // verus!
