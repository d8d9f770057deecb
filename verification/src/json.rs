//! JSON values with ordered object members.

use crate::text::{compare_text, same_text, text_order, Order};
use vstd::prelude::*;

verus! {

/// A JSON number: an integer, or the shortest decimal notation of a number
/// with a fraction or an exponent.
#[derive(Debug, PartialEq, Eq)]
pub enum JsonNumber {
    Unsigned(u64),
    Negative(i64),
    Decimal(String),
}

/// A JSON value. The functions that put members into an object and take them out
/// keep its members in ascending key order.
#[derive(Debug, PartialEq, Eq)]
pub enum Json {
    Null,
    Bool(bool),
    Number(JsonNumber),
    Text(String),
    Array(Vec<Json>),
    Object(Vec<Member>),
}

/// One member of a JSON object.
#[derive(Debug, PartialEq, Eq)]
pub struct Member {
    pub key: String,
    pub value: Json,
}

/// What a JSON number holds.
pub enum NumberModel {
    Integer(int),
    Decimal(Seq<char>),
}

/// What a JSON value holds.
pub enum JsonModel {
    Null,
    Bool(bool),
    Number(NumberModel),
    Text(Seq<char>),
    Array(Seq<JsonModel>),
    Object(Seq<(Seq<char>, JsonModel)>),
}

impl View for JsonNumber {
    type V = NumberModel;

    open spec fn view(&self) -> NumberModel {
        match self {
            JsonNumber::Unsigned(value) => NumberModel::Integer(*value as int),
            JsonNumber::Negative(value) => NumberModel::Integer(*value as int),
            JsonNumber::Decimal(value) => NumberModel::Decimal(value@),
        }
    }
}

/// What a JSON value holds.
pub open spec fn model_of(value: Json) -> JsonModel
    decreases value,
{
    match value {
        Json::Null => JsonModel::Null,
        Json::Bool(value) => JsonModel::Bool(value),
        Json::Number(number) => JsonModel::Number(number@),
        Json::Text(text) => JsonModel::Text(text@),
        Json::Array(items) => JsonModel::Array(
            Seq::new(
                items@.len(),
                |i: int|
                    if 0 <= i < items@.len() {
                        model_of(items@[i])
                    } else {
                        JsonModel::Null
                    },
            ),
        ),
        Json::Object(members) => JsonModel::Object(
            Seq::new(
                members@.len(),
                |i: int|
                    if 0 <= i < members@.len() {
                        (members@[i].key@, model_of(members@[i].value))
                    } else {
                        (Seq::empty(), JsonModel::Null)
                    },
            ),
        ),
    }
}

impl View for Json {
    type V = JsonModel;

    open spec fn view(&self) -> JsonModel {
        model_of(*self)
    }
}

/// What a list of JSON values holds.
pub open spec fn item_models(items: Seq<Json>) -> Seq<JsonModel> {
    Seq::new(items.len(), |i: int| items[i]@)
}

/// What a list of members holds.
pub open spec fn member_models(members: Seq<Member>) -> Seq<(Seq<char>, JsonModel)> {
    Seq::new(members.len(), |i: int| (members[i].key@, members[i].value@))
}

/// An array holds what its items hold.
pub broadcast proof fn lemma_array_model(items: Vec<Json>)
    ensures
        #[trigger] Json::Array(items)@ == JsonModel::Array(item_models(items@)),
{
    assert(Json::Array(items)@->Array_0 =~= item_models(items@));
}

/// An object holds what its members hold.
pub broadcast proof fn lemma_object_model(members: Vec<Member>)
    ensures
        #[trigger] Json::Object(members)@ == JsonModel::Object(member_models(members@)),
{
    assert(Json::Object(members)@->Object_0 =~= member_models(members@));
}

/// Whether a decimal notation is that of zero.
pub open spec fn zero_decimal(value: Seq<char>) -> bool {
    value == "0.0"@ || value == "-0.0"@
}

/// Whether two numbers are equal as JSON numbers.
pub open spec fn same_number(left: NumberModel, right: NumberModel) -> bool {
    match (left, right) {
        (NumberModel::Decimal(a), NumberModel::Decimal(b)) => a == b || (zero_decimal(a)
            && zero_decimal(b)),
        _ => left == right,
    }
}

/// Whether two JSON values are equal.
pub open spec fn same_json(left: JsonModel, right: JsonModel) -> bool
    decreases left,
{
    match (left, right) {
        (JsonModel::Null, JsonModel::Null) => true,
        (JsonModel::Bool(a), JsonModel::Bool(b)) => a == b,
        (JsonModel::Number(a), JsonModel::Number(b)) => same_number(a, b),
        (JsonModel::Text(a), JsonModel::Text(b)) => a == b,
        (JsonModel::Array(a), JsonModel::Array(b)) => {
            &&& a.len() == b.len()
            &&& forall|i: int| 0 <= i < a.len() ==> same_json(#[trigger] a[i], b[i])
        },
        (JsonModel::Object(a), JsonModel::Object(b)) => {
            &&& a.len() == b.len()
            &&& forall|i: int|
                0 <= i < a.len() ==> (#[trigger] a[i]).0 == b[i].0 && same_json(a[i].1, b[i].1)
        },
        _ => false,
    }
}

/// Every value equals itself.
pub proof fn lemma_same_json_reflexive(value: JsonModel)
    ensures
        same_json(value, value),
    decreases value,
{
    match value {
        JsonModel::Array(items) => {
            assert forall|i: int| 0 <= i < items.len() implies same_json(
                #[trigger] items[i],
                items[i],
            ) by {
                lemma_same_json_reflexive(items[i]);
            }
        },
        JsonModel::Object(members) => {
            assert forall|i: int| 0 <= i < members.len() implies (#[trigger] members[i]).0
                == members[i].0 && same_json(members[i].1, members[i].1) by {
                lemma_same_json_reflexive(members[i].1);
            }
        },
        _ => {},
    }
}

/// Equality of values does not depend on the side.
pub proof fn lemma_same_json_symmetric(left: JsonModel, right: JsonModel)
    requires
        same_json(left, right),
    ensures
        same_json(right, left),
    decreases left,
{
    match (left, right) {
        (JsonModel::Array(a), JsonModel::Array(b)) => {
            assert forall|i: int| 0 <= i < b.len() implies same_json(#[trigger] b[i], a[i]) by {
                lemma_same_json_symmetric(a[i], b[i]);
            }
        },
        (JsonModel::Object(a), JsonModel::Object(b)) => {
            assert forall|i: int| 0 <= i < b.len() implies (#[trigger] b[i]).0 == a[i].0
                && same_json(b[i].1, a[i].1) by {
                lemma_same_json_symmetric(a[i].1, b[i].1);
            }
        },
        _ => {},
    }
}

/// The value of the member with a key.
pub open spec fn lookup(members: Seq<(Seq<char>, JsonModel)>, key: Seq<char>) -> Option<JsonModel>
    decreases members.len(),
{
    if members.len() == 0 {
        None
    } else if members[0].0 == key {
        Some(members[0].1)
    } else {
        lookup(members.drop_first(), key)
    }
}

/// The position of the member with a key; the number of members without one.
pub open spec fn key_at(members: Seq<(Seq<char>, JsonModel)>, key: Seq<char>) -> int
    decreases members.len(),
{
    if members.len() == 0 || members[0].0 == key {
        0
    } else {
        1 + key_at(members.drop_first(), key)
    }
}

/// Looking a key up gives the value at its position.
pub broadcast proof fn lemma_lookup_at(members: Seq<(Seq<char>, JsonModel)>, key: Seq<char>)
    ensures
        0 <= #[trigger] key_at(members, key) <= members.len(),
        lookup(members, key) == if key_at(members, key) < members.len() {
            Some(members[key_at(members, key)].1)
        } else {
            None
        },
    decreases members.len(),
{
    if members.len() > 0 && members[0].0 != key {
        lemma_lookup_at(members.drop_first(), key);
    }
}

/// The members with one added, or with the value of its key replaced.
pub open spec fn with_member(
    members: Seq<(Seq<char>, JsonModel)>,
    key: Seq<char>,
    value: JsonModel,
) -> Seq<(Seq<char>, JsonModel)>
    decreases members.len(),
{
    if members.len() == 0 {
        seq![(key, value)]
    } else {
        match text_order(key, members[0].0) {
            Order::Less => seq![(key, value)] + members,
            Order::Equal => seq![(key, value)] + members.drop_first(),
            Order::Greater => seq![members[0]] + with_member(members.drop_first(), key, value),
        }
    }
}

/// The members without those of one key.
pub open spec fn without_member(
    members: Seq<(Seq<char>, JsonModel)>,
    key: Seq<char>,
) -> Seq<(Seq<char>, JsonModel)>
    decreases members.len(),
{
    if members.len() == 0 {
        members
    } else {
        let rest = without_member(members.drop_last(), key);
        if members.last().0 == key {
            rest
        } else {
            rest.push(members.last())
        }
    }
}

/// Keys stand in strictly ascending order.
pub open spec fn ascending(members: Seq<(Seq<char>, JsonModel)>) -> bool {
    forall|i: int, j: int|
        0 <= i < j < members.len() ==> text_order((#[trigger] members[i]).0, (
        #[trigger] members[j]).0) == Order::Less
}

/// A stored value is found again; other keys are unaffected.
pub proof fn lemma_lookup_with_member(
    members: Seq<(Seq<char>, JsonModel)>,
    key: Seq<char>,
    value: JsonModel,
    other: Seq<char>,
)
    ensures
        lookup(with_member(members, key, value), key) == Some(value),
        other != key ==> lookup(with_member(members, key, value), other) == lookup(members, other),
    decreases members.len(),
{
    crate::text::lemma_text_order_equal(key, key);
    let result = with_member(members, key, value);
    if members.len() > 0 {
        crate::text::lemma_text_order_equal(key, members[0].0);
        match text_order(key, members[0].0) {
            Order::Less => {
                assert(result.drop_first() =~= members);
            },
            Order::Equal => {
                assert(result.drop_first() =~= members.drop_first());
            },
            Order::Greater => {
                lemma_lookup_with_member(members.drop_first(), key, value, other);
                assert(result.drop_first() =~= with_member(members.drop_first(), key, value));
            },
        }
    } else {
        assert(result.drop_first() =~= members);
        assert(lookup(result, other) == if key == other { Some(value) } else {
            lookup(result.drop_first(), other)
        });
    }
}

proof fn lemma_lookup_push(
    members: Seq<(Seq<char>, JsonModel)>,
    last: (Seq<char>, JsonModel),
    key: Seq<char>,
)
    ensures
        lookup(members.push(last), key) == if lookup(members, key) is Some {
            lookup(members, key)
        } else if last.0 == key {
            Some(last.1)
        } else {
            None
        },
    decreases members.len(),
{
    if members.len() > 0 {
        lemma_lookup_push(members.drop_first(), last, key);
        assert(members.push(last).drop_first() =~= members.drop_first().push(last));
    } else {
        assert(members.push(last).drop_first() =~= members);
    }
}

/// A removed key is gone; other keys are unaffected.
pub proof fn lemma_lookup_without_member(
    members: Seq<(Seq<char>, JsonModel)>,
    key: Seq<char>,
    other: Seq<char>,
)
    ensures
        lookup(without_member(members, key), key) is None,
        other != key ==> lookup(without_member(members, key), other) == lookup(members, other),
    decreases members.len(),
{
    if members.len() > 0 {
        let front = members.drop_last();
        lemma_lookup_without_member(front, key, other);
        lemma_lookup_push(front, members.last(), other);
        assert(front.push(members.last()) =~= members);
        lemma_lookup_push(without_member(front, key), members.last(), other);
        lemma_lookup_push(without_member(front, key), members.last(), key);
    }
}

proof fn lemma_with_member_at(
    members: Seq<(Seq<char>, JsonModel)>,
    key: Seq<char>,
    value: JsonModel,
    at: int,
)
    requires
        0 <= at <= members.len(),
        forall|k: int|
            0 <= k < at ==> text_order(key, (#[trigger] members[k]).0) == Order::Greater,
        at < members.len() ==> text_order(key, members[at].0) != Order::Greater,
    ensures
        with_member(members, key, value) == if at < members.len() && text_order(key, members[at].0)
            == Order::Equal {
            members.update(at, (key, value))
        } else {
            members.insert(at, (key, value))
        },
    decreases at,
{
    let result = with_member(members, key, value);
    if at == 0 {
        if members.len() > 0 && text_order(key, members[0].0) == Order::Equal {
            assert(result =~= members.update(0, (key, value)));
        } else {
            assert(result =~= members.insert(0, (key, value)));
        }
    } else {
        let rest = members.drop_first();
        assert forall|k: int| 0 <= k < at - 1 implies text_order(key, (#[trigger] rest[k]).0)
            == Order::Greater by {
            assert(rest[k] == members[k + 1]);
        }
        lemma_with_member_at(rest, key, value, at - 1);
        if at < members.len() && text_order(key, members[at].0) == Order::Equal {
            assert(result =~= members.update(at, (key, value)));
        } else {
            assert(result =~= members.insert(at, (key, value)));
        }
    }
}

/// The position of the member with a key, in a list of members.
pub fn member_index(members: &Vec<Member>, key: &str) -> (result: Option<usize>)
    ensures
        match result {
            Some(i) => i < members@.len() && i == key_at(member_models(members@), key@),
            None => key_at(member_models(members@), key@) == members@.len(),
        },
{
    let mut i: usize = 0;
    let ghost all = member_models(members@);
    proof {
        assert(all.skip(0) =~= all);
    }
    while i < members.len()
        invariant
            i <= members@.len(),
            all == member_models(members@),
            key_at(all, key@) == i + key_at(all.skip(i as int), key@),
        decreases members@.len() - i,
    {
        proof {
            assert(all.skip(i as int).drop_first() =~= all.skip(i + 1));
            assert(all.skip(i as int)[0] == all[i as int]);
        }
        if same_text(members[i].key.as_str(), key) {
            return Some(i);
        }
        i = i + 1;
    }
    None
}

/// The value of the member with a key, in a list of members.
pub fn find_member<'a>(members: &'a Vec<Member>, key: &str) -> (result: Option<&'a Json>)
    ensures
        match result {
            Some(value) => lookup(member_models(members@), key@) == Some(value@),
            None => lookup(member_models(members@), key@) is None,
        },
{
    broadcast use lemma_lookup_at;

    match member_index(members, key) {
        Some(i) => Some(&members[i].value),
        None => None,
    }
}

/// Adds a member, or replaces the value of its key.
pub fn put_member(members: &mut Vec<Member>, key: &str, value: Json)
    ensures
        member_models(final(members)@) == with_member(member_models(old(members)@), key@, value@),
{
    let mut at: usize = 0;
    let ghost all = member_models(members@);
    let ghost model = value@;
    while at < members.len() && compare_text(key, members[at].key.as_str()).is_gt()
        invariant
            at <= members@.len(),
            members@ == old(members)@,
            all == member_models(members@),
            forall|k: int|
                0 <= k < at ==> text_order(key@, (#[trigger] all[k]).0) == Order::Greater,
        decreases members@.len() - at,
    {
        at = at + 1;
    }
    proof {
        lemma_with_member_at(all, key@, value@, at as int);
    }
    let member = Member { key: key.to_owned(), value };
    if at < members.len() && compare_text(key, members[at].key.as_str()).is_eq() {
        members.set(at, member);
        proof {
            assert(member_models(members@) =~= all.update(at as int, (key@, model)));
        }
    } else {
        members.insert(at, member);
        proof {
            assert(member_models(members@) =~= all.insert(at as int, (key@, model)));
        }
    }
}

/// The members without those of one key.
pub fn drop_member(members: &Vec<Member>, key: &str) -> (result: Vec<Member>)
    ensures
        member_models(result@) == without_member(member_models(members@), key@),
{
    let mut result: Vec<Member> = Vec::new();
    let mut i: usize = 0;
    let ghost all = member_models(members@);
    proof {
        assert(member_models(result@) =~= without_member(all.take(0), key@));
    }
    while i < members.len()
        invariant
            i <= members@.len(),
            all == member_models(members@),
            member_models(result@) == without_member(all.take(i as int), key@),
        decreases members@.len() - i,
    {
        proof {
            assert(all.take(i + 1).drop_last() =~= all.take(i as int));
            assert(all.take(i + 1).last() == all[i as int]);
        }
        if !same_text(members[i].key.as_str(), key) {
            let ghost before = result@;
            let member = members[i].copy();
            result.push(member);
            proof {
                assert(member_models(result@) =~= member_models(before).push(all[i as int]));
            }
        }
        i = i + 1;
    }
    proof {
        assert(all.take(i as int) =~= all);
    }
    result
}

/// A copy of a list of members.
pub fn copy_members(members: &Vec<Member>) -> (result: Vec<Member>)
    ensures
        member_models(result@) == member_models(members@),
    decreases members,
{
    let mut result: Vec<Member> = Vec::new();
    let mut i: usize = 0;
    while i < members.len()
        invariant
            i <= members@.len(),
            result@.len() == i,
            forall|k: int|
                0 <= k < i ==> (#[trigger] result@[k]).key@ == members@[k].key@ && result@[k].value@
                    == members@[k].value@,
        decreases members@.len() - i,
    {
        let member = members[i].copy();
        result.push(member);
        i = i + 1;
    }
    proof {
        assert(member_models(result@) =~= member_models(members@));
    }
    result
}

/// A copy of a list of values.
pub fn copy_items(items: &Vec<Json>) -> (result: Vec<Json>)
    ensures
        item_models(result@) == item_models(items@),
    decreases items,
{
    let mut result: Vec<Json> = Vec::new();
    let mut i: usize = 0;
    while i < items.len()
        invariant
            i <= items@.len(),
            result@.len() == i,
            forall|k: int| 0 <= k < i ==> (#[trigger] result@[k])@ == items@[k]@,
        decreases items@.len() - i,
    {
        let item = items[i].copy();
        result.push(item);
        i = i + 1;
    }
    proof {
        assert(item_models(result@) =~= item_models(items@));
    }
    result
}

impl Member {
    /// A copy of the member.
    pub fn copy(&self) -> (result: Member)
        ensures
            result.key@ == self.key@,
            result.value@ == self.value@,
        decreases self,
    {
        Member { key: self.key.clone(), value: self.value.copy() }
    }
}

impl JsonNumber {
    /// A copy of the number.
    pub fn copy(&self) -> (result: JsonNumber)
        ensures
            result == *self,
    {
        match self {
            JsonNumber::Unsigned(value) => JsonNumber::Unsigned(*value),
            JsonNumber::Negative(value) => JsonNumber::Negative(*value),
            JsonNumber::Decimal(value) => JsonNumber::Decimal(value.clone()),
        }
    }

    /// Whether two numbers are equal.
    pub fn same(&self, other: &JsonNumber) -> (result: bool)
        ensures
            result == same_number(self@, other@),
    {
        match (self, other) {
            (JsonNumber::Unsigned(a), JsonNumber::Unsigned(b)) => *a == *b,
            (JsonNumber::Negative(a), JsonNumber::Negative(b)) => *a == *b,
            (JsonNumber::Unsigned(a), JsonNumber::Negative(b)) => *b >= 0 && *a == *b as u64,
            (JsonNumber::Negative(a), JsonNumber::Unsigned(b)) => *a >= 0 && *a as u64 == *b,
            (JsonNumber::Decimal(a), JsonNumber::Decimal(b)) => {
                same_text(a.as_str(), b.as_str()) || (is_zero_decimal(a.as_str())
                    && is_zero_decimal(b.as_str()))
            },
            _ => false,
        }
    }
}

fn is_zero_decimal(value: &str) -> (result: bool)
    ensures
        result == zero_decimal(value@),
{
    same_text(value, "0.0") || same_text(value, "-0.0")
}

impl Json {
    /// An object without members.
    pub fn empty_object() -> (result: Json)
        ensures
            result@ == JsonModel::Object(Seq::empty()),
    {
        let result = Json::Object(Vec::new());
        proof {
            assert(result@->Object_0 =~= Seq::empty());
        }
        result
    }

    /// A text value.
    pub fn text(value: &str) -> (result: Json)
        ensures
            result@ == JsonModel::Text(value@),
    {
        Json::Text(value.to_owned())
    }

    /// An unsigned integer.
    pub fn unsigned(value: u64) -> (result: Json)
        ensures
            result@ == JsonModel::Number(NumberModel::Integer(value as int)),
    {
        Json::Number(JsonNumber::Unsigned(value))
    }

    /// An array of texts.
    pub fn text_array(values: &Vec<String>) -> (result: Json)
        ensures
            result@ == JsonModel::Array(text_models(crate::text::texts(values@))),
    {
        broadcast use lemma_array_model;

        let mut items: Vec<Json> = Vec::new();
        let mut i: usize = 0;
        while i < values.len()
            invariant
                i <= values@.len(),
                items@.len() == i,
                forall|k: int|
                    0 <= k < i ==> (#[trigger] items@[k])@ == JsonModel::Text(values@[k]@),
            decreases values@.len() - i,
        {
            items.push(Json::text(values[i].as_str()));
            i = i + 1;
        }
        proof {
            assert(item_models(items@) =~= text_models(crate::text::texts(values@)));
        }
        Json::Array(items)
    }

    /// A copy of the value.
    pub fn copy(&self) -> (result: Json)
        ensures
            result@ == self@,
        decreases self,
    {
        broadcast use {lemma_array_model, lemma_object_model};

        match self {
            Json::Null => Json::Null,
            Json::Bool(value) => Json::Bool(*value),
            Json::Number(number) => Json::Number(number.copy()),
            Json::Text(text) => Json::Text(text.clone()),
            Json::Array(items) => Json::Array(copy_items(items)),
            Json::Object(members) => Json::Object(copy_members(members)),
        }
    }

    /// Whether two values are equal.
    pub fn same(&self, other: &Json) -> (result: bool)
        ensures
            result == same_json(self@, other@),
        decreases self,
    {
        broadcast use {lemma_array_model, lemma_object_model};

        match (self, other) {
            (Json::Null, Json::Null) => true,
            (Json::Bool(a), Json::Bool(b)) => *a == *b,
            (Json::Number(a), Json::Number(b)) => a.same(b),
            (Json::Text(a), Json::Text(b)) => same_text(a.as_str(), b.as_str()),
            (Json::Array(a), Json::Array(b)) => same_items(a, b),
            (Json::Object(a), Json::Object(b)) => same_members(a, b),
            _ => false,
        }
    }

    pub fn is_null(&self) -> (result: bool)
        ensures
            result == (self@ == JsonModel::Null),
    {
        match self {
            Json::Null => true,
            _ => false,
        }
    }

    pub fn is_object(&self) -> (result: bool)
        ensures
            result == (self@ is Object),
    {
        match self {
            Json::Object(_) => true,
            _ => false,
        }
    }

    pub fn as_str(&self) -> (result: Option<&str>)
        ensures
            match result {
                Some(text) => self@ == JsonModel::Text(text@),
                None => !(self@ is Text),
            },
    {
        match self {
            Json::Text(text) => Some(text.as_str()),
            _ => None,
        }
    }

    pub fn as_bool(&self) -> (result: Option<bool>)
        ensures
            result == bool_model(Some(self@)),
    {
        match self {
            Json::Bool(value) => Some(*value),
            _ => None,
        }
    }

    pub fn as_u64(&self) -> (result: Option<u64>)
        ensures
            match result {
                Some(value) => unsigned_model(Some(self@)) == Some(value as int),
                None => unsigned_model(Some(self@)) is None,
            },
    {
        match self {
            Json::Number(JsonNumber::Unsigned(value)) => Some(*value),
            Json::Number(JsonNumber::Negative(value)) => if *value >= 0 {
                Some(*value as u64)
            } else {
                None
            },
            _ => None,
        }
    }

    pub fn as_array(&self) -> (result: Option<&Vec<Json>>)
        ensures
            match result {
                Some(items) => *self == Json::Array(*items) && self@ == JsonModel::Array(
                    item_models(items@),
                ),
                None => !(self@ is Array),
            },
    {
        broadcast use lemma_array_model;

        match self {
            Json::Array(items) => Some(items),
            _ => None,
        }
    }

    pub fn as_object(&self) -> (result: Option<&Vec<Member>>)
        ensures
            match result {
                Some(members) => *self == Json::Object(*members) && self@ == JsonModel::Object(
                    member_models(members@),
                ),
                None => !(self@ is Object),
            },
    {
        broadcast use lemma_object_model;

        match self {
            Json::Object(members) => Some(members),
            _ => None,
        }
    }

    /// The value of a member, when the value is an object that has it.
    pub fn get(&self, key: &str) -> (result: Option<&Json>)
        ensures
            match result {
                Some(value) => member_of(self@, key@) == Some(value@),
                None => member_of(self@, key@) is None,
            },
    {
        broadcast use lemma_object_model;

        match self {
            Json::Object(members) => find_member(members, key),
            _ => None,
        }
    }

    /// The value of a member of a member.
    pub fn get_nested(&self, outer: &str, inner: &str) -> (result: Option<&Json>)
        ensures
            match result {
                Some(value) => nested_member(self@, outer@, inner@) == Some(value@),
                None => nested_member(self@, outer@, inner@) is None,
            },
    {
        match self.get(outer) {
            Some(value) => value.get(inner),
            None => None,
        }
    }

    /// The text of a member, when it is a text.
    pub fn get_str(&self, key: &str) -> (result: Option<&str>)
        ensures
            match result {
                Some(text) => text_member(self@, key@) == Some(text@),
                None => text_member(self@, key@) is None,
            },
    {
        match self.get(key) {
            Some(value) => value.as_str(),
            None => None,
        }
    }

    /// The truth value of a member, when it is one.
    pub fn get_bool(&self, key: &str) -> (result: Option<bool>)
        ensures
            result == bool_member(self@, key@),
    {
        match self.get(key) {
            Some(value) => value.as_bool(),
            None => None,
        }
    }
}

/// The value itself, or null without one.
pub open spec fn or_null(value: Option<JsonModel>) -> JsonModel {
    match value {
        Some(value) => value,
        None => JsonModel::Null,
    }
}

/// The value of a member of a member.
pub open spec fn nested_member(value: JsonModel, outer: Seq<char>, inner: Seq<char>) -> Option<
    JsonModel,
> {
    match member_of(value, outer) {
        Some(value) => member_of(value, inner),
        None => None,
    }
}

/// A copy of the value, or null without one.
pub fn copy_or_null(value: Option<&Json>) -> (result: Json)
    ensures
        result@ == or_null(
            match value {
                Some(value) => Some(value@),
                None => None,
            },
        ),
{
    match value {
        Some(value) => value.copy(),
        None => Json::Null,
    }
}

/// Values that hold these texts.
pub open spec fn text_models(values: Seq<Seq<char>>) -> Seq<JsonModel> {
    Seq::new(values.len(), |i: int| JsonModel::Text(values[i]))
}

/// The value of a member, when the value is an object that has it.
pub open spec fn member_of(value: JsonModel, key: Seq<char>) -> Option<JsonModel> {
    match value {
        JsonModel::Object(members) => lookup(members, key),
        _ => None,
    }
}

/// The text that a value holds, if it is one.
pub open spec fn text_model(value: Option<JsonModel>) -> Option<Seq<char>> {
    match value {
        Some(JsonModel::Text(text)) => Some(text),
        _ => None,
    }
}

/// The truth value that a value holds, if it is one.
pub open spec fn bool_model(value: Option<JsonModel>) -> Option<bool> {
    match value {
        Some(JsonModel::Bool(value)) => Some(value),
        _ => None,
    }
}

/// The integer that a value holds, if it is one that is not negative.
pub open spec fn unsigned_model(value: Option<JsonModel>) -> Option<int> {
    match value {
        Some(JsonModel::Number(NumberModel::Integer(value))) => if value >= 0 {
            Some(value)
        } else {
            None
        },
        _ => None,
    }
}

/// The text of a member, when it is a text.
pub open spec fn text_member(value: JsonModel, key: Seq<char>) -> Option<Seq<char>> {
    text_model(member_of(value, key))
}

/// The truth value of a member, when it is one.
pub open spec fn bool_member(value: JsonModel, key: Seq<char>) -> Option<bool> {
    bool_model(member_of(value, key))
}

fn same_items(left: &Vec<Json>, right: &Vec<Json>) -> (result: bool)
    ensures
        result == same_json(
            JsonModel::Array(item_models(left@)),
            JsonModel::Array(item_models(right@)),
        ),
    decreases left,
{
    if left.len() != right.len() {
        return false;
    }
    let ghost a = item_models(left@);
    let ghost b = item_models(right@);
    let mut i: usize = 0;
    while i < left.len()
        invariant
            i <= left@.len(),
            left@.len() == right@.len(),
            a == item_models(left@),
            b == item_models(right@),
            forall|k: int| 0 <= k < i ==> same_json(#[trigger] a[k], b[k]),
        decreases left@.len() - i,
    {
        if !left[i].same(&right[i]) {
            proof {
                assert(!same_json(a[i as int], b[i as int]));
            }
            return false;
        }
        i = i + 1;
    }
    true
}

fn same_members(left: &Vec<Member>, right: &Vec<Member>) -> (result: bool)
    ensures
        result == same_json(
            JsonModel::Object(member_models(left@)),
            JsonModel::Object(member_models(right@)),
        ),
    decreases left,
{
    if left.len() != right.len() {
        return false;
    }
    let ghost a = member_models(left@);
    let ghost b = member_models(right@);
    let mut i: usize = 0;
    while i < left.len()
        invariant
            i <= left@.len(),
            left@.len() == right@.len(),
            a == member_models(left@),
            b == member_models(right@),
            forall|k: int|
                0 <= k < i ==> (#[trigger] a[k]).0 == b[k].0 && same_json(a[k].1, b[k].1),
        decreases left@.len() - i,
    {
        if !same_text(left[i].key.as_str(), right[i].key.as_str()) || !left[i].value.same(
            &right[i].value,
        ) {
            proof {
                assert(!(a[i as int].0 == b[i as int].0 && same_json(
                    a[i as int].1,
                    b[i as int].1,
                )));
            }
            return false;
        }
        i = i + 1;
    }
    true
}

/// Whether one of the values equals a value.
pub open spec fn lists_value(items: Seq<JsonModel>, value: JsonModel) -> bool {
    exists|i: int| 0 <= i < items.len() && same_json(#[trigger] items[i], value)
}

pub fn items_contain(items: &Vec<Json>, value: &Json) -> (result: bool)
    ensures
        result == lists_value(item_models(items@), value@),
{
    let ghost all = item_models(items@);
    let mut i: usize = 0;
    while i < items.len()
        invariant
            i <= items@.len(),
            all == item_models(items@),
            forall|k: int| 0 <= k < i ==> !same_json(#[trigger] all[k], value@),
        decreases items@.len() - i,
    {
        if items[i].same(value) {
            proof {
                assert(same_json(all[i as int], value@));
            }
            return true;
        }
        i = i + 1;
    }
    false
}

/// The texts among the values, in order.
pub open spec fn texts_among(items: Seq<JsonModel>) -> Seq<Seq<char>>
    decreases items.len(),
{
    if items.len() == 0 {
        Seq::empty()
    } else {
        let rest = texts_among(items.drop_last());
        match items.last() {
            JsonModel::Text(text) => rest.push(text),
            _ => rest,
        }
    }
}

/// Copies of the texts among the values.
pub fn collect_texts(items: &Vec<Json>) -> (result: Vec<String>)
    ensures
        crate::text::texts(result@) == texts_among(item_models(items@)),
{
    let mut result: Vec<String> = Vec::new();
    let ghost all = item_models(items@);
    let mut i: usize = 0;
    proof {
        assert(crate::text::texts(result@) =~= texts_among(all.take(0)));
    }
    while i < items.len()
        invariant
            i <= items@.len(),
            all == item_models(items@),
            crate::text::texts(result@) == texts_among(all.take(i as int)),
        decreases items@.len() - i,
    {
        proof {
            assert(all.take(i + 1).drop_last() =~= all.take(i as int));
            assert(all.take(i + 1).last() == all[i as int]);
        }
        if let Some(text) = items[i].as_str() {
            let owned = text.to_owned();
            proof {
                crate::text::lemma_texts_push(result@, owned);
            }
            result.push(owned);
        }
        i = i + 1;
    }
    proof {
        assert(all.take(i as int) =~= all);
    }
    result
}

/// The texts of an optional array value; none without one.
pub open spec fn array_texts(value: Option<JsonModel>) -> Seq<Seq<char>> {
    match value {
        Some(JsonModel::Array(items)) => texts_among(items),
        _ => Seq::empty(),
    }
}

pub fn texts_of(value: Option<&Json>) -> (result: Vec<String>)
    ensures
        crate::text::texts(result@) == array_texts(
            match value {
                Some(value) => Some(value@),
                None => None,
            },
        ),
{
    if let Some(value) = value {
        if let Some(items) = value.as_array() {
            return collect_texts(items);
        }
    }
    let result: Vec<String> = Vec::new();
    proof {
        assert(crate::text::texts(result@) =~= Seq::empty());
    }
    result
}

/// The members with one more, where there is a value for it.
pub open spec fn put(
    members: Seq<(Seq<char>, JsonModel)>,
    key: Seq<char>,
    value: Option<JsonModel>,
) -> Seq<(Seq<char>, JsonModel)> {
    match value {
        Some(value) => with_member(members, key, value),
        None => members,
    }
}

/// A member that was put in is found again; other keys are unaffected.
pub broadcast proof fn lemma_put(
    members: Seq<(Seq<char>, JsonModel)>,
    key: Seq<char>,
    value: Option<JsonModel>,
    other: Seq<char>,
)
    ensures
        #[trigger] lookup(put(members, key, value), other) == if other == key && value is Some {
            value
        } else {
            lookup(members, other)
        },
{
    if let Some(stored) = value {
        lemma_lookup_with_member(members, key, stored, other);
    }
}

/// Puts a member into an object, where there is a value for it.
pub fn put_entry(members: &mut Vec<Member>, key: &str, value: Option<Json>)
    ensures
        member_models(final(members)@) == put(
            member_models(old(members)@),
            key@,
            crate::diagnostics::optional_json(value),
        ),
{
    if let Some(value) = value {
        put_member(members, key, value);
    }
}

/// No members yet.
pub fn no_members() -> (result: Vec<Member>)
    ensures
        member_models(result@) == Seq::<(Seq<char>, JsonModel)>::empty(),
{
    let result: Vec<Member> = Vec::new();
    proof {
        assert(member_models(result@) =~= Seq::<(Seq<char>, JsonModel)>::empty());
    }
    result
}

/// What a borrowed value holds.
pub open spec fn referenced(value: Option<&Json>) -> Option<JsonModel> {
    match value {
        Some(value) => Some(value@),
        None => None,
    }
}

/// The texts of an array that holds nothing else.
pub open spec fn text_list(value: Option<JsonModel>) -> Option<Seq<Seq<char>>> {
    match value {
        Some(JsonModel::Array(items)) => if forall|i: int|
            0 <= i < items.len() ==> (#[trigger] items[i]) is Text {
            Some(Seq::new(items.len(), |i: int| items[i]->Text_0))
        } else {
            None
        },
        _ => None,
    }
}

/// The texts of an array, if it holds nothing else.
pub fn text_list_of(value: Option<&Json>) -> (result: Option<Vec<String>>)
    ensures
        match result {
            Some(list) => text_list(referenced(value)) == Some(
                crate::text::texts(list@),
            ),
            None => text_list(referenced(value)) is None,
        },
{
    broadcast use lemma_array_model;

    let items = match value {
        Some(Json::Array(items)) => items,
        _ => {
            return None;
        },
    };
    let mut list: Vec<String> = Vec::new();
    let mut i: usize = 0;
    while i < items.len()
        invariant
            i <= items@.len(),
            list@.len() == i,
            forall|k: int|
                0 <= k < i ==> (#[trigger] item_models(items@)[k]) is Text && item_models(
                    items@,
                )[k]->Text_0 == list@[k]@,
            value == Some(&Json::Array(*items)),
        decreases items@.len() - i,
    {
        proof {
            lemma_array_model(*items);
            assert(item_models(items@)[i as int] == items@[i as int]@);
        }
        match &items[i] {
            Json::Text(text) => list.push(text.clone()),
            _ => {
                return None;
            },
        }
        i = i + 1;
    }
    proof {
        assert(text_list(Some(JsonModel::Array(item_models(items@))))->0 =~= crate::text::texts(
            list@,
        ));
    }
    Some(list)
}

proof fn lemma_without_member_front(
    first: (Seq<char>, JsonModel),
    rest: Seq<(Seq<char>, JsonModel)>,
    key: Seq<char>,
)
    ensures
        without_member(seq![first] + rest, key) == if first.0 == key {
            without_member(rest, key)
        } else {
            seq![first] + without_member(rest, key)
        },
    decreases rest.len(),
{
    let all = seq![first] + rest;
    if rest.len() == 0 {
        assert(all.drop_last() =~= rest);
        assert(all.last() == first);
        assert(without_member(all.drop_last(), key) =~= rest);
        assert(rest.push(first) =~= seq![first] + rest);
    } else {
        lemma_without_member_front(first, rest.drop_last(), key);
        assert(all.drop_last() =~= seq![first] + rest.drop_last());
        assert(all.last() == rest.last());
        let kept = without_member(rest.drop_last(), key);
        assert((seq![first] + kept).push(rest.last()) =~= seq![first] + kept.push(rest.last()));
    }
}

/// Removing a key that is not there changes nothing.
pub proof fn lemma_without_absent(members: Seq<(Seq<char>, JsonModel)>, key: Seq<char>)
    requires
        lookup(members, key) is None,
    ensures
        without_member(members, key) == members,
    decreases members.len(),
{
    if members.len() > 0 {
        lemma_without_absent(members.drop_first(), key);
        lemma_without_member_front(members[0], members.drop_first(), key);
        assert(seq![members[0]] + members.drop_first() =~= members);
    } else {
        assert(without_member(members, key) =~= members);
    }
}

/// Removing what was added under a new key gives the members back.
pub proof fn lemma_without_added(
    members: Seq<(Seq<char>, JsonModel)>,
    key: Seq<char>,
    value: JsonModel,
)
    requires
        lookup(members, key) is None,
    ensures
        without_member(with_member(members, key, value), key) == members,
    decreases members.len(),
{
    let result = with_member(members, key, value);
    if members.len() == 0 {
        lemma_without_member_front((key, value), members, key);
        assert(seq![(key, value)] + members =~= result);
        lemma_without_absent(members, key);
    } else {
        crate::text::lemma_text_order_equal(key, members[0].0);
        match text_order(key, members[0].0) {
            Order::Less => {
                lemma_without_member_front((key, value), members, key);
                lemma_without_absent(members, key);
            },
            Order::Equal => {},
            Order::Greater => {
                let rest = members.drop_first();
                lemma_without_added(rest, key, value);
                lemma_without_member_front(members[0], with_member(rest, key, value), key);
                assert(seq![members[0]] + rest =~= members);
            },
        }
    }
}

/// The members whose keys start with a prefix.
pub open spec fn prefixed_members(
    members: Seq<(Seq<char>, JsonModel)>,
    prefix: Seq<char>,
) -> Seq<(Seq<char>, JsonModel)>
    decreases members.len(),
{
    if members.len() == 0 {
        Seq::empty()
    } else {
        let rest = prefixed_members(members.drop_last(), prefix);
        if crate::text::has_prefix(members.last().0, prefix) {
            rest.push(members.last())
        } else {
            rest
        }
    }
}

/// Copies of the members whose keys start with a prefix.
pub fn select_prefixed(members: &Vec<Member>, prefix: &str) -> (result: Vec<Member>)
    ensures
        member_models(result@) == prefixed_members(member_models(members@), prefix@),
{
    let ghost models = member_models(members@);
    let mut result = no_members();
    let mut i: usize = 0;
    proof {
        assert(models.take(0) =~= Seq::empty());
    }
    while i < members.len()
        invariant
            i <= members@.len(),
            models == member_models(members@),
            member_models(result@) == prefixed_members(models.take(i as int), prefix@),
        decreases members@.len() - i,
    {
        proof {
            assert(models.take(i + 1).drop_last() =~= models.take(i as int));
            assert(models.take(i + 1).last() == models[i as int]);
        }
        if crate::text::starts_with(members[i].key.as_str(), prefix) {
            let ghost before = result@;
            let member = members[i].copy();
            result.push(member);
            proof {
                assert(member_models(result@) =~= member_models(before).push(models[i as int]));
            }
        }
        i = i + 1;
    }
    proof {
        assert(models.take(i as int) =~= models);
    }
    result
}

// ---------------------------------------------------------------------------
// Order of members
// ---------------------------------------------------------------------------
/// Without its first member an object keeps its order, and every key that is left
/// comes after the first.
proof fn lemma_ascending_rest(members: Seq<(Seq<char>, JsonModel)>)
    requires
        ascending(members),
        members.len() > 0,
    ensures
        ascending(members.drop_first()),
        forall|i: int|
            0 <= i < members.len() - 1 ==> text_order(
                members[0].0,
                (#[trigger] members.drop_first()[i]).0,
            ) == Order::Less,
{
    let rest = members.drop_first();
    assert forall|i: int, j: int| 0 <= i < j < rest.len() implies text_order(
        (#[trigger] rest[i]).0,
        (#[trigger] rest[j]).0,
    ) == Order::Less by {
        assert(rest[i] == members[i + 1] && rest[j] == members[j + 1]);
    }
    assert forall|i: int| 0 <= i < rest.len() implies text_order(
        members[0].0,
        (#[trigger] rest[i]).0,
    ) == Order::Less by {
        assert(rest[i] == members[i + 1]);
    }
}

/// A member in front whose key comes before all others keeps the order.
proof fn lemma_ascending_front(
    first: (Seq<char>, JsonModel),
    rest: Seq<(Seq<char>, JsonModel)>,
)
    requires
        ascending(rest),
        forall|i: int|
            0 <= i < rest.len() ==> text_order(first.0, (#[trigger] rest[i]).0) == Order::Less,
    ensures
        ascending(seq![first] + rest),
{
    let all = seq![first] + rest;
    assert forall|i: int, j: int| 0 <= i < j < all.len() implies text_order(
        (#[trigger] all[i]).0,
        (#[trigger] all[j]).0,
    ) == Order::Less by {
        assert(all[j] == rest[j - 1]);
        if i > 0 {
            assert(all[i] == rest[i - 1]);
        }
    }
}

/// Putting a member in keeps the order, and adds no key but its own.
proof fn lemma_with_member_order(
    members: Seq<(Seq<char>, JsonModel)>,
    key: Seq<char>,
    value: JsonModel,
)
    requires
        ascending(members),
    ensures
        ascending(with_member(members, key, value)),
        forall|bound: Seq<char>|
            text_order(bound, key) == Order::Less && (members.len() > 0 ==> text_order(
                bound,
                members[0].0,
            ) == Order::Less) ==> #[trigger] comes_before(
                bound,
                with_member(members, key, value),
            ),
    decreases members.len(),
{
    let result = with_member(members, key, value);
    if members.len() == 0 {
        assert forall|bound: Seq<char>| text_order(bound, key)
            == Order::Less implies #[trigger] comes_before(bound, result) by {}
    } else {
        let rest = members.drop_first();
        lemma_ascending_rest(members);
        crate::text::lemma_text_order_reverse(key, members[0].0);
        crate::text::lemma_text_order_equal(key, members[0].0);
        match text_order(key, members[0].0) {
            Order::Less => {
                assert forall|i: int| 0 <= i < members.len() implies text_order(
                    key,
                    (#[trigger] members[i]).0,
                ) == Order::Less by {
                    if i > 0 {
                        assert(text_order(members[0].0, members[i].0) == Order::Less);
                        crate::text::lemma_text_order_transitive(key, members[0].0, members[i].0);
                    }
                }
                lemma_ascending_front((key, value), members);
            },
            Order::Equal => {
                lemma_ascending_front((key, value), rest);
            },
            Order::Greater => {
                lemma_with_member_order(rest, key, value);
                if rest.len() > 0 {
                    assert(text_order(members[0].0, rest[0].0) == Order::Less);
                }
                assert(comes_before(members[0].0, with_member(rest, key, value)));
                lemma_ascending_front(members[0], with_member(rest, key, value));
            },
        }
        assert forall|bound: Seq<char>|
            text_order(bound, key) == Order::Less && text_order(bound, members[0].0)
                == Order::Less implies #[trigger] comes_before(bound, result) by {
            assert forall|i: int| 0 <= i < result.len() implies text_order(
                bound,
                (#[trigger] result[i]).0,
            ) == Order::Less by {
                let start = result[0].0;
                if i > 0 {
                    assert(text_order(start, result[i].0) == Order::Less);
                    crate::text::lemma_text_order_transitive(bound, start, result[i].0);
                }
            }
        }
    }
}

/// Whether a key comes before the keys of all members.
spec fn comes_before(key: Seq<char>, members: Seq<(Seq<char>, JsonModel)>) -> bool {
    forall|i: int|
        0 <= i < members.len() ==> text_order(key, (#[trigger] members[i]).0) == Order::Less
}

/// Members keep their order when one is put in.
pub broadcast proof fn lemma_put_keeps_order(
    members: Seq<(Seq<char>, JsonModel)>,
    key: Seq<char>,
    value: Option<JsonModel>,
)
    requires
        ascending(members),
    ensures
        #[trigger] ascending(put(members, key, value)),
{
    if let Some(value) = value {
        lemma_with_member_order(members, key, value);
    }
}

/// Members keep their order when one is taken out.
pub proof fn lemma_without_keeps_order(members: Seq<(Seq<char>, JsonModel)>, key: Seq<char>)
    requires
        ascending(members),
    ensures
        ascending(without_member(members, key)),
    decreases members.len(),
{
    if members.len() > 0 {
        lemma_ascending_rest(members);
        lemma_without_keeps_order(members.drop_first(), key);
        lemma_without_member_front(members[0], members.drop_first(), key);
        assert(seq![members[0]] + members.drop_first() =~= members);
        let rest = without_member(members.drop_first(), key);
        assert forall|i: int| 0 <= i < rest.len() implies text_order(
            members[0].0,
            (#[trigger] rest[i]).0,
        ) == Order::Less by {
            let j = lemma_without_from(members.drop_first(), key, i);
            assert(members.drop_first()[j] == rest[i]);
        }
        lemma_ascending_front(members[0], rest);
    }
}

proof fn lemma_without_from(
    members: Seq<(Seq<char>, JsonModel)>,
    key: Seq<char>,
    k: int,
) -> (i: int)
    requires
        0 <= k < without_member(members, key).len(),
    ensures
        0 <= i < members.len(),
        without_member(members, key)[k] == members[i],
    decreases members.len(),
{
    let rest = without_member(members.drop_last(), key);
    if k < rest.len() {
        lemma_without_from(members.drop_last(), key, k)
    } else {
        members.len() - 1
    }
}

proof fn lemma_lookup_present(members: Seq<(Seq<char>, JsonModel)>, key: Seq<char>)
    ensures
        lookup(members, key) is Some ==> exists|i: int|
            0 <= i < members.len() && (#[trigger] members[i]).0 == key,
        comes_before(key, members) ==> lookup(members, key) is None,
    decreases members.len(),
{
    crate::text::lemma_text_order_equal(key, key);
    if members.len() > 0 {
        if members[0].0 == key {
            assert(members[0].0 == key);
        } else {
            let rest = members.drop_first();
            lemma_lookup_present(rest, key);
            if lookup(members, key) is Some {
                let i = choose|i: int| 0 <= i < rest.len() && (#[trigger] rest[i]).0 == key;
                assert(members[i + 1].0 == key);
            }
            if comes_before(key, members) {
                assert forall|i: int| 0 <= i < rest.len() implies text_order(
                    key,
                    (#[trigger] rest[i]).0,
                ) == Order::Less by {
                    assert(rest[i] == members[i + 1]);
                }
            }
        }
    }
}

/// Objects in ascending key order are equal where they have the same members.
pub proof fn lemma_same_members(
    left: Seq<(Seq<char>, JsonModel)>,
    right: Seq<(Seq<char>, JsonModel)>,
)
    requires
        ascending(left),
        ascending(right),
        forall|key: Seq<char>| #[trigger] lookup(left, key) == lookup(right, key),
    ensures
        left == right,
    decreases left.len(),
{
    if left.len() == 0 {
        if right.len() > 0 {
            assert(lookup(left, right[0].0) == lookup(right, right[0].0));
        }
        assert(left =~= right);
    } else {
        let key = left[0].0;
        assert(lookup(left, key) == lookup(right, key));
        lemma_lookup_present(right, key);
        let i = choose|i: int| 0 <= i < right.len() && (#[trigger] right[i]).0 == key;
        let other = right[0].0;
        assert(lookup(left, other) == lookup(right, other));
        lemma_lookup_present(left, other);
        let j = choose|j: int| 0 <= j < left.len() && (#[trigger] left[j]).0 == other;
        if i > 0 && j > 0 {
            assert(text_order(other, key) == Order::Less);
            assert(text_order(key, other) == Order::Less);
            crate::text::lemma_text_order_reverse(key, other);
        }
        assert(key == other);
        lemma_ascending_rest(left);
        lemma_ascending_rest(right);
        let a = left.drop_first();
        let b = right.drop_first();
        assert(comes_before(key, a));
        assert(comes_before(key, b));
        lemma_lookup_present(a, key);
        lemma_lookup_present(b, key);
        assert forall|other: Seq<char>| #[trigger] lookup(a, other) == lookup(b, other) by {
            assert(lookup(left, other) == lookup(right, other));
        }
        lemma_same_members(a, b);
        assert(left[0] == right[0]);
        assert(left =~= seq![left[0]] + a);
        assert(right =~= seq![right[0]] + b);
    }
}

} // verus!
