//! The parts of a query that its plan is made of, read from the query itself.

use crate::hosted_query::{QueryEnvelope, QueryOrder, QuerySummary};
use crate::json::{
    item_models, lemma_array_model, lemma_object_model, member_models, member_of, referenced,
    text_list, text_list_of, text_member, unsigned_model, Json, JsonModel,
};
use crate::operation_values::{optional_member, optional_member_of};
use crate::ordering::HostedOrderDirection;
use crate::text::{optional_text, same_text, texts};
use vstd::prelude::*;

verus! {

/// What an ordering or grouping term holds.
pub struct OrderModel {
    pub field: Seq<char>,
    pub direction: HostedOrderDirection,
}

/// What a summary holds.
pub struct SummaryTermModel {
    pub field: Seq<char>,
    pub function: Seq<char>,
    pub name: Option<Seq<char>>,
}

/// What the parts of a query hold.
pub struct EnvelopeModel {
    pub types: Seq<Seq<char>>,
    pub filter: Option<Seq<char>>,
    pub order_by: Seq<OrderModel>,
    pub group_by: Seq<OrderModel>,
    pub summaries: Seq<SummaryTermModel>,
    pub summary_functions: Seq<Seq<char>>,
    pub limit: Option<int>,
    pub offset: int,
    pub include_body: bool,
    pub has_projections: bool,
    pub has_select: bool,
    pub pagination: Option<Seq<char>>,
}

impl View for QueryOrder {
    type V = OrderModel;

    open spec fn view(&self) -> OrderModel {
        OrderModel { field: self.field@, direction: self.direction }
    }
}

impl View for QuerySummary {
    type V = SummaryTermModel;

    open spec fn view(&self) -> SummaryTermModel {
        SummaryTermModel {
            field: self.field@,
            function: self.function@,
            name: optional_text(self.name),
        }
    }
}

pub open spec fn order_models(terms: Seq<QueryOrder>) -> Seq<OrderModel> {
    Seq::new(terms.len(), |i: int| terms[i]@)
}

pub open spec fn summary_models(terms: Seq<QuerySummary>) -> Seq<SummaryTermModel> {
    Seq::new(terms.len(), |i: int| terms[i]@)
}

impl View for QueryEnvelope {
    type V = EnvelopeModel;

    open spec fn view(&self) -> EnvelopeModel {
        EnvelopeModel {
            types: texts(self.types@),
            filter: optional_text(self.filter),
            order_by: order_models(self.order_by@),
            group_by: order_models(self.group_by@),
            summaries: summary_models(self.summaries@),
            summary_functions: texts(self.summary_functions@),
            limit: match self.limit {
                Some(limit) => Some(limit as int),
                None => None,
            },
            offset: self.offset as int,
            include_body: self.include_body,
            has_projections: self.has_projections,
            has_select: self.has_select,
            pagination: optional_text(self.pagination),
        }
    }
}

/// The direction of a term; ascending where it names none.
pub open spec fn decoded_direction(value: Option<JsonModel>) -> Option<HostedOrderDirection> {
    match value {
        None => Some(HostedOrderDirection::Ascending),
        Some(JsonModel::Text(text)) => if text == "asc"@ {
            Some(HostedOrderDirection::Ascending)
        } else if text == "desc"@ {
            Some(HostedOrderDirection::Descending)
        } else {
            None
        },
        Some(_) => None,
    }
}

pub open spec fn decoded_order(value: JsonModel) -> Option<OrderModel> {
    match (text_member(value, "field"@), decoded_direction(member_of(value, "direction"@))) {
        (Some(field), Some(direction)) => Some(OrderModel { field, direction }),
        _ => None,
    }
}

fn decode_order(value: &Json) -> (result: Option<QueryOrder>)
    ensures
        match result {
            Some(term) => decoded_order(value@) == Some(term@),
            None => decoded_order(value@) is None,
        },
{
    broadcast use {lemma_object_model, lemma_array_model};

    let direction = match value.get("direction") {
        None => HostedOrderDirection::Ascending,
        Some(Json::Text(text)) => if same_text(text.as_str(), "asc") {
            HostedOrderDirection::Ascending
        } else if same_text(text.as_str(), "desc") {
            HostedOrderDirection::Descending
        } else {
            return None;
        },
        Some(_) => {
            return None;
        },
    };
    match value.get_str("field") {
        Some(field) => Some(QueryOrder { field: field.to_owned(), direction }),
        None => None,
    }
}

/// The terms of a list; none without a list.
pub open spec fn decoded_orders(value: Option<JsonModel>) -> Option<Seq<OrderModel>> {
    match value {
        None => Some(Seq::empty()),
        Some(JsonModel::Array(items)) => if forall|i: int|
            0 <= i < items.len() ==> decoded_order(#[trigger] items[i]) is Some {
            Some(Seq::new(items.len(), |i: int| decoded_order(items[i])->0))
        } else {
            None
        },
        Some(_) => None,
    }
}

fn decode_orders(value: Option<&Json>) -> (result: Option<Vec<QueryOrder>>)
    ensures
        match result {
            Some(terms) => decoded_orders(referenced(value)) == Some(order_models(terms@)),
            None => decoded_orders(referenced(value)) is None,
        },
{
    broadcast use {lemma_object_model, lemma_array_model};

    let mut terms: Vec<QueryOrder> = Vec::new();
    let items = match value {
        None => {
            proof {
                assert(order_models(terms@) =~= Seq::empty());
            }
            return Some(terms);
        },
        Some(Json::Array(items)) => items,
        Some(_) => {
            return None;
        },
    };
    let ghost models = item_models(items@);
    let mut i: usize = 0;
    while i < items.len()
        invariant
            i <= items@.len(),
            models == item_models(items@),
            referenced(value) == Some(JsonModel::Array(models)),
            terms@.len() == i,
            forall|k: int|
                0 <= k < i ==> decoded_order(#[trigger] models[k]) == Some(terms@[k]@),
        decreases items@.len() - i,
    {
        proof {
            assert(models[i as int] == items@[i as int]@);
        }
        match decode_order(&items[i]) {
            Some(term) => {
                terms.push(term);
            },
            None => {
                return None;
            },
        }
        i = i + 1;
    }
    proof {
        assert(decoded_orders(referenced(value))->0 =~= order_models(terms@));
    }
    Some(terms)
}

pub open spec fn decoded_summary(value: JsonModel) -> Option<SummaryTermModel> {
    match (
        text_member(value, "field"@),
        text_member(value, "function"@),
        optional_member(value, "name"@),
    ) {
        (Some(field), Some(function), Some(name)) => Some(
            SummaryTermModel { field, function, name },
        ),
        _ => None,
    }
}

fn decode_summary(value: &Json) -> (result: Option<QuerySummary>)
    ensures
        match result {
            Some(term) => decoded_summary(value@) == Some(term@),
            None => decoded_summary(value@) is None,
        },
{
    match (value.get_str("field"), value.get_str("function"), optional_member_of(value, "name")) {
        (Some(field), Some(function), Some(name)) => Some(
            QuerySummary { field: field.to_owned(), function: function.to_owned(), name },
        ),
        _ => None,
    }
}

/// The summaries of a list; none without a list.
pub open spec fn decoded_summaries(value: Option<JsonModel>) -> Option<Seq<SummaryTermModel>> {
    match value {
        None => Some(Seq::empty()),
        Some(JsonModel::Array(items)) => if forall|i: int|
            0 <= i < items.len() ==> decoded_summary(#[trigger] items[i]) is Some {
            Some(Seq::new(items.len(), |i: int| decoded_summary(items[i])->0))
        } else {
            None
        },
        Some(_) => None,
    }
}

fn decode_summaries(value: Option<&Json>) -> (result: Option<Vec<QuerySummary>>)
    ensures
        match result {
            Some(terms) => decoded_summaries(referenced(value)) == Some(summary_models(terms@)),
            None => decoded_summaries(referenced(value)) is None,
        },
{
    broadcast use {lemma_object_model, lemma_array_model};

    let mut terms: Vec<QuerySummary> = Vec::new();
    let items = match value {
        None => {
            proof {
                assert(summary_models(terms@) =~= Seq::empty());
            }
            return Some(terms);
        },
        Some(Json::Array(items)) => items,
        Some(_) => {
            return None;
        },
    };
    let ghost models = item_models(items@);
    let mut i: usize = 0;
    while i < items.len()
        invariant
            i <= items@.len(),
            models == item_models(items@),
            referenced(value) == Some(JsonModel::Array(models)),
            terms@.len() == i,
            forall|k: int|
                0 <= k < i ==> decoded_summary(#[trigger] models[k]) == Some(terms@[k]@),
        decreases items@.len() - i,
    {
        proof {
            assert(models[i as int] == items@[i as int]@);
        }
        match decode_summary(&items[i]) {
            Some(term) => {
                terms.push(term);
            },
            None => {
                return None;
            },
        }
        i = i + 1;
    }
    proof {
        assert(decoded_summaries(referenced(value))->0 =~= summary_models(terms@));
    }
    Some(terms)
}

/// The texts of a list; none without a list.
pub open spec fn decoded_texts(value: Option<JsonModel>) -> Option<Seq<Seq<char>>> {
    match value {
        None => Some(Seq::empty()),
        Some(_) => text_list(value),
    }
}

/// The keys of an object; none without one.
pub open spec fn decoded_keys(value: Option<JsonModel>) -> Option<Seq<Seq<char>>> {
    match value {
        None => Some(Seq::empty()),
        Some(JsonModel::Object(members)) => Some(Seq::new(members.len(), |i: int| members[i].0)),
        Some(_) => None,
    }
}

fn decode_keys(value: Option<&Json>) -> (result: Option<Vec<String>>)
    ensures
        match result {
            Some(keys) => decoded_keys(referenced(value)) == Some(texts(keys@)),
            None => decoded_keys(referenced(value)) is None,
        },
{
    broadcast use {lemma_object_model, lemma_array_model};

    let mut keys: Vec<String> = Vec::new();
    let members = match value {
        None => {
            proof {
                assert(texts(keys@) =~= Seq::empty());
            }
            return Some(keys);
        },
        Some(Json::Object(members)) => members,
        Some(_) => {
            return None;
        },
    };
    let mut i: usize = 0;
    while i < members.len()
        invariant
            i <= members@.len(),
            keys@.len() == i,
            forall|k: int| 0 <= k < i ==> (#[trigger] keys@[k])@ == members@[k].key@,
        decreases members@.len() - i,
    {
        keys.push(members[i].key.clone());
        i = i + 1;
    }
    proof {
        assert(texts(keys@) =~= decoded_keys(
            Some(JsonModel::Object(member_models(members@))),
        )->0);
    }
    Some(keys)
}

/// A number that may be missing or null.
pub open spec fn decoded_number(value: Option<JsonModel>) -> Option<Option<int>> {
    match value {
        None => Some(None),
        Some(JsonModel::Null) => Some(None),
        Some(_) => match unsigned_model(value) {
            Some(number) => Some(Some(number)),
            None => None,
        },
    }
}

/// A truth value; false where it is missing.
pub open spec fn decoded_bool(value: Option<JsonModel>) -> Option<bool> {
    match value {
        None => Some(false),
        Some(JsonModel::Bool(value)) => Some(value),
        Some(_) => None,
    }
}

/// Whether there is a list; null counts as none.
pub open spec fn decoded_list(value: Option<JsonModel>) -> Option<bool> {
    match value {
        None => Some(false),
        Some(JsonModel::Null) => Some(false),
        Some(JsonModel::Array(_)) => Some(true),
        Some(_) => None,
    }
}

/// The parts of a query; nothing where one has another shape. Other members do not
/// matter.
pub open spec fn decoded_envelope(value: JsonModel) -> Option<EnvelopeModel> {
    let types = decoded_texts(member_of(value, "types"@));
    let timezone = optional_member(value, "timezone"@);
    let filter = optional_member(value, "where"@);
    let order_by = decoded_orders(member_of(value, "order_by"@));
    let group_by = decoded_orders(member_of(value, "group_by"@));
    let summaries = decoded_summaries(member_of(value, "summaries"@));
    let functions = decoded_keys(member_of(value, "summary_functions"@));
    let limit = decoded_number(member_of(value, "limit"@));
    let offset = match member_of(value, "offset"@) {
        None => Some(0int),
        Some(member) => unsigned_model(Some(member)),
    };
    let include_body = decoded_bool(member_of(value, "include_body"@));
    let projections = decoded_keys(member_of(value, "projections"@));
    let select = decoded_list(member_of(value, "select"@));
    let pagination = optional_member(value, "pagination"@);
    if value is Object && types is Some && timezone is Some && filter is Some && order_by is Some
        && group_by is Some && summaries is Some && functions is Some && limit is Some && offset
        is Some && include_body is Some && projections is Some && select is Some && pagination
        is Some {
        Some(
            EnvelopeModel {
                types: types->0,
                filter: filter->0,
                order_by: order_by->0,
                group_by: group_by->0,
                summaries: summaries->0,
                summary_functions: functions->0,
                limit: limit->0,
                offset: offset->0,
                include_body: include_body->0,
                has_projections: projections->0.len() > 0,
                has_select: select->0,
                pagination: pagination->0,
            },
        )
    } else {
        None
    }
}

impl QueryEnvelope {
    /// The parts of a query, if each has its shape.
    pub fn from_json(value: &Json) -> (result: Option<QueryEnvelope>)
        ensures
            match result {
                Some(envelope) => decoded_envelope(value@) == Some(envelope@),
                None => decoded_envelope(value@) is None,
            },
    {
        broadcast use {lemma_object_model, lemma_array_model};

        let types = match value.get("types") {
            None => {
                let none: Vec<String> = Vec::new();
                proof {
                    assert(texts(none@) =~= Seq::empty());
                }
                Some(none)
            },
            Some(types) => text_list_of(Some(types)),
        };
        let limit: Option<Option<u64>> = match value.get("limit") {
            None => Some(None),
            Some(Json::Null) => Some(None),
            Some(number) => match number.as_u64() {
                Some(number) => Some(Some(number)),
                None => None,
            },
        };
        let offset: Option<u64> = match value.get("offset") {
            None => Some(0),
            Some(number) => number.as_u64(),
        };
        let include_body = match value.get("include_body") {
            None => Some(false),
            Some(Json::Bool(value)) => Some(*value),
            Some(_) => None,
        };
        let has_select = match value.get("select") {
            None => Some(false),
            Some(Json::Null) => Some(false),
            Some(Json::Array(_)) => Some(true),
            Some(_) => None,
        };
        let timezone = optional_member_of(value, "timezone");
        let projections = decode_keys(value.get("projections"));
        match (
            types,
            optional_member_of(value, "where"),
            decode_orders(value.get("order_by")),
            decode_orders(value.get("group_by")),
            decode_summaries(value.get("summaries")),
            decode_keys(value.get("summary_functions")),
            optional_member_of(value, "pagination"),
        ) {
            (
                Some(types),
                Some(filter),
                Some(order_by),
                Some(group_by),
                Some(summaries),
                Some(summary_functions),
                Some(pagination),
            ) => match (limit, offset, include_body, has_select, timezone, projections) {
                (
                    Some(limit),
                    Some(offset),
                    Some(include_body),
                    Some(has_select),
                    Some(_),
                    Some(projections),
                ) => if value.is_object() {
                    proof {
                        assert(texts(projections@).len() == projections@.len());
                    }
                    Some(
                        QueryEnvelope {
                            types,
                            filter,
                            order_by,
                            group_by,
                            summaries,
                            summary_functions,
                            limit,
                            offset,
                            include_body,
                            has_projections: projections.len() > 0,
                            has_select,
                            pagination,
                        },
                    )
                } else {
                    None
                },
                _ => None,
            },
            _ => None,
        }
    }
}

} // verus!
