//! Pinned reads and the signed cursors that page through them.

use crate::canonical::{compact_text, to_compact_text};
use crate::canonical_operation::{
    CanonicalOperationOutcome, CanonicalOperationValue, CanonicalQueryValue, OutcomeModel,
    QueryValueModel, ValueModel,
};
use crate::changes::{CollectionGeneration, GenerationModel};
use crate::context::{
    may_violate, nanoseconds, now, time_between, CaptureLimitExceeded, CaptureLimitKind,
    OperationContext,
};
use crate::digest::{hex, hex_text, sha256, sha256_digest};
use crate::json::{
    copy_items, item_models, lemma_array_model, lemma_object_model, put_member, with_member, Json,
    JsonModel,
};
use crate::provider_error::ProviderError;
use crate::resolutions::{unchanged_outcome, ExecutionModel, ExecutionOutcome};
use crate::text::{
    concat3, decimal, decimal_text, parse_decimal, parsed_decimal, same_text, split_on, split_text,
    texts,
};
use std::time::Instant;
use vstd::prelude::*;
use vstd::string::StringExecFns;
use vstd::utf8::encode_utf8;

verus! {

pub const MAX_ACTIVE_CURSORS: usize = 32;

pub const MAX_CURSOR_BYTES: u64 = 33_554_432;

pub const DEFAULT_PAGE_ITEMS: usize = 100;

pub const MAX_PAGE_ITEMS: usize = 256;

/// How long a read stays pinned without use, in nanoseconds.
pub const IDLE_LEASE: u64 = 30_000_000_000;

/// How long a read stays pinned at most, in nanoseconds.
pub const HARD_LIFETIME: u64 = 300_000_000_000;

// ---------------------------------------------------------------------------
// Identifiers
// ---------------------------------------------------------------------------
/// The canonical text of the identifier that a text stands for, if it is one.
pub uninterp spec fn uuid_text(text: Seq<char>) -> Option<Seq<char>>;

/// `uuid::Uuid::parse_str` and the `Display` form of its result: both depend on
/// the text alone.
#[verifier::external_body]
pub(crate) fn parse_uuid(text: &str) -> (result: Option<String>)
    ensures
        crate::text::optional_text(result) == uuid_text(text@),
{
    uuid::Uuid::parse_str(text).ok().map(|id| id.to_string())
}

/// `uuid::Uuid::new_v4` in its `Display` form: hexadecimal digits and hyphens,
/// which `uuid::Uuid::parse_str` reads back as they are.
#[verifier::external_body]
pub(crate) fn new_uuid() -> (result: String)
    ensures
        uuid_text(result@) == Some(result@),
        !result@.contains(':'),
{
    uuid::Uuid::new_v4().to_string()
}

/// `uuid::Uuid::new_v4` and `as_bytes`: sixteen bytes, of which nothing more is
/// claimed.
#[verifier::external_body]
pub(crate) fn random_bytes() -> (result: Vec<u8>)
    ensures
        result@.len() == 16,
{
    uuid::Uuid::new_v4().as_bytes().to_vec()
}

// ---------------------------------------------------------------------------
// Signatures
// ---------------------------------------------------------------------------
/// A block of padding mixed with a key.
pub open spec fn padded(key: Seq<u8>, pad: u8) -> Seq<u8> {
    Seq::new(
        64,
        |i: int|
            if i < key.len() {
                pad ^ key[i]
            } else {
                pad
            },
    )
}

/// The signature of a message: a keyed digest over two paddings of the key.
pub open spec fn mac_of(key: Seq<u8>, message: Seq<u8>) -> Seq<char> {
    hex(sha256(padded(key, 0x5c) + sha256(padded(key, 0x36) + message)))
}

fn pad_key(key: &Vec<u8>, pad: u8) -> (result: Vec<u8>)
    requires
        key@.len() == 32,
    ensures
        result@ == padded(key@, pad),
{
    let mut result: Vec<u8> = Vec::new();
    let mut i: usize = 0;
    while i < 64
        invariant
            i <= 64,
            key@.len() == 32,
            result@.len() == i,
            forall|k: int| 0 <= k < i ==> (#[trigger] result@[k]) == padded(key@, pad)[k],
        decreases 64 - i,
    {
        if i < key.len() {
            result.push(pad ^ key[i]);
        } else {
            result.push(pad);
        }
        i = i + 1;
    }
    proof {
        assert(result@ =~= padded(key@, pad));
    }
    result
}

fn append_bytes(target: &mut Vec<u8>, bytes: &[u8])
    ensures
        final(target)@ == old(target)@ + bytes@,
{
    let ghost before = target@;
    let mut i: usize = 0;
    while i < bytes.len()
        invariant
            i <= bytes@.len(),
            target@ == before + bytes@.take(i as int),
        decreases bytes@.len() - i,
    {
        target.push(bytes[i]);
        proof {
            assert(target@ =~= before + bytes@.take(i + 1));
        }
        i = i + 1;
    }
    proof {
        assert(bytes@.take(i as int) =~= bytes@);
    }
}

pub fn cursor_mac(key: &Vec<u8>, message: &[u8]) -> (result: String)
    requires
        key@.len() == 32,
    ensures
        result@ == mac_of(key@, message@),
        result@.len() == 64,
{
    let mut inner = pad_key(key, 0x36);
    append_bytes(&mut inner, message);
    let inner_digest = sha256_digest(inner.as_slice());
    let mut outer = pad_key(key, 0x5c);
    append_bytes(&mut outer, inner_digest.as_slice());
    hex_text(&sha256_digest(outer.as_slice()))
}

/// Compares bytes in a time that depends on their number alone.
pub fn constant_time_equal(left: &[u8], right: &[u8]) -> (result: bool)
    ensures
        result == (left@ == right@),
{
    if left.len() != right.len() {
        return false;
    }
    let mut difference: u8 = 0;
    let mut i: usize = 0;
    while i < left.len()
        invariant
            i <= left@.len(),
            left@.len() == right@.len(),
            difference == 0 <==> forall|k: int| 0 <= k < i ==> (#[trigger] left@[k]) == right@[k],
        decreases left@.len() - i,
    {
        let a: u8 = left[i];
        let b: u8 = right[i];
        let before: u8 = difference;
        difference = before | (a ^ b);
        assert((before | (a ^ b)) == 0 <==> (before == 0 && a == b)) by (bit_vector);
        i = i + 1;
    }
    proof {
        if difference == 0 {
            assert(left@ =~= right@);
        }
    }
    difference == 0
}

// ---------------------------------------------------------------------------
// Tokens
// ---------------------------------------------------------------------------
/// What a cursor's signature covers.
pub open spec fn message_of(epoch: Seq<char>, id: Seq<char>, index: int) -> Seq<char> {
    "v1:"@ + epoch + ":"@ + id + ":"@ + decimal(index as nat)
}

/// The token of a cursor.
pub open spec fn token_of(key: Seq<u8>, epoch: Seq<char>, id: Seq<char>, index: int) -> Seq<char> {
    let message = message_of(epoch, id, index);
    message + ":"@ + mac_of(key, encode_utf8(message))
}

/// What a token is worth to a store: a pinned read and a position in it, or the
/// reason to refuse it.
pub open spec fn authenticated(key: Seq<u8>, epoch: Seq<char>, token: Seq<char>) -> Result<
    (Seq<char>, int),
    ProviderError,
> {
    let parts = split_on(token, ':');
    if parts.len() != 5 || parts[0] != "v1"@ || encode_utf8(parts[4]).len() != 64 {
        Err(ProviderError::InvalidReadCursor)
    } else if parts[1] != epoch {
        Err(ProviderError::GenerationExpired)
    } else if uuid_text(parts[2]) != Some(parts[2]) {
        Err(ProviderError::InvalidReadCursor)
    } else {
        match parsed_decimal(parts[3]) {
            None => Err(ProviderError::InvalidReadCursor),
            Some(index) => if encode_utf8(
                mac_of(key, encode_utf8(message_of(epoch, parts[2], index))),
            ) == encode_utf8(parts[4]) {
                Ok((parts[2], index))
            } else {
                Err(ProviderError::InvalidReadCursor)
            },
        }
    }
}

/// An opaque position in a pinned read.
#[derive(Clone, Debug, PartialEq, Eq)]
pub struct ReadCursor {
    pub token: String,
}

fn cursor_message(epoch: &str, id: &str, index: u64) -> (result: String)
    ensures
        result@ == message_of(epoch@, id@, index as int),
{
    concat3("v1:", epoch, ":").concat(id).concat(":").concat(decimal_text(index).as_str())
}

// ---------------------------------------------------------------------------
// Pinned reads
// ---------------------------------------------------------------------------
/// The results of a query that are kept for paging.
#[derive(Debug, PartialEq, Eq)]
pub struct PinnedRead {
    pub generation: CollectionGeneration,
    pub template: CanonicalOperationOutcome,
    pub results: Vec<Json>,
    pub page_items: usize,
    pub retained_bytes: u64,
    pub created: u64,
    pub last_access: u64,
}

/// A pinned read under its identifier.
#[derive(Debug, PartialEq, Eq)]
pub struct PinnedEntry {
    pub id: String,
    pub read: PinnedRead,
}

/// The pinned reads of one runtime.
#[derive(Debug, PartialEq, Eq)]
pub struct CursorStore {
    pub entries: Vec<PinnedEntry>,
    pub retained_bytes: u64,
    pub signing_key: Vec<u8>,
    pub runtime_epoch: String,
    pub started: Instant,
}

/// A page of a read.
#[derive(Debug, PartialEq, Eq)]
pub struct ReadPage {
    pub outcome: ExecutionOutcome,
    pub next: Option<ReadCursor>,
}

pub struct PinnedModel {
    pub id: Seq<char>,
    pub generation: GenerationModel,
    pub template: OutcomeModel,
    pub results: Seq<JsonModel>,
    pub page_items: int,
    pub retained_bytes: int,
    pub created: int,
    pub last_access: int,
}

impl View for PinnedEntry {
    type V = PinnedModel;

    open spec fn view(&self) -> PinnedModel {
        PinnedModel {
            id: self.id@,
            generation: self.read.generation@,
            template: self.read.template@,
            results: item_models(self.read.results@),
            page_items: self.read.page_items as int,
            retained_bytes: self.read.retained_bytes as int,
            created: self.read.created as int,
            last_access: self.read.last_access as int,
        }
    }
}

pub open spec fn entry_models(entries: Seq<PinnedEntry>) -> Seq<PinnedModel> {
    Seq::new(entries.len(), |i: int| entries[i]@)
}

/// What a store holds.
pub struct StoreModel {
    pub entries: Seq<PinnedModel>,
    pub retained_bytes: int,
    pub signing_key: Seq<u8>,
    pub runtime_epoch: Seq<char>,
    /// The moment from which the times of its reads count.
    pub started: Instant,
}

impl View for CursorStore {
    type V = StoreModel;

    open spec fn view(&self) -> StoreModel {
        StoreModel {
            entries: entry_models(self.entries@),
            retained_bytes: self.retained_bytes as int,
            signing_key: self.signing_key@,
            runtime_epoch: self.runtime_epoch@,
            started: self.started,
        }
    }
}

/// The bytes that reads retain.
pub open spec fn total_bytes(entries: Seq<PinnedModel>) -> int
    decreases entries.len(),
{
    if entries.len() == 0 {
        0
    } else {
        total_bytes(entries.drop_last()) + entries.last().retained_bytes
    }
}

/// The position of a pinned read; the number of reads without one.
pub open spec fn entry_at(entries: Seq<PinnedModel>, id: Seq<char>) -> int
    decreases entries.len(),
{
    if entries.len() == 0 || entries[0].id == id {
        0
    } else {
        1 + entry_at(entries.drop_first(), id)
    }
}

/// Whether a read has outlived its lease at a moment.
pub open spec fn is_expired(entry: PinnedModel, moment: int) -> bool {
    moment - entry.last_access >= IDLE_LEASE || moment - entry.created >= HARD_LIFETIME
}

/// The reads that have not outlived their lease.
pub open spec fn live(entries: Seq<PinnedModel>, moment: int) -> Seq<PinnedModel>
    decreases entries.len(),
{
    if entries.len() == 0 {
        Seq::empty()
    } else {
        let rest = live(entries.drop_last(), moment);
        if is_expired(entries.last(), moment) {
            rest
        } else {
            rest.push(entries.last())
        }
    }
}

/// The reads with another identifier.
pub open spec fn others(entries: Seq<PinnedModel>, id: Seq<char>) -> Seq<PinnedModel>
    decreases entries.len(),
{
    if entries.len() == 0 {
        Seq::empty()
    } else {
        let rest = others(entries.drop_last(), id);
        if entries.last().id == id {
            rest
        } else {
            rest.push(entries.last())
        }
    }
}

/// The difference of two counters, at least zero.
pub open spec fn less(left: int, right: int) -> int {
    if left >= right {
        left - right
    } else {
        0
    }
}

/// The retained bytes after the expired reads were dropped, in their order.
pub open spec fn live_bytes(entries: Seq<PinnedModel>, bytes: int, moment: int) -> int
    decreases entries.len(),
{
    if entries.len() == 0 {
        bytes
    } else {
        let rest = live_bytes(entries.drop_last(), bytes, moment);
        if is_expired(entries.last(), moment) {
            less(rest, entries.last().retained_bytes)
        } else {
            rest
        }
    }
}

/// Whether no two reads have one identifier.
pub open spec fn distinct_ids(entries: Seq<PinnedModel>) -> bool {
    forall|i: int, j: int|
        #![trigger entries[i], entries[j]]
        0 <= i < j < entries.len() ==> entries[i].id != entries[j].id
}

impl StoreModel {
    /// A signing key has 32 bytes.
    pub open spec fn keyed(self) -> bool {
        self.signing_key.len() == 32
    }

    /// No two reads have one identifier.
    pub open spec fn distinct(self) -> bool {
        distinct_ids(self.entries)
    }

    /// The bookkeeping of the store: its counter is the sum over its reads, and
    /// both stay within the limits.
    pub open spec fn balanced(self) -> bool {
        self.retained_bytes == total_bytes(self.entries) && self.retained_bytes
            <= MAX_CURSOR_BYTES && self.entries.len() <= MAX_ACTIVE_CURSORS
    }

    /// The store without the reads that have outlived their lease.
    pub open spec fn pruned(self, moment: int) -> StoreModel {
        StoreModel {
            entries: live(self.entries, moment),
            retained_bytes: live_bytes(self.entries, self.retained_bytes, moment),
            ..self
        }
    }

    pub open spec fn with_entry(self, entry: PinnedModel) -> StoreModel {
        StoreModel {
            entries: others(self.entries, entry.id).push(entry),
            retained_bytes: self.retained_bytes + entry.retained_bytes,
            ..self
        }
    }

    pub open spec fn without_entry(self, at: int) -> StoreModel {
        StoreModel {
            entries: self.entries.remove(at),
            retained_bytes: less(self.retained_bytes, self.entries[at].retained_bytes),
            ..self
        }
    }

    pub open spec fn touched(self, at: int, moment: int) -> StoreModel {
        StoreModel {
            entries: self.entries.update(
                at,
                PinnedModel { last_access: moment, ..self.entries[at] },
            ),
            ..self
        }
    }

    /// Whether the store has room for one more read.
    pub open spec fn has_room(self, bytes: int) -> bool {
        self.entries.len() < MAX_ACTIVE_CURSORS && self.retained_bytes + bytes <= MAX_CURSOR_BYTES
    }
}

/// Metadata that says whether there is more; only an object can.
pub open spec fn meta_with_more(meta: JsonModel, has_more: bool) -> JsonModel {
    match meta {
        JsonModel::Object(members) => JsonModel::Object(
            with_member(members, "has_more"@, JsonModel::Bool(has_more)),
        ),
        other => other,
    }
}

/// An outcome with some records of its query.
pub open spec fn with_records(
    outcome: OutcomeModel,
    records: Seq<JsonModel>,
    has_more: bool,
) -> OutcomeModel {
    match outcome.value {
        ValueModel::Query(Some(query)) => OutcomeModel {
            value: ValueModel::Query(
                Some(
                    QueryValueModel {
                        records,
                        has_more,
                        meta: meta_with_more(query.meta, has_more),
                        ..query
                    },
                ),
            ),
            ..outcome
        },
        _ => outcome,
    }
}

/// The records of a query's outcome.
pub open spec fn query_records(outcome: OutcomeModel) -> Option<Seq<JsonModel>> {
    match outcome.value {
        ValueModel::Query(Some(query)) => Some(query.records),
        _ => None,
    }
}

/// The number of records of a page.
pub open spec fn page_size(wanted: Option<usize>) -> int {
    match wanted {
        Some(wanted) => if wanted < 1 {
            1
        } else if wanted > MAX_PAGE_ITEMS {
            MAX_PAGE_ITEMS as int
        } else {
            wanted as int
        },
        None => DEFAULT_PAGE_ITEMS as int,
    }
}

/// Where a page ends.
pub open spec fn page_end(count: int, index: int, page_items: int) -> int {
    if index + page_items < count {
        index + page_items
    } else {
        count
    }
}

/// What is done with the result of a query.
pub enum OpenPlan {
    /// There is nothing to page through.
    Plain(ExecutionOutcome),
    /// Everything fits on one page.
    Whole(ExecutionOutcome),
    /// The results are pinned.
    Pinned(PinnedRead),
}

/// Whether an error says that the operation was stopped.
pub open spec fn is_stop(error: ProviderError) -> bool {
    error == ProviderError::OperationCancelled || error == ProviderError::OperationDeadline
}

/// The entry that pins the records of an outcome.
pub open spec fn new_entry(
    outcome: ExecutionModel,
    page_items: int,
    created: int,
    id: Seq<char>,
) -> PinnedModel {
    let records = query_records(outcome.operation)->0;
    PinnedModel {
        id,
        generation: outcome.generation,
        template: with_records(outcome.operation, Seq::empty(), true),
        results: records,
        page_items,
        retained_bytes: measured(records),
        created,
        last_access: created,
    }
}

/// Whether an outcome was pinned in a store and its first page is the result.
pub open spec fn pins_and_pages(
    result: Result<ReadPage, ProviderError>,
    before: StoreModel,
    after: StoreModel,
    outcome: ExecutionModel,
    page_items: int,
    created: int,
    id: Seq<char>,
) -> bool {
    paged(
        result,
        before.with_entry(new_entry(outcome, page_items, created, id)),
        after,
        token_of(before.signing_key, before.runtime_epoch, id, 0),
    )
}

/// Whether a store has room for a read once the leases that have ended at some
/// moment are gone.
pub open spec fn had_room(store: StoreModel, bytes: int) -> bool {
    exists|moment: u64| (#[trigger] store.pruned(moment as int)).has_room(bytes)
}

/// Whether a store has no room for a read, though the leases that have ended at
/// some moment are gone.
pub open spec fn lacked_room(store: StoreModel, bytes: int) -> bool {
    exists|moment: u64| !(#[trigger] store.pruned(moment as int)).has_room(bytes)
}

/// Whether an error refuses to open a read of records. They are larger than the
/// operation may retain; or they do not fit on one page and the store has no room
/// for them. Where they fit or there is room, they may still exceed what the
/// operation retains in sum; and of those that are pinned the lease may end at
/// once, or the store's epoch may have a separator in it.
pub open spec fn refuses_read(
    error: ProviderError,
    store: StoreModel,
    records: Seq<JsonModel>,
    page_items: int,
    limit: u64,
) -> bool {
    if measured(records) > limit {
        error == ProviderError::CaptureLimitExceeded(
            CaptureLimitExceeded {
                kind: CaptureLimitKind::RetainedBytes,
                limit,
                attempted: measured(records) as u64,
            },
        )
    } else {
        let pinned = records.len() > page_items;
        match error {
            ProviderError::CaptureLimitExceeded(exceeded) => may_violate(
                exceeded,
                CaptureLimitKind::RetainedBytes,
                limit,
                measured(records) as u64,
            ) && (pinned ==> had_room(store, measured(records))),
            ProviderError::CursorCapacityExhausted => pinned && lacked_room(
                store,
                measured(records),
            ),
            ProviderError::GenerationExpired => pinned && had_room(store, measured(records)),
            ProviderError::InvalidReadCursor => pinned && had_room(store, measured(records))
                && store.runtime_epoch.contains(':'),
            _ => false,
        }
    }
}

/// Whether this is the result of opening a read of an outcome: what fits on one
/// page is the result, other records are pinned and their first page is the result.
pub open spec fn opens(
    result: Result<ReadPage, ProviderError>,
    before: StoreModel,
    after: StoreModel,
    outcome: ExecutionModel,
    wanted: Option<usize>,
    limit: u64,
) -> bool {
    match (result, query_records(outcome.operation)) {
        (Ok(page), None) => page.outcome@ == outcome && page.next is None && keeps(before, after),
        (Ok(page), Some(records)) => if records.len() <= page_size(wanted) {
            keeps(before, after) && page.next is None && page.outcome@ == (ExecutionModel {
                operation: with_records(outcome.operation, records, false),
                ..outcome
            })
        } else {
            measured(records) <= limit && had_room(before, measured(records)) && page.next
                is Some && page.outcome@ == unchanged_outcome(
                with_records(
                    with_records(outcome.operation, Seq::empty(), true),
                    records.take(page_size(wanted)),
                    true,
                ),
                outcome.generation,
            ) && exists|moment: u64, created: u64, id: Seq<char>| #[trigger]
                pins_and_pages(
                    result,
                    before.pruned(moment as int),
                    after,
                    outcome,
                    page_size(wanted),
                    created as int,
                    id,
                )
        },
        (Err(error), None) => is_stop(error) && keeps(before, after),
        (Err(error), Some(records)) => (is_stop(error) || refuses_read(
            error,
            before,
            records,
            page_size(wanted),
            limit,
        )) && (error is CaptureLimitExceeded || error is CursorCapacityExhausted || records.len()
            <= page_size(wanted) ==> keeps(before, after)),
    }
}

/// Whether a store holds the reads that it did, those whose lease has ended aside.
pub open spec fn keeps(before: StoreModel, after: StoreModel) -> bool {
    after == before || exists|moment: u64| after == #[trigger] before.pruned(moment as int)
}

/// The stored form of records.
pub open spec fn measured(records: Seq<JsonModel>) -> int {
    if records.len() == 0 {
        0
    } else {
        encode_utf8(compact_text(JsonModel::Array(records))).len() as int
    }
}

/// The stored size of records, within a limit.
pub fn measured_json_bytes(records: &Vec<Json>, limit: u64) -> (result: Result<u64, ProviderError>)
    ensures
        match result {
            Ok(bytes) => bytes == measured(item_models(records@)) && bytes <= limit,
            Err(error) => measured(item_models(records@)) > limit && error
                == ProviderError::CaptureLimitExceeded(
                CaptureLimitExceeded {
                    kind: CaptureLimitKind::RetainedBytes,
                    limit,
                    attempted: measured(item_models(records@)) as u64,
                },
            ),
        },
{
    broadcast use lemma_array_model;

    if records.len() == 0 {
        proof {
            assert(item_models(records@).len() == 0);
        }
        return Ok(0);
    }
    proof {
        assert(item_models(records@).len() > 0);
    }
    let text = to_compact_text(&Json::Array(copy_items(records)));
    let bytes: u64 = text.as_str().as_bytes().len() as u64;
    if bytes > limit {
        return Err(
            ProviderError::CaptureLimitExceeded(
                CaptureLimitExceeded {
                    kind: CaptureLimitKind::RetainedBytes,
                    limit,
                    attempted: bytes,
                },
            ),
        );
    }
    Ok(bytes)
}

fn set_has_more(meta: &mut Json, has_more: bool)
    ensures
        final(meta)@ == meta_with_more(old(meta)@, has_more),
{
    broadcast use {lemma_object_model, lemma_array_model};

    let mut taken = Json::Null;
    std::mem::swap(meta, &mut taken);
    *meta = match taken {
        Json::Object(members) => {
            let mut members = members;
            put_member(&mut members, "has_more", Json::Bool(has_more));
            Json::Object(members)
        },
        other => other,
    };
}

fn fill_records(
    outcome: &CanonicalOperationOutcome,
    records: Vec<Json>,
    has_more: bool,
) -> (result: CanonicalOperationOutcome)
    ensures
        result@ == with_records(outcome@, item_models(records@), has_more),
{
    let mut filled = outcome.copy();
    if let CanonicalOperationValue::Query(Some(query)) = &outcome.value {
        let mut meta = query.meta.copy();
        set_has_more(&mut meta, has_more);
        filled.value = CanonicalOperationValue::Query(
            Some(
                CanonicalQueryValue {
                    records,
                    total_count: query.total_count,
                    has_more,
                    meta,
                    embedded_diagnostics: crate::operation_values::copy_typed(
                        &query.embedded_diagnostics,
                    ),
                },
            ),
        );
    }
    filled
}

/// Whether a plan is what opening a read takes.
pub open spec fn plans(
    result: Result<OpenPlan, ProviderError>,
    store: StoreModel,
    outcome: ExecutionModel,
    wanted: Option<usize>,
    retained: int,
) -> bool {
    match query_records(outcome.operation) {
        None => result is Ok && (result->Ok_0 is Plain) && plain_outcome(result->Ok_0)@ == outcome,
        Some(records) => if records.len() <= page_size(wanted) {
            result is Ok && (result->Ok_0 is Whole) && plain_outcome(result->Ok_0)@ == (
            ExecutionModel {
                operation: with_records(outcome.operation, records, false),
                ..outcome
            })
        } else if !store.has_room(retained) {
            result is Err && result->Err_0 == ProviderError::CursorCapacityExhausted
        } else {
            result is Ok && (result->Ok_0 is Pinned) && pins(
                pinned_read(result->Ok_0),
                outcome,
                records,
                page_size(wanted),
                retained,
            )
        },
    }
}

pub open spec fn plain_outcome(plan: OpenPlan) -> ExecutionOutcome {
    match plan {
        OpenPlan::Plain(outcome) => outcome,
        OpenPlan::Whole(outcome) => outcome,
        OpenPlan::Pinned(_) => arbitrary(),
    }
}

pub open spec fn pinned_read(plan: OpenPlan) -> PinnedRead {
    match plan {
        OpenPlan::Pinned(read) => read,
        _ => arbitrary(),
    }
}

/// Whether a read pins the records of an outcome.
pub open spec fn pins(
    read: PinnedRead,
    outcome: ExecutionModel,
    records: Seq<JsonModel>,
    page_items: int,
    retained: int,
) -> bool {
    &&& read.generation@ == outcome.generation
    &&& read.template@ == with_records(outcome.operation, Seq::empty(), true)
    &&& item_models(read.results@) == records
    &&& read.page_items == page_items
    &&& read.retained_bytes == retained
}

/// Whether a page is the one at a position of a pinned read.
pub open spec fn is_page(
    page: ReadPage,
    key: Seq<u8>,
    epoch: Seq<char>,
    entry: PinnedModel,
    index: int,
) -> bool {
    let end = page_end(entry.results.len() as int, index, entry.page_items);
    let more = end < entry.results.len();
    &&& page.outcome@ == unchanged_outcome(
        with_records(entry.template, entry.results.subrange(index, end), more),
        entry.generation,
    )
    &&& match page.next {
        Some(next) => more && next.token@ == token_of(key, epoch, entry.id, end),
        None => !more,
    }
}

impl CursorStore {
    pub open spec fn wf(&self) -> bool {
        self@.keyed() && self@.distinct()
    }

    /// An empty store with a key of its own.
    pub fn new(runtime_epoch: &str) -> (result: CursorStore)
        ensures
            result.wf(),
            result@.balanced(),
            result@.entries.len() == 0,
            result@.runtime_epoch == runtime_epoch@,
    {
        let mut signing_key = random_bytes();
        let second = random_bytes();
        append_bytes(&mut signing_key, second.as_slice());
        CursorStore {
            entries: Vec::new(),
            retained_bytes: 0,
            signing_key,
            runtime_epoch: runtime_epoch.to_owned(),
            started: now(),
        }
    }

    /// The time since the store was made, in nanoseconds.
    fn moment(&self) -> u64 {
        let elapsed = nanoseconds(&time_between(self.started, now()));
        if elapsed > u64::MAX as u128 {
            u64::MAX
        } else {
            elapsed as u64
        }
    }

    /// The cursor at a position of a pinned read.
    pub fn issue(&self, id: &str, index: u64) -> (result: ReadCursor)
        requires
            self.wf(),
        ensures
            result.token@ == token_of(
                self@.signing_key,
                self@.runtime_epoch,
                id@,
                index as int,
            ),
            mac_of(
                self@.signing_key,
                encode_utf8(message_of(self@.runtime_epoch, id@, index as int)),
            ).len() == 64,
    {
        let message = cursor_message(self.runtime_epoch.as_str(), id, index);
        let mac = cursor_mac(&self.signing_key, message.as_str().as_bytes());
        ReadCursor { token: concat3(message.as_str(), ":", mac.as_str()) }
    }

    /// The pinned read and the position that a cursor stands for.
    pub fn authenticate(&self, cursor: &ReadCursor) -> (result: Result<
        (String, u64),
        ProviderError,
    >)
        requires
            self.wf(),
        ensures
            match result {
                Ok((id, index)) => authenticated(
                    self@.signing_key,
                    self@.runtime_epoch,
                    cursor.token@,
                ) == Ok::<_, ProviderError>((id@, index as int)),
                Err(error) => authenticated(
                    self@.signing_key,
                    self@.runtime_epoch,
                    cursor.token@,
                ) == Err::<(Seq<char>, int), _>(error),
            },
    {
        let parts = split_text(cursor.token.as_str(), ':');
        let ghost models = split_on(cursor.token@, ':');
        proof {
            assert(texts(parts@) == models);
            assert(models.len() == parts@.len());
        }
        if parts.len() != 5 {
            return Err(ProviderError::InvalidReadCursor);
        }
        proof {
            assert forall|k: int| 0 <= k < 5 implies (#[trigger] parts@[k])@ == models[k] by {
                assert(texts(parts@)[k] == parts@[k]@);
            }
        }
        if !same_text(parts[0].as_str(), "v1") || parts[4].as_str().as_bytes().len() != 64 {
            return Err(ProviderError::InvalidReadCursor);
        }
        if !same_text(parts[1].as_str(), self.runtime_epoch.as_str()) {
            return Err(ProviderError::GenerationExpired);
        }
        let id = match parse_uuid(parts[2].as_str()) {
            Some(id) => id,
            None => {
                return Err(ProviderError::InvalidReadCursor);
            },
        };
        if !same_text(id.as_str(), parts[2].as_str()) {
            return Err(ProviderError::InvalidReadCursor);
        }
        let index: u64 = match parse_decimal(parts[3].as_str()) {
            Some(index) => index,
            None => {
                return Err(ProviderError::InvalidReadCursor);
            },
        };
        let message = cursor_message(self.runtime_epoch.as_str(), id.as_str(), index);
        let expected = cursor_mac(&self.signing_key, message.as_str().as_bytes());
        if !constant_time_equal(expected.as_str().as_bytes(), parts[4].as_str().as_bytes()) {
            return Err(ProviderError::InvalidReadCursor);
        }
        Ok((id, index))
    }

    /// Drops the reads that have outlived their lease at a moment.
    pub fn remove_expired_at(&mut self, moment: u64)
        ensures
            final(self)@ == old(self)@.pruned(moment as int),
            old(self).wf() ==> final(self).wf(),
    {
        proof {
            lemma_live_distinct(self@.entries, moment as int);
        }
        let mut taken: Vec<PinnedEntry> = Vec::new();
        std::mem::swap(&mut self.entries, &mut taken);
        let ghost models = entry_models(taken@);
        let count: usize = taken.len();
        let mut kept: Vec<PinnedEntry> = Vec::new();
        let mut bytes: u64 = self.retained_bytes;
        let mut i: usize = 0;
        proof {
            assert(models.take(0) =~= Seq::empty());
            assert(entry_models(kept@) =~= Seq::empty());
            assert(taken@.skip(0) =~= taken@);
        }
        while i < count
            invariant
                i <= count,
                count == models.len(),
                entry_models(taken@) == models.skip(i as int),
                entry_models(kept@) == live(models.take(i as int), moment as int),
                bytes == live_bytes(models.take(i as int), self.retained_bytes as int, moment as int),
            decreases count - i,
        {
            proof {
                assert(entry_models(taken@).len() == count - i);
                assert(entry_models(taken@)[0] == taken@[0]@);
                assert(models.take(i + 1).drop_last() =~= models.take(i as int));
                assert(models.take(i + 1).last() == models[i as int]);
            }
            let ghost before = taken@;
            let entry = taken.remove(0);
            proof {
                assert(entry_models(taken@) =~= models.skip(i + 1)) by {
                    assert forall|k: int| 0 <= k < taken@.len() implies entry_models(taken@)[k]
                        == models.skip(i + 1)[k] by {
                        assert(taken@[k] == before[k + 1]);
                        assert(entry_models(before)[k + 1] == before[k + 1]@);
                    }
                }
            }
            let idle = moment >= entry.read.last_access && moment - entry.read.last_access
                >= IDLE_LEASE;
            let old_age = moment >= entry.read.created && moment - entry.read.created
                >= HARD_LIFETIME;
            if idle || old_age {
                bytes = bytes.saturating_sub(entry.read.retained_bytes);
            } else {
                let ghost done = kept@;
                kept.push(entry);
                proof {
                    assert(entry_models(kept@) =~= entry_models(done).push(entry@));
                }
            }
            i = i + 1;
        }
        proof {
            assert(models.take(i as int) =~= models);
        }
        self.entries = kept;
        self.retained_bytes = bytes;
    }

    fn find(&self, id: &str) -> (result: usize)
        ensures
            result == entry_at(self@.entries, id@),
            result <= self.entries@.len(),
    {
        let ghost models = self@.entries;
        proof {
            assert(models.skip(0) =~= models);
        }
        let mut i: usize = 0;
        while i < self.entries.len()
            invariant
                i <= self.entries@.len(),
                models == entry_models(self.entries@),
                entry_at(models, id@) == i + entry_at(models.skip(i as int), id@),
            decreases self.entries@.len() - i,
        {
            proof {
                assert(models[i as int] == self.entries@[i as int]@);
                assert(models.skip(i as int)[0] == models[i as int]);
                assert(models.skip(i as int).drop_first() =~= models.skip(i + 1));
            }
            if same_text(self.entries[i].id.as_str(), id) {
                return i;
            }
            i = i + 1;
        }
        i
    }

    /// What is done with the result of a query whose records take a number of
    /// bytes.
    pub fn plan_open(
        &self,
        outcome: ExecutionOutcome,
        page_items: Option<usize>,
        retained: u64,
    ) -> (result: Result<OpenPlan, ProviderError>)
        ensures
            plans(result, self@, outcome@, page_items, retained as int),
    {
        let size: usize = match page_items {
            Some(wanted) => if wanted < 1 {
                1
            } else if wanted > MAX_PAGE_ITEMS {
                MAX_PAGE_ITEMS
            } else {
                wanted
            },
            None => DEFAULT_PAGE_ITEMS,
        };
        let records = match &outcome.operation.value {
            CanonicalOperationValue::Query(Some(query)) => copy_items(&query.records),
            _ => {
                return Ok(OpenPlan::Plain(outcome));
            },
        };
        proof {
            assert(query_records(outcome@.operation) == Some(item_models(records@)));
            assert(item_models(records@).len() == records@.len());
        }
        if records.len() <= size {
            let operation = fill_records(&outcome.operation, records, false);
            return Ok(
                OpenPlan::Whole(
                    ExecutionOutcome {
                        operation,
                        generation: outcome.generation,
                        changes: outcome.changes,
                        commit_id: outcome.commit_id,
                        change_event: outcome.change_event,
                    },
                ),
            );
        }
        let total = match self.retained_bytes.checked_add(retained) {
            Some(total) => total,
            None => {
                return Err(ProviderError::CursorCapacityExhausted);
            },
        };
        if self.entries.len() >= MAX_ACTIVE_CURSORS || total > MAX_CURSOR_BYTES {
            return Err(ProviderError::CursorCapacityExhausted);
        }
        let none: Vec<Json> = Vec::new();
        proof {
            assert(item_models(none@) =~= Seq::empty());
        }
        let template = fill_records(&outcome.operation, none, true);
        Ok(
            OpenPlan::Pinned(
                PinnedRead {
                    generation: outcome.generation,
                    template,
                    results: records,
                    page_items: size,
                    retained_bytes: retained,
                    created: 0,
                    last_access: 0,
                },
            ),
        )
    }

    /// Drops the reads with an identifier from the list, without touching the
    /// counter.
    fn drop_id(&mut self, id: &str)
        ensures
            final(self)@ == (StoreModel { entries: others(old(self)@.entries, id@), ..old(self)@ }),
    {
        let mut taken: Vec<PinnedEntry> = Vec::new();
        std::mem::swap(&mut self.entries, &mut taken);
        let ghost models = entry_models(taken@);
        let count: usize = taken.len();
        let mut kept: Vec<PinnedEntry> = Vec::new();
        let mut i: usize = 0;
        proof {
            assert(models.take(0) =~= Seq::empty());
            assert(entry_models(kept@) =~= Seq::empty());
            assert(models.skip(0) =~= models);
        }
        while i < count
            invariant
                i <= count,
                count == models.len(),
                entry_models(taken@) == models.skip(i as int),
                entry_models(kept@) == others(models.take(i as int), id@),
            decreases count - i,
        {
            proof {
                assert(entry_models(taken@).len() == count - i);
                assert(entry_models(taken@)[0] == taken@[0]@);
                assert(models.take(i + 1).drop_last() =~= models.take(i as int));
                assert(models.take(i + 1).last() == models[i as int]);
            }
            let ghost before = taken@;
            let entry = taken.remove(0);
            proof {
                assert(entry_models(taken@) =~= models.skip(i + 1)) by {
                    assert forall|k: int| 0 <= k < taken@.len() implies entry_models(taken@)[k]
                        == models.skip(i + 1)[k] by {
                        assert(taken@[k] == before[k + 1]);
                        assert(entry_models(before)[k + 1] == before[k + 1]@);
                    }
                }
            }
            if !same_text(entry.id.as_str(), id) {
                let ghost done = kept@;
                kept.push(entry);
                proof {
                    assert(entry_models(kept@) =~= entry_models(done).push(entry@));
                }
            }
            i = i + 1;
        }
        proof {
            assert(models.take(i as int) =~= models);
        }
        self.entries = kept;
    }

    /// Keeps a read for paging from a moment on, in place of one with the same
    /// identifier.
    pub fn pin(&mut self, id: String, read: PinnedRead, moment: u64)
        requires
            old(self)@.retained_bytes + read.retained_bytes <= u64::MAX,
        ensures
            old(self).wf() ==> final(self).wf(),
            final(self)@ == old(self)@.with_entry(
                PinnedModel {
                    id: id@,
                    generation: read.generation@,
                    template: read.template@,
                    results: item_models(read.results@),
                    page_items: read.page_items as int,
                    retained_bytes: read.retained_bytes as int,
                    created: moment as int,
                    last_access: moment as int,
                },
            ),
    {
        let ghost store = self@;
        self.drop_id(id.as_str());
        self.retained_bytes = self.retained_bytes + read.retained_bytes;
        let entry = PinnedEntry {
            id,
            read: PinnedRead {
                generation: read.generation,
                template: read.template,
                results: read.results,
                page_items: read.page_items,
                retained_bytes: read.retained_bytes,
                created: moment,
                last_access: moment,
            },
        };
        let ghost before = self.entries@;
        self.entries.push(entry);
        proof {
            assert(entry_models(self.entries@) =~= entry_models(before).push(entry@));
            if store.distinct() {
                lemma_store_stays_distinct(store, entry@, 0, 0);
            }
        }
    }

    /// The page that a cursor stands for at a moment.
    pub fn page_at(&mut self, cursor: &ReadCursor, moment: u64) -> (result: Result<
        ReadPage,
        ProviderError,
    >)
        requires
            old(self).wf(),
        ensures
            final(self).wf(),
            pages(result, old(self)@, final(self)@, cursor.token@, moment as int),
    {
        self.remove_expired_at(moment);
        let (id, index) = match self.authenticate(cursor) {
            Ok(found) => found,
            Err(error) => {
                return Err(error);
            },
        };
        let at = self.find(id.as_str());
        if at >= self.entries.len() {
            return Err(ProviderError::GenerationExpired);
        }
        proof {
            assert(self@.entries[at as int] == self.entries@[at as int]@);
            lemma_entry_at(self@.entries, id@);
        }
        let count: usize = self.entries[at].read.results.len();
        proof {
            assert(self@.entries[at as int].results.len() == count);
        }
        if index > count as u64 {
            return Err(ProviderError::InvalidReadCursor);
        }
        let start: usize = index as usize;
        let end: usize = if self.entries[at].read.page_items < count - start {
            start + self.entries[at].read.page_items
        } else {
            count
        };
        let is_query = match &self.entries[at].read.template.value {
            CanonicalOperationValue::Query(Some(_)) => true,
            _ => false,
        };
        if !is_query {
            return Err(
                ProviderError::transaction(
                    "cursor_state_invalid",
                    "pinned read no longer contains a typed query",
                ),
            );
        }
        let ghost entry = self@.entries[at as int];
        let records = copy_range(&self.entries[at].read.results, start, end);
        let more = end < count;
        let operation = fill_records(&self.entries[at].read.template, records, more);
        let generation = self.entries[at].read.generation.copy();
        let next = if more {
            Some(self.issue(id.as_str(), end as u64))
        } else {
            None
        };
        let ghost before = self.entries@;
        let mut entry_now = self.entries.remove(at);
        entry_now.read.last_access = moment;
        self.entries.insert(at, entry_now);
        proof {
            assert(entry_models(self.entries@) =~= entry_models(before).update(
                at as int,
                PinnedModel { last_access: moment as int, ..entry },
            ));
        }
        Ok(ReadPage { outcome: ExecutionOutcome::unchanged(operation, generation), next })
    }

    /// Releases the read of a cursor.
    pub fn release(&mut self, cursor: &ReadCursor) -> (result: Result<bool, ProviderError>)
        requires
            old(self).wf(),
        ensures
            final(self).wf(),
            releases(result, old(self)@, final(self)@, cursor.token@),
    {
        let (id, _) = match self.authenticate(cursor) {
            Ok(found) => found,
            Err(error) => {
                return Err(error);
            },
        };
        let at = self.find(id.as_str());
        if at >= self.entries.len() {
            return Ok(false);
        }
        let ghost before = self.entries@;
        let removed = self.entries.remove(at);
        self.retained_bytes = self.retained_bytes.saturating_sub(removed.read.retained_bytes);
        proof {
            assert(entry_models(self.entries@) =~= entry_models(before).remove(at as int));
            assert(entry_models(before)[at as int] == removed@);
            lemma_remove_distinct(entry_models(before), at as int);
        }
        Ok(true)
    }

    /// The number of pinned reads and the bytes that they retain.
    pub fn measurements(&mut self) -> (result: (usize, u64))
        ensures
            old(self).wf() ==> final(self).wf(),
            exists|moment: u64| final(self)@ == #[trigger] old(self)@.pruned(moment as int),
            result.0 == final(self)@.entries.len(),
            result.1 == final(self)@.retained_bytes,
    {
        let moment = self.moment();
        self.remove_expired_at(moment);
        (self.entries.len(), self.retained_bytes)
    }

    /// The page that a cursor stands for.
    pub fn page(&mut self, cursor: &ReadCursor, context: &OperationContext) -> (result: Result<
        ReadPage,
        ProviderError,
    >)
        requires
            old(self).wf(),
        ensures
            final(self).wf(),
            turns(result, old(self)@, final(self)@, cursor.token@),
    {
        if let Err(error) = context.check() {
            return Err(error);
        }
        let moment = self.moment();
        let ghost before = self@;
        let result = self.page_at(cursor, moment);
        proof {
            let pruned = before.pruned(moment as int);
            assert(pages(result, before, self@, cursor.token@, moment as int));
            assert(paged(result, before, self@, cursor.token@));
        }
        if let Err(error) = context.check() {
            return Err(error);
        }
        result
    }

    /// Opens a read: results that fit on one page are returned, others are pinned
    /// and their first page is returned. What the store refuses is not charged to
    /// the operation.
    pub fn open(
        &mut self,
        outcome: ExecutionOutcome,
        page_items: Option<usize>,
        context: &OperationContext,
    ) -> (result: Result<ReadPage, ProviderError>)
        requires
            old(self).wf(),
        ensures
            final(self).wf(),
            opens(
                result,
                old(self)@,
                final(self)@,
                outcome@,
                page_items,
                context.limits_model().max_retained_bytes,
            ),
    {
        let ghost start = self@;
        if let Err(error) = context.check() {
            return Err(error);
        }
        let first = self.moment();
        self.remove_expired_at(first);
        let ghost pruned = self@;
        let limit: u64 = context.capture_limits().max_retained_bytes;
        let retained: u64 = match &outcome.operation.value {
            CanonicalOperationValue::Query(Some(query)) => match measured_json_bytes(
                &query.records,
                limit,
            ) {
                Ok(bytes) => bytes,
                Err(error) => {
                    return Err(error);
                },
            },
            _ => 0,
        };
        match self.plan_open(outcome, page_items, retained) {
            Err(error) => {
                proof {
                    assert(!start.pruned(first as int).has_room(retained as int));
                }
                Err(error)
            },
            Ok(OpenPlan::Plain(outcome)) => Ok(ReadPage { outcome, next: None }),
            Ok(OpenPlan::Whole(outcome)) => match context.charge_retained(retained) {
                Ok(_) => Ok(ReadPage { outcome, next: None }),
                Err(error) => Err(error),
            },
            Ok(OpenPlan::Pinned(read)) => {
                proof {
                    assert(start.pruned(first as int).has_room(retained as int));
                }
                if let Err(error) = context.charge_retained(retained) {
                    return Err(error);
                }
                let id = new_uuid();
                let cursor = self.issue(id.as_str(), 0);
                let moment = self.moment();
                let ghost records = query_records(outcome@.operation)->0;
                self.pin(id, read, moment);
                let ghost pinned = self@;
                let result = self.page(&cursor, context);
                proof {
                    assert(pinned == pruned.with_entry(
                        new_entry(outcome@, page_size(page_items), moment as int, id@),
                    ));
                    lemma_cursor_names_its_read(
                        pinned.signing_key,
                        pinned.runtime_epoch,
                        id@,
                        0,
                    );
                    if paged(result, pinned, self@, cursor.token@) {
                        let later = choose|later: u64|
                            #![trigger pinned.pruned(later as int)]
                            pages(result, pinned, self@, cursor.token@, later as int);
                        lemma_newest_entry(pruned.entries, pinned.entries.last(), later as int);
                        if !pinned.runtime_epoch.contains(':') {
                            lemma_issued_cursors_are_accepted(
                                pinned.signing_key,
                                pinned.runtime_epoch,
                                id@,
                                0,
                            );
                        }
                        assert(pins_and_pages(
                            result,
                            start.pruned(first as int),
                            self@,
                            outcome@,
                            page_size(page_items),
                            moment as int,
                            id@,
                        ));
                        assert(records.subrange(0, page_size(page_items)) =~= records.take(
                            page_size(page_items),
                        ));
                    }
                }
                result
            },
        }
    }
}

fn copy_range(items: &Vec<Json>, from: usize, to: usize) -> (result: Vec<Json>)
    requires
        from <= to <= items@.len(),
    ensures
        item_models(result@) == item_models(items@).subrange(from as int, to as int),
{
    let mut result: Vec<Json> = Vec::new();
    let mut i: usize = from;
    while i < to
        invariant
            from <= i <= to <= items@.len(),
            result@.len() == i - from,
            forall|k: int| 0 <= k < i - from ==> (#[trigger] result@[k])@ == items@[from + k]@,
        decreases to - i,
    {
        result.push(items[i].copy());
        i = i + 1;
    }
    proof {
        assert(item_models(result@) =~= item_models(items@).subrange(from as int, to as int));
    }
    result
}

/// What a store answers to the release of a cursor.
pub open spec fn releases(
    result: Result<bool, ProviderError>,
    before: StoreModel,
    after: StoreModel,
    token: Seq<char>,
) -> bool {
    match authenticated(before.signing_key, before.runtime_epoch, token) {
        Err(error) => result == Err::<bool, _>(error) && after == before,
        Ok((id, _)) => {
            let at = entry_at(before.entries, id);
            if at < before.entries.len() {
                result == Ok::<_, ProviderError>(true) && after == before.without_entry(at)
            } else {
                result == Ok::<_, ProviderError>(false) && after == before
            }
        },
    }
}

/// What a store answers to a cursor at a moment.
pub open spec fn pages(
    result: Result<ReadPage, ProviderError>,
    before: StoreModel,
    after: StoreModel,
    token: Seq<char>,
    moment: int,
) -> bool {
    let pruned = before.pruned(moment);
    match authenticated(before.signing_key, before.runtime_epoch, token) {
        Err(error) => result == Err::<ReadPage, _>(error) && after == pruned,
        Ok((id, index)) => {
            let at = entry_at(pruned.entries, id);
            if at >= pruned.entries.len() {
                result == Err::<ReadPage, _>(ProviderError::GenerationExpired) && after == pruned
            } else if index > pruned.entries[at].results.len() {
                result == Err::<ReadPage, _>(ProviderError::InvalidReadCursor) && after == pruned
            } else if query_records(pruned.entries[at].template) is None {
                result is Err && result->Err_0.is_transaction(
                    "cursor_state_invalid"@,
                    "pinned read no longer contains a typed query"@,
                ) && after == pruned
            } else {
                result is Ok && is_page(
                    result->Ok_0,
                    before.signing_key,
                    before.runtime_epoch,
                    pruned.entries[at],
                    index,
                ) && after == pruned.touched(at, moment)
            }
        },
    }
}

/// Whether this is the page that a cursor stands for at some moment.
pub open spec fn paged(
    result: Result<ReadPage, ProviderError>,
    before: StoreModel,
    after: StoreModel,
    token: Seq<char>,
) -> bool {
    exists|moment: u64|
        #![trigger before.pruned(moment as int)]
        pages(result, before, after, token, moment as int)
}

/// Whether this is the page that a cursor stands for, unless the operation was
/// stopped before or after the page was made.
pub open spec fn turns(
    result: Result<ReadPage, ProviderError>,
    before: StoreModel,
    after: StoreModel,
    token: Seq<char>,
) -> bool {
    ||| paged(result, before, after, token)
    ||| result is Err && is_stop(result->Err_0) && (after == before || exists|
        found: Result<ReadPage, ProviderError>,
    | #[trigger]
        paged(found, before, after, token))
}

proof fn lemma_entry_at(entries: Seq<PinnedModel>, id: Seq<char>)
    ensures
        0 <= entry_at(entries, id) <= entries.len(),
        entry_at(entries, id) < entries.len() ==> entries[entry_at(entries, id)].id == id,
    decreases entries.len(),
{
    if entries.len() > 0 && entries[0].id != id {
        lemma_entry_at(entries.drop_first(), id);
    }
}

proof fn lemma_no_others(entries: Seq<PinnedModel>, id: Seq<char>, moment: int)
    ensures
        entry_at(live(others(entries, id), moment), id) == live(others(entries, id), moment).len(),
    decreases entries.len(),
{
    if entries.len() > 0 {
        let front = entries.drop_last();
        lemma_no_others(front, id, moment);
        if entries.last().id != id {
            let rest = others(front, id);
            assert(rest.push(entries.last()).drop_last() =~= rest);
            if !is_expired(entries.last(), moment) {
                lemma_entry_at_push(live(rest, moment), entries.last(), id);
            }
        }
    }
}

proof fn lemma_entry_at_push(entries: Seq<PinnedModel>, entry: PinnedModel, id: Seq<char>)
    requires
        entry_at(entries, id) == entries.len(),
    ensures
        entry_at(entries.push(entry), id) == if entry.id == id {
            entries.len() as int
        } else {
            entries.len() as int + 1
        },
    decreases entries.len(),
{
    if entries.len() > 0 {
        lemma_entry_at(entries.drop_first(), id);
        lemma_entry_at_push(entries.drop_first(), entry, id);
        assert(entries.push(entry).drop_first() =~= entries.drop_first().push(entry));
        assert(entries.push(entry)[0] == entries[0]);
    } else {
        assert(entries.push(entry)[0] == entry);
        assert(entries.push(entry).drop_first() =~= entries);
    }
}

/// The newest read is the only one with its identifier.
proof fn lemma_newest_entry(entries: Seq<PinnedModel>, entry: PinnedModel, moment: int)
    ensures
        ({
            let kept = live(others(entries, entry.id).push(entry), moment);
            let at = entry_at(kept, entry.id);
            at < kept.len() ==> kept[at] == entry
        }),
{
    let rest = others(entries, entry.id);
    assert(rest.push(entry).drop_last() =~= rest);
    lemma_no_others(entries, entry.id, moment);
    if !is_expired(entry, moment) {
        lemma_entry_at_push(live(rest, moment), entry, entry.id);
    }
}

// ---------------------------------------------------------------------------
// Laws
// ---------------------------------------------------------------------------
proof fn lemma_no_separator(text: Seq<char>)
    requires
        forall|i: int| 0 <= i < text.len() ==> crate::text::is_digit(#[trigger] text[i]),
    ensures
        !text.contains(':'),
{
    if text.contains(':') {
        let k = choose|k: int| 0 <= k < text.len() && text[k] == ':';
        assert(crate::text::is_digit(text[k]));
    }
}

proof fn lemma_hex_has_no_separator(bytes: Seq<u8>)
    ensures
        !hex(bytes).contains(':'),
        vstd::utf8::is_ascii_chars(hex(bytes)),
{
    let text = hex(bytes);
    assert forall|i: int| 0 <= i < text.len() implies #[trigger] text[i] != ':' && text[i] as u32
        <= 127 by {
        let byte = bytes[i / 2];
        let high = byte / 16;
        let low = byte % 16;
        assert(high < 16 && low < 16);
    }
}

/// A store accepts the cursors that it issues, for the read and the position that
/// they were issued for.
pub proof fn lemma_issued_cursors_are_accepted(
    key: Seq<u8>,
    epoch: Seq<char>,
    id: Seq<char>,
    index: u64,
)
    requires
        !epoch.contains(':'),
        !id.contains(':'),
        uuid_text(id) == Some(id),
        mac_of(key, encode_utf8(message_of(epoch, id, index as int))).len() == 64,
    ensures
        authenticated(key, epoch, token_of(key, epoch, id, index as int)) == Ok::<
            _,
            ProviderError,
        >((id, index as int)),
{
    reveal_strlit("v1");
    reveal_strlit("v1:");
    reveal_strlit(":");
    crate::text::lemma_decimal_roundtrip(index);
    let number = decimal(index as nat);
    lemma_no_separator(number);
    let message = message_of(epoch, id, index as int);
    let mac = mac_of(key, encode_utf8(message));
    lemma_hex_has_no_separator(
        sha256(padded(key, 0x5c) + sha256(padded(key, 0x36) + encode_utf8(message))),
    );
    let version = "v1"@;
    assert(!version.contains(':')) by {
        if version.contains(':') {
            let k = choose|k: int| 0 <= k < version.len() && version[k] == ':';
        }
    }
    crate::text::lemma_split_single(version, ':');
    crate::text::lemma_split_last(version, epoch, ':');
    let first = version + seq![':'] + epoch;
    crate::text::lemma_split_last(first, id, ':');
    let second = first + seq![':'] + id;
    crate::text::lemma_split_last(second, number, ':');
    let third = second + seq![':'] + number;
    assert(third =~= message);
    crate::text::lemma_split_last(third, mac, ':');
    let token = token_of(key, epoch, id, index as int);
    assert(third + seq![':'] + mac =~= token);
    let parts = split_on(token, ':');
    assert(parts.len() == 5);
    assert(parts[0] == version && parts[1] == epoch && parts[2] == id && parts[3] == number
        && parts[4] == mac);
    vstd::utf8::is_ascii_chars_encode_utf8(mac);
}

/// A store takes a cursor that it issued for nothing but the read and the position
/// that it was issued for.
pub proof fn lemma_cursor_names_its_read(
    key: Seq<u8>,
    epoch: Seq<char>,
    id: Seq<char>,
    index: u64,
)
    requires
        !id.contains(':'),
        uuid_text(id) == Some(id),
        mac_of(key, encode_utf8(message_of(epoch, id, index as int))).len() == 64,
    ensures
        match authenticated(key, epoch, token_of(key, epoch, id, index as int)) {
            Ok(found) => found == (id, index as int),
            Err(_) => true,
        },
{
    if !epoch.contains(':') {
        lemma_issued_cursors_are_accepted(key, epoch, id, index);
    } else {
        reveal_strlit("v1:");
        reveal_strlit(":");
        let first = "v1:"@ + epoch;
        crate::text::lemma_split_count("v1:"@, epoch, ':');
        crate::text::lemma_split_count("v1"@, "v1:"@, ':');
        assert("v1:"@[2] == ':');
        assert("v1:"@.contains(':'));
        crate::text::lemma_decimal_roundtrip(index);
        let number = decimal(index as nat);
        lemma_no_separator(number);
        let message = message_of(epoch, id, index as int);
        let mac = mac_of(key, encode_utf8(message));
        lemma_hex_has_no_separator(
            sha256(padded(key, 0x5c) + sha256(padded(key, 0x36) + encode_utf8(message))),
        );
        crate::text::lemma_split_last(first, id, ':');
        let second = first + seq![':'] + id;
        crate::text::lemma_split_last(second, number, ':');
        let third = second + seq![':'] + number;
        assert(third =~= message);
        crate::text::lemma_split_last(third, mac, ':');
        let token = token_of(key, epoch, id, index as int);
        assert(third + seq![':'] + mac =~= token);
        assert(split_on(token, ':').len() >= 6);
    }
}

proof fn lemma_total_push(entries: Seq<PinnedModel>, entry: PinnedModel)
    ensures
        total_bytes(entries.push(entry)) == total_bytes(entries) + entry.retained_bytes,
{
    assert(entries.push(entry).drop_last() =~= entries);
}

proof fn lemma_total_is_positive(entries: Seq<PinnedModel>)
    requires
        forall|i: int| 0 <= i < entries.len() ==> (#[trigger] entries[i]).retained_bytes >= 0,
    ensures
        total_bytes(entries) >= 0,
    decreases entries.len(),
{
    if entries.len() > 0 {
        let front = entries.drop_last();
        assert forall|i: int| 0 <= i < front.len() implies (#[trigger] front[i]).retained_bytes
            >= 0 by {
            assert(front[i] == entries[i]);
        }
        lemma_total_is_positive(front);
        assert(entries[entries.len() - 1].retained_bytes >= 0);
    }
}

proof fn lemma_total_remove(entries: Seq<PinnedModel>, at: int)
    requires
        0 <= at < entries.len(),
    ensures
        total_bytes(entries.remove(at)) == total_bytes(entries) - entries[at].retained_bytes,
    decreases entries.len(),
{
    if at == entries.len() - 1 {
        assert(entries.remove(at) =~= entries.drop_last());
    } else {
        lemma_total_remove(entries.drop_last(), at);
        assert(entries.remove(at).drop_last() =~= entries.drop_last().remove(at));
        assert(entries.remove(at).last() == entries.last());
    }
}

proof fn lemma_total_update(entries: Seq<PinnedModel>, at: int, entry: PinnedModel)
    requires
        0 <= at < entries.len(),
        entry.retained_bytes == entries[at].retained_bytes,
    ensures
        total_bytes(entries.update(at, entry)) == total_bytes(entries),
    decreases entries.len(),
{
    if at == entries.len() - 1 {
        assert(entries.update(at, entry).drop_last() =~= entries.drop_last());
    } else {
        lemma_total_update(entries.drop_last(), at, entry);
        assert(entries.update(at, entry).drop_last() =~= entries.drop_last().update(at, entry));
        assert(entries.update(at, entry).last() == entries.last());
    }
}

proof fn lemma_live_bytes(entries: Seq<PinnedModel>, extra: int, moment: int)
    requires
        extra >= 0,
        forall|i: int| 0 <= i < entries.len() ==> (#[trigger] entries[i]).retained_bytes >= 0,
    ensures
        live_bytes(entries, total_bytes(entries) + extra, moment) == total_bytes(
            live(entries, moment),
        ) + extra,
        live(entries, moment).len() <= entries.len(),
        forall|i: int|
            0 <= i < live(entries, moment).len() ==> (#[trigger] live(
                entries,
                moment,
            )[i]).retained_bytes >= 0,
    decreases entries.len(),
{
    if entries.len() > 0 {
        let front = entries.drop_last();
        let last = entries.last();
        assert(entries[entries.len() - 1].retained_bytes >= 0);
        assert forall|i: int| 0 <= i < front.len() implies (#[trigger] front[i]).retained_bytes
            >= 0 by {
            assert(front[i] == entries[i]);
        }
        lemma_live_bytes(front, extra + last.retained_bytes, moment);
        let kept = live(front, moment);
        lemma_total_push(kept, last);
        lemma_total_is_positive(kept);
    }
}

/// The bookkeeping of a store stays right whatever is done with it: its counter is
/// the sum over its reads, within the limits.
pub proof fn lemma_store_stays_balanced(
    store: StoreModel,
    entry: PinnedModel,
    at: int,
    moment: int,
)
    requires
        store.balanced(),
        forall|i: int|
            0 <= i < store.entries.len() ==> (#[trigger] store.entries[i]).retained_bytes >= 0,
        entry.retained_bytes >= 0,
    ensures
        store.pruned(moment).balanced(),
        store.has_room(entry.retained_bytes) && others(store.entries, entry.id) == store.entries
            ==> store.with_entry(entry).balanced(),
        0 <= at < store.entries.len() ==> store.without_entry(at).balanced(),
        0 <= at < store.entries.len() ==> store.touched(at, moment).balanced(),
{
    lemma_live_bytes(store.entries, 0, moment);
    lemma_total_is_smaller(store.entries, moment);
    lemma_total_push(store.entries, entry);
    if 0 <= at < store.entries.len() {
        lemma_total_remove(store.entries, at);
        let rest = store.entries.remove(at);
        assert forall|i: int| 0 <= i < rest.len() implies (#[trigger] rest[i]).retained_bytes
            >= 0 by {
            if i < at {
                assert(rest[i] == store.entries[i]);
            } else {
                assert(rest[i] == store.entries[i + 1]);
            }
        }
        lemma_total_is_positive(rest);
        lemma_total_update(
            store.entries,
            at,
            PinnedModel { last_access: moment, ..store.entries[at] },
        );
    }
}

proof fn lemma_total_is_smaller(entries: Seq<PinnedModel>, moment: int)
    requires
        forall|i: int| 0 <= i < entries.len() ==> (#[trigger] entries[i]).retained_bytes >= 0,
    ensures
        total_bytes(live(entries, moment)) <= total_bytes(entries),
    decreases entries.len(),
{
    if entries.len() > 0 {
        let front = entries.drop_last();
        assert(entries[entries.len() - 1].retained_bytes >= 0);
        assert forall|i: int| 0 <= i < front.len() implies (#[trigger] front[i]).retained_bytes
            >= 0 by {
            assert(front[i] == entries[i]);
        }
        lemma_total_is_smaller(front, moment);
        lemma_total_push(live(front, moment), entries.last());
    }
}

proof fn lemma_live_from(entries: Seq<PinnedModel>, moment: int, k: int) -> (i: int)
    requires
        0 <= k < live(entries, moment).len(),
    ensures
        0 <= i < entries.len(),
        live(entries, moment)[k] == entries[i],
    decreases entries.len(),
{
    let rest = live(entries.drop_last(), moment);
    if k < rest.len() {
        lemma_live_from(entries.drop_last(), moment, k)
    } else {
        entries.len() - 1
    }
}

proof fn lemma_live_has(entries: Seq<PinnedModel>, moment: int, i: int) -> (k: int)
    requires
        0 <= i < entries.len(),
        !is_expired(entries[i], moment),
    ensures
        0 <= k < live(entries, moment).len(),
        live(entries, moment)[k] == entries[i],
    decreases entries.len(),
{
    if i < entries.len() - 1 {
        lemma_live_has(entries.drop_last(), moment, i)
    } else {
        live(entries, moment).len() - 1
    }
}

proof fn lemma_live_distinct(entries: Seq<PinnedModel>, moment: int)
    ensures
        distinct_ids(entries) ==> distinct_ids(live(entries, moment)),
    decreases entries.len(),
{
    if entries.len() > 0 && distinct_ids(entries) {
        let front = entries.drop_last();
        assert(distinct_ids(front)) by {
            assert forall|i: int, j: int| 0 <= i < j < front.len() implies (#[trigger] front[i]).id
                != (#[trigger] front[j]).id by {
                assert(front[i] == entries[i] && front[j] == entries[j]);
            }
        }
        lemma_live_distinct(front, moment);
        let rest = live(front, moment);
        if !is_expired(entries.last(), moment) {
            let all = rest.push(entries.last());
            assert forall|i: int, j: int| 0 <= i < j < all.len() implies (#[trigger] all[i]).id
                != (#[trigger] all[j]).id by {
                if j == rest.len() {
                    let k = lemma_live_from(front, moment, i);
                    assert(entries[k].id != entries[entries.len() - 1].id);
                } else {
                    assert(all[i] == rest[i] && all[j] == rest[j]);
                }
            }
        }
    }
}

proof fn lemma_others_distinct(entries: Seq<PinnedModel>, id: Seq<char>)
    requires
        distinct_ids(entries),
    ensures
        distinct_ids(others(entries, id)),
        forall|k: int|
            0 <= k < others(entries, id).len() ==> (#[trigger] others(entries, id)[k]).id != id
                && entries.contains(others(entries, id)[k]),
    decreases entries.len(),
{
    if entries.len() > 0 {
        let front = entries.drop_last();
        assert forall|i: int, j: int| 0 <= i < j < front.len() implies (#[trigger] front[i]).id
            != (#[trigger] front[j]).id by {
            assert(front[i] == entries[i] && front[j] == entries[j]);
        }
        lemma_others_distinct(front, id);
        let rest = others(front, id);
        let all = others(entries, id);
        assert forall|k: int| 0 <= k < all.len() implies (#[trigger] all[k]).id != id
            && entries.contains(all[k]) by {
            if k < rest.len() {
                assert(all[k] == rest[k]);
                let i = choose|i: int| 0 <= i < front.len() && front[i] == rest[k];
                assert(entries[i] == all[k]);
            } else {
                assert(all[k] == entries[entries.len() - 1]);
            }
        }
        assert forall|i: int, j: int| 0 <= i < j < all.len() implies (#[trigger] all[i]).id
            != (#[trigger] all[j]).id by {
            assert(all[i] == rest[i]);
            if j == rest.len() {
                let k = choose|k: int| 0 <= k < front.len() && front[k] == rest[i];
                assert(entries[k].id != entries[entries.len() - 1].id);
            } else {
                assert(all[j] == rest[j]);
            }
        }
    }
}

proof fn lemma_remove_distinct(entries: Seq<PinnedModel>, at: int)
    requires
        distinct_ids(entries),
        0 <= at < entries.len(),
    ensures
        distinct_ids(entries.remove(at)),
{
    let rest = entries.remove(at);
    assert forall|i: int, j: int| 0 <= i < j < rest.len() implies (#[trigger] rest[i]).id != (
    #[trigger] rest[j]).id by {
        let a = if i < at {
            i
        } else {
            i + 1
        };
        let b = if j < at {
            j
        } else {
            j + 1
        };
        assert(rest[i] == entries[a] && rest[j] == entries[b]);
    }
}

/// The identifiers of a store's reads stay distinct whatever is done with it.
pub proof fn lemma_store_stays_distinct(
    store: StoreModel,
    entry: PinnedModel,
    at: int,
    moment: int,
)
    requires
        store.distinct(),
    ensures
        store.pruned(moment).distinct(),
        store.with_entry(entry).distinct(),
        0 <= at < store.entries.len() ==> store.without_entry(at).distinct(),
        0 <= at < store.entries.len() ==> store.touched(at, moment).distinct(),
{
    lemma_live_distinct(store.entries, moment);
    lemma_others_distinct(store.entries, entry.id);
    let all = others(store.entries, entry.id).push(entry);
    assert forall|i: int, j: int| 0 <= i < j < all.len() implies (#[trigger] all[i]).id != (
    #[trigger] all[j]).id by {
        assert(all[i] == others(store.entries, entry.id)[i]);
    }
    if 0 <= at < store.entries.len() {
        lemma_remove_distinct(store.entries, at);
        let touched = store.touched(at, moment).entries;
        assert forall|i: int, j: int| 0 <= i < j < touched.len() implies (#[trigger] touched[i]).id
            != (#[trigger] touched[j]).id by {
            assert(touched[i].id == store.entries[i].id);
            assert(touched[j].id == store.entries[j].id);
        }
    }
}

/// A read is found by its identifier.
proof fn lemma_found(entries: Seq<PinnedModel>, k: int)
    requires
        distinct_ids(entries),
        0 <= k < entries.len(),
    ensures
        entry_at(entries, entries[k].id) == k,
    decreases entries.len(),
{
    if k > 0 {
        assert(entries[0].id != entries[k].id);
        let rest = entries.drop_first();
        assert forall|i: int, j: int| 0 <= i < j < rest.len() implies (#[trigger] rest[i]).id != (
        #[trigger] rest[j]).id by {
            assert(rest[i] == entries[i + 1] && rest[j] == entries[j + 1]);
        }
        lemma_found(rest, k - 1);
    }
}

/// What a page hands out.
pub open spec fn page_contents(page: ReadPage) -> (ExecutionModel, Option<Seq<char>>) {
    (
        page.outcome@,
        match page.next {
            Some(next) => Some(next.token@),
            None => None,
        },
    )
}

/// The read that a cursor names in a store.
pub open spec fn read_at(store: StoreModel, token: Seq<char>) -> Option<PinnedModel> {
    match authenticated(store.signing_key, store.runtime_epoch, token) {
        Ok((id, _)) => {
            let at = entry_at(store.entries, id);
            if at < store.entries.len() {
                Some(store.entries[at])
            } else {
                None
            }
        },
        Err(_) => None,
    }
}

/// Whether a store has the read that a cursor names, whenever it was last accessed.
pub open spec fn still_pins(store: StoreModel, token: Seq<char>, read: PinnedModel) -> bool {
    match read_at(store, token) {
        Some(found) => found == (PinnedModel { last_access: found.last_access, ..read }),
        None => false,
    }
}

/// Whether stores sign their cursors alike.
pub open spec fn same_signer(left: StoreModel, right: StoreModel) -> bool {
    left.signing_key == right.signing_key && left.runtime_epoch == right.runtime_epoch
}

/// Whether a call was stopped: its operation was cancelled or its deadline passed.
pub open spec fn was_stopped(result: Result<ReadPage, ProviderError>) -> bool {
    match result {
        Ok(_) => false,
        Err(error) => is_stop(error),
    }
}

/// A call that gave a page gave that of the read which its cursor names, and left
/// the read pinned. No other read, no mutation, and no moment changes the page.
pub proof fn lemma_pages_come_from_their_read(
    result: Result<ReadPage, ProviderError>,
    before: StoreModel,
    after: StoreModel,
    token: Seq<char>,
)
    requires
        before.distinct(),
        turns(result, before, after, token),
        result is Ok,
    ensures
        after.distinct(),
        same_signer(before, after),
        read_at(after, token) is Some,
        still_pins(before, token, read_at(after, token)->0),
        authenticated(before.signing_key, before.runtime_epoch, token) is Ok,
        ({
            let (id, index) = authenticated(
                before.signing_key,
                before.runtime_epoch,
                token,
            )->Ok_0;
            let read = read_at(after, token)->0;
            &&& read.id == id
            &&& index <= read.results.len()
            &&& query_records(read.template) is Some
            &&& is_page(result->Ok_0, before.signing_key, before.runtime_epoch, read, index)
        }),
{
    let moment = choose|moment: u64|
        #![trigger before.pruned(moment as int)]
        pages(result, before, after, token, moment as int);
    lemma_page_read(result, before, after, token, moment as int);
}

proof fn lemma_page_read(
    result: Result<ReadPage, ProviderError>,
    before: StoreModel,
    after: StoreModel,
    token: Seq<char>,
    moment: int,
)
    requires
        before.distinct(),
        pages(result, before, after, token, moment),
        result is Ok,
    ensures
        after.distinct(),
        same_signer(before, after),
        read_at(after, token) is Some,
        still_pins(before, token, read_at(after, token)->0),
        ({
            let (id, index) = authenticated(
                before.signing_key,
                before.runtime_epoch,
                token,
            )->Ok_0;
            let read = read_at(after, token)->0;
            &&& read.id == id
            &&& index <= read.results.len()
            &&& query_records(read.template) is Some
            &&& is_page(result->Ok_0, before.signing_key, before.runtime_epoch, read, index)
        }),
{
    let (id, index) = authenticated(before.signing_key, before.runtime_epoch, token)->Ok_0;
    let pruned = before.pruned(moment);
    lemma_entry_at(pruned.entries, id);
    let at = entry_at(pruned.entries, id);
    lemma_store_stays_distinct(before, before.entries[0], 0, moment);
    lemma_store_stays_distinct(pruned, pruned.entries[at], at, moment);
    assert(after.entries[at].id == id);
    lemma_found(after.entries, at);
    let i = lemma_live_from(before.entries, moment, at);
    lemma_found(before.entries, i);
}

/// Reading a cursor again gives the same records, the same word on whether there is
/// more, the same generation, and the same next cursor, as long as its read was
/// neither released nor let expire. Whatever else happened to the store in between
/// does not matter.
pub proof fn lemma_reading_again_gives_the_same_page(
    first: Result<ReadPage, ProviderError>,
    second: Result<ReadPage, ProviderError>,
    before: StoreModel,
    between: StoreModel,
    later: StoreModel,
    after: StoreModel,
    token: Seq<char>,
)
    requires
        before.distinct(),
        turns(first, before, between, token),
        first is Ok,
        later.distinct(),
        same_signer(between, later),
        read_at(between, token) is Some,
        still_pins(later, token, read_at(between, token)->0),
        turns(second, later, after, token),
        !was_stopped(second),
        read_at(after, token) is Some,
    ensures
        second is Ok,
        page_contents(second->Ok_0) == page_contents(first->Ok_0),
{
    lemma_pages_come_from_their_read(first, before, between, token);
    let (id, index) = authenticated(before.signing_key, before.runtime_epoch, token)->Ok_0;
    let moment = choose|moment: u64|
        #![trigger later.pruned(moment as int)]
        pages(second, later, after, token, moment as int);
    let pruned = later.pruned(moment as int);
    lemma_entry_at(pruned.entries, id);
    let at = entry_at(pruned.entries, id);
    assert(at < pruned.entries.len());
    let i = lemma_live_from(later.entries, moment as int, at);
    lemma_found(later.entries, i);
    assert(read_at(later, token) == Some(pruned.entries[at]));
    lemma_page_read(second, later, after, token, moment as int);
}

/// The records of the first pages, one after the other.
pub open spec fn gathered(pages: Seq<ReadPage>, count: nat) -> Seq<JsonModel>
    decreases count,
{
    if count == 0 || count > pages.len() {
        Seq::empty()
    } else {
        gathered(pages, (count - 1) as nat) + query_records(pages[count - 1].outcome@.operation)->0
    }
}

/// Whether pages were read by following the cursors of one read: the first by its
/// first cursor, and each later one by the cursor that the page before it gave. The
/// stores are those before and after each call.
pub open spec fn follow_cursors(
    pages: Seq<ReadPage>,
    befores: Seq<StoreModel>,
    afters: Seq<StoreModel>,
    tokens: Seq<Seq<char>>,
    read: PinnedModel,
) -> bool {
    &&& pages.len() > 0
    &&& pages.len() == befores.len() == afters.len() == tokens.len()
    &&& tokens[0] == token_of(befores[0].signing_key, befores[0].runtime_epoch, read.id, 0)
    &&& forall|k: int|
        #![trigger pages[k]]
        0 <= k < pages.len() ==> {
            &&& befores[k].distinct()
            &&& same_signer(befores[0], befores[k])
            &&& turns(Ok(pages[k]), befores[k], afters[k], tokens[k])
            &&& still_pins(befores[k], tokens[k], read)
            &&& k + 1 < pages.len() ==> pages[k].next is Some && tokens[k + 1]
                == pages[k].next->0.token@
        }
}

/// Whether a read has the bounds of a machine and cursors that can be told apart: its
/// identifier is one of those that a store gives, and signatures have their length.
pub open spec fn has_cursors(key: Seq<u8>, epoch: Seq<char>, read: PinnedModel) -> bool {
    &&& !read.id.contains(':')
    &&& uuid_text(read.id) == Some(read.id)
    &&& read.results.len() <= u64::MAX
    &&& read.page_items >= 0
    &&& forall|index: u64| #[trigger]
        mac_of(key, encode_utf8(message_of(epoch, read.id, index as int))).len() == 64
}

/// Following the cursors from the first page on gives every result of the read once
/// and in order; there is no next cursor exactly on the page with the last result.
pub proof fn lemma_following_cursors_gives_every_record(
    pages: Seq<ReadPage>,
    befores: Seq<StoreModel>,
    afters: Seq<StoreModel>,
    tokens: Seq<Seq<char>>,
    read: PinnedModel,
    count: nat,
)
    requires
        follow_cursors(pages, befores, afters, tokens, read),
        has_cursors(befores[0].signing_key, befores[0].runtime_epoch, read),
        count <= pages.len(),
    ensures
        gathered(pages, count).len() <= read.results.len(),
        gathered(pages, count) == read.results.take(gathered(pages, count).len() as int),
        count > 0 ==> (pages[count - 1].next is None <==> gathered(pages, count) == read.results),
        0 < count < pages.len() ==> tokens[count as int] == token_of(
            befores[0].signing_key,
            befores[0].runtime_epoch,
            read.id,
            gathered(pages, count).len() as int,
        ),
    decreases count,
{
    if count > 0 {
        let k = count - 1;
        let key = befores[0].signing_key;
        let epoch = befores[0].runtime_epoch;
        lemma_following_cursors_gives_every_record(
            pages,
            befores,
            afters,
            tokens,
            read,
            k as nat,
        );
        let start = gathered(pages, k as nat).len();
        let page = pages[k];
        assert(tokens[k] == token_of(key, epoch, read.id, start as int));
        lemma_cursor_names_its_read(key, epoch, read.id, start as u64);
        lemma_pages_come_from_their_read(Ok(page), befores[k], afters[k], tokens[k]);
        let end = page_end(read.results.len() as int, start as int, read.page_items);
        let records = read.results.subrange(start as int, end);
        assert(query_records(page.outcome@.operation) == Some(records));
        assert(gathered(pages, count) =~= read.results.take(end));
        assert(read.results.take(read.results.len() as int) =~= read.results);
    } else {
        assert(read.results.take(0) =~= Seq::empty());
    }
}

/// A second release of a cursor changes nothing: it finds no read, and where the
/// first was refused it is refused alike.
pub proof fn lemma_second_release_changes_nothing(
    first: Result<bool, ProviderError>,
    second: Result<bool, ProviderError>,
    before: StoreModel,
    between: StoreModel,
    after: StoreModel,
    token: Seq<char>,
)
    requires
        before.distinct(),
        releases(first, before, between, token),
        releases(second, between, after, token),
    ensures
        after == between,
        match first {
            Ok(_) => second == Ok::<_, ProviderError>(false),
            Err(_) => second == first,
        },
{
    match authenticated(before.signing_key, before.runtime_epoch, token) {
        Err(_) => {},
        Ok((id, _)) => {
            lemma_entry_at(before.entries, id);
            let at = entry_at(before.entries, id);
            lemma_entry_at(between.entries, id);
            let again = entry_at(between.entries, id);
            if at < before.entries.len() && again < between.entries.len() {
                let other = if again < at {
                    again
                } else {
                    again + 1
                };
                assert(between.entries[again] == before.entries[other]);
                if other < at {
                    assert(before.entries[other].id != before.entries[at].id);
                } else {
                    assert(before.entries[at].id != before.entries[other].id);
                }
            }
        },
    }
}

} // verus!
