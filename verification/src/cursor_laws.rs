//! How long pinned reads live and what their pages hold.

use crate::canonical_operation::{OutcomeModel, ValueModel};
use crate::cursor::{
    authenticated, entry_at, is_expired, is_page, live, mac_of, message_of, opens, padded, page_end,
    page_size, pages, query_records, releases, token_of, with_records, PinnedModel, ReadPage,
    StoreModel, DEFAULT_PAGE_ITEMS, HARD_LIFETIME, IDLE_LEASE, MAX_ACTIVE_CURSORS, MAX_CURSOR_BYTES,
    MAX_PAGE_ITEMS,
};
use crate::digest::{hex, sha256};
use crate::json::{lemma_lookup_with_member, member_of, JsonModel};
use crate::provider_error::ProviderError;
use crate::resolutions::ExecutionModel;
use crate::text::split_on;
use vstd::prelude::*;
use vstd::utf8::encode_utf8;

verus! {

// ---------------------------------------------------------------------------
// Pages
// ---------------------------------------------------------------------------
/// A page has as many items as wanted, at least one and at most the most allowed; a
/// hundred where nothing is said.
pub proof fn lemma_page_sizes(wanted: Option<usize>)
    ensures
        1 <= page_size(wanted) <= MAX_PAGE_ITEMS,
        wanted is None ==> page_size(wanted) == DEFAULT_PAGE_ITEMS,
        wanted is Some && 1 <= wanted->0 <= MAX_PAGE_ITEMS ==> page_size(wanted) == wanted->0,
        wanted is Some && wanted->0 == 0 ==> page_size(wanted) == 1,
        wanted is Some && wanted->0 > MAX_PAGE_ITEMS ==> page_size(wanted) == MAX_PAGE_ITEMS,
{
}

/// A page ends after as many items as a page has, or at the end of the results.
pub proof fn lemma_page_ends(count: int, index: int, page_items: int)
    requires
        0 <= index <= count,
        1 <= page_items,
    ensures
        ({
            let end = page_end(count, index, page_items);
            &&& index <= end <= count
            &&& end - index <= page_items
            &&& end < count ==> end - index == page_items
            &&& index < count ==> end > index
        }),
{
}

/// Whether a query's outcome holds these records and says so of what follows, and is
/// else as another.
pub open spec fn holds_page(
    outcome: OutcomeModel,
    template: OutcomeModel,
    records: Seq<JsonModel>,
    more: bool,
) -> bool {
    match (outcome.value, template.value) {
        (ValueModel::Query(Some(query)), ValueModel::Query(Some(before))) => {
            &&& query.records == records
            &&& query.has_more == more
            &&& before.meta is Object ==> member_of(query.meta, "has_more"@) == Some(
                JsonModel::Bool(more),
            )
            &&& forall|key: Seq<char>|
                key != "has_more"@ ==> #[trigger] member_of(query.meta, key) == member_of(
                    before.meta,
                    key,
                )
        },
        _ => false,
    }
}

/// Filling a query's outcome with records sets just its records and whether more follow.
pub proof fn lemma_records_are_filled_in(
    outcome: OutcomeModel,
    records: Seq<JsonModel>,
    more: bool,
)
    ensures
        query_records(outcome) is Some ==> holds_page(
            with_records(outcome, records, more),
            outcome,
            records,
            more,
        ) && query_records(with_records(outcome, records, more)) == Some(records),
        query_records(outcome) is None ==> with_records(outcome, records, more) == outcome,
{
    if let ValueModel::Query(Some(query)) = outcome.value {
        if let JsonModel::Object(members) = query.meta {
            assert forall|key: Seq<char>| #[trigger]
                crate::json::lookup(
                    crate::json::with_member(members, "has_more"@, JsonModel::Bool(more)),
                    key,
                ) == if key == "has_more"@ {
                    Some(JsonModel::Bool(more))
                } else {
                    crate::json::lookup(members, key)
                } by {
                lemma_lookup_with_member(members, "has_more"@, JsonModel::Bool(more), key);
            }
        }
    }
}

/// A page holds the results from its place on, no more than a page may hold, and leads
/// on exactly where results follow.
pub proof fn lemma_pages_hold_their_part(
    page: ReadPage,
    key: Seq<u8>,
    epoch: Seq<char>,
    entry: PinnedModel,
    index: int,
)
    requires
        is_page(page, key, epoch, entry, index),
        0 <= index <= entry.results.len(),
        1 <= entry.page_items,
        query_records(entry.template) is Some,
    ensures
        ({
            let records = query_records(page.outcome@.operation);
            let left = entry.results.len() - index;
            &&& records is Some
            &&& records->0.len() == if left < entry.page_items {
                left
            } else {
                entry.page_items
            }
            &&& forall|i: int|
                0 <= i < records->0.len() ==> #[trigger] records->0[i] == entry.results[index + i]
            &&& page.next is Some <==> left > entry.page_items
            &&& page.next is Some ==> page.next->0.token@ == token_of(
                key,
                epoch,
                entry.id,
                index + entry.page_items,
            )
            &&& page.outcome@.generation == entry.generation
        }),
{
    let end = page_end(entry.results.len() as int, index, entry.page_items);
    lemma_page_ends(entry.results.len() as int, index, entry.page_items);
    lemma_records_are_filled_in(
        entry.template,
        entry.results.subrange(index, end),
        end < entry.results.len(),
    );
}

/// Opening a query with no more results than a page holds pins nothing and gives them
/// all; opening one with more gives the first page and a place to go on from.
pub proof fn lemma_opened_reads(
    result: Result<ReadPage, ProviderError>,
    before: StoreModel,
    after: StoreModel,
    outcome: ExecutionModel,
    wanted: Option<usize>,
    limit: u64,
)
    requires
        opens(result, before, after, outcome, wanted, limit),
        result is Ok,
        query_records(outcome.operation) is Some,
    ensures
        ({
            let all = query_records(outcome.operation)->0;
            let given = query_records(result->Ok_0.outcome@.operation);
            &&& given is Some
            &&& result->Ok_0.next is Some <==> all.len() > page_size(wanted)
            &&& all.len() <= page_size(wanted) ==> given->0 == all
            &&& all.len() > page_size(wanted) ==> given->0 == all.take(page_size(wanted))
            &&& result->Ok_0.outcome@.generation == outcome.generation
        }),
{
    let all = query_records(outcome.operation)->0;
    lemma_records_are_filled_in(outcome.operation, all, false);
    lemma_records_are_filled_in(outcome.operation, Seq::empty(), true);
    lemma_records_are_filled_in(
        with_records(outcome.operation, Seq::empty(), true),
        all.take(page_size(wanted)),
        true,
    );
}

// ---------------------------------------------------------------------------
// Lives
// ---------------------------------------------------------------------------
/// A read is dropped once it was left alone for the lease or has existed for its whole
/// life, not before; and once it is dropped it stays so.
pub proof fn lemma_reads_expire(entry: PinnedModel, moment: int, later: int)
    requires
        moment <= later,
    ensures
        is_expired(entry, moment) <==> moment >= entry.last_access + IDLE_LEASE || moment
            >= entry.created + HARD_LIFETIME,
        is_expired(entry, moment) ==> is_expired(entry, later),
        !is_expired(entry, moment) <==> moment < entry.last_access + IDLE_LEASE && moment
            < entry.created + HARD_LIFETIME,
        HARD_LIFETIME == 10 * IDLE_LEASE,
{
}

/// Pruning keeps just the reads that have not expired, and neither the key nor the
/// epoch changes.
pub proof fn lemma_pruning_keeps_live_reads(store: StoreModel, moment: int, entry: PinnedModel)
    ensures
        store.pruned(moment).entries.contains(entry) <==> store.entries.contains(entry)
            && !is_expired(entry, moment),
        store.pruned(moment).signing_key == store.signing_key,
        store.pruned(moment).runtime_epoch == store.runtime_epoch,
{
    lemma_live_reads(store.entries, moment, entry);
}

proof fn lemma_live_reads(entries: Seq<PinnedModel>, moment: int, entry: PinnedModel)
    ensures
        live(entries, moment).contains(entry) <==> entries.contains(entry) && !is_expired(
            entry,
            moment,
        ),
    decreases entries.len(),
{
    if entries.len() > 0 {
        let front = entries.drop_last();
        lemma_live_reads(front, moment, entry);
        lemma_pushed(front, entries.last(), entry);
        assert(front.push(entries.last()) =~= entries);
        lemma_pushed(live(front, moment), entries.last(), entry);
    }
}

proof fn lemma_pushed(values: Seq<PinnedModel>, last: PinnedModel, value: PinnedModel)
    ensures
        values.push(last).contains(value) <==> values.contains(value) || value == last,
{
    let all = values.push(last);
    if values.contains(value) {
        let i = choose|i: int| 0 <= i < values.len() && values[i] == value;
        assert(all[i] == value);
    }
    if value == last {
        assert(all[values.len() as int] == value);
    }
    if all.contains(value) {
        let i = choose|i: int| 0 <= i < all.len() && all[i] == value;
        if i < values.len() {
            assert(values[i] == value);
        }
    }
}

/// Where a read is among the entries.
pub proof fn lemma_entries_are_found(entries: Seq<PinnedModel>, id: Seq<char>)
    ensures
        0 <= entry_at(entries, id) <= entries.len(),
        entry_at(entries, id) < entries.len() ==> entries[entry_at(entries, id)].id == id,
        entry_at(entries, id) == entries.len() <==> forall|i: int|
            0 <= i < entries.len() ==> (#[trigger] entries[i]).id != id,
    decreases entries.len(),
{
    if entries.len() > 0 && entries[0].id != id {
        let rest = entries.drop_first();
        lemma_entries_are_found(rest, id);
        if entry_at(entries, id) == entries.len() {
            assert forall|i: int| 0 <= i < entries.len() implies (#[trigger] entries[i]).id
                != id by {
                if i > 0 {
                    assert(rest[i - 1].id != id);
                }
            }
        }
    }
}

/// Releasing a cursor that is accepted drops just its read, and says whether there was
/// one; a page of it is then no longer to be had.
pub proof fn lemma_released_reads_are_gone(
    result: Result<bool, ProviderError>,
    before: StoreModel,
    after: StoreModel,
    token: Seq<char>,
    page: Result<ReadPage, ProviderError>,
    last: StoreModel,
    moment: int,
)
    requires
        before.distinct(),
        releases(result, before, after, token),
        result is Ok,
        pages(page, after, last, token, moment),
    ensures
        authenticated(before.signing_key, before.runtime_epoch, token) is Ok,
        ({
            let id = authenticated(before.signing_key, before.runtime_epoch, token)->Ok_0.0;
            &&& result->Ok_0 <==> exists|i: int|
                0 <= i < before.entries.len() && (#[trigger] before.entries[i]).id == id
            &&& forall|i: int| 0 <= i < after.entries.len() ==> (#[trigger] after.entries[i]).id != id
            &&& forall|i: int|
                0 <= i < before.entries.len() && (#[trigger] before.entries[i]).id != id
                    ==> after.entries.contains(before.entries[i])
            &&& !result->Ok_0 ==> after == before
        }),
        page == Err::<ReadPage, _>(ProviderError::GenerationExpired),
{
    let id = authenticated(before.signing_key, before.runtime_epoch, token)->Ok_0.0;
    let at = entry_at(before.entries, id);
    lemma_entries_are_found(before.entries, id);
    if at < before.entries.len() {
        assert(before.entries[at].id == id);
        assert forall|i: int| 0 <= i < after.entries.len() implies (
        #[trigger] after.entries[i]).id != id by {
            if i < at {
                assert(after.entries[i] == before.entries[i]);
            } else {
                assert(after.entries[i] == before.entries[i + 1]);
            }
        }
        assert forall|i: int|
            0 <= i < before.entries.len() && (#[trigger] before.entries[i]).id
                != id implies after.entries.contains(before.entries[i]) by {
            if i < at {
                assert(after.entries[i] == before.entries[i]);
            } else {
                assert(after.entries[i - 1] == before.entries[i]);
            }
        }
    } else {
        assert forall|i: int|
            0 <= i < before.entries.len() && (#[trigger] before.entries[i]).id
                != id implies after.entries.contains(before.entries[i]) by {
            assert(after.entries[i] == before.entries[i]);
        }
    }
    let pruned = after.pruned(moment);
    assert forall|i: int| 0 <= i < pruned.entries.len() implies (
    #[trigger] pruned.entries[i]).id != id by {
        lemma_pruning_keeps_live_reads(after, moment, pruned.entries[i]);
        assert(pruned.entries.contains(pruned.entries[i]));
        let k = choose|k: int| 0 <= k < after.entries.len() && after.entries[k]
            == pruned.entries[i];
        assert(after.entries[k].id != id);
    }
    lemma_entries_are_found(pruned.entries, id);
}

/// A page is given only of a read that has not expired, and renews its lease; the read
/// keeps its results and its birth.
pub proof fn lemma_paged_reads_are_live(
    result: Result<ReadPage, ProviderError>,
    before: StoreModel,
    after: StoreModel,
    token: Seq<char>,
    moment: int,
)
    requires
        pages(result, before, after, token, moment),
        result is Ok,
    ensures
        authenticated(before.signing_key, before.runtime_epoch, token) is Ok,
        ({
            let (id, index) = authenticated(
                before.signing_key,
                before.runtime_epoch,
                token,
            )->Ok_0;
            exists|read: PinnedModel|
                {
                    &&& #[trigger] before.entries.contains(read)
                    &&& read.id == id
                    &&& !is_expired(read, moment)
                    &&& index <= read.results.len()
                    &&& after.entries.contains(PinnedModel { last_access: moment, ..read })
                }
        }),
{
    let (id, index) = authenticated(before.signing_key, before.runtime_epoch, token)->Ok_0;
    let pruned = before.pruned(moment);
    let at = entry_at(pruned.entries, id);
    lemma_entries_are_found(pruned.entries, id);
    let read = pruned.entries[at];
    assert(pruned.entries.contains(read));
    lemma_pruning_keeps_live_reads(before, moment, read);
    assert(after.entries[at] == (PinnedModel { last_access: moment, ..read }));
}

/// There is room for a read exactly where one more is allowed and its bytes fit beside
/// those of the others.
pub proof fn lemma_room(store: StoreModel, bytes: int)
    ensures
        store.has_room(bytes) <==> store.entries.len() + 1 <= MAX_ACTIVE_CURSORS
            && store.retained_bytes + bytes <= MAX_CURSOR_BYTES,
{
}

// ---------------------------------------------------------------------------
// Tokens
// ---------------------------------------------------------------------------
/// A token is accepted only where it is of the first version and of this epoch, and
/// carries the code that the key gives to what it names; a token of another epoch has
/// expired.
pub proof fn lemma_accepted_tokens(key: Seq<u8>, epoch: Seq<char>, token: Seq<char>)
    ensures
        match authenticated(key, epoch, token) {
            Ok((id, index)) => {
                let parts = split_on(token, ':');
                &&& parts.len() == 5
                &&& parts[0] == "v1"@
                &&& parts[1] == epoch
                &&& parts[2] == id
                &&& crate::text::parsed_decimal(parts[3]) == Some(index)
                &&& encode_utf8(parts[4]) == encode_utf8(
                    mac_of(key, encode_utf8(message_of(epoch, id, index))),
                )
            },
            Err(error) => {
                let parts = split_on(token, ':');
                &&& error == ProviderError::InvalidReadCursor || error
                    == ProviderError::GenerationExpired
                &&& error == ProviderError::GenerationExpired ==> parts.len() == 5 && parts[1]
                    != epoch
            },
        },
{
}

/// The code of a message: the digest of the key's outer block and the digest of its inner
/// block and the message.
pub proof fn lemma_codes_of_messages(
    key: Seq<u8>,
    message: Seq<u8>,
    inner: Seq<u8>,
    outer: Seq<u8>,
)
    requires
        key.len() == 32,
        inner.len() == 64,
        outer.len() == 64,
        forall|i: int| 0 <= i < 32 ==> #[trigger] inner[i] == key[i] ^ 0x36,
        forall|i: int| 32 <= i < 64 ==> #[trigger] inner[i] == 0x36,
        forall|i: int| 0 <= i < 32 ==> #[trigger] outer[i] == key[i] ^ 0x5c,
        forall|i: int| 32 <= i < 64 ==> #[trigger] outer[i] == 0x5c,
    ensures
        mac_of(key, message) == hex(sha256(outer + sha256(inner + message))),
{
    assert forall|i: int| 0 <= i < 64 implies #[trigger] padded(key, 0x36)[i] == inner[i] by {
        if i < 32 {
            let k = key[i];
            assert(k ^ 0x36 == 0x36 ^ k) by (bit_vector);
        }
    }
    assert forall|i: int| 0 <= i < 64 implies #[trigger] padded(key, 0x5c)[i] == outer[i] by {
        if i < 32 {
            let k = key[i];
            assert(k ^ 0x5c == 0x5c ^ k) by (bit_vector);
        }
    }
    assert(padded(key, 0x36) =~= inner);
    assert(padded(key, 0x5c) =~= outer);
}

} // verus!
