//! Canonical changes of a collection and their order.

use crate::provider_error::ProviderError;
use crate::text::{
    ascending_texts, copy_optional, copy_texts, insert_text, is_sorted_set, lemma_sorted_set_unique,
    lemma_text_order_equal, lemma_text_order_reverse, lemma_text_order_transitive, optional_text,
    same_text, sorted_distinct, text_order, texts, Order,
};
use vstd::prelude::*;

verus! {

#[derive(Clone, Copy, Debug, PartialEq, Eq, Structural)]
pub enum RecordChangeKind {
    Created,
    Updated,
    Deleted,
    Renamed,
}

#[derive(Clone, Copy, Debug, PartialEq, Eq, Structural)]
pub enum ResourceChangeKind {
    Configuration,
    TypeDefinition,
    Contract,
    ViewSource,
    File,
}

#[derive(Clone, Copy, Debug, PartialEq, Eq, Structural)]
pub enum RebuildReason {
    ExternalChangeUncertain,
}

#[derive(Clone, Copy, Debug, PartialEq, Eq, Structural)]
pub enum ChangeOrigin {
    KnownMutation,
    RecoveryReconciliation,
    Filesystem,
}

/// A text in its place in an ascending list, once.
pub open spec fn inserted(values: Seq<Seq<char>>, value: Seq<char>) -> Seq<Seq<char>>
    decreases values.len(),
{
    if values.len() == 0 {
        seq![value]
    } else {
        match text_order(value, values[0]) {
            Order::Less => seq![value] + values,
            Order::Equal => values,
            Order::Greater => seq![values[0]] + inserted(values.drop_first(), value),
        }
    }
}

/// The texts of a list, each once and in ascending order.
pub open spec fn sorted_set(values: Seq<Seq<char>>) -> Seq<Seq<char>>
    decreases values.len(),
{
    if values.len() == 0 {
        Seq::empty()
    } else {
        inserted(sorted_set(values.drop_last()), values.last())
    }
}

/// Inserting into ascending texts keeps them ascending and adds just the one text.
pub proof fn lemma_inserted(values: Seq<Seq<char>>, value: Seq<char>)
    requires
        ascending_texts(values),
    ensures
        ascending_texts(inserted(values, value)),
        forall|text: Seq<char>| #[trigger]
            inserted(values, value).contains(text) <==> values.contains(text) || text == value,
    decreases values.len(),
{
    let result = inserted(values, value);
    if values.len() == 0 {
        assert(result[0] == value);
    } else {
        lemma_text_order_equal(value, values[0]);
        lemma_text_order_reverse(value, values[0]);
        let rest = values.drop_first();
        assert forall|i: int, j: int| 0 <= i < j < rest.len() implies text_order(
            #[trigger] rest[i],
            #[trigger] rest[j],
        ) == Order::Less by {
            assert(rest[i] == values[i + 1] && rest[j] == values[j + 1]);
        }
        match text_order(value, values[0]) {
            Order::Less => {
                assert forall|i: int, j: int| 0 <= i < j < result.len() implies text_order(
                    #[trigger] result[i],
                    #[trigger] result[j],
                ) == Order::Less by {
                    assert(result[j] == values[j - 1]);
                    if i > 0 {
                        assert(result[i] == values[i - 1]);
                    } else if j > 1 {
                        lemma_text_order_transitive(value, values[0], values[j - 1]);
                    }
                }
                assert forall|text: Seq<char>| #[trigger]
                    result.contains(text) <==> values.contains(text) || text == value by {
                    assert(result[0] == value);
                    if values.contains(text) {
                        let k = choose|k: int| 0 <= k < values.len() && values[k] == text;
                        assert(result[k + 1] == text);
                    }
                    if result.contains(text) {
                        let k = choose|k: int| 0 <= k < result.len() && result[k] == text;
                        if k > 0 {
                            assert(values[k - 1] == text);
                        }
                    }
                }
            },
            Order::Equal => {
                assert(values.contains(values[0]));
            },
            Order::Greater => {
                lemma_inserted(rest, value);
                let tail = inserted(rest, value);
                assert forall|i: int, j: int| 0 <= i < j < result.len() implies text_order(
                    #[trigger] result[i],
                    #[trigger] result[j],
                ) == Order::Less by {
                    assert(result[j] == tail[j - 1]);
                    if i > 0 {
                        assert(result[i] == tail[i - 1]);
                    } else {
                        assert(tail.contains(tail[j - 1]));
                        if tail[j - 1] != value {
                            let k = choose|k: int| 0 <= k < rest.len() && rest[k] == tail[j - 1];
                            assert(values[k + 1] == tail[j - 1]);
                        }
                    }
                }
                assert forall|text: Seq<char>| #[trigger]
                    result.contains(text) <==> values.contains(text) || text == value by {
                    assert(tail.contains(text) <==> rest.contains(text) || text == value);
                    if tail.contains(text) {
                        let k = choose|k: int| 0 <= k < tail.len() && tail[k] == text;
                        assert(result[k + 1] == text);
                    }
                    if text == values[0] {
                        assert(result[0] == text);
                        assert(values.contains(text));
                    }
                    if rest.contains(text) {
                        let k = choose|k: int| 0 <= k < rest.len() && rest[k] == text;
                        assert(values[k + 1] == text);
                    }
                    if values.contains(text) && text != values[0] {
                        let k = choose|k: int| 0 <= k < values.len() && values[k] == text;
                        assert(rest[k - 1] == text);
                    }
                    if result.contains(text) {
                        let k = choose|k: int| 0 <= k < result.len() && result[k] == text;
                        if k > 0 {
                            assert(tail[k - 1] == text);
                        }
                    }
                }
            },
        }
    }
}

/// The sorted set of a list has its texts.
pub proof fn lemma_sorted_set_holds(values: Seq<Seq<char>>)
    ensures
        is_sorted_set(sorted_set(values), values),
    decreases values.len(),
{
    if values.len() > 0 {
        let front = values.drop_last();
        lemma_sorted_set_holds(front);
        lemma_inserted(sorted_set(front), values.last());
        assert forall|text: Seq<char>| #[trigger]
            sorted_set(values).contains(text) <==> values.contains(text) by {
            assert(sorted_set(front).contains(text) <==> front.contains(text));
            if front.contains(text) {
                let k = choose|k: int| 0 <= k < front.len() && front[k] == text;
                assert(values[k] == text);
            }
            if values.contains(text) && text != values.last() {
                let k = choose|k: int| 0 <= k < values.len() && values[k] == text;
                assert(front[k] == text);
            }
            assert(values[values.len() - 1] == values.last());
        }
    }
}

/// A sorted set is determined by the texts in it.
pub proof fn lemma_sorted_set(set: Seq<Seq<char>>, values: Seq<Seq<char>>)
    requires
        is_sorted_set(set, values),
    ensures
        sorted_set(values) == set,
{
    lemma_sorted_set_holds(values);
    let known = sorted_set(values);
    assert forall|text: Seq<char>| #[trigger] known.contains(text) <==> set.contains(text) by {
        assert(values.contains(text) <==> set.contains(text));
    }
    lemma_sorted_set_unique(known, set);
}

/// Adds a text to an ascending list, unless it is there.
pub fn insert_sorted(list: &mut Vec<String>, value: &str)
    requires
        ascending_texts(texts(old(list)@)),
    ensures
        texts(final(list)@) == inserted(texts(old(list)@), value@),
        ascending_texts(texts(final(list)@)),
{
    let ghost before = texts(list@);
    insert_text(list, value.to_owned());
    proof {
        lemma_inserted(before, value@);
        let after = texts(list@);
        let expected = inserted(before, value@);
        assert forall|text: Seq<char>| #[trigger]
            after.contains(text) <==> expected.contains(text) by {
            assert(expected.contains(text) <==> before.contains(text) || text == value@);
        }
        lemma_sorted_set_unique(after, expected);
    }
}

pub fn sorted_texts(values: &Vec<String>) -> (result: Vec<String>)
    ensures
        texts(result@) == sorted_set(texts(values@)),
{
    let result = sorted_distinct(values);
    proof {
        lemma_sorted_set(texts(result@), texts(values@));
    }
    result
}

/// A change of one record.
#[derive(Debug, PartialEq, Eq)]
pub struct RecordChange {
    pub kind: RecordChangeKind,
    pub path: String,
    pub from: Option<String>,
    pub before_revision: Option<String>,
    pub after_revision: Option<String>,
    pub before_types: Vec<String>,
    pub after_types: Vec<String>,
    pub changed_fields: Vec<String>,
    pub body_changed: bool,
}

/// A change of one resource beside the records.
#[derive(Debug, PartialEq, Eq)]
pub struct ResourceChange {
    pub kind: ResourceChangeKind,
    pub path: String,
    pub before_revision: Option<String>,
    pub after_revision: Option<String>,
}

#[derive(Debug, PartialEq, Eq)]
pub enum CanonicalChange {
    Record(RecordChange),
    Resource(ResourceChange),
}

pub struct RecordChangeModel {
    pub kind: RecordChangeKind,
    pub path: Seq<char>,
    pub from: Option<Seq<char>>,
    pub before_revision: Option<Seq<char>>,
    pub after_revision: Option<Seq<char>>,
    pub before_types: Seq<Seq<char>>,
    pub after_types: Seq<Seq<char>>,
    pub changed_fields: Seq<Seq<char>>,
    pub body_changed: bool,
}

pub struct ResourceChangeModel {
    pub kind: ResourceChangeKind,
    pub path: Seq<char>,
    pub before_revision: Option<Seq<char>>,
    pub after_revision: Option<Seq<char>>,
}

pub enum ChangeModel {
    Record(RecordChangeModel),
    Resource(ResourceChangeModel),
}

impl View for RecordChange {
    type V = RecordChangeModel;

    open spec fn view(&self) -> RecordChangeModel {
        RecordChangeModel {
            kind: self.kind,
            path: self.path@,
            from: optional_text(self.from),
            before_revision: optional_text(self.before_revision),
            after_revision: optional_text(self.after_revision),
            before_types: texts(self.before_types@),
            after_types: texts(self.after_types@),
            changed_fields: texts(self.changed_fields@),
            body_changed: self.body_changed,
        }
    }
}

impl View for ResourceChange {
    type V = ResourceChangeModel;

    open spec fn view(&self) -> ResourceChangeModel {
        ResourceChangeModel {
            kind: self.kind,
            path: self.path@,
            before_revision: optional_text(self.before_revision),
            after_revision: optional_text(self.after_revision),
        }
    }
}

impl View for CanonicalChange {
    type V = ChangeModel;

    open spec fn view(&self) -> ChangeModel {
        match self {
            CanonicalChange::Record(change) => ChangeModel::Record(change@),
            CanonicalChange::Resource(change) => ChangeModel::Resource(change@),
        }
    }
}

/// What a list of changes holds.
pub open spec fn change_models(changes: Seq<CanonicalChange>) -> Seq<ChangeModel> {
    Seq::new(changes.len(), |i: int| changes[i]@)
}

/// Whether two optional texts are equal.
pub fn same_optional(left: &Option<String>, right: &Option<String>) -> (result: bool)
    ensures
        result == (optional_text(*left) == optional_text(*right)),
{
    match (left, right) {
        (Some(left), Some(right)) => same_text(left.as_str(), right.as_str()),
        (None, None) => true,
        _ => false,
    }
}

/// Whether two lists of texts are equal.
pub fn same_texts(left: &Vec<String>, right: &Vec<String>) -> (result: bool)
    ensures
        result == (texts(left@) == texts(right@)),
{
    if left.len() != right.len() {
        proof {
            assert(texts(left@).len() != texts(right@).len());
        }
        return false;
    }
    let mut i: usize = 0;
    while i < left.len()
        invariant
            i <= left@.len(),
            left@.len() == right@.len(),
            forall|k: int| 0 <= k < i ==> (#[trigger] left@[k])@ == right@[k]@,
        decreases left@.len() - i,
    {
        if !same_text(left[i].as_str(), right[i].as_str()) {
            proof {
                assert(texts(left@)[i as int] != texts(right@)[i as int]);
            }
            return false;
        }
        i = i + 1;
    }
    proof {
        assert(texts(left@) =~= texts(right@));
    }
    true
}

impl RecordChange {
    pub fn copy(&self) -> (result: RecordChange)
        ensures
            result@ == self@,
    {
        RecordChange {
            kind: self.kind,
            path: self.path.clone(),
            from: copy_optional(&self.from),
            before_revision: copy_optional(&self.before_revision),
            after_revision: copy_optional(&self.after_revision),
            before_types: copy_texts(&self.before_types),
            after_types: copy_texts(&self.after_types),
            changed_fields: copy_texts(&self.changed_fields),
            body_changed: self.body_changed,
        }
    }

    pub fn same(&self, other: &RecordChange) -> (result: bool)
        ensures
            result == (self@ == other@),
    {
        self.kind == other.kind && same_text(self.path.as_str(), other.path.as_str())
            && same_optional(&self.from, &other.from) && same_optional(
            &self.before_revision,
            &other.before_revision,
        ) && same_optional(&self.after_revision, &other.after_revision) && same_texts(
            &self.before_types,
            &other.before_types,
        ) && same_texts(&self.after_types, &other.after_types) && same_texts(
            &self.changed_fields,
            &other.changed_fields,
        ) && self.body_changed == other.body_changed
    }
}

impl ResourceChange {
    pub fn copy(&self) -> (result: ResourceChange)
        ensures
            result@ == self@,
    {
        ResourceChange {
            kind: self.kind,
            path: self.path.clone(),
            before_revision: copy_optional(&self.before_revision),
            after_revision: copy_optional(&self.after_revision),
        }
    }

    pub fn same(&self, other: &ResourceChange) -> (result: bool)
        ensures
            result == (self@ == other@),
    {
        self.kind == other.kind && same_text(self.path.as_str(), other.path.as_str())
            && same_optional(&self.before_revision, &other.before_revision) && same_optional(
            &self.after_revision,
            &other.after_revision,
        )
    }
}

impl CanonicalChange {
    pub fn copy(&self) -> (result: CanonicalChange)
        ensures
            result@ == self@,
    {
        match self {
            CanonicalChange::Record(change) => CanonicalChange::Record(change.copy()),
            CanonicalChange::Resource(change) => CanonicalChange::Resource(change.copy()),
        }
    }

    pub fn same(&self, other: &CanonicalChange) -> (result: bool)
        ensures
            result == (self@ == other@),
    {
        match (self, other) {
            (CanonicalChange::Record(left), CanonicalChange::Record(right)) => left.same(right),
            (CanonicalChange::Resource(left), CanonicalChange::Resource(right)) => left.same(
                right,
            ),
            _ => false,
        }
    }
}

pub fn copy_changes(changes: &Vec<CanonicalChange>) -> (result: Vec<CanonicalChange>)
    ensures
        change_models(result@) == change_models(changes@),
{
    let mut result: Vec<CanonicalChange> = Vec::new();
    let mut i: usize = 0;
    while i < changes.len()
        invariant
            i <= changes@.len(),
            result@.len() == i,
            forall|k: int| 0 <= k < i ==> (#[trigger] result@[k])@ == changes@[k]@,
        decreases changes@.len() - i,
    {
        result.push(changes[i].copy());
        i = i + 1;
    }
    proof {
        assert(change_models(result@) =~= change_models(changes@));
    }
    result
}

/// Whether a change is among others.
pub fn lists_change(changes: &Vec<CanonicalChange>, change: &CanonicalChange) -> (result: bool)
    ensures
        result == change_models(changes@).contains(change@),
{
    let mut i: usize = 0;
    while i < changes.len()
        invariant
            i <= changes@.len(),
            forall|k: int| 0 <= k < i ==> (#[trigger] change_models(changes@)[k]) != change@,
        decreases changes@.len() - i,
    {
        proof {
            assert(change_models(changes@)[i as int] == changes@[i as int]@);
        }
        if changes[i].same(change) {
            return true;
        }
        i = i + 1;
    }
    false
}

/// What an operation or observation changed.
#[derive(Debug, PartialEq, Eq)]
pub enum ChangeSet {
    Nothing,
    Exact(Vec<CanonicalChange>),
    CollectionWide { reason: RebuildReason },
}

pub enum ChangeSetModel {
    Nothing,
    Exact(Seq<ChangeModel>),
    CollectionWide { reason: RebuildReason },
}

impl View for ChangeSet {
    type V = ChangeSetModel;

    open spec fn view(&self) -> ChangeSetModel {
        match self {
            ChangeSet::Nothing => ChangeSetModel::Nothing,
            ChangeSet::Exact(changes) => ChangeSetModel::Exact(change_models(changes@)),
            ChangeSet::CollectionWide { reason } => ChangeSetModel::CollectionWide {
                reason: *reason,
            },
        }
    }
}

impl ChangeSet {
    pub fn copy(&self) -> (result: ChangeSet)
        ensures
            result@ == self@,
    {
        match self {
            ChangeSet::Nothing => ChangeSet::Nothing,
            ChangeSet::Exact(changes) => ChangeSet::Exact(copy_changes(changes)),
            ChangeSet::CollectionWide { reason } => ChangeSet::CollectionWide { reason: *reason },
        }
    }
}

/// A generation of a collection: a process epoch and a position in it.
#[derive(Debug, PartialEq, Eq)]
pub struct CollectionGeneration {
    pub runtime_epoch: String,
    pub sequence: u64,
}

pub struct GenerationModel {
    pub runtime_epoch: Seq<char>,
    pub sequence: int,
}

impl View for CollectionGeneration {
    type V = GenerationModel;

    open spec fn view(&self) -> GenerationModel {
        GenerationModel { runtime_epoch: self.runtime_epoch@, sequence: self.sequence as int }
    }
}

impl GenerationModel {
    /// The generation that follows.
    pub open spec fn next(self) -> GenerationModel {
        GenerationModel { sequence: self.sequence + 1, ..self }
    }

    /// The generation after a committed one is known: the later of the two in one
    /// epoch, and the next one where the commit belongs to another.
    pub open spec fn advanced(self, committed: GenerationModel) -> GenerationModel {
        if committed.runtime_epoch == self.runtime_epoch {
            if committed.sequence > self.sequence {
                committed
            } else {
                self
            }
        } else {
            self.next()
        }
    }
}

impl CollectionGeneration {
    pub fn copy(&self) -> (result: CollectionGeneration)
        ensures
            result@ == self@,
    {
        CollectionGeneration {
            runtime_epoch: self.runtime_epoch.clone(),
            sequence: self.sequence,
        }
    }

    pub fn successor(&self) -> (result: Result<CollectionGeneration, ProviderError>)
        ensures
            match result {
                Ok(next) => next@ == self@.next(),
                Err(error) => error == ProviderError::GenerationExhausted && self.sequence
                    == u64::MAX,
            },
    {
        match self.sequence.checked_add(1) {
            Some(sequence) => Ok(
                CollectionGeneration { runtime_epoch: self.runtime_epoch.clone(), sequence },
            ),
            None => Err(ProviderError::GenerationExhausted),
        }
    }

    /// The generation after a committed one is known.
    pub fn advance(&self, committed: &CollectionGeneration) -> (result: Result<
        CollectionGeneration,
        ProviderError,
    >)
        ensures
            match result {
                Ok(next) => next@ == self@.advanced(committed@),
                Err(error) => error == ProviderError::GenerationExhausted && self.sequence
                    == u64::MAX && self.runtime_epoch@ != committed.runtime_epoch@,
            },
    {
        if same_text(committed.runtime_epoch.as_str(), self.runtime_epoch.as_str()) {
            if committed.sequence > self.sequence {
                Ok(committed.copy())
            } else {
                Ok(self.copy())
            }
        } else {
            self.successor()
        }
    }
}

/// Generations never go back.
pub proof fn lemma_generations_advance(current: GenerationModel, committed: GenerationModel)
    ensures
        current.advanced(committed).runtime_epoch == current.runtime_epoch,
        current.advanced(committed).sequence >= current.sequence,
        committed.runtime_epoch == current.runtime_epoch ==> current.advanced(committed).sequence
            >= committed.sequence,
{
}

} // verus!
