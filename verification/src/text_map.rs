//! Maps from texts to texts, ordered by key.

use crate::text::{
    compare_text, lemma_text_order_equal, lemma_text_order_reverse, lemma_text_order_transitive,
    optional_text, same_text, text_order, texts, Order,
};
use vstd::prelude::*;

verus! {

/// The entries of a map in ascending order of their keys.
pub type TextEntries = Seq<(Seq<char>, Seq<char>)>;

/// The value of a key.
pub open spec fn value_at(entries: TextEntries, key: Seq<char>) -> Option<Seq<char>>
    decreases entries.len(),
{
    if entries.len() == 0 {
        None
    } else if entries[0].0 == key {
        Some(entries[0].1)
    } else {
        value_at(entries.drop_first(), key)
    }
}

/// The entries with one added, or with the value of its key replaced.
pub open spec fn with_entry(entries: TextEntries, key: Seq<char>, value: Seq<char>) -> TextEntries
    decreases entries.len(),
{
    if entries.len() == 0 {
        seq![(key, value)]
    } else {
        match text_order(key, entries[0].0) {
            Order::Less => seq![(key, value)] + entries,
            Order::Equal => seq![(key, value)] + entries.drop_first(),
            Order::Greater => seq![entries[0]] + with_entry(entries.drop_first(), key, value),
        }
    }
}

/// The entries without that of a key.
pub open spec fn without_entry(entries: TextEntries, key: Seq<char>) -> TextEntries
    decreases entries.len(),
{
    if entries.len() == 0 {
        entries
    } else if entries[0].0 == key {
        entries.drop_first()
    } else {
        seq![entries[0]] + without_entry(entries.drop_first(), key)
    }
}

/// The map from values to keys. Of two keys with one value the later one counts.
pub open spec fn inverted(entries: TextEntries) -> TextEntries
    decreases entries.len(),
{
    if entries.len() == 0 {
        Seq::empty()
    } else {
        with_entry(inverted(entries.drop_last()), entries.last().1, entries.last().0)
    }
}

/// The keys of a map.
pub open spec fn keys_of(entries: TextEntries) -> Seq<Seq<char>> {
    Seq::new(entries.len(), |i: int| entries[i].0)
}

/// Keys stand in strictly ascending order.
pub open spec fn ordered(entries: TextEntries) -> bool {
    forall|i: int, j: int|
        #![trigger entries[i], entries[j]]
        0 <= i < j < entries.len() ==> text_order(entries[i].0, entries[j].0) == Order::Less
}

proof fn lemma_rest_is_ordered(entries: TextEntries)
    requires
        ordered(entries),
        entries.len() > 0,
    ensures
        ordered(entries.drop_first()),
{
    let rest = entries.drop_first();
    assert forall|i: int, j: int| 0 <= i < j < rest.len() implies text_order(
        (#[trigger] rest[i]).0,
        (#[trigger] rest[j]).0,
    ) == Order::Less by {
        assert(rest[i] == entries[i + 1] && rest[j] == entries[j + 1]);
    }
}

/// A stored value is found again; other keys are unaffected.
pub proof fn lemma_value_with_entry(
    entries: TextEntries,
    key: Seq<char>,
    value: Seq<char>,
    other: Seq<char>,
)
    ensures
        value_at(with_entry(entries, key, value), other) == if other == key {
            Some(value)
        } else {
            value_at(entries, other)
        },
    decreases entries.len(),
{
    let result = with_entry(entries, key, value);
    if entries.len() == 0 {
        assert(result.drop_first() =~= entries);
    } else {
        lemma_text_order_equal(key, entries[0].0);
        match text_order(key, entries[0].0) {
            Order::Less => {
                assert(result.drop_first() =~= entries);
            },
            Order::Equal => {
                assert(result.drop_first() =~= entries.drop_first());
            },
            Order::Greater => {
                lemma_value_with_entry(entries.drop_first(), key, value, other);
                assert(result.drop_first() =~= with_entry(entries.drop_first(), key, value));
            },
        }
    }
}

proof fn lemma_absent_above(entries: TextEntries, key: Seq<char>)
    requires
        ordered(entries),
        entries.len() > 0 ==> text_order(key, entries[0].0) == Order::Less,
    ensures
        value_at(entries, key) is None,
    decreases entries.len(),
{
    if entries.len() > 0 {
        lemma_text_order_equal(key, entries[0].0);
        let rest = entries.drop_first();
        lemma_rest_is_ordered(entries);
        if rest.len() > 0 {
            assert(text_order(entries[0].0, entries[1].0) == Order::Less);
            lemma_text_order_transitive(key, entries[0].0, entries[1].0);
        }
        lemma_absent_above(rest, key);
    }
}

/// A removed key is gone; other keys are unaffected.
pub proof fn lemma_value_without_entry(entries: TextEntries, key: Seq<char>, other: Seq<char>)
    requires
        ordered(entries),
    ensures
        value_at(without_entry(entries, key), other) == if other == key {
            None
        } else {
            value_at(entries, other)
        },
    decreases entries.len(),
{
    if entries.len() > 0 {
        let rest = entries.drop_first();
        lemma_rest_is_ordered(entries);
        if entries[0].0 == key {
            if rest.len() > 0 {
                assert(text_order(entries[0].0, entries[1].0) == Order::Less);
            }
            lemma_absent_above(rest, key);
        } else {
            lemma_value_without_entry(rest, key, other);
            let result = without_entry(entries, key);
            assert(result.drop_first() =~= without_entry(rest, key));
        }
    }
}

/// Adding keeps the order of the keys.
pub proof fn lemma_with_entry_is_ordered(entries: TextEntries, key: Seq<char>, value: Seq<char>)
    requires
        ordered(entries),
    ensures
        ordered(with_entry(entries, key, value)),
        forall|i: int|
            0 <= i < with_entry(entries, key, value).len() ==> (#[trigger] with_entry(
                entries,
                key,
                value,
            )[i]).0 == key || keys_of(entries).contains(with_entry(entries, key, value)[i].0),
    decreases entries.len(),
{
    let result = with_entry(entries, key, value);
    if entries.len() > 0 {
        lemma_text_order_equal(key, entries[0].0);
        lemma_text_order_reverse(key, entries[0].0);
        let rest = entries.drop_first();
        lemma_rest_is_ordered(entries);
        assert forall|k: int| 0 <= k < entries.len() implies keys_of(entries).contains(
            (#[trigger] entries[k]).0,
        ) by {
            assert(keys_of(entries)[k] == entries[k].0);
        }
        match text_order(key, entries[0].0) {
            Order::Less => {
                assert forall|i: int, j: int| 0 <= i < j < result.len() implies text_order(
                    (#[trigger] result[i]).0,
                    (#[trigger] result[j]).0,
                ) == Order::Less by {
                    assert(result[j] == entries[j - 1]);
                    if i > 0 {
                        assert(result[i] == entries[i - 1]);
                    } else if j > 1 {
                        lemma_text_order_transitive(key, entries[0].0, entries[j - 1].0);
                    }
                }
                assert forall|i: int| 0 <= i < result.len() implies (#[trigger] result[i]).0 == key
                    || keys_of(entries).contains(result[i].0) by {
                    if i > 0 {
                        assert(result[i] == entries[i - 1]);
                    }
                }
            },
            Order::Equal => {
                assert forall|i: int, j: int| 0 <= i < j < result.len() implies text_order(
                    (#[trigger] result[i]).0,
                    (#[trigger] result[j]).0,
                ) == Order::Less by {
                    assert(result[j] == entries[j]);
                    assert(result[i].0 == entries[i].0);
                }
                assert forall|i: int| 0 <= i < result.len() implies (#[trigger] result[i]).0 == key
                    || keys_of(entries).contains(result[i].0) by {
                    if i > 0 {
                        assert(result[i] == entries[i]);
                    }
                }
            },
            Order::Greater => {
                lemma_with_entry_is_ordered(rest, key, value);
                let tail = with_entry(rest, key, value);
                assert forall|i: int, j: int| 0 <= i < j < result.len() implies text_order(
                    (#[trigger] result[i]).0,
                    (#[trigger] result[j]).0,
                ) == Order::Less by {
                    assert(result[j] == tail[j - 1]);
                    if i > 0 {
                        assert(result[i] == tail[i - 1]);
                    } else if tail[j - 1].0 != key {
                        let k = choose|k: int|
                            0 <= k < rest.len() && keys_of(rest)[k] == tail[j - 1].0;
                        assert(entries[k + 1].0 == tail[j - 1].0);
                    }
                }
                assert forall|i: int| 0 <= i < result.len() implies (#[trigger] result[i]).0 == key
                    || keys_of(entries).contains(result[i].0) by {
                    if i > 0 {
                        assert(result[i] == tail[i - 1]);
                        if tail[i - 1].0 != key {
                            let k = choose|k: int|
                                0 <= k < rest.len() && keys_of(rest)[k] == tail[i - 1].0;
                            assert(entries[k + 1].0 == tail[i - 1].0);
                        }
                    }
                }
            },
        }
    } else {
        assert(ordered(result));
    }
}

/// Removing keeps the order of the keys.
pub proof fn lemma_without_entry_is_ordered(entries: TextEntries, key: Seq<char>)
    requires
        ordered(entries),
    ensures
        ordered(without_entry(entries, key)),
        forall|i: int|
            0 <= i < without_entry(entries, key).len() ==> keys_of(entries).contains(
                (#[trigger] without_entry(entries, key)[i]).0,
            ),
    decreases entries.len(),
{
    if entries.len() > 0 {
        let rest = entries.drop_first();
        lemma_rest_is_ordered(entries);
        assert forall|k: int| 0 <= k < entries.len() implies keys_of(entries).contains(
            (#[trigger] entries[k]).0,
        ) by {
            assert(keys_of(entries)[k] == entries[k].0);
        }
        let result = without_entry(entries, key);
        if entries[0].0 == key {
            assert forall|i: int| 0 <= i < result.len() implies keys_of(entries).contains(
                (#[trigger] result[i]).0,
            ) by {
                assert(result[i] == entries[i + 1]);
            }
        } else {
            lemma_without_entry_is_ordered(rest, key);
            let tail = without_entry(rest, key);
            assert forall|i: int| 0 <= i < tail.len() implies exists|k: int|
                1 <= k < entries.len() && entries[k].0 == (#[trigger] tail[i]).0 by {
                let k = choose|k: int| 0 <= k < rest.len() && keys_of(rest)[k] == tail[i].0;
                assert(entries[k + 1].0 == tail[i].0);
            }
            assert forall|i: int, j: int| 0 <= i < j < result.len() implies text_order(
                (#[trigger] result[i]).0,
                (#[trigger] result[j]).0,
            ) == Order::Less by {
                assert(result[j] == tail[j - 1]);
                if i > 0 {
                    assert(result[i] == tail[i - 1]);
                } else {
                    let k = choose|k: int|
                        1 <= k < entries.len() && entries[k].0 == tail[j - 1].0;
                    assert(text_order(entries[0].0, entries[k].0) == Order::Less);
                }
            }
            assert forall|i: int| 0 <= i < result.len() implies keys_of(entries).contains(
                (#[trigger] result[i]).0,
            ) by {
                if i > 0 {
                    assert(result[i] == tail[i - 1]);
                    let k = choose|k: int|
                        1 <= k < entries.len() && entries[k].0 == tail[i - 1].0;
                    assert(keys_of(entries)[k] == tail[i - 1].0);
                }
            }
        }
    } else {
        assert(ordered(without_entry(entries, key)));
    }
}

/// One entry of a map.
#[derive(Debug, PartialEq, Eq)]
pub struct TextEntry {
    pub key: String,
    pub value: String,
}

/// A map from texts to texts.
#[derive(Debug, PartialEq, Eq)]
pub struct TextMap {
    pub entries: Vec<TextEntry>,
}

impl View for TextMap {
    type V = TextEntries;

    open spec fn view(&self) -> TextEntries {
        Seq::new(
            self.entries@.len(),
            |i: int| (self.entries@[i].key@, self.entries@[i].value@),
        )
    }
}

proof fn lemma_value_skips(entries: TextEntries, key: Seq<char>, at: int)
    requires
        0 <= at <= entries.len(),
        forall|k: int| 0 <= k < at ==> (#[trigger] entries[k]).0 != key,
    ensures
        value_at(entries, key) == value_at(entries.skip(at), key),
    decreases at,
{
    if at > 0 {
        let rest = entries.drop_first();
        assert forall|k: int| 0 <= k < at - 1 implies (#[trigger] rest[k]).0 != key by {
            assert(rest[k] == entries[k + 1]);
        }
        assert(entries[0].0 != key);
        lemma_value_skips(rest, key, at - 1);
        assert(rest.skip(at - 1) =~= entries.skip(at));
    } else {
        assert(entries.skip(0) =~= entries);
    }
}

proof fn lemma_with_entry_at(entries: TextEntries, key: Seq<char>, value: Seq<char>, at: int)
    requires
        0 <= at <= entries.len(),
        forall|k: int| 0 <= k < at ==> text_order(key, (#[trigger] entries[k]).0)
            == Order::Greater,
        at < entries.len() ==> text_order(key, entries[at].0) != Order::Greater,
    ensures
        with_entry(entries, key, value) == if at < entries.len() && text_order(
            key,
            entries[at].0,
        ) == Order::Equal {
            entries.update(at, (key, value))
        } else {
            entries.insert(at, (key, value))
        },
    decreases at,
{
    let result = with_entry(entries, key, value);
    if at == 0 {
        if entries.len() > 0 && text_order(key, entries[0].0) == Order::Equal {
            assert(result =~= entries.update(0, (key, value)));
        } else {
            assert(result =~= entries.insert(0, (key, value)));
        }
    } else {
        assert(text_order(key, entries[0].0) == Order::Greater);
        let rest = entries.drop_first();
        assert forall|k: int| 0 <= k < at - 1 implies text_order(key, (#[trigger] rest[k]).0)
            == Order::Greater by {
            assert(rest[k] == entries[k + 1]);
        }
        lemma_with_entry_at(rest, key, value, at - 1);
        if at < entries.len() && text_order(key, entries[at].0) == Order::Equal {
            assert(result =~= entries.update(at, (key, value)));
        } else {
            assert(result =~= entries.insert(at, (key, value)));
        }
    }
}

proof fn lemma_without_entry_at(entries: TextEntries, key: Seq<char>, at: int)
    requires
        0 <= at < entries.len(),
        forall|k: int| 0 <= k < at ==> (#[trigger] entries[k]).0 != key,
        entries[at].0 == key,
    ensures
        without_entry(entries, key) == entries.remove(at),
    decreases at,
{
    if at > 0 {
        let rest = entries.drop_first();
        assert forall|k: int| 0 <= k < at - 1 implies (#[trigger] rest[k]).0 != key by {
            assert(rest[k] == entries[k + 1]);
        }
        assert(entries[0].0 != key);
        lemma_without_entry_at(rest, key, at - 1);
        assert(without_entry(entries, key) =~= entries.remove(at));
    } else {
        assert(without_entry(entries, key) =~= entries.remove(0));
    }
}

proof fn lemma_without_absent(entries: TextEntries, key: Seq<char>)
    requires
        forall|k: int| 0 <= k < entries.len() ==> (#[trigger] entries[k]).0 != key,
    ensures
        without_entry(entries, key) == entries,
    decreases entries.len(),
{
    if entries.len() > 0 {
        let rest = entries.drop_first();
        assert forall|k: int| 0 <= k < rest.len() implies (#[trigger] rest[k]).0 != key by {
            assert(rest[k] == entries[k + 1]);
        }
        assert(entries[0].0 != key);
        lemma_without_absent(rest, key);
        assert(without_entry(entries, key) =~= entries);
    }
}

impl TextMap {
    pub fn new() -> (result: TextMap)
        ensures
            result@ == Seq::<(Seq<char>, Seq<char>)>::empty(),
            ordered(result@),
    {
        let result = TextMap { entries: Vec::new() };
        proof {
            assert(result@ =~= Seq::empty());
        }
        result
    }

    /// The position of a key; the number of entries without it.
    fn position(&self, key: &str) -> (result: usize)
        ensures
            result <= self@.len(),
            forall|k: int| 0 <= k < result ==> (#[trigger] self@[k]).0 != key@,
            result < self@.len() ==> self@[result as int].0 == key@,
    {
        let mut i: usize = 0;
        while i < self.entries.len()
            invariant
                i <= self.entries@.len(),
                forall|k: int| 0 <= k < i ==> (#[trigger] self@[k]).0 != key@,
            decreases self.entries@.len() - i,
        {
            if same_text(self.entries[i].key.as_str(), key) {
                return i;
            }
            i = i + 1;
        }
        i
    }

    pub fn get(&self, key: &str) -> (result: Option<&str>)
        ensures
            match result {
                Some(value) => value_at(self@, key@) == Some(value@),
                None => value_at(self@, key@) is None,
            },
    {
        let at = self.position(key);
        proof {
            lemma_value_skips(self@, key@, at as int);
            if at < self@.len() {
                assert(self@.skip(at as int)[0] == self@[at as int]);
            }
        }
        if at < self.entries.len() {
            Some(self.entries[at].value.as_str())
        } else {
            None
        }
    }

    /// Stores a value and says what it replaced.
    pub fn insert(&mut self, key: &str, value: &str) -> (result: Option<String>)
        ensures
            final(self)@ == with_entry(old(self)@, key@, value@),
            optional_text(result) == value_at(old(self)@, key@),
            ordered(old(self)@) ==> ordered(final(self)@),
    {
        let replaced = match self.get(key) {
            Some(value) => Some(value.to_owned()),
            None => None,
        };
        let ghost before = self@;
        let mut at: usize = 0;
        while at < self.entries.len() && compare_text(
            key,
            self.entries[at].key.as_str(),
        ).is_gt()
            invariant
                at <= self.entries@.len(),
                self@ == before,
                forall|k: int|
                    0 <= k < at ==> text_order(key@, (#[trigger] before[k]).0) == Order::Greater,
            decreases self.entries@.len() - at,
        {
            at = at + 1;
        }
        proof {
            lemma_with_entry_at(before, key@, value@, at as int);
            if ordered(before) {
                lemma_with_entry_is_ordered(before, key@, value@);
            }
        }
        let entry = TextEntry { key: key.to_owned(), value: value.to_owned() };
        if at < self.entries.len() && compare_text(key, self.entries[at].key.as_str()).is_eq() {
            let _replaced = self.entries.remove(at);
            self.entries.insert(at, entry);
            proof {
                assert(self@ =~= before.update(at as int, (key@, value@)));
            }
        } else {
            self.entries.insert(at, entry);
            proof {
                assert(self@ =~= before.insert(at as int, (key@, value@)));
            }
        }
        replaced
    }

    /// Removes a key and says what value it had.
    pub fn remove(&mut self, key: &str) -> (result: Option<String>)
        ensures
            final(self)@ == without_entry(old(self)@, key@),
            optional_text(result) == value_at(old(self)@, key@),
            ordered(old(self)@) ==> ordered(final(self)@),
    {
        let ghost before = self@;
        let at = self.position(key);
        proof {
            lemma_value_skips(before, key@, at as int);
            if ordered(before) {
                lemma_without_entry_is_ordered(before, key@);
            }
        }
        if at < self.entries.len() {
            proof {
                assert(before.skip(at as int)[0] == before[at as int]);
                lemma_without_entry_at(before, key@, at as int);
            }
            let entry = self.entries.remove(at);
            proof {
                assert(self@ =~= before.remove(at as int));
            }
            Some(entry.value)
        } else {
            proof {
                lemma_without_absent(before, key@);
            }
            None
        }
    }

    pub fn copy(&self) -> (result: TextMap)
        ensures
            result@ == self@,
    {
        let mut entries: Vec<TextEntry> = Vec::new();
        let mut i: usize = 0;
        while i < self.entries.len()
            invariant
                i <= self.entries@.len(),
                entries@.len() == i,
                forall|k: int|
                    0 <= k < i ==> (#[trigger] entries@[k]).key@ == self.entries@[k].key@
                        && entries@[k].value@ == self.entries@[k].value@,
            decreases self.entries@.len() - i,
        {
            let entry = TextEntry {
                key: self.entries[i].key.clone(),
                value: self.entries[i].value.clone(),
            };
            entries.push(entry);
            i = i + 1;
        }
        let result = TextMap { entries };
        proof {
            assert(result@ =~= self@);
        }
        result
    }

    /// The map from values to keys.
    pub fn invert(&self) -> (result: TextMap)
        ensures
            result@ == inverted(self@),
            ordered(result@),
    {
        let mut result = TextMap::new();
        let mut i: usize = 0;
        proof {
            assert(self@.take(0) =~= Seq::empty());
        }
        while i < self.entries.len()
            invariant
                i <= self.entries@.len(),
                ordered(result@),
                result@ == inverted(self@.take(i as int)),
            decreases self.entries@.len() - i,
        {
            proof {
                assert(self@.take(i + 1).drop_last() =~= self@.take(i as int));
                assert(self@.take(i + 1).last() == self@[i as int]);
            }
            let _replaced = result.insert(
                self.entries[i].value.as_str(),
                self.entries[i].key.as_str(),
            );
            i = i + 1;
        }
        proof {
            assert(self@.take(i as int) =~= self@);
        }
        result
    }

    pub fn keys(&self) -> (result: Vec<String>)
        ensures
            texts(result@) == keys_of(self@),
    {
        let mut result: Vec<String> = Vec::new();
        let mut i: usize = 0;
        while i < self.entries.len()
            invariant
                i <= self.entries@.len(),
                result@.len() == i,
                forall|k: int| 0 <= k < i ==> (#[trigger] result@[k])@ == self.entries@[k].key@,
            decreases self.entries@.len() - i,
        {
            result.push(self.entries[i].key.clone());
            i = i + 1;
        }
        proof {
            assert(texts(result@) =~= keys_of(self@));
        }
        result
    }
}

} // verus!
