//! Maps and sets that keep their texts in order.

use vstd::prelude::*;

use crate::text::{lemma_text_less_order, str_eq, str_less, text_less, texts};

verus! {

/// Each text comes before the ones after it.
pub open spec fn sorted(keys: Seq<Seq<char>>) -> bool {
    forall|i: int, j: int|
        0 <= i < j < keys.len() ==> text_less(#[trigger] keys[i], #[trigger] keys[j])
}

/// How many of the first keys come before `key`.
pub open spec fn rank(keys: Seq<Seq<char>>, key: Seq<char>) -> int
    decreases keys.len(),
{
    if keys.len() == 0 {
        0
    } else if text_less(keys[0], key) {
        1 + rank(keys.drop_first(), key)
    } else {
        0
    }
}

/// In sorted keys, the rank parts those that come before `key` from the others.
pub proof fn lemma_rank(keys: Seq<Seq<char>>, key: Seq<char>)
    requires
        sorted(keys),
    ensures
        0 <= rank(keys, key) <= keys.len(),
        forall|j: int| 0 <= j < rank(keys, key) ==> text_less(#[trigger] keys[j], key),
        forall|j: int| rank(keys, key) <= j < keys.len() ==> !text_less(#[trigger] keys[j], key),
        keys.contains(key) <==> rank(keys, key) < keys.len() && keys[rank(keys, key)] == key,
    decreases keys.len(),
{
    if keys.len() > 0 {
        let rest = keys.drop_first();
        if text_less(keys[0], key) {
            lemma_rank(rest, key);
            assert forall|j: int| 0 <= j < rank(keys, key) implies text_less(
                #[trigger] keys[j],
                key,
            ) by {
                if j > 0 {
                    assert(keys[j] == rest[j - 1]);
                }
            }
            assert forall|j: int| rank(keys, key) <= j < keys.len() implies !text_less(
                #[trigger] keys[j],
                key,
            ) by {
                assert(keys[j] == rest[j - 1]);
            }
        } else {
            assert forall|j: int| 0 <= j < keys.len() implies !text_less(
                #[trigger] keys[j],
                key,
            ) by {
                if j > 0 {
                    lemma_text_less_order(keys[0], keys[j], key);
                }
            }
        }
    }
    let r = rank(keys, key);
    if keys.contains(key) {
        let j = choose|j: int| 0 <= j < keys.len() && keys[j] == key;
        lemma_text_less_order(key, key, key);
        assert(r <= j);
        if r < j {
            assert(text_less(keys[r], keys[j]));
        }
    }
}

/// Nothing but the rank parts the keys so.
pub proof fn lemma_rank_unique(keys: Seq<Seq<char>>, key: Seq<char>, i: int)
    requires
        sorted(keys),
        0 <= i <= keys.len(),
        forall|j: int| 0 <= j < i ==> text_less(#[trigger] keys[j], key),
        forall|j: int| i <= j < keys.len() ==> !text_less(#[trigger] keys[j], key),
    ensures
        i == rank(keys, key),
{
    lemma_rank(keys, key);
    let r = rank(keys, key);
    if i < r {
        assert(text_less(keys[i], key));
    } else if r < i {
        assert(!text_less(keys[r], key));
    }
}

/// A new key goes in at its rank.
pub proof fn lemma_insert_sorted(keys: Seq<Seq<char>>, key: Seq<char>)
    requires
        sorted(keys),
        !keys.contains(key),
    ensures
        sorted(keys.insert(rank(keys, key), key)),
{
    lemma_rank(keys, key);
    let r = rank(keys, key);
    let all = keys.insert(r, key);
    assert forall|i: int, j: int| 0 <= i < j < all.len() implies text_less(
        #[trigger] all[i],
        #[trigger] all[j],
    ) by {
        if i == r {
            let after = keys[j - 1];
            assert(all[j] == after);
            lemma_text_less_order(key, after, key);
            assert(keys.contains(after));
        } else if j == r {
            assert(all[i] == keys[i]);
        } else {
            let a = if i < r { i } else { i - 1 };
            let b = if j < r { j } else { j - 1 };
            assert(all[i] == keys[a] && all[j] == keys[b]);
        }
    }
}

/// The texts in order, each once.
pub open spec fn sorted_texts(texts: Seq<Seq<char>>) -> Seq<Seq<char>>
    decreases texts.len(),
{
    if texts.len() == 0 {
        Seq::empty()
    } else {
        let before = sorted_texts(texts.drop_last());
        if before.contains(texts.last()) {
            before
        } else {
            before.insert(rank(before, texts.last()), texts.last())
        }
    }
}

/// Sorting keeps exactly the texts that were there.
pub proof fn lemma_sorted_texts(texts: Seq<Seq<char>>)
    ensures
        sorted(sorted_texts(texts)),
        forall|text: Seq<char>| #[trigger]
            sorted_texts(texts).contains(text) <==> texts.contains(text),
    decreases texts.len(),
{
    if texts.len() > 0 {
        let rest = texts.drop_last();
        let last = texts.last();
        lemma_sorted_texts(rest);
        let before = sorted_texts(rest);
        let all = sorted_texts(texts);
        lemma_rank(before, last);
        let r = rank(before, last);
        if !before.contains(last) {
            lemma_insert_sorted(before, last);
            assert(all[r] == last);
        }
        assert forall|text: Seq<char>| #[trigger] all.contains(text) <==> texts.contains(text) by {
            if all.contains(text) {
                let j = choose|j: int| 0 <= j < all.len() && all[j] == text;
                if before.contains(last) {
                    assert(before.contains(text));
                } else if j != r {
                    assert(before[if j < r { j } else { j - 1 }] == text);
                    assert(before.contains(text));
                }
                if rest.contains(text) {
                    let i = choose|i: int| 0 <= i < rest.len() && rest[i] == text;
                    assert(texts[i] == text);
                } else {
                    assert(texts[texts.len() - 1] == last);
                }
            }
            if texts.contains(text) {
                let i = choose|i: int| 0 <= i < texts.len() && texts[i] == text;
                if i < rest.len() {
                    assert(rest[i] == text);
                    assert(before.contains(text));
                    let j = choose|j: int| 0 <= j < before.len() && before[j] == text;
                    if !before.contains(last) {
                        assert(all[if j < r { j } else { j + 1 }] == text);
                    }
                }
            }
        }
    }
}

pub open spec fn strings_view(strings: Seq<String>) -> Seq<Seq<char>> {
    strings.map_values(|string: String| string@)
}

/// A map from texts, in the order of the texts.
pub struct TextMap<V> {
    keys: Vec<String>,
    values: Vec<V>,
}

impl<V> View for TextMap<V> {
    type V = Map<Seq<char>, V>;

    open spec fn view(&self) -> Map<Seq<char>, V> {
        Map::new(
            |key: Seq<char>| self.keys().contains(key),
            |key: Seq<char>| self.values()[rank(self.keys(), key)],
        )
    }
}

impl<V> TextMap<V> {
    /// The keys in order.
    pub closed spec fn keys(&self) -> Seq<Seq<char>> {
        strings_view(self.keys@)
    }

    /// The values in the order of their keys.
    pub closed spec fn values(&self) -> Seq<V> {
        self.values@
    }

    pub open spec fn well_formed(&self) -> bool {
        &&& self.keys().len() == self.values().len()
        &&& sorted(self.keys())
    }

    /// Keys and values at the same place belong together.
    pub proof fn lemma_entry(&self, i: int)
        requires
            self.well_formed(),
            0 <= i < self.keys().len(),
        ensures
            self@.contains_key(self.keys()[i]),
            self@[self.keys()[i]] == self.values()[i],
    {
        let key = self.keys()[i];
        lemma_rank(self.keys(), key);
        let r = rank(self.keys(), key);
        lemma_text_less_order(key, key, key);
        if r < i {
            assert(text_less(self.keys()[r], self.keys()[i]));
        } else if i < r {
            assert(text_less(self.keys()[i], self.keys()[r]));
        }
    }

    /// A key has its value at its rank.
    pub proof fn lemma_place(&self, key: Seq<char>)
        requires
            self.well_formed(),
            self@.contains_key(key),
        ensures
            0 <= rank(self.keys(), key) < self.keys().len(),
            self.keys()[rank(self.keys(), key)] == key,
            self.values()[rank(self.keys(), key)] == self@[key],
    {
        lemma_rank(self.keys(), key);
    }

    pub fn new() -> (map: TextMap<V>)
        ensures
            map.well_formed(),
            map.keys() == Seq::<Seq<char>>::empty(),
            map.values() == Seq::<V>::empty(),
            map@ == Map::<Seq<char>, V>::empty(),
    {
        let map = TextMap { keys: Vec::new(), values: Vec::new() };
        assert(map.keys() =~= Seq::empty());
        assert(map@ =~= Map::empty());
        map
    }

    pub fn len(&self) -> (n: usize)
        requires
            self.well_formed(),
        ensures
            n == self.keys().len(),
            n == self.values().len(),
    {
        self.keys.len()
    }

    /// Key at a place in the order.
    pub fn key_at(&self, i: usize) -> (key: &str)
        requires
            self.well_formed(),
            i < self.keys().len(),
        ensures
            key@ == self.keys()[i as int],
    {
        self.keys[i].as_str()
    }

    /// Value at a place in the order.
    pub fn value_at(&self, i: usize) -> (value: &V)
        requires
            self.well_formed(),
            i < self.keys().len(),
        ensures
            *value == self.values()[i as int],
    {
        &self.values[i]
    }

    /// Sets the value at a place in the order, and hands back the one it had.
    pub fn replace_at(&mut self, i: usize, value: V) -> (before: V)
        requires
            old(self).well_formed(),
            i < old(self).keys().len(),
        ensures
            final(self).well_formed(),
            before == old(self).values()[i as int],
            final(self).keys() == old(self).keys(),
            final(self).values() == old(self).values().update(i as int, value),
    {
        let ghost values = self.values();
        let before = self.values.remove(i);
        self.values.insert(i, value);
        assert(self.values() =~= values.update(i as int, value));
        before
    }

    fn rank_of(&self, key: &str) -> (r: usize)
        requires
            self.well_formed(),
        ensures
            r == rank(self.keys(), key@),
            r <= self.keys().len(),
    {
        let mut i: usize = 0;
        while i < self.keys.len() && str_less(self.keys[i].as_str(), key)
            invariant
                i <= self.keys@.len(),
                self.well_formed(),
                forall|j: int| 0 <= j < i ==> text_less(#[trigger] self.keys()[j], key@),
            decreases self.keys.len() - i,
        {
            assert(self.keys()[i as int] == self.keys@[i as int]@);
            i += 1;
        }
        proof {
            if i < self.keys@.len() {
                assert(self.keys()[i as int] == self.keys@[i as int]@);
                assert forall|j: int| i <= j < self.keys().len() implies !text_less(
                    #[trigger] self.keys()[j],
                    key@,
                ) by {
                    if j > i {
                        lemma_text_less_order(self.keys()[i as int], self.keys()[j], key@);
                    }
                }
            }
            lemma_rank_unique(self.keys(), key@, i as int);
        }
        i
    }

    fn holds_at(&self, i: usize, key: &str) -> (yes: bool)
        requires
            self.well_formed(),
            i == rank(self.keys(), key@),
        ensures
            yes == self.keys().contains(key@),
            yes ==> i < self.keys().len() && self.keys()[i as int] == key@,
    {
        proof {
            lemma_rank(self.keys(), key@);
            if i < self.keys@.len() {
                assert(self.keys()[i as int] == self.keys@[i as int]@);
            }
        }
        i < self.keys.len() && str_eq(self.keys[i].as_str(), key)
    }

    pub fn contains_key(&self, key: &str) -> (yes: bool)
        requires
            self.well_formed(),
        ensures
            yes == self.keys().contains(key@),
            yes == self@.contains_key(key@),
    {
        let i = self.rank_of(key);
        self.holds_at(i, key)
    }

    pub fn get(&self, key: &str) -> (value: Option<&V>)
        requires
            self.well_formed(),
        ensures
            match value {
                Some(value) => self@.contains_key(key@) && self@[key@] == *value,
                None => !self@.contains_key(key@),
            },
    {
        let i = self.rank_of(key);
        if self.holds_at(i, key) {
            Some(&self.values[i])
        } else {
            None
        }
    }

    /// Sets the value for a key, and hands back the one it had.
    pub fn insert(&mut self, key: String, value: V) -> (before: Option<V>)
        requires
            old(self).well_formed(),
        ensures
            final(self).well_formed(),
            final(self)@ == old(self)@.insert(key@, value),
            before == (if old(self)@.contains_key(key@) {
                Some(old(self)@[key@])
            } else {
                None
            }),
            ({
                let r = rank(old(self).keys(), key@);
                if old(self).keys().contains(key@) {
                    &&& final(self).keys() == old(self).keys()
                    &&& final(self).values() == old(self).values().update(r, value)
                } else {
                    &&& final(self).keys() == old(self).keys().insert(r, key@)
                    &&& final(self).values() == old(self).values().insert(r, value)
                }
            }),
    {
        let ghost keys = self.keys();
        let ghost values = self.values();
        let ghost name = key@;
        let i = self.rank_of(key.as_str());
        proof {
            lemma_rank(keys, name);
        }
        if self.holds_at(i, key.as_str()) {
            let before = self.values.remove(i);
            self.values.insert(i, value);
            proof {
                assert(self.values() =~= values.update(i as int, value));
                assert(self.keys() == keys);
                lemma_updated(keys, values, name, value);
            }
            Some(before)
        } else {
            self.keys.insert(i, key);
            self.values.insert(i, value);
            proof {
                assert(self.keys() =~= keys.insert(i as int, name));
                lemma_insert_sorted(keys, name);
                lemma_inserted(keys, values, name, value);
            }
            None
        }
    }

    /// Takes a key out, and hands back its value.
    pub fn remove(&mut self, key: &str) -> (before: Option<V>)
        requires
            old(self).well_formed(),
        ensures
            final(self).well_formed(),
            final(self)@ == old(self)@.remove(key@),
            before == (if old(self)@.contains_key(key@) {
                Some(old(self)@[key@])
            } else {
                None
            }),
    {
        let ghost keys = self.keys();
        let ghost values = self.values();
        let i = self.rank_of(key);
        if self.holds_at(i, key) {
            let _ = self.keys.remove(i);
            let before = self.values.remove(i);
            proof {
                assert(self.keys() =~= keys.remove(i as int));
                lemma_removed(keys, values, i as int);
            }
            Some(before)
        } else {
            assert(self@ =~= self@.remove(key@));
            None
        }
    }
}

/// The map of sorted keys and their values.
pub open spec fn as_map<V>(keys: Seq<Seq<char>>, values: Seq<V>) -> Map<Seq<char>, V> {
    Map::new(|key: Seq<char>| keys.contains(key), |key: Seq<char>| values[rank(keys, key)])
}

proof fn lemma_updated<V>(keys: Seq<Seq<char>>, values: Seq<V>, name: Seq<char>, value: V)
    requires
        sorted(keys),
        keys.len() == values.len(),
        keys.contains(name),
    ensures
        as_map(keys, values.update(rank(keys, name), value)) == as_map(keys, values).insert(
            name,
            value,
        ),
{
    let updated = values.update(rank(keys, name), value);
    lemma_rank(keys, name);
    assert forall|key: Seq<char>| keys.contains(key) implies as_map(keys, updated)[key] == as_map(
        keys,
        values,
    ).insert(name, value)[key] by {
        lemma_rank(keys, key);
    }
    assert(as_map(keys, updated) =~= as_map(keys, values).insert(name, value));
}

proof fn lemma_inserted<V>(keys: Seq<Seq<char>>, values: Seq<V>, name: Seq<char>, value: V)
    requires
        sorted(keys),
        keys.len() == values.len(),
        !keys.contains(name),
    ensures
        as_map(
            keys.insert(rank(keys, name), name),
            values.insert(rank(keys, name), value),
        ) == as_map(keys, values).insert(name, value),
{
    let r = rank(keys, name);
    let all = keys.insert(r, name);
    let now = values.insert(r, value);
    lemma_rank(keys, name);
    lemma_insert_sorted(keys, name);
    assert(all[r] == name);
    assert forall|key: Seq<char>| all.contains(key) <==> keys.contains(key) || key == name by {
        if keys.contains(key) {
            let j = choose|j: int| 0 <= j < keys.len() && keys[j] == key;
            assert(all[if j < r { j } else { j + 1 }] == key);
        }
        if all.contains(key) {
            let j = choose|j: int| 0 <= j < all.len() && all[j] == key;
            if j != r {
                assert(keys[if j < r { j } else { j - 1 }] == key);
            }
        }
    }
    assert forall|key: Seq<char>| all.contains(key) implies as_map(all, now)[key] == as_map(
        keys,
        values,
    ).insert(name, value)[key] by {
        lemma_rank(all, key);
        lemma_rank(keys, key);
        let j = rank(all, key);
        if key == name {
            if j < r {
                assert(text_less(all[j], all[r]));
                lemma_text_less_order(all[j], all[r], name);
            } else if r < j {
                assert(text_less(all[r], all[j]));
                lemma_text_less_order(all[r], all[j], name);
            }
        } else {
            let at = rank(keys, key);
            let moved = if at < r { at } else { at + 1 };
            assert(all[moved] == key);
            if j < moved {
                assert(text_less(all[j], all[moved]));
                lemma_text_less_order(key, key, key);
            } else if moved < j {
                assert(text_less(all[moved], all[j]));
                lemma_text_less_order(key, key, key);
            }
        }
    }
    assert(as_map(all, now) =~= as_map(keys, values).insert(name, value));
}

proof fn lemma_removed<V>(keys: Seq<Seq<char>>, values: Seq<V>, i: int)
    requires
        sorted(keys),
        keys.len() == values.len(),
        0 <= i < keys.len(),
    ensures
        sorted(keys.remove(i)),
        as_map(keys.remove(i), values.remove(i)) == as_map(keys, values).remove(keys[i]),
{
    let rest = keys.remove(i);
    let now = values.remove(i);
    assert forall|a: int, b: int| 0 <= a < b < rest.len() implies text_less(
        #[trigger] rest[a],
        #[trigger] rest[b],
    ) by {
        let x = if a < i { a } else { a + 1 };
        let y = if b < i { b } else { b + 1 };
        assert(rest[a] == keys[x] && rest[b] == keys[y]);
    }
    assert forall|key: Seq<char>| rest.contains(key) <==> keys.contains(key) && key
        != keys[i] by {
        if rest.contains(key) {
            let j = choose|j: int| 0 <= j < rest.len() && rest[j] == key;
            let x = if j < i { j } else { j + 1 };
            assert(keys[x] == key);
            if x < i {
                assert(text_less(keys[x], keys[i]));
            } else {
                assert(text_less(keys[i], keys[x]));
            }
            lemma_text_less_order(key, key, key);
        }
        if keys.contains(key) && key != keys[i] {
            let j = choose|j: int| 0 <= j < keys.len() && keys[j] == key;
            assert(rest[if j < i { j } else { j - 1 }] == key);
        }
    }
    assert forall|key: Seq<char>| rest.contains(key) implies as_map(rest, now)[key] == as_map(
        keys,
        values,
    )[key] by {
        lemma_rank(rest, key);
        lemma_rank(keys, key);
        let j = rank(rest, key);
        let at = rank(keys, key);
        let x = if j < i { j } else { j + 1 };
        assert(keys[x] == key);
        lemma_text_less_order(key, key, key);
        if x < at {
            assert(text_less(keys[x], keys[at]));
        } else if at < x {
            assert(text_less(keys[at], keys[x]));
        }
    }
    assert(as_map(rest, now) =~= as_map(keys, values).remove(keys[i]));
}

/// A set of texts, in order.
pub struct TextSet {
    members: TextMap<()>,
}

impl View for TextSet {
    type V = Set<Seq<char>>;

    closed spec fn view(&self) -> Set<Seq<char>> {
        self.members@.dom()
    }
}

impl TextSet {
    pub closed spec fn well_formed(&self) -> bool {
        self.members.well_formed()
    }

    /// The members in order.
    pub closed spec fn in_order(&self) -> Seq<Seq<char>> {
        self.members.keys()
    }

    /// The members in order are the members, sorted.
    pub proof fn lemma_in_order(&self)
        requires
            self.well_formed(),
        ensures
            sorted(self.in_order()),
            forall|text: Seq<char>| #[trigger]
                self.in_order().contains(text) <==> self@.contains(text),
    {
    }

    pub fn new() -> (set: TextSet)
        ensures
            set.well_formed(),
            set@ == Set::<Seq<char>>::empty(),
    {
        let set = TextSet { members: TextMap::new() };
        assert(set@ =~= Set::empty());
        set
    }

    pub fn contains(&self, text: &str) -> (yes: bool)
        requires
            self.well_formed(),
        ensures
            yes == self@.contains(text@),
    {
        self.members.contains_key(text)
    }

    /// The members in order.
    pub fn members(&self) -> (members: Vec<&str>)
        requires
            self.well_formed(),
        ensures
            texts(members@) == self.in_order(),
    {
        let ghost order = self.in_order();
        let mut members: Vec<&str> = Vec::new();
        let mut i: usize = 0;
        assert(texts(members@) =~= order.take(0));
        while i < self.len()
            invariant
                self.well_formed(),
                order == self.in_order(),
                i <= order.len(),
                texts(members@) == order.take(i as int),
            decreases order.len() - i,
        {
            let ghost before = members@;
            let member = self.at(i);
            members.push(member);
            proof {
                assert(texts(members@) =~= texts(before).push(member@));
                assert(order.take(i + 1) =~= order.take(i as int).push(order[i as int]));
            }
            i += 1;
        }
        assert(order.take(i as int) =~= order);
        members
    }

    /// A copy of this set.
    pub fn copy(&self) -> (set: TextSet)
        requires
            self.well_formed(),
        ensures
            set.well_formed(),
            set@ == self@,
    {
        let ghost order = self.in_order();
        proof {
            self.lemma_in_order();
        }
        let mut set = TextSet::new();
        let mut i: usize = 0;
        while i < self.len()
            invariant
                self.well_formed(),
                order == self.in_order(),
                i <= order.len(),
                set.well_formed(),
                forall|text: Seq<char>| #[trigger]
                    set@.contains(text) <==> exists|j: int|
                        0 <= j < i && #[trigger] order[j] == text,
            decreases order.len() - i,
        {
            let ghost before = set@;
            let text = self.at(i);
            let _ = set.insert(text);
            proof {
                assert forall|other: Seq<char>| #[trigger] set@.contains(other) <==> exists|j: int|
                    0 <= j < i + 1 && #[trigger] order[j] == other by {
                    if before.contains(other) {
                        let j = choose|j: int| 0 <= j < i && #[trigger] order[j] == other;
                        assert(0 <= j < i + 1 && order[j] == other);
                    }
                    assert(order[i as int] == text@);
                }
            }
            i += 1;
        }
        proof {
            assert forall|text: Seq<char>| set@.contains(text) == self@.contains(text) by {
                assert(order.contains(text) <==> self@.contains(text));
                if order.contains(text) {
                    let j = choose|j: int| 0 <= j < order.len() && order[j] == text;
                    assert(0 <= j < i && order[j] == text);
                }
            }
            assert(set@ =~= self@);
        }
        set
    }

    /// Adds a text, and says whether it is new.
    pub fn insert(&mut self, text: &str) -> (new: bool)
        requires
            old(self).well_formed(),
        ensures
            final(self).well_formed(),
            final(self)@ == old(self)@.insert(text@),
            new == !old(self)@.contains(text@),
    {
        let before = self.members.insert(text.to_owned(), ());
        assert(self@ =~= old(self)@.insert(text@));
        before.is_none()
    }

    /// Takes a text out, and says whether it was there.
    pub fn remove(&mut self, text: &str) -> (there: bool)
        requires
            old(self).well_formed(),
        ensures
            final(self).well_formed(),
            final(self)@ == old(self)@.remove(text@),
            there == old(self)@.contains(text@),
    {
        let before = self.members.remove(text);
        assert(self@ =~= old(self)@.remove(text@));
        before.is_some()
    }

    pub fn len(&self) -> (n: usize)
        requires
            self.well_formed(),
        ensures
            n == self.in_order().len(),
    {
        self.members.len()
    }

    /// Member at a place in the order.
    pub fn at(&self, i: usize) -> (text: &str)
        requires
            self.well_formed(),
            i < self.in_order().len(),
        ensures
            text@ == self.in_order()[i as int],
            self@.contains(text@),
    {
        self.members.key_at(i)
    }
}

} // verus!
