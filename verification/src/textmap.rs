//! Maps from texts, kept sorted by the bytes of their keys.

use vstd::prelude::*;
use vstd::string::*;

use crate::sorting::{byte_keys, bytes_less, lemma_lex_irreflexive, lemma_lex_total, lemma_lex_transitive, lex_less};
use crate::text::{same_bytes, texts};

verus! {

/// A map from texts to values.
pub struct TextMap<V> {
    keys: Vec<String>,
    values: Vec<V>,
}

/// Whether keys stand in strictly rising order.
pub open spec fn rising(keys: Seq<Seq<u8>>) -> bool {
    forall|i: int, j: int| 0 <= i < j < keys.len() ==> lex_less(#[trigger] keys[i], #[trigger] keys[j])
}

/// The map that keys and values in the same places make.
pub open spec fn paired<V>(keys: Seq<Seq<char>>, values: Seq<V>) -> Map<Seq<char>, V> {
    Map::new(|k: Seq<char>| keys.contains(k), |k: Seq<char>| values[keys.index_of(k)])
}

impl<V> View for TextMap<V> {
    type V = Map<Seq<char>, V>;

    closed spec fn view(&self) -> Map<Seq<char>, V> {
        paired(texts(self.keys@), self.values@)
    }
}

proof fn lemma_same_encoding(a: Seq<char>, b: Seq<char>)
    requires
        vstd::utf8::encode_utf8(a) == vstd::utf8::encode_utf8(b),
    ensures
        a == b,
{
    vstd::utf8::encode_utf8_decode_utf8(a);
    vstd::utf8::encode_utf8_decode_utf8(b);
}

/// Keys in rising order are different, so each stands in one place.
proof fn lemma_rising_is_unique(keys: Seq<String>, i: int)
    requires
        rising(byte_keys(keys)),
        0 <= i < keys.len(),
    ensures
        texts(keys).contains(keys[i]@),
        texts(keys).index_of(keys[i]@) == i,
{
    let list = texts(keys);
    assert(list[i] == keys[i]@);
    let j = list.index_of(keys[i]@);
    assert(list[j] == list[i]);
    if j != i {
        let all = byte_keys(keys);
        assert(all[i] == all[j]);
        lemma_lex_irreflexive(all[i]);
        if i < j {
            assert(lex_less(all[i], all[j]));
        } else {
            assert(lex_less(all[j], all[i]));
        }
    }
}

impl<V> TextMap<V> {
    /// The keys stand in rising order, each with its value.
    pub closed spec fn wf(self) -> bool {
        self.keys@.len() == self.values@.len() && rising(byte_keys(self.keys@))
    }

    /// The keys in rising order.
    pub closed spec fn listed(self) -> Seq<Seq<char>> {
        texts(self.keys@)
    }

    pub fn new() -> (map: TextMap<V>)
        ensures
            map.wf(),
            map@ == Map::<Seq<char>, V>::empty(),
    {
        let map = TextMap { keys: Vec::new(), values: Vec::new() };
        assert(map@ =~= Map::<Seq<char>, V>::empty());
        map
    }

    pub fn len(&self) -> (count: usize)
        requires
            self.wf(),
        ensures
            count == self.listed().len(),
    {
        self.keys.len()
    }

    /// The key at an index, in rising order.
    pub fn key_at(&self, i: usize) -> (key: &str)
        requires
            self.wf(),
            i < self.listed().len(),
        ensures
            key@ == self.listed()[i as int],
            self@.dom().contains(key@),
    {
        proof {
            lemma_rising_is_unique(self.keys@, i as int);
        }
        self.keys[i].as_str()
    }

    /// The value at an index.
    pub fn value_at(&self, i: usize) -> (value: &V)
        requires
            self.wf(),
            i < self.listed().len(),
        ensures
            *value == self@[self.listed()[i as int]],
    {
        proof {
            lemma_rising_is_unique(self.keys@, i as int);
        }
        &self.values[i]
    }

    /// Where a key stands, or would stand.
    fn place(&self, key: &str) -> (found: (usize, bool))
        requires
            self.wf(),
        ensures
            found.0 <= self.keys@.len(),
            found.1 ==> found.0 < self.keys@.len() && self.keys@[found.0 as int]@ == key@,
            !found.1 ==> (forall|i: int|
                0 <= i < found.0 ==> lex_less(
                    #[trigger] byte_keys(self.keys@)[i],
                    vstd::utf8::encode_utf8(key@),
                )) && (forall|i: int|
                found.0 <= i < self.keys@.len() ==> lex_less(
                    vstd::utf8::encode_utf8(key@),
                    #[trigger] byte_keys(self.keys@)[i],
                )),
    {
        let wanted = key.as_bytes();
        let ghost all = byte_keys(self.keys@);
        let mut low: usize = 0;
        let mut high: usize = self.keys.len();
        while low < high
            invariant
                low <= high <= self.keys@.len(),
                all == byte_keys(self.keys@),
                rising(all),
                wanted@ == vstd::utf8::encode_utf8(key@),
                forall|i: int| 0 <= i < low ==> lex_less(#[trigger] all[i], wanted@),
                forall|i: int| high <= i < self.keys@.len() ==> lex_less(wanted@, #[trigger] all[i]),
            decreases high - low,
        {
            let middle: usize = low + (high - low) / 2;
            let other = self.keys[middle].as_str().as_bytes();
            assert(all[middle as int] == other@);
            if same_bytes(wanted, other) {
                proof {
                    lemma_same_encoding(key@, self.keys@[middle as int]@);
                }
                return (middle, true);
            }
            if bytes_less(other, wanted) {
                assert forall|i: int| 0 <= i < middle + 1 implies lex_less(
                    #[trigger] all[i],
                    wanted@,
                ) by {
                    if i < middle {
                        assert(lex_less(all[i], all[middle as int]));
                        lemma_lex_transitive(all[i], all[middle as int], wanted@);
                    }
                }
                low = middle + 1;
            } else {
                proof {
                    lemma_lex_total(other@, wanted@);
                }
                assert forall|i: int| middle <= i < self.keys@.len() implies lex_less(
                    wanted@,
                    #[trigger] all[i],
                ) by {
                    if i > middle {
                        assert(lex_less(all[middle as int], all[i]));
                        lemma_lex_transitive(wanted@, all[middle as int], all[i]);
                    }
                }
                high = middle;
            }
        }
        (low, false)
    }

    /// A key that has no place is not in the map.
    proof fn lemma_absent(self, key: Seq<char>, at: int)
        requires
            self.wf(),
            0 <= at <= self.keys@.len(),
            forall|i: int|
                0 <= i < at ==> lex_less(
                    #[trigger] byte_keys(self.keys@)[i],
                    vstd::utf8::encode_utf8(key),
                ),
            forall|i: int|
                at <= i < self.keys@.len() ==> lex_less(
                    vstd::utf8::encode_utf8(key),
                    #[trigger] byte_keys(self.keys@)[i],
                ),
        ensures
            !texts(self.keys@).contains(key),
    {
        if texts(self.keys@).contains(key) {
            let i = texts(self.keys@).index_of(key);
            assert(texts(self.keys@)[i] == key);
            assert(byte_keys(self.keys@)[i] == vstd::utf8::encode_utf8(key));
            lemma_lex_irreflexive(vstd::utf8::encode_utf8(key));
        }
    }

    /// The value of a key.
    pub fn get(&self, key: &str) -> (value: Option<&V>)
        requires
            self.wf(),
        ensures
            match value {
                Some(v) => self@.dom().contains(key@) && *v == self@[key@],
                None => !self@.dom().contains(key@),
            },
    {
        let (at, found) = self.place(key);
        if found {
            proof {
                lemma_rising_is_unique(self.keys@, at as int);
            }
            Some(&self.values[at])
        } else {
            proof {
                self.lemma_absent(key@, at as int);
            }
            None
        }
    }

    /// Sets the value of a key.
    pub fn insert(&mut self, key: String, value: V)
        requires
            old(self).wf(),
        ensures
            final(self).wf(),
            final(self)@ == old(self)@.insert(key@, value),
    {
        let (at, found) = self.place(key.as_str());
        let ghost before = *self;
        let ghost old_list = texts(self.keys@);
        if found {
            proof {
                lemma_rising_is_unique(self.keys@, at as int);
            }
            self.values.set(at, value);
            assert(self.values@ =~= before.values@.update(at as int, value));
            assert forall|k: Seq<char>| #[trigger] before@.dom().contains(k) implies self@[k]
                == before@.insert(key@, value)[k] by {
                let i = old_list.index_of(k);
                assert(old_list[i] == k);
                lemma_rising_is_unique(before.keys@, i);
            }
            assert(self@ =~= before@.insert(key@, value));
        } else {
            proof {
                self.lemma_absent(key@, at as int);
            }
            let ghost added = key@;
            self.keys.insert(at, key);
            self.values.insert(at, value);
            let ghost all = byte_keys(before.keys@);
            let ghost more = byte_keys(self.keys@);
            let ghost list = texts(self.keys@);
            assert(more =~= all.insert(at as int, vstd::utf8::encode_utf8(added)));
            assert(list =~= old_list.insert(at as int, added));
            assert(rising(more)) by {
                assert forall|i: int, j: int| 0 <= i < j < more.len() implies lex_less(
                    #[trigger] more[i],
                    #[trigger] more[j],
                ) by {
                    let a = if i < at { i } else { i - 1 };
                    let b = if j < at { j } else { j - 1 };
                    if i != at && j != at {
                        assert(more[i] == all[a] && more[j] == all[b]);
                    } else if i == at {
                        assert(more[j] == all[b]);
                    } else {
                        assert(more[i] == all[a]);
                    }
                }
            }
            assert forall|k: Seq<char>| #[trigger] list.contains(k) <==> old_list.contains(k) || k
                == added by {
                if list.contains(k) {
                    let i = list.index_of(k);
                    assert(list[i] == k);
                    if i < at {
                        assert(old_list[i] == k);
                    } else if i > at {
                        assert(old_list[i - 1] == k);
                    }
                }
                if old_list.contains(k) {
                    let i = old_list.index_of(k);
                    assert(old_list[i] == k);
                    if i < at {
                        assert(list[i] == k);
                    } else {
                        assert(list[i + 1] == k);
                    }
                }
                if k == added {
                    assert(list[at as int] == k);
                }
            }
            assert forall|k: Seq<char>| #[trigger] self@.dom().contains(k) implies self@[k]
                == before@.insert(added, value)[k] by {
                let i = list.index_of(k);
                assert(list[i] == k);
                lemma_rising_is_unique(self.keys@, i);
                if k == added {
                    lemma_rising_is_unique(self.keys@, at as int);
                } else {
                    let j = if i < at { i } else { i - 1 };
                    assert(old_list[j] == k);
                    lemma_rising_is_unique(before.keys@, j);
                }
            }
            assert(self@ =~= before@.insert(added, value));
        }
    }

    /// Takes a key out with its value.
    pub fn remove(&mut self, key: &str) -> (value: Option<V>)
        requires
            old(self).wf(),
        ensures
            final(self).wf(),
            final(self)@ == old(self)@.remove(key@),
            match value {
                Some(v) => old(self)@.dom().contains(key@) && v == old(self)@[key@],
                None => !old(self)@.dom().contains(key@),
            },
    {
        let (at, found) = self.place(key);
        let ghost before = *self;
        let ghost old_list = texts(self.keys@);
        if !found {
            proof {
                self.lemma_absent(key@, at as int);
            }
            assert(self@ =~= before@.remove(key@));
            return None;
        }
        proof {
            lemma_rising_is_unique(self.keys@, at as int);
        }
        self.keys.remove(at);
        let value = self.values.remove(at);
        let ghost all = byte_keys(before.keys@);
        let ghost less = byte_keys(self.keys@);
        let ghost list = texts(self.keys@);
        assert(less =~= all.remove(at as int));
        assert(list =~= old_list.remove(at as int));
        assert(rising(less)) by {
            assert forall|i: int, j: int| 0 <= i < j < less.len() implies lex_less(
                #[trigger] less[i],
                #[trigger] less[j],
            ) by {
                let a = if i < at { i } else { i + 1 };
                let b = if j < at { j } else { j + 1 };
                assert(less[i] == all[a] && less[j] == all[b]);
            }
        }
        assert forall|k: Seq<char>| #[trigger] list.contains(k) <==> old_list.contains(k) && k
            != key@ by {
            if list.contains(k) {
                let i = list.index_of(k);
                assert(list[i] == k);
                let j = if i < at { i } else { i + 1 };
                assert(old_list[j] == k);
                lemma_rising_is_unique(before.keys@, j);
            }
            if old_list.contains(k) && k != key@ {
                let j = old_list.index_of(k);
                assert(old_list[j] == k);
                let i = if j < at { j } else { j - 1 };
                assert(list[i] == k);
            }
        }
        assert forall|k: Seq<char>| #[trigger] self@.dom().contains(k) implies self@[k]
            == before@[k] by {
            let i = list.index_of(k);
            assert(list[i] == k);
            lemma_rising_is_unique(self.keys@, i);
            let j = if i < at { i } else { i + 1 };
            assert(old_list[j] == k);
            lemma_rising_is_unique(before.keys@, j);
        }
        assert(self@ =~= before@.remove(key@));
        Some(value)
    }

    /// The keys of a map are those it lists.
    pub proof fn lemma_listed(self, key: Seq<char>)
        requires
            self.wf(),
        ensures
            self@.dom().contains(key) <==> self.listed().contains(key),
            self.listed().no_duplicates(),
    {
        assert(self.listed().no_duplicates()) by {
            assert forall|i: int, j: int|
                0 <= i < self.listed().len() && 0 <= j < self.listed().len() && i != j implies
            self.listed()[i] != self.listed()[j] by {
                lemma_rising_is_unique(self.keys@, i);
                lemma_rising_is_unique(self.keys@, j);
            }
        }
    }
}

} // verus!
