//! A small map from names to values, listed in the order of the names.

use vstd::prelude::*;
use vstd::utf8::{encode_utf8, encode_utf8_decode_utf8};

verus! {

/// Lexicographic order of byte sequences.
pub open spec fn bytes_before(a: Seq<u8>, b: Seq<u8>) -> bool
    decreases a.len(),
{
    if b.len() == 0 {
        false
    } else if a.len() == 0 {
        true
    } else if a[0] != b[0] {
        a[0] < b[0]
    } else {
        bytes_before(a.skip(1), b.skip(1))
    }
}

/// The order of names: that of their UTF-8 bytes, as `str` is ordered.
pub open spec fn name_before(a: Seq<char>, b: Seq<char>) -> bool {
    bytes_before(encode_utf8(a), encode_utf8(b))
}

/// How two names stand to each other.
pub enum NameOrder {
    Before,
    Same,
    After,
}

proof fn lemma_common_prefix(a: Seq<u8>, b: Seq<u8>, k: int)
    requires
        0 <= k <= a.len(),
        k <= b.len(),
        forall|j: int| 0 <= j < k ==> a[j] == b[j],
    ensures
        bytes_before(a, b) == bytes_before(a.skip(k), b.skip(k)),
    decreases k,
{
    if k > 0 {
        assert(a[0] == b[0]);
        let x = a.skip(1);
        let y = b.skip(1);
        assert forall|j: int| 0 <= j < k - 1 implies x[j] == y[j] by {
            assert(x[j] == a[j + 1]);
            assert(y[j] == b[j + 1]);
        }
        lemma_common_prefix(x, y, k - 1);
        assert(x.skip(k - 1) == a.skip(k));
        assert(y.skip(k - 1) == b.skip(k));
    } else {
        assert(a.skip(0) == a);
        assert(b.skip(0) == b);
    }
}

proof fn lemma_bytes_transitive(a: Seq<u8>, b: Seq<u8>, c: Seq<u8>)
    requires
        bytes_before(a, b),
        bytes_before(b, c),
    ensures
        bytes_before(a, c),
    decreases a.len(),
{
    if a.len() > 0 && a[0] == b[0] && b[0] == c[0] {
        lemma_bytes_transitive(a.skip(1), b.skip(1), c.skip(1));
    }
}

proof fn lemma_bytes_irreflexive(a: Seq<u8>)
    ensures
        !bytes_before(a, a),
    decreases a.len(),
{
    if a.len() > 0 {
        lemma_bytes_irreflexive(a.skip(1));
    }
}

/// Compares two names.
fn compare_names(a: &str, b: &str) -> (order: NameOrder)
    ensures
        match order {
            NameOrder::Before => name_before(a@, b@),
            NameOrder::Same => a@ == b@,
            NameOrder::After => name_before(b@, a@),
        },
{
    let x = a.as_bytes();
    let y = b.as_bytes();
    let mut i: usize = 0;
    while i < x.len() && i < y.len()
        invariant
            i <= x@.len(),
            i <= y@.len(),
            x@ == encode_utf8(a@),
            y@ == encode_utf8(b@),
            forall|j: int| 0 <= j < i ==> x@[j] == y@[j],
        decreases x@.len() - i,
    {
        if x[i] != y[i] {
            proof {
                lemma_common_prefix(x@, y@, i as int);
                lemma_common_prefix(y@, x@, i as int);
                assert(x@.skip(i as int)[0] == x@[i as int]);
                assert(y@.skip(i as int)[0] == y@[i as int]);
            }
            if x[i] < y[i] {
                return NameOrder::Before;
            } else {
                return NameOrder::After;
            }
        }
        i += 1;
    }
    proof {
        lemma_common_prefix(x@, y@, i as int);
        lemma_common_prefix(y@, x@, i as int);
    }
    if i < y.len() {
        NameOrder::Before
    } else if i < x.len() {
        NameOrder::After
    } else {
        proof {
            assert(x@ =~= y@);
            encode_utf8_decode_utf8(a@);
            encode_utf8_decode_utf8(b@);
        }
        NameOrder::Same
    }
}

/// The value that the first entry under `name` holds.
pub open spec fn lookup<V>(list: Seq<(Seq<char>, V)>, name: Seq<char>) -> Option<V>
    decreases list.len(),
{
    if list.len() == 0 {
        None
    } else if list[0].0 == name {
        Some(list[0].1)
    } else {
        lookup(list.skip(1), name)
    }
}

/// Whether a list is in ascending order of its names, so that no name occurs twice.
pub open spec fn ascending<V>(list: Seq<(Seq<char>, V)>) -> bool {
    forall|i: int, j: int|
        0 <= i < j < list.len() ==> name_before((#[trigger] list[i]).0, (#[trigger] list[j]).0)
}

/// A map from names to values.
#[derive(Debug)]
pub struct NameMap<V> {
    entries: Vec<(String, V)>,
}

impl<V> NameMap<V> {
    /// The entries in the order in which they are listed.
    pub closed spec fn list(&self) -> Seq<(Seq<char>, V)> {
        self.entries@.map_values(|e: (String, V)| (e.0@, e.1))
    }

    /// No name occurs twice, and the names are listed in ascending order.
    pub open spec fn well_formed(&self) -> bool {
        ascending(self.list())
    }
}

impl<V> View for NameMap<V> {
    type V = Map<Seq<char>, V>;

    open spec fn view(&self) -> Map<Seq<char>, V> {
        Map::new(
            |name: Seq<char>| lookup(self.list(), name) is Some,
            |name: Seq<char>| lookup(self.list(), name)->0,
        )
    }
}

proof fn lemma_lookup_absent<V>(list: Seq<(Seq<char>, V)>, name: Seq<char>)
    requires
        forall|j: int| 0 <= j < list.len() ==> (#[trigger] list[j]).0 != name,
    ensures
        lookup(list, name) is None,
    decreases list.len(),
{
    if list.len() > 0 {
        assert(list[0].0 != name);
        let rest = list.skip(1);
        assert forall|j: int| 0 <= j < rest.len() implies (#[trigger] rest[j]).0 != name by {
            assert(rest[j] == list[j + 1]);
        }
        lemma_lookup_absent(rest, name);
    }
}

/// The first entry under a name is the one that counts.
pub proof fn lemma_lookup_found<V>(list: Seq<(Seq<char>, V)>, name: Seq<char>, k: int)
    requires
        0 <= k < list.len(),
        forall|j: int| 0 <= j < k ==> (#[trigger] list[j]).0 != name,
        list[k].0 == name,
    ensures
        lookup(list, name) == Some(list[k].1),
    decreases k,
{
    if k > 0 {
        assert(list[0].0 != name);
        let rest = list.skip(1);
        assert forall|j: int| 0 <= j < k - 1 implies (#[trigger] rest[j]).0 != name by {
            assert(rest[j] == list[j + 1]);
        }
        assert(rest[k - 1] == list[k]);
        lemma_lookup_found(rest, name, k - 1);
    }
}

proof fn lemma_lookup_updated<V>(list: Seq<(Seq<char>, V)>, k: int, value: V, name: Seq<char>)
    requires
        0 <= k < list.len(),
        forall|j: int| 0 <= j < k ==> (#[trigger] list[j]).0 != list[k].0,
    ensures
        lookup(list.update(k, (list[k].0, value)), name) == (if name == list[k].0 {
            Some(value)
        } else {
            lookup(list, name)
        }),
    decreases list.len(),
{
    let new = list.update(k, (list[k].0, value));
    if k == 0 {
        assert(new.skip(1) =~= list.skip(1));
    } else {
        assert(list[0].0 != list[k].0);
        let rest = list.skip(1);
        assert(new.skip(1) =~= rest.update(k - 1, (list[k].0, value)));
        assert(rest[k - 1] == list[k]);
        assert forall|j: int| 0 <= j < k - 1 implies (#[trigger] rest[j]).0 != rest[k - 1].0 by {
            assert(rest[j] == list[j + 1]);
        }
        lemma_lookup_updated(rest, k - 1, value, name);
    }
}

proof fn lemma_lookup_inserted<V>(
    list: Seq<(Seq<char>, V)>,
    k: int,
    entry: (Seq<char>, V),
    name: Seq<char>,
)
    requires
        0 <= k <= list.len(),
        forall|j: int| 0 <= j < list.len() ==> (#[trigger] list[j]).0 != entry.0,
    ensures
        lookup(list.insert(k, entry), name) == (if name == entry.0 {
            Some(entry.1)
        } else {
            lookup(list, name)
        }),
    decreases list.len(),
{
    let new = list.insert(k, entry);
    if k == 0 {
        assert(new.skip(1) =~= list);
    } else {
        assert(list[0].0 != entry.0);
        let rest = list.skip(1);
        assert(new.skip(1) =~= rest.insert(k - 1, entry));
        assert forall|j: int| 0 <= j < rest.len() implies (#[trigger] rest[j]).0 != entry.0 by {
            assert(rest[j] == list[j + 1]);
        }
        lemma_lookup_inserted(rest, k - 1, entry, name);
    }
}

impl<V: Copy> Clone for NameMap<V> {
    fn clone(&self) -> (map: Self)
        ensures
            map.list() == self.list(),
    {
        let mut entries: Vec<(String, V)> = Vec::new();
        let mut i: usize = 0;
        while i < self.entries.len()
            invariant
                i <= self.entries@.len(),
                entries@.len() == i,
                forall|j: int|
                    0 <= j < i ==> (#[trigger] entries@[j]).0@ == self.entries@[j].0@
                        && entries@[j].1 == self.entries@[j].1,
            decreases self.entries@.len() - i,
        {
            entries.push((self.entries[i].0.clone(), self.entries[i].1));
            i += 1;
        }
        let map = NameMap { entries };
        assert(map.list() =~= self.list());
        map
    }
}

impl<V: Copy> NameMap<V> {
    /// The empty map.
    pub fn new() -> (map: Self)
        ensures
            map.list() == Seq::<(Seq<char>, V)>::empty(),
            map@ == Map::<Seq<char>, V>::empty(),
            map.well_formed(),
    {
        let map = NameMap { entries: Vec::new() };
        assert(map.list() =~= Seq::<(Seq<char>, V)>::empty());
        assert(map@ =~= Map::<Seq<char>, V>::empty());
        map
    }

    /// How many entries there are.
    pub fn len(&self) -> (n: usize)
        ensures
            n == self.list().len(),
    {
        self.entries.len()
    }

    /// The name of the entry at `i`.
    pub fn name_at(&self, i: usize) -> (name: &str)
        requires
            i < self.list().len(),
        ensures
            name@ == self.list()[i as int].0,
    {
        self.entries[i].0.as_str()
    }

    /// The value of the entry at `i`.
    pub fn value_at(&self, i: usize) -> (value: V)
        requires
            i < self.list().len(),
        ensures
            value == self.list()[i as int].1,
    {
        self.entries[i].1
    }

    /// The value under `name`, if there is one.
    pub fn get(&self, name: &str) -> (value: Option<V>)
        ensures
            value == (if self@.contains_key(name@) {
                Some(self@[name@])
            } else {
                None
            }),
    {
        let mut i: usize = 0;
        while i < self.entries.len()
            invariant
                i <= self.entries@.len(),
                forall|j: int| 0 <= j < i ==> (#[trigger] self.list()[j]).0 != name@,
            decreases self.entries@.len() - i,
        {
            if crate::text::same_text(self.entries[i].0.as_str(), name) {
                proof {
                    lemma_lookup_found(self.list(), name@, i as int);
                }
                return Some(self.entries[i].1);
            }
            i += 1;
        }
        proof {
            lemma_lookup_absent(self.list(), name@);
        }
        None
    }

    /// Puts `value` under `name`, in place of the value there, and gives that one back.
    pub fn insert(&mut self, name: String, value: V) -> (before: Option<V>)
        ensures
            final(self)@ == old(self)@.insert(name@, value),
            before == (if old(self)@.contains_key(name@) {
                Some(old(self)@[name@])
            } else {
                None
            }),
            old(self).well_formed() ==> final(self).well_formed(),
            final(self).list().len() <= old(self).list().len() + 1,
    {
        let ghost list = self.list();
        let mut place: usize = 0;
        let mut i: usize = 0;
        while i < self.entries.len()
            invariant
                *self == *old(self),
                list == self.list(),
                place <= i <= self.entries@.len(),
                forall|j: int| 0 <= j < i ==> (#[trigger] list[j]).0 != name@,
                ascending(list) ==> forall|j: int|
                    0 <= j < place ==> name_before((#[trigger] list[j]).0, name@),
                ascending(list) ==> forall|j: int|
                    place <= j < i ==> name_before(name@, (#[trigger] list[j]).0),
            decreases self.entries@.len() - i,
        {
            assert(list[i as int].0 == self.entries@[i as int].0@);
            match compare_names(self.entries[i].0.as_str(), name.as_str()) {
                NameOrder::Same => {
                    let before = self.entries[i].1;
                    let ghost old_entries = self.entries@;
                    self.entries[i] = (name, value);
                    proof {
                        let new = self.list();
                        assert(new =~= list.update(i as int, (list[i as int].0, value)));
                        assert forall|n: Seq<char>| true implies #[trigger] lookup(new, n) == (if n
                            == name@ {
                            Some(value)
                        } else {
                            lookup(list, n)
                        }) by {
                            lemma_lookup_updated(list, i as int, value, n);
                        }
                        lemma_lookup_found(list, name@, i as int);
                        assert(self@ =~= old(self)@.insert(name@, value));
                        if ascending(list) {
                            assert forall|a: int, b: int| 0 <= a < b < new.len() implies name_before(
                                (#[trigger] new[a]).0,
                                (#[trigger] new[b]).0,
                            ) by {
                                assert(new[a].0 == list[a].0);
                                assert(new[b].0 == list[b].0);
                            }
                        }
                    }
                    return Some(before);
                },
                NameOrder::Before => {
                    proof {
                        lemma_bytes_irreflexive(encode_utf8(name@));
                        if ascending(list) && place < i {
                            // The entry at `place` follows `name`, and this one follows it.
                            assert(name_before(name@, list[place as int].0));
                            assert(name_before(list[place as int].0, list[i as int].0));
                            lemma_bytes_transitive(
                                encode_utf8(name@),
                                encode_utf8(list[place as int].0),
                                encode_utf8(list[i as int].0),
                            );
                            lemma_bytes_transitive(
                                encode_utf8(name@),
                                encode_utf8(list[i as int].0),
                                encode_utf8(name@),
                            );
                            assert(false);
                        }
                    }
                    place = i + 1;
                },
                NameOrder::After => {
                    proof {
                        lemma_bytes_irreflexive(encode_utf8(name@));
                    }
                },
            }
            i += 1;
        }
        self.entries.insert(place, (name, value));
        proof {
            let new = self.list();
            assert(new =~= list.insert(place as int, (name@, value)));
            assert forall|n: Seq<char>| true implies #[trigger] lookup(new, n) == (if n == name@ {
                Some(value)
            } else {
                lookup(list, n)
            }) by {
                lemma_lookup_inserted(list, place as int, (name@, value), n);
            }
            lemma_lookup_absent(list, name@);
            assert(self@ =~= old(self)@.insert(name@, value));
            if ascending(list) {
                assert forall|a: int, b: int| 0 <= a < b < new.len() implies name_before(
                    (#[trigger] new[a]).0,
                    (#[trigger] new[b]).0,
                ) by {
                    if a < place && b > place {
                        assert(new[a] == list[a] && new[b] == list[b - 1]);
                    } else if b < place {
                        assert(new[a] == list[a] && new[b] == list[b]);
                    } else if a > place {
                        assert(new[a] == list[a - 1] && new[b] == list[b - 1]);
                    } else if a == place {
                        assert(new[b] == list[b - 1]);
                    } else {
                        assert(new[a] == list[a]);
                    }
                }
            }
        }
        None
    }
}

} // verus!
