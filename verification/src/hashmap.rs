//! A hash table with open addressing: linear probing, and tombstones in the
//! place of deleted entries. To contracts a table is the map from the keys'
//! identities to the values.

use crate::raw_array::RawArray;
use std::collections::hash_map::DefaultHasher;
use std::hash::Hasher;
use vstd::prelude::*;
use vstd::std_specs::hash::*;
use vstd::string::*;

verus! {

/// What a key of a table must offer: an identity, by which two keys are the
/// same key, and a hash that depends on the identity alone.
pub trait Key: Sized {
    /// What identifies a key: two keys with one identity are one key.
    type Id;

    spec fn id(&self) -> Self::Id;

    /// The hash of every key with identity `id`.
    spec fn hash_of(id: Self::Id) -> u64;

    fn hash(&self) -> (hash: u64)
        ensures
            hash == Self::hash_of(self.id()),
    ;

    fn same(&self, other: &Self) -> (b: bool)
        ensures
            b == (self.id() == other.id()),
    ;
}

/// The eight bytes of `x`, lowest first.
pub open spec fn low_first_bytes(x: u64) -> Seq<u8> {
    Seq::new(8, |i: int| ((x as int / pow256(i)) % 256) as u8)
}

/// 256 to the power `i`, for `i` up to 7.
pub open spec fn pow256(i: int) -> int {
    if i <= 0 {
        1
    } else if i == 1 {
        0x100
    } else if i == 2 {
        0x1_0000
    } else if i == 3 {
        0x100_0000
    } else if i == 4 {
        0x1_0000_0000
    } else if i == 5 {
        0x100_0000_0000
    } else if i == 6 {
        0x1_0000_0000_0000
    } else {
        0x100_0000_0000_0000
    }
}

/// The hash that the standard hasher gives after the writes `writes`.
pub open spec fn hash_of_writes(writes: Seq<Seq<u8>>) -> u64 {
    DefaultHasher::spec_finish(writes)
}

/// Hashes the eight bytes of `x`, lowest first, with the standard hasher.
pub fn hash_u64(x: u64) -> (hash: u64)
    ensures
        hash == hash_of_writes(seq![low_first_bytes(x)]),
{
    let mut bytes: Vec<u8> = Vec::new();
    bytes.push((x % 256) as u8);
    bytes.push(((x / 0x100) % 256) as u8);
    bytes.push(((x / 0x1_0000) % 256) as u8);
    bytes.push(((x / 0x100_0000) % 256) as u8);
    bytes.push(((x / 0x1_0000_0000) % 256) as u8);
    bytes.push(((x / 0x100_0000_0000) % 256) as u8);
    bytes.push(((x / 0x1_0000_0000_0000) % 256) as u8);
    bytes.push(((x / 0x100_0000_0000_0000) % 256) as u8);
    assert(bytes@ =~= low_first_bytes(x));
    let mut hasher = DefaultHasher::new();
    hasher.write(bytes.as_slice());
    assert(hasher@ =~= seq![low_first_bytes(x)]);
    hasher.finish()
}

/// The bytes of `text` in UTF-8.
pub open spec fn text_bytes(text: Seq<char>) -> Seq<u8> {
    vstd::utf8::encode_utf8(text)
}

/// Hashes the bytes of `text`, then the byte `0xff`, with the standard hasher.
pub fn hash_text(text: &str) -> (hash: u64)
    ensures
        hash == hash_of_writes(seq![text_bytes(text@), seq![0xffu8]]),
{
    let mut end: Vec<u8> = Vec::new();
    end.push(0xff);
    assert(end@ =~= seq![0xffu8]);
    let mut hasher = DefaultHasher::new();
    hasher.write(text.as_bytes());
    hasher.write(end.as_slice());
    assert(hasher@ =~= seq![text_bytes(text@), seq![0xffu8]]);
    hasher.finish()
}

impl Key for usize {
    type Id = usize;

    open spec fn id(&self) -> usize {
        *self
    }

    open spec fn hash_of(id: usize) -> u64 {
        hash_of_writes(seq![low_first_bytes(id as u64)])
    }

    fn hash(&self) -> (hash: u64) {
        hash_u64(*self as u64)
    }

    fn same(&self, other: &Self) -> (b: bool) {
        *self == *other
    }
}

impl Key for std::string::String {
    type Id = Seq<char>;

    open spec fn id(&self) -> Seq<char> {
        self@
    }

    open spec fn hash_of(id: Seq<char>) -> u64 {
        hash_of_writes(seq![text_bytes(id), seq![0xffu8]])
    }

    fn hash(&self) -> (hash: u64) {
        hash_text(self.as_str())
    }

    fn same(&self, other: &Self) -> (b: bool) {
        *self == *other
    }
}

impl<'a> Key for &'a str {
    type Id = Seq<char>;

    open spec fn id(&self) -> Seq<char> {
        self@
    }

    open spec fn hash_of(id: Seq<char>) -> u64 {
        hash_of_writes(seq![text_bytes(id), seq![0xffu8]])
    }

    fn hash(&self) -> (hash: u64) {
        hash_text(*self)
    }

    fn same(&self, other: &Self) -> (b: bool) {
        let mine: &str = *self;
        let theirs: &str = *other;
        let mine = mine.to_owned();
        let theirs = theirs.to_owned();
        mine == theirs
    }
}

#[derive(Debug)]
pub struct OccupiedEntry<K, V> {
    key: K,
    value: V,
}

impl<K, V> OccupiedEntry<K, V> {
    pub closed spec fn spec_key(&self) -> K {
        self.key
    }

    pub closed spec fn spec_value(&self) -> V {
        self.value
    }

    pub fn new(key: K, value: V) -> (entry: Self)
        ensures
            entry.spec_key() == key,
            entry.spec_value() == value,
    {
        Self { key, value }
    }

    pub fn key(&self) -> (key: &K)
        ensures
            *key == self.spec_key(),
    {
        &self.key
    }

    pub fn value(&self) -> (value: &V)
        ensures
            *value == self.spec_value(),
    {
        &self.value
    }

    pub fn value_mut(&mut self) -> (value: &mut V)
        ensures
            *value == old(self).spec_value(),
            final(self).spec_key() == old(self).spec_key(),
            final(self).spec_value() == *final(value),
    {
        &mut self.value
    }

    pub fn set_value(&mut self, value: V)
        ensures
            final(self).spec_key() == old(self).spec_key(),
            final(self).spec_value() == value,
    {
        self.value = value;
    }

    /// The key, and the value to be changed in place.
    pub fn pair_mut(&mut self) -> (pair: (&K, &mut V))
        ensures
            *pair.0 == old(self).spec_key(),
            *pair.1 == old(self).spec_value(),
            final(self).spec_key() == old(self).spec_key(),
            final(self).spec_value() == *final(pair.1),
    {
        (&self.key, &mut self.value)
    }
}

#[derive(Debug)]
pub enum Entry<K, V> {
    Vacant,
    Occupied(OccupiedEntry<K, V>),
    Tombstone,
}

impl<K, V> Entry<K, V> {
    pub fn is_vacant(&self) -> (b: bool)
        ensures
            b == (self is Vacant),
    {
        matches!(self, Self::Vacant)
    }

    pub fn is_occupied(&self) -> (b: bool)
        ensures
            b == (self is Occupied),
    {
        matches!(self, Self::Occupied { .. })
    }

    pub fn is_tombstone(&self) -> (b: bool)
        ensures
            b == (self is Tombstone),
    {
        matches!(self, Self::Tombstone)
    }

    pub fn as_occupied(&self) -> (entry: Option<&OccupiedEntry<K, V>>)
        ensures
            match entry {
                Some(entry) => *self == Entry::Occupied(*entry),
                None => !(self is Occupied),
            },
    {
        if let Self::Occupied(v) = self {
            Some(v)
        } else {
            None
        }
    }

    pub fn as_occupied_mut(&mut self) -> (entry: Option<&mut OccupiedEntry<K, V>>)
        ensures
            match entry {
                Some(entry) => *old(self) == Entry::Occupied(*entry) && *final(self)
                    == Entry::Occupied(*final(entry)),
                None => !(*old(self) is Occupied) && *final(self) == *old(self),
            },
    {
        if let Self::Occupied(v) = self {
            Some(v)
        } else {
            None
        }
    }

    pub fn occupy(&mut self, occupied_entry: OccupiedEntry<K, V>)
        ensures
            *final(self) == Entry::Occupied(occupied_entry),
    {
        *self = Self::Occupied(occupied_entry);
    }
}

impl<K, V> Default for Entry<K, V> {
    fn default() -> (entry: Self)
        ensures
            entry is Vacant,
    {
        Self::Vacant
    }
}

/// The slot that lies `distance` steps after `home`, going round at `capacity`.
pub open spec fn probe(home: int, distance: int, capacity: int) -> int {
    if home + distance < capacity {
        home + distance
    } else {
        home + distance - capacity
    }
}

/// How many steps lead from `home` to `index`, going round at `capacity`.
pub open spec fn distance(home: int, index: int, capacity: int) -> int {
    if index >= home {
        index - home
    } else {
        index + capacity - home
    }
}

/// The largest number of slots in use that a table of `capacity` slots
/// accepts: three quarters of them.
pub open spec fn max_load(capacity: nat) -> nat {
    (capacity / 4 * 3 + (capacity % 4) * 3 / 4) as nat
}

/// Whether a slot counts: as occupied where `occupied_only`, else as in use
/// (occupied, or a tombstone).
pub open spec fn counts<K, V>(slot: Option<Entry<K, V>>, occupied_only: bool) -> bool {
    match slot {
        Some(Entry::Occupied(_)) => true,
        Some(Entry::Tombstone) => !occupied_only,
        _ => false,
    }
}

/// How many of the first `n` slots count.
pub open spec fn count_slots<K, V>(
    slots: Seq<Option<Entry<K, V>>>,
    n: nat,
    occupied_only: bool,
) -> nat
    decreases n,
{
    if n == 0 {
        0
    } else {
        count_slots(slots, (n - 1) as nat, occupied_only) + if counts(
            slots[n - 1],
            occupied_only,
        ) {
            1nat
        } else {
            0nat
        }
    }
}

proof fn lemma_count_slots_bound<K, V>(
    slots: Seq<Option<Entry<K, V>>>,
    n: nat,
    occupied_only: bool,
)
    ensures
        count_slots(slots, n, occupied_only) <= n,
        (forall|i: int| 0 <= i < n ==> counts(#[trigger] slots[i], occupied_only)) ==> count_slots(
            slots,
            n,
            occupied_only,
        ) == n,
        (forall|i: int| 0 <= i < n ==> !counts(#[trigger] slots[i], occupied_only))
            ==> count_slots(slots, n, occupied_only) == 0,
    decreases n,
{
    if n > 0 {
        lemma_count_slots_bound(slots, (n - 1) as nat, occupied_only);
    }
}

proof fn lemma_count_slots_update<K, V>(
    slots: Seq<Option<Entry<K, V>>>,
    n: nat,
    index: int,
    entry: Option<Entry<K, V>>,
    occupied_only: bool,
)
    requires
        n <= slots.len(),
        0 <= index < slots.len(),
    ensures
        count_slots(slots.update(index, entry), n, occupied_only) == if index < n {
            count_slots(slots, n, occupied_only) - (if counts(slots[index], occupied_only) {
                1int
            } else {
                0int
            }) + (if counts(entry, occupied_only) {
                1int
            } else {
                0int
            })
        } else {
            count_slots(slots, n, occupied_only) as int
        },
    decreases n,
{
    if n > 0 {
        lemma_count_slots_update(slots, (n - 1) as nat, index, entry, occupied_only);
    }
}

/// Two tables that agree from slot `from` on count alike there.
proof fn lemma_count_slots_step<K, V>(slots: Seq<Option<Entry<K, V>>>, n: nat, occupied_only: bool)
    requires
        n < slots.len(),
    ensures
        count_slots(slots, n + 1, occupied_only) == count_slots(slots, n, occupied_only) + if counts(
            slots[n as int],
            occupied_only,
        ) {
            1nat
        } else {
            0nat
        },
{
}

/// Slots that agree below `n` count alike below `n`.
proof fn lemma_count_slots_agree<K, V>(
    a: Seq<Option<Entry<K, V>>>,
    b: Seq<Option<Entry<K, V>>>,
    n: nat,
    occupied_only: bool,
)
    requires
        forall|i: int| 0 <= i < n ==> counts(a[i], occupied_only) == counts(b[i], occupied_only),
    ensures
        count_slots(a, n, occupied_only) == count_slots(b, n, occupied_only),
    decreases n,
{
    if n > 0 {
        lemma_count_slots_agree(a, b, (n - 1) as nat, occupied_only);
    }
}

#[derive(Debug)]
pub struct HashMapInner<K, V> {
    entries: RawArray<Entry<K, V>>,
}

impl<K: Key, V> HashMapInner<K, V> {
    pub closed spec fn spec_capacity(&self) -> nat {
        self.entries@.len()
    }

    /// What the slot at `index` holds.
    pub closed spec fn slot(&self, index: int) -> Entry<K, V> {
        self.entries@[index]->0
    }

    /// The slots as the buffer holds them.
    pub closed spec fn slots(&self) -> Seq<Option<Entry<K, V>>> {
        self.entries@
    }

    /// The identity of the key in the occupied slot at `index`.
    pub open spec fn key_id(&self, index: int) -> K::Id {
        self.slot(index)->Occupied_0.spec_key().id()
    }

    /// The slot where probing for `id` starts.
    pub open spec fn home(&self, id: K::Id) -> int {
        (K::hash_of(id) as int) % (self.spec_capacity() as int)
    }

    /// The slot `steps` steps along the path on which the key at `index` is
    /// looked for.
    pub open spec fn path_slot(&self, index: int, steps: int) -> Entry<K, V> {
        self.slot(probe(self.home(self.key_id(index)), steps, self.spec_capacity() as int))
    }

    /// Every slot holds an entry.
    pub closed spec fn filled(&self) -> bool {
        forall|i: int| 0 <= i < self.entries@.len() ==> (#[trigger] self.entries@[i]) is Some
    }

    /// No vacant slot lies on the path from a key's home to the key.
    pub open spec fn reachable(&self) -> bool {
        forall|i: int, j: int|
            0 <= i < self.spec_capacity() && self.slot(i) is Occupied && 0 <= j < distance(
                self.home(self.key_id(i)),
                i,
                self.spec_capacity() as int,
            ) ==> !(#[trigger] self.path_slot(i, j) is Vacant)
    }

    /// No key occupies two slots.
    pub open spec fn unique(&self) -> bool {
        forall|i: int, j: int|
            0 <= i < self.spec_capacity() && 0 <= j < self.spec_capacity() && (#[trigger] self.slot(
                i,
            )) is Occupied && (#[trigger] self.slot(j)) is Occupied && self.key_id(i)
                == self.key_id(j) ==> i == j
    }

    /// No occupied slot holds a key with identity `id`.
    pub open spec fn absent(&self, id: K::Id) -> bool {
        forall|i: int|
            0 <= i < self.spec_capacity() && (#[trigger] self.slot(i)) is Occupied ==> self.key_id(
                i,
            ) != id
    }

    pub open spec fn wf(&self) -> bool {
        &&& self.filled()
        &&& self.reachable()
        &&& self.unique()
    }

    /// Whether an occupied slot holds a key with identity `id`.
    pub open spec fn has(&self, id: K::Id) -> bool {
        exists|i: int|
            0 <= i < self.spec_capacity() && (#[trigger] self.slot(i)) is Occupied && self.key_id(i)
                == id
    }

    /// An occupied slot that holds a key with identity `id`.
    pub open spec fn place(&self, id: K::Id) -> int {
        choose|i: int|
            0 <= i < self.spec_capacity() && (#[trigger] self.slot(i)) is Occupied && self.key_id(i)
                == id
    }

    /// The map that the table stands for: from the identity of the key of
    /// each occupied slot to the value there.
    pub open spec fn map_view(&self) -> Map<K::Id, V> {
        Map::new(
            |id: K::Id| self.has(id),
            |id: K::Id| self.slot(self.place(id))->Occupied_0.spec_value(),
        )
    }

    /// The pair of an occupied slot is a pair of the map.
    pub proof fn lemma_pair(&self, index: int)
        requires
            self.unique(),
            0 <= index < self.spec_capacity(),
            self.slot(index) is Occupied,
        ensures
            self.has(self.key_id(index)),
            self.place(self.key_id(index)) == index,
            self.map_view().contains_key(self.key_id(index)),
            self.map_view()[self.key_id(index)] == self.slot(index)->Occupied_0.spec_value(),
    {
        let found = self.place(self.key_id(index));
        assert(self.slot(found) is Occupied);
    }

    /// What the map is after the slot at `index` of `before` has changed.
    pub proof fn lemma_after_update(&self, before: Self, index: int)
        requires
            before.unique(),
            self.unique(),
            self.spec_capacity() == before.spec_capacity(),
            0 <= index < self.spec_capacity(),
            forall|i: int|
                0 <= i < self.spec_capacity() && i != index ==> self.slot(i) == before.slot(i),
        ensures
            self.map_view() == ({
                let rest = if before.slot(index) is Occupied {
                    before.map_view().remove(before.key_id(index))
                } else {
                    before.map_view()
                };
                if self.slot(index) is Occupied {
                    rest.insert(self.key_id(index), self.slot(index)->Occupied_0.spec_value())
                } else {
                    rest
                }
            }),
    {
        let rest = if before.slot(index) is Occupied {
            before.map_view().remove(before.key_id(index))
        } else {
            before.map_view()
        };
        let expected = if self.slot(index) is Occupied {
            rest.insert(self.key_id(index), self.slot(index)->Occupied_0.spec_value())
        } else {
            rest
        };
        assert forall|id: K::Id| self.map_view().contains_key(id) implies expected.contains_key(
            id,
        ) && expected[id] == self.map_view()[id] by {
            let found = self.place(id);
            assert(self.slot(found) is Occupied);
            self.lemma_pair(found);
            if found != index {
                assert(before.slot(found) == self.slot(found));
                before.lemma_pair(found);
                if before.slot(index) is Occupied {
                    assert(before.key_id(index) != id);
                }
            }
        }
        assert forall|id: K::Id| expected.contains_key(id) implies self.map_view().contains_key(
            id,
        ) by {
            if self.slot(index) is Occupied && id == self.key_id(index) {
                self.lemma_pair(index);
            } else {
                assert(before.map_view().contains_key(id));
                let found = before.place(id);
                assert(before.slot(found) is Occupied);
                before.lemma_pair(found);
                if found == index {
                    assert(false);
                }
                assert(self.slot(found) == before.slot(found));
                self.lemma_pair(found);
            }
        }
        assert(self.map_view() =~= expected);
    }

    /// A key is absent from the slots exactly when the map lacks it.
    pub proof fn lemma_absent(&self, id: K::Id)
        ensures
            self.absent(id) <==> !self.map_view().contains_key(id),
    {
        if self.has(id) {
            let found = self.place(id);
            assert(self.slot(found) is Occupied);
        }
    }

    pub fn new() -> (inner: Self)
        ensures
            inner.wf(),
            inner.spec_capacity() == 0,
    {
        Self { entries: RawArray::new() }
    }

    /// A table of `capacity` vacant slots.
    pub fn with_capacity(capacity: usize) -> (inner: Self)
        ensures
            inner.wf(),
            inner.spec_capacity() == capacity,
            forall|i: int| 0 <= i < capacity ==> (#[trigger] inner.slot(i)) is Vacant,
    {
        let mut entries: RawArray<Entry<K, V>> = RawArray::with_capacity(capacity);
        let mut i: usize = 0;
        while i < capacity
            invariant
                i <= capacity,
                entries@.len() == capacity,
                forall|j: int| 0 <= j < i ==> (#[trigger] entries@[j]) == Some(Entry::<K, V>::Vacant),
            decreases capacity - i,
        {
            entries.set(i, Entry::Vacant);
            i += 1;
        }
        Self { entries }
    }

    /// A table of vacant slots: as many as a buffer of `capacity` slots
    /// grows to.
    pub fn grown(capacity: usize) -> (inner: Self)
        ensures
            inner.wf(),
            inner.spec_capacity() == crate::raw_array::grown_capacity(capacity as nat),
            forall|i: int| 0 <= i < inner.spec_capacity() ==> (#[trigger] inner.slot(i)) is Vacant,
    {
        let mut entries: RawArray<Entry<K, V>> = RawArray::with_capacity(capacity);
        entries.grow(None);
        let target = entries.capacity();
        let mut i: usize = 0;
        while i < target
            invariant
                i <= target,
                entries@.len() == target,
                forall|j: int| 0 <= j < i ==> (#[trigger] entries@[j]) == Some(Entry::<K, V>::Vacant),
            decreases target - i,
        {
            entries.set(i, Entry::Vacant);
            i += 1;
        }
        Self { entries }
    }

    pub fn capacity(&self) -> (capacity: usize)
        ensures
            capacity == self.spec_capacity(),
    {
        self.entries.capacity()
    }

    /// The slot for `key`: the one that holds it, or, where no slot does, the
    /// first tombstone on its path, or the vacant slot that ends the path.
    pub fn find_entry_index(&self, key: &K) -> (index: usize)
        requires
            self.wf(),
            exists|v: int| 0 <= v < self.spec_capacity() && (#[trigger] self.slot(v)) is Vacant,
        ensures
            index < self.spec_capacity(),
            match self.slot(index as int) {
                Entry::Occupied(entry) => entry.spec_key().id() == key.id(),
                _ => self.absent(key.id()),
            },
            forall|j: int|
                0 <= j < distance(self.home(key.id()), index as int, self.spec_capacity() as int)
                    ==> !(#[trigger] self.slot(
                    probe(self.home(key.id()), j, self.spec_capacity() as int),
                ) is Vacant),
    {
        let capacity = self.capacity();
        let hash = key.hash();
        let mut index = (hash % capacity as u64) as usize;
        let mut tombstone: Option<usize> = None;
        let ghost home = index as int;
        let ghost cap = capacity as int;
        let ghost vacant = choose|v: int| 0 <= v < self.spec_capacity() && (#[trigger] self.slot(v)) is Vacant;
        let ghost mut steps: int = 0;
        assert(home == self.home(key.id()));
        loop
            invariant
                self.wf(),
                cap == capacity == self.spec_capacity(),
                0 <= home < cap,
                home == self.home(key.id()),
                0 <= steps < cap,
                index == probe(home, steps, cap),
                0 <= vacant < cap,
                self.slot(vacant) is Vacant,
                forall|j: int|
                    0 <= j < steps ==> !(#[trigger] self.slot(probe(home, j, cap)) is Vacant),
                forall|j: int|
                    0 <= j < steps && (#[trigger] self.slot(probe(home, j, cap))) is Occupied
                        ==> self.key_id(probe(home, j, cap)) != key.id(),
                match tombstone {
                    Some(t) => t < cap && self.slot(t as int) is Tombstone && distance(
                        home,
                        t as int,
                        cap,
                    ) < steps,
                    None => true,
                },
            decreases cap - steps,
        {
            let entry = self.get_entry(index);
            match entry {
                Entry::Vacant => {
                    proof {
                        assert forall|i: int|
                            0 <= i < self.spec_capacity() && (#[trigger] self.slot(
                                i,
                            )) is Occupied implies self.key_id(i) != key.id() by {
                            if self.key_id(i) == key.id() {
                                let d = distance(home, i, cap);
                                assert(probe(home, d, cap) == i);
                                if d < steps {
                                    assert(self.slot(probe(home, d, cap)) is Occupied);
                                } else if d > steps {
                                    assert(!(self.path_slot(i, steps) is Vacant));
                                }
                            }
                        }
                    }
                    return match tombstone {
                        Some(tombstone_index) => tombstone_index,
                        None => index,
                    };
                },
                Entry::Tombstone => {
                    if tombstone.is_none() {
                        tombstone = Some(index);
                    }
                },
                Entry::Occupied(entry) => {
                    if entry.key().same(key) {
                        return index;
                    }
                },
            }
            proof {
                if steps + 1 == cap {
                    let d = distance(home, vacant, cap);
                    assert(probe(home, d, cap) == vacant);
                    if d < steps {
                        assert(!(self.slot(probe(home, d, cap)) is Vacant));
                    }
                    assert(false);
                }
                steps = steps + 1;
            }
            index = if index + 1 == capacity {
                0
            } else {
                index + 1
            };
        }
    }

    /// The entry in the slot for `key`: see `find_entry_index`.
    pub fn find_entry(&self, key: &K) -> (entry: &Entry<K, V>)
        requires
            self.wf(),
            exists|v: int| 0 <= v < self.spec_capacity() && (#[trigger] self.slot(v)) is Vacant,
        ensures
            match *entry {
                Entry::Occupied(entry) => entry.spec_key().id() == key.id() && exists|i: int|
                    0 <= i < self.spec_capacity() && (#[trigger] self.slot(i)) == Entry::Occupied(
                        entry,
                    ),
                _ => self.absent(key.id()),
            },
    {
        let index = self.find_entry_index(key);
        proof {
            let _ = self.slot(index as int);
        }
        self.get_entry(index)
    }

    /// The entry in the slot at `index`.
    pub fn get_entry(&self, index: usize) -> (entry: &Entry<K, V>)
        requires
            self.filled(),
            index < self.spec_capacity(),
        ensures
            *entry == self.slot(index as int),
    {
        match self.entries.get(index) {
            Some(entry) => entry,
            None => {
                proof {
                    assert(self.entries@[index as int] is Some);
                }
                unreached()
            },
        }
    }

    /// The entry in the slot at `index`, to be changed in place.
    pub fn get_entry_mut(&mut self, index: usize) -> (entry: &mut Entry<K, V>)
        requires
            old(self).filled(),
            index < old(self).spec_capacity(),
        ensures
            *entry == old(self).slot(index as int),
            final(self).filled(),
            final(self).spec_capacity() == old(self).spec_capacity(),
            final(self).slots() == old(self).slots().update(index as int, Some(*final(entry))),
            final(self).slot(index as int) == *final(entry),
            forall|i: int|
                0 <= i < old(self).spec_capacity() && i != index ==> final(self).slot(i) == old(
                    self,
                ).slot(i),
    {
        match self.entries.get_mut(index) {
            Some(entry) => entry,
            None => {
                proof {
                    assert(old(self).entries@[index as int] is Some);
                }
                unreached()
            },
        }
    }

    /// The entry in the slot for `key`, to be changed in place: see
    /// `find_entry_index`.
    pub fn find_entry_mut(&mut self, key: &K) -> (entry: &mut Entry<K, V>)
        requires
            old(self).wf(),
            exists|v: int|
                0 <= v < old(self).spec_capacity() && (#[trigger] old(self).slot(v)) is Vacant,
        ensures
            match *entry {
                Entry::Occupied(entry) => entry.spec_key().id() == key.id(),
                _ => old(self).absent(key.id()),
            },
            final(self).filled(),
            final(self).spec_capacity() == old(self).spec_capacity(),
            exists|index: int|
                0 <= index < old(self).spec_capacity() && *entry == old(self).slot(index)
                    && #[trigger] final(self).slots() == old(self).slots().update(
                    index,
                    Some(*final(entry)),
                ),
    {
        let index = self.find_entry_index(key);
        self.get_entry_mut(index)
    }

    /// Puts `entry` into the slot at `index`.
    pub fn set_entry(&mut self, index: usize, entry: Entry<K, V>)
        requires
            old(self).filled(),
            index < old(self).spec_capacity(),
        ensures
            final(self).filled(),
            final(self).spec_capacity() == old(self).spec_capacity(),
            final(self).slots() == old(self).slots().update(index as int, Some(entry)),
            final(self).slot(index as int) == entry,
            forall|i: int|
                0 <= i < old(self).spec_capacity() && i != index ==> final(self).slot(i) == old(
                    self,
                ).slot(i),
    {
        self.entries.set(index, entry);
    }

    /// Puts `entry` into the slot at `index`, which `find_entry_index` gave
    /// for its key while no slot held that key.
    pub fn occupy(&mut self, index: usize, entry: OccupiedEntry<K, V>)
        requires
            old(self).wf(),
            index < old(self).spec_capacity(),
            !(old(self).slot(index as int) is Occupied),
            old(self).absent(entry.spec_key().id()),
            forall|j: int|
                0 <= j < distance(
                    old(self).home(entry.spec_key().id()),
                    index as int,
                    old(self).spec_capacity() as int,
                ) ==> !(#[trigger] old(self).slot(
                    probe(
                        old(self).home(entry.spec_key().id()),
                        j,
                        old(self).spec_capacity() as int,
                    ),
                ) is Vacant),
        ensures
            final(self).wf(),
            final(self).spec_capacity() == old(self).spec_capacity(),
            final(self).slots() == old(self).slots().update(
                index as int,
                Some(Entry::Occupied(entry)),
            ),
            final(self).slot(index as int) == Entry::Occupied(entry),
            forall|i: int|
                0 <= i < old(self).spec_capacity() && i != index ==> final(self).slot(i) == old(
                    self,
                ).slot(i),
            final(self).map_view() == old(self).map_view().insert(
                entry.spec_key().id(),
                entry.spec_value(),
            ),
    {
        let ghost id = entry.spec_key().id();
        self.set_entry(index, Entry::Occupied(entry));
        proof {
            let cap = self.spec_capacity() as int;
            assert forall|i: int, j: int|
                0 <= i < self.spec_capacity() && self.slot(i) is Occupied && 0 <= j < distance(
                    self.home(self.key_id(i)),
                    i,
                    cap,
                ) implies !(#[trigger] self.path_slot(i, j) is Vacant) by {
                let p = probe(self.home(self.key_id(i)), j, cap);
                if p != index {
                    assert(self.slot(p) == old(self).slot(p));
                    if i != index {
                        assert(self.slot(i) == old(self).slot(i));
                        assert(!(old(self).path_slot(i, j) is Vacant));
                    } else {
                        assert(!(old(self).slot(probe(old(self).home(id), j, cap)) is Vacant));
                    }
                }
            }
            assert forall|i: int, j: int|
                0 <= i < self.spec_capacity() && 0 <= j < self.spec_capacity() && (
                #[trigger] self.slot(i)) is Occupied && (#[trigger] self.slot(j)) is Occupied
                    && self.key_id(i) == self.key_id(j) implies i == j by {
                if i != index {
                    assert(self.slot(i) == old(self).slot(i));
                }
                if j != index {
                    assert(self.slot(j) == old(self).slot(j));
                }
            }
            self.lemma_after_update(*old(self), index as int);
        }
    }

    /// Replaces the value in the occupied slot at `index`; the key stays.
    pub fn overwrite(&mut self, index: usize, value: V)
        requires
            old(self).wf(),
            index < old(self).spec_capacity(),
            old(self).slot(index as int) is Occupied,
        ensures
            final(self).wf(),
            final(self).spec_capacity() == old(self).spec_capacity(),
            final(self).slot(index as int) is Occupied,
            final(self).key_id(index as int) == old(self).key_id(index as int),
            final(self).slot(index as int)->Occupied_0.spec_value() == value,
            final(self).slots() == old(self).slots().update(
                index as int,
                Some(final(self).slot(index as int)),
            ),
            forall|i: int|
                0 <= i < old(self).spec_capacity() && i != index ==> final(self).slot(i) == old(
                    self,
                ).slot(i),
            final(self).map_view() == old(self).map_view().insert(
                old(self).key_id(index as int),
                value,
            ),
    {
        let previous = self.replace_entry(index, Entry::Tombstone);
        let ghost middle = *self;
        match previous {
            Entry::Occupied(mut entry) => {
                entry.set_value(value);
                self.set_entry(index, Entry::Occupied(entry));
            },
            _ => {
                proof {
                    assert(false);
                }
            },
        }
        proof {
            let cap = self.spec_capacity() as int;
            assert(self.slots() =~= old(self).slots().update(
                index as int,
                Some(self.slot(index as int)),
            ));
            assert forall|i: int|
                0 <= i < self.spec_capacity() && self.slot(i) is Occupied implies old(self).slot(
                    i,
                ) is Occupied && self.key_id(i) == old(self).key_id(i) by {
                if i != index {
                    assert(self.slot(i) == middle.slot(i));
                    assert(middle.slot(i) == old(self).slot(i));
                }
            }
            assert forall|i: int, j: int|
                0 <= i < self.spec_capacity() && self.slot(i) is Occupied && 0 <= j < distance(
                    self.home(self.key_id(i)),
                    i,
                    cap,
                ) implies !(#[trigger] self.path_slot(i, j) is Vacant) by {
                let p = probe(self.home(self.key_id(i)), j, cap);
                if p != index {
                    assert(self.slot(p) == middle.slot(p));
                    assert(middle.slot(p) == old(self).slot(p));
                    assert(!(old(self).path_slot(i, j) is Vacant));
                }
            }
            assert(self.unique());
            self.lemma_after_update(*old(self), index as int);
            assert(old(self).map_view().remove(old(self).key_id(index as int)).insert(
                old(self).key_id(index as int),
                value,
            ) =~= old(self).map_view().insert(old(self).key_id(index as int), value));
        }
    }

    /// Takes the key out of the occupied slot at `index`: a tombstone stays
    /// there.
    pub fn vacate(&mut self, index: usize)
        requires
            old(self).wf(),
            index < old(self).spec_capacity(),
            old(self).slot(index as int) is Occupied,
        ensures
            final(self).wf(),
            final(self).spec_capacity() == old(self).spec_capacity(),
            final(self).slot(index as int) is Tombstone,
            final(self).slots() == old(self).slots().update(
                index as int,
                Some(Entry::<K, V>::Tombstone),
            ),
            forall|i: int|
                0 <= i < old(self).spec_capacity() && i != index ==> final(self).slot(i) == old(
                    self,
                ).slot(i),
            final(self).map_view() == old(self).map_view().remove(old(self).key_id(index as int)),
    {
        self.set_entry(index, Entry::Tombstone);
        proof {
            let cap = self.spec_capacity() as int;
            assert forall|i: int|
                0 <= i < self.spec_capacity() && self.slot(i) is Occupied implies i != index && old(
                    self,
                ).slot(i) is Occupied && self.key_id(i) == old(self).key_id(i) by {
                assert(self.slot(i) == old(self).slot(i));
            }
            assert forall|i: int, j: int|
                0 <= i < self.spec_capacity() && self.slot(i) is Occupied && 0 <= j < distance(
                    self.home(self.key_id(i)),
                    i,
                    cap,
                ) implies !(#[trigger] self.path_slot(i, j) is Vacant) by {
                let p = probe(self.home(self.key_id(i)), j, cap);
                if p != index {
                    assert(self.slot(p) == old(self).slot(p));
                    assert(!(old(self).path_slot(i, j) is Vacant));
                }
            }
            assert(self.unique());
            self.lemma_after_update(*old(self), index as int);
        }
    }

    /// Takes the entry out of the slot at `index` and leaves `entry` there.
    pub fn replace_entry(&mut self, index: usize, entry: Entry<K, V>) -> (previous: Entry<K, V>)
        requires
            old(self).filled(),
            index < old(self).spec_capacity(),
        ensures
            previous == old(self).slot(index as int),
            final(self).filled(),
            final(self).spec_capacity() == old(self).spec_capacity(),
            final(self).slots() == old(self).slots().update(index as int, Some(entry)),
            final(self).slot(index as int) == entry,
            forall|i: int|
                0 <= i < old(self).spec_capacity() && i != index ==> final(self).slot(i) == old(
                    self,
                ).slot(i),
    {
        let previous = self.entries.take(index);
        self.entries.set(index, entry);
        assert(self.entries@ =~= old(self).entries@.update(index as int, Some(entry)));
        match previous {
            Some(previous) => previous,
            None => {
                proof {
                    assert(old(self).entries@[index as int] is Some);
                }
                unreached()
            },
        }
    }
}

pub struct HashMap<K: Key, V> {
    inner: HashMapInner<K, V>,
    /// How many slots are occupied.
    len: usize,
    /// How many slots are not vacant.
    used: usize,
}

impl<K: Key, V> View for HashMap<K, V> {
    type V = Map<K::Id, V>;

    closed spec fn view(&self) -> Map<K::Id, V> {
        self.inner.map_view()
    }
}

impl<K: Key, V> HashMap<K, V> {
    pub closed spec fn spec_capacity(&self) -> nat {
        self.inner.spec_capacity()
    }

    /// What the slot at `index` holds.
    pub closed spec fn slot(&self, index: int) -> Entry<K, V> {
        self.inner.slot(index)
    }

    /// The table's invariant: the slots are laid out so that probing finds
    /// every key, no more than three quarters of them are in use, and the
    /// table knows how many are occupied.
    pub closed spec fn wf(&self) -> bool {
        &&& self.inner.wf()
        &&& self.len == count_slots(self.inner.slots(), self.inner.spec_capacity(), true)
        &&& self.used == count_slots(self.inner.slots(), self.inner.spec_capacity(), false)
        &&& self.used <= max_load(self.inner.spec_capacity())
        &&& self.inner.map_view().dom().finite()
        &&& self.len == self.inner.map_view().dom().len()
    }

    pub fn new() -> (map: Self)
        ensures
            map.wf(),
            map@ == Map::<K::Id, V>::empty(),
            map.spec_capacity() == 0,
    {
        let map = Self { inner: HashMapInner::new(), len: 0, used: 0 };
        assert(map.inner.map_view() =~= Map::<K::Id, V>::empty());
        map
    }

    /// Binds `key` to `value`. Says whether the key is new to the table.
    pub fn set(&mut self, key: K, value: V) -> (fresh: bool)
        requires
            old(self).wf(),
        ensures
            final(self).wf(),
            final(self)@ == old(self)@.insert(key.id(), value),
            fresh == !old(self)@.contains_key(key.id()),
            final(self).spec_capacity() == old(self).spec_capacity() || final(self).spec_capacity()
                == crate::raw_array::grown_capacity(old(self).spec_capacity()),
    {
        if self.needs_to_grow() {
            self.grow()
        }
        proof {
            self.lemma_has_vacant();
        }
        let ghost before = *self;
        let ghost id = key.id();
        let capacity = self.inner.capacity();
        proof {
            lemma_count_occupied_le_used(self.inner.slots(), self.inner.spec_capacity());
        }
        let index = self.inner.find_entry_index(&key);
        let vacant = self.inner.get_entry(index).is_vacant();
        let fresh = !self.inner.get_entry(index).is_occupied();
        proof {
            before.inner.lemma_absent(id);
            if !fresh {
                before.inner.lemma_pair(index as int);
            }
        }
        if fresh {
            self.inner.occupy(index, OccupiedEntry::new(key, value));
            self.len += 1;
            if vacant {
                self.used += 1;
            }
        } else {
            self.inner.overwrite(index, value);
        }
        proof {
            lemma_count_slots_update(
                before.inner.slots(),
                before.inner.spec_capacity(),
                index as int,
                Some(self.inner.slot(index as int)),
                true,
            );
            lemma_count_slots_update(
                before.inner.slots(),
                before.inner.spec_capacity(),
                index as int,
                Some(self.inner.slot(index as int)),
                false,
            );
            if !fresh {
                assert(self.inner.map_view().dom() =~= before.inner.map_view().dom());
            }
        }
        fresh
    }

    /// Moves every pair to a table of 8 slots, or of twice as many as before.
    /// Tombstones are left behind.
    fn grow(&mut self)
        requires
            old(self).wf(),
        ensures
            final(self).wf(),
            final(self)@ == old(self)@,
            final(self).spec_capacity() == crate::raw_array::grown_capacity(
                old(self).spec_capacity(),
            ),
            final(self).used + 1 <= max_load(final(self).inner.spec_capacity()),
    {
        let ghost before = *self;
        let old_capacity = self.inner.capacity();
        let mut fresh: HashMapInner<K, V> = HashMapInner::grown(old_capacity);
        let ghost new_capacity = fresh.spec_capacity();
        let mut moved: usize = 0;
        let mut i: usize = 0;
        proof {
            lemma_count_slots_bound(fresh.slots(), new_capacity, false);
            assert forall|s: int| 0 <= s < new_capacity implies !counts(
                #[trigger] fresh.slots()[s],
                false,
            ) by {
                assert(fresh.slot(s) is Vacant);
            }
        }
        while i < old_capacity
            invariant
                i <= old_capacity,
                old_capacity == before.inner.spec_capacity(),
                before.wf(),
                self.inner.filled(),
                self.inner.spec_capacity() == old_capacity,
                self.len == before.len,
                forall|t: int|
                    i <= t < old_capacity ==> (#[trigger] self.inner.slot(t)) == before.inner.slot(t),
                fresh.wf(),
                fresh.spec_capacity() == new_capacity,
                new_capacity == crate::raw_array::grown_capacity(old_capacity as nat),
                moved <= i,
                moved == count_slots(fresh.slots(), new_capacity, false),
                moved == count_slots(before.inner.slots(), i as nat, true),
                forall|s: int| 0 <= s < new_capacity ==> !((#[trigger] fresh.slot(s)) is Tombstone),
                forall|s: int|
                    0 <= s < new_capacity && (#[trigger] fresh.slot(s)) is Occupied ==> exists|
                        t: int,
                    |
                        0 <= t < i && (#[trigger] before.inner.slot(t)) == fresh.slot(s),
                forall|t: int|
                    0 <= t < i && (#[trigger] before.inner.slot(t)) is Occupied ==> exists|s: int|
                        0 <= s < new_capacity && (#[trigger] fresh.slot(s)) == before.inner.slot(t),
            decreases old_capacity - i,
        {
            let entry = self.inner.replace_entry(i, Entry::Vacant);
            let ghost fresh_before = fresh;
            proof {
                lemma_count_slots_step(before.inner.slots(), i as nat, true);
                assert(entry == before.inner.slot(i as int));
            }
            match entry {
                Entry::Occupied(occupied_entry) => {
                    proof {
                        lemma_count_slots_bound(fresh.slots(), new_capacity, false);
                        if forall|s: int|
                            0 <= s < new_capacity ==> counts(#[trigger] fresh.slots()[s], false) {
                            assert(false);
                        }
                        let v = choose|v: int|
                            0 <= v < new_capacity && !counts(#[trigger] fresh.slots()[v], false);
                        assert(fresh.slot(v) is Vacant);
                        assert(fresh.absent(occupied_entry.spec_key().id())) by {
                            assert forall|s: int|
                                0 <= s < fresh.spec_capacity() && (#[trigger] fresh.slot(
                                    s,
                                )) is Occupied implies fresh.key_id(s)
                                != occupied_entry.spec_key().id() by {
                                let t = choose|t: int|
                                    0 <= t < i && (#[trigger] before.inner.slot(t)) == fresh.slot(s);
                                assert(before.inner.slot(i as int) is Occupied);
                                assert(before.inner.unique());
                            }
                        }
                    }
                    let index = fresh.find_entry_index(occupied_entry.key());
                    proof {
                        assert(!(fresh.slot(index as int) is Tombstone));
                    }
                    fresh.occupy(index, occupied_entry);
                    moved += 1;
                    proof {
                        lemma_count_slots_update(
                            fresh_before.slots(),
                            new_capacity,
                            index as int,
                            Some(fresh.slot(index as int)),
                            false,
                        );
                        assert forall|s: int|
                            0 <= s < new_capacity && (#[trigger] fresh.slot(
                                s,
                            )) is Occupied implies exists|t: int|
                            0 <= t < i + 1 && (#[trigger] before.inner.slot(t)) == fresh.slot(s) by {
                            if s == index {
                                assert(before.inner.slot(i as int) == fresh.slot(s));
                            } else {
                                assert(fresh.slot(s) == fresh_before.slot(s));
                                let t = choose|t: int|
                                    0 <= t < i && (#[trigger] before.inner.slot(t))
                                        == fresh_before.slot(s);
                                assert(before.inner.slot(t) == fresh.slot(s));
                            }
                        }
                        assert forall|t: int|
                            0 <= t < i + 1 && (#[trigger] before.inner.slot(
                                t,
                            )) is Occupied implies exists|s: int|
                            0 <= s < new_capacity && (#[trigger] fresh.slot(s))
                                == before.inner.slot(t) by {
                            if t == i {
                                assert(fresh.slot(index as int) == before.inner.slot(t));
                            } else {
                                let s = choose|s: int|
                                    0 <= s < new_capacity && (#[trigger] fresh_before.slot(s))
                                        == before.inner.slot(t);
                                assert(s != index);
                                assert(fresh.slot(s) == fresh_before.slot(s));
                            }
                        }
                    }
                },
                _ => {},
            }
            i += 1;
        }
        self.inner = fresh;
        self.used = moved;
        proof {
            assert(moved == self.len);
            lemma_max_load_grows(old_capacity as nat);
            assert(before.used <= max_load(old_capacity as nat));
            lemma_count_occupied_le_used(before.inner.slots(), old_capacity as nat);
            assert(self.used + 1 <= max_load(new_capacity));
            assert(count_slots(self.inner.slots(), new_capacity, true) == count_slots(
                self.inner.slots(),
                new_capacity,
                false,
            )) by {
                assert forall|s: int| 0 <= s < new_capacity implies self.inner.slots()[s] != Some(
                    Entry::<K, V>::Tombstone,
                ) by {
                    assert(!(self.inner.slot(s) is Tombstone));
                }
                lemma_count_same_without_tombstones(self.inner.slots(), new_capacity);
            }
            assert forall|id: K::Id| self.inner.map_view().contains_key(
                id,
            ) implies before.inner.map_view().contains_key(id) && before.inner.map_view()[id]
                == self.inner.map_view()[id] by {
                let s = self.inner.place(id);
                assert(self.inner.slot(s) is Occupied);
                self.inner.lemma_pair(s);
                let t = choose|t: int|
                    0 <= t < old_capacity && (#[trigger] before.inner.slot(t)) == self.inner.slot(s);
                before.inner.lemma_pair(t);
            }
            assert forall|id: K::Id| before.inner.map_view().contains_key(
                id,
            ) implies self.inner.map_view().contains_key(id) by {
                let t = before.inner.place(id);
                assert(before.inner.slot(t) is Occupied);
                let s = choose|s: int|
                    0 <= s < new_capacity && (#[trigger] self.inner.slot(s)) == before.inner.slot(t);
                self.inner.lemma_pair(s);
            }
            assert(self.inner.map_view() =~= before.inner.map_view());
        }
    }

    /// Binds `key` to `value`, as `set` does.
    pub fn insert(&mut self, key: K, value: V) -> (fresh: bool)
        requires
            old(self).wf(),
        ensures
            final(self).wf(),
            final(self)@ == old(self)@.insert(key.id(), value),
            fresh == !old(self)@.contains_key(key.id()),
    {
        self.set(key, value)
    }

    pub fn contains_key(&self, key: &K) -> (b: bool)
        requires
            self.wf(),
        ensures
            b == self@.contains_key(key.id()),
    {
        self.get(key).is_some()
    }

    pub fn get(&self, key: &K) -> (value: Option<&V>)
        requires
            self.wf(),
        ensures
            match value {
                Some(value) => self@.contains_key(key.id()) && *value == self@[key.id()],
                None => !self@.contains_key(key.id()),
            },
    {
        if self.is_empty() {
            proof {
                if self.inner.map_view().contains_key(key.id()) {
                    assert(self.inner.map_view().dom().contains(key.id()));
                    assert(self.inner.map_view().dom().len() > 0);
                }
            }
            return None;
        }
        proof {
            self.lemma_has_vacant();
            self.inner.lemma_absent(key.id());
        }
        let index = self.inner.find_entry_index(key);
        match self.inner.get_entry(index) {
            Entry::Occupied(entry) => {
                proof {
                    assert(self.inner.slot(index as int) is Occupied);
                    self.inner.lemma_pair(index as int);
                }
                Some(entry.value())
            },
            _ => None,
        }
    }

    /// Unbinds `key`. Says whether the key was in the table.
    pub fn delete(&mut self, key: &K) -> (found: bool)
        requires
            old(self).wf(),
        ensures
            final(self).wf(),
            final(self)@ == old(self)@.remove(key.id()),
            found == old(self)@.contains_key(key.id()),
            final(self).spec_capacity() == old(self).spec_capacity(),
    {
        let ghost id = key.id();
        if self.is_empty() {
            proof {
                if self.inner.map_view().contains_key(id) {
                    assert(self.inner.map_view().dom().contains(id));
                    assert(self.inner.map_view().dom().len() > 0);
                }
                assert(self.inner.map_view().remove(id) =~= self.inner.map_view());
            }
            return false;
        }
        proof {
            self.lemma_has_vacant();
            self.inner.lemma_absent(id);
        }
        let ghost before = *self;
        let index = self.inner.find_entry_index(key);
        if !self.inner.get_entry(index).is_occupied() {
            proof {
                assert(self.inner.map_view().remove(id) =~= self.inner.map_view());
            }
            return false;
        }
        proof {
            before.inner.lemma_pair(index as int);
            assert(before.inner.map_view().dom().contains(id));
        }
        self.inner.vacate(index);
        self.len -= 1;
        proof {
            lemma_count_slots_update(
                before.inner.slots(),
                before.inner.spec_capacity(),
                index as int,
                Some(Entry::<K, V>::Tombstone),
                true,
            );
            lemma_count_slots_update(
                before.inner.slots(),
                before.inner.spec_capacity(),
                index as int,
                Some(Entry::<K, V>::Tombstone),
                false,
            );
        }
        true
    }

    /// Unbinds `key`, as `delete` does.
    pub fn remove(&mut self, key: &K) -> (found: bool)
        requires
            old(self).wf(),
        ensures
            final(self).wf(),
            final(self)@ == old(self)@.remove(key.id()),
            found == old(self)@.contains_key(key.id()),
    {
        self.delete(key)
    }

    pub fn capacity(&self) -> (capacity: usize)
        ensures
            capacity == self.spec_capacity(),
    {
        self.inner.capacity()
    }

    /// The first occupied slot at or after `from`; the capacity where there
    /// is none.
    pub closed spec fn next_occupied(&self, from: int) -> int
        decreases self.spec_capacity() - from,
    {
        if from < 0 || from >= self.inner.spec_capacity() {
            self.inner.spec_capacity() as int
        } else if self.inner.slot(from) is Occupied {
            from
        } else {
            self.next_occupied(from + 1)
        }
    }

    /// The identities of the keys in the occupied slots at or after `from`.
    pub closed spec fn keys_from(&self, from: int) -> Set<K::Id> {
        Set::new(
            |id: K::Id|
                exists|i: int|
                    from <= i < self.inner.spec_capacity() && (#[trigger] self.inner.slot(
                        i,
                    )) is Occupied && self.inner.key_id(i) == id,
        )
    }

    /// A well-formed table stands for a finite map, whose keys are those of
    /// the occupied slots.
    pub proof fn lemma_wf(&self)
        requires
            self.wf(),
        ensures
            self@.dom().finite(),
            self.keys_from(0) == self@.dom(),
    {
        assert(self.keys_from(0) =~= self@.dom());
    }

    /// No slot from `from` up to the next occupied one is occupied.
    proof fn lemma_next_occupied(&self, from: int)
        requires
            0 <= from <= self.inner.spec_capacity(),
        ensures
            from <= self.next_occupied(from) <= self.inner.spec_capacity(),
            self.next_occupied(from) < self.inner.spec_capacity() ==> self.inner.slot(
                self.next_occupied(from),
            ) is Occupied,
            forall|i: int|
                from <= i < self.next_occupied(from) ==> !((#[trigger] self.inner.slot(
                    i,
                )) is Occupied),
        decreases self.inner.spec_capacity() - from,
    {
        if from < self.inner.spec_capacity() && !(self.inner.slot(from) is Occupied) {
            self.lemma_next_occupied(from + 1);
        }
    }

    /// The key of the next occupied slot is among the keys from `from` on,
    /// and not among those behind the slot; where no slot is occupied from
    /// `from` on, no key is left.
    proof fn lemma_keys_step(&self, from: int)
        requires
            self.inner.unique(),
            0 <= from <= self.inner.spec_capacity(),
        ensures
            ({
                let index = self.next_occupied(from);
                if index < self.inner.spec_capacity() {
                    &&& self.keys_from(from).contains(self.inner.key_id(index))
                    &&& self.keys_from(index + 1) == self.keys_from(from).remove(
                        self.inner.key_id(index),
                    )
                } else {
                    self.keys_from(from) == Set::<K::Id>::empty()
                }
            }),
    {
        self.lemma_next_occupied(from);
        let index = self.next_occupied(from);
        if index < self.inner.spec_capacity() {
            let id = self.inner.key_id(index);
            assert(self.inner.slot(index) is Occupied);
            assert forall|other: K::Id| #[trigger]
                self.keys_from(index + 1).contains(other) == self.keys_from(from).remove(
                    id,
                ).contains(other) by {
                if self.keys_from(index + 1).contains(other) {
                    let i = choose|i: int|
                        index + 1 <= i < self.inner.spec_capacity() && (#[trigger] self.inner.slot(
                            i,
                        )) is Occupied && self.inner.key_id(i) == other;
                    assert(self.inner.slot(i) is Occupied);
                }
                if self.keys_from(from).remove(id).contains(other) {
                    let i = choose|i: int|
                        from <= i < self.inner.spec_capacity() && (#[trigger] self.inner.slot(
                            i,
                        )) is Occupied && self.inner.key_id(i) == other;
                    assert(self.inner.slot(i) is Occupied);
                    assert(i > index);
                }
            }
            assert(self.keys_from(index + 1) =~= self.keys_from(from).remove(id));
        } else {
            assert(self.keys_from(from) =~= Set::<K::Id>::empty());
        }
    }

    /// A walk over the pairs of the table, in the order of their slots. It
    /// hands out the pair of each key once.
    pub fn iter(&self) -> (iter: Iter<'_, K, V>)
        requires
            self.wf(),
        ensures
            iter.wf(),
            iter.position() == 0,
            *iter.table() == *self,
            iter.remaining() == self@.dom(),
    {
        proof {
            self.lemma_wf();
        }
        Iter { map: self, at: 0 }
    }

    /// A walk over the pairs of the table, in the order of their slots, that
    /// hands the values out to be changed in place: the pair of each key
    /// once. The table after the walk is the one that the walk ends with.
    pub fn iter_mut(&mut self) -> (iter: IterMut<'_, K, V>)
        requires
            old(self).wf(),
        ensures
            iter.wf(),
            iter.position() == 0,
            iter.items() == old(self)@,
            iter.remaining() == old(self)@.dom(),
            *iter.map == *old(self),
            *final(self) == *final(iter.map),
    {
        proof {
            self.lemma_wf();
        }
        IterMut { map: self, at: 0 }
    }

    pub fn len(&self) -> (len: usize)
        requires
            self.wf(),
        ensures
            len == self@.dom().len(),
    {
        self.len
    }

    pub fn is_empty(&self) -> (b: bool)
        requires
            self.wf(),
        ensures
            b == (self@.dom().len() == 0),
    {
        self.len == 0
    }

    /// Whether one more slot in use would pass three quarters of the slots.
    fn needs_to_grow(&self) -> (b: bool)
        requires
            self.wf(),
        ensures
            b == (self.used + 1 > max_load(self.inner.spec_capacity())),
    {
        let capacity = self.capacity();
        self.used + 1 > capacity / 4 * 3 + (capacity % 4) * 3 / 4
    }

    proof fn lemma_has_vacant(&self)
        requires
            self.wf(),
            self.inner.spec_capacity() > 0,
        ensures
            exists|v: int|
                0 <= v < self.inner.spec_capacity() && (#[trigger] self.inner.slot(v)) is Vacant,
    {
        lemma_count_slots_bound(self.inner.slots(), self.inner.spec_capacity(), false);
        if forall|i: int|
            0 <= i < self.inner.spec_capacity() ==> counts(#[trigger] self.inner.slots()[i], false) {
            assert(false);
        } else {
            let v = choose|v: int|
                0 <= v < self.inner.spec_capacity() && !counts(
                    #[trigger] self.inner.slots()[v],
                    false,
                );
            assert(self.inner.slot(v) is Vacant);
        }
    }
}

/// A table that grows accepts at least one more slot in use than before.
proof fn lemma_max_load_grows(capacity: nat)
    ensures
        max_load(capacity) + 1 <= max_load(crate::raw_array::grown_capacity(capacity)),
        max_load(capacity) <= capacity,
        capacity > 0 ==> max_load(capacity) < capacity,
{
}

/// No more slots are occupied than are in use.
proof fn lemma_count_occupied_le_used<K, V>(slots: Seq<Option<Entry<K, V>>>, n: nat)
    ensures
        count_slots(slots, n, true) <= count_slots(slots, n, false),
    decreases n,
{
    if n > 0 {
        lemma_count_occupied_le_used(slots, (n - 1) as nat);
    }
}

/// Where no slot is a tombstone, the slots in use are the occupied ones.
proof fn lemma_count_same_without_tombstones<K, V>(slots: Seq<Option<Entry<K, V>>>, n: nat)
    requires
        forall|i: int| 0 <= i < n ==> slots[i] != Some(Entry::<K, V>::Tombstone),
    ensures
        count_slots(slots, n, true) == count_slots(slots, n, false),
    decreases n,
{
    if n > 0 {
        lemma_count_same_without_tombstones(slots, (n - 1) as nat);
    }
}

impl<K: Key, V> Default for HashMap<K, V> {
    fn default() -> (map: Self)
        ensures
            map.wf(),
            map@ == Map::<K::Id, V>::empty(),
    {
        Self::new()
    }
}

/// A walk over the pairs of a table, in the order of their slots.
pub struct Iter<'a, K: Key, V> {
    map: &'a HashMap<K, V>,
    at: usize,
}

impl<'a, K: Key, V> Iter<'a, K, V> {
    pub closed spec fn wf(&self) -> bool {
        self.map.wf() && self.at <= self.map.inner.spec_capacity()
    }

    /// The table that is walked.
    pub closed spec fn table(&self) -> &'a HashMap<K, V> {
        self.map
    }

    /// The slot at which the walk goes on.
    pub closed spec fn position(&self) -> int {
        self.at as int
    }

    /// The keys whose pairs the walk has yet to hand out, by their
    /// identities.
    pub closed spec fn remaining(&self) -> Set<K::Id> {
        self.map.keys_from(self.at as int)
    }

    /// Hands out the pair of the next occupied slot and moves behind it, or
    /// `None` where no occupied slot is left. The key is one that was not
    /// handed out before, and `None` comes when none is left.
    pub fn next(&mut self) -> (pair: Option<(&'a K, &'a V)>)
        requires
            old(self).wf(),
        ensures
            final(self).wf(),
            final(self).table() == old(self).table(),
            match pair {
                Some((key, _)) => old(self).remaining().contains(key.id())
                    && final(self).remaining() == old(self).remaining().remove(key.id()),
                None => old(self).remaining() == Set::<K::Id>::empty() && final(self).remaining()
                    == old(self).remaining(),
            },
            ({
                let table = old(self).table();
                let index = table.next_occupied(old(self).position());
                match pair {
                    Some((key, value)) => {
                        &&& old(self).position() <= index < table.spec_capacity()
                        &&& table.slot(index) is Occupied
                        &&& table.slot(index)->Occupied_0.spec_key() == *key
                        &&& table.slot(index)->Occupied_0.spec_value() == *value
                        &&& table@.contains_key(key.id())
                        &&& table@[key.id()] == *value
                        &&& final(self).position() == index + 1
                    },
                    None => index == table.spec_capacity() && final(self).position() == index,
                }
            }),
    {
        let map: &'a HashMap<K, V> = self.map;
        let capacity = map.capacity();
        proof {
            map.lemma_keys_step(self.at as int);
        }
        while self.at < capacity
            invariant
                self.wf(),
                self.map == map,
                map == old(self).map,
                capacity == map.inner.spec_capacity(),
                old(self).at <= self.at,
                map.next_occupied(self.at as int) == map.next_occupied(old(self).at as int),
            decreases capacity - self.at,
        {
            let entry = map.inner.get_entry(self.at);
            self.at += 1;
            if let Entry::Occupied(occupied_entry) = entry {
                proof {
                    map.lemma_keys_step(old(self).at as int);
                }
                return Some((occupied_entry.key(), occupied_entry.value()));
            }
        }
        None
    }
}

/// A walk over the pairs of a table, in the order of their slots, that hands
/// the values out to be changed in place. Its fields are open to contracts,
/// which speak of the table that the walk leaves.
pub struct IterMut<'a, K: Key, V> {
    pub map: &'a mut HashMap<K, V>,
    pub at: usize,
}

impl<'a, K: Key, V> IterMut<'a, K, V> {
    pub open spec fn wf(&self) -> bool {
        self.map.wf() && self.at <= self.map.spec_capacity()
    }

    /// The map that the walked table stands for.
    pub open spec fn items(&self) -> Map<K::Id, V> {
        self.map@
    }

    /// The slot at which the walk goes on.
    pub open spec fn position(&self) -> int {
        self.at as int
    }

    /// The first occupied slot at or after `from`; the capacity where there
    /// is none.
    pub open spec fn next_occupied(&self, from: int) -> int {
        self.map.next_occupied(from)
    }

    pub open spec fn spec_capacity(&self) -> nat {
        self.map.spec_capacity()
    }

    /// The keys whose pairs the walk has yet to hand out, by their
    /// identities.
    pub open spec fn remaining(&self) -> Set<K::Id> {
        self.map.keys_from(self.at as int)
    }

    /// Hands out the key of the next occupied slot and its value, to be
    /// changed in place, and moves behind the slot; or `None` where no
    /// occupied slot is left.
    pub fn next(&mut self) -> (pair: Option<(&K, &mut V)>)
        requires
            old(self).wf(),
        ensures
            final(self).wf(),
            *final(final(self).map) == *final(old(self).map),
            final(self).spec_capacity() == old(self).spec_capacity(),
            match pair {
                Some((key, _)) => old(self).remaining().contains(key.id())
                    && final(self).remaining() == old(self).remaining().remove(key.id()),
                None => old(self).remaining() == Set::<K::Id>::empty() && final(self).remaining()
                    == old(self).remaining(),
            },
            final(self).position() == if pair is Some {
                old(self).next_occupied(old(self).position()) + 1
            } else {
                old(self).spec_capacity() as int
            },
            match pair {
                Some((key, value)) => {
                    &&& old(self).items().contains_key(key.id())
                    &&& old(self).items()[key.id()] == *value
                    &&& final(self).items() == old(self).items().insert(key.id(), *final(value))
                },
                None => final(self).items() == old(self).items() && old(self).next_occupied(
                    old(self).position(),
                ) == old(self).spec_capacity(),
            },
    {
        let capacity = self.map.capacity();
        let mut found: Option<usize> = None;
        proof {
            self.map.lemma_keys_step(self.at as int);
        }
        while self.at < capacity && found.is_none()
            invariant
                self.map.wf(),
                *self.map == *old(self).map,
                *final(self.map) == *final(old(self).map),
                capacity == self.map.inner.spec_capacity(),
                old(self).at <= self.at <= capacity,
                match found {
                    None => self.map.next_occupied(self.at as int) == old(self).map.next_occupied(
                        old(self).at as int,
                    ),
                    Some(at) => at + 1 == self.at && at == old(self).map.next_occupied(
                        old(self).at as int,
                    ) && self.map.inner.slot(at as int) is Occupied,
                },
            decreases capacity - self.at + if found is None { 1int } else { 0int },
        {
            let at = self.at;
            self.at += 1;
            if self.map.inner.get_entry(at).is_occupied() {
                found = Some(at);
            }
        }
        match found {
            None => None,
            Some(at) => {
                proof {
                    self.map.inner.lemma_pair(at as int);
                    lemma_value_change(*self.map, at as int);
                }
                let entry = self.map.inner.get_entry_mut(at);
                match entry.as_occupied_mut() {
                    Some(occupied) => Some(occupied.pair_mut()),
                    None => None,
                }
            },
        }
    }
}

/// Whether `after` is the table `before` with another value in the
/// occupied slot at `index`.
pub closed spec fn value_changed<K: Key, V>(before: HashMap<K, V>, after: HashMap<K, V>, index: int) -> bool {
    &&& after.len == before.len
    &&& after.used == before.used
    &&& after.inner.filled()
    &&& after.inner.spec_capacity() == before.inner.spec_capacity()
    &&& after.inner.slot(index) is Occupied
    &&& after.inner.key_id(index) == before.inner.key_id(index)
    &&& after.inner.slots() == before.inner.slots().update(index, Some(after.inner.slot(index)))
}

/// A table stays well formed when the value of an occupied slot changes,
/// and stands for the map with that value at the slot's key.
proof fn lemma_value_change<K: Key, V>(before: HashMap<K, V>, index: int)
    requires
        before.wf(),
        0 <= index < before.inner.spec_capacity(),
        before.inner.slot(index) is Occupied,
    ensures
        forall|after: HashMap<K, V>|
            value_changed(before, after, index) ==> #[trigger] after.wf() && after.inner.map_view()
                == before.inner.map_view().insert(
                before.inner.key_id(index),
                after.inner.slot(index)->Occupied_0.spec_value(),
            ) && after.keys_from(index + 1) == before.keys_from(index + 1),
{
    assert forall|after: HashMap<K, V>| value_changed(before, after, index) implies #[trigger] after.wf()
        && after.inner.map_view() == before.inner.map_view().insert(
        before.inner.key_id(index),
        after.inner.slot(index)->Occupied_0.spec_value(),
    ) && after.keys_from(index + 1) == before.keys_from(index + 1) by {
        let was = before.inner;
        let now = after.inner;
        let id = was.key_id(index);
        let cap = now.spec_capacity() as int;
        assert forall|i: int| 0 <= i < cap && i != index implies now.slot(i) == was.slot(i) by {
            assert(now.slots()[i] == was.slots()[i]);
        }
        assert forall|i: int| 0 <= i < cap && now.slot(i) is Occupied implies was.slot(
            i,
        ) is Occupied && now.key_id(i) == was.key_id(i) by {
            if i != index {
                assert(now.slot(i) == was.slot(i));
            }
        }
        assert(now.unique()) by {
            assert forall|i: int, j: int|
                0 <= i < now.spec_capacity() && 0 <= j < now.spec_capacity() && (
                #[trigger] now.slot(i)) is Occupied && (#[trigger] now.slot(j)) is Occupied
                    && now.key_id(i) == now.key_id(j) implies i == j by {
                assert(was.slot(i) is Occupied);
                assert(was.slot(j) is Occupied);
            }
        }
        assert(now.reachable()) by {
            assert forall|i: int, j: int|
                0 <= i < now.spec_capacity() && now.slot(i) is Occupied && 0 <= j < distance(
                    now.home(now.key_id(i)),
                    i,
                    cap,
                ) implies !(#[trigger] now.path_slot(i, j) is Vacant) by {
                let p = probe(now.home(now.key_id(i)), j, cap);
                if p != index {
                    assert(now.slot(p) == was.slot(p));
                }
                assert(!(was.path_slot(i, j) is Vacant));
            }
        }
        now.lemma_after_update(was, index);
        was.lemma_pair(index);
        let value = now.slot(index)->Occupied_0.spec_value();
        assert(was.map_view().remove(id).insert(id, value) =~= was.map_view().insert(id, value));
        assert(now.map_view().dom() =~= was.map_view().dom());
        lemma_count_slots_agree(now.slots(), was.slots(), now.spec_capacity(), true);
        lemma_count_slots_agree(now.slots(), was.slots(), now.spec_capacity(), false);
        assert forall|id: K::Id| #[trigger]
            after.keys_from(index + 1).contains(id) == before.keys_from(index + 1).contains(
                id,
            ) by {
            if after.keys_from(index + 1).contains(id) {
                let i = choose|i: int|
                    index + 1 <= i < cap && (#[trigger] now.slot(i)) is Occupied && now.key_id(i)
                        == id;
                assert(now.slot(i) == was.slot(i));
            }
            if before.keys_from(index + 1).contains(id) {
                let i = choose|i: int|
                    index + 1 <= i < cap && (#[trigger] was.slot(i)) is Occupied && was.key_id(i)
                        == id;
                assert(now.slot(i) == was.slot(i));
            }
        }
        assert(after.keys_from(index + 1) =~= before.keys_from(index + 1));
    }
}

} // verus!
