use vstd::prelude::*;

verus! {

/// The signature of a position: the top 16 bits of its hash.
pub open spec fn key_of(hash: u64) -> u16 {
    (hash / 0x1_0000_0000_0000) as u16
}

/// The slot of a position in a table of `len` slots.
pub open spec fn slot_of(hash: u64, len: nat) -> int {
    (hash as int) % (len as int)
}

/// The signature held in the low half of a packed slot.
pub open spec fn sig_of_bits(bits: u32) -> u16 {
    (bits % 0x1_0000) as u16
}

/// The value held in the high half of a packed slot.
pub open spec fn q_of_bits(bits: u32) -> u16 {
    (bits / 0x1_0000) as u16
}

/// The value a table of `(signature, q)` slots holds for `hash`, if the slot's
/// signature is the position's.
pub open spec fn lookup(t: Seq<(u16, u16)>, hash: u64) -> Option<u16> {
    let (sig, q) = t[slot_of(hash, t.len())];
    if sig == key_of(hash) {
        Some(q)
    } else {
        None
    }
}

/// The table after `q` was stored for `hash`, replacing the slot's entry.
pub open spec fn stored(t: Seq<(u16, u16)>, hash: u64, q: u16) -> Seq<(u16, u16)> {
    t.update(slot_of(hash, t.len()), (key_of(hash), q))
}

/// A cached value of a position, with the signature it was stored under.
///
/// `q` is a fraction of `0xFFFF`.
#[derive(Clone, Copy, Debug, PartialEq, Eq, Structural)]
pub struct HashEntry {
    hash: u16,
    q: u16,
}

impl HashEntry {
    pub closed spec fn spec_hash(self) -> u16 {
        self.hash
    }

    pub closed spec fn spec_q(self) -> u16 {
        self.q
    }

    /// The cached value, as a fraction of `0xFFFF`.
    pub fn q(&self) -> (r: u16)
        ensures
            r == self.spec_q(),
    {
        self.q
    }

    /// The signature the value was stored under.
    pub fn hash(&self) -> (r: u16)
        ensures
            r == self.spec_hash(),
    {
        self.hash
    }

    /// The entry packed in a slot: signature in the low half, value in the
    /// high half.
    pub fn from_bits(bits: u32) -> (r: HashEntry)
        ensures
            r.spec_hash() == sig_of_bits(bits),
            r.spec_q() == q_of_bits(bits),
    {
        assert(bits & 0xFFFFu32 == bits % 0x1_0000u32) by (bit_vector);
        assert(bits >> 16u32 == bits / 0x1_0000u32) by (bit_vector);
        HashEntry { hash: (bits & 0xFFFF) as u16, q: (bits >> 16u32) as u16 }
    }

    /// The slot that holds this entry.
    pub fn to_bits(self) -> (r: u32)
        ensures
            sig_of_bits(r) == self.spec_hash(),
            q_of_bits(r) == self.spec_q(),
    {
        let h = self.hash as u32;
        let q = self.q as u32;
        assert(h < 0x1_0000u32 && q < 0x1_0000u32 ==> ((q << 16u32) | h) % 0x1_0000u32 == h
            && ((q << 16u32) | h) / 0x1_0000u32 == q) by (bit_vector);
        (q << 16u32) | h
    }
}

/// A transposition cache: one always-replace slot per index, each holding a
/// position's signature and its value.
pub struct HashTable {
    table: Vec<u32>,
}

impl View for HashTable {
    type V = Seq<(u16, u16)>;

    /// The `(signature, q)` pair of each slot.
    closed spec fn view(&self) -> Seq<(u16, u16)> {
        Seq::new(self.table@.len(), |i: int| (sig_of_bits(self.table@[i]), q_of_bits(self.table@[i])))
    }
}

impl HashTable {
    /// A table of `size` empty slots. The thread count is how many workers
    /// the caller would share the zeroing between; the table is filled here
    /// on the calling thread.
    pub fn new(size: usize, _threads: usize) -> (r: HashTable)
        requires
            size > 0,
        ensures
            r@.len() == size,
            forall|i: int| 0 <= i < size ==> r@[i] == (0u16, 0u16),
    {
        let mut table: Vec<u32> = Vec::with_capacity(size);
        let mut i: usize = 0;
        while i < size
            invariant
                i <= size,
                table@.len() == i,
                forall|j: int| 0 <= j < i ==> table@[j] == 0,
            decreases size - i,
        {
            table.push(0);
            i = i + 1;
        }
        HashTable { table }
    }

    /// Empties every slot.
    pub fn clear(&mut self, _threads: usize)
        ensures
            final(self)@.len() == old(self)@.len(),
            forall|i: int| 0 <= i < final(self)@.len() ==> final(self)@[i] == (0u16, 0u16),
    {
        let n = self.table.len();
        let mut i: usize = 0;
        while i < n
            invariant
                i <= n,
                self.table@.len() == n,
                forall|j: int| 0 <= j < i ==> self.table@[j] == 0,
            decreases n - i,
        {
            self.table.set(i, 0);
            i = i + 1;
        }
    }

    /// The entry in the slot of `hash`, whatever position it belongs to.
    pub fn fetch(&self, hash: u64) -> (r: HashEntry)
        requires
            self@.len() > 0,
        ensures
            r.spec_hash() == self@[slot_of(hash, self@.len())].0,
            r.spec_q() == self@[slot_of(hash, self@.len())].1,
    {
        let idx = hash % (self.table.len() as u64);
        HashEntry::from_bits(self.table[idx as usize])
    }

    fn key(hash: u64) -> (r: u16)
        ensures
            r == key_of(hash),
    {
        assert(hash >> 48u64 == hash / 0x1_0000_0000_0000u64) by (bit_vector);
        assert(hash >> 48u64 < 0x1_0000u64) by (bit_vector);
        (hash >> 48u64) as u16
    }

    /// The entry of the position with `hash`, if its slot holds that
    /// position's signature.
    pub fn get(&self, hash: u64) -> (r: Option<HashEntry>)
        requires
            self@.len() > 0,
        ensures
            match lookup(self@, hash) {
                Some(q) => r matches Some(e) && e.spec_q() == q && e.spec_hash() == key_of(hash),
                None => r is None,
            },
    {
        let entry = self.fetch(hash);
        if entry.hash == Self::key(hash) {
            Some(entry)
        } else {
            None
        }
    }

    /// Stores `q` for the position with `hash`, replacing whatever its slot
    /// held. `q` is a fraction of `0xFFFF`.
    pub fn push(&mut self, hash: u64, q: u16)
        requires
            old(self)@.len() > 0,
        ensures
            final(self)@ == stored(old(self)@, hash, q),
    {
        let idx = hash % (self.table.len() as u64);
        let entry = HashEntry { hash: Self::key(hash), q };
        self.table.set(idx as usize, entry.to_bits());
        assert(self@ =~= stored(old(self)@, hash, q));
    }

    /// The number of slots.
    pub fn len(&self) -> (r: usize)
        ensures
            r == self@.len(),
    {
        self.table.len()
    }
}

/// After storing a value for a position, looking the position up gives that
/// value back.
pub proof fn lemma_push_then_get(t: Seq<(u16, u16)>, hash: u64, q: u16)
    requires
        t.len() > 0,
    ensures
        lookup(stored(t, hash, q), hash) == Some(q),
{
}

/// Storing a value for one position leaves the lookup of every position in
/// another slot as it was.
pub proof fn lemma_push_keeps_other_slots(t: Seq<(u16, u16)>, hash: u64, q: u16, other: u64)
    requires
        t.len() > 0,
        slot_of(hash, t.len()) != slot_of(other, t.len()),
    ensures
        lookup(stored(t, hash, q), other) == lookup(t, other),
{
}

} // verus!
