use vstd::prelude::*;

verus! {

/// The number of slots of the correction-history table.
pub const CORRHIST_SIZE: usize = 0x1_0000;

/// The bit pattern of the first field, `delta_sum`, held in the low half of a slot.
pub open spec fn low_of(bits: u64) -> u32 {
    (bits % 0x1_0000_0000) as u32
}

/// The bit pattern of the second field, `weight_sum`, held in the high half of a slot.
pub open spec fn high_of(bits: u64) -> u32 {
    (bits / 0x1_0000_0000) as u32
}

/// The slot of a correction-history key.
pub open spec fn corrhist_slot(ch_hash: u64) -> int {
    (ch_hash as int) % (CORRHIST_SIZE as int)
}

/// Correction history: for each slot, the running sum of observed minus
/// predicted values and the running sum of their weights, kept together in
/// one 64-bit word so that the pair is always read and written as a whole.
///
/// Each field is the bit pattern of a 32-bit float.
pub struct CorrHistTable {
    table: Vec<u64>,
}

impl View for CorrHistTable {
    type V = Seq<(u32, u32)>;

    /// The `(delta_sum, weight_sum)` bit patterns of each slot.
    closed spec fn view(&self) -> Seq<(u32, u32)> {
        Seq::new(self.table@.len(), |i: int| (low_of(self.table@[i]), high_of(self.table@[i])))
    }
}

/// Packs two 32-bit patterns into one slot.
fn pack(delta_bits: u32, weight_bits: u32) -> (r: u64)
    ensures
        low_of(r) == delta_bits,
        high_of(r) == weight_bits,
{
    let lo = delta_bits as u64;
    let hi = weight_bits as u64;
    assert(lo < 0x1_0000_0000u64 && hi < 0x1_0000_0000u64 ==> ((hi << 32u64) | lo) % 0x1_0000_0000u64
        == lo && ((hi << 32u64) | lo) / 0x1_0000_0000u64 == hi) by (bit_vector);
    (hi << 32u64) | lo
}

impl CorrHistTable {
    /// A table of empty slots. The thread count is how many workers the
    /// caller would share the zeroing between; the table is filled here on
    /// the calling thread.
    pub fn new(_threads: usize) -> (r: CorrHistTable)
        ensures
            r@.len() == CORRHIST_SIZE,
            forall|i: int| 0 <= i < CORRHIST_SIZE ==> r@[i] == (0u32, 0u32),
    {
        let mut table: Vec<u64> = Vec::with_capacity(CORRHIST_SIZE);
        let mut i: usize = 0;
        while i < CORRHIST_SIZE
            invariant
                i <= CORRHIST_SIZE,
                table@.len() == i,
                forall|j: int| 0 <= j < i ==> table@[j] == 0,
            decreases CORRHIST_SIZE - i,
        {
            table.push(0);
            i = i + 1;
        }
        CorrHistTable { table }
    }

    /// Empties every slot.
    pub fn clear(&mut self, _threads: usize)
        ensures
            final(self)@.len() == old(self)@.len(),
            forall|i: int| 0 <= i < final(self)@.len() ==> final(self)@[i] == (0u32, 0u32),
    {
        let n = self.table.len();
        let mut i: usize = 0;
        while i < n
            invariant
                i <= n,
                self.table@.len() == n,
                forall|j: int| 0 <= j < i ==> self.table@[j] == 0,
            decreases n - i,
        {
            self.table.set(i, 0);
            i = i + 1;
        }
    }

    /// The `(delta_sum, weight_sum)` bit patterns held for `ch_hash`, read as
    /// one word.
    pub fn get_or_create(&self, ch_hash: u64) -> (r: (u32, u32))
        requires
            self@.len() == CORRHIST_SIZE,
        ensures
            r == self@[corrhist_slot(ch_hash)],
    {
        let idx = (ch_hash % (CORRHIST_SIZE as u64)) as usize;
        let bits = self.table[idx];
        let lo = (bits & 0xFFFF_FFFFu64) as u32;
        let hi = (bits >> 32u64) as u32;
        assert(bits & 0xFFFF_FFFFu64 == bits % 0x1_0000_0000u64) by (bit_vector);
        assert(bits >> 32u64 == bits / 0x1_0000_0000u64) by (bit_vector);
        (lo, hi)
    }

    /// Replaces the pair held for `ch_hash` with the given bit patterns, as
    /// one word.
    pub fn set(&mut self, ch_hash: u64, delta_bits: u32, weight_bits: u32)
        requires
            old(self)@.len() == CORRHIST_SIZE,
        ensures
            final(self)@ == old(self)@.update(corrhist_slot(ch_hash), (delta_bits, weight_bits)),
    {
        let idx = (ch_hash % (CORRHIST_SIZE as u64)) as usize;
        self.table.set(idx, pack(delta_bits, weight_bits));
        assert(self@ =~= old(self)@.update(corrhist_slot(ch_hash), (delta_bits, weight_bits)));
    }
}

} // verus!
