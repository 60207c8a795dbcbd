//! A growable circular buffer of unsigned values below `2^24`, stored packed
//! at exactly three bytes per slot, little-endian. Supports amortized O(1)
//! append, O(1) removal from the front, indexed reads, and explicit
//! compaction to the exact logical length.

use vstd::prelude::*;

verus! {

/// Least-significant byte of a packed value.
pub open spec fn lo_byte(v: u32) -> u8 {
    (v % 0x100) as u8
}

/// Middle byte of a packed value.
pub open spec fn mid_byte(v: u32) -> u8 {
    ((v / 0x100) % 0x100) as u8
}

/// Most-significant byte of a packed value (values stay below `2^24`).
pub open spec fn hi_byte(v: u32) -> u8 {
    ((v / 0x10000) % 0x100) as u8
}

/// The value held by three little-endian bytes.
pub open spec fn decode3(b0: u8, b1: u8, b2: u8) -> u32 {
    (b0 + b1 * 0x100 + b2 * 0x10000) as u32
}

/// Slot `i` of the three bytes starting at `3 * i` hold exactly the
/// little-endian packing of `v`.
pub open spec fn packed_at(bytes: Seq<u8>, i: int, v: u32) -> bool {
    &&& bytes[3 * i] == lo_byte(v)
    &&& bytes[3 * i + 1] == mid_byte(v)
    &&& bytes[3 * i + 2] == hi_byte(v)
}

/// Physical slot of the element `i` places after `head`, in a ring of
/// `cap` slots, assuming `head < cap` and `i <= cap` so no second wrap occurs.
pub open spec fn slot_of(head: int, i: int, cap: int) -> int {
    if head + i < cap {
        head + i
    } else {
        head + i - cap
    }
}

/// Packing a value below `2^24` into three little-endian bytes and decoding
/// them returns the value exactly.
pub proof fn lemma_encode_decode(v: u32)
    requires
        v <= 0xFFFFFF,
    ensures
        decode3(lo_byte(v), mid_byte(v), hi_byte(v)) == v,
{
    assert(v % 0x100 + ((v / 0x100) % 0x100) * 0x100 + ((v / 0x10000) % 0x100) * 0x10000 == v)
        by (bit_vector)
        requires
            v <= 0xFFFFFF,
    ;
}

pub struct IndexRing {
    data: Vec<u8>,
    head: usize,
    len: usize,
}

impl View for IndexRing {
    type V = Seq<u32>;

    /// The logical contents: the packed values in FIFO order, oldest first.
    closed spec fn view(&self) -> Seq<u32> {
        Seq::new(
            self.len as nat,
            |i: int| self.slot_val(slot_of(self.head as int, i, self.spec_capacity())),
        )
    }
}

impl IndexRing {
    /// Number of three-byte slots the backing storage holds.
    pub closed spec fn spec_capacity(&self) -> int {
        self.data@.len() as int / 3
    }

    /// Physical slot of the oldest logical element.
    pub closed spec fn spec_head(&self) -> int {
        self.head as int
    }

    /// Length of the backing byte storage.
    pub closed spec fn spec_storage_len(&self) -> int {
        self.data@.len() as int
    }

    /// The backing bytes themselves: the binary layout outside code may rely on.
    pub closed spec fn spec_bytes(&self) -> Seq<u8> {
        self.data@
    }

    /// The value packed into a physical slot.
    spec fn slot_val(&self, slot: int) -> u32 {
        decode3(self.data@[3 * slot], self.data@[3 * slot + 1], self.data@[3 * slot + 2])
    }

    /// Well-formedness: storage is whole slots, the length fits the capacity,
    /// and `head` is a valid slot (or zero while there is no slot at all).
    pub closed spec fn wf(&self) -> bool {
        &&& self.data@.len() == 3 * self.spec_capacity()
        &&& self.len <= self.spec_capacity()
        &&& (self.spec_head() < self.spec_capacity() || (self.spec_head() == 0
            && self.spec_capacity() == 0))
    }

    /// An empty ring over `slots` zeroed slots.
    pub fn new(slots: usize) -> (r: IndexRing)
        requires
            slots <= usize::MAX / 3,
        ensures
            r.wf(),
            r@ == Seq::<u32>::empty(),
            r.spec_capacity() == slots as int,
            r.spec_head() == 0,
            r.spec_storage_len() == 3 * slots,
            forall|i: int| 0 <= i < r.spec_storage_len() ==> r.spec_bytes()[i] == 0u8,
    {
        let r = IndexRing { data: zero_bytes(slots * 3), head: 0, len: 0 };
        proof {
            assert(r@ =~= Seq::<u32>::empty());
        }
        r
    }

    /// The value at the `index`-th logical position, oldest first. An index
    /// at or past the logical length is a caller error, excluded by
    /// precondition: callers validate before they read.
    pub fn get(&self, index: usize) -> (v: u32)
        requires
            self.wf(),
            index < self@.len(),
        ensures
            v == self@[index as int],
            v <= 0xFFFFFF,
    {
        let cap: usize = self.data.len() / 3;
        let slot: usize = (self.head + index) % cap;
        proof {
            lemma_wrap_index(self.head as int + index as int, cap as int);
        }
        read_slot(&self.data, slot)
    }

    /// Doubles the capacity of a full ring (a ring of capacity zero gets two
    /// slots), rewriting the elements in logical order from slot zero.
    #[verifier::rlimit(30)]
    fn grow(&mut self)
        requires
            old(self).wf(),
            old(self)@.len() == old(self).spec_capacity(),
            6 * old(self).spec_capacity() + 6 <= usize::MAX,
        ensures
            final(self).wf(),
            final(self)@ == old(self)@,
            final(self).spec_head() == 0,
            final(self).spec_capacity() == (if old(self).spec_capacity() == 0 {
                2int
            } else {
                2 * old(self).spec_capacity()
            }),
            final(self)@.len() < final(self).spec_capacity(),
    {
        let cap: usize = self.data.len() / 3;
        let new_slots: usize = if cap == 0 {
            2
        } else {
            cap * 2
        };
        let mut new_data: Vec<u8> = zero_bytes(new_slots * 3);
        let mut i: usize = 0;
        while i < self.len
            invariant
                self.wf(),
                i <= self.len,
                self.len <= new_slots,
                new_data@.len() == 3 * new_slots,
                forall|j: int| 0 <= j < i ==> packed_at(new_data@, j, self@[j]),
            decreases self.len - i,
        {
            let v: u32 = self.get(i);
            write_slot(&mut new_data, i, v);
            i = i + 1;
        }
        self.data = new_data;
        self.head = 0;
        proof {
            assert forall|k: int| 0 <= k < self.len implies self.slot_val(
                slot_of(0, k, new_slots as int),
            ) == old(self)@[k] by {
                assert(old(self)@[k] <= 0xFFFFFF);
                lemma_encode_decode(old(self)@[k]);
            }
            assert(self@ =~= old(self)@);
        }
    }

    /// Appends `value` at the logical end, doubling the capacity first when
    /// the ring is full. A value that does not fit in 24 bits is a caller
    /// error, excluded by precondition: callers validate before they push.
    pub fn push(&mut self, value: u32)
        requires
            old(self).wf(),
            value <= 0xFFFFFF,
            old(self)@.len() == old(self).spec_capacity() ==> 6 * old(self).spec_capacity() + 6
                <= usize::MAX,
        ensures
            final(self).wf(),
            final(self)@ == old(self)@.push(value),
            old(self)@.len() == old(self).spec_capacity() ==> final(self).spec_capacity() == (
            if old(self).spec_capacity() == 0 {
                2int
            } else {
                2 * old(self).spec_capacity()
            }) && final(self).spec_head() == 0,
            old(self)@.len() < old(self).spec_capacity() ==> final(self).spec_capacity() == old(
                self,
            ).spec_capacity() && final(self).spec_head() == old(self).spec_head(),
            packed_at(
                final(self).spec_bytes(),
                slot_of(
                    final(self).spec_head(),
                    old(self)@.len() as int,
                    final(self).spec_capacity(),
                ),
                value,
            ),
            old(self)@.len() < old(self).spec_capacity() ==> final(self).spec_storage_len() == old(
                self,
            ).spec_storage_len() && (forall|j: int|
                0 <= j < old(self).spec_storage_len() && !(3 * slot_of(
                    old(self).spec_head(),
                    old(self)@.len() as int,
                    old(self).spec_capacity(),
                ) <= j <= 3 * slot_of(
                    old(self).spec_head(),
                    old(self)@.len() as int,
                    old(self).spec_capacity(),
                ) + 2) ==> final(self).spec_bytes()[j] == old(self).spec_bytes()[j]),
    {
        let cap0: usize = self.data.len() / 3;
        if self.len == cap0 {
            self.grow();
        }
        let cap: usize = self.data.len() / 3;
        proof {
            lemma_wrap_index(self.head as int + self.len as int, cap as int);
        }
        let tail: usize = (self.head + self.len) % cap;
        write_slot(&mut self.data, tail, value);
        self.len = self.len + 1;
        proof {
            assert forall|k: int| 0 <= k < self.len implies self.slot_val(
                slot_of(self.head as int, k, cap as int),
            ) == old(self)@.push(value)[k] by {
                if k < self.len - 1 {
                    assert(slot_of(self.head as int, k, cap as int) != tail as int);
                } else {
                    lemma_encode_decode(value);
                }
            }
            assert(self@ =~= old(self)@.push(value));
        }
    }

    /// Removes and returns the oldest element, or `None` on an empty ring.
    pub fn shift(&mut self) -> (r: Option<u32>)
        requires
            old(self).wf(),
        ensures
            final(self).wf(),
            old(self)@.len() == 0 ==> r is None && *final(self) == *old(self),
            old(self)@.len() > 0 ==> r == Some(old(self)@[0]) && final(self)@ == old(
                self,
            )@.drop_first() && final(self).spec_head() == (old(self).spec_head() + 1) % old(
                self,
            ).spec_capacity(),
            final(self).spec_capacity() == old(self).spec_capacity(),
            final(self).spec_bytes() == old(self).spec_bytes(),
    {
        if self.len == 0 {
            return None;
        }
        let cap: usize = self.data.len() / 3;
        let val: u32 = read_slot(&self.data, self.head);
        proof {
            lemma_wrap_index(self.head as int + 1, cap as int);
        }
        self.head = (self.head + 1) % cap;
        self.len = self.len - 1;
        proof {
            assert forall|i: int| 0 <= i < self.len implies slot_of(
                self.head as int,
                i,
                cap as int,
            ) == slot_of(old(self).head as int, i + 1, cap as int) by {}
            assert(self@ =~= old(self)@.drop_first());
        }
        Some(val)
    }

    /// Removes and returns the oldest element, or `None` on an empty ring.
    /// Intentionally identical to [`Self::shift`]: both remove from the front.
    pub fn pop(&mut self) -> (r: Option<u32>)
        requires
            old(self).wf(),
        ensures
            final(self).wf(),
            old(self)@.len() == 0 ==> r is None && *final(self) == *old(self),
            old(self)@.len() > 0 ==> r == Some(old(self)@[0]) && final(self)@ == old(
                self,
            )@.drop_first() && final(self).spec_head() == (old(self).spec_head() + 1) % old(
                self,
            ).spec_capacity(),
            final(self).spec_capacity() == old(self).spec_capacity(),
            final(self).spec_bytes() == old(self).spec_bytes(),
    {
        self.shift()
    }

    /// The number of logically present elements.
    pub fn len(&self) -> (n: usize)
        ensures
            n == self@.len(),
    {
        self.len
    }

    /// The full logical sequence, oldest first, as freshly decoded values.
    pub fn to_array(&self) -> (r: Vec<u32>)
        requires
            self.wf(),
        ensures
            r@ == self@,
    {
        let n: usize = self.len;
        let mut out: Vec<u32> = Vec::with_capacity(n);
        let mut i: usize = 0;
        while i < n
            invariant
                self.wf(),
                n == self@.len(),
                i <= n,
                out@.len() == i,
                forall|j: int| 0 <= j < i ==> out@[j] == self@[j],
            decreases n - i,
        {
            out.push(self.get(i));
            i = i + 1;
        }
        proof {
            assert(out@ =~= self@);
        }
        out
    }

    /// Reallocates to exactly the logical length: afterwards the contents are
    /// unchanged, `head` is zero, and the storage holds the packed elements
    /// in physical order with not a byte to spare.
    pub fn compact(&mut self)
        requires
            old(self).wf(),
        ensures
            final(self).wf(),
            compacted(old(self)@, *final(self)),
    {
        let n: usize = self.len;
        // The old storage holds at least `n` slots, so `n * 3` bytes fit.
        let old_bytes: usize = self.data.len();
        proof {
            assert(3 * n <= old_bytes);
        }
        let mut new_data: Vec<u8> = zero_bytes(n * 3);
        let mut i: usize = 0;
        while i < n
            invariant
                self.wf(),
                n == self@.len(),
                i <= n,
                new_data@.len() == 3 * n,
                forall|j: int| 0 <= j < i ==> packed_at(new_data@, j, self@[j]),
            decreases n - i,
        {
            let v: u32 = self.get(i);
            write_slot(&mut new_data, i, v);
            i = i + 1;
        }
        self.data = new_data;
        self.head = 0;
        proof {
            assert forall|k: int| 0 <= k < self.len implies self.slot_val(
                slot_of(0, k, n as int),
            ) == old(self)@[k] by {
                assert(old(self)@[k] <= 0xFFFFFF);
                lemma_encode_decode(old(self)@[k]);
            }
            assert(self@ =~= old(self)@);
        }
    }
}

/// What compaction leaves behind: the contents `pre` it was called with,
/// `head` reset to zero, exactly one three-byte slot per element, and each
/// slot holding the little-endian packing of its element.
pub open spec fn compacted(pre: Seq<u32>, post: IndexRing) -> bool {
    &&& post@ == pre
    &&& post.spec_head() == 0
    &&& post.spec_capacity() == post@.len()
    &&& post.spec_storage_len() == 3 * post@.len()
    &&& forall|i: int| 0 <= i < post@.len() ==> packed_at(post.spec_bytes(), i, post@[i])
}

/// The logical length never exceeds the slot capacity (and, being a sequence
/// length, is never negative).
pub proof fn lemma_len_le_capacity(r: &IndexRing)
    requires
        r.wf(),
    ensures
        0 <= r@.len() <= r.spec_capacity(),
{
}

/// Well-formed storage is a whole number of three-byte slots: callers may
/// tie the byte length of the storage to the slot capacity.
pub proof fn lemma_storage_is_whole_slots(r: &IndexRing)
    requires
        r.wf(),
    ensures
        r.spec_storage_len() == 3 * r.spec_capacity(),
{
}

/// A push appends and nothing else: every element already present keeps its
/// index and value, and the new value stands last. In particular a push into
/// a full ring, which grows the storage, loses and reorders nothing.
pub proof fn lemma_push_preserves_existing(pre: Seq<u32>, post: Seq<u32>, value: u32)
    requires
        post == pre.push(value),
    ensures
        post.len() == pre.len() + 1,
        forall|i: int| 0 <= i < pre.len() ==> post[i] == pre[i],
        post[pre.len() as int] == value,
{
}

/// Compaction is idempotent: a second compaction directly after a first one
/// leaves the same logical contents and the same physical layout, down to
/// the last byte of storage.
pub proof fn lemma_compact_idempotent(pre: Seq<u32>, once: IndexRing, twice: IndexRing)
    requires
        compacted(pre, once),
        compacted(once@, twice),
    ensures
        twice@ == once@,
        twice.spec_head() == once.spec_head(),
        twice.spec_storage_len() == once.spec_storage_len(),
        twice.spec_bytes() == once.spec_bytes(),
{
    assert forall|j: int| 0 <= j < 3 * once@.len() implies twice.spec_bytes()[j]
        == once.spec_bytes()[j] by {
        vstd::arithmetic::div_mod::lemma_fundamental_div_mod(j, 3);
        vstd::arithmetic::div_mod::lemma_mod_division_less_than_divisor(j, 3);
        let q = j / 3;
        assert(0 <= q < once@.len());
        assert(packed_at(once.spec_bytes(), q, once@[q]));
        assert(packed_at(twice.spec_bytes(), q, twice@[q]));
    }
    assert(twice.spec_bytes() =~= once.spec_bytes());
}

/// A number below twice the modulus wraps around at most once.
proof fn lemma_wrap_index(x: int, n: int)
    requires
        0 < n,
        0 <= x < 2 * n,
    ensures
        x % n == slot_of(0, x, n),
{
    if x < n {
        vstd::arithmetic::div_mod::lemma_small_mod(x as nat, n as nat);
    } else {
        vstd::arithmetic::div_mod::lemma_mod_sub_multiples_vanish(x, n);
        vstd::arithmetic::div_mod::lemma_small_mod((x - n) as nat, n as nat);
    }
}

/// Reads the value packed into slot `slot` of `data`.
fn read_slot(data: &Vec<u8>, slot: usize) -> (v: u32)
    requires
        3 * slot + 2 < data@.len(),
    ensures
        v == decode3(data@[3 * slot as int], data@[3 * slot as int + 1], data@[3 * slot as int + 2]),
        v <= 0xFFFFFF,
{
    // Binding the length as a usize lets the solver see that the byte
    // offsets below fit the machine word.
    let n_bytes: usize = data.len();
    let off: usize = slot * 3;
    let b0: u8 = data[off];
    let b1: u8 = data[off + 1];
    let b2: u8 = data[off + 2];
    let v: u32 = (b0 as u32) | ((b1 as u32) << 8u32) | ((b2 as u32) << 16u32);
    proof {
        assert((b0 as u32) | ((b1 as u32) << 8u32) | ((b2 as u32) << 16u32) == b0 + b1 * 0x100
            + b2 * 0x10000) by (bit_vector);
    }
    v
}

/// Writes `value` as three little-endian bytes into slot `slot` of `data`.
fn write_slot(data: &mut Vec<u8>, slot: usize, value: u32)
    requires
        3 * slot + 2 < old(data)@.len(),
        value <= 0xFFFFFF,
    ensures
        final(data)@.len() == old(data)@.len(),
        packed_at(final(data)@, slot as int, value),
        forall|j: int|
            0 <= j < old(data)@.len() && !(3 * slot <= j <= 3 * slot + 2) ==> final(data)@[j]
                == old(data)@[j],
{
    // Binding the length as a usize lets the solver see that the byte
    // offsets below fit the machine word.
    let n_bytes: usize = data.len();
    let off: usize = slot * 3;
    let b0: u8 = (value & 0xFF) as u8;
    let b1: u8 = ((value >> 8u32) & 0xFF) as u8;
    let b2: u8 = ((value >> 16u32) & 0xFF) as u8;
    proof {
        assert((value & 0xFF) == value % 0x100) by (bit_vector);
        assert(((value >> 8u32) & 0xFF) == (value / 0x100) % 0x100) by (bit_vector);
        assert(((value >> 16u32) & 0xFF) == (value / 0x10000) % 0x100) by (bit_vector);
    }
    data.set(off, b0);
    data.set(off + 1, b1);
    data.set(off + 2, b2);
}

/// A vector of `n` zero bytes.
fn zero_bytes(n: usize) -> (r: Vec<u8>)
    ensures
        r@.len() == n,
        forall|i: int| 0 <= i < n ==> r@[i] == 0u8,
{
    let mut r: Vec<u8> = Vec::new();
    let mut i: usize = 0;
    while i < n
        invariant
            i <= n,
            r@.len() == i,
            forall|j: int| 0 <= j < i ==> r@[j] == 0u8,
        decreases n - i,
    {
        r.push(0u8);
        i = i + 1;
    }
    r
}

} // verus!
