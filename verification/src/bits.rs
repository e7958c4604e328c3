//! Packed bitmaps: the least significant bit of a byte comes first.
use vstd::prelude::*;

verus! {

/// Whether bit `i` of `byte` is set.
pub open spec fn bit(byte: u8, i: int) -> bool {
    (byte >> (i as u8)) & 1u8 == 1u8
}

/// Whether bit `k` of the packed `bytes` is set.
pub open spec fn bit_at(bytes: Seq<u8>, k: int) -> bool {
    bit(bytes[k / 8], k % 8)
}

/// The first `n` bits of the packed `bytes`.
pub open spec fn unpacked(bytes: Seq<u8>, n: nat) -> Seq<bool> {
    Seq::new(n, |k: int| bit_at(bytes, k))
}

/// How many of the first `k` bits are set.
pub open spec fn rank(bits: Seq<bool>, k: int) -> nat
    decreases k,
{
    if k <= 0 {
        0
    } else {
        rank(bits, k - 1) + if bits[k - 1] {
            1nat
        } else {
            0nat
        }
    }
}

/// How many bits are set.
pub open spec fn set_count(bits: Seq<bool>) -> nat {
    rank(bits, bits.len() as int)
}

/// The rows of a filter: a valid row takes the next compact value, the others are `false`.
pub open spec fn scattered(valid: Seq<bool>, compact: Seq<u8>) -> Seq<bool> {
    Seq::new(valid.len(), |i: int| valid[i] && compact[rank(valid, i) as int] == 1u8)
}

pub proof fn lemma_rank_bounds(bits: Seq<bool>, i: int, j: int)
    requires
        0 <= i <= j,
    ensures
        rank(bits, i) <= rank(bits, j) <= rank(bits, i) + (j - i),
    decreases j - i,
{
    if i < j {
        lemma_rank_bounds(bits, i, j - 1);
    }
}

/// The rank is counted from the start of a subrange on.
pub proof fn lemma_rank_split(bits: Seq<bool>, part: Seq<bool>, start: int, j: int)
    requires
        0 <= start,
        0 <= j,
        forall|i: int| 0 <= i < j ==> part[i] == bits[start + i],
    ensures
        rank(bits, start + j) == rank(bits, start) + rank(part, j),
    decreases j,
{
    if j > 0 {
        lemma_rank_split(bits, part, start, j - 1);
    }
}

/// The bits of one byte.
pub open spec fn byte_bits(byte: u8) -> Seq<bool> {
    Seq::new(8, |i: int| bit(byte, i))
}

pub proof fn lemma_rank_zero_run(bits: Seq<bool>, i: int, j: int)
    requires
        0 <= i <= j,
        forall|k: int| i <= k < j ==> !bits[k],
    ensures
        rank(bits, j) == rank(bits, i),
    decreases j - i,
{
    if i < j {
        lemma_rank_zero_run(bits, i, j - 1);
    }
}

pub proof fn lemma_rank_full_run(bits: Seq<bool>, j: int)
    requires
        0 <= j,
        forall|k: int| 0 <= k < j ==> bits[k],
    ensures
        rank(bits, j) == j,
    decreases j,
{
    if 0 < j {
        lemma_rank_full_run(bits, j - 1);
    }
}

/// When as many bits are set as there are, all are.
pub proof fn lemma_all_set(bits: Seq<bool>)
    requires
        set_count(bits) == bits.len(),
    ensures
        forall|k: int| 0 <= k < bits.len() ==> bits[k],
{
    assert forall|k: int| 0 <= k < bits.len() implies bits[k] by {
        lemma_rank_bounds(bits, 0, k);
        lemma_rank_bounds(bits, k + 1, bits.len() as int);
    }
}

/// Clearing the lowest set bit leaves the other bits.
proof fn lemma_clear_lowest(v: u8, t: u8, j: u8)
    by (bit_vector)
    requires
        v != 0,
        t < 8,
        j < 8,
        (v >> t) & 1u8 == 1u8,
        v & (((1u8 << t) - 1) as u8) == 0,
    ensures
        ((v & ((v - 1) as u8)) >> j) & 1u8 == if j == t {
            0u8
        } else {
            (v >> j) & 1u8
        },
{
}

/// Setting bit `t` to `value` in a byte where it is clear.
proof fn lemma_place(out: u8, value: u8, t: u8, j: u8)
    by (bit_vector)
    requires
        value <= 1,
        t < 8,
        j < 8,
        (out >> t) & 1u8 != 1u8,
    ensures
        ((out | (value << t)) >> j) & 1u8 == if j == t {
            value
        } else {
            (out >> j) & 1u8
        },
{
}

proof fn lemma_low_zero(v: u8, t: u8)
    by (bit_vector)
    requires
        t < 8,
        v << ((8 - t) as u8) == 0,
    ensures
        v & (((1u8 << t) - 1) as u8) == 0,
{
}

proof fn lemma_eight(a: u8, b: u8, c: u8, d: u8, e: u8, f: u8, g: u8, h: u8)
    by (bit_vector)
    requires
        a <= 1,
        b <= 1,
        c <= 1,
        d <= 1,
        e <= 1,
        f <= 1,
        g <= 1,
        h <= 1,
    ensures
        ({
            let o = a | b << 1 | c << 2 | d << 3 | e << 4 | f << 5 | g << 6 | h << 7;
            &&& (o >> 0) & 1u8 == a
            &&& (o >> 1) & 1u8 == b
            &&& (o >> 2) & 1u8 == c
            &&& (o >> 3) & 1u8 == d
            &&& (o >> 4) & 1u8 == e
            &&& (o >> 5) & 1u8 == f
            &&& (o >> 6) & 1u8 == g
            &&& (o >> 7) & 1u8 == h
        }),
{
}

/// Packs the compact values from `index` on into the set bits of `valid_byte`. Returns the packed
/// byte and the index of the next compact value.
pub fn pack_byte(valid_byte: u8, compact: &Vec<u8>, index: usize) -> (r: (u8, usize))
    requires
        index + set_count(byte_bits(valid_byte)) <= compact@.len(),
        forall|i: int| 0 <= i < compact@.len() ==> compact@[i] <= 1,
    ensures
        byte_bits(r.0) == scattered(byte_bits(valid_byte), compact@.skip(index as int)),
        r.1 == index + set_count(byte_bits(valid_byte)),
{
    let ghost valid = byte_bits(valid_byte);
    let ghost rest = compact@.skip(index as int);
    if valid_byte == u8::MAX {
        proof {
            assert forall|k: int| 0 <= k < 8 implies valid[k] by {
                let j = k as u8;
                assert((0xffu8 >> j) & 1u8 == 1u8) by (bit_vector)
                    requires
                        j < 8,
                ;
            }
            assert forall|k: int| 0 <= k <= 8 implies rank(valid, k) == k by {
                lemma_rank_full_run(valid, k);
            }
            assert(index + 8 <= compact.len());
        }
        let packed: u8 = compact[index] | compact[index + 1] << 1 | compact[index + 2] << 2
            | compact[index + 3] << 3 | compact[index + 4] << 4 | compact[index + 5] << 5
            | compact[index + 6] << 6 | compact[index + 7] << 7;
        proof {
            lemma_eight(
                rest[0],
                rest[1],
                rest[2],
                rest[3],
                rest[4],
                rest[5],
                rest[6],
                rest[7],
            );
            assert(byte_bits(packed) =~= scattered(valid, rest));
        }
        return (packed, index + 8);
    }
    let mut remaining: u8 = valid_byte;
    let mut packed: u8 = 0;
    let mut next: usize = index;
    let ghost mut done: int = 0;
    proof {
        assert forall|j: int| 0 <= j < 8 implies !bit(0u8, j) by {
            let k = j as u8;
            assert((0u8 >> k) & 1u8 == 0u8) by (bit_vector);
        }
    }
    while remaining != 0
        invariant
            valid == byte_bits(valid_byte),
            rest == compact@.skip(index as int),
            index + set_count(valid) <= compact@.len(),
            forall|i: int| 0 <= i < compact@.len() ==> compact@[i] <= 1,
            0 <= done <= 8,
            next == index + rank(valid, done),
            forall|j: int| 0 <= j < done ==> !bit(remaining, j),
            forall|j: int| done <= j < 8 ==> bit(remaining, j) == valid[j],
            forall|j: int| done <= j < 8 ==> !bit(packed, j),
            forall|j: int|
                0 <= j < done ==> bit(packed, j) == (valid[j] && rest[rank(valid, j) as int] == 1),
        decreases 8 - done,
    {
        let position: u32 = remaining.trailing_zeros();
        let ghost (old_remaining, old_packed, value) = (remaining, packed, compact@[next as int]);
        proof {
            vstd::std_specs::bits::axiom_u8_trailing_zeros(remaining);
            let t = position as u8;
            lemma_low_zero(remaining, t);
            assert(bit(remaining, t as int));
            assert(done <= t < 8);
            assert forall|k: int| done <= k < t implies !valid[k] by {
                assert((remaining >> (k as u8)) & 1u8 == 0u8);
            }
            lemma_rank_zero_run(valid, done, t as int);
            lemma_rank_bounds(valid, t as int + 1, 8);
            assert(next < compact.len());
            assert(!bit(packed, t as int));
            assert(rest[rank(valid, t as int) as int] == compact@[next as int]);
            assert forall|j: int| 0 <= j < 8 implies bit((remaining & ((remaining - 1) as u8)), j)
                == (if j == t {
                false
            } else {
                bit(remaining, j)
            }) by {
                lemma_clear_lowest(remaining, t, j as u8);
            }
            assert forall|k: int| done <= k <= t implies rank(valid, k) == rank(valid, done) by {
                lemma_rank_zero_run(valid, done, k);
            }
        }
        packed = packed | compact[next] << position;
        next = next + 1;
        remaining = remaining & (remaining - 1);
        proof {
            assert(remaining == old_remaining & ((old_remaining - 1) as u8));
            assert(packed == old_packed | (value << (position as u8)));
            assert forall|j: int| 0 <= j <= position implies !bit(remaining, j) by {
                assert(0 <= j < done ==> !bit(old_remaining, j));
                assert(done <= j < position ==> !valid[j]);
            }
            assert forall|j: int| 0 <= j < 8 implies bit(packed, j) == (if j == position {
                value == 1
            } else {
                bit(old_packed, j)
            }) by {
                lemma_place(old_packed, value, position as u8, j as u8);
            }
            assert(forall|j: int| done <= j < 8 ==> !bit(old_packed, j));
            assert forall|j: int| 0 <= j <= position implies bit(packed, j) == (valid[j]
                && rest[rank(valid, j) as int] == 1) by {
                assert(done <= j < position ==> !valid[j]);
            }
            done = position as int + 1;
        }
    }
    proof {
        assert forall|k: int| done <= k < 8 implies !valid[k] by {
            let j = k as u8;
            assert((0u8 >> j) & 1u8 == 0u8) by (bit_vector);
        }
        lemma_rank_zero_run(valid, done, 8);
        assert(byte_bits(packed) =~= scattered(valid, rest));
    }
    (packed, next)
}

/// A bit of a bitmap, or a clear bit behind it.
pub open spec fn filled_bit(bits: Seq<bool>, k: int) -> bool {
    k < bits.len() && bits[k]
}

/// The first `n` bits of a bitmap, filled up with clear bits.
pub open spec fn filled(bits: Seq<bool>, n: nat) -> Seq<bool> {
    Seq::new(n, |k: int| filled_bit(bits, k))
}

/// A packed bitmap that grows bit by bit.
pub struct Bitmap {
    bytes: Vec<u8>,
    len: usize,
}

impl View for Bitmap {
    type V = Seq<bool>;

    closed spec fn view(&self) -> Seq<bool> {
        unpacked(self.bytes@, self.len as nat)
    }
}

impl Bitmap {
    /// There is room for the bits, and the room that is left is clear.
    pub closed spec fn wf(self) -> bool {
        &&& self.bytes@.len() == (self.len + 7) / 8
        &&& forall|k: int| self.len <= k < 8 * self.bytes@.len() ==> !bit_at(self.bytes@, k)
    }

    pub fn new() -> (r: Self)
        ensures
            r.wf(),
            r@ == Seq::<bool>::empty(),
    {
        let r = Bitmap { bytes: Vec::new(), len: 0 };
        proof {
            assert(r@ =~= Seq::<bool>::empty());
        }
        r
    }

    pub fn len(&self) -> (r: usize)
        ensures
            r == self@.len(),
    {
        self.len
    }

    /// Appends a bit.
    pub fn push(&mut self, set: bool)
        requires
            old(self).wf(),
            old(self)@.len() < usize::MAX,
        ensures
            final(self).wf(),
            final(self)@ == old(self)@.push(set),
    {
        let ghost before = *self;
        let position: usize = self.len % 8;
        if position == 0 {
            self.bytes.push(0);
        }
        let last: usize = self.len / 8;
        let byte: u8 = self.bytes[last];
        proof {
            if position == 0 {
                assert forall|j: int| 0 <= j < 8 implies !bit(byte, j) by {
                    let k = j as u8;
                    assert((0u8 >> k) & 1u8 == 0u8) by (bit_vector);
                }
            } else {
                assert forall|j: int| position <= j < 8 implies !bit(byte, j) by {
                    assert(!bit_at(before.bytes@, 8 * last + j));
                }
            }
        }
        let value: u8 = if set {
            1
        } else {
            0
        };
        let updated: u8 = byte | value << position;
        self.bytes[last] = updated;
        self.len = self.len + 1;
        proof {
            assert(updated == byte | (value << (position as u8)));
            assert(!bit(byte, position as int));
            assert forall|j: int| 0 <= j < 8 implies bit(updated, j) == (if j == position {
                set
            } else {
                bit(byte, j)
            }) by {
                lemma_place(byte, value, position as u8, j as u8);
            }
            assert forall|k: int| 0 <= k < 8 * self.bytes@.len() implies bit_at(self.bytes@, k) == (
            if k < before.len {
                bit_at(before.bytes@, k)
            } else {
                k == before.len && set
            }) by {
                if k / 8 != last {
                    assert(k / 8 < last);
                }
            }
            assert(self@ =~= before@.push(set));
        }
    }

    /// How many bits there is room for in the bytes.
    pub fn room(&self) -> (r: usize)
        requires
            self.wf(),
        ensures
            r == if 8 * ((self@.len() + 7) / 8) <= usize::MAX {
                8 * ((self@.len() + 7) / 8)
            } else {
                usize::MAX as nat
            },
    {
        if self.bytes.len() <= usize::MAX / 8 {
            8 * self.bytes.len()
        } else {
            usize::MAX
        }
    }

    /// Whether the first `n` bits are there and set.
    pub fn starts_with(&self, n: usize) -> (r: bool)
        requires
            self.wf(),
        ensures
            r == (set_count(filled(self@, n as nat)) == n),
    {
        let ghost bits = filled(self@, n as nat);
        let mut i: usize = 0;
        while i < n
            invariant
                i <= n,
                self.wf(),
                bits == filled(self@, n as nat),
                forall|k: int| 0 <= k < i ==> bits[k],
            decreases n - i,
        {
            let set: bool = i < self.len && (self.bytes[i / 8] >> ((i % 8) as u8)) & 1 == 1;
            proof {
                assert(set == bits[i as int]);
            }
            if !set {
                proof {
                    if set_count(bits) == n {
                        lemma_all_set(bits);
                    }
                }
                return false;
            }
            i = i + 1;
        }
        proof {
            lemma_rank_full_run(bits, n as int);
        }
        true
    }

    /// The bytes that hold the bits.
    pub fn as_bytes(&self) -> (r: &[u8])
        requires
            self.wf(),
        ensures
            r@.len() == (self@.len() + 7) / 8,
            forall|k: int|
                0 <= k < 8 * r@.len() ==> #[trigger] bit_at(r@, k) == filled_bit(self@, k),
    {
        self.bytes.as_slice()
    }

    /// The bytes that hold the bits.
    pub fn into_bytes(self) -> (r: Vec<u8>)
        requires
            self.wf(),
        ensures
            r@.len() == (self@.len() + 7) / 8,
            forall|k: int|
                0 <= k < 8 * r@.len() ==> #[trigger] bit_at(r@, k) == filled_bit(self@, k),
    {
        self.bytes
    }
}

/// The number of set bits grows with each bit that is set.
pub proof fn lemma_rank_extended(bits: Seq<bool>, more: Seq<bool>, k: int)
    requires
        0 <= k <= more.len(),
    ensures
        rank(bits + more, bits.len() + k) == set_count(bits) + rank(more, k),
    decreases k,
{
    if k > 0 {
        lemma_rank_extended(bits, more, k - 1);
    } else {
        lemma_rank_prefix(bits, bits + more, bits.len() as int);
    }
}

/// The rank only depends on the bits before it.
pub proof fn lemma_rank_prefix(a: Seq<bool>, b: Seq<bool>, k: int)
    requires
        forall|i: int| 0 <= i < k ==> a[i] == b[i],
    ensures
        rank(a, k) == rank(b, k),
    decreases k,
{
    if k > 0 {
        lemma_rank_prefix(a, b, k - 1);
    }
}

} // verus!
