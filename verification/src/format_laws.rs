//! What the bytes of a page stand for: how plain integers and dictionary indices are written, and
//! that what is written is what is decoded.
use vstd::prelude::*;

use crate::plain::plain_values;
use crate::rle::{
    bad_run, bits_value, ends_badly, first_run, header, indices, little_endian, unpacked_indices,
    varint, Header,
};
use crate::types::{DataType, Int32Type, Int64Type};

verus! {

/// Byte `k` of a number, the lowest first.
pub open spec fn byte_of(n: u64, k: int) -> u8 {
    ((n >> ((8 * k) as u64)) & 0xff) as u8
}

/// The lowest `count` bytes of a number, the lowest first.
pub open spec fn number_bytes(n: u64, count: nat) -> Seq<u8> {
    Seq::new(count, |k: int| byte_of(n, k))
}

/// A number has no bits from bit `width` on.
pub open spec fn fits_bits(n: u64, width: nat) -> bool {
    width < 64 ==> n >> (width as u64) == 0
}

proof fn lemma_low_byte(n: u64)
    by (bit_vector)
    ensures
        n == (n & 0xff) + 256 * (n >> 8u64),
        n & 0xff < 256,
{
}

proof fn lemma_shift_on(n: u64, s: u64)
    by (bit_vector)
    requires
        s <= 48,
    ensures
        n >> ((s + 8) as u64) == (n >> 8u64) >> s,
{
}

proof fn lemma_shift_off(n: u64, a: u64, b: u64)
    by (bit_vector)
    requires
        a <= b < 64,
        n >> a == 0,
    ensures
        n >> b == 0,
{
}

/// A number is read back from its bytes.
pub proof fn law_number_bytes(n: u64, count: nat)
    requires
        count <= 8,
        fits_bits(n, 8 * count),
    ensures
        little_endian(number_bytes(n, count)) == n,
    decreases count,
{
    let bytes = number_bytes(n, count);
    if count == 0 {
        assert(n >> 0u64 == n) by (bit_vector);
    } else {
        let high = n >> 8u64;
        let fewer = (count - 1) as nat;
        lemma_low_byte(n);
        assert forall|k: int| 0 <= k < fewer implies #[trigger] bytes.skip(1)[k] == number_bytes(
            high,
            fewer,
        )[k] by {
            lemma_shift_on(n, (8 * k) as u64);
        }
        assert(bytes.skip(1) =~= number_bytes(high, fewer));
        if fewer < 8 {
            if count < 8 {
                lemma_shift_on(n, (8 * fewer) as u64);
            } else {
                assert((n >> 8u64) >> 56u64 == 0) by (bit_vector);
            }
        }
        law_number_bytes(high, fewer);
        assert(n >> 0u64 == n) by (bit_vector);
        let low = n & 0xff;
        assert(low as u8 == low) by (bit_vector)
            requires
                low < 256,
        ;
        assert(bytes[0] == low);
    }
}

/// The bytes of 64-bit integers: eight for each, the lowest first.
pub open spec fn int64_bytes(values: Seq<i64>) -> Seq<u8> {
    Seq::new(8 * values.len(), |j: int| byte_of(values[j / 8] as u64, j % 8))
}

/// The bytes of 32-bit integers: four for each, the lowest first.
pub open spec fn int32_bytes(values: Seq<i32>) -> Seq<u8> {
    Seq::new(4 * values.len(), |j: int| byte_of(values[j / 4] as u32 as u64, j % 4))
}

/// The bytes start with the plain values `values`, one after the other.
pub open spec fn writes_plainly<T: DataType>(bytes: Seq<u8>, values: Seq<T::T>) -> bool {
    &&& values.len() * T::width() <= bytes.len()
    &&& forall|i: int|
        0 <= i < values.len() ==> #[trigger] values[i] == T::plain(
            bytes.subrange(i * T::width(), (i + 1) * T::width()),
        )
}

/// A 64-bit integer is decoded from its eight bytes, the lowest first.
pub proof fn law_int64_is_read_back(value: i64)
    ensures
        Int64Type::width() == 8,
        Int64Type::plain(number_bytes(value as u64, 8)) == value,
{
    law_number_bytes(value as u64, 8);
    assert((value as u64) as i64 == value) by (bit_vector);
}

/// A 32-bit integer is decoded from its four bytes, the lowest first.
pub proof fn law_int32_is_read_back(value: i32)
    ensures
        Int32Type::width() == 4,
        Int32Type::plain(number_bytes(value as u32 as u64, 4)) == value,
{
    let n = value as u32 as u64;
    assert(n >> 32u64 == 0) by (bit_vector)
        requires
            n == value as u32 as u64,
    ;
    law_number_bytes(n, 4);
    assert((value as u32) as i32 == value) by (bit_vector);
    assert(n == value as u32);
}

/// Bytes that start with 64-bit integers are decoded to these integers.
pub proof fn law_int64_bytes(values: Seq<i64>, bytes: Seq<u8>)
    requires
        int64_bytes(values).is_prefix_of(bytes),
    ensures
        writes_plainly::<Int64Type>(bytes, values),
{
    let written = int64_bytes(values);
    assert forall|i: int| 0 <= i < values.len() implies #[trigger] values[i] == Int64Type::plain(
        bytes.subrange(i * Int64Type::width(), (i + 1) * Int64Type::width()),
    ) by {
        law_int64_is_read_back(values[i]);
        let part = bytes.subrange(i * 8, (i + 1) * 8);
        assert forall|k: int| 0 <= k < 8 implies #[trigger] part[k] == byte_of(
            values[i] as u64,
            k,
        ) by {
            assert(part[k] == written[8 * i + k]);
            assert((8 * i + k) / 8 == i && (8 * i + k) % 8 == k);
        }
        assert(part =~= number_bytes(values[i] as u64, 8));
    }
}

/// Bytes that start with 32-bit integers are decoded to these integers.
pub proof fn law_int32_bytes(values: Seq<i32>, bytes: Seq<u8>)
    requires
        int32_bytes(values).is_prefix_of(bytes),
    ensures
        writes_plainly::<Int32Type>(bytes, values),
{
    let written = int32_bytes(values);
    assert forall|i: int| 0 <= i < values.len() implies #[trigger] values[i] == Int32Type::plain(
        bytes.subrange(i * Int32Type::width(), (i + 1) * Int32Type::width()),
    ) by {
        law_int32_is_read_back(values[i]);
        let part = bytes.subrange(i * 4, (i + 1) * 4);
        assert forall|k: int| 0 <= k < 4 implies #[trigger] part[k] == byte_of(
            values[i] as u32 as u64,
            k,
        ) by {
            assert(part[k] == written[4 * i + k]);
            assert((4 * i + k) / 4 == i && (4 * i + k) % 4 == k);
        }
        assert(part =~= number_bytes(values[i] as u32 as u64, 4));
    }
}

/// The plain values of bytes are those that are written in them.
pub proof fn law_plain_values<T: DataType>(bytes: Seq<u8>, values: Seq<T::T>)
    requires
        writes_plainly::<T>(bytes, values),
    ensures
        plain_values::<T>(bytes, values.len()) == values,
{
    assert(plain_values::<T>(bytes, values.len()) =~= values);
}

/// Bit `b` of a number.
pub open spec fn bit_of(n: u64, b: int) -> bool {
    (n >> (b as u64)) & 1 == 1
}

/// Bit `b` of entry `i` of entries of `width` bits that are packed without gaps, from the lowest
/// bit of the first byte on.
pub open spec fn packed_bit(bytes: Seq<u8>, width: nat, i: int, b: int) -> bool {
    let j = i * width + b;
    (bytes[j / 8] >> ((j % 8) as u8)) & 1 == 1
}

/// The bytes are the indices, packed without gaps.
pub open spec fn packs(bytes: Seq<u8>, width: nat, xs: Seq<u32>) -> bool {
    &&& xs.len() * width <= 8 * bytes.len()
    &&& forall|i: int| 0 <= i < xs.len() ==> fits_bits(#[trigger] xs[i] as u64, width)
    &&& forall|i: int, b: int|
        0 <= i < xs.len() && 0 <= b < width ==> #[trigger] packed_bit(bytes, width, i, b)
            == bit_of(xs[i] as u64, b)
}

proof fn lemma_next_bit(n: u64, b: u64)
    by (bit_vector)
    requires
        b < 32,
    ensures
        n >> b == ((n >> b) & 1) + 2 * (n >> ((b + 1) as u64)),
        (n >> b) & 1 == 0 || (n >> b) & 1 == 1,
{
}

proof fn lemma_bits_of(bytes: Seq<u8>, width: nat, i: int, x: u32, b: nat)
    requires
        b <= width <= 32,
        fits_bits(x as u64, width),
        forall|b: int|
            0 <= b < width ==> #[trigger] packed_bit(bytes, width, i, b) == bit_of(x as u64, b),
    ensures
        bits_value(bytes, i * width + b, (width - b) as nat) == x as u64 >> (b as u64),
    decreases width - b,
{
    if b < width {
        lemma_bits_of(bytes, width, i, x, b + 1);
        lemma_next_bit(x as u64, b as u64);
        assert(packed_bit(bytes, width, i, b as int) == bit_of(x as u64, b as int));
    }
}

/// Indices of any width up to 32 bits are unpacked from the bytes that they are packed in.
pub proof fn law_packed_indices(bytes: Seq<u8>, width: nat, xs: Seq<u32>)
    requires
        width <= 32,
        packs(bytes, width, xs),
    ensures
        unpacked_indices(bytes, width, xs.len()) == xs,
{
    assert forall|i: int| 0 <= i < xs.len() implies #[trigger] unpacked_indices(
        bytes,
        width,
        xs.len(),
    )[i] == xs[i] by {
        let n = xs[i] as u64;
        lemma_bits_of(bytes, width, i, xs[i], 0);
        assert(n >> 0u64 == n) by (bit_vector);
    }
    assert(unpacked_indices(bytes, width, xs.len()) =~= xs);
}

/// A number in groups of seven bits, the lowest first. Each byte but the last has its highest bit
/// set.
pub open spec fn grouped(n: nat) -> Seq<u8>
    decreases n,
{
    if n < 128 {
        seq![n as u8]
    } else {
        seq![(128 + n % 128) as u8] + grouped(n / 128)
    }
}

proof fn lemma_grouped(n: nat, rest: Seq<u8>, limit: nat)
    requires
        1 <= limit <= 5,
        limit == 1 ==> n < 0x80,
        limit == 2 ==> n < 0x4000,
        limit == 3 ==> n < 0x20_0000,
        limit == 4 ==> n < 0x1000_0000,
        limit == 5 ==> n < 0x8_0000_0000,
    ensures
        1 <= grouped(n).len() <= limit,
        varint(grouped(n) + rest, limit) == Header::Number(n as u64, grouped(n).len() as usize),
    decreases n,
{
    let data = grouped(n) + rest;
    if n >= 128 {
        lemma_grouped(n / 128, rest, (limit - 1) as nat);
        assert(data.skip(1) =~= grouped(n / 128) + rest);
        assert(data[0] == (128 + n % 128) as u8);
    } else {
        assert(data[0] == n as u8);
    }
}

/// The header of a run is read back, whatever follows it.
pub proof fn law_header_is_read_back(n: nat, rest: Seq<u8>)
    requires
        n <= u32::MAX,
    ensures
        header(grouped(n) + rest) == Header::Number(n as u64, grouped(n).len() as usize),
        1 <= grouped(n).len() <= 5,
{
    lemma_grouped(n, rest, 5);
}

/// Bytes that write one number in groups of seven bits: the highest bit is set in all of them but
/// the last.
pub open spec fn is_grouped(bytes: Seq<u8>) -> bool {
    &&& bytes.len() > 0
    &&& bytes.last() < 128
    &&& forall|i: int| 0 <= i < bytes.len() - 1 ==> #[trigger] bytes[i] >= 128
}

/// The number that groups of seven bits write, the lowest first.
pub open spec fn groups_value(bytes: Seq<u8>) -> nat
    decreases bytes.len(),
{
    if bytes.len() == 0 {
        0
    } else {
        groups_value(bytes.skip(1)) * 128 + (bytes[0] as nat % 128)
    }
}

proof fn lemma_groups(bytes: Seq<u8>, rest: Seq<u8>, limit: nat)
    requires
        is_grouped(bytes),
        bytes.len() <= limit <= 5,
    ensures
        varint(bytes + rest, limit) == Header::Number(
            groups_value(bytes) as u64,
            bytes.len() as usize,
        ),
        limit == 1 ==> groups_value(bytes) < 0x80,
        limit == 2 ==> groups_value(bytes) < 0x4000,
        limit == 3 ==> groups_value(bytes) < 0x20_0000,
        limit == 4 ==> groups_value(bytes) < 0x1000_0000,
        limit == 5 ==> groups_value(bytes) < 0x8_0000_0000,
    decreases bytes.len(),
{
    let data = bytes + rest;
    assert(data[0] == bytes[0]);
    if bytes.len() > 1 {
        let more = bytes.skip(1);
        assert(bytes[0] >= 128);
        assert(data.skip(1) =~= more + rest);
        assert(more.last() == bytes.last());
        assert forall|i: int| 0 <= i < more.len() - 1 implies #[trigger] more[i] >= 128 by {
            assert(more[i] == bytes[i + 1]);
        }
        lemma_groups(more, rest, (limit - 1) as nat);
    } else {
        assert(bytes.last() == bytes[0]);
        assert(groups_value(bytes.skip(1)) == 0);
    }
}

/// A header of up to five bytes is the number that it writes, also where it takes more bytes than
/// it needs. One that does not fit in 32 bits is none.
pub proof fn law_header_is_its_number(bytes: Seq<u8>, rest: Seq<u8>)
    requires
        is_grouped(bytes),
        bytes.len() <= 5,
    ensures
        header(bytes + rest) == if groups_value(bytes) <= u32::MAX {
            Header::Number(groups_value(bytes) as u64, bytes.len() as usize)
        } else {
            Header::Invalid
        },
{
    lemma_groups(bytes, rest, 5);
}

/// A run of indices.
pub enum IndexRun {
    /// One index, several times.
    Repeated { times: nat, index: u32 },
    /// Groups of eight indices, packed in bytes.
    Packed { bytes: Seq<u8>, xs: Seq<u32> },
}

impl IndexRun {
    /// The run can be written with indices of `width` bits.
    pub open spec fn fits(self, width: nat) -> bool {
        match self {
            IndexRun::Repeated { times, index } => {
                &&& 1 <= times
                &&& 2 * times <= u32::MAX
                &&& fits_bits(index as u64, width)
            },
            IndexRun::Packed { bytes, xs } => {
                &&& xs.len() % 8 == 0
                &&& xs.len() / 4 + 1 <= u32::MAX
                &&& 8 * bytes.len() == xs.len() * width
                &&& packs(bytes, width, xs)
            },
        }
    }

    /// The indices of the run.
    pub open spec fn xs(self) -> Seq<u32> {
        match self {
            IndexRun::Repeated { times, index } => Seq::new(times, |i: int| index),
            IndexRun::Packed { xs, .. } => xs,
        }
    }

    /// The bytes of the run. Twice the number of repetitions stands before the bytes of a repeated
    /// index, and twice the number of groups and one before packed indices.
    pub open spec fn bytes(self, width: nat) -> Seq<u8> {
        match self {
            IndexRun::Repeated { times, index } => grouped(2 * times) + number_bytes(
                index as u64,
                ((width + 7) / 8) as nat,
            ),
            IndexRun::Packed { bytes, xs } => grouped(2 * (xs.len() / 8) + 1) + bytes,
        }
    }
}

/// The bytes of runs that stand one after the other.
pub open spec fn runs_bytes(runs: Seq<IndexRun>, width: nat) -> Seq<u8>
    decreases runs.len(),
{
    if runs.len() == 0 {
        Seq::empty()
    } else {
        runs[0].bytes(width) + runs_bytes(runs.skip(1), width)
    }
}

/// The indices of runs that stand one after the other.
pub open spec fn runs_xs(runs: Seq<IndexRun>) -> Seq<u32>
    decreases runs.len(),
{
    if runs.len() == 0 {
        Seq::empty()
    } else {
        runs[0].xs() + runs_xs(runs.skip(1))
    }
}

/// The runs can be written with indices of `width` bits.
pub open spec fn runs_fit(runs: Seq<IndexRun>, width: nat) -> bool {
    forall|i: int| 0 <= i < runs.len() ==> (#[trigger] runs[i]).fits(width)
}

proof fn lemma_first_run_is_read_back(run: IndexRun, width: nat, rest: Seq<u8>)
    requires
        width <= 32,
        run.fits(width),
    ensures
        first_run(run.bytes(width) + rest, width) == Some((run.xs(), run.bytes(width).len())),
        !bad_run(run.bytes(width) + rest, width),
{
    let data = run.bytes(width) + rest;
    match run {
        IndexRun::Repeated { times, index } => {
            let count = ((width + 7) / 8) as nat;
            let value = number_bytes(index as u64, count);
            law_header_is_read_back(2 * times, value + rest);
            assert(data =~= grouped(2 * times) + (value + rest));
            let after = data.skip(grouped(2 * times).len() as int);
            assert(after =~= value + rest);
            assert(after.take(count as int) =~= value);
            lemma_shift_off(index as u64, width as u64, (8 * count) as u64);
            law_number_bytes(index as u64, count);
            let (found, _) = first_run(data, width)->0;
            assert(found =~= run.xs());
        },
        IndexRun::Packed { bytes, xs } => {
            let n = 2 * (xs.len() / 8) + 1;
            law_header_is_read_back(n, bytes + rest);
            assert(data =~= grouped(n) + (bytes + rest));
            let after = data.skip(grouped(n).len() as int);
            assert(after =~= bytes + rest);
            lemma_packs_on(bytes, width, xs, rest);
            law_packed_indices(after, width, xs);
            assert(xs.len() * width <= 8 * after.len());
        },
    }
}

proof fn lemma_packs_on(bytes: Seq<u8>, width: nat, xs: Seq<u32>, rest: Seq<u8>)
    requires
        packs(bytes, width, xs),
    ensures
        packs(bytes + rest, width, xs),
{
    assert forall|i: int, b: int| 0 <= i < xs.len() && 0 <= b < width implies #[trigger] packed_bit(
        bytes + rest,
        width,
        i,
        b,
    ) == bit_of(xs[i] as u64, b) by {
        let j = i * width + b;
        assert(0 <= j < xs.len() * width) by (nonlinear_arith)
            requires
                0 <= i < xs.len(),
                0 <= b < width,
                j == i * width + b,
        ;
        assert((bytes + rest)[j / 8] == bytes[j / 8]);
        assert(packed_bit(bytes, width, i, b) == bit_of(xs[i] as u64, b));
    }
}

/// Runs are decoded to their indices, whatever follows them: behind them the decoder goes on with
/// what follows.
pub proof fn law_runs_are_read_back(runs: Seq<IndexRun>, width: nat, rest: Seq<u8>)
    requires
        width <= 32,
        runs_fit(runs, width),
    ensures
        indices(runs_bytes(runs, width) + rest, width) == runs_xs(runs) + indices(rest, width),
        ends_badly(runs_bytes(runs, width) + rest, width) == ends_badly(rest, width),
        runs.len() > 0 ==> !bad_run(runs_bytes(runs, width) + rest, width),
    decreases runs.len(),
{
    if runs.len() == 0 {
        assert(runs_bytes(runs, width) + rest =~= rest);
        assert(runs_xs(runs) + indices(rest, width) =~= indices(rest, width));
    } else {
        let more = runs.skip(1);
        let first = runs[0].bytes(width);
        let data = runs_bytes(runs, width) + rest;
        assert forall|i: int| 0 <= i < more.len() implies (#[trigger] more[i]).fits(width) by {
            assert(more[i] == runs[i + 1]);
        }
        law_runs_are_read_back(more, width, rest);
        lemma_first_run_is_read_back(runs[0], width, runs_bytes(more, width) + rest);
        assert(data =~= first + (runs_bytes(more, width) + rest));
        assert(data.skip(first.len() as int) =~= runs_bytes(more, width) + rest);
        assert(runs_xs(runs) + indices(rest, width) =~= runs[0].xs() + (runs_xs(more) + indices(
            rest,
            width,
        )));
    }
}

/// No indices follow the end of the bytes, and none follow a zero.
pub proof fn law_indices_end(rest: Seq<u8>, width: nat)
    requires
        rest.len() == 0 || rest[0] == 0,
    ensures
        indices(rest, width) == Seq::<u32>::empty(),
        !ends_badly(rest, width),
        !bad_run(rest, width),
{
}

/// Where the bytes end in the middle of packed indices, those that are there as a whole are
/// decoded. What is left of the last byte is passed over.
pub proof fn law_cut_packed_run(groups: nat, bytes: Seq<u8>, width: nat, xs: Seq<u32>)
    requires
        1 <= width <= 32,
        2 * groups + 1 <= u32::MAX,
        8 * bytes.len() < 8 * groups * width,
        packs(bytes, width, xs),
        8 * bytes.len() < xs.len() * width + width,
        8 * bytes.len() < xs.len() * width + 8,
    ensures
        indices(grouped(2 * groups + 1) + bytes, width) == xs,
        !ends_badly(grouped(2 * groups + 1) + bytes, width),
        !bad_run(grouped(2 * groups + 1) + bytes, width),
{
    let data = grouped(2 * groups + 1) + bytes;
    law_header_is_read_back(2 * groups + 1, bytes);
    let k = grouped(2 * groups + 1).len() as int;
    assert(data.skip(k) =~= bytes);
    law_packed_indices(bytes, width, xs);
    let n = 8 * bytes.len() / width;
    assert(n == xs.len()) by (nonlinear_arith)
        requires
            1 <= width,
            n == 8 * bytes.len() / width,
            xs.len() * width <= 8 * bytes.len(),
            8 * bytes.len() < xs.len() * width + width,
    ;
    let used = (n * width + 7) / 8;
    let left = data.skip(k + used);
    assert(first_run(data, width) == Some((xs, (k + used) as nat)));
    assert(indices(data, width) =~= xs + indices(left, width));
    assert(left.len() == 0);
    law_indices_end(left, width);
    assert(xs + Seq::<u32>::empty() =~= xs);
}

/// Bytes that end before a repeated index does cannot be read.
pub proof fn law_cut_repeated_run(times: nat, bytes: Seq<u8>, width: nat)
    requires
        1 <= times,
        2 * times <= u32::MAX,
        bytes.len() < (width + 7) / 8,
    ensures
        indices(grouped(2 * times) + bytes, width) == Seq::<u32>::empty(),
        ends_badly(grouped(2 * times) + bytes, width),
        bad_run(grouped(2 * times) + bytes, width),
{
    let data = grouped(2 * times) + bytes;
    law_header_is_read_back(2 * times, bytes);
    assert(data.skip(grouped(2 * times).len() as int) =~= bytes);
}

/// A header that does not fit in 32 bits cannot be read.
pub proof fn law_wide_header(n: nat, rest: Seq<u8>, width: nat)
    requires
        u32::MAX < n < 0x8_0000_0000,
    ensures
        indices(grouped(n) + rest, width) == Seq::<u32>::empty(),
        ends_badly(grouped(n) + rest, width),
        bad_run(grouped(n) + rest, width),
{
    lemma_grouped(n, rest, 5);
}

/// What stands behind the runs of a page.
pub enum IndexTail {
    /// Nothing.
    End,
    /// A zero, and whatever follows it.
    Zero { rest: Seq<u8> },
    /// Packed indices of which some are missing.
    Cut { groups: nat, bytes: Seq<u8>, xs: Seq<u32> },
}

impl IndexTail {
    /// The bytes can stand behind runs of indices of `width` bits.
    pub open spec fn fits(self, width: nat) -> bool {
        match self {
            IndexTail::Cut { groups, bytes, xs } => {
                &&& 1 <= width
                &&& 2 * groups + 1 <= u32::MAX
                &&& 8 * bytes.len() < 8 * groups * width
                &&& packs(bytes, width, xs)
                &&& 8 * bytes.len() < xs.len() * width + width
                &&& 8 * bytes.len() < xs.len() * width + 8
            },
            _ => true,
        }
    }

    /// The bytes.
    pub open spec fn bytes(self) -> Seq<u8> {
        match self {
            IndexTail::End => Seq::empty(),
            IndexTail::Zero { rest } => seq![0u8] + rest,
            IndexTail::Cut { groups, bytes, .. } => grouped(2 * groups + 1) + bytes,
        }
    }

    /// The indices that are there as a whole.
    pub open spec fn xs(self) -> Seq<u32> {
        match self {
            IndexTail::Cut { xs, .. } => xs,
            _ => Seq::empty(),
        }
    }
}

/// The bytes behind the width of a page of indices.
pub open spec fn page_bytes(runs: Seq<IndexRun>, tail: IndexTail, width: nat) -> Seq<u8> {
    runs_bytes(runs, width) + tail.bytes()
}

/// The indices of a page.
pub open spec fn page_xs(runs: Seq<IndexRun>, tail: IndexTail) -> Seq<u32> {
    runs_xs(runs) + tail.xs()
}

/// The page can be written with indices of `width` bits.
pub open spec fn page_fits(runs: Seq<IndexRun>, tail: IndexTail, width: nat) -> bool {
    &&& width <= 32
    &&& runs_fit(runs, width)
    &&& tail.fits(width)
}

/// The indices of a page are read back.
pub proof fn law_page_is_read_back(runs: Seq<IndexRun>, tail: IndexTail, width: nat)
    requires
        page_fits(runs, tail, width),
    ensures
        indices(page_bytes(runs, tail, width), width) == page_xs(runs, tail),
        !ends_badly(page_bytes(runs, tail, width), width),
        !bad_run(page_bytes(runs, tail, width), width),
{
    match tail {
        IndexTail::Cut { groups, bytes, xs } => law_cut_packed_run(groups, bytes, width, xs),
        _ => law_indices_end(tail.bytes(), width),
    }
    law_runs_are_read_back(runs, width, tail.bytes());
    if runs.len() == 0 {
        assert(page_bytes(runs, tail, width) =~= tail.bytes());
    }
}

} // verus!
