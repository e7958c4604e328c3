//! Dictionary indices: runs of repeated indices and of bit-packed indices, each behind a header.
//!
//! A header is a variable-length number. An even header `2 * n` stands before one index in whole
//! little-endian bytes, which is repeated `n` times. An odd header `2 * n + 1` stands before
//! `8 * n` indices that are packed bit by bit, the least significant bit first.
use bytes::Bytes;
use vstd::prelude::*;

use crate::arrow::{as_slice, bytes_content, no_bytes, slice_from};
use crate::bits::bit_at;
use crate::errors::{ParquetError, Reason};

verus! {

/// What stands where a header is expected.
#[verifier::ext_equal]
pub enum Header {
    /// The bytes ended.
    End,
    /// The number does not fit in 32 bits.
    Invalid,
    /// A number, and how many bytes it takes.
    Number(u64, usize),
}

/// Reads a number in groups of seven bits, the lowest group first, from at most `limit` bytes.
pub open spec fn varint(data: Seq<u8>, limit: nat) -> Header
    decreases limit,
{
    if data.len() == 0 {
        Header::End
    } else if limit == 0 {
        Header::Invalid
    } else if data[0] < 128 {
        Header::Number(data[0] as u64, 1)
    } else {
        match varint(data.skip(1), (limit - 1) as nat) {
            Header::Number(v, k) => Header::Number(
                (data[0] - 128 + 128 * v) as u64,
                (k + 1) as usize,
            ),
            other => other,
        }
    }
}

/// The header at the start of `data`.
pub open spec fn header(data: Seq<u8>) -> Header {
    match varint(data, 5) {
        Header::Number(v, k) => if v <= u32::MAX {
            Header::Number(v, k)
        } else {
            Header::Invalid
        },
        other => other,
    }
}

proof fn lemma_varint(data: Seq<u8>, limit: nat)
    requires
        limit <= 5,
    ensures
        varint(data, limit) matches Header::Number(v, k) ==> {
            &&& 1 <= k <= limit
            &&& k <= data.len()
            &&& limit == 1 ==> v < 0x80
            &&& limit == 2 ==> v < 0x4000
            &&& limit == 3 ==> v < 0x20_0000
            &&& limit == 4 ==> v < 0x1000_0000
            &&& limit == 5 ==> v < 0x8_0000_0000
        },
    decreases limit,
{
    if data.len() > 0 && limit > 0 && data[0] >= 128 {
        lemma_varint(data.skip(1), (limit - 1) as nat);
    }
}

/// How many bytes an index of `width` bits takes when it is repeated.
pub open spec fn index_bytes(width: nat) -> nat {
    (width + 7) / 8
}

/// The number that little-endian `bytes` stand for.
pub open spec fn little_endian(bytes: Seq<u8>) -> nat
    decreases bytes.len(),
{
    if bytes.len() == 0 {
        0
    } else {
        bytes[0] as nat + 256 * little_endian(bytes.skip(1))
    }
}

/// The number that `width` bits stand for, from bit `from` on, the least significant bit first.
pub open spec fn bits_value(bytes: Seq<u8>, from: int, width: nat) -> nat
    decreases width,
{
    if width == 0 {
        0
    } else {
        (if bit_at(bytes, from) {
            1nat
        } else {
            0nat
        }) + 2 * bits_value(bytes, from + 1, (width - 1) as nat)
    }
}

/// The first `n` bit-packed indices.
pub open spec fn unpacked_indices(bytes: Seq<u8>, width: nat, n: nat) -> Seq<u32> {
    Seq::new(n, |i: int| bits_value(bytes, i * width, width) as u32)
}

/// How many of `count` bit-packed indices `len` bytes hold.
pub open spec fn available(len: nat, width: nat, count: nat) -> nat {
    if count * width <= 8 * len {
        count
    } else {
        8 * len / width
    }
}

proof fn lemma_available(len: nat, width: nat, count: nat)
    ensures
        available(len, width, count) <= count,
        available(len, width, count) * width <= 8 * len,
{
    if count * width > 8 * len {
        assert(width > 0) by (nonlinear_arith)
            requires
                count * width > 8 * len,
                len >= 0,
        ;
        let n = 8 * len / width;
        assert(n * width <= 8 * len && n <= count) by (nonlinear_arith)
            requires
                width > 0,
                n == 8 * len / width,
                count * width > 8 * len,
        ;
    }
}

/// The run at the start of `data` cannot be read.
pub open spec fn bad_run(data: Seq<u8>, width: nat) -> bool {
    match header(data) {
        Header::End => false,
        Header::Invalid => true,
        Header::Number(h, k) => h != 0 && h % 2 == 0 && data.skip(k as int).len() < index_bytes(
            width,
        ),
    }
}

/// The indices in the run at the start of `data`, and how many bytes the run takes. A header of
/// zero, like the end of the bytes, gives `None`: no run follows.
pub open spec fn first_run(data: Seq<u8>, width: nat) -> Option<(Seq<u32>, nat)> {
    match header(data) {
        Header::Number(h, k) => {
            let rest = data.skip(k as int);
            if h == 0 || bad_run(data, width) {
                None
            } else if h % 2 == 1 {
                let n = available(rest.len(), width, 8 * (h as nat / 2));
                Some((unpacked_indices(rest, width, n), k as nat + (n * width + 7) as nat / 8))
            } else {
                let value = little_endian(rest.take(index_bytes(width) as int)) as u32;
                Some(
                    (
                        Seq::new(h as nat / 2, |i: int| value),
                        k as nat + index_bytes(width),
                    ),
                )
            }
        },
        _ => None,
    }
}

pub proof fn lemma_first_run(data: Seq<u8>, width: nat)
    ensures
        first_run(data, width) matches Some((_, used)) ==> 1 <= used <= data.len(),
{
    lemma_varint(data, 5);
    if let Header::Number(h, k) = header(data) {
        let rest = data.skip(k as int);
        lemma_available(rest.len(), width, 8 * (h as nat / 2));
    }
}

/// The indices that `data` holds.
pub open spec fn indices(data: Seq<u8>, width: nat) -> Seq<u32>
    decreases data.len(),
{
    match first_run(data, width) {
        Some((run, used)) => {
            proof {
                lemma_first_run(data, width);
            }
            run + indices(data.skip(used as int), width)
        },
        None => Seq::empty(),
    }
}

/// `data` ends in a run that cannot be read.
pub open spec fn ends_badly(data: Seq<u8>, width: nat) -> bool
    decreases data.len(),
{
    match first_run(data, width) {
        Some((_, used)) => {
            proof {
                lemma_first_run(data, width);
            }
            ends_badly(data.skip(used as int), width)
        },
        None => bad_run(data, width),
    }
}

/// Reads a number from `bytes`, from `pos` on.
fn read_varint(bytes: &[u8], pos: usize, limit: usize) -> (r: Header)
    requires
        pos <= bytes@.len(),
        limit <= 5,
    ensures
        r == varint(bytes@.skip(pos as int), limit as nat),
    decreases limit,
{
    let ghost data = bytes@.skip(pos as int);
    if pos == bytes.len() {
        return Header::End;
    }
    if limit == 0 {
        return Header::Invalid;
    }
    let byte: u8 = bytes[pos];
    if byte < 128 {
        return Header::Number(byte as u64, 1);
    }
    proof {
        assert(data.skip(1) =~= bytes@.skip(pos + 1));
        lemma_varint(data.skip(1), (limit - 1) as nat);
    }
    match read_varint(bytes, pos + 1, limit - 1) {
        Header::Number(v, k) => Header::Number((byte as u64 - 128) + 128 * v, k + 1),
        other => other,
    }
}

proof fn lemma_bits_value_bound(bytes: Seq<u8>, from: int, width: nat)
    ensures
        bits_value(bytes, from, width) < vstd::arithmetic::power2::pow2(width),
    decreases width,
{
    vstd::arithmetic::power2::lemma2_to64();
    if width > 0 {
        lemma_bits_value_bound(bytes, from + 1, (width - 1) as nat);
        vstd::arithmetic::power2::lemma_pow2_unfold(width);
    }
}

/// Reads `width` bits from bit `from` on.
fn read_bits(bytes: &[u8], start: usize, from: u64, width: u8) -> (r: u32)
    requires
        start <= bytes@.len(),
        width <= 32,
        from + width <= 8 * (bytes@.len() - start),
        from + width <= 0x100_0000_0000,
    ensures
        r == bits_value(bytes@.skip(start as int), from as int, width as nat) as u32,
{
    let ghost data = bytes@.skip(start as int);
    let mut value: u64 = 0;
    let mut left: u8 = width;
    while left > 0
        invariant
            data == bytes@.skip(start as int),
            start <= bytes@.len(),
            left <= width <= 32,
            from + width <= 8 * (bytes@.len() - start),
            from + width <= 0x100_0000_0000,
            value == bits_value(data, from + left, (width - left) as nat),
        decreases left,
    {
        proof {
            lemma_bits_value_bound(data, from + left, (width - left) as nat);
            vstd::arithmetic::power2::lemma2_to64();
            vstd::arithmetic::power2::lemma2_to64_rest();
            if width - left < 31 {
                vstd::arithmetic::power2::lemma_pow2_strictly_increases((width - left) as nat, 31);
            }
        }
        left = left - 1;
        let len: usize = bytes.len();
        let position: u64 = from + left as u64;
        let offset: usize = (position / 8) as usize;
        let byte: u8 = bytes[start + offset];
        let bit: u8 = (byte >> ((position % 8) as u8)) & 1;
        proof {
            assert(data[position as int / 8] == byte);
            assert(bit <= 1) by (bit_vector)
                requires
                    bit == (byte >> ((position % 8) as u8)) & 1,
            ;
        }
        value = 2 * value + bit as u64;
    }
    #[verifier::truncate]
    (value as u32)
}

/// How many of `count` indices of `width` bits `left` bytes hold, and how many bytes these take.
fn packed_extent(left: usize, width: u8, count: u64) -> (r: (u64, usize))
    requires
        width <= 32,
        count <= 0x4_0000_0000,
    ensures
        r.0 == available(left as nat, width as nat, count as nat),
        r.0 <= count,
        r.0 * width <= 8 * left,
        r.1 == (r.0 * width + 7) / 8,
        r.1 <= left,
{
    proof {
        lemma_available(left as nat, width as nat, count as nat);
        assert(count * width <= 0x80_0000_0000) by (nonlinear_arith)
            requires
                width <= 32,
                count <= 0x4_0000_0000,
        ;
    }
    let bits: u128 = left as u128 * 8;
    let wanted: u128 = count as u128 * width as u128;
    let total: u64 = if wanted <= bits {
        count
    } else {
        (bits / width as u128) as u64
    };
    let used: usize = ((total as u128 * width as u128 + 7) / 8) as usize;
    (total, used)
}

/// The number that little-endian `bytes` stand for, from `start` to `end`.
fn read_little_endian(bytes: &[u8], start: usize, end: usize) -> (r: u32)
    requires
        start <= end <= bytes@.len(),
        end - start <= 4,
    ensures
        r == little_endian(bytes@.subrange(start as int, end as int)),
    decreases end - start,
{
    if start == end {
        return 0;
    }
    let ghost data = bytes@.subrange(start as int, end as int);
    let high: u32 = read_little_endian(bytes, start + 1, end);
    proof {
        assert(data.skip(1) =~= bytes@.subrange(start + 1, end as int));
        lemma_little_endian_bound(data.skip(1));
    }
    bytes[start] as u32 + 256 * high
}

proof fn lemma_little_endian_bound(bytes: Seq<u8>)
    requires
        bytes.len() <= 4,
    ensures
        bytes.len() == 0 ==> little_endian(bytes) == 0,
        bytes.len() == 1 ==> little_endian(bytes) < 0x100,
        bytes.len() == 2 ==> little_endian(bytes) < 0x1_0000,
        bytes.len() == 3 ==> little_endian(bytes) < 0x100_0000,
        bytes.len() == 4 ==> little_endian(bytes) < 0x1_0000_0000,
    decreases bytes.len(),
{
    if bytes.len() > 0 {
        lemma_little_endian_bound(bytes.skip(1));
    }
}

/// The run that is being read.
pub enum Run {
    /// `left` times `value`.
    Repeated { left: u32, value: u32 },
    /// The bit-packed indices at byte `start`, of which `done` out of `total` are read.
    Packed { start: usize, done: u64, total: u64 },
}

/// Decodes dictionary indices.
pub struct RleDecoder {
    data: Bytes,
    bit_width: u8,
    /// Where the header of the next run stands.
    next: usize,
    run: Run,
}

impl RleDecoder {
    spec fn bytes(self) -> Seq<u8> {
        bytes_content(self.data)
    }

    spec fn run_left(self) -> Seq<u32> {
        match self.run {
            Run::Repeated { left, value } => Seq::new(left as nat, |i: int| value),
            Run::Packed { start, done, total } => unpacked_indices(
                self.bytes().skip(start as int),
                self.bit_width as nat,
                total as nat,
            ).skip(done as int),
        }
    }

    /// The decoder is valid.
    pub closed spec fn wf(self) -> bool {
        &&& self.bit_width <= 32
        &&& self.next <= self.bytes().len()
        &&& self.run matches Run::Packed { start, done, total } ==> {
            &&& start <= self.bytes().len()
            &&& done <= total <= 0x4_0000_0000
            &&& total * self.bit_width <= 8 * (self.bytes().len() - start)
        }
    }

    /// How many bits an index takes.
    pub closed spec fn width(self) -> nat {
        self.bit_width as nat
    }

    /// The indices that are still to be read.
    pub closed spec fn pending(self) -> Seq<u32> {
        self.run_left() + indices(self.bytes().skip(self.next as int), self.width())
    }

    /// A run that cannot be read follows the pending indices.
    pub closed spec fn is_cut(self) -> bool {
        ends_badly(self.bytes().skip(self.next as int), self.width())
    }

    /// A decoder of indices of `bit_width` bits, without any.
    pub fn new(bit_width: u8) -> (r: Self)
        requires
            bit_width <= 32,
        ensures
            r.wf(),
            r.width() == bit_width,
            r.pending() == Seq::<u32>::empty(),
            !r.is_cut(),
    {
        let r = RleDecoder {
            data: no_bytes(),
            bit_width,
            next: 0,
            run: Run::Repeated { left: 0, value: 0 },
        };
        proof {
            assert(r.bytes().skip(0).len() == 0);
            assert(r.pending() =~= Seq::<u32>::empty());
        }
        r
    }

    proof fn lemma_loaded(self, before: Self)
        requires
            self.bytes() == before.bytes(),
            self.width() == before.width(),
            before.run_left().len() == 0,
            before.next <= self.next <= self.bytes().len(),
            first_run(before.bytes().skip(before.next as int), self.width()) matches Some(
                (run, used),
            ) && run == self.run_left() && used == self.next - before.next,
        ensures
            self.pending() == before.pending(),
            self.is_cut() == before.is_cut(),
    {
        let data = before.bytes().skip(before.next as int);
        assert(data.skip(self.next - before.next) =~= self.bytes().skip(self.next as int));
        assert(self.pending() =~= before.pending());
    }

    /// Makes the run at the next header the one that is being read. Gives `false` when no run
    /// follows.
    fn reload(&mut self) -> (r: Result<bool, ParquetError>)
        requires
            old(self).wf(),
            old(self).run_left().len() == 0,
        ensures
            final(self).wf(),
            final(self).bytes() == old(self).bytes(),
            final(self).width() == old(self).width(),
            final(self).pending() == old(self).pending(),
            final(self).is_cut() == old(self).is_cut(),
            ({
                let data = old(self).bytes().skip(old(self).next as int);
                match r {
                    Ok(true) => first_run(data, old(self).width()) is Some && final(self).next
                        > old(self).next,
                    Ok(false) => first_run(data, old(self).width()) is None && !bad_run(
                        data,
                        old(self).width(),
                    ) && final(self).run_left().len() == 0,
                    Err(e) => bad_run(data, old(self).width()) && final(self).run_left().len() == 0
                        && e == ParquetError::General(Reason::IndexData),
                }
            }),
    {
        let bytes = as_slice(&self.data);
        let len: usize = bytes.len();
        let width: usize = self.bit_width as usize;
        let ghost data = bytes@.skip(self.next as int);
        proof {
            lemma_varint(data, 5);
            lemma_first_run(data, self.width());
        }
        match read_varint(bytes, self.next, 5) {
            Header::End => Ok(false),
            Header::Invalid => Err(ParquetError::General(Reason::IndexData)),
            Header::Number(h, k) => {
                if h > u32::MAX as u64 {
                    return Err(ParquetError::General(Reason::IndexData));
                }
                if h == 0 {
                    return Ok(false);
                }
                let start: usize = self.next + k;
                let ghost rest = data.skip(k as int);
                proof {
                    assert(rest =~= bytes@.skip(start as int));
                }
                if h % 2 == 1 {
                    let count: u64 = (h / 2) * 8;
                    let (total, used) = packed_extent(len - start, self.bit_width, count);
                    self.run = Run::Packed { start, done: 0, total };
                    self.next = start + used;
                    proof {
                        assert(self.run_left() =~= unpacked_indices(
                            rest,
                            self.width(),
                            total as nat,
                        ));
                        self.lemma_loaded(*old(self));
                    }
                    Ok(true)
                } else {
                    let end: usize = (width + 7) / 8;
                    if len - start < end {
                        return Err(ParquetError::General(Reason::IndexData));
                    }
                    let value: u32 = read_little_endian(bytes, start, start + end);
                    self.run = Run::Repeated { left: (h / 2) as u32, value };
                    self.next = start + end;
                    proof {
                        assert(rest.take(end as int) =~= bytes@.subrange(
                            start as int,
                            start + end,
                        ));
                        self.lemma_loaded(*old(self));
                    }
                    Ok(true)
                }
            },
        }
    }

    /// Takes the bytes of a page. The run that they start with is looked at right away.
    pub fn set_data(&mut self, data: Bytes) -> (r: Result<(), ParquetError>)
        requires
            old(self).wf(),
        ensures
            final(self).wf(),
            final(self).width() == old(self).width(),
            final(self).pending() == indices(bytes_content(data), old(self).width()),
            final(self).is_cut() == ends_badly(bytes_content(data), old(self).width()),
            r == if bad_run(bytes_content(data), old(self).width()) {
                Err::<(), ParquetError>(ParquetError::General(Reason::IndexData))
            } else {
                Ok(())
            },
    {
        self.data = data;
        self.next = 0;
        self.run = Run::Repeated { left: 0, value: 0 };
        proof {
            assert(bytes_content(data).skip(0) =~= bytes_content(data));
            assert(self.pending() =~= indices(bytes_content(data), self.width()));
        }
        match self.reload() {
            Ok(_) => Ok(()),
            Err(e) => Err(e),
        }
    }

    /// Reads one index, or none when none is left.
    fn next_index(&mut self) -> (r: Result<Option<u32>, ParquetError>)
        requires
            old(self).wf(),
        ensures
            final(self).wf(),
            final(self).width() == old(self).width(),
            final(self).is_cut() == old(self).is_cut(),
            match r {
                Ok(Some(index)) => {
                    &&& old(self).pending().len() > 0
                    &&& index == old(self).pending()[0]
                    &&& final(self).pending() == old(self).pending().skip(1)
                },
                Ok(None) => {
                    &&& old(self).pending().len() == 0
                    &&& !old(self).is_cut()
                    &&& final(self).pending().len() == 0
                },
                Err(e) => {
                    &&& old(self).pending().len() == 0
                    &&& old(self).is_cut()
                    &&& final(self).pending().len() == 0
                    &&& e == ParquetError::General(Reason::IndexData)
                },
            },
    {
        loop
            invariant
                self.wf(),
                self.width() == old(self).width(),
                self.pending() == old(self).pending(),
                self.is_cut() == old(self).is_cut(),
            decreases self.bytes().len() - self.next,
        {
            let ghost before = *self;
            match &mut self.run {
                Run::Repeated { left, value } => {
                    if *left > 0 {
                        *left = *left - 1;
                        let index: u32 = *value;
                        proof {
                            assert(self.run_left() =~= before.run_left().skip(1));
                            assert(self.pending() =~= before.pending().skip(1));
                        }
                        return Ok(Some(index));
                    }
                },
                Run::Packed { start, done, total } => {
                    if *done < *total {
                        proof {
                            let (i, n, w) = (*done as int, *total as int, self.bit_width as int);
                            assert(i * w + w <= n * w && 0 <= i * w && n * w <= 0x80_0000_0000)
                                by (nonlinear_arith)
                                requires
                                    0 <= i < n <= 0x4_0000_0000,
                                    0 <= w <= 32,
                            ;
                        }
                        let from: u64 = *done * self.bit_width as u64;
                        let index: u32 = read_bits(
                            as_slice(&self.data),
                            *start,
                            from,
                            self.bit_width,
                        );
                        *done = *done + 1;
                        proof {
                            assert(self.run_left() =~= before.run_left().skip(1));
                            assert(self.pending() =~= before.pending().skip(1));
                        }
                        return Ok(Some(index));
                    }
                },
            }
            match self.reload() {
                Ok(true) => {},
                Ok(false) => {
                    return Ok(None);
                },
                Err(e) => {
                    return Err(e);
                },
            }
        }
    }

    /// How many indices a read of `n` gives.
    pub open spec fn reach(self, n: nat) -> nat {
        if n <= self.pending().len() {
            n
        } else {
            self.pending().len()
        }
    }

    /// What a read or a skip of `n` indices returns: it fails when it comes to a run that cannot
    /// be read.
    pub open spec fn outcome(self, n: nat) -> Result<usize, ParquetError> {
        if self.reach(n) < n && self.is_cut() {
            Err(ParquetError::General(Reason::IndexData))
        } else {
            Ok(self.reach(n) as usize)
        }
    }

    /// `after` is left when `n` indices have been read or skipped.
    pub open spec fn moved(self, n: nat, after: Self) -> bool {
        &&& after.wf()
        &&& after.width() == self.width()
        &&& after.is_cut() == self.is_cut()
        &&& after.pending() == self.pending().skip(self.reach(n) as int)
    }

    /// Writes indices over the elements of `buffer` from `start` on.
    pub fn get_batch(&mut self, buffer: &mut Vec<i32>, start: usize) -> (r: Result<
        usize,
        ParquetError,
    >)
        requires
            old(self).wf(),
            start <= old(buffer)@.len(),
        ensures
            ({
                let n = (old(buffer)@.len() - start) as nat;
                let k = old(self).reach(n) as int;
                &&& old(self).moved(n, *final(self))
                &&& r == old(self).outcome(n)
                &&& final(buffer)@ == old(buffer)@.take(start as int) + keys_of(
                    old(self).pending().take(k),
                ) + old(buffer)@.skip(start + k)
            }),
    {
        let len: usize = buffer.len();
        let mut read: usize = 0;
        let ghost pending = self.pending();
        while read < len - start
            invariant
                self.wf(),
                self.width() == old(self).width(),
                self.is_cut() == old(self).is_cut(),
                pending == old(self).pending(),
                len == old(buffer)@.len(),
                buffer@.len() == len,
                start <= len,
                read <= len - start,
                read <= pending.len(),
                self.pending() == pending.skip(read as int),
                buffer@ == old(buffer)@.take(start as int) + keys_of(pending.take(read as int))
                    + old(buffer)@.skip(start + read),
            decreases len - start - read,
        {
            match self.next_index() {
                Ok(Some(index)) => {
                    let ghost before = buffer@;
                    buffer[start + read] = (#[verifier::truncate] (index as i32));
                    proof {
                        assert(pending.skip(read as int).skip(1) =~= pending.skip(read + 1));
                        assert(buffer@ =~= old(buffer)@.take(start as int) + keys_of(
                            pending.take(read + 1),
                        ) + old(buffer)@.skip(start + read + 1));
                    }
                    read = read + 1;
                },
                Ok(None) => {
                    proof {
                        assert(self.pending() =~= pending.skip(read as int));
                    }
                    return Ok(read);
                },
                Err(e) => {
                    proof {
                        assert(self.pending() =~= pending.skip(read as int));
                    }
                    return Err(e);
                },
            }
        }
        Ok(read)
    }

    /// Writes the dictionary values of `max_values` indices over the elements of `buffer` from
    /// `start` on.
    pub fn get_batch_with_dict<A: Copy>(
        &mut self,
        dict: &Vec<A>,
        buffer: &mut Vec<A>,
        start: usize,
        max_values: usize,
    ) -> (r: Result<usize, ParquetError>)
        requires
            old(self).wf(),
            start + max_values <= old(buffer)@.len(),
            old(self).points_into(max_values as nat, dict@.len()),
        ensures
            ({
                let n = max_values as nat;
                let k = old(self).reach(n) as int;
                &&& old(self).moved(n, *final(self))
                &&& r == old(self).outcome(n)
                &&& final(buffer)@ == old(buffer)@.take(start as int) + looked_up(
                    old(self).pending().take(k),
                    dict@,
                ) + old(buffer)@.skip(start + k)
            }),
    {
        let mut read: usize = 0;
        let ghost pending = self.pending();
        while read < max_values
            invariant
                self.wf(),
                self.width() == old(self).width(),
                self.is_cut() == old(self).is_cut(),
                pending == old(self).pending(),
                old(self).points_into(max_values as nat, dict@.len()),
                buffer@.len() == old(buffer)@.len(),
                start + max_values <= buffer@.len(),
                read <= max_values,
                read <= pending.len(),
                self.pending() == pending.skip(read as int),
                buffer@ == old(buffer)@.take(start as int) + looked_up(
                    pending.take(read as int),
                    dict@,
                ) + old(buffer)@.skip(start + read),
            decreases max_values - read,
        {
            match self.next_index() {
                Ok(Some(index)) => {
                    let len: usize = buffer.len();
                    proof {
                        assert(index == pending[read as int]);
                        assert(pending[read as int] < dict@.len());
                        assert(dict.len() <= usize::MAX);
                    }
                    buffer[start + read] = dict[index as usize];
                    proof {
                        assert(pending.skip(read as int).skip(1) =~= pending.skip(read + 1));
                        assert(buffer@ =~= old(buffer)@.take(start as int) + looked_up(
                            pending.take(read + 1),
                            dict@,
                        ) + old(buffer)@.skip(start + read + 1));
                    }
                    read = read + 1;
                },
                Ok(None) => {
                    proof {
                        assert(self.pending() =~= pending.skip(read as int));
                    }
                    return Ok(read);
                },
                Err(e) => {
                    proof {
                        assert(self.pending() =~= pending.skip(read as int));
                    }
                    return Err(e);
                },
            }
        }
        Ok(read)
    }

    /// Passes over `num_values` indices.
    pub fn skip(&mut self, num_values: usize) -> (r: Result<usize, ParquetError>)
        requires
            old(self).wf(),
        ensures
            old(self).moved(num_values as nat, *final(self)),
            r == old(self).outcome(num_values as nat),
    {
        let mut skipped: usize = 0;
        let ghost pending = self.pending();
        proof {
            assert(pending.skip(0) =~= pending);
        }
        while skipped < num_values
            invariant
                self.wf(),
                self.width() == old(self).width(),
                self.is_cut() == old(self).is_cut(),
                pending == old(self).pending(),
                skipped <= num_values,
                skipped <= pending.len(),
                self.pending() == pending.skip(skipped as int),
            decreases num_values - skipped,
        {
            match self.next_index() {
                Ok(Some(_)) => {
                    proof {
                        assert(pending.skip(skipped as int).skip(1) =~= pending.skip(skipped + 1));
                    }
                    skipped = skipped + 1;
                },
                Ok(None) => {
                    proof {
                        assert(self.pending() =~= pending.skip(skipped as int));
                    }
                    return Ok(skipped);
                },
                Err(e) => {
                    proof {
                        assert(self.pending() =~= pending.skip(skipped as int));
                    }
                    return Err(e);
                },
            }
        }
        Ok(skipped)
    }

    /// The indices that a read of `n` gives all point into a dictionary of `len` values.
    pub open spec fn points_into(self, n: nat, len: nat) -> bool {
        forall|i: int| 0 <= i < self.reach(n) ==> #[trigger] self.pending()[i] < len
    }

    /// Whether the indices that a read of `num_values` gives all point into a dictionary of `len`
    /// values.
    pub fn check_indices(&self, num_values: usize, len: usize) -> (r: bool)
        requires
            self.wf(),
        ensures
            r == self.points_into(num_values as nat, len as nat),
    {
        let mut ahead = RleDecoder {
            data: slice_from(&self.data, 0),
            bit_width: self.bit_width,
            next: self.next,
            run: match &self.run {
                Run::Repeated { left, value } => Run::Repeated { left: *left, value: *value },
                Run::Packed { start, done, total } => Run::Packed {
                    start: *start,
                    done: *done,
                    total: *total,
                },
            },
        };
        let ghost pending = self.pending();
        proof {
            assert(ahead.bytes() =~= self.bytes());
            assert(ahead.run_left() =~= self.run_left());
            assert(pending.skip(0) =~= pending);
        }
        let mut seen: usize = 0;
        while seen < num_values
            invariant
                ahead.wf(),
                pending == self.pending(),
                seen <= num_values,
                seen <= pending.len(),
                ahead.pending() == pending.skip(seen as int),
                forall|i: int| 0 <= i < seen ==> #[trigger] pending[i] < len,
            decreases num_values - seen,
        {
            match ahead.next_index() {
                Ok(Some(index)) => {
                    if index as u64 >= len as u64 {
                        proof {
                            assert(pending[seen as int] == index);
                        }
                        return false;
                    }
                    proof {
                        assert(pending.skip(seen as int).skip(1) =~= pending.skip(seen + 1));
                    }
                    seen = seen + 1;
                },
                _ => {
                    return true;
                },
            }
        }
        true
    }
}

/// Indices as 32-bit keys.
pub open spec fn keys_of(indices: Seq<u32>) -> Seq<i32> {
    indices.map_values(|i: u32| i as i32)
}

/// The dictionary values that `indices` point to.
pub open spec fn looked_up<A>(indices: Seq<u32>, dict: Seq<A>) -> Seq<A> {
    indices.map_values(|i: u32| dict[i as int])
}

} // verus!
