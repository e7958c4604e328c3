//! Plain values, which stand one after the other in little-endian bytes.
use bytes::Bytes;
use std::marker::PhantomData;
use vstd::prelude::*;

use crate::arrow::{as_slice, bytes_content, no_bytes};
use crate::column::{ColumnDescPtr, ColumnValueDecoder};
use crate::errors::{Encoding, ParquetError, Reason};
use crate::types::{ColumnDescriptor, DataType};

verus! {

/// The first `n` plain values in `bytes`.
pub open spec fn plain_values<T: DataType>(bytes: Seq<u8>, n: nat) -> Seq<T::T> {
    Seq::new(
        n,
        |i: int| T::plain(bytes.subrange(i * T::width() as int, (i + 1) * T::width() as int)),
    )
}

/// Decodes plain values.
pub struct PlainDecoder<T: DataType> {
    data: Bytes,
    start: usize,
    num_values: usize,
    marker: PhantomData<T>,
}

impl<T: DataType> PlainDecoder<T> {
    /// The decoder is valid.
    pub closed spec fn wf(self) -> bool {
        self.start <= bytes_content(self.data).len()
    }

    /// The bytes that are still to be read.
    pub closed spec fn bytes(self) -> Seq<u8> {
        bytes_content(self.data).skip(self.start as int)
    }

    /// How many values are still to be read.
    pub closed spec fn count(self) -> nat {
        self.num_values as nat
    }

    /// How many values a read of `n` gives.
    pub open spec fn reach(self, n: nat) -> nat {
        if n <= self.count() {
            n
        } else {
            self.count()
        }
    }

    /// There are bytes for all the values that a read of `n` gives.
    pub open spec fn has_bytes(self, n: nat) -> bool {
        self.reach(n) * T::width() <= self.bytes().len()
    }

    /// What a read of `n` values returns.
    pub open spec fn outcome(self, n: nat) -> Result<usize, ParquetError> {
        if self.has_bytes(n) {
            Ok(self.reach(n) as usize)
        } else {
            Err(ParquetError::EOF(Reason::PlainData))
        }
    }

    /// The values that a read of `n` gives: none when there are not bytes enough.
    pub open spec fn given(self, n: nat) -> Seq<T::T> {
        plain_values::<T>(
            self.bytes(),
            if self.has_bytes(n) {
                self.reach(n)
            } else {
                0
            },
        )
    }

    /// `after` is left when `n` values have been read or skipped.
    pub open spec fn moved(self, n: nat, after: Self) -> bool {
        if self.has_bytes(n) {
            &&& after.bytes() == self.bytes().skip((self.reach(n) * T::width()) as int)
            &&& after.count() == self.count() - self.reach(n)
        } else {
            &&& after.bytes() == self.bytes()
            &&& after.count() == self.count()
        }
    }

    /// A decoder without values. A value of fixed width does not need its length.
    pub fn new(type_length: i32) -> (r: Self)
        ensures
            r.wf(),
            r.bytes() == Seq::<u8>::empty(),
            r.count() == 0,
    {
        let r = PlainDecoder { data: no_bytes(), start: 0, num_values: 0, marker: PhantomData };
        proof {
            assert(r.bytes() =~= Seq::<u8>::empty());
        }
        r
    }

    /// Takes the bytes of `num_values` values.
    pub fn set_data(&mut self, data: Bytes, num_values: usize) -> (r: Result<(), ParquetError>)
        ensures
            r == Ok::<(), ParquetError>(()),
            final(self).wf(),
            final(self).bytes() == bytes_content(data),
            final(self).count() == num_values,
    {
        self.data = data;
        self.start = 0;
        self.num_values = num_values;
        proof {
            assert(self.bytes() =~= bytes_content(data));
        }
        Ok(())
    }

    /// How many values a read of `n` gives and how many bytes they take, or `None` when there are
    /// not bytes enough.
    fn extent(&self, n: usize) -> (r: Option<(usize, usize)>)
        requires
            self.wf(),
        ensures
            r is Some <==> self.has_bytes(n as nat),
            r matches Some((values, bytes)) ==> {
                &&& values == self.reach(n as nat)
                &&& bytes == values * T::width()
                &&& bytes <= self.bytes().len()
                &&& self.start + bytes <= usize::MAX
            },
    {
        let width: usize = T::plain_width();
        let len: usize = as_slice(&self.data).len();
        let left: usize = len - self.start;
        let values: usize = if n <= self.num_values {
            n
        } else {
            self.num_values
        };
        proof {
            let (v, w, l) = (values as int, width as int, left as int);
            assert(v * w <= l <==> v <= l / w) by (nonlinear_arith)
                requires
                    0 <= v,
                    0 < w,
                    0 <= l,
            ;
        }
        if values > left / width {
            None
        } else {
            Some((values, values * width))
        }
    }

    /// Writes values over the elements of `buffer` from `start` on.
    pub fn get(&mut self, buffer: &mut Vec<T::T>, start: usize) -> (r: Result<usize, ParquetError>)
        requires
            old(self).wf(),
            start <= old(buffer)@.len(),
        ensures
            final(self).wf(),
            ({
                let n = (old(buffer)@.len() - start) as nat;
                let given = old(self).given(n);
                &&& old(self).moved(n, *final(self))
                &&& r == old(self).outcome(n)
                &&& final(buffer)@ == old(buffer)@.take(start as int) + given + old(buffer)@.skip(
                    start + given.len(),
                )
            }),
    {
        let len: usize = buffer.len();
        let n: usize = len - start;
        let ghost before = buffer@;
        match self.extent(n) {
            None => {
                proof {
                    assert(buffer@ =~= before.take(start as int) + self.given(n as nat)
                        + before.skip(start as int));
                }
                Err(ParquetError::EOF(Reason::PlainData))
            },
            Some((values, taken)) => {
                let width: usize = T::plain_width();
                let ghost data = self.bytes();
                let mut i: usize = 0;
                let mut at: usize = self.start;
                while i < values
                    invariant
                        self.wf(),
                        *self == *old(self),
                        data == self.bytes(),
                        width == T::width(),
                        width > 0,
                        i <= values,
                        values <= n,
                        start + n == len,
                        len == before.len(),
                        buffer@.len() == before.len(),
                        taken == values * T::width(),
                        taken <= data.len(),
                        at == self.start + i * width,
                        buffer@ == before.take(start as int) + plain_values::<T>(data, i as nat)
                            + before.skip(start + i),
                    decreases values - i,
                {
                    let bytes = as_slice(&self.data);
                    let total: usize = bytes.len();
                    proof {
                        let (j, v, w) = (i as int, values as int, width as int);
                        assert((j + 1) * w <= v * w && (j + 1) * w == j * w + w && 0 <= j * w)
                            by (nonlinear_arith)
                            requires
                                0 <= j < v,
                                0 < w,
                        ;
                        assert(bytes@.subrange(at as int, at + T::width()) =~= data.subrange(
                            i * T::width() as int,
                            (i + 1) * T::width() as int,
                        ));
                    }
                    buffer[start + i] = T::from_plain(bytes, at);
                    proof {
                        assert(buffer@ =~= before.take(start as int) + plain_values::<T>(
                            data,
                            (i + 1) as nat,
                        ) + before.skip(start + i + 1));
                    }
                    i = i + 1;
                    at = at + width;
                }
                self.start = self.start + taken;
                self.num_values = self.num_values - values;
                proof {
                    assert(self.bytes() =~= data.skip(taken as int));
                }
                Ok(values)
            },
        }
    }

    /// Passes over `n` values.
    pub fn skip(&mut self, n: usize) -> (r: Result<usize, ParquetError>)
        requires
            old(self).wf(),
        ensures
            final(self).wf(),
            old(self).moved(n as nat, *final(self)),
            r == old(self).outcome(n as nat),
    {
        match self.extent(n) {
            None => Err(ParquetError::EOF(Reason::PlainData)),
            Some((values, taken)) => {
                self.start = self.start + taken;
                self.num_values = self.num_values - values;
                proof {
                    assert(self.bytes() =~= old(self).bytes().skip(taken as int));
                }
                Ok(values)
            },
        }
    }
}

/// Decodes the `num_values` plain values of a dictionary page.
pub fn decode_dictionary<T: DataType>(buf: Bytes, num_values: u32, type_length: i32) -> (r: Result<
    Vec<T::T>,
    ParquetError,
>)
    ensures
        if bytes_content(buf).len() < num_values * T::width() {
            r == Err::<Vec<T::T>, ParquetError>(ParquetError::EOF(Reason::PlainData))
        } else {
            r matches Ok(values) && values@ == plain_values::<T>(
                bytes_content(buf),
                num_values as nat,
            )
        },
{
    let mut decoder = PlainDecoder::<T>::new(type_length);
    match decoder.set_data(buf, num_values as usize) {
        Ok(_) => {},
        Err(e) => {
            return Err(e);
        },
    }
    let mut values: Vec<T::T> = Vec::new();
    let unset = T::unset_value();
    while values.len() < num_values as usize
        invariant
            values@.len() <= num_values,
        decreases num_values - values@.len(),
    {
        values.push(unset);
    }
    match decoder.get(&mut values, 0) {
        Ok(decoded) => {
            values.truncate(decoded);
            proof {
                assert(values@ =~= plain_values::<T>(bytes_content(buf), num_values as nat));
            }
            Ok(values)
        },
        Err(e) => Err(e),
    }
}

/// Decodes the pages whose encoding is plain.
pub struct ColumnValueDecoderImpl<T: DataType> {
    decoder: Option<PlainDecoder<T>>,
}

impl<T: DataType> ColumnValueDecoderImpl<T> {
    /// The page that is being read.
    pub closed spec fn page(self) -> Option<PlainDecoder<T>> {
        self.decoder
    }
}

impl<T: DataType> ColumnValueDecoder for ColumnValueDecoderImpl<T> {
    type Buffer = Vec<T::T>;

    closed spec fn wf(&self) -> bool {
        self.decoder matches Some(d) ==> d.wf()
    }

    open spec fn starts(column_desc: ColumnDescriptor, r: Self) -> bool {
        r.page() is None
    }

    /// Plain pages do not refer to a dictionary.
    open spec fn sets_dict(
        before: Self,
        buf: Bytes,
        num_values: u32,
        encoding: Encoding,
        after: Self,
        r: Result<(), ParquetError>,
    ) -> bool {
        &&& after == before
        &&& r == Err::<(), ParquetError>(ParquetError::NYI(Reason::DictionaryEncoding(encoding)))
    }

    open spec fn takes_data(encoding: Encoding, data: Bytes) -> bool {
        true
    }

    open spec fn sets_data(
        before: Self,
        encoding: Encoding,
        data: Bytes,
        num_levels: usize,
        num_values: Option<usize>,
        after: Self,
        r: Result<(), ParquetError>,
    ) -> bool {
        if encoding == Encoding::PLAIN {
            &&& r == Ok::<(), ParquetError>(())
            &&& after.page() matches Some(d)
            &&& d.bytes() == bytes_content(data)
            &&& d.count() == match num_values {
                Some(n) => n,
                None => num_levels,
            }
        } else {
            &&& r == Err::<(), ParquetError>(ParquetError::NYI(Reason::ValueEncoding(encoding)))
            &&& after == before
        }
    }

    open spec fn has_data(&self) -> bool {
        self.page() is Some
    }

    open spec fn can_read(&self, out: Seq<T::T>, num_values: usize) -> bool {
        &&& self.page() is Some
        &&& out.len() + num_values <= usize::MAX
    }

    /// The values are appended. When there are not bytes enough, unset values are.
    open spec fn reads(
        before: Self,
        out_before: Seq<T::T>,
        num_values: usize,
        after: Self,
        out_after: Seq<T::T>,
        r: Result<usize, ParquetError>,
    ) -> bool {
        let d = before.page()->0;
        &&& after.page() matches Some(e)
        &&& d.moved(num_values as nat, e)
        &&& r == d.outcome(num_values as nat)
        &&& out_after == out_before + d.given(num_values as nat) + if r is Ok {
            Seq::empty()
        } else {
            Seq::new(num_values as nat, |i: int| T::unset())
        }
    }

    open spec fn skips(
        before: Self,
        num_values: usize,
        after: Self,
        r: Result<usize, ParquetError>,
    ) -> bool {
        let d = before.page()->0;
        &&& after.page() matches Some(e)
        &&& d.moved(num_values as nat, e)
        &&& r == d.outcome(num_values as nat)
    }

    proof fn lemma_reads(
        before: Self,
        out_before: Seq<T::T>,
        num_values: usize,
        after: Self,
        out_after: Seq<T::T>,
        r: Result<usize, ParquetError>,
    ) {
    }

    fn new(column_desc: &ColumnDescPtr) -> (r: Self) {
        ColumnValueDecoderImpl { decoder: None }
    }

    fn set_dict(&mut self, buf: Bytes, num_values: u32, encoding: Encoding, is_sorted: bool) -> (r:
        Result<(), ParquetError>) {
        Err(ParquetError::NYI(Reason::DictionaryEncoding(encoding)))
    }

    fn check_data(encoding: Encoding, data: &Bytes) -> (r: bool) {
        true
    }

    fn set_data(
        &mut self,
        encoding: Encoding,
        data: Bytes,
        num_levels: usize,
        num_values: Option<usize>,
    ) -> (r: Result<(), ParquetError>) {
        if encoding != Encoding::PLAIN {
            return Err(ParquetError::NYI(Reason::ValueEncoding(encoding)));
        }
        let count: usize = match num_values {
            Some(n) => n,
            None => num_levels,
        };
        let mut decoder = PlainDecoder::<T>::new(0);
        match decoder.set_data(data, count) {
            Ok(_) => {
                self.decoder = Some(decoder);
                Ok(())
            },
            Err(e) => Err(e),
        }
    }

    fn is_ready(&self) -> (r: bool) {
        self.decoder.is_some()
    }

    fn check_read(&self, out: &Vec<T::T>, num_values: usize) -> (r: bool) {
        self.decoder.is_some() && num_values <= usize::MAX - out.len()
    }

    fn read(&mut self, out: &mut Vec<T::T>, num_values: usize) -> (r: Result<
        usize,
        ParquetError,
    >) {
        let start: usize = out.len();
        let ghost before = out@;
        let unset = T::unset_value();
        while out.len() < start + num_values
            invariant
                start == before.len(),
                start + num_values <= usize::MAX,
                start <= out@.len() <= start + num_values,
                out@ == before + Seq::new((out@.len() - start) as nat, |i: int| unset),
            decreases start + num_values - out@.len(),
        {
            out.push(unset);
            proof {
                assert(out@ =~= before + Seq::new((out@.len() - start) as nat, |i: int| unset));
            }
        }
        let ghost padded = out@;
        match &mut self.decoder {
            Some(decoder) => {
                let ghost d = *decoder;
                proof {
                    assert(padded.take(start as int) =~= before);
                }
                let r = decoder.get(out, start);
                match r {
                    Ok(read) => {
                        out.truncate(start + read);
                        proof {
                            assert(out@ =~= before + d.given(num_values as nat) + Seq::empty());
                        }
                        Ok(read)
                    },
                    Err(e) => {
                        proof {
                            assert(out@ =~= before + d.given(num_values as nat) + Seq::new(
                                num_values as nat,
                                |i: int| T::unset(),
                            ));
                        }
                        Err(e)
                    },
                }
            },
            None => Ok(0),
        }
    }

    fn skip_values(&mut self, num_values: usize) -> (r: Result<usize, ParquetError>) {
        match &mut self.decoder {
            Some(decoder) => decoder.skip(num_values),
            None => Ok(0),
        }
    }
}

} // verus!
