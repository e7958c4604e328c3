//! What a data page gives: which values come next, what a read takes of them, and what a skip
//! leaves.
use arrow_array::BooleanArray;
use arrow_schema::DataType as ArrowType;
use bytes::Bytes;
use vstd::prelude::*;

use crate::arrow::{
    array_len, array_type, boolean_array_values, bytes_content, integer_values, ArrowArray,
};
use crate::column::ColumnValueDecoder;
use crate::dictionary::{
    DictionaryContent, MaybeDictionaryDecoder, PrimitiveDictionaryDecoder,
};
use crate::errors::{Encoding, ParquetError, Reason};
use crate::format_laws::{
    grouped, law_cut_repeated_run, law_page_is_read_back, law_plain_values,
    law_runs_are_read_back, page_bytes, page_fits, page_xs, runs_bytes, runs_fit, runs_xs,
    writes_plainly, IndexRun, IndexTail,
};
use crate::laws::{
    answers_to, decides, law_dictionary_is_answered, law_dictionary_read,
    law_plain_page_is_answered, lemma_plain_read,
};
use crate::plain::ColumnValueDecoderImpl;
use crate::predicate::{
    values_outcome, PrimitiveDictionaryPredicate, PrimitivePredicateDecoder,
    PrimitivePredicateValueDecoder,
};
use crate::question_laws::{law_dictionary_takes_one_question, law_questions_of_a_read};
use crate::rle::{keys_of, looked_up, RleDecoder};
use crate::types::{DataType, Int32Type, Int64Type};

verus! {

/// The smaller of two numbers.
pub open spec fn fewer(a: nat, b: nat) -> nat {
    if a < b {
        a
    } else {
        b
    }
}

/// How many values a page of `num_levels` rows has, of which `num_values` hold one where that is
/// known.
pub open spec fn page_count(num_levels: usize, num_values: Option<usize>) -> nat {
    match num_values {
        Some(n) => n as nat,
        None => num_levels as nat,
    }
}

/// A plain page with `values` still to come.
pub open spec fn plain_page<T: DataType>(
    decoder: ColumnValueDecoderImpl<T>,
    values: Seq<T::T>,
) -> bool {
    &&& decoder.page() matches Some(page)
    &&& page.count() == values.len()
    &&& writes_plainly::<T>(page.bytes(), values)
}

/// A plain page is accepted, and the values that are written in it come next.
pub proof fn law_plain_page_is_set<T: DataType>(
    before: ColumnValueDecoderImpl<T>,
    data: Bytes,
    num_levels: usize,
    num_values: Option<usize>,
    values: Seq<T::T>,
    after: ColumnValueDecoderImpl<T>,
    r: Result<(), ParquetError>,
)
    requires
        writes_plainly::<T>(bytes_content(data), values),
        values.len() == page_count(num_levels, num_values),
        ColumnValueDecoderImpl::<T>::sets_data(
            before,
            Encoding::PLAIN,
            data,
            num_levels,
            num_values,
            after,
            r,
        ),
    ensures
        ColumnValueDecoderImpl::<T>::takes_data(Encoding::PLAIN, data),
        r == Ok::<(), ParquetError>(()),
        plain_page(after, values),
{
}

/// A page that is not plain is refused by a decoder of plain pages, and changes nothing.
pub proof fn law_other_page_is_refused<T: DataType>(
    before: ColumnValueDecoderImpl<T>,
    encoding: Encoding,
    data: Bytes,
    num_levels: usize,
    num_values: Option<usize>,
    after: ColumnValueDecoderImpl<T>,
    r: Result<(), ParquetError>,
)
    requires
        encoding != Encoding::PLAIN,
        ColumnValueDecoderImpl::<T>::sets_data(
            before,
            encoding,
            data,
            num_levels,
            num_values,
            after,
            r,
        ),
    ensures
        r == Err::<(), ParquetError>(ParquetError::NYI(Reason::ValueEncoding(encoding))),
        after == before,
{
}

/// A plain page without the first `k` of its values.
proof fn lemma_plain_rest<T: DataType>(bytes: Seq<u8>, values: Seq<T::T>, k: nat)
    requires
        writes_plainly::<T>(bytes, values),
        k <= values.len(),
    ensures
        writes_plainly::<T>(bytes.skip((k * T::width()) as int), values.skip(k as int)),
        writes_plainly::<T>(bytes, values.take(k as int)),
        k * T::width() <= bytes.len(),
{
    let w = T::width() as int;
    let n = values.len() as int;
    assert(k * w <= n * w && (n - k) * w == n * w - k * w && 0 <= k * w) by (nonlinear_arith)
        requires
            0 <= k <= n,
            0 <= w,
    ;
    let rest = bytes.skip(k * w);
    assert forall|i: int| 0 <= i < n - k implies #[trigger] values.skip(k as int)[i] == T::plain(
        rest.subrange(i * w, (i + 1) * w),
    ) by {
        assert((k + i) * w == k * w + i * w && (k + i + 1) * w == k * w + (i + 1) * w && 0 <= i * w
            <= (i + 1) * w && (k + i + 1) * w <= n * w) by (nonlinear_arith)
            requires
                0 <= k,
                0 <= i < n - k,
                0 <= w,
        ;
        assert(rest.subrange(i * w, (i + 1) * w) =~= bytes.subrange(
            (k + i) * w,
            (k + i + 1) * w,
        ));
        assert(values[k + i] == T::plain(bytes.subrange((k + i) * w, (k + i + 1) * w)));
    }
    assert forall|i: int| 0 <= i < k implies #[trigger] values.take(k as int)[i] == T::plain(
        bytes.subrange(i * w, (i + 1) * w),
    ) by {
        assert(values[i] == T::plain(bytes.subrange(i * w, (i + 1) * w)));
    }
}

/// A read of a plain page appends the values that come next, as many as were asked for or as there
/// are, and leaves the others.
pub proof fn law_plain_page_is_read<T: DataType>(
    before: ColumnValueDecoderImpl<T>,
    values: Seq<T::T>,
    out: Seq<T::T>,
    n: usize,
    after: ColumnValueDecoderImpl<T>,
    out_after: Seq<T::T>,
    r: Result<usize, ParquetError>,
)
    requires
        plain_page(before, values),
        ColumnValueDecoderImpl::<T>::reads(before, out, n, after, out_after, r),
    ensures
        ({
            let k = fewer(n as nat, values.len());
            &&& r == Ok::<usize, ParquetError>(k as usize)
            &&& out_after == out + values.take(k as int)
            &&& plain_page(after, values.skip(k as int))
        }),
{
    let k = fewer(n as nat, values.len());
    let page = before.page()->0;
    lemma_plain_rest::<T>(page.bytes(), values, k);
    law_plain_values::<T>(page.bytes(), values.take(k as int));
    assert(out_after =~= out + values.take(k as int));
}

/// A skip of a plain page leaves the values that come after those that were passed over.
pub proof fn law_plain_page_is_skipped<T: DataType>(
    before: ColumnValueDecoderImpl<T>,
    values: Seq<T::T>,
    n: usize,
    after: ColumnValueDecoderImpl<T>,
    r: Result<usize, ParquetError>,
)
    requires
        plain_page(before, values),
        ColumnValueDecoderImpl::<T>::skips(before, n, after, r),
    ensures
        ({
            let k = fewer(n as nat, values.len());
            &&& r == Ok::<usize, ParquetError>(k as usize)
            &&& plain_page(after, values.skip(k as int))
        }),
{
    let k = fewer(n as nat, values.len());
    lemma_plain_rest::<T>(before.page()->0.bytes(), values, k);
}

/// A plain page can be read and skipped, whatever stands in the buffer.
pub proof fn law_plain_page_is_ready<T: DataType>(
    decoder: ColumnValueDecoderImpl<T>,
    values: Seq<T::T>,
    out: Seq<T::T>,
    n: usize,
)
    requires
        plain_page(decoder, values),
        out.len() + n <= usize::MAX,
    ensures
        decoder.has_data(),
        decoder.can_read(out, n),
{
}

/// A plain page that holds fewer bytes than the values take that are asked for is an error.
pub proof fn law_short_plain_page<T: DataType>(
    before: ColumnValueDecoderImpl<T>,
    data: Bytes,
    num_levels: usize,
    num_values: Option<usize>,
    between: ColumnValueDecoderImpl<T>,
    set: Result<(), ParquetError>,
    out: Seq<T::T>,
    n: usize,
    after: ColumnValueDecoderImpl<T>,
    out_after: Seq<T::T>,
    r: Result<usize, ParquetError>,
)
    requires
        ColumnValueDecoderImpl::<T>::sets_data(
            before,
            Encoding::PLAIN,
            data,
            num_levels,
            num_values,
            between,
            set,
        ),
        bytes_content(data).len() < fewer(n as nat, page_count(num_levels, num_values))
            * T::width(),
        ColumnValueDecoderImpl::<T>::reads(between, out, n, after, out_after, r)
            || ColumnValueDecoderImpl::<T>::skips(between, n, after, r),
    ensures
        r == Err::<usize, ParquetError>(ParquetError::EOF(Reason::PlainData)),
{
}

/// The indices that come next stand for `values` in `table`, and there are no more of them on the
/// page. Each points into the table and fits in a key.
pub open spec fn indices_stand_for<A>(
    decoder: RleDecoder,
    left: usize,
    table: Seq<A>,
    values: Seq<A>,
) -> bool {
    let xs = decoder.pending();
    &&& values.len() <= xs.len()
    &&& values.len() <= left
    &&& values.len() == left || (values.len() == xs.len() && !decoder.is_cut())
    &&& forall|i: int|
        0 <= i < values.len() ==> {
            &&& #[trigger] xs[i] < table.len()
            &&& xs[i] < 0x8000_0000
            &&& values[i] == table[xs[i] as int]
        }
}

/// The values that come next on the page of a dictionary decoder, to the end of the page.
pub open spec fn comes_next<T: DataType>(
    decoder: PrimitiveDictionaryDecoder<T, ColumnValueDecoderImpl<T>>,
    values: Seq<T::T>,
) -> bool {
    match decoder.page() {
        Some(MaybeDictionaryDecoder::Dict { decoder: xs, max_remaining_values }) => {
            &&& decoder.values() matches Some(dictionary)
            &&& indices_stand_for(xs, max_remaining_values, dictionary.values, values)
        },
        Some(MaybeDictionaryDecoder::Fallback(fallback)) => plain_page(fallback, values),
        None => false,
    }
}

/// Every key of a buffer points to a value of its dictionary.
pub open spec fn keys_find_values<A>(content: DictionaryContent<A>) -> bool {
    content matches DictionaryContent::Dict { keys, dictionary } ==> (forall|i: int|
        0 <= i < keys.len() ==> 0 <= #[trigger] keys[i] < dictionary.values.len())
}

/// The bytes of a page of indices: the width of an index, and then the indices.
pub open spec fn is_index_page(
    data: Bytes,
    width: u8,
    runs: Seq<IndexRun>,
    tail: IndexTail,
) -> bool {
    &&& page_fits(runs, tail, width as nat)
    &&& bytes_content(data) == seq![width] + page_bytes(runs, tail, width as nat)
}

/// The indices that come next are `xs`.
pub open spec fn indices_come_next(decoder: RleDecoder, xs: Seq<u32>) -> bool {
    &&& decoder.pending() == xs
    &&& !decoder.is_cut()
}

/// A page of indices is accepted by a dictionary decoder under both of its encodings, and the
/// indices that are written in it come next.
pub proof fn law_index_page_is_set<T, F>(
    before: PrimitiveDictionaryDecoder<T, F>,
    encoding: Encoding,
    data: Bytes,
    num_levels: usize,
    num_values: Option<usize>,
    width: u8,
    runs: Seq<IndexRun>,
    tail: IndexTail,
    after: PrimitiveDictionaryDecoder<T, F>,
    r: Result<(), ParquetError>,
) where T: DataType, F: ColumnValueDecoder<Buffer = Vec<T::T>>
    requires
        encoding == Encoding::RLE_DICTIONARY || encoding == Encoding::PLAIN_DICTIONARY,
        is_index_page(data, width, runs, tail),
        PrimitiveDictionaryDecoder::<T, F>::sets_data(
            before,
            encoding,
            data,
            num_levels,
            num_values,
            after,
            r,
        ),
    ensures
        PrimitiveDictionaryDecoder::<T, F>::takes_data(encoding, data),
        r == Ok::<(), ParquetError>(()),
        after.values() == before.values(),
        after.column() == before.column(),
        after.page() matches Some(
            MaybeDictionaryDecoder::Dict { decoder, max_remaining_values },
        ) && {
            &&& indices_come_next(decoder, page_xs(runs, tail))
            &&& max_remaining_values == page_count(num_levels, num_values)
        },
{
    law_page_is_read_back(runs, tail, width as nat);
    assert(bytes_content(data)[0] == width);
    assert(bytes_content(data).skip(1) =~= page_bytes(runs, tail, width as nat));
}

/// A page of indices is accepted by a predicate decoder under both of its encodings, and the
/// indices that are written in it come next.
pub proof fn law_index_page_is_set_for_predicate<T, P, F>(
    before: PrimitivePredicateDecoder<T, P, F>,
    encoding: Encoding,
    data: Bytes,
    num_levels: usize,
    num_values: Option<usize>,
    width: u8,
    runs: Seq<IndexRun>,
    tail: IndexTail,
    after: PrimitivePredicateDecoder<T, P, F>,
    r: Result<(), ParquetError>,
) where
    T: DataType,
    P: PrimitiveDictionaryPredicate,
    F: ColumnValueDecoder<Buffer = Vec<T::T>>,

    requires
        encoding == Encoding::RLE_DICTIONARY || encoding == Encoding::PLAIN_DICTIONARY,
        is_index_page(data, width, runs, tail),
        PrimitivePredicateDecoder::<T, P, F>::sets_data(
            before,
            encoding,
            data,
            num_levels,
            num_values,
            after,
            r,
        ),
    ensures
        PrimitivePredicateDecoder::<T, P, F>::takes_data(encoding, data),
        r == Ok::<(), ParquetError>(()),
        after.mask() == before.mask(),
        after.same_setup(before),
        after.page() matches Some(
            PrimitivePredicateValueDecoder::Dict { decoder, max_remaining_values },
        ) && {
            &&& indices_come_next(decoder, page_xs(runs, tail))
            &&& max_remaining_values == page_count(num_levels, num_values)
        },
{
    law_page_is_read_back(runs, tail, width as nat);
    assert(bytes_content(data)[0] == width);
    assert(bytes_content(data).skip(1) =~= page_bytes(runs, tail, width as nat));
}

/// The indices that a page has, as far as they are its own, point into a table of `len` values and
/// fit in a key.
pub open spec fn page_points_into(xs: Seq<u32>, count: nat, len: nat) -> bool {
    forall|i: int|
        0 <= i < fewer(count, xs.len()) ==> {
            &&& #[trigger] xs[i] < len
            &&& xs[i] < 0x8000_0000
        }
}

/// The values in `table` that the indices of a page stand for.
pub open spec fn page_values<A>(xs: Seq<u32>, count: nat, table: Seq<A>) -> Seq<A> {
    Seq::new(fewer(count, xs.len()), |i: int| table[xs[i] as int])
}

/// Behind a page of indices the values come next that the indices stand for in the dictionary.
pub proof fn law_indexed_values_come_next<T: DataType>(
    before: PrimitiveDictionaryDecoder<T, ColumnValueDecoderImpl<T>>,
    encoding: Encoding,
    data: Bytes,
    num_levels: usize,
    num_values: Option<usize>,
    width: u8,
    runs: Seq<IndexRun>,
    tail: IndexTail,
    dictionary: Seq<T::T>,
    after: PrimitiveDictionaryDecoder<T, ColumnValueDecoderImpl<T>>,
    r: Result<(), ParquetError>,
)
    requires
        encoding == Encoding::RLE_DICTIONARY || encoding == Encoding::PLAIN_DICTIONARY,
        is_index_page(data, width, runs, tail),
        before.values() matches Some(own) && own.values == dictionary,
        page_points_into(
            page_xs(runs, tail),
            page_count(num_levels, num_values),
            dictionary.len(),
        ),
        PrimitiveDictionaryDecoder::<T, ColumnValueDecoderImpl<T>>::sets_data(
            before,
            encoding,
            data,
            num_levels,
            num_values,
            after,
            r,
        ),
    ensures
        r == Ok::<(), ParquetError>(()),
        comes_next(
            after,
            page_values(
                page_xs(runs, tail),
                page_count(num_levels, num_values),
                dictionary,
            ),
        ),
{
    law_index_page_is_set(
        before,
        encoding,
        data,
        num_levels,
        num_values,
        width,
        runs,
        tail,
        after,
        r,
    );
}

/// Behind a plain page the values come next that are written in it.
pub proof fn law_plain_values_come_next<T: DataType>(
    before: PrimitiveDictionaryDecoder<T, ColumnValueDecoderImpl<T>>,
    data: Bytes,
    num_levels: usize,
    num_values: Option<usize>,
    values: Seq<T::T>,
    after: PrimitiveDictionaryDecoder<T, ColumnValueDecoderImpl<T>>,
    r: Result<(), ParquetError>,
)
    requires
        writes_plainly::<T>(bytes_content(data), values),
        values.len() == page_count(num_levels, num_values),
        PrimitiveDictionaryDecoder::<T, ColumnValueDecoderImpl<T>>::sets_data(
            before,
            Encoding::PLAIN,
            data,
            num_levels,
            num_values,
            after,
            r,
        ),
    ensures
        PrimitiveDictionaryDecoder::<T, ColumnValueDecoderImpl<T>>::takes_data(
            Encoding::PLAIN,
            data,
        ),
        r == Ok::<(), ParquetError>(()),
        after.values() == before.values(),
        comes_next(after, values),
{
}

/// A page of another encoding is refused by a dictionary decoder, and changes nothing.
pub proof fn law_unknown_page_is_refused<T: DataType>(
    before: PrimitiveDictionaryDecoder<T, ColumnValueDecoderImpl<T>>,
    encoding: Encoding,
    data: Bytes,
    num_levels: usize,
    num_values: Option<usize>,
    after: PrimitiveDictionaryDecoder<T, ColumnValueDecoderImpl<T>>,
    r: Result<(), ParquetError>,
)
    requires
        encoding != Encoding::PLAIN,
        encoding != Encoding::RLE_DICTIONARY,
        encoding != Encoding::PLAIN_DICTIONARY,
        PrimitiveDictionaryDecoder::<T, ColumnValueDecoderImpl<T>>::sets_data(
            before,
            encoding,
            data,
            num_levels,
            num_values,
            after,
            r,
        ),
    ensures
        r == Err::<(), ParquetError>(ParquetError::NYI(Reason::ValueEncoding(encoding))),
        after.values() == before.values(),
        after.page() == before.page(),
{
}

/// A read appends the values that come next to the rows of the buffer, as many as were asked for or
/// as there are, and leaves the others. It makes no difference what the buffer holds and whether
/// the page holds indices or values.
pub proof fn law_next_values_are_read<T: DataType>(
    before: PrimitiveDictionaryDecoder<T, ColumnValueDecoderImpl<T>>,
    values: Seq<T::T>,
    out: DictionaryContent<T::T>,
    n: usize,
    after: PrimitiveDictionaryDecoder<T, ColumnValueDecoderImpl<T>>,
    out_after: DictionaryContent<T::T>,
    r: Result<usize, ParquetError>,
)
    requires
        comes_next(before, values),
        PrimitiveDictionaryDecoder::<T, ColumnValueDecoderImpl<T>>::reads(
            before,
            out,
            n,
            after,
            out_after,
            r,
        ),
    ensures
        ({
            let k = fewer(n as nat, values.len());
            &&& r == Ok::<usize, ParquetError>(k as usize)
            &&& out_after.rows() == out.rows() + values.take(k as int)
            &&& out_after.len() == out.len() + k
            &&& comes_next(after, values.skip(k as int))
            &&& after.values() == before.values()
            &&& keys_find_values(out) ==> keys_find_values(out_after)
        }),
{
    let k = fewer(n as nat, values.len());
    match before.page()->0 {
        MaybeDictionaryDecoder::Dict { decoder, max_remaining_values } => {
            let dictionary = before.values()->0;
            law_dictionary_read(before, out, n, after, out_after, r);
            let read = decoder.pending().take(k as int);
            assert(looked_up(read, dictionary.values) =~= values.take(k as int));
            assert(out_after.len() == out_after.rows().len());
            assert(out.len() == out.rows().len());
            let next = after.page()->0->decoder;
            assert(next.pending() == decoder.pending().skip(k as int));
            assert forall|i: int| 0 <= i < values.len() - k implies {
                &&& #[trigger] next.pending()[i] < dictionary.values.len()
                &&& next.pending()[i] < 0x8000_0000
                &&& values.skip(k as int)[i] == dictionary.values[next.pending()[i] as int]
            } by {
                assert(decoder.pending()[k + i] < dictionary.values.len());
            }
            if keys_find_values(out) && out_after is Dict {
                let kept = out.keys_for(dictionary)->0;
                assert forall|i: int| 0 <= i < out_after->keys.len() implies 0
                    <= #[trigger] out_after->keys[i] < dictionary.values.len() by {
                    if i < kept.len() {
                        assert(out->keys[i] == kept[i]);
                    } else {
                        assert(decoder.pending()[i - kept.len()] < dictionary.values.len());
                    }
                }
            }
        },
        MaybeDictionaryDecoder::Fallback(fallback) => {
            let (next, rows) = choose|next: ColumnValueDecoderImpl<T>, rows: Seq<T::T>|
                {
                    &&& #[trigger] ColumnValueDecoderImpl::<T>::reads(
                        fallback,
                        out.rows(),
                        n,
                        next,
                        rows,
                        r,
                    )
                    &&& after.page() == Some(MaybeDictionaryDecoder::Fallback(next))
                    &&& out_after == DictionaryContent::Values(rows)
                };
            law_plain_page_is_read(fallback, values, out.rows(), n, next, rows, r);
        },
    }
}

/// A skip passes over the values that come next, as many as were asked for or as there are, and
/// leaves the others.
pub proof fn law_next_values_are_skipped<T: DataType>(
    before: PrimitiveDictionaryDecoder<T, ColumnValueDecoderImpl<T>>,
    values: Seq<T::T>,
    n: usize,
    after: PrimitiveDictionaryDecoder<T, ColumnValueDecoderImpl<T>>,
    r: Result<usize, ParquetError>,
)
    requires
        comes_next(before, values),
        PrimitiveDictionaryDecoder::<T, ColumnValueDecoderImpl<T>>::skips(before, n, after, r),
    ensures
        ({
            let k = fewer(n as nat, values.len());
            &&& r == Ok::<usize, ParquetError>(k as usize)
            &&& comes_next(after, values.skip(k as int))
            &&& after.values() == before.values()
        }),
{
    let k = fewer(n as nat, values.len());
    match before.page()->0 {
        MaybeDictionaryDecoder::Dict { decoder, max_remaining_values } => {
            let dictionary = before.values()->0;
            let next = after.page()->0->decoder;
            assert forall|i: int| 0 <= i < values.len() - k implies {
                &&& #[trigger] next.pending()[i] < dictionary.values.len()
                &&& next.pending()[i] < 0x8000_0000
                &&& values.skip(k as int)[i] == dictionary.values[next.pending()[i] as int]
            } by {
                assert(decoder.pending()[k + i] < dictionary.values.len());
            }
        },
        MaybeDictionaryDecoder::Fallback(fallback) => {
            let next = choose|next: ColumnValueDecoderImpl<T>|
                {
                    &&& #[trigger] ColumnValueDecoderImpl::<T>::skips(fallback, n, next, r)
                    &&& after.page() == Some(MaybeDictionaryDecoder::Fallback(next))
                };
            law_plain_page_is_skipped(fallback, values, n, next, r);
        },
    }
}

/// The values that come next can be read into a buffer whose keys point to values, and skipped.
pub proof fn law_next_values_are_ready<T: DataType>(
    decoder: PrimitiveDictionaryDecoder<T, ColumnValueDecoderImpl<T>>,
    values: Seq<T::T>,
    out: DictionaryContent<T::T>,
    n: usize,
)
    requires
        comes_next(decoder, values),
        keys_find_values(out),
        out.len() + n <= usize::MAX,
    ensures
        decoder.has_data(),
        decoder.can_read(out, n),
{
    assert(out.len() == out.rows().len());
}

/// Without a dictionary a page of indices cannot be read: the buffer and the page stay as they
/// were.
pub proof fn law_indices_need_a_dictionary<T, F>(
    before: PrimitiveDictionaryDecoder<T, F>,
    out: DictionaryContent<T::T>,
    n: usize,
    after: PrimitiveDictionaryDecoder<T, F>,
    out_after: DictionaryContent<T::T>,
    r: Result<usize, ParquetError>,
) where T: DataType, F: ColumnValueDecoder<Buffer = Vec<T::T>>
    requires
        before.page() matches Some(MaybeDictionaryDecoder::Dict { .. }),
        before.values() is None,
        PrimitiveDictionaryDecoder::<T, F>::reads(before, out, n, after, out_after, r),
    ensures
        r == Err::<usize, ParquetError>(ParquetError::General(Reason::MissingDictionaryPage)),
        out_after == out,
        after.page() == before.page(),
{
}

/// A dictionary page is accepted under each of its three encodings, and the values that are written
/// in it are the dictionary.
pub proof fn law_dictionary_page_is_kept<T, F>(
    before: PrimitiveDictionaryDecoder<T, F>,
    buf: Bytes,
    num_values: u32,
    encoding: Encoding,
    values: Seq<T::T>,
    after: PrimitiveDictionaryDecoder<T, F>,
    r: Result<(), ParquetError>,
) where T: DataType, F: ColumnValueDecoder<Buffer = Vec<T::T>>
    requires
        encoding == Encoding::PLAIN || encoding == Encoding::PLAIN_DICTIONARY || encoding
            == Encoding::RLE_DICTIONARY,
        values.len() == num_values,
        writes_plainly::<T>(bytes_content(buf), values),
        PrimitiveDictionaryDecoder::<T, F>::sets_dict(
            before,
            buf,
            num_values,
            encoding,
            after,
            r,
        ),
    ensures
        r == Ok::<(), ParquetError>(()),
        after.values() matches Some(dictionary) && dictionary.values == values,
        after.page() == before.page(),
        after.column() == before.column(),
{
    law_plain_values::<T>(bytes_content(buf), values);
}

/// A dictionary page of another encoding is refused, and so is one that holds fewer bytes than its
/// values take. Neither changes anything.
pub proof fn law_bad_dictionary_page<T, F>(
    before: PrimitiveDictionaryDecoder<T, F>,
    buf: Bytes,
    num_values: u32,
    encoding: Encoding,
    after: PrimitiveDictionaryDecoder<T, F>,
    r: Result<(), ParquetError>,
) where T: DataType, F: ColumnValueDecoder<Buffer = Vec<T::T>>
    requires
        ({
            ||| (encoding != Encoding::PLAIN && encoding != Encoding::PLAIN_DICTIONARY && encoding
                != Encoding::RLE_DICTIONARY)
            ||| bytes_content(buf).len() < num_values * T::width()
        }),
        PrimitiveDictionaryDecoder::<T, F>::sets_dict(
            before,
            buf,
            num_values,
            encoding,
            after,
            r,
        ),
    ensures
        after.values() == before.values(),
        after.page() == before.page(),
        r == Err::<(), ParquetError>(
            if encoding == Encoding::PLAIN || encoding == Encoding::PLAIN_DICTIONARY || encoding
                == Encoding::RLE_DICTIONARY {
                ParquetError::EOF(Reason::PlainData)
            } else {
                ParquetError::NYI(Reason::DictionaryEncoding(encoding))
            },
        ),
{
}

/// Passing over indices and reading on appends the values of the indices that come after those that
/// were passed over: the end of what reading all of them at once appends.
pub proof fn law_dictionary_skip_then_read<T, F>(
    first: PrimitiveDictionaryDecoder<T, F>,
    n: usize,
    second: PrimitiveDictionaryDecoder<T, F>,
    r_first: Result<usize, ParquetError>,
    out: DictionaryContent<T::T>,
    m: usize,
    last: PrimitiveDictionaryDecoder<T, F>,
    out_second: DictionaryContent<T::T>,
    r_second: Result<usize, ParquetError>,
    total: usize,
    at_once: PrimitiveDictionaryDecoder<T, F>,
    out_at_once: DictionaryContent<T::T>,
    r_at_once: Result<usize, ParquetError>,
) where T: DataType, F: ColumnValueDecoder<Buffer = Vec<T::T>>
    requires
        first.page() matches Some(MaybeDictionaryDecoder::Dict { decoder, .. }) && (forall|i: int|
            0 <= i < decoder.pending().len() ==> #[trigger] decoder.pending()[i] < 0x8000_0000),
        first.values() is Some,
        total == n + m,
        PrimitiveDictionaryDecoder::<T, F>::skips(first, n, second, r_first),
        r_first is Ok,
        PrimitiveDictionaryDecoder::<T, F>::reads(second, out, m, last, out_second, r_second),
        r_second is Ok,
        PrimitiveDictionaryDecoder::<T, F>::reads(
            first,
            out,
            total,
            at_once,
            out_at_once,
            r_at_once,
        ),
    ensures
        ({
            let xs = first.page()->0->decoder.pending();
            let left = first.page()->0->max_remaining_values as nat;
            let table = first.values()->0.values;
            let (j, k) = (r_first->Ok_0 as int, r_second->Ok_0 as int);
            &&& j == fewer(fewer(n as nat, left), xs.len())
            &&& k == fewer(fewer(m as nat, (left - j) as nat), (xs.len() - j) as nat)
            &&& out_second.rows() == out.rows() + Seq::new(
                k as nat,
                |i: int| table[xs[j + i] as int],
            )
            &&& r_at_once == Ok::<usize, ParquetError>((j + k) as usize)
            &&& out_at_once.rows().skip(out.rows().len() + j) == out_second.rows().skip(
                out.rows().len() as int,
            )
            &&& at_once.page()->0->decoder.pending() == last.page()->0->decoder.pending()
            &&& at_once.page()->0->max_remaining_values == last.page()->0->max_remaining_values
        }),
{
    let d = first.page()->0->decoder;
    let xs = d.pending();
    let table = first.values()->0.values;
    let (j, k) = (r_first->Ok_0 as int, r_second->Ok_0 as int);
    let e = second.page()->0->decoder;
    assert(e.pending() == xs.skip(j));
    assert forall|i: int| 0 <= i < e.pending().len() implies #[trigger] e.pending()[i]
        < 0x8000_0000 by {
        assert(xs[j + i] < 0x8000_0000);
    }
    law_dictionary_read(second, out, m, last, out_second, r_second);
    law_dictionary_read(first, out, total, at_once, out_at_once, r_at_once);
    let tail = Seq::new(k as nat, |i: int| table[xs[j + i] as int]);
    assert(looked_up(e.pending().take(k), table) =~= tail);
    assert(looked_up(xs.take(j + k), table) =~= looked_up(xs.take(j), table) + tail);
    assert(out_second.rows().skip(out.rows().len() as int) =~= tail);
    assert(out_at_once.rows().skip(out.rows().len() + j) =~= tail);
    assert(xs.skip(j).skip(k) =~= xs.skip(j + k));
}

/// Reading indices in two parts appends what reading them at once appends, and leaves as much.
pub proof fn law_dictionary_reads_in_parts<T, F>(
    first: PrimitiveDictionaryDecoder<T, F>,
    out: DictionaryContent<T::T>,
    n: usize,
    second: PrimitiveDictionaryDecoder<T, F>,
    out_first: DictionaryContent<T::T>,
    r_first: Result<usize, ParquetError>,
    m: usize,
    last: PrimitiveDictionaryDecoder<T, F>,
    out_second: DictionaryContent<T::T>,
    r_second: Result<usize, ParquetError>,
    total: usize,
    at_once: PrimitiveDictionaryDecoder<T, F>,
    out_at_once: DictionaryContent<T::T>,
    r_at_once: Result<usize, ParquetError>,
) where T: DataType, F: ColumnValueDecoder<Buffer = Vec<T::T>>
    requires
        first.page() matches Some(MaybeDictionaryDecoder::Dict { .. }),
        total == n + m,
        PrimitiveDictionaryDecoder::<T, F>::reads(first, out, n, second, out_first, r_first),
        r_first is Ok,
        PrimitiveDictionaryDecoder::<T, F>::reads(
            second,
            out_first,
            m,
            last,
            out_second,
            r_second,
        ),
        r_second is Ok,
        PrimitiveDictionaryDecoder::<T, F>::reads(
            first,
            out,
            total,
            at_once,
            out_at_once,
            r_at_once,
        ),
    ensures
        r_at_once == Ok::<usize, ParquetError>((r_first->Ok_0 + r_second->Ok_0) as usize),
        out_at_once == out_second,
        at_once.page()->0->decoder.pending() == last.page()->0->decoder.pending(),
        at_once.page()->0->max_remaining_values == last.page()->0->max_remaining_values,
{
    let xs = first.page()->0->decoder.pending();
    let table = first.values()->0.values;
    let (j, k) = (r_first->Ok_0 as int, r_second->Ok_0 as int);
    let rest = second.page()->0->decoder.pending();
    assert(rest == xs.skip(j));
    assert(xs.take(j) + rest.take(k) =~= xs.take(j + k));
    assert(rest.skip(k) =~= xs.skip(j + k));
    assert(looked_up(xs.take(j + k), table) =~= looked_up(xs.take(j), table) + looked_up(
        rest.take(k),
        table,
    ));
    assert(keys_of(xs.take(j + k)) =~= keys_of(xs.take(j)) + keys_of(rest.take(k)));
    assert(out_at_once =~= out_second);
}

/// The answers for values, one byte each: one where the predicate holds, and zero where it does not
/// or says nothing.
pub open spec fn answer_bytes<A>(values: Seq<A>, holds: spec_fn(A) -> Option<bool>) -> Seq<u8> {
    Seq::new(
        values.len(),
        |i: int|
            if holds(values[i]) == Some(true) {
                1u8
            } else {
                0u8
            },
    )
}

proof fn lemma_answer_bytes<A>(values: Seq<A>, holds: spec_fn(A) -> Option<bool>)
    ensures
        answers_to(values, holds) == answer_bytes(values, holds),
{
    assert(answers_to(values, holds) =~= answer_bytes(values, holds));
}

/// The values that come next on the page of a predicate decoder, to the end of the page. A page of
/// indices has the answers for them at hand, and the values of a plain page are those that the
/// predicate can be asked about.
pub open spec fn is_answered_next<T, P>(
    decoder: PrimitivePredicateDecoder<T, P, ColumnValueDecoderImpl<T>>,
    values: Seq<T::T>,
    holds: spec_fn(T::T) -> Option<bool>,
) -> bool where T: DataType, P: PrimitiveDictionaryPredicate {
    match decoder.page() {
        Some(PrimitivePredicateValueDecoder::Dict { decoder: xs, max_remaining_values }) => {
            &&& decoder.mask() matches Some(mask)
            &&& indices_stand_for(xs, max_remaining_values, mask, answer_bytes(values, holds))
        },
        Some(PrimitivePredicateValueDecoder::Fallback(fallback)) => {
            &&& decides::<T, P>(decoder.slot(), decoder.values_type(), holds)
            &&& plain_page(fallback, values)
        },
        None => false,
    }
}

/// A dictionary page is accepted by a predicate decoder under each of its three encodings, and the
/// predicate's answers for the values that are written in it are kept.
pub proof fn law_dictionary_page_is_answered<T, P, F>(
    before: PrimitivePredicateDecoder<T, P, F>,
    buf: Bytes,
    num_values: u32,
    encoding: Encoding,
    values: Seq<T::T>,
    after: PrimitivePredicateDecoder<T, P, F>,
    r: Result<(), ParquetError>,
    holds: spec_fn(T::T) -> Option<bool>,
) where
    T: DataType,
    P: PrimitiveDictionaryPredicate,
    F: ColumnValueDecoder<Buffer = Vec<T::T>>,

    requires
        decides::<T, P>(before.slot(), before.values_type(), holds),
        encoding == Encoding::PLAIN || encoding == Encoding::PLAIN_DICTIONARY || encoding
            == Encoding::RLE_DICTIONARY,
        values.len() == num_values,
        writes_plainly::<T>(bytes_content(buf), values),
        PrimitivePredicateDecoder::<T, P, F>::sets_dict(
            before,
            buf,
            num_values,
            encoding,
            after,
            r,
        ),
    ensures
        r == Ok::<(), ParquetError>(()),
        after.mask() == Some(answer_bytes(values, holds)),
        after.page() == before.page(),
        after.same_setup(before),
{
    law_plain_values::<T>(bytes_content(buf), values);
    lemma_answer_bytes(values, holds);
    law_dictionary_is_answered(before, buf, num_values, encoding, after, r, holds);
}

/// A dictionary page of another encoding is refused by a predicate decoder, and so is one that
/// holds fewer bytes than its values take. Neither changes anything, and the predicate is not
/// asked.
pub proof fn law_bad_dictionary_page_for_predicate<T, P, F>(
    before: PrimitivePredicateDecoder<T, P, F>,
    buf: Bytes,
    num_values: u32,
    encoding: Encoding,
    after: PrimitivePredicateDecoder<T, P, F>,
    r: Result<(), ParquetError>,
) where
    T: DataType,
    P: PrimitiveDictionaryPredicate,
    F: ColumnValueDecoder<Buffer = Vec<T::T>>,

    requires
        ({
            ||| (encoding != Encoding::PLAIN && encoding != Encoding::PLAIN_DICTIONARY && encoding
                != Encoding::RLE_DICTIONARY)
            ||| bytes_content(buf).len() < num_values * T::width()
        }),
        PrimitivePredicateDecoder::<T, P, F>::sets_dict(
            before,
            buf,
            num_values,
            encoding,
            after,
            r,
        ),
    ensures
        after.mask() == before.mask(),
        after.page() == before.page(),
        after.asked() == before.asked(),
        after.same_setup(before),
        r == Err::<(), ParquetError>(
            if encoding == Encoding::PLAIN || encoding == Encoding::PLAIN_DICTIONARY || encoding
                == Encoding::RLE_DICTIONARY {
                ParquetError::EOF(Reason::PlainData)
            } else {
                ParquetError::NYI(Reason::DictionaryEncoding(encoding))
            },
        ),
{
}

/// Behind a page of indices the values come next that the indices stand for in the dictionary, with
/// the answers for them at hand.
pub proof fn law_indexed_answers_come_next<T, P>(
    before: PrimitivePredicateDecoder<T, P, ColumnValueDecoderImpl<T>>,
    encoding: Encoding,
    data: Bytes,
    num_levels: usize,
    num_values: Option<usize>,
    width: u8,
    runs: Seq<IndexRun>,
    tail: IndexTail,
    dictionary: Seq<T::T>,
    after: PrimitivePredicateDecoder<T, P, ColumnValueDecoderImpl<T>>,
    r: Result<(), ParquetError>,
    holds: spec_fn(T::T) -> Option<bool>,
) where T: DataType, P: PrimitiveDictionaryPredicate
    requires
        encoding == Encoding::RLE_DICTIONARY || encoding == Encoding::PLAIN_DICTIONARY,
        is_index_page(data, width, runs, tail),
        before.mask() == Some(answer_bytes(dictionary, holds)),
        page_points_into(
            page_xs(runs, tail),
            page_count(num_levels, num_values),
            dictionary.len(),
        ),
        PrimitivePredicateDecoder::<T, P, ColumnValueDecoderImpl<T>>::sets_data(
            before,
            encoding,
            data,
            num_levels,
            num_values,
            after,
            r,
        ),
    ensures
        r == Ok::<(), ParquetError>(()),
        is_answered_next(
            after,
            page_values(
                page_xs(runs, tail),
                page_count(num_levels, num_values),
                dictionary,
            ),
            holds,
        ),
{
    law_index_page_is_set_for_predicate(
        before,
        encoding,
        data,
        num_levels,
        num_values,
        width,
        runs,
        tail,
        after,
        r,
    );
}

/// Behind a plain page the values come next that are written in it, for the predicate to be asked
/// about.
pub proof fn law_plain_answers_come_next<T, P>(
    before: PrimitivePredicateDecoder<T, P, ColumnValueDecoderImpl<T>>,
    data: Bytes,
    num_levels: usize,
    num_values: Option<usize>,
    values: Seq<T::T>,
    after: PrimitivePredicateDecoder<T, P, ColumnValueDecoderImpl<T>>,
    r: Result<(), ParquetError>,
    holds: spec_fn(T::T) -> Option<bool>,
) where T: DataType, P: PrimitiveDictionaryPredicate
    requires
        decides::<T, P>(before.slot(), before.values_type(), holds),
        writes_plainly::<T>(bytes_content(data), values),
        values.len() == page_count(num_levels, num_values),
        PrimitivePredicateDecoder::<T, P, ColumnValueDecoderImpl<T>>::sets_data(
            before,
            Encoding::PLAIN,
            data,
            num_levels,
            num_values,
            after,
            r,
        ),
    ensures
        PrimitivePredicateDecoder::<T, P, ColumnValueDecoderImpl<T>>::takes_data(
            Encoding::PLAIN,
            data,
        ),
        r == Ok::<(), ParquetError>(()),
        after.mask() == before.mask(),
        after.same_setup(before),
        is_answered_next(after, values, holds),
{
}

/// A page of another encoding is refused by a predicate decoder, and changes nothing.
pub proof fn law_unknown_page_is_refused_by_predicate<T, P>(
    before: PrimitivePredicateDecoder<T, P, ColumnValueDecoderImpl<T>>,
    encoding: Encoding,
    data: Bytes,
    num_levels: usize,
    num_values: Option<usize>,
    after: PrimitivePredicateDecoder<T, P, ColumnValueDecoderImpl<T>>,
    r: Result<(), ParquetError>,
) where T: DataType, P: PrimitiveDictionaryPredicate
    requires
        encoding != Encoding::PLAIN,
        encoding != Encoding::RLE_DICTIONARY,
        encoding != Encoding::PLAIN_DICTIONARY,
        PrimitivePredicateDecoder::<T, P, ColumnValueDecoderImpl<T>>::sets_data(
            before,
            encoding,
            data,
            num_levels,
            num_values,
            after,
            r,
        ),
    ensures
        r == Err::<(), ParquetError>(ParquetError::NYI(Reason::ValueEncoding(encoding))),
        after.mask() == before.mask(),
        after.page() == before.page(),
        after.same_setup(before),
{
}

proof fn lemma_answers_left<A>(
    decoder: RleDecoder,
    next: RleDecoder,
    left: usize,
    remaining: usize,
    mask: Seq<u8>,
    values: Seq<A>,
    k: nat,
    holds: spec_fn(A) -> Option<bool>,
)
    requires
        indices_stand_for(decoder, left, mask, answer_bytes(values, holds)),
        k <= values.len(),
        next.pending() == decoder.pending().skip(k as int),
        next.is_cut() == decoder.is_cut(),
        remaining == left - k,
    ensures
        indices_stand_for(next, remaining, mask, answer_bytes(values.skip(k as int), holds)),
        looked_up(decoder.pending().take(k as int), mask) == answer_bytes(
            values.take(k as int),
            holds,
        ),
{
    let answers = answer_bytes(values, holds);
    let rest = answer_bytes(values.skip(k as int), holds);
    assert forall|i: int| 0 <= i < rest.len() implies {
        &&& #[trigger] next.pending()[i] < mask.len()
        &&& next.pending()[i] < 0x8000_0000
        &&& rest[i] == mask[next.pending()[i] as int]
    } by {
        assert(decoder.pending()[k + i] < mask.len());
        assert(rest[i] == answers[k + i]);
    }
    let read = answer_bytes(values.take(k as int), holds);
    assert forall|i: int| 0 <= i < k implies #[trigger] looked_up(
        decoder.pending().take(k as int),
        mask,
    )[i] == read[i] by {
        assert(decoder.pending()[i] < mask.len());
        assert(read[i] == answers[i]);
    }
    assert(looked_up(decoder.pending().take(k as int), mask) =~= read);
}

/// A read appends the predicate's answers for the values that come next, as many as were asked for
/// or as there are, and leaves the others. It makes no difference whether the page holds indices or
/// values.
pub proof fn law_next_answers_are_read<T, P>(
    before: PrimitivePredicateDecoder<T, P, ColumnValueDecoderImpl<T>>,
    values: Seq<T::T>,
    out: Seq<u8>,
    n: usize,
    after: PrimitivePredicateDecoder<T, P, ColumnValueDecoderImpl<T>>,
    out_after: Seq<u8>,
    r: Result<usize, ParquetError>,
    holds: spec_fn(T::T) -> Option<bool>,
) where T: DataType, P: PrimitiveDictionaryPredicate
    requires
        is_answered_next(before, values, holds),
        PrimitivePredicateDecoder::<T, P, ColumnValueDecoderImpl<T>>::reads(
            before,
            out,
            n,
            after,
            out_after,
            r,
        ),
    ensures
        ({
            let k = fewer(n as nat, values.len());
            &&& r == Ok::<usize, ParquetError>(k as usize)
            &&& out_after == out + answer_bytes(values.take(k as int), holds)
            &&& is_answered_next(after, values.skip(k as int), holds)
            &&& after.mask() == before.mask()
            &&& after.same_setup(before)
        }),
{
    let k = fewer(n as nat, values.len());
    match before.page()->0 {
        PrimitivePredicateValueDecoder::Dict { decoder, max_remaining_values } => {
            let next = after.page()->0;
            lemma_answers_left(
                decoder,
                next->decoder,
                max_remaining_values,
                next->max_remaining_values,
                before.mask()->0,
                values,
                k,
                holds,
            );
        },
        PrimitivePredicateValueDecoder::Fallback(fallback) => {
            let page = fallback.page()->0;
            lemma_plain_rest::<T>(page.bytes(), values, k);
            law_plain_values::<T>(page.bytes(), values.take(k as int));
            lemma_answer_bytes(values.take(k as int), holds);
            law_plain_page_is_answered(
                before,
                page.given(n as nat),
                out,
                n,
                after,
                out_after,
                r,
                holds,
            );
            let next = lemma_plain_read(before, out, n, after, out_after, r, holds);
        },
    }
}

/// A skip passes over the values that come next, as many as were asked for or as there are, and
/// leaves the others. The predicate is not asked.
pub proof fn law_next_answers_are_skipped<T, P>(
    before: PrimitivePredicateDecoder<T, P, ColumnValueDecoderImpl<T>>,
    values: Seq<T::T>,
    n: usize,
    after: PrimitivePredicateDecoder<T, P, ColumnValueDecoderImpl<T>>,
    r: Result<usize, ParquetError>,
    holds: spec_fn(T::T) -> Option<bool>,
) where T: DataType, P: PrimitiveDictionaryPredicate
    requires
        is_answered_next(before, values, holds),
        PrimitivePredicateDecoder::<T, P, ColumnValueDecoderImpl<T>>::skips(before, n, after, r),
    ensures
        ({
            let k = fewer(n as nat, values.len());
            &&& r == Ok::<usize, ParquetError>(k as usize)
            &&& is_answered_next(after, values.skip(k as int), holds)
            &&& after.asked() == before.asked()
            &&& after.mask() == before.mask()
            &&& after.same_setup(before)
        }),
{
    let k = fewer(n as nat, values.len());
    match before.page()->0 {
        PrimitivePredicateValueDecoder::Dict { decoder, max_remaining_values } => {
            let next = after.page()->0;
            lemma_answers_left(
                decoder,
                next->decoder,
                max_remaining_values,
                next->max_remaining_values,
                before.mask()->0,
                values,
                k,
                holds,
            );
        },
        PrimitivePredicateValueDecoder::Fallback(fallback) => {
            let next = choose|next: ColumnValueDecoderImpl<T>|
                {
                    &&& #[trigger] ColumnValueDecoderImpl::<T>::skips(fallback, n, next, r)
                    &&& after.page() == Some(PrimitivePredicateValueDecoder::Fallback(next))
                };
            law_plain_page_is_skipped(fallback, values, n, next, r);
        },
    }
}

/// The answers that come next can be read, whatever stands in the buffer, and skipped.
pub proof fn law_next_answers_are_ready<T, P>(
    decoder: PrimitivePredicateDecoder<T, P, ColumnValueDecoderImpl<T>>,
    values: Seq<T::T>,
    out: Seq<u8>,
    n: usize,
    holds: spec_fn(T::T) -> Option<bool>,
) where T: DataType, P: PrimitiveDictionaryPredicate
    requires
        is_answered_next(decoder, values, holds),
        out.len() + n <= usize::MAX,
    ensures
        decoder.has_data(),
        decoder.can_read(out, n),
{
}

/// Without the answers for a dictionary a page of indices cannot be read: the buffer and the page
/// stay as they were.
pub proof fn law_indices_need_answers<T, P, F>(
    before: PrimitivePredicateDecoder<T, P, F>,
    out: Seq<u8>,
    n: usize,
    after: PrimitivePredicateDecoder<T, P, F>,
    out_after: Seq<u8>,
    r: Result<usize, ParquetError>,
) where
    T: DataType,
    P: PrimitiveDictionaryPredicate,
    F: ColumnValueDecoder<Buffer = Vec<T::T>>,

    requires
        before.page() matches Some(PrimitivePredicateValueDecoder::Dict { .. }),
        before.mask() is None,
        PrimitivePredicateDecoder::<T, P, F>::reads(before, out, n, after, out_after, r),
    ensures
        r == Err::<usize, ParquetError>(ParquetError::General(Reason::MissingPredicateMask)),
        out_after == out,
        after.page() == before.page(),
{
}

/// An array of 64-bit integers holds the integers that it was made of, one slot each.
pub proof fn law_int64_array(
    values: Seq<i64>,
    value_type: ArrowType,
    made: Result<ArrowArray, ParquetError>,
)
    requires
        Int64Type::makes(values, value_type, None, made),
    ensures
        made is Ok <==> value_type == ArrowType::Int64,
        made matches Ok(array) ==> {
            &&& array_type(array) == ArrowType::Int64
            &&& array_len(array) == values.len()
            &&& integer_values(array).len() == values.len()
            &&& forall|i: int|
                0 <= i < values.len() ==> #[trigger] integer_values(array)[i] == Some(
                    values[i] as int,
                )
        },
        made matches Err(e) ==> e == ParquetError::General(Reason::ValueType),
{
}

/// An array of 32-bit integers holds the integers that it was made of, one slot each.
pub proof fn law_int32_array(
    values: Seq<i32>,
    value_type: ArrowType,
    made: Result<ArrowArray, ParquetError>,
)
    requires
        Int32Type::makes(values, value_type, None, made),
    ensures
        made is Ok <==> value_type == ArrowType::Int32,
        made matches Ok(array) ==> {
            &&& array_type(array) == ArrowType::Int32
            &&& array_len(array) == values.len()
            &&& integer_values(array).len() == values.len()
            &&& forall|i: int|
                0 <= i < values.len() ==> #[trigger] integer_values(array)[i] == Some(
                    values[i] as int,
                )
        },
        made matches Err(e) ==> e == ParquetError::General(Reason::ValueType),
{
}

/// A predicate that is asked about 64-bit integers is asked about an array that holds them, after
/// everything that it was asked before.
pub proof fn law_int64_question<P, F>(
    decoder: PrimitivePredicateDecoder<Int64Type, P, F>,
    values: Seq<i64>,
    r: Result<BooleanArray, ParquetError>,
    log: Seq<ArrowArray>,
) where P: PrimitiveDictionaryPredicate
    requires
        decoder.values_type() == ArrowType::Int64,
        decoder.asks(values, r, log),
    ensures
        log.len() == decoder.asked().len() + 1,
        log.drop_last() == decoder.asked(),
        array_len(log.last()) == values.len(),
        forall|i: int|
            0 <= i < values.len() ==> #[trigger] integer_values(log.last())[i] == Some(
                values[i] as int,
            ),
{
    let made = choose|made: Result<ArrowArray, ParquetError>| #[trigger]
        Int64Type::makes(values, decoder.values_type(), None, made) && match made {
            Ok(array) => log == decoder.asked().push(array),
            Err(e) => false,
        };
    law_int64_array(values, ArrowType::Int64, made);
    assert(log.drop_last() =~= decoder.asked());
}

/// A predicate that is asked about 32-bit integers is asked about an array that holds them, after
/// everything that it was asked before.
pub proof fn law_int32_question<P, F>(
    decoder: PrimitivePredicateDecoder<Int32Type, P, F>,
    values: Seq<i32>,
    r: Result<BooleanArray, ParquetError>,
    log: Seq<ArrowArray>,
) where P: PrimitiveDictionaryPredicate
    requires
        decoder.values_type() == ArrowType::Int32,
        decoder.asks(values, r, log),
    ensures
        log.len() == decoder.asked().len() + 1,
        log.drop_last() == decoder.asked(),
        array_len(log.last()) == values.len(),
        forall|i: int|
            0 <= i < values.len() ==> #[trigger] integer_values(log.last())[i] == Some(
                values[i] as int,
            ),
{
    let made = choose|made: Result<ArrowArray, ParquetError>| #[trigger]
        Int32Type::makes(values, decoder.values_type(), None, made) && match made {
            Ok(array) => log == decoder.asked().push(array),
            Err(e) => false,
        };
    law_int32_array(values, ArrowType::Int32, made);
    assert(log.drop_last() =~= decoder.asked());
}

/// The predicate is asked about a dictionary once, about an array of the values that are written in
/// it, after everything that it was asked before.
pub proof fn law_question_about_a_dictionary<T, P, F>(
    before: PrimitivePredicateDecoder<T, P, F>,
    buf: Bytes,
    num_values: u32,
    encoding: Encoding,
    values: Seq<T::T>,
    after: PrimitivePredicateDecoder<T, P, F>,
) where
    T: DataType,
    P: PrimitiveDictionaryPredicate,
    F: ColumnValueDecoder<Buffer = Vec<T::T>>,

    requires
        values.len() == num_values,
        writes_plainly::<T>(bytes_content(buf), values),
        PrimitivePredicateDecoder::<T, P, F>::sets_dict(
            before,
            buf,
            num_values,
            encoding,
            after,
            Ok(()),
        ),
    ensures
        after.asked().len() == before.asked().len() + 1,
        after.asked().drop_last() == before.asked(),
        T::makes(values, before.values_type(), None, Ok(after.asked().last())),
{
    law_dictionary_takes_one_question(before, buf, num_values, encoding, after);
    law_plain_values::<T>(bytes_content(buf), values);
    assert(after.asked().drop_last() =~= before.asked());
}

/// The predicate is asked about the values of a read of a plain page once, about an array of the
/// values that are read, after everything that it was asked before.
pub proof fn law_question_about_a_read<T, P>(
    before: PrimitivePredicateDecoder<T, P, ColumnValueDecoderImpl<T>>,
    values: Seq<T::T>,
    out: Seq<u8>,
    n: usize,
    after: PrimitivePredicateDecoder<T, P, ColumnValueDecoderImpl<T>>,
    out_after: Seq<u8>,
    read: usize,
) where T: DataType, P: PrimitiveDictionaryPredicate
    requires
        before.page() matches Some(PrimitivePredicateValueDecoder::Fallback(fallback))
            && plain_page(fallback, values),
        PrimitivePredicateDecoder::<T, P, ColumnValueDecoderImpl<T>>::reads(
            before,
            out,
            n,
            after,
            out_after,
            Ok(read),
        ),
    ensures
        read == fewer(n as nat, values.len()),
        after.asked().len() == before.asked().len() + 1,
        after.asked().drop_last() == before.asked(),
        T::makes(
            values.take(read as int),
            before.values_type(),
            None,
            Ok(after.asked().last()),
        ),
{
    law_questions_of_a_read(before, out, n, after, out_after, read);
    let fallback = before.page()->0->Fallback_0;
    let none = Seq::<T::T>::empty();
    let (next, got) = choose|next: ColumnValueDecoderImpl<T>, got: Seq<T::T>|
        {
            &&& #[trigger] ColumnValueDecoderImpl::<T>::reads(
                fallback,
                none,
                n,
                next,
                got,
                Ok(read),
            )
            &&& T::makes(got, before.values_type(), None, Ok(after.asked().last()))
        };
    law_plain_page_is_read(fallback, values, none, n, next, got, Ok(read));
    assert(got =~= values.take(read as int));
    assert(after.asked().drop_last() =~= before.asked());
}

/// A page whose first run cannot be read is refused by a dictionary decoder, and changes nothing:
/// the bytes end before the repeated index does.
pub proof fn law_cut_index_page_is_refused<T, F>(
    before: PrimitiveDictionaryDecoder<T, F>,
    encoding: Encoding,
    data: Bytes,
    num_levels: usize,
    num_values: Option<usize>,
    width: u8,
    times: nat,
    bytes: Seq<u8>,
    after: PrimitiveDictionaryDecoder<T, F>,
    r: Result<(), ParquetError>,
) where T: DataType, F: ColumnValueDecoder<Buffer = Vec<T::T>>
    requires
        encoding == Encoding::RLE_DICTIONARY || encoding == Encoding::PLAIN_DICTIONARY,
        is_cut_index_page(data, width, times, bytes),
        PrimitiveDictionaryDecoder::<T, F>::sets_data(
            before,
            encoding,
            data,
            num_levels,
            num_values,
            after,
            r,
        ),
    ensures
        PrimitiveDictionaryDecoder::<T, F>::takes_data(encoding, data),
        r == Err::<(), ParquetError>(ParquetError::General(Reason::IndexData)),
        after.values() == before.values(),
        after.page() == before.page(),
{
    law_cut_repeated_run(times, bytes, width as nat);
    assert(bytes_content(data)[0] == width);
    assert(bytes_content(data).skip(1) =~= grouped(2 * times) + bytes);
}

/// A page whose first run cannot be read is refused by a predicate decoder, and changes nothing.
pub proof fn law_cut_index_page_is_refused_by_predicate<T, P, F>(
    before: PrimitivePredicateDecoder<T, P, F>,
    encoding: Encoding,
    data: Bytes,
    num_levels: usize,
    num_values: Option<usize>,
    width: u8,
    times: nat,
    bytes: Seq<u8>,
    after: PrimitivePredicateDecoder<T, P, F>,
    r: Result<(), ParquetError>,
) where
    T: DataType,
    P: PrimitiveDictionaryPredicate,
    F: ColumnValueDecoder<Buffer = Vec<T::T>>,

    requires
        encoding == Encoding::RLE_DICTIONARY || encoding == Encoding::PLAIN_DICTIONARY,
        is_cut_index_page(data, width, times, bytes),
        PrimitivePredicateDecoder::<T, P, F>::sets_data(
            before,
            encoding,
            data,
            num_levels,
            num_values,
            after,
            r,
        ),
    ensures
        PrimitivePredicateDecoder::<T, P, F>::takes_data(encoding, data),
        r == Err::<(), ParquetError>(ParquetError::General(Reason::IndexData)),
        after.mask() == before.mask(),
        after.page() == before.page(),
{
    law_cut_repeated_run(times, bytes, width as nat);
    assert(bytes_content(data)[0] == width);
    assert(bytes_content(data).skip(1) =~= grouped(2 * times) + bytes);
}

/// The bytes of a page of indices that end before its first run does, a repeated index.
pub open spec fn is_cut_index_page(data: Bytes, width: u8, times: nat, bytes: Seq<u8>) -> bool {
    &&& width <= 32
    &&& 1 <= times
    &&& 2 * times <= u32::MAX
    &&& bytes.len() < (width + 7) / 8
    &&& bytes_content(data) == seq![width] + (grouped(2 * times) + bytes)
}

/// A page that breaks off in a later run has the indices of the runs before it, and reading or
/// skipping more than these is an error.
pub proof fn law_index_page_breaks_off<T, F>(
    before: PrimitiveDictionaryDecoder<T, F>,
    encoding: Encoding,
    data: Bytes,
    num_levels: usize,
    num_values: Option<usize>,
    width: u8,
    runs: Seq<IndexRun>,
    times: nat,
    bytes: Seq<u8>,
    between: PrimitiveDictionaryDecoder<T, F>,
    set: Result<(), ParquetError>,
    out: DictionaryContent<T::T>,
    n: usize,
    after: PrimitiveDictionaryDecoder<T, F>,
    out_after: DictionaryContent<T::T>,
    r: Result<usize, ParquetError>,
) where T: DataType, F: ColumnValueDecoder<Buffer = Vec<T::T>>
    requires
        encoding == Encoding::RLE_DICTIONARY || encoding == Encoding::PLAIN_DICTIONARY,
        before.values() is Some,
        width <= 32,
        runs.len() > 0,
        runs_fit(runs, width as nat),
        1 <= times,
        2 * times <= u32::MAX,
        bytes.len() < (width + 7) / 8,
        bytes_content(data) == seq![width] + (runs_bytes(runs, width as nat) + (grouped(2 * times)
            + bytes)),
        PrimitiveDictionaryDecoder::<T, F>::sets_data(
            before,
            encoding,
            data,
            num_levels,
            num_values,
            between,
            set,
        ),
        PrimitiveDictionaryDecoder::<T, F>::reads(between, out, n, after, out_after, r)
            || PrimitiveDictionaryDecoder::<T, F>::skips(between, n, after, r),
    ensures
        set == Ok::<(), ParquetError>(()),
        ({
            let wanted = fewer(n as nat, page_count(num_levels, num_values));
            r == if wanted <= runs_xs(runs).len() {
                Ok::<usize, ParquetError>(wanted as usize)
            } else {
                Err(ParquetError::General(Reason::IndexData))
            }
        }),
{
    let rest = grouped(2 * times) + bytes;
    law_cut_repeated_run(times, bytes, width as nat);
    law_runs_are_read_back(runs, width as nat, rest);
    assert(bytes_content(data)[0] == width);
    assert(bytes_content(data).skip(1) =~= runs_bytes(runs, width as nat) + rest);
    assert(runs_xs(runs) + Seq::<u32>::empty() =~= runs_xs(runs));
}

/// A read that fails takes nothing away from the rows of the buffer.
pub proof fn law_failed_read_keeps_rows<T, F>(
    before: PrimitiveDictionaryDecoder<T, F>,
    out: DictionaryContent<T::T>,
    n: usize,
    after: PrimitiveDictionaryDecoder<T, F>,
    out_after: DictionaryContent<T::T>,
    r: Result<usize, ParquetError>,
) where T: DataType, F: ColumnValueDecoder<Buffer = Vec<T::T>>
    requires
        before.page() matches Some(MaybeDictionaryDecoder::Dict { .. }),
        PrimitiveDictionaryDecoder::<T, F>::reads(before, out, n, after, out_after, r),
        r is Err,
    ensures
        out.len() <= out_after.len(),
        out_after.rows().take(out.len() as int) == out.rows(),
{
    assert(out.len() == out.rows().len());
    assert(out_after.rows().take(out.len() as int) =~= out.rows());
}

/// An answer is taken where it has a slot for each value, and refused with the two numbers
/// otherwise; an error of the predicate is handed on.
pub proof fn law_answer_is_checked<T, P, F>(
    before: PrimitivePredicateDecoder<T, P, F>,
    answer: Result<BooleanArray, ParquetError>,
    count: usize,
    after: PrimitivePredicateDecoder<T, P, F>,
    r: Result<(), ParquetError>,
) where T: DataType, P: PrimitiveDictionaryPredicate
    requires
        before.keeps_mask(
            PrimitivePredicateDecoder::<T, P, F>::dictionary_outcome(answer, count as nat),
            after,
            r,
        ),
    ensures
        match answer {
            Ok(array) => {
                let slots = boolean_array_values(array);
                if slots.len() == count {
                    &&& r == Ok::<(), ParquetError>(())
                    &&& after.mask() matches Some(mask)
                    &&& mask.len() == count
                    &&& forall|i: int|
                        0 <= i < count ==> #[trigger] mask[i] == if slots[i] == Some(true) {
                            1u8
                        } else {
                            0u8
                        }
                } else {
                    &&& after.mask() == before.mask()
                    &&& r == Err::<(), ParquetError>(
                        ParquetError::General(
                            Reason::DictionaryPredicateLength {
                                returned: slots.len() as usize,
                                expected: count,
                            },
                        ),
                    )
                }
            },
            Err(e) => {
                &&& after.mask() == before.mask()
                &&& r == Err::<(), ParquetError>(e)
            },
        },
{
}

/// An answer to values that were read is taken where it has a slot for each, and refused with the
/// two numbers otherwise; an error of the predicate is handed on.
pub proof fn law_values_answer_is_checked(
    answer: Result<BooleanArray, ParquetError>,
    count: usize,
)
    ensures
        match answer {
            Ok(array) => {
                let slots = boolean_array_values(array);
                if slots.len() == count {
                    &&& values_outcome(answer, count as nat) matches Ok(mask)
                    &&& mask.len() == count
                    &&& forall|i: int|
                        0 <= i < count ==> #[trigger] mask[i] == if slots[i] == Some(true) {
                            1u8
                        } else {
                            0u8
                        }
                } else {
                    values_outcome(answer, count as nat) == Err::<Seq<u8>, ParquetError>(
                        ParquetError::General(
                            Reason::PredicateLength {
                                returned: slots.len() as usize,
                                expected: count,
                            },
                        ),
                    )
                }
            },
            Err(e) => values_outcome(answer, count as nat) == Err::<Seq<u8>, ParquetError>(e),
        },
{
}

/// What a predicate says is what it said of the array that it was asked about: its answer as it is,
/// or its error, handed on.
pub proof fn law_answer_is_the_predicates<T, P, F>(
    decoder: PrimitivePredicateDecoder<T, P, F>,
    values: Seq<T::T>,
    r: Result<BooleanArray, ParquetError>,
    log: Seq<ArrowArray>,
) where T: DataType, P: PrimitiveDictionaryPredicate
    requires
        decoder.asks(values, r, log),
        log.len() > decoder.asked().len(),
    ensures
        r matches Ok(answer) ==> decoder.slot().answers(log.last(), Ok(answer)),
        r matches Err(e) ==> (e matches ParquetError::External(inner) && decoder.slot().answers(
            log.last(),
            Err(inner),
        )),
{
}

/// A slot that nothing was put in is zero.
pub proof fn law_unset_integers_are_zero()
    ensures
        Int64Type::unset() == 0,
        Int32Type::unset() == 0,
{
}

/// Values that cannot be handed to the predicate in the type that was asked for are an error, and
/// the predicate is not asked.
pub proof fn law_wrong_type_is_not_asked<P, F>(
    decoder: PrimitivePredicateDecoder<Int64Type, P, F>,
    values: Seq<i64>,
    r: Result<BooleanArray, ParquetError>,
    log: Seq<ArrowArray>,
    narrow: PrimitivePredicateDecoder<Int32Type, P, F>,
    narrow_values: Seq<i32>,
    narrow_r: Result<BooleanArray, ParquetError>,
    narrow_log: Seq<ArrowArray>,
) where P: PrimitiveDictionaryPredicate
    requires
        decoder.values_type() != ArrowType::Int64,
        decoder.asks(values, r, log),
        narrow.values_type() != ArrowType::Int32,
        narrow.asks(narrow_values, narrow_r, narrow_log),
    ensures
        r == Err::<BooleanArray, ParquetError>(ParquetError::General(Reason::ValueType)),
        log == decoder.asked(),
        narrow_r == Err::<BooleanArray, ParquetError>(ParquetError::General(Reason::ValueType)),
        narrow_log == narrow.asked(),
{
}

/// Where nothing is there to look indices up in, a read can be tried all the same, to be refused.
pub proof fn law_refusal_is_ready<T, P, F>(
    decoder: PrimitiveDictionaryDecoder<T, F>,
    out: DictionaryContent<T::T>,
    predicate: PrimitivePredicateDecoder<T, P, F>,
    answers: Seq<u8>,
    n: usize,
) where
    T: DataType,
    P: PrimitiveDictionaryPredicate,
    F: ColumnValueDecoder<Buffer = Vec<T::T>>,

    requires
        decoder.page() matches Some(MaybeDictionaryDecoder::Dict { .. }),
        decoder.values() is None,
        predicate.page() matches Some(PrimitivePredicateValueDecoder::Dict { .. }),
        predicate.mask() is None,
    ensures
        decoder.can_read(out, n),
        decoder.has_data(),
        predicate.can_read(answers, n),
        predicate.has_data(),
{
}

/// A read of answers that fails takes nothing away from those that are there, and adds none for
/// plain values.
pub proof fn law_failed_read_keeps_answers<T, P, F>(
    before: PrimitivePredicateDecoder<T, P, F>,
    out: Seq<u8>,
    n: usize,
    after: PrimitivePredicateDecoder<T, P, F>,
    out_after: Seq<u8>,
    r: Result<usize, ParquetError>,
) where
    T: DataType,
    P: PrimitiveDictionaryPredicate,
    F: ColumnValueDecoder<Buffer = Vec<T::T>>,

    requires
        PrimitivePredicateDecoder::<T, P, F>::reads(before, out, n, after, out_after, r),
        r is Err,
    ensures
        out.is_prefix_of(out_after),
        before.page() matches Some(PrimitivePredicateValueDecoder::Fallback(_)) ==> out_after
            == out,
{
    assert(out =~= out_after.take(out.len() as int));
}

/// A page that breaks off in a later run has the indices of the runs before it, and reading or
/// skipping more than these is an error.
pub proof fn law_index_page_breaks_off_for_predicate<T, P, F>(
    before: PrimitivePredicateDecoder<T, P, F>,
    encoding: Encoding,
    data: Bytes,
    num_levels: usize,
    num_values: Option<usize>,
    width: u8,
    runs: Seq<IndexRun>,
    times: nat,
    bytes: Seq<u8>,
    between: PrimitivePredicateDecoder<T, P, F>,
    set: Result<(), ParquetError>,
    out: Seq<u8>,
    n: usize,
    after: PrimitivePredicateDecoder<T, P, F>,
    out_after: Seq<u8>,
    r: Result<usize, ParquetError>,
) where
    T: DataType,
    P: PrimitiveDictionaryPredicate,
    F: ColumnValueDecoder<Buffer = Vec<T::T>>,

    requires
        encoding == Encoding::RLE_DICTIONARY || encoding == Encoding::PLAIN_DICTIONARY,
        before.mask() is Some,
        width <= 32,
        runs.len() > 0,
        runs_fit(runs, width as nat),
        1 <= times,
        2 * times <= u32::MAX,
        bytes.len() < (width + 7) / 8,
        bytes_content(data) == seq![width] + (runs_bytes(runs, width as nat) + (grouped(2 * times)
            + bytes)),
        PrimitivePredicateDecoder::<T, P, F>::sets_data(
            before,
            encoding,
            data,
            num_levels,
            num_values,
            between,
            set,
        ),
        PrimitivePredicateDecoder::<T, P, F>::reads(between, out, n, after, out_after, r)
            || PrimitivePredicateDecoder::<T, P, F>::skips(between, n, after, r),
    ensures
        set == Ok::<(), ParquetError>(()),
        ({
            let wanted = fewer(n as nat, page_count(num_levels, num_values));
            r == if wanted <= runs_xs(runs).len() {
                Ok::<usize, ParquetError>(wanted as usize)
            } else {
                Err(ParquetError::General(Reason::IndexData))
            }
        }),
{
    let rest = grouped(2 * times) + bytes;
    law_cut_repeated_run(times, bytes, width as nat);
    law_runs_are_read_back(runs, width as nat, rest);
    assert(bytes_content(data)[0] == width);
    assert(bytes_content(data).skip(1) =~= runs_bytes(runs, width as nat) + rest);
    assert(runs_xs(runs) + Seq::<u32>::empty() =~= runs_xs(runs));
}

} // verus!
