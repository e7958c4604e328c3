//! How often a predicate is asked.
use arrow_array::BooleanArray;
use bytes::Bytes;
use vstd::prelude::*;

use crate::arrow::{bytes_content, ArrowArray};
use crate::column::ColumnValueDecoder;
use crate::errors::{Encoding, ParquetError};
use crate::plain::plain_values;
use crate::predicate::{
    PrimitiveDictionaryPredicate, PrimitivePredicateDecoder, PrimitivePredicateValueDecoder,
};
use crate::reader::{PredicateRecords, PredicateState, PrimitivePredicateReader};
use crate::record_reader::{Levels, RecordState};
use crate::types::DataType;

verus! {

/// What is done with a decoder, or with the reader that has it.
pub enum Act {
    /// A dictionary is accepted.
    Dictionary,
    /// A data page is set, or refused.
    Page,
    /// Values are read.
    Read,
    /// Values are skipped, or cannot be.
    Skip,
    /// A batch is taken from the reader, or cannot be: the decoder has no part in it.
    Batch,
}

/// `after` is what doing `act` leaves of `before`.
pub open spec fn does<T, P, F>(
    act: Act,
    before: PrimitivePredicateDecoder<T, P, F>,
    after: PrimitivePredicateDecoder<T, P, F>,
) -> bool where
    T: DataType,
    P: PrimitiveDictionaryPredicate,
    F: ColumnValueDecoder<Buffer = Vec<T::T>>,
 {
    match act {
        Act::Dictionary => exists|buf: Bytes, num_values: u32, encoding: Encoding| #[trigger]
            PrimitivePredicateDecoder::<T, P, F>::sets_dict(
                before,
                buf,
                num_values,
                encoding,
                after,
                Ok(()),
            ),
        Act::Page => exists|
            encoding: Encoding,
            data: Bytes,
            num_levels: usize,
            num_values: Option<usize>,
            r: Result<(), ParquetError>,
        | #[trigger]
            PrimitivePredicateDecoder::<T, P, F>::sets_data(
                before,
                encoding,
                data,
                num_levels,
                num_values,
                after,
                r,
            ),
        Act::Read => exists|out: Seq<u8>, num_values: usize, out_after: Seq<u8>, read: usize|
         #[trigger]
            PrimitivePredicateDecoder::<T, P, F>::reads(
                before,
                out,
                num_values,
                after,
                out_after,
                Ok(read),
            ),
        Act::Skip => exists|num_values: usize, r: Result<usize, ParquetError>| #[trigger]
            PrimitivePredicateDecoder::<T, P, F>::skips(before, num_values, after, r),
        Act::Batch => after == before,
    }
}

/// How many questions an act takes: one for a dictionary, one for a read of plain values, none for
/// a read of indices.
pub open spec fn questions<T, P, F>(
    act: Act,
    before: PrimitivePredicateDecoder<T, P, F>,
) -> nat where T: DataType, P: PrimitiveDictionaryPredicate {
    match act {
        Act::Dictionary => 1,
        Act::Read => match before.page() {
            Some(PrimitivePredicateValueDecoder::Fallback(_)) => 1,
            _ => 0,
        },
        Act::Page | Act::Skip | Act::Batch => 0,
    }
}

/// How many questions the acts take that lead from one decoder of `trace` to the next.
pub open spec fn questions_in_all<T, P, F>(
    acts: Seq<Act>,
    trace: Seq<PrimitivePredicateDecoder<T, P, F>>,
) -> nat where T: DataType, P: PrimitiveDictionaryPredicate
    decreases acts.len(),
{
    if acts.len() == 0 {
        0
    } else {
        questions_in_all(acts.drop_last(), trace) + questions(
            acts.last(),
            trace[acts.len() - 1],
        )
    }
}

/// Each act leads from one decoder to the next.
pub open spec fn leads_through<T, P, F>(
    acts: Seq<Act>,
    trace: Seq<PrimitivePredicateDecoder<T, P, F>>,
) -> bool where
    T: DataType,
    P: PrimitiveDictionaryPredicate,
    F: ColumnValueDecoder<Buffer = Vec<T::T>>,
 {
    &&& trace.len() == acts.len() + 1
    &&& forall|i: int| 0 <= i < acts.len() ==> does(#[trigger] acts[i], trace[i], trace[i + 1])
}

/// The predicate was asked about one array more, and before that about the same ones.
pub open spec fn asked_once_more(before: Seq<ArrowArray>, after: Seq<ArrowArray>) -> bool {
    after.len() == before.len() + 1 && before.is_prefix_of(after)
}

/// A question that is answered is put once.
proof fn lemma_answered<T, P, F>(
    decoder: PrimitivePredicateDecoder<T, P, F>,
    values: Seq<T::T>,
    r: Result<BooleanArray, ParquetError>,
    log: Seq<ArrowArray>,
) where T: DataType, P: PrimitiveDictionaryPredicate
    requires
        decoder.asks(values, r, log),
        r is Ok,
    ensures
        asked_once_more(decoder.asked(), log),
        T::makes(values, decoder.values_type(), None, Ok(log.last())),
{
    let made = choose|made: Result<ArrowArray, ParquetError>| #[trigger]
        T::makes(values, decoder.values_type(), None, made) && match made {
            Ok(array) => log == decoder.asked().push(array),
            Err(e) => r == Err::<BooleanArray, ParquetError>(e),
        };
    assert(decoder.asked() =~= log.take(decoder.asked().len() as int));
}

/// The predicate is asked exactly once for a dictionary that is accepted, about an array of the
/// values of the dictionary.
pub proof fn law_dictionary_takes_one_question<T, P, F>(
    before: PrimitivePredicateDecoder<T, P, F>,
    buf: Bytes,
    num_values: u32,
    encoding: Encoding,
    after: PrimitivePredicateDecoder<T, P, F>,
) where
    T: DataType,
    P: PrimitiveDictionaryPredicate,
    F: ColumnValueDecoder<Buffer = Vec<T::T>>,

    requires
        PrimitivePredicateDecoder::<T, P, F>::sets_dict(
            before,
            buf,
            num_values,
            encoding,
            after,
            Ok(()),
        ),
    ensures
        asked_once_more(before.asked(), after.asked()),
        T::makes(
            plain_values::<T>(bytes_content(buf), num_values as nat),
            before.values_type(),
            None,
            Ok(after.asked().last()),
        ),
{
    let values = plain_values::<T>(bytes_content(buf), num_values as nat);
    let answer = choose|answer: Result<BooleanArray, ParquetError>| #[trigger]
        before.asks(values, answer, after.asked()) && before.keeps_mask(
            PrimitivePredicateDecoder::<T, P, F>::dictionary_outcome(answer, num_values as nat),
            after,
            Ok(()),
        );
    lemma_answered(before, values, answer, after.asked());
}

/// The predicate is asked exactly once for a read of plain values, about an array of the values
/// that were read, and not at all for a read of indices.
pub proof fn law_questions_of_a_read<T, P, F>(
    before: PrimitivePredicateDecoder<T, P, F>,
    out: Seq<u8>,
    num_values: usize,
    after: PrimitivePredicateDecoder<T, P, F>,
    out_after: Seq<u8>,
    read: usize,
) where
    T: DataType,
    P: PrimitiveDictionaryPredicate,
    F: ColumnValueDecoder<Buffer = Vec<T::T>>,

    requires
        PrimitivePredicateDecoder::<T, P, F>::reads(
            before,
            out,
            num_values,
            after,
            out_after,
            Ok(read),
        ),
    ensures
        match before.page() {
            Some(PrimitivePredicateValueDecoder::Fallback(fallback)) => {
                &&& asked_once_more(before.asked(), after.asked())
                &&& exists|next: F, values: Seq<T::T>|
                    {
                        &&& #[trigger] F::reads(
                            fallback,
                            Seq::empty(),
                            num_values,
                            next,
                            values,
                            Ok(read),
                        )
                        &&& T::makes(
                            values,
                            before.values_type(),
                            None,
                            Ok(after.asked().last()),
                        )
                    }
            },
            _ => after.asked() == before.asked(),
        },
{
    if let Some(PrimitivePredicateValueDecoder::Fallback(fallback)) = before.page() {
        let none = Seq::<T::T>::empty();
        let (next, values, got) = choose|
            next: F,
            values: Seq<T::T>,
            got: Result<usize, ParquetError>,
        |
            {
                &&& #[trigger] F::reads(fallback, none, num_values, next, values, got)
                &&& got == Ok::<usize, ParquetError>(read)
                &&& exists|answer: Result<BooleanArray, ParquetError>| #[trigger]
                    before.asks(values, answer, after.asked()) && answer is Ok
            };
        let answer = choose|answer: Result<BooleanArray, ParquetError>| #[trigger]
            before.asks(values, answer, after.asked()) && answer is Ok;
        lemma_answered(before, values, answer, after.asked());
    }
}

proof fn lemma_act<T, P, F>(
    act: Act,
    before: PrimitivePredicateDecoder<T, P, F>,
    after: PrimitivePredicateDecoder<T, P, F>,
) where
    T: DataType,
    P: PrimitiveDictionaryPredicate,
    F: ColumnValueDecoder<Buffer = Vec<T::T>>,

    requires
        does(act, before, after),
    ensures
        after.asked().len() == before.asked().len() + questions(act, before),
        before.asked().is_prefix_of(after.asked()),
{
    match act {
        Act::Dictionary => {
            let (buf, num_values, encoding) = choose|
                buf: Bytes,
                num_values: u32,
                encoding: Encoding,
            | #[trigger]
                PrimitivePredicateDecoder::<T, P, F>::sets_dict(
                    before,
                    buf,
                    num_values,
                    encoding,
                    after,
                    Ok(()),
                );
            law_dictionary_takes_one_question(before, buf, num_values, encoding, after);
        },
        Act::Read => {
            let (out, num_values, out_after, read) = choose|
                out: Seq<u8>,
                num_values: usize,
                out_after: Seq<u8>,
                read: usize,
            | #[trigger]
                PrimitivePredicateDecoder::<T, P, F>::reads(
                    before,
                    out,
                    num_values,
                    after,
                    out_after,
                    Ok(read),
                );
            law_questions_of_a_read(before, out, num_values, after, out_after, read);
        },
        Act::Page | Act::Skip => {},
        Act::Batch => {
            assert(before.asked() =~= before.asked().take(before.asked().len() as int));
        },
    }
}

/// Whatever is done with a decoder, the predicate is asked once for each dictionary and once for
/// each read of plain values, and nothing else.
pub proof fn law_questions_are_counted<T, P, F>(
    acts: Seq<Act>,
    trace: Seq<PrimitivePredicateDecoder<T, P, F>>,
) where
    T: DataType,
    P: PrimitiveDictionaryPredicate,
    F: ColumnValueDecoder<Buffer = Vec<T::T>>,

    requires
        leads_through(acts, trace),
    ensures
        trace.last().asked().len() == trace[0].asked().len() + questions_in_all(acts, trace),
        trace[0].asked().is_prefix_of(trace.last().asked()),
    decreases acts.len(),
{
    if acts.len() > 0 {
        let n = acts.len() - 1;
        let before = trace.take(n + 1);
        assert forall|i: int| 0 <= i < acts.drop_last().len() implies does(
            #[trigger] acts.drop_last()[i],
            before[i],
            before[i + 1],
        ) by {
            assert(does(acts[i], trace[i], trace[i + 1]));
        }
        law_questions_are_counted(acts.drop_last(), before);
        lemma_same_questions(acts.drop_last(), before, trace);
        assert(does(acts[n], trace[n], trace[n + 1]));
        lemma_act(acts[n], trace[n], trace[n + 1]);
        let (a, b, c) = (trace[0].asked(), trace[n].asked(), trace[n + 1].asked());
        assert(a =~= c.take(a.len() as int)) by {
            assert(b == c.take(b.len() as int));
            assert(a == b.take(a.len() as int));
        }
    } else {
        assert(trace[0].asked() =~= trace[0].asked().take(trace[0].asked().len() as int));
    }
}

proof fn lemma_same_questions<T, P, F>(
    acts: Seq<Act>,
    trace: Seq<PrimitivePredicateDecoder<T, P, F>>,
    other: Seq<PrimitivePredicateDecoder<T, P, F>>,
) where T: DataType, P: PrimitiveDictionaryPredicate
    requires
        forall|i: int| 0 <= i < acts.len() ==> #[trigger] trace[i] == other[i],
    ensures
        questions_in_all(acts, trace) == questions_in_all(acts, other),
    decreases acts.len(),
{
    if acts.len() > 0 {
        lemma_same_questions(acts.drop_last(), trace, other);
        assert(trace[acts.len() - 1] == other[acts.len() - 1]);
    }
}

/// A column chunk that is read through its dictionary takes one question in all: after the
/// dictionary has been accepted, pages of indices, reads of them and skips ask nothing.
pub proof fn law_one_question_per_dictionary<T, P, F>(
    acts: Seq<Act>,
    trace: Seq<PrimitivePredicateDecoder<T, P, F>>,
) where
    T: DataType,
    P: PrimitiveDictionaryPredicate,
    F: ColumnValueDecoder<Buffer = Vec<T::T>>,

    requires
        leads_through(acts, trace),
        acts.len() > 0,
        acts[0] is Dictionary,
        forall|i: int| 0 < i < acts.len() ==> !(#[trigger] acts[i] is Dictionary),
        forall|i: int|
            0 < i < acts.len() && acts[i] is Read ==> (#[trigger] trace[i]).page() matches Some(
                PrimitivePredicateValueDecoder::Dict { .. },
            ),
    ensures
        trace.last().asked().len() == trace[0].asked().len() + 1,
{
    law_questions_are_counted(acts, trace);
    lemma_first_question(acts, trace);
}

proof fn lemma_first_question<T, P, F>(
    acts: Seq<Act>,
    trace: Seq<PrimitivePredicateDecoder<T, P, F>>,
) where T: DataType, P: PrimitiveDictionaryPredicate
    requires
        acts.len() > 0,
        acts[0] is Dictionary,
        forall|i: int| 0 < i < acts.len() ==> questions(#[trigger] acts[i], trace[i]) == 0,
    ensures
        questions_in_all(acts, trace) == 1,
    decreases acts.len(),
{
    if acts.len() > 1 {
        let front = acts.drop_last();
        assert forall|i: int| 0 < i < front.len() implies questions(#[trigger] front[i], trace[i])
            == 0 by {
            assert(front[i] == acts[i]);
        }
        lemma_first_question(front, trace);
        assert(questions(acts[acts.len() - 1], trace[acts.len() - 1]) == 0);
    } else {
        assert(questions_in_all(acts.drop_last(), trace) == 0);
    }
}

/// `after` is what doing `act` with a reader leaves of `before`.
pub open spec fn reader_does<T, P, F>(
    act: Act,
    before: PredicateState<T, P, F>,
    after: PredicateState<T, P, F>,
) -> bool where
    T: DataType,
    P: PrimitiveDictionaryPredicate,
    F: ColumnValueDecoder<Buffer = Vec<T::T>>,
 {
    before.decoder is Some && match act {
        Act::Dictionary | Act::Page => exists|next: PrimitivePredicateDecoder<T, P, F>| #[trigger]
            does(act, before.decoder->0, next) && after == (RecordState {
                decoder: Some(next),
                ..before
            }),
        Act::Read => exists|levels: Levels, records: usize| #[trigger]
            PredicateRecords::<T, P, F>::reads_rows(before, levels, after, Ok(records)),
        Act::Skip => exists|levels: Levels, r: Result<usize, ParquetError>| #[trigger]
            PredicateRecords::<T, P, F>::skips_rows(before, levels, after, r),
        Act::Batch => exists|r: Result<BooleanArray, ParquetError>| #[trigger]
            PrimitivePredicateReader::<T, P, F>::gives_batch(before, after, r),
    }
}

/// What is done with a reader is done with its decoder: rows are read by one read of their values
/// and passed over by one skip.
pub proof fn law_reader_acts_on_its_decoder<T, P, F>(
    act: Act,
    before: PredicateState<T, P, F>,
    after: PredicateState<T, P, F>,
) where
    T: DataType,
    P: PrimitiveDictionaryPredicate,
    F: ColumnValueDecoder<Buffer = Vec<T::T>>,

    requires
        reader_does(act, before, after),
    ensures
        after.decoder is Some,
        does(act, before.decoder->0, after.decoder->0),
{
}

/// A reader of a column chunk asks the predicate once for the dictionary and never again, however
/// many pages of indices it is given, however often rows are read from them or passed over, and
/// however many batches are taken.
pub proof fn law_reader_asks_once_per_dictionary<T, P, F>(
    acts: Seq<Act>,
    trace: Seq<PredicateState<T, P, F>>,
) where
    T: DataType,
    P: PrimitiveDictionaryPredicate,
    F: ColumnValueDecoder<Buffer = Vec<T::T>>,

    requires
        trace.len() == acts.len() + 1,
        forall|i: int|
            0 <= i < acts.len() ==> reader_does(#[trigger] acts[i], trace[i], trace[i + 1]),
        acts.len() > 0,
        acts[0] is Dictionary,
        forall|i: int| 0 < i < acts.len() ==> !(#[trigger] acts[i] is Dictionary),
        forall|i: int|
            0 < i < acts.len() && acts[i] is Read
                ==> (#[trigger] trace[i]).decoder->0.page() matches Some(
                PrimitivePredicateValueDecoder::Dict { .. },
            ),
    ensures
        trace.last().decoder is Some,
        trace.last().decoder->0.asked().len() == trace[0].decoder->0.asked().len() + 1,
{
    let decoders = trace.map_values(|state: PredicateState<T, P, F>| state.decoder->0);
    assert forall|i: int| 0 <= i < acts.len() implies does(
        #[trigger] acts[i],
        decoders[i],
        decoders[i + 1],
    ) by {
        law_reader_acts_on_its_decoder(acts[i], trace[i], trace[i + 1]);
    }
    let n = acts.len() - 1;
    law_reader_acts_on_its_decoder(acts[n], trace[n], trace[n + 1]);
    assert forall|i: int| 0 < i < acts.len() && acts[i] is Read implies (
    #[trigger] decoders[i]).page() matches Some(PrimitivePredicateValueDecoder::Dict { .. }) by {
        assert(decoders[i] == trace[i].decoder->0);
    }
    law_one_question_per_dictionary(acts, decoders);
}

} // verus!
