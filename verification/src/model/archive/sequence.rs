//! The archived form of a sequence: a header of offset and length that points
//! at the headers of the elements, which lie side by side.

use super::adapter::{holds, lemma_holds_concat, lemma_holds_part, ArchiveWith};
use super::error::{DecodeError, EncodeError};
use super::layout::{
    align_up, get_i32, get_u32, i32_at, i32_le, lemma_i32_le, lemma_padding, lemma_u32_le, padding,
    padding_for, put_i32, put_u32, put_zeros, u32_at, u32_le, zeros, MAX_ARCHIVE_LEN,
};
use super::map::MapWith;
use super::root::{archived, decode_root, lemma_archive_round_trip};
use vstd::pervasive::unreached;
use vstd::prelude::*;

verus! {

broadcast use vstd::slice::group_slice_axioms;

/// Where the headers of the elements of a sequence went.
#[derive(Debug, Clone, Copy, PartialEq, Eq, Structural)]
pub struct VecResolver {
    /// The position of the header of the first element.
    pub pos: usize,
}

/// The bytes that serializing the elements `elems` one after another appends
/// to a buffer of length `start`.
pub open spec fn elems_payload<A: ArchiveWith<O>, O: DeepView>(
    elems: Seq<O::V>,
    start: int,
) -> Seq<u8>
    decreases elems.len(),
{
    if elems.len() == 0 {
        Seq::empty()
    } else {
        let before = elems_payload::<A, O>(elems.drop_last(), start);
        before + A::payload(elems.last(), start + before.len())
    }
}

/// The length of the buffer when element `i` of `elems` is serialized.
#[verifier::opaque]
pub open spec fn elem_start<A: ArchiveWith<O>, O: DeepView>(
    elems: Seq<O::V>,
    start: int,
    i: int,
) -> int {
    start + elems_payload::<A, O>(elems.take(i), start).len()
}

/// The header of element `i` of `elems`, where the headers start at `array`.
pub open spec fn elem_header<A: ArchiveWith<O>, O: DeepView>(
    elems: Seq<O::V>,
    start: int,
    array: int,
    i: int,
) -> Seq<u8> {
    A::header(
        elems[i],
        array + i * A::size(),
        A::resolver(elems[i], elem_start::<A, O>(elems, start, i)),
    )
}

/// The headers of the first `count` elements of `elems`, side by side.
pub open spec fn elems_headers<A: ArchiveWith<O>, O: DeepView>(
    elems: Seq<O::V>,
    start: int,
    array: int,
    count: int,
) -> Seq<u8>
    decreases count,
{
    if count <= 0 {
        Seq::empty()
    } else {
        elems_headers::<A, O>(elems, start, array, count - 1) + elem_header::<A, O>(
            elems,
            start,
            array,
            count - 1,
        )
    }
}

/// The position of the header of the first element, once `elems` has been
/// serialized into a buffer of length `start`.
pub open spec fn array_pos<A: ArchiveWith<O>, O: DeepView>(elems: Seq<O::V>, start: int) -> int {
    align_up(start + elems_payload::<A, O>(elems, start).len(), A::align() as int)
}

/// The payload of a sequence: the payloads of its elements in order, zero
/// bytes up to the alignment of an element header, then the element headers
/// in order.
pub open spec fn seq_payload<A: ArchiveWith<O>, O: DeepView>(elems: Seq<O::V>, start: int) -> Seq<
    u8,
> {
    let body = elems_payload::<A, O>(elems, start);
    let pad = padding(start + body.len(), A::align() as int);
    body + zeros(pad) + elems_headers::<A, O>(
        elems,
        start,
        start + body.len() + pad,
        elems.len() as int,
    )
}

/// The header of a sequence for position `pos`: the distance from the header
/// to the header of the first element, then the number of elements.
pub open spec fn seq_header(len: nat, pos: int, resolver: VecResolver) -> Seq<u8> {
    i32_le((resolver.pos - pos) as i32) + u32_le(len as u32)
}

/// What reading `count` element headers from position `array` on gives: the
/// elements in order, or the error of the first that cannot be read.
pub open spec fn decode_elems<A: ArchiveWith<O>, O: DeepView>(
    buf: Seq<u8>,
    array: int,
    count: int,
) -> Result<Seq<O::V>, DecodeError>
    decreases count,
{
    if count <= 0 {
        Ok(Seq::empty())
    } else {
        match decode_elems::<A, O>(buf, array, count - 1) {
            Err(e) => Err(e),
            Ok(before) => match A::decode(buf, array + (count - 1) * A::size()) {
                Err(e) => Err(e),
                Ok(value) => Ok(before.push(value)),
            },
        }
    }
}

/// Where the element headers of an archived sequence lie.
#[derive(Debug, Clone, Copy, PartialEq, Eq, Structural)]
pub struct SeqSpan {
    /// The position of the header of the first element.
    pub array: usize,
    /// The number of elements.
    pub count: usize,
    /// The distance from one element header to the next; 0 where there is
    /// no element.
    pub stride: usize,
}

/// The span that the sequence header at position `pos` of `buf` describes,
/// or `CorruptLength` where the header or the span does not lie within
/// `buf`.
pub open spec fn seq_span<A: ArchiveWith<O>, O: DeepView>(buf: Seq<u8>, pos: int) -> Result<
    SeqSpan,
    DecodeError,
> {
    if pos < 0 || pos + 8 > buf.len() {
        Err(DecodeError::CorruptLength)
    } else {
        let array = pos + i32_at(buf, pos);
        let count = u32_at(buf, pos + 4) as int;
        if array < 0 || array + count * A::size() > buf.len() {
            Err(DecodeError::CorruptLength)
        } else {
            Ok(
                SeqSpan {
                    array: array as usize,
                    count: count as usize,
                    stride: if count == 0 {
                        0
                    } else {
                        A::size() as usize
                    },
                },
            )
        }
    }
}

/// The sequence whose header is at position `pos` of `buf`.
///
/// `CorruptLength` where the header or the element headers it describes do
/// not lie within `buf`; else the error of the first element that cannot be
/// read.
pub open spec fn decode_seq<A: ArchiveWith<O>, O: DeepView>(buf: Seq<u8>, pos: int) -> Result<
    Seq<O::V>,
    DecodeError,
> {
    match seq_span::<A, O>(buf, pos) {
        Err(e) => Err(e),
        Ok(span) => decode_elems::<A, O>(buf, span.array as int, span.count as int),
    }
}

/// Serializing one more element appends its payload.
pub proof fn lemma_elems_payload_step<A: ArchiveWith<O>, O: DeepView>(
    elems: Seq<O::V>,
    start: int,
    i: int,
)
    requires
        0 <= i < elems.len(),
    ensures
        elems_payload::<A, O>(elems.take(i + 1), start) == elems_payload::<A, O>(
            elems.take(i),
            start,
        ) + A::payload(elems[i], elem_start::<A, O>(elems, start, i)),
{
    reveal(elem_start);
    assert(elems.take(i + 1).drop_last() =~= elems.take(i));
    assert(elems.take(i + 1).last() == elems[i]);
}

/// The payloads of the elements hold the payload of each element, at the
/// place where that element was serialized.
pub proof fn lemma_elem_payload_held<A: ArchiveWith<O>, O: DeepView>(
    elems: Seq<O::V>,
    start: int,
    i: int,
)
    requires
        0 <= i < elems.len(),
    ensures
        holds(
            elems_payload::<A, O>(elems, start),
            elem_start::<A, O>(elems, start, i) - start,
            A::payload(elems[i], elem_start::<A, O>(elems, start, i)),
        ),
    decreases elems.len(),
{
    reveal(elem_start);
    let init = elems.drop_last();
    let before = elems_payload::<A, O>(init, start);
    let last = A::payload(elems.last(), start + before.len());
    lemma_holds_concat(before, last);
    if i == elems.len() - 1 {
        assert(elems.take(i) =~= init);
    } else {
        lemma_elem_payload_held::<A, O>(init, start, i);
        assert(init.take(i) =~= elems.take(i));
        lemma_holds_part(
            before + last,
            0,
            before,
            elem_start::<A, O>(elems, start, i) - start,
            A::payload(elems[i], elem_start::<A, O>(elems, start, i)),
        );
    }
}

/// The payloads of the first elements are no longer than those of all.
pub proof fn lemma_elems_payload_grows<A: ArchiveWith<O>, O: DeepView>(
    elems: Seq<O::V>,
    start: int,
    i: int,
)
    requires
        0 <= i <= elems.len(),
    ensures
        elems_payload::<A, O>(elems.take(i), start).len() <= elems_payload::<A, O>(
            elems,
            start,
        ).len(),
    decreases elems.len() - i,
{
    if i == elems.len() {
        assert(elems.take(i) =~= elems);
    } else {
        lemma_elems_payload_step::<A, O>(elems, start, i);
        lemma_elems_payload_grows::<A, O>(elems, start, i + 1);
    }
}

/// `count` headers side by side take `count` times the size of one.
pub proof fn lemma_elems_headers_len<A: ArchiveWith<O>, O: DeepView>(
    elems: Seq<O::V>,
    start: int,
    array: int,
    count: int,
)
    requires
        0 <= count,
    ensures
        elems_headers::<A, O>(elems, start, array, count).len() == count * A::size(),
    decreases count,
{
    if count > 0 {
        lemma_elems_headers_len::<A, O>(elems, start, array, count - 1);
        A::lemma_header_len(
            elems[count - 1],
            array + (count - 1) * A::size(),
            A::resolver(elems[count - 1], elem_start::<A, O>(elems, start, count - 1)),
        );
        assert((count - 1) * A::size() + A::size() == count * A::size()) by (nonlinear_arith);
    } else {
        assert(0 * A::size() == 0);
    }
}

/// The headers of the first `count` elements hold the header of each of them,
/// at its place in the array.
pub proof fn lemma_elem_header_held<A: ArchiveWith<O>, O: DeepView>(
    elems: Seq<O::V>,
    start: int,
    array: int,
    count: int,
    i: int,
)
    requires
        0 <= i < count,
    ensures
        holds(
            elems_headers::<A, O>(elems, start, array, count),
            i * A::size(),
            elem_header::<A, O>(elems, start, array, i),
        ),
    decreases count,
{
    let before = elems_headers::<A, O>(elems, start, array, count - 1);
    let last = elem_header::<A, O>(elems, start, array, count - 1);
    lemma_holds_concat(before, last);
    lemma_elems_headers_len::<A, O>(elems, start, array, count - 1);
    if i < count - 1 {
        lemma_elem_header_held::<A, O>(elems, start, array, count - 1, i);
        lemma_holds_part(
            before + last,
            0,
            before,
            i * A::size(),
            elem_header::<A, O>(elems, start, array, i),
        );
    }
}

/// The payload of a sequence reaches from where serializing began to the end
/// of the element headers.
pub proof fn lemma_seq_payload_len<A: ArchiveWith<O>, O: DeepView>(elems: Seq<O::V>, start: int)
    requires
        0 <= start,
    ensures
        seq_payload::<A, O>(elems, start).len() == array_pos::<A, O>(elems, start) - start
            + elems.len() * A::size(),
        start + elems_payload::<A, O>(elems, start).len() <= array_pos::<A, O>(elems, start),
        array_pos::<A, O>(elems, start) % (A::align() as int) == 0,
        elems.len() <= elems.len() * A::size(),
{
    let body = elems_payload::<A, O>(elems, start);
    let pad = padding(start + body.len(), A::align() as int);
    A::lemma_layout();
    lemma_padding(start + body.len(), A::align() as int);
    lemma_elems_headers_len::<A, O>(elems, start, start + body.len() + pad, elems.len() as int);
    assert(elems.len() <= elems.len() * A::size()) by (nonlinear_arith)
        requires
            1 <= A::size(),
    ;
}

/// A buffer that holds the payload of a sequence holds the payloads of the
/// elements where they were serialized, and the element headers at the
/// position that the resolver names.
pub proof fn lemma_seq_payload_parts<A: ArchiveWith<O>, O: DeepView>(
    elems: Seq<O::V>,
    start: int,
    buf: Seq<u8>,
)
    requires
        holds(buf, start, seq_payload::<A, O>(elems, start)),
    ensures
        holds(buf, start, elems_payload::<A, O>(elems, start)),
        holds(
            buf,
            array_pos::<A, O>(elems, start),
            elems_headers::<A, O>(
                elems,
                start,
                array_pos::<A, O>(elems, start),
                elems.len() as int,
            ),
        ),
{
    let body = elems_payload::<A, O>(elems, start);
    let pad = padding(start + body.len(), A::align() as int);
    let array = start + body.len() + pad;
    let headers = elems_headers::<A, O>(elems, start, array, elems.len() as int);
    lemma_seq_payload_len::<A, O>(elems, start);
    lemma_holds_concat(body + zeros(pad), headers);
    lemma_holds_concat(body, zeros(pad));
    lemma_holds_part(body + zeros(pad) + headers, 0, body + zeros(pad), 0, body);
    lemma_holds_part(buf, start, body + zeros(pad) + headers, 0, body);
    lemma_holds_part(
        buf,
        start,
        body + zeros(pad) + headers,
        (body + zeros(pad)).len() as int,
        headers,
    );
}

/// Reading the first `count` element headers of an archived sequence gives
/// its first `count` elements.
pub proof fn lemma_decode_elems_round_trip<A: ArchiveWith<O>, O: DeepView>(
    elems: Seq<O::V>,
    start: int,
    buf: Seq<u8>,
    count: int,
)
    requires
        forall|i: int| 0 <= i < elems.len() ==> A::valid(#[trigger] elems[i]),
        buf.len() <= MAX_ARCHIVE_LEN,
        holds(buf, start, seq_payload::<A, O>(elems, start)),
        0 <= count <= elems.len(),
    ensures
        decode_elems::<A, O>(buf, array_pos::<A, O>(elems, start), count) == Ok::<
            Seq<O::V>,
            DecodeError,
        >(elems.take(count)),
    decreases count,
{
    if count == 0 {
        assert(elems.take(0) =~= Seq::<O::V>::empty());
    } else {
        let i = count - 1;
        let array = array_pos::<A, O>(elems, start);
        let at = elem_start::<A, O>(elems, start, i);
        lemma_decode_elems_round_trip::<A, O>(elems, start, buf, i);
        lemma_seq_payload_parts::<A, O>(elems, start, buf);
        lemma_elem_payload_held::<A, O>(elems, start, i);
        lemma_holds_part(
            buf,
            start,
            elems_payload::<A, O>(elems, start),
            at - start,
            A::payload(elems[i], at),
        );
        lemma_elem_header_held::<A, O>(elems, start, array, elems.len() as int, i);
        lemma_holds_part(
            buf,
            array,
            elems_headers::<A, O>(elems, start, array, elems.len() as int),
            i * A::size(),
            elem_header::<A, O>(elems, start, array, i),
        );
        A::lemma_round_trip(elems[i], at, array + i * A::size(), buf);
        assert(elems.take(count) =~= elems.take(i).push(elems[i]));
    }
}

/// Once an element cannot be read, reading further elements gives its error.
pub proof fn lemma_decode_elems_fails<A: ArchiveWith<O>, O: DeepView>(
    buf: Seq<u8>,
    array: int,
    failed: int,
    count: int,
)
    requires
        failed <= count,
        decode_elems::<A, O>(buf, array, failed) is Err,
    ensures
        decode_elems::<A, O>(buf, array, count) == decode_elems::<A, O>(buf, array, failed),
    decreases count - failed,
{
    if failed < count {
        lemma_decode_elems_fails::<A, O>(buf, array, failed, count - 1);
    }
}

/// Reading `count` elements gives `count` elements.
pub proof fn lemma_decode_elems_len<A: ArchiveWith<O>, O: DeepView>(
    buf: Seq<u8>,
    array: int,
    count: int,
)
    requires
        0 <= count,
        decode_elems::<A, O>(buf, array, count) is Ok,
    ensures
        decode_elems::<A, O>(buf, array, count).unwrap().len() == count,
    decreases count,
{
    if count > 0 {
        lemma_decode_elems_len::<A, O>(buf, array, count - 1);
    }
}

/// Reading one element in place gives the element that reading the whole
/// sequence gives at its index.
pub proof fn lemma_decode_elems_index<A: ArchiveWith<O>, O: DeepView>(
    buf: Seq<u8>,
    array: int,
    count: int,
    index: int,
)
    requires
        0 <= index < count,
        decode_elems::<A, O>(buf, array, count) is Ok,
    ensures
        decode_elems::<A, O>(buf, array, count).unwrap().len() == count,
        A::decode(buf, array + index * A::size()) == Ok::<O::V, DecodeError>(
            decode_elems::<A, O>(buf, array, count).unwrap()[index],
        ),
    decreases count,
{
    lemma_decode_elems_len::<A, O>(buf, array, count);
    lemma_decode_elems_len::<A, O>(buf, array, count - 1);
    if index < count - 1 {
        lemma_decode_elems_index::<A, O>(buf, array, count - 1, index);
    }
}

/// Order and length survive: reading the archive of a sequence gives a
/// sequence of the same length with the same element at every index. This
/// holds of the empty sequence too.
pub proof fn lemma_sequence_round_trip<A: ArchiveWith<O>, O: DeepView>(elems: Seq<O::V>)
    requires
        forall|i: int| 0 <= i < elems.len() ==> A::valid(#[trigger] elems[i]),
        archived::<MapWith<A>, Vec<O>>(elems).len() <= MAX_ARCHIVE_LEN,
    ensures
        decode_root::<MapWith<A>, Vec<O>>(archived::<MapWith<A>, Vec<O>>(elems)) matches Ok(read)
            && read.len() == elems.len() && forall|i: int|
            0 <= i < elems.len() ==> read[i] == elems[i],
{
    lemma_archive_round_trip::<MapWith<A>, Vec<O>>(elems);
}

/// Serializes the elements of `field` in order and returns their resolvers.
/// Fails, and leaves `buf` as it was, exactly when an element does not fit.
fn serialize_elems<A: ArchiveWith<O>, O: DeepView>(field: &Vec<O>, buf: &mut Vec<u8>) -> (r: Result<
    Vec<A::Resolver>,
    EncodeError,
>)
    requires
        old(buf)@.len() <= MAX_ARCHIVE_LEN,
    ensures
        match r {
            Ok(resolvers) => {
                &&& final(buf)@ == old(buf)@ + elems_payload::<A, O>(
                    field.deep_view(),
                    old(buf)@.len() as int,
                )
                &&& final(buf)@.len() <= MAX_ARCHIVE_LEN
                &&& resolvers@.len() == field@.len()
                &&& forall|j: int|
                    0 <= j < field@.len() ==> {
                        &&& A::valid(#[trigger] field.deep_view()[j])
                        &&& A::paired(field.deep_view()[j], resolvers@[j])
                        &&& resolvers@[j] == A::resolver(
                            field.deep_view()[j],
                            elem_start::<A, O>(field.deep_view(), old(buf)@.len() as int, j),
                        )
                    }
            },
            Err(e) => {
                &&& final(buf)@ == old(buf)@
                &&& old(buf)@.len() + elems_payload::<A, O>(
                    field.deep_view(),
                    old(buf)@.len() as int,
                ).len() > MAX_ARCHIVE_LEN
            },
        },
{
    let ghost elems = field.deep_view();
    let ghost before = buf@;
    let start: usize = buf.len();
    let count: usize = field.len();
    let mut resolvers: Vec<A::Resolver> = Vec::new();
    let mut i: usize = 0;
    proof {
        assert(elems.take(0) =~= Seq::<O::V>::empty());
        assert(buf@ =~= before + elems_payload::<A, O>(elems.take(0), start as int));
    }
    while i < count
        invariant
            i <= count,
            count == field@.len(),
            count == elems.len(),
            elems == field.deep_view(),
            before == old(buf)@,
            start == before.len(),
            buf@ == before + elems_payload::<A, O>(elems.take(i as int), start as int),
            buf@.len() <= MAX_ARCHIVE_LEN,
            resolvers@.len() == i,
            forall|j: int|
                0 <= j < i ==> {
                    &&& A::valid(#[trigger] elems[j])
                    &&& A::paired(elems[j], resolvers@[j])
                    &&& resolvers@[j] == A::resolver(
                        elems[j],
                        elem_start::<A, O>(elems, start as int, j),
                    )
                },
        decreases count - i,
    {
        let ghost sofar = elems_payload::<A, O>(elems.take(i as int), start as int);
        let ghost next = A::payload(elems[i as int], start + sofar.len());
        proof {
            reveal(elem_start);
            lemma_elems_payload_step::<A, O>(elems, start as int, i as int);
            lemma_elems_payload_grows::<A, O>(elems, start as int, i + 1);
            assert(field@[i as int].deep_view() == elems[i as int]);
            assert((before + sofar).len() == start + sofar.len());
            assert((sofar + next).len() == sofar.len() + next.len());
        }
        match A::serialize_with(&field[i], buf) {
            Ok(resolver) => {
                resolvers.push(resolver);
                assert(buf@ =~= before + (sofar + next));
            },
            Err(e) => {
                buf.truncate(start);
                assert(buf@ =~= before);
                return Err(e);
            },
        }
        i += 1;
    }
    proof {
        assert(elems.take(count as int) =~= elems);
    }
    Ok(resolvers)
}

/// Reads in place the sequence header at position `pos` of `buf`. Element
/// `i` of the sequence has its header at `array + i * stride`.
pub fn archived_seq<A: ArchiveWith<O>, O: DeepView>(buf: &[u8], pos: usize) -> (r: Result<
    SeqSpan,
    DecodeError,
>)
    ensures
        r == seq_span::<A, O>(buf@, pos as int),
        r matches Ok(span) ==> {
            &&& span.array + span.count * A::size() <= buf@.len() <= usize::MAX
            &&& span.count > 0 ==> span.stride == A::size()
        },
{
    if buf.len() < 8 || pos > buf.len() - 8 {
        return Err(DecodeError::CorruptLength);
    }
    let offset: i32 = get_i32(buf, pos);
    let count: u32 = get_u32(buf, pos + 4);
    let target: i128 = pos as i128 + offset as i128;
    if target < 0 || target > buf.len() as i128 {
        proof {
            assert(0 <= count * A::size()) by (nonlinear_arith);
        }
        return Err(DecodeError::CorruptLength);
    }
    let array: usize = target as usize;
    let room: usize = buf.len() - array;
    proof {
        A::lemma_layout();
        assert(0 * A::size() == 0);
    }
    if count == 0 {
        return Ok(SeqSpan { array, count: 0, stride: 0 });
    }
    match A::header_size() {
        None => {
            proof {
                assert(count * A::size() >= A::size()) by (nonlinear_arith)
                    requires
                        count >= 1,
                ;
            }
            Err(DecodeError::CorruptLength)
        },
        Some(size) => {
            if size > room || count as usize > room / size {
                proof {
                    assert(count * size > room) by (nonlinear_arith)
                        requires
                            size > room || count > (room as int) / (size as int),
                            count >= 1,
                            size >= 1,
                            room >= 0,
                    ;
                }
                Err(DecodeError::CorruptLength)
            } else {
                proof {
                    assert(count * size <= room) by (nonlinear_arith)
                        requires
                            count <= (room as int) / (size as int),
                            size >= 1,
                            room >= 0,
                    ;
                }
                Ok(SeqSpan { array, count: count as usize, stride: size })
            }
        },
    }
}

/// Turns `resolvers` round, so that popping hands them out first to last.
fn reversed<R>(resolvers: Vec<R>) -> (r: Vec<R>)
    ensures
        r@.len() == resolvers@.len(),
        forall|j: int| 0 <= j < r@.len() ==> #[trigger] r@[j] == resolvers@[r@.len() - 1 - j],
{
    let ghost all = resolvers@;
    let mut rest = resolvers;
    let mut stack: Vec<R> = Vec::new();
    while rest.len() > 0
        invariant
            rest@.len() + stack@.len() == all.len(),
            rest@ == all.subrange(0, rest@.len() as int),
            forall|j: int| 0 <= j < stack@.len() ==> #[trigger] stack@[j] == all[all.len() - 1 - j],
        decreases rest@.len(),
    {
        match rest.pop() {
            Some(resolver) => {
                stack.push(resolver);
            },
            None => unreached(),
        }
    }
    stack
}

/// Appends the headers of the elements of `field` in order, each resolved for
/// the position it is written at. Every resolver is used once.
fn resolve_elems<A: ArchiveWith<O>, O: DeepView>(
    field: &Vec<O>,
    resolvers: Vec<A::Resolver>,
    buf: &mut Vec<u8>,
    Ghost(start): Ghost<int>,
)
    requires
        resolvers@.len() == field@.len(),
        old(buf)@.len() + field@.len() * A::size() <= MAX_ARCHIVE_LEN,
        forall|j: int|
            0 <= j < field@.len() ==> {
                &&& A::paired(#[trigger] field.deep_view()[j], resolvers@[j])
                &&& resolvers@[j] == A::resolver(
                    field.deep_view()[j],
                    elem_start::<A, O>(field.deep_view(), start, j),
                )
            },
    ensures
        final(buf)@ == old(buf)@ + elems_headers::<A, O>(
            field.deep_view(),
            start,
            old(buf)@.len() as int,
            field@.len() as int,
        ),
{
    let ghost elems = field.deep_view();
    let ghost before = buf@;
    let ghost array = buf@.len() as int;
    let ghost all = resolvers@;
    let count: usize = field.len();
    let mut stack = reversed(resolvers);
    let mut k: usize = 0;
    proof {
        assert(buf@ =~= before + elems_headers::<A, O>(elems, start, array, 0));
    }
    while k < count
        invariant
            k <= count,
            count == field@.len(),
            count == elems.len(),
            elems == field.deep_view(),
            all.len() == count,
            stack@.len() == count - k,
            forall|j: int| 0 <= j < stack@.len() ==> #[trigger] stack@[j] == all[count - 1 - j],
            array == before.len(),
            array + count * A::size() <= MAX_ARCHIVE_LEN,
            buf@ == before + elems_headers::<A, O>(elems, start, array, k as int),
            forall|j: int|
                0 <= j < count ==> {
                    &&& A::paired(#[trigger] elems[j], all[j])
                    &&& all[j] == A::resolver(elems[j], elem_start::<A, O>(elems, start, j))
                },
        decreases count - k,
    {
        let ghost sofar = elems_headers::<A, O>(elems, start, array, k as int);
        let ghost next = elem_header::<A, O>(elems, start, array, k as int);
        proof {
            lemma_elems_headers_len::<A, O>(elems, start, array, k as int);
            assert((k + 1) * A::size() <= count * A::size()) by (nonlinear_arith)
                requires
                    k + 1 <= count,
            ;
            assert((k + 1) * A::size() == k * A::size() + A::size()) by (nonlinear_arith);
            assert(field@[k as int].deep_view() == elems[k as int]);
            assert((before + sofar).len() == array + k * A::size());
            assert(stack@[count - k - 1] == all[k as int]);
        }
        let pos: usize = buf.len();
        match stack.pop() {
            Some(resolver) => {
                A::resolve_with(&field[k], pos, resolver, buf);
            },
            None => unreached(),
        }
        k += 1;
        assert(buf@ =~= before + (sofar + next));
    }
}

impl<A: ArchiveWith<O>, O: DeepView> ArchiveWith<Vec<O>> for MapWith<A> {
    type Resolver = VecResolver;

    open spec fn valid(value: Seq<O::V>) -> bool {
        forall|i: int| 0 <= i < value.len() ==> A::valid(#[trigger] value[i])
    }

    open spec fn size() -> nat {
        8
    }

    open spec fn align() -> nat {
        4
    }

    open spec fn payload(value: Seq<O::V>, start: int) -> Seq<u8> {
        seq_payload::<A, O>(value, start)
    }

    open spec fn resolver(value: Seq<O::V>, start: int) -> VecResolver {
        VecResolver { pos: array_pos::<A, O>(value, start) as usize }
    }

    open spec fn paired(value: Seq<O::V>, resolver: VecResolver) -> bool {
        resolver.pos + value.len() * A::size() <= MAX_ARCHIVE_LEN
    }

    open spec fn header(value: Seq<O::V>, pos: int, resolver: VecResolver) -> Seq<u8> {
        seq_header(value.len(), pos, resolver)
    }

    open spec fn decode(buf: Seq<u8>, pos: int) -> Result<Seq<O::V>, DecodeError> {
        decode_seq::<A, O>(buf, pos)
    }

    proof fn lemma_layout() {
    }

    proof fn lemma_header_len(value: Seq<O::V>, pos: int, resolver: VecResolver) {
        lemma_i32_le((resolver.pos - pos) as i32);
        lemma_u32_le(value.len() as u32);
    }

    proof fn lemma_paired(value: Seq<O::V>, start: int) {
        lemma_seq_payload_len::<A, O>(value, start);
    }

    proof fn lemma_round_trip(value: Seq<O::V>, start: int, pos: int, buf: Seq<u8>) {
        let array = array_pos::<A, O>(value, start);
        let count = value.len() as int;
        let offset = (array - pos) as i32;
        let header = seq_header(value.len(), pos, VecResolver { pos: array as usize });
        lemma_seq_payload_len::<A, O>(value, start);
        lemma_seq_payload_parts::<A, O>(value, start, buf);
        lemma_i32_le(offset);
        lemma_u32_le(count as u32);
        assert(buf.subrange(pos, pos + 4) =~= header.subrange(0, 4));
        assert(header.subrange(0, 4) =~= i32_le(offset));
        assert(buf.subrange(pos + 4, pos + 8) =~= header.subrange(4, 8));
        assert(header.subrange(4, 8) =~= u32_le(count as u32));
        assert(i32_at(buf, pos) == offset);
        assert(u32_at(buf, pos + 4) == count);
        lemma_decode_elems_round_trip::<A, O>(value, start, buf, count);
        assert(value.take(count) =~= value);
    }

    fn header_size() -> (r: Option<usize>) {
        Some(8)
    }

    fn header_align() -> (r: usize) {
        4
    }

    fn serialize_with(field: &Vec<O>, buf: &mut Vec<u8>) -> (r: Result<VecResolver, EncodeError>) {
        let ghost elems = field.deep_view();
        let ghost before = buf@;
        let start: usize = buf.len();
        let count: usize = field.len();
        proof {
            A::lemma_layout();
            lemma_seq_payload_len::<A, O>(elems, start as int);
        }
        if start > MAX_ARCHIVE_LEN {
            return Err(EncodeError::OutOfSpace);
        }
        let resolvers = match serialize_elems::<A, O>(field, buf) {
            Ok(resolvers) => resolvers,
            Err(e) => {
                return Err(e);
            },
        };
        let pad: usize = padding_for(buf.len(), A::header_align());
        let fits: bool = if pad > MAX_ARCHIVE_LEN - buf.len() {
            false
        } else if count == 0 {
            true
        } else {
            match A::header_size() {
                None => false,
                Some(size) => match count.checked_mul(size) {
                    None => false,
                    Some(total) => total <= MAX_ARCHIVE_LEN - buf.len() - pad,
                },
            }
        };
        if !fits {
            proof {
                if pad <= MAX_ARCHIVE_LEN - buf@.len() && count > 0 {
                    assert(count * A::size() > MAX_ARCHIVE_LEN - buf@.len() - pad)
                        by (nonlinear_arith)
                        requires
                            count >= 1,
                            A::size() > usize::MAX || count * A::size() > usize::MAX || count
                                * A::size() > MAX_ARCHIVE_LEN - buf@.len() - pad,
                            MAX_ARCHIVE_LEN - buf@.len() - pad <= usize::MAX,
                    ;
                } else {
                    assert(0 <= count * A::size()) by (nonlinear_arith);
                }
            }
            buf.truncate(start);
            assert(buf@ =~= before);
            return Err(EncodeError::OutOfSpace);
        }
        put_zeros(buf, pad);
        let array: usize = buf.len();
        resolve_elems::<A, O>(field, resolvers, buf, Ghost(start as int));
        assert(buf@ =~= before + seq_payload::<A, O>(elems, start as int));
        Ok(VecResolver { pos: array })
    }

    fn resolve_with(field: &Vec<O>, pos: usize, resolver: VecResolver, out: &mut Vec<u8>) {
        let offset: i64 = resolver.pos as i64 - pos as i64;
        let count: usize = field.len();
        proof {
            A::lemma_layout();
            assert(count <= count * A::size()) by (nonlinear_arith)
                requires
                    0 <= count,
                    1 <= A::size(),
            ;
        }
        put_i32(out, offset as i32);
        put_u32(out, count as u32);
        assert(out@ =~= old(out)@ + seq_header(field.deep_view().len(), pos as int, resolver));
    }

    fn deserialize_with(buf: &[u8], pos: usize) -> (r: Result<Vec<O>, DecodeError>) {
        let span = match archived_seq::<A, O>(buf, pos) {
            Ok(span) => span,
            Err(e) => {
                return Err(e);
            },
        };
        let mut elems: Vec<O> = Vec::new();
        let mut i: usize = 0;
        assert(elems.deep_view() =~= Seq::<O::V>::empty());
        while i < span.count
            invariant
                i <= span.count,
                seq_span::<A, O>(buf@, pos as int) == Ok::<SeqSpan, DecodeError>(span),
                span.count > 0 ==> span.stride == A::size(),
                span.array + span.count * A::size() <= buf@.len() <= usize::MAX,
                decode_elems::<A, O>(buf@, span.array as int, i as int) == Ok::<
                    Seq<O::V>,
                    DecodeError,
                >(elems.deep_view()),
            decreases span.count - i,
        {
            proof {
                assert((i + 1) * A::size() <= span.count * A::size()) by (nonlinear_arith)
                    requires
                        i + 1 <= span.count,
                ;
                assert((i + 1) * A::size() == i * A::size() + A::size()) by (nonlinear_arith);
                assert(0 <= i * A::size() <= span.count * A::size()) by (nonlinear_arith)
                    requires
                        0 <= i <= span.count,
                ;
            }
            let ghost before = elems.deep_view();
            match A::deserialize_with(buf, span.array + i * span.stride) {
                Ok(value) => {
                    elems.push(value);
                    assert(elems.deep_view() =~= before.push(value.deep_view()));
                },
                Err(e) => {
                    proof {
                        lemma_decode_elems_fails::<A, O>(
                            buf@,
                            span.array as int,
                            i + 1,
                            span.count as int,
                        );
                    }
                    return Err(e);
                },
            }
            i += 1;
        }
        Ok(elems)
    }
}

} // verus!
