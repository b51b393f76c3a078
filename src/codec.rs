//! Encoding and decoding of element sequences: fixed-length items are
//! concatenated; variable-length items follow a table of 4-byte offsets.
use crate::element::{le_value, lemma_le_round_trip, lemma_pow256_values, SszElement};
use crate::merkle::{le_bytes, lemma_le_bytes_len};
use crate::{DecodeError, Error};
use vstd::prelude::*;

verus! {

/// The size of one entry of an offset table.
pub const BYTES_PER_LENGTH_OFFSET: usize = 4;

/// The items' encodings, back to back.
pub open spec fn concat_encodings<T: SszElement>(items: Seq<T>) -> Seq<u8>
    decreases items.len(),
{
    if items.len() == 0 {
        Seq::empty()
    } else {
        concat_encodings(items.drop_last()) + T::spec_encode(items.last())
    }
}

/// One 4-byte little-endian offset per item, each `first` plus the size of
/// the encodings before that item.
pub open spec fn offset_table<T: SszElement>(items: Seq<T>, first: nat) -> Seq<u8>
    decreases items.len(),
{
    if items.len() == 0 {
        Seq::empty()
    } else {
        offset_table(items.drop_last(), first) + le_bytes(
            first + concat_encodings(items.drop_last()).len(),
            4,
        )
    }
}

/// The encoding of a sequence of items.
pub open spec fn encode_items<T: SszElement>(items: Seq<T>) -> Seq<u8> {
    if T::spec_is_fixed_len() {
        concat_encodings(items)
    } else {
        offset_table(items, 4 * items.len()) + concat_encodings(items)
    }
}

/// Whether the offsets of a variable-length encoding of `items` fit in 4 bytes.
pub open spec fn offsets_fit<T: SszElement>(items: Seq<T>) -> bool {
    T::spec_is_fixed_len() || 4 * items.len() + concat_encodings(items).len() < 0x1_0000_0000
}

/// The decoding of `count` consecutive chunks of `size` bytes each.
pub open spec fn decode_chunks<T: SszElement>(bytes: Seq<u8>, size: nat, count: nat) -> Result<
    Seq<T>,
    DecodeError,
>
    decreases count,
{
    if count == 0 {
        Ok(Seq::empty())
    } else {
        match decode_chunks::<T>(bytes, size, (count - 1) as nat) {
            Err(e) => Err(e),
            Ok(prefix) => match T::spec_decode(
                bytes.subrange((count - 1) * size, (count * size) as int),
            ) {
                Ok(v) => Ok(prefix.push(v)),
                Err(e) => Err(e),
            },
        }
    }
}

/// Offset number `i` of a table at the start of `bytes`: a 4-byte
/// little-endian number.
pub open spec fn offset_of(bytes: Seq<u8>, i: int) -> nat {
    le_value(bytes.subrange(4 * i, 4 * i + 4))
}

/// Each of the first `n` offsets is at least the one before and at most the
/// length of `bytes`.
pub open spec fn offsets_ordered(bytes: Seq<u8>, n: nat) -> bool {
    forall|i: int|
        0 < i < n ==> offset_of(bytes, i - 1) <= #[trigger] offset_of(bytes, i) <= bytes.len()
}

/// Where part `i` of `n` ends: at the next offset, or at the end of `bytes`.
pub open spec fn part_end(bytes: Seq<u8>, n: nat, i: int) -> int {
    if i + 1 < n {
        offset_of(bytes, i + 1) as int
    } else {
        bytes.len() as int
    }
}

/// The parts that the offset table at the start of `bytes` delimits, or
/// `None` when the table is malformed or announces more than `max` parts.
/// The first offset gives the table's size, 4 bytes per part; every offset
/// lies in `bytes` and none is below the one before; empty input holds no
/// part.
pub open spec fn split_offsets(bytes: Seq<u8>, max: nat) -> Option<Seq<Seq<u8>>> {
    if bytes.len() == 0 {
        Some(Seq::empty())
    } else if bytes.len() < 4 {
        None
    } else {
        let first = offset_of(bytes, 0);
        let n = first / 4;
        if first % 4 != 0 || first < 4 || first > bytes.len() || n > max || !offsets_ordered(
            bytes,
            n,
        ) {
            None
        } else {
            Some(
                Seq::new(
                    n,
                    |i: int| bytes.subrange(offset_of(bytes, i) as int, part_end(bytes, n, i)),
                ),
            )
        }
    }
}

/// Relies on `ssz::decode_list_of_variable_length_items`, read as a list of
/// byte strings (each part decodes as itself): it reads the table of 4-byte
/// offsets at the start of `bytes` and cuts the rest at those offsets,
/// refusing malformed offsets and more than `max` parts.
#[verifier::external_body]
fn split_offset_table(bytes: &[u8], max: usize) -> (r: Option<Vec<Vec<u8>>>)
    ensures
        match r {
            Some(parts) => split_offsets(bytes@, max as nat) == Some(
                parts@.map_values(|p: Vec<u8>| p@),
            ),
            None => split_offsets(bytes@, max as nat) is None,
        },
{
    ssz::decode_list_of_variable_length_items::<Vec<u8>, Vec<Vec<u8>>>(bytes, Some(max)).ok()
}

/// The parts back to back.
pub open spec fn concat_parts(parts: Seq<Seq<u8>>) -> Seq<u8>
    decreases parts.len(),
{
    if parts.len() == 0 {
        Seq::empty()
    } else {
        concat_parts(parts.drop_last()) + parts.last()
    }
}

/// One 4-byte little-endian offset per part, each `first` plus the size of
/// the parts before it.
pub open spec fn parts_table(parts: Seq<Seq<u8>>, first: nat) -> Seq<u8>
    decreases parts.len(),
{
    if parts.len() == 0 {
        Seq::empty()
    } else {
        parts_table(parts.drop_last(), first) + le_bytes(
            first + concat_parts(parts.drop_last()).len(),
            4,
        )
    }
}

/// Parts behind a table of their offsets.
pub open spec fn offset_encoding(parts: Seq<Seq<u8>>) -> Seq<u8> {
    parts_table(parts, 4 * parts.len()) + concat_parts(parts)
}

/// The encodings of `items`, one part each.
pub open spec fn encoded_parts<T: SszElement>(items: Seq<T>) -> Seq<Seq<u8>> {
    items.map_values(|v: T| T::spec_encode(v))
}

/// The decoding of each of `parts`.
pub open spec fn decode_parts<T: SszElement>(parts: Seq<Seq<u8>>) -> Result<Seq<T>, DecodeError>
    decreases parts.len(),
{
    if parts.len() == 0 {
        Ok(Seq::empty())
    } else {
        match decode_parts::<T>(parts.drop_last()) {
            Err(e) => Err(e),
            Ok(prefix) => match T::spec_decode(parts.last()) {
                Ok(v) => Ok(prefix.push(v)),
                Err(e) => Err(e),
            },
        }
    }
}

/// The decoding of a variable-length item list of at most `max` items.
pub open spec fn decode_variable_items<T: SszElement>(bytes: Seq<u8>, max: nat) -> Result<
    Seq<T>,
    DecodeError,
> {
    match split_offsets(bytes, max) {
        None => Err(DecodeError::InvalidOffsets),
        Some(parts) => decode_parts::<T>(parts),
    }
}

/// A failing chunk fails every longer decoding.
pub proof fn lemma_decode_chunks_err<T: SszElement>(bytes: Seq<u8>, size: nat, k: nat, m: nat)
    requires
        k <= m,
        decode_chunks::<T>(bytes, size, k) is Err,
    ensures
        decode_chunks::<T>(bytes, size, m) == decode_chunks::<T>(bytes, size, k),
    decreases m - k,
{
    if k < m {
        lemma_decode_chunks_err::<T>(bytes, size, k, (m - 1) as nat);
    }
}

/// A failing part fails every longer decoding.
pub proof fn lemma_decode_parts_err<T: SszElement>(parts: Seq<Seq<u8>>, k: nat)
    requires
        k <= parts.len(),
        decode_parts::<T>(parts.subrange(0, k as int)) is Err,
    ensures
        decode_parts::<T>(parts) == decode_parts::<T>(parts.subrange(0, k as int)),
    decreases parts.len() - k,
{
    if k < parts.len() {
        assert(parts.subrange(0, (k + 1) as int).drop_last() =~= parts.subrange(0, k as int));
        lemma_decode_parts_err::<T>(parts, k + 1);
    } else {
        assert(parts.subrange(0, k as int) =~= parts);
    }
}

pub proof fn lemma_concat_push<T: SszElement>(items: Seq<T>, v: T)
    ensures
        concat_encodings(items.push(v)) == concat_encodings(items) + T::spec_encode(v),
        offset_table(items.push(v), 0) == offset_table(items, 0) + le_bytes(
            concat_encodings(items).len(),
            4,
        ),
{
    assert(items.push(v).drop_last() =~= items);
}

/// Fixed-length encodings take `size` bytes per item, and item `i` sits at
/// `i * size`.
pub proof fn lemma_concat_fixed<T: SszElement>(items: Seq<T>)
    requires
        T::spec_is_fixed_len(),
    ensures
        concat_encodings(items).len() == items.len() * T::spec_fixed_len(),
        forall|i: int|
            0 <= i < items.len() ==> #[trigger] concat_encodings(items).subrange(
                i * T::spec_fixed_len(),
                (i + 1) * T::spec_fixed_len(),
            ) == T::spec_encode(items[i]),
    decreases items.len(),
{
    let size = T::spec_fixed_len();
    if items.len() > 0 {
        let pre = items.drop_last();
        lemma_concat_fixed(pre);
        T::lemma_round_trip(items.last());
        let n = items.len();
        assert((n - 1) * size + size == n * size) by (nonlinear_arith);
        assert forall|i: int| 0 <= i < items.len() implies #[trigger] concat_encodings(
            items,
        ).subrange(i * size, (i + 1) * size) == T::spec_encode(items[i]) by {
            if i < n - 1 {
                assert((i + 1) * size <= (n - 1) * size) by (nonlinear_arith)
                    requires
                        i + 1 <= n - 1,
                ;
                assert(0 <= i * size <= (i + 1) * size) by (nonlinear_arith)
                    requires
                        0 <= i,
                ;
                let a = i * size;
                let b = (i + 1) * size;
                assert(b <= concat_encodings(pre).len());
                assert(concat_encodings(items) == concat_encodings(pre) + T::spec_encode(
                    items.last(),
                ));
                assert(concat_encodings(items).subrange(a, b) =~= concat_encodings(pre).subrange(
                    a,
                    b,
                ));
                assert(pre[i] == items[i]);
            } else {
                assert(i * size == (n - 1) * size);
                assert(concat_encodings(items).subrange(i * size, (i + 1) * size) =~= T::spec_encode(
                    items.last(),
                ));
            }
        }
    }
}

/// Decoding the chunks of a fixed-length encoding gives back the items.
pub proof fn lemma_decode_chunks_round_trip<T: SszElement>(items: Seq<T>, k: nat)
    requires
        T::spec_is_fixed_len(),
        k <= items.len(),
    ensures
        decode_chunks::<T>(concat_encodings(items), T::spec_fixed_len(), k) == Ok::<
            Seq<T>,
            DecodeError,
        >(items.subrange(0, k as int)),
    decreases k,
{
    lemma_concat_fixed(items);
    if k == 0 {
        assert(items.subrange(0, 0) =~= Seq::<T>::empty());
    } else {
        lemma_decode_chunks_round_trip(items, (k - 1) as nat);
        let i = k - 1;
        assert(concat_encodings(items).subrange(
            i * T::spec_fixed_len(),
            (i + 1) * T::spec_fixed_len(),
        ) == T::spec_encode(items[i]));
        T::lemma_round_trip(items[i]);
        assert(items.subrange(0, i).push(items[i]) =~= items.subrange(0, k as int));
    }
}

/// Appends the encodings of `items`, back to back, to `buf`.
fn append_encodings<T: SszElement>(items: &[T], buf: &mut Vec<u8>)
    ensures
        final(buf)@ == old(buf)@ + concat_encodings(items@),
{
    let ghost start = buf@;
    let mut i: usize = 0;
    while i < items.len()
        invariant
            i <= items@.len(),
            buf@ == start + concat_encodings(items@.subrange(0, i as int)),
        decreases items@.len() - i,
    {
        proof {
            lemma_concat_push(items@.subrange(0, i as int), items@[i as int]);
            assert(items@.subrange(0, i as int).push(items@[i as int]) =~= items@.subrange(
                0,
                i + 1,
            ));
        }
        items[i].ssz_append(buf);
        i = i + 1;
    }
    assert(items@.subrange(0, items@.len() as int) =~= items@);
}

/// Appends the 4-byte little-endian encoding of `v` to `buf`.
fn append_offset(buf: &mut Vec<u8>, v: u32)
    ensures
        final(buf)@ == old(buf)@ + le_bytes(v as nat, 4),
{
    let ghost start = buf@;
    let mut x: u32 = v;
    let mut i: usize = 0;
    while i < 4
        invariant
            i <= 4,
            start + le_bytes(v as nat, 4) == buf@ + le_bytes(x as nat, (4 - i) as nat),
        decreases 4 - i,
    {
        let ghost before = buf@;
        let ghost rest = le_bytes((x / 256) as nat, (4 - i - 1) as nat);
        buf.push((x % 256) as u8);
        assert(before + le_bytes(x as nat, (4 - i) as nat) =~= buf@ + rest);
        x = x / 256;
        i = i + 1;
    }
    assert(buf@ + le_bytes(x as nat, 0) =~= buf@);
}

pub proof fn lemma_concat_prefix_len<T: SszElement>(items: Seq<T>, i: nat)
    requires
        i <= items.len(),
    ensures
        concat_encodings(items.subrange(0, i as int)).len() <= concat_encodings(items).len(),
    decreases items.len() - i,
{
    if i < items.len() {
        lemma_concat_prefix_len(items, i + 1);
        lemma_concat_push(items.subrange(0, i as int), items[i as int]);
        assert(items.subrange(0, i as int).push(items[i as int]) =~= items.subrange(
            0,
            (i + 1) as int,
        ));
    } else {
        assert(items.subrange(0, i as int) =~= items);
    }
}

pub proof fn lemma_offset_table_push<T: SszElement>(items: Seq<T>, v: T, first: nat)
    ensures
        offset_table(items.push(v), first) == offset_table(items, first) + le_bytes(
            first + concat_encodings(items).len(),
            4,
        ),
{
    assert(items.push(v).drop_last() =~= items);
}

/// Appends the encoding of `items` to `buf`.
pub fn append_items<T: SszElement>(items: &[T], buf: &mut Vec<u8>)
    requires
        offsets_fit(items@),
    ensures
        final(buf)@ == old(buf)@ + encode_items(items@),
{
    if T::is_ssz_fixed_len() {
        append_encodings(items, buf);
    } else {
        let ghost start = buf@;
        let n = items.len();
        let mut offset: u32 = (4 * n) as u32;
        let mut i: usize = 0;
        while i < n
            invariant
                i <= n,
                n == items@.len(),
                !T::spec_is_fixed_len(),
                offsets_fit(items@),
                offset as nat == 4 * n + concat_encodings(items@.subrange(0, i as int)).len(),
                buf@ == start + offset_table(items@.subrange(0, i as int), 4 * n as nat),
            decreases n - i,
        {
            let ghost pre = items@.subrange(0, i as int);
            proof {
                lemma_offset_table_push(pre, items@[i as int], 4 * n as nat);
                lemma_concat_push(pre, items@[i as int]);
                assert(pre.push(items@[i as int]) =~= items@.subrange(0, i + 1));
                lemma_concat_prefix_len(items@, (i + 1) as nat);
            }
            append_offset(buf, offset);
            proof {
                T::lemma_round_trip(items@[i as int]);
            }
            let item_len = items[i].ssz_bytes_len();
            offset = offset + item_len as u32;
            i = i + 1;
        }
        assert(items@.subrange(0, n as int) =~= items@);
        append_encodings(items, buf);
        assert(buf@ =~= start + encode_items(items@));
    }
}

/// Decodes `bytes / size` chunks of `size` bytes each.
pub fn decode_fixed_items<T: SszElement>(bytes: &[u8], size: usize) -> (r: Result<
    Vec<T>,
    DecodeError,
>)
    requires
        size > 0,
        bytes@.len() % (size as nat) == 0,
    ensures
        match r {
            Ok(v) => decode_chunks::<T>(bytes@, size as nat, bytes@.len() / (size as nat)) == Ok::<
                Seq<T>,
                DecodeError,
            >(v@),
            Err(e) => decode_chunks::<T>(bytes@, size as nat, bytes@.len() / (size as nat))
                == Err::<Seq<T>, DecodeError>(e),
        },
{
    let blen = bytes.len();
    let count = blen / size;
    let mut out: Vec<T> = Vec::new();
    let mut i: usize = 0;
    let mut pos: usize = 0;
    proof {
        assert(count * size == blen) by (nonlinear_arith)
            requires
                count == blen / size,
                blen % size == 0,
                size > 0,
        ;
    }
    while i < count
        invariant
            i <= count,
            size > 0,
            blen == bytes@.len(),
            count * size == blen,
            count == bytes@.len() / (size as nat),
            pos == i * size,
            decode_chunks::<T>(bytes@, size as nat, i as nat) == Ok::<Seq<T>, DecodeError>(out@),
        decreases count - i,
    {
        proof {
            assert((i + 1) * size <= count * size) by (nonlinear_arith)
                requires
                    i + 1 <= count,
            ;
            assert((i + 1) * size == i * size + size) by (nonlinear_arith);
        }
        let chunk = vstd::slice::slice_subrange(bytes, pos, pos + size);
        let ghost next = decode_chunks::<T>(bytes@, size as nat, (i + 1) as nat);
        assert(chunk@ == bytes@.subrange(i * size, (i + 1) * size));
        match T::from_ssz_bytes(chunk) {
            Ok(v) => {
                assert(next == Ok::<Seq<T>, DecodeError>(out@.push(v)));
                out.push(v);
            },
            Err(e) => {
                assert(next == Err::<Seq<T>, DecodeError>(e));
                proof {
                    lemma_decode_chunks_err::<T>(bytes@, size as nat, (i + 1) as nat, count as nat);
                }
                return Err(e);
            },
        }
        pos = pos + size;
        i = i + 1;
    }
    Ok(out)
}

/// Decodes a list of variable-length items, at most `max` of them.
pub fn decode_variable_list<T: SszElement>(bytes: &[u8], max: usize) -> (r: Result<
    Vec<T>,
    DecodeError,
>)
    ensures
        match r {
            Ok(v) => decode_variable_items::<T>(bytes@, max as nat) == Ok::<Seq<T>, DecodeError>(
                v@,
            ) && v@.len() <= max,
            Err(e) => decode_variable_items::<T>(bytes@, max as nat) == Err::<Seq<T>, DecodeError>(
                e,
            ),
        },
{
    match split_offset_table(bytes, max) {
        None => Err(DecodeError::InvalidOffsets),
        Some(parts) => {
            let ghost views = parts@.map_values(|p: Vec<u8>| p@);
            let mut out: Vec<T> = Vec::new();
            let mut i: usize = 0;
            while i < parts.len()
                invariant
                    i <= parts@.len(),
                    parts@.len() <= max,
                    views == parts@.map_values(|p: Vec<u8>| p@),
                    split_offsets(bytes@, max as nat) == Some(views),
                    decode_parts::<T>(views.subrange(0, i as int)) == Ok::<Seq<T>, DecodeError>(
                        out@,
                    ),
                    out@.len() == i,
                decreases parts@.len() - i,
            {
                proof {
                    assert(views.subrange(0, i + 1).drop_last() =~= views.subrange(0, i as int));
                }
                let ghost next = decode_parts::<T>(views.subrange(0, i + 1));
                assert(views.subrange(0, i + 1).last() == parts@[i as int]@);
                match T::from_ssz_bytes(parts[i].as_slice()) {
                    Ok(v) => {
                        assert(next == Ok::<Seq<T>, DecodeError>(out@.push(v)));
                        out.push(v);
                    },
                    Err(e) => {
                        assert(next == Err::<Seq<T>, DecodeError>(e));
                        proof {
                            lemma_decode_parts_err::<T>(views, (i + 1) as nat);
                        }
                        return Err(e);
                    },
                }
                i = i + 1;
            }
            assert(views.subrange(0, parts@.len() as int) =~= views);
            Ok(out)
        },
    }
}

/// What `bytes` decode to as a list of at most `max` items.
///
/// A count of fixed-length items above `max` is `BytesInvalid`, naming both
/// counts. Input that ends in a partial item is refused with the error that
/// decoding that partial item gives, `InvalidByteLength` with its size and
/// the item size.
pub open spec fn decode_list<T: SszElement>(bytes: Seq<u8>, max: nat) -> Result<Seq<T>, DecodeError> {
    if bytes.len() == 0 {
        Ok(Seq::empty())
    } else if T::spec_is_fixed_len() {
        let size = T::spec_fixed_len();
        if size == 0 {
            Err(DecodeError::ZeroLengthItem)
        } else if bytes.len() / size > max {
            Err(
                DecodeError::BytesInvalid(
                    Error::OutOfBounds { i: (bytes.len() / size) as usize, len: max as usize },
                ),
            )
        } else if bytes.len() % size != 0 {
            Err(
                DecodeError::InvalidByteLength {
                    len: (bytes.len() % size) as usize,
                    expected: size as usize,
                },
            )
        } else {
            decode_chunks::<T>(bytes, size, bytes.len() / size)
        }
    } else {
        decode_variable_items::<T>(bytes, max)
    }
}

/// What `bytes` decode to as a vector of exactly `n` items.
///
/// A count of fixed-length items other than `n` is `BytesInvalid`, naming
/// both counts. Input that ends in a partial item is refused with the error
/// that decoding that partial item gives, `InvalidByteLength` with its size
/// and the item size.
pub open spec fn decode_vector<T: SszElement>(bytes: Seq<u8>, n: nat) -> Result<Seq<T>, DecodeError> {
    if bytes.len() == 0 {
        Err(DecodeError::InvalidByteLength { len: 0, expected: 1 })
    } else if T::spec_is_fixed_len() {
        let size = T::spec_fixed_len();
        if size == 0 {
            Err(DecodeError::ZeroLengthItem)
        } else if bytes.len() / size != n {
            Err(
                DecodeError::BytesInvalid(
                    Error::OutOfBounds { i: (bytes.len() / size) as usize, len: n as usize },
                ),
            )
        } else if bytes.len() % size != 0 {
            Err(
                DecodeError::InvalidByteLength {
                    len: (bytes.len() % size) as usize,
                    expected: size as usize,
                },
            )
        } else {
            decode_chunks::<T>(bytes, size, n)
        }
    } else {
        match decode_variable_items::<T>(bytes, n) {
            Err(e) => Err(e),
            Ok(items) => if items.len() == n {
                Ok(items)
            } else {
                Err(
                    DecodeError::BytesInvalid(
                        Error::OutOfBounds { i: items.len() as usize, len: n as usize },
                    ),
                )
            },
        }
    }
}

/// A successful decoding of `count` chunks holds `count` items.
pub proof fn lemma_decode_chunks_len<T: SszElement>(bytes: Seq<u8>, size: nat, count: nat)
    requires
        decode_chunks::<T>(bytes, size, count) is Ok,
    ensures
        decode_chunks::<T>(bytes, size, count)->Ok_0.len() == count,
    decreases count,
{
    if count > 0 {
        lemma_decode_chunks_len::<T>(bytes, size, (count - 1) as nat);
    }
}

/// Decodes `bytes` as a list of at most `max` items.
pub fn decode_list_items<T: SszElement>(bytes: &[u8], max: usize) -> (r: Result<Vec<T>, DecodeError>)
    ensures
        match r {
            Ok(v) => decode_list::<T>(bytes@, max as nat) == Ok::<Seq<T>, DecodeError>(v@)
                && v@.len() <= max,
            Err(e) => decode_list::<T>(bytes@, max as nat) == Err::<Seq<T>, DecodeError>(e),
        },
{
    if bytes.len() == 0 {
        Ok(Vec::new())
    } else if T::is_ssz_fixed_len() {
        let size = T::ssz_fixed_len();
        if size == 0 {
            Err(DecodeError::ZeroLengthItem)
        } else if bytes.len() / size > max {
            Err(DecodeError::BytesInvalid(Error::OutOfBounds { i: bytes.len() / size, len: max }))
        } else if bytes.len() % size != 0 {
            Err(DecodeError::InvalidByteLength { len: bytes.len() % size, expected: size })
        } else {
            let r = decode_fixed_items::<T>(bytes, size);
            proof {
                if r is Ok {
                    lemma_decode_chunks_len::<T>(bytes@, size as nat, bytes@.len() / (size as nat));
                }
            }
            r
        }
    } else {
        decode_variable_list::<T>(bytes, max)
    }
}

/// Decodes `bytes` as a vector of exactly `n` items.
pub fn decode_vector_items<T: SszElement>(bytes: &[u8], n: usize) -> (r: Result<Vec<T>, DecodeError>)
    ensures
        match r {
            Ok(v) => decode_vector::<T>(bytes@, n as nat) == Ok::<Seq<T>, DecodeError>(v@)
                && v@.len() == n,
            Err(e) => decode_vector::<T>(bytes@, n as nat) == Err::<Seq<T>, DecodeError>(e),
        },
{
    if bytes.len() == 0 {
        Err(DecodeError::InvalidByteLength { len: 0, expected: 1 })
    } else if T::is_ssz_fixed_len() {
        let size = T::ssz_fixed_len();
        if size == 0 {
            Err(DecodeError::ZeroLengthItem)
        } else if bytes.len() / size != n {
            Err(DecodeError::BytesInvalid(Error::OutOfBounds { i: bytes.len() / size, len: n }))
        } else if bytes.len() % size != 0 {
            Err(DecodeError::InvalidByteLength { len: bytes.len() % size, expected: size })
        } else {
            let r = decode_fixed_items::<T>(bytes, size);
            proof {
                if r is Ok {
                    lemma_decode_chunks_len::<T>(bytes@, size as nat, n as nat);
                }
            }
            r
        }
    } else {
        match decode_variable_list::<T>(bytes, n) {
            Err(e) => Err(e),
            Ok(items) => {
                if items.len() == n {
                    Ok(items)
                } else {
                    Err(DecodeError::BytesInvalid(Error::OutOfBounds { i: items.len(), len: n }))
                }
            },
        }
    }
}

/// The size of the encoding of `items`.
pub fn encoded_len<T: SszElement>(items: &[T]) -> (r: usize)
    requires
        encode_items(items@).len() <= usize::MAX,
    ensures
        r == encode_items(items@).len(),
{
    let n = items.len();
    proof {
        lemma_le_bytes_len(0, 4);
        if !T::spec_is_fixed_len() {
            lemma_offset_table_len(items@, 4 * n as nat);
        }
    }
    let mut total: usize = if T::is_ssz_fixed_len() {
        0
    } else {
        4 * n
    };
    let mut i: usize = 0;
    while i < n
        invariant
            i <= n,
            n == items@.len(),
            encode_items(items@).len() <= usize::MAX,
            T::spec_is_fixed_len() ==> encode_items(items@).len() == concat_encodings(items@).len(),
            !T::spec_is_fixed_len() ==> encode_items(items@).len() == 4 * n + concat_encodings(
                items@,
            ).len(),
            total == (if T::spec_is_fixed_len() {
                0
            } else {
                4 * n
            }) + concat_encodings(items@.subrange(0, i as int)).len(),
        decreases n - i,
    {
        proof {
            lemma_concat_push(items@.subrange(0, i as int), items@[i as int]);
            assert(items@.subrange(0, i as int).push(items@[i as int]) =~= items@.subrange(0, i + 1));
            lemma_concat_prefix_len(items@, (i + 1) as nat);
        }
        let item_len = items[i].ssz_bytes_len();
        total = total + item_len;
        i = i + 1;
    }
    assert(items@.subrange(0, n as int) =~= items@);
    total
}

pub proof fn lemma_offset_table_len<T: SszElement>(items: Seq<T>, first: nat)
    ensures
        offset_table(items, first).len() == 4 * items.len(),
    decreases items.len(),
{
    if items.len() > 0 {
        lemma_offset_table_len(items.drop_last(), first);
        lemma_le_bytes_len(first + concat_encodings(items.drop_last()).len(), 4);
    }
}

pub proof fn lemma_parts_table_len(parts: Seq<Seq<u8>>, first: nat)
    ensures
        parts_table(parts, first).len() == 4 * parts.len(),
    decreases parts.len(),
{
    if parts.len() > 0 {
        lemma_parts_table_len(parts.drop_last(), first);
        lemma_le_bytes_len(first + concat_parts(parts.drop_last()).len(), 4);
    }
}

/// Entry `i` of an offset table is `first` plus the size of the parts
/// before part `i`.
pub proof fn lemma_parts_table_entry(parts: Seq<Seq<u8>>, first: nat, i: int)
    requires
        0 <= i < parts.len(),
    ensures
        parts_table(parts, first).subrange(4 * i, 4 * i + 4) == le_bytes(
            first + concat_parts(parts.subrange(0, i)).len(),
            4,
        ),
    decreases parts.len(),
{
    let pre = parts.drop_last();
    let n = parts.len();
    lemma_parts_table_len(pre, first);
    lemma_le_bytes_len(first + concat_parts(pre).len(), 4);
    if i < n - 1 {
        lemma_parts_table_entry(pre, first, i);
        assert(pre.subrange(0, i) =~= parts.subrange(0, i));
        assert(parts_table(parts, first).subrange(4 * i, 4 * i + 4) =~= parts_table(
            pre,
            first,
        ).subrange(4 * i, 4 * i + 4));
    } else {
        assert(parts.subrange(0, i) =~= pre);
        assert(parts_table(parts, first).subrange(4 * i, 4 * i + 4) =~= le_bytes(
            first + concat_parts(pre).len(),
            4,
        ));
    }
}

/// The parts before part `k` sit, back to back, at the start of all parts.
pub proof fn lemma_concat_parts_prefix(parts: Seq<Seq<u8>>, k: int)
    requires
        0 <= k <= parts.len(),
    ensures
        concat_parts(parts.subrange(0, k)).len() <= concat_parts(parts).len(),
        concat_parts(parts).subrange(0, concat_parts(parts.subrange(0, k)).len() as int)
            == concat_parts(parts.subrange(0, k)),
    decreases parts.len(),
{
    if k == parts.len() {
        assert(parts.subrange(0, k) =~= parts);
        assert(concat_parts(parts).subrange(0, concat_parts(parts).len() as int) =~= concat_parts(
            parts,
        ));
    } else {
        let pre = parts.drop_last();
        lemma_concat_parts_prefix(pre, k);
        assert(pre.subrange(0, k) =~= parts.subrange(0, k));
        let m = concat_parts(parts.subrange(0, k)).len() as int;
        assert(concat_parts(parts).subrange(0, m) =~= concat_parts(pre).subrange(0, m));
    }
}

pub proof fn lemma_concat_parts_step(parts: Seq<Seq<u8>>, i: int)
    requires
        0 <= i < parts.len(),
    ensures
        concat_parts(parts.subrange(0, i + 1)) == concat_parts(parts.subrange(0, i)) + parts[i],
{
    assert(parts.subrange(0, i + 1).drop_last() =~= parts.subrange(0, i));
}

/// The size of the parts before part `i`.
pub open spec fn parts_before(parts: Seq<Seq<u8>>, i: int) -> nat {
    concat_parts(parts.subrange(0, i)).len()
}

/// Offset `i` of an offset encoding points past the table and the parts
/// before part `i`.
pub proof fn lemma_offset_encoding_entry(parts: Seq<Seq<u8>>, i: int)
    requires
        0 <= i < parts.len(),
        offset_encoding(parts).len() < 0x1_0000_0000,
    ensures
        offset_of(offset_encoding(parts), i) == 4 * parts.len() + parts_before(parts, i),
{
    let n = parts.len();
    let bytes = offset_encoding(parts);
    let table = parts_table(parts, 4 * n);
    lemma_parts_table_len(parts, 4 * n);
    lemma_pow256_values();
    lemma_concat_parts_prefix(parts, i);
    lemma_parts_table_entry(parts, 4 * n, i);
    assert(bytes.subrange(4 * i, 4 * i + 4) =~= table.subrange(4 * i, 4 * i + 4));
    lemma_le_round_trip(4 * n + parts_before(parts, i), 4);
}

/// Part `i` of an offset encoding sits between its offset and the next.
pub proof fn lemma_offset_encoding_part(parts: Seq<Seq<u8>>, i: int)
    requires
        0 <= i < parts.len(),
    ensures
        parts_before(parts, i + 1) == parts_before(parts, i) + parts[i].len(),
        parts_before(parts, i + 1) <= concat_parts(parts).len(),
        offset_encoding(parts).subrange(
            (4 * parts.len() + parts_before(parts, i)) as int,
            (4 * parts.len() + parts_before(parts, i + 1)) as int,
        ) == parts[i],
{
    let n = parts.len();
    let body = concat_parts(parts);
    lemma_parts_table_len(parts, 4 * n);
    lemma_concat_parts_step(parts, i);
    lemma_concat_parts_prefix(parts, i + 1);
    let lo = parts_before(parts, i) as int;
    let hi = parts_before(parts, i + 1) as int;
    assert(offset_encoding(parts).subrange(4 * n + lo, 4 * n + hi) =~= body.subrange(lo, hi));
    assert(body.subrange(lo, hi) =~= body.subrange(0, hi).subrange(lo, hi));
    assert(body.subrange(0, hi).subrange(lo, hi) =~= parts[i]);
}

/// Splitting the offset encoding of parts gives back the parts.
pub proof fn lemma_split_offset_encoding(parts: Seq<Seq<u8>>, max: nat)
    requires
        0 < parts.len() <= max,
        offset_encoding(parts).len() < 0x1_0000_0000,
    ensures
        split_offsets(offset_encoding(parts), max) == Some(parts),
{
    let n = parts.len();
    let bytes = offset_encoding(parts);
    lemma_parts_table_len(parts, 4 * n);
    lemma_offset_encoding_entry(parts, 0);
    assert(parts.subrange(0, 0) =~= Seq::<Seq<u8>>::empty());
    assert(offset_of(bytes, 0) == 4 * n);
    assert((4 * n) / 4 == n);
    assert forall|i: int| 0 < i < n implies offset_of(bytes, i - 1) <= #[trigger] offset_of(bytes, i)
        <= bytes.len() by {
        lemma_offset_encoding_entry(parts, i - 1);
        lemma_offset_encoding_entry(parts, i);
        lemma_offset_encoding_part(parts, i - 1);
        lemma_offset_encoding_part(parts, i);
    }
    let split = Seq::new(
        n,
        |i: int| bytes.subrange(offset_of(bytes, i) as int, part_end(bytes, n, i)),
    );
    assert forall|i: int| 0 <= i < n implies #[trigger] split[i] == parts[i] by {
        lemma_offset_encoding_entry(parts, i);
        lemma_offset_encoding_part(parts, i);
        if i + 1 < n {
            lemma_offset_encoding_entry(parts, i + 1);
        } else {
            assert(parts.subrange(0, i + 1) =~= parts);
        }
    }
    assert(split =~= parts);
}

/// The variable-length encoding of items is the offset encoding of their
/// encodings.
pub proof fn lemma_encode_items_as_parts<T: SszElement>(items: Seq<T>, first: nat)
    ensures
        offset_table(items, first) == parts_table(encoded_parts(items), first),
        concat_encodings(items) == concat_parts(encoded_parts(items)),
    decreases items.len(),
{
    if items.len() > 0 {
        lemma_encode_items_as_parts(items.drop_last(), first);
        assert(encoded_parts(items).drop_last() =~= encoded_parts(items.drop_last()));
    } else {
        assert(encoded_parts(items) =~= Seq::<Seq<u8>>::empty());
    }
}

/// Decoding the encodings of items one by one gives back the items.
pub proof fn lemma_decode_parts_round_trip<T: SszElement>(items: Seq<T>)
    ensures
        decode_parts::<T>(encoded_parts(items)) == Ok::<Seq<T>, DecodeError>(items),
    decreases items.len(),
{
    if items.len() > 0 {
        lemma_decode_parts_round_trip(items.drop_last());
        assert(encoded_parts(items).drop_last() =~= encoded_parts(items.drop_last()));
        T::lemma_round_trip(items.last());
        assert(items.drop_last().push(items.last()) =~= items);
    } else {
        assert(encoded_parts(items) =~= Seq::<Seq<u8>>::empty());
        assert(items =~= Seq::<T>::empty());
    }
}

/// Decoding the variable-length encoding of up to `max` items gives back
/// the items.
pub proof fn lemma_variable_items_round_trip<T: SszElement>(items: Seq<T>, max: nat)
    requires
        !T::spec_is_fixed_len(),
        0 < items.len() <= max,
        offsets_fit(items),
    ensures
        encode_items(items) == offset_encoding(encoded_parts(items)),
        encode_items(items).len() > 0,
        decode_variable_items::<T>(encode_items(items), max) == Ok::<Seq<T>, DecodeError>(items),
{
    let parts = encoded_parts(items);
    lemma_encode_items_as_parts(items, 4 * items.len());
    lemma_parts_table_len(parts, 4 * parts.len());
    lemma_split_offset_encoding(parts, max);
    lemma_decode_parts_round_trip(items);
}

} // verus!
