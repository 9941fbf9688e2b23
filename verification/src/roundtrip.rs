//! Decoding gives back what was encoded.

use crate::error::ErrorKind;
use crate::message::{
    ascending, decode_fields, decoded_fields, encodable, encode_fields, header_fits, lemma_ascending_len,
    lemma_offsets_part_len, lemma_tags_part_len, lemma_values_len_monotone, lemma_values_part_len,
    offset_at, offset_check, offsets_fault, offsets_part, tag_at, tag_bytes_at, tag_check,
    tags_fault, tags_part, value_at, values_len, values_part, Fields,
};
use crate::tag::lemma_tag_wire;
use crate::wire::{le_u32, lemma_le_u32_of_bytes, u32_le_bytes};
use vstd::prelude::*;

verus! {

/// Whether the length of every value is a multiple of four, as the wire
/// format asks of every offset and of the whole message.
pub open spec fn aligned(f: Fields) -> bool {
    forall|i: int| 0 <= i < f.len() ==> (#[trigger] f[i]).1.len() % 4 == 0
}

/// Values whose lengths are multiples of four have such a length together.
pub proof fn lemma_values_len_aligned(f: Fields, k: nat)
    requires
        aligned(f),
        k <= f.len(),
    ensures
        values_len(f, k) % 4 == 0,
    decreases k,
{
    if k > 0 {
        lemma_values_len_aligned(f, (k - 1) as nat);
        assert(f[k - 1].1.len() % 4 == 0);
    }
}

/// Among the offsets of the fields 1 to `k - 1`, that of field `i` stands in
/// the four bytes from `4 * (i - 1)`, and it is the length of the values in
/// front of field `i`.
pub proof fn lemma_offsets_part_at(f: Fields, k: nat, i: int)
    requires
        1 <= i < k,
    ensures
        offsets_part(f, k).subrange(4 * (i - 1), 4 * i) == u32_le_bytes(
            values_len(f, i as nat) as u32,
        ),
    decreases k,
{
    let shorter = offsets_part(f, (k - 1) as nat);
    let word = u32_le_bytes(values_len(f, (k - 1) as nat) as u32);
    lemma_offsets_part_len(f, (k - 1) as nat);
    lemma_offsets_part_len(f, k);
    if i == k - 1 {
        assert((shorter + word).subrange(4 * (i - 1), 4 * i) =~= word);
    } else {
        lemma_offsets_part_at(f, (k - 1) as nat, i);
        assert((shorter + word).subrange(4 * (i - 1), 4 * i) =~= shorter.subrange(
            4 * (i - 1),
            4 * i,
        ));
    }
}

/// Among the tags of the first `k` fields, that of field `i` stands in the
/// four bytes from `4 * i`.
pub proof fn lemma_tags_part_at(f: Fields, k: nat, i: int)
    requires
        0 <= i < k,
    ensures
        tags_part(f, k).subrange(4 * i, 4 * i + 4) == f[i].0.wire_bytes(),
    decreases k,
{
    let shorter = tags_part(f, (k - 1) as nat);
    let word = f[k - 1].0.wire_bytes();
    lemma_tag_wire(f[k - 1].0);
    lemma_tags_part_len(f, (k - 1) as nat);
    if i == k - 1 {
        assert((shorter + word).subrange(4 * i, 4 * i + 4) =~= word);
    } else {
        lemma_tags_part_at(f, (k - 1) as nat, i);
        assert((shorter + word).subrange(4 * i, 4 * i + 4) =~= shorter.subrange(4 * i, 4 * i + 4));
    }
}

/// Among the values of the first `k` fields, that of field `i` begins where
/// the values in front of it end.
pub proof fn lemma_values_part_at(f: Fields, k: nat, i: int)
    requires
        0 <= i < k,
    ensures
        values_part(f, k).subrange(
            values_len(f, i as nat) as int,
            values_len(f, (i + 1) as nat) as int,
        ) == f[i].1,
    decreases k,
{
    let shorter = values_part(f, (k - 1) as nat);
    let value = f[k - 1].1;
    lemma_values_part_len(f, (k - 1) as nat);
    let from = values_len(f, i as nat) as int;
    let to = values_len(f, (i + 1) as nat) as int;
    if i == k - 1 {
        assert((shorter + value).subrange(from, to) =~= value);
    } else {
        lemma_values_part_at(f, (k - 1) as nat, i);
        lemma_values_len_monotone(f, (i + 1) as nat, (k - 1) as nat);
        assert((shorter + value).subrange(from, to) =~= shorter.subrange(from, to));
    }
}

/// Where the parts of an encoded message stand: the count in the first four
/// bytes, then the offsets, the tags and the values.
pub proof fn lemma_encoded_layout(f: Fields)
    requires
        ascending(f),
        f.len() >= 1,
        encodable(f),
    ensures
        encode_fields(f).len() == 8 * f.len() + values_len(f, f.len()),
        le_u32(encode_fields(f)) == f.len(),
        forall|i: int|
            0 <= i < f.len() ==> #[trigger] offset_at(encode_fields(f), i) == values_len(
                f,
                i as nat,
            ),
        forall|i: int|
            0 <= i < f.len() ==> #[trigger] tag_bytes_at(encode_fields(f), f.len() as int, i)
                == f[i].0.wire_bytes(),
        forall|i: int|
            0 <= i < f.len() ==> #[trigger] value_at(encode_fields(f), f.len() as int, i) == f[i].1,
{
    let n = f.len();
    let head = u32_le_bytes(n as u32);
    let offsets = offsets_part(f, n);
    let tags = tags_part(f, n);
    let values = values_part(f, n);
    let b = encode_fields(f);
    lemma_ascending_len(f);
    lemma_le_u32_of_bytes(n as u32);
    lemma_offsets_part_len(f, n);
    lemma_tags_part_len(f, n);
    lemma_values_part_len(f, n);
    assert(b == head + offsets + tags + values);
    assert(b.len() == 8 * n + values_len(f, n));
    assert(le_u32(b) == n) by {
        assert(b[0] == head[0] && b[1] == head[1] && b[2] == head[2] && b[3] == head[3]);
    }
    assert forall|i: int| 0 <= i < n implies #[trigger] offset_at(b, i) == values_len(
        f,
        i as nat,
    ) by {
        if i >= 1 {
            lemma_offsets_part_at(f, n, i);
            lemma_values_len_monotone(f, i as nat, n);
            assert(b.subrange(4 * i, 4 * i + 4) =~= offsets.subrange(4 * (i - 1), 4 * i));
            lemma_le_u32_of_bytes(values_len(f, i as nat) as u32);
        }
    }
    assert forall|i: int| 0 <= i < n implies #[trigger] tag_bytes_at(b, n as int, i)
        == f[i].0.wire_bytes() by {
        lemma_tags_part_at(f, n, i);
        assert(b.subrange(4 * n + 4 * i, 4 * n + 4 * i + 4) =~= tags.subrange(4 * i, 4 * i + 4));
    }
    assert forall|i: int| 0 <= i < n implies #[trigger] value_at(b, n as int, i) == f[i].1 by {
        lemma_values_part_at(f, n, i);
        lemma_values_len_monotone(f, i as nat, (i + 1) as nat);
        lemma_values_len_monotone(f, (i + 1) as nat, n);
        let from = values_len(f, i as nat) as int;
        let to = values_len(f, (i + 1) as nat) as int;
        if i + 1 < n {
            assert(offset_at(b, i + 1) == values_len(f, (i + 1) as nat));
        }
        assert(b.subrange(8 * n + from, 8 * n + to) =~= values.subrange(from, to));
    }
}

/// No offset of an encoded message with aligned values is at fault.
pub proof fn lemma_encoded_offsets_sound(f: Fields, k: nat)
    requires
        ascending(f),
        f.len() >= 1,
        encodable(f),
        aligned(f),
        k <= f.len(),
    ensures
        offsets_fault(encode_fields(f), f.len() as int, k) is None,
    decreases k,
{
    if k > 1 {
        let b = encode_fields(f);
        let i = k - 1;
        lemma_encoded_offsets_sound(f, (k - 1) as nat);
        lemma_encoded_layout(f);
        lemma_values_len_aligned(f, i as nat);
        lemma_values_len_monotone(f, (i - 1) as nat, i as nat);
        lemma_values_len_monotone(f, i as nat, f.len());
        assert(offset_at(b, i) == values_len(f, i as nat));
        assert(offset_at(b, i - 1) == values_len(f, (i - 1) as nat));
        assert(offset_check(b, f.len() as int, i) is None);
    }
}

/// No tag of an encoded message is at fault.
pub proof fn lemma_encoded_tags_sound(f: Fields, k: nat)
    requires
        ascending(f),
        f.len() >= 1,
        encodable(f),
        k <= f.len(),
    ensures
        tags_fault(encode_fields(f), f.len() as int, k) is None,
    decreases k,
{
    if k > 0 {
        let b = encode_fields(f);
        let n = f.len() as int;
        let i = k - 1;
        lemma_encoded_tags_sound(f, (k - 1) as nat);
        lemma_encoded_layout(f);
        lemma_tag_wire(f[i].0);
        assert(tag_bytes_at(b, n, i) == f[i].0.wire_bytes());
        assert(tag_at(b, n, i) == Some(f[i].0));
        if i > 0 {
            lemma_tag_wire(f[i - 1].0);
            assert(tag_bytes_at(b, n, i - 1) == f[i - 1].0.wire_bytes());
            assert(tag_at(b, n, i - 1) == Some(f[i - 1].0));
            assert(f[i - 1].0.precedes_spec(f[i].0));
        }
        assert(tag_check(b, n, i) is None);
    }
}

/// The head of an encoded message with aligned values is one that the
/// decoder accepts.
pub proof fn lemma_encoded_header(f: Fields)
    requires
        ascending(f),
        f.len() >= 1,
        encodable(f),
        aligned(f),
    ensures
        header_fits(encode_fields(f), f.len() as int),
{
    lemma_encoded_layout(f);
    lemma_values_len_aligned(f, f.len());
}

/// The fields that the decoder reads from an encoded message are those
/// that were encoded.
pub proof fn lemma_encoded_fields(f: Fields)
    requires
        ascending(f),
        f.len() >= 1,
        encodable(f),
    ensures
        decoded_fields(encode_fields(f), f.len() as int) == f,
{
    let b = encode_fields(f);
    let n = f.len();
    lemma_encoded_layout(f);
    assert forall|i: int| 0 <= i < n implies #[trigger] decoded_fields(b, n as int)[i] == f[i] by {
        lemma_tag_wire(f[i].0);
        assert(tag_bytes_at(b, n as int, i) == f[i].0.wire_bytes());
        assert(value_at(b, n as int, i) == f[i].1);
    }
    assert(decoded_fields(b, n as int) =~= f);
}

/// Decoding the bytes of a message gives the message again: the same tags
/// with the same values in the same order. This holds of every message that
/// the decoder accepts at all: one with at least one field whose values all
/// have a length that is a multiple of four.
pub proof fn lemma_decode_encode(f: Fields)
    requires
        ascending(f),
        f.len() >= 1,
        encodable(f),
        aligned(f),
    ensures
        decode_fields(encode_fields(f)) == Ok::<Fields, ErrorKind>(f),
{
    let b = encode_fields(f);
    let n = f.len();
    lemma_encoded_header(f);
    lemma_encoded_offsets_sound(f, n);
    lemma_encoded_tags_sound(f, n);
    lemma_encoded_fields(f);
    assert(header_fits(b, n as int));
    assert(le_u32(b) as int == n);
}

} // verus!
