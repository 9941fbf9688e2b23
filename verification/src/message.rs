//! The tag-value envelope: an ascending list of fields and its byte layout.
//!
//! On the wire a message is the number of its fields, the offsets at which
//! the values of all fields but the first begin, the tags, and the values,
//! one after the other. Numbers are 32 bits wide and little-endian, and
//! offsets count from the first byte after the tags.

use crate::error::{Error, ErrorKind};
use crate::tag::{lemma_tag_order, Tag, TAG_COUNT};
use crate::wire::{append_bytes, decode_u32, encode_u32, le_u32, u32_le_bytes};
use crate::MIN_REQUEST_LENGTH;
use vstd::prelude::*;
use vstd::slice::{slice_subrange, slice_to_vec};

verus! {

/// The fields of a message as plain values, in the order of the message.
pub type Fields = Seq<(Tag, Seq<u8>)>;

/// Whether every field's tag precedes the tags of all fields behind it.
pub open spec fn ascending(f: Fields) -> bool {
    forall|i: int, j: int| 0 <= i < j < f.len() ==> (#[trigger] f[i]).0.precedes_spec((#[trigger] f[j]).0)
}

/// Whether a field with this tag may be added behind the fields `f`.
pub open spec fn can_append(f: Fields, tag: Tag) -> bool {
    f.len() == 0 || f.last().0.precedes_spec(tag)
}

/// The value of the field with this tag, if there is one.
pub open spec fn field_value(f: Fields, tag: Tag) -> Option<Seq<u8>> {
    if exists|i: int| 0 <= i < f.len() && (#[trigger] f[i]).0 == tag {
        let i = choose|i: int| 0 <= i < f.len() && (#[trigger] f[i]).0 == tag;
        Some(f[i].1)
    } else {
        None
    }
}

/// The length of the values of the first `k` fields together.
pub open spec fn values_len(f: Fields, k: nat) -> nat
    decreases k,
{
    if k == 0 {
        0
    } else {
        values_len(f, (k - 1) as nat) + f[k - 1].1.len()
    }
}

/// The offsets of the fields 1 to `k - 1`, each in four bytes.
pub open spec fn offsets_part(f: Fields, k: nat) -> Seq<u8>
    decreases k,
{
    if k <= 1 {
        Seq::empty()
    } else {
        offsets_part(f, (k - 1) as nat) + u32_le_bytes(values_len(f, (k - 1) as nat) as u32)
    }
}

/// The wire bytes of the tags of the first `k` fields.
pub open spec fn tags_part(f: Fields, k: nat) -> Seq<u8>
    decreases k,
{
    if k == 0 {
        Seq::empty()
    } else {
        tags_part(f, (k - 1) as nat) + f[k - 1].0.wire_bytes()
    }
}

/// The values of the first `k` fields, one after the other.
pub open spec fn values_part(f: Fields, k: nat) -> Seq<u8>
    decreases k,
{
    if k == 0 {
        Seq::empty()
    } else {
        values_part(f, (k - 1) as nat) + f[k - 1].1
    }
}

/// Whether the message fits the wire format, whose numbers have 32 bits.
pub open spec fn encodable(f: Fields) -> bool {
    8 * f.len() + values_len(f, f.len()) <= u32::MAX
}

/// The bytes of a message with the fields `f`.
pub open spec fn encode_fields(f: Fields) -> Seq<u8> {
    u32_le_bytes(f.len() as u32) + offsets_part(f, f.len()) + tags_part(f, f.len()) + values_part(
        f,
        f.len(),
    )
}

/// The values of fewer fields are no longer than those of more.
pub proof fn lemma_values_len_monotone(f: Fields, j: nat, k: nat)
    requires
        j <= k,
    ensures
        values_len(f, j) <= values_len(f, k),
    decreases k,
{
    if j < k {
        lemma_values_len_monotone(f, j, (k - 1) as nat);
    }
}

/// In an ascending list the field at place `i` has a tag of rank `i` at
/// least, so such a list has no more fields than there are tags.
pub proof fn lemma_ascending_rank(f: Fields, i: int)
    requires
        ascending(f),
        0 <= i < f.len(),
    ensures
        f[i].0.rank() >= i,
    decreases i,
{
    if i > 0 {
        lemma_ascending_rank(f, i - 1);
        lemma_tag_order(f[i - 1].0, f[i].0);
    }
}

/// An ascending list of fields has at most one field for each tag.
pub proof fn lemma_ascending_len(f: Fields)
    requires
        ascending(f),
    ensures
        f.len() <= TAG_COUNT,
{
    if f.len() > 0 {
        lemma_ascending_rank(f, f.len() - 1);
        lemma_tag_order(f.last().0, f.last().0);
    }
}

/// In an ascending list a tag names at most one field: `field_value` gives
/// the value of the field at place `i` for that field's tag.
pub proof fn lemma_field_value_at(f: Fields, i: int)
    requires
        ascending(f),
        0 <= i < f.len(),
    ensures
        field_value(f, f[i].0) == Some(f[i].1),
{
    let tag = f[i].0;
    let j = choose|j: int| 0 <= j < f.len() && (#[trigger] f[j]).0 == tag;
    if j < i {
        assert(f[j].0.precedes_spec(f[i].0));
    } else if i < j {
        assert(f[i].0.precedes_spec(f[j].0));
    }
}

/// The offset that the bytes `b` declare for the value of field `i`. The
/// first value begins at 0; the offset of field `i` stands at byte `4 * i`.
pub open spec fn offset_at(b: Seq<u8>, i: int) -> u32 {
    if i <= 0 {
        0
    } else {
        le_u32(b.subrange(4 * i, 4 * i + 4))
    }
}

/// The four bytes that spell the tag of field `i` in a message of `n` fields.
pub open spec fn tag_bytes_at(b: Seq<u8>, n: int, i: int) -> Seq<u8> {
    b.subrange(4 * n + 4 * i, 4 * n + 4 * i + 4)
}

/// The tag of field `i`, where its bytes spell one.
pub open spec fn tag_at(b: Seq<u8>, n: int, i: int) -> Option<Tag> {
    Tag::of_wire_bytes(tag_bytes_at(b, n, i))
}

/// Where the value of field `i` ends: at the next field's offset, and for
/// the last field at the end of the bytes.
pub open spec fn value_end(b: Seq<u8>, n: int, i: int) -> int {
    if i + 1 < n {
        offset_at(b, i + 1) as int
    } else {
        b.len() - 8 * n
    }
}

/// The value of field `i` in a message of `n` fields.
pub open spec fn value_at(b: Seq<u8>, n: int, i: int) -> Seq<u8> {
    b.subrange(8 * n + offset_at(b, i), 8 * n + value_end(b, n, i))
}

/// What is wrong with the offset of field `i`, if anything: it is no
/// multiple of four, or it lies before the offset of the field in front of
/// it or behind the end of the bytes.
pub open spec fn offset_check(b: Seq<u8>, n: int, i: int) -> Option<ErrorKind> {
    let o = offset_at(b, i);
    if o % 4 != 0 {
        Some(ErrorKind::InvalidAlignment(o))
    } else if o < offset_at(b, i - 1) || o > b.len() - 8 * n {
        Some(ErrorKind::InvalidOffsetValue(o))
    } else {
        None
    }
}

/// The first fault among the offsets of the fields 1 to `k - 1`.
pub open spec fn offsets_fault(b: Seq<u8>, n: int, k: nat) -> Option<ErrorKind>
    decreases k,
{
    if k <= 1 {
        None
    } else {
        match offsets_fault(b, n, (k - 1) as nat) {
            Some(e) => Some(e),
            None => offset_check(b, n, k - 1),
        }
    }
}

/// What is wrong with the tag of field `i`, if anything: its bytes spell no
/// tag, or the tag does not come after that of the field in front of it.
pub open spec fn tag_check(b: Seq<u8>, n: int, i: int) -> Option<ErrorKind> {
    match tag_at(b, n, i) {
        None => Some(ErrorKind::InvalidTag(tag_bytes_at(b, n, i))),
        Some(t) => match tag_at(b, n, i - 1) {
            Some(p) => if i > 0 && !p.precedes_spec(t) {
                Some(ErrorKind::TagNotStrictlyIncreasing(t))
            } else {
                None
            },
            None => None,
        },
    }
}

/// The first fault among the tags of the first `k` fields.
pub open spec fn tags_fault(b: Seq<u8>, n: int, k: nat) -> Option<ErrorKind>
    decreases k,
{
    if k == 0 {
        None
    } else {
        match tags_fault(b, n, (k - 1) as nat) {
            Some(e) => Some(e),
            None => tag_check(b, n, k - 1),
        }
    }
}

/// The fields that the bytes `b` hold, read as a message of `n` fields.
pub open spec fn decoded_fields(b: Seq<u8>, n: int) -> Fields {
    Seq::new(n as nat, |i: int| (tag_at(b, n, i).unwrap(), value_at(b, n, i)))
}

/// What decoding the bytes `b` gives: the fields, or the first fault in the
/// order in which the layout is read: length, field count, offsets, tags.
pub open spec fn decode_fields(b: Seq<u8>) -> Result<Fields, ErrorKind> {
    let n = le_u32(b) as int;
    if b.len() < 4 {
        Err(ErrorKind::MessageTooShort)
    } else if b.len() % 4 != 0 {
        Err(ErrorKind::InvalidAlignment((b.len() % 0x1_0000_0000) as u32))
    } else if n == 0 || 8 * n > b.len() {
        Err(ErrorKind::InvalidNumTags(n as u32))
    } else if offsets_fault(b, n, n as nat) is Some {
        Err(offsets_fault(b, n, n as nat).unwrap())
    } else if tags_fault(b, n, n as nat) is Some {
        Err(tags_fault(b, n, n as nat).unwrap())
    } else {
        Ok(decoded_fields(b, n))
    }
}

/// What decoding a request gives: nothing of a request under the minimum
/// length is read.
pub open spec fn decode_request_fields(b: Seq<u8>) -> Result<Fields, ErrorKind> {
    if b.len() < MIN_REQUEST_LENGTH {
        Err(ErrorKind::RequestTooShort)
    } else {
        decode_fields(b)
    }
}

/// Whether the bytes are long enough, aligned, and declare `n` fields that
/// they have room for.
pub open spec fn header_fits(b: Seq<u8>, n: int) -> bool {
    &&& b.len() >= 4
    &&& b.len() % 4 == 0
    &&& n == le_u32(b)
    &&& n != 0
    &&& 8 * n <= b.len()
}

/// Whether each of the tags precedes all those behind it.
pub open spec fn tags_ascending(tags: Seq<Tag>) -> bool {
    forall|p: int, q: int|
        0 <= p < q < tags.len() ==> (#[trigger] tags[p]).precedes_spec(#[trigger] tags[q])
}

/// A tag that comes after the last of an ascending list extends the list.
pub proof fn lemma_tags_ascending_push(tags: Seq<Tag>, tag: Tag)
    requires
        tags_ascending(tags),
        tags.len() == 0 || tags.last().precedes_spec(tag),
    ensures
        tags_ascending(tags.push(tag)),
{
    let longer = tags.push(tag);
    assert forall|p: int, q: int| 0 <= p < q < longer.len() implies (#[trigger] longer[p]).precedes_spec(
        #[trigger] longer[q],
    ) by {
        if q < tags.len() {
            assert(tags[p].precedes_spec(tags[q]));
        } else if p < tags.len() - 1 {
            assert(tags[p].precedes_spec(tags[tags.len() - 1]));
        }
    }
}

/// A fault among the first offsets is the first fault among all of them.
pub proof fn lemma_offsets_fault_stays(b: Seq<u8>, n: int, j: nat, k: nat)
    requires
        j <= k,
        offsets_fault(b, n, j) is Some,
    ensures
        offsets_fault(b, n, k) == offsets_fault(b, n, j),
    decreases k,
{
    if j < k {
        lemma_offsets_fault_stays(b, n, j, (k - 1) as nat);
    }
}

/// A fault among the first tags is the first fault among all of them.
pub proof fn lemma_tags_fault_stays(b: Seq<u8>, n: int, j: nat, k: nat)
    requires
        j <= k,
        tags_fault(b, n, j) is Some,
    ensures
        tags_fault(b, n, k) == tags_fault(b, n, j),
    decreases k,
{
    if j < k {
        lemma_tags_fault_stays(b, n, j, (k - 1) as nat);
    }
}

/// A message: fields in strictly ascending order of their tags.
#[derive(Debug)]
pub struct RtMessage {
    tags: Vec<Tag>,
    values: Vec<Vec<u8>>,
}

impl View for RtMessage {
    type V = Fields;

    closed spec fn view(&self) -> Fields {
        Seq::new(self.tags@.len(), |i: int| (self.tags@[i], self.values@[i]@))
    }
}

impl RtMessage {
    /// The invariant of a message: a value for each tag, and the tags
    /// ascending.
    pub closed spec fn wf(&self) -> bool {
        &&& self.tags@.len() == self.values@.len()
        &&& ascending(self@)
    }

    /// A well-formed message has ascending fields, hence at most 14.
    pub proof fn lemma_wf(&self)
        requires
            self.wf(),
        ensures
            ascending(self@),
            self@.len() <= TAG_COUNT,
    {
        lemma_ascending_len(self@);
    }

    /// An empty message with room for `num_fields` fields.
    pub fn new(num_fields: u32) -> (msg: RtMessage)
        ensures
            msg.wf(),
            msg@ == Fields::empty(),
    {
        let msg = RtMessage {
            tags: Vec::with_capacity(num_fields as usize),
            values: Vec::with_capacity(num_fields as usize),
        };
        proof {
            assert(msg@ =~= Fields::empty());
        }
        msg
    }

    /// Adds a field behind those that the message has. The tag must come
    /// after the last one; otherwise the message stays as it is and the tag
    /// comes back in the error.
    pub fn add_field(&mut self, tag: Tag, value: &[u8]) -> (res: Result<(), Error>)
        requires
            old(self).wf(),
        ensures
            final(self).wf(),
            match res {
                Ok(_) => can_append(old(self)@, tag) && final(self)@ == old(self)@.push(
                    (tag, value@),
                ),
                Err(e) => !can_append(old(self)@, tag) && final(self)@ == old(self)@ && e@
                    == ErrorKind::TagNotStrictlyIncreasing(tag),
            },
    {
        let n = self.tags.len();
        if n > 0 {
            let last = self.tags[n - 1];
            proof {
                assert(self@.last().0 == last);
            }
            if !last.precedes(tag) {
                return Err(Error::TagNotStrictlyIncreasing(tag));
            }
        }
        let ghost before = self@;
        self.tags.push(tag);
        self.values.push(slice_to_vec(value));
        proof {
            assert(self@ =~= before.push((tag, value@)));
            assert forall|i: int, j: int| 0 <= i < j < self@.len() implies (#[trigger] self@[i]).0.precedes_spec(
                (#[trigger] self@[j]).0,
            ) by {
                if j < before.len() {
                    assert(before[i].0.precedes_spec(before[j].0));
                } else if i < before.len() - 1 {
                    assert(before[i].0.precedes_spec(before[before.len() - 1].0));
                }
            }
        }
        Ok(())
    }

    /// The number of fields.
    pub fn num_fields(&self) -> (n: u32)
        requires
            self.wf(),
        ensures
            n == self@.len(),
    {
        proof {
            self.lemma_wf();
        }
        self.tags.len() as u32
    }

    /// The value of the field with this tag, if the message has one.
    pub fn get_field(&self, tag: Tag) -> (res: Option<&[u8]>)
        requires
            self.wf(),
        ensures
            match res {
                Some(v) => field_value(self@, tag) == Some(v@),
                None => field_value(self@, tag) is None,
            },
    {
        let mut i: usize = 0;
        while i < self.tags.len()
            invariant
                self.wf(),
                i <= self.tags@.len(),
                forall|j: int| 0 <= j < i ==> (#[trigger] self@[j]).0 != tag,
            decreases self.tags@.len() - i,
        {
            if self.tags[i] == tag {
                proof {
                    assert(self@[i as int].0 == tag);
                    lemma_field_value_at(self@, i as int);
                }
                return Some(self.values[i].as_slice());
            }
            i += 1;
        }
        None
    }

    /// The number of bytes that `encode` gives.
    pub fn encoded_size(&self) -> (n: usize)
        requires
            self.wf(),
            encodable(self@),
        ensures
            n == encode_fields(self@).len(),
            n == 4 + 4 * (if self@.len() == 0 { 0 } else { 2 * self@.len() - 1 }) + values_len(self@, self@.len()),
    {
        let count = self.tags.len();
        let mut total: usize = if count == 0 { 4 } else { 8 * count };
        let mut i: usize = 0;
        proof {
            self.lemma_wf();
        }
        while i < count
            invariant
                self.wf(),
                encodable(self@),
                count == self@.len(),
                count <= TAG_COUNT,
                i <= count,
                total == (if count == 0 { 4 } else { 8 * count }) + values_len(self@, i as nat),
            decreases count - i,
        {
            proof {
                lemma_values_len_monotone(self@, (i + 1) as nat, count as nat);
            }
            total = total + self.values[i].len();
            i += 1;
        }
        proof {
            lemma_encode_len(self@);
        }
        total
    }

    /// The message as bytes.
    pub fn encode(&self) -> (out: Vec<u8>)
        requires
            self.wf(),
            encodable(self@),
        ensures
            out@ == encode_fields(self@),
    {
        let count = self.tags.len();
        proof {
            self.lemma_wf();
        }
        let mut out: Vec<u8> = Vec::new();
        let head = encode_u32(count as u32);
        append_bytes(&mut out, head.as_slice());
        let ghost f = self@;
        let mut sum: u32 = 0;
        let mut k: usize = 1;
        while k < count
            invariant
                self.wf(),
                encodable(f),
                f == self@,
                count == f.len(),
                1 <= k,
                k == 1 || k <= count,
                sum == values_len(f, (k - 1) as nat),
                out@ == u32_le_bytes(count as u32) + offsets_part(f, k as nat),
            decreases count - k,
        {
            proof {
                lemma_values_len_monotone(f, k as nat, count as nat);
            }
            sum = sum + self.values[k - 1].len() as u32;
            let word = encode_u32(sum);
            append_bytes(&mut out, word.as_slice());
            k += 1;
            proof {
                assert(out@ =~= u32_le_bytes(count as u32) + offsets_part(f, k as nat));
            }
        }
        let ghost head_and_offsets = out@;
        proof {
            assert(offsets_part(f, k as nat) == offsets_part(f, count as nat));
        }
        let mut i: usize = 0;
        while i < count
            invariant
                self.wf(),
                f == self@,
                count == f.len(),
                i <= count,
                out@ == head_and_offsets + tags_part(f, i as nat),
            decreases count - i,
        {
            let wire = self.tags[i].wire_value();
            append_bytes(&mut out, wire.as_slice());
            i += 1;
            proof {
                assert(out@ =~= head_and_offsets + tags_part(f, i as nat));
            }
        }
        let ghost before_values = out@;
        let mut j: usize = 0;
        while j < count
            invariant
                self.wf(),
                f == self@,
                count == f.len(),
                j <= count,
                out@ == before_values + values_part(f, j as nat),
            decreases count - j,
        {
            append_bytes(&mut out, self.values[j].as_slice());
            j += 1;
            proof {
                assert(out@ =~= before_values + values_part(f, j as nat));
            }
        }
        out
    }

    /// Reads a message from its bytes.
    pub fn from_bytes(bytes: &[u8]) -> (res: Result<RtMessage, Error>)
        ensures
            match res {
                Ok(msg) => msg.wf() && decode_fields(bytes@) == Ok::<Fields, ErrorKind>(msg@),
                Err(e) => decode_fields(bytes@) == Err::<Fields, ErrorKind>(e@),
            },
    {
        let len = bytes.len();
        if len < 4 {
            return Err(Error::MessageTooShort);
        }
        if len % 4 != 0 {
            return Err(Error::InvalidAlignment(((len as u64) % 0x1_0000_0000u64) as u32));
        }
        let count: u32 = decode_u32(bytes);
        if count == 0 || count as usize > len / 8 {
            return Err(Error::InvalidNumTags(count));
        }
        let n: usize = count as usize;
        let area: usize = len - 8 * n;
        let ghost b = bytes@;
        let ghost ni = n as int;

        let mut previous: u32 = 0;
        let mut k: usize = 1;
        while k < n
            invariant
                b == bytes@,
                len == b.len(),
                ni == n,
                header_fits(b, ni),
                1 <= k <= n,
                area == len - 8 * n,
                previous == offset_at(b, k - 1),
                offsets_fault(b, ni, k as nat) is None,
                forall|i: int| 1 <= i < k ==> offset_check(b, ni, i) is None,
            decreases n - k,
        {
            let offset: u32 = decode_u32(slice_subrange(bytes, 4 * k, 4 * k + 4));
            proof {
                assert(offset == offset_at(b, k as int));
                assert(offsets_fault(b, ni, (k + 1) as nat) == offset_check(b, ni, k as int));
            }
            if offset % 4 != 0 {
                proof {
                    lemma_offsets_fault_stays(b, ni, (k + 1) as nat, n as nat);
                }
                return Err(Error::InvalidAlignment(offset));
            }
            if offset < previous || offset as usize > area {
                proof {
                    lemma_offsets_fault_stays(b, ni, (k + 1) as nat, n as nat);
                }
                return Err(Error::InvalidOffsetValue(offset));
            }
            previous = offset;
            k += 1;
        }

        let mut tags: Vec<Tag> = Vec::new();
        let mut i: usize = 0;
        while i < n
            invariant
                b == bytes@,
                len == b.len(),
                ni == n,
                header_fits(b, ni),
                offsets_fault(b, ni, ni as nat) is None,
                i <= n,
                tags@.len() == i,
                tags_fault(b, ni, i as nat) is None,
                forall|j: int| 0 <= j < i ==> tag_at(b, ni, j) == Some(#[trigger] tags@[j]),
                tags_ascending(tags@),
            decreases n - i,
        {
            let spelled = slice_subrange(bytes, 4 * n + 4 * i, 4 * n + 4 * i + 4);
            match Tag::from_wire(spelled) {
                Err(e) => {
                    proof {
                        assert(tag_check(b, ni, i as int) == Some(e@));
                        assert(tags_fault(b, ni, (i + 1) as nat) == Some(e@));
                        lemma_tags_fault_stays(b, ni, (i + 1) as nat, n as nat);
                    }
                    return Err(e);
                },
                Ok(tag) => {
                    proof {
                        assert(tag_at(b, ni, i as int) == Some(tag));
                        if i > 0 {
                            assert(tag_at(b, ni, i - 1) == Some(tags@[i - 1]));
                        }
                    }
                    if i > 0 && !tags[i - 1].precedes(tag) {
                        proof {
                            assert(tag_check(b, ni, i as int) == Some(
                                ErrorKind::TagNotStrictlyIncreasing(tag),
                            ));
                            assert(tags_fault(b, ni, (i + 1) as nat) == tag_check(b, ni, i as int));
                            lemma_tags_fault_stays(b, ni, (i + 1) as nat, n as nat);
                        }
                        return Err(Error::TagNotStrictlyIncreasing(tag));
                    }
                    proof {
                        assert(tag_check(b, ni, i as int) is None);
                        assert(tags_fault(b, ni, (i + 1) as nat) is None);
                        lemma_tags_ascending_push(tags@, tag);
                    }
                    tags.push(tag);
                    i += 1;
                },
            }
        }

        let mut values: Vec<Vec<u8>> = Vec::new();
        let mut start: usize = 0;
        let mut j: usize = 0;
        while j < n
            invariant
                b == bytes@,
                len == b.len(),
                ni == n,
                header_fits(b, ni),
                j <= n,
                area == len - 8 * n,
                j < n ==> start == offset_at(b, j as int),
                start <= area,
                values@.len() == j,
                offsets_fault(b, ni, ni as nat) is None,
                tags_fault(b, ni, ni as nat) is None,
                tags@.len() == n,
                forall|i: int| 0 <= i < n ==> tag_at(b, ni, i) == Some(#[trigger] tags@[i]),
                tags_ascending(tags@),
                forall|i: int| 1 <= i < n ==> offset_check(b, ni, i) is None,
                forall|i: int| 0 <= i < j ==> (#[trigger] values@[i])@ == value_at(b, ni, i),
            decreases n - j,
        {
            let end: usize = if j + 1 < n {
                proof {
                    assert(offset_check(b, ni, j + 1) is None);
                }
                decode_u32(slice_subrange(bytes, 4 * (j + 1), 4 * (j + 1) + 4)) as usize
            } else {
                area
            };
            values.push(slice_to_vec(slice_subrange(bytes, 8 * n + start, 8 * n + end)));
            start = end;
            j += 1;
        }
        let msg = RtMessage { tags, values };
        proof {
            assert(msg@ =~= decoded_fields(b, ni));
            assert forall|p: int, q: int| 0 <= p < q < msg@.len() implies (#[trigger] msg@[p]).0.precedes_spec(
                (#[trigger] msg@[q]).0,
            ) by {
                assert(tags@[p].precedes_spec(tags@[q]));
            }
        }
        Ok(msg)
    }

    /// Reads a request from its bytes. A request of fewer than 1024 bytes is
    /// refused before anything of it is read.
    pub fn from_request_bytes(bytes: &[u8]) -> (res: Result<RtMessage, Error>)
        ensures
            bytes@.len() < MIN_REQUEST_LENGTH ==> res is Err && res->Err_0@
                == ErrorKind::RequestTooShort,
            match res {
                Ok(msg) => msg.wf() && decode_request_fields(bytes@) == Ok::<Fields, ErrorKind>(
                    msg@,
                ),
                Err(e) => decode_request_fields(bytes@) == Err::<Fields, ErrorKind>(e@),
            },
    {
        if bytes.len() < MIN_REQUEST_LENGTH {
            return Err(Error::RequestTooShort);
        }
        RtMessage::from_bytes(bytes)
    }
}

/// The offsets of the fields 1 to `k - 1` take four bytes each.
pub proof fn lemma_offsets_part_len(f: Fields, k: nat)
    ensures
        offsets_part(f, k).len() == (if k == 0 { 0 } else { 4 * (k - 1) }),
    decreases k,
{
    if k > 1 {
        lemma_offsets_part_len(f, (k - 1) as nat);
    }
}

/// The tags of `k` fields take four bytes each.
pub proof fn lemma_tags_part_len(f: Fields, k: nat)
    ensures
        tags_part(f, k).len() == 4 * k,
    decreases k,
{
    if k > 0 {
        lemma_tags_part_len(f, (k - 1) as nat);
    }
}

/// The values of `k` fields take as many bytes as they have together.
pub proof fn lemma_values_part_len(f: Fields, k: nat)
    ensures
        values_part(f, k).len() == values_len(f, k),
    decreases k,
{
    if k > 0 {
        lemma_values_part_len(f, (k - 1) as nat);
    }
}

/// The length of an encoded message: four bytes for the count, four for
/// each offset and each tag, and the values.
pub proof fn lemma_encode_len(f: Fields)
    ensures
        encode_fields(f).len() == 4 + 4 * (if f.len() == 0 { 0 } else { 2 * f.len() - 1 }) + values_len(f, f.len()),
{
    lemma_offsets_part_len(f, f.len());
    lemma_tags_part_len(f, f.len());
    lemma_values_part_len(f, f.len());
}

} // verus!
