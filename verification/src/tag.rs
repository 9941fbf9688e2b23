//! The identifiers of message fields.

use crate::error::{Error, ErrorKind};
use crate::wire::{decode_u32, le_u32, lemma_bytes_of_le_u32};
use vstd::prelude::*;
use vstd::slice::slice_to_vec;

verus! {

/// The name of a field. The variants stand in ascending order: a tag comes
/// before another when its four wire bytes, read as a little-endian number,
/// are the smaller.
#[derive(Clone, Copy, Debug, PartialEq, Eq, Hash, Structural)]
pub enum Tag {
    SIG,
    NONC,
    DELE,
    PATH,
    RADI,
    PUBK,
    MIDP,
    SREP,
    MINT,
    ROOT,
    CERT,
    MAXT,
    INDX,
    PAD,
}

/// How many tags there are.
pub const TAG_COUNT: usize = 14;

impl Tag {
    /// The four bytes of the tag on the wire: its ASCII name, filled up with
    /// a zero byte for `SIG` and with `0xff` for `PAD`.
    pub open spec fn wire_bytes(self) -> Seq<u8> {
        match self {
            Tag::SIG => seq![0x53u8, 0x49u8, 0x47u8, 0x00u8],
            Tag::NONC => seq![0x4eu8, 0x4fu8, 0x4eu8, 0x43u8],
            Tag::DELE => seq![0x44u8, 0x45u8, 0x4cu8, 0x45u8],
            Tag::PATH => seq![0x50u8, 0x41u8, 0x54u8, 0x48u8],
            Tag::RADI => seq![0x52u8, 0x41u8, 0x44u8, 0x49u8],
            Tag::PUBK => seq![0x50u8, 0x55u8, 0x42u8, 0x4bu8],
            Tag::MIDP => seq![0x4du8, 0x49u8, 0x44u8, 0x50u8],
            Tag::SREP => seq![0x53u8, 0x52u8, 0x45u8, 0x50u8],
            Tag::MINT => seq![0x4du8, 0x49u8, 0x4eu8, 0x54u8],
            Tag::ROOT => seq![0x52u8, 0x4fu8, 0x4fu8, 0x54u8],
            Tag::CERT => seq![0x43u8, 0x45u8, 0x52u8, 0x54u8],
            Tag::MAXT => seq![0x4du8, 0x41u8, 0x58u8, 0x54u8],
            Tag::INDX => seq![0x49u8, 0x4eu8, 0x44u8, 0x58u8],
            Tag::PAD => seq![0x50u8, 0x41u8, 0x44u8, 0xffu8],
        }
    }

    /// The wire bytes read as a little-endian number: the key by which tags
    /// are ordered.
    pub open spec fn wire_number(self) -> u32 {
        match self {
            Tag::SIG => 0x0047_4953u32,
            Tag::NONC => 0x434e_4f4eu32,
            Tag::DELE => 0x454c_4544u32,
            Tag::PATH => 0x4854_4150u32,
            Tag::RADI => 0x4944_4152u32,
            Tag::PUBK => 0x4b42_5550u32,
            Tag::MIDP => 0x5044_494du32,
            Tag::SREP => 0x5045_5253u32,
            Tag::MINT => 0x544e_494du32,
            Tag::ROOT => 0x544f_4f52u32,
            Tag::CERT => 0x5452_4543u32,
            Tag::MAXT => 0x5458_414du32,
            Tag::INDX => 0x5844_4e49u32,
            Tag::PAD => 0xff44_4150u32,
        }
    }

    /// The place of the tag in the ascending order, from 0.
    pub open spec fn rank(self) -> nat {
        match self {
            Tag::SIG => 0,
            Tag::NONC => 1,
            Tag::DELE => 2,
            Tag::PATH => 3,
            Tag::RADI => 4,
            Tag::PUBK => 5,
            Tag::MIDP => 6,
            Tag::SREP => 7,
            Tag::MINT => 8,
            Tag::ROOT => 9,
            Tag::CERT => 10,
            Tag::MAXT => 11,
            Tag::INDX => 12,
            Tag::PAD => 13,
        }
    }

    /// Whether `self` comes strictly before `other` in the canonical order.
    pub open spec fn precedes_spec(self, other: Tag) -> bool {
        self.wire_number() < other.wire_number()
    }

    /// The tag with the given wire number, if there is one.
    pub open spec fn of_wire_number(n: u32) -> Option<Tag> {
        if n == 0x0047_4953u32 {
            Some(Tag::SIG)
        } else if n == 0x434e_4f4eu32 {
            Some(Tag::NONC)
        } else if n == 0x454c_4544u32 {
            Some(Tag::DELE)
        } else if n == 0x4854_4150u32 {
            Some(Tag::PATH)
        } else if n == 0x4944_4152u32 {
            Some(Tag::RADI)
        } else if n == 0x4b42_5550u32 {
            Some(Tag::PUBK)
        } else if n == 0x5044_494du32 {
            Some(Tag::MIDP)
        } else if n == 0x5045_5253u32 {
            Some(Tag::SREP)
        } else if n == 0x544e_494du32 {
            Some(Tag::MINT)
        } else if n == 0x544f_4f52u32 {
            Some(Tag::ROOT)
        } else if n == 0x5452_4543u32 {
            Some(Tag::CERT)
        } else if n == 0x5458_414du32 {
            Some(Tag::MAXT)
        } else if n == 0x5844_4e49u32 {
            Some(Tag::INDX)
        } else if n == 0xff44_4150u32 {
            Some(Tag::PAD)
        } else {
            None
        }
    }

    /// The tag that four bytes spell, if they spell one.
    pub open spec fn of_wire_bytes(b: Seq<u8>) -> Option<Tag> {
        if b.len() == 4 {
            Tag::of_wire_number(le_u32(b))
        } else {
            None
        }
    }
    /// The four bytes that stand for the tag on the wire.
    pub fn wire_value(self) -> (out: [u8; 4])
        ensures
            out@ == self.wire_bytes(),
    {
        let out: [u8; 4] = match self {
            Tag::SIG => [0x53u8, 0x49u8, 0x47u8, 0x00u8],
            Tag::NONC => [0x4eu8, 0x4fu8, 0x4eu8, 0x43u8],
            Tag::DELE => [0x44u8, 0x45u8, 0x4cu8, 0x45u8],
            Tag::PATH => [0x50u8, 0x41u8, 0x54u8, 0x48u8],
            Tag::RADI => [0x52u8, 0x41u8, 0x44u8, 0x49u8],
            Tag::PUBK => [0x50u8, 0x55u8, 0x42u8, 0x4bu8],
            Tag::MIDP => [0x4du8, 0x49u8, 0x44u8, 0x50u8],
            Tag::SREP => [0x53u8, 0x52u8, 0x45u8, 0x50u8],
            Tag::MINT => [0x4du8, 0x49u8, 0x4eu8, 0x54u8],
            Tag::ROOT => [0x52u8, 0x4fu8, 0x4fu8, 0x54u8],
            Tag::CERT => [0x43u8, 0x45u8, 0x52u8, 0x54u8],
            Tag::MAXT => [0x4du8, 0x41u8, 0x58u8, 0x54u8],
            Tag::INDX => [0x49u8, 0x4eu8, 0x44u8, 0x58u8],
            Tag::PAD => [0x50u8, 0x41u8, 0x44u8, 0xffu8],
        };
        proof {
            assert(out@ =~= self.wire_bytes());
        }
        out
    }

    /// The number by which the tag is ordered.
    pub fn ordinal(self) -> (n: u32)
        ensures
            n == self.wire_number(),
    {
        match self {
            Tag::SIG => 0x0047_4953u32,
            Tag::NONC => 0x434e_4f4eu32,
            Tag::DELE => 0x454c_4544u32,
            Tag::PATH => 0x4854_4150u32,
            Tag::RADI => 0x4944_4152u32,
            Tag::PUBK => 0x4b42_5550u32,
            Tag::MIDP => 0x5044_494du32,
            Tag::SREP => 0x5045_5253u32,
            Tag::MINT => 0x544e_494du32,
            Tag::ROOT => 0x544f_4f52u32,
            Tag::CERT => 0x5452_4543u32,
            Tag::MAXT => 0x5458_414du32,
            Tag::INDX => 0x5844_4e49u32,
            Tag::PAD => 0xff44_4150u32,
        }
    }

    /// Whether `self` comes strictly before `other` in the canonical order.
    pub fn precedes(self, other: Tag) -> (b: bool)
        ensures
            b == self.precedes_spec(other),
    {
        self.ordinal() < other.ordinal()
    }

    /// The tag that `bytes` spell on the wire. Bytes that spell none come
    /// back inside `Error::InvalidTag`.
    pub fn from_wire(bytes: &[u8]) -> (res: Result<Tag, Error>)
        ensures
            match res {
                Ok(t) => Tag::of_wire_bytes(bytes@) == Some(t),
                Err(e) => Tag::of_wire_bytes(bytes@) is None && e@ == ErrorKind::InvalidTag(
                    bytes@,
                ),
            },
    {
        if bytes.len() != 4 {
            return Err(Error::InvalidTag(slice_to_vec(bytes)));
        }
        let n: u32 = decode_u32(bytes);
        if n == 0x0047_4953u32 {
            Ok(Tag::SIG)
        } else if n == 0x434e_4f4eu32 {
            Ok(Tag::NONC)
        } else if n == 0x454c_4544u32 {
            Ok(Tag::DELE)
        } else if n == 0x4854_4150u32 {
            Ok(Tag::PATH)
        } else if n == 0x4944_4152u32 {
            Ok(Tag::RADI)
        } else if n == 0x4b42_5550u32 {
            Ok(Tag::PUBK)
        } else if n == 0x5044_494du32 {
            Ok(Tag::MIDP)
        } else if n == 0x5045_5253u32 {
            Ok(Tag::SREP)
        } else if n == 0x544e_494du32 {
            Ok(Tag::MINT)
        } else if n == 0x544f_4f52u32 {
            Ok(Tag::ROOT)
        } else if n == 0x5452_4543u32 {
            Ok(Tag::CERT)
        } else if n == 0x5458_414du32 {
            Ok(Tag::MAXT)
        } else if n == 0x5844_4e49u32 {
            Ok(Tag::INDX)
        } else if n == 0xff44_4150u32 {
            Ok(Tag::PAD)
        } else {
            Err(Error::InvalidTag(slice_to_vec(bytes)))
        }
    }
}

/// The wire bytes of a tag are four, they spell its wire number, and both
/// lead back to the tag.
pub proof fn lemma_tag_wire(t: Tag)
    ensures
        t.wire_bytes().len() == 4,
        le_u32(t.wire_bytes()) == t.wire_number(),
        Tag::of_wire_number(t.wire_number()) == Some(t),
        Tag::of_wire_bytes(t.wire_bytes()) == Some(t),
{
}

/// Only a tag's own wire bytes spell it.
pub proof fn lemma_tag_of_wire_bytes(b: Seq<u8>, t: Tag)
    requires
        Tag::of_wire_bytes(b) == Some(t),
    ensures
        b == t.wire_bytes(),
{
    lemma_tag_wire(t);
    lemma_bytes_of_le_u32(b);
    lemma_bytes_of_le_u32(t.wire_bytes());
    assert(le_u32(b) == t.wire_number());
}

/// The order by wire number is the order in which the variants are listed,
/// and it is strict and total: of two different tags one precedes the other.
pub proof fn lemma_tag_order(a: Tag, b: Tag)
    ensures
        a.precedes_spec(b) <==> a.rank() < b.rank(),
        a.rank() < TAG_COUNT,
        a == b <==> a.rank() == b.rank(),
        a != b ==> (a.precedes_spec(b) || b.precedes_spec(a)),
        !(a.precedes_spec(b) && b.precedes_spec(a)),
{
}

} // verus!
