//! Values written to a segment: a type tag followed by the value's bytes.
use vstd::prelude::*;

use crate::hamt::segment::{be_u32_at, lemma_be_u32, Segment, SegmentIndex};
use crate::hamt::trie::key::be_bytes;

verus! {

/// A value stored in a segment.
#[derive(Debug, Copy, Clone, Eq, PartialEq, Structural)]
pub enum Value {
    Uint(u32),
}

/// The tag of an unsigned value.
pub const UINT: u8 = 1;

/// The bytes of `v`: its tag, then its big-endian bytes.
pub open spec fn value_bytes(v: Value) -> Seq<u8> {
    match v {
        Value::Uint(x) => seq![UINT] + be_bytes(x),
    }
}

impl Value {
    /// The bytes of this value: its tag, then its big-endian bytes.
    pub fn to_be_bytes(&self) -> (r: Vec<u8>)
        ensures
            r@ == value_bytes(*self),
    {
        match self {
            Value::Uint(value) => {
                let mut bytes: Vec<u8> = Vec::new();
                bytes.push(UINT);
                bytes.push((*value >> 24u32) as u8);
                bytes.push((*value >> 16u32) as u8);
                bytes.push((*value >> 8u32) as u8);
                bytes.push(*value as u8);
                assert(bytes@ =~= value_bytes(*self));
                bytes
            },
        }
    }

    /// The value written at `start`, which must carry a known tag, and the
    /// position after it.
    pub fn from_be_bytes(start: SegmentIndex, segment: &Segment) -> (r: (Self, SegmentIndex))
        requires
            start.0 + 5 <= segment.bytes().len(),
            segment.bytes()[start.0 as int] == UINT,
        ensures
            r.0 == Value::Uint(be_u32_at(segment.bytes(), start.0 + 1)),
            r.1.0 == start.0 + 5,
    {
        let (value_type, start) = segment.read_u8(start);
        if value_type == UINT {
            let (value, start) = segment.read_u32(start);
            (Value::Uint(value), start)
        } else {
            vstd::pervasive::unreached()
        }
    }
}

/// A value read back from its bytes is the value written.
pub proof fn lemma_value_roundtrip(bytes: Seq<u8>, start: int, v: Value)
    requires
        0 <= start,
        start + 5 <= bytes.len(),
        bytes.subrange(start, start + 5) == value_bytes(v),
    ensures
        bytes[start] == UINT,
        v == Value::Uint(be_u32_at(bytes, start + 1)),
{
    match v {
        Value::Uint(x) => {
            assert(bytes[start] == bytes.subrange(start, start + 5)[0]);
            assert(bytes.subrange(start + 1, start + 5) =~= bytes.subrange(start, start + 5).subrange(1, 5));
            assert(value_bytes(v).subrange(1, 5) =~= be_bytes(x));
            lemma_be_u32(bytes, start + 1, x);
        },
    }
}

} // verus!
