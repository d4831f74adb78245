//! The RemVSP wire entities and their on-wire byte layout.
//!
//! One datagram carries one serialized fragment, laid out little-endian as
//! `frame_id (8) | frame_fragments_count (2) | fragment_size (2) |
//! capture_timestamp (16) | fragment_id (2) | data_length (8) | data`.
//! Serialization and parsing are inverse to each other.

use vstd::prelude::*;

use crate::bufops::copy_range;
use crate::bytes_le::{
    le_bytes, le_value, lemma_le_bytes_len, lemma_le_round_trip, lemma_le_value_bound, pow256,
    push_le_bytes, read_le_bytes,
};

verus! {

/// Bytes of the fixed prefix that precedes a fragment's payload.
pub const FRAGMENT_PREFIX_LEN: usize = 38;

/// Header shared by all fragments of one frame.
#[derive(Clone, Copy, Debug, PartialEq, Eq, Structural)]
pub struct RemVSPFrameHeader {
    pub frame_id: u64,
    pub frame_fragments_count: u16,
    pub fragment_size: u16,
    pub capture_timestamp: u128,
}

/// One datagram's worth of an encoded frame.
#[derive(Debug)]
pub struct RemVSPFrameFragment {
    pub frame_header: RemVSPFrameHeader,
    pub fragment_id: u16,
    pub data: Vec<u8>,
}

/// Mathematical model of a fragment.
pub struct FragmentView {
    pub frame_header: RemVSPFrameHeader,
    pub fragment_id: u16,
    pub data: Seq<u8>,
}

impl View for RemVSPFrameFragment {
    type V = FragmentView;

    open spec fn view(&self) -> FragmentView {
        FragmentView { frame_header: self.frame_header, fragment_id: self.fragment_id, data: self.data@ }
    }
}

/// The on-wire bytes of a fragment header.
pub open spec fn header_bytes(h: RemVSPFrameHeader) -> Seq<u8> {
    le_bytes(h.frame_id as nat, 8) + le_bytes(h.frame_fragments_count as nat, 2)
        + le_bytes(h.fragment_size as nat, 2) + le_bytes(h.capture_timestamp as nat, 16)
}

/// The on-wire bytes of a whole fragment.
pub open spec fn fragment_bytes(f: FragmentView) -> Seq<u8> {
    header_bytes(f.frame_header) + le_bytes(f.fragment_id as nat, 2)
        + le_bytes(f.data.len(), 8) + f.data
}

/// The fragment a datagram denotes, if it is well-formed: long enough for
/// the prefix, with a declared data length that matches the bytes present.
pub open spec fn parse_fragment_spec(s: Seq<u8>) -> Option<FragmentView> {
    if s.len() < FRAGMENT_PREFIX_LEN {
        None
    } else if le_value(s.subrange(30, 38)) != s.len() - FRAGMENT_PREFIX_LEN {
        None
    } else {
        Some(FragmentView {
            frame_header: RemVSPFrameHeader {
                frame_id: le_value(s.subrange(0, 8)) as u64,
                frame_fragments_count: le_value(s.subrange(8, 10)) as u16,
                fragment_size: le_value(s.subrange(10, 12)) as u16,
                capture_timestamp: le_value(s.subrange(12, 28)) as u128,
            },
            fragment_id: le_value(s.subrange(28, 30)) as u16,
            data: s.skip(38),
        })
    }
}

/// Serializes a fragment into the bytes of one datagram.
pub fn serialize_fragment(f: &RemVSPFrameFragment) -> (r: Vec<u8>)
    ensures
        r@ == fragment_bytes(f@),
{
    let mut out: Vec<u8> = Vec::new();
    push_le_bytes(&mut out, f.frame_header.frame_id as u128, 8);
    push_le_bytes(&mut out, f.frame_header.frame_fragments_count as u128, 2);
    push_le_bytes(&mut out, f.frame_header.fragment_size as u128, 2);
    push_le_bytes(&mut out, f.frame_header.capture_timestamp, 16);
    push_le_bytes(&mut out, f.fragment_id as u128, 2);
    push_le_bytes(&mut out, f.data.len() as u128, 8);
    let mut data = copy_range(&f.data, 0, f.data.len());
    out.append(&mut data);
    proof {
        assert(f.data@.subrange(0, f.data@.len() as int) =~= f.data@);
        assert(out@ =~= fragment_bytes(f@));
    }
    out
}

/// Parses the bytes of one datagram. Returns the denoted fragment, or
/// nothing exactly when the datagram is malformed.
pub fn parse_fragment(datagram: &Vec<u8>) -> (r: Option<RemVSPFrameFragment>)
    ensures
        match r {
            Some(f) => parse_fragment_spec(datagram@) == Some(f@),
            None => parse_fragment_spec(datagram@) is None,
        },
{
    let len = datagram.len();
    if len < FRAGMENT_PREFIX_LEN {
        return None;
    }
    let declared_len = read_le_bytes(datagram, 30, 8);
    proof {
        lemma_le_value_bound(datagram@.subrange(30, 38));
        reveal_with_fuel(pow256, 9);
    }
    if declared_len != (len - FRAGMENT_PREFIX_LEN) as u128 {
        return None;
    }
    let frame_id_v = read_le_bytes(datagram, 0, 8);
    let count_v = read_le_bytes(datagram, 8, 2);
    let size_v = read_le_bytes(datagram, 10, 2);
    let ts_v = read_le_bytes(datagram, 12, 16);
    let frag_id_v = read_le_bytes(datagram, 28, 2);
    proof {
        lemma_le_value_bound(datagram@.subrange(0, 8));
        lemma_le_value_bound(datagram@.subrange(8, 10));
        lemma_le_value_bound(datagram@.subrange(10, 12));
        lemma_le_value_bound(datagram@.subrange(28, 30));
        reveal_with_fuel(pow256, 9);
    }
    let data = copy_range(datagram, FRAGMENT_PREFIX_LEN, len);
    proof {
        assert(datagram@.subrange(FRAGMENT_PREFIX_LEN as int, len as int) =~= datagram@.skip(38));
    }
    Some(RemVSPFrameFragment {
        frame_header: RemVSPFrameHeader {
            frame_id: frame_id_v as u64,
            frame_fragments_count: count_v as u16,
            fragment_size: size_v as u16,
            capture_timestamp: ts_v,
        },
        fragment_id: frag_id_v as u16,
        data,
    })
}

/// Law: parsing the serialization of any fragment yields that fragment,
/// provided its payload length fits the eight-byte length field.
pub proof fn lemma_fragment_wire_round_trip(f: FragmentView)
    requires
        f.data.len() < pow256(8),
    ensures
        parse_fragment_spec(fragment_bytes(f)) == Some(f),
{
    let s = fragment_bytes(f);
    lemma_le_bytes_len(f.frame_header.frame_id as nat, 8);
    lemma_le_bytes_len(f.frame_header.frame_fragments_count as nat, 2);
    lemma_le_bytes_len(f.frame_header.fragment_size as nat, 2);
    lemma_le_bytes_len(f.frame_header.capture_timestamp as nat, 16);
    lemma_le_bytes_len(f.fragment_id as nat, 2);
    lemma_le_bytes_len(f.data.len(), 8);
    assert(s.len() == 38 + f.data.len());
    assert(s.subrange(0, 8) =~= le_bytes(f.frame_header.frame_id as nat, 8));
    assert(s.subrange(8, 10) =~= le_bytes(f.frame_header.frame_fragments_count as nat, 2));
    assert(s.subrange(10, 12) =~= le_bytes(f.frame_header.fragment_size as nat, 2));
    assert(s.subrange(12, 28) =~= le_bytes(f.frame_header.capture_timestamp as nat, 16));
    assert(s.subrange(28, 30) =~= le_bytes(f.fragment_id as nat, 2));
    assert(s.subrange(30, 38) =~= le_bytes(f.data.len(), 8));
    assert(s.skip(38) =~= f.data);
    reveal_with_fuel(pow256, 17);
    lemma_le_round_trip(f.frame_header.frame_id as nat, 8);
    lemma_le_round_trip(f.frame_header.frame_fragments_count as nat, 2);
    lemma_le_round_trip(f.frame_header.fragment_size as nat, 2);
    lemma_le_round_trip(f.frame_header.capture_timestamp as nat, 16);
    lemma_le_round_trip(f.fragment_id as nat, 2);
    lemma_le_round_trip(f.data.len(), 8);
}

} // verus!
