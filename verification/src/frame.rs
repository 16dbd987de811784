//! The wire format of the remote-print transport.
//!
//! An outbound message is framed as a fixed-size header — a 2-byte
//! little-endian length field covering the header plus the payload —
//! followed by the raw payload bytes, and sent as one datagram.  Framing
//! and header parsing are verified here; binding and sending on a socket
//! are the caller's side of the boundary.

use vstd::prelude::*;

use crate::err::FrameError;

verus! {

/// The number of bytes in a frame header: one 16-bit length field.
pub const HEADER_SIZE: usize = 2;

/// The largest payload a single UDP datagram can carry.
pub const MAX_UDP_DATAGRAM_BYTES: usize = 65507;

/// The largest message payload, leaving room for the frame header.
pub const MAX_MESSAGE_SIZE: usize = 65505;

/// The concatenation of a series of message parts, in order.
pub open spec fn parts_bytes(parts: Seq<Seq<u8>>) -> Seq<u8>
    decreases parts.len(),
{
    if parts.len() == 0 {
        Seq::empty()
    } else {
        parts_bytes(parts.drop_last()) + parts.last()
    }
}

/// The little-endian byte form of a 16-bit length field holding `n`.
pub open spec fn header_bytes(n: int) -> Seq<u8> {
    seq![(n % 256) as u8, (n / 256) as u8]
}

/// The value a 2-byte little-endian length field holds.
pub open spec fn header_value(b0: u8, b1: u8) -> int {
    b0 + 256 * b1
}

/// A prefix of the parts never concatenates to more bytes than all of
/// them.
proof fn lemma_parts_bytes_prefix_le(parts: Seq<Seq<u8>>, i: int)
    requires
        0 <= i <= parts.len(),
    ensures
        parts_bytes(parts.take(i)).len() <= parts_bytes(parts).len(),
    decreases parts.len(),
{
    if i == parts.len() {
        assert(parts.take(i) =~= parts);
    } else {
        assert(parts.take(i) =~= parts.drop_last().take(i));
        lemma_parts_bytes_prefix_le(parts.drop_last(), i);
    }
}

/// Concatenates `parts` and prepends the frame header, whose length
/// field counts the header itself plus the payload.  Fails exactly when
/// that total does not fit the 16-bit length field.
pub fn frame_message(parts: &Vec<Vec<u8>>) -> (r: Result<Vec<u8>, FrameError>)
    ensures
        (match r {
            Ok(m) => {
                &&& HEADER_SIZE + parts_bytes(parts.deep_view()).len() <= 0xffff
                &&& m@.len() == HEADER_SIZE + parts_bytes(parts.deep_view()).len()
                &&& m@ == header_bytes(m@.len() as int) + parts_bytes(parts.deep_view())
            },
            Err(e) => {
                &&& HEADER_SIZE + parts_bytes(parts.deep_view()).len() > 0xffff
                &&& e == FrameError::TooLarge
            },
        }),
{
    let ghost deep = parts.deep_view();
    let mut total: usize = HEADER_SIZE;
    let mut i: usize = 0;
    while i < parts.len()
        invariant
            i <= deep.len(),
            deep.len() == parts@.len(),
            deep == parts.deep_view(),
            forall|k: int| 0 <= k < deep.len() ==> deep[k] == parts@[k]@,
            total == HEADER_SIZE + parts_bytes(deep.take(i as int)).len(),
            total <= 0xffff,
        decreases deep.len() - i,
    {
        let part_len = parts[i].len();
        proof {
            assert(deep.take(i + 1).drop_last() =~= deep.take(i as int));
            assert(deep.take(i + 1).last() == deep[i as int]);
        }
        if part_len > 0xffff - total {
            proof {
                lemma_parts_bytes_prefix_le(deep, i + 1);
            }
            return Err(FrameError::TooLarge);
        }
        total = total + part_len;
        i += 1;
    }
    proof {
        assert(deep.take(deep.len() as int) =~= deep);
    }

    let mut m: Vec<u8> = Vec::new();
    m.push((total % 256) as u8);
    m.push((total / 256) as u8);
    let mut j: usize = 0;
    while j < parts.len()
        invariant
            j <= deep.len(),
            deep.len() == parts@.len(),
            deep == parts.deep_view(),
            forall|k: int| 0 <= k < deep.len() ==> deep[k] == parts@[k]@,
            m@ == header_bytes(total as int) + parts_bytes(deep.take(j as int)),
        decreases deep.len() - j,
    {
        m.extend_from_slice(parts[j].as_slice());
        proof {
            assert(deep.take(j + 1).drop_last() =~= deep.take(j as int));
            assert(deep.take(j + 1).last() == deep[j as int]);
            assert(m@ =~= header_bytes(total as int) + parts_bytes(deep.take(j + 1)));
        }
        j += 1;
    }
    proof {
        assert(deep.take(deep.len() as int) =~= deep);
    }
    Ok(m)
}

/// Reads the length field of a framed datagram: the total number of
/// bytes the frame claims, header included.  Fails exactly when the data
/// is too short to hold a header.
pub fn parse_header(data: &[u8]) -> (r: Option<u16>)
    ensures
        data@.len() >= HEADER_SIZE ==> r == Some(header_value(data@[0], data@[1]) as u16),
        data@.len() < HEADER_SIZE ==> r is None,
{
    if data.len() < HEADER_SIZE {
        return None;
    }
    Some(data[0] as u16 + 256 * (data[1] as u16))
}

/// The payload of a framed datagram: everything after the header.
/// Fails exactly when the data is too short to hold a header.
pub fn payload_of(data: &[u8]) -> (r: Option<Vec<u8>>)
    ensures
        data@.len() >= HEADER_SIZE ==> (match r {
            Some(p) => p@ == data@.skip(HEADER_SIZE as int),
            None => false,
        }),
        data@.len() < HEADER_SIZE ==> r is None,
{
    if data.len() < HEADER_SIZE {
        return None;
    }
    let mut p: Vec<u8> = Vec::new();
    let mut i: usize = HEADER_SIZE;
    while i < data.len()
        invariant
            HEADER_SIZE <= i <= data@.len(),
            p@ == data@.subrange(HEADER_SIZE as int, i as int),
        decreases data@.len() - i,
    {
        p.push(data[i]);
        proof {
            assert(p@ =~= data@.subrange(HEADER_SIZE as int, i + 1));
        }
        i += 1;
    }
    proof {
        assert(p@ =~= data@.skip(HEADER_SIZE as int));
    }
    Some(p)
}

} // verus!
