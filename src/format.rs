use vstd::prelude::*;

verus! {

/// Why a decode fails. Every error aborts the whole decode.
#[derive(Debug, Clone, Copy, PartialEq, Eq, Structural)]
pub enum Error {
    /// The input ended where more bytes were structurally required.
    UnexpectedEndOfInput,
    /// The header's type selector names a body type that cannot be decoded.
    UnsupportedBlockType,
    /// A stored block's length field and its complement field disagree.
    InvalidStoredBlockLength,
}

/// What one decoded block stands for: its final flag and its payload.
pub struct BlockModel {
    pub is_final: bool,
    pub data: Seq<u8>,
}

/// Bit 0 of a header byte: set on the last block of a stream.
pub open spec fn header_final(head: u8) -> bool {
    head & 0x01 == 1
}

/// Bits 1-2 of a header byte: the body type.
pub open spec fn header_type(head: u8) -> u8 {
    (head >> 1) & 0x03
}

/// The 16-bit little-endian value of two bytes.
pub open spec fn le16(lo: u8, hi: u8) -> u16 {
    (lo as u16) | ((hi as u16) << 8)
}

/// The length field of a stored body that starts at `s`, checked against
/// its complement; `s` holds the bytes right after the header byte.
pub open spec fn stored_len(s: Seq<u8>) -> Result<u16, Error> {
    if s.len() < 4 {
        Err(Error::UnexpectedEndOfInput)
    } else if le16(s[0], s[1]) ^ le16(s[2], s[3]) != 0xFFFFu16 {
        Err(Error::InvalidStoredBlockLength)
    } else {
        Ok(le16(s[0], s[1]))
    }
}

/// A stored body that starts at `s`: its payload and the number of bytes it takes.
pub open spec fn stored_body(s: Seq<u8>) -> Result<(Seq<u8>, nat), Error> {
    match stored_len(s) {
        Err(e) => Err(e),
        Ok(len) => if s.len() < 4 + len {
            Err(Error::UnexpectedEndOfInput)
        } else {
            Ok((s.subrange(4, 4 + len), 4 + len as nat))
        },
    }
}

/// One block that starts at `s`: what it stands for and the number of bytes it takes.
pub open spec fn block(s: Seq<u8>) -> Result<(BlockModel, nat), Error> {
    if s.len() == 0 {
        Err(Error::UnexpectedEndOfInput)
    } else if header_type(s[0]) != 0 {
        Err(Error::UnsupportedBlockType)
    } else {
        match stored_body(s.drop_first()) {
            Err(e) => Err(e),
            Ok((data, n)) => Ok((BlockModel { is_final: header_final(s[0]), data }, n + 1)),
        }
    }
}

/// The chain of blocks that starts at `s`, up to and including the first final
/// block, and the number of bytes it takes.
pub open spec fn stream(s: Seq<u8>) -> Result<(Seq<BlockModel>, nat), Error>
    decreases s.len(),
{
    match block(s) {
        Err(e) => Err(e),
        Ok((b, n)) => if b.is_final {
            Ok((seq![b], n))
        } else {
            match stream(s.skip(n as int)) {
                Err(e) => Err(e),
                Ok((rest, m)) => Ok((seq![b] + rest, n + m)),
            }
        },
    }
}

/// The payloads of `bs`, concatenated in order.
pub open spec fn payload(bs: Seq<BlockModel>) -> Seq<u8> {
    bs.map_values(|b: BlockModel| b.data).flatten()
}

/// Exactly the last of `bs` is final.
pub open spec fn final_last(bs: Seq<BlockModel>) -> bool {
    &&& bs.len() > 0
    &&& bs.last().is_final
    &&& forall|i: int| 0 <= i < bs.len() - 1 ==> !(#[trigger] bs[i]).is_final
}

} // verus!
