use vstd::prelude::*;

use crate::cursor::Cursor;
use crate::format::{block, final_last, payload, stored_body, stored_len, stream, BlockModel, Error};

verus! {

/// The body of a stored block: its payload, copied verbatim.
pub struct RawBlock {
    data: Vec<u8>,
}

/// The body of a block, by type.
pub enum BlockBody {
    Raw(RawBlock),
}

/// One decoded block.
pub struct Block {
    bfinal: bool,
    body: BlockBody,
}

/// A decoded stream: its blocks, in stream order.
pub struct Deflate {
    blocks: Vec<Block>,
}

impl View for RawBlock {
    type V = Seq<u8>;

    closed spec fn view(&self) -> Seq<u8> {
        self.data@
    }
}

impl View for BlockBody {
    type V = Seq<u8>;

    open spec fn view(&self) -> Seq<u8> {
        match self {
            BlockBody::Raw(r) => r@,
        }
    }
}

impl View for Block {
    type V = BlockModel;

    closed spec fn view(&self) -> BlockModel {
        BlockModel { is_final: self.bfinal, data: self.body@ }
    }
}

/// What a sequence of blocks stands for.
pub open spec fn blocks_model(bs: Seq<Block>) -> Seq<BlockModel> {
    bs.map_values(|b: Block| b@)
}

impl View for Deflate {
    type V = Seq<BlockModel>;

    closed spec fn view(&self) -> Seq<BlockModel> {
        blocks_model(self.blocks@)
    }
}

/// Consumes one byte, or fails at the end of the input.
fn read_byte(c: &mut Cursor) -> (r: Result<u8, Error>)
    requires
        old(c).wf(),
    ensures
        final(c).wf(),
        old(c)@.len() > 0 ==> r == Ok::<u8, Error>(old(c)@[0]) && final(c)@ == old(c)@.drop_first(),
        old(c)@.len() == 0 ==> r == Err::<u8, Error>(Error::UnexpectedEndOfInput),
{
    match c.next() {
        Some(b) => Ok(b),
        None => Err(Error::UnexpectedEndOfInput),
    }
}

impl RawBlock {
    /// Reads the length field and its complement, and checks that they agree.
    pub fn decode_len(c: &mut Cursor) -> (r: Result<usize, Error>)
        requires
            old(c).wf(),
        ensures
            final(c).wf(),
            match stored_len(old(c)@) {
                Ok(len) => r == Ok::<usize, Error>(len as usize) && final(c)@ == old(c)@.skip(4),
                Err(e) => r == Err::<usize, Error>(e),
            },
    {
        let ghost s = c@;
        let len0 = match read_byte(c) {
            Ok(b) => b,
            Err(e) => return Err(e),
        };
        let len1 = match read_byte(c) {
            Ok(b) => b,
            Err(e) => return Err(e),
        };
        let nlen0 = match read_byte(c) {
            Ok(b) => b,
            Err(e) => return Err(e),
        };
        let nlen1 = match read_byte(c) {
            Ok(b) => b,
            Err(e) => return Err(e),
        };
        assert(c@ =~= s.skip(4));
        let len: u16 = (len0 as u16) | ((len1 as u16) << 8);
        let nlen: u16 = (nlen0 as u16) | ((nlen1 as u16) << 8);
        if (len ^ nlen) != 0xFFFF {
            return Err(Error::InvalidStoredBlockLength);
        }
        Ok(len as usize)
    }

    /// Decodes a stored body; the cursor stands right after the header byte.
    pub fn decode(c: &mut Cursor) -> (r: Result<RawBlock, Error>)
        requires
            old(c).wf(),
        ensures
            final(c).wf(),
            match stored_body(old(c)@) {
                Ok((data, n)) => r matches Ok(raw) && raw@ == data && final(c)@ == old(c)@.skip(
                    n as int,
                ),
                Err(e) => r == Err::<RawBlock, Error>(e),
            },
    {
        let ghost s = c@;
        let len = match RawBlock::decode_len(c) {
            Ok(len) => len,
            Err(e) => return Err(e),
        };
        let ghost t = c@;
        let mut data: Vec<u8> = Vec::new();
        let mut i: usize = 0;
        while i < len
            invariant
                c.wf(),
                s == old(c)@,
                t == s.skip(4),
                i <= len,
                len == stored_len(s)->Ok_0,
                stored_len(s) is Ok,
                t.len() >= i,
                c@ == t.skip(i as int),
                data@ == t.take(i as int),
            decreases len - i,
        {
            let b = match read_byte(c) {
                Ok(b) => b,
                Err(e) => {
                    assert(s.len() == t.len() + 4);
                    return Err(e);
                },
            };
            data.push(b);
            assert(c@ =~= t.skip(i + 1));
            assert(data@ =~= t.take(i + 1));
            i = i + 1;
        }
        assert(data@ =~= s.subrange(4, 4 + len));
        assert(c@ =~= s.skip(4 + len));
        Ok(RawBlock { data })
    }
}

impl Block {
    /// Decodes one block: peeks at the header byte, dispatches on its type
    /// selector, and records its final flag.
    pub fn decode(c: &mut Cursor) -> (r: Result<Block, Error>)
        requires
            old(c).wf(),
        ensures
            final(c).wf(),
            match block(old(c)@) {
                Ok((b, n)) => r matches Ok(x) && x@ == b && final(c)@ == old(c)@.skip(n as int),
                Err(e) => r == Err::<Block, Error>(e),
            },
    {
        let ghost s = c@;
        let head = match c.peek() {
            Some(h) => h,
            None => return Err(Error::UnexpectedEndOfInput),
        };
        let bfinal = head & 0x01;
        let btype = (head >> 1) & 0x03;
        match btype {
            0 => {
                let _ = c.next();
                let raw = match RawBlock::decode(c) {
                    Ok(raw) => raw,
                    Err(e) => return Err(e),
                };
                assert(c@ =~= s.skip(block(s)->Ok_0.1 as int));
                Ok(Block { bfinal: bfinal == 1, body: BlockBody::Raw(raw) })
            },
            _ => Err(Error::UnsupportedBlockType),
        }
    }

    /// Whether this is the last block of its stream.
    pub fn is_final(&self) -> (r: bool)
        ensures
            r == self@.is_final,
    {
        self.bfinal
    }

    /// A copy of the block's decoded payload.
    pub fn data(&self) -> (r: Vec<u8>)
        ensures
            r@ == self@.data,
    {
        match &self.body {
            BlockBody::Raw(raw) => {
                let mut out: Vec<u8> = Vec::new();
                let mut i: usize = 0;
                while i < raw.data.len()
                    invariant
                        i <= raw.data@.len(),
                        out@ == raw.data@.take(i as int),
                    decreases raw.data@.len() - i,
                {
                    out.push(raw.data[i]);
                    assert(out@ =~= raw.data@.take(i + 1));
                    i = i + 1;
                }
                assert(out@ =~= raw.data@);
                out
            },
        }
    }
}

/// The result of a stream decode that has already produced `prefix`, taking
/// `k` bytes, and goes on with `rest`.
spec fn resume(prefix: Seq<BlockModel>, k: nat, rest: Result<(Seq<BlockModel>, nat), Error>) -> Result<
    (Seq<BlockModel>, nat),
    Error,
> {
    match rest {
        Err(e) => Err(e),
        Ok((bs, m)) => Ok((prefix + bs, k + m)),
    }
}

impl Deflate {
    /// Exactly the last block is final.
    #[verifier::type_invariant]
    spec fn inv(&self) -> bool {
        final_last(self@)
    }

    /// Decodes blocks from the cursor until one carries the final flag.
    pub fn decode(deflate: &mut Cursor) -> (r: Result<Deflate, Error>)
        requires
            old(deflate).wf(),
        ensures
            final(deflate).wf(),
            match stream(old(deflate)@) {
                Ok((bs, n)) => r matches Ok(d) && d@ == bs && final(deflate)@ == old(deflate)@.skip(
                    n as int,
                ),
                Err(e) => r == Err::<Deflate, Error>(e),
            },
            r matches Ok(d) ==> final_last(d@),
    {
        let ghost s0 = deflate@;
        let ghost mut k: nat = 0;
        let mut blocks: Vec<Block> = Vec::new();
        assert(deflate@ =~= s0.skip(0));
        assert(blocks_model(blocks@) + Seq::<BlockModel>::empty() =~= Seq::<BlockModel>::empty());
        assert(stream(s0) =~= resume(blocks_model(blocks@), k, stream(deflate@))) by {
            match stream(s0) {
                Ok((bs, n)) => assert(blocks_model(blocks@) + bs =~= bs),
                Err(_) => {},
            }
        }
        loop
            invariant
                deflate.wf(),
                s0 == old(deflate)@,
                k <= s0.len(),
                deflate@ == s0.skip(k as int),
                forall|i: int| 0 <= i < blocks@.len() ==> !(#[trigger] blocks@[i])@.is_final,
                stream(s0) == resume(blocks_model(blocks@), k, stream(deflate@)),
            decreases deflate@.len(),
        {
            let ghost t = deflate@;
            let ghost before = blocks_model(blocks@);
            let b = match Block::decode(deflate) {
                Ok(b) => b,
                Err(e) => return Err(e),
            };
            let ghost n = block(t)->Ok_0.1;
            let ghost bm = b@;
            let bfinal = b.is_final();
            blocks.push(b);
            assert(blocks_model(blocks@) =~= before.push(bm));
            assert(deflate@ =~= s0.skip((k + n) as int));
            proof {
                k = k + n;
            }
            if bfinal {
                assert(before + seq![bm] =~= before.push(bm));
                let d = Deflate { blocks };
                assert(final_last(d@));
                return Ok(d);
            }
            assert(stream(s0) == resume(blocks_model(blocks@), k, stream(deflate@))) by {
                match stream(deflate@) {
                    Ok((bs, m)) => assert(before + (seq![bm] + bs) =~= before.push(bm) + bs),
                    Err(_) => {},
                }
            }
        }
    }

    /// The blocks of the stream, in stream order.
    pub fn blocks(&self) -> (r: &Vec<Block>)
        ensures
            blocks_model(r@) == self@,
    {
        &self.blocks
    }

    /// The decoded payloads of all blocks, concatenated in stream order.
    pub fn data(&self) -> (r: Vec<u8>)
        ensures
            r@ == payload(self@),
    {
        let mut data: Vec<u8> = Vec::new();
        let mut i: usize = 0;
        while i < self.blocks.len()
            invariant
                i <= self.blocks@.len(),
                data@ == payload(self@.take(i as int)),
            decreases self.blocks@.len() - i,
        {
            let mut d = self.blocks[i].data();
            data.append(&mut d);
            proof {
                let pre = self@.take(i as int).map_values(|b: BlockModel| b.data);
                assert(self@.take(i + 1).map_values(|b: BlockModel| b.data) =~= pre.push(
                    self@[i as int].data,
                ));
                pre.lemma_flatten_push(self@[i as int].data);
            }
            i = i + 1;
        }
        assert(self@.take(i as int) =~= self@);
        data
    }
}

} // verus!
