use vstd::prelude::*;

use crate::format::{
    block, final_last, header_final, header_type, le16, payload, stored_body, stored_len, stream,
    BlockModel, Error,
};

verus! {

/// The bytes of one stored block that frames `p`, with the given final flag.
pub open spec fn frame(p: Seq<u8>, is_final: bool) -> Seq<u8> {
    let len = p.len() as u16;
    let nlen = !len;
    seq![if is_final { 1u8 } else { 0u8 }, len as u8, (len >> 8) as u8, nlen as u8, (nlen >> 8) as u8]
        + p
}

/// The bytes of a chain of stored blocks that frame the payloads `ps` in
/// order, only the last one final.
pub open spec fn chain(ps: Seq<Seq<u8>>) -> Seq<u8>
    decreases ps.len(),
{
    if ps.len() == 0 {
        Seq::empty()
    } else if ps.len() == 1 {
        frame(ps[0], true)
    } else {
        frame(ps[0], false) + chain(ps.drop_first())
    }
}

/// `s` with bit `j` of byte `i` flipped.
pub open spec fn flip_bit(s: Seq<u8>, i: int, j: u8) -> Seq<u8> {
    s.update(i, s[i] ^ (1u8 << j))
}

proof fn lemma_le16_split(x: u16)
    by (bit_vector)
    ensures
        le16(x as u8, (x >> 8) as u8) == x,
        x ^ !x == 0xFFFFu16,
{
}

proof fn lemma_header_bits()
    by (bit_vector)
    ensures
        header_type(0u8) == 0,
        header_type(1u8) == 0,
        header_final(1u8),
        !header_final(0u8),
{
}

/// A stored block framing `p` decodes, whatever follows it, to a block that
/// carries `p` and the given final flag, and takes exactly its own bytes.
pub proof fn lemma_frame_block(p: Seq<u8>, is_final: bool, rest: Seq<u8>)
    requires
        p.len() <= 0xFFFF,
    ensures
        block(frame(p, is_final) + rest) == Ok::<(BlockModel, nat), Error>(
            (BlockModel { is_final, data: p }, p.len() + 5),
        ),
        (frame(p, is_final) + rest).skip(p.len() + 5int) == rest,
{
    let s = frame(p, is_final) + rest;
    let len = p.len() as u16;
    lemma_le16_split(len);
    lemma_le16_split(!len);
    lemma_header_bits();
    let body = s.drop_first();
    assert(body[0] == len as u8 && body[1] == (len >> 8) as u8);
    assert(body[2] == (!len) as u8 && body[3] == ((!len) >> 8) as u8);
    assert(stored_len(body) == Ok::<u16, Error>(len));
    assert(body.subrange(4, 4 + len) =~= p);
    assert(s.skip(p.len() + 5int) =~= rest);
}

/// Every stream that decodes ends with its one final block: no block before
/// the last carries the final flag.
pub proof fn lemma_final_last(s: Seq<u8>)
    requires
        stream(s) is Ok,
    ensures
        final_last(stream(s)->Ok_0.0),
    decreases s.len(),
{
    let (b, n) = block(s)->Ok_0;
    if !b.is_final {
        lemma_final_last(s.skip(n as int));
        let rest = stream(s.skip(n as int))->Ok_0.0;
        let bs = seq![b] + rest;
        assert forall|i: int| 0 <= i < bs.len() - 1 implies !(#[trigger] bs[i]).is_final by {
            if i > 0 {
                assert(bs[i] == rest[i - 1]);
            }
        }
    }
}

/// A stored body that decodes carries exactly as many bytes as its length field declares.
pub proof fn lemma_stored_len_exact(s: Seq<u8>)
    requires
        stored_body(s) is Ok,
    ensures
        stored_body(s)->Ok_0.0.len() == le16(s[0], s[1]),
{
}

/// One final stored block framing `p` decodes to exactly `p`.
pub proof fn lemma_round_trip(p: Seq<u8>)
    requires
        p.len() <= 0xFFFF,
    ensures
        stream(frame(p, true)) matches Ok((bs, n)) && bs == seq![BlockModel { is_final: true, data: p }]
            && n == frame(p, true).len() && payload(bs) == p,
{
    lemma_frame_block(p, true, Seq::empty());
    assert(frame(p, true) + Seq::empty() =~= frame(p, true));
    let bs = seq![BlockModel { is_final: true, data: p }];
    assert(bs.map_values(|b: BlockModel| b.data) =~= seq![p]);
    seq![p].lemma_flatten_one_element();
}

/// A chain of stored blocks decodes to its payloads concatenated in chain order.
pub proof fn lemma_chain_order(ps: Seq<Seq<u8>>)
    requires
        ps.len() >= 1,
        forall|i: int| 0 <= i < ps.len() ==> (#[trigger] ps[i]).len() <= 0xFFFF,
    ensures
        stream(chain(ps)) matches Ok((bs, n)) && bs.len() == ps.len() && n == chain(ps).len()
            && payload(bs) == ps.flatten(),
    decreases ps.len(),
{
    if ps.len() == 1 {
        lemma_round_trip(ps[0]);
        ps.lemma_flatten_one_element();
    } else {
        let tail = ps.drop_first();
        assert forall|i: int| 0 <= i < tail.len() implies (#[trigger] tail[i]).len() <= 0xFFFF by {
            assert(tail[i] == ps[i + 1]);
        }
        lemma_chain_order(tail);
        lemma_frame_block(ps[0], false, chain(tail));
        let b = BlockModel { is_final: false, data: ps[0] };
        let rest = stream(chain(tail))->Ok_0.0;
        let bs = seq![b] + rest;
        assert(bs.map_values(|x: BlockModel| x.data) =~= seq![ps[0]] + rest.map_values(
            |x: BlockModel| x.data,
        ));
        let m = bs.map_values(|x: BlockModel| x.data);
        assert(m.first() == ps[0]);
        assert(m.drop_first() =~= rest.map_values(|x: BlockModel| x.data));
        assert(stream(chain(ps)) == Ok::<(Seq<BlockModel>, nat), Error>(
            (bs, ps[0].len() + 5 + chain(tail).len()),
        ));
        assert(payload(bs) == ps[0] + payload(rest));
        assert(ps.flatten() == ps[0] + tail.flatten());
    }
}

/// A stored block whose length field is zero decodes to an empty payload.
pub proof fn lemma_empty_stored(s: Seq<u8>)
    requires
        s.len() >= 4,
        le16(s[0], s[1]) == 0,
        le16(s[2], s[3]) == 0xFFFF,
    ensures
        stored_body(s) == Ok::<(Seq<u8>, nat), Error>((Seq::empty(), 4)),
{
    assert(0u16 ^ 0xFFFFu16 == 0xFFFFu16) by (bit_vector);
    assert(s.subrange(4, 4) =~= Seq::<u8>::empty());
}

proof fn lemma_flip_breaks_complement(len: u16, n0: u8, n1: u8, j: u8)
    by (bit_vector)
    requires
        len ^ le16(n0, n1) == 0xFFFFu16,
        j < 8,
    ensures
        len ^ le16(n0 ^ (1u8 << j), n1) != 0xFFFFu16,
        len ^ le16(n0, n1 ^ (1u8 << j)) != 0xFFFFu16,
{
}

/// Flipping any one bit of the complement field of a stored block whose
/// length fields agree makes the stream fail on the length check.
pub proof fn lemma_nlen_corruption(s: Seq<u8>, i: int, j: u8)
    requires
        s.len() >= 5,
        header_type(s[0]) == 0,
        stored_len(s.drop_first()) is Ok,
        i == 3 || i == 4,
        j < 8,
    ensures
        stream(flip_bit(s, i, j)) == Err::<(Seq<BlockModel>, nat), Error>(
            Error::InvalidStoredBlockLength,
        ),
{
    let t = flip_bit(s, i, j);
    lemma_flip_breaks_complement(le16(s[1], s[2]), s[3], s[4], j);
    assert(t.drop_first() =~= flip_bit(s.drop_first(), i - 1, j));
}

/// A stored block cut short by the last byte of its payload fails with the
/// end of the input, never with a shorter payload.
pub proof fn lemma_truncated_payload(s: Seq<u8>)
    requires
        block(s) matches Ok((b, n)) && b.data.len() >= 1,
    ensures
        stream(s.take(block(s)->Ok_0.1 - 1)) == Err::<(Seq<BlockModel>, nat), Error>(
            Error::UnexpectedEndOfInput,
        ),
{
    let n = block(s)->Ok_0.1;
    let t = s.take(n - 1);
    assert(t[0] == s[0]);
    assert(t.drop_first().take(4) =~= s.drop_first().take(4));
    assert(t.drop_first()[0] == s.drop_first()[0]);
    assert(t.drop_first()[1] == s.drop_first()[1]);
    assert(t.drop_first()[2] == s.drop_first()[2]);
    assert(t.drop_first()[3] == s.drop_first()[3]);
}

} // verus!
