use vstd::prelude::*;
use crate::ids::ShareId;
use crate::message::{InventoryMessage, Message, MessageV};

verus! {

/// The wire tag of the Inventory variant: messages are value-identified, and
/// a reader that meets an unknown tag can reject the payload without
/// touching the rest of the stream.
pub const INVENTORY_TAG: u8 = 1;

/// The eight little-endian bytes of a 64-bit length.
pub open spec fn u64_le_bytes(x: u64) -> Seq<u8> {
    seq![
        (x & 0xff) as u8,
        ((x >> 8) & 0xff) as u8,
        ((x >> 16) & 0xff) as u8,
        ((x >> 24) & 0xff) as u8,
        ((x >> 32) & 0xff) as u8,
        ((x >> 40) & 0xff) as u8,
        ((x >> 48) & 0xff) as u8,
        ((x >> 56) & 0xff) as u8,
    ]
}

/// One length-prefixed share identifier.
pub open spec fn encode_share(s: Seq<u8>) -> Seq<u8> {
    u64_le_bytes(s.len() as u64) + s
}

/// The concatenation of the length-prefixed share identifiers, in order.
pub open spec fn encode_shares(shares: Seq<Seq<u8>>) -> Seq<u8>
    decreases shares.len(),
{
    if shares.len() == 0 {
        Seq::empty()
    } else {
        encode_shares(shares.drop_last()) + encode_share(shares.last())
    }
}

/// The whole wire form of a message: the variant's tag byte, the count of
/// share identifiers, then each identifier length-prefixed. The format is
/// compact and self-describing: the first byte identifies the variant and
/// every length is explicit.
pub open spec fn encode_msg(m: MessageV) -> Seq<u8> {
    match m {
        MessageV::Inventory(shares) => seq![INVENTORY_TAG] + u64_le_bytes(shares.len() as u64)
            + encode_shares(shares),
    }
}

/// The 64-bit value eight little-endian bytes denote.
pub open spec fn u64_from_le(b: Seq<u8>) -> u64
    recommends
        b.len() == 8,
{
    (b[0] as u64) | (b[1] as u64) << 8 | (b[2] as u64) << 16 | (b[3] as u64) << 24 | (
    b[4] as u64) << 32 | (b[5] as u64) << 40 | (b[6] as u64) << 48 | (b[7] as u64) << 56
}

/// Reading back the eight little-endian bytes of `x` yields `x`.
pub proof fn lemma_u64_le_round_trip(x: u64)
    ensures
        u64_from_le(u64_le_bytes(x)) == x,
{
    assert(((x & 0xff) as u8 as u64) | (((x >> 8) & 0xff) as u8 as u64) << 8 | (((x >> 16)
        & 0xff) as u8 as u64) << 16 | (((x >> 24) & 0xff) as u8 as u64) << 24 | (((x >> 32)
        & 0xff) as u8 as u64) << 32 | (((x >> 40) & 0xff) as u8 as u64) << 40 | (((x >> 48)
        & 0xff) as u8 as u64) << 48 | (((x >> 56) & 0xff) as u8 as u64) << 56 == x)
        by (bit_vector);
}

/// The decoder's walk over the remaining items: at `pos`, `remaining` more
/// length-prefixed identifiers must follow and then the input must end.
pub open spec fn decode_items(b: Seq<u8>, pos: int, remaining: nat, acc: Seq<Seq<u8>>) -> Option<
    MessageV,
>
    decreases remaining,
{
    if remaining == 0 {
        if pos == b.len() {
            Some(MessageV::Inventory(acc))
        } else {
            None
        }
    } else if pos + 8 > b.len() {
        None
    } else {
        let l = u64_from_le(b.subrange(pos, pos + 8));
        if pos + 8 + l > b.len() {
            None
        } else {
            decode_items(
                b,
                pos + 8 + l,
                (remaining - 1) as nat,
                acc.push(b.subrange(pos + 8, pos + 8 + l)),
            )
        }
    }
}

/// What a byte string decodes to: the unique message it is the encoding of,
/// or nothing. An empty input, an unrecognized leading tag, a truncated
/// item or trailing bytes are all rejected.
pub open spec fn decode_msg(b: Seq<u8>) -> Option<MessageV> {
    if b.len() < 9 || b[0] != INVENTORY_TAG {
        None
    } else {
        decode_items(b, 9, u64_from_le(b.subrange(1, 9)) as nat, Seq::empty())
    }
}

/// A message value every exec message satisfies: the counts fit the wire's
/// 64-bit lengths.
pub open spec fn wf_msg(m: MessageV) -> bool {
    match m {
        MessageV::Inventory(shares) => shares.len() <= u64::MAX && forall|k: int|
            0 <= k < shares.len() ==> (#[trigger] shares[k]).len() <= u64::MAX,
    }
}

/// Law: a decoder rejects what it does not recognize without touching the
/// rest of the stream: an empty input or an unknown leading tag decodes to
/// nothing.
pub proof fn lemma_decode_rejects_unknown(b: Seq<u8>)
    ensures
        b.len() == 0 ==> decode_msg(b) is None,
        b.len() > 0 && b[0] != INVENTORY_TAG ==> decode_msg(b) is None,
{
}

/// The item walk read from the front: the first item's frame, then the
/// rest.
proof fn lemma_encode_shares_first(shares: Seq<Seq<u8>>)
    requires
        shares.len() > 0,
    ensures
        encode_shares(shares) == encode_share(shares.first()) + encode_shares(shares.drop_first()),
    decreases shares.len(),
{
    if shares.len() == 1 {
        assert(shares.drop_last() =~= Seq::<Seq<u8>>::empty());
        assert(shares.drop_first() =~= Seq::<Seq<u8>>::empty());
        assert(encode_shares(shares) =~= encode_share(shares.first()) + encode_shares(
            shares.drop_first(),
        ));
    } else {
        let dl = shares.drop_last();
        lemma_encode_shares_first(dl);
        assert(shares.drop_first().drop_last() =~= dl.drop_first());
        assert(shares.drop_first().last() == shares.last());
        assert(dl.first() == shares.first());
        assert(encode_shares(shares) =~= encode_share(shares.first()) + encode_shares(
            shares.drop_first(),
        ));
    }
}

/// Walking the items of an exact encoding collects exactly those items.
proof fn lemma_decode_encode_items(b: Seq<u8>, pos: int, shares: Seq<Seq<u8>>, acc: Seq<Seq<u8>>)
    requires
        0 <= pos <= b.len(),
        b.subrange(pos, b.len() as int) == encode_shares(shares),
        forall|k: int| 0 <= k < shares.len() ==> (#[trigger] shares[k]).len() <= u64::MAX,
    ensures
        decode_items(b, pos, shares.len(), acc) == Some(MessageV::Inventory(acc + shares)),
    decreases shares.len(),
{
    if shares.len() == 0 {
        assert(b.subrange(pos, b.len() as int).len() == 0);
        assert(pos == b.len());
        assert(acc + shares =~= acc);
    } else {
        let s0 = shares.first();
        let rest = shares.drop_first();
        lemma_encode_shares_first(shares);
        let frame = encode_share(s0);
        assert(frame == u64_le_bytes(s0.len() as u64) + s0);
        assert(frame.len() == 8 + s0.len());
        let tail = b.subrange(pos, b.len() as int);
        assert(tail == frame + encode_shares(rest));
        assert(tail.len() == b.len() - pos);
        assert(tail.len() == frame.len() + encode_shares(rest).len());
        assert(pos + 8 <= b.len());
        assert(b.subrange(pos, pos + 8) =~= u64_le_bytes(s0.len() as u64));
        lemma_u64_le_round_trip(s0.len() as u64);
        let l = u64_from_le(b.subrange(pos, pos + 8));
        assert(l == s0.len());
        assert(pos + 8 + l <= b.len());
        assert forall|k: int| 0 <= k < s0.len() implies b[pos + 8 + k] == s0[k] by {
            assert(tail[8 + k] == b[pos + 8 + k]);
            assert(tail[8 + k] == frame[8 + k]);
            assert(frame[8 + k] == s0[k]);
        }
        assert(b.subrange(pos + 8, pos + 8 + l) =~= s0);
        assert forall|k: int|
            0 <= k < encode_shares(rest).len() implies b[pos + 8 + l + k] == encode_shares(
            rest,
        )[k] by {
            assert(tail[frame.len() + k] == b[pos + frame.len() + k]);
            assert(tail[frame.len() + k] == encode_shares(rest)[k]);
        }
        assert(b.subrange(pos + 8 + l, b.len() as int) =~= encode_shares(rest));
        assert(forall|k: int| 0 <= k < rest.len() ==> (#[trigger] rest[k]).len() <= u64::MAX);
        lemma_decode_encode_items(b, pos + 8 + l, rest, acc.push(s0));
        assert(acc.push(s0) + rest =~= acc + shares);
    }
}

/// Law: decoding is the inverse of encoding: every message value whose
/// counts fit the wire's 64-bit lengths is recovered exactly from its own
/// wire form.
pub proof fn lemma_codec_round_trip(m: MessageV)
    requires
        wf_msg(m),
    ensures
        decode_msg(encode_msg(m)) == Some(m),
{
    match m {
        MessageV::Inventory(shares) => {
            let b = encode_msg(m);
            assert(b.len() >= 9);
            assert(b[0] == INVENTORY_TAG);
            assert(b.subrange(1, 9) =~= u64_le_bytes(shares.len() as u64));
            lemma_u64_le_round_trip(shares.len() as u64);
            assert(b.subrange(9, b.len() as int) =~= encode_shares(shares));
            lemma_decode_encode_items(b, 9, shares, Seq::empty());
            assert(Seq::<Seq<u8>>::empty() + shares =~= shares);
        },
    }
}

/// Read the eight little-endian bytes that start at `at`.
fn read_u64_le(b: &Vec<u8>, at: usize) -> (r: u64)
    requires
        at + 8 <= b@.len(),
    ensures
        r == u64_from_le(b@.subrange(at as int, at as int + 8)),
{
    let n = b.len();
    assert(at + 8 <= n);
    let r: u64 = (b[at] as u64) | (b[at + 1] as u64) << 8 | (b[at + 2] as u64) << 16 | (b[at
        + 3] as u64) << 24 | (b[at + 4] as u64) << 32 | (b[at + 5] as u64) << 40 | (b[at
        + 6] as u64) << 48 | (b[at + 7] as u64) << 56;
    proof {
        let s = b@.subrange(at as int, at as int + 8);
        assert(forall|k: int| 0 <= k < 8 ==> s[k] == b@[at + k]);
    }
    r
}

/// Append the eight little-endian bytes of `x`.
fn push_u64_le(out: &mut Vec<u8>, x: u64)
    ensures
        final(out)@ == old(out)@ + u64_le_bytes(x),
{
    proof {
        assert(x & 0xff < 256) by (bit_vector);
        assert((x >> 8) & 0xff < 256) by (bit_vector);
        assert((x >> 16) & 0xff < 256) by (bit_vector);
        assert((x >> 24) & 0xff < 256) by (bit_vector);
        assert((x >> 32) & 0xff < 256) by (bit_vector);
        assert((x >> 40) & 0xff < 256) by (bit_vector);
        assert((x >> 48) & 0xff < 256) by (bit_vector);
        assert((x >> 56) & 0xff < 256) by (bit_vector);
    }
    out.push((x & 0xff) as u8);
    out.push(((x >> 8) & 0xff) as u8);
    out.push(((x >> 16) & 0xff) as u8);
    out.push(((x >> 24) & 0xff) as u8);
    out.push(((x >> 32) & 0xff) as u8);
    out.push(((x >> 40) & 0xff) as u8);
    out.push(((x >> 48) & 0xff) as u8);
    out.push(((x >> 56) & 0xff) as u8);
    proof {
        assert(out@ =~= old(out)@ + u64_le_bytes(x));
    }
}

/// Append a byte string as it stands.
fn push_bytes(out: &mut Vec<u8>, b: &Vec<u8>)
    ensures
        final(out)@ == old(out)@ + b@,
{
    let mut j: usize = 0;
    while j < b.len()
        invariant
            j <= b.len(),
            out@ == old(out)@ + b@.subrange(0, j as int),
        decreases b.len() - j,
    {
        out.push(b[j]);
        proof {
            assert(old(out)@ + b@.subrange(0, j + 1) =~= (old(out)@ + b@.subrange(0, j as int)).push(
                b@[j as int],
            ));
        }
        j += 1;
    }
    proof {
        assert(b@.subrange(0, b@.len() as int) =~= b@);
    }
}

impl Message {
    /// Serialize the message to its wire form.
    pub fn encode(&self) -> (r: Vec<u8>)
        ensures
            r@ == encode_msg(self@),
    {
        match self {
            Message::Inventory(inv) => {
                let ghost shares = inv.deep_view();
                let mut out: Vec<u8> = Vec::new();
                out.push(INVENTORY_TAG);
                push_u64_le(&mut out, inv.have_shares.len() as u64);
                proof {
                    assert(out@ =~= seq![INVENTORY_TAG] + u64_le_bytes(shares.len() as u64));
                }
                let ghost hdr = out@;
                let mut i: usize = 0;
                while i < inv.have_shares.len()
                    invariant
                        i <= inv.have_shares.len(),
                        inv.have_shares.deep_view() == shares,
                        hdr == seq![INVENTORY_TAG] + u64_le_bytes(shares.len() as u64),
                        out@ =~= hdr + encode_shares(shares.subrange(0, i as int)),
                    decreases inv.have_shares.len() - i,
                {
                    let ghost pre = out@;
                    push_u64_le(&mut out, inv.have_shares[i].bytes.len() as u64);
                    push_bytes(&mut out, &inv.have_shares[i].bytes);
                    proof {
                        let nxt = shares.subrange(0, i + 1);
                        assert(nxt.drop_last() =~= shares.subrange(0, i as int));
                        assert(nxt.last() == shares[i as int]);
                        assert(inv.have_shares[i as int].bytes@ == shares[i as int]);
                        assert(out@ =~= pre + encode_share(shares[i as int]));
                        assert(out@ =~= hdr + encode_shares(nxt));
                    }
                    i += 1;
                }
                proof {
                    assert(shares.subrange(0, shares.len() as int) =~= shares);
                    assert(out@ =~= encode_msg(self@));
                }
                out
            },
        }
    }

    /// Parse a wire payload back into a message: the exact inverse of
    /// `encode` on encodings, and a rejection of everything else — an
    /// unknown tag, a truncated frame and trailing bytes alike.
    pub fn decode(bytes: &Vec<u8>) -> (r: Option<Message>)
        ensures
            r.deep_view() == decode_msg(bytes@),
    {
        let n = bytes.len();
        if n < 9 {
            return None;
        }
        if bytes[0] != INVENTORY_TAG {
            return None;
        }
        let count = read_u64_le(bytes, 1);
        let mut have: Vec<ShareId> = Vec::new();
        let mut pos: usize = 9;
        let mut remaining: u64 = count;
        proof {
            assert(have.deep_view() =~= Seq::<Seq<u8>>::empty());
            assert(decode_msg(bytes@) == decode_items(bytes@, 9, count as nat, have.deep_view()));
        }
        while remaining > 0
            invariant
                n == bytes@.len(),
                9 <= pos <= n,
                decode_msg(bytes@) == decode_items(
                    bytes@,
                    pos as int,
                    remaining as nat,
                    have.deep_view(),
                ),
            decreases remaining,
        {
            if bytes.len() - pos < 8 {
                return None;
            }
            let l = read_u64_le(bytes, pos);
            let avail = bytes.len() - pos - 8;
            if l > avail as u64 {
                return None;
            }
            let lu = l as usize;
            let mut item: Vec<u8> = Vec::new();
            let mut j: usize = 0;
            while j < lu
                invariant
                    n == bytes@.len(),
                    j <= lu,
                    lu == l,
                    pos + 8 + lu <= n,
                    item@ == bytes@.subrange(pos as int + 8, pos as int + 8 + j as int),
                decreases lu - j,
            {
                item.push(bytes[pos + 8 + j]);
                proof {
                    assert(bytes@.subrange(pos as int + 8, pos as int + 8 + j + 1)
                        =~= bytes@.subrange(pos as int + 8, pos as int + 8 + j as int).push(
                        bytes@[pos as int + 8 + j],
                    ));
                }
                j += 1;
            }
            let ghost pre_have = have.deep_view();
            let ghost old_pos = pos as int;
            let ghost old_rem = remaining as nat;
            have.push(ShareId::new(item));
            pos = pos + 8 + lu;
            remaining = remaining - 1;
            proof {
                assert(have.deep_view() =~= pre_have.push(
                    bytes@.subrange(old_pos + 8, old_pos + 8 + l as int),
                ));
                assert(decode_items(bytes@, old_pos, old_rem, pre_have) == decode_items(
                    bytes@,
                    pos as int,
                    remaining as nat,
                    have.deep_view(),
                ));
            }
        }
        if pos != bytes.len() {
            return None;
        }
        let r = Some(Message::Inventory(InventoryMessage { have_shares: have }));
        proof {
            assert(r.deep_view() == decode_msg(bytes@));
        }
        r
    }
}

} // verus!
