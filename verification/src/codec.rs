//! Encodings of the messages that cross gossip substreams: the
//! block-announces handshake, block announces, and the GrandPa neighbor
//! packet.

use vstd::prelude::*;

use crate::bytes::push_bytes;
use crate::protocol::{GrandpaState, Role};

verus! {

/// The byte a role is encoded as.
pub open spec fn role_byte(r: Role) -> u8 {
    match r {
        Role::Full => 1,
        Role::Light => 2,
        Role::Authority => 4,
    }
}

/// The role a byte decodes to, if any.
pub open spec fn role_of_byte(b: u8) -> Option<Role> {
    if b == 1 {
        Some(Role::Full)
    } else if b == 2 {
        Some(Role::Light)
    } else if b == 4 {
        Some(Role::Authority)
    } else {
        None
    }
}

/// Encodes a role as one byte.
pub fn encode_role(r: Role) -> (b: u8)
    ensures
        b == role_byte(r),
{
    match r {
        Role::Full => 1,
        Role::Light => 2,
        Role::Authority => 4,
    }
}

/// Decodes a role byte.
pub fn decode_role(b: u8) -> (r: Option<Role>)
    ensures
        r == role_of_byte(b),
{
    if b == 1 {
        Some(Role::Full)
    } else if b == 2 {
        Some(Role::Light)
    } else if b == 4 {
        Some(Role::Authority)
    } else {
        None
    }
}

/// The `i`-th little-endian byte of a 64-bit number.
pub open spec fn nth_le_byte(n: u64, i: int) -> u8 {
    if 0 <= i < 8 {
        (n >> (8 * i as u64)) as u8
    } else {
        0
    }
}

/// The little-endian encoding of a number over `width` bytes. A number too
/// large for the width loses its upper bytes.
pub open spec fn le_bytes(n: u64, width: int) -> Seq<u8> {
    Seq::new(width as nat, |i: int| nth_le_byte(n, i))
}

/// The number read back from the first `k` bytes of a little-endian byte
/// string; only the first eight bytes can carry value.
pub open spec fn le_word_prefix(s: Seq<u8>, k: int) -> u64
    decreases k,
{
    if k <= 0 {
        0
    } else if k > 8 {
        le_word_prefix(s, 8)
    } else {
        (le_word_prefix(s, k - 1) | ((s[k - 1] as u64) << ((8 * (k - 1)) as u64))) as u64
    }
}

/// The number read back from a little-endian byte string.
pub open spec fn le_value(s: Seq<u8>) -> u64 {
    le_word_prefix(s, s.len() as int)
}

/// Appends the little-endian encoding of `n` over `width` bytes.
pub fn push_le_bytes(dst: &mut Vec<u8>, n: u64, width: usize)
    ensures
        final(dst)@ == old(dst)@ + le_bytes(n, width as int),
{
    let mut i: usize = 0;
    while i < width
        invariant
            i <= width,
            dst@ == old(dst)@ + le_bytes(n, width as int).take(i as int),
        decreases width - i,
    {
        let sh: u64 = (8 * if i < 8 {
            i
        } else {
            0
        }) as u64;
        let b: u8 = if i < 8 {
            ((n >> sh) & 0xff) as u8
        } else {
            0
        };
        proof {
            if i < 8 {
                let m = n;
                let sh2 = sh;
                assert(((m >> sh2) & 0xff) as u8 == (m >> sh2) as u8) by (bit_vector);
            }
            assert(b == nth_le_byte(n, i as int));
        }
        dst.push(b);
        proof {
            assert(dst@ =~= old(dst)@ + le_bytes(n, width as int).take(i + 1));
        }
        i += 1;
    }
    proof {
        assert(le_bytes(n, width as int).take(width as int) =~= le_bytes(n, width as int));
    }
}


/// The envelope of a storage or call proof response: the proof's length over
/// four little-endian bytes, followed by the proof itself.
pub open spec fn proof_response_bytes(proof: Seq<u8>) -> Seq<u8> {
    le_bytes(proof.len() as u64, 4) + proof
}

/// Encodes a proof into its response envelope.
pub fn encode_proof_response(proof: &[u8]) -> (r: Vec<u8>)
    requires
        proof@.len() < 0x1_0000_0000,
    ensures
        r@ == proof_response_bytes(proof@),
{
    let mut out: Vec<u8> = Vec::new();
    push_le_bytes(&mut out, proof.len() as u64, 4);
    push_bytes(&mut out, proof);
    out
}

/// Decodes a proof response envelope. Succeeds exactly on byte strings of at
/// least four bytes whose length prefix matches the length of the rest, and
/// returns the proof.
pub fn decode_proof_response(bytes: &[u8]) -> (r: Result<Vec<u8>, ()>)
    ensures
        match r {
            Ok(proof) => bytes@.len() >= 4 && proof@ == bytes@.skip(4) && le_value(
                bytes@.subrange(0, 4),
            ) == bytes@.len() - 4,
            Err(()) => bytes@.len() < 4 || le_value(bytes@.subrange(0, 4)) != bytes@.len() - 4,
        },
{
    let total: usize = bytes.len();
    if total < 4 {
        return Err(());
    }
    let mut declared: u64 = 0;
    let mut i: usize = 0;
    while i < 4
        invariant
            i <= 4,
            total == bytes@.len(),
            total >= 4,
            declared == le_word_prefix(bytes@.subrange(0, 4), i as int),
        decreases 4 - i,
    {
        let b: u64 = bytes[i] as u64;
        proof {
            assert(bytes@.subrange(0, 4)[i as int] == bytes@[i as int]);
        }
        declared = declared | (b << ((8 * i) as u64));
        i += 1;
    }
    if declared != (total - 4) as u64 {
        return Err(());
    }
    let mut proof_bytes: Vec<u8> = Vec::new();
    let mut j: usize = 4;
    while j < total
        invariant
            4 <= j <= total,
            total == bytes@.len(),
            proof_bytes@ == bytes@.subrange(4, j as int),
        decreases total - j,
    {
        proof_bytes.push(bytes[j]);
        proof {
            assert(proof_bytes@ =~= bytes@.subrange(4, j + 1));
        }
        j += 1;
    }
    proof {
        assert(proof_bytes@ =~= bytes@.skip(4));
    }
    Ok(proof_bytes)
}

/// Decoding an envelope that [`encode_proof_response`] produced gives the
/// proof back.
pub proof fn lemma_proof_response_round_trip(proof: Seq<u8>)
    requires
        proof.len() < 0x1_0000_0000,
    ensures
        proof_response_bytes(proof).len() >= 4,
        proof_response_bytes(proof).skip(4) == proof,
        proof_response_bytes(proof).subrange(0, 4) == le_bytes(proof.len() as u64, 4),
{
    let b = proof_response_bytes(proof);
    assert(b.skip(4) =~= proof);
    assert(b.subrange(0, 4) =~= le_bytes(proof.len() as u64, 4));
}

/// A decoded block-announces handshake.
#[derive(Debug, Copy, Clone)]
pub struct BlockAnnouncesHandshake {
    pub role: Role,
    pub best_number: u64,
    pub best_hash: [u8; 32],
    pub genesis_hash: [u8; 32],
}

/// The encoding of a block-announces handshake: one role byte, the best block
/// number over `width` bytes in little endian, the best hash, and the genesis
/// hash.
pub open spec fn handshake_bytes(
    role: Role,
    best_number: u64,
    best_hash: Seq<u8>,
    genesis_hash: Seq<u8>,
    width: int,
) -> Seq<u8> {
    seq![role_byte(role)] + le_bytes(best_number, width) + best_hash + genesis_hash
}

/// Encodes a block-announces handshake.
pub fn encode_block_announces_handshake(
    role: Role,
    best_number: u64,
    best_hash: &[u8; 32],
    genesis_hash: &[u8; 32],
    block_number_bytes: usize,
) -> (r: Vec<u8>)
    ensures
        r@ == handshake_bytes(
            role,
            best_number,
            best_hash@,
            genesis_hash@,
            block_number_bytes as int,
        ),
{
    let mut out: Vec<u8> = Vec::new();
    out.push(encode_role(role));
    proof {
        assert(out@ =~= seq![role_byte(role)]);
    }
    push_le_bytes(&mut out, best_number, block_number_bytes);
    push_bytes(&mut out, best_hash.as_slice());
    push_bytes(&mut out, genesis_hash.as_slice());
    proof {
        assert(out@ =~= handshake_bytes(
            role,
            best_number,
            best_hash@,
            genesis_hash@,
            block_number_bytes as int,
        ));
    }
    out
}

/// Reads 32 bytes of `src` starting at `from` into a hash.
fn read_hash(src: &[u8], from: usize) -> (r: [u8; 32])
    requires
        from + 32 <= src@.len(),
    ensures
        r@ == src@.subrange(from as int, from + 32),
{
    let mut out: [u8; 32] = [0; 32];
    let total: usize = src.len();
    let mut i: usize = 0;
    while i < 32
        invariant
            i <= 32,
            from + 32 <= total,
            total == src@.len(),
            forall|j: int| 0 <= j < i ==> out@[j] == src@[from + j],
        decreases 32 - i,
    {
        out[i] = src[from + i];
        i += 1;
    }
    proof {
        assert(out@ =~= src@.subrange(from as int, from + 32));
    }
    out
}

/// Decodes a block-announces handshake. Succeeds exactly on byte strings of
/// the right length whose role byte is valid, and the decoded fields re-encode
/// to the same bytes.
pub fn decode_block_announces_handshake(bytes: &[u8], block_number_bytes: usize) -> (r: Result<
    BlockAnnouncesHandshake,
    (),
>)
    requires
        block_number_bytes <= 8,
    ensures
        match r {
            Ok(h) => {
                &&& bytes@.len() == 1 + block_number_bytes + 64
                &&& role_of_byte(bytes@[0]) == Some(h.role)
                &&& h.best_number == le_value(bytes@.subrange(1, 1 + block_number_bytes as int))
                &&& h.best_hash@ == bytes@.subrange(
                    1 + block_number_bytes as int,
                    33 + block_number_bytes as int,
                )
                &&& h.genesis_hash@ == bytes@.subrange(
                    33 + block_number_bytes as int,
                    65 + block_number_bytes as int,
                )
            },
            Err(()) => bytes@.len() != 1 + block_number_bytes + 64 || role_of_byte(bytes@[0])
                is None,
        },
{
    if bytes.len() != 1 + block_number_bytes + 64 {
        return Err(());
    }
    let role = match decode_role(bytes[0]) {
        Some(role) => role,
        None => {
            return Err(());
        },
    };
    let ghost number_bytes = bytes@.subrange(1, 1 + block_number_bytes as int);
    let mut best_number: u64 = 0;
    let mut i: usize = 0;
    while i < block_number_bytes
        invariant
            i <= block_number_bytes,
            block_number_bytes <= 8,
            bytes@.len() == 1 + block_number_bytes + 64,
            number_bytes == bytes@.subrange(1, 1 + block_number_bytes as int),
            best_number == le_word_prefix(number_bytes, i as int),
        decreases block_number_bytes - i,
    {
        let b: u64 = bytes[1 + i] as u64;
        proof {
            assert(number_bytes[i as int] == bytes@[1 + i]);
        }
        best_number = best_number | (b << ((8 * i) as u64));
        i += 1;
    }
    let best_hash = read_hash(bytes, 1 + block_number_bytes);
    let genesis_hash = read_hash(bytes, 33 + block_number_bytes);
    Ok(BlockAnnouncesHandshake { role, best_number, best_hash, genesis_hash })
}

/// The encoding of a block announce: the SCALE-encoded header followed by one
/// flag byte that tells whether the block is the sender's new best.
pub open spec fn block_announce_bytes(header: Seq<u8>, is_best: bool) -> Seq<u8> {
    header + seq![if is_best { 1u8 } else { 0u8 }]
}

/// Encodes a block announce.
pub fn encode_block_announce(scale_encoded_header: &[u8], is_best: bool) -> (r: Vec<u8>)
    ensures
        r@ == block_announce_bytes(scale_encoded_header@, is_best),
{
    let mut out = crate::bytes::copy_bytes(scale_encoded_header);
    out.push(if is_best { 1 } else { 0 });
    proof {
        assert(out@ =~= block_announce_bytes(scale_encoded_header@, is_best));
    }
    out
}

/// A decoded block announce.
#[derive(Debug)]
pub struct BlockAnnounceRef {
    pub scale_encoded_header: Vec<u8>,
    pub is_best: bool,
}

/// Decodes a block announce. Succeeds exactly on non-empty byte strings whose
/// flag byte is 0 or 1.
pub fn decode_block_announce(bytes: &[u8]) -> (r: Result<BlockAnnounceRef, ()>)
    ensures
        match r {
            Ok(a) => bytes@.len() >= 1 && bytes@ == block_announce_bytes(
                a.scale_encoded_header@,
                a.is_best,
            ),
            Err(()) => bytes@.len() == 0 || (bytes@.last() != 0 && bytes@.last() != 1),
        },
{
    if bytes.len() == 0 {
        return Err(());
    }
    let flag = bytes[bytes.len() - 1];
    if flag != 0 && flag != 1 {
        return Err(());
    }
    let mut header: Vec<u8> = Vec::new();
    let mut i: usize = 0;
    while i < bytes.len() - 1
        invariant
            bytes@.len() >= 1,
            i <= bytes@.len() - 1,
            header@ == bytes@.take(i as int),
        decreases bytes@.len() - 1 - i,
    {
        header.push(bytes[i]);
        i += 1;
    }
    let announce = BlockAnnounceRef { scale_encoded_header: header, is_best: flag == 1 };
    proof {
        assert(bytes@ =~= block_announce_bytes(announce.scale_encoded_header@, announce.is_best));
    }
    Ok(announce)
}

/// The encoding of a GrandPa neighbor packet: a tag byte, the round number and
/// set identifier over eight bytes each, and the commit-finalized height over
/// four bytes, all little endian.
pub open spec fn neighbor_packet_bytes(state: GrandpaState) -> Seq<u8> {
    seq![2u8] + le_bytes(state.round_number, 8) + le_bytes(state.set_id, 8) + le_bytes(
        state.commit_finalized_height as u64,
        4,
    )
}

/// Encodes a GrandPa neighbor packet.
pub fn encode_neighbor_packet(state: &GrandpaState) -> (r: Vec<u8>)
    ensures
        r@ == neighbor_packet_bytes(*state),
{
    let mut out: Vec<u8> = Vec::new();
    out.push(2);
    proof {
        assert(out@ =~= seq![2u8]);
    }
    push_le_bytes(&mut out, state.round_number, 8);
    push_le_bytes(&mut out, state.set_id, 8);
    push_le_bytes(&mut out, state.commit_finalized_height as u64, 4);
    proof {
        assert(out@ =~= neighbor_packet_bytes(*state));
    }
    out
}

/// The encoding of a transactions notification carrying one transaction: the
/// SCALE compact length `1` followed by the transaction.
pub open spec fn single_transaction_bytes(extrinsic: Seq<u8>) -> Seq<u8> {
    seq![4u8] + extrinsic
}

/// Encodes a transactions notification carrying one transaction.
pub fn encode_single_transaction(extrinsic: &[u8]) -> (r: Vec<u8>)
    ensures
        r@ == single_transaction_bytes(extrinsic@),
{
    let mut out: Vec<u8> = Vec::new();
    out.push(4);
    proof {
        assert(out@ =~= seq![4u8]);
    }
    push_bytes(&mut out, extrinsic);
    out
}

/// Decoding a handshake that [`encode_block_announces_handshake`] produced
/// gives back the role, the hashes, and the best number as far as the width
/// can carry it.
pub proof fn lemma_handshake_round_trip(
    role: Role,
    best_number: u64,
    best_hash: Seq<u8>,
    genesis_hash: Seq<u8>,
    width: int,
)
    requires
        best_hash.len() == 32,
        genesis_hash.len() == 32,
        0 <= width <= 8,
    ensures
        ({
            let b = handshake_bytes(role, best_number, best_hash, genesis_hash, width);
            &&& b.len() == 1 + width + 64
            &&& role_of_byte(b[0]) == Some(role)
            &&& b.subrange(1, 1 + width) == le_bytes(best_number, width)
            &&& b.subrange(1 + width, 33 + width) == best_hash
            &&& b.subrange(33 + width, 65 + width) == genesis_hash
        }),
{
    let b = handshake_bytes(role, best_number, best_hash, genesis_hash, width);
    assert(b.subrange(1, 1 + width) =~= le_bytes(best_number, width));
    assert(b.subrange(1 + width, 33 + width) =~= best_hash);
    assert(b.subrange(33 + width, 65 + width) =~= genesis_hash);
}

} // verus!
