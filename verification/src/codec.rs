use vstd::prelude::*;
use vstd::bytes::{
    lemma_auto_spec_u32_to_from_le_bytes, lemma_auto_spec_u64_to_from_le_bytes,
    spec_u32_from_le_bytes, spec_u32_to_le_bytes, spec_u64_from_le_bytes, spec_u64_to_le_bytes,
    u32_from_le_bytes, u32_to_le_bytes, u64_from_le_bytes, u64_to_le_bytes,
};
use vstd::utf8::{decode_utf8, encode_utf8, encode_utf8_decode_utf8, encode_utf8_valid_utf8, valid_utf8};
use vstd::slice::{slice_subrange, slice_to_vec};
use vstd::string::StrSliceExecFns;
use vstd::arithmetic::div_mod::lemma_fundamental_div_mod;
use crate::proposal::{CallerId, Proposal, ProposalView};

verus! {

/// Upper bound, in bytes, on the encoding of a proposal record.
pub const PROPOSAL_MAX_SIZE: usize = 5000;

/// Proposal encodings vary in length up to the bound.
pub const PROPOSAL_IS_FIXED_SIZE: bool = false;

/// Why a byte buffer was rejected by a decoder.
#[derive(Clone, Copy, PartialEq, Eq, Structural, Debug)]
pub enum CodecError {
    /// The bytes are not a valid encoding of any record of the expected type.
    CorruptRecord,
}

/// The byte encoding of a voter list: each identity as eight little-endian bytes.
pub open spec fn spec_encode_voters(v: Seq<CallerId>) -> Seq<u8>
    decreases v.len(),
{
    if v.len() == 0 {
        Seq::empty()
    } else {
        spec_u64_to_le_bytes(v[0].id) + spec_encode_voters(v.drop_first())
    }
}

/// Reads a voter list back out of a byte buffer, eight bytes per identity.
pub open spec fn spec_decode_voters(b: Seq<u8>) -> Seq<CallerId>
    decreases b.len(),
{
    if b.len() < 8 {
        Seq::empty()
    } else {
        seq![CallerId { id: spec_u64_from_le_bytes(b.take(8)) }] + spec_decode_voters(b.skip(8))
    }
}

/// The byte encoding of a proposal: the three counters, the activity flag,
/// the owner, then the length-prefixed UTF-8 description and the
/// length-prefixed voter list.
pub open spec fn spec_encode_proposal(p: ProposalView) -> Seq<u8> {
    spec_u32_to_le_bytes(p.approve) + spec_u32_to_le_bytes(p.reject) + spec_u32_to_le_bytes(p.pass)
        + seq![if p.is_active { 1u8 } else { 0u8 }] + spec_u64_to_le_bytes(p.owner.id)
        + spec_u64_to_le_bytes(encode_utf8(p.description).len() as u64) + encode_utf8(p.description)
        + spec_u64_to_le_bytes(p.voted.len() as u64) + spec_encode_voters(p.voted)
}

/// The proposal a byte buffer encodes, or `None` when the buffer is not a
/// valid proposal encoding.
pub open spec fn spec_decode_proposal(b: Seq<u8>) -> Option<ProposalView> {
    if b.len() < 37 {
        None
    } else {
        let active_byte = b[12];
        let dlen = spec_u64_from_le_bytes(b.subrange(21, 29)) as int;
        if active_byte != 0 && active_byte != 1 {
            None
        } else if dlen > b.len() - 37 {
            None
        } else {
            let desc_bytes = b.subrange(29, 29 + dlen);
            let vlen = spec_u64_from_le_bytes(b.subrange(29 + dlen, 37 + dlen)) as int;
            if b.len() != 37 + dlen + 8 * vlen {
                None
            } else if !valid_utf8(desc_bytes) {
                None
            } else {
                Some(ProposalView {
                    description: decode_utf8(desc_bytes),
                    approve: spec_u32_from_le_bytes(b.subrange(0, 4)),
                    reject: spec_u32_from_le_bytes(b.subrange(4, 8)),
                    pass: spec_u32_from_le_bytes(b.subrange(8, 12)),
                    is_active: active_byte == 1,
                    voted: spec_decode_voters(b.subrange(37 + dlen, b.len() as int)),
                    owner: CallerId { id: spec_u64_from_le_bytes(b.subrange(13, 21)) },
                })
            }
        }
    }
}

/// An encoded voter list takes exactly eight bytes per identity.
pub proof fn lemma_encode_voters_len(v: Seq<CallerId>)
    ensures
        spec_encode_voters(v).len() == 8 * v.len(),
    decreases v.len(),
{
    lemma_auto_spec_u64_to_from_le_bytes();
    if v.len() > 0 {
        lemma_encode_voters_len(v.drop_first());
    }
}

/// Appending one identity to a voter list appends its eight bytes to the encoding.
pub proof fn lemma_encode_voters_push(v: Seq<CallerId>, c: CallerId)
    ensures
        spec_encode_voters(v.push(c)) == spec_encode_voters(v) + spec_u64_to_le_bytes(c.id),
    decreases v.len(),
{
    reveal_with_fuel(spec_encode_voters, 3);
    if v.len() == 0 {
        assert(v.push(c)[0] == c);
        assert(v.push(c).drop_first() =~= Seq::<CallerId>::empty());
        assert(spec_encode_voters(v.push(c)) =~= spec_encode_voters(v) + spec_u64_to_le_bytes(
            c.id,
        ));
    } else {
        lemma_encode_voters_push(v.drop_first(), c);
        assert(v.push(c).drop_first() =~= v.drop_first().push(c));
        assert(spec_u64_to_le_bytes(v[0].id) + (spec_encode_voters(v.drop_first())
            + spec_u64_to_le_bytes(c.id)) =~= (spec_u64_to_le_bytes(v[0].id)
            + spec_encode_voters(v.drop_first())) + spec_u64_to_le_bytes(c.id));
    }
}

/// Appending one eight-byte chunk to a whole number of chunks appends one
/// decoded identity.
pub proof fn lemma_decode_voters_append(c: Seq<u8>, chunk: Seq<u8>)
    requires
        c.len() % 8 == 0,
        chunk.len() == 8,
    ensures
        spec_decode_voters(c + chunk) == spec_decode_voters(c).push(
            CallerId { id: spec_u64_from_le_bytes(chunk) },
        ),
    decreases c.len(),
{
    reveal_with_fuel(spec_decode_voters, 3);
    let e = CallerId { id: spec_u64_from_le_bytes(chunk) };
    if c.len() == 0 {
        assert(c + chunk =~= chunk);
        assert(chunk.take(8) =~= chunk);
        assert(spec_decode_voters(c + chunk) =~= spec_decode_voters(c).push(e));
    } else {
        assert(c.len() >= 8) by {
            if c.len() < 8 {
                vstd::arithmetic::div_mod::lemma_small_mod(c.len(), 8);
            }
        }
        assert((c + chunk).take(8) =~= c.take(8));
        assert((c + chunk).skip(8) =~= c.skip(8) + chunk);
        assert(c.skip(8).len() % 8 == 0);
        lemma_decode_voters_append(c.skip(8), chunk);
        assert(spec_decode_voters(c + chunk) =~= spec_decode_voters(c).push(e));
    }
}

/// Decoding an encoded voter list gives back the voter list.
pub proof fn lemma_voters_round_trip(v: Seq<CallerId>)
    ensures
        spec_decode_voters(spec_encode_voters(v)) == v,
    decreases v.len(),
{
    lemma_auto_spec_u64_to_from_le_bytes();
    if v.len() == 0 {
        assert(spec_decode_voters(spec_encode_voters(v)) =~= v);
    } else {
        let e = spec_encode_voters(v);
        lemma_encode_voters_len(v.drop_first());
        assert(e.take(8) =~= spec_u64_to_le_bytes(v[0].id));
        assert(e.skip(8) =~= spec_encode_voters(v.drop_first()));
        lemma_voters_round_trip(v.drop_first());
        assert(spec_decode_voters(e) =~= v);
    }
}

/// The round-trip law for proposals: decoding an encoding gives the record back.
pub proof fn lemma_proposal_round_trip(p: ProposalView)
    requires
        encode_utf8(p.description).len() <= u64::MAX,
        p.voted.len() <= u64::MAX,
    ensures
        spec_decode_proposal(spec_encode_proposal(p)) == Some(p),
{
    lemma_auto_spec_u32_to_from_le_bytes();
    lemma_auto_spec_u64_to_from_le_bytes();
    lemma_encode_voters_len(p.voted);
    lemma_voters_round_trip(p.voted);
    broadcast use encode_utf8_valid_utf8, encode_utf8_decode_utf8;

    let g = encode_utf8(p.description);
    let vs = spec_encode_voters(p.voted);
    let dlen = g.len() as int;
    let e = spec_encode_proposal(p);
    assert(e.len() == 37 + dlen + 8 * p.voted.len());
    assert(e.subrange(0, 4) =~= spec_u32_to_le_bytes(p.approve));
    assert(e.subrange(4, 8) =~= spec_u32_to_le_bytes(p.reject));
    assert(e.subrange(8, 12) =~= spec_u32_to_le_bytes(p.pass));
    assert(e[12] == if p.is_active { 1u8 } else { 0u8 });
    assert(e.subrange(13, 21) =~= spec_u64_to_le_bytes(p.owner.id));
    assert(e.subrange(21, 29) =~= spec_u64_to_le_bytes(g.len() as u64));
    assert(e.subrange(29, 29 + dlen) =~= g);
    assert(e.subrange(29 + dlen, 37 + dlen) =~= spec_u64_to_le_bytes(p.voted.len() as u64));
    assert(e.subrange(37 + dlen, e.len() as int) =~= vs);
    assert(spec_decode_proposal(e) == Some(p));
}

/// Relies on `String::from_utf8`: it accepts exactly the byte buffers that
/// are valid UTF-8, and decodes them to the characters they encode.
#[verifier::external_body]
pub(crate) fn string_from_utf8(bytes: Vec<u8>) -> (r: Option<String>)
    ensures
        match r {
            Some(s) => valid_utf8(bytes@) && s@ == decode_utf8(bytes@),
            None => !valid_utf8(bytes@),
        },
{
    String::from_utf8(bytes).ok()
}

/// Encodes a proposal. Total: every proposal value has an encoding.
pub fn encode_proposal(p: &Proposal) -> (out: Vec<u8>)
    ensures
        out@ == spec_encode_proposal(p@),
{
    let mut out: Vec<u8> = Vec::new();
    let mut part = u32_to_le_bytes(p.approve);
    out.append(&mut part);
    let mut part = u32_to_le_bytes(p.reject);
    out.append(&mut part);
    let mut part = u32_to_le_bytes(p.pass);
    out.append(&mut part);
    out.push(if p.is_active { 1u8 } else { 0u8 });
    let mut part = u64_to_le_bytes(p.owner.id);
    out.append(&mut part);
    let mut desc_bytes = p.description.as_str().as_bytes_vec();
    let mut part = u64_to_le_bytes(desc_bytes.len() as u64);
    out.append(&mut part);
    out.append(&mut desc_bytes);
    let mut part = u64_to_le_bytes(p.voted.len() as u64);
    out.append(&mut part);
    let ghost prefix = out@;
    let mut i: usize = 0;
    while i < p.voted.len()
        invariant
            i <= p.voted.len(),
            out@ == prefix + spec_encode_voters(p.voted@.take(i as int)),
        decreases p.voted.len() - i,
    {
        let mut part = u64_to_le_bytes(p.voted[i].id);
        out.append(&mut part);
        proof {
            lemma_encode_voters_push(p.voted@.take(i as int), p.voted@[i as int]);
            assert(p.voted@.take(i + 1) =~= p.voted@.take(i as int).push(p.voted@[i as int]));
        }
        i = i + 1;
    }
    proof {
        assert(p.voted@.take(p.voted@.len() as int) =~= p.voted@);
        assert(out@ =~= spec_encode_proposal(p@));
    }
    out
}

/// Decodes a proposal, failing exactly on buffers that encode no proposal.
pub fn decode_proposal(b: &Vec<u8>) -> (r: Result<Proposal, CodecError>)
    ensures
        match r {
            Ok(p) => spec_decode_proposal(b@) == Some(p@),
            Err(_) => spec_decode_proposal(b@) is None,
        },
{
    let n = b.len();
    if n < 37 {
        return Err(CodecError::CorruptRecord);
    }
    let s = b.as_slice();
    let approve = u32_from_le_bytes(slice_subrange(s, 0, 4));
    let reject = u32_from_le_bytes(slice_subrange(s, 4, 8));
    let pass = u32_from_le_bytes(slice_subrange(s, 8, 12));
    let active_byte = b[12];
    let owner = u64_from_le_bytes(slice_subrange(s, 13, 21));
    let dlen64 = u64_from_le_bytes(slice_subrange(s, 21, 29));
    if active_byte > 1 {
        return Err(CodecError::CorruptRecord);
    }
    if dlen64 > (n as u64) - 37 {
        return Err(CodecError::CorruptRecord);
    }
    let dlen = dlen64 as usize;
    let vlen64 = u64_from_le_bytes(slice_subrange(s, 29 + dlen, 37 + dlen));
    let rest = n - 37 - dlen;
    proof {
        lemma_fundamental_div_mod(rest as int, 8);
    }
    if rest % 8 != 0 || vlen64 != (rest / 8) as u64 {
        return Err(CodecError::CorruptRecord);
    }
    let vlen = rest / 8;
    let desc_bytes = slice_to_vec(slice_subrange(s, 29, 29 + dlen));
    match string_from_utf8(desc_bytes) {
        None => Err(CodecError::CorruptRecord),
        Some(description) => {
            let mut voted: Vec<CallerId> = Vec::new();
            let start = 37 + dlen;
            let mut i: usize = 0;
            while i < vlen
                invariant
                    i <= vlen,
                    n == b@.len(),
                    start == 37 + dlen,
                    n == start + 8 * vlen,
                    voted@ == spec_decode_voters(b@.subrange(start as int, start + 8 * i)),
                decreases vlen - i,
        {
                let id = u64_from_le_bytes(slice_subrange(b.as_slice(), start + 8 * i, start + 8 * i + 8));
                voted.push(CallerId { id });
                proof {
                    lemma_decode_voters_append(
                        b@.subrange(start as int, start + 8 * i),
                        b@.subrange(start + 8 * i, start + 8 * i + 8),
                    );
                    assert(b@.subrange(start as int, start + 8 * i) + b@.subrange(
                        start + 8 * i,
                        start + 8 * i + 8,
                    ) =~= b@.subrange(start as int, start + 8 * (i + 1)));
                }
                i = i + 1;
            }
            let p = Proposal {
                description,
                approve,
                reject,
                pass,
                is_active: active_byte == 1,
                voted,
                owner: CallerId { id: owner },
            };
            proof {
                assert(b@.subrange(start as int, start + 8 * vlen) =~= b@.subrange(
                    start as int,
                    b@.len() as int,
                ));
                assert(spec_decode_proposal(b@) == Some(p@));
            }
            Ok(p)
        }
    }
}

} // verus!
