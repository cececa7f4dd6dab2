//! A Fiat-Shamir transcript: a byte string that absorbs labelled messages,
//! from which challenges are drawn by hashing with SHA3-256.
use crate::field::{bytes_le_value, le_bytes, modulus, values, Scalar};
use sha3::{Digest, Sha3_256};
use vstd::prelude::*;

verus! {

/// What `sha3`'s SHA3-256 returns for `data`.
pub uninterp spec fn sha3_256(data: Seq<u8>) -> Seq<u8>;

/// `sha3` `Sha3_256::digest`: the 32-byte SHA3-256 digest of `data`.
#[verifier::external_body]
fn sha3_256_digest(data: &[u8]) -> (r: Vec<u8>)
    ensures
        r@ == sha3_256(data@),
        r.len() == 32,
{
    Sha3_256::digest(data).to_vec()
}

/// The 32 little-endian bytes of each value in turn.
pub open spec fn scalars_bytes(vs: Seq<nat>) -> Seq<u8>
    decreases vs.len(),
{
    if vs.len() == 0 {
        Seq::empty()
    } else {
        scalars_bytes(vs.drop_last()) + le_bytes(vs.last(), 32)
    }
}

/// The transcript state after appending `label` and the values `vs`.
pub open spec fn absorb(state: Seq<u8>, label: Seq<u8>, vs: Seq<nat>) -> Seq<u8> {
    state + label + scalars_bytes(vs)
}

/// The challenge drawn from `state` under `label`: the digest of
/// `state || label` read as a little-endian integer and reduced mod p.
pub open spec fn challenge_value(state: Seq<u8>, label: Seq<u8>) -> nat {
    bytes_le_value(sha3_256(state + label)) % modulus()
}

/// The transcript state after drawing a challenge under `label`.
pub open spec fn after_challenge(state: Seq<u8>, label: Seq<u8>) -> Seq<u8> {
    state + label + sha3_256(state + label)
}

/// The transcript state after drawing `k` challenges in a row under `label`.
pub open spec fn chain_state(st: Seq<u8>, label: Seq<u8>, k: nat) -> Seq<u8>
    decreases k,
{
    if k == 0 {
        st
    } else {
        after_challenge(chain_state(st, label, (k - 1) as nat), label)
    }
}

/// The `k` challenges drawn in a row under `label` from `st`.
pub open spec fn challenge_chain(st: Seq<u8>, label: Seq<u8>, k: nat) -> Seq<nat> {
    Seq::new(k, |i: int| challenge_value(chain_state(st, label, i as nat), label))
}

/// A Fiat-Shamir transcript.
pub struct Transcript {
    state: Vec<u8>,
}

impl View for Transcript {
    type V = Seq<u8>;

    closed spec fn view(&self) -> Seq<u8> {
        self.state@
    }
}

/// Appends the bytes of `src` to `dst`.
fn extend_bytes(dst: &mut Vec<u8>, src: &[u8])
    ensures
        final(dst)@ == old(dst)@ + src@,
{
    let ghost start = dst@;
    for i in 0..src.len()
        invariant
            dst@ == start + src@.take(i as int),
    {
        dst.push(src[i]);
        assert(src@.take(i + 1) =~= src@.take(i as int).push(src@[i as int]));
    }
    assert(src@.take(src.len() as int) =~= src@);
}

impl Transcript {
    /// A transcript that starts with `label`.
    pub fn new(label: &[u8]) -> (t: Transcript)
        ensures
            t@ == label@,
    {
        let mut state: Vec<u8> = Vec::new();
        extend_bytes(&mut state, label);
        assert(state@ =~= label@);
        Transcript { state }
    }

    /// Absorbs `label` and then the 32 little-endian bytes of each scalar.
    pub fn append_scalars(&mut self, label: &[u8], scalars: &[Scalar])
        ensures
            final(self)@ == absorb(old(self)@, label@, values(scalars@)),
    {
        extend_bytes(&mut self.state, label);
        let ghost mid = self.state@;
        for i in 0..scalars.len()
            invariant
                self.state@ == mid + scalars_bytes(values(scalars@).take(i as int)),
        {
            let bytes = scalars[i].to_bytes_le();
            extend_bytes(&mut self.state, bytes.as_slice());
            assert(values(scalars@).take(i + 1).drop_last() =~= values(scalars@).take(i as int));
        }
        assert(values(scalars@).take(scalars.len() as int) =~= values(scalars@));
        assert(self.state@ =~= absorb(old(self)@, label@, values(scalars@)));
    }

    /// Absorbs `label` and one scalar.
    pub fn append_scalar(&mut self, label: &[u8], scalar: &Scalar)
        ensures
            final(self)@ == absorb(old(self)@, label@, seq![scalar@]),
    {
        let v = vec![*scalar];
        self.append_scalars(label, v.as_slice());
        assert(values(v@) =~= seq![scalar@]);
    }

    /// Draws a challenge under `label` and absorbs the digest it came from.
    pub fn challenge_scalar(&mut self, label: &[u8]) -> (c: Scalar)
        ensures
            c@ == challenge_value(old(self)@, label@),
            final(self)@ == after_challenge(old(self)@, label@),
    {
        extend_bytes(&mut self.state, label);
        let digest = sha3_256_digest(self.state.as_slice());
        let c = Scalar::from_le_bytes_mod_order(digest.as_slice());
        extend_bytes(&mut self.state, digest.as_slice());
        c
    }
}

} // verus!

verus! {

/// The ASCII label "poly".
pub const POLY_LABEL: [u8; 4] = [112, 111, 108, 121];

/// The ASCII label "challenge_nextround".
pub const NEXT_ROUND_LABEL: [u8; 19] = [99, 104, 97, 108, 108, 101, 110, 103, 101, 95, 110, 101, 120, 116, 114, 111, 117, 110, 100];

/// The ASCII label "plonkish rlc gamma".
pub const PLONKISH_GAMMA_LABEL: [u8; 18] = [112, 108, 111, 110, 107, 105, 115, 104, 32, 114, 108, 99, 32, 103, 97, 109, 109, 97];

/// The ASCII label "plonkish_challenge".
pub const PLONKISH_CHALLENGE_LABEL: [u8; 18] = [112, 108, 111, 110, 107, 105, 115, 104, 95, 99, 104, 97, 108, 108, 101, 110, 103, 101];

/// The ASCII label "addr challenge".
pub const ADDR_CHALLENGE_LABEL: [u8; 14] = [97, 100, 100, 114, 32, 99, 104, 97, 108, 108, 101, 110, 103, 101];

/// The ASCII label "addr fold challenge".
pub const ADDR_FOLD_LABEL: [u8; 19] = [97, 100, 100, 114, 32, 102, 111, 108, 100, 32, 99, 104, 97, 108, 108, 101, 110, 103, 101];

/// The ASCII label "rerandomization sumcheck rlc".
pub const RERAND_RLC_LABEL: [u8; 28] = [114, 101, 114, 97, 110, 100, 111, 109, 105, 122, 97, 116, 105, 111, 110, 32, 115, 117, 109, 99, 104, 101, 99, 107, 32, 114, 108, 99];

/// The ASCII label "speedyspartan".
pub const PROTOCOL_LABEL: [u8; 13] = [115, 112, 101, 101, 100, 121, 115, 112, 97, 114, 116, 97, 110];

} // verus!
