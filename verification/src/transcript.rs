//! The Fiat-Shamir transcript.
//!
//! Writes append field elements, 8 bytes little-endian each, to the proof
//! stream and absorb the same bytes into a running Keccak-256 state; reads
//! consume and absorb them; challenges are squeezed deterministically from
//! the state. Prover and verifier that exchange the same bytes therefore
//! squeeze the same challenges.

use sha3::{Digest, Keccak256};
use vstd::prelude::*;
use vstd::arithmetic::power2::pow2;
use crate::field::{residues, Fp, P};
use crate::utils::ProtocolError;

verus! {

/// The Keccak-256 digest of a byte string.
pub uninterp spec fn keccak_of(bytes: Seq<u8>) -> Seq<u8>;

/// Relies on `sha3::Keccak256`: the 32-byte digest depends on the input
/// bytes alone.
#[verifier::external_body]
fn keccak256(bytes: &Vec<u8>) -> (r: Vec<u8>)
    ensures
        r@ == keccak_of(bytes@),
        r@.len() == 32,
{
    let mut hasher = Keccak256::new();
    hasher.update(bytes.as_slice());
    hasher.finalize().to_vec()
}

/// The byte marking a challenge squeeze in the hash state.
pub const SQUEEZE_TAG: u8 = 0x73;

/// The state after absorbing a message.
pub open spec fn absorb(state: Seq<u8>, bytes: Seq<u8>) -> Seq<u8> {
    keccak_of(state + bytes)
}

/// The state after squeezing one challenge.
pub open spec fn squeeze_state(state: Seq<u8>) -> Seq<u8> {
    keccak_of(state.push(SQUEEZE_TAG))
}

/// A little-endian byte string read as an integer.
pub open spec fn le_val(s: Seq<u8>) -> int
    decreases s.len(),
{
    if s.len() == 0 {
        0
    } else {
        s[0] + 256 * le_val(s.drop_first())
    }
}

/// The residue squeezed from a state.
pub open spec fn squeeze_val(state: Seq<u8>) -> int {
    le_val(squeeze_state(state).take(8)) % (P as int)
}

/// The 8-byte little-endian encoding of a residue.
pub open spec fn fp_bytes(x: int) -> Seq<u8> {
    Seq::new(8, |i: int| ((x / pow2((8 * i) as nat) as int) % 256) as u8)
}

/// The concatenated encodings of a message of residues.
pub open spec fn ser_elems(xs: Seq<int>) -> Seq<u8>
    decreases xs.len(),
{
    if xs.len() == 0 {
        Seq::empty()
    } else {
        fp_bytes(xs[0]) + ser_elems(xs.drop_first())
    }
}

/// The state after absorbing a message of residues, one element at a time.
pub open spec fn absorb_elems(state: Seq<u8>, xs: Seq<int>) -> Seq<u8>
    decreases xs.len(),
{
    if xs.len() == 0 {
        state
    } else {
        absorb_elems(absorb(state, fp_bytes(xs[0])), xs.drop_first())
    }
}

/// The states walked through by `n` consecutive squeezes.
pub open spec fn squeeze_n_state(state: Seq<u8>, n: nat) -> Seq<u8>
    decreases n,
{
    if n == 0 {
        state
    } else {
        squeeze_n_state(squeeze_state(state), (n - 1) as nat)
    }
}

/// The residues squeezed by `n` consecutive squeezes.
pub open spec fn squeeze_n_vals(state: Seq<u8>, n: nat) -> Seq<int>
    decreases n,
{
    if n == 0 {
        Seq::empty()
    } else {
        seq![squeeze_val(state)] + squeeze_n_vals(squeeze_state(state), (n - 1) as nat)
    }
}

/// The residue read from the stream at a byte offset.
pub open spec fn read_val_at(stream: Seq<u8>, pos: int) -> int {
    le_val(stream.subrange(pos, pos + 8)) % (P as int)
}

/// The residues of `n` elements read from the stream at a byte offset.
pub open spec fn read_vals(stream: Seq<u8>, pos: int, n: nat) -> Seq<int> {
    Seq::new(n, |i: int| read_val_at(stream, pos + 8 * i))
}

/// The state after absorbing `n` 8-byte chunks of the stream.
pub open spec fn absorb_chunks(state: Seq<u8>, stream: Seq<u8>, pos: int, n: nat) -> Seq<u8>
    decreases n,
{
    if n == 0 {
        state
    } else {
        absorb_chunks(
            absorb(state, stream.subrange(pos, pos + 8)),
            stream,
            pos + 8,
            (n - 1) as nat,
        )
    }
}

/// Appending one element extends a serialized message at its end.
pub proof fn lemma_ser_elems_push(xs: Seq<int>, x: int)
    ensures
        ser_elems(xs.push(x)) == ser_elems(xs) + fp_bytes(x),
    decreases xs.len(),
{
    if xs.len() == 0 {
        assert(xs.push(x).drop_first() =~= Seq::<int>::empty());
        assert(xs.push(x)[0] == x);
        assert(ser_elems(Seq::<int>::empty()) =~= Seq::<u8>::empty());
        assert(ser_elems(xs.push(x)) =~= fp_bytes(x));
        assert(ser_elems(xs) + fp_bytes(x) =~= fp_bytes(x));
    } else {
        assert(xs.push(x).drop_first() =~= xs.drop_first().push(x));
        lemma_ser_elems_push(xs.drop_first(), x);
        assert(ser_elems(xs.push(x)) =~= ser_elems(xs) + fp_bytes(x));
    }
}

/// Absorbing one more element continues from the absorbed prefix.
pub proof fn lemma_absorb_elems_push(state: Seq<u8>, xs: Seq<int>, x: int)
    ensures
        absorb_elems(state, xs.push(x)) == absorb(absorb_elems(state, xs), fp_bytes(x)),
    decreases xs.len(),
{
    if xs.len() == 0 {
        assert(xs.push(x).drop_first() =~= Seq::<int>::empty());
        assert(xs.push(x)[0] == x);
        assert(absorb_elems(absorb(state, fp_bytes(x)), Seq::<int>::empty())
            == absorb(state, fp_bytes(x)));
        assert(absorb_elems(state, xs) == state);
    } else {
        assert(xs.push(x).drop_first() =~= xs.drop_first().push(x));
        assert(xs.push(x)[0] == xs[0]);
        lemma_absorb_elems_push(absorb(state, fp_bytes(xs[0])), xs.drop_first(), x);
    }
}

/// One more squeeze extends the squeezed residues at their end.
pub proof fn lemma_squeeze_n_push(state: Seq<u8>, n: nat)
    ensures
        squeeze_n_vals(state, n + 1) == squeeze_n_vals(state, n).push(
            squeeze_val(squeeze_n_state(state, n)),
        ),
        squeeze_n_state(state, n + 1) == squeeze_state(squeeze_n_state(state, n)),
    decreases n,
{
    if n == 0 {
        assert(squeeze_n_vals(squeeze_state(state), 0) =~= Seq::<int>::empty());
        assert(squeeze_n_state(squeeze_state(state), 0) == squeeze_state(state));
        assert(squeeze_n_vals(state, 0) =~= Seq::<int>::empty());
        assert(squeeze_n_state(state, 0) == state);
        assert(squeeze_n_vals(state, 1) =~= squeeze_n_vals(state, 0).push(squeeze_val(state)));
    } else {
        lemma_squeeze_n_push(squeeze_state(state), (n - 1) as nat);
        assert(squeeze_n_vals(state, n + 1) =~= seq![squeeze_val(state)] + squeeze_n_vals(
            squeeze_state(state),
            n,
        ));
        assert(squeeze_n_vals(state, n).push(squeeze_val(squeeze_n_state(state, n)))
            =~= seq![squeeze_val(state)] + squeeze_n_vals(squeeze_state(state), (n - 1) as nat)
            .push(squeeze_val(squeeze_n_state(squeeze_state(state), (n - 1) as nat))));
    }
}

/// One more chunk continues from the absorbed prefix.
pub proof fn lemma_absorb_chunks_push(state: Seq<u8>, stream: Seq<u8>, pos: int, n: nat)
    ensures
        absorb_chunks(state, stream, pos, n + 1) == absorb(
            absorb_chunks(state, stream, pos, n),
            stream.subrange(pos + 8 * n, pos + 8 * n + 8),
        ),
    decreases n,
{
    if n == 0 {
        let first = absorb(state, stream.subrange(pos, pos + 8));
        assert(absorb_chunks(first, stream, pos + 8, 0) == first);
        assert(absorb_chunks(state, stream, pos, 0) == state);
    } else {
        lemma_absorb_chunks_push(
            absorb(state, stream.subrange(pos, pos + 8)),
            stream,
            pos + 8,
            (n - 1) as nat,
        );
        assert(pos + 8 + 8 * (n - 1) == pos + 8 * n);
    }
}

/// A value below `2^(8 len)` is what its little-endian bytes read back.
pub proof fn lemma_le_val_bound(s: Seq<u8>)
    ensures
        0 <= le_val(s) < pow2((8 * s.len()) as nat),
    decreases s.len(),
{
    if s.len() == 0 {
        vstd::arithmetic::power2::lemma2_to64();
    } else {
        lemma_le_val_bound(s.drop_first());
        let rest = le_val(s.drop_first());
        assert(pow2((8 * s.len()) as nat) == 256 * pow2((8 * (s.len() - 1)) as nat)) by {
            vstd::arithmetic::power2::lemma_pow2_adds(8, (8 * (s.len() - 1)) as nat);
            vstd::arithmetic::power2::lemma2_to64();
        }
        assert(s[0] + 256 * rest < 256 * pow2((8 * (s.len() - 1)) as nat)) by (nonlinear_arith)
            requires
                0 <= s[0] < 256,
                0 <= rest,
                rest < pow2((8 * (s.len() - 1)) as nat),
        ;
    }
}

/// The Fiat-Shamir transcript: the proof byte stream, a read position, and
/// the running hash state.
pub struct Transcript {
    pub stream: Vec<u8>,
    pub pos: usize,
    pub state: Vec<u8>,
}

impl Transcript {
    /// An empty transcript, for the prover.
    pub fn new() -> (r: Self)
        ensures
            r.stream@ == Seq::<u8>::empty(),
            r.pos == 0,
            r.state@ == Seq::<u8>::empty(),
    {
        Transcript { stream: Vec::new(), pos: 0, state: Vec::new() }
    }

    /// A transcript positioned at the start of given proof bytes, for the
    /// verifier.
    pub fn from_proof(bytes: Vec<u8>) -> (r: Self)
        ensures
            r.stream@ == bytes@,
            r.pos == 0,
            r.state@ == Seq::<u8>::empty(),
    {
        Transcript { stream: bytes, pos: 0, state: Vec::new() }
    }

    /// The proof bytes written so far.
    pub fn into_proof(self) -> (r: Vec<u8>)
        ensures
            r@ == self.stream@,
    {
        self.stream
    }

    /// Absorbs raw bytes into the hash state.
    fn absorb_bytes(&mut self, bytes: &Vec<u8>)
        ensures
            final(self).state@ == absorb(old(self).state@, bytes@),
            final(self).stream@ == old(self).stream@,
            final(self).pos == old(self).pos,
    {
        let mut buf: Vec<u8> = Vec::new();
        buf.extend_from_slice(self.state.as_slice());
        buf.extend_from_slice(bytes.as_slice());
        proof {
            assert(buf@ =~= self.state@ + bytes@);
        }
        self.state = keccak256(&buf);
    }

    /// Serializes one element, 8 bytes little-endian.
    fn element_bytes(f: Fp) -> (r: Vec<u8>)
        ensures
            r@ == fp_bytes(f.as_int()),
    {
        let x = f.to_u64();
        let ghost xi = f.as_int();
        let mut cur = x;
        let mut r: Vec<u8> = Vec::new();
        let mut t: usize = 0;
        proof {
            vstd::arithmetic::power2::lemma2_to64();
            assert(xi / 1int == xi);
        }
        while t < 8
            invariant
                t <= 8,
                r.len() == t,
                xi == x as int,
                cur as int == xi / pow2((8 * t) as nat) as int,
                forall|i: int| 0 <= i < t ==> r@[i] == fp_bytes(xi)[i],
            decreases 8 - t,
        {
            r.push((cur % 256) as u8);
            proof {
                vstd::arithmetic::power2::lemma_pow2_pos((8 * t) as nat);
                vstd::arithmetic::div_mod::lemma_div_denominator(
                    xi,
                    pow2((8 * t) as nat) as int,
                    256,
                );
                assert(pow2((8 * (t + 1)) as nat) == pow2((8 * t) as nat) * 256) by {
                    vstd::arithmetic::power2::lemma_pow2_adds((8 * t) as nat, 8);
                    vstd::arithmetic::power2::lemma2_to64();
                }
            }
            cur = cur / 256;
            t = t + 1;
        }
        proof {
            assert(r@ =~= fp_bytes(xi));
        }
        r
    }

    /// Reads one element's value from 8 stream bytes.
    fn parse_element(bytes: &Vec<u8>, start: usize) -> (r: u64)
        requires
            start + 8 <= bytes.len(),
        ensures
            r as int == le_val(bytes@.subrange(start as int, start as int + 8)),
    {
        let ghost region = bytes@.subrange(start as int, start as int + 8);
        let mut acc: u64 = 0;
        let mut t: usize = 0;
        proof {
            vstd::arithmetic::power2::lemma2_to64();
            assert(region.subrange(8, 8) =~= Seq::<u8>::empty());
        }
        while t < 8
            invariant
                t <= 8,
                start + 8 <= bytes.len(),
                region == bytes@.subrange(start as int, start as int + 8),
                acc as int == le_val(region.subrange(8 - t, 8)),
                acc < pow2((8 * t) as nat),
            decreases 8 - t,
        {
            let idx = start + 7 - t;
            let b = bytes[idx];
            proof {
                let k: int = 7 - t;
                let tail = region.subrange(k, 8);
                assert(tail.drop_first() =~= region.subrange(k + 1, 8));
                assert(tail[0] == region[k]);
                assert(region[k] == bytes@[start + k]);
                lemma_le_val_bound(region.subrange(k + 1, 8));
                assert(pow2((8 * (t + 1)) as nat) == 256 * pow2((8 * t) as nat)) by {
                    vstd::arithmetic::power2::lemma_pow2_adds(8, (8 * t) as nat);
                    vstd::arithmetic::power2::lemma2_to64();
                }
                assert(acc as int * 256 + b < pow2((8 * (t + 1)) as nat)) by (nonlinear_arith)
                    requires
                        acc < pow2((8 * t) as nat),
                        b < 256,
                        pow2((8 * (t + 1)) as nat) == 256 * pow2((8 * t) as nat),
                ;
                assert(pow2(64) == 0x10000000000000000) by {
                    vstd::arithmetic::power2::lemma2_to64_rest();
                }
                assert(pow2((8 * (t + 1)) as nat) <= pow2(64)) by {
                    if 8 * (t + 1) < 64 {
                        vstd::arithmetic::power2::lemma_pow2_strictly_increases(
                            (8 * (t + 1)) as nat,
                            64,
                        );
                    }
                }
            }
            acc = acc * 256 + (b as u64);
            t = t + 1;
        }
        proof {
            assert(region.subrange(0, 8) =~= region);
        }
        acc
    }

    /// Writes one field element: appends its bytes to the stream and
    /// absorbs them.
    pub fn write_field_element(&mut self, f: Fp) -> (r: Result<(), ProtocolError>)
        requires
            f.wf(),
        ensures
            r is Ok,
            final(self).stream@ == old(self).stream@ + fp_bytes(f.as_int()),
            final(self).state@ == absorb(old(self).state@, fp_bytes(f.as_int())),
            final(self).pos == old(self).pos,
    {
        let bytes = Self::element_bytes(f);
        self.stream.extend_from_slice(bytes.as_slice());
        proof {
            assert(self.stream@ =~= old(self).stream@ + fp_bytes(f.as_int()));
        }
        self.absorb_bytes(&bytes);
        Ok(())
    }

    /// Writes a message of field elements in order.
    pub fn write_field_elements(&mut self, v: &Vec<Fp>) -> (r: Result<(), ProtocolError>)
        requires
            crate::field::fp_seq_wf(v@),
        ensures
            r is Ok,
            final(self).stream@ == old(self).stream@ + ser_elems(residues(v@)),
            final(self).state@ == absorb_elems(old(self).state@, residues(v@)),
            final(self).pos == old(self).pos,
    {
        let ghost xs = residues(v@);
        let mut t: usize = 0;
        while t < v.len()
            invariant
                t <= v.len(),
                crate::field::fp_seq_wf(v@),
                xs == residues(v@),
                self.stream@ == old(self).stream@ + ser_elems(xs.subrange(0, t as int)),
                self.state@ == absorb_elems(old(self).state@, xs.subrange(0, t as int)),
                self.pos == old(self).pos,
            decreases v.len() - t,
        {
            let fr = v[t];
            let _ = self.write_field_element(fr);
            proof {
                let pre = xs.subrange(0, t as int);
                assert(pre.push(fr.as_int()) =~= xs.subrange(0, t as int + 1));
                lemma_ser_elems_push(pre, fr.as_int());
                lemma_absorb_elems_push(old(self).state@, pre, fr.as_int());
                assert(self.stream@ =~= old(self).stream@ + ser_elems(
                    xs.subrange(0, t as int + 1),
                ));
            }
            t = t + 1;
        }
        proof {
            assert(xs.subrange(0, v.len() as int) =~= xs);
        }
        Ok(())
    }

    /// Squeezes one challenge from the hash state.
    pub fn squeeze_challenge(&mut self) -> (r: Fp)
        ensures
            r.wf(),
            r.as_int() == squeeze_val(old(self).state@),
            final(self).state@ == squeeze_state(old(self).state@),
            final(self).stream@ == old(self).stream@,
            final(self).pos == old(self).pos,
    {
        let mut buf: Vec<u8> = Vec::new();
        buf.extend_from_slice(self.state.as_slice());
        buf.push(SQUEEZE_TAG);
        proof {
            assert(buf@ =~= self.state@.push(SQUEEZE_TAG));
        }
        let digest = keccak256(&buf);
        let val = Self::parse_element(&digest, 0);
        proof {
            assert(digest@.subrange(0, 8) =~= digest@.take(8));
        }
        self.state = digest;
        Fp::from_u64(val)
    }

    /// Squeezes `n` challenges in order.
    pub fn squeeze_challenges(&mut self, n: usize) -> (r: Vec<Fp>)
        ensures
            r.len() == n,
            crate::field::fp_seq_wf(r@),
            residues(r@) == squeeze_n_vals(old(self).state@, n as nat),
            final(self).state@ == squeeze_n_state(old(self).state@, n as nat),
            final(self).stream@ == old(self).stream@,
            final(self).pos == old(self).pos,
    {
        let mut r: Vec<Fp> = Vec::new();
        let mut t: usize = 0;
        while t < n
            invariant
                t <= n,
                r.len() == t,
                crate::field::fp_seq_wf(r@),
                residues(r@) == squeeze_n_vals(old(self).state@, t as nat),
                self.state@ == squeeze_n_state(old(self).state@, t as nat),
                self.stream@ == old(self).stream@,
                self.pos == old(self).pos,
            decreases n - t,
        {
            let c = self.squeeze_challenge();
            r.push(c);
            proof {
                lemma_squeeze_n_push(old(self).state@, t as nat);
                assert(residues(r@) =~= squeeze_n_vals(old(self).state@, (t + 1) as nat));
            }
            t = t + 1;
        }
        r
    }

    /// Reads one field element: consumes 8 stream bytes, absorbing them;
    /// fails when fewer remain.
    pub fn read_field_element(&mut self) -> (r: Result<Fp, ProtocolError>)
        ensures
            r is Ok <==> old(self).pos + 8 <= old(self).stream.len(),
            r is Err ==> (r matches Err(ProtocolError::Transcript)) && *final(self)
                == *old(self),
            r matches Ok(f) ==> {
                &&& f.wf()
                &&& f.as_int() == read_val_at(old(self).stream@, old(self).pos as int)
                &&& final(self).pos == old(self).pos + 8
                &&& final(self).state@ == absorb(
                    old(self).state@,
                    old(self).stream@.subrange(
                        old(self).pos as int,
                        old(self).pos as int + 8,
                    ),
                )
                &&& final(self).stream@ == old(self).stream@
            },
    {
        if self.stream.len() < 8 || self.pos > self.stream.len() - 8 {
            return Err(ProtocolError::Transcript);
        }
        let start = self.pos;
        let val = Self::parse_element(&self.stream, start);
        let mut chunk: Vec<u8> = Vec::new();
        let mut t: usize = 0;
        while t < 8
            invariant
                t <= 8,
                start + 8 <= self.stream.len(),
                chunk.len() == t,
                self == old(self),
                start == old(self).pos,
                forall|i: int| 0 <= i < t ==> chunk@[i] == self.stream@[start + i],
            decreases 8 - t,
        {
            chunk.push(self.stream[start + t]);
            t = t + 1;
        }
        proof {
            assert(chunk@ =~= self.stream@.subrange(start as int, start as int + 8));
        }
        self.absorb_bytes(&chunk);
        self.pos = start + 8;
        Ok(Fp::from_u64(val))
    }

    /// Reads `n` field elements; fails, consuming nothing, when fewer than
    /// `8 n` bytes remain.
    pub fn read_field_elements(&mut self, n: usize) -> (r: Result<Vec<Fp>, ProtocolError>)
        ensures
            r is Ok <==> old(self).pos + 8 * n <= old(self).stream.len(),
            r is Err ==> (r matches Err(ProtocolError::Transcript)) && *final(self)
                == *old(self),
            r matches Ok(v) ==> {
                &&& v.len() == n
                &&& crate::field::fp_seq_wf(v@)
                &&& residues(v@) == read_vals(old(self).stream@, old(self).pos as int, n as nat)
                &&& final(self).pos == old(self).pos + 8 * n
                &&& final(self).state@ == absorb_chunks(
                    old(self).state@,
                    old(self).stream@,
                    old(self).pos as int,
                    n as nat,
                )
                &&& final(self).stream@ == old(self).stream@
            },
    {
        if self.pos > self.stream.len() {
            return Err(ProtocolError::Transcript);
        }
        let remaining = self.stream.len() - self.pos;
        if remaining / 8 < n {
            proof {
                assert(remaining < 8 * n) by (nonlinear_arith)
                    requires
                        remaining as int / 8 < n,
                        remaining >= 0,
                        n >= 0,
                ;
            }
            return Err(ProtocolError::Transcript);
        }
        proof {
            assert(remaining >= 8 * n) by (nonlinear_arith)
                requires
                    remaining as int / 8 >= n,
                    remaining >= 0,
                    n >= 0,
            ;
        }
        let mut v: Vec<Fp> = Vec::new();
        let mut t: usize = 0;
        while t < n
            invariant
                t <= n,
                old(self).pos + 8 * n <= old(self).stream.len(),
                v.len() == t,
                crate::field::fp_seq_wf(v@),
                residues(v@) == read_vals(old(self).stream@, old(self).pos as int, t as nat),
                self.pos == old(self).pos + 8 * t,
                self.state@ == absorb_chunks(
                    old(self).state@,
                    old(self).stream@,
                    old(self).pos as int,
                    t as nat,
                ),
                self.stream@ == old(self).stream@,
            decreases n - t,
        {
            let fr = match self.read_field_element() {
                Ok(fr) => fr,
                Err(_) => {
                    // The upfront length check rules a short read out.
                    proof {
                        assert(false);
                    }
                    return Err(ProtocolError::Transcript);
                },
            };
            v.push(fr);
            proof {
                lemma_absorb_chunks_push(
                    old(self).state@,
                    old(self).stream@,
                    old(self).pos as int,
                    t as nat,
                );
                assert(fr.as_int() == read_val_at(
                    old(self).stream@,
                    old(self).pos as int + 8 * t as int,
                ));
                assert forall|i: int| 0 <= i < t + 1 implies residues(v@)[i] == read_vals(
                    old(self).stream@,
                    old(self).pos as int,
                    (t + 1) as nat,
                )[i] by {
                    if i < t {
                        assert(residues(v@)[i] == read_vals(
                            old(self).stream@,
                            old(self).pos as int,
                            t as nat,
                        )[i]);
                    } else {
                        assert(residues(v@)[i] == fr.as_int());
                    }
                }
                assert(residues(v@) =~= read_vals(
                    old(self).stream@,
                    old(self).pos as int,
                    (t + 1) as nat,
                ));
            }
            t = t + 1;
        }
        Ok(v)
    }
}

/// Absorbing chunks in two runs equals absorbing them in one.
pub proof fn lemma_absorb_chunks_concat(
    state: Seq<u8>,
    stream: Seq<u8>,
    pos: int,
    a: nat,
    b: nat,
)
    ensures
        absorb_chunks(absorb_chunks(state, stream, pos, a), stream, pos + 8 * a, b)
            == absorb_chunks(state, stream, pos, (a + b) as nat),
    decreases a,
{
    if a > 0 {
        lemma_absorb_chunks_concat(
            absorb(state, stream.subrange(pos, pos + 8)),
            stream,
            pos + 8,
            (a - 1) as nat,
            b,
        );
        assert(pos + 8 + 8 * (a - 1) == pos + 8 * a);
    }
}

} // verus!
