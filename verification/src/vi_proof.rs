//! Wire format of a verifiable-inference proof: the model identifier, the
//! target layer, the per-layer activation roots, the tile-Merkle root and
//! the opened tiles (the found tile and the spot-checks), every count
//! length-prefixed as a little-endian `u32`.
use vstd::prelude::*;
use crate::bytes::{le_bytes, le_val, pow256, push_u32, read_u32, lemma_le_roundtrip, lemma_pow256_values};
use crate::merkle::views32;

verus! {

broadcast use vstd::array::group_array_axioms;

/// One opened tile of the puzzle Merkle tree: its coordinates, its leaf
/// hash and the sibling path.
#[derive(Debug, Clone, PartialEq, Eq)]
pub struct TileOpening {
    pub i: u32,
    pub j: u32,
    pub m_ij: [u8; 32],
    pub path: Vec<[u8; 32]>,
}

/// A verifiable-inference proof. `comm_activations` holds one activation
/// root per layer up to and including `layer_index`; `found` is the tile
/// that meets the hardness target and `spot_checks` the sampled openings
/// against `comm_m`.
#[derive(Debug, Clone, PartialEq, Eq)]
pub struct ViProof {
    pub model_id: [u8; 32],
    pub layer_index: u32,
    pub comm_activations: Vec<[u8; 32]>,
    pub comm_m: [u8; 32],
    pub found: TileOpening,
    pub spot_checks: Vec<TileOpening>,
}

/// Why a byte string is not a proof.
#[derive(Debug, Clone, Copy, PartialEq, Eq, Structural)]
pub enum DecodeError {
    Eof,
    Trailing,
    PathTooLarge,
    SpotTooLarge,
    ActivationCountTooLarge,
}

impl DecodeError {
    /// Human-readable message.
    pub fn message(&self) -> (s: String)
        ensures
            s@ == (match self {
                DecodeError::Eof => "unexpected end of input"@,
                DecodeError::Trailing => "trailing bytes after decode"@,
                DecodeError::PathTooLarge => "path length too large"@,
                DecodeError::SpotTooLarge => "spot count too large"@,
                DecodeError::ActivationCountTooLarge => "activation roots count too large"@,
            }),
    {
        match self {
            DecodeError::Eof => String::from_str("unexpected end of input"),
            DecodeError::Trailing => String::from_str("trailing bytes after decode"),
            DecodeError::PathTooLarge => String::from_str("path length too large"),
            DecodeError::SpotTooLarge => String::from_str("spot count too large"),
            DecodeError::ActivationCountTooLarge => String::from_str("activation roots count too large"),
        }
    }
}

/// Longest sibling path accepted (enough for `2^64` leaves).
pub const MAX_PATH_LEN: u32 = 64;
/// Most spot-check openings accepted.
pub const MAX_SPOT: u32 = 1048576;
/// Most activation roots accepted.
pub const MAX_ACTIVATION_ROOTS: u32 = 65536;

/// Mathematical value of an opening.
pub ghost struct OpeningView {
    pub i: u32,
    pub j: u32,
    pub m_ij: Seq<u8>,
    pub path: Seq<Seq<u8>>,
}

/// Mathematical value of a proof.
pub ghost struct ProofView {
    pub model_id: Seq<u8>,
    pub layer_index: u32,
    pub comm_activations: Seq<Seq<u8>>,
    pub comm_m: Seq<u8>,
    pub found: OpeningView,
    pub spot_checks: Seq<OpeningView>,
}

impl View for TileOpening {
    type V = OpeningView;

    open spec fn view(&self) -> OpeningView {
        OpeningView { i: self.i, j: self.j, m_ij: self.m_ij@, path: views32(self.path@) }
    }
}

impl View for ViProof {
    type V = ProofView;

    open spec fn view(&self) -> ProofView {
        ProofView {
            model_id: self.model_id@,
            layer_index: self.layer_index,
            comm_activations: views32(self.comm_activations@),
            comm_m: self.comm_m@,
            found: self.found@,
            spot_checks: openings_view(self.spot_checks@),
        }
    }
}

/// Views of a list of openings.
pub open spec fn openings_view(s: Seq<TileOpening>) -> Seq<OpeningView> {
    Seq::new(s.len(), |k: int| s[k]@)
}

// ----- encoding -----

/// Concatenation of a list of byte strings.
pub open spec fn flat(s: Seq<Seq<u8>>) -> Seq<u8>
    decreases s.len(),
{
    if s.len() == 0 {
        Seq::<u8>::empty()
    } else {
        flat(s.drop_last()) + s.last()
    }
}

/// Bytes of one opening: `i`, `j`, the leaf hash, the path length and the
/// path.
pub open spec fn opening_bytes(o: OpeningView) -> Seq<u8> {
    le_bytes(o.i as nat, 4) + le_bytes(o.j as nat, 4) + o.m_ij + le_bytes((o.path.len() as u32) as nat, 4) + flat(o.path)
}

/// Bytes of a list of openings, one after the other.
pub open spec fn openings_bytes(s: Seq<OpeningView>) -> Seq<u8>
    decreases s.len(),
{
    if s.len() == 0 {
        Seq::<u8>::empty()
    } else {
        openings_bytes(s.drop_last()) + opening_bytes(s.last())
    }
}

/// Bytes of a proof. A count is written cast to `u32`.
pub open spec fn encode_spec(p: ProofView) -> Seq<u8> {
    p.model_id + le_bytes(p.layer_index as nat, 4) + le_bytes((p.comm_activations.len() as u32) as nat, 4)
        + flat(p.comm_activations) + p.comm_m + opening_bytes(p.found)
        + le_bytes((p.spot_checks.len() as u32) as nat, 4) + openings_bytes(p.spot_checks)
}

// ----- decoding -----

/// Read a little-endian `u32` off the front.
pub open spec fn take_u32_spec(s: Seq<u8>) -> Result<(u32, Seq<u8>), DecodeError> {
    if s.len() < 4 {
        Err(DecodeError::Eof)
    } else {
        Ok((le_val(s.take(4)) as u32, s.skip(4)))
    }
}

/// Read 32 bytes off the front.
pub open spec fn take_arr32_spec(s: Seq<u8>) -> Result<(Seq<u8>, Seq<u8>), DecodeError> {
    if s.len() < 32 {
        Err(DecodeError::Eof)
    } else {
        Ok((s.take(32), s.skip(32)))
    }
}

/// Read `n` 32-byte values off the front, in order.
pub open spec fn take_arrs_spec(s: Seq<u8>, n: nat) -> Result<(Seq<Seq<u8>>, Seq<u8>), DecodeError>
    decreases n,
{
    if n == 0 {
        Ok((Seq::<Seq<u8>>::empty(), s))
    } else {
        match take_arrs_spec(s, (n - 1) as nat) {
            Err(e) => Err(e),
            Ok((v, r)) => match take_arr32_spec(r) {
                Err(e) => Err(e),
                Ok((a, r2)) => Ok((v.push(a), r2)),
            },
        }
    }
}

/// Read one opening off the front.
pub open spec fn decode_opening_spec(s: Seq<u8>) -> Result<(OpeningView, Seq<u8>), DecodeError> {
    match take_u32_spec(s) {
        Err(e) => Err(e),
        Ok((i, s1)) => match take_u32_spec(s1) {
            Err(e) => Err(e),
            Ok((j, s2)) => match take_arr32_spec(s2) {
                Err(e) => Err(e),
                Ok((m, s3)) => match take_u32_spec(s3) {
                    Err(e) => Err(e),
                    Ok((pl, s4)) => if pl > MAX_PATH_LEN {
                        Err(DecodeError::PathTooLarge)
                    } else {
                        match take_arrs_spec(s4, pl as nat) {
                            Err(e) => Err(e),
                            Ok((path, s5)) => Ok((OpeningView { i, j, m_ij: m, path }, s5)),
                        }
                    },
                },
            },
        },
    }
}

/// Read `n` openings off the front, in order.
pub open spec fn take_openings_spec(s: Seq<u8>, n: nat) -> Result<(Seq<OpeningView>, Seq<u8>), DecodeError>
    decreases n,
{
    if n == 0 {
        Ok((Seq::<OpeningView>::empty(), s))
    } else {
        match take_openings_spec(s, (n - 1) as nat) {
            Err(e) => Err(e),
            Ok((v, r)) => match decode_opening_spec(r) {
                Err(e) => Err(e),
                Ok((o, r2)) => Ok((v.push(o), r2)),
            },
        }
    }
}

/// What `ViProof::decode` returns for a byte string: every field in wire
/// order, the first failure winning; the counts are checked against their
/// bounds before anything they count is read; nothing may follow.
pub open spec fn decode_spec(s: Seq<u8>) -> Result<ProofView, DecodeError> {
    match take_arr32_spec(s) {
        Err(e) => Err(e),
        Ok((model_id, s1)) => match take_u32_spec(s1) {
            Err(e) => Err(e),
            Ok((layer_index, s2)) => match take_u32_spec(s2) {
                Err(e) => Err(e),
                Ok((n_act, s3)) => if n_act > MAX_ACTIVATION_ROOTS {
                    Err(DecodeError::ActivationCountTooLarge)
                } else {
                    match take_arrs_spec(s3, n_act as nat) {
                        Err(e) => Err(e),
                        Ok((acts, s4)) => decode_tail_spec(model_id, layer_index, acts, s4),
                    }
                },
            },
        },
    }
}

/// The part of `decode_spec` after the activation roots.
pub open spec fn decode_tail_spec(model_id: Seq<u8>, layer_index: u32, acts: Seq<Seq<u8>>, s4: Seq<u8>) -> Result<ProofView, DecodeError> {
    match take_arr32_spec(s4) {
        Err(e) => Err(e),
        Ok((comm_m, s5)) => match decode_opening_spec(s5) {
            Err(e) => Err(e),
            Ok((found, s6)) => match take_u32_spec(s6) {
                Err(e) => Err(e),
                Ok((n, s7)) => if n > MAX_SPOT {
                    Err(DecodeError::SpotTooLarge)
                } else {
                    match take_openings_spec(s7, n as nat) {
                        Err(e) => Err(e),
                        Ok((spots, s8)) => if s8.len() != 0 {
                            Err(DecodeError::Trailing)
                        } else {
                            Ok(ProofView {
                                model_id,
                                layer_index,
                                comm_activations: acts,
                                comm_m,
                                found,
                                spot_checks: spots,
                            })
                        },
                    }
                },
            },
        },
    }
}

/// A decode result, by value.
pub open spec fn decoded_view(r: Result<ViProof, DecodeError>) -> Result<ProofView, DecodeError> {
    match r {
        Ok(p) => Ok(p@),
        Err(e) => Err(e),
    }
}

fn take_u32(bytes: &[u8], pos: &mut usize) -> (r: Result<u32, DecodeError>)
    requires
        *old(pos) <= bytes@.len(),
    ensures
        *final(pos) <= bytes@.len(),
        take_u32_spec(bytes@.skip(*old(pos) as int)) == (match r {
            Ok(v) => Ok((v, bytes@.skip(*final(pos) as int))),
            Err(e) => Err(e),
        }),
{
    if bytes.len() - *pos < 4 {
        return Err(DecodeError::Eof);
    }
    let v = read_u32(bytes, *pos);
    proof {
        assert(bytes@.skip(*old(pos) as int).take(4) =~= bytes@.subrange(*old(pos) as int, *old(pos) + 4));
        assert(bytes@.skip(*old(pos) as int).skip(4) =~= bytes@.skip(*old(pos) + 4));
    }
    *pos = *pos + 4;
    Ok(v)
}

fn take_arr32(bytes: &[u8], pos: &mut usize) -> (r: Result<[u8; 32], DecodeError>)
    requires
        *old(pos) <= bytes@.len(),
    ensures
        *final(pos) <= bytes@.len(),
        take_arr32_spec(bytes@.skip(*old(pos) as int)) == (match r {
            Ok(a) => Ok((a@, bytes@.skip(*final(pos) as int))),
            Err(e) => Err(e),
        }),
{
    if bytes.len() - *pos < 32 {
        return Err(DecodeError::Eof);
    }
    let start = *pos;
    let mut buf = [0u8; 32];
    let mut k: usize = 0;
    let blen = bytes.len();
    while k < 32
        invariant
            k <= 32,
            blen == bytes@.len(),
            start + 32 <= blen,
            forall|t: int| 0 <= t < k ==> buf@[t] == bytes@[start + t],
        decreases 32 - k,
    {
        buf[k] = bytes[start + k];
        k = k + 1;
    }
    proof {
        assert(bytes@.skip(start as int).take(32) =~= buf@);
        assert(bytes@.skip(start as int).skip(32) =~= bytes@.skip(start + 32));
    }
    *pos = start + 32;
    Ok(buf)
}

/// Once a list read fails, reading a longer list fails the same way.
proof fn lemma_take_arrs_err(s: Seq<u8>, k: nat, m: nat)
    requires
        k <= m,
        take_arrs_spec(s, k) is Err,
    ensures
        take_arrs_spec(s, m) == take_arrs_spec(s, k),
    decreases m - k,
{
    if k < m {
        lemma_take_arrs_err(s, k, (m - 1) as nat);
    }
}

/// Once a list read fails, reading a longer list fails the same way.
proof fn lemma_take_openings_err(s: Seq<u8>, k: nat, m: nat)
    requires
        k <= m,
        take_openings_spec(s, k) is Err,
    ensures
        take_openings_spec(s, m) == take_openings_spec(s, k),
    decreases m - k,
{
    if k < m {
        lemma_take_openings_err(s, k, (m - 1) as nat);
    }
}

fn take_arrs(bytes: &[u8], pos: &mut usize, n: u32) -> (r: Result<Vec<[u8; 32]>, DecodeError>)
    requires
        *old(pos) <= bytes@.len(),
    ensures
        *final(pos) <= bytes@.len(),
        take_arrs_spec(bytes@.skip(*old(pos) as int), n as nat) == (match r {
            Ok(v) => Ok((views32(v@), bytes@.skip(*final(pos) as int))),
            Err(e) => Err(e),
        }),
{
    let ghost s0 = bytes@.skip(*pos as int);
    let mut out: Vec<[u8; 32]> = Vec::new();
    let mut k: u32 = 0;
    proof {
        assert(views32(out@) =~= Seq::<Seq<u8>>::empty());
    }
    while k < n
        invariant
            k <= n,
            *pos <= bytes@.len(),
            s0 == bytes@.skip(*old(pos) as int),
            take_arrs_spec(s0, k as nat) == Ok::<(Seq<Seq<u8>>, Seq<u8>), DecodeError>((views32(out@), bytes@.skip(*pos as int))),
        decreases n - k,
    {
        let a = take_arr32(bytes, pos);
        match a {
            Err(e) => {
                proof {
                    lemma_take_arrs_err(s0, (k + 1) as nat, n as nat);
                }
                return Err(e);
            },
            Ok(a) => {
                proof {
                    assert(views32(out@.push(a)) =~= views32(out@).push(a@));
                }
                out.push(a);
            },
        }
        k = k + 1;
    }
    Ok(out)
}

fn decode_opening(bytes: &[u8], pos: &mut usize) -> (r: Result<TileOpening, DecodeError>)
    requires
        *old(pos) <= bytes@.len(),
    ensures
        *final(pos) <= bytes@.len(),
        decode_opening_spec(bytes@.skip(*old(pos) as int)) == (match r {
            Ok(o) => Ok((o@, bytes@.skip(*final(pos) as int))),
            Err(e) => Err(e),
        }),
{
    let i = match take_u32(bytes, pos) {
        Ok(v) => v,
        Err(e) => { return Err(e); },
    };
    let j = match take_u32(bytes, pos) {
        Ok(v) => v,
        Err(e) => { return Err(e); },
    };
    let m_ij = match take_arr32(bytes, pos) {
        Ok(v) => v,
        Err(e) => { return Err(e); },
    };
    let pl = match take_u32(bytes, pos) {
        Ok(v) => v,
        Err(e) => { return Err(e); },
    };
    if pl > MAX_PATH_LEN {
        return Err(DecodeError::PathTooLarge);
    }
    let path = match take_arrs(bytes, pos, pl) {
        Ok(v) => v,
        Err(e) => { return Err(e); },
    };
    Ok(TileOpening { i, j, m_ij, path })
}

fn take_openings(bytes: &[u8], pos: &mut usize, n: u32) -> (r: Result<Vec<TileOpening>, DecodeError>)
    requires
        *old(pos) <= bytes@.len(),
    ensures
        *final(pos) <= bytes@.len(),
        take_openings_spec(bytes@.skip(*old(pos) as int), n as nat) == (match r {
            Ok(v) => Ok((openings_view(v@), bytes@.skip(*final(pos) as int))),
            Err(e) => Err(e),
        }),
{
    let ghost s0 = bytes@.skip(*pos as int);
    let mut out: Vec<TileOpening> = Vec::new();
    let mut k: u32 = 0;
    proof {
        assert(openings_view(out@) =~= Seq::<OpeningView>::empty());
    }
    while k < n
        invariant
            k <= n,
            *pos <= bytes@.len(),
            s0 == bytes@.skip(*old(pos) as int),
            take_openings_spec(s0, k as nat) == Ok::<(Seq<OpeningView>, Seq<u8>), DecodeError>((openings_view(out@), bytes@.skip(*pos as int))),
        decreases n - k,
    {
        let o = decode_opening(bytes, pos);
        match o {
            Err(e) => {
                proof {
                    lemma_take_openings_err(s0, (k + 1) as nat, n as nat);
                }
                return Err(e);
            },
            Ok(o) => {
                proof {
                    assert(openings_view(out@.push(o)) =~= openings_view(out@).push(o@));
                }
                out.push(o);
            },
        }
        k = k + 1;
    }
    Ok(out)
}

fn decode_tail(bytes: &[u8], pos: usize, model_id: [u8; 32], layer_index: u32, comm_activations: Vec<[u8; 32]>) -> (r: Result<ViProof, DecodeError>)
    requires
        pos <= bytes@.len(),
    ensures
        decoded_view(r) == decode_tail_spec(model_id@, layer_index, views32(comm_activations@), bytes@.skip(pos as int)),
{
    let mut pos = pos;
    let comm_m = match take_arr32(bytes, &mut pos) {
        Ok(v) => v,
        Err(e) => { return Err(e); },
    };
    let found = match decode_opening(bytes, &mut pos) {
        Ok(v) => v,
        Err(e) => { return Err(e); },
    };
    let n = match take_u32(bytes, &mut pos) {
        Ok(v) => v,
        Err(e) => { return Err(e); },
    };
    if n > MAX_SPOT {
        return Err(DecodeError::SpotTooLarge);
    }
    let spot_checks = match take_openings(bytes, &mut pos, n) {
        Ok(v) => v,
        Err(e) => { return Err(e); },
    };
    if pos != bytes.len() {
        return Err(DecodeError::Trailing);
    }
    let r = ViProof { model_id, layer_index, comm_activations, comm_m, found, spot_checks };
    proof {
        assert(r@.spot_checks =~= openings_view(spot_checks@));
    }
    Ok(r)
}

impl ViProof {
    /// Parse a proof; see `decode_spec` for what is returned on each input.
    pub fn decode(bytes: &[u8]) -> (r: Result<ViProof, DecodeError>)
        ensures
            decoded_view(r) == decode_spec(bytes@),
    {
        let mut pos: usize = 0;
        proof {
            assert(bytes@.skip(0) =~= bytes@);
        }
        let model_id = match take_arr32(bytes, &mut pos) {
            Ok(v) => v,
            Err(e) => { return Err(e); },
        };
        let layer_index = match take_u32(bytes, &mut pos) {
            Ok(v) => v,
            Err(e) => { return Err(e); },
        };
        let n_act = match take_u32(bytes, &mut pos) {
            Ok(v) => v,
            Err(e) => { return Err(e); },
        };
        if n_act > MAX_ACTIVATION_ROOTS {
            return Err(DecodeError::ActivationCountTooLarge);
        }
        let comm_activations = match take_arrs(bytes, &mut pos, n_act) {
            Ok(v) => v,
            Err(e) => { return Err(e); },
        };
        decode_tail(bytes, pos, model_id, layer_index, comm_activations)
    }
}

fn push_arr32(out: &mut Vec<u8>, a: &[u8; 32])
    ensures
        final(out)@ == old(out)@ + a@,
{
    let ghost start = out@;
    let mut k: usize = 0;
    while k < 32
        invariant
            k <= 32,
            out@ == start + a@.take(k as int),
        decreases 32 - k,
    {
        proof {
            assert(a@.take(k + 1) =~= a@.take(k as int).push(a@[k as int]));
        }
        out.push(a[k]);
        k = k + 1;
    }
    proof {
        assert(a@.take(32) =~= a@);
    }
}

fn push_arrs(out: &mut Vec<u8>, v: &Vec<[u8; 32]>)
    ensures
        final(out)@ == old(out)@ + flat(views32(v@)),
{
    let ghost start = out@;
    let mut k: usize = 0;
    proof {
        assert(views32(v@).take(0) =~= Seq::<Seq<u8>>::empty());
    }
    while k < v.len()
        invariant
            k <= v.len(),
            out@ == start + flat(views32(v@).take(k as int)),
        decreases v.len() - k,
    {
        proof {
            assert(views32(v@).take(k + 1).drop_last() =~= views32(v@).take(k as int));
        }
        push_arr32(out, &v[k]);
        k = k + 1;
    }
    proof {
        assert(views32(v@).take(v.len() as int) =~= views32(v@));
    }
}

fn encode_opening(o: &TileOpening, out: &mut Vec<u8>)
    ensures
        final(out)@ == old(out)@ + opening_bytes(o@),
{
    push_u32(out, o.i);
    push_u32(out, o.j);
    push_arr32(out, &o.m_ij);
    push_u32(out, o.path.len() as u32);
    push_arrs(out, &o.path);
}

impl ViProof {
    /// Serialize: see `encode_spec`.
    pub fn encode(&self) -> (out: Vec<u8>)
        ensures
            out@ == encode_spec(self@),
    {
        let mut out: Vec<u8> = Vec::new();
        push_arr32(&mut out, &self.model_id);
        push_u32(&mut out, self.layer_index);
        push_u32(&mut out, self.comm_activations.len() as u32);
        push_arrs(&mut out, &self.comm_activations);
        push_arr32(&mut out, &self.comm_m);
        encode_opening(&self.found, &mut out);
        push_u32(&mut out, self.spot_checks.len() as u32);
        let ghost start = out@;
        let mut k: usize = 0;
        proof {
            assert(openings_view(self.spot_checks@).take(0) =~= Seq::<OpeningView>::empty());
        }
        while k < self.spot_checks.len()
            invariant
                k <= self.spot_checks.len(),
                out@ == start + openings_bytes(openings_view(self.spot_checks@).take(k as int)),
            decreases self.spot_checks.len() - k,
        {
            proof {
                assert(openings_view(self.spot_checks@).take(k + 1).drop_last() =~= openings_view(self.spot_checks@).take(k as int));
            }
            encode_opening(&self.spot_checks[k], &mut out);
            k = k + 1;
        }
        proof {
            assert(openings_view(self.spot_checks@).take(self.spot_checks.len() as int) =~= openings_view(self.spot_checks@));
        }
        out
    }
}

// ----- decode after encode -----

proof fn lemma_take_u32_of(v: u32, rest: Seq<u8>)
    ensures
        take_u32_spec(le_bytes(v as nat, 4) + rest) == Ok::<(u32, Seq<u8>), DecodeError>((v, rest)),
{
    lemma_pow256_values();
    lemma_le_roundtrip(v as nat, 4);
    assert((le_bytes(v as nat, 4) + rest).take(4) =~= le_bytes(v as nat, 4));
    assert((le_bytes(v as nat, 4) + rest).skip(4) =~= rest);
}

proof fn lemma_take_arr32_of(a: Seq<u8>, rest: Seq<u8>)
    requires
        a.len() == 32,
    ensures
        take_arr32_spec(a + rest) == Ok::<(Seq<u8>, Seq<u8>), DecodeError>((a, rest)),
{
    assert((a + rest).take(32) =~= a);
    assert((a + rest).skip(32) =~= rest);
}

proof fn lemma_take_arrs_of(v: Seq<Seq<u8>>, rest: Seq<u8>)
    requires
        forall|k: int| 0 <= k < v.len() ==> (#[trigger] v[k]).len() == 32,
    ensures
        take_arrs_spec(flat(v) + rest, v.len()) == Ok::<(Seq<Seq<u8>>, Seq<u8>), DecodeError>((v, rest)),
    decreases v.len(),
{
    if v.len() == 0 {
        assert(flat(v) + rest =~= rest);
        assert(v =~= Seq::<Seq<u8>>::empty());
    } else {
        let w = v.drop_last();
        let last = v.last();
        assert(flat(v) + rest =~= flat(w) + (last + rest));
        lemma_take_arrs_of(w, last + rest);
        lemma_take_arr32_of(last, rest);
        assert(w.push(last) =~= v);
    }
}

proof fn lemma_decode_opening_of(o: OpeningView, rest: Seq<u8>)
    requires
        o.m_ij.len() == 32,
        o.path.len() <= MAX_PATH_LEN,
        forall|k: int| 0 <= k < o.path.len() ==> (#[trigger] o.path[k]).len() == 32,
    ensures
        decode_opening_spec(opening_bytes(o) + rest) == Ok::<(OpeningView, Seq<u8>), DecodeError>((o, rest)),
{
    let pl = o.path.len() as u32;
    let r4 = flat(o.path) + rest;
    let r3 = le_bytes(pl as nat, 4) + r4;
    let r2 = o.m_ij + r3;
    let r1 = le_bytes(o.j as nat, 4) + r2;
    assert(opening_bytes(o) + rest =~= le_bytes(o.i as nat, 4) + r1);
    lemma_take_u32_of(o.i, r1);
    lemma_take_u32_of(o.j, r2);
    lemma_take_arr32_of(o.m_ij, r3);
    lemma_take_u32_of(pl, r4);
    lemma_take_arrs_of(o.path, rest);
}

proof fn lemma_take_openings_of(v: Seq<OpeningView>, rest: Seq<u8>)
    requires
        forall|k: int| 0 <= k < v.len() ==> {
            &&& (#[trigger] v[k]).m_ij.len() == 32
            &&& v[k].path.len() <= MAX_PATH_LEN
            &&& forall|t: int| 0 <= t < v[k].path.len() ==> (#[trigger] v[k].path[t]).len() == 32
        },
    ensures
        take_openings_spec(openings_bytes(v) + rest, v.len()) == Ok::<(Seq<OpeningView>, Seq<u8>), DecodeError>((v, rest)),
    decreases v.len(),
{
    if v.len() == 0 {
        assert(openings_bytes(v) + rest =~= rest);
        assert(v =~= Seq::<OpeningView>::empty());
    } else {
        let w = v.drop_last();
        let last = v.last();
        assert(openings_bytes(v) + rest =~= openings_bytes(w) + (opening_bytes(last) + rest));
        assert forall|k: int| 0 <= k < w.len() implies {
            &&& (#[trigger] w[k]).m_ij.len() == 32
            &&& w[k].path.len() <= MAX_PATH_LEN
            &&& forall|t: int| 0 <= t < w[k].path.len() ==> (#[trigger] w[k].path[t]).len() == 32
        } by {
            assert(w[k] == v[k]);
        }
        lemma_take_openings_of(w, opening_bytes(last) + rest);
        assert(last == v[v.len() - 1]);
        lemma_decode_opening_of(last, rest);
        assert(w.push(last) =~= v);
    }
}

/// Decoding the encoding of a proof gives the same proof back, whenever
/// its counts are within the decoder's bounds (at most `MAX_ACTIVATION_ROOTS`
/// activation roots, `MAX_SPOT` spot-checks, `MAX_PATH_LEN` path entries
/// per opening).
pub proof fn lemma_decode_encode(p: ViProof)
    requires
        p.comm_activations.len() <= MAX_ACTIVATION_ROOTS,
        p.spot_checks.len() <= MAX_SPOT,
        p.found.path.len() <= MAX_PATH_LEN,
        forall|k: int| 0 <= k < p.spot_checks.len() ==> (#[trigger] p.spot_checks[k]).path.len() <= MAX_PATH_LEN,
    ensures
        decode_spec(encode_spec(p@)) == Ok::<ProofView, DecodeError>(p@),
{
    let v = p@;
    let na = v.comm_activations.len() as u32;
    let ns = v.spot_checks.len() as u32;
    let r7 = openings_bytes(v.spot_checks);
    let r6 = le_bytes(ns as nat, 4) + r7;
    let r5 = opening_bytes(v.found) + r6;
    let r4 = v.comm_m + r5;
    let r3 = flat(v.comm_activations) + r4;
    let r2 = le_bytes(na as nat, 4) + r3;
    let r1 = le_bytes(v.layer_index as nat, 4) + r2;
    assert(encode_spec(v) =~= v.model_id + r1);
    lemma_take_arr32_of(v.model_id, r1);
    lemma_take_u32_of(v.layer_index, r2);
    lemma_take_u32_of(na, r3);
    lemma_take_arrs_of(v.comm_activations, r4);
    lemma_take_arr32_of(v.comm_m, r5);
    lemma_decode_opening_of(v.found, r6);
    lemma_take_u32_of(ns, r7);
    assert forall|k: int| 0 <= k < v.spot_checks.len() implies {
        &&& (#[trigger] v.spot_checks[k]).m_ij.len() == 32
        &&& v.spot_checks[k].path.len() <= MAX_PATH_LEN
        &&& forall|t: int| 0 <= t < v.spot_checks[k].path.len() ==> (#[trigger] v.spot_checks[k].path[t]).len() == 32
    } by {
        assert(v.spot_checks[k] == p.spot_checks@[k]@);
    }
    lemma_take_openings_of(v.spot_checks, Seq::<u8>::empty());
    assert(r7 + Seq::<u8>::empty() =~= r7);
}

// ----- what the decoder rejects -----

/// Bytes after a whole encoding are rejected: decoding an encoding followed
/// by any non-empty bytes fails with `Trailing` (counts within the bounds).
pub proof fn lemma_decode_rejects_trailing(p: ViProof, extra: Seq<u8>)
    requires
        p.comm_activations.len() <= MAX_ACTIVATION_ROOTS,
        p.spot_checks.len() <= MAX_SPOT,
        p.found.path.len() <= MAX_PATH_LEN,
        forall|k: int| 0 <= k < p.spot_checks.len() ==> (#[trigger] p.spot_checks[k]).path.len() <= MAX_PATH_LEN,
        extra.len() > 0,
    ensures
        decode_spec(encode_spec(p@) + extra) == Err::<ProofView, DecodeError>(DecodeError::Trailing),
{
    let v = p@;
    let na = v.comm_activations.len() as u32;
    let ns = v.spot_checks.len() as u32;
    let r7 = openings_bytes(v.spot_checks) + extra;
    let r6 = le_bytes(ns as nat, 4) + r7;
    let r5 = opening_bytes(v.found) + r6;
    let r4 = v.comm_m + r5;
    let r3 = flat(v.comm_activations) + r4;
    let r2 = le_bytes(na as nat, 4) + r3;
    let r1 = le_bytes(v.layer_index as nat, 4) + r2;
    assert(encode_spec(v) + extra =~= v.model_id + r1);
    lemma_take_arr32_of(v.model_id, r1);
    lemma_take_u32_of(v.layer_index, r2);
    lemma_take_u32_of(na, r3);
    lemma_take_arrs_of(v.comm_activations, r4);
    lemma_take_arr32_of(v.comm_m, r5);
    lemma_decode_opening_of(v.found, r6);
    lemma_take_u32_of(ns, r7);
    assert forall|k: int| 0 <= k < v.spot_checks.len() implies {
        &&& (#[trigger] v.spot_checks[k]).m_ij.len() == 32
        &&& v.spot_checks[k].path.len() <= MAX_PATH_LEN
        &&& forall|t: int| 0 <= t < v.spot_checks[k].path.len() ==> (#[trigger] v.spot_checks[k].path[t]).len() == 32
    } by {
        assert(v.spot_checks[k] == p.spot_checks@[k]@);
    }
    lemma_take_openings_of(v.spot_checks, extra);
}

/// An activation count above `MAX_ACTIVATION_ROOTS` is rejected before any
/// root is read: a byte string whose count field (bytes 36 to 40) exceeds
/// the bound decodes to `ActivationCountTooLarge`.
pub proof fn lemma_decode_rejects_activation_count(s: Seq<u8>)
    requires
        s.len() >= 40,
        le_val(s.subrange(36, 40)) > MAX_ACTIVATION_ROOTS,
    ensures
        decode_spec(s) == Err::<ProofView, DecodeError>(DecodeError::ActivationCountTooLarge),
{
    let s2 = s.skip(32).skip(4);
    assert(s2.take(4) =~= s.subrange(36, 40));
    crate::bytes::lemma_le_val_bound(s.subrange(36, 40));
    lemma_pow256_values();
}

/// An opening whose path is longer than `MAX_PATH_LEN` is rejected: it
/// decodes to `PathTooLarge` whatever follows it.
proof fn lemma_decode_opening_rejects_long_path(o: OpeningView, rest: Seq<u8>)
    requires
        o.m_ij.len() == 32,
        MAX_PATH_LEN < o.path.len() <= u32::MAX,
    ensures
        decode_opening_spec(opening_bytes(o) + rest) == Err::<(OpeningView, Seq<u8>), DecodeError>(DecodeError::PathTooLarge),
{
    let pl = o.path.len() as u32;
    let r4 = flat(o.path) + rest;
    let r3 = le_bytes(pl as nat, 4) + r4;
    let r2 = o.m_ij + r3;
    let r1 = le_bytes(o.j as nat, 4) + r2;
    assert(opening_bytes(o) + rest =~= le_bytes(o.i as nat, 4) + r1);
    lemma_take_u32_of(o.i, r1);
    lemma_take_u32_of(o.j, r2);
    lemma_take_arr32_of(o.m_ij, r3);
    lemma_take_u32_of(pl, r4);
}

/// A proof whose found tile carries a path longer than `MAX_PATH_LEN` is
/// rejected: its encoding decodes to `PathTooLarge`.
pub proof fn lemma_decode_rejects_long_path(p: ViProof)
    requires
        p.comm_activations.len() <= MAX_ACTIVATION_ROOTS,
        MAX_PATH_LEN < p.found.path.len() <= u32::MAX,
    ensures
        decode_spec(encode_spec(p@)) == Err::<ProofView, DecodeError>(DecodeError::PathTooLarge),
{
    let v = p@;
    let na = v.comm_activations.len() as u32;
    let ns = v.spot_checks.len() as u32;
    let r6 = le_bytes(ns as nat, 4) + openings_bytes(v.spot_checks);
    let r5 = opening_bytes(v.found) + r6;
    let r4 = v.comm_m + r5;
    let r3 = flat(v.comm_activations) + r4;
    let r2 = le_bytes(na as nat, 4) + r3;
    let r1 = le_bytes(v.layer_index as nat, 4) + r2;
    assert(encode_spec(v) =~= v.model_id + r1);
    lemma_take_arr32_of(v.model_id, r1);
    lemma_take_u32_of(v.layer_index, r2);
    lemma_take_u32_of(na, r3);
    lemma_take_arrs_of(v.comm_activations, r4);
    lemma_take_arr32_of(v.comm_m, r5);
    lemma_decode_opening_rejects_long_path(v.found, r6);
}

/// A spot-check count above `MAX_SPOT` is rejected before any spot-check is
/// read: such a proof's encoding decodes to `SpotTooLarge`.
pub proof fn lemma_decode_rejects_spot_count(p: ViProof)
    requires
        p.comm_activations.len() <= MAX_ACTIVATION_ROOTS,
        p.found.path.len() <= MAX_PATH_LEN,
        MAX_SPOT < p.spot_checks.len() <= u32::MAX,
    ensures
        decode_spec(encode_spec(p@)) == Err::<ProofView, DecodeError>(DecodeError::SpotTooLarge),
{
    let v = p@;
    let na = v.comm_activations.len() as u32;
    let ns = v.spot_checks.len() as u32;
    let r7 = openings_bytes(v.spot_checks);
    let r6 = le_bytes(ns as nat, 4) + r7;
    let r5 = opening_bytes(v.found) + r6;
    let r4 = v.comm_m + r5;
    let r3 = flat(v.comm_activations) + r4;
    let r2 = le_bytes(na as nat, 4) + r3;
    let r1 = le_bytes(v.layer_index as nat, 4) + r2;
    assert(encode_spec(v) =~= v.model_id + r1);
    lemma_take_arr32_of(v.model_id, r1);
    lemma_take_u32_of(v.layer_index, r2);
    lemma_take_u32_of(na, r3);
    lemma_take_arrs_of(v.comm_activations, r4);
    lemma_take_arr32_of(v.comm_m, r5);
    lemma_decode_opening_of(v.found, r6);
    lemma_take_u32_of(ns, r7);
}

// ----- strict prefixes are rejected -----

/// `t` is a prefix of `s`.
pub open spec fn is_prefix(t: Seq<u8>, s: Seq<u8>) -> bool {
    t.len() <= s.len() && t == s.take(t.len() as int)
}

proof fn lemma_prefix_skip(t: Seq<u8>, s: Seq<u8>, c: int)
    requires
        is_prefix(t, s),
        0 <= c <= t.len(),
    ensures
        is_prefix(t.skip(c), s.skip(c)),
{
    assert(t.skip(c) =~= s.skip(c).take(t.skip(c).len() as int));
}

proof fn lemma_pfx_u32(s: Seq<u8>, t: Seq<u8>)
    requires
        is_prefix(t, s),
        take_u32_spec(s) is Ok,
    ensures
        take_u32_spec(s)->Ok_0.1 == s.skip(4),
        t.len() < 4 ==> take_u32_spec(t) is Err,
        t.len() >= 4 ==> take_u32_spec(t) == Ok::<(u32, Seq<u8>), DecodeError>((take_u32_spec(s)->Ok_0.0, t.skip(4))),
{
    if t.len() >= 4 {
        assert(t.take(4) =~= s.take(4));
    }
}

proof fn lemma_pfx_arr32(s: Seq<u8>, t: Seq<u8>)
    requires
        is_prefix(t, s),
        take_arr32_spec(s) is Ok,
    ensures
        take_arr32_spec(s)->Ok_0.1 == s.skip(32),
        t.len() < 32 ==> take_arr32_spec(t) is Err,
        t.len() >= 32 ==> take_arr32_spec(t) == Ok::<(Seq<u8>, Seq<u8>), DecodeError>((take_arr32_spec(s)->Ok_0.0, t.skip(32))),
{
    if t.len() >= 32 {
        assert(t.take(32) =~= s.take(32));
    }
}

proof fn lemma_pfx_arrs(s: Seq<u8>, t: Seq<u8>, n: nat)
    requires
        is_prefix(t, s),
        take_arrs_spec(s, n) is Ok,
    ensures
        ({
            let (v, r) = take_arrs_spec(s, n)->Ok_0;
            let c = s.len() - r.len();
            &&& 0 <= c
            &&& r == s.skip(c)
            &&& t.len() < c ==> take_arrs_spec(t, n) is Err
            &&& t.len() >= c ==> take_arrs_spec(t, n) == Ok::<(Seq<Seq<u8>>, Seq<u8>), DecodeError>((v, t.skip(c)))
        }),
    decreases n,
{
    if n == 0 {
        assert(s.skip(0) =~= s);
        assert(t.skip(0) =~= t);
    } else {
        lemma_pfx_arrs(s, t, (n - 1) as nat);
        let (v1, r1) = take_arrs_spec(s, (n - 1) as nat)->Ok_0;
        let c1 = s.len() - r1.len();
        assert(r1.take(0) =~= r1.take(r1.take(0).len() as int));
        lemma_pfx_arr32(r1, r1.take(0));
        assert(r1.skip(32) =~= s.skip(c1 + 32));
        if t.len() >= c1 {
            lemma_prefix_skip(t, s, c1);
            lemma_pfx_arr32(r1, t.skip(c1));
            assert(r1.skip(32) =~= s.skip(c1 + 32));
            if t.len() >= c1 + 32 {
                assert(t.skip(c1).skip(32) =~= t.skip(c1 + 32));
            }
        }
    }
}

proof fn lemma_pfx_opening(s: Seq<u8>, t: Seq<u8>)
    requires
        is_prefix(t, s),
        decode_opening_spec(s) is Ok,
    ensures
        ({
            let (o, r) = decode_opening_spec(s)->Ok_0;
            let c = s.len() - r.len();
            &&& 0 <= c
            &&& r == s.skip(c)
            &&& t.len() < c ==> decode_opening_spec(t) is Err
            &&& t.len() >= c ==> decode_opening_spec(t) == Ok::<(OpeningView, Seq<u8>), DecodeError>((o, t.skip(c)))
        }),
{
    lemma_pfx_u32(s, t);
    let s1 = s.skip(4);
    if t.len() >= 4 { lemma_prefix_skip(t, s, 4); }
    let t1 = if t.len() >= 4 { t.skip(4) } else { s1.take(0) };
    lemma_pfx_u32(s1, t1);
    let s2 = s1.skip(4);
    assert(s2 =~= s.skip(8));
    if t.len() >= 8 { lemma_prefix_skip(t, s, 8); assert(t1.skip(4) =~= t.skip(8)); }
    let t2 = if t.len() >= 8 { t.skip(8) } else { s2.take(0) };
    lemma_pfx_arr32(s2, t2);
    let s3 = s2.skip(32);
    assert(s3 =~= s.skip(40));
    if t.len() >= 40 { lemma_prefix_skip(t, s, 40); assert(t2.skip(32) =~= t.skip(40)); }
    let t3 = if t.len() >= 40 { t.skip(40) } else { s3.take(0) };
    lemma_pfx_u32(s3, t3);
    let s4 = s3.skip(4);
    assert(s4 =~= s.skip(44));
    if t.len() >= 44 { lemma_prefix_skip(t, s, 44); assert(t3.skip(4) =~= t.skip(44)); }
    let t4 = if t.len() >= 44 { t.skip(44) } else { s4.take(0) };
    let pl = take_u32_spec(s3)->Ok_0.0;
    lemma_pfx_arrs(s4, t4, pl as nat);
    let (path, r5) = take_arrs_spec(s4, pl as nat)->Ok_0;
    let c5 = s4.len() - r5.len();
    assert(r5 =~= s.skip(44 + c5));
    if t.len() >= 44 + c5 {
        assert(t4.skip(c5) =~= t.skip(44 + c5));
    }
}

proof fn lemma_pfx_openings(s: Seq<u8>, t: Seq<u8>, n: nat)
    requires
        is_prefix(t, s),
        take_openings_spec(s, n) is Ok,
    ensures
        ({
            let (v, r) = take_openings_spec(s, n)->Ok_0;
            let c = s.len() - r.len();
            &&& 0 <= c
            &&& r == s.skip(c)
            &&& t.len() < c ==> take_openings_spec(t, n) is Err
            &&& t.len() >= c ==> take_openings_spec(t, n) == Ok::<(Seq<OpeningView>, Seq<u8>), DecodeError>((v, t.skip(c)))
        }),
    decreases n,
{
    if n == 0 {
        assert(s.skip(0) =~= s);
        assert(t.skip(0) =~= t);
    } else {
        lemma_pfx_openings(s, t, (n - 1) as nat);
        let (v1, r1) = take_openings_spec(s, (n - 1) as nat)->Ok_0;
        let c1 = s.len() - r1.len();
        if t.len() >= c1 {
            lemma_prefix_skip(t, s, c1);
            lemma_pfx_opening(r1, t.skip(c1));
            let (o, r2) = decode_opening_spec(r1)->Ok_0;
            let c2 = r1.len() - r2.len();
            assert(r2 =~= s.skip(c1 + c2));
            if t.len() >= c1 + c2 {
                assert(t.skip(c1).skip(c2) =~= t.skip(c1 + c2));
            }
        } else {
            lemma_pfx_opening(r1, r1.take(0));
            assert(r1.take(0) =~= r1.take(0).take(0));
        }
    }
}

/// Decoding a strict prefix of a byte string that decodes fails.
#[verifier::spinoff_prover]
#[verifier::rlimit(60)]
pub proof fn lemma_decode_rejects_strict_prefix(s: Seq<u8>, cut: int)
    requires
        decode_spec(s) is Ok,
        0 <= cut < s.len(),
    ensures
        decode_spec(s.take(cut)) is Err,
{
    let t = s.take(cut);
    assert(is_prefix(t, s));
    lemma_pfx_arr32(s, t);
    if cut < 32 {
        return;
    }
    let s1 = s.skip(32);
    lemma_prefix_skip(t, s, 32);
    lemma_pfx_u32(s1, t.skip(32));
    assert(s1.skip(4) =~= s.skip(36));
    if cut < 36 {
        return;
    }
    assert(t.skip(32).skip(4) =~= t.skip(36));
    let s2 = s.skip(36);
    lemma_prefix_skip(t, s, 36);
    lemma_pfx_u32(s2, t.skip(36));
    assert(s2.skip(4) =~= s.skip(40));
    if cut < 40 {
        return;
    }
    assert(t.skip(36).skip(4) =~= t.skip(40));
    let s3 = s.skip(40);
    let n_act = take_u32_spec(s2)->Ok_0.0;
    lemma_prefix_skip(t, s, 40);
    lemma_pfx_arrs(s3, t.skip(40), n_act as nat);
    let (acts, s4) = take_arrs_spec(s3, n_act as nat)->Ok_0;
    let c4 = s3.len() - s4.len();
    assert(s4 =~= s.skip(40 + c4));
    if cut < 40 + c4 {
        return;
    }
    assert(t.skip(40).skip(c4) =~= t.skip(40 + c4));
    let p4 = 40 + c4;
    lemma_prefix_skip(t, s, p4);
    lemma_pfx_arr32(s4, t.skip(p4));
    assert(s4.skip(32) =~= s.skip(p4 + 32));
    if cut < p4 + 32 {
        return;
    }
    assert(t.skip(p4).skip(32) =~= t.skip(p4 + 32));
    let p5 = p4 + 32;
    let s5 = s.skip(p5);
    lemma_prefix_skip(t, s, p5);
    lemma_pfx_opening(s5, t.skip(p5));
    let (found, s6) = decode_opening_spec(s5)->Ok_0;
    let c6 = s5.len() - s6.len();
    assert(s6 =~= s.skip(p5 + c6));
    if cut < p5 + c6 {
        return;
    }
    assert(t.skip(p5).skip(c6) =~= t.skip(p5 + c6));
    let p6 = p5 + c6;
    lemma_prefix_skip(t, s, p6);
    lemma_pfx_u32(s6, t.skip(p6));
    assert(s6.skip(4) =~= s.skip(p6 + 4));
    if cut < p6 + 4 {
        return;
    }
    assert(t.skip(p6).skip(4) =~= t.skip(p6 + 4));
    let p7 = p6 + 4;
    let s7 = s.skip(p7);
    let n = take_u32_spec(s6)->Ok_0.0;
    lemma_prefix_skip(t, s, p7);
    lemma_pfx_openings(s7, t.skip(p7), n as nat);
    let (spots, s8) = take_openings_spec(s7, n as nat)->Ok_0;
    let c8 = s7.len() - s8.len();
    assert(s8 =~= s.skip(p7 + c8));
}

/// Every strict prefix of an encoded proof is rejected, whenever the
/// proof's counts are within the decoder's bounds.
pub proof fn lemma_truncated_encoding_rejected(p: ViProof, cut: int)
    requires
        p.comm_activations.len() <= MAX_ACTIVATION_ROOTS,
        p.spot_checks.len() <= MAX_SPOT,
        p.found.path.len() <= MAX_PATH_LEN,
        forall|k: int| 0 <= k < p.spot_checks.len() ==> (#[trigger] p.spot_checks[k]).path.len() <= MAX_PATH_LEN,
        0 <= cut < encode_spec(p@).len(),
    ensures
        decode_spec(encode_spec(p@).take(cut)) is Err,
{
    lemma_decode_encode(p);
    lemma_decode_rejects_strict_prefix(encode_spec(p@), cut);
}

} // verus!
