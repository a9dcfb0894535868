//! 256-entry INT8 -> INT8 activation lookup tables. The table *is* the
//! activation: a model release pins the curve by committing its bytes.
use vstd::prelude::*;
use crate::hashing::{derive_key, blake3_derive_key};

verus! {

/// Canonical curve a LUT was built from.
#[derive(Debug, Clone, Copy, PartialEq, Eq)]
pub enum ActivationKind {
    SiLU,
    GeLU,
    Swish,
    Identity,
}

/// `table[i + 128]` is the output for input byte `i` in `[-128, 127]`.
#[derive(Debug, Clone, PartialEq, Eq)]
pub struct ActivationLut {
    pub kind: ActivationKind,
    pub table: [i8; 256],
}

#[derive(Debug, Clone, Copy, PartialEq, Eq)]
pub enum LutError {
    WrongLength(usize),
}

/// Tag byte of an activation kind.
pub open spec fn kind_tag_spec(k: ActivationKind) -> u8 {
    match k {
        ActivationKind::SiLU => 0x01,
        ActivationKind::GeLU => 0x02,
        ActivationKind::Swish => 0x03,
        ActivationKind::Identity => 0xff,
    }
}

/// The output of a LUT for input `x`.
pub open spec fn lut_at(table: Seq<i8>, x: i8) -> i8 {
    table[x as int + 128]
}

/// Apply a LUT to every element.
pub open spec fn lut_map(table: Seq<i8>, xs: Seq<i8>) -> Seq<i8> {
    Seq::new(xs.len(), |i: int| lut_at(table, xs[i]))
}

/// LUT bytes: each `i8` reinterpreted as `u8`.
pub open spec fn lut_bytes(table: Seq<i8>) -> Seq<u8> {
    Seq::new(table.len(), |i: int| table[i] as u8)
}

/// Reading back a table's bytes gives the table.
pub proof fn lemma_lut_bytes_round_trip(table: Seq<i8>)
    ensures
        Seq::new(table.len(), |i: int| lut_bytes(table)[i] as i8) == table,
{
    assert forall|i: int| 0 <= i < table.len() implies #[trigger] (lut_bytes(table)[i] as i8) == table[i] by {
        let x = table[i];
        assert(((x as u8) as i8) == x) by (bit_vector);
    }
    assert(Seq::new(table.len(), |i: int| lut_bytes(table)[i] as i8) =~= table);
}

pub fn kind_tag(k: ActivationKind) -> (r: u8)
    ensures
        r == kind_tag_spec(k),
{
    match k {
        ActivationKind::SiLU => 0x01,
        ActivationKind::GeLU => 0x02,
        ActivationKind::Swish => 0x03,
        ActivationKind::Identity => 0xff,
    }
}

impl ActivationLut {
    /// Build a LUT from exactly 256 bytes; byte `i` is the output for
    /// input `i - 128`.
    pub fn from_bytes(kind: ActivationKind, bytes: &[u8]) -> (r: Result<ActivationLut, LutError>)
        ensures
            bytes@.len() != 256 ==> r == Err::<ActivationLut, LutError>(LutError::WrongLength(bytes@.len() as usize)),
            bytes@.len() == 256 ==> r is Ok && r->Ok_0.kind == kind
                && r->Ok_0.table@ == Seq::new(256, |i: int| bytes@[i] as i8),
    {
        if bytes.len() != 256 {
            return Err(LutError::WrongLength(bytes.len()));
        }
        let mut table = [0i8; 256];
        let mut i: usize = 0;
        while i < 256
            invariant
                i <= 256,
                bytes@.len() == 256,
                table@.len() == 256,
                forall|t: int| 0 <= t < i ==> table@[t] == bytes@[t] as i8,
            decreases 256 - i,
        {
            table[i] = bytes[i] as i8;
            i = i + 1;
        }
        assert(table@ =~= Seq::new(256, |i: int| bytes@[i] as i8));
        Ok(ActivationLut { kind, table })
    }

    /// Serialize to canonical 256 bytes.
    pub fn to_bytes(&self) -> (r: [u8; 256])
        ensures
            r@ == lut_bytes(self.table@),
    {
        let mut out = [0u8; 256];
        let mut i: usize = 0;
        while i < 256
            invariant
                i <= 256,
                out@.len() == 256,
                self.table@.len() == 256,
                forall|t: int| 0 <= t < i ==> out@[t] == self.table@[t] as u8,
            decreases 256 - i,
        {
            out[i] = self.table[i] as u8;
            i = i + 1;
        }
        assert(out@ =~= lut_bytes(self.table@));
        out
    }

    /// Output for one INT8 input.
    pub fn lookup(&self, x: i8) -> (r: i8)
        ensures
            r == lut_at(self.table@, x),
    {
        let idx = (x as i32 + 128) as usize;
        self.table[idx]
    }

    /// Apply the LUT in place to every element of `xs`.
    pub fn apply(&self, xs: &mut [i8])
        ensures
            final(xs)@ == lut_map(self.table@, old(xs)@),
    {
        let ghost orig = xs@;
        let n = xs.len();
        let mut i: usize = 0;
        while i < n
            invariant
                i <= n,
                n == xs@.len(),
                orig.len() == n,
                forall|t: int| 0 <= t < i ==> xs@[t] == lut_at(self.table@, orig[t]),
                forall|t: int| i <= t < n ==> xs@[t] == orig[t],
            decreases n - i,
        {
            let v = self.lookup(xs[i]);
            xs[i] = v;
            i = i + 1;
        }
        assert(xs@ =~= lut_map(self.table@, orig));
    }

    /// Domain-separated commitment to the kind tag and the LUT bytes.
    pub fn commit(&self) -> (r: [u8; 32])
        ensures
            r@ == blake3_derive_key("ai-pow-vi v1 activation-lut"@, seq![kind_tag_spec(self.kind)] + lut_bytes(self.table@)),
    {
        let bytes = self.to_bytes();
        let mut buf: Vec<u8> = Vec::new();
        buf.push(kind_tag(self.kind));
        let mut i: usize = 0;
        while i < 256
            invariant
                i <= 256,
                bytes@.len() == 256,
                buf@ == seq![kind_tag_spec(self.kind)] + bytes@.subrange(0, i as int),
            decreases 256 - i,
        {
            buf.push(bytes[i]);
            proof {
                assert(bytes@.subrange(0, i + 1) =~= bytes@.subrange(0, i as int).push(bytes@[i as int]));
            }
            i = i + 1;
        }
        assert(bytes@.subrange(0, 256) =~= bytes@);
        derive_key("ai-pow-vi v1 activation-lut", buf.as_slice())
    }

    /// Identity LUT: `f(x) = x`.
    pub fn identity() -> (r: ActivationLut)
        ensures
            r.kind == ActivationKind::Identity,
            forall|x: i8| lut_at(r.table@, x) == x,
            r.table@ == Seq::new(256, |i: int| (i - 128) as i8),
    {
        let mut table = [0i8; 256];
        let mut i: usize = 0;
        while i < 256
            invariant
                i <= 256,
                table@.len() == 256,
                forall|t: int| 0 <= t < i ==> table@[t] == (t - 128) as i8,
            decreases 256 - i,
        {
            table[i] = (i as i32 - 128) as i8;
            i = i + 1;
        }
        assert(table@ =~= Seq::new(256, |i: int| (i - 128) as i8));
        ActivationLut { kind: ActivationKind::Identity, table }
    }
}

} // verus!
