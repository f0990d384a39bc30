use vstd::prelude::*;
use crate::VerifierError;
use crate::wire::{be_value, be_of, pow256, take, u32_from_be4, u32_to_be4, push_all};
use crate::wire::{lemma_be_of_len, lemma_be_of_value, lemma_be_value_bound};

verus! {

/// Width of the fixed uncompressed encoding of a point on the base curve.
pub const G1_SIZE: usize = 96;

/// Width of the fixed uncompressed encoding of a point on the extension curve.
pub const G2_SIZE: usize = 192;

/// Width of the big-endian encoding of a scalar-field element.
pub const FR_SIZE: usize = 32;

/// Bytes of a verification key before its `ic` points: one G1 point, three
/// G2 points and the 4-byte big-endian count of `ic` points.
pub const VK_HEADER_SIZE: usize = 676;

/// Exact length of an encoded proof: G1, G2, G1.
pub const PROOF_SIZE: usize = 384;

/// The mathematical model of a verification key: each point as the byte
/// string of its wire encoding.
pub ghost struct VkView {
    pub alpha: Seq<u8>,
    pub beta: Seq<u8>,
    pub gamma: Seq<u8>,
    pub delta: Seq<u8>,
    pub ic: Seq<Seq<u8>>,
}

impl VkView {
    pub open spec fn wf(self) -> bool {
        &&& self.alpha.len() == G1_SIZE
        &&& self.beta.len() == G2_SIZE
        &&& self.gamma.len() == G2_SIZE
        &&& self.delta.len() == G2_SIZE
        &&& 1 <= self.ic.len() <= u32::MAX
        &&& forall|i: int| 0 <= i < self.ic.len() ==> (#[trigger] self.ic[i]).len() == G1_SIZE
    }
}

/// The mathematical model of a proof.
pub ghost struct ProofView {
    pub a: Seq<u8>,
    pub b: Seq<u8>,
    pub c: Seq<u8>,
}

impl ProofView {
    pub open spec fn wf(self) -> bool {
        self.a.len() == G1_SIZE && self.b.len() == G2_SIZE && self.c.len() == G1_SIZE
    }
}

/// A decoded verification key. Every field holds the wire bytes of one
/// curve point; `ic` is the non-empty sequence of public-input points.
#[derive(Debug, Clone)]
pub struct VerificationKey {
    pub alpha: Vec<u8>,
    pub beta: Vec<u8>,
    pub gamma: Vec<u8>,
    pub delta: Vec<u8>,
    pub ic: Vec<Vec<u8>>,
}

impl View for VerificationKey {
    type V = VkView;

    open spec fn view(&self) -> VkView {
        VkView {
            alpha: self.alpha@,
            beta: self.beta@,
            gamma: self.gamma@,
            delta: self.delta@,
            ic: Seq::new(self.ic@.len(), |i: int| self.ic@[i]@),
        }
    }
}

/// A decoded proof.
#[derive(Debug, Clone)]
pub struct Proof {
    pub a: Vec<u8>,
    pub b: Vec<u8>,
    pub c: Vec<u8>,
}

impl View for Proof {
    type V = ProofView;

    open spec fn view(&self) -> ProofView {
        ProofView { a: self.a@, b: self.b@, c: self.c@ }
    }
}

/// Decoded public signals: one 32-byte big-endian scalar per position.
/// Decoding does not reject values at or above the scalar-field order; the
/// verification algorithm reduces each value modulo that order, so two
/// encodings of the same residue verify identically.
#[derive(Debug, Clone)]
pub struct PublicSignals {
    pub pub_signals: Vec<Vec<u8>>,
}

impl View for PublicSignals {
    type V = Seq<Seq<u8>>;

    open spec fn view(&self) -> Seq<Seq<u8>> {
        Seq::new(self.pub_signals@.len(), |i: int| self.pub_signals@[i]@)
    }
}

pub open spec fn signals_wf(s: Seq<Seq<u8>>) -> bool {
    &&& s.len() <= u32::MAX
    &&& forall|i: int| 0 <= i < s.len() ==> (#[trigger] s[i]).len() == FR_SIZE
}

/// The one verification key a buffer can decode to, if any. A buffer decodes
/// exactly when it is the header, a count of at least one, and then exactly
/// that many G1 points, with nothing left over.
pub open spec fn spec_parse_vk(b: Seq<u8>) -> Option<VkView> {
    if b.len() < VK_HEADER_SIZE {
        None
    } else {
        let n = be_value(b.subrange(672, 676));
        if n == 0 || b.len() != VK_HEADER_SIZE + n * G1_SIZE {
            None
        } else {
            Some(VkView {
                alpha: b.subrange(0, 96),
                beta: b.subrange(96, 288),
                gamma: b.subrange(288, 480),
                delta: b.subrange(480, 672),
                ic: Seq::new(n, |i: int| b.subrange(676 + 96 * i, 676 + 96 * (i + 1))),
            })
        }
    }
}

/// The one proof a buffer can decode to, if any: exactly a G1, a G2 and a G1
/// point, with nothing left over.
pub open spec fn spec_parse_proof(b: Seq<u8>) -> Option<ProofView> {
    if b.len() != PROOF_SIZE {
        None
    } else {
        Some(ProofView { a: b.subrange(0, 96), b: b.subrange(96, 288), c: b.subrange(288, 384) })
    }
}

/// The one signal sequence a buffer can decode to, if any: a 4-byte count and
/// exactly that many 32-byte scalars, with nothing left over.
pub open spec fn spec_parse_signals(b: Seq<u8>) -> Option<Seq<Seq<u8>>> {
    if b.len() < 4 {
        None
    } else {
        let n = be_value(b.subrange(0, 4));
        if b.len() != 4 + n * FR_SIZE {
            None
        } else {
            Some(Seq::new(n, |i: int| b.subrange(4 + 32 * i, 4 + 32 * (i + 1))))
        }
    }
}

impl VerificationKey {
    /// Decodes a verification key from its exact wire encoding: the decoder
    /// accepts a buffer if and only if `spec_parse_vk` accepts it, and then
    /// returns precisely the parsed key.
    pub fn from_bytes(bytes: &Vec<u8>) -> (r: Result<Self, VerifierError>)
        ensures
            match r {
                Ok(vk) => spec_parse_vk(bytes@) == Some(vk@) && vk@.wf(),
                Err(e) => spec_parse_vk(bytes@) is None && e
                    == VerifierError::MalformedVerifyingKey,
            },
    {
        let err = VerifierError::MalformedVerifyingKey;
        let mut pos: usize = 0;
        let alpha = match take(bytes, &mut pos, G1_SIZE, err) {
            Ok(c) => c,
            Err(e) => {
                return Err(e);
            },
        };
        let beta = match take(bytes, &mut pos, G2_SIZE, err) {
            Ok(c) => c,
            Err(e) => {
                return Err(e);
            },
        };
        let gamma = match take(bytes, &mut pos, G2_SIZE, err) {
            Ok(c) => c,
            Err(e) => {
                return Err(e);
            },
        };
        let delta = match take(bytes, &mut pos, G2_SIZE, err) {
            Ok(c) => c,
            Err(e) => {
                return Err(e);
            },
        };
        let ic_len_bytes = match take(bytes, &mut pos, 4, err) {
            Ok(c) => c,
            Err(e) => {
                return Err(e);
            },
        };
        let ic_len: u32 = u32_from_be4(&ic_len_bytes);
        let ghost n: nat = be_value(bytes@.subrange(672, 676));
        assert(n == ic_len);
        let mut ic: Vec<Vec<u8>> = Vec::new();
        let mut j: u32 = 0;
        while j < ic_len
            invariant
                err == VerifierError::MalformedVerifyingKey,
                j <= ic_len,
                n == ic_len,
                n == be_value(bytes@.subrange(672, 676)),
                pos == 676 + 96 * j,
                pos <= bytes@.len(),
                ic@.len() == j,
                forall|k: int|
                    0 <= k < j ==> (#[trigger] ic@[k])@ =~= bytes@.subrange(
                        676 + 96 * k,
                        676 + 96 * (k + 1),
                    ),
            decreases ic_len - j,
        {
            let g1 = match take(bytes, &mut pos, G1_SIZE, err) {
                Ok(c) => c,
                Err(e) => {
                    proof {
                        assert(bytes@.len() < 676 + 96 * (j + 1));
                        assert(96 * (j + 1) <= 96 * n) by (nonlinear_arith)
                            requires
                                j + 1 <= n,
                        ;
                        assert(bytes@.len() < 676 + n * 96);
                    }
                    return Err(e);
                },
            };
            ic.push(g1);
            j = j + 1;
        }
        if ic_len == 0 {
            return Err(err);
        }
        if pos != bytes.len() {
            return Err(err);
        }
        let vk = VerificationKey { alpha, beta, gamma, delta, ic };
        proof {
            assert(bytes@.len() == 676 + n * 96);
            let parsed = spec_parse_vk(bytes@).unwrap();
            assert(vk@.ic =~~= parsed.ic);
            assert(vk@ == parsed);
            lemma_be_value_bound(bytes@.subrange(672, 676));
            assert(pow256(1) == 256 * pow256(0));
            assert(pow256(2) == 256 * pow256(1));
            assert(pow256(3) == 256 * pow256(2));
            assert(pow256(4) == 256 * pow256(3));
            assert(vk@.wf());
        }
        Ok(vk)
    }
}

impl Proof {
    /// Decodes a proof from its exact wire encoding: accepted if and only if
    /// `spec_parse_proof` accepts the buffer.
    pub fn from_bytes(bytes: &Vec<u8>) -> (r: Result<Self, VerifierError>)
        ensures
            match r {
                Ok(p) => spec_parse_proof(bytes@) == Some(p@) && p@.wf(),
                Err(e) => spec_parse_proof(bytes@) is None && e == VerifierError::MalformedProof,
            },
    {
        let err = VerifierError::MalformedProof;
        let mut pos: usize = 0;
        let a = match take(bytes, &mut pos, G1_SIZE, err) {
            Ok(c) => c,
            Err(e) => {
                return Err(e);
            },
        };
        let b = match take(bytes, &mut pos, G2_SIZE, err) {
            Ok(c) => c,
            Err(e) => {
                return Err(e);
            },
        };
        let c = match take(bytes, &mut pos, G1_SIZE, err) {
            Ok(c) => c,
            Err(e) => {
                return Err(e);
            },
        };
        if pos != bytes.len() {
            return Err(err);
        }
        Ok(Proof { a, b, c })
    }
}

impl PublicSignals {
    /// Decodes public signals from their exact wire encoding: accepted if and
    /// only if `spec_parse_signals` accepts the buffer.
    pub fn from_bytes(bytes: &Vec<u8>) -> (r: Result<Self, VerifierError>)
        ensures
            match r {
                Ok(s) => spec_parse_signals(bytes@) == Some(s@) && signals_wf(s@),
                Err(e) => spec_parse_signals(bytes@) is None && e
                    == VerifierError::MalformedPublicSignals,
            },
    {
        let err = VerifierError::MalformedPublicSignals;
        let mut pos: usize = 0;
        let len_bytes = match take(bytes, &mut pos, 4, err) {
            Ok(c) => c,
            Err(e) => {
                return Err(e);
            },
        };
        let len: u32 = u32_from_be4(&len_bytes);
        let ghost n: nat = be_value(bytes@.subrange(0, 4));
        assert(n == len);
        let mut pub_signals: Vec<Vec<u8>> = Vec::new();
        let mut j: u32 = 0;
        while j < len
            invariant
                err == VerifierError::MalformedPublicSignals,
                j <= len,
                n == len,
                n == be_value(bytes@.subrange(0, 4)),
                pos == 4 + 32 * j,
                pos <= bytes@.len(),
                pub_signals@.len() == j,
                forall|k: int|
                    0 <= k < j ==> (#[trigger] pub_signals@[k])@ =~= bytes@.subrange(
                        4 + 32 * k,
                        4 + 32 * (k + 1),
                    ),
            decreases len - j,
        {
            let s = match take(bytes, &mut pos, FR_SIZE, err) {
                Ok(c) => c,
                Err(e) => {
                    proof {
                        assert(bytes@.len() < 4 + 32 * (j + 1));
                        assert(32 * (j + 1) <= 32 * n) by (nonlinear_arith)
                            requires
                                j + 1 <= n,
                        ;
                        assert(bytes@.len() < 4 + n * 32);
                    }
                    return Err(e);
                },
            };
            pub_signals.push(s);
            j = j + 1;
        }
        if pos != bytes.len() {
            return Err(err);
        }
        let ps = PublicSignals { pub_signals };
        proof {
            assert(bytes@.len() == 4 + n * 32);
            let parsed = spec_parse_signals(bytes@).unwrap();
            assert(ps@ =~~= parsed);
            lemma_be_value_bound(bytes@.subrange(0, 4));
            assert(pow256(1) == 256 * pow256(0));
            assert(pow256(2) == 256 * pow256(1));
            assert(pow256(3) == 256 * pow256(2));
            assert(pow256(4) == 256 * pow256(3));
            assert(signals_wf(ps@));
        }
        Ok(ps)
    }
}

/// The concatenation of a sequence of byte strings.
pub open spec fn cat(parts: Seq<Seq<u8>>) -> Seq<u8>
    decreases parts.len(),
{
    if parts.len() == 0 {
        Seq::empty()
    } else {
        cat(parts.drop_last()) + parts.last()
    }
}

pub proof fn lemma_cat_len(parts: Seq<Seq<u8>>, w: nat)
    requires
        forall|i: int| 0 <= i < parts.len() ==> (#[trigger] parts[i]).len() == w,
    ensures
        cat(parts).len() == parts.len() * w,
    decreases parts.len(),
{
    if parts.len() == 0 {
    } else {
        lemma_cat_len(parts.drop_last(), w);
        assert(cat(parts).len() == (parts.len() - 1) * w + w);
        assert((parts.len() - 1) * w + w == parts.len() * w) by (nonlinear_arith)
            requires
                parts.len() >= 1,
        ;
    }
}

/// Chunk `i` of the concatenation of `w`-byte strings is part `i`.
pub proof fn lemma_cat_chunk(parts: Seq<Seq<u8>>, w: nat, i: int)
    requires
        forall|k: int| 0 <= k < parts.len() ==> (#[trigger] parts[k]).len() == w,
        0 <= i < parts.len(),
    ensures
        cat(parts).subrange(w * i, w * (i + 1)) =~= parts[i],
    decreases parts.len(),
{
    let n = parts.len() as int;
    let wi = w as int;
    lemma_cat_len(parts, w);
    lemma_cat_len(parts.drop_last(), w);
    assert(cat(parts.drop_last()).len() == (n - 1) * wi);
    if i == n - 1 {
        assert(wi * i == (n - 1) * wi && wi * (i + 1) == n * wi) by (nonlinear_arith)
            requires
                i == n - 1,
        ;
        assert(n * wi == (n - 1) * wi + wi) by (nonlinear_arith);
        assert(cat(parts).subrange(wi * i, wi * (i + 1)) =~= parts.last());
    } else {
        lemma_cat_chunk(parts.drop_last(), w, i);
        assert(0 <= wi * i && wi * i <= wi * (i + 1) && wi * (i + 1) <= (n - 1) * wi && (n - 1) * wi
            <= n * wi) by (nonlinear_arith)
            requires
                0 <= i,
                i + 1 <= n - 1,
                wi >= 0,
        ;
        assert(cat(parts).subrange(wi * i, wi * (i + 1)) =~= cat(parts.drop_last()).subrange(
            wi * i,
            wi * (i + 1),
        ));
    }
}

/// Appending one more part extends the concatenation by it.
pub proof fn lemma_cat_snoc(parts: Seq<Seq<u8>>, j: int)
    requires
        0 <= j < parts.len(),
    ensures
        cat(parts.take(j + 1)) =~= cat(parts.take(j)) + parts[j],
{
    assert(parts.take(j + 1).drop_last() =~= parts.take(j));
    assert(parts.take(j + 1).last() == parts[j]);
}

/// The canonical encoding of a verification key.
pub open spec fn spec_vk_bytes(v: VkView) -> Seq<u8> {
    v.alpha + v.beta + v.gamma + v.delta + be_of(v.ic.len(), 4) + cat(v.ic)
}

/// The canonical encoding of a proof.
pub open spec fn spec_proof_bytes(p: ProofView) -> Seq<u8> {
    p.a + p.b + p.c
}

/// The canonical encoding of a sequence of public signals.
pub open spec fn spec_signals_bytes(s: Seq<Seq<u8>>) -> Seq<u8> {
    be_of(s.len(), 4) + cat(s)
}

/// Encodes a verification key into its canonical wire bytes.
pub fn vk_to_bytes(vk: &VerificationKey) -> (r: Vec<u8>)
    requires
        vk@.wf(),
    ensures
        r@ == spec_vk_bytes(vk@),
{
    let mut out: Vec<u8> = Vec::new();
    push_all(&mut out, &vk.alpha);
    push_all(&mut out, &vk.beta);
    push_all(&mut out, &vk.gamma);
    push_all(&mut out, &vk.delta);
    let lenb = u32_to_be4(vk.ic.len() as u32);
    push_all(&mut out, &lenb);
    let ghost prefix = out@;
    assert(prefix =~= vk@.alpha + vk@.beta + vk@.gamma + vk@.delta + be_of(vk@.ic.len(), 4));
    let mut j: usize = 0;
    while j < vk.ic.len()
        invariant
            j <= vk.ic@.len(),
            prefix == vk@.alpha + vk@.beta + vk@.gamma + vk@.delta + be_of(vk@.ic.len(), 4),
            vk@.ic.len() == vk.ic@.len(),
            out@ =~= prefix + cat(vk@.ic.take(j as int)),
        decreases vk.ic@.len() - j,
    {
        push_all(&mut out, &vk.ic[j]);
        proof {
            lemma_cat_snoc(vk@.ic, j as int);
            assert(vk@.ic[j as int] == vk.ic@[j as int]@);
        }
        j = j + 1;
    }
    proof {
        assert(vk@.ic.take(vk@.ic.len() as int) =~= vk@.ic);
        assert(out@ =~= spec_vk_bytes(vk@));
    }
    out
}

/// Encodes a proof into its canonical wire bytes.
pub fn proof_to_bytes(p: &Proof) -> (r: Vec<u8>)
    ensures
        r@ == spec_proof_bytes(p@),
{
    let mut out: Vec<u8> = Vec::new();
    push_all(&mut out, &p.a);
    push_all(&mut out, &p.b);
    push_all(&mut out, &p.c);
    assert(out@ =~= spec_proof_bytes(p@));
    out
}

/// Encodes public signals into their canonical wire bytes.
pub fn signals_to_bytes(s: &PublicSignals) -> (r: Vec<u8>)
    requires
        s@.len() <= u32::MAX,
    ensures
        r@ == spec_signals_bytes(s@),
{
    let mut out: Vec<u8> = Vec::new();
    let lenb = u32_to_be4(s.pub_signals.len() as u32);
    push_all(&mut out, &lenb);
    let ghost prefix = out@;
    assert(prefix =~= be_of(s@.len(), 4));
    let mut j: usize = 0;
    while j < s.pub_signals.len()
        invariant
            j <= s.pub_signals@.len(),
            prefix == be_of(s@.len(), 4),
            s@.len() == s.pub_signals@.len(),
            out@ =~= prefix + cat(s@.take(j as int)),
        decreases s.pub_signals@.len() - j,
    {
        push_all(&mut out, &s.pub_signals[j]);
        proof {
            lemma_cat_snoc(s@, j as int);
            assert(s@[j as int] == s.pub_signals@[j as int]@);
        }
        j = j + 1;
    }
    proof {
        assert(s@.take(s@.len() as int) =~= s@);
        assert(out@ =~= spec_signals_bytes(s@));
    }
    out
}

pub proof fn lemma_pow256_4()
    ensures
        pow256(4) == 0x1_0000_0000,
{
    assert(pow256(1) == 256 * pow256(0));
    assert(pow256(2) == 256 * pow256(1));
    assert(pow256(3) == 256 * pow256(2));
    assert(pow256(4) == 256 * pow256(3));
}

/// Decoding an encoded verification key gives back exactly the key that was
/// encoded, for every well-formed key.
pub proof fn lemma_vk_round_trip(v: VkView)
    requires
        v.wf(),
    ensures
        spec_parse_vk(spec_vk_bytes(v)) == Some(v),
{
    let b = spec_vk_bytes(v);
    let n = v.ic.len();
    lemma_cat_len(v.ic, 96);
    lemma_be_of_len(n, 4);
    assert(b.len() == 676 + n * 96);
    assert(b.subrange(672, 676) =~= be_of(n, 4));
    lemma_be_of_value(n, 4);
    lemma_pow256_4();
    assert(be_value(b.subrange(672, 676)) == n);
    assert(96 * n >= 96) by (nonlinear_arith)
        requires
            n >= 1,
    ;
    let parsed = spec_parse_vk(b).unwrap();
    assert(b.subrange(0, 96) =~= v.alpha);
    assert(b.subrange(96, 288) =~= v.beta);
    assert(b.subrange(288, 480) =~= v.gamma);
    assert(b.subrange(480, 672) =~= v.delta);
    assert forall|i: int| 0 <= i < n implies parsed.ic[i] == v.ic[i] by {
        lemma_cat_chunk(v.ic, 96, i);
        assert(0 <= 96 * i && 96 * i <= 96 * (i + 1) && 96 * (i + 1) <= 96 * n) by (
        nonlinear_arith)
            requires
                0 <= i,
                i + 1 <= n,
        ;
        assert(b.subrange(676 + 96 * i, 676 + 96 * (i + 1)) =~= cat(v.ic).subrange(
            96 * i,
            96 * (i + 1),
        ));
    };
    assert(parsed.ic =~= v.ic);
    assert(parsed == v);
}

/// Decoding an encoded proof gives back exactly the proof that was encoded.
pub proof fn lemma_proof_round_trip(p: ProofView)
    requires
        p.wf(),
    ensures
        spec_parse_proof(spec_proof_bytes(p)) == Some(p),
{
    let b = spec_proof_bytes(p);
    assert(b.subrange(0, 96) =~= p.a);
    assert(b.subrange(96, 288) =~= p.b);
    assert(b.subrange(288, 384) =~= p.c);
    assert(spec_parse_proof(b).unwrap() == p);
}

/// Decoding encoded public signals gives back exactly the signals that were
/// encoded.
pub proof fn lemma_signals_round_trip(s: Seq<Seq<u8>>)
    requires
        signals_wf(s),
    ensures
        spec_parse_signals(spec_signals_bytes(s)) == Some(s),
{
    let b = spec_signals_bytes(s);
    let n = s.len();
    lemma_cat_len(s, 32);
    lemma_be_of_len(n, 4);
    assert(b.len() == 4 + n * 32);
    assert(b.subrange(0, 4) =~= be_of(n, 4));
    lemma_be_of_value(n, 4);
    lemma_pow256_4();
    assert(be_value(b.subrange(0, 4)) == n);
    let parsed = spec_parse_signals(b).unwrap();
    assert forall|i: int| 0 <= i < n implies parsed[i] == s[i] by {
        lemma_cat_chunk(s, 32, i);
        assert(0 <= 32 * i && 32 * i <= 32 * (i + 1) && 32 * (i + 1) <= 32 * n) by (
        nonlinear_arith)
            requires
                0 <= i,
                i + 1 <= n,
        ;
        assert(b.subrange(4 + 32 * i, 4 + 32 * (i + 1)) =~= cat(s).subrange(32 * i, 32 * (i + 1)));
    };
    assert(parsed =~= s);
}

/// Any buffer shorter than the smallest well-formed verification key (header
/// plus one point) is rejected.
pub proof fn lemma_vk_short_rejected(b: Seq<u8>)
    requires
        b.len() < VK_HEADER_SIZE + G1_SIZE,
    ensures
        spec_parse_vk(b) is None,
{
    if b.len() >= 676 {
        let n = be_value(b.subrange(672, 676));
        if n != 0 {
            assert(n * 96 >= 96) by (nonlinear_arith)
                requires
                    n >= 1,
            ;
        }
    }
}

/// Any buffer shorter than the fixed proof encoding is rejected.
pub proof fn lemma_proof_short_rejected(b: Seq<u8>)
    requires
        b.len() < PROOF_SIZE,
    ensures
        spec_parse_proof(b) is None,
{
}

/// Any buffer shorter than the signal count prefix is rejected.
pub proof fn lemma_signals_short_rejected(b: Seq<u8>)
    requires
        b.len() < 4,
    ensures
        spec_parse_signals(b) is None,
{
}

/// A buffer whose `ic` count field is zero is rejected, whatever the rest of
/// the buffer holds.
pub proof fn lemma_vk_zero_ic_rejected(b: Seq<u8>)
    requires
        b.len() >= VK_HEADER_SIZE,
        be_value(b.subrange(672, 676)) == 0,
    ensures
        spec_parse_vk(b) is None,
{
}

/// An otherwise-valid verification key encoding with at least one trailing
/// byte is rejected: decoding consumes the buffer exactly.
pub proof fn lemma_vk_trailing_rejected(v: VkView, extra: Seq<u8>)
    requires
        v.wf(),
        extra.len() >= 1,
    ensures
        spec_parse_vk(spec_vk_bytes(v) + extra) is None,
{
    let b0 = spec_vk_bytes(v);
    let b = b0 + extra;
    let n = v.ic.len();
    lemma_cat_len(v.ic, 96);
    lemma_be_of_len(n, 4);
    assert(b.len() == 676 + n * 96 + extra.len());
    assert(b.subrange(672, 676) =~= be_of(n, 4));
    lemma_be_of_value(n, 4);
    lemma_pow256_4();
    assert(be_value(b.subrange(672, 676)) == n);
}

/// An otherwise-valid proof encoding with at least one trailing byte is
/// rejected.
pub proof fn lemma_proof_trailing_rejected(p: ProofView, extra: Seq<u8>)
    requires
        p.wf(),
        extra.len() >= 1,
    ensures
        spec_parse_proof(spec_proof_bytes(p) + extra) is None,
{
}

/// An otherwise-valid public-signals encoding with at least one trailing byte
/// is rejected.
pub proof fn lemma_signals_trailing_rejected(s: Seq<Seq<u8>>, extra: Seq<u8>)
    requires
        signals_wf(s),
        extra.len() >= 1,
    ensures
        spec_parse_signals(spec_signals_bytes(s) + extra) is None,
{
    let b0 = spec_signals_bytes(s);
    let b = b0 + extra;
    let n = s.len();
    lemma_cat_len(s, 32);
    lemma_be_of_len(n, 4);
    assert(b.len() == 4 + n * 32 + extra.len());
    assert(b.subrange(0, 4) =~= be_of(n, 4));
    lemma_be_of_value(n, 4);
    lemma_pow256_4();
    assert(be_value(b.subrange(0, 4)) == n);
}

} // verus!
