use vstd::prelude::*;
use crate::VerifierError;

verus! {

/// 256 raised to the power `w`: the number of distinct values a `w`-byte
/// big-endian string can hold.
pub open spec fn pow256(w: nat) -> nat
    decreases w,
{
    if w == 0 {
        1
    } else {
        256 * pow256((w - 1) as nat)
    }
}

/// The unsigned integer denoted by a big-endian byte string.
pub open spec fn be_value(b: Seq<u8>) -> nat
    decreases b.len(),
{
    if b.len() == 0 {
        0
    } else {
        be_value(b.drop_last()) * 256 + b.last() as nat
    }
}

/// The `w`-byte big-endian encoding of `v` (modulo `pow256(w)`).
pub open spec fn be_of(v: nat, w: nat) -> Seq<u8>
    decreases w,
{
    if w == 0 {
        Seq::empty()
    } else {
        be_of(v / 256, (w - 1) as nat).push((v % 256) as u8)
    }
}

pub proof fn lemma_pow256_pos(w: nat)
    ensures
        pow256(w) >= 1,
    decreases w,
{
    if w > 0 {
        lemma_pow256_pos((w - 1) as nat);
    }
}

pub proof fn lemma_be_of_len(v: nat, w: nat)
    ensures
        be_of(v, w).len() == w,
    decreases w,
{
    if w > 0 {
        lemma_be_of_len(v / 256, (w - 1) as nat);
    }
}

/// Every big-endian byte string of length `w` denotes a value below `pow256(w)`.
pub proof fn lemma_be_value_bound(b: Seq<u8>)
    ensures
        be_value(b) < pow256(b.len()),
    decreases b.len(),
{
    if b.len() > 0 {
        lemma_be_value_bound(b.drop_last());
    }
}

/// Decoding a big-endian encoding gives back the encoded value, reduced
/// modulo the capacity of the width.
pub proof fn lemma_be_of_value(v: nat, w: nat)
    ensures
        be_value(be_of(v, w)) == v % pow256(w),
    decreases w,
{
    if w == 0 {
        assert(pow256(0) == 1);
        assert(v % 1 == 0) by (nonlinear_arith);
    } else {
        lemma_be_of_value(v / 256, (w - 1) as nat);
        lemma_be_of_len(v / 256, (w - 1) as nat);
        lemma_pow256_pos((w - 1) as nat);
        let e = be_of(v, w);
        assert(e.drop_last() =~= be_of(v / 256, (w - 1) as nat));
        assert(be_value(e) == (v / 256) % pow256((w - 1) as nat) * 256 + v % 256);
        vstd::arithmetic::div_mod::lemma_mod_breakdown(v as int, 256, pow256((w - 1) as nat) as int);
        assert(v % (256 * pow256((w - 1) as nat)) == 256 * ((v / 256) % pow256((w - 1) as nat)) + v % 256);
        assert(pow256(w) == 256 * pow256((w - 1) as nat));
    }
}

/// A byte string is the big-endian encoding of the value it denotes:
/// big-endian representations of a given width are unique.
pub proof fn lemma_be_repr_unique(b: Seq<u8>)
    ensures
        b =~= be_of(be_value(b), b.len()),
    decreases b.len(),
{
    if b.len() > 0 {
        let v = be_value(b);
        let prev = be_value(b.drop_last());
        assert(v == prev * 256 + b.last());
        assert(v % 256 == b.last() && v / 256 == prev) by (nonlinear_arith)
            requires
                v == prev * 256 + b.last(),
                0 <= b.last() < 256,
                prev >= 0,
        ;
        lemma_be_repr_unique(b.drop_last());
        lemma_be_of_len(v / 256, (b.len() - 1) as nat);
    }
}

/// Prepending zero bytes does not change the denoted value.
pub proof fn lemma_be_value_zero_prefix(z: Seq<u8>, b: Seq<u8>)
    requires
        forall|i: int| 0 <= i < z.len() ==> z[i] == 0,
    ensures
        be_value(z + b) == be_value(b),
    decreases b.len(),
{
    if b.len() == 0 {
        assert(z + b =~= z);
        lemma_be_all_zero(z);
    } else {
        assert((z + b).drop_last() =~= z + b.drop_last());
        assert((z + b).last() == b.last());
        lemma_be_value_zero_prefix(z, b.drop_last());
    }
}

/// A string of zero bytes denotes zero.
pub proof fn lemma_be_all_zero(z: Seq<u8>)
    requires
        forall|i: int| 0 <= i < z.len() ==> z[i] == 0,
    ensures
        be_value(z) == 0,
    decreases z.len(),
{
    if z.len() > 0 {
        lemma_be_all_zero(z.drop_last());
    }
}

/// A byte string with a nonzero leading byte denotes at least the capacity of
/// the shorter widths, so minimal encodings are the shortest ones.
pub proof fn lemma_be_value_leading_nonzero(b: Seq<u8>)
    requires
        b.len() >= 1,
        b[0] != 0,
    ensures
        be_value(b) >= pow256((b.len() - 1) as nat),
    decreases b.len(),
{
    if b.len() == 1 {
        assert(be_value(b) == be_value(b.drop_last()) * 256 + b.last());
    } else {
        lemma_be_value_leading_nonzero(b.drop_last());
        assert(be_value(b.drop_last()) >= pow256((b.len() - 2) as nat));
        assert(be_value(b) == be_value(b.drop_last()) * 256 + b.last());
        assert(be_value(b.drop_last()) * 256 >= pow256((b.len() - 2) as nat) * 256) by (nonlinear_arith)
            requires
                be_value(b.drop_last()) >= pow256((b.len() - 2) as nat),
        ;
        assert(pow256((b.len() - 1) as nat) == 256 * pow256((b.len() - 2) as nat));
    }
}

/// Reads the next `n` bytes of `bytes` starting at `*pos` and advances the
/// cursor, or reports `err` when fewer than `n` bytes remain. This is the
/// sole bounds gate used by every decoder.
pub fn take(bytes: &Vec<u8>, pos: &mut usize, n: usize, err: VerifierError) -> (r: Result<
    Vec<u8>,
    VerifierError,
>)
    ensures
        match r {
            Ok(chunk) => old(pos) + n <= bytes@.len() && *final(pos) == old(pos) + n && chunk@
                =~= bytes@.subrange(*old(pos) as int, *old(pos) + n),
            Err(e) => e == err && old(pos) + n > bytes@.len() && *final(pos) == *old(pos),
        },
{
    let start: usize = *pos;
    let end: usize = match start.checked_add(n) {
        Some(e) => e,
        None => {
            let l = bytes.len();
            assert(start + n > usize::MAX >= l);
            return Err(err);
        },
    };
    if end > bytes.len() {
        return Err(err);
    }
    let mut out: Vec<u8> = Vec::new();
    let mut i: usize = start;
    while i < end
        invariant
            start <= i <= end <= bytes@.len(),
            out@.len() == i - start,
            out@ =~= bytes@.subrange(start as int, i as int),
        decreases end - i,
    {
        out.push(bytes[i]);
        i = i + 1;
        assert(out@ =~= bytes@.subrange(start as int, i as int));
    }
    *pos = end;
    Ok(out)
}

/// The value of a 4-byte big-endian prefix, as a `u32`.
pub fn u32_from_be4(b: &Vec<u8>) -> (r: u32)
    requires
        b@.len() == 4,
    ensures
        r == be_value(b@),
{
    let r: u32 = (b[0] as u32) * 16777216 + (b[1] as u32) * 65536 + (b[2] as u32) * 256 + (
    b[3] as u32);
    proof {
        let s = b@;
        let s3 = s.drop_last();
        let s2 = s3.drop_last();
        let s1 = s2.drop_last();
        assert(s1.drop_last() =~= Seq::<u8>::empty());
        assert(be_value(Seq::<u8>::empty()) == 0);
        assert(s1.last() == s[0] && s2.last() == s[1] && s3.last() == s[2] && s.last() == s[3]);
        assert(be_value(s1) == s[0]);
        assert(be_value(s2) == s[0] * 256 + s[1]);
        assert(be_value(s3) == (s[0] * 256 + s[1]) * 256 + s[2]);
        assert(be_value(s) == ((s[0] * 256 + s[1]) * 256 + s[2]) * 256 + s[3]);
    }
    r
}

/// The 4-byte big-endian encoding of `n`.
pub fn u32_to_be4(n: u32) -> (r: Vec<u8>)
    ensures
        r@ =~= be_of(n as nat, 4),
        r@.len() == 4,
{
    let b0: u8 = (n / 16777216) as u8;
    let b1: u8 = ((n / 65536) % 256) as u8;
    let b2: u8 = ((n / 256) % 256) as u8;
    let b3: u8 = (n % 256) as u8;
    let mut out: Vec<u8> = Vec::new();
    out.push(b0);
    out.push(b1);
    out.push(b2);
    out.push(b3);
    proof {
        let v = n as nat;
        let v1 = v / 256;
        let v2 = v / 65536;
        let v3 = v / 16777216;
        vstd::arithmetic::div_mod::lemma_div_denominator(n as int, 256, 256);
        vstd::arithmetic::div_mod::lemma_div_denominator(n as int, 65536, 256);
        assert(v1 / 256 == v2);
        assert(v2 / 256 == v3);
        assert(v3 < 256);
        assert(v3 / 256 == 0 && v3 % 256 == v3);
        assert(be_of(v3 / 256, 0) =~= Seq::<u8>::empty());
        assert(be_of(v3, 1) =~= seq![(v3 % 256) as u8]);
        assert(be_of(v2, 2) =~= be_of(v3, 1).push((v2 % 256) as u8));
        assert(be_of(v1, 3) =~= be_of(v2, 2).push((v1 % 256) as u8));
        assert(be_of(v, 4) =~= be_of(v1, 3).push((v % 256) as u8));
        assert(out@ =~= be_of(v, 4));
    }
    out
}

/// Appends all bytes of `src` to `dst`.
pub fn push_all(dst: &mut Vec<u8>, src: &Vec<u8>)
    ensures
        final(dst)@ =~= old(dst)@ + src@,
{
    let mut i: usize = 0;
    while i < src.len()
        invariant
            i <= src@.len(),
            dst@ =~= old(dst)@ + src@.subrange(0, i as int),
        decreases src@.len() - i,
    {
        dst.push(src[i]);
        i = i + 1;
        assert(dst@ =~= old(dst)@ + src@.subrange(0, i as int));
    }
    assert(src@.subrange(0, src@.len() as int) =~= src@);
}

} // verus!
