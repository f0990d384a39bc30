use vstd::prelude::*;
use vstd::string::{StrSliceExecFns, StringExecFns};
use crate::entities::{VerificationKey, Proof, PublicSignals, VkView, ProofView, signals_wf};
use crate::entities::{spec_vk_bytes, spec_proof_bytes, spec_signals_bytes};
use crate::entities::{spec_parse_vk, spec_parse_proof, spec_parse_signals};
use crate::entities::{vk_to_bytes, proof_to_bytes, signals_to_bytes};
use crate::entities::{lemma_vk_round_trip, lemma_proof_round_trip, lemma_signals_round_trip};
use crate::wire::{be_value, be_of, pow256, push_all};
use crate::wire::{
    lemma_be_of_len, lemma_be_value_bound, lemma_be_repr_unique, lemma_be_value_zero_prefix,
    lemma_be_value_leading_nonzero, lemma_pow256_pos,
};

verus! {

/// A non-empty string of ASCII decimal digits.
pub open spec fn is_dec_digits(s: Seq<char>) -> bool {
    s.len() > 0 && forall|i: int| 0 <= i < s.len() ==> '0' <= #[trigger] s[i] <= '9'
}

/// The number denoted by a string of decimal digits.
pub open spec fn dec_value(s: Seq<char>) -> nat
    decreases s.len(),
{
    if s.len() == 0 {
        0
    } else {
        (dec_value(s.drop_last()) * 10 + (s.last() as int - 48)) as nat
    }
}

/// Whether `s` is a non-empty string of decimal digits.
pub fn is_decimal_str(s: &str) -> (r: bool)
    ensures
        r == is_dec_digits(s@),
{
    if !s.is_ascii() {
        proof {
            if is_dec_digits(s@) {
                assert forall|i: int| 0 <= i < s@.len() implies '\0' <= #[trigger] s@[i]
                    <= '\u{7f}' by {
                    assert('0' <= s@[i] <= '9');
                }
                assert(vstd::string::is_ascii(s));
            }
        }
        return false;
    }
    let n = s.unicode_len();
    if n == 0 {
        return false;
    }
    let mut i: usize = 0;
    while i < n
        invariant
            vstd::string::is_ascii(s),
            n == s@.len(),
            i <= n,
            forall|k: int| 0 <= k < i ==> '0' <= #[trigger] s@[k] <= '9',
        decreases n - i,
    {
        let b = s.get_ascii(i);
        if b < 48 || b > 57 {
            proof {
                assert(s@[i as int] as u8 == b);
                assert('\0' <= s@[i as int] <= '\u{7f}');
                assert(!('0' <= s@[i as int] <= '9'));
            }
            return false;
        }
        proof {
            assert(s@[i as int] as u8 == b);
            assert('\0' <= s@[i as int] <= '\u{7f}');
            assert('0' <= s@[i as int] <= '9');
        }
        i = i + 1;
    }
    true
}

/// Relies on `num_bigint::BigUint::parse_bytes` in base 10 and
/// `BigUint::to_bytes_be`: a non-empty all-digit string parses to the number
/// it denotes, and the returned big-endian bytes are the minimal encoding of
/// that number (a single zero byte for zero, otherwise no leading zero byte).
#[verifier::external_body]
fn dec_to_be_bytes(s: &str) -> (r: Vec<u8>)
    requires
        is_dec_digits(s@),
    ensures
        r@.len() >= 1,
        be_value(r@) == dec_value(s@),
        r@.len() > 1 ==> r@[0] != 0,
{
    num_bigint::BigUint::parse_bytes(s.as_bytes(), 10).unwrap().to_bytes_be()
}

pub proof fn lemma_pow256_mono(a: nat, b: nat)
    requires
        a <= b,
    ensures
        pow256(a) <= pow256(b),
    decreases b,
{
    if a < b {
        lemma_pow256_mono(a, (b - 1) as nat);
        lemma_pow256_pos((b - 1) as nat);
    }
}

/// The `w`-byte big-endian encoding of the number a decimal literal denotes,
/// if the literal is well-formed and the number fits.
pub open spec fn spec_fixed_dec(s: Seq<char>, w: nat) -> Option<Seq<u8>> {
    if is_dec_digits(s) && dec_value(s) < pow256(w) {
        Some(be_of(dec_value(s), w))
    } else {
        None
    }
}

/// Converts a decimal literal to its fixed-width big-endian encoding, or
/// reports `None` when the literal is malformed or its value does not fit.
pub fn fixed_be_from_dec(s: &str, width: usize) -> (r: Option<Vec<u8>>)
    requires
        width >= 1,
    ensures
        match r {
            Some(v) => spec_fixed_dec(s@, width as nat) == Some(v@) && v@.len() == width,
            None => spec_fixed_dec(s@, width as nat) is None,
        },
{
    if !is_decimal_str(s) {
        return None;
    }
    let raw = dec_to_be_bytes(s);
    if raw.len() > width {
        proof {
            lemma_be_value_leading_nonzero(raw@);
            lemma_pow256_mono(width as nat, (raw@.len() - 1) as nat);
        }
        return None;
    }
    let pad: usize = width - raw.len();
    let mut out: Vec<u8> = Vec::new();
    let mut k: usize = 0;
    while k < pad
        invariant
            k <= pad,
            out@.len() == k,
            forall|t: int| 0 <= t < k ==> out@[t] == 0,
        decreases pad - k,
    {
        out.push(0u8);
        k = k + 1;
    }
    let ghost zeros = out@;
    push_all(&mut out, &raw);
    proof {
        lemma_be_value_zero_prefix(zeros, raw@);
        assert(be_value(out@) == dec_value(s@));
        lemma_be_value_bound(out@);
        lemma_be_repr_unique(out@);
    }
    Some(out)
}

/// The wire bytes a G1 point with the given decimal coordinates encodes to.
pub open spec fn spec_g1_dec(x: Seq<char>, y: Seq<char>) -> Option<Seq<u8>> {
    match (spec_fixed_dec(x, 48), spec_fixed_dec(y, 48)) {
        (Some(a), Some(b)) => Some(a + b),
        _ => None,
    }
}

/// The wire bytes a G2 point with the given decimal coordinate pairs encodes
/// to.
pub open spec fn spec_g2_dec(x1: Seq<char>, x2: Seq<char>, y1: Seq<char>, y2: Seq<char>) -> Option<
    Seq<u8>,
> {
    match (spec_fixed_dec(x1, 48), spec_fixed_dec(x2, 48), spec_fixed_dec(y1, 48), spec_fixed_dec(
        y2,
        48,
    )) {
        (Some(a), Some(b), Some(c), Some(d)) => Some(b + a + d + c),
        _ => None,
    }
}

/// Encodes a G1 point from its decimal affine coordinates.
pub fn g1_bytes(x: &str, y: &str) -> (r: Option<Vec<u8>>)
    ensures
        match r {
            Some(v) => spec_g1_dec(x@, y@) == Some(v@) && v@.len() == 96,
            None => spec_g1_dec(x@, y@) is None,
        },
{
    let mut out = match fixed_be_from_dec(x, 48) {
        Some(v) => v,
        None => {
            return None;
        },
    };
    let yb = match fixed_be_from_dec(y, 48) {
        Some(v) => v,
        None => {
            return None;
        },
    };
    push_all(&mut out, &yb);
    Some(out)
}

/// Encodes a G2 point from its decimal affine coordinates, each a pair of
/// base-field elements given first-component first; the fixed encoding
/// writes the second component of each pair first.
pub fn g2_bytes(x1: &str, x2: &str, y1: &str, y2: &str) -> (r: Option<Vec<u8>>)
    ensures
        match r {
            Some(v) => spec_g2_dec(x1@, x2@, y1@, y2@) == Some(v@) && v@.len() == 192,
            None => spec_g2_dec(x1@, x2@, y1@, y2@) is None,
        },
{
    let a = match fixed_be_from_dec(x1, 48) {
        Some(v) => v,
        None => {
            return None;
        },
    };
    let mut out = match fixed_be_from_dec(x2, 48) {
        Some(v) => v,
        None => {
            return None;
        },
    };
    let c = match fixed_be_from_dec(y1, 48) {
        Some(v) => v,
        None => {
            return None;
        },
    };
    let d = match fixed_be_from_dec(y2, 48) {
        Some(v) => v,
        None => {
            return None;
        },
    };
    push_all(&mut out, &a);
    push_all(&mut out, &d);
    push_all(&mut out, &c);
    Some(out)
}

/// Encodes one public signal as a 32-byte big-endian scalar.
pub fn parse_u256_be(signal: &str) -> (r: Option<Vec<u8>>)
    ensures
        match r {
            Some(v) => spec_fixed_dec(signal@, 32) == Some(v@) && v@.len() == 32,
            None => spec_fixed_dec(signal@, 32) is None,
        },
{
    fixed_be_from_dec(signal, 32)
}

/// The lowercase hexadecimal digit for `d`.
pub open spec fn spec_hex_digit(d: int) -> char {
    if d == 0 {
        '0'
    } else if d == 1 {
        '1'
    } else if d == 2 {
        '2'
    } else if d == 3 {
        '3'
    } else if d == 4 {
        '4'
    } else if d == 5 {
        '5'
    } else if d == 6 {
        '6'
    } else if d == 7 {
        '7'
    } else if d == 8 {
        '8'
    } else if d == 9 {
        '9'
    } else if d == 10 {
        'a'
    } else if d == 11 {
        'b'
    } else if d == 12 {
        'c'
    } else if d == 13 {
        'd'
    } else if d == 14 {
        'e'
    } else {
        'f'
    }
}

/// The lowercase hexadecimal spelling of a byte string: two digits per byte.
pub open spec fn spec_hex(b: Seq<u8>) -> Seq<char>
    decreases b.len(),
{
    if b.len() == 0 {
        Seq::empty()
    } else {
        spec_hex(b.drop_last()) + seq![
            spec_hex_digit(b.last() as int / 16),
            spec_hex_digit(b.last() as int % 16),
        ]
    }
}

fn hex_digit_str(d: u8) -> (r: &'static str)
    requires
        d < 16,
    ensures
        r@ =~= seq![spec_hex_digit(d as int)],
{
    proof {
        reveal_strlit("0");
        reveal_strlit("1");
        reveal_strlit("2");
        reveal_strlit("3");
        reveal_strlit("4");
        reveal_strlit("5");
        reveal_strlit("6");
        reveal_strlit("7");
        reveal_strlit("8");
        reveal_strlit("9");
        reveal_strlit("a");
        reveal_strlit("b");
        reveal_strlit("c");
        reveal_strlit("d");
        reveal_strlit("e");
        reveal_strlit("f");
    }
    match d {
        0 => "0",
        1 => "1",
        2 => "2",
        3 => "3",
        4 => "4",
        5 => "5",
        6 => "6",
        7 => "7",
        8 => "8",
        9 => "9",
        10 => "a",
        11 => "b",
        12 => "c",
        13 => "d",
        14 => "e",
        _ => "f",
    }
}

/// Spells a byte string in lowercase hexadecimal.
pub fn hex_encode(b: &Vec<u8>) -> (r: String)
    ensures
        r@ == spec_hex(b@),
{
    let mut out = String::new();
    let mut i: usize = 0;
    while i < b.len()
        invariant
            i <= b@.len(),
            out@ =~= spec_hex(b@.take(i as int)),
        decreases b@.len() - i,
    {
        let byte = b[i];
        out.append(hex_digit_str(byte / 16));
        out.append(hex_digit_str(byte % 16));
        proof {
            assert(b@.take(i + 1).drop_last() =~= b@.take(i as int));
            assert(b@.take(i + 1).last() == b@[i as int]);
            assert(out@ =~= spec_hex(b@.take(i + 1)));
        }
        i = i + 1;
    }
    proof {
        assert(b@.take(b@.len() as int) =~= b@);
    }
    out
}

/// The verification key denoted by the decimal coordinates of a compiler
/// artifact: `alpha` and each `ic` entry give a G1 point as `[x, y, ..]`,
/// and `beta`, `gamma`, `delta` each give a G2 point as
/// `[x1, x2, y1, y2, ..]`.
pub open spec fn spec_vk_model(
    alpha: Seq<Seq<char>>,
    beta: Seq<Seq<char>>,
    gamma: Seq<Seq<char>>,
    delta: Seq<Seq<char>>,
    ic: Seq<Seq<Seq<char>>>,
) -> Option<VkView> {
    if spec_g1_dec(alpha[0], alpha[1]) is Some && spec_g2_dec(
        beta[0],
        beta[1],
        beta[2],
        beta[3],
    ) is Some && spec_g2_dec(gamma[0], gamma[1], gamma[2], gamma[3]) is Some && spec_g2_dec(
        delta[0],
        delta[1],
        delta[2],
        delta[3],
    ) is Some && (forall|i: int|
        0 <= i < ic.len() ==> spec_g1_dec(#[trigger] ic[i][0], ic[i][1]) is Some) {
        Some(
            VkView {
                alpha: spec_g1_dec(alpha[0], alpha[1]).unwrap(),
                beta: spec_g2_dec(beta[0], beta[1], beta[2], beta[3]).unwrap(),
                gamma: spec_g2_dec(gamma[0], gamma[1], gamma[2], gamma[3]).unwrap(),
                delta: spec_g2_dec(delta[0], delta[1], delta[2], delta[3]).unwrap(),
                ic: Seq::new(ic.len(), |i: int| spec_g1_dec(ic[i][0], ic[i][1]).unwrap()),
            },
        )
    } else {
        None
    }
}

/// The proof denoted by the decimal coordinates of a prover artifact.
pub open spec fn spec_proof_model(a: Seq<Seq<char>>, b: Seq<Seq<char>>, c: Seq<Seq<char>>) -> Option<
    ProofView,
> {
    if spec_g1_dec(a[0], a[1]) is Some && spec_g2_dec(b[0], b[1], b[2], b[3]) is Some && spec_g1_dec(
        c[0],
        c[1],
    ) is Some {
        Some(
            ProofView {
                a: spec_g1_dec(a[0], a[1]).unwrap(),
                b: spec_g2_dec(b[0], b[1], b[2], b[3]).unwrap(),
                c: spec_g1_dec(c[0], c[1]).unwrap(),
            },
        )
    } else {
        None
    }
}

/// The signal sequence denoted by a list of decimal literals.
pub open spec fn spec_signals_model(signals: Seq<Seq<char>>) -> Option<Seq<Seq<u8>>> {
    if forall|i: int| 0 <= i < signals.len() ==> spec_fixed_dec(#[trigger] signals[i], 32) is Some {
        Some(Seq::new(signals.len(), |i: int| spec_fixed_dec(signals[i], 32).unwrap()))
    } else {
        None
    }
}

pub proof fn lemma_g1_dec_len(x: Seq<char>, y: Seq<char>)
    requires
        spec_g1_dec(x, y) is Some,
    ensures
        spec_g1_dec(x, y).unwrap().len() == 96,
{
    lemma_be_of_len(dec_value(x), 48);
    lemma_be_of_len(dec_value(y), 48);
}

pub proof fn lemma_g2_dec_len(x1: Seq<char>, x2: Seq<char>, y1: Seq<char>, y2: Seq<char>)
    requires
        spec_g2_dec(x1, x2, y1, y2) is Some,
    ensures
        spec_g2_dec(x1, x2, y1, y2).unwrap().len() == 192,
{
    lemma_be_of_len(dec_value(x1), 48);
    lemma_be_of_len(dec_value(x2), 48);
    lemma_be_of_len(dec_value(y1), 48);
    lemma_be_of_len(dec_value(y2), 48);
}

/// A verification key taken from decimal coordinates decodes from its own
/// canonical encoding back to exactly the denoted points: the offline
/// producer and the decoders agree value for value.
pub proof fn lemma_vk_model_round_trip(
    alpha: Seq<Seq<char>>,
    beta: Seq<Seq<char>>,
    gamma: Seq<Seq<char>>,
    delta: Seq<Seq<char>>,
    ic: Seq<Seq<Seq<char>>>,
)
    requires
        spec_vk_model(alpha, beta, gamma, delta, ic) is Some,
        1 <= ic.len() <= u32::MAX,
    ensures
        spec_parse_vk(spec_vk_bytes(spec_vk_model(alpha, beta, gamma, delta, ic).unwrap()))
            == Some(spec_vk_model(alpha, beta, gamma, delta, ic).unwrap()),
{
    let v = spec_vk_model(alpha, beta, gamma, delta, ic).unwrap();
    lemma_g1_dec_len(alpha[0], alpha[1]);
    lemma_g2_dec_len(beta[0], beta[1], beta[2], beta[3]);
    lemma_g2_dec_len(gamma[0], gamma[1], gamma[2], gamma[3]);
    lemma_g2_dec_len(delta[0], delta[1], delta[2], delta[3]);
    assert forall|i: int| 0 <= i < v.ic.len() implies (#[trigger] v.ic[i]).len() == 96 by {
        assert(spec_g1_dec(ic[i][0], ic[i][1]) is Some);
        lemma_g1_dec_len(ic[i][0], ic[i][1]);
    }
    assert(v.wf());
    lemma_vk_round_trip(v);
}

/// A proof taken from decimal coordinates decodes from its own canonical
/// encoding back to exactly the denoted points.
pub proof fn lemma_proof_model_round_trip(a: Seq<Seq<char>>, b: Seq<Seq<char>>, c: Seq<Seq<char>>)
    requires
        spec_proof_model(a, b, c) is Some,
    ensures
        spec_parse_proof(spec_proof_bytes(spec_proof_model(a, b, c).unwrap())) == Some(
            spec_proof_model(a, b, c).unwrap(),
        ),
{
    let p = spec_proof_model(a, b, c).unwrap();
    lemma_g1_dec_len(a[0], a[1]);
    lemma_g2_dec_len(b[0], b[1], b[2], b[3]);
    lemma_g1_dec_len(c[0], c[1]);
    lemma_proof_round_trip(p);
}

/// A signal list taken from decimal literals decodes from its own canonical
/// encoding back to exactly the denoted values.
pub proof fn lemma_signals_model_round_trip(signals: Seq<Seq<char>>)
    requires
        spec_signals_model(signals) is Some,
        signals.len() <= u32::MAX,
    ensures
        spec_parse_signals(spec_signals_bytes(spec_signals_model(signals).unwrap())) == Some(
            spec_signals_model(signals).unwrap(),
        ),
{
    let s = spec_signals_model(signals).unwrap();
    assert forall|i: int| 0 <= i < s.len() implies (#[trigger] s[i]).len() == 32 by {
        assert(spec_fixed_dec(signals[i], 32) is Some);
        lemma_be_of_len(dec_value(signals[i]), 32);
    }
    assert(signals_wf(s));
    lemma_signals_round_trip(s);
}

/// Emits the canonical hex-encoded verification-key bytes for the decimal
/// coordinates of a compiler artifact, or `None` when a literal is
/// malformed, a value does not fit its field width, or the `ic` count does
/// not match `n_public + 1`.
#[verifier::rlimit(60)]
pub fn vk_hex(
    alpha: &Vec<String>,
    beta: &Vec<String>,
    gamma: &Vec<String>,
    delta: &Vec<String>,
    ic: &Vec<Vec<String>>,
    n_public: usize,
) -> (r: Option<String>)
    requires
        alpha@.len() >= 2,
        beta@.len() >= 4,
        gamma@.len() >= 4,
        delta@.len() >= 4,
        forall|k: int| 0 <= k < ic@.len() ==> (#[trigger] ic@[k])@.len() >= 2,
    ensures
        match spec_vk_model(
            alpha.deep_view(),
            beta.deep_view(),
            gamma.deep_view(),
            delta.deep_view(),
            ic.deep_view(),
        ) {
            Some(v) => if ic@.len() == n_public + 1 && ic@.len() <= u32::MAX {
                r matches Some(h) && h@ == spec_hex(spec_vk_bytes(v))
            } else {
                r is None
            },
            None => r is None,
        },
{
    if !(ic.len() >= 1 && ic.len() - 1 == n_public) {
        return None;
    }
    if ic.len() > u32::MAX as usize {
        return None;
    }
    let ghost icd = ic.deep_view();
    let a = match g1_bytes(alpha[0].as_str(), alpha[1].as_str()) {
        Some(v) => v,
        None => {
            return None;
        },
    };
    let b = match g2_bytes(
        beta[0].as_str(),
        beta[1].as_str(),
        beta[2].as_str(),
        beta[3].as_str(),
    ) {
        Some(v) => v,
        None => {
            return None;
        },
    };
    let g = match g2_bytes(
        gamma[0].as_str(),
        gamma[1].as_str(),
        gamma[2].as_str(),
        gamma[3].as_str(),
    ) {
        Some(v) => v,
        None => {
            return None;
        },
    };
    let d = match g2_bytes(
        delta[0].as_str(),
        delta[1].as_str(),
        delta[2].as_str(),
        delta[3].as_str(),
    ) {
        Some(v) => v,
        None => {
            return None;
        },
    };
    let mut icv: Vec<Vec<u8>> = Vec::new();
    let mut i: usize = 0;
    while i < ic.len()
        invariant
            forall|k: int| 0 <= k < ic@.len() ==> (#[trigger] ic@[k])@.len() >= 2,
            icd == ic.deep_view(),
            i <= ic@.len(),
            icv@.len() == i,
            forall|k: int|
                0 <= k < i ==> spec_g1_dec(icd[k][0], icd[k][1]) == Some((#[trigger] icv@[k])@),
            forall|k: int| 0 <= k < i ==> (#[trigger] icv@[k])@.len() == 96,
        decreases ic@.len() - i,
    {
        let p = match g1_bytes(ic[i][0].as_str(), ic[i][1].as_str()) {
            Some(v) => v,
            None => {
                proof {
                    assert(spec_g1_dec(icd[i as int][0], icd[i as int][1]) is None);
                }
                return None;
            },
        };
        icv.push(p);
        i = i + 1;
    }
    let vk = VerificationKey { alpha: a, beta: b, gamma: g, delta: d, ic: icv };
    proof {
        assert forall|k: int| 0 <= k < icd.len() implies spec_g1_dec(
            #[trigger] icd[k][0],
            icd[k][1],
        ) is Some by {
            assert(spec_g1_dec(icd[k][0], icd[k][1]) == Some(icv@[k]@));
        }
        let model = spec_vk_model(
            alpha.deep_view(),
            beta.deep_view(),
            gamma.deep_view(),
            delta.deep_view(),
            icd,
        );
        assert(model is Some);
        assert(vk@.ic =~~= model.unwrap().ic);
        assert(vk@ == model.unwrap());
        assert(vk@.wf());
    }
    let bytes = vk_to_bytes(&vk);
    Some(hex_encode(&bytes))
}

/// Emits the canonical hex-encoded proof bytes for the decimal coordinates
/// of a prover artifact, or `None` when a literal is malformed or a value
/// does not fit its field width.
pub fn proof_hex(pi_a: &Vec<String>, pi_b: &Vec<String>, pi_c: &Vec<String>) -> (r: Option<String>)
    requires
        pi_a@.len() >= 2,
        pi_b@.len() >= 4,
        pi_c@.len() >= 2,
    ensures
        match spec_proof_model(pi_a.deep_view(), pi_b.deep_view(), pi_c.deep_view()) {
            Some(p) => r matches Some(h) && h@ == spec_hex(spec_proof_bytes(p)),
            None => r is None,
        },
{
    let a = match g1_bytes(pi_a[0].as_str(), pi_a[1].as_str()) {
        Some(v) => v,
        None => {
            return None;
        },
    };
    let b = match g2_bytes(
        pi_b[0].as_str(),
        pi_b[1].as_str(),
        pi_b[2].as_str(),
        pi_b[3].as_str(),
    ) {
        Some(v) => v,
        None => {
            return None;
        },
    };
    let c = match g1_bytes(pi_c[0].as_str(), pi_c[1].as_str()) {
        Some(v) => v,
        None => {
            return None;
        },
    };
    let p = Proof { a, b, c };
    proof {
        assert(p@ == spec_proof_model(pi_a.deep_view(), pi_b.deep_view(), pi_c.deep_view()).unwrap());
    }
    let bytes = proof_to_bytes(&p);
    Some(hex_encode(&bytes))
}

/// Emits the canonical hex-encoded public-signal bytes for a list of decimal
/// literals, or `None` when a literal is malformed, a value does not fit 32
/// bytes, or the list cannot be counted by the 4-byte prefix.
pub fn public_hex(signals: &Vec<String>) -> (r: Option<String>)
    ensures
        match spec_signals_model(signals.deep_view()) {
            Some(s) => if signals@.len() <= u32::MAX {
                r matches Some(h) && h@ == spec_hex(spec_signals_bytes(s))
            } else {
                r is None
            },
            None => r is None,
        },
{
    if signals.len() > u32::MAX as usize {
        return None;
    }
    let ghost sd = signals.deep_view();
    let mut sv: Vec<Vec<u8>> = Vec::new();
    let mut i: usize = 0;
    while i < signals.len()
        invariant
            sd == signals.deep_view(),
            i <= signals@.len(),
            sv@.len() == i,
            forall|k: int|
                0 <= k < i ==> spec_fixed_dec(sd[k], 32) == Some((#[trigger] sv@[k])@),
            forall|k: int| 0 <= k < i ==> (#[trigger] sv@[k])@.len() == 32,
        decreases signals@.len() - i,
    {
        let v = match parse_u256_be(signals[i].as_str()) {
            Some(v) => v,
            None => {
                proof {
                    assert(spec_fixed_dec(sd[i as int], 32) is None);
                }
                return None;
            },
        };
        sv.push(v);
        i = i + 1;
    }
    let ps = PublicSignals { pub_signals: sv };
    proof {
        assert forall|k: int| 0 <= k < sd.len() implies spec_fixed_dec(
            #[trigger] sd[k],
            32,
        ) is Some by {
            assert(spec_fixed_dec(sd[k], 32) == Some(sv@[k]@));
        }
        let model = spec_signals_model(sd);
        assert(model is Some);
        assert(ps@ =~~= model.unwrap());
    }
    let bytes = signals_to_bytes(&ps);
    Some(hex_encode(&bytes))
}

} // verus!

