//! Time-based one-time passwords (RFC 6238) for two-factor login:
//! base32 secrets, the six-digit code of a time step, code verification
//! within a window of steps, and the `otpauth://` provisioning URI.
use vstd::prelude::*;
use vstd::arithmetic::power2::*;
use vstd::arithmetic::div_mod::*;
use vstd::bits::*;
use crate::text::{
    chars_eq, chars_of, first_index_of, lemma_first_index_of, push_char, string_of, to_uppercase,
    trim, trim_str, unicode_upper,
};

verus! {

// ================================================================ bit streams

/// Bit `i` (most significant first) of the byte stream `data`, zero past its end.
pub open spec fn data_bit(data: Seq<u8>, i: int) -> nat {
    if 0 <= i < 8 * data.len() {
        ((data[i / 8] as nat) / pow2((7 - i % 8) as nat)) % 2
    } else {
        0
    }
}

/// The number whose binary digits are the stream bits `a .. b`.
pub open spec fn bits_value(data: Seq<u8>, a: int, b: int) -> nat
    decreases b - a,
{
    if b <= a {
        0
    } else {
        2 * bits_value(data, a, b - 1) + data_bit(data, b - 1)
    }
}

proof fn lemma_bits_concat(data: Seq<u8>, a: int, b: int, c: int)
    requires
        a <= b <= c,
    ensures
        bits_value(data, a, c) == bits_value(data, a, b) * pow2((c - b) as nat) + bits_value(data, b, c),
    decreases c - b,
{
    if c == b {
        lemma2_to64();
    } else {
        lemma_bits_concat(data, a, b, c - 1);
        lemma_pow2_unfold((c - b) as nat);
        let x = bits_value(data, a, b);
        let p = pow2((c - 1 - b) as nat);
        assert(2 * (x * p) == x * (2 * p)) by (nonlinear_arith);
    }
}

proof fn lemma_bits_bound(data: Seq<u8>, a: int, b: int)
    requires
        a <= b,
    ensures
        bits_value(data, a, b) < pow2((b - a) as nat),
    decreases b - a,
{
    if b == a {
        lemma2_to64();
    } else {
        lemma_bits_bound(data, a, b - 1);
        lemma_pow2_unfold((b - a) as nat);
        assert(data_bit(data, b - 1) <= 1);
    }
}

proof fn lemma_bits_past_end(data: Seq<u8>, a: int, b: int)
    requires
        8 * data.len() <= a,
    ensures
        bits_value(data, a, b) == 0,
    decreases b - a,
{
    if b > a {
        lemma_bits_past_end(data, a, b - 1);
    }
}

proof fn lemma_byte_bits(data: Seq<u8>, j: int)
    requires
        0 <= j < data.len(),
    ensures
        bits_value(data, 8 * j, 8 * j + 8) == data[j] as nat,
{
    let x = data[j];
    assert forall|t: int| 0 <= t < 8 implies (#[trigger] ((8 * j + t) / 8)) == j && (8 * j + t) % 8
        == t by {
        lemma_fundamental_div_mod_converse(8 * j + t, 8, j, t);
    }
    lemma2_to64();
    let b0 = data_bit(data, 8 * j);
    assert(8 * j / 8 == j && (8 * j) % 8 == 0) by {
        lemma_fundamental_div_mod_converse(8 * j, 8, j, 0);
    }
    assert(((8 * j + 1) / 8) == j && (8 * j + 1) % 8 == 1);
    assert(((8 * j + 2) / 8) == j && (8 * j + 2) % 8 == 2);
    assert(((8 * j + 3) / 8) == j && (8 * j + 3) % 8 == 3);
    assert(((8 * j + 4) / 8) == j && (8 * j + 4) % 8 == 4);
    assert(((8 * j + 5) / 8) == j && (8 * j + 5) % 8 == 5);
    assert(((8 * j + 6) / 8) == j && (8 * j + 6) % 8 == 6);
    assert(((8 * j + 7) / 8) == j && (8 * j + 7) % 8 == 7);
    reveal_with_fuel(bits_value, 9);
    assert(x as nat == (x as nat / 128) % 2 * 128 + (x as nat / 64) % 2 * 64 + (x as nat / 32) % 2 * 32
        + (x as nat / 16) % 2 * 16 + (x as nat / 8) % 2 * 8 + (x as nat / 4) % 2 * 4 + (x as nat
        / 2) % 2 * 2 + (x as nat / 1) % 2) by (nonlinear_arith)
        requires
            x < 256,
    ;
}

// ================================================================ encoding

/// The base32 alphabet of RFC 4648: `A`–`Z` then `2`–`7`.
pub open spec fn b32_char(v: nat) -> char {
    if v < 26 {
        (v + 65) as char
    } else {
        (v + 24) as char
    }
}

/// Digit `k` of the encoding: stream bits `5k .. 5k+5`, zero-padded.
pub open spec fn b32_digit(data: Seq<u8>, k: int) -> nat {
    bits_value(data, 5 * k, 5 * k + 5)
}

/// Number of digits that encode `n` bytes (no `=` padding).
pub open spec fn b32_len(n: nat) -> nat {
    (8 * n + 4) / 5
}

/// Base32 text of `data`: `ceil(8n/5)` digits, the last zero-padded.
pub open spec fn base32_encode_spec(data: Seq<u8>) -> Seq<char> {
    Seq::new(b32_len(data.len()), |k: int| b32_char(b32_digit(data, k)))
}

fn b32_char_exec(v: u32) -> (c: char)
    requires
        v < 32,
    ensures
        c == b32_char(v as nat),
{
    if v < 26 {
        let b: u8 = (v + 65) as u8;
        b as char
    } else {
        let b: u8 = (v + 24) as u8;
        b as char
    }
}

fn pow2_u32(e: u32) -> (r: u32)
    requires
        e < 32,
    ensures
        r as nat == pow2(e as nat),
{
    proof {
        lemma_u32_pow2_no_overflow(e as nat);
        lemma_pow2_pos(e as nat);
        assert(1u32 * pow2(e as nat) <= u32::MAX);
        lemma_u32_shl_is_mul(1, e);
    }
    1u32 << e
}

/// Encodes bytes as unpadded base32 (RFC 4648 alphabet).
pub fn base32_encode(data: &[u8]) -> (out: String)
    ensures
        out@ == base32_encode_spec(data@),
{
    let mut out = String::new();
    let mut buffer: u32 = 0;
    let mut bits: u32 = 0;
    let mut i: usize = 0;
    let n = data.len();
    while i < n
        invariant
            n == data@.len(),
            i <= n,
            bits < 5,
            5 * out@.len() + bits == 8 * i,
            buffer as nat == bits_value(data@, 8 * i - bits, 8 * i as int),
            forall|k: int| 0 <= k < out@.len() ==> out@[k] == b32_char(#[trigger] b32_digit(data@, k)),
        decreases n - i,
    {
        proof {
            lemma_bits_bound(data@, 8 * i - bits, 8 * i as int);
            lemma2_to64();
            lemma_bits_concat(data@, 8 * i - bits, 8 * i as int, 8 * i + 8);
            lemma_byte_bits(data@, i as int);
        }
        buffer = buffer * 256 + data[i] as u32;
        bits = bits + 8;
        while bits >= 5
            invariant
                n == data@.len(),
                i < n,
                bits < 13,
                5 * out@.len() + bits == 8 * (i + 1),
                buffer as nat == bits_value(data@, 8 * (i + 1) - bits, 8 * (i + 1)),
                forall|k: int| 0 <= k < out@.len() ==> out@[k] == b32_char(#[trigger] b32_digit(data@, k)),
            decreases bits,
        {
            let shift = bits - 5;
            let d = pow2_u32(shift);
            let ghost s = 8 * (i + 1) - bits;
            proof {
                lemma_bits_concat(data@, s, s + 5, 8 * (i + 1));
                lemma_bits_bound(data@, s + 5, 8 * (i + 1));
                lemma_bits_bound(data@, s, s + 5);
                lemma_pow2_pos(shift as nat);
                lemma_fundamental_div_mod_converse(
                    buffer as int,
                    d as int,
                    bits_value(data@, s, s + 5) as int,
                    bits_value(data@, s + 5, 8 * (i + 1)) as int,
                );
                lemma2_to64();
                assert(s == 5 * out@.len());
            }
            let idx = buffer / d;
            let c = b32_char_exec(idx);
            let ghost g = out@.len();
            push_char(&mut out, c);
            assert(out@[g as int] == b32_char(b32_digit(data@, g as int)));
            buffer = buffer % d;
            bits = shift;
        }
        i += 1;
    }
    let ghost g = out@.len();
    if bits > 0 {
        let up = pow2_u32(5 - bits);
        proof {
            lemma_bits_bound(data@, 8 * n - bits, 8 * n as int);
            lemma2_to64();
            lemma_bits_concat(data@, 5 * g as int, 8 * n as int, 5 * g as int + 5);
            lemma_bits_past_end(data@, 8 * n as int, 5 * g as int + 5);
            lemma_pow2_adds((bits) as nat, (5 - bits) as nat);
            assert(buffer * pow2((5 - bits) as nat) < pow2(bits as nat) * pow2((5 - bits) as nat)) by (nonlinear_arith)
                requires
                    buffer < pow2(bits as nat),
                    pow2((5 - bits) as nat) > 0,
            ;
        }
        let c = b32_char_exec(buffer * up);
        push_char(&mut out, c);
        assert(out@[g as int] == b32_char(b32_digit(data@, g as int)));
        assert(out@.len() == b32_len(n as nat));
    } else {
        assert(out@.len() == b32_len(n as nat));
    }
    assert(out@ =~= base32_encode_spec(data@));
    out
}

// ================================================================ decoding

/// Value given to one character of a secret.  Upper-case letters and `2`–`7`
/// follow RFC 4648; a lower-case letter counts as its upper-case value plus 26
/// (so values reach 51); any other character counts as 0.
pub open spec fn b32_value(c: char) -> nat {
    if 'a' <= c && c <= 'z' {
        ((c as int) - 97 + 26) as nat
    } else if 'A' <= c && c <= 'Z' {
        ((c as int) - 65) as nat
    } else if '2' <= c && c <= '7' {
        ((c as int) - 50 + 26) as nat
    } else {
        0
    }
}

/// The buffer after shifting in a value: `(acc << 5) | v` for `v < 64`.
pub open spec fn b32_merge(acc: nat, v: nat) -> nat {
    acc * 32 + v % 32 + (if v >= 32 && acc % 2 == 0 {
        32nat
    } else {
        0nat
    })
}

/// Decoder state after the values `vals`: bytes produced, pending bits as a
/// number, and how many bits are pending.
pub open spec fn b32_fold(vals: Seq<nat>) -> (Seq<u8>, nat, nat)
    decreases vals.len(),
{
    if vals.len() == 0 {
        (Seq::empty(), 0, 0)
    } else {
        let prev = b32_fold(vals.drop_last());
        let nb = prev.2 + 5;
        let m = b32_merge(prev.1, vals.last()) % pow2(nb);
        if nb >= 8 {
            (prev.0.push((m / pow2((nb - 8) as nat)) as u8), m % pow2((nb - 8) as nat), (nb - 8) as nat)
        } else {
            (prev.0, m, nb)
        }
    }
}

/// The characters of a secret that are read: those before the first `=`.
pub open spec fn b32_read_part(s: Seq<char>) -> Seq<char> {
    s.subrange(0, first_index_of(s, '='))
}

/// Bytes that `base32_decode` returns for `s`.
pub open spec fn base32_decode_spec(s: Seq<char>) -> Seq<u8> {
    b32_fold(b32_read_part(s).map_values(|c: char| b32_value(c))).0
}

proof fn lemma_b32_fold_bounds(vals: Seq<nat>)
    ensures
        b32_fold(vals).2 < 8,
        b32_fold(vals).1 < pow2(b32_fold(vals).2),
    decreases vals.len(),
{
    if vals.len() > 0 {
        lemma_b32_fold_bounds(vals.drop_last());
        let prev = b32_fold(vals.drop_last());
        let nb = prev.2 + 5;
        lemma_pow2_pos(nb);
        let m = b32_merge(prev.1, vals.last()) % pow2(nb);
        lemma_mod_bound(b32_merge(prev.1, vals.last()) as int, pow2(nb) as int);
        if nb >= 8 {
            lemma_pow2_pos((nb - 8) as nat);
            lemma_mod_bound(m as int, pow2((nb - 8) as nat) as int);
        }
    } else {
        lemma2_to64();
    }
}

fn b32_value_exec(c: char) -> (v: u32)
    ensures
        v as nat == b32_value(c),
        v < 52,
{
    if 'a' <= c && c <= 'z' {
        (c as u32) - 97 + 26
    } else if 'A' <= c && c <= 'Z' {
        (c as u32) - 65
    } else if '2' <= c && c <= '7' {
        (c as u32) - 50 + 26
    } else {
        0
    }
}

proof fn lemma_merge_bits(buffer: u32, v: u32)
    requires
        buffer < 128,
        v < 64,
    ensures
        ((buffer << 5u32) | v) as nat == b32_merge(buffer as nat, v as nat),
{
    assert(((buffer << 5u32) | v) == buffer * 32 + v % 32 + (if v >= 32 && buffer % 2 == 0 {
        32u32
    } else {
        0u32
    })) by (bit_vector)
        requires
            buffer < 128,
            v < 64,
    ;
}

/// Decodes base32 text.  Reading stops at the first `=`; see `b32_value` for
/// the value of each character.  Never fails.
pub fn base32_decode(s: &str) -> (r: Result<Vec<u8>, String>)
    ensures
        r matches Ok(v) && v@ == base32_decode_spec(s@),
{
    let cs = chars_of(s);
    let mut buffer: u32 = 0;
    let mut bits: u32 = 0;
    let mut out: Vec<u8> = Vec::new();
    let mut i: usize = 0;
    proof {
        lemma_first_index_of(s@, '=');
    }
    let ghost stop = first_index_of(s@, '=');
    while i < cs.len()
        invariant
            cs@ == s@,
            stop == first_index_of(s@, '='),
            0 <= stop <= s@.len(),
            forall|j: int| 0 <= j < stop ==> s@[j] != '=',
            stop < s@.len() ==> s@[stop] == '=',
            i <= stop,
            (out@, buffer as nat, bits as nat) == b32_fold(
                s@.subrange(0, i as int).map_values(|c: char| b32_value(c)),
            ),
        ensures
            i == cs.len() || cs@[i as int] == '=',
            i <= stop,
            (out@, buffer as nat, bits as nat) == b32_fold(
                s@.subrange(0, i as int).map_values(|c: char| b32_value(c)),
            ),
        decreases cs.len() - i,
    {
        let c = cs[i];
        if c == '=' {
            break;
        }
        let ghost prev = s@.subrange(0, i as int).map_values(|c: char| b32_value(c));
        let ghost next = s@.subrange(0, i + 1).map_values(|c: char| b32_value(c));
        proof {
            assert(next.drop_last() =~= prev);
            assert(next.last() == b32_value(c));
            lemma_b32_fold_bounds(prev);
            lemma2_to64();
            if bits < 7 {
                lemma_pow2_strictly_increases(bits as nat, 7);
            }
        }
        let v = b32_value_exec(c);
        proof {
            lemma_merge_bits(buffer, v);
            assert(b32_merge(buffer as nat, v as nat) < 8192) by (nonlinear_arith)
                requires
                    buffer < 128,
                    v < 64,
            ;
        }
        let merged = (buffer << 5) | v;
        let m = pow2_u32(bits + 5);
        buffer = merged % m;
        bits = bits + 5;
        if bits >= 8 {
            let d = pow2_u32(bits - 8);
            proof {
                lemma_pow2_pos((bits - 8) as nat);
                lemma_pow2_adds((bits - 8) as nat, 8);
                assert(buffer < pow2((bits - 8) as nat) * 256);
                assert(buffer / d < 256) by (nonlinear_arith)
                    requires
                        buffer < d * 256,
                        d > 0,
                ;
            }
            out.push((buffer / d) as u8);
            buffer = buffer % d;
            bits = bits - 8;
        }
        i += 1;
    }
    proof {
        if i < stop {
            assert(s@[i as int] != '=');
        }
        assert(i == stop);
        assert(s@.subrange(0, i as int) =~= b32_read_part(s@));
    }
    Ok(out)
}

// ================================================================ round trip

proof fn lemma_b32_char_value(v: nat)
    requires
        v < 32,
    ensures
        b32_value(b32_char(v)) == v,
        b32_char(v) != '=',
{
}

/// Decoding the base32 text of any bytes gives back those bytes.
pub proof fn law_base32_round_trip(data: Seq<u8>)
    ensures
        base32_decode_spec(base32_encode_spec(data)) == data,
{
    let text = base32_encode_spec(data);
    let m = text.len();
    assert forall|k: int| 0 <= k < m implies #[trigger] text[k] != '=' by {
        lemma_bits_bound(data, 5 * k, 5 * k + 5);
        lemma2_to64();
        lemma_b32_char_value(b32_digit(data, k));
    }
    lemma_first_index_of(text, '=');
    if first_index_of(text, '=') < m {
        assert(text[first_index_of(text, '=')] == '=');
    }
    assert(b32_read_part(text) =~= text);
    let vals = text.map_values(|c: char| b32_value(c));
    lemma_fold_digits(data, vals, m as int);
    assert(vals.subrange(0, m as int) =~= vals);
    let e = 8 * ((5 * m) / 8);
    assert((5 * m) / 8 == data.len()) by {
        let n = data.len();
        assert(m == (8 * n + 4) / 5);
        lemma_fundamental_div_mod(8 * n as int + 4, 5);
        lemma_fundamental_div_mod(5 * m as int, 8);
        assert(5 * m <= 8 * n + 4 && 5 * m >= 8 * n);
        if (5 * m) / 8 < n {
            assert(8 * ((5 * m) / 8) + (5 * m) % 8 < 8 * n) by (nonlinear_arith)
                requires
                    (5 * m) / 8 < n,
                    (5 * m) % 8 < 8,
            ;
        }
        if (5 * m) / 8 > n {
            assert(8 * ((5 * m) / 8) >= 8 * n + 8) by (nonlinear_arith)
                requires
                    (5 * m) / 8 > n,
            ;
        }
    }
    assert(data.subrange(0, data.len() as int) =~= data);
}

proof fn lemma_fold_digits(data: Seq<u8>, vals: Seq<nat>, k: int)
    requires
        vals.len() == b32_len(data.len()),
        forall|j: int| 0 <= j < vals.len() ==> #[trigger] vals[j] == b32_value(b32_char(b32_digit(data, j))),
        0 <= k <= vals.len(),
    ensures
        ({
            let st = b32_fold(vals.subrange(0, k));
            let e = 8 * ((5 * k) / 8);
            &&& st.0 == data.subrange(0, (5 * k) / 8)
            &&& st.1 == bits_value(data, e, 5 * k)
            &&& st.2 == 5 * k - e
            &&& e <= 5 * k < e + 8
        }),
    decreases k,
{
    lemma_fundamental_div_mod(5 * k, 8);
    if k == 0 {
        assert(vals.subrange(0, 0) =~= Seq::<nat>::empty());
        assert(data.subrange(0, 0) =~= Seq::<u8>::empty());
    } else {
        lemma_fold_digits(data, vals, k - 1);
        let pv = vals.subrange(0, k - 1);
        let cv = vals.subrange(0, k);
        assert(cv.drop_last() =~= pv);
        let prev = b32_fold(pv);
        let e = 8 * ((5 * (k - 1)) / 8);
        lemma_fundamental_div_mod(5 * (k - 1), 8);
        lemma_bits_bound(data, 5 * (k - 1), 5 * k);
        lemma2_to64();
        lemma_b32_char_value(b32_digit(data, k - 1));
        let v = cv.last();
        assert(v == b32_digit(data, k - 1));
        assert(v < 32);
        lemma_bits_concat(data, e, 5 * (k - 1), 5 * k);
        assert(pow2(5) == 32);
        let nb = prev.2 + 5;
        assert(nb == 5 * k - e);
        let whole = bits_value(data, e, 5 * k);
        assert(b32_merge(prev.1, v) == whole);
        lemma_bits_bound(data, e, 5 * k);
        lemma_pow2_pos(nb);
        lemma_small_mod(whole, pow2(nb));
        let n = data.len();
        assert(5 * vals.len() < 8 * n + 5) by {
            lemma_fundamental_div_mod(8 * n as int + 4, 5);
        }
        if nb >= 8 {
            lemma_bits_concat(data, e, e + 8, 5 * k);
            lemma_bits_bound(data, e + 8, 5 * k);
            lemma_pow2_pos((nb - 8) as nat);
            lemma_fundamental_div_mod_converse(
                whole as int,
                pow2((nb - 8) as nat) as int,
                bits_value(data, e, e + 8) as int,
                bits_value(data, e + 8, 5 * k) as int,
            );
            let q = (5 * (k - 1)) / 8;
            assert(e == 8 * q);
            assert(e + 8 <= 8 * n) by {
                assert(e + 8 <= 5 * k);
                assert(5 * k <= 5 * vals.len());
                assert(8 * (q + 1) < 8 * n + 5);
                if q + 1 > n {
                    assert(8 * (q + 1) >= 8 * n + 8) by (nonlinear_arith)
                        requires
                            q + 1 > n,
                    ;
                }
            }
            lemma_byte_bits(data, q);
            assert((5 * k) / 8 == q + 1) by {
                lemma_fundamental_div_mod_converse(5 * k, 8, q + 1, 5 * k - 8 * (q + 1));
            }
            assert(data.subrange(0, q + 1) =~= data.subrange(0, q).push(data[q]));
        } else {
            let q = (5 * (k - 1)) / 8;
            assert((5 * k) / 8 == q) by {
                lemma_fundamental_div_mod_converse(5 * k, 8, q, 5 * k - 8 * q);
            }
        }
    }
}

// ================================================================ codes

/// Name of HMAC-SHA1 of `msg` under `key` (RFC 2104 with SHA-1).
pub uninterp spec fn hmac_sha1_spec(key: Seq<u8>, msg: Seq<u8>) -> Seq<u8>;

/// HMAC-SHA1 through OpenSSL (`PKey::hmac`, `Signer::new(MessageDigest::sha1())`,
/// `update`, `sign_to_vec`).  When OpenSSL produces a signature it is the
/// HMAC-SHA1 of the message, named `hmac_sha1_spec`, 20 bytes long (the SHA-1
/// output size).  `None` where OpenSSL reports an error; the conditions under
/// which it does are not stated here.  `PKey::hmac` asserts that the key
/// length fits a C `int`, so longer keys are not handed to it.
#[verifier::external_body]
fn hmac_sha1(key: &[u8], msg: &[u8]) -> (r: Option<Vec<u8>>)
    requires
        key@.len() <= i32::MAX,
    ensures
        r matches Some(d) ==> d@ == hmac_sha1_spec(key@, msg@) && d@.len() == 20,
{
    let pkey = openssl::pkey::PKey::hmac(key).ok()?;
    let mut signer = openssl::sign::Signer::new(openssl::hash::MessageDigest::sha1(), &pkey).ok()?;
    signer.update(msg).ok()?;
    signer.sign_to_vec().ok()
}

/// The 8-byte big-endian encoding of a time step.
pub open spec fn step_bytes(step: u64) -> Seq<u8> {
    Seq::new(8, |i: int| ((step as nat / pow2((8 * (7 - i)) as nat)) % 256) as u8)
}

/// Dynamic truncation of RFC 4226 applied to a 20-byte digest, reduced to six digits.
pub open spec fn truncate_code(d: Seq<u8>) -> nat {
    let off = ((d[19] as nat) % 16) as int;
    (((d[off] as nat) % 128) * 16777216 + (d[off + 1] as nat) * 65536 + (d[off + 2] as nat) * 256
        + (d[off + 3] as nat)) % 1000000
}

/// A number below one million written as exactly six decimal digits.
pub open spec fn six_digits(n: nat) -> Seq<char> {
    Seq::new(6, |i: int| ((n / pow10((5 - i) as nat)) % 10 + 48) as char)
}

/// 10 to the power `e`.
pub open spec fn pow10(e: nat) -> nat
    decreases e,
{
    if e == 0 {
        1
    } else {
        10 * pow10((e - 1) as nat)
    }
}

/// The TOTP code of `secret` at time step `step`.
pub open spec fn totp_spec(secret: Seq<u8>, step: u64) -> Seq<char> {
    six_digits(truncate_code(hmac_sha1_spec(secret, step_bytes(step))))
}

fn step_to_bytes(step: u64) -> (msg: Vec<u8>)
    ensures
        msg@ == step_bytes(step),
{
    let mut msg: Vec<u8> = Vec::new();
    let mut i: u64 = 0;
    while i < 8
        invariant
            i <= 8,
            msg@.len() == i,
            forall|j: int| 0 <= j < i ==> #[trigger] msg@[j] == step_bytes(step)[j],
        decreases 8 - i,
    {
        let sh = 8 * (7 - i);
        proof {
            lemma_u64_shr_is_div(step, sh);
            assert((step >> sh) & 0xFF == (step >> sh) % 256) by (bit_vector);
        }
        let b = ((step >> sh) & 0xFF) as u8;
        msg.push(b);
        i += 1;
    }
    assert(msg@ =~= step_bytes(step));
    msg
}

fn six_digit_string(n: u32) -> (s: String)
    requires
        n < 1000000,
    ensures
        s@ == six_digits(n as nat),
{
    let mut s = String::new();
    let mut div: u32 = 100000;
    let mut i: u32 = 0;
    proof {
        reveal_with_fuel(pow10, 7);
    }
    while i < 6
        invariant
            i <= 6,
            s@.len() == i,
            i < 6 ==> div as nat == pow10((5 - i) as nat),
            div > 0,
            forall|j: int| 0 <= j < i ==> #[trigger] s@[j] == six_digits(n as nat)[j],
        decreases 6 - i,
    {
        proof {
            reveal_with_fuel(pow10, 7);
        }
        let digit = (n / div) % 10;
        let c: u8 = (digit + 48) as u8;
        let ghost before = s@;
        push_char(&mut s, c as char);
        assert(s@[i as int] == six_digits(n as nat)[i as int]);
        if i < 5 {
            div = div / 10;
        }
        i += 1;
    }
    assert(s@ =~= six_digits(n as nat));
    s
}

/// The six-digit TOTP code (HMAC-SHA1, 30-second steps) of `secret` at `step`.
/// `None` where OpenSSL reports an error computing the HMAC, or where the
/// secret is longer than OpenSSL takes a key (`i32::MAX` bytes).
pub fn totp(secret: &[u8], step: u64) -> (r: Option<String>)
    ensures
        r matches Some(code) ==> code@ == totp_spec(secret@, step),
        secret@.len() > i32::MAX ==> r is None,
{
    let msg = step_to_bytes(step);
    if secret.len() > 2147483647 {
        return None;
    }
    let digest = match hmac_sha1(secret, &msg) {
        Some(d) => d,
        None => return None,
    };
    let code = code_of_digest(&digest);
    Some(six_digit_string(code))
}

/// The number that RFC 4226 dynamic truncation yields for a 20-byte digest.
pub fn code_of_digest(digest: &Vec<u8>) -> (code: u32)
    requires
        digest@.len() == 20,
    ensures
        code as nat == truncate_code(digest@),
        code < 1000000,
{
    let offset = (digest[19] & 0x0F) as usize;
    proof {
        let x = digest@[19];
        assert(x & 0x0F == x % 16) by (bit_vector);
    }
    let b0 = digest[offset] as u32;
    let b1 = digest[offset + 1] as u32;
    let b2 = digest[offset + 2] as u32;
    let b3 = digest[offset + 3] as u32;
    proof {
        assert(((b0 & 0x7F) << 24u32) | (b1 << 16u32) | (b2 << 8u32) | b3 == (b0 % 128) * 16777216 + b1
            * 65536 + b2 * 256 + b3) by (bit_vector)
            requires
                b0 < 256,
                b1 < 256,
                b2 < 256,
                b3 < 256,
        ;
    }
    let bin_code = ((b0 & 0x7F) << 24) | (b1 << 16) | (b2 << 8) | b3;
    bin_code % 1_000_000u32
}

// ================================================================ clock

/// Seconds since the Unix epoch from the system clock (`SystemTime::now`,
/// `duration_since(UNIX_EPOCH)`, `as_secs`), 0 when the clock reads earlier
/// than the epoch.  The value depends on the time of the call: nothing is
/// stated of it.
#[verifier::external_body]
pub(crate) fn unix_now_secs() -> u64 {
    std::time::SystemTime::now().duration_since(std::time::UNIX_EPOCH).map(|d| d.as_secs()).unwrap_or(0)
}

/// The current 30-second TOTP time step.
pub fn current_step() -> (step: u64)
    ensures
        exists|secs: u64| step == #[trigger] step_spec(secs),
{
    let secs = unix_now_secs();
    let step = step_of(secs);
    assert(step == step_spec(secs));
    step
}

/// The 30-second time step of a Unix time in seconds.
pub open spec fn step_spec(secs: u64) -> u64 {
    secs / 30
}

/// The time step of a Unix time in seconds.
pub fn step_of(secs: u64) -> (step: u64)
    ensures
        step == secs / 30,
{
    secs / 30
}

// ================================================================ verification

/// The secret bytes that a stored base32 secret decodes to.
pub open spec fn secret_bytes(secret_b32: Seq<char>) -> Seq<u8> {
    base32_decode_spec(unicode_upper(trim(secret_b32)))
}

/// `code` (trimmed) equals the TOTP code of `secret` at step `step - w` or `step + w`.
pub open spec fn matches_at(secret: Seq<u8>, code: Seq<char>, step: u64, w: int) -> bool {
    totp_spec(secret, (step - w) as u64) == trim(code) || totp_spec(secret, (step + w) as u64) == trim(
        code,
    )
}

/// `code` (trimmed) equals the TOTP code of `secret` at some step `step - w`
/// or `step + w` with `w <= window`.
pub open spec fn code_matches(secret: Seq<u8>, code: Seq<char>, window: u64, step: u64) -> bool {
    exists|w: int| 0 <= w <= window && #[trigger] matches_at(secret, code, step, w)
}

/// The `i`-th of a list of computed codes is present and equals `want`.
pub open spec fn code_at(codes: Seq<Option<String>>, i: int, want: Seq<char>) -> bool {
    codes[i] matches Some(c) && c@ == want
}

/// Whether one of the computed codes equals `code` with surrounding
/// whitespace removed.  An entry that could not be computed (`None`)
/// equals nothing.
pub fn code_listed(codes: &Vec<Option<String>>, code: &str) -> (r: bool)
    ensures
        r <==> exists|i: int| 0 <= i < codes@.len() && #[trigger] code_at(codes@, i, trim(code@)),
{
    let want = trim_str(code);
    let mut i: usize = 0;
    while i < codes.len()
        invariant
            i <= codes@.len(),
            want@ == trim(code@),
            forall|j: int| 0 <= j < i ==> !#[trigger] code_at(codes@, j, want@),
        decreases codes.len() - i,
    {
        match &codes[i] {
            Some(c) => {
                if chars_eq(&chars_of(c.as_str()), &want) {
                    assert(code_at(codes@, i as int, want@));
                    return true;
                }
            },
            None => {},
        }
        i += 1;
    }
    false
}

/// The codes of a window check, two per distance `v`: entry `2v` is the code
/// at step `step - v`, entry `2v + 1` the code at `step + v`, where computed.
pub open spec fn window_pair(codes: Seq<Option<String>>, secret: Seq<u8>, step: u64, v: int) -> bool {
    &&& codes[2 * v] matches Some(c) ==> c@ == totp_spec(secret, (step - v) as u64)
    &&& codes[2 * v + 1] matches Some(c) ==> c@ == totp_spec(secret, (step + v) as u64)
}

/// Checks `code` against the secret at the steps `step - window ..= step + window`:
/// whether the trimmed code equals the code of one of them.  None where
/// OpenSSL failed to compute a code and none of the others matched, which is
/// always so for a secret longer than OpenSSL takes a key.
pub fn verify_code_at(secret_b32: &str, code: &str, window: u64, step: u64) -> (r: Option<bool>)
    requires
        window <= step,
        step + window <= u64::MAX,
    ensures
        r matches Some(ok) ==> ok == code_matches(secret_bytes(secret_b32@), code@, window, step),
        secret_bytes(secret_b32@).len() > i32::MAX ==> r is None,
{
    let trimmed = string_of(&trim_str(secret_b32));
    let upper = to_uppercase(trimmed.as_str());
    let secret = match base32_decode(upper.as_str()) {
        Ok(s) => s,
        Err(_) => return Some(false),
    };
    let mut codes: Vec<Option<String>> = Vec::new();
    let mut w: u64 = 0;
    while w <= window
        invariant
            w <= window + 1,
            window <= step,
            step + window <= u64::MAX,
            secret@ == secret_bytes(secret_b32@),
            codes@.len() == 2 * w,
            forall|v: int| 0 <= v < w ==> #[trigger] window_pair(codes@, secret@, step, v),
            secret@.len() > i32::MAX ==> forall|i: int| 0 <= i < codes@.len() ==> #[trigger] codes@[i] is None,
        decreases window + 1 - w,
    {
        let s = if w == 0 {
            step
        } else {
            step - w
        };
        let ghost before = codes@;
        codes.push(totp(&secret, s));
        codes.push(totp(&secret, step + w));
        assert forall|v: int| 0 <= v <= w implies #[trigger] window_pair(codes@, secret@, step, v) by {
            if v < w {
                assert(window_pair(before, secret@, step, v));
                assert(codes@[2 * v] == before[2 * v]);
                assert(codes@[2 * v + 1] == before[2 * v + 1]);
            }
        }
        w += 1;
    }
    if code_listed(&codes, code) {
        proof {
            let i = choose|i: int| 0 <= i < codes@.len() && #[trigger] code_at(codes@, i, trim(code@));
            let v = i / 2;
            assert(i == 2 * v || i == 2 * v + 1);
            assert(window_pair(codes@, secret@, step, v));
            assert(matches_at(secret@, code@, step, v));
        }
        return Some(true);
    }
    let mut k: usize = 0;
    while k < codes.len()
        invariant
            k <= codes@.len(),
            forall|i: int| 0 <= i < k ==> #[trigger] codes@[i] is Some,
        decreases codes.len() - k,
    {
        if codes[k].is_none() {
            return None;
        }
        k += 1;
    }
    assert(codes@[0] is Some);
    assert(!code_matches(secret@, code@, window, step)) by {
        assert forall|v: int| 0 <= v <= window implies !#[trigger] matches_at(secret@, code@, step, v) by {
            assert(window_pair(codes@, secret@, step, v));
            assert(codes@[2 * v] is Some);
            assert(codes@[2 * v + 1] is Some);
            assert(!code_at(codes@, 2 * v, trim(code@)));
            assert(!code_at(codes@, 2 * v + 1, trim(code@)));
        }
    }
    Some(false)
}

/// Whether `code` is accepted at the time step `step` with a window of
/// `window` steps either side: false where the window leaves the range of
/// time steps.
pub open spec fn accepted_at(secret_b32: Seq<char>, code: Seq<char>, window: u64, step: u64) -> bool {
    window <= step && step + window <= u64::MAX && code_matches(secret_bytes(secret_b32), code, window, step)
}

/// Checks a code at the Unix time `now_secs` (seconds): against its 30-second
/// time step `now_secs / 30`, with a window of `window` steps either side.
/// The answer is whether the code is accepted at that step; none where
/// OpenSSL failed to compute a code.
pub fn verify_code_at_time(secret_b32: &str, code: &str, window: u64, now_secs: u64) -> (r: Option<bool>)
    ensures
        r matches Some(ok) ==> ok == accepted_at(secret_b32@, code@, window, now_secs / 30),
        r is None ==> window <= now_secs / 30 && now_secs / 30 + window <= u64::MAX,
        verify_outcome(r, secret_b32@, code@, window, now_secs / 30),
{
    let step = step_of(now_secs);
    if window > step || window > u64::MAX - step {
        return Some(false);
    }
    verify_code_at(secret_b32, code, window, step)
}

/// Checks a code against the current time step with a window of `window`
/// steps either side: the answer for the 30-second step of the Unix time that
/// the clock gives, none where OpenSSL failed to compute a code.
pub fn verify_code(secret_b32: &str, code: &str, window: u64) -> (r: Option<bool>)
    ensures
        exists|secs: u64| #[trigger] verify_outcome(r, secret_b32@, code@, window, step_spec(secs)),
{
    let secs = unix_now_secs();
    let r = verify_code_at_time(secret_b32, code, window, secs);
    assert(verify_outcome(r, secret_b32@, code@, window, step_spec(secs)));
    r
}

/// What a check at the time step `step` may answer: whether the code is
/// accepted there, or none (an OpenSSL failure) where the window fits.
pub open spec fn verify_outcome(r: Option<bool>, secret_b32: Seq<char>, code: Seq<char>, window: u64, step: u64) -> bool {
    match r {
        Some(ok) => ok == accepted_at(secret_b32, code, window, step),
        None => window <= step && step + window <= u64::MAX,
    }
}

proof fn lemma_trim_start_append(code: Seq<char>, q: Seq<char>)
    requires
        crate::text::trim_start(code).len() > 0,
    ensures
        crate::text::trim_start(code + q) == crate::text::trim_start(code) + q,
    decreases code.len(),
{
    let x = code + q;
    assert(x[0] == code[0]);
    if crate::text::is_ws(code[0]) {
        assert(x.drop_first() =~= code.drop_first() + q);
        lemma_trim_start_append(code.drop_first(), q);
    }
}

proof fn lemma_trim_start_empty(code: Seq<char>)
    requires
        crate::text::trim_start(code).len() == 0,
    ensures
        forall|i: int| 0 <= i < code.len() ==> crate::text::is_ws(#[trigger] code[i]),
    decreases code.len(),
{
    if code.len() > 0 {
        lemma_trim_start_empty(code.drop_first());
        assert forall|i: int| 0 <= i < code.len() implies crate::text::is_ws(#[trigger] code[i]) by {
            if i > 0 {
                assert(code[i] == code.drop_first()[i - 1]);
            }
        }
    }
}

proof fn lemma_trim_padding(code: Seq<char>, pre: Seq<char>, post: Seq<char>)
    requires
        forall|i: int| 0 <= i < pre.len() ==> crate::text::is_ws(#[trigger] pre[i]),
        forall|i: int| 0 <= i < post.len() ==> crate::text::is_ws(#[trigger] post[i]),
    ensures
        trim(pre + code + post) == trim(code),
{
    let y = code + post;
    let x = pre + code + post;
    assert(x =~= pre + y);
    crate::text::lemma_trim_start_skip(x, pre.len() as int);
    assert(x.subrange(pre.len() as int, x.len() as int) =~= y);
    if crate::text::trim_start(code).len() > 0 {
        lemma_trim_start_append(code, post);
        let t = crate::text::trim_start(code);
        crate::text::lemma_trim_end_cut(t + post, t.len() as int);
        assert((t + post).subrange(0, t.len() as int) =~= t);
    } else {
        lemma_trim_start_empty(code);
        crate::text::lemma_trim_start_skip(y, y.len() as int);
        assert(y.subrange(y.len() as int, y.len() as int) =~= Seq::<char>::empty());
        crate::text::lemma_trim_start_skip(code, code.len() as int);
        assert(code.subrange(code.len() as int, code.len() as int) =~= Seq::<char>::empty());
    }
}

/// Whitespace around a code does not change whether it is accepted.
pub proof fn law_code_padding(secret: Seq<u8>, code: Seq<char>, pre: Seq<char>, post: Seq<char>, window: u64, step: u64)
    requires
        forall|i: int| 0 <= i < pre.len() ==> crate::text::is_ws(#[trigger] pre[i]),
        forall|i: int| 0 <= i < post.len() ==> crate::text::is_ws(#[trigger] post[i]),
    ensures
        code_matches(secret, pre + code + post, window, step) == code_matches(secret, code, window, step),
{
    let x = pre + code + post;
    lemma_trim_padding(code, pre, post);
    if code_matches(secret, x, window, step) {
        let w = choose|w: int| 0 <= w <= window && #[trigger] matches_at(secret, x, step, w);
        assert(matches_at(secret, code, step, w));
    }
    if code_matches(secret, code, window, step) {
        let w = choose|w: int| 0 <= w <= window && #[trigger] matches_at(secret, code, step, w);
        assert(matches_at(secret, x, step, w));
    }
}

/// Whitespace around a stored secret does not change the key it gives.
pub proof fn law_secret_padding(secret_b32: Seq<char>, pre: Seq<char>, post: Seq<char>)
    requires
        forall|i: int| 0 <= i < pre.len() ==> crate::text::is_ws(#[trigger] pre[i]),
        forall|i: int| 0 <= i < post.len() ==> crate::text::is_ws(#[trigger] post[i]),
    ensures
        secret_bytes(pre + secret_b32 + post) == secret_bytes(secret_b32),
{
    lemma_trim_padding(secret_b32, pre, post);
}

/// A code accepted with one window is accepted with any wider one.
pub proof fn law_window_monotone(secret: Seq<u8>, code: Seq<char>, window: u64, wider: u64, step: u64)
    requires
        window <= wider,
        code_matches(secret, code, window, step),
    ensures
        code_matches(secret, code, wider, step),
{
    let w = choose|w: int| 0 <= w <= window && #[trigger] matches_at(secret, code, step, w);
    assert(0 <= w <= wider && matches_at(secret, code, step, w));
}

// ================================================================ provisioning

/// Characters that the provisioning URI escapes.
pub open spec fn uri_escaped(c: char) -> bool {
    c == ' ' || c == '/' || c == ':' || c == ';' || c == '=' || c == '?' || c == '&'
}

/// Upper-case hexadecimal digit.
pub open spec fn hex_digit(v: nat) -> char {
    if v < 10 {
        (v + 48) as char
    } else {
        (v + 55) as char
    }
}

/// One character as it appears in the URI.
pub open spec fn uri_char(c: char) -> Seq<char> {
    if uri_escaped(c) {
        seq!['%', hex_digit((c as nat) / 16), hex_digit((c as nat) % 16)]
    } else {
        seq![c]
    }
}

/// Escaping of a label or issuer for the URI.
pub open spec fn uri_encode(s: Seq<char>) -> Seq<char>
    decreases s.len(),
{
    if s.len() == 0 {
        Seq::empty()
    } else {
        uri_encode(s.drop_last()) + uri_char(s.last())
    }
}

fn hex_digit_exec(v: u32) -> (c: char)
    requires
        v < 16,
    ensures
        c == hex_digit(v as nat),
{
    if v < 10 {
        ((v + 48) as u8) as char
    } else {
        ((v + 55) as u8) as char
    }
}

/// Escapes space and `/ : ; = ? &` as `%XX`.
pub fn standard_encode(s: &str) -> (r: String)
    ensures
        r@ == uri_encode(s@),
{
    let cs = chars_of(s);
    let mut out: Vec<char> = Vec::new();
    let mut i: usize = 0;
    while i < cs.len()
        invariant
            i <= cs.len(),
            cs@ == s@,
            out@ == uri_encode(s@.subrange(0, i as int)),
        decreases cs.len() - i,
    {
        let c = cs[i];
        let ghost before = out@;
        if c == ' ' || c == '/' || c == ':' || c == ';' || c == '=' || c == '?' || c == '&' {
            let code = c as u32;
            out.push('%');
            out.push(hex_digit_exec(code / 16));
            out.push(hex_digit_exec(code % 16));
        } else {
            out.push(c);
        }
        assert(s@.subrange(0, i + 1).drop_last() =~= s@.subrange(0, i as int));
        assert(out@ =~= before + uri_char(c));
        i += 1;
    }
    assert(s@.subrange(0, cs.len() as int) =~= s@);
    string_of(&out)
}

/// The `otpauth://` URI that authenticator apps scan.
pub open spec fn provisioning_uri_spec(secret_b32: Seq<char>, label: Seq<char>, issuer: Seq<char>) -> Seq<char> {
    "otpauth://totp/"@ + uri_encode(label) + "?secret="@ + secret_b32 + "&issuer="@ + uri_encode(issuer)
        + "&period=30&digits=6&algorithm=SHA1"@
}

pub fn provisioning_uri(secret_b32: &str, label: &str, issuer: &str) -> (r: String)
    ensures
        r@ == provisioning_uri_spec(secret_b32@, label@, issuer@),
{
    let encoded = standard_encode(label);
    let issuer_enc = standard_encode(issuer);
    let mut out = String::new();
    out.append("otpauth://totp/");
    out.append(encoded.as_str());
    out.append("?secret=");
    out.append(secret_b32);
    out.append("&issuer=");
    out.append(issuer_enc.as_str());
    out.append("&period=30&digits=6&algorithm=SHA1");
    assert(out@ =~= provisioning_uri_spec(secret_b32@, label@, issuer@));
    out
}

// ================================================================ laws of verification

/// The code an authenticator shows for the current step is accepted,
/// whatever the window.
pub proof fn law_current_code_accepted(secret: Seq<u8>, code: Seq<char>, window: u64, step: u64)
    requires
        trim(code) == totp_spec(secret, step),
    ensures
        code_matches(secret, code, window, step),
{
    assert(matches_at(secret, code, step, 0));
}

/// A clock that drifts by at most the window, either way, is tolerated:
/// the code of any step within `window` of the current one is accepted.
pub proof fn law_drift_tolerated(secret: Seq<u8>, code: Seq<char>, window: u64, step: u64, d: u64, later: bool)
    requires
        d <= window,
        d <= step,
        step + d <= u64::MAX,
        trim(code) == totp_spec(secret, (if later { step + d } else { step - d }) as u64),
    ensures
        code_matches(secret, code, window, step),
{
    assert(matches_at(secret, code, step, d as int));
}

/// A code of six decimal digits has no surrounding whitespace.
proof fn lemma_six_digits_trimmed(n: nat)
    ensures
        trim(six_digits(n)) == six_digits(n),
{
    let d = six_digits(n);
    let m0 = (n / pow10(5)) % 10;
    let m5 = (n / pow10(0)) % 10;
    assert(d[0] == (m0 + 48) as char);
    assert(d[5] == (m5 + 48) as char);
    assert(!crate::text::is_ws(d[0]));
    assert(!crate::text::is_ws(d.last()));
    assert(crate::text::trim_start(d) == d);
    assert(crate::text::trim_end(d) == d);
}

/// The code that an authenticator shows at the Unix time `secs`, the code of
/// the clock's 30-second step `secs / 30`, is accepted at that time, and a
/// check at that time answers nothing else: a computed answer is `true`.
pub proof fn law_clock_code_accepted(secret_b32: Seq<char>, secs: u64, window: u64)
    requires
        window <= secs / 30,
        secs / 30 + window <= u64::MAX,
    ensures
        ({
            let code = totp_spec(secret_bytes(secret_b32), (secs / 30) as u64);
            &&& accepted_at(secret_b32, code, window, secs / 30)
            &&& forall|r: Option<bool>| #[trigger] verify_outcome(r, secret_b32, code, window, secs / 30) ==> r != Some(false)
        }),
{
    let step = (secs / 30) as u64;
    let code = totp_spec(secret_bytes(secret_b32), step);
    lemma_six_digits_trimmed(truncate_code(hmac_sha1_spec(secret_bytes(secret_b32), step_bytes(step))));
    assert(matches_at(secret_bytes(secret_b32), code, step, 0));
}

} // verus!
