//! BARE-style binary primitives: variable-length unsigned integers and
//! length-prefixed byte strings.
//!
//! The wire forms are fixed by spec-level encoders (`varint_enc`,
//! `bytes_enc`) and spec-level decoders (`varint_dec`, `bytes_dec`); the
//! executable readers and writers are proved to match them exactly.
//! Decoders return `None` on truncation or on a length that would read
//! past the end of the buffer; they never fail in any other way.

use vstd::assert_seqs_equal;
use vstd::string::StringSliceAdditionalSpecFns;
use vstd::prelude::*;

verus! {

/// Wire form of an unsigned integer: seven value bits per byte, least
/// significant group first, high bit set on every byte but the last.
pub open spec fn varint_enc(n: nat) -> Seq<u8>
    decreases n,
{
    if n < 128 {
        seq![n as u8]
    } else {
        seq![(n % 128 + 128) as u8] + varint_enc(n / 128)
    }
}

/// Spec-level reader of `varint_enc`'s form: returns the value and the
/// number of bytes consumed, or `None` when the buffer ends before a
/// byte with a clear continuation bit.
pub open spec fn varint_dec(s: Seq<u8>) -> Option<(nat, nat)>
    decreases s.len(),
{
    if s.len() == 0 {
        None
    } else if s[0] < 128 {
        Some((s[0] as nat, 1nat))
    } else {
        match varint_dec(s.skip(1)) {
            Some(t) => Some((((s[0] - 128) as nat + 128 * t.0) as nat, (t.1 + 1) as nat)),
            None => None,
        }
    }
}

/// Wire form of a byte string: its length as a varint, then the bytes.
pub open spec fn bytes_enc(b: Seq<u8>) -> Seq<u8> {
    varint_enc(b.len()) + b
}

/// Spec-level reader of `bytes_enc`'s form. A declared length that
/// exceeds the bytes that remain yields `None`.
pub open spec fn bytes_dec(s: Seq<u8>) -> Option<(Seq<u8>, nat)> {
    match varint_dec(s) {
        Some(t) => {
            let (len, used) = t;
            if used + len <= s.len() {
                Some((s.subrange(used as int, (used + len) as int), (used + len) as nat))
            } else {
                None
            }
        },
        None => None,
    }
}

/// Number of bytes `varint_enc` uses for `n`.
pub fn size_of_varint(n: u64) -> (r: usize)
    ensures
        r == varint_enc(n as nat).len(),
        1 <= r <= 10,
{
    proof {
        lemma_varint_enc_len(n as nat);
    }
    let mut m: u64 = n;
    let mut count: usize = 1;
    while m >= 128
        invariant
            count >= 1,
            varint_enc(n as nat).len() == count + varint_enc(m as nat).len() - 1,
            varint_enc(m as nat).len() <= 10,
            count + varint_enc(m as nat).len() - 1 <= 10,
        decreases m,
    {
        m = m / 128;
        count = count + 1;
    }
    count
}

/// `128^k`, the number of values a `k`-byte varint can carry.
spec fn pow128(k: nat) -> nat
    decreases k,
{
    if k == 0 {
        1
    } else {
        128 * pow128((k - 1) as nat)
    }
}

/// A value below `128^k` encodes in at most `k` bytes.
proof fn lemma_varint_enc_len_bound(n: nat, k: nat)
    requires
        k >= 1,
        n < pow128(k),
    ensures
        1 <= varint_enc(n).len() <= k,
    decreases k,
{
    if n >= 128 {
        assert(pow128(k) == 128 * pow128((k - 1) as nat));
        vstd::arithmetic::div_mod::lemma_fundamental_div_mod(n as int, 128);
        assert(n / 128 < pow128((k - 1) as nat)) by (nonlinear_arith)
            requires
                n < 128 * pow128((k - 1) as nat),
                128 * (n / 128) <= n,
        ;
        lemma_varint_enc_len_bound(n / 128, (k - 1) as nat);
    }
}

/// `varint_enc` never needs more than ten bytes for a value below `2^64`.
proof fn lemma_varint_enc_len(n: nat)
    requires
        n < 0x1_0000_0000_0000_0000,
    ensures
        1 <= varint_enc(n).len() <= 10,
{
    reveal_with_fuel(pow128, 11);
    assert(pow128(10) == 0x40_0000_0000_0000_0000);
    lemma_varint_enc_len_bound(n, 10);
}

/// Reading an encoded varint back, with anything at all after it,
/// recovers the value and consumes exactly the encoding.
pub proof fn lemma_varint_enc_dec(n: nat, rest: Seq<u8>)
    ensures
        varint_dec(varint_enc(n) + rest) == Some((n, varint_enc(n).len() as nat)),
    decreases n,
{
    let e = varint_enc(n);
    let s = e + rest;
    if n < 128 {
        assert(s[0] == n as u8);
    } else {
        let b = (n % 128 + 128) as u8;
        assert(s[0] == b);
        assert(b >= 128);
        assert_seqs_equal!(s.skip(1), varint_enc(n / 128) + rest);
        lemma_varint_enc_dec(n / 128, rest);
        vstd::arithmetic::div_mod::lemma_fundamental_div_mod(n as int, 128);
        assert((b - 128) as nat + 128 * (n / 128) == n);
    }
}

/// Cutting an encoded varint anywhere before its end leaves nothing a
/// reader will accept.
pub proof fn lemma_varint_enc_truncated(n: nat, j: int)
    requires
        0 <= j < varint_enc(n).len(),
    ensures
        varint_dec(varint_enc(n).take(j)) is None,
    decreases n,
{
    let e = varint_enc(n);
    if j == 0 {
        assert(e.take(0).len() == 0);
    } else {
        assert(n >= 128);
        let b = (n % 128 + 128) as u8;
        assert(e.take(j)[0] == b);
        assert(b >= 128);
        assert_seqs_equal!(e.take(j).skip(1), varint_enc(n / 128).take(j - 1));
        lemma_varint_enc_truncated(n / 128, j - 1);
    }
}

/// Reading an encoded byte string back, with anything at all after it,
/// recovers the bytes and consumes exactly the encoding.
pub proof fn lemma_bytes_enc_dec(b: Seq<u8>, rest: Seq<u8>)
    ensures
        bytes_enc(b).len() == varint_enc(b.len()).len() + b.len(),
        bytes_dec(bytes_enc(b) + rest) == Some((b, bytes_enc(b).len() as nat)),
{
    let v = varint_enc(b.len());
    let s = bytes_enc(b) + rest;
    assert_seqs_equal!(s, v + (b + rest));
    lemma_varint_enc_dec(b.len(), b + rest);
    let u = v.len() as nat;
    assert(u + b.len() <= s.len());
    assert_seqs_equal!(s.subrange(u as int, (u + b.len()) as int), b);
}

/// Cutting an encoded byte string anywhere before its end leaves
/// nothing a reader will accept.
pub proof fn lemma_bytes_enc_truncated(b: Seq<u8>, j: int)
    requires
        0 <= j < bytes_enc(b).len(),
    ensures
        bytes_dec(bytes_enc(b).take(j)) is None,
{
    let v = varint_enc(b.len());
    let u = v.len();
    if j < u {
        assert_seqs_equal!(bytes_enc(b).take(j), v.take(j));
        lemma_varint_enc_truncated(b.len(), j);
    } else {
        assert_seqs_equal!(bytes_enc(b).take(j), v + b.take(j - u));
        lemma_varint_enc_dec(b.len(), b.take(j - u));
        assert(u + b.len() > bytes_enc(b).take(j).len());
    }
}

/// A varint read consumes at least one byte and never more than there
/// are.
pub proof fn lemma_varint_dec_used(s: Seq<u8>)
    requires
        varint_dec(s) is Some,
    ensures
        1 <= varint_dec(s).unwrap().1 <= s.len(),
    decreases s.len(),
{
    if s[0] >= 128 {
        lemma_varint_dec_used(s.skip(1));
    }
}

/// Reads one varint at `*pos`, advancing `*pos` past it. Returns `None`
/// on truncation, and on a value too large for sixty-four bits — such a
/// value always exceeds any length a buffer here could have.
pub fn read_varint(s: &[u8], pos: &mut usize) -> (r: Option<u64>)
    requires
        *old(pos) <= s@.len(),
    ensures
        match r {
            Some(v) => {
                &&& varint_dec(s@.skip(*old(pos) as int)) matches Some(t) && t.0 == v as nat
                    && t.1 == *final(pos) - *old(pos)
                &&& *old(pos) <= *final(pos) <= s@.len()
            },
            None => varint_dec(s@.skip(*old(pos) as int)) matches Some(t)
                ==> t.0 >= 0x1_0000_0000_0000_0000,
        },
{
    let ghost start = *old(pos) as int;
    let ghost t = s@.skip(start);
    let mut v: u64 = 0;
    let mut mult: u64 = 1;
    let mut mult_ok: bool = true;
    proof {
        assert_seqs_equal!(t.skip(0), t);
    }
    loop
        invariant
            t == s@.skip(start),
            start == *old(pos),
            *old(pos) <= *pos <= s@.len(),
            forall|j: int| 0 <= j < *pos - start ==> t[j] >= 128,
            mult_ok ==> mult as nat == pow128((*pos - start) as nat),
            !mult_ok ==> pow128((*pos - start) as nat) > u64::MAX,
            (v as nat) < pow128((*pos - start) as nat),
            match varint_dec(t.skip(*pos - start)) {
                Some(tt) => varint_dec(t) == Some(
                    ((v as nat + pow128((*pos - start) as nat) * tt.0) as nat,
                    (*pos - start + tt.1) as nat),
                ),
                None => varint_dec(t) is None,
            },
        decreases s@.len() - *pos,
    {
        let ghost i = *pos - start;
        let ghost p = pow128(i as nat);
        if *pos >= s.len() {
            proof {
                assert(t.skip(i).len() == 0);
            }
            return None;
        }
        let b: u8 = *vstd::slice::slice_index_get(s, *pos);
        proof {
            assert(t.skip(i)[0] == b);
            assert(t.skip(i).len() > 0);
            assert_seqs_equal!(t.skip(i).skip(1), t.skip(i + 1));
        }
        let low: u8 = b % 128;
        proof {
            lemma_pow128_pos(i as nat);
            if b < 128 {
                assert(b % 128 == b) by (bit_vector)
                    requires
                        b < 128,
                ;
                assert(varint_dec(t.skip(i)) == Some((b as nat, 1nat)));
            } else {
                assert(b % 128 == b - 128) by (bit_vector)
                    requires
                        b >= 128,
                ;
            }
        }
        // With `p` standing for `128^i`, the groups read so far are worth
        // `v`, and the value of the whole varint is `v + p * (rest)`.
        if low != 0 {
            if !mult_ok {
                proof {
                    match varint_dec(t.skip(i)) {
                        Some(tt) => {
                            assert(tt.0 >= low as nat);
                            assert(v as nat + p * tt.0 >= p) by (nonlinear_arith)
                                requires
                                    tt.0 >= 1,
                                    p >= 1,
                            ;
                        },
                        None => {},
                    }
                }
                return None;
            }
            let c = match (low as u64).checked_mul(mult) {
                Some(c) => c,
                None => {
                    proof {
                        match varint_dec(t.skip(i)) {
                            Some(tt) => {
                                assert(tt.0 >= low as nat);
                                assert(v as nat + p * tt.0 >= (low as nat) * p)
                                    by (nonlinear_arith)
                                    requires
                                        tt.0 >= low as nat,
                                        p >= 1,
                                ;
                            },
                            None => {},
                        }
                    }
                    return None;
                },
            };
            v = match v.checked_add(c) {
                Some(nv) => nv,
                None => {
                    proof {
                        match varint_dec(t.skip(i)) {
                            Some(tt) => {
                                assert(tt.0 >= low as nat);
                                assert(v as nat + p * tt.0 >= v as nat + p * (low as nat))
                                    by (nonlinear_arith)
                                    requires
                                        tt.0 >= low as nat,
                                        p >= 1,
                                ;
                                assert(p * (low as nat) == (low as nat) * p)
                                    by (nonlinear_arith);
                            },
                            None => {},
                        }
                    }
                    return None;
                },
            };
            proof {
                assert(p * (low as nat) == (low as nat) * p) by (nonlinear_arith);
            }
        }
        *pos = *pos + 1;
        if b < 128 {
            // The continuation bit is clear: this was the last group.
            proof {
                assert(v as nat == (v as nat - p * (low as nat)) + p * (b as nat));
            }
            return Some(v);
        }
        // A continuation group: account for it and move to the next.
        proof {
            let ghost old_v = (v as nat - p * (low as nat)) as nat;
            assert(pow128((i + 1) as nat) == 128 * p);
            match varint_dec(t.skip(i + 1)) {
                Some(tt2) => {
                    assert(varint_dec(t.skip(i)) == Some(
                        (((low as nat) + 128 * tt2.0) as nat, (tt2.1 + 1) as nat),
                    ));
                    assert(old_v + p * ((low as nat) + 128 * tt2.0) == (old_v + p * (low as nat))
                        + (128 * p) * tt2.0) by (nonlinear_arith);
                },
                None => {
                    assert(varint_dec(t.skip(i)) is None);
                },
            }
            assert((v as nat) < 128 * p) by (nonlinear_arith)
                requires
                    (v as nat) < p + p * (low as nat),
                    low < 128,
                    p >= 1,
            ;
        }
        match mult.checked_mul(128) {
            Some(m2) => {
                mult = m2;
            },
            None => {
                proof {
                    assert(128 * pow128(i as nat) > u64::MAX || pow128(i as nat) > u64::MAX)
                        by (nonlinear_arith)
                        requires
                            mult_ok ==> mult as nat == pow128(i as nat),
                            !mult_ok ==> pow128(i as nat) > u64::MAX,
                            mult as nat * 128 > u64::MAX,
                    ;
                    assert(pow128(i as nat) <= 128 * pow128(i as nat)) by (nonlinear_arith)
                        requires
                            pow128(i as nat) >= 1,
                    ;
                }
                mult_ok = false;
            },
        }
    }
}

/// `128^k` is positive.
proof fn lemma_pow128_pos(k: nat)
    ensures
        pow128(k) >= 1,
    decreases k,
{
    if k > 0 {
        lemma_pow128_pos((k - 1) as nat);
    }
}

/// Appends `varint_enc(n)` to `buf`.
pub fn write_varint(buf: &mut Vec<u8>, n: u64)
    ensures
        final(buf)@ == old(buf)@ + varint_enc(n as nat),
{
    let mut m: u64 = n;
    while m >= 128
        invariant
            buf@ + varint_enc(m as nat) == old(buf)@ + varint_enc(n as nat),
        decreases m,
    {
        buf.push((m % 128 + 128) as u8);
        m = m / 128;
        proof {
            assert(buf@ + varint_enc(m as nat) == old(buf)@ + varint_enc(n as nat)) by {
                assert_seqs_equal!(buf@ + varint_enc(m as nat), old(buf)@ + varint_enc(n as nat));
            }
        }
    }
    buf.push(m as u8);
    proof {
        assert(varint_enc(m as nat) == seq![m as u8]);
        assert_seqs_equal!(buf@, old(buf)@ + varint_enc(n as nat));
    }
}

/// Appends `bytes_enc(b@)` to `buf`: the length prefix, then the bytes.
pub fn write_slice(buf: &mut Vec<u8>, b: &[u8])
    ensures
        final(buf)@ == old(buf)@ + bytes_enc(b@),
{
    write_varint(buf, b.len() as u64);
    buf.extend_from_slice(b);
    proof {
        assert_seqs_equal!(buf@, old(buf)@ + bytes_enc(b@));
    }
}

/// The space `bytes_enc` takes for `b`, or `None` when that exceeds
/// what a buffer on this machine could hold.
pub fn size_of_slice(b: &[u8]) -> (r: Option<usize>)
    ensures
        match r {
            Some(u) => u == bytes_enc(b@).len(),
            None => bytes_enc(b@).len() > usize::MAX,
        },
{
    let sv = size_of_varint(b.len() as u64);
    sv.checked_add(b.len())
}

/// Reads one length-prefixed byte string at `*pos`, advancing `*pos`
/// past it; the result borrows from the buffer. Returns `None` when the
/// buffer is exhausted or the declared length overruns it — the caller
/// decides whether that is fatal.
pub fn read_slice<'a>(s: &'a [u8], pos: &mut usize) -> (r: Option<&'a [u8]>)
    requires
        *old(pos) <= s@.len(),
    ensures
        match r {
            Some(sub) => {
                &&& bytes_dec(s@.skip(*old(pos) as int)) matches Some(t) && t.0 == sub@
                    && t.1 == *final(pos) - *old(pos)
                &&& *old(pos) <= *final(pos) <= s@.len()
            },
            None => bytes_dec(s@.skip(*old(pos) as int)) is None,
        },
{
    let ghost start = *old(pos) as int;
    let ghost t = s@.skip(start);
    let slen = s.len();
    let len = match read_varint(s, pos) {
        Some(v) => v,
        None => {
            proof {
                if let Some(tt) = varint_dec(t) {
                    assert(tt.1 + tt.0 > t.len());
                }
            }
            return None;
        },
    };
    let remaining = slen - *pos;
    if len > remaining as u64 {
        proof {
            assert(t.len() == s@.len() - start);
        }
        return None;
    }
    let sub = vstd::slice::slice_subrange(s, *pos, *pos + len as usize);
    proof {
        let u = (*pos - start) as int;
        assert_seqs_equal!(sub@, t.subrange(u, u + len as int));
    }
    *pos = *pos + len as usize;
    Some(sub)
}

/// Appends `s` as a length-prefixed string: `bytes_enc` of its UTF-8
/// bytes.
pub fn write_str(buf: &mut Vec<u8>, s: &str)
    ensures
        final(buf)@ == old(buf)@ + bytes_enc(s.spec_bytes()),
{
    write_slice(buf, s.as_bytes());
}

/// Relies on `core::str::from_utf8` (plus `str::to_owned` for
/// ownership): it accepts exactly the UTF-8-valid byte sequences, and
/// the accepted string is backed by exactly the given bytes.
#[verifier::external_body]
pub fn utf8_to_string(b: &[u8]) -> (r: Option<String>)
    ensures
        r is Some <==> vstd::utf8::valid_utf8(b@),
        r matches Some(s) ==> vstd::utf8::encode_utf8(s@) == b@,
{
    match core::str::from_utf8(b) {
        Ok(s) => Some(s.to_owned()),
        Err(_) => None,
    }
}

/// Reads one length-prefixed string at `*pos`: a byte string whose
/// contents must be valid UTF-8. Invalid UTF-8 yields `None` rather
/// than a repaired string.
pub fn read_str(s: &[u8], pos: &mut usize) -> (r: Option<String>)
    requires
        *old(pos) <= s@.len(),
    ensures
        match r {
            Some(st) => {
                &&& bytes_dec(s@.skip(*old(pos) as int)) matches Some(t)
                    && vstd::utf8::encode_utf8(st@) == t.0 && vstd::utf8::valid_utf8(t.0)
                    && t.1 == *final(pos) - *old(pos)
                &&& *old(pos) <= *final(pos) <= s@.len()
            },
            None => match bytes_dec(s@.skip(*old(pos) as int)) {
                Some(t) => !vstd::utf8::valid_utf8(t.0),
                None => true,
            },
        },
{
    match read_slice(s, pos) {
        Some(sub) => utf8_to_string(sub),
        None => None,
    }
}

} // verus!
