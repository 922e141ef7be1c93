//! The container's variable-length integers: up to nine bytes, most
//! significant first, seven bits per byte with a continuation flag, and a full
//! eighth bit in the ninth byte.
use crate::error::DbError;
use vstd::arithmetic::div_mod::lemma_mod_breakdown;
use vstd::prelude::*;

verus! {

/// `128` to the power `n`.
pub open spec fn p128(n: nat) -> nat
    decreases n,
{
    if n == 0 {
        1
    } else {
        128 * p128((n - 1) as nat)
    }
}

/// The low seven bits of each of the first `n` bytes of `s`, joined most
/// significant first.
pub open spec fn fold7(s: Seq<u8>, n: nat) -> nat
    decreases n,
{
    if n == 0 {
        0
    } else {
        fold7(s, (n - 1) as nat) * 128 + (s[n - 1] % 128) as nat
    }
}

/// Index of the byte that ends a varint starting at the front of `s`, searching
/// from `i`: the first byte without the continuation bit, or `8` when the first
/// eight bytes all carry it. Stops early, at `s.len()`, when `s` runs out.
pub open spec fn stop_index(s: Seq<u8>, i: nat) -> nat
    decreases 8 - i,
{
    if i >= 8 || i >= s.len() || s[i as int] < 128 {
        i
    } else {
        stop_index(s, i + 1)
    }
}

/// The varint at the front of `s`: its value and the number of bytes it takes,
/// or `None` when `s` ends before the varint does.
pub open spec fn varint_spec(s: Seq<u8>) -> Option<(nat, nat)> {
    let k = stop_index(s, 0);
    if k < 8 {
        if k < s.len() {
            Some((fold7(s, k + 1), k + 1))
        } else {
            None
        }
    } else if s.len() >= 9 {
        Some((fold7(s, 8) * 256 + s[8] as nat, 9))
    } else {
        None
    }
}

/// The `n` low 7-bit groups of `v`, most significant first. Every byte but the
/// last carries the continuation bit; the last one carries it unless `last`.
pub open spec fn groups7(v: nat, n: nat, last: bool) -> Seq<u8>
    decreases n,
{
    if n == 0 {
        seq![]
    } else {
        let low = v % 128;
        groups7(v / 128, (n - 1) as nat, false).push(
            (if last {
                low
            } else {
                low + 128
            }) as u8,
        )
    }
}

/// Number of 7-bit groups needed to write `v`.
pub open spec fn len7(v: nat) -> nat
    decreases v,
{
    if v < 128 {
        1
    } else {
        1 + len7(v / 128)
    }
}

/// The shortest encoding of `v`: as many 7-bit groups as it needs when it fits
/// in 56 bits, else eight 7-bit groups followed by one full byte.
pub open spec fn encode_varint_spec(v: u64) -> Seq<u8> {
    if v < 0x100000000000000 {
        groups7(v as nat, len7(v as nat), true)
    } else {
        groups7(v as nat / 256, 8, false).push((v % 256) as u8)
    }
}

proof fn lemma_p128_pos(n: nat)
    ensures
        1 <= p128(n),
    decreases n,
{
    if n > 0 {
        lemma_p128_pos((n - 1) as nat);
    }
}

proof fn lemma_p128_mono(i: nat, j: nat)
    requires
        i <= j,
    ensures
        1 <= p128(i) <= p128(j),
    decreases j,
{
    lemma_p128_pos(i);
    if i < j {
        lemma_p128_mono(i, (j - 1) as nat);
    }
}

proof fn lemma_p128_8()
    ensures
        p128(8) == 0x100000000000000,
{
    reveal_with_fuel(p128, 9);
}

/// `fold7` looks at the first `n` bytes only.
proof fn lemma_fold7_prefix(s: Seq<u8>, t: Seq<u8>, n: nat)
    requires
        n <= s.len(),
        n <= t.len(),
        forall|j: int| 0 <= j < n ==> s[j] == t[j],
    ensures
        fold7(s, n) == fold7(t, n),
    decreases n,
{
    if n > 0 {
        lemma_fold7_prefix(s, t, (n - 1) as nat);
    }
}

proof fn lemma_fold7_bound(s: Seq<u8>, n: nat)
    requires
        n <= s.len(),
    ensures
        fold7(s, n) < p128(n),
    decreases n,
{
    if n > 0 {
        let m = (n - 1) as nat;
        lemma_fold7_bound(s, m);
        let a = fold7(s, m);
        let b = (s[m as int] % 128) as nat;
        let p = p128(m);
        assert(a * 128 + b < p * 128) by (nonlinear_arith)
            requires
                a < p,
                b < 128,
        ;
    }
}

proof fn lemma_groups7(v: nat, n: nat, last: bool)
    ensures
        groups7(v, n, last).len() == n,
        forall|j: int| 0 <= j < n - 1 ==> groups7(v, n, last)[j] >= 128,
        n > 0 ==> (groups7(v, n, last)[n - 1] < 128 <==> last),
        fold7(groups7(v, n, last), n) == v % p128(n),
    decreases n,
{
    if n > 0 {
        let m = (n - 1) as nat;
        let h = groups7(v / 128, m, false);
        let g = groups7(v, n, last);
        lemma_groups7(v / 128, m, false);
        assert(g == h.push(g[m as int]));
        lemma_fold7_prefix(g, h, m);
        assert(g[m as int] % 128 == v % 128);
        lemma_p128_mono(m, m);
        lemma_mod_breakdown(v as int, 128, p128(m) as int);
    }
}

/// Where the varint at the front of `s` stops, when every byte before `k`
/// continues and byte `k` ends it (or `k` is the ninth byte).
proof fn lemma_stop_index(s: Seq<u8>, i: nat, k: nat)
    requires
        i <= k <= 8,
        k < s.len(),
        k < 8 ==> s[k as int] < 128,
        forall|j: int| i <= j < k ==> s[j] >= 128,
    ensures
        stop_index(s, i) == k,
    decreases k - i,
{
    if i < k {
        lemma_stop_index(s, i + 1, k);
    }
}

proof fn lemma_len7(v: nat, m: nat)
    requires
        1 <= m,
        v < p128(m),
    ensures
        1 <= len7(v) <= m,
        v < p128(len7(v)),
    decreases v,
{
    if v >= 128 {
        let m1 = (m - 1) as nat;
        if m == 1 {
            assert(p128(1) == 128) by {
                reveal_with_fuel(p128, 2);
            }
        }
        let q = v / 128;
        let p = p128(m1);
        assert(q < p) by (nonlinear_arith)
            requires
                v < 128 * p,
                q == v / 128,
        ;
        lemma_len7(q, m1);
        let pl = p128(len7(q));
        assert(p128(len7(v)) == 128 * pl);
        assert(v < 128 * pl) by (nonlinear_arith)
            requires
                q < pl,
                q == v / 128,
        ;
    } else {
        assert(p128(1) == 128) by {
            reveal_with_fuel(p128, 2);
        }
    }
}

/// Decoding the shortest encoding of any `u64` gives the value back, and takes
/// exactly the bytes of the encoding.
pub proof fn lemma_varint_round_trip(v: u64)
    ensures
        varint_spec(encode_varint_spec(v)) == Some((v as nat, encode_varint_spec(v).len())),
{
    let e = encode_varint_spec(v);
    lemma_p128_8();
    if v < 0x100000000000000 {
        let n = len7(v as nat);
        lemma_len7(v as nat, 8);
        lemma_groups7(v as nat, n, true);
        lemma_stop_index(e, 0, (n - 1) as nat);
        assert((v as nat) % p128(n) == v as nat) by {
            vstd::arithmetic::div_mod::lemma_small_mod(v as nat, p128(n));
        }
    } else {
        let h = groups7(v as nat / 256, 8, false);
        lemma_groups7(v as nat / 256, 8, false);
        assert(e == h.push(e[8]));
        lemma_stop_index(e, 0, 8);
        lemma_fold7_prefix(e, h, 8);
        let q = v as nat / 256;
        assert(q < 0x100000000000000);
        vstd::arithmetic::div_mod::lemma_small_mod(q, p128(8));
        assert(q * 256 + (v as nat) % 256 == v as nat);
    }
}

/// When the first eight bytes all carry the continuation bit, the ninth byte
/// ends the varint whatever its top bit, and all eight of its bits count.
pub proof fn lemma_ninth_byte_full(s: Seq<u8>)
    requires
        s.len() >= 9,
        forall|j: int| 0 <= j < 8 ==> s[j] >= 128,
    ensures
        varint_spec(s) == Some((fold7(s, 8) * 256 + s[8] as nat, 9nat)),
{
    lemma_stop_index(s, 0, 8);
}

/// Decodes the varint at the front of `bytes[start..end]`, reading no byte at
/// or past `end`.
pub fn decode_varint_at(bytes: &[u8], start: usize, end: usize) -> (r: Result<(u64, usize), DbError>)
    requires
        start <= end <= bytes@.len(),
    ensures
        r is Ok <==> varint_spec(bytes@.subrange(start as int, end as int)) is Some,
        r is Err ==> r == Err::<(u64, usize), DbError>(DbError::Decode),
        r matches Ok((v, n)) ==> varint_spec(bytes@.subrange(start as int, end as int)) == Some(
            (v as nat, n as nat),
        ),
        r matches Ok((v, n)) ==> 1 <= n <= end - start,
{
    let ghost s = bytes@.subrange(start as int, end as int);
    proof {
        lemma_p128_8();
    }
    let mut result: u64 = 0;
    let mut i: usize = 0;
    loop
        invariant
            i <= 8,
            start <= end <= bytes@.len(),
            s == bytes@.subrange(start as int, end as int),
            i <= s.len() ==> stop_index(s, 0) == stop_index(s, i as nat),
            i <= s.len(),
            result as nat == fold7(s, i as nat),
            p128(8) == 0x100000000000000,
        decreases 8 - i,
    {
        if i >= end - start {
            return Err(DbError::Decode);
        }
        let byte = bytes[start + i];
        assert(byte == s[i as int]);
        proof {
            lemma_fold7_bound(s, i as nat);
            lemma_p128_mono(i as nat, 8);
        }
        if i == 8 {
            proof {
                assert(stop_index(s, 8) == 8);
            }
            return Ok((result * 256 + byte as u64, 9));
        }
        assert(byte & 0x7f == byte % 128) by (bit_vector);
        let low = byte & 0x7f;
        assert((byte & 0x80 == 0) == (byte < 128)) by (bit_vector);
        result = result * 128 + low as u64;
        i = i + 1;
        if byte & 0x80 == 0 {
            return Ok((result, i));
        }
    }
}

/// Decodes the varint at the front of `bytes`: its value and how many bytes it
/// takes. Fails when `bytes` ends before the varint does.
pub fn decode_varint(bytes: &[u8]) -> (r: Result<(u64, usize), DbError>)
    ensures
        r is Ok <==> varint_spec(bytes@) is Some,
        r is Err ==> r == Err::<(u64, usize), DbError>(DbError::Decode),
        r matches Ok((v, n)) ==> varint_spec(bytes@) == Some((v as nat, n as nat)),
{
    let r = decode_varint_at(bytes, 0, bytes.len());
    assert(bytes@.subrange(0, bytes@.len() as int) == bytes@);
    r
}

} // verus!
