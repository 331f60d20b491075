//! Small arithmetic and byte-sequence helpers shared by the codec modules.
use vstd::prelude::*;

verus! {

/// 10^n as a mathematical integer.
pub open spec fn pow10(n: nat) -> int
    decreases n,
{
    if n == 0 {
        1
    } else {
        10 * pow10((n - 1) as nat)
    }
}

pub proof fn lemma_pow10_pos(n: nat)
    ensures
        pow10(n) >= 1,
    decreases n,
{
    if n > 0 {
        lemma_pow10_pos((n - 1) as nat);
    }
}

pub proof fn lemma_pow10_increases(m: nat, n: nat)
    requires
        m <= n,
    ensures
        pow10(m) <= pow10(n),
    decreases n,
{
    if m < n {
        lemma_pow10_increases(m, (n - 1) as nat);
        lemma_pow10_pos((n - 1) as nat);
    }
}

/// 10^n for exponents up to 38; `None` when the power exceeds `i128`.
pub fn pow10_i128(n: u32) -> (r: Option<i128>)
    ensures
        n <= 38 ==> r is Some && r->0 as int == pow10(n as nat),
        n > 38 ==> r is None,
{
    if n > 38 {
        return None;
    }
    let mut acc: i128 = 1;
    let mut i: u32 = 0;
    while i < n
        invariant
            i <= n <= 38,
            acc as int == pow10(i as nat),
        decreases n - i,
    {
        proof {
            lemma_pow10_increases((i + 1) as nat, 38);
            reveal_with_fuel(pow10, 40);
            assert(pow10(38) < 0x80000000000000000000000000000000);
        }
        acc = acc * 10;
        i = i + 1;
    }
    Some(acc)
}

/// Exact byte-sequence equality.
pub fn bytes_eq(a: &[u8], b: &[u8]) -> (r: bool)
    ensures
        r == (a@ == b@),
{
    if a.len() != b.len() {
        assert(a@ != b@);
        return false;
    }
    let mut i: usize = 0;
    while i < a.len()
        invariant
            i <= a.len() == b.len(),
            forall|j: int| 0 <= j < i ==> a@[j] == b@[j],
        decreases a.len() - i,
    {
        if a[i] != b[i] {
            return false;
        }
        i = i + 1;
    }
    proof {
        assert(a@ =~= b@);
    }
    true
}

/// Minimal two's-complement big-endian representation of an integer:
/// the shortest byte sequence whose signed big-endian value is `n`.
pub open spec fn min_tc(n: int) -> Seq<u8>
    decreases (if n < 0 { -n } else { n }),
{
    if -128 <= n < 128 {
        seq![(n % 256) as u8]
    } else {
        min_tc(n / 256).push((n % 256) as u8)
    }
}

fn min_tc_bytes_u(u: u128) -> (r: Vec<u8>)
    ensures
        r@ == min_tc(u as int),
    decreases u,
{
    if u < 128 {
        let mut v: Vec<u8> = Vec::new();
        v.push(u as u8);
        proof {
            assert(v@ =~= min_tc(u as int));
        }
        v
    } else {
        let mut v = min_tc_bytes_u(u / 256);
        v.push((u % 256) as u8);
        v
    }
}

/// For a negative integer, the minimal two's-complement bytes are the
/// bytewise complement of those of `-n - 1`.
proof fn lemma_min_tc_complement(n: int)
    requires
        n < 0,
    ensures
        min_tc(n).len() == min_tc(-n - 1).len(),
        forall|i: int| 0 <= i < min_tc(n).len() ==> min_tc(n)[i] + min_tc(-n - 1)[i] == 255,
    decreases -n,
{
    let m = -n - 1;
    if -128 <= n {
    } else {
        lemma_min_tc_complement(n / 256);
        vstd::arithmetic::div_mod::lemma_fundamental_div_mod(n, 256);
        vstd::arithmetic::div_mod::lemma_fundamental_div_mod(m, 256);
        assert(m / 256 == -(n / 256) - 1 && m % 256 + n % 256 == 255) by (nonlinear_arith)
            requires
                n == 256 * (n / 256) + n % 256,
                m == 256 * (m / 256) + m % 256,
                0 <= n % 256 < 256,
                0 <= m % 256 < 256,
                m == -n - 1,
        ;
    }
}

pub fn min_tc_bytes(n: i128) -> (r: Vec<u8>)
    ensures
        r@ == min_tc(n as int),
{
    if n >= 0 {
        min_tc_bytes_u(n as u128)
    } else {
        let p: u128 = (-(n + 1)) as u128;
        let w = min_tc_bytes_u(p);
        let mut v: Vec<u8> = Vec::new();
        let mut i: usize = 0;
        proof {
            lemma_min_tc_complement(n as int);
        }
        while i < w.len()
            invariant
                i <= w.len(),
                w@ == min_tc(p as int),
                p as int == -(n as int) - 1,
                n < 0,
                v@.len() == i,
                forall|j: int| 0 <= j < i ==> v@[j] + w@[j] == 255,
            decreases w.len() - i,
        {
            v.push(255 - w[i]);
            i = i + 1;
        }
        proof {
            lemma_min_tc_complement(n as int);
            assert(v@ =~= min_tc(n as int));
        }
        v
    }
}

/// An owned copy of a byte vector.
pub fn clone_bytes(v: &Vec<u8>) -> (r: Vec<u8>)
    ensures
        r@ == v@,
{
    let mut r: Vec<u8> = Vec::new();
    let mut i: usize = 0;
    while i < v.len()
        invariant
            i <= v.len(),
            r@ == v@.take(i as int),
        decreases v.len() - i,
    {
        r.push(v[i]);
        i = i + 1;
        proof {
            assert(r@ =~= v@.take(i as int));
        }
    }
    proof {
        assert(v@.take(v@.len() as int) =~= v@);
    }
    r
}

/// The four big-endian bytes of a 32-bit unsigned integer.
pub open spec fn be32(n: u32) -> Seq<u8> {
    seq![
        ((n / 0x1000000) % 256) as u8,
        ((n / 0x10000) % 256) as u8,
        ((n / 0x100) % 256) as u8,
        (n % 256) as u8,
    ]
}

pub fn be32_bytes(n: u32) -> (r: Vec<u8>)
    ensures
        r@ == be32(n),
{
    let mut v: Vec<u8> = Vec::new();
    v.push((n / 0x1000000) as u8);
    v.push(((n / 0x10000) % 256) as u8);
    v.push(((n / 0x100) % 256) as u8);
    v.push((n % 256) as u8);
    proof {
        assert(v@ =~= be32(n));
    }
    v
}

} // verus!
