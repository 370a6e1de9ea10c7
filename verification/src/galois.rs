//! Arithmetic in GF(256), the field of the Reed-Solomon code of a QR code.
//!
//! An element is a byte whose bits are the coefficients of a polynomial over
//! GF(2) of degree below 8. Addition is `^`; multiplication is taken modulo
//! `x^8 + x^4 + x^3 + x^2 + 1`. The element 2, which stands for `x`, is
//! primitive.
//!
//! A polynomial over the field is a sequence of bytes, the coefficient of the
//! highest power first, as the codewords of a block are written.

use vstd::prelude::*;

verus! {

/// The product of an element and `x`.
pub open spec fn times_x(a: u8) -> u8 {
    (a << 1) ^ (if a >= 0x80 {
        0x1du8
    } else {
        0u8
    })
}

/// The sum of `a * x^i` over the positions `i` below `n` at which `b` has a
/// bit set.
pub open spec fn mul_bits(a: u8, b: u8, n: nat) -> u8
    decreases n,
{
    if n == 0 {
        0
    } else {
        (if b & 1 == 1 {
            a
        } else {
            0u8
        }) ^ mul_bits(times_x(a), b >> 1, (n - 1) as nat)
    }
}

/// The product of two elements.
pub open spec fn gf_mul(a: u8, b: u8) -> u8 {
    mul_bits(a, b, 8)
}

/// The power `x^i`.
pub open spec fn alpha_pow(i: nat) -> u8
    decreases i,
{
    if i == 0 {
        1
    } else {
        times_x(alpha_pow((i - 1) as nat))
    }
}

/// Multiplication is commutative.
#[verifier::rlimit(100)]
pub proof fn lemma_mul_commutative(a: u8, b: u8)
    ensures
        gf_mul(a, b) == gf_mul(b, a),
{
    assert(mul_bits(a, b, 8) == mul_bits(b, a, 8)) by (bit_vector);
}

/// Zero annihilates and one is neutral.
pub proof fn lemma_mul_zero_one(a: u8)
    ensures
        gf_mul(a, 0) == 0,
        gf_mul(0, a) == 0,
        gf_mul(a, 1) == a,
        gf_mul(1, a) == a,
{
    assert(mul_bits(a, 0, 8) == 0) by (bit_vector);
    assert(mul_bits(0, a, 8) == 0) by (bit_vector);
    assert(mul_bits(a, 1, 8) == a) by (bit_vector);
    assert(mul_bits(1, a, 8) == a) by (bit_vector);
}

/// Multiplying the right factor by `x` multiplies the product by `x`.
#[verifier::rlimit(100)]
pub proof fn lemma_mul_times_x(a: u8, b: u8)
    ensures
        gf_mul(a, times_x(b)) == times_x(gf_mul(a, b)),
{
    assert(mul_bits(a, times_x(b), 8) == times_x(mul_bits(a, b, 8))) by (bit_vector);
}

/// The sum over the bits of `b ^ c` is the sum over the bits of `b` plus
/// that over the bits of `c`.
proof fn lemma_mul_bits_distributive(a: u8, b: u8, c: u8, n: nat)
    ensures
        mul_bits(a, b ^ c, n) == mul_bits(a, b, n) ^ mul_bits(a, c, n),
    decreases n,
{
    if n == 0 {
        assert(0u8 ^ 0u8 == 0u8) by (bit_vector);
    } else {
        let m = (n - 1) as nat;
        lemma_mul_bits_distributive(times_x(a), b >> 1, c >> 1, m);
        assert((b ^ c) >> 1 == (b >> 1) ^ (c >> 1)) by (bit_vector);
        let tb = if b & 1 == 1 {
            a
        } else {
            0u8
        };
        let tc = if c & 1 == 1 {
            a
        } else {
            0u8
        };
        let tbc = if (b ^ c) & 1 == 1 {
            a
        } else {
            0u8
        };
        assert((if (b ^ c) & 1 == 1 {
            a
        } else {
            0u8
        }) == (if b & 1 == 1 {
            a
        } else {
            0u8
        }) ^ (if c & 1 == 1 {
            a
        } else {
            0u8
        })) by (bit_vector);
        let mb = mul_bits(times_x(a), b >> 1, m);
        let mc = mul_bits(times_x(a), c >> 1, m);
        assert((tb ^ tc) ^ (mb ^ mc) == (tb ^ mb) ^ (tc ^ mc)) by (bit_vector);
    }
}

/// Multiplication distributes over addition, on either side.
pub proof fn lemma_mul_distributive(a: u8, b: u8, c: u8)
    ensures
        gf_mul(a, b ^ c) == gf_mul(a, b) ^ gf_mul(a, c),
        gf_mul(b ^ c, a) == gf_mul(b, a) ^ gf_mul(c, a),
{
    lemma_mul_bits_distributive(a, b, c, 8);
    lemma_mul_commutative(a, b ^ c);
    lemma_mul_commutative(a, b);
    lemma_mul_commutative(a, c);
}

/// Multiplying a product by the low bits of `c` multiplies its right factor
/// by them.
proof fn lemma_mul_bits_associative(a: u8, b: u8, c: u8, n: nat)
    ensures
        mul_bits(gf_mul(a, b), c, n) == gf_mul(a, mul_bits(b, c, n)),
    decreases n,
{
    lemma_mul_zero_one(a);
    if n > 0 {
        let m = (n - 1) as nat;
        lemma_mul_bits_associative(a, times_x(b), c >> 1, m);
        lemma_mul_times_x(a, b);
        let t = if c & 1 == 1 {
            b
        } else {
            0u8
        };
        lemma_mul_distributive(a, t, mul_bits(times_x(b), c >> 1, m));
    }
}

/// Multiplication is associative.
pub proof fn lemma_mul_associative(a: u8, b: u8, c: u8)
    ensures
        gf_mul(gf_mul(a, b), c) == gf_mul(a, gf_mul(b, c)),
{
    lemma_mul_bits_associative(a, b, c, 8);
}

/// Computes the product of an element and `x`.
pub fn mul_x(a: u8) -> (r: u8)
    ensures
        r == times_x(a),
{
    let s = a << 1;
    if a >= 0x80 {
        s ^ 0x1d
    } else {
        assert(s ^ 0 == s) by (bit_vector);
        s
    }
}

/// Computes the product of two elements.
pub fn multiply(a: u8, b: u8) -> (r: u8)
    ensures
        r == gf_mul(a, b),
{
    let mut r: u8 = 0;
    let mut aa: u8 = a;
    let mut bb: u8 = b;
    let mut i: usize = 0;
    assert(0u8 ^ mul_bits(a, b, 8) == mul_bits(a, b, 8)) by (bit_vector);
    while i < 8
        invariant
            i <= 8,
            r ^ mul_bits(aa, bb, (8 - i) as nat) == gf_mul(a, b),
        decreases 8 - i,
    {
        let t: u8 = if bb & 1 == 1 {
            aa
        } else {
            0
        };
        proof {
            let rest = mul_bits(times_x(aa), bb >> 1, (8 - i - 1) as nat);
            assert((r ^ t) ^ rest == r ^ (t ^ rest)) by (bit_vector);
        }
        r = r ^ t;
        aa = mul_x(aa);
        bb = bb >> 1;
        i += 1;
    }
    assert(r ^ 0 == r) by (bit_vector);
    r
}

/// The value of a polynomial at a point, by Horner's rule.
pub open spec fn eval(p: Seq<u8>, x: u8) -> u8
    decreases p.len(),
{
    if p.len() == 0 {
        0
    } else {
        gf_mul(eval(p.drop_last(), x), x) ^ p.last()
    }
}

/// The product of a polynomial and `x + r`.
pub open spec fn mul_linear(p: Seq<u8>, r: u8) -> Seq<u8> {
    Seq::new(
        p.len() + 1,
        |i: int|
            (if i < p.len() {
                p[i]
            } else {
                0u8
            }) ^ (if i > 0 {
                gf_mul(r, p[i - 1])
            } else {
                0u8
            }),
    )
}

/// The generator polynomial of degree `k`: the product of `x + x^i` for `i`
/// below `k`. It has `k + 1` coefficients, the first of which is 1.
pub open spec fn generator(k: nat) -> Seq<u8>
    decreases k,
{
    if k == 0 {
        seq![1u8]
    } else {
        mul_linear(generator((k - 1) as nat), alpha_pow((k - 1) as nat))
    }
}

/// The value of a sum of two polynomials is the sum of their values.
pub proof fn lemma_eval_sum(s: Seq<u8>, t: Seq<u8>, u: Seq<u8>, x: u8)
    requires
        s.len() == t.len(),
        u.len() == s.len(),
        forall|i: int| 0 <= i < u.len() ==> #[trigger] u[i] == s[i] ^ t[i],
    ensures
        eval(u, x) == eval(s, x) ^ eval(t, x),
    decreases u.len(),
{
    if u.len() == 0 {
        assert(0u8 ^ 0u8 == 0u8) by (bit_vector);
    } else {
        lemma_eval_sum(s.drop_last(), t.drop_last(), u.drop_last(), x);
        let es = eval(s.drop_last(), x);
        let et = eval(t.drop_last(), x);
        lemma_mul_distributive(x, es, et);
        let a = gf_mul(es, x);
        let b = gf_mul(et, x);
        let c = s.last();
        let d = t.last();
        assert(u.last() == c ^ d);
        assert((a ^ b) ^ (c ^ d) == (a ^ c) ^ (b ^ d)) by (bit_vector);
    }
}

/// The value of a multiple of a polynomial is the multiple of its value.
pub proof fn lemma_eval_scaled(f: u8, s: Seq<u8>, u: Seq<u8>, x: u8)
    requires
        u.len() == s.len(),
        forall|i: int| 0 <= i < u.len() ==> #[trigger] u[i] == gf_mul(f, s[i]),
    ensures
        eval(u, x) == gf_mul(f, eval(s, x)),
    decreases u.len(),
{
    if u.len() == 0 {
        lemma_mul_zero_one(f);
    } else {
        lemma_eval_scaled(f, s.drop_last(), u.drop_last(), x);
        let es = eval(s.drop_last(), x);
        lemma_mul_associative(f, es, x);
        lemma_mul_distributive(f, gf_mul(es, x), s.last());
        assert(u.last() == gf_mul(f, s.last()));
    }
}

/// Zero coefficients in front of a polynomial do not change its value.
pub proof fn lemma_eval_leading_zeros(s: Seq<u8>, u: Seq<u8>, n: nat, x: u8)
    requires
        u.len() == n + s.len(),
        forall|j: int| 0 <= j < n ==> #[trigger] u[j] == 0,
        forall|j: int| 0 <= j < s.len() ==> #[trigger] u[n + j] == s[j],
    ensures
        eval(u, x) == eval(s, x),
    decreases u.len(),
{
    if u.len() == 0 {
    } else if s.len() == 0 {
        lemma_eval_leading_zeros(s, u.drop_last(), (n - 1) as nat, x);
        lemma_mul_zero_one(x);
        assert(u.last() == u[n - 1]);
        assert(0u8 ^ 0u8 == 0u8) by (bit_vector);
    } else {
        let ud = u.drop_last();
        let sd = s.drop_last();
        assert forall|j: int| 0 <= j < sd.len() implies #[trigger] ud[n + j] == sd[j] by {
            assert(u[n + j] == s[j]);
        }
        lemma_eval_leading_zeros(sd, ud, n, x);
        assert(u.last() == u[n + (s.len() - 1)]);
    }
}

/// The value of the first coefficients of the product of a polynomial and
/// `x + r`.
proof fn lemma_eval_mul_linear_prefix(p: Seq<u8>, r: u8, x: u8, m: int)
    requires
        1 <= m <= p.len(),
    ensures
        eval(mul_linear(p, r).take(m), x) == eval(p.take(m), x) ^ gf_mul(
            r,
            eval(p.take(m - 1), x),
        ),
    decreases m,
{
    let q = mul_linear(p, r);
    lemma_mul_zero_one(x);
    lemma_mul_zero_one(r);
    assert(q.take(m).drop_last() =~= q.take(m - 1));
    assert(p.take(m).drop_last() =~= p.take(m - 1));
    let qm = eval(q.take(m), x);
    let qm1 = eval(q.take(m - 1), x);
    let pm = eval(p.take(m), x);
    let pm1 = eval(p.take(m - 1), x);
    let c = p[m - 1];
    assert(q.take(m).last() == q[m - 1]);
    assert(p.take(m).last() == c);
    assert(qm == gf_mul(qm1, x) ^ q[m - 1]);
    assert(pm == gf_mul(pm1, x) ^ c);
    if m == 1 {
        assert(qm1 == 0);
        assert(pm1 == 0);
        assert(q[0] == c ^ 0u8);
        assert((0u8 ^ (c ^ 0u8)) == (0u8 ^ c) ^ 0u8) by (bit_vector);
    } else {
        lemma_eval_mul_linear_prefix(p, r, x, m - 1);
        assert(p.take(m - 1).drop_last() =~= p.take(m - 2));
        let pm2 = eval(p.take(m - 2), x);
        assert(p.take(m - 1).last() == p[m - 2]);
        assert(pm1 == gf_mul(pm2, x) ^ p[m - 2]);
        assert(qm1 == pm1 ^ gf_mul(r, pm2));
        lemma_mul_distributive(x, pm1, gf_mul(r, pm2));
        lemma_mul_associative(r, pm2, x);
        lemma_mul_distributive(r, gf_mul(pm2, x), p[m - 2]);
        let a = gf_mul(pm1, x);
        let b = gf_mul(r, gf_mul(pm2, x));
        let d = gf_mul(r, p[m - 2]);
        assert(q[m - 1] == c ^ d);
        assert(gf_mul(qm1, x) == a ^ b);
        assert(gf_mul(r, pm1) == b ^ d);
        assert((a ^ b) ^ (c ^ d) == (a ^ c) ^ (b ^ d)) by (bit_vector);
    }
}

/// The value of the product of a polynomial and `x + r` at a point is the
/// value of the polynomial times the value of `x + r`.
pub proof fn lemma_eval_mul_linear(p: Seq<u8>, r: u8, x: u8)
    requires
        p.len() >= 1,
    ensures
        eval(mul_linear(p, r), x) == gf_mul(eval(p, x), x ^ r),
{
    let q = mul_linear(p, r);
    let n = p.len() as int;
    lemma_eval_mul_linear_prefix(p, r, x, n);
    assert(q.drop_last() =~= q.take(n));
    assert(p.take(n) =~= p);
    assert(p.drop_last() =~= p.take(n - 1));
    let pn = eval(p, x);
    let pn1 = eval(p.take(n - 1), x);
    lemma_mul_distributive(x, pn, gf_mul(r, pn1));
    lemma_mul_associative(r, pn1, x);
    lemma_mul_distributive(r, gf_mul(pn1, x), p[n - 1]);
    lemma_mul_commutative(r, pn);
    lemma_mul_distributive(pn, x, r);
    let a = gf_mul(pn, x);
    let b = gf_mul(r, gf_mul(pn1, x));
    let d = gf_mul(r, p[n - 1]);
    assert(q.last() == 0u8 ^ d);
    assert(p.last() == p[n - 1]);
    assert((a ^ b) ^ (0u8 ^ d) == a ^ (b ^ d)) by (bit_vector);
}

/// The generator polynomial of degree `k` has `k + 1` coefficients and is
/// monic.
pub proof fn lemma_generator_shape(k: nat)
    ensures
        generator(k).len() == k + 1,
        generator(k)[0] == 1,
    decreases k,
{
    if k > 0 {
        lemma_generator_shape((k - 1) as nat);
        let c = generator((k - 1) as nat)[0];
        assert(c ^ 0u8 == c) by (bit_vector);
    }
}

/// Every power `x^i` with `i` below `k` is a root of the generator
/// polynomial of degree `k`.
pub proof fn lemma_generator_roots(k: nat, i: nat)
    requires
        i < k,
    ensures
        eval(generator(k), alpha_pow(i)) == 0,
    decreases k,
{
    let p = generator((k - 1) as nat);
    let r = alpha_pow((k - 1) as nat);
    let x = alpha_pow(i);
    lemma_generator_shape((k - 1) as nat);
    lemma_eval_mul_linear(p, r, x);
    if i == k - 1 {
        assert(x ^ x == 0) by (bit_vector);
        lemma_mul_zero_one(eval(p, x));
    } else {
        lemma_generator_roots((k - 1) as nat, i);
        lemma_mul_zero_one(x ^ r);
    }
}

/// Computes the generator polynomial of degree `k`.
pub fn generator_polynomial(k: usize) -> (g: Vec<u8>)
    requires
        k < usize::MAX,
    ensures
        g@ == generator(k as nat),
{
    let mut g: Vec<u8> = Vec::new();
    g.push(1);
    assert(g@ =~= seq![1u8]);
    let mut root: u8 = 1;
    let mut j: usize = 0;
    while j < k
        invariant
            j <= k,
            k < usize::MAX,
            g@ == generator(j as nat),
            root == alpha_pow(j as nat),
        decreases k - j,
    {
        proof {
            lemma_generator_shape(j as nat);
        }
        let len = g.len();
        let mut q: Vec<u8> = Vec::new();
        let mut i: usize = 0;
        while i <= len
            invariant
                i <= len + 1,
                len == g.len(),
                len < usize::MAX,
                q@ =~= mul_linear(g@, root).take(i as int),
            decreases len + 1 - i,
        {
            let high: u8 = if i < len {
                g[i]
            } else {
                0
            };
            let low: u8 = if i > 0 {
                multiply(root, g[i - 1])
            } else {
                0
            };
            q.push(high ^ low);
            i += 1;
        }
        assert(q@ =~= mul_linear(g@, root));
        g = q;
        root = mul_x(root);
        j += 1;
    }
    g
}

} // verus!
