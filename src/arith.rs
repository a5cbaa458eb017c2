//! Fixed-width big-endian magnitudes: the 32-byte proof-of-work targets and
//! the wider accumulators that hold cumulative chain work.
use core::cmp::Ordering;
use vstd::prelude::*;

verus! {

/// `256^n`.
pub open spec fn pow256(n: nat) -> nat
    decreases n,
{
    if n == 0 {
        1
    } else {
        256 * pow256((n - 1) as nat)
    }
}

/// The magnitude a big-endian byte string denotes.
pub open spec fn be_value(s: Seq<u8>) -> nat
    decreases s.len(),
{
    if s.len() == 0 {
        0
    } else {
        s[0] as nat * pow256((s.len() - 1) as nat) + be_value(s.subrange(1, s.len() as int))
    }
}

/// The magnitude of a little-endian byte string (a block hash as the chain
/// compares it with a target).
pub open spec fn le_value(s: Seq<u8>) -> nat {
    be_value(s.reverse())
}

/// Work of one block with the given target: `2^256 / (target + 1)`, with
/// targets 0 and 1 both giving `2^256 - 1` so the value fits 256 bits.
pub open spec fn work_value(target: nat) -> nat {
    if target <= 1 {
        (pow256(32) - 1) as nat
    } else {
        pow256(32) / (target + 1)
    }
}

/// The target a compact `bits` field encodes: a 24-bit mantissa scaled by
/// a byte exponent, zero when the mantissa's sign bit is set, reduced to
/// 256 bits.
pub open spec fn compact_target_value(bits: u32) -> nat {
    let e = bits as nat / 0x1000000;
    let m = bits as nat % 0x1000000;
    let mant = if e <= 3 {
        m / pow256((3 - e) as nat)
    } else {
        m
    };
    let shift = if e <= 3 {
        0
    } else {
        ((e - 3) as nat) % 32
    };
    if mant > 0x7fffff {
        0
    } else {
        (mant * pow256(shift)) % pow256(32)
    }
}

/// `256^(a+b) = 256^a * 256^b`.
pub proof fn lemma_pow256_add(a: nat, b: nat)
    ensures
        pow256(a + b) == pow256(a) * pow256(b),
    decreases a,
{
    if a > 0 {
        let a1 = (a - 1) as nat;
        lemma_pow256_add(a1, b);
        assert((a + b - 1) as nat == a1 + b);
        assert(pow256(a + b) == 256 * pow256(a1 + b));
        assert(pow256(a) == 256 * pow256(a1));
        let x = pow256(a1);
        let y = pow256(b);
        assert(256 * (x * y) == (256 * x) * y) by (nonlinear_arith);
    } else {
        assert(a + b == b);
        assert(pow256(a) == 1);
    }
}

/// A string of `n` bytes denotes less than `256^n`.
pub proof fn lemma_be_bound(s: Seq<u8>)
    ensures
        be_value(s) < pow256(s.len()),
    decreases s.len(),
{
    if s.len() > 0 {
        let rest = s.subrange(1, s.len() as int);
        lemma_be_bound(rest);
        let p = pow256((s.len() - 1) as nat);
        let d = s[0] as nat;
        assert(d <= 255);
        assert(d * p + be_value(rest) < 256 * p) by (nonlinear_arith)
            requires
                d <= 255,
                be_value(rest) < p,
        ;
    }
}

/// Unfolds one leading byte of the suffix `s[k..]`.
pub proof fn lemma_be_suffix(s: Seq<u8>, k: int)
    requires
        0 <= k < s.len(),
    ensures
        be_value(s.subrange(k, s.len() as int)) == s[k] as nat * pow256((s.len() - k - 1) as nat)
            + be_value(s.subrange(k + 1, s.len() as int)),
{
    let t = s.subrange(k, s.len() as int);
    assert(t.subrange(1, t.len() as int) =~= s.subrange(k + 1, s.len() as int));
}

/// Leading zero bytes do not change the magnitude.
pub proof fn lemma_be_leading_zeros(z: Seq<u8>, s: Seq<u8>)
    requires
        forall|i: int| 0 <= i < z.len() ==> z[i] == 0,
    ensures
        be_value(z + s) == be_value(s),
    decreases z.len(),
{
    if z.len() > 0 {
        let zs = z + s;
        let z1 = z.subrange(1, z.len() as int);
        assert(zs.subrange(1, zs.len() as int) =~= z1 + s);
        lemma_be_leading_zeros(z1, s);
        assert(zs[0] == 0);
    }
}

/// Two 32-byte arrays with the same bytes are equal.
pub proof fn lemma_bytes32_eq(a: [u8; 32], b: [u8; 32])
    requires
        a@ == b@,
    ensures
        a == b,
{
    assert forall|i: int| 0 <= i < 32 implies a[i] == b[i] by {
        vstd::array::lemma_array_index(a, i);
        vstd::array::lemma_array_index(b, i);
    }
    assert(a =~= b);
}

/// A string of zero bytes denotes zero.
pub proof fn lemma_be_leading_zeros_all(z: Seq<u8>)
    requires
        forall|i: int| 0 <= i < z.len() ==> z[i] == 0,
    ensures
        be_value(z) == 0,
{
    lemma_be_leading_zeros(z, Seq::<u8>::empty());
    assert(z + Seq::<u8>::empty() =~= z);
}

/// Two strings of one length that agree up to `i` and differ at `i` are
/// ordered by their bytes at `i`.
pub proof fn lemma_be_first_difference(a: Seq<u8>, b: Seq<u8>, i: int)
    requires
        a.len() == b.len(),
        0 <= i < a.len(),
        a.subrange(0, i) == b.subrange(0, i),
        a[i] < b[i],
    ensures
        be_value(a) < be_value(b),
    decreases i,
{
    if i == 0 {
        let n = a.len();
        let p = pow256((n - 1) as nat);
        let ra = a.subrange(1, n as int);
        let rb = b.subrange(1, n as int);
        lemma_be_bound(ra);
        let x = a[0] as nat;
        let y = b[0] as nat;
        assert(x * p + be_value(ra) < y * p + be_value(rb)) by (nonlinear_arith)
            requires
                x < y,
                be_value(ra) < p,
        ;
    } else {
        let n = a.len();
        let ra = a.subrange(1, n as int);
        let rb = b.subrange(1, n as int);
        assert(a[0] == a.subrange(0, i)[0]);
        assert(b[0] == b.subrange(0, i)[0]);
        assert(ra.subrange(0, i - 1) =~= a.subrange(0, i).subrange(1, i));
        assert(rb.subrange(0, i - 1) =~= b.subrange(0, i).subrange(1, i));
        assert(ra[i - 1] == a[i]);
        assert(rb[i - 1] == b[i]);
        lemma_be_first_difference(ra, rb, i - 1);
    }
}

/// Compares two big-endian magnitudes of one width.
pub fn compare_be(a: &[u8], b: &[u8]) -> (r: Ordering)
    requires
        a@.len() == b@.len(),
    ensures
        (r == Ordering::Less) <==> be_value(a@) < be_value(b@),
        (r == Ordering::Equal) <==> be_value(a@) == be_value(b@),
        (r == Ordering::Greater) <==> be_value(a@) > be_value(b@),
        (r == Ordering::Equal) <==> a@ == b@,
{
    let n = a.len();
    let mut i: usize = 0;
    while i < n
        invariant
            n == a@.len(),
            n == b@.len(),
            0 <= i <= n,
            a@.subrange(0, i as int) == b@.subrange(0, i as int),
        decreases n - i,
    {
        if a[i] < b[i] {
            proof {
                lemma_be_first_difference(a@, b@, i as int);
            }
            return Ordering::Less;
        }
        if a[i] > b[i] {
            proof {
                lemma_be_first_difference(b@, a@, i as int);
            }
            return Ordering::Greater;
        }
        proof {
            assert(a@.subrange(0, i + 1) =~= a@.subrange(0, i as int).push(a@[i as int]));
            assert(b@.subrange(0, i + 1) =~= b@.subrange(0, i as int).push(b@[i as int]));
        }
        i = i + 1;
    }
    proof {
        assert(a@ =~= a@.subrange(0, n as int));
        assert(b@ =~= b@.subrange(0, n as int));
    }
    Ordering::Equal
}

/// Multiplies a 32-byte magnitude in place by a small factor, byte by byte
/// from the least significant end, and returns what carries out of the top
/// byte.
pub fn mul_in_place(arr: &mut [u8; 32], multiplicator: u32) -> (carry: u64)
    ensures
        be_value(final(arr)@) + carry * pow256(32) == be_value(old(arr)@) * multiplicator,
        carry <= multiplicator,
{
    let ghost orig = arr@;
    let m: u64 = multiplicator as u64;
    let mut remainder: u64 = 0;
    let mut k: usize = 32;
    proof {
        assert(arr@.subrange(32, 32) =~= Seq::<u8>::empty());
        assert(orig.subrange(32, 32) =~= Seq::<u8>::empty());
        assert(be_value(Seq::<u8>::empty()) == 0);
    }
    while k > 0
        invariant
            0 <= k <= 32,
            arr@.len() == 32,
            orig.len() == 32,
            m == multiplicator,
            remainder <= m,
            arr@.subrange(0, k as int) == orig.subrange(0, k as int),
            be_value(arr@.subrange(k as int, 32)) + remainder * pow256((32 - k) as nat) == m
                * be_value(orig.subrange(k as int, 32)),
        decreases k,
    {
        let pos = k - 1;
        proof {
            assert(arr@[pos as int] == arr@.subrange(0, k as int)[pos as int]);
            assert(orig[pos as int] == orig.subrange(0, k as int)[pos as int]);
        }
        let digit = arr[pos] as u64;
        assert(digit * m <= 255 * m) by (nonlinear_arith)
            requires
                digit <= 255,
        ;
        let val = digit * m + remainder;
        let byte = val % 256;
        let ghost prev = arr@;
        let ghost carry = remainder;
        remainder = val / 256;
        arr[pos] = byte as u8;
        proof {
            let p = pow256((32 - k) as nat);
            let hi = be_value(prev.subrange(k as int, 32));
            let lo_orig = be_value(orig.subrange(k as int, 32));
            assert(arr@.subrange(k as int, 32) =~= prev.subrange(k as int, 32));
            lemma_be_suffix(arr@, pos as int);
            lemma_be_suffix(orig, pos as int);
            assert((32 - pos - 1) as nat == (32 - k) as nat);
            assert(pow256((32 - pos) as nat) == 256 * p);
            assert(val == byte + 256 * remainder);
            assert(byte * p + hi + remainder * (256 * p) == m * (digit * p + lo_orig))
                by (nonlinear_arith)
                requires
                    hi + carry * p == m * lo_orig,
                    val == digit * m + carry,
                    val == byte + 256 * remainder,
            ;
            assert(remainder <= m) by (nonlinear_arith)
                requires
                    val == digit * m + carry,
                    digit <= 255,
                    carry <= m,
                    remainder == val / 256,
            ;
            assert(arr@.subrange(0, pos as int) =~= prev.subrange(0, k as int).subrange(0, pos as int));
            assert(orig.subrange(0, pos as int) =~= orig.subrange(0, k as int).subrange(0, pos as int));
        }
        k = pos;
    }
    proof {
        assert(arr@.subrange(0, 32) =~= arr@);
        assert(orig.subrange(0, 32) =~= orig);
        let v = be_value(orig);
        assert(m * v == v * m) by (nonlinear_arith);
    }
    remainder
}

/// Adds one block's work to a cumulative-work accumulator.
pub fn add_work(acc: &mut [u8; 40], work: &[u8; 32])
    requires
        be_value(old(acc)@) + be_value(work@) < pow256(40),
    ensures
        be_value(final(acc)@) == be_value(old(acc)@) + be_value(work@),
{
    let ghost orig = acc@;
    let ghost wide = Seq::new(8, |i: int| 0u8) + work@;
    proof {
        lemma_be_leading_zeros(Seq::new(8, |i: int| 0u8), work@);
        assert(acc@.subrange(40, 40) =~= Seq::<u8>::empty());
        assert(wide.subrange(40, 40) =~= Seq::<u8>::empty());
        assert(orig.subrange(40, 40) =~= Seq::<u8>::empty());
        assert(be_value(Seq::<u8>::empty()) == 0);
    }
    let mut carry: u16 = 0;
    let mut k: usize = 40;
    while k > 0
        invariant
            0 <= k <= 40,
            acc@.len() == 40,
            orig.len() == 40,
            wide.len() == 40,
            forall|i: int| 0 <= i < 8 ==> wide[i] == 0,
            forall|i: int| 8 <= i < 40 ==> wide[i] == work@[i - 8],
            carry <= 1,
            acc@.subrange(0, k as int) == orig.subrange(0, k as int),
            be_value(acc@.subrange(k as int, 40)) + carry * pow256((40 - k) as nat) == be_value(
                orig.subrange(k as int, 40),
            ) + be_value(wide.subrange(k as int, 40)),
        decreases k,
    {
        let pos = k - 1;
        proof {
            assert(acc@[pos as int] == acc@.subrange(0, k as int)[pos as int]);
            assert(orig[pos as int] == orig.subrange(0, k as int)[pos as int]);
        }
        let w: u16 = if pos >= 8 {
            work[pos - 8] as u16
        } else {
            0
        };
        let val: u16 = acc[pos] as u16 + w + carry;
        let ghost prev = acc@;
        let ghost c0 = carry;
        carry = val / 256;
        acc[pos] = (val % 256) as u8;
        proof {
            let p = pow256((40 - k) as nat);
            assert(acc@.subrange(k as int, 40) =~= prev.subrange(k as int, 40));
            lemma_be_suffix(acc@, pos as int);
            lemma_be_suffix(orig, pos as int);
            lemma_be_suffix(wide, pos as int);
            assert((40 - pos - 1) as nat == (40 - k) as nat);
            assert(pow256((40 - pos) as nat) == 256 * p);
            assert(w == wide[pos as int]);
            let b = (val % 256) as nat;
            assert((val % 256) * p + be_value(prev.subrange(k as int, 40)) + carry * (256 * p)
                == (orig[pos as int] as nat) * p + be_value(orig.subrange(k as int, 40)) + (
            wide[pos as int] as nat) * p + be_value(wide.subrange(k as int, 40)))
                by (nonlinear_arith)
                requires
                    be_value(prev.subrange(k as int, 40)) + c0 * p == be_value(
                        orig.subrange(k as int, 40),
                    ) + be_value(wide.subrange(k as int, 40)),
                    val == orig[pos as int] + wide[pos as int] + c0,
                    carry == val / 256,
            ;
            assert(acc@.subrange(0, pos as int) =~= prev.subrange(0, k as int).subrange(0, pos as int));
            assert(orig.subrange(0, pos as int) =~= orig.subrange(0, k as int).subrange(0, pos as int));
        }
        k = pos;
    }
    proof {
        assert(acc@.subrange(0, 40) =~= acc@);
        assert(orig.subrange(0, 40) =~= orig);
        assert(wide.subrange(0, 40) =~= wide);
        lemma_be_bound(acc@);
        if carry == 1 {
            assert(be_value(acc@) + pow256(40) >= pow256(40));
        }
    }
}

/// The bytes of a hash in reverse order: its little-endian magnitude read
/// big-endian.
pub fn reversed(h: &[u8; 32]) -> (r: [u8; 32])
    ensures
        r@ == h@.reverse(),
{
    let mut r: [u8; 32] = [0u8; 32];
    let mut i: usize = 0;
    while i < 32
        invariant
            0 <= i <= 32,
            r@.len() == 32,
            forall|j: int| 0 <= j < i ==> r@[j] == h@[31 - j],
        decreases 32 - i,
    {
        r[i] = h[31 - i];
        i = i + 1;
    }
    proof {
        assert(r@ =~= h@.reverse());
    }
    r
}

/// Relies on bitcoin's `Target::from_compact` and `Target::to_be_bytes`:
/// the 256-bit target that a header's compact `bits` field encodes, as
/// big-endian bytes.
#[verifier::external_body]
pub(crate) fn target_from_bits(bits: u32) -> (r: [u8; 32])
    ensures
        be_value(r@) == compact_target_value(bits),
{
    bitcoin::pow::Target::from_compact(bitcoin::pow::CompactTarget::from_consensus(bits)).to_be_bytes()
}

/// Relies on bitcoin's `Target::to_work` and `Work::to_be_bytes`: the work
/// of one block mined at the given big-endian target.
#[verifier::external_body]
pub(crate) fn target_work(target: &[u8; 32]) -> (r: [u8; 32])
    ensures
        be_value(r@) == work_value(be_value(target@)),
{
    bitcoin::pow::Target::from_be_bytes(*target).to_work().to_be_bytes()
}

} // verus!
