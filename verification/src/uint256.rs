use vstd::prelude::*;

verus! {

/// `pow256(n)` is `256^n`: the weight of a byte `n` places from the
/// low end of a big-endian byte string.
pub open spec fn pow256(n: nat) -> nat
    decreases n,
{
    if n == 0 {
        1
    } else {
        256 * pow256((n - 1) as nat)
    }
}

/// The unsigned integer that a big-endian byte string denotes.
pub open spec fn be_val(s: Seq<u8>) -> nat
    decreases s.len(),
{
    if s.len() == 0 {
        0
    } else {
        (be_val(s.drop_last()) * 256 + s.last()) as nat
    }
}

pub proof fn lemma_pow256_pos(n: nat)
    ensures
        pow256(n) >= 1,
    decreases n,
{
    if n > 0 {
        lemma_pow256_pos((n - 1) as nat);
    }
}

pub proof fn lemma_be_val_push(s: Seq<u8>, b: u8)
    ensures
        be_val(s.push(b)) == be_val(s) * 256 + b,
{
    assert(s.push(b).drop_last() =~= s);
    assert(s.push(b).last() == b);
}

/// A byte string of zeros denotes zero.
pub proof fn lemma_be_val_zeros(s: Seq<u8>)
    requires
        forall|i: int| 0 <= i < s.len() ==> s[i] == 0,
    ensures
        be_val(s) == 0,
    decreases s.len(),
{
    if s.len() > 0 {
        lemma_be_val_zeros(s.drop_last());
    }
}

/// Splitting a byte string splits its value by place weight.
pub proof fn lemma_be_val_concat(a: Seq<u8>, b: Seq<u8>)
    ensures
        be_val(a + b) == be_val(a) * pow256(b.len()) + be_val(b),
    decreases b.len(),
{
    if b.len() == 0 {
        assert(a + b =~= a);
        assert(pow256(0nat) == 1);
        assert(be_val(a + b) == be_val(a) * pow256(b.len()) + be_val(b));
    } else {
        let b0 = b.drop_last();
        lemma_be_val_concat(a, b0);
        assert((a + b).drop_last() =~= a + b0);
        assert((a + b).last() == b.last());
        assert(be_val(a + b) == be_val(a + b0) * 256 + b.last());
        lemma_pow256_unfold(b.len());
        assert(b0.len() == b.len() - 1);
        let va = be_val(a);
        let p0 = pow256(b0.len());
        assert((va * p0 + be_val(b0)) * 256 + b.last() == va * (p0 * 256) + (be_val(b0) * 256
            + b.last())) by (nonlinear_arith);
        assert(be_val(b) == be_val(b0) * 256 + b.last());
        assert(pow256(b.len()) == p0 * 256);
    }
}

/// A nonzero byte bounds the value from below by its place weight.
pub proof fn lemma_be_val_lower(s: Seq<u8>, i: int)
    requires
        0 <= i < s.len(),
        s[i] >= 1,
    ensures
        be_val(s) >= pow256((s.len() - 1 - i) as nat),
    decreases s.len(),
{
    if i == s.len() - 1 {
        assert(be_val(s) >= s.last());
    } else {
        let p = s.drop_last();
        lemma_be_val_lower(p, i);
        let w = pow256((s.len() - 2 - i) as nat);
        assert(be_val(p) * 256 >= w * 256) by (nonlinear_arith)
            requires
                be_val(p) >= w,
        ;
        lemma_pow256_unfold((s.len() - 1 - i) as nat);
    }
}

/// `pow256` is monotone.
pub proof fn lemma_pow256_mono(a: nat, b: nat)
    requires
        a <= b,
    ensures
        pow256(a) <= pow256(b),
    decreases b,
{
    if a < b {
        lemma_pow256_mono(a, (b - 1) as nat);
        lemma_pow256_pos((b - 1) as nat);
    }
}

pub proof fn lemma_pow256_unfold(n: nat)
    requires
        n >= 1,
    ensures
        pow256(n) == pow256((n - 1) as nat) * 256,
{
}

/// A 256-bit unsigned integer, held as its 32-byte big-endian form.
///
/// The byte form is the ABI wire form: encoding the value is the
/// identity on these bytes, which keeps the codec exact.
pub struct Uint256 {
    bytes: Vec<u8>,
}

impl View for Uint256 {
    type V = Seq<u8>;

    closed spec fn view(&self) -> Seq<u8> {
        self.bytes@
    }
}

impl Uint256 {
    /// Well-formed: exactly 32 bytes.
    pub open spec fn wf(&self) -> bool {
        self@.len() == 32
    }

    /// The numeric value the bytes denote.
    pub open spec fn value(&self) -> nat {
        be_val(self@)
    }

    /// The zero value.
    pub fn zero() -> (r: Uint256)
        ensures
            r.wf(),
            r.value() == 0,
            forall|i: int| 0 <= i < 32 ==> r@[i] == 0,
    {
        let mut b: Vec<u8> = Vec::new();
        let mut i: usize = 0;
        while i < 32
            invariant
                i <= 32,
                b@.len() == i,
                forall|j: int| 0 <= j < i ==> b@[j] == 0,
            decreases 32 - i,
        {
            b.push(0);
            i = i + 1;
        }
        proof {
            lemma_be_val_zeros(b@);
        }
        Uint256 { bytes: b }
    }

    /// Builds the value from a 128-bit integer.
    pub fn from_u128(x: u128) -> (r: Uint256)
        ensures
            r.wf(),
            r.value() == x as nat,
    {
        let mut b: Vec<u8> = Vec::new();
        proof {
            reveal_with_fuel(pow256, 17);
            assert(pow256(16) == 0x100000000000000000000000000000000);
        }
        push_be_bytes(&mut b, 0, 16);
        push_be_bytes(&mut b, x, 16);
        proof {
            lemma_pow256_pos(16);
            assert(be_val(b@) == x as nat) by (nonlinear_arith)
                requires
                    be_val(b@) == (0nat * pow256(16) + 0nat) * pow256(16) + x as nat,
            ;
        }
        Uint256 { bytes: b }
    }

    /// Builds the value from a 64-bit integer.
    pub fn from_u64(x: u64) -> (r: Uint256)
        ensures
            r.wf(),
            r.value() == x as nat,
    {
        Uint256::from_u128(x as u128)
    }

    /// The 32-byte big-endian form of the value.
    pub fn to_be_bytes(&self) -> (r: Vec<u8>)
        ensures
            r@ == self@,
    {
        clone_bytes(&self.bytes)
    }

    /// Rebuilds a value from a 32-byte big-endian word.
    pub fn from_be_word(word: &Vec<u8>) -> (r: Uint256)
        requires
            word@.len() == 32,
        ensures
            r.wf(),
            r@ == word@,
    {
        Uint256 { bytes: clone_bytes(word) }
    }

    /// Duplicates the value.
    pub fn duplicate(&self) -> (r: Uint256)
        ensures
            r@ == self@,
    {
        Uint256 { bytes: clone_bytes(&self.bytes) }
    }

    /// The quotient by a nonzero 64-bit divisor, by schoolbook long
    /// division over the bytes.
    pub fn div_u64(&self, divisor: u64) -> (r: Uint256)
        requires
            self.wf(),
            divisor > 0,
        ensures
            r.wf(),
            r.value() == self.value() / divisor as nat,
    {
        let mut q: Vec<u8> = Vec::new();
        let mut rem: u64 = 0;
        let mut i: usize = 0;
        proof {
            assert(self@.take(0) =~= Seq::<u8>::empty());
            assert(be_val(q@) == 0);
            assert(be_val(q@) * divisor == 0) by (nonlinear_arith)
                requires
                    be_val(q@) == 0,
            ;
        }
        while i < 32
            invariant
                i <= 32,
                self.wf(),
                q@.len() == i,
                rem < divisor,
                be_val(self@.take(i as int)) == be_val(q@) * divisor + rem,
            decreases 32 - i,
        {
            let acc: u128 = (rem as u128) * 256 + (self.bytes[i] as u128);
            proof {
                assert(acc / (divisor as u128) < 256) by (nonlinear_arith)
                    requires
                        (acc as nat) < (divisor as nat) * 256,
                        divisor > 0,
                ;
            }
            let qd = (acc / (divisor as u128)) as u8;
            let rem2 = (acc % (divisor as u128)) as u64;
            let ghost q0 = q@;
            let ghost qv = be_val(q@);
            q.push(qd);
            proof {
                lemma_be_val_push(q0, qd);
                assert(q@ == q0.push(qd));
                assert(self@.take(i + 1 as int).drop_last() =~= self@.take(i as int));
                vstd::arithmetic::div_mod::lemma_fundamental_div_mod(
                    acc as int,
                    divisor as int,
                );
                assert((qv * divisor + rem) * 256 + self@[i as int] == (qv * 256 + qd) * divisor
                    + rem2) by (nonlinear_arith)
                    requires
                        (acc as nat) == (rem as nat) * 256 + self@[i as int],
                        acc as int == (divisor as int) * (acc as int / divisor as int) + (
                        acc as int % divisor as int),
                        qd == acc as nat / divisor as nat,
                        rem2 == acc as nat % divisor as nat,
                ;
            }
            rem = rem2;
            i = i + 1;
        }
        proof {
            assert(self@.take(32) =~= self@);
            vstd::arithmetic::div_mod::lemma_fundamental_div_mod_converse(
                be_val(self@) as int,
                divisor as int,
                be_val(q@) as int,
                rem as int,
            );
        }
        Uint256 { bytes: q }
    }

    /// Byte-for-byte equality, which is value equality since the
    /// byte form is canonical.
    pub fn equals(&self, other: &Uint256) -> (r: bool)
        ensures
            r <==> self@ == other@,
    {
        eq_bytes(&self.bytes, &other.bytes)
    }
}

/// Appends the `n`-byte big-endian form of `x` (which must fit).
fn push_be_bytes(b: &mut Vec<u8>, x: u128, n: usize)
    requires
        n <= 16,
        old(b)@.len() + n <= 32,
        (x as nat) < pow256(n as nat),
    ensures
        final(b)@.len() == old(b)@.len() + n,
        be_val(final(b)@) == be_val(old(b)@) * pow256(n as nat) + x,
    decreases n,
{
    if n == 0 {
        assert(be_val(b@) == be_val(old(b)@) * 1 + 0);
    } else {
        let hi = x / 256;
        let lo = (x % 256) as u8;
        proof {
            lemma_pow256_unfold(n as nat);
            lemma_pow256_pos((n - 1) as nat);
            assert((hi as nat) < pow256((n - 1) as nat)) by (nonlinear_arith)
                requires
                    (x as nat) < pow256((n - 1) as nat) * 256,
                    hi == x / 256,
            ;
        }
        push_be_bytes(b, hi, n - 1);
        let ghost mid = b@;
        b.push(lo);
        proof {
            lemma_be_val_push(mid, lo);
            let n1 = (n - 1) as nat;
            let v0 = be_val(old(b)@);
            assert((v0 * pow256(n1) + hi as nat) * 256 + lo as nat == v0 * (pow256(n1) * 256) + (
            hi as nat * 256 + lo as nat)) by (nonlinear_arith);
            assert(hi as nat * 256 + lo as nat == x as nat) by (nonlinear_arith)
                requires
                    hi == x / 256,
                    lo == x % 256,
            ;
        }
    }
}

/// Copies a byte vector.
pub(crate) fn clone_bytes(b: &Vec<u8>) -> (r: Vec<u8>)
    ensures
        r@ == b@,
{
    let mut r: Vec<u8> = Vec::new();
    let mut i: usize = 0;
    while i < b.len()
        invariant
            i <= b@.len(),
            r@ =~= b@.take(i as int),
        decreases b@.len() - i,
    {
        r.push(b[i]);
        i = i + 1;
    }
    proof {
        assert(r@ =~= b@);
    }
    r
}

/// Compares two byte vectors for equality.
pub(crate) fn eq_bytes(a: &Vec<u8>, b: &Vec<u8>) -> (r: bool)
    ensures
        r <==> a@ == b@,
{
    if a.len() != b.len() {
        proof {
            assert(a@.len() != b@.len());
        }
        return false;
    }
    let mut i: usize = 0;
    while i < a.len()
        invariant
            i <= a@.len(),
            a@.len() == b@.len(),
            forall|j: int| 0 <= j < i ==> a@[j] == b@[j],
        decreases a@.len() - i,
    {
        if a[i] != b[i] {
            return false;
        }
        i = i + 1;
    }
    proof {
        assert(a@ =~= b@);
    }
    true
}

} // verus!
