use vstd::prelude::*;

use crate::errors::SwapError;

verus! {

/// A decimal digit character.
pub open spec fn is_digit(c: char) -> bool {
    48 <= c as u32 && c as u32 <= 57
}

/// The value of a decimal digit character.
pub open spec fn digit_val(c: char) -> nat {
    (c as u32 - 48) as nat
}

/// The value of a decimal digit string.
pub open spec fn dec_val(s: Seq<char>) -> nat
    decreases s.len(),
{
    if s.len() == 0 {
        0
    } else {
        dec_val(s.drop_last()) * 10 + digit_val(s.last())
    }
}

/// `pow10(n)` is `10^n`.
pub open spec fn pow10(n: nat) -> nat
    decreases n,
{
    if n == 0 {
        1
    } else {
        10 * pow10((n - 1) as nat)
    }
}

/// One more than the largest value a 128-bit integer holds.
pub open spec fn u128_limit() -> nat {
    0x100000000000000000000000000000000nat
}

/// A nonempty all-digit string.
pub open spec fn is_dec_str(s: Seq<char>) -> bool {
    s.len() >= 1 && forall|i: int| 0 <= i < s.len() ==> is_digit(#[trigger] s[i])
}

/// A well-formed decimal amount split at `d`: digits, then at `d` an
/// optional dot, then digits, with at least one digit in all.
pub open spec fn amount_parts_ok(s: Seq<char>, d: int) -> bool {
    &&& 0 <= d <= s.len()
    &&& s.len() >= 1
    &&& forall|i: int| 0 <= i < d ==> is_digit(#[trigger] s[i])
    &&& d < s.len() ==> s[d] == '.'
    &&& forall|i: int| d < i < s.len() ==> is_digit(#[trigger] s[i])
    &&& d >= 1 || d + 2 <= s.len()
}

/// The integer the amount denotes after scaling by `10^decimals` and
/// truncating: the integer digits carry the full weight, and of the
/// fractional digits only the first `decimals` count.
pub open spec fn spec_scaled(s: Seq<char>, d: int, decimals: nat) -> nat {
    let ip = s.take(d);
    let fp = if d < s.len() {
        s.subrange(d + 1, s.len() as int)
    } else {
        Seq::<char>::empty()
    };
    let k = if decimals <= fp.len() {
        decimals
    } else {
        fp.len()
    };
    dec_val(ip) * pow10(decimals) + dec_val(fp.take(k as int)) * pow10((decimals - k) as nat)
}

pub proof fn lemma_pow10_pos(n: nat)
    ensures
        pow10(n) >= 1,
    decreases n,
{
    if n > 0 {
        lemma_pow10_pos((n - 1) as nat);
    }
}

/// `pow10` is monotone.
pub proof fn lemma_pow10_mono(a: nat, b: nat)
    requires
        a <= b,
    ensures
        pow10(a) <= pow10(b),
    decreases b,
{
    if a < b {
        lemma_pow10_mono(a, (b - 1) as nat);
        lemma_pow10_pos((b - 1) as nat);
    }
}

/// Powers of ten multiply by adding exponents.
pub proof fn lemma_pow10_add(a: nat, b: nat)
    ensures
        pow10(a + b) == pow10(a) * pow10(b),
    decreases a,
{
    if a == 0 {
        assert(pow10(a) == 1);
        assert(a + b == b);
        assert(pow10(a + b) == 1 * pow10(b));
    } else {
        let n1 = (a - 1) as nat;
        lemma_pow10_add(n1, b);
        assert((a + b - 1) as nat == n1 + b);
        assert(pow10(a + b) == 10 * pow10(n1 + b));
        assert(pow10(n1 + b) == pow10(n1) * pow10(b));
        assert(10 * (pow10(n1) * pow10(b)) == (10 * pow10(n1)) * pow10(b)) by (nonlinear_arith);
        assert(pow10(a) == 10 * pow10(n1));
    }
}

/// A digit string of length `n` denotes less than `10^n`.
pub proof fn lemma_dec_val_bound(s: Seq<char>)
    requires
        forall|i: int| 0 <= i < s.len() ==> is_digit(#[trigger] s[i]),
    ensures
        dec_val(s) < pow10(s.len()),
    decreases s.len(),
{
    if s.len() > 0 {
        let p = s.drop_last();
        lemma_dec_val_bound(p);
        assert(is_digit(s.last()));
        assert(dec_val(p) * 10 + digit_val(s.last()) < pow10(p.len()) * 10) by (nonlinear_arith)
            requires
                dec_val(p) < pow10(p.len()),
                digit_val(s.last()) < 10,
        ;
        assert(pow10(s.len()) == 10 * pow10(p.len()));
    }
}

/// A prefix of a digit string denotes no more than the whole.
pub proof fn lemma_dec_val_take_le(s: Seq<char>, i: int)
    requires
        0 <= i <= s.len(),
    ensures
        dec_val(s.take(i)) <= dec_val(s),
    decreases s.len(),
{
    if i == s.len() {
        assert(s.take(i) =~= s);
    } else {
        let p = s.drop_last();
        assert(p.take(i) =~= s.take(i));
        lemma_dec_val_take_le(p, i);
        assert(dec_val(p) * 10 >= dec_val(p) * 1) by (nonlinear_arith);
    }
}

/// The largest power of ten a 128-bit integer holds.
pub proof fn lemma_pow10_38()
    ensures
        pow10(38) == 0x4b3b4ca85a86c47a098a224000000000nat,
{
    reveal_with_fuel(pow10, 39);
}

/// The exact power of ten, for exponents that fit 128 bits.
pub fn pow10_u128(n: u32) -> (r: u128)
    requires
        n <= 38,
    ensures
        r as nat == pow10(n as nat),
{
    proof {
        lemma_pow10_38();
    }
    let mut r: u128 = 1;
    let mut i: u32 = 0;
    while i < n
        invariant
            i <= n <= 38,
            r as nat == pow10(i as nat),
        decreases n - i,
    {
        proof {
            lemma_pow10_mono((i + 1) as nat, 38);
            lemma_pow10_38();
            assert(pow10((i + 1) as nat) == 10 * pow10(i as nat));
        }
        r = r * 10;
        i = i + 1;
    }
    r
}

/// Parses a nonempty all-digit string as a 64-bit integer; anything
/// else, or a value that does not fit, is a `ParseError`.
pub fn parse_chain_id(s: &str) -> (r: Result<u64, SwapError>)
    ensures
        is_dec_str(s@) && dec_val(s@) <= u64::MAX ==> (r matches Ok(v) && v as nat == dec_val(s@)),
        !(is_dec_str(s@) && dec_val(s@) <= u64::MAX) ==> r == Result::<u64, SwapError>::Err(
            SwapError::ParseError,
        ),
{
    let n = s.unicode_len();
    if n == 0 {
        return Err(SwapError::ParseError);
    }
    let mut acc: u64 = 0;
    let mut i: usize = 0;
    while i < n
        invariant
            0 < n == s@.len(),
            i <= n,
            acc as nat == dec_val(s@.take(i as int)),
            forall|j: int| 0 <= j < i ==> is_digit(#[trigger] s@[j]),
        decreases n - i,
    {
        let c = s.get_char(i);
        let u = c as u32;
        if !(48 <= u && u <= 57) {
            proof {
                assert(!is_digit(s@[i as int]));
            }
            return Err(SwapError::ParseError);
        }
        let d = (u - 48) as u64;
        proof {
            assert(s@.take(i + 1 as int).drop_last() =~= s@.take(i as int));
        }
        let step = match acc.checked_mul(10) {
            Some(m) => m.checked_add(d),
            None => None,
        };
        match step {
            Some(v) => {
                acc = v;
            },
            None => {
                proof {
                    lemma_dec_val_take_le(s@, i + 1);
                }
                return Err(SwapError::ParseError);
            },
        }
        i = i + 1;
    }
    proof {
        assert(s@.take(n as int) =~= s@);
    }
    Ok(acc)
}

/// Parses a human-entered decimal amount (digits with an optional
/// single dot) and scales it by `10^decimals`, truncating fractional
/// digits beyond that.  A malformed string, or a scaled value that
/// does not fit 128 bits, is a `ParseError`.
#[verifier::rlimit(50)]
pub fn scale_amount(s: &str, decimals: u32) -> (r: Result<u128, SwapError>)
    requires
        decimals <= 38,
    ensures
        forall|d: int|
            amount_parts_ok(s@, d) && spec_scaled(s@, d, decimals as nat) < u128_limit() ==> (
            r matches Ok(v) && v as nat == spec_scaled(s@, d, decimals as nat)),
        forall|d: int|
            amount_parts_ok(s@, d) && spec_scaled(s@, d, decimals as nat) >= u128_limit() ==> r
                == Result::<u128, SwapError>::Err(SwapError::ParseError),
        !(exists|d: int| amount_parts_ok(s@, d)) ==> r == Result::<u128, SwapError>::Err(
            SwapError::ParseError,
        ),
{
    let n = s.unicode_len();
    if n == 0 {
        return Err(SwapError::ParseError);
    }
    // The first dot, or `n` when there is none.
    let mut dpos: usize = n;
    let mut i: usize = 0;
    while i < n
        invariant
            0 < n == s@.len(),
            i <= n,
            dpos == n || (dpos < i && s@[dpos as int] == '.'),
            forall|j: int| 0 <= j < i && j < dpos ==> s@[j] != '.',
        decreases n - i,
    {
        if s.get_char(i) == '.' {
            if dpos == n {
                dpos = i;
            }
        }
        i = i + 1;
    }
    // Every other position must hold a digit.
    let mut k: usize = 0;
    while k < n
        invariant
            0 < n == s@.len(),
            k <= n,
            dpos == n || (dpos < n && s@[dpos as int] == '.'),
            forall|j: int| 0 <= j < n && j < dpos ==> s@[j] != '.',
            forall|j: int| 0 <= j < k && j != dpos ==> is_digit(#[trigger] s@[j]),
        decreases n - k,
    {
        if k != dpos {
            let c = s.get_char(k);
            let u = c as u32;
            if !(48 <= u && u <= 57) {
                proof {
                    lemma_only_split(s@, dpos as int);
                    assert(!is_digit(s@[k as int]));
                    assert(forall|d: int| !amount_parts_ok(s@, d));
                }
                return Err(SwapError::ParseError);
            }
        }
        k = k + 1;
    }
    // At least one digit somewhere.
    if !(dpos >= 1 || dpos + 2 <= n) {
        proof {
            lemma_only_split(s@, dpos as int);
        }
        return Err(SwapError::ParseError);
    }
    proof {
        lemma_only_split(s@, dpos as int);
        assert(amount_parts_ok(s@, dpos as int));
    }
    let ghost target = spec_scaled(s@, dpos as int, decimals as nat);
    // Integer part.
    let mut acc: u128 = 0;
    let mut i2: usize = 0;
    while i2 < dpos
        invariant
            0 < n == s@.len(),
            i2 <= dpos <= n,
            decimals <= 38,
            target == spec_scaled(s@, dpos as int, decimals as nat),
            forall|d2: int| amount_parts_ok(s@, d2) ==> d2 == dpos as int,
            forall|j: int| 0 <= j < n && j != dpos ==> is_digit(#[trigger] s@[j]),
            acc as nat == dec_val(s@.take(i2 as int)),
        decreases dpos - i2,
    {
        let c = s.get_char(i2);
        let u = c as u32;
        let d = (u - 48) as u128;
        proof {
            assert(s@.take(i2 + 1 as int).drop_last() =~= s@.take(i2 as int));
        }
        let step = match acc.checked_mul(10) {
            Some(m) => m.checked_add(d),
            None => None,
        };
        match step {
            Some(v) => {
                acc = v;
            },
            None => {
                proof {
                    let t1 = s@.take(i2 + 1 as int);
                    assert(dec_val(t1) == acc as nat * 10 + digit_val(s@[i2 as int]));
                    assert(digit_val(s@[i2 as int]) == d as nat);
                    assert(dec_val(t1) >= u128_limit());
                    lemma_dec_val_take_le(s@.take(dpos as int), i2 + 1);
                    assert(s@.take(dpos as int).take(i2 + 1 as int) =~= t1);
                    assert(dec_val(s@.take(dpos as int)) >= dec_val(t1));
                    lemma_scaled_ge_int_part(s@, dpos as int, decimals as nat);
                    assert(target >= dec_val(s@.take(dpos as int)));
                    assert(target >= u128_limit());
                }
                return Err(SwapError::ParseError);
            },
        }
        i2 = i2 + 1;
    }
    proof {
        assert(s@.take(i2 as int) =~= s@.take(dpos as int));
    }
    // Scale the integer part.
    let scale = pow10_u128(decimals);
    let scaled_int = match acc.checked_mul(scale) {
        Some(v) => v,
        None => {
            proof {
                lemma_scaled_ge_int_part(s@, dpos as int, decimals as nat);
            }
            return Err(SwapError::ParseError);
        },
    };
    // Fractional part: only the first `decimals` digits count.
    let flen: usize = if dpos < n {
        n - dpos - 1
    } else {
        0
    };
    let kf: usize = if (decimals as usize) <= flen {
        decimals as usize
    } else {
        flen
    };
    let ghost fp = if dpos < n as int {
        s@.subrange(dpos + 1 as int, n as int)
    } else {
        Seq::<char>::empty()
    };
    let mut facc: u128 = 0;
    let mut j: usize = 0;
    while j < kf
        invariant
            0 < n == s@.len(),
            dpos <= n,
            dpos < n ==> fp =~= s@.subrange(dpos + 1 as int, n as int),
            dpos == n ==> fp =~= Seq::<char>::empty(),
            kf <= fp.len(),
            kf <= decimals <= 38,
            j <= kf,
            forall|j2: int| 0 <= j2 < n && j2 != dpos ==> is_digit(#[trigger] s@[j2]),
            facc as nat == dec_val(fp.take(j as int)),
            (facc as nat) < pow10(j as nat),
        decreases kf - j,
    {
        let c = s.get_char(dpos + 1 + j);
        let u = c as u32;
        let d = (u - 48) as u128;
        proof {
            assert(fp[j as int] == s@[dpos + 1 + j as int]);
            assert(is_digit(fp[j as int]));
            assert(fp.take(j + 1 as int).drop_last() =~= fp.take(j as int));
            lemma_pow10_mono((j + 1) as nat, 38);
            lemma_pow10_38();
            assert(pow10((j + 1) as nat) == 10 * pow10(j as nat));
            assert(dec_val(fp.take(j as int)) * 10 + digit_val(fp[j as int]) < pow10(
                (j + 1) as nat,
            )) by (nonlinear_arith)
                requires
                    dec_val(fp.take(j as int)) < pow10(j as nat),
                    digit_val(fp[j as int]) < 10,
                    pow10((j + 1) as nat) == 10 * pow10(j as nat),
            ;
        }
        facc = facc * 10 + d;
        j = j + 1;
    }
    // Weight of the uncounted fractional places.
    let fscale = pow10_u128(decimals - (kf as u32));
    proof {
        lemma_dec_val_bound(fp.take(kf as int));
        lemma_pow10_pos((decimals - kf) as nat);
        lemma_pow10_add(kf as nat, (decimals - kf) as nat);
        assert(dec_val(fp.take(kf as int)) * pow10((decimals - kf) as nat) < pow10(
            kf as nat,
        ) * pow10((decimals - kf) as nat)) by (nonlinear_arith)
            requires
                dec_val(fp.take(kf as int)) < pow10(kf as nat),
                pow10((decimals - kf) as nat) >= 1,
        ;
        lemma_pow10_mono(decimals as nat, 38);
        lemma_pow10_38();
    }
    let frac = facc * fscale;
    let total = match scaled_int.checked_add(frac) {
        Some(v) => v,
        None => {
            proof {
                assert(target >= u128_limit());
            }
            return Err(SwapError::ParseError);
        },
    };
    proof {
        assert(total as nat == target);
    }
    Ok(total)
}

/// Any well-formed split of a string whose only dot can sit at `dpos`
/// is at `dpos` itself.
proof fn lemma_only_split(s: Seq<char>, dpos: int)
    requires
        0 <= dpos <= s.len(),
        dpos < s.len() ==> s[dpos] == '.',
        forall|j: int| 0 <= j < s.len() && j < dpos ==> s[j] != '.',
    ensures
        forall|d: int| amount_parts_ok(s, d) ==> d == dpos,
{
    assert forall|d: int| amount_parts_ok(s, d) implies d == dpos by {
        if d < dpos {
            assert(d < s.len());
            assert(s[d] == '.');
            assert(!is_digit('.')) by {
                assert('.' as u32 == 46);
            }
        } else if d > dpos {
            assert(dpos < s.len());
            assert(is_digit(s[dpos]));
            assert(!is_digit('.')) by {
                assert('.' as u32 == 46);
            }
        }
    }
}

/// The scaled value is at least the weighted integer part.
proof fn lemma_scaled_ge_int_part(s: Seq<char>, d: int, decimals: nat)
    requires
        0 <= d <= s.len(),
    ensures
        spec_scaled(s, d, decimals) >= dec_val(s.take(d)),
        spec_scaled(s, d, decimals) >= dec_val(s.take(d)) * pow10(decimals),
{
    lemma_pow10_pos(decimals);
    assert(dec_val(s.take(d)) * pow10(decimals) >= dec_val(s.take(d)) * 1) by (nonlinear_arith)
        requires
            pow10(decimals) >= 1,
    ;
}

} // verus!
