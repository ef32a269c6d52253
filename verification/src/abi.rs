use vstd::prelude::*;

use crate::address::Address;
use crate::errors::SwapError;
use crate::selector::derive_selector;
use crate::selector::spec_selector;
use crate::text::all_ascii;
use crate::text::ascii_chars;
use crate::text::utf8_lossy;
use crate::text::utf8_lossy_of;
use crate::uint256::be_val;
use crate::uint256::lemma_be_val_concat;
use crate::uint256::lemma_be_val_lower;
use crate::uint256::lemma_be_val_zeros;
use crate::uint256::lemma_pow256_mono;
use crate::uint256::pow256;
use crate::uint256::Uint256;

verus! {

/// An address as a 32-byte ABI word: left zero-padded.
pub open spec fn addr_word(a: Seq<u8>) -> Seq<u8> {
    Seq::new(12, |i: int| 0u8) + a
}

/// One typed argument of the static ABI subset.  Each value encodes
/// to exactly one 32-byte word; a tuple of such values encodes as the
/// plain concatenation of its words, so an argument list doubles as a
/// static tuple.
pub enum AbiValue {
    Address(Address),
    Uint(Uint256),
}

impl AbiValue {
    pub open spec fn wf(&self) -> bool {
        match self {
            AbiValue::Address(a) => a.wf(),
            AbiValue::Uint(u) => u.wf(),
        }
    }

    /// The 32-byte word the value encodes to: an address is left
    /// zero-padded to 32 bytes; an unsigned integer is its 32-byte
    /// big-endian form.
    pub open spec fn spec_word(&self) -> Seq<u8> {
        match self {
            AbiValue::Address(a) => addr_word(a@),
            AbiValue::Uint(u) => u@,
        }
    }
}

/// The static ABI encoding of an argument list: its words in order.
pub open spec fn spec_encode_args(vs: Seq<AbiValue>) -> Seq<u8>
    decreases vs.len(),
{
    if vs.len() == 0 {
        Seq::empty()
    } else {
        spec_encode_args(vs.drop_last()) + vs.last().spec_word()
    }
}

/// Appends the 32-byte word of one value.
fn encode_word(v: &AbiValue, out: &mut Vec<u8>)
    requires
        v.wf(),
        old(out)@.len() + 32 <= usize::MAX,
    ensures
        final(out)@ == old(out)@ + v.spec_word(),
{
    match v {
        AbiValue::Address(a) => {
            let mut i: usize = 0;
            while i < 12
                invariant
                    i <= 12,
                    out@.len() == old(out)@.len() + i,
                    out@ =~= old(out)@ + Seq::new(i as nat, |j: int| 0u8),
                decreases 12 - i,
            {
                out.push(0);
                proof {
                    assert(out@ =~= old(out)@ + Seq::new((i + 1) as nat, |j: int| 0u8));
                }
                i = i + 1;
            }
            let mut ab = a.to_bytes();
            out.append(&mut ab);
            proof {
                assert(out@ =~= old(out)@ + (Seq::new(12nat, |j: int| 0u8) + a@));
            }
        },
        AbiValue::Uint(u) => {
            let mut ub = u.to_be_bytes();
            out.append(&mut ub);
        },
    }
}

/// Encodes an argument list into the static ABI format: one 32-byte
/// word per value, in argument order.
pub fn encode_arguments(vs: &Vec<AbiValue>) -> (r: Vec<u8>)
    requires
        forall|i: int| 0 <= i < vs@.len() ==> (#[trigger] vs@[i]).wf(),
        32 * vs@.len() <= usize::MAX,
    ensures
        r@ == spec_encode_args(vs@),
        r@.len() == 32 * vs@.len(),
{
    let mut r: Vec<u8> = Vec::new();
    let mut i: usize = 0;
    while i < vs.len()
        invariant
            i <= vs@.len(),
            32 * vs@.len() <= usize::MAX,
            forall|k: int| 0 <= k < vs@.len() ==> (#[trigger] vs@[k]).wf(),
            r@.len() == 32 * i,
            r@ == spec_encode_args(vs@.take(i as int)),
        decreases vs@.len() - i,
    {
        encode_word(&vs[i], &mut r);
        proof {
            assert(vs@.take(i + 1 as int).drop_last() =~= vs@.take(i as int));
            assert(vs@.take(i + 1 as int).last() == vs@[i as int]);
        }
        i = i + 1;
    }
    proof {
        assert(vs@.take(vs@.len() as int) =~= vs@);
    }
    r
}

/// Assembles calldata: the 4-byte selector of the signature followed
/// by the static encoding of the arguments.  Calldata always holds at
/// least the selector.
pub fn calldata_for(signature: &str, args: &Vec<AbiValue>) -> (r: Vec<u8>)
    requires
        forall|i: int| 0 <= i < args@.len() ==> (#[trigger] args@[i]).wf(),
        32 * args@.len() + 4 <= usize::MAX,
    ensures
        r@ == spec_selector(signature@) + spec_encode_args(args@),
        r@.len() == 4 + 32 * args@.len(),
{
    let mut r = derive_selector(signature);
    let mut enc = encode_arguments(args);
    r.append(&mut enc);
    r
}

/// Decodes a big-endian unsigned integer from the first 32-byte word.
/// Fewer than 32 bytes is an `InvalidResponse`.
pub fn decode_uint(data: &Vec<u8>) -> (r: Result<Uint256, SwapError>)
    ensures
        data@.len() >= 32 ==> (r matches Ok(u) && u.wf() && u@ == data@.take(32) && u.value()
            == be_val(data@.take(32))),
        data@.len() < 32 ==> r == Result::<Uint256, SwapError>::Err(SwapError::InvalidResponse),
{
    if data.len() < 32 {
        return Err(SwapError::InvalidResponse);
    }
    let mut w: Vec<u8> = Vec::new();
    let mut i: usize = 0;
    while i < 32
        invariant
            i <= 32,
            data@.len() >= 32,
            w@ =~= data@.take(i as int),
        decreases 32 - i,
    {
        w.push(data[i]);
        i = i + 1;
    }
    Ok(Uint256::from_be_word(&w))
}

/// Decodes an address from a response word: the low-order 20 bytes;
/// the high-order padding is ignored whatever it holds.  Fewer than
/// 32 bytes is an `InvalidResponse`.
pub fn decode_address(data: &Vec<u8>) -> (r: Result<Address, SwapError>)
    ensures
        data@.len() >= 32 ==> (r matches Ok(a) && a.wf() && a@ == data@.subrange(
            data@.len() - 20,
            data@.len() as int,
        )),
        data@.len() < 32 ==> r == Result::<Address, SwapError>::Err(SwapError::InvalidResponse),
{
    if data.len() < 32 {
        return Err(SwapError::InvalidResponse);
    }
    let start = data.len() - 20;
    let mut b: Vec<u8> = Vec::new();
    let mut i: usize = start;
    while i < data.len()
        invariant
            start <= i <= data@.len(),
            start == data@.len() - 20,
            b@ =~= data@.subrange(start as int, i as int),
        decreases data@.len() - i,
    {
        b.push(data[i]);
        i = i + 1;
    }
    Ok(Address::from_raw(b))
}

/// The byte window that holds the text of an ABI dynamic string: the
/// 32-byte big-endian length prefix says how many bytes follow, and
/// the window is clamped to what is actually present.
pub open spec fn spec_string_window(data: Seq<u8>) -> Seq<u8> {
    if data.len() < 32 {
        Seq::empty()
    } else {
        let n = be_val(data.take(32));
        let avail = (data.len() - 32) as nat;
        let cnt = if n <= avail {
            n
        } else {
            avail
        };
        data.subrange(32, 32 + cnt as int)
    }
}

/// The characters an ABI dynamic-string response decodes to.
pub open spec fn spec_dynamic_string(data: Seq<u8>) -> Seq<char> {
    if data.len() < 32 {
        Seq::empty()
    } else {
        utf8_lossy_of(spec_string_window(data))
    }
}

/// Decodes an ABI dynamic string: a 32-byte length prefix, then that
/// many UTF-8 bytes (clamped to what is present; trailing padding is
/// ignored).  Anything shorter than one word yields the empty string,
/// a defined fallback rather than an error; invalid UTF-8 is replaced
/// lossily.
pub fn decode_dynamic_string(data: &Vec<u8>) -> (r: String)
    ensures
        r@ == spec_dynamic_string(data@),
        all_ascii(spec_string_window(data@)) ==> r@ == ascii_chars(spec_string_window(data@)),
{
    if data.len() < 32 {
        let r = String::new();
        proof {
            assert(spec_string_window(data@) =~= Seq::<u8>::empty());
            assert(ascii_chars(Seq::<u8>::empty()) =~= Seq::<char>::empty());
        }
        return r;
    }
    let avail = data.len() - 32;
    // The length prefix can denote a value far beyond the buffer; the
    // read window is clamped to the bytes that are present, so only a
    // prefix small enough to matter is computed exactly.
    let mut oversized = false;
    let mut i: usize = 0;
    while i < 24
        invariant
            i <= 24,
            data@.len() >= 32,
            !oversized ==> forall|j: int| 0 <= j < i ==> data@[j] == 0,
            oversized ==> exists|j: int| 0 <= j < i && data@[j] != 0,
        decreases 24 - i,
    {
        if data[i] != 0 {
            oversized = true;
        }
        i = i + 1;
    }
    let mut lo: u64 = 0;
    let mut k: usize = 24;
    while k < 32
        invariant
            24 <= k <= 32,
            data@.len() >= 32,
            lo as nat == be_val(data@.subrange(24, k as int)),
            (lo as nat) < pow256((k - 24) as nat),
        decreases 32 - k,
    {
        proof {
            reveal_with_fuel(pow256, 9);
            assert(data@.subrange(24, k + 1 as int).drop_last() =~= data@.subrange(24, k as int));
        }
        lo = lo * 256 + (data[k] as u64);
        k = k + 1;
    }
    let cnt: usize = if oversized {
        proof {
            let j = choose|j: int| 0 <= j < 24 && data@[j] != 0;
            lemma_be_val_lower(data@.take(32), j);
            lemma_pow256_mono(8, (31 - j) as nat);
            reveal_with_fuel(pow256, 9);
            assert(usize::MAX < pow256(8)) by {
                assert(pow256(8) == 0x10000000000000000);
            }
        }
        avail
    } else {
        proof {
            let w = data@.take(32);
            assert(w =~= w.subrange(0, 24) + w.subrange(24, 32));
            lemma_be_val_zeros(w.subrange(0, 24));
            lemma_be_val_concat(w.subrange(0, 24), w.subrange(24, 32));
            assert(w.subrange(24, 32) =~= data@.subrange(24, 32));
            assert(be_val(data@.take(32)) == lo as nat);
        }
        if lo <= avail as u64 {
            lo as usize
        } else {
            avail
        }
    };
    let mut w: Vec<u8> = Vec::new();
    let mut j: usize = 0;
    while j < cnt
        invariant
            j <= cnt,
            data@.len() >= 32,
            data@.len() <= usize::MAX,
            cnt <= data@.len() - 32,
            w@ =~= data@.subrange(32, 32 + j as int),
        decreases cnt - j,
    {
        w.push(data[32 + j]);
        j = j + 1;
    }
    proof {
        assert(w@ =~= spec_string_window(data@));
    }
    utf8_lossy(&w)
}

} // verus!
