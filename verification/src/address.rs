use vstd::prelude::*;

use crate::errors::SwapError;
use crate::text::all_ascii;
use crate::text::ascii_chars;
use crate::text::utf8_lossy;
use crate::uint256::clone_bytes;
use crate::uint256::eq_bytes;

verus! {

/// A hexadecimal digit, in either case.
pub open spec fn is_hex_digit(c: char) -> bool {
    (48 <= c as u32 && c as u32 <= 57) || (97 <= c as u32 && c as u32 <= 102) || (65 <= c as u32
        && c as u32 <= 70)
}

/// The value of a hexadecimal digit.
pub open spec fn hex_val(c: char) -> nat {
    if 48 <= c as u32 && c as u32 <= 57 {
        (c as u32 - 48) as nat
    } else if 97 <= c as u32 && c as u32 <= 102 {
        (c as u32 - 87) as nat
    } else {
        (c as u32 - 55) as nat
    }
}

/// A well-formed textual address: `0x` followed by 40 hex digits.
pub open spec fn is_addr_str(s: Seq<char>) -> bool {
    &&& s.len() == 42
    &&& s[0] == '0'
    &&& s[1] == 'x'
    &&& forall|i: int| 2 <= i < 42 ==> is_hex_digit(#[trigger] s[i])
}

/// The 20 bytes a well-formed textual address denotes.
pub open spec fn addr_bytes_of(s: Seq<char>) -> Seq<u8> {
    Seq::new(20, |i: int| (hex_val(s[2 + 2 * i]) * 16 + hex_val(s[3 + 2 * i])) as u8)
}

/// The ASCII byte of the hex digit for a value below 16 (lower case).
pub open spec fn hex_digit_byte(n: nat) -> u8 {
    if n < 10 {
        (48 + n) as u8
    } else {
        (87 + n) as u8
    }
}

/// The hex digit character for a value below 16 (lower case).
pub open spec fn hex_char(n: nat) -> char {
    hex_digit_byte(n) as char
}

/// The `0x`-prefixed 40-digit textual form of 20 address bytes.
pub open spec fn addr_hex_str(b: Seq<u8>) -> Seq<char> {
    seq!['0', 'x'] + Seq::new(
        b.len() * 2,
        |i: int|
            if i % 2 == 0 {
                hex_char(b[i / 2] as nat / 16)
            } else {
                hex_char(b[i / 2] as nat % 16)
            },
    )
}

/// A 20-byte on-chain account identifier.
pub struct Address {
    bytes: Vec<u8>,
}

impl View for Address {
    type V = Seq<u8>;

    closed spec fn view(&self) -> Seq<u8> {
        self.bytes@
    }
}

impl Address {
    /// Well-formed: exactly 20 bytes.
    pub open spec fn wf(&self) -> bool {
        self@.len() == 20
    }

    /// Wraps 20 raw bytes.
    pub(crate) fn from_raw(bytes: Vec<u8>) -> (r: Address)
        requires
            bytes@.len() == 20,
        ensures
            r.wf(),
            r@ == bytes@,
    {
        Address { bytes }
    }

    /// Wraps a byte string; it must hold exactly 20 bytes.
    pub fn from_bytes(b: &Vec<u8>) -> (r: Result<Address, SwapError>)
        ensures
            b@.len() == 20 ==> (r matches Ok(a) && a.wf() && a@ == b@),
            b@.len() != 20 ==> r == Result::<Address, SwapError>::Err(SwapError::ParseError),
    {
        if b.len() == 20 {
            Ok(Address { bytes: clone_bytes(b) })
        } else {
            Err(SwapError::ParseError)
        }
    }

    /// The 20 bytes of the address.
    pub fn to_bytes(&self) -> (r: Vec<u8>)
        ensures
            r@ == self@,
    {
        clone_bytes(&self.bytes)
    }

    /// Byte-for-byte equality.
    pub fn equals(&self, other: &Address) -> (r: bool)
        ensures
            r <==> self@ == other@,
    {
        eq_bytes(&self.bytes, &other.bytes)
    }

    /// Duplicates the address.
    pub fn duplicate(&self) -> (r: Address)
        ensures
            r@ == self@,
    {
        Address { bytes: clone_bytes(&self.bytes) }
    }

    /// Parses a `0x`-prefixed 40-hex-digit string; anything else is a
    /// `ParseError`.
    pub fn parse(s: &str) -> (r: Result<Address, SwapError>)
        ensures
            is_addr_str(s@) ==> (r matches Ok(a) && a.wf() && a@ == addr_bytes_of(s@)),
            !is_addr_str(s@) ==> r == Result::<Address, SwapError>::Err(SwapError::ParseError),
    {
        let n = s.unicode_len();
        if n != 42 {
            return Err(SwapError::ParseError);
        }
        if s.get_char(0) != '0' || s.get_char(1) != 'x' {
            return Err(SwapError::ParseError);
        }
        let mut bytes: Vec<u8> = Vec::new();
        let mut i: usize = 0;
        while i < 20
            invariant
                i <= 20,
                s@.len() == 42,
                s@[0] == '0',
                s@[1] == 'x',
                bytes@.len() == i,
                forall|j: int| 2 <= j < 2 + 2 * i ==> is_hex_digit(#[trigger] s@[j]),
                forall|j: int|
                    0 <= j < i ==> bytes@[j] == (hex_val(s@[2 + 2 * j]) * 16 + hex_val(
                        s@[3 + 2 * j],
                    )) as u8,
            decreases 20 - i,
        {
            let c1 = s.get_char(2 + 2 * i);
            let c2 = s.get_char(3 + 2 * i);
            let v1 = match hex_digit_value(c1) {
                Some(v) => v,
                None => {
                    proof {
                        assert(!is_hex_digit(s@[2 + 2 * (i as int)]));
                    }
                    return Err(SwapError::ParseError);
                },
            };
            let v2 = match hex_digit_value(c2) {
                Some(v) => v,
                None => {
                    proof {
                        assert(!is_hex_digit(s@[3 + 2 * (i as int)]));
                    }
                    return Err(SwapError::ParseError);
                },
            };
            bytes.push(v1 * 16 + v2);
            i = i + 1;
        }
        proof {
            assert forall|j: int| 2 <= j < 42 implies is_hex_digit(#[trigger] s@[j]) by {
                assert(2 <= j < 2 + 2 * 20);
            }
            assert(bytes@ =~= addr_bytes_of(s@));
        }
        Ok(Address { bytes })
    }

    /// The `0x`-prefixed lower-case hexadecimal form of the address.
    pub fn to_hex_string(&self) -> (r: String)
        requires
            self.wf(),
        ensures
            r@ == addr_hex_str(self@),
    {
        let mut ascii: Vec<u8> = Vec::new();
        ascii.push(48);
        ascii.push(120);
        let mut i: usize = 0;
        while i < 20
            invariant
                i <= 20,
                self@.len() == 20,
                ascii@.len() == 2 + 2 * i,
                ascii@[0] == 48,
                ascii@[1] == 120,
                forall|j: int|
                    0 <= j < i ==> ascii@[2 + 2 * j] == hex_digit_byte(
                        #[trigger] self@[j] as nat / 16,
                    ) && ascii@[3 + 2 * j] == hex_digit_byte(self@[j] as nat % 16),
            decreases 20 - i,
        {
            let b = self.bytes[i];
            ascii.push(hex_digit_ascii(b / 16));
            ascii.push(hex_digit_ascii(b % 16));
            i = i + 1;
        }
        proof {
            assert forall|j: int| 0 <= j < ascii@.len() implies #[trigger] ascii@[j] < 128 by {
                if j >= 2 {
                    let k = (j - 2) / 2;
                    if (j - 2) % 2 == 0 {
                        assert(ascii@[2 + 2 * k] == hex_digit_byte(self@[k] as nat / 16));
                    } else {
                        assert(ascii@[3 + 2 * k] == hex_digit_byte(self@[k] as nat % 16));
                    }
                }
            }
        }
        let r = utf8_lossy(&ascii);
        proof {
            let target = addr_hex_str(self@);
            assert forall|j: int| 0 <= j < 42 implies ascii_chars(ascii@)[j] == target[j] by {
                if j >= 2 {
                    let k = (j - 2) / 2;
                    if (j - 2) % 2 == 0 {
                        assert(ascii@[2 + 2 * k] == hex_digit_byte(self@[k] as nat / 16));
                    } else {
                        assert(ascii@[3 + 2 * k] == hex_digit_byte(self@[k] as nat % 16));
                    }
                }
            }
            assert(ascii_chars(ascii@) =~= target);
        }
        r
    }
}

/// A hex digit character is a hex digit and carries its value.
proof fn lemma_hex_char_val(n: nat)
    requires
        n < 16,
    ensures
        is_hex_digit(hex_char(n)),
        hex_val(hex_char(n)) == n,
{
    if n < 10 {
        assert(hex_char(n) as u32 == 48 + n);
    } else {
        assert(hex_char(n) as u32 == 87 + n);
    }
}

/// Law: the textual form of an address is well formed and parses back
/// to the same 20 bytes.
pub proof fn lemma_addr_hex_round_trip(b: Seq<u8>)
    requires
        b.len() == 20,
    ensures
        is_addr_str(addr_hex_str(b)),
        addr_bytes_of(addr_hex_str(b)) == b,
{
    let s = addr_hex_str(b);
    assert(s.len() == 42);
    assert(s[0] == '0');
    assert(s[1] == 'x');
    assert forall|i: int| 2 <= i < 42 implies is_hex_digit(#[trigger] s[i]) by {
        let k = i - 2;
        if k % 2 == 0 {
            assert(s[i] == hex_char(b[k / 2] as nat / 16));
            lemma_hex_char_val(b[k / 2] as nat / 16);
        } else {
            assert(s[i] == hex_char(b[k / 2] as nat % 16));
            lemma_hex_char_val(b[k / 2] as nat % 16);
        }
    }
    assert forall|j: int| 0 <= j < 20 implies addr_bytes_of(s)[j] == b[j] by {
        assert(s[2 + 2 * j] == hex_char(b[j] as nat / 16));
        assert(s[3 + 2 * j] == hex_char(b[j] as nat % 16));
        lemma_hex_char_val(b[j] as nat / 16);
        lemma_hex_char_val(b[j] as nat % 16);
        assert((b[j] as nat / 16) * 16 + (b[j] as nat % 16) == b[j] as nat) by {
            vstd::arithmetic::div_mod::lemma_fundamental_div_mod(b[j] as int, 16);
        }
    }
    assert(addr_bytes_of(s) =~= b);
}

/// The value of one hexadecimal digit character, if it is one.
fn hex_digit_value(c: char) -> (r: Option<u8>)
    ensures
        r matches Some(v) ==> is_hex_digit(c) && v as nat == hex_val(c) && v < 16,
        r is None ==> !is_hex_digit(c),
{
    let u = c as u32;
    if 48 <= u && u <= 57 {
        Some((u - 48) as u8)
    } else if 97 <= u && u <= 102 {
        Some((u - 87) as u8)
    } else if 65 <= u && u <= 70 {
        Some((u - 55) as u8)
    } else {
        None
    }
}

/// The ASCII byte of one hex digit (lower case).
fn hex_digit_ascii(v: u8) -> (r: u8)
    requires
        v < 16,
    ensures
        r == hex_digit_byte(v as nat),
{
    if v < 10 {
        48 + v
    } else {
        87 + v
    }
}

} // verus!
