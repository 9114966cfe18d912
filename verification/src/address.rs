//! 32-byte account addresses: canonical and short hex forms, parsing with
//! right-aligned padding, and the reserved system addresses.

use vstd::prelude::*;
use vstd::string::StringSliceAdditionalSpecFns;
use vstd::string::StrSliceExecFns;
use crate::hexstr;
use crate::strutil;

verus! {

/// Why a textual address failed to parse.
#[derive(PartialEq, Eq, Structural, Clone, Copy, Debug)]
pub enum AddressError {
    /// The text does not start with `0x`.
    MissingPrefix,
    /// No digits follow the prefix.
    Empty,
    /// More than 64 hex digits follow the prefix.
    TooLong,
    /// A character after the prefix is not a hex digit.
    InvalidDigit,
}

/// A 32-byte account identity. Equality is bytewise.
pub struct Address {
    bytes: Vec<u8>,
}

impl View for Address {
    type V = Seq<u8>;

    closed spec fn view(&self) -> Seq<u8> {
        self.bytes@
    }
}

/// The number of bytes in an address.
pub const ADDRESS_LENGTH: usize = 32;

/// The all-zero (genesis) address.
pub open spec fn zero_addr() -> Seq<u8> {
    Seq::new(32, |i: int| 0u8)
}

/// A reserved address: 31 zero bytes followed by `last`.
pub open spec fn reserved_addr(last: u8) -> Seq<u8> {
    Seq::new(32, |i: int| if i == 31 { last } else { 0u8 })
}

/// The 32 bytes denoted by a sequence of hex digit values (each below 16),
/// right-aligned and padded with zeros on the left.
pub open spec fn addr_of_digit_vals(vals: Seq<u8>) -> Seq<u8>
    recommends
        vals.len() <= 64,
{
    let full = Seq::new(64, |i: int| if i < 64 - vals.len() { 0u8 } else { vals[i - (64 - vals.len())] });
    Seq::new(32, |j: int| (full[2 * j] * 16 + full[2 * j + 1]) as u8)
}

/// The ASCII bytes of the canonical literal of an address: `0x` followed by
/// 64 lowercase hex digits.
pub open spec fn canonical_literal_bytes(a: Seq<u8>) -> Seq<u8> {
    seq![48u8, 120u8] + hexstr::hex_bytes_of(a)
}

/// Hex digit bytes with the leading ASCII `0`s removed.
pub open spec fn skip_zero_digits(s: Seq<u8>) -> Seq<u8>
    decreases s.len(),
{
    if s.len() == 0 {
        s
    } else if s[0] == 48 {
        skip_zero_digits(s.skip(1))
    } else {
        s
    }
}

/// The ASCII bytes of the short literal of an address: `0x`, then the hex
/// digits without leading zeros, or `0x0` for the zero address.
pub open spec fn short_literal_bytes(a: Seq<u8>) -> Seq<u8> {
    let trimmed = skip_zero_digits(hexstr::hex_bytes_of(a));
    if trimmed.len() == 0 {
        seq![48u8, 120u8, 48u8]
    } else {
        seq![48u8, 120u8] + trimmed
    }
}

/// Whether the ASCII bytes `s` form a parsable address literal: a `0x` prefix
/// and between 1 and 64 hex digits.
pub open spec fn valid_literal_bytes(s: Seq<u8>) -> bool {
    &&& s.len() >= 2
    &&& s[0] == 48
    &&& s[1] == 120
    &&& s.len() >= 3
    &&& s.len() <= 66
    &&& forall|i: int| 2 <= i < s.len() ==> hexstr::is_hex_digit(s[i])
}

/// The address a valid literal denotes.
pub open spec fn literal_value(s: Seq<u8>) -> Seq<u8>
    recommends
        valid_literal_bytes(s),
{
    addr_of_digit_vals(s.skip(2).map_values(|b: u8| hexstr::hex_val(b)))
}

impl Address {
    /// An address is well formed when it holds exactly 32 bytes.
    pub open spec fn wf(&self) -> bool {
        self@.len() == 32
    }

    /// Build an address from exactly 32 bytes.
    pub fn new(bytes: Vec<u8>) -> (a: Address)
        requires
            bytes@.len() == 32,
        ensures
            a@ == bytes@,
            a.wf(),
    {
        Address { bytes }
    }

    /// The raw bytes of the address.
    pub fn bytes(&self) -> (r: &Vec<u8>)
        ensures
            r@ == self@,
    {
        &self.bytes
    }

    /// An independent copy of this address.
    pub fn duplicate(&self) -> (r: Address)
        ensures
            r@ == self@,
            self.wf() ==> r.wf(),
    {
        let mut out: Vec<u8> = Vec::new();
        let n = self.bytes.len();
        let mut i: usize = 0;
        while i < n
            invariant
                i <= n,
                n == self.bytes@.len(),
                out@ == self.bytes@.take(i as int),
            decreases n - i,
        {
            out.push(self.bytes[i]);
            proof {
                assert(out@ =~= self.bytes@.take(i + 1));
            }
            i = i + 1;
        }
        proof {
            assert(self.bytes@.take(n as int) =~= self.bytes@);
        }
        Address { bytes: out }
    }

    /// Bytewise equality.
    pub fn eq_addr(&self, other: &Address) -> (r: bool)
        ensures
            r == (self@ == other@),
    {
        let n = self.bytes.len();
        if n != other.bytes.len() {
            proof {
                assert(self@.len() != other@.len());
            }
            return false;
        }
        let mut i: usize = 0;
        while i < n
            invariant
                i <= n,
                n == self.bytes@.len(),
                n == other.bytes@.len(),
                forall|j: int| 0 <= j < i ==> self.bytes@[j] == other.bytes@[j],
            decreases n - i,
        {
            if self.bytes[i] != other.bytes[i] {
                return false;
            }
            i = i + 1;
        }
        proof {
            assert(self@ =~= other@);
        }
        true
    }

    /// A reserved address: 31 zero bytes and the given final byte.
    pub fn reserved(last: u8) -> (a: Address)
        ensures
            a@ == reserved_addr(last),
            a.wf(),
    {
        let mut bytes: Vec<u8> = Vec::new();
        let mut i: usize = 0;
        while i < 31
            invariant
                i <= 31,
                bytes@.len() == i,
                forall|j: int| 0 <= j < i ==> bytes@[j] == 0u8,
            decreases 31 - i,
        {
            bytes.push(0u8);
            i = i + 1;
        }
        bytes.push(last);
        proof {
            assert(bytes@ =~= reserved_addr(last));
        }
        Address { bytes }
    }

    /// The genesis address `0x0`.
    pub fn genesis_address() -> (a: Address)
        ensures
            a@ == reserved_addr(0),
            a.wf(),
    {
        Self::reserved(0)
    }

    /// The standard-library address `0x1`.
    pub fn std_address() -> (a: Address)
        ensures
            a@ == reserved_addr(1),
            a.wf(),
    {
        Self::reserved(1)
    }

    /// The system address `0x2`, home of the built-in modules.
    pub fn kanari_system_address() -> (a: Address)
        ensures
            a@ == reserved_addr(2),
            a.wf(),
    {
        Self::reserved(2)
    }

    /// The DAO address, the sink of all gas fees.
    pub fn dao_address() -> (a: Address)
        ensures
            a@ == reserved_addr(0xda),
            a.wf(),
    {
        Self::reserved(0xda)
    }

    /// The developer address, the holder of the initial supply.
    pub fn dev_address() -> (a: Address)
        ensures
            a@ == reserved_addr(0xde),
            a.wf(),
    {
        Self::reserved(0xde)
    }

    /// Parse a hex literal such as `0x1` or a full 64-digit form. Shorter
    /// forms are padded with zeros on the left.
    pub fn from_hex_literal(s: &str) -> (r: Result<Address, AddressError>)
        ensures
            r is Ok <==> valid_literal_bytes(s.spec_bytes()),
            r is Ok ==> r->Ok_0@ == literal_value(s.spec_bytes()) && r->Ok_0.wf(),
            !(s.spec_bytes().len() >= 2 && s.spec_bytes()[0] == 48 && s.spec_bytes()[1] == 120)
                ==> r == Result::<Address, AddressError>::Err(AddressError::MissingPrefix),
    {
        let b = s.as_bytes_vec();
        if b.len() < 2 || *vec_ref(&b, 0) != 48 || *vec_ref(&b, 1) != 120 {
            return Err(AddressError::MissingPrefix);
        }
        let dl = b.len() - 2;
        if dl == 0 {
            return Err(AddressError::Empty);
        }
        if dl > 64 {
            return Err(AddressError::TooLong);
        }
        // Gather the digit values, left to right.
        let mut vals: Vec<u8> = Vec::new();
        let mut i: usize = 0;
        while i < dl
            invariant
                i <= dl,
                1 <= dl <= 64,
                dl == b@.len() - 2,
                b@ == s.spec_bytes(),
                b@[0] == 48u8,
                b@[1] == 120u8,
                vals@.len() == i,
                forall|j: int| 0 <= j < i ==> hexstr::is_hex_digit(#[trigger] b@[2 + j]),
                forall|j: int| 0 <= j < i ==> vals@[j] == hexstr::hex_val(b@[2 + j]),
                forall|j: int| 0 <= j < i ==> vals@[j] < 16,
            decreases dl - i,
        {
            match hexstr::hex_digit_value(*vec_ref(&b, 2 + i)) {
                Some(v) => {
                    vals.push(v);
                },
                None => {
                    return Err(AddressError::InvalidDigit);
                },
            }
            i = i + 1;
        }
        proof {
            assert(vals@ =~= s.spec_bytes().skip(2).map_values(|c: u8| hexstr::hex_val(c)));
            assert forall|k: int| 2 <= k < b@.len() implies hexstr::is_hex_digit(s.spec_bytes()[k]) by {
                assert(hexstr::is_hex_digit(b@[2 + (k - 2)]));
            }
        }
        // Pad to 64 digit values, right aligned.
        let mut full: Vec<u8> = Vec::new();
        let pad = 64 - dl;
        let mut i: usize = 0;
        while i < pad
            invariant
                i <= pad,
                full@.len() == i,
                forall|j: int| 0 <= j < i ==> full@[j] == 0u8,
            decreases pad - i,
        {
            full.push(0u8);
            i = i + 1;
        }
        let mut i: usize = 0;
        while i < dl
            invariant
                i <= dl,
                dl == vals@.len(),
                pad == 64 - dl,
                full@.len() == pad + i,
                forall|j: int| 0 <= j < pad ==> full@[j] == 0u8,
                forall|j: int| 0 <= j < i ==> full@[pad + j] == vals@[j],
                forall|j: int| 0 <= j < vals@.len() ==> vals@[j] < 16,
            decreases dl - i,
        {
            full.push(vals[i]);
            i = i + 1;
        }
        proof {
            assert forall|k: int| 0 <= k < 64 implies full@[k] < 16 by {
                if k >= pad {
                    assert(full@[k] == vals@[k - pad]);
                }
            }
        }
        // Combine digit pairs into bytes.
        let mut out: Vec<u8> = Vec::new();
        let mut j: usize = 0;
        while j < 32
            invariant
                j <= 32,
                full@.len() == 64,
                forall|k: int| 0 <= k < 64 ==> full@[k] < 16,
                out@.len() == j,
                forall|k: int| 0 <= k < j ==> out@[k] == (full@[2 * k] * 16 + full@[2 * k + 1]) as u8,
            decreases 32 - j,
        {
            let hi = full[2 * j];
            let lo = full[2 * j + 1];
            out.push(hi * 16 + lo);
            j = j + 1;
        }
        proof {
            let vs = s.spec_bytes().skip(2).map_values(|c: u8| hexstr::hex_val(c));
            let fullspec = Seq::new(64, |i: int| if i < 64 - vs.len() { 0u8 } else { vs[i - (64 - vs.len())] });
            assert(full@ =~= fullspec);
            assert(out@ =~= addr_of_digit_vals(vs));
        }
        Ok(Address { bytes: out })
    }

    /// The canonical literal: `0x` and all 64 lowercase digits.
    pub fn to_hex(&self) -> (s: String)
        requires
            self.wf(),
        ensures
            s@ == strutil::chars_of_bytes(canonical_literal_bytes(self@)),
    {
        let mut out: Vec<u8> = Vec::new();
        out.push(48);
        out.push(120);
        hexstr::push_hex_bytes(&self.bytes, &mut out);
        proof {
            hexstr::lemma_hex_bytes_ascii(self@);
            assert(out@ =~= canonical_literal_bytes(self@));
        }
        strutil::ascii_to_string(out)
    }

    /// The short literal: `0x` and the digits without leading zeros, `0x0`
    /// for the zero address.
    pub fn to_hex_literal(&self) -> (s: String)
        requires
            self.wf(),
        ensures
            s@ == strutil::chars_of_bytes(short_literal_bytes(self@)),
    {
        let mut digits: Vec<u8> = Vec::new();
        hexstr::push_hex_bytes(&self.bytes, &mut digits);
        // Find the first digit that is not an ASCII zero.
        let n = digits.len();
        let mut f: usize = 0;
        while f < n && digits[f] == 48
            invariant
                f <= n,
                n == digits@.len(),
                forall|j: int| 0 <= j < f ==> digits@[j] == 48u8,
            decreases n - f,
        {
            f = f + 1;
        }
        proof {
            lemma_skip_zero_prefix(digits@, f as int);
        }
        let mut out: Vec<u8> = Vec::new();
        out.push(48);
        out.push(120);
        if f == n {
            out.push(48);
        } else {
            let mut i: usize = f;
            while i < n
                invariant
                    f <= i <= n,
                    n == digits@.len(),
                    out@.len() == 2 + i - f,
                    out@[0] == 48u8,
                    out@[1] == 120u8,
                    forall|j: int| 2 <= j < out@.len() ==> out@[j] == digits@[f + j - 2],
                decreases n - i,
            {
                out.push(digits[i]);
                i = i + 1;
            }
        }
        proof {
            hexstr::lemma_hex_bytes_ascii(self@);
            assert(out@ =~= short_literal_bytes(self@));
        }
        strutil::ascii_to_string(out)
    }
}

/// `skip_zero_digits` drops exactly the leading ASCII zeros.
proof fn lemma_skip_zero_prefix(s: Seq<u8>, f: int)
    requires
        0 <= f <= s.len(),
        forall|j: int| 0 <= j < f ==> s[j] == 48u8,
        f < s.len() ==> s[f] != 48u8,
    ensures
        skip_zero_digits(s) == s.skip(f),
    decreases f,
{
    if f == 0 {
        if s.len() > 0 {
            assert(s.skip(0) =~= s);
        } else {
            assert(s.skip(0) =~= s);
        }
    } else {
        lemma_skip_zero_prefix(s.skip(1), f - 1);
        assert(s.skip(1).skip(f - 1) =~= s.skip(f));
    }
}

impl PartialEq for Address {
    fn eq(&self, other: &Address) -> (r: bool) {
        self.eq_addr(other)
    }
}

impl vstd::std_specs::cmp::PartialEqSpecImpl for Address {
    open spec fn obeys_eq_spec() -> bool {
        true
    }

    open spec fn eq_spec(&self, other: &Address) -> bool {
        self@ == other@
    }
}

/// A reference into a vector (used where indexing sugar needs a borrow).
fn vec_ref<T>(v: &Vec<T>, i: usize) -> (r: &T)
    requires
        i < v@.len(),
    ensures
        *r == v@[i as int],
{
    &v[i]
}

} // verus!
