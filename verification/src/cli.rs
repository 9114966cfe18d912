//! The command surface for calling and publishing: parsing a function
//! identifier, rendering textual arguments into their canonical bytes,
//! estimating gas, and turning a command into a queued transaction. Argument
//! and option collection from the process command line stays outside; these
//! types hold the already-collected fields.

use vstd::prelude::*;
use vstd::string::StrSliceExecFns;
use crate::address::Address;
use crate::codec;
use crate::engine::BlockchainEngine;
use crate::gas;
use crate::hexstr;
use crate::ident::{self, ModuleId};
use crate::tx::{CurveTag, SignedTransaction, Transaction};

verus! {

/// Why a command was refused.
#[derive(PartialEq, Eq, Structural, Clone, Copy, Debug)]
pub enum CliError {
    /// The function identifier is not `address::module::function` with a
    /// `0x` address.
    BadFunctionIdentifier,
    /// An argument did not parse.
    BadArgument,
    /// The sender or module address did not parse.
    BadAddress,
    /// The module or function name is not a valid identifier.
    BadName,
    /// A private key is required unless signatures are skipped.
    MissingKey,
    /// The engine refused the transaction.
    Refused,
}

/// A call command: the fields of the `call` surface.
pub struct Call {
    pub function: String,
    pub type_args: Option<String>,
    pub args: Option<String>,
    pub sender: String,
    pub gas_limit: u64,
    pub gas_price: u64,
    pub private_key: Option<String>,
    pub skip_signature: bool,
    pub rpc_endpoint: String,
    pub dry_run: bool,
}

/// The value of a run of decimal digits, most significant first.
pub open spec fn dec_value(s: Seq<char>) -> nat
    decreases s.len(),
{
    if s.len() == 0 {
        0
    } else {
        (dec_value(s.drop_last()) * 10 + (s.last() as int - '0' as int)) as nat
    }
}

/// Is this a decimal number that fits an unsigned 64-bit value?
pub open spec fn is_u64_text(s: Seq<char>) -> bool {
    &&& s.len() >= 1
    &&& forall|i: int| 0 <= i < s.len() ==> '0' <= #[trigger] s[i] <= '9'
    &&& dec_value(s) <= u64::MAX
}

/// Parse a decimal number.
pub fn parse_u64(s: &str) -> (r: Option<u64>)
    ensures
        r is Some <==> is_u64_text(s@),
        r matches Some(v) ==> v == dec_value(s@),
{
    let n = s.unicode_len();
    if n == 0 {
        return None;
    }
    let mut acc: u64 = 0;
    let mut i: usize = 0;
    while i < n
        invariant
            i <= n,
            n == s@.len(),
            forall|j: int| 0 <= j < i ==> '0' <= #[trigger] s@[j] <= '9',
            acc == dec_value(s@.take(i as int)),
        decreases n - i,
    {
        let c = s.get_char(i);
        if !('0' <= c && c <= '9') {
            return None;
        }
        let d = (c as u8) - 48;
        proof {
            crate::strutil::lemma_ascii_char_cast(s@[i as int]);
            assert(d < 10);
            assert(s@.take(i + 1).drop_last() =~= s@.take(i as int));
            assert(s@.take(i + 1).last() == s@[i as int]);
        }
        let acc10 = match acc.checked_mul(10) {
            Some(v) => v,
            None => {
                proof {
                    if forall|j: int| 0 <= j < s@.len() ==> '0' <= #[trigger] s@[j] <= '9' {
                        assert(dec_value(s@.take(i + 1)) >= acc * 10);
                        lemma_dec_value_extends(s@, i + 1);
                    }
                }
                return None;
            },
        };
        acc = match acc10.checked_add(d as u64) {
            Some(v) => v,
            None => {
                proof {
                    if forall|j: int| 0 <= j < s@.len() ==> '0' <= #[trigger] s@[j] <= '9' {
                        assert(dec_value(s@.take(i + 1)) == acc * 10 + d);
                        lemma_dec_value_extends(s@, i + 1);
                    }
                }
                return None;
            },
        };
        i = i + 1;
    }
    proof {
        assert(s@.take(n as int) =~= s@);
    }
    Some(acc)
}

/// Over digit characters, the whole number's value is at least any prefix's
/// value.
proof fn lemma_dec_value_extends(s: Seq<char>, k: int)
    requires
        0 <= k <= s.len(),
        forall|j: int| 0 <= j < s.len() ==> '0' <= #[trigger] s[j] <= '9',
    ensures
        dec_value(s) >= dec_value(s.take(k)),
    decreases s.len() - k,
{
    if k == s.len() {
        assert(s.take(k) =~= s);
    } else {
        assert(forall|j: int|
            0 <= j < s.drop_last().len() ==> '0' <= #[trigger] s.drop_last()[j] <= '9');
        lemma_dec_value_extends(s.drop_last(), k);
        assert(s.drop_last().take(k) =~= s.take(k));
        assert('0' <= s.last() <= '9');
        assert(s.last() as int - '0' as int >= 0);
    }
}

/// Is there a part separator at position `i`?
pub open spec fn sep_at(s: Seq<char>, i: int) -> bool {
    0 <= i && i + 2 <= s.len() && s[i] == ':' && s[i + 1] == ':'
}

/// A three-part split of an identifier: `p1` is the least separator and
/// ends the address part, `p2` the least one after it and ends the module
/// part, no separator follows the function part, and the address part
/// starts with the hex prefix.
pub open spec fn valid_split(s: Seq<char>, p1: int, p2: int) -> bool {
    &&& sep_at(s, p1)
    &&& (forall|i: int| 0 <= i < p1 ==> !sep_at(s, i))
    &&& p1 + 2 <= p2
    &&& sep_at(s, p2)
    &&& (forall|i: int| p1 + 2 <= i < p2 ==> !sep_at(s, i))
    &&& (forall|i: int| p2 + 2 <= i ==> !sep_at(s, i))
    &&& p1 >= 2
    &&& s[0] == '0'
    &&& s[1] == 'x'
}

/// Does the identifier split into exactly three parts with a hex address?
pub open spec fn ident3_ok(s: Seq<char>) -> bool {
    exists|p1: int, p2: int| valid_split(s, p1, p2)
}

/// Two least separators coincide.
proof fn lemma_same_first_sep(s: Seq<char>, q1: int, p1: int)
    requires
        sep_at(s, q1),
        forall|i: int| 0 <= i < q1 ==> !sep_at(s, i),
        sep_at(s, p1),
        forall|i: int| 0 <= i < p1 ==> !sep_at(s, i),
    ensures
        q1 == p1,
{
    if q1 < p1 {
        assert(!sep_at(s, q1));
    }
    if p1 < q1 {
        assert(!sep_at(s, p1));
    }
}

/// Two least separators after the same point coincide.
proof fn lemma_same_second_sep(s: Seq<char>, q1: int, q2: int, p1: int, p2: int)
    requires
        q1 == p1,
        sep_at(s, q2),
        q1 + 2 <= q2,
        forall|i: int| q1 + 2 <= i < q2 ==> !sep_at(s, i),
        sep_at(s, p2),
        p1 + 2 <= p2,
        forall|i: int| p1 + 2 <= i < p2 ==> !sep_at(s, i),
    ensures
        q2 == p2,
{
    if q2 < p2 {
        assert(!sep_at(s, q2));
    }
    if p2 < q2 {
        assert(!sep_at(s, p2));
    }
}

/// The canonical bytes one textual argument denotes: a `0x` literal of at
/// most 64 hex digits is a padded 32-byte address; any other even `0x` hex
/// run is its raw bytes; a decimal number is a 64-bit little-endian value;
/// `true` and `false` are one byte; anything else is its characters as a
/// length-prefixed ASCII string. A malformed `0x` run or a non-ASCII free
/// string has no encoding.
pub open spec fn arg_encoding(s: Seq<char>) -> Option<Seq<u8>> {
    if s.len() >= 2 && s[0] == '0' && s[1] == 'x' {
        let digits = codec::ascii_of(s.skip(2));
        if s.len() <= 66 && s.len() >= 3 && codec::ascii_chars(s) && (forall|i: int|
            2 <= i < s.len() ==> hexstr::is_hex_digit(#[trigger] codec::ascii_of(s)[i])) {
            Some(crate::address::addr_of_digit_vals(digits.map_values(|b: u8| hexstr::hex_val(b))))
        } else if digits.len() % 2 == 0 && (forall|i: int|
            0 <= i < digits.len() ==> hexstr::is_hex_digit(#[trigger] digits[i])) && codec::ascii_chars(
            s,
        ) {
            Some(hexstr::hex_decoded(digits))
        } else {
            None
        }
    } else if is_u64_text(s) {
        Some(codec::enc_u64(dec_value(s) as u64))
    } else if s == "true"@ {
        Some(seq![1u8])
    } else if s == "false"@ {
        Some(seq![0u8])
    } else if codec::ascii_chars(s) {
        Some(codec::enc_string(s))
    } else {
        None
    }
}

/// Render one textual argument into its canonical bytes.
pub fn encode_argument(s: &str) -> (r: Option<Vec<u8>>)
    ensures
        match arg_encoding(s@) {
            Some(v) => r matches Some(x) && x@ == v,
            None => r is None,
        },
{
    let n = s.unicode_len();
    if n >= 2 && s.get_char(0) == '0' && s.get_char(1) == 'x' {
        // Gather the hex digits as bytes.
        let mut digits: Vec<u8> = Vec::new();
        let mut i: usize = 2;
        let mut all_hex = true;
        while i < n
            invariant
                2 <= i <= n,
                n == s@.len(),
                s@[0] == '0',
                s@[1] == 'x',
                digits@.len() == i - 2,
                forall|j: int| 2 <= j < i ==> (#[trigger] s@[j]) < 128,
                forall|j: int| 0 <= j < i - 2 ==> #[trigger] digits@[j] as int == s@[j + 2] as int,
                all_hex == (forall|j: int|
                    0 <= j < i - 2 ==> hexstr::is_hex_digit(#[trigger] digits@[j])),
            decreases n - i,
        {
            let c = s.get_char(i);
            if !(c <= '\u{7f}') {
                proof {
                    assert(!codec::ascii_chars(s@));
                    if s@[i as int] < 128 {
                        crate::strutil::lemma_ascii_char_cast(s@[i as int]);
                    }
                }
                return None;
            }
            proof {
                crate::strutil::lemma_char_low(s@[i as int]);
            }
            let b = c as u8;
            let ghost predigits = digits@;
            digits.push(b);
            proof {
                assert(digits@[i - 2] == b);
                assert(b as int == s@[i as int] as int);
                assert(forall|j: int| 0 <= j < i - 2 ==> digits@[j] == predigits[j]);
            }
            let hex_ok = (48 <= b && b <= 57) || (97 <= b && b <= 102) || (65 <= b && b <= 70);
            proof {
                assert(hex_ok == hexstr::is_hex_digit(b));
            }
            all_hex = all_hex && hex_ok;
            i = i + 1;
        }
        proof {
            crate::strutil::lemma_ascii_char_cast(s@[0]);
            crate::strutil::lemma_ascii_char_cast(s@[1]);
            assert(codec::ascii_chars(s@));
            assert forall|j: int| 0 <= j < digits@.len() implies #[trigger] digits@[j]
                == codec::ascii_of(s@.skip(2))[j] by {
                crate::strutil::lemma_ascii_char_cast(s@[j + 2]);
            }
            assert(digits@ =~= codec::ascii_of(s@.skip(2)));
        }
        if n <= 66 && n >= 3 && all_hex {
            proof {
                assert forall|j: int| 2 <= j < s@.len() implies hexstr::is_hex_digit(
                    #[trigger] codec::ascii_of(s@)[j],
                ) by {
                    assert(digits@[j - 2] == codec::ascii_of(s@)[j]);
                }
            }
            // A short address literal, padded to 32 bytes.
            let mut vals: Vec<u8> = Vec::new();
            let dn = digits.len();
            let mut k: usize = 0;
            while k < dn
                invariant
                    k <= dn,
                    dn == digits@.len(),
                    forall|j: int| 0 <= j < dn ==> hexstr::is_hex_digit(#[trigger] digits@[j]),
                    vals@.len() == k,
                    forall|j: int|
                        0 <= j < k ==> #[trigger] vals@[j] == hexstr::hex_val(digits@[j]) && vals@[j]
                            < 16,
                decreases dn - k,
            {
                match hexstr::hex_digit_value(digits[k]) {
                    Some(v) => {
                        vals.push(v);
                    },
                    None => {
                        return None;
                    },
                };
                k = k + 1;
            }
            proof {
                assert(vals@ =~= codec::ascii_of(s@.skip(2)).map_values(
                    |b: u8| hexstr::hex_val(b),
                ));
            }
            let mut full: Vec<u8> = Vec::new();
            let pad = 64 - dn;
            let mut k: usize = 0;
            while k < pad
                invariant
                    k <= pad,
                    full@.len() == k,
                    forall|j: int| 0 <= j < k ==> full@[j] == 0u8,
                decreases pad - k,
            {
                full.push(0);
                k = k + 1;
            }
            let mut k: usize = 0;
            while k < dn
                invariant
                    k <= dn,
                    dn == vals@.len(),
                    pad == 64 - dn,
                    full@.len() == pad + k,
                    forall|j: int| 0 <= j < pad ==> full@[j] == 0u8,
                    forall|j: int| 0 <= j < k ==> full@[pad + j] == vals@[j],
                    forall|j: int| 0 <= j < vals@.len() ==> vals@[j] < 16,
                decreases dn - k,
            {
                full.push(vals[k]);
                k = k + 1;
            }
            proof {
                let vs = codec::ascii_of(s@.skip(2)).map_values(|b: u8| hexstr::hex_val(b));
                let fullspec = Seq::new(
                    64,
                    |i: int|
                        if i < 64 - vs.len() {
                            0u8
                        } else {
                            vs[i - (64 - vs.len())]
                        },
                );
                assert(full@ =~= fullspec);
                assert forall|j: int| 0 <= j < 64 implies full@[j] < 16 by {
                    if j >= pad {
                        assert(full@[j] == vals@[j - pad]);
                    }
                }
            }
            let mut out: Vec<u8> = Vec::new();
            let mut j: usize = 0;
            while j < 32
                invariant
                    j <= 32,
                    full@.len() == 64,
                    forall|k2: int| 0 <= k2 < 64 ==> full@[k2] < 16,
                    out@.len() == j,
                    forall|k2: int|
                        0 <= k2 < j ==> out@[k2] == (full@[2 * k2] * 16 + full@[2 * k2 + 1]) as u8,
                decreases 32 - j,
            {
                let hi = full[2 * j];
                let lo = full[2 * j + 1];
                out.push(hi * 16 + lo);
                j = j + 1;
            }
            proof {
                let vs = codec::ascii_of(s@.skip(2)).map_values(|b: u8| hexstr::hex_val(b));
                assert(out@ =~= crate::address::addr_of_digit_vals(vs));
            }
            Some(out)
        } else {
            proof {
                if !all_hex {
                    let j = choose|j: int|
                        0 <= j < digits@.len() && !hexstr::is_hex_digit(#[trigger] digits@[j]);
                    assert(codec::ascii_of(s@)[j + 2] as int == s@[j + 2] as int);
                    assert(!hexstr::is_hex_digit(codec::ascii_of(s@)[j + 2]));
                }
            }
            match hexstr::decode_digits(&digits) {
                Some(bytes) => Some(bytes),
                None => None,
            }
        }
    } else {
        match parse_u64(s) {
            Some(v) => {
                let mut out: Vec<u8> = Vec::new();
                codec::write_u64(v, &mut out);
                proof {
                    assert(out@ =~= codec::enc_u64(v));
                }
                Some(out)
            },
            None => {
                let t_lit = "true".to_owned();
                let f_lit = "false".to_owned();
                let owned = s.to_owned();
                if owned.eq(&t_lit) {
                    let mut out: Vec<u8> = Vec::new();
                    out.push(1);
                    proof {
                        assert(out@ =~= seq![1u8]);
                    }
                    Some(out)
                } else if owned.eq(&f_lit) {
                    let mut out: Vec<u8> = Vec::new();
                    out.push(0);
                    proof {
                        assert(out@ =~= seq![0u8]);
                    }
                    Some(out)
                } else {
                    if !s.is_ascii() {
                        proof {
                            crate::tx::lemma_ascii_forms(s@);
                        }
                        return None;
                    }
                    proof {
                        crate::tx::lemma_ascii_forms(s@);
                    }
                    let mut out: Vec<u8> = Vec::new();
                    codec::write_string(&owned, &mut out);
                    proof {
                        assert(out@ =~= codec::enc_string(s@));
                    }
                    Some(out)
                }
            },
        }
    }
}

impl Call {
    /// Split `address::module::function` into its three parts; the address
    /// part must start with `0x`. The parts joined by the separator give
    /// back the identifier.
    pub fn parse_function_identifier(&self) -> (r: Result<(String, String, String), CliError>)
        ensures
            r is Ok <==> ident3_ok(self.function@),
            r matches Ok(parts) ==> self.function@ == parts.0@ + "::"@ + parts.1@ + "::"@
                + parts.2@ && parts.0@.len() >= 2 && parts.0@[0] == '0' && parts.0@[1] == 'x',
            r matches Ok(parts) ==> exists|p1: int, p2: int|
                #[trigger] valid_split(self.function@, p1, p2) && parts.0@ == self.function@.subrange(
                    0,
                    p1,
                ) && parts.1@ == self.function@.subrange(p1 + 2, p2) && parts.2@
                    == self.function@.subrange(p2 + 2, self.function@.len() as int),
    {
        let s = self.function.as_str();
        let n = s.unicode_len();
        if n < 2 {
            proof {
                if ident3_ok(s@) {
                    let (p1, p2) = choose|p1: int, p2: int| valid_split(s@, p1, p2);
                    assert(valid_split(s@, p1, p2));
                    assert(sep_at(s@, p2));
                }
            }
            return Err(CliError::BadFunctionIdentifier);
        }
        // Find the least separator.
        let mut p1: usize = 0;
        let mut found1 = false;
        let mut i: usize = 0;
        while i < n - 1 && !found1
            invariant
                2 <= n,
                i <= n,
                n == s@.len(),
                s@ == self.function@,
                !found1 ==> forall|j: int| 0 <= j < i ==> !sep_at(s@, j),
                found1 ==> p1 + 1 < n && s@[p1 as int] == ':' && s@[p1 + 1] == ':' && (forall|
                    j: int,
                |
                    0 <= j < p1 ==> !sep_at(s@, j)),
            decreases n - i,
        {
            if s.get_char(i) == ':' && s.get_char(i + 1) == ':' {
                p1 = i;
                found1 = true;
            }
            i = i + 1;
        }
        if !found1 {
            proof {
                assert(forall|j: int| 0 <= j < n - 1 ==> !sep_at(s@, j));
                assert(forall|j: int| j >= n - 1 ==> !sep_at(s@, j));
                if ident3_ok(s@) {
                    let (q1, q2) = choose|q1: int, q2: int| valid_split(s@, q1, q2);
                    assert(valid_split(s@, q1, q2));
                    assert(sep_at(s@, q1));
                }
            }
            return Err(CliError::BadFunctionIdentifier);
        }
        // Find the least separator after the first.
        let mut p2: usize = 0;
        let mut found2 = false;
        let mut j: usize = p1 + 2;
        while j < n - 1 && !found2
            invariant
                2 <= n,
                p1 + 2 <= j,
                n == s@.len(),
                s@ == self.function@,
                p1 + 1 < n && s@[p1 as int] == ':' && s@[p1 + 1] == ':',
                forall|t: int| 0 <= t < p1 ==> !sep_at(s@, t),
                !found2 ==> forall|t: int| p1 + 2 <= t < j ==> !sep_at(s@, t),
                found2 ==> p1 + 2 <= p2 && p2 + 1 < n && s@[p2 as int] == ':' && s@[p2 + 1] == ':'
                    && (forall|t: int| p1 + 2 <= t < p2 ==> !sep_at(s@, t)),
            decreases n - j,
        {
            if s.get_char(j) == ':' && s.get_char(j + 1) == ':' {
                p2 = j;
                found2 = true;
            }
            j = j + 1;
        }
        if !found2 {
            proof {
                assert(forall|t: int| p1 + 2 <= t < n - 1 ==> !sep_at(s@, t));
                assert(forall|t: int| t >= n - 1 ==> !sep_at(s@, t));
                if ident3_ok(s@) {
                    let (q1, q2) = choose|q1: int, q2: int| valid_split(s@, q1, q2);
                    assert(valid_split(s@, q1, q2));
                    lemma_same_first_sep(s@, q1, p1 as int);
                    assert(sep_at(s@, q2));
                }
            }
            return Err(CliError::BadFunctionIdentifier);
        }
        // No third separator may follow.
        let mut k: usize = p2 + 2;
        while k < n - 1
            invariant
                2 <= n,
                p2 + 2 <= k,
                n == s@.len(),
                s@ == self.function@,
                p1 + 1 < n && s@[p1 as int] == ':' && s@[p1 + 1] == ':',
                forall|t: int| 0 <= t < p1 ==> !sep_at(s@, t),
                p1 + 2 <= p2 && p2 + 1 < n && s@[p2 as int] == ':' && s@[p2 + 1] == ':',
                forall|t: int| p1 + 2 <= t < p2 ==> !sep_at(s@, t),
                forall|t: int| p2 + 2 <= t < k ==> !sep_at(s@, t),
            decreases n - k,
        {
            if s.get_char(k) == ':' && s.get_char(k + 1) == ':' {
                proof {
                    assert(sep_at(s@, k as int));
                    assert(sep_at(s@, p1 as int));
                    assert(sep_at(s@, p2 as int));
                    if ident3_ok(s@) {
                        let (q1, q2) = choose|q1: int, q2: int| valid_split(s@, q1, q2);
                        assert(valid_split(s@, q1, q2));
                        lemma_same_first_sep(s@, q1, p1 as int);
                        lemma_same_second_sep(s@, q1, q2, p1 as int, p2 as int);
                        assert(!sep_at(s@, k as int));
                    }
                }
                return Err(CliError::BadFunctionIdentifier);
            }
            k = k + 1;
        }
        let addr_part = s.substring_char(0, p1);
        let module_part = s.substring_char(p1 + 2, p2);
        let fn_part = s.substring_char(p2 + 2, n);
        if addr_part.unicode_len() < 2 {
            proof {
                if ident3_ok(s@) {
                    let (q1, q2) = choose|q1: int, q2: int| valid_split(s@, q1, q2);
                    assert(valid_split(s@, q1, q2));
                    lemma_same_first_sep(s@, q1, p1 as int);
                }
            }
            return Err(CliError::BadFunctionIdentifier);
        }
        if !(addr_part.get_char(0) == '0' && addr_part.get_char(1) == 'x') {
            proof {
                if ident3_ok(s@) {
                    let (q1, q2) = choose|q1: int, q2: int| valid_split(s@, q1, q2);
                    assert(valid_split(s@, q1, q2));
                    lemma_same_first_sep(s@, q1, p1 as int);
                }
            }
            return Err(CliError::BadFunctionIdentifier);
        }
        let a = addr_part.to_owned();
        let m = module_part.to_owned();
        let f = fn_part.to_owned();
        proof {
            reveal_strlit("::");
            assert("::"@.len() == 2);
            assert("::"@[0] == ':');
            assert("::"@[1] == ':');
            assert(self.function@ =~= a@ + "::"@ + m@ + "::"@ + f@);
            assert forall|t: int| p2 + 2 <= t implies !sep_at(s@, t) by {
                if t < n - 1 {
                } else {
                }
            }
            assert(valid_split(s@, p1 as int, p2 as int));
        }
        Ok((a, m, f))
    }

    /// Render a comma-separated argument list into canonical argument bytes:
    /// one rendered argument per comma-separated part, in order, each the
    /// canonical bytes its text denotes.
    pub fn parse_args(&self, args_str: &str) -> (r: Result<Vec<Vec<u8>>, CliError>)
        ensures
            r matches Ok(v) ==> v@.len() == parts_from(args_str@, 0).len() && forall|k: int|
                0 <= k < v@.len() ==> arg_encoding(parts_from(args_str@, 0)[k]) == Some(
                    (#[trigger] v@[k])@,
                ),
            r matches Ok(v) ==> v@.len() == comma_count(args_str@) + 1,
            r is Err ==> r == Result::<Vec<Vec<u8>>, CliError>::Err(CliError::BadArgument),
    {
        match split_and_encode(args_str) {
            Some(v) => Ok(v),
            None => Err(CliError::BadArgument),
        }
    }

    /// The gas estimate the call surface reports: a flat base plus a per-
    /// character charge on the function name.
    pub fn estimate_gas(function_name: &String) -> (g: u64)
        ensures
            g == gas::sat_u64(35_000 + 100 * (function_name@.len() as int)),
    {
        let len64 = gas::usize_to_u64(function_name.as_str().unicode_len());
        match len64.checked_mul(100) {
            Some(v) => match v.checked_add(35_000) {
                Some(w) => w,
                None => u64::MAX,
            },
            None => u64::MAX,
        }
    }

    /// Build the call transaction and queue it on the engine: parse the
    /// identifier, render the arguments, and sign unless signatures are
    /// skipped. Returns the transaction hash.
    pub fn execute_with_engine(&self, engine: &mut BlockchainEngine) -> (r: Result<
        Vec<u8>,
        CliError,
    >)
        requires
            old(engine).wf(),
        ensures
            final(engine).wf(),
            final(engine).state == old(engine).state,
            final(engine).blockchain == old(engine).blockchain,
            r is Ok ==> final(engine).pending_txs@.len() == old(engine).pending_txs@.len() + 1,
            r is Err ==> final(engine).pending_txs@ == old(engine).pending_txs@,
    {
        let (addr_text, module_text, fn_text) = match self.parse_function_identifier() {
            Ok(parts) => parts,
            Err(e) => {
                return Err(e);
            },
        };
        let module_address = match Address::from_hex_literal(addr_text.as_str()) {
            Ok(a) => a,
            Err(_) => {
                return Err(CliError::BadAddress);
            },
        };
        let sender = match Address::from_hex_literal(self.sender.as_str()) {
            Ok(a) => a,
            Err(_) => {
                return Err(CliError::BadAddress);
            },
        };
        let module_id = match ModuleId::new(module_address, module_text) {
            Ok(m) => m,
            Err(_) => {
                return Err(CliError::BadName);
            },
        };
        if !ident::is_valid_identifier(fn_text.as_str()) {
            return Err(CliError::BadName);
        }
        // Render the textual arguments; type arguments ride along as text.
        let mut args: Vec<Vec<u8>> = Vec::new();
        let mut type_args: Vec<String> = Vec::new();
        match &self.args {
            Some(text) => {
                match split_and_encode(text.as_str()) {
                    Some(v) => {
                        args = v;
                    },
                    None => {
                        return Err(CliError::BadArgument);
                    },
                }
            },
            None => {},
        }
        match &self.type_args {
            Some(text) => {
                if !text.as_str().is_ascii() {
                    return Err(CliError::BadArgument);
                }
                proof {
                    crate::tx::lemma_ascii_forms(text@);
                }
                type_args.push(ident::clone_string(text));
            },
            None => {},
        }
        let tx = Transaction::ExecuteFunction {
            sender,
            module_id,
            function: fn_text,
            type_args,
            args,
            gas_limit: self.gas_limit,
            gas_price: self.gas_price,
        };
        let mut stx = SignedTransaction::new(tx);
        if !stx.transaction.check_wf() {
            return Err(CliError::BadName);
        }
        if !self.skip_signature {
            let key_text = match &self.private_key {
                Some(k) => k,
                None => {
                    return Err(CliError::MissingKey);
                },
            };
            let key_owned = key_text.as_str().as_bytes_vec();
            let key = match hexstr::decode_digits(&key_owned) {
                Some(k) => k,
                None => {
                    return Err(CliError::MissingKey);
                },
            };
            if stx.sign(&key, CurveTag::Ed25519).is_err() {
                return Err(CliError::MissingKey);
            }
        }
        match engine.submit_transaction(stx) {
            Ok(hash) => Ok(hash),
            Err(_) => Err(CliError::Refused),
        }
    }
}

/// The number of commas in a run of characters.
pub open spec fn comma_count(s: Seq<char>) -> nat
    decreases s.len(),
{
    if s.len() == 0 {
        0
    } else {
        comma_count(s.drop_last()) + (if s.last() == ',' {
            1nat
        } else {
            0nat
        })
    }
}

/// The position of the first comma at or after `i`, or the length when
/// none follows.
pub open spec fn scan_comma(s: Seq<char>, i: int) -> int
    decreases s.len() - i,
{
    if i < 0 || i >= s.len() {
        s.len() as int
    } else if s[i] == ',' {
        i
    } else {
        scan_comma(s, i + 1)
    }
}

/// The scan lands at or after its start, within the text, on a comma or the
/// end, and skips no comma.
pub proof fn lemma_scan_comma(s: Seq<char>, i: int)
    requires
        0 <= i <= s.len(),
    ensures
        i <= scan_comma(s, i) <= s.len(),
        scan_comma(s, i) < s.len() ==> s[scan_comma(s, i)] == ',',
        forall|j: int| i <= j < scan_comma(s, i) ==> s[j] != ',',
    decreases s.len() - i,
{
    if i < s.len() && s[i] != ',' {
        lemma_scan_comma(s, i + 1);
    }
}

/// A scan that saw no comma before a comma-or-end position lands exactly
/// there.
pub proof fn lemma_scan_comma_at(s: Seq<char>, i: int, stop: int)
    requires
        0 <= i <= stop <= s.len(),
        forall|j: int| i <= j < stop ==> s[j] != ',',
        stop < s.len() ==> s[stop] == ',',
    ensures
        scan_comma(s, i) == stop,
    decreases s.len() - i,
{
    if i < s.len() && s[i] != ',' {
        lemma_scan_comma_at(s, i + 1, stop);
    }
}

/// The comma-separated parts of the text from `start` on: everything up to
/// the next comma, then the parts after it; the text after the last comma
/// is the final part.
pub open spec fn parts_from(s: Seq<char>, start: int) -> Seq<Seq<char>>
    decreases s.len() - start,
    when 0 <= start <= s.len()
    via parts_from_decreases
{
    let c = scan_comma(s, start);
    if c < s.len() {
        seq![s.subrange(start, c)] + parts_from(s, c + 1)
    } else {
        seq![s.subrange(start, s.len() as int)]
    }
}

#[via_fn]
proof fn parts_from_decreases(s: Seq<char>, start: int) {
    lemma_scan_comma(s, start);
}

/// Split a comma-separated argument list and render each part: one rendered
/// argument per part, in order, each the canonical bytes its text denotes;
/// nothing is returned unless every part renders.
pub fn split_and_encode(text: &str) -> (r: Option<Vec<Vec<u8>>>)
    ensures
        r matches Some(v) ==> v@.len() == parts_from(text@, 0).len() && forall|k: int|
            0 <= k < v@.len() ==> arg_encoding(parts_from(text@, 0)[k]) == Some(
                (#[trigger] v@[k])@,
            ),
        r matches Some(v) ==> v@.len() == comma_count(text@) + 1,
{
    let n = text.unicode_len();
    if n == usize::MAX {
        return None;
    }
    proof {
        lemma_parts_count(text@, 0);
        assert(text@.skip(0) =~= text@);
    }
    let mut out: Vec<Vec<u8>> = Vec::new();
    let mut start: usize = 0;
    loop
        invariant_except_break
            parts_from(text@, 0).len() == out@.len() + parts_from(text@, start as int).len(),
            forall|t: int|
                0 <= t < parts_from(text@, start as int).len() ==> parts_from(text@, 0)[
                    out@.len() + t] == #[trigger] parts_from(text@, start as int)[t],
        invariant
            start <= n,
            n == text@.len(),
            n < usize::MAX,
            forall|k: int|
                0 <= k < out@.len() ==> arg_encoding(parts_from(text@, 0)[k]) == Some(
                    (#[trigger] out@[k])@,
                ),
        ensures
            out@.len() == parts_from(text@, 0).len(),
            forall|k: int|
                0 <= k < out@.len() ==> arg_encoding(parts_from(text@, 0)[k]) == Some(
                    (#[trigger] out@[k])@,
                ),
        decreases n + 1 - start,
    {
        // Scan to the next comma or the end.
        let mut i: usize = start;
        while i < n && text.get_char(i) != ','
            invariant
                start <= i <= n,
                n == text@.len(),
                forall|j: int| start <= j < i ==> text@[j] != ',',
            decreases n - i,
        {
            i = i + 1;
        }
        proof {
            lemma_scan_comma_at(text@, start as int, i as int);
        }
        let part = text.substring_char(start, i);
        let encoded = match encode_argument(part) {
            Some(bytes) => bytes,
            None => {
                return None;
            },
        };
        let ghost parts_here = parts_from(text@, start as int);
        out.push(encoded);
        proof {
            assert(parts_here[0] == text@.subrange(start as int, i as int));
            if i < n {
                assert(parts_here.drop_first() =~= parts_from(text@, i + 1));
            } else {
                assert(parts_here.len() == 1);
            }
        }
        if i == n {
            break ;
        }
        start = i + 1;
    }
    Some(out)
}

/// The number of parts is one more than the number of commas.
proof fn lemma_parts_count(s: Seq<char>, start: int)
    requires
        0 <= start <= s.len(),
    ensures
        parts_from(s, start).len() == comma_count(s.skip(start)) + 1,
    decreases s.len() - start,
{
    lemma_scan_comma(s, start);
    let c = scan_comma(s, start);
    if c < s.len() {
        lemma_parts_count(s, c + 1);
        lemma_comma_count_split(s, start, c);
    } else {
        lemma_comma_count_none(s, start);
    }
}

/// Splitting at a comma splits the count.
proof fn lemma_comma_count_split(s: Seq<char>, start: int, c: int)
    requires
        0 <= start <= c < s.len(),
        s[c] == ',',
        forall|j: int| start <= j < c ==> s[j] != ',',
    ensures
        comma_count(s.skip(start)) == comma_count(s.skip(c + 1)) + 1,
    decreases s.len(),
{
    lemma_comma_count_prefix_free(s.skip(start), c - start);
    assert(s.skip(start).skip(c - start + 1) =~= s.skip(c + 1));
}

/// A text with no comma has a zero count.
proof fn lemma_comma_count_none(s: Seq<char>, start: int)
    requires
        0 <= start <= s.len(),
        forall|j: int| start <= j < s.len() ==> s[j] != ',',
    ensures
        comma_count(s.skip(start)) == 0,
{
    lemma_comma_count_zero(s.skip(start));
}

/// Counting from a text whose first comma sits at `c`.
proof fn lemma_comma_count_prefix_free(s: Seq<char>, c: int)
    requires
        0 <= c < s.len(),
        s[c] == ',',
        forall|j: int| 0 <= j < c ==> s[j] != ',',
    ensures
        comma_count(s) == comma_count(s.skip(c + 1)) + 1,
    decreases s.len(),
{
    if c == s.len() - 1 {
        lemma_comma_count_zero(s.drop_last());
        assert(s.skip(c + 1) =~= Seq::<char>::empty());
    } else {
        lemma_comma_count_prefix_free(s.drop_last(), c);
        assert(s.drop_last().skip(c + 1) =~= s.skip(c + 1).drop_last());
    }
}

/// A comma-free text counts zero.
proof fn lemma_comma_count_zero(s: Seq<char>)
    requires
        forall|j: int| 0 <= j < s.len() ==> s[j] != ',',
    ensures
        comma_count(s) == 0,
    decreases s.len(),
{
    if s.len() > 0 {
        assert(forall|j: int| 0 <= j < s.drop_last().len() ==> s.drop_last()[j] != ',');
        lemma_comma_count_zero(s.drop_last());
    }
}

/// A publish command: the fields of the `publish` surface.
pub struct Publish {
    pub gas_limit: u64,
    pub gas_price: u64,
    pub sender: String,
    pub private_key: Option<String>,
    pub skip_signature: bool,
    pub rpc_endpoint: String,
}

impl Publish {
    /// The gas estimate the publish surface reports: a flat base plus a
    /// per-byte charge on the module.
    pub fn estimate_gas(module_size: usize) -> (g: u64)
        ensures
            g == gas::sat_u64(60_000 + 10 * (module_size as int)),
    {
        let size64 = gas::usize_to_u64(module_size);
        match size64.checked_mul(10) {
            Some(v) => match v.checked_add(60_000) {
                Some(w) => w,
                None => u64::MAX,
            },
            None => u64::MAX,
        }
    }

    /// Queue one publication per compiled module, signing unless signatures
    /// are skipped. Returns the transaction hashes in order.
    pub fn execute_with_engine(&self, engine: &mut BlockchainEngine, modules: Vec<(String, Vec<u8>)>)
        -> (r: Result<Vec<Vec<u8>>, CliError>)
        requires
            old(engine).wf(),
        ensures
            final(engine).wf(),
            final(engine).state == old(engine).state,
            final(engine).blockchain == old(engine).blockchain,
            r matches Ok(hs) ==> final(engine).pending_txs@.len() == old(
                engine,
            ).pending_txs@.len() + hs@.len(),
    {
        let sender = match Address::from_hex_literal(self.sender.as_str()) {
            Ok(a) => a,
            Err(_) => {
                return Err(CliError::BadAddress);
            },
        };
        let mut hashes: Vec<Vec<u8>> = Vec::new();
        let n = modules.len();
        let mut items = modules;
        let mut i: usize = 0;
        while i < n
            invariant
                i <= n,
                n == items@.len(),
                engine.wf(),
                engine.state == old(engine).state,
                engine.blockchain == old(engine).blockchain,
                engine.pending_txs@.len() == old(engine).pending_txs@.len() + hashes@.len(),
                sender.wf(),
            decreases n - i,
        {
            let name = ident::clone_string(&items[i].0);
            let bytes = crate::strutil::clone_bytes(&items[i].1);
            let tx = Transaction::PublishModule {
                sender: sender.duplicate(),
                module_bytes: bytes,
                module_name: name,
                gas_limit: self.gas_limit,
                gas_price: self.gas_price,
            };
            let mut stx = SignedTransaction::new(tx);
            if !stx.transaction.check_wf() {
                return Err(CliError::BadName);
            }
            if !self.skip_signature {
                let key_text = match &self.private_key {
                    Some(k) => k,
                    None => {
                        return Err(CliError::MissingKey);
                    },
                };
                let key_owned = key_text.as_str().as_bytes_vec();
                let key = match hexstr::decode_digits(&key_owned) {
                    Some(k) => k,
                    None => {
                        return Err(CliError::MissingKey);
                    },
                };
                if stx.sign(&key, CurveTag::Ed25519).is_err() {
                    return Err(CliError::MissingKey);
                }
            }
            match engine.submit_transaction(stx) {
                Ok(hash) => {
                    hashes.push(hash);
                },
                Err(_) => {
                    return Err(CliError::Refused);
                },
            }
            i = i + 1;
        }
        Ok(hashes)
    }
}

} // verus!
