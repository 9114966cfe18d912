//! The canonical binary encoding: little-endian 64-bit integers, ULEB128
//! lengths, length-prefixed byte strings and ASCII strings, and lists. Every
//! encoder is verified against a spec-level encoding function, every decoder
//! against a spec-level parser, and decoding an encoding is proved to return
//! the original value.

use vstd::prelude::*;
use vstd::arithmetic::div_mod::lemma_fundamental_div_mod;
use vstd::utf8::is_ascii_chars;
use vstd::string::StringSliceAdditionalSpecFns;
use vstd::string::StrSliceExecFns;
use crate::strutil;

verus! {

/// The eight little-endian bytes of a 64-bit value.
pub open spec fn enc_u64(v: u64) -> Seq<u8> {
    seq![
        (v % 256) as u8,
        ((v / 0x100) % 256) as u8,
        ((v / 0x10000) % 256) as u8,
        ((v / 0x1000000) % 256) as u8,
        ((v / 0x100000000) % 256) as u8,
        ((v / 0x10000000000) % 256) as u8,
        ((v / 0x1000000000000) % 256) as u8,
        ((v / 0x100000000000000) % 256) as u8,
    ]
}

/// The value eight little-endian bytes denote.
pub open spec fn u64_of_bytes(b: Seq<u8>, p: int) -> int
    recommends
        0 <= p,
        p + 8 <= b.len(),
{
    b[p] + 256 * (b[p + 1] + 256 * (b[p + 2] + 256 * (b[p + 3] + 256 * (b[p + 4] + 256 * (b[p + 5]
        + 256 * (b[p + 6] + 256 * b[p + 7]))))))
}

/// Parse eight little-endian bytes.
pub open spec fn dec_u64(b: Seq<u8>, p: int) -> Option<(u64, int)> {
    if 0 <= p && p + 8 <= b.len() {
        Some((u64_of_bytes(b, p) as u64, p + 8))
    } else {
        None
    }
}

/// Eight little-endian bytes denote a value below 2^64.
pub proof fn lemma_u64_of_bytes_range(b: Seq<u8>, p: int)
    requires
        0 <= p,
        p + 8 <= b.len(),
    ensures
        0 <= u64_of_bytes(b, p) < 0x10000000000000000,
{
}

/// Decoding the encoding of a 64-bit value yields the value.
pub proof fn lemma_u64_roundtrip(v: u64, b: Seq<u8>, p: int)
    requires
        0 <= p,
        p + 8 <= b.len(),
        b.subrange(p, p + 8) == enc_u64(v),
    ensures
        dec_u64(b, p) == Some((v, p + 8)),
{
    assert(b[p] == enc_u64(v)[0]);
    assert(b[p + 1] == enc_u64(v)[1]);
    assert(b[p + 2] == enc_u64(v)[2]);
    assert(b[p + 3] == enc_u64(v)[3]);
    assert(b[p + 4] == enc_u64(v)[4]);
    assert(b[p + 5] == enc_u64(v)[5]);
    assert(b[p + 6] == enc_u64(v)[6]);
    assert(b[p + 7] == enc_u64(v)[7]);
    assert((v % 256) + 256 * (((v / 0x100) % 256) + 256 * (((v / 0x10000) % 256) + 256 * (((v
        / 0x1000000) % 256) + 256 * (((v / 0x100000000) % 256) + 256 * (((v / 0x10000000000) % 256)
        + 256 * (((v / 0x1000000000000) % 256) + 256 * ((v / 0x100000000000000) % 256))))))) == v)
        by (bit_vector);
}

/// Write a 64-bit value as eight little-endian bytes.
pub fn write_u64(v: u64, out: &mut Vec<u8>)
    ensures
        final(out)@ == old(out)@ + enc_u64(v),
{
    out.push((v % 256) as u8);
    out.push(((v / 0x100) % 256) as u8);
    out.push(((v / 0x10000) % 256) as u8);
    out.push(((v / 0x1000000) % 256) as u8);
    out.push(((v / 0x100000000) % 256) as u8);
    out.push(((v / 0x10000000000) % 256) as u8);
    out.push(((v / 0x1000000000000) % 256) as u8);
    out.push(((v / 0x100000000000000) % 256) as u8);
    proof {
        assert(out@ =~= old(out)@ + enc_u64(v));
    }
}

/// Read eight little-endian bytes.
pub fn read_u64(b: &Vec<u8>, p: usize) -> (r: Option<(u64, usize)>)
    ensures
        match dec_u64(b@, p as int) {
            Some((v, q)) => r == Some((v, q as usize)),
            None => r is None,
        },
{
    if b.len() < 8 || p > b.len() - 8 {
        return None;
    }
    let v0 = b[p] as u64;
    let v1 = b[p + 1] as u64;
    let v2 = b[p + 2] as u64;
    let v3 = b[p + 3] as u64;
    let v4 = b[p + 4] as u64;
    let v5 = b[p + 5] as u64;
    let v6 = b[p + 6] as u64;
    let v7 = b[p + 7] as u64;
    let v = v0 + 256 * (v1 + 256 * (v2 + 256 * (v3 + 256 * (v4 + 256 * (v5 + 256 * (v6 + 256
        * v7))))));
    proof {
        lemma_u64_of_bytes_range(b@, p as int);
    }
    Some((v, p + 8))
}

/// The ULEB128 encoding of a number: seven value bits per byte, least
/// significant first, the high bit marking continuation.
pub open spec fn enc_uleb(n: nat) -> Seq<u8>
    decreases n,
{
    if n < 128 {
        seq![n as u8]
    } else {
        seq![(n % 128 + 128) as u8] + enc_uleb(n / 128)
    }
}

/// Parse a ULEB128 number.
pub open spec fn dec_uleb(b: Seq<u8>, p: int) -> Option<(nat, int)>
    decreases b.len() - p,
{
    if 0 <= p < b.len() {
        let x = b[p];
        if x < 128 {
            Some((x as nat, p + 1))
        } else {
            match dec_uleb(b, p + 1) {
                Some((v, q)) => Some((((x - 128) + 128 * v) as nat, q)),
                None => None,
            }
        }
    } else {
        None
    }
}

/// A parsed ULEB128 number ends after its start and within the input.
pub proof fn lemma_dec_uleb_bounds(b: Seq<u8>, p: int)
    requires
        dec_uleb(b, p) is Some,
    ensures
        dec_uleb(b, p) matches Some(x) && p < x.1 <= b.len(),
    decreases b.len() - p,
{
    let x = b[p];
    if x >= 128 {
        lemma_dec_uleb_bounds(b, p + 1);
    }
}

/// Decoding the encoding of a number yields the number.
pub proof fn lemma_uleb_roundtrip(n: nat, b: Seq<u8>, p: int)
    requires
        0 <= p,
        p + enc_uleb(n).len() <= b.len(),
        b.subrange(p, p + enc_uleb(n).len()) == enc_uleb(n),
    ensures
        dec_uleb(b, p) == Some((n, p + enc_uleb(n).len())),
    decreases n,
{
    if n < 128 {
        assert(b[p] == enc_uleb(n)[0]);
    } else {
        assert(b[p] == enc_uleb(n)[0]);
        assert(b[p] == n % 128 + 128);
        let tail = enc_uleb(n / 128);
        assert forall|i: int| 0 <= i < tail.len() implies b.subrange(
            p + 1,
            p + 1 + tail.len(),
        )[i] == tail[i] by {
            assert(b.subrange(p, p + enc_uleb(n).len())[i + 1] == enc_uleb(n)[i + 1]);
        }
        assert(b.subrange(p + 1, p + 1 + tail.len()) =~= tail);
        lemma_uleb_roundtrip(n / 128, b, p + 1);
        lemma_fundamental_div_mod(n as int, 128);
    }
}

/// Write a number in ULEB128 form.
pub fn write_uleb(n: u64, out: &mut Vec<u8>)
    ensures
        final(out)@ == old(out)@ + enc_uleb(n as nat),
    decreases n,
{
    if n < 128 {
        out.push(n as u8);
        proof {
            assert(out@ =~= old(out)@ + enc_uleb(n as nat));
        }
    } else {
        out.push((n % 128 + 128) as u8);
        write_uleb(n / 128, out);
        proof {
            assert(out@ =~= old(out)@ + enc_uleb(n as nat));
        }
    }
}

/// Read a ULEB128 number. Fails when the bytes run out or the value does not
/// fit in 64 bits.
pub fn read_uleb(b: &Vec<u8>, p: usize) -> (r: Option<(u64, usize)>)
    ensures
        match dec_uleb(b@, p as int) {
            Some((v, q)) => if v <= u64::MAX {
                r == Some((v as u64, q as usize))
            } else {
                r is None
            },
            None => r is None,
        },
    decreases b@.len() - p,
{
    if p >= b.len() {
        return None;
    }
    let x = b[p];
    if x < 128 {
        Some((x as u64, p + 1))
    } else {
        match read_uleb(b, p + 1) {
            Some((v, q)) => {
                let wide = ((x - 128) as u128) + 128 * (v as u128);
                if wide > u64::MAX as u128 {
                    return None;
                }
                Some((wide as u64, q))
            },
            None => {
                proof {
                    if dec_uleb(b@, p as int) is Some {
                        let (v, q) = dec_uleb(b@, p as int)->0;
                        let inner = dec_uleb(b@, p + 1);
                        assert(inner is Some);
                        let (vi, qi) = inner->0;
                        assert(vi > u64::MAX);
                        assert(v == (x - 128) + 128 * vi);
                        assert(v > u64::MAX);
                    }
                }
                None
            },
        }
    }
}

/// A length-prefixed byte string: the ULEB128 length, then the bytes.
pub open spec fn enc_bytes(data: Seq<u8>) -> Seq<u8> {
    enc_uleb(data.len()) + data
}

/// Parse a length-prefixed byte string.
pub open spec fn dec_bytes(b: Seq<u8>, p: int) -> Option<(Seq<u8>, int)> {
    match dec_uleb(b, p) {
        Some((l, q)) => if q + l <= b.len() {
            Some((b.subrange(q, q + l), q + l))
        } else {
            None
        },
        None => None,
    }
}

/// Decoding the encoding of a byte string yields the byte string.
pub proof fn lemma_bytes_roundtrip(data: Seq<u8>, b: Seq<u8>, p: int)
    requires
        0 <= p,
        p + enc_bytes(data).len() <= b.len(),
        b.subrange(p, p + enc_bytes(data).len()) == enc_bytes(data),
    ensures
        dec_bytes(b, p) == Some((data, p + enc_bytes(data).len())),
{
    let lp = enc_uleb(data.len());
    assert forall|i: int| 0 <= i < lp.len() implies b.subrange(p, p + lp.len())[i] == lp[i] by {
        assert(b.subrange(p, p + enc_bytes(data).len())[i] == enc_bytes(data)[i]);
    }
    assert(b.subrange(p, p + lp.len()) =~= lp);
    lemma_uleb_roundtrip(data.len(), b, p);
    let q = p + lp.len();
    assert forall|i: int| 0 <= i < data.len() implies b.subrange(q, q + data.len())[i]
        == data[i] by {
        assert(b.subrange(p, p + enc_bytes(data).len())[lp.len() + i] == enc_bytes(data)[lp.len()
            + i]);
    }
    assert(b.subrange(q, q + data.len()) =~= data);
}

/// Write a length-prefixed byte string.
pub fn write_bytes(data: &Vec<u8>, out: &mut Vec<u8>)
    ensures
        final(out)@ == old(out)@ + enc_bytes(data@),
{
    write_uleb(data.len() as u64, out);
    let n = data.len();
    let ghost mid = out@;
    let mut i: usize = 0;
    while i < n
        invariant
            i <= n,
            n == data@.len(),
            out@ == mid + data@.take(i as int),
        decreases n - i,
    {
        out.push(data[i]);
        proof {
            assert(out@ =~= mid + data@.take(i + 1));
        }
        i = i + 1;
    }
    proof {
        assert(data@.take(n as int) =~= data@);
        assert(out@ =~= old(out)@ + enc_bytes(data@));
    }
}

/// Read a length-prefixed byte string.
pub fn read_bytes(b: &Vec<u8>, p: usize) -> (r: Option<(Vec<u8>, usize)>)
    ensures
        match dec_bytes(b@, p as int) {
            Some((data, q)) => r matches Some(x) && x.0@ == data && x.1 == q,
            None => r is None,
        },
{
    let blen = b.len();
    let (l, q) = match read_uleb(b, p) {
        Some(x) => x,
        None => {
            proof {
                if dec_uleb(b@, p as int) is Some {
                    let (v, qq) = dec_uleb(b@, p as int)->0;
                    assert(v > u64::MAX);
                    lemma_dec_uleb_bounds(b@, p as int);
                    assert(b@.len() == blen as int);
                    assert(qq + v > b@.len());
                }
            }
            return None;
        },
    };
    proof {
        lemma_dec_uleb_bounds(b@, p as int);
        assert(b@.len() == blen as int);
    }
    let rem = (b.len() - q) as u64;
    if l > rem {
        return None;
    }
    let ln = l as usize;
    let mut data: Vec<u8> = Vec::new();
    let mut i: usize = 0;
    while i < ln
        invariant
            i <= ln,
            q + ln <= b@.len(),
            b@.len() == blen as int,
            data@ == b@.subrange(q as int, q + i),
        decreases ln - i,
    {
        data.push(b[q + i]);
        proof {
            assert(data@ =~= b@.subrange(q as int, q + i + 1));
        }
        i = i + 1;
    }
    Some((data, q + ln))
}

/// The ASCII bytes of a string's characters, one byte per character.
pub open spec fn ascii_of(s: Seq<char>) -> Seq<u8> {
    s.map_values(|c: char| c as u8)
}

/// Are all characters ASCII?
pub open spec fn ascii_chars(s: Seq<char>) -> bool {
    forall|i: int| 0 <= i < s.len() ==> (#[trigger] s[i]) < 128
}

/// A length-prefixed ASCII string.
pub open spec fn enc_string(s: Seq<char>) -> Seq<u8> {
    enc_bytes(ascii_of(s))
}

/// Parse a length-prefixed ASCII string; non-ASCII bytes are refused.
pub open spec fn dec_string(b: Seq<u8>, p: int) -> Option<(Seq<char>, int)> {
    match dec_bytes(b, p) {
        Some((data, q)) => if strutil::all_ascii(data) {
            Some((strutil::chars_of_bytes(data), q))
        } else {
            None
        },
        None => None,
    }
}

/// ASCII characters survive the trip through their byte codes.
pub proof fn lemma_ascii_chars_roundtrip(s: Seq<char>)
    requires
        ascii_chars(s),
    ensures
        strutil::all_ascii(ascii_of(s)),
        strutil::chars_of_bytes(ascii_of(s)) == s,
{
    assert forall|i: int| 0 <= i < s.len() implies ascii_of(s)[i] < 128
        && strutil::chars_of_bytes(ascii_of(s))[i] == s[i] by {
        assert(s[i] < 128);
        strutil::lemma_ascii_char_cast(s[i]);
        assert(ascii_of(s)[i] == s[i] as u8);
    }
    assert(strutil::chars_of_bytes(ascii_of(s)) =~= s);
}

/// Decoding the encoding of an ASCII string yields the string.
pub proof fn lemma_string_roundtrip(s: Seq<char>, b: Seq<u8>, p: int)
    requires
        ascii_chars(s),
        0 <= p,
        p + enc_string(s).len() <= b.len(),
        b.subrange(p, p + enc_string(s).len()) == enc_string(s),
    ensures
        dec_string(b, p) == Some((s, p + enc_string(s).len())),
{
    lemma_bytes_roundtrip(ascii_of(s), b, p);
    lemma_ascii_chars_roundtrip(s);
}

/// Write a length-prefixed ASCII string.
pub fn write_string(s: &String, out: &mut Vec<u8>)
    requires
        ascii_chars(s@),
    ensures
        final(out)@ == old(out)@ + enc_string(s@),
{
    let st = s.as_str();
    proof {
        assert forall|i: int| 0 <= i < st@.len() implies '\0' <= #[trigger] st@[i] <= '\u{7f}' by {
            assert(s@[i] < 128);
            strutil::lemma_ascii_char_cast(s@[i]);
        }
        assert(is_ascii_chars(st@));
        vstd::string::is_ascii_spec_bytes(st);
        assert(st.spec_bytes() =~= ascii_of(s@));
    }
    let data = st.as_bytes_vec();
    write_bytes(&data, out);
}

/// A decoded string holds only ASCII characters.
pub proof fn lemma_dec_string_ascii(b: Seq<u8>, p: int)
    requires
        dec_string(b, p) is Some,
    ensures
        dec_string(b, p) matches Some(x) && ascii_chars(x.0),
{
    let (data, q) = dec_bytes(b, p)->0;
    let s = strutil::chars_of_bytes(data);
    assert forall|i: int| 0 <= i < s.len() implies (#[trigger] s[i]) < 128 by {
        assert(data[i] < 128);
        strutil::lemma_ascii_byte_cast(data[i]);
        assert(s[i] == data[i] as char);
    }
}

/// Every string of a decoded item run is ASCII.
pub proof fn lemma_dec_string_items_ascii(b: Seq<u8>, p: int, n: nat)
    requires
        dec_string_items(b, p, n) is Some,
    ensures
        dec_string_items(b, p, n) matches Some(x) && forall|i: int|
            0 <= i < x.0.len() ==> ascii_chars(#[trigger] x.0[i]),
    decreases n,
{
    if n > 0 {
        let (first, q) = dec_string(b, p)->0;
        lemma_dec_string_ascii(b, p);
        lemma_dec_string_items_ascii(b, q, (n - 1) as nat);
    }
}

/// Every string of a decoded counted list is ASCII.
pub proof fn lemma_dec_string_list_ascii(b: Seq<u8>, p: int)
    requires
        dec_string_list(b, p) is Some,
    ensures
        dec_string_list(b, p) matches Some(x) && forall|i: int|
            0 <= i < x.0.len() ==> ascii_chars(#[trigger] x.0[i]),
{
    let (n, q) = dec_uleb(b, p)->0;
    lemma_dec_string_items_ascii(b, q, n);
}

/// The concatenated encodings of a list of byte strings.
pub open spec fn enc_bytes_cat(v: Seq<Seq<u8>>) -> Seq<u8>
    decreases v.len(),
{
    if v.len() == 0 {
        Seq::empty()
    } else {
        enc_bytes(v[0]) + enc_bytes_cat(v.drop_first())
    }
}

/// A counted list of byte strings: the ULEB128 count, then each encoded.
pub open spec fn enc_bytes_list(v: Seq<Seq<u8>>) -> Seq<u8> {
    enc_uleb(v.len()) + enc_bytes_cat(v)
}

/// Parse `n` byte strings in sequence.
pub open spec fn dec_bytes_items(b: Seq<u8>, p: int, n: nat) -> Option<(Seq<Seq<u8>>, int)>
    decreases n,
{
    if n == 0 {
        Some((Seq::empty(), p))
    } else {
        match dec_bytes(b, p) {
            Some((first, q)) => match dec_bytes_items(b, q, (n - 1) as nat) {
                Some((rest, end)) => Some((seq![first] + rest, end)),
                None => None,
            },
            None => None,
        }
    }
}

/// Parse a counted list of byte strings.
pub open spec fn dec_bytes_list(b: Seq<u8>, p: int) -> Option<(Seq<Seq<u8>>, int)> {
    match dec_uleb(b, p) {
        Some((n, q)) => dec_bytes_items(b, q, n),
        None => None,
    }
}

/// Decoding the encoding of a byte-string list yields the list.
pub proof fn lemma_bytes_items_roundtrip(v: Seq<Seq<u8>>, b: Seq<u8>, p: int)
    requires
        0 <= p,
        p + enc_bytes_cat(v).len() <= b.len(),
        b.subrange(p, p + enc_bytes_cat(v).len()) == enc_bytes_cat(v),
    ensures
        dec_bytes_items(b, p, v.len()) == Some((v, p + enc_bytes_cat(v).len())),
    decreases v.len(),
{
    if v.len() == 0 {
        assert(Seq::<Seq<u8>>::empty() =~= v);
    } else {
        let head = enc_bytes(v[0]);
        let tail = enc_bytes_cat(v.drop_first());
        assert forall|i: int| 0 <= i < head.len() implies b.subrange(p, p + head.len())[i]
            == head[i] by {
            assert(b.subrange(p, p + enc_bytes_cat(v).len())[i] == enc_bytes_cat(v)[i]);
            assert(enc_bytes_cat(v)[i] == head[i]);
        }
        assert(b.subrange(p, p + head.len()) =~= head);
        lemma_bytes_roundtrip(v[0], b, p);
        let q = p + head.len();
        assert forall|i: int| 0 <= i < tail.len() implies b.subrange(q, q + tail.len())[i]
            == tail[i] by {
            assert(b.subrange(p, p + enc_bytes_cat(v).len())[head.len() + i] == enc_bytes_cat(
                v,
            )[head.len() + i]);
        }
        assert(b.subrange(q, q + tail.len()) =~= tail);
        lemma_bytes_items_roundtrip(v.drop_first(), b, q);
        assert(seq![v[0]] + v.drop_first() =~= v);
    }
}

/// Decoding the encoding of a counted byte-string list yields the list.
pub proof fn lemma_bytes_list_roundtrip(v: Seq<Seq<u8>>, b: Seq<u8>, p: int)
    requires
        0 <= p,
        p + enc_bytes_list(v).len() <= b.len(),
        b.subrange(p, p + enc_bytes_list(v).len()) == enc_bytes_list(v),
    ensures
        dec_bytes_list(b, p) == Some((v, p + enc_bytes_list(v).len())),
{
    let lp = enc_uleb(v.len());
    assert forall|i: int| 0 <= i < lp.len() implies b.subrange(p, p + lp.len())[i] == lp[i] by {
        assert(b.subrange(p, p + enc_bytes_list(v).len())[i] == enc_bytes_list(v)[i]);
    }
    assert(b.subrange(p, p + lp.len()) =~= lp);
    lemma_uleb_roundtrip(v.len(), b, p);
    let q = p + lp.len();
    assert forall|i: int| 0 <= i < enc_bytes_cat(v).len() implies b.subrange(
        q,
        q + enc_bytes_cat(v).len(),
    )[i] == enc_bytes_cat(v)[i] by {
        assert(b.subrange(p, p + enc_bytes_list(v).len())[lp.len() + i] == enc_bytes_list(
            v,
        )[lp.len() + i]);
    }
    assert(b.subrange(q, q + enc_bytes_cat(v).len()) =~= enc_bytes_cat(v));
    lemma_bytes_items_roundtrip(v, b, q);
}

/// Write a counted list of byte strings.
pub fn write_bytes_list(v: &Vec<Vec<u8>>, out: &mut Vec<u8>)
    ensures
        final(out)@ == old(out)@ + enc_bytes_list(v.deep_view()),
{
    write_uleb(v.len() as u64, out);
    let n = v.len();
    let mut i: usize = 0;
    while i < n
        invariant
            i <= n,
            n == v@.len(),
            out@ == old(out)@ + enc_uleb(v@.len() as nat) + enc_bytes_cat(v.deep_view().take(
                i as int,
            )),
        decreases n - i,
    {
        proof {
            lemma_bytes_cat_snoc(v.deep_view().take(i as int), v@[i as int]@);
            assert(v.deep_view().take(i + 1) =~~= v.deep_view().take(i as int).push(v@[i as int]@));
            assert(v@[i as int].deep_view() =~= v@[i as int]@);
        }
        write_bytes(&v[i], out);
        i = i + 1;
    }
    proof {
        assert(v.deep_view().take(n as int) =~= v.deep_view());
    }
}

/// Appending one item extends the concatenation by its encoding.
pub proof fn lemma_bytes_cat_snoc(v: Seq<Seq<u8>>, x: Seq<u8>)
    ensures
        enc_bytes_cat(v.push(x)) == enc_bytes_cat(v) + enc_bytes(x),
    decreases v.len(),
{
    if v.len() == 0 {
        assert(v.push(x).drop_first() =~= v);
        assert(v.push(x)[0] == x);
        assert(enc_bytes_cat(v) + enc_bytes(x) =~= enc_bytes(x) + Seq::<u8>::empty());
        assert(enc_bytes(x) + Seq::<u8>::empty() =~= enc_bytes(x));
    } else {
        lemma_bytes_cat_snoc(v.drop_first(), x);
        assert(v.push(x).drop_first() =~= v.drop_first().push(x));
        assert(v.push(x)[0] == v[0]);
        assert(enc_bytes(v[0]) + (enc_bytes_cat(v.drop_first()) + enc_bytes(x)) =~= (enc_bytes(
            v[0],
        ) + enc_bytes_cat(v.drop_first())) + enc_bytes(x));
    }
}

/// Read a counted list of byte strings.
pub fn read_bytes_list(b: &Vec<u8>, p: usize) -> (r: Option<(Vec<Vec<u8>>, usize)>)
    ensures
        match dec_bytes_list(b@, p as int) {
            Some((v, q)) => r matches Some(x) && x.0.deep_view() == v && x.1 == q,
            None => r is None,
        },
{
    let blen = b.len();
    let (n, q0) = match read_uleb(b, p) {
        Some(x) => x,
        None => {
            proof {
                if dec_uleb(b@, p as int) is Some {
                    let (count, qq) = dec_uleb(b@, p as int)->0;
                    assert(count > u64::MAX);
                    lemma_dec_uleb_bounds(b@, p as int);
                    if dec_bytes_items(b@, qq, count) is Some {
                        lemma_dec_items_len(b@, qq, count);
                        assert(b@.len() == blen as int);
                        assert(false);
                    }
                }
            }
            return None;
        },
    };
    proof {
        lemma_dec_uleb_bounds(b@, p as int);
        assert(b@.len() == blen as int);
    }
    let mut out: Vec<Vec<u8>> = Vec::new();
    let mut q = q0;
    let mut i: u64 = 0;
    while i < n
        invariant
            i <= n,
            dec_uleb(b@, p as int) == Some((n as nat, q0 as int)),
            match dec_bytes_items(b@, q as int, (n - i) as nat) {
                Some((rest, end)) => dec_bytes_items(b@, q0 as int, n as nat) == Some((
                    out.deep_view() + rest,
                    end,
                )),
                None => dec_bytes_items(b@, q0 as int, n as nat) is None,
            },
            out.deep_view().len() == i,
        decreases n - i,
    {
        let (item, q2) = match read_bytes(b, q) {
            Some(x) => x,
            None => {
                return None;
            },
        };
        let ghost pre = out.deep_view();
        out.push(item);
        proof {
            assert(out.deep_view() =~~= pre.push(item@));
            if dec_bytes_items(b@, q as int, (n - i) as nat) is Some {
                let (rest, end) = dec_bytes_items(b@, q as int, (n - i) as nat)->0;
                let (rest2, end2) = dec_bytes_items(b@, q2 as int, (n - i - 1) as nat)->0;
                assert(seq![item@] + rest2 =~~= rest);
                assert(pre.push(item@) + rest2 =~~= pre + rest);
            } else {
                assert(dec_bytes_items(b@, q2 as int, (n - i - 1) as nat) is None);
            }
        }
        q = q2;
        i = i + 1;
    }
    proof {
        assert(out.deep_view() + Seq::<Seq<u8>>::empty() =~= out.deep_view());
    }
    Some((out, q))
}

/// Parsing a nonempty list of items consumes at least one byte per item.
pub proof fn lemma_dec_items_len(b: Seq<u8>, p: int, n: nat)
    requires
        0 <= p,
        n > 0,
        dec_bytes_items(b, p, n) is Some,
    ensures
        p + n <= b.len(),
    decreases n,
{
    let (first, q) = dec_bytes(b, p)->0;
    lemma_dec_uleb_bounds(b, p);
    if n > 1 {
        lemma_dec_items_len(b, q, (n - 1) as nat);
    }
}

/// The concatenated encodings of a list of ASCII strings.
pub open spec fn enc_string_cat(v: Seq<Seq<char>>) -> Seq<u8>
    decreases v.len(),
{
    if v.len() == 0 {
        Seq::empty()
    } else {
        enc_string(v[0]) + enc_string_cat(v.drop_first())
    }
}

/// A counted list of ASCII strings.
pub open spec fn enc_string_list(v: Seq<Seq<char>>) -> Seq<u8> {
    enc_uleb(v.len()) + enc_string_cat(v)
}

/// Parse `n` ASCII strings in sequence.
pub open spec fn dec_string_items(b: Seq<u8>, p: int, n: nat) -> Option<(Seq<Seq<char>>, int)>
    decreases n,
{
    if n == 0 {
        Some((Seq::empty(), p))
    } else {
        match dec_string(b, p) {
            Some((first, q)) => match dec_string_items(b, q, (n - 1) as nat) {
                Some((rest, end)) => Some((seq![first] + rest, end)),
                None => None,
            },
            None => None,
        }
    }
}

/// Parse a counted list of ASCII strings.
pub open spec fn dec_string_list(b: Seq<u8>, p: int) -> Option<(Seq<Seq<char>>, int)> {
    match dec_uleb(b, p) {
        Some((n, q)) => dec_string_items(b, q, n),
        None => None,
    }
}

/// Decoding the encoding of an ASCII string list yields the list.
pub proof fn lemma_string_items_roundtrip(v: Seq<Seq<char>>, b: Seq<u8>, p: int)
    requires
        forall|i: int| 0 <= i < v.len() ==> ascii_chars(#[trigger] v[i]),
        0 <= p,
        p + enc_string_cat(v).len() <= b.len(),
        b.subrange(p, p + enc_string_cat(v).len()) == enc_string_cat(v),
    ensures
        dec_string_items(b, p, v.len()) == Some((v, p + enc_string_cat(v).len())),
    decreases v.len(),
{
    if v.len() == 0 {
        assert(Seq::<Seq<char>>::empty() =~= v);
    } else {
        let head = enc_string(v[0]);
        let tail = enc_string_cat(v.drop_first());
        assert forall|i: int| 0 <= i < head.len() implies b.subrange(p, p + head.len())[i]
            == head[i] by {
            assert(b.subrange(p, p + enc_string_cat(v).len())[i] == enc_string_cat(v)[i]);
            assert(enc_string_cat(v)[i] == head[i]);
        }
        assert(b.subrange(p, p + head.len()) =~= head);
        lemma_string_roundtrip(v[0], b, p);
        let q = p + head.len();
        assert forall|i: int| 0 <= i < tail.len() implies b.subrange(q, q + tail.len())[i]
            == tail[i] by {
            assert(b.subrange(p, p + enc_string_cat(v).len())[head.len() + i] == enc_string_cat(
                v,
            )[head.len() + i]);
        }
        assert(b.subrange(q, q + tail.len()) =~= tail);
        assert(forall|i: int|
            0 <= i < v.drop_first().len() ==> ascii_chars(#[trigger] v.drop_first()[i]));
        lemma_string_items_roundtrip(v.drop_first(), b, q);
        assert(seq![v[0]] + v.drop_first() =~= v);
    }
}

/// Decoding the encoding of a counted ASCII string list yields the list.
pub proof fn lemma_string_list_roundtrip(v: Seq<Seq<char>>, b: Seq<u8>, p: int)
    requires
        forall|i: int| 0 <= i < v.len() ==> ascii_chars(#[trigger] v[i]),
        0 <= p,
        p + enc_string_list(v).len() <= b.len(),
        b.subrange(p, p + enc_string_list(v).len()) == enc_string_list(v),
    ensures
        dec_string_list(b, p) == Some((v, p + enc_string_list(v).len())),
{
    let lp = enc_uleb(v.len());
    assert forall|i: int| 0 <= i < lp.len() implies b.subrange(p, p + lp.len())[i] == lp[i] by {
        assert(b.subrange(p, p + enc_string_list(v).len())[i] == enc_string_list(v)[i]);
    }
    assert(b.subrange(p, p + lp.len()) =~= lp);
    lemma_uleb_roundtrip(v.len(), b, p);
    let q = p + lp.len();
    assert forall|i: int| 0 <= i < enc_string_cat(v).len() implies b.subrange(
        q,
        q + enc_string_cat(v).len(),
    )[i] == enc_string_cat(v)[i] by {
        assert(b.subrange(p, p + enc_string_list(v).len())[lp.len() + i] == enc_string_list(
            v,
        )[lp.len() + i]);
    }
    assert(b.subrange(q, q + enc_string_cat(v).len()) =~= enc_string_cat(v));
    lemma_string_items_roundtrip(v, b, q);
}

/// Appending one string extends the concatenation by its encoding.
pub proof fn lemma_string_cat_snoc(v: Seq<Seq<char>>, x: Seq<char>)
    ensures
        enc_string_cat(v.push(x)) == enc_string_cat(v) + enc_string(x),
    decreases v.len(),
{
    if v.len() == 0 {
        assert(v.push(x).drop_first() =~= v);
        assert(v.push(x)[0] == x);
        assert(enc_string_cat(v) + enc_string(x) =~= enc_string(x) + Seq::<u8>::empty());
        assert(enc_string(x) + Seq::<u8>::empty() =~= enc_string(x));
    } else {
        lemma_string_cat_snoc(v.drop_first(), x);
        assert(v.push(x).drop_first() =~= v.drop_first().push(x));
        assert(v.push(x)[0] == v[0]);
        assert(enc_string(v[0]) + (enc_string_cat(v.drop_first()) + enc_string(x)) =~= (enc_string(
            v[0],
        ) + enc_string_cat(v.drop_first())) + enc_string(x));
    }
}

/// Write a counted list of ASCII strings.
pub fn write_string_list(v: &Vec<String>, out: &mut Vec<u8>)
    requires
        forall|i: int| 0 <= i < v@.len() ==> ascii_chars((#[trigger] v@[i])@),
    ensures
        final(out)@ == old(out)@ + enc_string_list(v.deep_view()),
{
    write_uleb(v.len() as u64, out);
    let n = v.len();
    let mut i: usize = 0;
    while i < n
        invariant
            i <= n,
            n == v@.len(),
            forall|j: int| 0 <= j < v@.len() ==> ascii_chars((#[trigger] v@[j])@),
            out@ == old(out)@ + enc_uleb(v@.len() as nat) + enc_string_cat(v.deep_view().take(
                i as int,
            )),
        decreases n - i,
    {
        proof {
            lemma_string_cat_snoc(v.deep_view().take(i as int), v@[i as int]@);
            assert(v.deep_view().take(i + 1) =~~= v.deep_view().take(i as int).push(
                v@[i as int]@,
            ));
        }
        write_string(&v[i], out);
        i = i + 1;
    }
    proof {
        assert(v.deep_view().take(n as int) =~= v.deep_view());
    }
}

/// Read a counted list of ASCII strings.
pub fn read_string_list(b: &Vec<u8>, p: usize) -> (r: Option<(Vec<String>, usize)>)
    ensures
        match dec_string_list(b@, p as int) {
            Some((v, q)) => r matches Some(x) && x.0.deep_view() == v && x.1 == q,
            None => r is None,
        },
{
    let blen = b.len();
    let (n, q0) = match read_uleb(b, p) {
        Some(x) => x,
        None => {
            proof {
                if dec_uleb(b@, p as int) is Some {
                    let (count, qq) = dec_uleb(b@, p as int)->0;
                    assert(count > u64::MAX);
                    lemma_dec_uleb_bounds(b@, p as int);
                    if dec_string_items(b@, qq, count) is Some {
                        lemma_dec_string_items_len(b@, qq, count);
                        assert(b@.len() == blen as int);
                        assert(false);
                    }
                }
            }
            return None;
        },
    };
    proof {
        lemma_dec_uleb_bounds(b@, p as int);
        assert(b@.len() == blen as int);
    }
    let mut out: Vec<String> = Vec::new();
    let mut q = q0;
    let mut i: u64 = 0;
    while i < n
        invariant
            i <= n,
            dec_uleb(b@, p as int) == Some((n as nat, q0 as int)),
            match dec_string_items(b@, q as int, (n - i) as nat) {
                Some((rest, end)) => dec_string_items(b@, q0 as int, n as nat) == Some((
                    out.deep_view() + rest,
                    end,
                )),
                None => dec_string_items(b@, q0 as int, n as nat) is None,
            },
            out.deep_view().len() == i,
        decreases n - i,
    {
        let (item, q2) = match read_string(b, q) {
            Some(x) => x,
            None => {
                return None;
            },
        };
        let ghost pre = out.deep_view();
        out.push(item);
        proof {
            assert(out.deep_view() =~~= pre.push(item@));
            if dec_string_items(b@, q as int, (n - i) as nat) is Some {
                let (rest, end) = dec_string_items(b@, q as int, (n - i) as nat)->0;
                let (rest2, end2) = dec_string_items(b@, q2 as int, (n - i - 1) as nat)->0;
                assert(seq![item@] + rest2 =~~= rest);
                assert(pre.push(item@) + rest2 =~~= pre + rest);
            } else {
                assert(dec_string_items(b@, q2 as int, (n - i - 1) as nat) is None);
            }
        }
        q = q2;
        i = i + 1;
    }
    proof {
        assert(out.deep_view() + Seq::<Seq<char>>::empty() =~= out.deep_view());
    }
    Some((out, q))
}

/// Parsing a nonempty list of strings consumes at least one byte per item.
pub proof fn lemma_dec_string_items_len(b: Seq<u8>, p: int, n: nat)
    requires
        0 <= p,
        n > 0,
        dec_string_items(b, p, n) is Some,
    ensures
        p + n <= b.len(),
    decreases n,
{
    let (first, q) = dec_string(b, p)->0;
    lemma_dec_uleb_bounds(b, p);
    if n > 1 {
        lemma_dec_string_items_len(b, q, (n - 1) as nat);
    }
}

/// Read a length-prefixed ASCII string.
pub fn read_string(b: &Vec<u8>, p: usize) -> (r: Option<(String, usize)>)
    ensures
        match dec_string(b@, p as int) {
            Some((s, q)) => r matches Some(x) && x.0@ == s && x.1 == q,
            None => r is None,
        },
{
    let (data, q) = match read_bytes(b, p) {
        Some(x) => x,
        None => {
            return None;
        },
    };
    let n = data.len();
    let mut i: usize = 0;
    while i < n
        invariant
            i <= n,
            n == data@.len(),
            match dec_bytes(b@, p as int) {
                Some(x) => data@ == x.0 && q == x.1,
                None => false,
            },
            forall|j: int| 0 <= j < i ==> data@[j] < 128,
        decreases n - i,
    {
        if data[i] >= 128 {
            return None;
        }
        i = i + 1;
    }
    Some((strutil::ascii_to_string(data), q))
}

} // verus!
