//! The transaction envelope: the three transaction kinds, their canonical
//! binary encoding with a proven decode/encode round trip, the transaction
//! hash over the body alone, and signing and verification dispatched over
//! the supported curves.

use vstd::prelude::*;
use crate::address::Address;
use crate::codec;
use crate::crypto;
use crate::ident::{self, valid_ident, ModuleId};
use crate::natives;
use crate::strutil;

verus! {

/// The curve a signature was made over.
#[derive(PartialEq, Eq, Structural, Clone, Copy, Debug)]
pub enum CurveTag {
    Ed25519,
    K256,
    P256,
}

/// A transaction body.
pub enum Transaction {
    /// Publish verified bytecode under the sender's address.
    PublishModule {
        sender: Address,
        module_bytes: Vec<u8>,
        module_name: String,
        gas_limit: u64,
        gas_price: u64,
    },
    /// Call an entry function of a published module.
    ExecuteFunction {
        sender: Address,
        module_id: ModuleId,
        function: String,
        type_args: Vec<String>,
        args: Vec<Vec<u8>>,
        gas_limit: u64,
        gas_price: u64,
    },
    /// Move MIST between accounts.
    Transfer { from: Address, to: Address, amount: u64, gas_limit: u64, gas_price: u64 },
}

/// The spec-level image of a transaction: every field by its view.
pub enum TxView {
    Publish {
        sender: Seq<u8>,
        module_bytes: Seq<u8>,
        module_name: Seq<char>,
        gas_limit: u64,
        gas_price: u64,
    },
    Execute {
        sender: Seq<u8>,
        module_address: Seq<u8>,
        module_name: Seq<char>,
        function: Seq<char>,
        type_args: Seq<Seq<char>>,
        args: Seq<Seq<u8>>,
        gas_limit: u64,
        gas_price: u64,
    },
    Transfer { from: Seq<u8>, to: Seq<u8>, amount: u64, gas_limit: u64, gas_price: u64 },
}

impl View for Transaction {
    type V = TxView;

    open spec fn view(&self) -> TxView {
        match *self {
            Transaction::PublishModule { sender, module_bytes, module_name, gas_limit, gas_price } => TxView::Publish {
                sender: sender@,
                module_bytes: module_bytes@,
                module_name: module_name@,
                gas_limit,
                gas_price,
            },
            Transaction::ExecuteFunction {
                sender,
                module_id,
                function,
                type_args,
                args,
                gas_limit,
                gas_price,
            } => TxView::Execute {
                sender: sender@,
                module_address: module_id.address@,
                module_name: module_id.name@,
                function: function@,
                type_args: type_args.deep_view(),
                args: args.deep_view(),
                gas_limit,
                gas_price,
            },
            Transaction::Transfer { from, to, amount, gas_limit, gas_price } => TxView::Transfer {
                from: from@,
                to: to@,
                amount,
                gas_limit,
                gas_price,
            },
        }
    }
}

/// A well-formed transaction image: 32-byte addresses, valid identifiers,
/// ASCII type arguments.
pub open spec fn txv_wf(t: TxView) -> bool {
    match t {
        TxView::Publish { sender, module_name, .. } => sender.len() == 32 && valid_ident(
            module_name,
        ),
        TxView::Execute { sender, module_address, module_name, function, type_args, .. } => sender.len()
            == 32 && module_address.len() == 32 && valid_ident(module_name) && valid_ident(function)
            && (forall|i: int| 0 <= i < type_args.len() ==> codec::ascii_chars(#[trigger] type_args[i])),
        TxView::Transfer { from, to, .. } => from.len() == 32 && to.len() == 32,
    }
}

/// The two phrasings of "all characters are ASCII" agree.
pub proof fn lemma_ascii_forms(s: Seq<char>)
    ensures
        vstd::utf8::is_ascii_chars(s) <==> codec::ascii_chars(s),
{
    if vstd::utf8::is_ascii_chars(s) {
        assert forall|i: int| 0 <= i < s.len() implies (#[trigger] s[i]) < 128 by {
            assert('\0' <= s[i] <= '\u{7f}');
        }
    }
    if codec::ascii_chars(s) {
        assert forall|i: int| 0 <= i < s.len() implies '\0' <= (#[trigger] s[i]) <= '\u{7f}' by {
            strutil::lemma_ascii_char_cast(s[i]);
        }
    }
}

/// Identifier characters are ASCII characters.
pub proof fn lemma_ident_is_ascii(s: Seq<char>)
    requires
        valid_ident(s),
    ensures
        codec::ascii_chars(s),
{
    assert forall|i: int| 0 <= i < s.len() implies (#[trigger] s[i]) < 128 by {
        assert(crate::ident::is_ident_char(s[i]));
    }
}

/// The canonical bytes of a transaction body: a variant tag, then each field
/// in order — addresses as raw 32 bytes, byte strings and strings length
/// prefixed, lists counted, integers little endian.
pub open spec fn enc_txv(t: TxView) -> Seq<u8> {
    match t {
        TxView::Publish { sender, module_bytes, module_name, gas_limit, gas_price } => seq![0u8]
            + sender + codec::enc_bytes(module_bytes) + codec::enc_string(module_name)
            + codec::enc_u64(gas_limit) + codec::enc_u64(gas_price),
        TxView::Execute {
            sender,
            module_address,
            module_name,
            function,
            type_args,
            args,
            gas_limit,
            gas_price,
        } => seq![1u8] + sender + module_address + codec::enc_string(module_name)
            + codec::enc_string(function) + codec::enc_string_list(type_args)
            + codec::enc_bytes_list(args) + codec::enc_u64(gas_limit) + codec::enc_u64(gas_price),
        TxView::Transfer { from, to, amount, gas_limit, gas_price } => seq![2u8] + from + to
            + codec::enc_u64(amount) + codec::enc_u64(gas_limit) + codec::enc_u64(gas_price),
    }
}

/// Parse 32 raw address bytes.
pub open spec fn dec_addr(b: Seq<u8>, p: int) -> Option<(Seq<u8>, int)> {
    if 0 <= p && p + 32 <= b.len() {
        Some((b.subrange(p, p + 32), p + 32))
    } else {
        None
    }
}

/// Parse a transaction body; the input must be consumed exactly and the
/// identifiers must be valid.
pub open spec fn dec_txv(b: Seq<u8>) -> Option<TxView> {
    if b.len() < 1 {
        None
    } else if b[0] == 0 {
        match dec_addr(b, 1) {
            Some((sender, p1)) => match codec::dec_bytes(b, p1) {
                Some((module_bytes, p2)) => match codec::dec_string(b, p2) {
                    Some((module_name, p3)) => match codec::dec_u64(b, p3) {
                        Some((gas_limit, p4)) => match codec::dec_u64(b, p4) {
                            Some((gas_price, p5)) => if p5 == b.len() && valid_ident(module_name) {
                                Some(
                                    TxView::Publish {
                                        sender,
                                        module_bytes,
                                        module_name,
                                        gas_limit,
                                        gas_price,
                                    },
                                )
                            } else {
                                None
                            },
                            None => None,
                        },
                        None => None,
                    },
                    None => None,
                },
                None => None,
            },
            None => None,
        }
    } else if b[0] == 1 {
        match dec_addr(b, 1) {
            Some((sender, p1)) => match dec_addr(b, p1) {
                Some((module_address, p2)) => match codec::dec_string(b, p2) {
                    Some((module_name, p3)) => match codec::dec_string(b, p3) {
                        Some((function, p4)) => match codec::dec_string_list(b, p4) {
                            Some((type_args, p5)) => match codec::dec_bytes_list(b, p5) {
                                Some((args, p6)) => match codec::dec_u64(b, p6) {
                                    Some((gas_limit, p7)) => match codec::dec_u64(b, p7) {
                                        Some((gas_price, p8)) => if p8 == b.len() && valid_ident(
                                            module_name,
                                        ) && valid_ident(function) {
                                            Some(
                                                TxView::Execute {
                                                    sender,
                                                    module_address,
                                                    module_name,
                                                    function,
                                                    type_args,
                                                    args,
                                                    gas_limit,
                                                    gas_price,
                                                },
                                            )
                                        } else {
                                            None
                                        },
                                        None => None,
                                    },
                                    None => None,
                                },
                                None => None,
                            },
                            None => None,
                        },
                        None => None,
                    },
                    None => None,
                },
                None => None,
            },
            None => None,
        }
    } else if b[0] == 2 {
        match dec_addr(b, 1) {
            Some((from, p1)) => match dec_addr(b, p1) {
                Some((to, p2)) => match codec::dec_u64(b, p2) {
                    Some((amount, p3)) => match codec::dec_u64(b, p3) {
                        Some((gas_limit, p4)) => match codec::dec_u64(b, p4) {
                            Some((gas_price, p5)) => if p5 == b.len() {
                                Some(TxView::Transfer { from, to, amount, gas_limit, gas_price })
                            } else {
                                None
                            },
                            None => None,
                        },
                        None => None,
                    },
                    None => None,
                },
                None => None,
            },
            None => None,
        }
    } else {
        None
    }
}

impl Transaction {
    /// A well-formed transaction.
    pub open spec fn wf(&self) -> bool {
        txv_wf(self@)
    }

    /// The gas limit of any transaction kind.
    pub open spec fn spec_gas_limit(&self) -> u64 {
        match *self {
            Transaction::PublishModule { gas_limit, .. } => gas_limit,
            Transaction::ExecuteFunction { gas_limit, .. } => gas_limit,
            Transaction::Transfer { gas_limit, .. } => gas_limit,
        }
    }

    /// The gas price of any transaction kind.
    pub open spec fn spec_gas_price(&self) -> u64 {
        match *self {
            Transaction::PublishModule { gas_price, .. } => gas_price,
            Transaction::ExecuteFunction { gas_price, .. } => gas_price,
            Transaction::Transfer { gas_price, .. } => gas_price,
        }
    }

    /// The sending address of any transaction kind.
    pub open spec fn spec_sender(&self) -> Seq<u8> {
        match *self {
            Transaction::PublishModule { sender, .. } => sender@,
            Transaction::ExecuteFunction { sender, .. } => sender@,
            Transaction::Transfer { from, .. } => from@,
        }
    }

    /// A transfer with the default gas limit and unit gas price.
    pub fn new_transfer(from: Address, to: Address, amount: u64) -> (t: Transaction)
        ensures
            t@ == (TxView::Transfer {
                from: from@,
                to: to@,
                amount,
                gas_limit: 1000u64,
                gas_price: 1u64,
            }),
    {
        Transaction::Transfer { from, to, amount, gas_limit: 1000, gas_price: 1 }
    }

    /// The gas limit.
    pub fn gas_limit(&self) -> (g: u64)
        ensures
            g == self.spec_gas_limit(),
    {
        match self {
            Transaction::PublishModule { gas_limit, .. } => *gas_limit,
            Transaction::ExecuteFunction { gas_limit, .. } => *gas_limit,
            Transaction::Transfer { gas_limit, .. } => *gas_limit,
        }
    }

    /// The gas price.
    pub fn gas_price(&self) -> (g: u64)
        ensures
            g == self.spec_gas_price(),
    {
        match self {
            Transaction::PublishModule { gas_price, .. } => *gas_price,
            Transaction::ExecuteFunction { gas_price, .. } => *gas_price,
            Transaction::Transfer { gas_price, .. } => *gas_price,
        }
    }

    /// The sending address.
    pub fn sender_address(&self) -> (a: &Address)
        ensures
            a@ == self.spec_sender(),
    {
        match self {
            Transaction::PublishModule { sender, .. } => sender,
            Transaction::ExecuteFunction { sender, .. } => sender,
            Transaction::Transfer { from, .. } => from,
        }
    }

    /// Check well-formedness at run time.
    pub fn check_wf(&self) -> (r: bool)
        ensures
            r == self.wf(),
    {
        match self {
            Transaction::PublishModule { sender, module_name, .. } => {
                let len_ok = sender.bytes().len() == 32;
                let id_ok = ident::is_valid_identifier(module_name.as_str());
                proof {
                    assert(len_ok == (sender@.len() == 32));
                    assert(id_ok == valid_ident(module_name@));
                    assert(self@ is Publish);
                    match self@ {
                        TxView::Publish { sender: sv, module_name: mv, .. } => {
                            assert(sv == sender@);
                            assert(mv == module_name@);
                            assert(self.wf() == (sv.len() == 32 && valid_ident(mv)));
                        },
                        _ => {},
                    }
                    assert((len_ok && id_ok) == self.wf());
                }
                len_ok && id_ok
            },
            Transaction::ExecuteFunction { sender, module_id, function, type_args, .. } => {
                proof {
                    match self@ {
                        TxView::Execute { sender: sv, module_address: mav, module_name: mnv, function: fv, type_args: tav, .. } => {
                            assert(sv == sender@);
                            assert(mav == module_id.address@);
                            assert(mnv == module_id.name@);
                            assert(fv == function@);
                            assert(tav == type_args.deep_view());
                        },
                        _ => {},
                    }
                }
                if sender.bytes().len() != 32 || module_id.address.bytes().len() != 32 {
                    return false;
                }
                if !ident::is_valid_identifier(module_id.name.as_str()) {
                    return false;
                }
                if !ident::is_valid_identifier(function.as_str()) {
                    return false;
                }
                let n = type_args.len();
                let mut i: usize = 0;
                let mut all_ascii_ok = true;
                while i < n
                    invariant
                        i <= n,
                        n == type_args@.len(),
                        all_ascii_ok == (forall|j: int|
                            0 <= j < i ==> codec::ascii_chars((#[trigger] type_args@[j])@)),
                    decreases n - i,
                {
                    let ok = type_args[i].as_str().is_ascii();
                    proof {
                        lemma_ascii_forms(type_args@[i as int]@);
                    }
                    all_ascii_ok = all_ascii_ok && ok;
                    i = i + 1;
                }
                proof {
                    match self@ {
                        TxView::Execute { type_args: ta, .. } => {
                            assert(ta == type_args.deep_view());
                            assert forall|j: int| 0 <= j < ta.len() implies (codec::ascii_chars(
                                #[trigger] ta[j],
                            ) == codec::ascii_chars(type_args@[j]@)) by {
                                assert(ta[j] == type_args@[j]@);
                            }
                            if all_ascii_ok {
                                assert forall|j: int| 0 <= j < ta.len() implies codec::ascii_chars(
                                    #[trigger] ta[j],
                                ) by {
                                    assert(codec::ascii_chars(type_args@[j]@));
                                }
                            } else {
                                let j = choose|j: int|
                                    0 <= j < type_args@.len() && !codec::ascii_chars(
                                        (#[trigger] type_args@[j])@,
                                    );
                                assert(!codec::ascii_chars(ta[j]));
                            }
                        },
                        _ => {},
                    }
                    assert(all_ascii_ok == self.wf());
                }
                all_ascii_ok
            },
            Transaction::Transfer { from, to, .. } => {
                let r = from.bytes().len() == 32 && to.bytes().len() == 32;
                proof {
                    match self@ {
                        TxView::Transfer { from: fv, to: tv, .. } => {
                            assert(fv == from@);
                            assert(tv == to@);
                        },
                        _ => {},
                    }
                    assert(r == self.wf());
                }
                r
            },
        }
    }

    /// Encode this transaction canonically.
    pub fn encode(&self) -> (r: Vec<u8>)
        requires
            self.wf(),
        ensures
            r@ == enc_txv(self@),
    {
        let mut out: Vec<u8> = Vec::new();
        match self {
            Transaction::PublishModule { sender, module_bytes, module_name, gas_limit, gas_price } => {
                out.push(0);
                strutil::append_to(sender.bytes(), &mut out);
                codec::write_bytes(module_bytes, &mut out);
                proof {
                    lemma_ident_is_ascii(module_name@);
                }
                codec::write_string(module_name, &mut out);
                codec::write_u64(*gas_limit, &mut out);
                codec::write_u64(*gas_price, &mut out);
                proof {
                    assert(out@ =~= enc_txv(self@));
                }
            },
            Transaction::ExecuteFunction {
                sender,
                module_id,
                function,
                type_args,
                args,
                gas_limit,
                gas_price,
            } => {
                out.push(1);
                strutil::append_to(sender.bytes(), &mut out);
                strutil::append_to(module_id.address.bytes(), &mut out);
                proof {
                    lemma_ident_is_ascii(module_id.name@);
                    lemma_ident_is_ascii(function@);
                    assert forall|i: int| 0 <= i < type_args@.len() implies codec::ascii_chars(
                        (#[trigger] type_args@[i])@,
                    ) by {
                        match self@ {
                            TxView::Execute { type_args: ta, .. } => {
                                assert(ta == type_args.deep_view());
                                assert(codec::ascii_chars(ta[i]));
                                assert(type_args.deep_view()[i] == type_args@[i]@);
                            },
                            _ => {},
                        }
                    }
                }
                codec::write_string(&module_id.name, &mut out);
                codec::write_string(function, &mut out);
                codec::write_string_list(type_args, &mut out);
                codec::write_bytes_list(args, &mut out);
                codec::write_u64(*gas_limit, &mut out);
                codec::write_u64(*gas_price, &mut out);
                proof {
                    assert(out@ =~= enc_txv(self@));
                }
            },
            Transaction::Transfer { from, to, amount, gas_limit, gas_price } => {
                out.push(2);
                strutil::append_to(from.bytes(), &mut out);
                strutil::append_to(to.bytes(), &mut out);
                codec::write_u64(*amount, &mut out);
                codec::write_u64(*gas_limit, &mut out);
                codec::write_u64(*gas_price, &mut out);
                proof {
                    assert(out@ =~= enc_txv(self@));
                }
            },
        }
        out
    }
}

/// A slice of `b` whose bytes match `piece` pointwise is `piece`.
proof fn lemma_chunk(b: Seq<u8>, off: int, piece: Seq<u8>)
    requires
        0 <= off,
        off + piece.len() <= b.len(),
        forall|i: int| 0 <= i < piece.len() ==> b[off + i] == #[trigger] piece[i],
    ensures
        b.subrange(off, off + piece.len()) == piece,
{
    assert(b.subrange(off, off + piece.len()) =~= piece);
}

/// Decoding the canonical encoding of a well-formed transaction yields the
/// transaction: the canonical bytes determine the body, so serializing,
/// parsing and serializing again is bit-identical.
#[verifier::rlimit(60)]
proof fn lemma_tx_roundtrip_publish(t: TxView)
    requires
        txv_wf(t),
        t is Publish,
    ensures
        dec_txv(enc_txv(t)) == Some(t),
{
    let b = enc_txv(t);
    match t {
        TxView::Publish { sender, module_bytes, module_name, gas_limit, gas_price } => {
            let e1 = codec::enc_bytes(module_bytes);
            let e2 = codec::enc_string(module_name);
            let o1 = 33int;
            let o2 = o1 + e1.len();
            let o3 = o2 + e2.len();
            let o4 = o3 + 8;
            let o5 = o4 + 8;
            assert(b[0] == 0);
            assert(forall|i: int| 0 <= i < 32 ==> b[1 + i] == #[trigger] sender[i]);
            lemma_chunk(b, 1, sender);
            assert(forall|i: int| 0 <= i < e1.len() ==> b[o1 + i] == #[trigger] e1[i]);
            lemma_chunk(b, o1, e1);
            codec::lemma_bytes_roundtrip(module_bytes, b, o1);
            assert(forall|i: int| 0 <= i < e2.len() ==> b[o2 + i] == #[trigger] e2[i]);
            lemma_chunk(b, o2, e2);
            lemma_ident_is_ascii(module_name);
            codec::lemma_string_roundtrip(module_name, b, o2);
            assert(forall|i: int|
                0 <= i < 8 ==> b[o3 + i] == #[trigger] codec::enc_u64(gas_limit)[i]);
            lemma_chunk(b, o3, codec::enc_u64(gas_limit));
            codec::lemma_u64_roundtrip(gas_limit, b, o3);
            assert(forall|i: int|
                0 <= i < 8 ==> b[o4 + i] == #[trigger] codec::enc_u64(gas_price)[i]);
            lemma_chunk(b, o4, codec::enc_u64(gas_price));
            codec::lemma_u64_roundtrip(gas_price, b, o4);
            assert(o5 == b.len());
                },
        _ => {},
    }
}

#[verifier::rlimit(100)]
#[verifier::spinoff_prover]
proof fn lemma_tx_roundtrip_execute(t: TxView)
    requires
        txv_wf(t),
        t is Execute,
    ensures
        dec_txv(enc_txv(t)) == Some(t),
{
    let b = enc_txv(t);
    match t {
TxView::Execute {
            sender,
            module_address,
            module_name,
            function,
            type_args,
            args,
            gas_limit,
            gas_price,
        } => {
            let e1 = codec::enc_string(module_name);
            let e2 = codec::enc_string(function);
            let e3 = codec::enc_string_list(type_args);
            let e4 = codec::enc_bytes_list(args);
            let o1 = 33int;
            let o2 = o1 + 32;
            let o3 = o2 + e1.len();
            let o4 = o3 + e2.len();
            let o5 = o4 + e3.len();
            let o6 = o5 + e4.len();
            let o7 = o6 + 8;
            let o8 = o7 + 8;
            assert(b[0] == 1);
            assert(forall|i: int| 0 <= i < 32 ==> b[1 + i] == #[trigger] sender[i]);
            lemma_chunk(b, 1, sender);
            assert(forall|i: int| 0 <= i < 32 ==> b[o1 + i] == #[trigger] module_address[i]);
            lemma_chunk(b, o1, module_address);
            assert(forall|i: int| 0 <= i < e1.len() ==> b[o2 + i] == #[trigger] e1[i]);
            lemma_chunk(b, o2, e1);
            lemma_ident_is_ascii(module_name);
            codec::lemma_string_roundtrip(module_name, b, o2);
            assert(forall|i: int| 0 <= i < e2.len() ==> b[o3 + i] == #[trigger] e2[i]);
            lemma_chunk(b, o3, e2);
            lemma_ident_is_ascii(function);
            codec::lemma_string_roundtrip(function, b, o3);
            assert(forall|i: int| 0 <= i < e3.len() ==> b[o4 + i] == #[trigger] e3[i]);
            lemma_chunk(b, o4, e3);
            codec::lemma_string_list_roundtrip(type_args, b, o4);
            assert(forall|i: int| 0 <= i < e4.len() ==> b[o5 + i] == #[trigger] e4[i]);
            lemma_chunk(b, o5, e4);
            codec::lemma_bytes_list_roundtrip(args, b, o5);
            assert(forall|i: int|
                0 <= i < 8 ==> b[o6 + i] == #[trigger] codec::enc_u64(gas_limit)[i]);
            lemma_chunk(b, o6, codec::enc_u64(gas_limit));
            codec::lemma_u64_roundtrip(gas_limit, b, o6);
            assert(forall|i: int|
                0 <= i < 8 ==> b[o7 + i] == #[trigger] codec::enc_u64(gas_price)[i]);
            lemma_chunk(b, o7, codec::enc_u64(gas_price));
            codec::lemma_u64_roundtrip(gas_price, b, o7);
            assert(o8 == b.len());
        },
                _ => {},
    }
}

#[verifier::rlimit(60)]
proof fn lemma_tx_roundtrip_transfer(t: TxView)
    requires
        txv_wf(t),
        t is Transfer,
    ensures
        dec_txv(enc_txv(t)) == Some(t),
{
    let b = enc_txv(t);
    match t {
        TxView::Transfer { from, to, amount, gas_limit, gas_price } => {
            assert(b[0] == 2);
            assert(forall|i: int| 0 <= i < 32 ==> b[1 + i] == #[trigger] from[i]);
            lemma_chunk(b, 1, from);
            assert(forall|i: int| 0 <= i < 32 ==> b[33 + i] == #[trigger] to[i]);
            lemma_chunk(b, 33, to);
            assert(forall|i: int| 0 <= i < 8 ==> b[65 + i] == #[trigger] codec::enc_u64(amount)[i]);
            lemma_chunk(b, 65, codec::enc_u64(amount));
            codec::lemma_u64_roundtrip(amount, b, 65);
            assert(forall|i: int|
                0 <= i < 8 ==> b[73 + i] == #[trigger] codec::enc_u64(gas_limit)[i]);
            lemma_chunk(b, 73, codec::enc_u64(gas_limit));
            codec::lemma_u64_roundtrip(gas_limit, b, 73);
            assert(forall|i: int|
                0 <= i < 8 ==> b[81 + i] == #[trigger] codec::enc_u64(gas_price)[i]);
            lemma_chunk(b, 81, codec::enc_u64(gas_price));
            codec::lemma_u64_roundtrip(gas_price, b, 81);
            assert(b.len() == 89);
                },
        _ => {},
    }
}

/// Decoding the canonical encoding of a well-formed transaction yields the
/// transaction: the canonical bytes determine the body, so serializing,
/// parsing and serializing again is bit-identical.
pub proof fn lemma_tx_roundtrip(t: TxView)
    requires
        txv_wf(t),
    ensures
        dec_txv(enc_txv(t)) == Some(t),
{
    match t {
        TxView::Publish { .. } => lemma_tx_roundtrip_publish(t),
        TxView::Execute { .. } => lemma_tx_roundtrip_execute(t),
        TxView::Transfer { .. } => lemma_tx_roundtrip_transfer(t),
    }
}

/// Read 32 raw address bytes.
fn read_addr(b: &Vec<u8>, p: usize) -> (r: Option<(Address, usize)>)
    ensures
        match dec_addr(b@, p as int) {
            Some((a, q)) => r matches Some(x) && x.0@ == a && x.1 == q && x.0.wf(),
            None => r is None,
        },
{
    if b.len() < 32 || p > b.len() - 32 {
        return None;
    }
    let bytes = strutil::sub_bytes(b, p, p + 32);
    Some((Address::new(bytes), p + 32))
}

/// Decode a canonical transaction. Succeeds exactly when the spec parser
/// does, yielding a well-formed transaction with the parsed image.
pub fn decode_transaction(b: &Vec<u8>) -> (r: Option<Transaction>)
    ensures
        match dec_txv(b@) {
            Some(tv) => r matches Some(t) && t@ == tv && t.wf(),
            None => r is None,
        },
{
    if b.len() < 1 {
        return None;
    }
    let tag = b[0];
    if tag == 0 {
        let (sender, p1) = match read_addr(b, 1) {
            Some(x) => x,
            None => {
                return None;
            },
        };
        let (module_bytes, p2) = match codec::read_bytes(b, p1) {
            Some(x) => x,
            None => {
                return None;
            },
        };
        let (module_name, p3) = match codec::read_string(b, p2) {
            Some(x) => x,
            None => {
                return None;
            },
        };
        let (gas_limit, p4) = match codec::read_u64(b, p3) {
            Some(x) => x,
            None => {
                return None;
            },
        };
        let (gas_price, p5) = match codec::read_u64(b, p4) {
            Some(x) => x,
            None => {
                return None;
            },
        };
        if p5 != b.len() {
            return None;
        }
        if !ident::is_valid_identifier(module_name.as_str()) {
            return None;
        }
        Some(Transaction::PublishModule { sender, module_bytes, module_name, gas_limit, gas_price })
    } else if tag == 1 {
        let (sender, p1) = match read_addr(b, 1) {
            Some(x) => x,
            None => {
                return None;
            },
        };
        let (module_address, p2) = match read_addr(b, p1) {
            Some(x) => x,
            None => {
                return None;
            },
        };
        let (module_name, p3) = match codec::read_string(b, p2) {
            Some(x) => x,
            None => {
                return None;
            },
        };
        let (function, p4) = match codec::read_string(b, p3) {
            Some(x) => x,
            None => {
                return None;
            },
        };
        let (type_args, p5) = match codec::read_string_list(b, p4) {
            Some(x) => x,
            None => {
                return None;
            },
        };
        let (args, p6) = match codec::read_bytes_list(b, p5) {
            Some(x) => x,
            None => {
                return None;
            },
        };
        let (gas_limit, p7) = match codec::read_u64(b, p6) {
            Some(x) => x,
            None => {
                return None;
            },
        };
        let (gas_price, p8) = match codec::read_u64(b, p7) {
            Some(x) => x,
            None => {
                return None;
            },
        };
        if p8 != b.len() {
            return None;
        }
        if !ident::is_valid_identifier(function.as_str()) {
            return None;
        }
        let module_id = match ModuleId::new(module_address, module_name) {
            Ok(m) => m,
            Err(_) => {
                return None;
            },
        };
        proof {
            codec::lemma_dec_string_list_ascii(b@, p4 as int);
            assert forall|i: int| 0 <= i < type_args.deep_view().len() implies codec::ascii_chars(
                #[trigger] type_args.deep_view()[i],
            ) by {}
        }
        Some(
            Transaction::ExecuteFunction {
                sender,
                module_id,
                function,
                type_args,
                args,
                gas_limit,
                gas_price,
            },
        )
    } else if tag == 2 {
        let (from, p1) = match read_addr(b, 1) {
            Some(x) => x,
            None => {
                return None;
            },
        };
        let (to, p2) = match read_addr(b, p1) {
            Some(x) => x,
            None => {
                return None;
            },
        };
        let (amount, p3) = match codec::read_u64(b, p2) {
            Some(x) => x,
            None => {
                return None;
            },
        };
        let (gas_limit, p4) = match codec::read_u64(b, p3) {
            Some(x) => x,
            None => {
                return None;
            },
        };
        let (gas_price, p5) = match codec::read_u64(b, p4) {
            Some(x) => x,
            None => {
                return None;
            },
        };
        if p5 != b.len() {
            return None;
        }
        Some(Transaction::Transfer { from, to, amount, gas_limit, gas_price })
    } else {
        None
    }
}

/// The hash of a transaction body: the SHA-256 digest of its canonical
/// bytes. The signature and public key take no part in it.
pub open spec fn tx_hash_spec(tv: TxView) -> Seq<u8> {
    crypto::sha256_spec(enc_txv(tv))
}

impl Transaction {
    /// The transaction hash.
    pub fn hash(&self) -> (h: Vec<u8>)
        requires
            self.wf(),
        ensures
            h@ == tx_hash_spec(self@),
            h@.len() == 32,
    {
        let bytes = self.encode();
        crypto::sha256(&bytes)
    }
}

/// Why signing failed. The envelope is unchanged in every case.
#[derive(PartialEq, Eq, Structural, Clone, Copy, Debug)]
pub enum EnvelopeError {
    /// The private key has the wrong length or does not decode on the curve.
    InvalidKey,
}

/// A transaction with its authentication: an optional signature and public
/// key, and the curve they belong to.
pub struct SignedTransaction {
    pub transaction: Transaction,
    pub signature: Option<Vec<u8>>,
    pub public_key: Option<Vec<u8>>,
    pub curve: CurveTag,
}

/// Whether an envelope's signature verifies: both the signature and the
/// public key must be present, and the curve's check must accept the
/// transaction hash.
pub open spec fn signature_valid(stx: SignedTransaction) -> bool {
    match (stx.signature, stx.public_key) {
        (Some(sig), Some(pk)) => {
            let h = tx_hash_spec(stx.transaction@);
            match stx.curve {
                CurveTag::Ed25519 => natives::ed25519_verify_spec(sig@, pk@, h),
                CurveTag::K256 => sig@.len() == 64 && crypto::k1_pk_valid(pk@)
                    && crypto::k1_raw_valid(sig@) && crypto::k1_verifies_prehash(pk@, h, sig@),
                CurveTag::P256 => sig@.len() == 64 && crypto::r1_pk_valid(pk@)
                    && crypto::r1_raw_valid(sig@) && crypto::r1_verifies_prehash(pk@, h, sig@),
            }
        },
        _ => false,
    }
}

impl SignedTransaction {
    /// A well-formed envelope wraps a well-formed transaction.
    pub open spec fn wf(&self) -> bool {
        self.transaction.wf()
    }

    /// An unsigned envelope over a transaction.
    pub fn new(transaction: Transaction) -> (s: SignedTransaction)
        ensures
            s.transaction == transaction,
            s.signature is None,
            s.public_key is None,
            s.curve == CurveTag::Ed25519,
    {
        SignedTransaction { transaction, signature: None, public_key: None, curve: CurveTag::Ed25519 }
    }

    /// The transaction hash; independent of the signature fields.
    pub fn hash(&self) -> (h: Vec<u8>)
        requires
            self.wf(),
        ensures
            h@ == tx_hash_spec(self.transaction@),
            h@.len() == 32,
    {
        self.transaction.hash()
    }

    /// Sign the transaction hash with a private key on the given curve,
    /// recording the signature, the matching public key and the curve.
    pub fn sign(&mut self, private_key: &Vec<u8>, curve: CurveTag) -> (r: Result<(), EnvelopeError>)
        requires
            old(self).wf(),
        ensures
            final(self).transaction == old(self).transaction,
            r is Err ==> *final(self) == *old(self) && r == Result::<(), EnvelopeError>::Err(
                EnvelopeError::InvalidKey,
            ),
            r is Ok ==> final(self).curve == curve && signature_present(*final(self)),
            r is Ok && curve == CurveTag::Ed25519 ==> private_key@.len() == 32 && sig_view(
                *final(self),
            ) == crypto::ed25519_sig_of(private_key@, tx_hash_spec(old(self).transaction@))
                && pk_view(*final(self)) == crypto::ed25519_pk_of(private_key@),
            r is Ok && curve == CurveTag::K256 ==> private_key@.len() == 32 && crypto::k1_sk_valid(
                private_key@,
            ) && sig_view(*final(self)) == crypto::k1_sig_of(
                private_key@,
                tx_hash_spec(old(self).transaction@),
            ) && pk_view(*final(self)) == crypto::k1_pk_of(private_key@),
            r is Ok && curve == CurveTag::P256 ==> private_key@.len() == 32 && crypto::r1_sk_valid(
                private_key@,
            ) && sig_view(*final(self)) == crypto::r1_sig_of(
                private_key@,
                tx_hash_spec(old(self).transaction@),
            ) && pk_view(*final(self)) == crypto::r1_pk_of(private_key@),
    {
        let h = self.transaction.hash();
        match curve {
            CurveTag::Ed25519 => {
                if private_key.len() != 32 {
                    return Err(EnvelopeError::InvalidKey);
                }
                let sig = crypto::ed25519_sign(private_key, &h);
                let pk = crypto::ed25519_public_key(private_key);
                self.signature = Some(sig);
                self.public_key = Some(pk);
                self.curve = curve;
                Ok(())
            },
            CurveTag::K256 => {
                if private_key.len() != 32 {
                    return Err(EnvelopeError::InvalidKey);
                }
                if !crypto::k1_check_secret(private_key) {
                    return Err(EnvelopeError::InvalidKey);
                }
                let sig = crypto::k1_sign_prehash(private_key, &h);
                let pk = crypto::k1_public_key(private_key);
                self.signature = Some(sig);
                self.public_key = Some(pk);
                self.curve = curve;
                Ok(())
            },
            CurveTag::P256 => {
                if private_key.len() != 32 {
                    return Err(EnvelopeError::InvalidKey);
                }
                if !crypto::r1_check_secret(private_key) {
                    return Err(EnvelopeError::InvalidKey);
                }
                let sig = crypto::r1_sign_prehash(private_key, &h);
                let pk = crypto::r1_public_key(private_key);
                self.signature = Some(sig);
                self.public_key = Some(pk);
                self.curve = curve;
                Ok(())
            },
        }
    }

    /// Check the envelope's signature against the transaction hash.
    pub fn verify_signature(&self) -> (r: bool)
        requires
            self.wf(),
        ensures
            r == signature_valid(*self),
    {
        let sig = match &self.signature {
            Some(s) => s,
            None => {
                return false;
            },
        };
        let pk = match &self.public_key {
            Some(p) => p,
            None => {
                return false;
            },
        };
        let h = self.transaction.hash();
        match self.curve {
            CurveTag::Ed25519 => natives::ed25519_verify(sig, pk, &h),
            CurveTag::K256 => {
                if sig.len() != 64 {
                    return false;
                }
                if !crypto::k1_check_pubkey(pk) {
                    return false;
                }
                if !crypto::k1_check_raw_sig(sig) {
                    return false;
                }
                crypto::k1_verify_prehash(pk, &h, sig)
            },
            CurveTag::P256 => {
                if sig.len() != 64 {
                    return false;
                }
                if !crypto::r1_check_pubkey(pk) {
                    return false;
                }
                if !crypto::r1_check_raw_sig(sig) {
                    return false;
                }
                crypto::r1_verify_prehash(pk, &h, sig)
            },
        }
    }
}

/// Whether both authentication fields are present.
pub open spec fn signature_present(stx: SignedTransaction) -> bool {
    stx.signature is Some && stx.public_key is Some
}

/// The signature bytes of a signed envelope.
pub open spec fn sig_view(stx: SignedTransaction) -> Seq<u8>
    recommends
        stx.signature is Some,
{
    stx.signature->0@
}

/// The public-key bytes of a signed envelope.
pub open spec fn pk_view(stx: SignedTransaction) -> Seq<u8>
    recommends
        stx.public_key is Some,
{
    stx.public_key->0@
}

/// The transaction hash never depends on the signature fields: two
/// envelopes over the same transaction body hash alike, whatever their
/// signatures, keys or curves.
pub proof fn lemma_hash_ignores_signature(a: SignedTransaction, b: SignedTransaction)
    requires
        a.transaction@ == b.transaction@,
    ensures
        tx_hash_spec(a.transaction@) == tx_hash_spec(b.transaction@),
{
}

} // verus!
