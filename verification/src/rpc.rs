//! The wire-facing request handlers: the method names, the standard error
//! codes, and the per-method logic from parsed parameters to plain results.
//! The HTTP and JSON framing around them is an external concern; these
//! functions take and return plain values only.

use vstd::prelude::*;
use vstd::string::StringSliceAdditionalSpecFns;
use crate::address::Address;
use crate::engine::{AccountInfo, BlockchainEngine, BlockchainStats};
use crate::tx::{self, SignedTransaction, Transaction};

verus! {

/// The account-lookup method name.
pub const GET_ACCOUNT: &'static str = "kanari_getAccount";

/// The balance-lookup method name.
pub const GET_BALANCE: &'static str = "kanari_getBalance";

/// The block-lookup method name.
pub const GET_BLOCK: &'static str = "kanari_getBlock";

/// The height-lookup method name.
pub const GET_BLOCK_HEIGHT: &'static str = "kanari_getBlockHeight";

/// The counters method name.
pub const GET_STATS: &'static str = "kanari_getStats";

/// The submission method name.
pub const SUBMIT_TRANSACTION: &'static str = "kanari_submitTransaction";

/// The standard error kinds.
#[derive(PartialEq, Eq, Structural, Clone, Copy, Debug)]
pub enum RpcErrorKind {
    MethodNotFound,
    InvalidParams,
    Internal,
}

impl RpcErrorKind {
    /// The standard numeric code of this error kind.
    pub fn code(&self) -> (c: i64)
        ensures
            *self == RpcErrorKind::MethodNotFound ==> c == -32601,
            *self == RpcErrorKind::InvalidParams ==> c == -32602,
            *self == RpcErrorKind::Internal ==> c == -32603,
    {
        match self {
            RpcErrorKind::MethodNotFound => -32601,
            RpcErrorKind::InvalidParams => -32602,
            RpcErrorKind::Internal => -32603,
        }
    }
}

/// A submitted transaction as the wire carries it: textual addresses, an
/// optional amount, gas terms, and an optional signature with its key.
pub struct SignedTransactionData {
    pub sender: String,
    pub recipient: Option<String>,
    pub amount: Option<u64>,
    pub gas_limit: u64,
    pub gas_price: u64,
    pub signature: Option<Vec<u8>>,
    pub public_key: Option<Vec<u8>>,
}

/// One block as the wire reports it. The state root is the digest of the
/// current state, a different digest from the block hash.
pub struct BlockReply {
    pub height: u64,
    pub timestamp: u64,
    pub hash: String,
    pub prev_hash: String,
    pub tx_count: usize,
    pub state_root: String,
}

/// Look an account up; a missing account is an internal error, as the wire
/// reports it.
pub fn handle_get_account(engine: &BlockchainEngine, address_text: &str) -> (r: Result<
    AccountInfo,
    RpcErrorKind,
>)
    requires
        engine.wf(),
    ensures
        r is Ok <==> crate::address::valid_literal_bytes(address_text.spec_bytes())
            && crate::state::has_acc(
            engine.state.accounts@,
            crate::address::literal_value(address_text.spec_bytes()),
        ),
        r matches Ok(info) ==> info.balance == crate::state::balance_of(
            engine.state.accounts@,
            crate::address::literal_value(address_text.spec_bytes()),
        ) && info.sequence_number == crate::state::seq_of(
            engine.state.accounts@,
            crate::address::literal_value(address_text.spec_bytes()),
        ) && info.modules.deep_view() =~= crate::state::modules_of(
            engine.state.accounts@,
            crate::address::literal_value(address_text.spec_bytes()),
        ) && info.address@ == crate::strutil::chars_of_bytes(
            crate::address::canonical_literal_bytes(
                crate::address::literal_value(address_text.spec_bytes()),
            ),
        ),
        !crate::address::valid_literal_bytes(address_text.spec_bytes()) ==> r == Result::<
            AccountInfo,
            RpcErrorKind,
        >::Err(RpcErrorKind::InvalidParams),
        crate::address::valid_literal_bytes(address_text.spec_bytes())
            && !crate::state::has_acc(
            engine.state.accounts@,
            crate::address::literal_value(address_text.spec_bytes()),
        ) ==> r == Result::<AccountInfo, RpcErrorKind>::Err(RpcErrorKind::Internal),
{
    let address = match Address::from_hex_literal(address_text) {
        Ok(a) => a,
        Err(_) => {
            return Err(RpcErrorKind::InvalidParams);
        },
    };
    match engine.get_account_info(&address) {
        Some(info) => Ok(info),
        None => Err(RpcErrorKind::Internal),
    }
}

/// Look a balance up; a missing account reads as zero.
pub fn handle_get_balance(engine: &BlockchainEngine, address_text: &str) -> (r: Result<
    u64,
    RpcErrorKind,
>)
    requires
        engine.wf(),
    ensures
        crate::address::valid_literal_bytes(address_text.spec_bytes()) ==> (r matches Ok(b) && b
            == crate::state::balance_of(
            engine.state.accounts@,
            crate::address::literal_value(address_text.spec_bytes()),
        )),
        r is Err ==> r == Result::<u64, RpcErrorKind>::Err(RpcErrorKind::InvalidParams),
{
    let address = match Address::from_hex_literal(address_text) {
        Ok(a) => a,
        Err(_) => {
            return Err(RpcErrorKind::InvalidParams);
        },
    };
    Ok(engine.state.get_balance(&address))
}

/// Look a block up by height, reporting its digests in hex and the current
/// state root beside them.
pub fn handle_get_block(engine: &BlockchainEngine, height: u64) -> (r: Result<
    BlockReply,
    RpcErrorKind,
>)
    requires
        engine.wf(),
    ensures
        r is Ok <==> height < engine.blockchain.blocks@.len(),
        r is Err ==> r == Result::<BlockReply, RpcErrorKind>::Err(RpcErrorKind::Internal),
        r matches Ok(b) ==> b.height == engine.blockchain.blocks@[height as int].header.height
            && b.timestamp == engine.blockchain.blocks@[height as int].header.timestamp
            && b.tx_count == engine.blockchain.blocks@[height as int].transactions@.len()
            && b.hash@ == crate::strutil::chars_of_bytes(
            crate::hexstr::hex_bytes_of(
                crate::block::block_hash_spec(engine.blockchain.blocks@[height as int]),
            ),
        ) && b.prev_hash@ == crate::strutil::chars_of_bytes(
            crate::hexstr::hex_bytes_of(
                engine.blockchain.blocks@[height as int].header.prev_hash@,
            ),
        ) && b.state_root@ == crate::strutil::chars_of_bytes(
            crate::hexstr::hex_bytes_of(
                crate::crypto::sha256_spec(crate::state::state_encoding(engine.state)),
            ),
        ),
{
    match engine.get_block(height) {
        Some(data) => {
            let root = engine.state.compute_state_root();
            Ok(
                BlockReply {
                    height: data.height,
                    timestamp: data.timestamp,
                    hash: data.hash,
                    prev_hash: data.prev_hash,
                    tx_count: data.tx_count,
                    state_root: crate::hexstr::encode(&root),
                },
            )
        },
        None => Err(RpcErrorKind::Internal),
    }
}

/// The current chain height.
pub fn handle_get_block_height(engine: &BlockchainEngine) -> (h: u64)
    requires
        engine.wf(),
    ensures
        h as int == engine.blockchain.blocks@.len() - 1,
{
    engine.blockchain.height()
}

/// The chain-wide counters.
pub fn handle_get_stats(engine: &BlockchainEngine) -> (s: BlockchainStats)
    requires
        engine.wf(),
    ensures
        s.height as int == engine.blockchain.blocks@.len() - 1,
        s.total_supply == engine.state.total_supply,
{
    engine.get_stats()
}

/// Does a submission parse: a valid sender literal, a present and valid
/// recipient literal, and a present amount.
pub open spec fn submission_parses(data: SignedTransactionData) -> bool {
    &&& crate::address::valid_literal_bytes(vstd::utf8::encode_utf8(data.sender@))
    &&& data.recipient is Some
    &&& crate::address::valid_literal_bytes(vstd::utf8::encode_utf8(data.recipient->0@))
    &&& data.amount is Some
}

/// The transfer a parsed submission denotes: both addresses by their
/// literal values and every parameter carried verbatim.
pub open spec fn submitted_transfer_view(data: SignedTransactionData) -> crate::tx::TxView {
    crate::tx::TxView::Transfer {
        from: crate::address::literal_value(vstd::utf8::encode_utf8(data.sender@)),
        to: crate::address::literal_value(vstd::utf8::encode_utf8(data.recipient->0@)),
        amount: data.amount->0,
        gas_limit: data.gas_limit,
        gas_price: data.gas_price,
    }
}

/// Whether a submission passes the engine's admission rules: a present
/// signature and key must verify the transaction hash over ed25519; absent
/// authentication is admitted only while unsigned submissions are.
pub open spec fn submission_admissible(engine: BlockchainEngine, data: SignedTransactionData) -> bool {
    if data.signature is Some && data.public_key is Some {
        crate::natives::ed25519_verify_spec(
            data.signature->0@,
            data.public_key->0@,
            crate::tx::tx_hash_spec(submitted_transfer_view(data)),
        )
    } else {
        engine.skip_signature
    }
}

/// Queue a submitted transaction. Only transfers arrive over the wire: the
/// queued transfer carries the parameters verbatim and the returned bytes
/// are its transaction hash; a submission that does not parse is invalid,
/// and one the engine refuses is an internal error on the wire.
pub fn handle_submit_transaction(engine: &mut BlockchainEngine, data: SignedTransactionData) -> (r:
    Result<Vec<u8>, RpcErrorKind>)
    requires
        old(engine).wf(),
    ensures
        final(engine).wf(),
        final(engine).state == old(engine).state,
        final(engine).blockchain == old(engine).blockchain,
        final(engine).skip_signature == old(engine).skip_signature,
        r is Ok <==> submission_parses(data) && submission_admissible(*old(engine), data),
        r matches Ok(h) ==> final(engine).pending_txs@.len() == old(engine).pending_txs@.len() + 1
            && final(engine).pending_txs@.last().transaction@ == submitted_transfer_view(data)
            && final(engine).pending_txs@.last().curve == tx::CurveTag::Ed25519
            && final(engine).pending_txs@.last().signature == data.signature
            && final(engine).pending_txs@.last().public_key == data.public_key
            && h@ == crate::tx::tx_hash_spec(submitted_transfer_view(data)),
        r matches Ok(h) ==> forall|j: int|
            0 <= j < old(engine).pending_txs@.len() ==> final(engine).pending_txs@[j] == old(
                engine,
            ).pending_txs@[j],
        r is Err ==> final(engine).pending_txs@ == old(engine).pending_txs@,
        !submission_parses(data) ==> r == Result::<Vec<u8>, RpcErrorKind>::Err(
            RpcErrorKind::InvalidParams,
        ),
        submission_parses(data) && !submission_admissible(*old(engine), data) ==> r == Result::<
            Vec<u8>,
            RpcErrorKind,
        >::Err(RpcErrorKind::Internal),
{
    let sender = match Address::from_hex_literal(data.sender.as_str()) {
        Ok(a) => a,
        Err(_) => {
            return Err(RpcErrorKind::InvalidParams);
        },
    };
    let recipient_text = match data.recipient {
        Some(t) => t,
        None => {
            return Err(RpcErrorKind::InvalidParams);
        },
    };
    let recipient = match Address::from_hex_literal(recipient_text.as_str()) {
        Ok(a) => a,
        Err(_) => {
            return Err(RpcErrorKind::InvalidParams);
        },
    };
    let amount = match data.amount {
        Some(v) => v,
        None => {
            return Err(RpcErrorKind::InvalidParams);
        },
    };
    let body = Transaction::Transfer {
        from: sender,
        to: recipient,
        amount,
        gas_limit: data.gas_limit,
        gas_price: data.gas_price,
    };
    let stx = SignedTransaction {
        transaction: body,
        signature: data.signature,
        public_key: data.public_key,
        curve: tx::CurveTag::Ed25519,
    };
    match engine.submit_transaction(stx) {
        Ok(hash) => Ok(hash),
        Err(_) => Err(RpcErrorKind::Internal),
    }
}

/// The parameters of one request, already parsed off the wire.
pub enum RpcParams {
    Absent,
    Text(String),
    Number(u64),
    Tx(SignedTransactionData),
}

/// The result of one request, ready for the wire.
pub enum RpcOutcome {
    Account(AccountInfo),
    Balance(u64),
    Block(BlockReply),
    Height(u64),
    Stats(BlockchainStats),
    Submitted(Vec<u8>),
}

/// The known methods.
#[derive(PartialEq, Eq, Structural, Clone, Copy, Debug)]
pub enum MethodName {
    GetAccount,
    GetBalance,
    GetBlock,
    GetBlockHeight,
    GetStats,
    SubmitTransaction,
}

/// Resolve a method name; unknown names resolve to nothing and each known
/// name to its own entry.
pub fn resolve_method(method: &String) -> (k: Option<MethodName>)
    ensures
        k is None <==> (method@ != GET_ACCOUNT@ && method@ != GET_BALANCE@ && method@
            != GET_BLOCK@ && method@ != GET_BLOCK_HEIGHT@ && method@ != GET_STATS@ && method@
            != SUBMIT_TRANSACTION@),
        k == Some(MethodName::GetAccount) <==> method@ == GET_ACCOUNT@,
        k == Some(MethodName::GetBalance) <==> method@ == GET_BALANCE@,
        k == Some(MethodName::GetBlock) <==> method@ == GET_BLOCK@,
        k == Some(MethodName::GetBlockHeight) <==> method@ == GET_BLOCK_HEIGHT@,
        k == Some(MethodName::GetStats) <==> method@ == GET_STATS@,
        k == Some(MethodName::SubmitTransaction) <==> method@ == SUBMIT_TRANSACTION@,
{
    proof {
        reveal_strlit("kanari_getAccount");
        reveal_strlit("kanari_getBalance");
        reveal_strlit("kanari_getBlock");
        reveal_strlit("kanari_getBlockHeight");
        reveal_strlit("kanari_getStats");
        reveal_strlit("kanari_submitTransaction");
        assert(GET_ACCOUNT@[10] != GET_BALANCE@[10]);
        assert(GET_BLOCK@[10] != GET_STATS@[10]);
        assert(GET_ACCOUNT@.len() == 17);
        assert(GET_BALANCE@.len() == 17);
        assert(GET_BLOCK@.len() == 15);
        assert(GET_BLOCK_HEIGHT@.len() == 21);
        assert(GET_STATS@.len() == 15);
        assert(SUBMIT_TRANSACTION@.len() == 24);
    }
    let get_account = GET_ACCOUNT.to_owned();
    let get_balance = GET_BALANCE.to_owned();
    let get_block = GET_BLOCK.to_owned();
    let get_block_height = GET_BLOCK_HEIGHT.to_owned();
    let get_stats = GET_STATS.to_owned();
    let submit = SUBMIT_TRANSACTION.to_owned();
    if method.eq(&get_account) {
        Some(MethodName::GetAccount)
    } else if method.eq(&get_balance) {
        Some(MethodName::GetBalance)
    } else if method.eq(&get_block) {
        Some(MethodName::GetBlock)
    } else if method.eq(&get_block_height) {
        Some(MethodName::GetBlockHeight)
    } else if method.eq(&get_stats) {
        Some(MethodName::GetStats)
    } else if method.eq(&submit) {
        Some(MethodName::SubmitTransaction)
    } else {
        None
    }
}

/// The account arm of the dispatcher.
fn rpc_account_arm(engine: &BlockchainEngine, params: RpcParams) -> (r: Result<
    RpcOutcome,
    RpcErrorKind,
>)
    requires
        engine.wf(),
    ensures
        !(params is Text) ==> r == Result::<RpcOutcome, RpcErrorKind>::Err(
            RpcErrorKind::InvalidParams,
        ),
        params matches RpcParams::Text(a) ==> ((r matches Ok(RpcOutcome::Account(info))) <==> (
        crate::address::valid_literal_bytes(vstd::utf8::encode_utf8(a@)) && crate::state::has_acc(
            engine.state.accounts@,
            crate::address::literal_value(vstd::utf8::encode_utf8(a@)),
        ))),
        params matches RpcParams::Text(a) ==> (r matches Ok(RpcOutcome::Account(info))
            ==> info.balance == crate::state::balance_of(
            engine.state.accounts@,
            crate::address::literal_value(vstd::utf8::encode_utf8(a@)),
        ) && info.sequence_number == crate::state::seq_of(
            engine.state.accounts@,
            crate::address::literal_value(vstd::utf8::encode_utf8(a@)),
        )),
        r is Err ==> r->Err_0 != RpcErrorKind::MethodNotFound,
{
    match params {
        RpcParams::Text(address) => match handle_get_account(engine, address.as_str()) {
            Ok(info) => Ok(RpcOutcome::Account(info)),
            Err(e) => Err(e),
        },
        _ => Err(RpcErrorKind::InvalidParams),
    }
}

/// The balance arm of the dispatcher.
fn rpc_balance_arm(engine: &BlockchainEngine, params: RpcParams) -> (r: Result<
    RpcOutcome,
    RpcErrorKind,
>)
    requires
        engine.wf(),
    ensures
        !(params is Text) ==> r == Result::<RpcOutcome, RpcErrorKind>::Err(
            RpcErrorKind::InvalidParams,
        ),
        params matches RpcParams::Text(a) ==> (crate::address::valid_literal_bytes(
            vstd::utf8::encode_utf8(a@),
        ) ==> (r matches Ok(RpcOutcome::Balance(b)) && b == crate::state::balance_of(
            engine.state.accounts@,
            crate::address::literal_value(vstd::utf8::encode_utf8(a@)),
        ))),
        r is Err ==> r->Err_0 != RpcErrorKind::MethodNotFound,
{
    match params {
        RpcParams::Text(address) => match handle_get_balance(engine, address.as_str()) {
            Ok(balance) => Ok(RpcOutcome::Balance(balance)),
            Err(e) => Err(e),
        },
        _ => Err(RpcErrorKind::InvalidParams),
    }
}

/// The block arm of the dispatcher.
fn rpc_block_arm(engine: &BlockchainEngine, params: RpcParams) -> (r: Result<
    RpcOutcome,
    RpcErrorKind,
>)
    requires
        engine.wf(),
    ensures
        !(params is Number) ==> r == Result::<RpcOutcome, RpcErrorKind>::Err(
            RpcErrorKind::InvalidParams,
        ),
        params matches RpcParams::Number(h) ==> ((r matches Ok(RpcOutcome::Block(b))) <==> h
            < engine.blockchain.blocks@.len()),
        params matches RpcParams::Number(h) ==> (r matches Ok(RpcOutcome::Block(b)) ==> b.height
            == engine.blockchain.blocks@[h as int].header.height && b.tx_count
            == engine.blockchain.blocks@[h as int].transactions@.len() && b.hash@
            == crate::strutil::chars_of_bytes(
            crate::hexstr::hex_bytes_of(
                crate::block::block_hash_spec(engine.blockchain.blocks@[h as int]),
            ),
        )),
        r is Err ==> r->Err_0 != RpcErrorKind::MethodNotFound,
{
    match params {
        RpcParams::Number(height) => match handle_get_block(engine, height) {
            Ok(block) => Ok(RpcOutcome::Block(block)),
            Err(e) => Err(e),
        },
        _ => Err(RpcErrorKind::InvalidParams),
    }
}

/// The submission arm of the dispatcher.
fn rpc_submit_arm(engine: &mut BlockchainEngine, params: RpcParams) -> (r: Result<
    RpcOutcome,
    RpcErrorKind,
>)
    requires
        old(engine).wf(),
    ensures
        final(engine).wf(),
        final(engine).state == old(engine).state,
        final(engine).blockchain == old(engine).blockchain,
        !(params is Tx) ==> r == Result::<RpcOutcome, RpcErrorKind>::Err(
            RpcErrorKind::InvalidParams,
        ) && final(engine).pending_txs@ == old(engine).pending_txs@,
        params matches RpcParams::Tx(d) ==> ((r matches Ok(RpcOutcome::Submitted(h))) <==> (
        submission_parses(d) && submission_admissible(*old(engine), d))),
        params matches RpcParams::Tx(d) ==> (r matches Ok(RpcOutcome::Submitted(h)) ==> final(engine).pending_txs@.len() == old(engine).pending_txs@.len() + 1 && final(engine).pending_txs@.last().transaction@ == submitted_transfer_view(d) && h@
            == crate::tx::tx_hash_spec(submitted_transfer_view(d))),
        r is Err ==> final(engine).pending_txs@ == old(engine).pending_txs@,
        r is Err ==> r->Err_0 != RpcErrorKind::MethodNotFound,
{
    match params {
        RpcParams::Tx(data) => match handle_submit_transaction(engine, data) {
            Ok(hash) => Ok(RpcOutcome::Submitted(hash)),
            Err(e) => Err(e),
        },
        _ => Err(RpcErrorKind::InvalidParams),
    }
}

/// Answer one resolved request: parameters of the wrong shape are refused
/// as invalid, and each method answers as its handler does.
fn handle_resolved(engine: &mut BlockchainEngine, kind: MethodName, params: RpcParams) -> (r:
    Result<RpcOutcome, RpcErrorKind>)
    requires
        old(engine).wf(),
    ensures
        final(engine).wf(),
        final(engine).state == old(engine).state,
        final(engine).blockchain == old(engine).blockchain,
        r != Result::<RpcOutcome, RpcErrorKind>::Err(RpcErrorKind::MethodNotFound),
        kind != MethodName::SubmitTransaction ==> final(engine).pending_txs@ == old(
            engine,
        ).pending_txs@,
        kind == MethodName::GetBlockHeight ==> (r matches Ok(RpcOutcome::Height(h)) && h as int
            == old(engine).blockchain.blocks@.len() - 1),
        kind == MethodName::GetStats ==> (r matches Ok(RpcOutcome::Stats(st)) && st.height as int
            == old(engine).blockchain.blocks@.len() - 1 && st.total_supply == old(
            engine,
        ).state.total_supply),
        kind == MethodName::GetBalance && !(params is Text) ==> r == Result::<
            RpcOutcome,
            RpcErrorKind,
        >::Err(RpcErrorKind::InvalidParams),
        kind == MethodName::GetBalance ==> (params matches RpcParams::Text(a)
            ==> (crate::address::valid_literal_bytes(vstd::utf8::encode_utf8(a@)) ==> (r matches Ok(
            RpcOutcome::Balance(b),
        ) && b == crate::state::balance_of(
            old(engine).state.accounts@,
            crate::address::literal_value(vstd::utf8::encode_utf8(a@)),
        )))),
        kind == MethodName::GetAccount && !(params is Text) ==> r == Result::<
            RpcOutcome,
            RpcErrorKind,
        >::Err(RpcErrorKind::InvalidParams),
        kind == MethodName::GetAccount ==> (params matches RpcParams::Text(a) ==> ((r matches Ok(
            RpcOutcome::Account(info),
        )) <==> (crate::address::valid_literal_bytes(vstd::utf8::encode_utf8(a@))
            && crate::state::has_acc(
            old(engine).state.accounts@,
            crate::address::literal_value(vstd::utf8::encode_utf8(a@)),
        )))),
        kind == MethodName::GetAccount ==> (params matches RpcParams::Text(a) ==> (r matches Ok(
            RpcOutcome::Account(info),
        ) ==> info.balance == crate::state::balance_of(
            old(engine).state.accounts@,
            crate::address::literal_value(vstd::utf8::encode_utf8(a@)),
        ) && info.sequence_number == crate::state::seq_of(
            old(engine).state.accounts@,
            crate::address::literal_value(vstd::utf8::encode_utf8(a@)),
        ))),
        kind == MethodName::GetBlock && !(params is Number) ==> r == Result::<
            RpcOutcome,
            RpcErrorKind,
        >::Err(RpcErrorKind::InvalidParams),
        kind == MethodName::GetBlock ==> (params matches RpcParams::Number(h) ==> (((r matches Ok(
            RpcOutcome::Block(b),
        )) <==> h < old(engine).blockchain.blocks@.len()) && (r matches Ok(RpcOutcome::Block(b))
            ==> b.height == old(engine).blockchain.blocks@[h as int].header.height && b.tx_count
            == old(engine).blockchain.blocks@[h as int].transactions@.len() && b.hash@
            == crate::strutil::chars_of_bytes(
            crate::hexstr::hex_bytes_of(
                crate::block::block_hash_spec(old(engine).blockchain.blocks@[h as int]),
            ),
        )))),
        kind == MethodName::SubmitTransaction && !(params is Tx) ==> r == Result::<
            RpcOutcome,
            RpcErrorKind,
        >::Err(RpcErrorKind::InvalidParams) && final(engine).pending_txs@ == old(
            engine,
        ).pending_txs@,
        kind == MethodName::SubmitTransaction ==> (params matches RpcParams::Tx(d) ==> (((
        r matches Ok(RpcOutcome::Submitted(h))) <==> (submission_parses(d) && submission_admissible(
            *old(engine),
            d,
        ))) && (r matches Ok(RpcOutcome::Submitted(h)) ==> final(engine).pending_txs@.len() == old(
            engine,
        ).pending_txs@.len() + 1 && final(engine).pending_txs@.last().transaction@
            == submitted_transfer_view(d) && h@ == crate::tx::tx_hash_spec(
            submitted_transfer_view(d),
        )) && (r is Err ==> final(engine).pending_txs@ == old(engine).pending_txs@))),
{
    match kind {
        MethodName::GetAccount => rpc_account_arm(engine, params),
        MethodName::GetBalance => rpc_balance_arm(engine, params),
        MethodName::GetBlock => rpc_block_arm(engine, params),
        MethodName::GetBlockHeight => Ok(RpcOutcome::Height(handle_get_block_height(engine))),
        MethodName::GetStats => Ok(RpcOutcome::Stats(handle_get_stats(engine))),
        MethodName::SubmitTransaction => rpc_submit_arm(engine, params),
    }
}

/// Dispatch one request by method name: an unknown method is refused with
/// the method-not-found kind, parameters of the wrong shape with the
/// invalid-parameters kind, and each known method answers as its handler
/// does.
#[verifier::rlimit(100)]
#[verifier::spinoff_prover]
pub fn handle_rpc(engine: &mut BlockchainEngine, method: &String, params: RpcParams) -> (r: Result<
    RpcOutcome,
    RpcErrorKind,
>)
    requires
        old(engine).wf(),
    ensures
        final(engine).wf(),
        final(engine).state == old(engine).state,
        final(engine).blockchain == old(engine).blockchain,
        (method@ != GET_ACCOUNT@ && method@ != GET_BALANCE@ && method@ != GET_BLOCK@ && method@
            != GET_BLOCK_HEIGHT@ && method@ != GET_STATS@ && method@ != SUBMIT_TRANSACTION@) <==> r
            == Result::<RpcOutcome, RpcErrorKind>::Err(RpcErrorKind::MethodNotFound),
        method@ != SUBMIT_TRANSACTION@ ==> final(engine).pending_txs@ == old(engine).pending_txs@,
        method@ == GET_BLOCK_HEIGHT@ ==> (r matches Ok(RpcOutcome::Height(h)) && h as int == old(
            engine,
        ).blockchain.blocks@.len() - 1),
        method@ == GET_STATS@ ==> (r matches Ok(RpcOutcome::Stats(st)) && st.height as int == old(
            engine,
        ).blockchain.blocks@.len() - 1 && st.total_supply == old(engine).state.total_supply),
        method@ == GET_BALANCE@ && !(params is Text) ==> r == Result::<
            RpcOutcome,
            RpcErrorKind,
        >::Err(RpcErrorKind::InvalidParams),
        method@ == GET_BALANCE@ ==> (params matches RpcParams::Text(a)
            ==> (crate::address::valid_literal_bytes(vstd::utf8::encode_utf8(a@)) ==> (r matches Ok(
            RpcOutcome::Balance(b),
        ) && b == crate::state::balance_of(
            old(engine).state.accounts@,
            crate::address::literal_value(vstd::utf8::encode_utf8(a@)),
        )))),
        method@ == GET_ACCOUNT@ && !(params is Text) ==> r == Result::<
            RpcOutcome,
            RpcErrorKind,
        >::Err(RpcErrorKind::InvalidParams),
        method@ == GET_ACCOUNT@ ==> (params matches RpcParams::Text(a) ==> ((r matches Ok(
            RpcOutcome::Account(info),
        )) <==> (crate::address::valid_literal_bytes(vstd::utf8::encode_utf8(a@))
            && crate::state::has_acc(
            old(engine).state.accounts@,
            crate::address::literal_value(vstd::utf8::encode_utf8(a@)),
        )))),
        method@ == GET_ACCOUNT@ ==> (params matches RpcParams::Text(a) ==> (r matches Ok(
            RpcOutcome::Account(info),
        ) ==> info.balance == crate::state::balance_of(
            old(engine).state.accounts@,
            crate::address::literal_value(vstd::utf8::encode_utf8(a@)),
        ) && info.sequence_number == crate::state::seq_of(
            old(engine).state.accounts@,
            crate::address::literal_value(vstd::utf8::encode_utf8(a@)),
        ))),
        method@ == GET_BLOCK@ && !(params is Number) ==> r == Result::<
            RpcOutcome,
            RpcErrorKind,
        >::Err(RpcErrorKind::InvalidParams),
        method@ == GET_BLOCK@ ==> (params matches RpcParams::Number(h) ==> (((r matches Ok(
            RpcOutcome::Block(b),
        )) <==> h < old(engine).blockchain.blocks@.len()) && (r matches Ok(RpcOutcome::Block(b))
            ==> b.height == old(engine).blockchain.blocks@[h as int].header.height && b.tx_count
            == old(engine).blockchain.blocks@[h as int].transactions@.len() && b.hash@
            == crate::strutil::chars_of_bytes(
            crate::hexstr::hex_bytes_of(
                crate::block::block_hash_spec(old(engine).blockchain.blocks@[h as int]),
            ),
        )))),
        method@ == SUBMIT_TRANSACTION@ && !(params is Tx) ==> r == Result::<
            RpcOutcome,
            RpcErrorKind,
        >::Err(RpcErrorKind::InvalidParams) && final(engine).pending_txs@ == old(engine).pending_txs@,
        method@ == SUBMIT_TRANSACTION@ ==> (params matches RpcParams::Tx(d) ==> (((r matches Ok(
            RpcOutcome::Submitted(h),
        )) <==> (submission_parses(d) && submission_admissible(*old(engine), d))) && (r matches Ok(
            RpcOutcome::Submitted(h),
        ) ==> final(engine).pending_txs@.len() == old(engine).pending_txs@.len() + 1 && final(engine).pending_txs@.last().transaction@ == submitted_transfer_view(d) && h@
            == crate::tx::tx_hash_spec(submitted_transfer_view(d))) && (r is Err ==> final(engine).pending_txs@ == old(engine).pending_txs@))),
{
    let kind = match resolve_method(method) {
        Some(k) => k,
        None => {
            return Err(RpcErrorKind::MethodNotFound);
        },
    };
    handle_resolved(engine, kind, params)
}

} // verus!
