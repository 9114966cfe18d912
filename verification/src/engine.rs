//! The execution engine: one transaction at a time is validated against the
//! worst-case gas bill, executed, and settled — the sender pays the fee, the
//! DAO address receives it, and the sender's sequence number rises on every
//! executed or aborted transaction. A transaction that fails validation
//! leaves the state exactly as it was. Every path conserves the sum of all
//! balances, so a balanced state stays balanced.

use vstd::prelude::*;
use crate::address::{self, Address};
use crate::gas;
use crate::state::{balance_of, has_acc, modules_of, seq_of, sum_bal, StateManager};

verus! {

/// Why an execution inside the VM stopped (the gas-abort taxonomy).
#[derive(PartialEq, Eq, Structural, Clone, Copy, Debug)]
pub enum AbortKind {
    OutOfGas,
    LinkerError,
    VerifyError,
    AbortByMove(u64),
    ArithmeticError,
    TypeMismatch,
    ResourceMissing,
    DuplicateModule,
}

/// Why a transaction failed.
#[derive(PartialEq, Eq, Structural, Clone, Copy, Debug)]
pub enum TxError {
    /// The kind's static cost alone exceeds the gas limit; nothing changed.
    PrechargeOutOfGas,
    /// The sender is missing or cannot cover amount plus worst-case gas;
    /// nothing changed.
    InsufficientFunds,
    /// A balance or sequence number would leave its range; nothing changed.
    Overflow,
    /// Execution aborted: the fee was charged and the sequence number rose.
    Aborted(AbortKind),
    /// A publication was refused with no state effect.
    Rejected(AbortKind),
}

/// What the external bytecode interpreter reported for a stored-module call.
/// The built-in natives and all transfers are executed here and never
/// consult it.
#[derive(PartialEq, Eq, Structural, Clone, Copy, Debug)]
pub enum VmVerdict {
    /// The body returned after the given number of instructions.
    Returned { instructions: u64 },
    /// The body aborted with a code after the given number of instructions.
    Aborted { code: u64, instructions: u64 },
}

/// The outcome of one transaction.
pub struct TxOutcome {
    pub success: bool,
    pub gas_used: u64,
    pub error: Option<TxError>,
}

/// The DAO address view: the sink of all gas fees.
pub open spec fn dao_v() -> Seq<u8> {
    address::reserved_addr(0xda)
}

/// The balance each address holds after moving `amount` from `fromv` to
/// `tov` and `fee` from `fromv` to the DAO, all read against `accs`.
pub open spec fn moved_balance(
    accs: Seq<crate::state::Account>,
    fromv: Seq<u8>,
    tov: Seq<u8>,
    amount: u64,
    fee: u64,
    a: Seq<u8>,
) -> int {
    balance_of(accs, a) - (if a == fromv {
        amount + fee
    } else {
        0int
    }) + (if a == tov {
        amount as int
    } else {
        0int
    }) + (if a == dao_v() {
        fee as int
    } else {
        0int
    })
}

/// Charge a fee: debit the sender, credit the DAO, and count the sender's
/// transaction.
fn charge_fee_and_bump(state: &mut StateManager, sender: &Address, charge: u64) -> (r: Result<
    (),
    (),
>)
    requires
        old(state).wf(),
        has_acc(old(state).accounts@, sender@),
        balance_of(old(state).accounts@, sender@) >= charge,
        seq_of(old(state).accounts@, sender@) < u64::MAX,
        sender@ == dao_v() || balance_of(old(state).accounts@, dao_v()) + charge <= u64::MAX,
    ensures
        r is Ok,
        final(state).wf(),
        final(state).total_supply == old(state).total_supply,
        final(state).modules@ == old(state).modules@,
        forall|a: Seq<u8>|
            balance_of(final(state).accounts@, a) as int == moved_balance(
                old(state).accounts@,
                sender@,
                sender@,
                0,
                charge,
                a,
            ),
        forall|a: Seq<u8>|
            seq_of(final(state).accounts@, a) as int == seq_of(old(state).accounts@, a) + (
            if a == sender@ {
                1int
            } else {
                0int
            }),
        forall|a: Seq<u8>|
            modules_of(final(state).accounts@, a) =~= modules_of(old(state).accounts@, a),
        forall|a: Seq<u8>|
            has_acc(final(state).accounts@, a) == (has_acc(old(state).accounts@, a) || a
                == dao_v()),
        sum_bal(final(state).accounts@) == sum_bal(old(state).accounts@),
        old(state).balanced() ==> final(state).balanced(),
{
    let r1 = state.deduct_balance(sender, charge);
    proof {
        assert(r1 is Ok);
    }
    let r2 = state.collect_gas(charge);
    proof {
        assert(r2 is Ok);
    }
    let r3 = state.bump_sequence(sender);
    proof {
        assert(r3 is Ok);
    }
    Ok(())
}

/// The classification of a transfer against a state, mirroring the engine's
/// checks in order: the static cost must fit the limit; the sender must
/// exist and cover the amount plus the fee (a transfer consumes exactly its
/// static cost, so that fee is its worst case); no sequence number,
/// recipient balance or DAO balance may leave its range.
pub open spec fn transfer_outcome_spec(
    s: StateManager,
    fromv: Seq<u8>,
    tov: Seq<u8>,
    amount: u64,
    gas_limit: u64,
    gas_price: u64,
) -> Option<TxError> {
    let fee = gas::sat_u64(200 * gas_price);
    if 200 > gas_limit {
        Some(TxError::PrechargeOutOfGas)
    } else if !has_acc(s.accounts@, fromv) {
        Some(TxError::InsufficientFunds)
    } else if amount + fee > u64::MAX {
        Some(TxError::InsufficientFunds)
    } else if balance_of(s.accounts@, fromv) < amount + fee {
        Some(TxError::InsufficientFunds)
    } else if seq_of(s.accounts@, fromv) == u64::MAX {
        Some(TxError::Overflow)
    } else if fromv != tov && balance_of(s.accounts@, tov) + amount > u64::MAX {
        Some(TxError::Overflow)
    } else if moved_balance(s.accounts@, fromv, tov, amount, fee, dao_v()) > u64::MAX {
        Some(TxError::Overflow)
    } else {
        None
    }
}

/// Execute a transfer: move the amount, charge the fee of the transfer's
/// static cost, credit the DAO, and count the sender's transaction. On any
/// refusal the state is exactly as before. A transfer of zero is accepted
/// and charged like any other.
pub fn exec_transfer(
    state: &mut StateManager,
    from: &Address,
    to: &Address,
    amount: u64,
    gas_limit: u64,
    gas_price: u64,
) -> (r: TxOutcome)
    requires
        old(state).wf(),
        to.wf(),
    ensures
        final(state).wf(),
        final(state).total_supply == old(state).total_supply,
        final(state).modules@ == old(state).modules@,
        r.error == transfer_outcome_spec(*old(state), from@, to@, amount, gas_limit, gas_price),
        r.success <==> r.error is None,
        !r.success ==> *final(state) == *old(state),
        r.success ==> r.gas_used == 200,
        r.success ==> forall|a: Seq<u8>|
            balance_of(final(state).accounts@, a) as int == moved_balance(
                old(state).accounts@,
                from@,
                to@,
                amount,
                gas::sat_u64(200 * gas_price),
                a,
            ),
        r.success ==> forall|a: Seq<u8>|
            seq_of(final(state).accounts@, a) as int == seq_of(old(state).accounts@, a) + (
            if a == from@ {
                1int
            } else {
                0int
            }),
        forall|a: Seq<u8>|
            modules_of(final(state).accounts@, a) =~= modules_of(old(state).accounts@, a),
        sum_bal(final(state).accounts@) == sum_bal(old(state).accounts@),
        old(state).balanced() ==> final(state).balanced(),
{
    if 200 > gas_limit {
        return TxOutcome { success: false, gas_used: 0, error: Some(TxError::PrechargeOutOfGas) };
    }
    let fee = gas::sat_mul(200, gas_price);
    let fi = match state.find_account(from) {
        Some(i) => i,
        None => {
            return TxOutcome {
                success: false,
                gas_used: 0,
                error: Some(TxError::InsufficientFunds),
            };
        },
    };
    let bal = state.accounts[fi].balance;
    let need = match amount.checked_add(fee) {
        Some(v) => v,
        None => {
            return TxOutcome {
                success: false,
                gas_used: 0,
                error: Some(TxError::InsufficientFunds),
            };
        },
    };
    if bal < need {
        return TxOutcome { success: false, gas_used: 0, error: Some(TxError::InsufficientFunds) };
    }
    let sq = state.accounts[fi].sequence_number;
    if sq == u64::MAX {
        return TxOutcome { success: false, gas_used: 0, error: Some(TxError::Overflow) };
    }
    let self_transfer = from.eq_addr(to);
    if !self_transfer {
        let tb = state.get_balance(to);
        if tb > u64::MAX - amount {
            return TxOutcome { success: false, gas_used: 0, error: Some(TxError::Overflow) };
        }
    }
    let dao = Address::dao_address();
    let dao_bal = state.get_balance(&dao);
    let dao_is_from = dao.eq_addr(from);
    let dao_is_to = dao.eq_addr(to);
    let dao_fin: i128 = (dao_bal as i128) - (if dao_is_from {
        (amount as i128) + (fee as i128)
    } else {
        0
    }) + (if dao_is_to {
        amount as i128
    } else {
        0
    }) + (fee as i128);
    proof {
        assert(bal == balance_of(state.accounts@, from@));
        assert(dao_fin == moved_balance(state.accounts@, from@, to@, amount, fee, dao_v()));
    }
    if dao_fin > u64::MAX as i128 {
        return TxOutcome { success: false, gas_used: 0, error: Some(TxError::Overflow) };
    }
    // Everything is in range: move the amount, then settle the fee.
    let ghost s0 = *state;
    let r1 = state.transfer(from, to, amount);
    proof {
        assert(r1 is Ok);
    }
    let ghost s1 = *state;
    let r2 = state.deduct_balance(from, fee);
    proof {
        assert(balance_of(s1.accounts@, from@) >= fee);
        assert(r2 is Ok);
    }
    let ghost s2 = *state;
    let r3 = state.collect_gas(fee);
    proof {
        assert(balance_of(s2.accounts@, dao_v()) + fee == dao_fin);
        assert(r3 is Ok);
        assert forall|a: Seq<u8>| balance_of(final(state).accounts@, a) as int == moved_balance(
            s0.accounts@,
            from@,
            to@,
            amount,
            fee,
            a,
        ) by {}
    }
    TxOutcome { success: true, gas_used: 200, error: None }
}

/// The gas units a publication of `size` bytes costs.
pub open spec fn publish_units(size: int) -> u64 {
    gas::sat_u64(1000 + 10 * size)
}

/// The classification of a publication, mirroring the engine's checks in
/// order. A publication whose metered cost exceeds the limit aborts out of
/// gas: the worst-case fee is charged and the sequence number rises. Empty
/// bytes or an already-taken module identity are rejected with no effect.
pub open spec fn publish_outcome_spec(
    s: StateManager,
    senderv: Seq<u8>,
    namev: Seq<char>,
    size: int,
    gas_limit: u64,
    gas_price: u64,
) -> Option<TxError> {
    let maxc = gas::sat_u64(gas_limit * gas_price);
    let units = publish_units(size);
    let oog = units > gas_limit;
    let charge = if oog {
        maxc
    } else {
        gas::sat_u64(units * gas_price)
    };
    if !has_acc(s.accounts@, senderv) {
        Some(TxError::InsufficientFunds)
    } else if balance_of(s.accounts@, senderv) < maxc {
        Some(TxError::InsufficientFunds)
    } else if seq_of(s.accounts@, senderv) == u64::MAX {
        Some(TxError::Overflow)
    } else if senderv != dao_v() && balance_of(s.accounts@, dao_v()) + charge > u64::MAX {
        Some(TxError::Overflow)
    } else if oog {
        Some(TxError::Aborted(AbortKind::OutOfGas))
    } else if size == 0 {
        Some(TxError::Rejected(AbortKind::VerifyError))
    } else if crate::state::has_module(s.modules@, senderv, namev) || modules_of(
        s.accounts@,
        senderv,
    ).contains(namev) {
        Some(TxError::Rejected(AbortKind::DuplicateModule))
    } else {
        None
    }
}

/// Execute a publication: meter the byte-proportional cost, verify the
/// module structurally, refuse a second publication under the same identity,
/// store the bytes, note the name on the account, and settle the fee. A
/// metered cost past the limit aborts out of gas with the worst-case fee
/// charged; a refused publication leaves the state exactly as it was.
pub fn exec_publish(
    state: &mut StateManager,
    sender: &Address,
    module_bytes: &Vec<u8>,
    module_name: &String,
    gas_limit: u64,
    gas_price: u64,
) -> (r: TxOutcome)
    requires
        old(state).wf(),
        sender.wf(),
        crate::ident::valid_ident(module_name@),
    ensures
        final(state).wf(),
        final(state).total_supply == old(state).total_supply,
        r.error == publish_outcome_spec(
            *old(state),
            sender@,
            module_name@,
            module_bytes@.len() as int,
            gas_limit,
            gas_price,
        ),
        r.success <==> r.error is None,
        (r.error is Some && !(r.error matches Some(TxError::Aborted(_)))) ==> *final(state) == *old(
            state,
        ),
        r.error matches Some(TxError::Aborted(k)) ==> k == AbortKind::OutOfGas && r.gas_used
            == gas_limit,
        r.success ==> r.gas_used == publish_units(module_bytes@.len() as int),
        (r.success || r.error matches Some(TxError::Aborted(_))) ==> {
            let fee = gas::sat_u64(r.gas_used * gas_price);
            forall|a: Seq<u8>|
                balance_of(final(state).accounts@, a) as int == moved_balance(
                    old(state).accounts@,
                    sender@,
                    sender@,
                    0,
                    fee,
                    a,
                )
        },
        (r.success || r.error matches Some(TxError::Aborted(_))) ==> forall|a: Seq<u8>|
            seq_of(final(state).accounts@, a) as int == seq_of(old(state).accounts@, a) + (
            if a == sender@ {
                1int
            } else {
                0int
            }),
        r.success ==> forall|a: Seq<u8>|
            modules_of(final(state).accounts@, a) =~= if a == sender@ {
                modules_of(old(state).accounts@, a).push(module_name@)
            } else {
                modules_of(old(state).accounts@, a)
            },
        !r.success ==> forall|a: Seq<u8>|
            modules_of(final(state).accounts@, a) =~= modules_of(old(state).accounts@, a),
        r.success ==> forall|a: Seq<u8>, nm: Seq<char>|
            crate::state::has_module(final(state).modules@, a, nm) == (crate::state::has_module(
                old(state).modules@,
                a,
                nm,
            ) || (a == sender@ && nm == module_name@)),
        r.success ==> crate::state::module_bytes_of(final(state).modules@, sender@, module_name@)
            == module_bytes@,
        !r.success ==> final(state).modules@ == old(state).modules@,
        sum_bal(final(state).accounts@) == sum_bal(old(state).accounts@),
        old(state).balanced() ==> final(state).balanced(),
{
    let maxc = gas::sat_mul(gas_limit, gas_price);
    let size64 = gas::usize_to_u64(module_bytes.len());
    let units = match size64.checked_mul(10) {
        Some(v) => match v.checked_add(1000) {
            Some(w) => w,
            None => u64::MAX,
        },
        None => u64::MAX,
    };
    let oog = units > gas_limit;
    let charge = if oog {
        maxc
    } else {
        gas::sat_mul(units, gas_price)
    };
    let fi = match state.find_account(sender) {
        Some(i) => i,
        None => {
            return TxOutcome {
                success: false,
                gas_used: 0,
                error: Some(TxError::InsufficientFunds),
            };
        },
    };
    let bal = state.accounts[fi].balance;
    if bal < maxc {
        return TxOutcome { success: false, gas_used: 0, error: Some(TxError::InsufficientFunds) };
    }
    let sq = state.accounts[fi].sequence_number;
    if sq == u64::MAX {
        return TxOutcome { success: false, gas_used: 0, error: Some(TxError::Overflow) };
    }
    let dao = Address::dao_address();
    if !dao.eq_addr(sender) {
        let dao_bal = state.get_balance(&dao);
        if dao_bal > u64::MAX - charge {
            return TxOutcome { success: false, gas_used: 0, error: Some(TxError::Overflow) };
        }
    }
    proof {
        assert(charge <= maxc) by {
            if !oog && gas_price > 0 {
                vstd::arithmetic::mul::lemma_mul_inequality(
                    units as int,
                    gas_limit as int,
                    gas_price as int,
                );
            }
        }
    }
    if oog {
        let r = charge_fee_and_bump(state, sender, maxc);
        return TxOutcome {
            success: false,
            gas_used: gas_limit,
            error: Some(TxError::Aborted(AbortKind::OutOfGas)),
        };
    }
    if module_bytes.len() == 0 {
        return TxOutcome {
            success: false,
            gas_used: 0,
            error: Some(TxError::Rejected(AbortKind::VerifyError)),
        };
    }
    // The identity must be fresh, both in the store and on the account.
    let probe = crate::ident::ModuleId {
        address: sender.duplicate(),
        name: crate::ident::clone_string(module_name),
    };
    if state.get_module(&probe).is_some() {
        return TxOutcome {
            success: false,
            gas_used: 0,
            error: Some(TxError::Rejected(AbortKind::DuplicateModule)),
        };
    }
    let listed = match state.get_account(sender) {
        Some(acc) => {
            let mn = acc.modules.len();
            let mut t: usize = 0;
            let mut found = false;
            while t < mn && !found
                invariant
                    t <= mn,
                    mn == acc.modules@.len(),
                    found ==> t >= 1 && acc.modules@[t - 1]@ == module_name@,
                    !found ==> forall|t2: int|
                        0 <= t2 < t ==> (#[trigger] acc.modules@[t2])@ != module_name@,
                decreases mn - t,
            {
                if crate::ident::string_eq(&acc.modules[t], module_name) {
                    found = true;
                }
                t = t + 1;
            }
            proof {
                let ms = modules_of(state.accounts@, sender@);
                assert(ms == acc.modules@.map_values(|m: String| m@));
                if found {
                    assert(ms[t - 1] == module_name@);
                    assert(ms.contains(module_name@));
                } else {
                    if ms.contains(module_name@) {
                        let t2 = choose|t2: int| 0 <= t2 < ms.len() && ms[t2] == module_name@;
                        assert(acc.modules@[t2]@ == module_name@);
                    }
                }
            }
            found
        },
        None => false,
    };
    if listed {
        return TxOutcome {
            success: false,
            gas_used: 0,
            error: Some(TxError::Rejected(AbortKind::DuplicateModule)),
        };
    }
    // Everything is in range and the identity is fresh: land the module.
    let ghost s0 = *state;
    let r1 = state.note_module(sender, crate::ident::clone_string(module_name));
    proof {
        assert(r1 is Ok);
    }
    let r2 = state.add_module_record(probe, crate::strutil::clone_bytes(module_bytes));
    proof {
        assert(r2 is Ok);
    }
    let r3 = charge_fee_and_bump(state, sender, charge);
    TxOutcome { success: true, gas_used: units, error: None }
}

/// How an entry-function body resolves and what it costs beyond the static
/// cost: a built-in native (a fixed signature-verification cost plus its own
/// verdict), a stored module judged by the external interpreter's verdict,
/// or no module at all.
pub open spec fn execute_body_spec(
    s: StateManager,
    module_address: Seq<u8>,
    module_name: Seq<char>,
    function: Seq<char>,
    args: Seq<Seq<u8>>,
    verdict: VmVerdict,
) -> (u64, Option<AbortKind>) {
    if module_address == address::reserved_addr(2) && crate::natives::lookup_spec(
        module_name,
        function,
    ) is Some {
        let native = crate::natives::lookup_spec(module_name, function)->0;
        match crate::natives::invoke_spec(native, args) {
            Ok(vals) => (250u64, None),
            Err(crate::natives::NativeError::Abort(c)) => (
                250u64,
                Some(AbortKind::AbortByMove(c)),
            ),
            Err(crate::natives::NativeError::BadArguments) => (
                250u64,
                Some(AbortKind::TypeMismatch),
            ),
        }
    } else if crate::state::has_module(s.modules@, module_address, module_name) {
        match verdict {
            VmVerdict::Returned { instructions } => (instructions, None),
            VmVerdict::Aborted { code, instructions } => (
                instructions,
                Some(AbortKind::AbortByMove(code)),
            ),
        }
    } else {
        (0u64, Some(AbortKind::LinkerError))
    }
}

/// The classification of an entry-function call, mirroring the engine's
/// checks in order: static cost, sender funds against the worst case, ranges,
/// then the body's own verdict; a body cost past the limit aborts out of gas.
pub open spec fn execute_outcome_spec(
    s: StateManager,
    senderv: Seq<u8>,
    module_address: Seq<u8>,
    module_name: Seq<char>,
    function: Seq<char>,
    args: Seq<Seq<u8>>,
    verdict: VmVerdict,
    gas_limit: u64,
    gas_price: u64,
) -> Option<TxError> {
    let maxc = gas::sat_u64(gas_limit * gas_price);
    let body = execute_body_spec(s, module_address, module_name, function, args, verdict);
    let oog = 500 + body.0 > gas_limit;
    let used = if oog {
        gas_limit
    } else {
        (500 + body.0) as u64
    };
    let charge = if oog {
        maxc
    } else {
        gas::sat_u64(used * gas_price)
    };
    if 500 > gas_limit {
        Some(TxError::PrechargeOutOfGas)
    } else if !has_acc(s.accounts@, senderv) {
        Some(TxError::InsufficientFunds)
    } else if balance_of(s.accounts@, senderv) < maxc {
        Some(TxError::InsufficientFunds)
    } else if seq_of(s.accounts@, senderv) == u64::MAX {
        Some(TxError::Overflow)
    } else if senderv != dao_v() && balance_of(s.accounts@, dao_v()) + charge > u64::MAX {
        Some(TxError::Overflow)
    } else if oog {
        Some(TxError::Aborted(AbortKind::OutOfGas))
    } else {
        match body.1 {
            Some(k) => Some(TxError::Aborted(k)),
            None => None,
        }
    }
}

/// The gas used by an entry-function call as classified above.
pub open spec fn execute_used_spec(
    s: StateManager,
    module_address: Seq<u8>,
    module_name: Seq<char>,
    function: Seq<char>,
    args: Seq<Seq<u8>>,
    verdict: VmVerdict,
    gas_limit: u64,
) -> u64 {
    let body = execute_body_spec(s, module_address, module_name, function, args, verdict);
    if 500 + body.0 > gas_limit {
        gas_limit
    } else {
        (500 + body.0) as u64
    }
}

/// Execute an entry-function call: charge the static cost, resolve the body
/// (a built-in native runs here; a stored module is judged by the
/// interpreter's verdict; a missing module is a linker abort), and settle
/// the fee. Every abort charges the fee and raises the sender's sequence
/// number; validation failures leave the state exactly as it was.
pub fn exec_execute(
    state: &mut StateManager,
    sender: &Address,
    module_id: &crate::ident::ModuleId,
    function: &String,
    args: &Vec<Vec<u8>>,
    verdict: &VmVerdict,
    gas_limit: u64,
    gas_price: u64,
) -> (r: TxOutcome)
    requires
        old(state).wf(),
        sender.wf(),
    ensures
        final(state).wf(),
        final(state).total_supply == old(state).total_supply,
        final(state).modules@ == old(state).modules@,
        r.error == execute_outcome_spec(
            *old(state),
            sender@,
            module_id.address@,
            module_id.name@,
            function@,
            args.deep_view(),
            *verdict,
            gas_limit,
            gas_price,
        ),
        r.success <==> r.error is None,
        (r.error is Some && !(r.error matches Some(TxError::Aborted(_)))) ==> *final(state) == *old(
            state,
        ),
        (r.success || r.error matches Some(TxError::Aborted(_))) ==> r.gas_used
            == execute_used_spec(
            *old(state),
            module_id.address@,
            module_id.name@,
            function@,
            args.deep_view(),
            *verdict,
            gas_limit,
        ),
        (r.success || r.error matches Some(TxError::Aborted(_))) ==> {
            let fee = if 500 + execute_body_spec(
                *old(state),
                module_id.address@,
                module_id.name@,
                function@,
                args.deep_view(),
                *verdict,
            ).0 > gas_limit {
                gas::sat_u64(gas_limit * gas_price)
            } else {
                gas::sat_u64(r.gas_used * gas_price)
            };
            forall|a: Seq<u8>|
                balance_of(final(state).accounts@, a) as int == moved_balance(
                    old(state).accounts@,
                    sender@,
                    sender@,
                    0,
                    fee,
                    a,
                )
        },
        (r.success || r.error matches Some(TxError::Aborted(_))) ==> forall|a: Seq<u8>|
            seq_of(final(state).accounts@, a) as int == seq_of(old(state).accounts@, a) + (
            if a == sender@ {
                1int
            } else {
                0int
            }),
        forall|a: Seq<u8>|
            modules_of(final(state).accounts@, a) =~= modules_of(old(state).accounts@, a),
        sum_bal(final(state).accounts@) == sum_bal(old(state).accounts@),
        old(state).balanced() ==> final(state).balanced(),
{
    let maxc = gas::sat_mul(gas_limit, gas_price);
    // Resolve the body without touching the state.
    let system = Address::kanari_system_address();
    let is_native_host = module_id.address.eq_addr(&system);
    let native = if is_native_host {
        crate::natives::lookup_native(&module_id.name, function)
    } else {
        proof {
            assert(crate::natives::lookup_spec(module_id.name@, function@) is Some ==> module_id.address@
                != address::reserved_addr(2));
        }
        None
    };
    let (body_units, body_abort): (u64, Option<AbortKind>) = match native {
        Some(n) => {
            match crate::natives::invoke_native(n, args) {
                Ok(_) => (250, None),
                Err(crate::natives::NativeError::Abort(c)) => (250, Some(AbortKind::AbortByMove(c))),
                Err(crate::natives::NativeError::BadArguments) => (
                    250,
                    Some(AbortKind::TypeMismatch),
                ),
            }
        },
        None => {
            match state.get_module(module_id) {
                Some(_) => {
                    match verdict {
                        VmVerdict::Returned { instructions } => (*instructions, None),
                        VmVerdict::Aborted { code, instructions } => (
                            *instructions,
                            Some(AbortKind::AbortByMove(*code)),
                        ),
                    }
                },
                None => (0, Some(AbortKind::LinkerError)),
            }
        },
    };
    let oog = body_units > u64::MAX - 500 || 500 + body_units > gas_limit;
    proof {
        assert(oog == (500 + execute_body_spec(
            *old(state),
            module_id.address@,
            module_id.name@,
            function@,
            args.deep_view(),
            *verdict,
        ).0 > gas_limit));
    }
    let used = if oog {
        gas_limit
    } else {
        500 + body_units
    };
    let charge = if oog {
        maxc
    } else {
        gas::sat_mul(used, gas_price)
    };
    if 500 > gas_limit {
        return TxOutcome { success: false, gas_used: 0, error: Some(TxError::PrechargeOutOfGas) };
    }
    let fi = match state.find_account(sender) {
        Some(i) => i,
        None => {
            return TxOutcome {
                success: false,
                gas_used: 0,
                error: Some(TxError::InsufficientFunds),
            };
        },
    };
    let bal = state.accounts[fi].balance;
    if bal < maxc {
        return TxOutcome { success: false, gas_used: 0, error: Some(TxError::InsufficientFunds) };
    }
    let sq = state.accounts[fi].sequence_number;
    if sq == u64::MAX {
        return TxOutcome { success: false, gas_used: 0, error: Some(TxError::Overflow) };
    }
    let dao = Address::dao_address();
    if !dao.eq_addr(sender) {
        let dao_bal = state.get_balance(&dao);
        if dao_bal > u64::MAX - charge {
            return TxOutcome { success: false, gas_used: 0, error: Some(TxError::Overflow) };
        }
    }
    proof {
        assert(charge <= maxc) by {
            if !oog && gas_price > 0 {
                vstd::arithmetic::mul::lemma_mul_inequality(
                    used as int,
                    gas_limit as int,
                    gas_price as int,
                );
            }
        }
    }
    let rc = charge_fee_and_bump(state, sender, charge);
    if oog {
        return TxOutcome {
            success: false,
            gas_used: gas_limit,
            error: Some(TxError::Aborted(AbortKind::OutOfGas)),
        };
    }
    match body_abort {
        Some(k) => TxOutcome { success: false, gas_used: used, error: Some(TxError::Aborted(k)) },
        None => TxOutcome { success: true, gas_used: used, error: None },
    }
}

/// The classification of any transaction against a state: the per-kind
/// outcome specification of its kind.
pub open spec fn tx_outcome_spec(s: StateManager, tx: crate::tx::Transaction, verdict: VmVerdict) -> Option<
    TxError,
> {
    match tx {
        crate::tx::Transaction::Transfer { from, to, amount, gas_limit, gas_price } => transfer_outcome_spec(
            s,
            from@,
            to@,
            amount,
            gas_limit,
            gas_price,
        ),
        crate::tx::Transaction::PublishModule {
            sender,
            module_bytes,
            module_name,
            gas_limit,
            gas_price,
        } => publish_outcome_spec(
            s,
            sender@,
            module_name@,
            module_bytes@.len() as int,
            gas_limit,
            gas_price,
        ),
        crate::tx::Transaction::ExecuteFunction {
            sender,
            module_id,
            function,
            type_args,
            args,
            gas_limit,
            gas_price,
        } => execute_outcome_spec(
            s,
            sender@,
            module_id.address@,
            module_id.name@,
            function@,
            args.deep_view(),
            verdict,
            gas_limit,
            gas_price,
        ),
    }
}

/// The gas a transaction uses when it executes or aborts: its kind's static
/// or metered cost, clamped to the limit when it runs out.
pub open spec fn tx_used_spec(s: StateManager, tx: crate::tx::Transaction, verdict: VmVerdict) -> u64 {
    match tx {
        crate::tx::Transaction::Transfer { .. } => 200u64,
        crate::tx::Transaction::PublishModule { module_bytes, gas_limit, .. } => {
            if publish_units(module_bytes@.len() as int) > gas_limit {
                gas_limit
            } else {
                publish_units(module_bytes@.len() as int)
            }
        },
        crate::tx::Transaction::ExecuteFunction {
            sender,
            module_id,
            function,
            args,
            gas_limit,
            ..
        } => execute_used_spec(
            s,
            module_id.address@,
            module_id.name@,
            function@,
            args.deep_view(),
            verdict,
            gas_limit,
        ),
    }
}

/// The fee a transaction pays when it executes or aborts: the used gas
/// priced, except that running out of gas bills the whole limit.
pub open spec fn tx_fee_spec(s: StateManager, tx: crate::tx::Transaction, verdict: VmVerdict) -> u64 {
    match tx {
        crate::tx::Transaction::Transfer { gas_price, .. } => gas::sat_u64(200 * gas_price),
        crate::tx::Transaction::PublishModule { module_bytes, gas_limit, gas_price, .. } => {
            if publish_units(module_bytes@.len() as int) > gas_limit {
                gas::sat_u64(gas_limit * gas_price)
            } else {
                gas::sat_u64(publish_units(module_bytes@.len() as int) * gas_price)
            }
        },
        crate::tx::Transaction::ExecuteFunction {
            sender,
            module_id,
            function,
            args,
            gas_limit,
            gas_price,
            ..
        } => {
            let body = execute_body_spec(
                s,
                module_id.address@,
                module_id.name@,
                function@,
                args.deep_view(),
                verdict,
            );
            if 500 + body.0 > gas_limit {
                gas::sat_u64(gas_limit * gas_price)
            } else {
                gas::sat_u64(((500 + body.0) as u64) * gas_price)
            }
        },
    }
}

/// One transaction's complete effect on the state: the outcome is the
/// kind's classification; a refusal that is not a charged abort changes
/// nothing; an execution or abort settles the fee with the DAO, counts the
/// sender's transaction, and moves the transferred amount; only a landed
/// publication touches any module list or the module store.
pub open spec fn tx_step(
    pre: StateManager,
    tx: crate::tx::Transaction,
    verdict: VmVerdict,
    post: StateManager,
    success: bool,
) -> bool {
    let err = tx_outcome_spec(pre, tx, verdict);
    let fee = tx_fee_spec(pre, tx, verdict);
    let sender = tx.spec_sender();
    let tov = if tx is Transfer {
        tx->Transfer_to@
    } else {
        tx.spec_sender()
    };
    let amt = if tx is Transfer {
        tx->Transfer_amount
    } else {
        0u64
    };
    &&& success == (err is None)
    &&& post.wf()
    &&& post.total_supply == pre.total_supply
    &&& sum_bal(post.accounts@) == sum_bal(pre.accounts@)
    &&& (pre.balanced() ==> post.balanced())
    &&& ((err is Some && !(err matches Some(TxError::Aborted(_)))) ==> post == pre)
    &&& ((err is None || err matches Some(TxError::Aborted(_))) ==> (forall|a: Seq<u8>|
        balance_of(post.accounts@, a) as int == moved_balance(pre.accounts@, sender, tov, amt, fee, a))
        && (forall|a: Seq<u8>|
        seq_of(post.accounts@, a) as int == seq_of(pre.accounts@, a) + (if a == sender {
            1int
        } else {
            0int
        })))
    &&& (match tx {
        crate::tx::Transaction::PublishModule { module_bytes, module_name, .. } => {
            if err is None {
                &&& (forall|a: Seq<u8>|
                    modules_of(post.accounts@, a) =~= (if a == sender {
                        modules_of(pre.accounts@, a).push(module_name@)
                    } else {
                        modules_of(pre.accounts@, a)
                    }))
                &&& (forall|a: Seq<u8>, nm: Seq<char>|
                    crate::state::has_module(post.modules@, a, nm) == (crate::state::has_module(
                        pre.modules@,
                        a,
                        nm,
                    ) || (a == sender && nm == module_name@)))
                &&& crate::state::module_bytes_of(post.modules@, sender, module_name@)
                    == module_bytes@
            } else {
                (forall|a: Seq<u8>|
                    modules_of(post.accounts@, a) =~= modules_of(pre.accounts@, a))
                    && post.modules@ == pre.modules@
            }
        },
        _ => (forall|a: Seq<u8>| modules_of(post.accounts@, a) =~= modules_of(pre.accounts@, a))
            && post.modules@ == pre.modules@,
    })
}

/// The verdict for position `i` of a batch: the supplied one, or an empty
/// return when none was supplied.
pub open spec fn verdict_at(verdicts: Seq<VmVerdict>, i: int) -> VmVerdict {
    if 0 <= i < verdicts.len() {
        verdicts[i]
    } else {
        VmVerdict::Returned { instructions: 0 }
    }
}

/// The first `i` transactions of a batch, executed in submission order from
/// `pre`, reach `post` with `executed` successes: each position steps by
/// `tx_step` under its verdict.
pub open spec fn batch_step(
    pre: StateManager,
    txs: Seq<crate::tx::SignedTransaction>,
    verdicts: Seq<VmVerdict>,
    i: int,
    post: StateManager,
    executed: int,
) -> bool
    decreases i,
{
    if i <= 0 {
        post == pre && executed == 0
    } else {
        exists|mid: StateManager, e: bool|
            batch_step(
                pre,
                txs,
                verdicts,
                i - 1,
                mid,
                executed - (if e {
                    1int
                } else {
                    0int
                }),
            ) && #[trigger] tx_step(mid, txs[i - 1].transaction, verdict_at(verdicts, i - 1), post, e)
    }
}

/// Why the engine refused a submission or block.
#[derive(PartialEq, Eq, Structural, Clone, Copy, Debug)]
pub enum EngineError {
    /// The transaction is structurally malformed.
    ValidationError,
    /// The signature is missing while required, or present and wrong.
    AuthError,
    /// There is nothing to put in a block.
    NoPendingTransactions,
}

/// A summary of one produced block.
pub struct BlockInfo {
    pub height: u64,
    pub hash: String,
    pub tx_count: usize,
    pub executed: usize,
    pub failed: usize,
}

/// A snapshot of chain-wide counters.
pub struct BlockchainStats {
    pub height: u64,
    pub total_blocks: usize,
    pub total_transactions: usize,
    pub pending_transactions: usize,
    pub total_accounts: usize,
    pub total_supply: u64,
}

/// One account, by value, for callers outside the engine.
pub struct AccountInfo {
    pub address: String,
    pub balance: u64,
    pub sequence_number: u64,
    pub modules: Vec<String>,
}

/// One block, by value, for callers outside the engine.
pub struct BlockData {
    pub height: u64,
    pub timestamp: u64,
    pub hash: String,
    pub prev_hash: String,
    pub tx_count: usize,
}

/// The node: the chain, the canonical state, the pending queue, and whether
/// unsigned submissions are admitted (they are by default; a present but
/// invalid signature is always refused).
pub struct BlockchainEngine {
    pub blockchain: crate::block::Blockchain,
    pub state: StateManager,
    pub pending_txs: Vec<crate::tx::SignedTransaction>,
    pub skip_signature: bool,
}

impl BlockchainEngine {
    /// The engine invariant: a linked chain, a sound state, well-formed
    /// pending transactions.
    pub open spec fn wf(&self) -> bool {
        &&& self.blockchain.wf()
        &&& self.state.wf()
        &&& forall|i: int| 0 <= i < self.pending_txs@.len() ==> (#[trigger] self.pending_txs@[i]).wf()
    }

    /// A fresh engine: genesis chain, genesis state, empty queue, unsigned
    /// submissions admitted.
    pub fn new() -> (r: Result<BlockchainEngine, EngineError>)
        ensures
            r is Ok,
            r matches Ok(e) && e.wf() && e.state.balanced() && e.blockchain.blocks@.len() == 1
                && e.pending_txs@.len() == 0 && e.skip_signature == true && e.state.total_supply
                == crate::state::TOTAL_SUPPLY_MIST,
    {
        Ok(
            BlockchainEngine {
                blockchain: crate::block::Blockchain::new(),
                state: StateManager::new(),
                pending_txs: Vec::new(),
                skip_signature: true,
            },
        )
    }

    /// Demand a valid signature on every submission.
    pub fn require_signatures(&mut self)
        ensures
            final(self).skip_signature == false,
            final(self).blockchain == old(self).blockchain,
            final(self).state == old(self).state,
            final(self).pending_txs == old(self).pending_txs,
            old(self).wf() ==> final(self).wf(),
    {
        self.skip_signature = false;
    }

    /// Queue a transaction, returning its hash. A malformed transaction is
    /// refused; a present signature must verify; a missing signature is
    /// admitted only while unsigned submissions are.
    pub fn submit_transaction(&mut self, tx: crate::tx::SignedTransaction) -> (r: Result<
        Vec<u8>,
        EngineError,
    >)
        requires
            old(self).wf(),
        ensures
            final(self).wf(),
            final(self).blockchain == old(self).blockchain,
            final(self).state == old(self).state,
            final(self).skip_signature == old(self).skip_signature,
            r is Ok <==> tx.wf() && (if crate::tx::signature_present(tx) {
                crate::tx::signature_valid(tx)
            } else {
                old(self).skip_signature
            }),
            r is Ok ==> final(self).pending_txs@ == old(self).pending_txs@.push(tx) && r->Ok_0@
                == crate::tx::tx_hash_spec(tx.transaction@),
            r is Err ==> final(self).pending_txs@ == old(self).pending_txs@,
            !tx.wf() ==> r == Result::<Vec<u8>, EngineError>::Err(EngineError::ValidationError),
            tx.wf() && !(if crate::tx::signature_present(tx) {
                crate::tx::signature_valid(tx)
            } else {
                old(self).skip_signature
            }) ==> r == Result::<Vec<u8>, EngineError>::Err(EngineError::AuthError),
    {
        if !tx.transaction.check_wf() {
            return Err(EngineError::ValidationError);
        }
        let has_sig = tx.signature.is_some() && tx.public_key.is_some();
        if has_sig {
            if !tx.verify_signature() {
                return Err(EngineError::AuthError);
            }
        } else {
            if !self.skip_signature {
                return Err(EngineError::AuthError);
            }
        }
        let hash = tx.hash();
        self.pending_txs.push(tx);
        Ok(hash)
    }

    /// Execute one transaction body against the state.
    pub fn execute_transaction(state: &mut StateManager, tx: &crate::tx::Transaction, verdict:
        &VmVerdict) -> (r: TxOutcome)
        requires
            old(state).wf(),
            tx.wf(),
        ensures
            r.error == tx_outcome_spec(*old(state), *tx, *verdict),
            r.success <==> r.error is None,
            (r.success || r.error matches Some(TxError::Aborted(_))) ==> r.gas_used
                == tx_used_spec(*old(state), *tx, *verdict),
            tx_step(*old(state), *tx, *verdict, *final(state), r.success),
    {
        match tx {
            crate::tx::Transaction::Transfer { from, to, amount, gas_limit, gas_price } => {
                exec_transfer(state, from, to, *amount, *gas_limit, *gas_price)
            },
            crate::tx::Transaction::PublishModule {
                sender,
                module_bytes,
                module_name,
                gas_limit,
                gas_price,
            } => exec_publish(state, sender, module_bytes, module_name, *gas_limit, *gas_price),
            crate::tx::Transaction::ExecuteFunction {
                sender,
                module_id,
                function,
                type_args,
                args,
                gas_limit,
                gas_price,
            } => exec_execute(
                state,
                sender,
                module_id,
                function,
                args,
                verdict,
                *gas_limit,
                *gas_price,
            ),
        }
    }

    /// Drain the pending queue, execute each transaction in submission
    /// order, and commit one block over the batch. The verdict at each
    /// position is the external interpreter's report for that transaction
    /// where one is needed; missing verdicts default to an empty return.
    pub fn produce_block(&mut self, timestamp: u64, verdicts: &Vec<VmVerdict>) -> (r: Result<
        BlockInfo,
        EngineError,
    >)
        requires
            old(self).wf(),
        ensures
            final(self).wf(),
            final(self).state.total_supply == old(self).state.total_supply,
            old(self).state.balanced() ==> final(self).state.balanced(),
            r is Ok <==> old(self).pending_txs@.len() > 0,
            r is Err ==> *final(self) == *old(self) && r == Result::<BlockInfo, EngineError>::Err(
                EngineError::NoPendingTransactions,
            ),
            r is Ok ==> final(self).pending_txs@.len() == 0,
            r is Ok ==> final(self).blockchain.blocks@.len() == old(self).blockchain.blocks@.len()
                + 1,
            r is Ok ==> final(self).blockchain.blocks@.last().transactions@ == old(
                self,
            ).pending_txs@,
            r is Ok ==> r->Ok_0.tx_count == old(self).pending_txs@.len() && r->Ok_0.executed
                + r->Ok_0.failed == r->Ok_0.tx_count,
            r is Ok ==> batch_step(
                old(self).state,
                old(self).pending_txs@,
                verdicts@,
                old(self).pending_txs@.len() as int,
                final(self).state,
                r->Ok_0.executed as int,
            ),
            r is Ok ==> r->Ok_0.height as int == old(self).blockchain.blocks@.len(),
            r is Ok ==> r->Ok_0.hash@ == crate::strutil::chars_of_bytes(
                crate::hexstr::hex_bytes_of(
                    crate::block::block_hash_spec(final(self).blockchain.blocks@.last()),
                ),
            ),
    {
        if self.pending_txs.len() == 0 {
            return Err(EngineError::NoPendingTransactions);
        }
        let mut transactions: Vec<crate::tx::SignedTransaction> = Vec::new();
        core::mem::swap(&mut transactions, &mut self.pending_txs);
        let tx_count = transactions.len();
        let mut executed: usize = 0;
        let mut failed: usize = 0;
        let n = transactions.len();
        let mut i: usize = 0;
        while i < n
            invariant
                i <= n,
                n == transactions@.len(),
                transactions@ == old(self).pending_txs@,
                executed + failed == i,
                self.state.wf(),
                self.state.total_supply == old(self).state.total_supply,
                old(self).state.balanced() ==> self.state.balanced(),
                self.blockchain == old(self).blockchain,
                self.pending_txs@.len() == 0,
                self.skip_signature == old(self).skip_signature,
                forall|j: int| 0 <= j < n ==> (#[trigger] transactions@[j]).wf(),
                batch_step(
                    old(self).state,
                    transactions@,
                    verdicts@,
                    i as int,
                    self.state,
                    executed as int,
                ),
            decreases n - i,
        {
            let verdict = if i < verdicts.len() {
                verdicts[i]
            } else {
                VmVerdict::Returned { instructions: 0 }
            };
            let ghost mid = self.state;
            let ghost executed_pre = executed as int;
            let outcome = Self::execute_transaction(
                &mut self.state,
                &transactions[i].transaction,
                &verdict,
            );
            if outcome.success {
                executed = executed + 1;
            } else {
                failed = failed + 1;
            }
            proof {
                assert(verdict == verdict_at(verdicts@, i as int));
                assert(tx_step(
                    mid,
                    transactions@[i as int].transaction,
                    verdict_at(verdicts@, i as int),
                    self.state,
                    outcome.success,
                ));
                assert(executed as int - (if outcome.success {
                    1int
                } else {
                    0int
                }) == executed_pre);
                assert(batch_step(
                    old(self).state,
                    transactions@,
                    verdicts@,
                    i + 1,
                    self.state,
                    executed as int,
                ));
            }
            i = i + 1;
        }
        let nblocks = self.blockchain.blocks.len();
        proof {
            assert(self.blockchain.blocks@.len() == nblocks as int);
        }
        let height = self.blockchain.height() + 1;
        let prev_hash = self.blockchain.latest_block().hash();
        let block = crate::block::Block::new(height, prev_hash, timestamp, transactions);
        let block_hash = block.hash();
        let rc = self.blockchain.add_block(block);
        proof {
            assert(rc is Ok);
        }
        let hash_text = crate::hexstr::encode(&block_hash);
        Ok(BlockInfo { height, hash: hash_text, tx_count, executed, failed })
    }

    /// Chain-wide counters.
    pub fn get_stats(&self) -> (s: BlockchainStats)
        requires
            self.wf(),
        ensures
            s.height as int == self.blockchain.blocks@.len() - 1,
            s.total_blocks == self.blockchain.blocks@.len(),
            crate::block::spec_tx_count(self.blockchain.blocks@) <= usize::MAX
                ==> s.total_transactions as int == crate::block::spec_tx_count(
                self.blockchain.blocks@,
            ),
            s.total_transactions as int <= crate::block::spec_tx_count(self.blockchain.blocks@),
            s.pending_transactions == self.pending_txs@.len(),
            s.total_accounts == self.state.accounts@.len(),
            s.total_supply == self.state.total_supply,
    {
        BlockchainStats {
            height: self.blockchain.height(),
            total_blocks: self.blockchain.blocks.len(),
            total_transactions: self.blockchain.get_transaction_count(),
            pending_transactions: self.pending_txs.len(),
            total_accounts: self.state.account_count(),
            total_supply: self.state.total_supply,
        }
    }

    /// One account by value, its address in canonical form.
    pub fn get_account_info(&self, address: &Address) -> (r: Option<AccountInfo>)
        requires
            self.wf(),
            address.wf(),
        ensures
            r is Some <==> has_acc(self.state.accounts@, address@),
            r matches Some(info) ==> info.balance == balance_of(self.state.accounts@, address@)
                && info.sequence_number == seq_of(self.state.accounts@, address@)
                && info.modules.deep_view() =~= modules_of(self.state.accounts@, address@)
                && info.address@ == crate::strutil::chars_of_bytes(
                crate::address::canonical_literal_bytes(address@),
            ),
    {
        match self.state.get_account(address) {
            Some(acc) => {
                let copy = acc.duplicate();
                proof {
                    assert(copy.modules@.map_values(|m: String| m@) =~= modules_of(
                        self.state.accounts@,
                        address@,
                    ));
                    assert forall|k: int| 0 <= k < copy.modules@.len() implies copy.modules.deep_view()[k]
                        == copy.modules@.map_values(|m: String| m@)[k] by {}
                    assert(copy.modules.deep_view() =~= copy.modules@.map_values(|m: String| m@));
                }
                Some(
                    AccountInfo {
                        address: copy.address.to_hex(),
                        balance: copy.balance,
                        sequence_number: copy.sequence_number,
                        modules: copy.modules,
                    },
                )
            },
            None => None,
        }
    }

    /// One block by value, hashes in hex.
    pub fn get_block(&self, height: u64) -> (r: Option<BlockData>)
        requires
            self.wf(),
        ensures
            r is Some <==> height < self.blockchain.blocks@.len(),
            r matches Some(d) ==> d.height == self.blockchain.blocks@[height as int].header.height
                && d.timestamp == self.blockchain.blocks@[height as int].header.timestamp
                && d.tx_count == self.blockchain.blocks@[height as int].transactions@.len()
                && d.hash@ == crate::strutil::chars_of_bytes(
                crate::hexstr::hex_bytes_of(
                    crate::block::block_hash_spec(self.blockchain.blocks@[height as int]),
                ),
            ) && d.prev_hash@ == crate::strutil::chars_of_bytes(
                crate::hexstr::hex_bytes_of(
                    self.blockchain.blocks@[height as int].header.prev_hash@,
                ),
            ),
    {
        match self.blockchain.get_block(height) {
            Some(block) => {
                let h = block.hash();
                Some(
                    BlockData {
                        height: block.header.height,
                        timestamp: block.header.timestamp,
                        hash: crate::hexstr::encode(&h),
                        prev_hash: crate::hexstr::encode(&block.header.prev_hash),
                        tx_count: block.transactions.len(),
                    },
                )
            },
            None => None,
        }
    }
}

} // verus!
