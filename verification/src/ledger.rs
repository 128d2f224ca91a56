use vstd::prelude::*;

use crate::amount::{amount_fits, Amount};

verus! {

broadcast use vstd::std_specs::hash::group_hash_axioms;

/// The closed set of operations a transaction record may carry.
#[derive(Clone, Copy, Debug, PartialEq, Eq, Structural)]
pub enum Operation {
    Deposit,
    Withdrawal,
    Dispute,
    Resolve,
    Chargeback,
}

/// One decoded input record: an operation, the client it belongs to, the
/// transaction it names, and — for deposits and withdrawals — an amount.
#[derive(Clone, Copy, Debug)]
pub struct Input {
    pub operation: Operation,
    pub client_id: u16,
    pub transaction_id: u32,
    pub amount: Option<Amount>,
}

/// A transaction as retained in a client's history, together with its
/// dispute flag.
#[derive(Clone, Copy, Debug)]
pub struct Transaction {
    pub transaction_id: u32,
    pub operation: Operation,
    pub amount: Option<Amount>,
    pub is_disputed: bool,
}

impl Transaction {
    pub fn from_input(input: Input) -> (r: Transaction)
        ensures
            r == tx_of_input(input),
    {
        Transaction {
            transaction_id: input.transaction_id,
            operation: input.operation,
            amount: input.amount,
            is_disputed: false,
        }
    }

    pub fn set_dispute(&mut self, is_disputed: bool)
        ensures
            *final(self) == (Transaction { is_disputed, ..*old(self) }),
    {
        self.is_disputed = is_disputed;
    }
}

/// The transaction an input record stands for, not yet disputed.
pub open spec fn tx_of_input(input: Input) -> Transaction {
    Transaction {
        transaction_id: input.transaction_id,
        operation: input.operation,
        amount: input.amount,
        is_disputed: false,
    }
}

/// A client's balances: available and held funds, their sum, and the
/// one-way lock set by a chargeback.
#[derive(Clone, Copy, Debug)]
pub struct AccountStatus {
    pub client_id: u16,
    pub available: Amount,
    pub held: Amount,
    pub total: Amount,
    pub locked: bool,
}

impl AccountStatus {
    /// All three balances are on the representable grid.
    pub open spec fn in_range(self) -> bool {
        &&& self.available.in_range()
        &&& self.held.in_range()
        &&& self.total.in_range()
    }

    pub fn new(client_id: u16) -> (r: AccountStatus)
        ensures
            r.client_id == client_id,
            r.available@ == 0,
            r.held@ == 0,
            r.total@ == 0,
            !r.locked,
            r.in_range(),
    {
        AccountStatus {
            client_id,
            available: Amount::zero(),
            held: Amount::zero(),
            total: Amount::zero(),
            locked: false,
        }
    }

    /// Rounds all three balances to four fractional digits, consistently,
    /// for output. Stripping trailing zeros is a formatting concern and is
    /// left to the output edge: a fixed-point value carries no scale of its
    /// own to normalize.
    pub fn round_and_normalize(&mut self)
        ensures
            final(self).client_id == old(self).client_id,
            final(self).locked == old(self).locked,
            final(self).available@ == crate::amount::round4(old(self).available@),
            final(self).held@ == crate::amount::round4(old(self).held@),
            final(self).total@ == crate::amount::round4(old(self).total@),
    {
        self.available = self.available.round_dp4();
        self.held = self.held.round_dp4();
        self.total = self.total.round_dp4();
    }
}

/// A client: its account status and the history of its deposits and
/// withdrawals, keyed by transaction identifier.
pub struct Client {
    pub account_status: AccountStatus,
    pub transactions: std::collections::HashMap<u32, Transaction>,
}

/// The mathematical state of one client: balances as exact grid values and
/// the transaction history as a map.
#[verifier::ext_equal]
pub ghost struct ClientView {
    pub client_id: u16,
    pub available: int,
    pub held: int,
    pub total: int,
    pub locked: bool,
    pub txs: Map<u32, Transaction>,
}

impl ClientView {
    /// The books balance: the total is the available plus the held funds.
    pub open spec fn balanced(self) -> bool {
        self.total == self.available + self.held
    }

    /// All balances lie on the representable grid.
    pub open spec fn in_range(self) -> bool {
        &&& amount_fits(self.available)
        &&& amount_fits(self.held)
        &&& amount_fits(self.total)
    }
}

/// The state of a client that has just been created.
pub open spec fn new_client_view(client_id: u16) -> ClientView {
    ClientView {
        client_id,
        available: 0,
        held: 0,
        total: 0,
        locked: false,
        txs: Map::empty(),
    }
}

/// A deposit credits the available funds and the total, and records the
/// transaction. An absent amount, or a result off the representable grid,
/// leaves the state unchanged.
pub open spec fn deposit_step(c: ClientView, t: Transaction) -> ClientView {
    match t.amount {
        Some(a) => {
            if amount_fits(c.available + a@) && amount_fits(c.total + a@) {
                ClientView {
                    available: c.available + a@,
                    total: c.total + a@,
                    txs: c.txs.insert(t.transaction_id, t),
                    ..c
                }
            } else {
                c
            }
        },
        None => c,
    }
}

/// A withdrawal debits the available funds and the total, and records the
/// transaction, but only when the available funds strictly exceed the
/// amount: withdrawing the exact available balance is rejected.
pub open spec fn withdrawal_step(c: ClientView, t: Transaction) -> ClientView {
    match t.amount {
        Some(a) => {
            if c.available > a@ && amount_fits(c.available - a@) && amount_fits(c.total - a@) {
                ClientView {
                    available: c.available - a@,
                    total: c.total - a@,
                    txs: c.txs.insert(t.transaction_id, t),
                    ..c
                }
            } else {
                c
            }
        },
        None => c,
    }
}

/// A dispute marks the referenced transaction disputed. For a deposit the
/// disputed amount moves from available to held; for a withdrawal it is
/// provisionally restored into held, raising the total. An unknown
/// reference, or one stored without an amount, leaves the state unchanged.
pub open spec fn dispute_step(c: ClientView, tx_id: u32) -> ClientView {
    if !c.txs.contains_key(tx_id) {
        c
    } else {
        let t = c.txs[tx_id];
        match t.amount {
            Some(a) => {
                let marked = c.txs.insert(tx_id, Transaction { is_disputed: true, ..t });
                match t.operation {
                    Operation::Deposit => {
                        if amount_fits(c.available - a@) && amount_fits(c.held + a@) {
                            ClientView {
                                available: c.available - a@,
                                held: c.held + a@,
                                txs: marked,
                                ..c
                            }
                        } else {
                            c
                        }
                    },
                    Operation::Withdrawal => {
                        if amount_fits(c.held + a@) && amount_fits(c.total + a@) {
                            ClientView { held: c.held + a@, total: c.total + a@, txs: marked, ..c }
                        } else {
                            c
                        }
                    },
                    _ => ClientView { txs: marked, ..c },
                }
            },
            None => c,
        }
    }
}

/// A resolve reverses the balance effect of a dispute on the referenced
/// transaction, which must currently be marked disputed; the mark is not
/// cleared. Anything else leaves the state unchanged.
pub open spec fn resolve_step(c: ClientView, tx_id: u32) -> ClientView {
    if !c.txs.contains_key(tx_id) {
        c
    } else {
        let t = c.txs[tx_id];
        if !t.is_disputed {
            c
        } else {
            match t.amount {
                Some(a) => match t.operation {
                    Operation::Deposit => {
                        if amount_fits(c.available + a@) && amount_fits(c.held - a@) {
                            ClientView { available: c.available + a@, held: c.held - a@, ..c }
                        } else {
                            c
                        }
                    },
                    Operation::Withdrawal => {
                        if amount_fits(c.held - a@) && amount_fits(c.total - a@) {
                            ClientView { held: c.held - a@, total: c.total - a@, ..c }
                        } else {
                            c
                        }
                    },
                    _ => c,
                },
                None => c,
            }
        }
    }
}

/// A chargeback locks the account and makes the dispute final: a disputed
/// deposit's held funds leave the account; a disputed withdrawal's held
/// funds return to available. The reference must currently be marked
/// disputed; anything else leaves the state unchanged.
pub open spec fn chargeback_step(c: ClientView, tx_id: u32) -> ClientView {
    if !c.txs.contains_key(tx_id) {
        c
    } else {
        let t = c.txs[tx_id];
        if !t.is_disputed {
            c
        } else {
            match t.amount {
                Some(a) => match t.operation {
                    Operation::Deposit => {
                        if amount_fits(c.held - a@) && amount_fits(c.total - a@) {
                            ClientView {
                                held: c.held - a@,
                                total: c.total - a@,
                                locked: true,
                                ..c
                            }
                        } else {
                            c
                        }
                    },
                    Operation::Withdrawal => {
                        if amount_fits(c.available + a@) && amount_fits(c.held - a@) {
                            ClientView {
                                available: c.available + a@,
                                held: c.held - a@,
                                locked: true,
                                ..c
                            }
                        } else {
                            c
                        }
                    },
                    _ => ClientView { locked: true, ..c },
                },
                None => c,
            }
        }
    }
}

impl View for Client {
    type V = ClientView;

    open spec fn view(&self) -> ClientView {
        ClientView {
            client_id: self.account_status.client_id,
            available: self.account_status.available@,
            held: self.account_status.held@,
            total: self.account_status.total@,
            locked: self.account_status.locked,
            txs: self.transactions@,
        }
    }
}

impl Client {
    pub fn new(client_id: u16) -> (r: Client)
        ensures
            r@ == new_client_view(client_id),
    {
        let r = Client {
            account_status: AccountStatus::new(client_id),
            transactions: std::collections::HashMap::new(),
        };
        proof {
            assert(r@ =~= new_client_view(client_id));
        }
        r
    }

    pub fn into_account_status(self) -> (r: AccountStatus)
        ensures
            r == self.account_status,
    {
        self.account_status
    }

    /// Looks up a stored transaction, copying it out of the history.
    fn lookup(&self, tx_id: u32) -> (r: Option<Transaction>)
        ensures
            match r {
                Some(t) => self@.txs.contains_key(tx_id) && t == self@.txs[tx_id],
                None => !self@.txs.contains_key(tx_id),
            },
    {
        match self.transactions.get(&tx_id) {
            Some(t) => Some(*t),
            None => None,
        }
    }

    pub fn deposit(&mut self, transaction: Transaction)
        ensures
            final(self)@ == deposit_step(old(self)@, transaction),
    {
        match transaction.amount {
            Some(amount) => {
                match (
                    self.account_status.available.checked_add(amount),
                    self.account_status.total.checked_add(amount),
                ) {
                    (Some(av), Some(tot)) => {
                        self.account_status.available = av;
                        self.account_status.total = tot;
                        self.transactions.insert(transaction.transaction_id, transaction);
                        proof {
                            assert(self@ =~= deposit_step(old(self)@, transaction));
                        }
                    },
                    _ => {
                        // Result off the representable grid: rejected, no mutation.
                    },
                }
            },
            None => {
                // Missing amount on a deposit: rejected, no mutation.
            },
        }
    }

    pub fn withdrawal(&mut self, transaction: Transaction)
        ensures
            final(self)@ == withdrawal_step(old(self)@, transaction),
    {
        match transaction.amount {
            Some(amount) => {
                if self.account_status.available.gt(amount) {
                    match (
                        self.account_status.available.checked_sub(amount),
                        self.account_status.total.checked_sub(amount),
                    ) {
                        (Some(av), Some(tot)) => {
                            self.account_status.available = av;
                            self.account_status.total = tot;
                            self.transactions.insert(transaction.transaction_id, transaction);
                            proof {
                                assert(self@ =~= withdrawal_step(old(self)@, transaction));
                            }
                        },
                        _ => {},
                    }
                } else {
                    // Insufficient funds: rejected, no mutation.
                }
            },
            None => {},
        }
    }

    pub fn dispute(&mut self, transaction: Transaction)
        ensures
            final(self)@ == dispute_step(old(self)@, transaction.transaction_id),
    {
        match self.lookup(transaction.transaction_id) {
            Some(stored) => {
                match stored.amount {
                    Some(amount) => {
                        let mut marked = stored;
                        marked.set_dispute(true);
                        match stored.operation {
                            Operation::Deposit => {
                                match (
                                    self.account_status.available.checked_sub(amount),
                                    self.account_status.held.checked_add(amount),
                                ) {
                                    (Some(av), Some(held)) => {
                                        self.account_status.available = av;
                                        self.account_status.held = held;
                                        self.transactions.insert(transaction.transaction_id, marked);
                                        proof {
                                            assert(self@ =~= dispute_step(
                                                old(self)@,
                                                transaction.transaction_id,
                                            ));
                                        }
                                    },
                                    _ => {},
                                }
                            },
                            Operation::Withdrawal => {
                                match (
                                    self.account_status.held.checked_add(amount),
                                    self.account_status.total.checked_add(amount),
                                ) {
                                    (Some(held), Some(tot)) => {
                                        self.account_status.held = held;
                                        self.account_status.total = tot;
                                        self.transactions.insert(transaction.transaction_id, marked);
                                        proof {
                                            assert(self@ =~= dispute_step(
                                                old(self)@,
                                                transaction.transaction_id,
                                            ));
                                        }
                                    },
                                    _ => {},
                                }
                            },
                            _ => {
                                // Only deposits and withdrawals carry balance
                                // effects; the mark is still set.
                                self.transactions.insert(transaction.transaction_id, marked);
                                proof {
                                    assert(self@ =~= dispute_step(
                                        old(self)@,
                                        transaction.transaction_id,
                                    ));
                                }
                            },
                        }
                    },
                    None => {},
                }
            },
            None => {},
        }
    }

    pub fn resolve(&mut self, transaction: Transaction)
        ensures
            final(self)@ == resolve_step(old(self)@, transaction.transaction_id),
    {
        match self.lookup(transaction.transaction_id) {
            Some(stored) => {
                if stored.is_disputed {
                    match stored.amount {
                        Some(amount) => {
                            match stored.operation {
                                Operation::Deposit => {
                                    match (
                                        self.account_status.available.checked_add(amount),
                                        self.account_status.held.checked_sub(amount),
                                    ) {
                                        (Some(av), Some(held)) => {
                                            self.account_status.available = av;
                                            self.account_status.held = held;
                                            proof {
                                                assert(self@ =~= resolve_step(
                                                    old(self)@,
                                                    transaction.transaction_id,
                                                ));
                                            }
                                        },
                                        _ => {},
                                    }
                                },
                                Operation::Withdrawal => {
                                    match (
                                        self.account_status.held.checked_sub(amount),
                                        self.account_status.total.checked_sub(amount),
                                    ) {
                                        (Some(held), Some(tot)) => {
                                            self.account_status.held = held;
                                            self.account_status.total = tot;
                                            proof {
                                                assert(self@ =~= resolve_step(
                                                    old(self)@,
                                                    transaction.transaction_id,
                                                ));
                                            }
                                        },
                                        _ => {},
                                    }
                                },
                                _ => {},
                            }
                        },
                        None => {},
                    }
                } else {
                    // Never disputed: a resolve changes nothing.
                }
            },
            None => {},
        }
    }

    pub fn chargeback(&mut self, transaction: Transaction)
        ensures
            final(self)@ == chargeback_step(old(self)@, transaction.transaction_id),
    {
        match self.lookup(transaction.transaction_id) {
            Some(stored) => {
                if stored.is_disputed {
                    match stored.amount {
                        Some(amount) => {
                            match stored.operation {
                                Operation::Deposit => {
                                    match (
                                        self.account_status.held.checked_sub(amount),
                                        self.account_status.total.checked_sub(amount),
                                    ) {
                                        (Some(held), Some(tot)) => {
                                            self.account_status.locked = true;
                                            self.account_status.held = held;
                                            self.account_status.total = tot;
                                            proof {
                                                assert(self@ =~= chargeback_step(
                                                    old(self)@,
                                                    transaction.transaction_id,
                                                ));
                                            }
                                        },
                                        _ => {},
                                    }
                                },
                                Operation::Withdrawal => {
                                    match (
                                        self.account_status.available.checked_add(amount),
                                        self.account_status.held.checked_sub(amount),
                                    ) {
                                        (Some(av), Some(held)) => {
                                            self.account_status.locked = true;
                                            self.account_status.available = av;
                                            self.account_status.held = held;
                                            proof {
                                                assert(self@ =~= chargeback_step(
                                                    old(self)@,
                                                    transaction.transaction_id,
                                                ));
                                            }
                                        },
                                        _ => {},
                                    }
                                },
                                _ => {
                                    self.account_status.locked = true;
                                    proof {
                                        assert(self@ =~= chargeback_step(
                                            old(self)@,
                                            transaction.transaction_id,
                                        ));
                                    }
                                },
                            }
                        },
                        None => {},
                    }
                }
            },
            None => {},
        }
    }
}

/// Dispatch of one input record to the handler its operation names.
pub open spec fn client_step(c: ClientView, input: Input) -> ClientView {
    match input.operation {
        Operation::Deposit => deposit_step(c, tx_of_input(input)),
        Operation::Withdrawal => withdrawal_step(c, tx_of_input(input)),
        Operation::Dispute => dispute_step(c, input.transaction_id),
        Operation::Resolve => resolve_step(c, input.transaction_id),
        Operation::Chargeback => chargeback_step(c, input.transaction_id),
    }
}

/// The books stay balanced: every event preserves
/// `total == available + held`, exactly.
pub proof fn lemma_step_preserves_balance(c: ClientView, input: Input)
    requires
        c.balanced(),
    ensures
        client_step(c, input).balanced(),
{
}

/// Every event keeps all three balances on the representable grid.
pub proof fn lemma_step_preserves_range(c: ClientView, input: Input)
    requires
        c.in_range(),
    ensures
        client_step(c, input).in_range(),
{
}

/// No event changes the client a state belongs to.
pub proof fn lemma_step_preserves_client_id(c: ClientView, input: Input)
    ensures
        client_step(c, input).client_id == c.client_id,
{
}

/// The lock is one-way: once set, no later event clears it.
pub proof fn lemma_step_locked_monotonic(c: ClientView, input: Input)
    ensures
        c.locked ==> client_step(c, input).locked,
{
}

/// A resolve or chargeback naming a transaction never marked disputed
/// changes nothing.
pub proof fn lemma_undisputed_reference_unchanged(c: ClientView, tx_id: u32)
    requires
        c.txs.contains_key(tx_id) ==> !c.txs[tx_id].is_disputed,
    ensures
        resolve_step(c, tx_id) == c,
        chargeback_step(c, tx_id) == c,
{
}

/// A dispute, resolve or chargeback naming a transaction the client never
/// recorded changes nothing.
pub proof fn lemma_unknown_reference_unchanged(c: ClientView, tx_id: u32)
    requires
        !c.txs.contains_key(tx_id),
    ensures
        dispute_step(c, tx_id) == c,
        resolve_step(c, tx_id) == c,
        chargeback_step(c, tx_id) == c,
{
}

/// The withdrawal boundary: a withdrawal of exactly the available balance
/// is rejected, while any smaller representable amount goes through.
pub proof fn lemma_withdrawal_boundary(c: ClientView, a: Amount, t: Transaction)
    requires
        t.amount == Some(a),
    ensures
        a@ == c.available ==> withdrawal_step(c, t) == c,
        a@ < c.available && amount_fits(c.available - a@) && amount_fits(c.total - a@)
            ==> withdrawal_step(c, t) == (ClientView {
            available: c.available - a@,
            total: c.total - a@,
            txs: c.txs.insert(t.transaction_id, t),
            ..c
        }),
{
}

} // verus!
