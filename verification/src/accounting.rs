use vstd::prelude::*;

use crate::errors::AccountingError;

verus! {

/// One ledger entry: an account identifier and its balance.
#[derive(Debug)]
pub struct AccountEntry {
    pub id: String,
    pub balance: u64,
}

/// The ledger: the mapping of account identifiers to balances.
///
/// Balances are `u64` fixed-point currency units, so non-negativity holds by
/// construction; the invariant carried by [`Accounts::wf`] is uniqueness of
/// the stored account identifiers. An account is created implicitly on first
/// deposit (or on first receipt of a transfer) and never destroyed.
#[derive(Debug)]
pub struct Accounts {
    entries: Vec<AccountEntry>,
}

/// Whether some entry of `s` carries the identifier `k`.
pub open spec fn has_key(s: Seq<AccountEntry>, k: Seq<char>) -> bool {
    exists|i: int| 0 <= i < s.len() && s[i].id@ == k
}

/// The index of the entry carrying `k` (meaningful only under uniqueness).
spec fn key_idx(s: Seq<AccountEntry>, k: Seq<char>) -> int {
    choose|i: int| 0 <= i < s.len() && s[i].id@ == k
}

/// Pairwise-distinct identifiers.
pub open spec fn unique_ids(s: Seq<AccountEntry>) -> bool {
    forall|i: int, j: int| 0 <= i < j < s.len() ==> s[i].id@ != s[j].id@
}

proof fn lemma_key_idx(s: Seq<AccountEntry>, k: Seq<char>, i: int)
    requires
        unique_ids(s),
        0 <= i < s.len(),
        s[i].id@ == k,
    ensures
        has_key(s, k),
        key_idx(s, k) == i,
{
    assert(has_key(s, k));
    let j = key_idx(s, k);
    if j != i {
        assert(s[i].id@ != s[j].id@);
    }
}

/// The balance of `k` in `m`, taking an absent account as zero.
pub open spec fn bal_or_zero(m: Map<Seq<char>, u64>, k: Seq<char>) -> u64 {
    if m.dom().contains(k) {
        m[k]
    } else {
        0u64
    }
}

/// The outcome of `deposit`: the new balance map on success, the error kind
/// on rejection. The exec operation is specified against this function.
pub open spec fn spec_deposit(m: Map<Seq<char>, u64>, k: Seq<char>, amount: u64) -> Result<
    Map<Seq<char>, u64>,
    AccountingError,
> {
    if amount == 0 {
        Err(AccountingError::InvalidAmount)
    } else if bal_or_zero(m, k) + amount > u64::MAX {
        Err(AccountingError::Overflow)
    } else {
        Ok(m.insert(k, (bal_or_zero(m, k) + amount) as u64))
    }
}

/// The outcome of `withdraw`.
pub open spec fn spec_withdraw(m: Map<Seq<char>, u64>, k: Seq<char>, amount: u64) -> Result<
    Map<Seq<char>, u64>,
    AccountingError,
> {
    if amount == 0 {
        Err(AccountingError::InvalidAmount)
    } else if !m.dom().contains(k) {
        Err(AccountingError::AccountNotFound)
    } else if m[k] < amount {
        Err(AccountingError::InsufficientFunds)
    } else {
        Ok(m.insert(k, (m[k] - amount) as u64))
    }
}

/// The outcome of `send`: both the debit and the credit, or neither.
/// A self-transfer that passes the checks leaves the map unchanged.
pub open spec fn spec_send(
    m: Map<Seq<char>, u64>,
    sender: Seq<char>,
    recipient: Seq<char>,
    amount: u64,
) -> Result<Map<Seq<char>, u64>, AccountingError> {
    if amount == 0 {
        Err(AccountingError::InvalidAmount)
    } else if !m.dom().contains(sender) {
        Err(AccountingError::AccountNotFound)
    } else if m[sender] < amount {
        Err(AccountingError::InsufficientFunds)
    } else if sender == recipient {
        Ok(m)
    } else if bal_or_zero(m, recipient) + amount > u64::MAX {
        Err(AccountingError::Overflow)
    } else {
        Ok(
            m.insert(sender, (m[sender] - amount) as u64).insert(
                recipient,
                (bal_or_zero(m, recipient) + amount) as u64,
            ),
        )
    }
}

/// One ledger operation on a single account, for stating how a balance
/// evolves over a whole history of calls.
pub enum AccountOp {
    Deposit(u64),
    Withdraw(u64),
}

/// Applies one operation to account `k`, leaving the map unchanged when the
/// operation is rejected — exactly what the exec operations commit.
pub open spec fn spec_apply_op(m: Map<Seq<char>, u64>, k: Seq<char>, op: AccountOp) -> Map<
    Seq<char>,
    u64,
> {
    match op {
        AccountOp::Deposit(a) => match spec_deposit(m, k, a) {
            Ok(m2) => m2,
            Err(_) => m,
        },
        AccountOp::Withdraw(a) => match spec_withdraw(m, k, a) {
            Ok(m2) => m2,
            Err(_) => m,
        },
    }
}

/// The ledger after a whole sequence of deposits and withdrawals on `k`.
pub open spec fn spec_apply_ops(m: Map<Seq<char>, u64>, k: Seq<char>, ops: Seq<AccountOp>) -> Map<
    Seq<char>,
    u64,
>
    decreases ops.len(),
{
    if ops.len() == 0 {
        m
    } else {
        spec_apply_op(spec_apply_ops(m, k, ops.drop_last()), k, ops.last())
    }
}

/// The sum of the amounts of the successful deposits minus the sum of the
/// amounts of the successful withdrawals along the history `ops`.
pub open spec fn spec_net_flow(m: Map<Seq<char>, u64>, k: Seq<char>, ops: Seq<AccountOp>) -> int
    decreases ops.len(),
{
    if ops.len() == 0 {
        0
    } else {
        let prev = spec_apply_ops(m, k, ops.drop_last());
        let net = spec_net_flow(m, k, ops.drop_last());
        match ops.last() {
            AccountOp::Deposit(a) => if spec_deposit(prev, k, a) is Ok {
                net + a
            } else {
                net
            },
            AccountOp::Withdraw(a) => if spec_withdraw(prev, k, a) is Ok {
                net - a
            } else {
                net
            },
        }
    }
}

/// Law: for every sequence of deposits and withdrawals on one account, the
/// resulting balance equals the starting balance plus the sum of the
/// successful deposit amounts minus the sum of the successful withdrawal
/// amounts, and no other account is touched. (Balances are unsigned, so no
/// balance is ever negative.)
pub proof fn lemma_balance_is_net_flow(m: Map<Seq<char>, u64>, k: Seq<char>, ops: Seq<AccountOp>)
    ensures
        bal_or_zero(spec_apply_ops(m, k, ops), k) == bal_or_zero(m, k) + spec_net_flow(m, k, ops),
        forall|x: Seq<char>|
            x != k ==> bal_or_zero(spec_apply_ops(m, k, ops), x) == bal_or_zero(m, x),
    decreases ops.len(),
{
    if ops.len() > 0 {
        lemma_balance_is_net_flow(m, k, ops.drop_last());
    }
}

/// Law: a transfer that succeeds moves `amount` from `sender` to
/// `recipient` in one step — the debit and the credit happen together and
/// no third balance moves — and a successful self-transfer is a no-op.
/// (When [`spec_send`] rejects, the exec contract of [`Accounts::send`]
/// already states that the ledger is left exactly as it was.)
pub proof fn lemma_send_atomic(
    m: Map<Seq<char>, u64>,
    sender: Seq<char>,
    recipient: Seq<char>,
    amount: u64,
)
    ensures
        (match spec_send(m, sender, recipient, amount) {
            Ok(m2) => {
                &&& (sender == recipient ==> m2 == m)
                &&& (sender != recipient ==> bal_or_zero(m2, sender) + amount == bal_or_zero(
                    m,
                    sender,
                ) && bal_or_zero(m2, recipient) == bal_or_zero(m, recipient) + amount)
                &&& forall|x: Seq<char>|
                    x != sender && x != recipient ==> bal_or_zero(m2, x) == bal_or_zero(m, x)
            },
            Err(_) => true,
        }),
{
}

impl View for Accounts {
    type V = Map<Seq<char>, u64>;

    closed spec fn view(&self) -> Map<Seq<char>, u64> {
        Map::new(
            |k: Seq<char>| has_key(self.entries@, k),
            |k: Seq<char>| self.entries@[key_idx(self.entries@, k)].balance,
        )
    }
}

impl Accounts {
    /// Well-formed ledger: no identifier occurs twice.
    pub closed spec fn wf(&self) -> bool {
        unique_ids(self.entries@)
    }

    /// An empty ledger.
    pub fn new() -> (r: Accounts)
        ensures
            r.wf(),
            r@ == Map::<Seq<char>, u64>::empty(),
    {
        let r = Accounts { entries: Vec::new() };
        proof {
            assert(r@ =~= Map::<Seq<char>, u64>::empty());
        }
        r
    }

    /// The index of the entry for `id`, or `None` if no such account exists.
    fn find(&self, id: &String) -> (r: Option<usize>)
        requires
            self.wf(),
        ensures
            match r {
                Some(i) => i < self.entries@.len() && self.entries@[i as int].id@ == id@
                    && self@.dom().contains(id@) && self@[id@] == self.entries@[i as int].balance,
                None => !self@.dom().contains(id@),
            },
    {
        let mut i: usize = 0;
        while i < self.entries.len()
            invariant
                self.wf(),
                i <= self.entries@.len(),
                forall|j: int| 0 <= j < i ==> self.entries@[j].id@ != id@,
            decreases self.entries@.len() - i,
        {
            if self.entries[i].id == *id {
                proof {
                    lemma_key_idx(self.entries@, id@, i as int);
                }
                return Some(i);
            }
            i += 1;
        }
        None
    }

    /// Adds `amount` to the balance of `signer`, creating the account (with
    /// initial balance zero) if it has no ledger entry yet.
    ///
    /// Rejects a zero amount with `InvalidAmount`, and an amount that would
    /// push the balance past `u64::MAX` with `Overflow`; in either case the
    /// ledger is unchanged.
    pub fn deposit(&mut self, signer: &String, amount: u64) -> (r: Result<(), AccountingError>)
        requires
            old(self).wf(),
        ensures
            final(self).wf(),
            (match spec_deposit(old(self)@, signer@, amount) {
                Ok(m) => r == Ok::<(), AccountingError>(()) && final(self)@ == m,
                Err(e) => r == Err::<(), AccountingError>(e) && final(self)@ == old(self)@,
            }),
    {
        if amount == 0 {
            return Err(AccountingError::InvalidAmount);
        }
        match self.find(signer) {
            Some(i) => {
                let bal = self.entries[i].balance;
                if amount > u64::MAX - bal {
                    return Err(AccountingError::Overflow);
                }
                self.entries[i].balance = bal + amount;
                proof {
                    self.lemma_update_view(old(self), i as int, signer@);
                }
                Ok(())
            },
            None => {
                self.entries.push(AccountEntry { id: signer.clone(), balance: amount });
                proof {
                    self.lemma_push_view(old(self), signer@);
                }
                Ok(())
            },
        }
    }

    /// After updating the balance at index `i` (identifier `k` unchanged),
    /// the view is the old view with `k` re-bound to the new balance.
    proof fn lemma_update_view(&self, prev: &Accounts, i: int, k: Seq<char>)
        requires
            prev.wf(),
            0 <= i < prev.entries@.len(),
            prev.entries@[i].id@ == k,
            self.entries@.len() == prev.entries@.len(),
            forall|j: int|
                0 <= j < prev.entries@.len() && j != i ==> self.entries@[j] == prev.entries@[j],
            self.entries@[i].id@ == k,
        ensures
            self.wf(),
            self@ == prev@.insert(k, self.entries@[i].balance),
    {
        assert forall|j: int| 0 <= j < self.entries@.len() implies self.entries@[j].id@
            == prev.entries@[j].id@ by {}
        assert(unique_ids(self.entries@));
        assert forall|x: Seq<char>| #[trigger] has_key(self.entries@, x) == has_key(
            prev.entries@,
            x,
        ) by {
            if has_key(self.entries@, x) {
                let w = choose|w: int| 0 <= w < self.entries@.len() && self.entries@[w].id@ == x;
                assert(prev.entries@[w].id@ == x);
            }
            if has_key(prev.entries@, x) {
                let w = choose|w: int| 0 <= w < prev.entries@.len() && prev.entries@[w].id@ == x;
                assert(self.entries@[w].id@ == x);
            }
        }
        assert forall|x: Seq<char>| self@.dom().contains(x) implies self@[x] == prev@.insert(
            k,
            self.entries@[i].balance,
        )[x] by {
            let w = choose|w: int| 0 <= w < self.entries@.len() && self.entries@[w].id@ == x;
            lemma_key_idx(self.entries@, x, w);
            lemma_key_idx(prev.entries@, x, w);
        }
        assert(self@ =~= prev@.insert(k, self.entries@[i].balance));
    }

    /// After pushing a fresh identifier `k`, the view is the old view with
    /// `k` bound to the pushed balance.
    proof fn lemma_push_view(&self, prev: &Accounts, k: Seq<char>)
        requires
            prev.wf(),
            !has_key(prev.entries@, k),
            self.entries@.len() == prev.entries@.len() + 1,
            forall|j: int| 0 <= j < prev.entries@.len() ==> self.entries@[j] == prev.entries@[j],
            self.entries@.last().id@ == k,
        ensures
            self.wf(),
            self@ == prev@.insert(k, self.entries@.last().balance),
    {
        let n = prev.entries@.len() as int;
        assert(unique_ids(self.entries@));
        assert forall|x: Seq<char>| self@.dom().contains(x) implies prev@.insert(
            k,
            self.entries@.last().balance,
        ).dom().contains(x) && self@[x] == prev@.insert(k, self.entries@.last().balance)[x] by {
            let w = choose|w: int| 0 <= w < self.entries@.len() && self.entries@[w].id@ == x;
            lemma_key_idx(self.entries@, x, w);
            if w < n {
                lemma_key_idx(prev.entries@, x, w);
            }
        }
        assert forall|x: Seq<char>| prev@.insert(k, self.entries@.last().balance).dom().contains(
            x,
        ) implies self@.dom().contains(x) by {
            if x == k {
                assert(self.entries@[n].id@ == x);
            } else {
                let w = choose|w: int| 0 <= w < prev.entries@.len() && prev.entries@[w].id@ == x;
                assert(self.entries@[w].id@ == x);
            }
        }
        assert(self@ =~= prev@.insert(k, self.entries@.last().balance));
    }

    /// Removes `amount` from the balance of `signer`.
    ///
    /// Rejects a zero amount with `InvalidAmount`, an unknown account with
    /// `AccountNotFound`, and an amount above the current balance with
    /// `InsufficientFunds`; in each case the ledger is unchanged.
    pub fn withdraw(&mut self, signer: &String, amount: u64) -> (r: Result<(), AccountingError>)
        requires
            old(self).wf(),
        ensures
            final(self).wf(),
            (match spec_withdraw(old(self)@, signer@, amount) {
                Ok(m) => r == Ok::<(), AccountingError>(()) && final(self)@ == m,
                Err(e) => r == Err::<(), AccountingError>(e) && final(self)@ == old(self)@,
            }),
    {
        if amount == 0 {
            return Err(AccountingError::InvalidAmount);
        }
        match self.find(signer) {
            Some(i) => {
                let bal = self.entries[i].balance;
                if bal < amount {
                    return Err(AccountingError::InsufficientFunds);
                }
                self.entries[i].balance = bal - amount;
                proof {
                    self.lemma_update_view(old(self), i as int, signer@);
                }
                Ok(())
            },
            None => Err(AccountingError::AccountNotFound),
        }
    }

    /// Moves `amount` from `sender` to `recipient` atomically: either both
    /// the debit and the credit happen, or the ledger is unchanged.
    ///
    /// The checks mirror `withdraw` on the sender; the recipient account is
    /// created if absent, mirroring `deposit`. A self-transfer that passes
    /// the sender checks is a committed no-op.
    pub fn send(
        &mut self,
        sender: &String,
        recipient: &String,
        amount: u64,
    ) -> (r: Result<(), AccountingError>)
        requires
            old(self).wf(),
        ensures
            final(self).wf(),
            (match spec_send(old(self)@, sender@, recipient@, amount) {
                Ok(m) => r == Ok::<(), AccountingError>(()) && final(self)@ == m,
                Err(e) => r == Err::<(), AccountingError>(e) && final(self)@ == old(self)@,
            }),
    {
        if amount == 0 {
            return Err(AccountingError::InvalidAmount);
        }
        let i = match self.find(sender) {
            Some(i) => i,
            None => {
                return Err(AccountingError::AccountNotFound);
            },
        };
        let sender_bal = self.entries[i].balance;
        if sender_bal < amount {
            return Err(AccountingError::InsufficientFunds);
        }
        if *sender == *recipient {
            return Ok(());
        }
        match self.find(recipient) {
            Some(j) => {
                let recipient_bal = self.entries[j].balance;
                if amount > u64::MAX - recipient_bal {
                    return Err(AccountingError::Overflow);
                }
                let ghost mid = self@.insert(sender@, (sender_bal - amount) as u64);
                self.entries[i].balance = sender_bal - amount;
                proof {
                    self.lemma_update_view(old(self), i as int, sender@);
                    assert(self@ == mid);
                }
                let ghost pre_credit = *self;
                self.entries[j].balance = recipient_bal + amount;
                proof {
                    self.lemma_update_view(&pre_credit, j as int, recipient@);
                }
                Ok(())
            },
            None => {
                let ghost mid = self@.insert(sender@, (sender_bal - amount) as u64);
                self.entries[i].balance = sender_bal - amount;
                proof {
                    self.lemma_update_view(old(self), i as int, sender@);
                    assert(self@ == mid);
                }
                let ghost pre_credit = *self;
                self.entries.push(AccountEntry { id: recipient.clone(), balance: amount });
                proof {
                    self.lemma_push_view(&pre_credit, recipient@);
                }
                Ok(())
            },
        }
    }

    /// The current balance of `signer`, or `AccountNotFound` if the account
    /// has no ledger entry.
    pub fn balance_of(&self, signer: &String) -> (r: Result<u64, AccountingError>)
        requires
            self.wf(),
        ensures
            (match r {
                Ok(b) => self@.dom().contains(signer@) && b == self@[signer@],
                Err(e) => e == AccountingError::AccountNotFound && !self@.dom().contains(signer@),
            }),
    {
        match self.find(signer) {
            Some(i) => Ok(self.entries[i].balance),
            None => Err(AccountingError::AccountNotFound),
        }
    }
}

} // verus!
