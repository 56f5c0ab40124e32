//! Multi-asset ledger: per-(asset, account) balances and per-asset total
//! issuance, with overflow/underflow-safe, all-or-nothing operations.
//!
//! The central law is conservation: for every asset, the recorded total
//! issuance equals the sum of all account balances of that asset. Every
//! operation's contract shows exactly how it moves balances, issuance and
//! the per-asset balance sum, so conservation is preserved by `deposit`,
//! `withdraw` and `transfer` and can be tracked through any call sequence.

use vstd::prelude::*;
use vstd::pervasive::VecAdditionalExecFns;
use crate::assets::AssetId;

verus! {

pub type AccountId = u64;

pub type Balance = u128;

/// Arithmetic-safety failures of the ledger. Each operation fails
/// atomically: on any error, no state is changed at all.
#[derive(Clone, Copy, PartialEq, Eq, Structural, Debug)]
pub enum LedgerError {
    BalanceOverflow,
    TotalIssuanceOverflow,
    InsufficientBalance,
    TotalIssuanceUnderflow,
}

#[derive(Clone, Copy, PartialEq, Eq, Structural, Debug)]
struct BalanceEntry {
    account: AccountId,
    amount: Balance,
}

struct AssetBook {
    asset: AssetId,
    issuance: Balance,
    balances: Vec<BalanceEntry>,
}

/// The ledger owns all balance and issuance state; no other component
/// mutates it except through the operations below.
pub struct Ledger {
    books: Vec<AssetBook>,
}

/// A non-forgeable token for value withdrawn from the ledger but not
/// yet credited anywhere. Only `Ledger::withdraw_to_credit` creates
/// one; it carries no `Clone` or `Copy`, so it is consumed exactly once
/// — resolved to an account via `Ledger::resolve`, split, or explicitly
/// discarded (which burns the value: the issuance was already reduced).
pub struct Credit {
    asset: AssetId,
    amount: Balance,
}

impl Credit {
    /// The asset this credit is denominated in.
    pub closed spec fn spec_asset(&self) -> AssetId {
        self.asset
    }

    /// The amount of value this credit carries.
    pub closed spec fn spec_amount(&self) -> Balance {
        self.amount
    }

    pub fn amount(&self) -> (r: Balance)
        ensures
            r == self.spec_amount(),
    {
        self.amount
    }

    /// Split this credit into a pair carrying `at` and the remainder.
    pub fn split(self, at: Balance) -> (r: (Credit, Credit))
        requires
            at <= self.spec_amount(),
        ensures
            r.0.spec_asset() == self.spec_asset(),
            r.1.spec_asset() == self.spec_asset(),
            r.0.spec_amount() == at,
            r.1.spec_amount() == self.spec_amount() - at,
    {
        let Credit { asset, amount } = self;
        (Credit { asset, amount: at }, Credit { asset, amount: amount - at })
    }
}

/// Whether depositing `amount` into `(asset, account)` can succeed:
/// neither the total issuance nor the account balance may pass the
/// balance type's maximum.
pub open spec fn can_deposit(l: Ledger, asset: AssetId, account: AccountId, amount: Balance) -> bool {
    &&& l.issuance_of(asset) + amount <= Balance::MAX
    &&& l.balance_of(asset, account) + amount <= Balance::MAX
}

// ---------------------------------------------------------------------
// Spec-level model: balances, issuance and balance sums as functions of
// the underlying books.
// ---------------------------------------------------------------------

spec fn bal_in(s: Seq<BalanceEntry>, account: AccountId) -> Balance
    decreases s.len(),
{
    if s.len() == 0 {
        0
    } else if s[0].account == account {
        s[0].amount
    } else {
        bal_in(s.drop_first(), account)
    }
}

spec fn sum_amounts(s: Seq<BalanceEntry>) -> int
    decreases s.len(),
{
    if s.len() == 0 {
        0
    } else {
        s[0].amount + sum_amounts(s.drop_first())
    }
}

spec fn accounts_distinct(s: Seq<BalanceEntry>) -> bool {
    forall|i: int, j: int| 0 <= i < j < s.len() ==> s[i].account != s[j].account
}

spec fn book_bal(s: Seq<AssetBook>, asset: AssetId, account: AccountId) -> Balance
    decreases s.len(),
{
    if s.len() == 0 {
        0
    } else if s[0].asset == asset {
        bal_in(s[0].balances@, account)
    } else {
        book_bal(s.drop_first(), asset, account)
    }
}

spec fn book_iss(s: Seq<AssetBook>, asset: AssetId) -> Balance
    decreases s.len(),
{
    if s.len() == 0 {
        0
    } else if s[0].asset == asset {
        s[0].issuance
    } else {
        book_iss(s.drop_first(), asset)
    }
}

spec fn book_sum(s: Seq<AssetBook>, asset: AssetId) -> int
    decreases s.len(),
{
    if s.len() == 0 {
        0
    } else if s[0].asset == asset {
        sum_amounts(s[0].balances@)
    } else {
        book_sum(s.drop_first(), asset)
    }
}

spec fn assets_distinct(s: Seq<AssetBook>) -> bool {
    forall|i: int, j: int| 0 <= i < j < s.len() ==> s[i].asset != s[j].asset
}

impl Ledger {
    /// The balance of `account` in `asset`; zero when never touched.
    pub closed spec fn balance_of(&self, asset: AssetId, account: AccountId) -> Balance {
        book_bal(self.books@, asset, account)
    }

    /// The total issuance recorded for `asset`; zero when never touched.
    pub closed spec fn issuance_of(&self, asset: AssetId) -> Balance {
        book_iss(self.books@, asset)
    }

    /// The sum of all account balances recorded for `asset`. Since a
    /// well-formed ledger records each (asset, account) pair at most
    /// once, this is the sum of `balance_of(asset, c)` over all accounts.
    pub closed spec fn sum_of(&self, asset: AssetId) -> int {
        book_sum(self.books@, asset)
    }

    /// Internal representation invariant: each asset has at most one
    /// book and each account at most one entry per book.
    pub closed spec fn wf(&self) -> bool {
        &&& assets_distinct(self.books@)
        &&& forall|k: int|
            0 <= k < self.books@.len() ==> accounts_distinct(#[trigger] self.books@[k].balances@)
    }

    /// Conservation: for every asset, total issuance equals the sum of
    /// all account balances of that asset.
    pub open spec fn conserved(&self) -> bool {
        forall|a: AssetId| #[trigger] self.issuance_of(a) as int == self.sum_of(a)
    }
}

// ---------------------------------------------------------------------
// Lemmas connecting the recursive spec functions to indexed reasoning.
// ---------------------------------------------------------------------

proof fn lemma_bal_at(s: Seq<BalanceEntry>, i: int)
    requires
        0 <= i < s.len(),
        forall|j: int| 0 <= j < i ==> s[j].account != s[i].account,
    ensures
        bal_in(s, s[i].account) == s[i].amount,
    decreases i,
{
    if i > 0 {
        assert(s.drop_first()[i - 1] == s[i]);
        assert forall|j: int| 0 <= j < i - 1 implies (#[trigger] s.drop_first()[j]).account
            != s.drop_first()[i - 1].account by {
            assert(s.drop_first()[j] == s[j + 1]);
        }
        lemma_bal_at(s.drop_first(), i - 1);
    }
}

proof fn lemma_bal_absent(s: Seq<BalanceEntry>, account: AccountId)
    requires
        forall|j: int| 0 <= j < s.len() ==> s[j].account != account,
    ensures
        bal_in(s, account) == 0,
    decreases s.len(),
{
    if s.len() > 0 {
        lemma_bal_absent(s.drop_first(), account);
    }
}

proof fn lemma_bal_update_other(s: Seq<BalanceEntry>, i: int, e: BalanceEntry, c: AccountId)
    requires
        0 <= i < s.len(),
        e.account == s[i].account,
        c != e.account,
    ensures
        bal_in(s.update(i, e), c) == bal_in(s, c),
    decreases i,
{
    let s2 = s.update(i, e);
    if i == 0 {
        assert(s2.drop_first() =~= s.drop_first());
    } else {
        assert(s2[0] == s[0]);
        if s[0].account != c {
            assert(s2.drop_first() =~= s.drop_first().update(i - 1, e));
            lemma_bal_update_other(s.drop_first(), i - 1, e, c);
        }
    }
}

proof fn lemma_bal_push_other(s: Seq<BalanceEntry>, e: BalanceEntry, c: AccountId)
    requires
        c != e.account,
    ensures
        bal_in(s.push(e), c) == bal_in(s, c),
    decreases s.len(),
{
    let s2 = s.push(e);
    if s.len() == 0 {
        assert(s2[0] == e);
        assert(s2.drop_first() =~= Seq::<BalanceEntry>::empty());
        assert(bal_in(s2, c) == bal_in(s2.drop_first(), c));
    } else {
        assert(s2[0] == s[0]);
        if s[0].account != c {
            assert(s2.drop_first() =~= s.drop_first().push(e));
            lemma_bal_push_other(s.drop_first(), e, c);
            assert(bal_in(s2, c) == bal_in(s2.drop_first(), c));
            assert(bal_in(s, c) == bal_in(s.drop_first(), c));
        }
    }
}

proof fn lemma_sum_nonneg(s: Seq<BalanceEntry>)
    ensures
        sum_amounts(s) >= 0,
    decreases s.len(),
{
    if s.len() > 0 {
        lemma_sum_nonneg(s.drop_first());
    }
}

proof fn lemma_sum_update(s: Seq<BalanceEntry>, i: int, e: BalanceEntry)
    requires
        0 <= i < s.len(),
    ensures
        sum_amounts(s.update(i, e)) == sum_amounts(s) - s[i].amount + e.amount,
    decreases i,
{
    let s2 = s.update(i, e);
    if i == 0 {
        assert(s2.drop_first() =~= s.drop_first());
    } else {
        assert(s2[0] == s[0]);
        assert(s2.drop_first() =~= s.drop_first().update(i - 1, e));
        lemma_sum_update(s.drop_first(), i - 1, e);
    }
}

proof fn lemma_sum_push(s: Seq<BalanceEntry>, e: BalanceEntry)
    ensures
        sum_amounts(s.push(e)) == sum_amounts(s) + e.amount,
    decreases s.len(),
{
    let s2 = s.push(e);
    if s.len() == 0 {
        assert(s2[0] == e);
        assert(s2.drop_first() =~= Seq::<BalanceEntry>::empty());
        assert(sum_amounts(s2) == e.amount + sum_amounts(s2.drop_first()));
    } else {
        assert(s2[0] == s[0]);
        assert(s2.drop_first() =~= s.drop_first().push(e));
        lemma_sum_push(s.drop_first(), e);
        assert(sum_amounts(s2) == s[0].amount + sum_amounts(s2.drop_first()));
    }
}

proof fn lemma_bal_le_sum(s: Seq<BalanceEntry>, c: AccountId)
    ensures
        bal_in(s, c) <= sum_amounts(s),
    decreases s.len(),
{
    if s.len() > 0 {
        lemma_sum_nonneg(s.drop_first());
        lemma_bal_le_sum(s.drop_first(), c);
    }
}

proof fn lemma_book_at(s: Seq<AssetBook>, i: int)
    requires
        0 <= i < s.len(),
        forall|j: int| 0 <= j < i ==> s[j].asset != s[i].asset,
    ensures
        book_iss(s, s[i].asset) == s[i].issuance,
        book_sum(s, s[i].asset) == sum_amounts(s[i].balances@),
        forall|c: AccountId| book_bal(s, s[i].asset, c) == bal_in(s[i].balances@, c),
    decreases i,
{
    if i > 0 {
        assert(s.drop_first()[i - 1] == s[i]);
        assert forall|j: int| 0 <= j < i - 1 implies (#[trigger] s.drop_first()[j]).asset
            != s.drop_first()[i - 1].asset by {
            assert(s.drop_first()[j] == s[j + 1]);
        }
        lemma_book_at(s.drop_first(), i - 1);
    }
}

proof fn lemma_book_absent(s: Seq<AssetBook>, asset: AssetId)
    requires
        forall|j: int| 0 <= j < s.len() ==> s[j].asset != asset,
    ensures
        book_iss(s, asset) == 0,
        book_sum(s, asset) == 0,
        forall|c: AccountId| book_bal(s, asset, c) == 0,
    decreases s.len(),
{
    if s.len() > 0 {
        lemma_book_absent(s.drop_first(), asset);
        assert forall|c: AccountId| book_bal(s, asset, c) == 0 by {
            assert(book_bal(s, asset, c) == book_bal(s.drop_first(), asset, c));
        }
    }
}

proof fn lemma_book_update_other(s: Seq<AssetBook>, i: int, b: AssetBook, a: AssetId)
    requires
        0 <= i < s.len(),
        b.asset == s[i].asset,
        a != b.asset,
    ensures
        book_iss(s.update(i, b), a) == book_iss(s, a),
        book_sum(s.update(i, b), a) == book_sum(s, a),
        forall|c: AccountId| book_bal(s.update(i, b), a, c) == book_bal(s, a, c),
    decreases i,
{
    let s2 = s.update(i, b);
    if i == 0 {
        assert(s2[0] == b);
        assert(s2.drop_first() =~= s.drop_first());
        assert forall|c: AccountId| book_bal(s2, a, c) == book_bal(s, a, c) by {
            assert(book_bal(s2, a, c) == book_bal(s2.drop_first(), a, c));
            assert(book_bal(s, a, c) == book_bal(s.drop_first(), a, c));
        }
    } else {
        assert(s2[0] == s[0]);
        if s[0].asset != a {
            assert(s2.drop_first() =~= s.drop_first().update(i - 1, b));
            lemma_book_update_other(s.drop_first(), i - 1, b, a);
            assert forall|c: AccountId| book_bal(s2, a, c) == book_bal(s, a, c) by {
                assert(book_bal(s2, a, c) == book_bal(s2.drop_first(), a, c));
                assert(book_bal(s, a, c) == book_bal(s.drop_first(), a, c));
            }
        } else {
            assert forall|c: AccountId| book_bal(s2, a, c) == book_bal(s, a, c) by {
                assert(book_bal(s2, a, c) == bal_in(s2[0].balances@, c));
                assert(book_bal(s, a, c) == bal_in(s[0].balances@, c));
            }
        }
    }
}

proof fn lemma_book_push_other(s: Seq<AssetBook>, b: AssetBook, a: AssetId)
    requires
        a != b.asset,
    ensures
        book_iss(s.push(b), a) == book_iss(s, a),
        book_sum(s.push(b), a) == book_sum(s, a),
        forall|c: AccountId| book_bal(s.push(b), a, c) == book_bal(s, a, c),
    decreases s.len(),
{
    let s2 = s.push(b);
    if s.len() == 0 {
        assert(s2[0] == b);
        assert(s2.drop_first() =~= Seq::<AssetBook>::empty());
        assert(book_iss(s2, a) == book_iss(s2.drop_first(), a));
        assert(book_sum(s2, a) == book_sum(s2.drop_first(), a));
        assert forall|c: AccountId| book_bal(s2, a, c) == book_bal(s, a, c) by {
            assert(book_bal(s2, a, c) == book_bal(s2.drop_first(), a, c));
        }
    } else {
        assert(s2[0] == s[0]);
        if s[0].asset != a {
            assert(s2.drop_first() =~= s.drop_first().push(b));
            lemma_book_push_other(s.drop_first(), b, a);
            assert(book_iss(s2, a) == book_iss(s2.drop_first(), a));
            assert(book_sum(s2, a) == book_sum(s2.drop_first(), a));
            assert forall|c: AccountId| book_bal(s2, a, c) == book_bal(s, a, c) by {
                assert(book_bal(s2, a, c) == book_bal(s2.drop_first(), a, c));
                assert(book_bal(s, a, c) == book_bal(s.drop_first(), a, c));
            }
        } else {
            assert forall|c: AccountId| book_bal(s2, a, c) == book_bal(s, a, c) by {
                assert(book_bal(s2, a, c) == bal_in(s2[0].balances@, c));
                assert(book_bal(s, a, c) == bal_in(s[0].balances@, c));
            }
        }
    }
}

proof fn lemma_book_bal_le_sum(s: Seq<AssetBook>, asset: AssetId, account: AccountId)
    ensures
        book_bal(s, asset, account) <= book_sum(s, asset),
    decreases s.len(),
{
    if s.len() > 0 {
        if s[0].asset == asset {
            lemma_bal_le_sum(s[0].balances@, account);
        } else {
            lemma_book_bal_le_sum(s.drop_first(), asset, account);
        }
    }
}

proof fn lemma_two_bals_le_sum(s: Seq<BalanceEntry>, c1: AccountId, c2: AccountId)
    requires
        c1 != c2,
    ensures
        bal_in(s, c1) + bal_in(s, c2) <= sum_amounts(s),
    decreases s.len(),
{
    if s.len() > 0 {
        if s[0].account == c1 {
            lemma_bal_le_sum(s.drop_first(), c2);
        } else if s[0].account == c2 {
            lemma_bal_le_sum(s.drop_first(), c1);
        } else {
            lemma_two_bals_le_sum(s.drop_first(), c1, c2);
        }
        lemma_sum_nonneg(s.drop_first());
    }
}

proof fn lemma_book_two_bals_le_sum(s: Seq<AssetBook>, asset: AssetId, c1: AccountId, c2: AccountId)
    requires
        c1 != c2,
    ensures
        book_bal(s, asset, c1) + book_bal(s, asset, c2) <= book_sum(s, asset),
    decreases s.len(),
{
    if s.len() > 0 {
        if s[0].asset == asset {
            lemma_two_bals_le_sum(s[0].balances@, c1, c2);
        } else {
            lemma_book_two_bals_le_sum(s.drop_first(), asset, c1, c2);
        }
    }
}

/// In a conserved ledger two distinct accounts together never hold more
/// of an asset than its total issuance. In particular a transfer whose
/// sender can cover `amount` can never overflow the receiver's balance:
/// the `BalanceOverflow` branch of `transfer` is unreachable from
/// conserved states.
pub proof fn lemma_transfer_receiver_fits(
    l: &Ledger,
    asset: AssetId,
    from: AccountId,
    to: AccountId,
    amount: Balance,
)
    requires
        l.conserved(),
        from != to,
        l.balance_of(asset, from) >= amount,
    ensures
        l.balance_of(asset, to) + amount <= Balance::MAX,
{
    lemma_book_two_bals_le_sum(l.books@, asset, from, to);
    assert(l.issuance_of(asset) as int == l.sum_of(asset));
    assert(l.balance_of(asset, from) + l.balance_of(asset, to) <= l.sum_of(asset));
}

/// In a conserved ledger no account can hold more of an asset than the
/// asset's total issuance, so withdraw's defensive issuance-underflow
/// check can never fire after a sufficient-balance check passes.
pub proof fn lemma_balance_le_issuance(l: &Ledger, asset: AssetId, account: AccountId)
    requires
        l.conserved(),
    ensures
        l.balance_of(asset, account) <= l.issuance_of(asset),
{
    lemma_book_bal_le_sum(l.books@, asset, account);
}

// ---------------------------------------------------------------------
// Executable operations.
// ---------------------------------------------------------------------

fn find_entry(entries: &Vec<BalanceEntry>, account: AccountId) -> (r: Option<usize>)
    ensures
        match r {
            Some(e) => e < entries@.len() && entries@[e as int].account == account && forall|
                j: int,
            | 0 <= j < e ==> entries@[j].account != account,
            None => forall|j: int| 0 <= j < entries@.len() ==> entries@[j].account != account,
        },
{
    let mut k: usize = 0;
    while k < entries.len()
        invariant
            k <= entries@.len(),
            forall|j: int| 0 <= j < k ==> entries@[j].account != account,
        decreases entries@.len() - k,
    {
        if entries[k].account == account {
            return Some(k);
        }
        k += 1;
    }
    None
}

impl Ledger {
    /// An empty ledger: every balance and every issuance is zero.
    pub fn new() -> (r: Ledger)
        ensures
            r.wf(),
            r.conserved(),
            forall|a: AssetId, c: AccountId| r.balance_of(a, c) == 0,
            forall|a: AssetId| r.issuance_of(a) == 0,
            forall|a: AssetId| r.sum_of(a) == 0,
    {
        let l = Ledger { books: Vec::new() };
        proof {
            assert forall|a: AssetId| l.issuance_of(a) == 0 && l.sum_of(a) == 0 by {
                lemma_book_absent(l.books@, a);
            }
            assert forall|a: AssetId, c: AccountId| l.balance_of(a, c) == 0 by {
                lemma_book_absent(l.books@, a);
            }
        }
        l
    }

    fn find_book(&self, asset: AssetId) -> (r: Option<usize>)
        ensures
            match r {
                Some(i) => i < self.books@.len() && self.books@[i as int].asset == asset && forall|
                    j: int,
                | 0 <= j < i ==> self.books@[j].asset != asset,
                None => forall|j: int| 0 <= j < self.books@.len() ==> self.books@[j].asset != asset,
            },
    {
        let mut k: usize = 0;
        while k < self.books.len()
            invariant
                k <= self.books@.len(),
                forall|j: int| 0 <= j < k ==> self.books@[j].asset != asset,
            decreases self.books@.len() - k,
        {
            if self.books[k].asset == asset {
                return Some(k);
            }
            k += 1;
        }
        None
    }

    /// Pure read of an account's balance; zero for unknown pairs.
    pub fn balance(&self, asset: AssetId, account: AccountId) -> (r: Balance)
        ensures
            r == self.balance_of(asset, account),
    {
        match self.find_book(asset) {
            None => {
                proof {
                    lemma_book_absent(self.books@, asset);
                }
                0
            },
            Some(i) => {
                proof {
                    lemma_book_at(self.books@, i as int);
                }
                match find_entry(&self.books[i].balances, account) {
                    None => {
                        proof {
                            lemma_bal_absent(self.books@[i as int].balances@, account);
                        }
                        0
                    },
                    Some(e) => {
                        proof {
                            lemma_bal_at(self.books@[i as int].balances@, e as int);
                        }
                        self.books[i].balances[e].amount
                    },
                }
            },
        }
    }

    /// Pure read of an asset's total issuance; zero for unknown assets.
    pub fn total_issuance(&self, asset: AssetId) -> (r: Balance)
        ensures
            r == self.issuance_of(asset),
    {
        match self.find_book(asset) {
            None => {
                proof {
                    lemma_book_absent(self.books@, asset);
                }
                0
            },
            Some(i) => {
                proof {
                    lemma_book_at(self.books@, i as int);
                }
                self.books[i].issuance
            },
        }
    }

    /// Point write of one balance cell, as the host storage map's raw
    /// insert would do. Leaves every issuance untouched, so it can drive
    /// the ledger out of conservation; `deposit`/`withdraw`/`transfer`
    /// never can.
    pub fn insert_balance(&mut self, asset: AssetId, account: AccountId, value: Balance)
        requires
            old(self).wf(),
        ensures
            final(self).wf(),
            final(self).balance_of(asset, account) == value,
            forall|a: AssetId, c: AccountId|
                !(a == asset && c == account) ==> final(self).balance_of(a, c) == old(
                    self,
                ).balance_of(a, c),
            forall|a: AssetId| final(self).issuance_of(a) == old(self).issuance_of(a),
            final(self).sum_of(asset) == old(self).sum_of(asset) - old(self).balance_of(
                asset,
                account,
            ) + value,
            forall|a: AssetId| a != asset ==> final(self).sum_of(a) == old(self).sum_of(a),
    {
        let ghost s0 = self.books@;
        match self.find_book(asset) {
            None => {
                proof {
                    lemma_book_absent(s0, asset);
                }
                let mut entries: Vec<BalanceEntry> = Vec::new();
                entries.push(BalanceEntry { account, amount: value });
                let book = AssetBook { asset, issuance: 0, balances: entries };
                let ghost gbook = book;
                self.books.push(book);
                proof {
                    assert(self.books@ == s0.push(gbook));
                    lemma_book_at(self.books@, s0.len() as int);
                    assert(gbook.balances@ =~= Seq::<BalanceEntry>::empty().push(
                        BalanceEntry { account, amount: value },
                    ));
                    lemma_sum_push(Seq::<BalanceEntry>::empty(), BalanceEntry { account, amount: value });
                    assert forall|c: AccountId|
                        c != account implies bal_in(gbook.balances@, c) == 0 by {
                        lemma_bal_absent(gbook.balances@, c);
                    }
                    assert(bal_in(gbook.balances@, account) == value);
                    assert forall|a: AssetId|
                        a != asset implies book_iss(self.books@, a) == book_iss(s0, a) && book_sum(
                        self.books@,
                        a,
                    ) == book_sum(s0, a) by {
                        lemma_book_push_other(s0, gbook, a);
                    }
                    assert forall|a: AssetId, c: AccountId|
                        !(a == asset && c == account) implies book_bal(self.books@, a, c)
                            == book_bal(s0, a, c) by {
                        if a != asset {
                            lemma_book_push_other(s0, gbook, a);
                        } else {
                            lemma_bal_absent(gbook.balances@.drop_first(), c);
                            assert(book_bal(self.books@, asset, c) == bal_in(gbook.balances@, c));
                            assert(bal_in(gbook.balances@, c) == 0);
                            assert(book_bal(s0, asset, c) == 0);
                        }
                    }
                }
            },
            Some(i) => {
                proof {
                    lemma_book_at(s0, i as int);
                }
                let mut book = self.books.remove(i);
                let ghost e0 = book.balances@;
                match find_entry(&book.balances, account) {
                    None => {
                        proof {
                            lemma_bal_absent(e0, account);
                        }
                        book.balances.push(BalanceEntry { account, amount: value });
                        proof {
                            lemma_sum_push(e0, BalanceEntry { account, amount: value });
                            lemma_bal_at(book.balances@, e0.len() as int);
                            assert forall|c: AccountId|
                                c != account implies bal_in(book.balances@, c) == bal_in(
                                e0,
                                c,
                            ) by {
                                lemma_bal_push_other(e0, BalanceEntry { account, amount: value }, c);
                            }
                        }
                    },
                    Some(e) => {
                        proof {
                            lemma_bal_at(e0, e as int);
                            lemma_sum_update(e0, e as int, BalanceEntry { account, amount: value });
                        }
                        book.balances.set(e, BalanceEntry { account, amount: value });
                        proof {
                            lemma_bal_at(book.balances@, e as int);
                            assert forall|c: AccountId|
                                c != account implies bal_in(book.balances@, c) == bal_in(
                                e0,
                                c,
                            ) by {
                                lemma_bal_update_other(
                                    e0,
                                    e as int,
                                    BalanceEntry { account, amount: value },
                                    c,
                                );
                            }
                        }
                    },
                }
                let ghost gbook = book;
                self.books.insert(i, book);
                proof {
                    assert(self.books@ =~= s0.update(i as int, gbook));
                    lemma_book_at(self.books@, i as int);
                    assert forall|a: AssetId|
                        a != asset implies book_iss(self.books@, a) == book_iss(s0, a) && book_sum(
                        self.books@,
                        a,
                    ) == book_sum(s0, a) by {
                        lemma_book_update_other(s0, i as int, gbook, a);
                    }
                    assert forall|a: AssetId, c: AccountId|
                        !(a == asset && c == account) implies book_bal(self.books@, a, c)
                            == book_bal(s0, a, c) by {
                        if a != asset {
                            lemma_book_update_other(s0, i as int, gbook, a);
                        } else {
                            assert(book_bal(self.books@, asset, c) == bal_in(gbook.balances@, c));
                            assert(bal_in(gbook.balances@, c) == bal_in(e0, c));
                            assert(book_bal(s0, asset, c) == bal_in(e0, c));
                        }
                    }
                }
            },
        }
    }

    /// Point write of one asset's total issuance, as the host storage
    /// map's raw insert would do. Leaves every balance untouched.
    pub fn insert_total_issuance(&mut self, asset: AssetId, value: Balance)
        requires
            old(self).wf(),
        ensures
            final(self).wf(),
            final(self).issuance_of(asset) == value,
            forall|a: AssetId| a != asset ==> final(self).issuance_of(a) == old(self).issuance_of(a),
            forall|a: AssetId, c: AccountId|
                final(self).balance_of(a, c) == old(self).balance_of(a, c),
            forall|a: AssetId| final(self).sum_of(a) == old(self).sum_of(a),
    {
        let ghost s0 = self.books@;
        match self.find_book(asset) {
            None => {
                proof {
                    lemma_book_absent(s0, asset);
                }
                let book = AssetBook { asset, issuance: value, balances: Vec::new() };
                let ghost gbook = book;
                self.books.push(book);
                proof {
                    assert(self.books@ == s0.push(gbook));
                    lemma_book_at(self.books@, s0.len() as int);
                    assert forall|c: AccountId| bal_in(gbook.balances@, c) == 0 by {
                        lemma_bal_absent(gbook.balances@, c);
                    }
                    assert forall|a: AssetId|
                        a != asset implies book_iss(self.books@, a) == book_iss(s0, a) && book_sum(
                        self.books@,
                        a,
                    ) == book_sum(s0, a) by {
                        lemma_book_push_other(s0, gbook, a);
                    }
                    assert forall|a: AssetId, c: AccountId|
                        book_bal(self.books@, a, c) == book_bal(s0, a, c) by {
                        if a != asset {
                            lemma_book_push_other(s0, gbook, a);
                        } else {
                            lemma_bal_absent(gbook.balances@, c);
                            assert(book_bal(self.books@, asset, c) == bal_in(gbook.balances@, c));
                            assert(book_bal(s0, asset, c) == 0);
                        }
                    }
                }
            },
            Some(i) => {
                proof {
                    lemma_book_at(s0, i as int);
                }
                let mut book = self.books.remove(i);
                book.issuance = value;
                let ghost gbook = book;
                self.books.insert(i, book);
                proof {
                    assert(self.books@ =~= s0.update(i as int, gbook));
                    lemma_book_at(self.books@, i as int);
                    assert forall|a: AssetId|
                        a != asset implies book_iss(self.books@, a) == book_iss(s0, a) && book_sum(
                        self.books@,
                        a,
                    ) == book_sum(s0, a) by {
                        lemma_book_update_other(s0, i as int, gbook, a);
                    }
                    assert forall|a: AssetId, c: AccountId|
                        book_bal(self.books@, a, c) == book_bal(s0, a, c) by {
                        if a != asset {
                            lemma_book_update_other(s0, i as int, gbook, a);
                        } else {
                            assert(book_bal(self.books@, asset, c) == bal_in(gbook.balances@, c));
                            assert(book_bal(s0, asset, c) == bal_in(gbook.balances@, c));
                        }
                    }
                }
            },
        }
    }

    /// Increase `account`'s balance and `asset`'s issuance by `amount`,
    /// or fail with no change at all: `TotalIssuanceOverflow` when the
    /// issuance would pass the balance type's maximum (checked first),
    /// `BalanceOverflow` when the account's balance would.
    pub fn deposit(&mut self, asset: AssetId, account: AccountId, amount: Balance) -> (r: Result<
        (),
        LedgerError,
    >)
        requires
            old(self).wf(),
        ensures
            final(self).wf(),
            old(self).conserved() ==> final(self).conserved(),
            match r {
                Ok(()) => {
                    &&& old(self).issuance_of(asset) + amount <= Balance::MAX
                    &&& old(self).balance_of(asset, account) + amount <= Balance::MAX
                    &&& final(self).balance_of(asset, account) == old(self).balance_of(
                        asset,
                        account,
                    ) + amount
                    &&& final(self).issuance_of(asset) == old(self).issuance_of(asset) + amount
                    &&& final(self).sum_of(asset) == old(self).sum_of(asset) + amount
                    &&& forall|a: AssetId, c: AccountId|
                        !(a == asset && c == account) ==> final(self).balance_of(a, c) == old(
                            self,
                        ).balance_of(a, c)
                    &&& forall|a: AssetId|
                        a != asset ==> final(self).issuance_of(a) == old(self).issuance_of(a)
                    &&& forall|a: AssetId|
                        a != asset ==> final(self).sum_of(a) == old(self).sum_of(a)
                },
                Err(LedgerError::TotalIssuanceOverflow) => {
                    &&& old(self).issuance_of(asset) + amount > Balance::MAX
                    &&& *final(self) == *old(self)
                },
                Err(LedgerError::BalanceOverflow) => {
                    &&& old(self).issuance_of(asset) + amount <= Balance::MAX
                    &&& old(self).balance_of(asset, account) + amount > Balance::MAX
                    &&& *final(self) == *old(self)
                },
                _ => false,
            },
    {
        let iss = self.total_issuance(asset);
        if amount > Balance::MAX - iss {
            return Err(LedgerError::TotalIssuanceOverflow);
        }
        let bal = self.balance(asset, account);
        if amount > Balance::MAX - bal {
            return Err(LedgerError::BalanceOverflow);
        }
        self.insert_balance(asset, account, bal + amount);
        self.insert_total_issuance(asset, iss + amount);
        Ok(())
    }

    /// Decrease `account`'s balance and `asset`'s issuance by `amount`,
    /// or fail with no change at all: `TotalIssuanceUnderflow` when the
    /// issuance would go negative (a defensive check, unreachable in a
    /// conserved ledger once the balance check passes — see
    /// `lemma_balance_le_issuance`), `InsufficientBalance` when the
    /// account holds less than `amount`.
    pub fn withdraw(&mut self, asset: AssetId, account: AccountId, amount: Balance) -> (r: Result<
        (),
        LedgerError,
    >)
        requires
            old(self).wf(),
        ensures
            final(self).wf(),
            old(self).conserved() ==> final(self).conserved(),
            match r {
                Ok(()) => {
                    &&& old(self).issuance_of(asset) >= amount
                    &&& old(self).balance_of(asset, account) >= amount
                    &&& final(self).balance_of(asset, account) == old(self).balance_of(
                        asset,
                        account,
                    ) - amount
                    &&& final(self).issuance_of(asset) == old(self).issuance_of(asset) - amount
                    &&& final(self).sum_of(asset) == old(self).sum_of(asset) - amount
                    &&& forall|a: AssetId, c: AccountId|
                        !(a == asset && c == account) ==> final(self).balance_of(a, c) == old(
                            self,
                        ).balance_of(a, c)
                    &&& forall|a: AssetId|
                        a != asset ==> final(self).issuance_of(a) == old(self).issuance_of(a)
                    &&& forall|a: AssetId|
                        a != asset ==> final(self).sum_of(a) == old(self).sum_of(a)
                },
                Err(LedgerError::TotalIssuanceUnderflow) => {
                    &&& old(self).issuance_of(asset) < amount
                    &&& *final(self) == *old(self)
                },
                Err(LedgerError::InsufficientBalance) => {
                    &&& old(self).issuance_of(asset) >= amount
                    &&& old(self).balance_of(asset, account) < amount
                    &&& *final(self) == *old(self)
                },
                _ => false,
            },
    {
        let iss = self.total_issuance(asset);
        if iss < amount {
            return Err(LedgerError::TotalIssuanceUnderflow);
        }
        let bal = self.balance(asset, account);
        if bal < amount {
            return Err(LedgerError::InsufficientBalance);
        }
        self.insert_balance(asset, account, bal - amount);
        self.insert_total_issuance(asset, iss - amount);
        Ok(())
    }

    /// Move `amount` from `from` to `to` within one asset, or fail with
    /// no change at all. Never touches any total issuance. A transfer to
    /// oneself succeeds without effect whenever the balance suffices.
    /// `BalanceOverflow` on the receiver is impossible in a conserved
    /// ledger (see `lemma_transfer_receiver_fits`) but is checked and
    /// reported rather than assumed away.
    pub fn transfer(
        &mut self,
        asset: AssetId,
        from: AccountId,
        to: AccountId,
        amount: Balance,
    ) -> (r: Result<(), LedgerError>)
        requires
            old(self).wf(),
        ensures
            final(self).wf(),
            old(self).conserved() ==> final(self).conserved(),
            forall|a: AssetId| final(self).issuance_of(a) == old(self).issuance_of(a),
            forall|a: AssetId| final(self).sum_of(a) == old(self).sum_of(a),
            match r {
                Ok(()) => {
                    &&& old(self).balance_of(asset, from) >= amount
                    &&& (from == to ==> *final(self) == *old(self))
                    &&& (from != to ==> {
                        &&& old(self).balance_of(asset, to) + amount <= Balance::MAX
                        &&& final(self).balance_of(asset, from) == old(self).balance_of(
                            asset,
                            from,
                        ) - amount
                        &&& final(self).balance_of(asset, to) == old(self).balance_of(asset, to)
                            + amount
                    })
                    &&& forall|a: AssetId, c: AccountId|
                        !(a == asset && (c == from || c == to)) ==> final(self).balance_of(a, c)
                            == old(self).balance_of(a, c)
                },
                Err(LedgerError::InsufficientBalance) => {
                    &&& old(self).balance_of(asset, from) < amount
                    &&& *final(self) == *old(self)
                },
                Err(LedgerError::BalanceOverflow) => {
                    &&& from != to
                    &&& old(self).balance_of(asset, from) >= amount
                    &&& old(self).balance_of(asset, to) + amount > Balance::MAX
                    &&& *final(self) == *old(self)
                },
                _ => false,
            },
    {
        let from_bal = self.balance(asset, from);
        if from_bal < amount {
            return Err(LedgerError::InsufficientBalance);
        }
        if from == to {
            return Ok(());
        }
        let to_bal = self.balance(asset, to);
        if amount > Balance::MAX - to_bal {
            return Err(LedgerError::BalanceOverflow);
        }
        self.insert_balance(asset, from, from_bal - amount);
        self.insert_balance(asset, to, to_bal + amount);
        Ok(())
    }

    /// The fungible-provider face of `withdraw`: remove `amount` from
    /// `account` (and from the issuance) and hand it back as a `Credit`
    /// that must be resolved or explicitly discarded. Error conditions
    /// and atomicity are exactly those of `withdraw`.
    pub fn withdraw_to_credit(&mut self, asset: AssetId, account: AccountId, amount: Balance) -> (r:
        Result<Credit, LedgerError>)
        requires
            old(self).wf(),
        ensures
            final(self).wf(),
            old(self).conserved() ==> final(self).conserved(),
            match r {
                Ok(c) => {
                    &&& c.spec_asset() == asset
                    &&& c.spec_amount() == amount
                    &&& old(self).issuance_of(asset) >= amount
                    &&& old(self).balance_of(asset, account) >= amount
                    &&& final(self).balance_of(asset, account) == old(self).balance_of(
                        asset,
                        account,
                    ) - amount
                    &&& final(self).issuance_of(asset) == old(self).issuance_of(asset) - amount
                    &&& final(self).sum_of(asset) == old(self).sum_of(asset) - amount
                    &&& forall|a: AssetId, c2: AccountId|
                        !(a == asset && c2 == account) ==> final(self).balance_of(a, c2) == old(
                            self,
                        ).balance_of(a, c2)
                    &&& forall|a: AssetId|
                        a != asset ==> final(self).issuance_of(a) == old(self).issuance_of(a)
                    &&& forall|a: AssetId|
                        a != asset ==> final(self).sum_of(a) == old(self).sum_of(a)
                },
                Err(LedgerError::TotalIssuanceUnderflow) => {
                    &&& old(self).issuance_of(asset) < amount
                    &&& *final(self) == *old(self)
                },
                Err(LedgerError::InsufficientBalance) => {
                    &&& old(self).issuance_of(asset) >= amount
                    &&& old(self).balance_of(asset, account) < amount
                    &&& *final(self) == *old(self)
                },
                _ => false,
            },
    {
        match self.withdraw(asset, account, amount) {
            Ok(()) => Ok(Credit { asset, amount }),
            Err(e) => Err(e),
        }
    }

    /// Resolve a credit into `account`: the deposit half of the
    /// fungible-provider interface. On failure the untouched credit is
    /// handed back, so the caller decides whether to retry or burn it.
    pub fn resolve(&mut self, account: AccountId, credit: Credit) -> (r: Result<(), Credit>)
        requires
            old(self).wf(),
        ensures
            final(self).wf(),
            old(self).conserved() ==> final(self).conserved(),
            match r {
                Ok(()) => {
                    &&& can_deposit(*old(self), credit.spec_asset(), account, credit.spec_amount())
                    &&& final(self).balance_of(credit.spec_asset(), account) == old(
                        self,
                    ).balance_of(credit.spec_asset(), account) + credit.spec_amount()
                    &&& final(self).issuance_of(credit.spec_asset()) == old(self).issuance_of(
                        credit.spec_asset(),
                    ) + credit.spec_amount()
                    &&& final(self).sum_of(credit.spec_asset()) == old(self).sum_of(
                        credit.spec_asset(),
                    ) + credit.spec_amount()
                    &&& forall|a: AssetId, c2: AccountId|
                        !(a == credit.spec_asset() && c2 == account) ==> final(self).balance_of(
                            a,
                            c2,
                        ) == old(self).balance_of(a, c2)
                    &&& forall|a: AssetId|
                        a != credit.spec_asset() ==> final(self).issuance_of(a) == old(
                            self,
                        ).issuance_of(a)
                    &&& forall|a: AssetId|
                        a != credit.spec_asset() ==> final(self).sum_of(a) == old(self).sum_of(a)
                },
                Err(c2) => {
                    &&& c2 == credit
                    &&& !can_deposit(*old(self), credit.spec_asset(), account, credit.spec_amount())
                    &&& *final(self) == *old(self)
                },
            },
    {
        let asset = credit.asset;
        let amount = credit.amount;
        match self.deposit(asset, account, amount) {
            Ok(()) => Ok(()),
            Err(_) => Err(credit),
        }
    }
}

} // verus!
