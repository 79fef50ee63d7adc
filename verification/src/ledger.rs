use vstd::prelude::*;

use crate::account::Account;
use crate::account::AccountV;
use crate::config::RepoConfig;
use crate::config::RepoConfigV;
use crate::error::Error;
use crate::transaction::Transaction;
use crate::transaction::TransactionV;
use crate::transaction::extract_transaction;
use crate::transaction::is_ledger_message;
use crate::transaction::spec_extract;
use crate::transaction::spec_message;
use crate::transaction::starts_with_marker;

verus! {

// --- Balance aggregation over an association sequence ---

/// Adds `d` to the balance of `k`: updates the first entry with that key, or
/// appends a fresh entry holding `d` (a new account starts at zero).
pub open spec fn apply_delta(s: Seq<(AccountV, int)>, k: AccountV, d: int) -> Seq<(AccountV, int)>
    decreases s.len(),
{
    if s.len() == 0 {
        seq![(k, d)]
    } else if s[0].0 == k {
        seq![(k, s[0].1 + d)] + s.drop_first()
    } else {
        seq![s[0]] + apply_delta(s.drop_first(), k, d)
    }
}

/// The balance recorded for `k` (zero when `k` has no entry).
pub open spec fn lookup(s: Seq<(AccountV, int)>, k: AccountV) -> int
    decreases s.len(),
{
    if s.len() == 0 {
        0
    } else if s[0].0 == k {
        s[0].1
    } else {
        lookup(s.drop_first(), k)
    }
}

/// One transaction applied to the balances: the amount leaves `from` and
/// arrives at `to`.
pub open spec fn apply_tx(s: Seq<(AccountV, int)>, t: TransactionV) -> Seq<(AccountV, int)> {
    apply_delta(apply_delta(s, t.from, -(t.amount as int)), t.to, t.amount as int)
}

/// The balances after a transaction sequence: a strict left fold in
/// chronological order, entries in order of first appearance.
pub open spec fn balances_seq(txs: Seq<TransactionV>) -> Seq<(AccountV, int)>
    decreases txs.len(),
{
    if txs.len() == 0 {
        Seq::empty()
    } else {
        apply_tx(balances_seq(txs.drop_last()), txs.last())
    }
}

/// The sum of all recorded balances.
pub open spec fn sum_snd(s: Seq<(AccountV, int)>) -> int
    decreases s.len(),
{
    if s.len() == 0 {
        0
    } else {
        sum_snd(s.drop_first()) + s[0].1
    }
}

/// Adding `d` to one account's balance adds `d` to the total.
proof fn lemma_sum_delta(s: Seq<(AccountV, int)>, k: AccountV, d: int)
    ensures
        sum_snd(apply_delta(s, k, d)) == sum_snd(s) + d,
    decreases s.len(),
{
    if s.len() == 0 {
        let r = apply_delta(s, k, d);
        assert(r.drop_first() =~= Seq::<(AccountV, int)>::empty());
        assert(sum_snd(Seq::<(AccountV, int)>::empty()) == 0);
        assert(sum_snd(r) == d);
    } else if s[0].0 == k {
        let r = apply_delta(s, k, d);
        assert(r[0] == (k, s[0].1 + d));
        assert(r.drop_first() =~= s.drop_first());
    } else {
        lemma_sum_delta(s.drop_first(), k, d);
        let r = apply_delta(s, k, d);
        assert(r[0] == s[0]);
        assert(r.drop_first() =~= apply_delta(s.drop_first(), k, d));
    }
}

/// Conservation: every transaction moves value without creating or
/// destroying it, so the balances of any transaction sequence sum to zero.
pub proof fn lemma_conservation(txs: Seq<TransactionV>)
    ensures
        sum_snd(balances_seq(txs)) == 0,
    decreases txs.len(),
{
    if txs.len() > 0 {
        lemma_conservation(txs.drop_last());
        let prev = balances_seq(txs.drop_last());
        let t = txs.last();
        lemma_sum_delta(prev, t.from, -(t.amount as int));
        lemma_sum_delta(apply_delta(prev, t.from, -(t.amount as int)), t.to, t.amount as int);
    }
}

/// Whether some entry records a balance for `k`.
pub open spec fn has_key(s: Seq<(AccountV, int)>, k: AccountV) -> bool {
    exists|i: int| 0 <= i < s.len() && s[i].0 == k
}

/// Whether no two entries record the same account.
pub open spec fn unique_keys(s: Seq<(AccountV, int)>) -> bool {
    forall|i: int, j: int| 0 <= i < j < s.len() ==> s[i].0 != s[j].0
}

/// [`apply_delta`] keeps the keys unique and adds at most the touched key.
proof fn lemma_apply_delta_keys(s: Seq<(AccountV, int)>, k: AccountV, d: int)
    requires
        unique_keys(s),
    ensures
        unique_keys(apply_delta(s, k, d)),
        forall|k2: AccountV|
            #[trigger] has_key(apply_delta(s, k, d), k2) <==> has_key(s, k2) || k2 == k,
    decreases s.len(),
{
    let r = apply_delta(s, k, d);
    if s.len() == 0 {
        assert forall|k2: AccountV| has_key(r, k2) implies has_key(s, k2) || k2 == k by {
            let i = choose|i: int| 0 <= i < r.len() && r[i].0 == k2;
            assert(r[0].0 == k);
        }
        assert(r[0].0 == k);
        assert(has_key(r, k));
    } else if s[0].0 == k {
        assert(r[0] == (k, s[0].1 + d));
        assert(r.drop_first() =~= s.drop_first());
        assert forall|i: int, j: int| 0 <= i < j < r.len() implies r[i].0 != r[j].0 by {
            assert(r[j].0 == s[j].0);
            if i > 0 {
                assert(r[i].0 == s[i].0);
            }
        }
        assert forall|k2: AccountV| has_key(r, k2) implies has_key(s, k2) || k2 == k by {
            let i = choose|i: int| 0 <= i < r.len() && r[i].0 == k2;
            if i > 0 {
                assert(s[i].0 == k2);
            }
        }
        assert forall|k2: AccountV| has_key(s, k2) || k2 == k implies has_key(r, k2) by {
            if k2 == k {
                assert(r[0].0 == k2);
            } else {
                let i = choose|i: int| 0 <= i < s.len() && s[i].0 == k2;
                assert(i > 0);
                assert(r[i].0 == k2);
            }
        }
    } else {
        assert(forall|i: int|
            0 <= i < s.drop_first().len() ==> #[trigger] s.drop_first()[i].0 == s[i + 1].0);
        assert(unique_keys(s.drop_first()));
        lemma_apply_delta_keys(s.drop_first(), k, d);
        let rr = apply_delta(s.drop_first(), k, d);
        assert(r[0] == s[0]);
        assert(r.drop_first() =~= rr);
        assert(!has_key(s.drop_first(), s[0].0)) by {
            if has_key(s.drop_first(), s[0].0) {
                let i = choose|i: int|
                    0 <= i < s.drop_first().len() && s.drop_first()[i].0 == s[0].0;
                assert(s[i + 1].0 == s[0].0);
            }
        }
        assert(!has_key(rr, s[0].0));
        assert forall|i: int, j: int| 0 <= i < j < r.len() implies r[i].0 != r[j].0 by {
            if i == 0 {
                assert(r[j].0 == rr[j - 1].0);
                assert(rr[j - 1].0 != s[0].0) by {
                    if rr[j - 1].0 == s[0].0 {
                        assert(has_key(rr, s[0].0));
                    }
                }
            } else {
                assert(r[i].0 == rr[i - 1].0);
                assert(r[j].0 == rr[j - 1].0);
            }
        }
        assert forall|k2: AccountV| has_key(r, k2) implies has_key(s, k2) || k2 == k by {
            let i = choose|i: int| 0 <= i < r.len() && r[i].0 == k2;
            if i == 0 {
                assert(s[0].0 == k2);
            } else {
                assert(rr[i - 1].0 == k2);
                assert(has_key(rr, k2));
                if has_key(s.drop_first(), k2) {
                    let m = choose|m: int|
                        0 <= m < s.drop_first().len() && s.drop_first()[m].0 == k2;
                    assert(s[m + 1].0 == k2);
                }
            }
        }
        assert forall|k2: AccountV| has_key(s, k2) || k2 == k implies has_key(r, k2) by {
            if has_key(s, k2) {
                let i = choose|i: int| 0 <= i < s.len() && s[i].0 == k2;
                if i == 0 {
                    assert(r[0].0 == k2);
                } else {
                    assert(s.drop_first()[i - 1].0 == k2);
                    assert(has_key(s.drop_first(), k2));
                    assert(has_key(rr, k2));
                    let m = choose|m: int| 0 <= m < rr.len() && rr[m].0 == k2;
                    assert(r[m + 1].0 == k2);
                }
            } else {
                assert(has_key(rr, k2));
                let m = choose|m: int| 0 <= m < rr.len() && rr[m].0 == k2;
                assert(r[m + 1].0 == k2);
            }
        }
    }
}

/// The balances form a mapping: no account has two entries.
pub proof fn lemma_balances_keys_unique(txs: Seq<TransactionV>)
    ensures
        unique_keys(balances_seq(txs)),
    decreases txs.len(),
{
    if txs.len() > 0 {
        lemma_balances_keys_unique(txs.drop_last());
        let prev = balances_seq(txs.drop_last());
        let t = txs.last();
        lemma_apply_delta_keys(prev, t.from, -(t.amount as int));
        lemma_apply_delta_keys(apply_delta(prev, t.from, -(t.amount as int)), t.to, t.amount as int);
    }
}

// --- Whether the i32 arithmetic of the fold stays in range ---

/// Whether applying one transaction keeps both touched balances within
/// `i32` range, in the order the fold performs the two updates.
pub open spec fn tx_fits(s: Seq<(AccountV, int)>, t: TransactionV) -> bool {
    let v1 = lookup(s, t.from) - t.amount;
    let s1 = apply_delta(s, t.from, -(t.amount as int));
    let v2 = lookup(s1, t.to) + t.amount;
    i32::MIN <= v1 <= i32::MAX && i32::MIN <= v2 <= i32::MAX
}

/// Whether the whole fold stays within `i32` range at every step.
pub open spec fn balances_fit(txs: Seq<TransactionV>) -> bool
    decreases txs.len(),
{
    if txs.len() == 0 {
        true
    } else {
        balances_fit(txs.drop_last()) && tx_fits(balances_seq(txs.drop_last()), txs.last())
    }
}

/// A step that does not fit makes the whole fold not fit.
proof fn lemma_unfit(txs: Seq<TransactionV>, k: int)
    requires
        0 <= k < txs.len(),
        !tx_fits(balances_seq(txs.take(k)), txs[k]),
    ensures
        !balances_fit(txs),
    decreases txs.len() - k,
{
    if k == txs.len() - 1 {
        assert(txs.take(k) =~= txs.drop_last());
        assert(txs.last() == txs[k]);
    } else {
        assert(txs.drop_last().take(k) =~= txs.take(k));
        assert(txs.drop_last()[k] == txs[k]);
        lemma_unfit(txs.drop_last(), k);
    }
}

// --- Runtime balance computation ---

/// The mathematical value of a balances vector.
pub open spec fn pairs_view(s: Seq<(Account, i32)>) -> Seq<(AccountV, int)> {
    s.map_values(|p: (Account, i32)| (p.0@, p.1 as int))
}

/// [`apply_delta`] updates the first entry with the key (keeping its
/// position) when one exists.
proof fn lemma_apply_delta_at(s: Seq<(AccountV, int)>, k: AccountV, d: int, i: int)
    requires
        0 <= i < s.len(),
        s[i].0 == k,
        forall|j: int| 0 <= j < i ==> s[j].0 != k,
    ensures
        apply_delta(s, k, d) == s.update(i, (k, s[i].1 + d)),
        lookup(s, k) == s[i].1,
    decreases i,
{
    if i == 0 {
        assert(apply_delta(s, k, d) =~= s.update(0, (k, s[0].1 + d)));
    } else {
        assert(forall|j: int|
            0 <= j < i - 1 ==> #[trigger] s.drop_first()[j].0 == s[j + 1].0 && s[j + 1].0 != k);
        lemma_apply_delta_at(s.drop_first(), k, d, i - 1);
        assert(apply_delta(s, k, d) =~= s.update(i, (k, s[i].1 + d)));
    }
}

/// [`apply_delta`] appends a fresh entry when no entry has the key.
proof fn lemma_apply_delta_absent(s: Seq<(AccountV, int)>, k: AccountV, d: int)
    requires
        forall|j: int| 0 <= j < s.len() ==> s[j].0 != k,
    ensures
        apply_delta(s, k, d) == s.push((k, d)),
        lookup(s, k) == 0,
    decreases s.len(),
{
    if s.len() > 0 {
        assert(forall|j: int|
            0 <= j < s.drop_first().len() ==> #[trigger] s.drop_first()[j].0 == s[j + 1].0 && s[j
                + 1].0 != k);
        lemma_apply_delta_absent(s.drop_first(), k, d);
        assert(apply_delta(s, k, d) =~= s.push((k, d)));
    } else {
        assert(apply_delta(s, k, d) =~= s.push((k, d)));
    }
}

/// Adds `d` to the balance of `acc`, failing (and possibly leaving the
/// vector half-updated) when the new balance would leave `i32` range.
#[verifier::loop_isolation(false)]
fn apply_delta_exec(bal: &mut Vec<(Account, i32)>, acc: &Account, d: i64) -> (r: bool)
    requires
        -0x1_0000_0000 <= d <= 0x1_0000_0000,
    ensures
        r ==> pairs_view(final(bal)@) == apply_delta(pairs_view(old(bal)@), acc@, d as int)
            && i32::MIN <= lookup(pairs_view(old(bal)@), acc@) + d <= i32::MAX,
        !r ==> !(i32::MIN <= lookup(pairs_view(old(bal)@), acc@) + d <= i32::MAX),
{
    let ghost s = pairs_view(bal@);
    let mut i: usize = 0;
    while i < bal.len()
        invariant
            i <= bal@.len(),
            s == pairs_view(bal@),
            forall|j: int| 0 <= j < i ==> s[j].0 != acc@,
        decreases bal@.len() - i,
    {
        proof {
            assert(s[i as int] == (bal@[i as int].0@, bal@[i as int].1 as int));
        }
        if &bal[i].0 == acc {
            proof {
                lemma_apply_delta_at(s, acc@, d as int, i as int);
            }
            let cur = bal[i].1;
            let new = cur as i64 + d;
            if new < (i32::MIN as i64) || new > (i32::MAX as i64) {
                return false;
            }
            let entry = bal.remove(i);
            bal.insert(i, (entry.0, new as i32));
            proof {
                assert(pairs_view(bal@) =~= s.update(i as int, (acc@, s[i as int].1 + d)));
            }
            return true;
        }
        i = i + 1;
    }
    proof {
        lemma_apply_delta_absent(s, acc@, d as int);
    }
    if d < (i32::MIN as i64) || d > (i32::MAX as i64) {
        return false;
    }
    bal.push((acc.clone(), d as i32));
    proof {
        assert(pairs_view(bal@) =~= s.push((acc@, d as int)));
    }
    true
}

/// Applies one transaction to the balances, failing when either touched
/// balance would leave `i32` range.
fn apply_tx_exec(bal: &mut Vec<(Account, i32)>, tx: &Transaction) -> (r: bool)
    ensures
        r ==> pairs_view(final(bal)@) == apply_tx(pairs_view(old(bal)@), tx@) && tx_fits(
            pairs_view(old(bal)@),
            tx@,
        ),
        !r ==> !tx_fits(pairs_view(old(bal)@), tx@),
{
    let d1: i64 = -(tx.amount as i64);
    if !apply_delta_exec(bal, &tx.from, d1) {
        return false;
    }
    if !apply_delta_exec(bal, &tx.to, tx.amount as i64) {
        return false;
    }
    true
}

// --- The account set ---

/// Appends an account unless it is already present.
pub open spec fn add_acct(s: Seq<AccountV>, a: AccountV) -> Seq<AccountV> {
    if s.contains(a) {
        s
    } else {
        s.push(a)
    }
}

/// The accounts appearing in a transaction sequence, each once, in order of
/// first appearance (`from` before `to` within one transaction).
pub open spec fn accounts_of(txs: Seq<TransactionV>) -> Seq<AccountV>
    decreases txs.len(),
{
    if txs.len() == 0 {
        Seq::empty()
    } else {
        add_acct(add_acct(accounts_of(txs.drop_last()), txs.last().from), txs.last().to)
    }
}

/// The mathematical value of an accounts vector.
pub open spec fn accts_view(s: Seq<Account>) -> Seq<AccountV> {
    s.map_values(|a: Account| a@)
}

/// [`add_acct`] keeps the sequence duplicate-free.
proof fn lemma_add_acct_nodup(s: Seq<AccountV>, a: AccountV)
    requires
        s.no_duplicates(),
    ensures
        add_acct(s, a).no_duplicates(),
{
    if !s.contains(a) {
        assert forall|i: int, j: int|
            0 <= i < s.push(a).len() && 0 <= j < s.push(a).len() && i != j implies s.push(a)[i]
            != s.push(a)[j] by {
            if i < s.len() && j < s.len() {
            } else if i < s.len() {
                assert(s.push(a)[i] == s[i]);
                assert(s.contains(s[i]));
            } else {
                assert(s.push(a)[j] == s[j]);
                assert(s.contains(s[j]));
            }
        }
    }
}

/// The accounts form a set: the list of first appearances has no
/// duplicates.
pub proof fn lemma_accounts_distinct(txs: Seq<TransactionV>)
    ensures
        accounts_of(txs).no_duplicates(),
    decreases txs.len(),
{
    if txs.len() == 0 {
        assert(accounts_of(txs) =~= Seq::<AccountV>::empty());
    } else {
        lemma_accounts_distinct(txs.drop_last());
        lemma_add_acct_nodup(accounts_of(txs.drop_last()), txs.last().from);
        lemma_add_acct_nodup(
            add_acct(accounts_of(txs.drop_last()), txs.last().from),
            txs.last().to,
        );
    }
}

/// Pushes `a` unless an equal account is already in the vector.
#[verifier::loop_isolation(false)]
fn add_acct_exec(v: &mut Vec<Account>, a: &Account)
    ensures
        accts_view(final(v)@) == add_acct(accts_view(old(v)@), a@),
{
    let ghost s = accts_view(v@);
    let mut i: usize = 0;
    while i < v.len()
        invariant
            i <= v@.len(),
            s == accts_view(v@),
            forall|j: int| 0 <= j < i ==> s[j] != a@,
        decreases v@.len() - i,
    {
        proof {
            assert(s[i as int] == v@[i as int]@);
        }
        if &v[i] == a {
            proof {
                assert(s.contains(a@));
            }
            return ;
        }
        i = i + 1;
    }
    proof {
        if s.contains(a@) {
            let w = choose|j: int| 0 <= j < s.len() && s[j] == a@;
            assert(s[w] != a@);
        }
    }
    v.push(a.clone());
    proof {
        assert(accts_view(v@) =~= s.push(a@));
    }
}

// --- Loading the transaction log from commit messages ---

/// The views of the commit messages handed to the loader.
pub open spec fn msgs_view(s: Seq<Option<String>>) -> Seq<Option<Seq<char>>> {
    s.map_values(
        |m: Option<String>|
            match m {
                Some(x) => Some(x@),
                None => None,
            },
    )
}

/// The views of the loaded transactions.
pub open spec fn txs_view(s: Seq<Transaction>) -> Seq<TransactionV> {
    s.map_values(|t: Transaction| t@)
}

/// The transaction log extracted from commit messages in order: commits
/// without a message, or whose message does not start with the marker, are
/// skipped; a marked message that fails to decode fails the whole load.
pub open spec fn spec_load(msgs: Seq<Option<Seq<char>>>) -> Option<Seq<TransactionV>>
    decreases msgs.len(),
{
    if msgs.len() == 0 {
        Some(Seq::empty())
    } else {
        match spec_load(msgs.drop_last()) {
            None => None,
            Some(txs) => match msgs.last() {
                None => Some(txs),
                Some(m) => if !is_ledger_message(m) {
                    Some(txs)
                } else {
                    match spec_extract(m) {
                        Some(t) => Some(txs.push(t)),
                        None => None,
                    }
                },
            },
        }
    }
}

/// Once a prefix of the load fails, the whole load fails.
proof fn lemma_load_prefix_none(msgs: Seq<Option<Seq<char>>>, k: int)
    requires
        0 <= k <= msgs.len(),
        spec_load(msgs.take(k)) is None,
    ensures
        spec_load(msgs) is None,
    decreases msgs.len() - k,
{
    if k < msgs.len() {
        assert(msgs.take(k + 1).drop_last() =~= msgs.take(k));
        lemma_load_prefix_none(msgs, k + 1);
    } else {
        assert(msgs.take(k) =~= msgs);
    }
}

/// Filtering: a commit whose message does not carry the ledger marker (or
/// has no message at all) never contributes to the loaded log, wherever it
/// stands in the history.
pub proof fn lemma_non_ledger_ignored(
    a: Seq<Option<Seq<char>>>,
    m: Option<Seq<char>>,
    b: Seq<Option<Seq<char>>>,
)
    requires
        match m {
            Some(s) => !is_ledger_message(s),
            None => true,
        },
    ensures
        spec_load(a + seq![m] + b) == spec_load(a + b),
    decreases b.len(),
{
    if b.len() == 0 {
        assert(a + b =~= a);
        let w = a + seq![m] + b;
        assert(w.drop_last() =~= a);
        assert(w.last() == m);
    } else {
        assert((a + seq![m] + b).drop_last() =~= a + seq![m] + b.drop_last());
        assert((a + b).drop_last() =~= a + b.drop_last());
        lemma_non_ledger_ignored(a, m, b.drop_last());
        assert((a + seq![m] + b).last() == b.last());
        assert((a + b).last() == b.last());
    }
}

/// Ordering: over a linear history of ledger commits, the load yields
/// exactly the embedded transactions in commit order, so the balances are
/// the fold applied in that order and no other.
pub proof fn lemma_linear_history_order(
    m1: Seq<char>,
    m2: Seq<char>,
    m3: Seq<char>,
    t1: TransactionV,
    t2: TransactionV,
    t3: TransactionV,
)
    requires
        is_ledger_message(m1) && spec_extract(m1) == Some(t1),
        is_ledger_message(m2) && spec_extract(m2) == Some(t2),
        is_ledger_message(m3) && spec_extract(m3) == Some(t3),
    ensures
        spec_load(seq![Some(m1), Some(m2), Some(m3)]) == Some(seq![t1, t2, t3]),
        balances_seq(seq![t1, t2, t3]) == apply_tx(
            apply_tx(apply_tx(Seq::empty(), t1), t2),
            t3,
        ),
{
    let msgs = seq![Some(m1), Some(m2), Some(m3)];
    let e = Seq::<TransactionV>::empty();
    assert(msgs.drop_last() =~= seq![Some(m1), Some(m2)]);
    assert(seq![Some(m1), Some(m2)].drop_last() =~= seq![Some(m1)]);
    assert(seq![Some(m1)].drop_last() =~= Seq::<Option<Seq<char>>>::empty());
    assert(spec_load(Seq::<Option<Seq<char>>>::empty()) == Some(e));
    assert(seq![Some(m1)].last() == Some(m1));
    assert(spec_load(seq![Some(m1)]) == Some(e.push(t1)));
    assert(seq![Some(m1), Some(m2)].last() == Some(m2));
    assert(spec_load(seq![Some(m1), Some(m2)]) == Some(e.push(t1).push(t2)));
    assert(msgs.last() == Some(m3));
    assert(spec_load(msgs) == Some(e.push(t1).push(t2).push(t3)));
    assert(e.push(t1).push(t2).push(t3) =~= seq![t1, t2, t3]);
    let txs = seq![t1, t2, t3];
    assert(txs.drop_last() =~= seq![t1, t2]);
    assert(seq![t1, t2].drop_last() =~= seq![t1]);
    assert(seq![t1].drop_last() =~= e);
    assert(balances_seq(e) == Seq::<(AccountV, int)>::empty());
    assert(seq![t1].last() == t1);
    assert(balances_seq(seq![t1]) == apply_tx(balances_seq(e), t1));
    assert(seq![t1, t2].last() == t2);
    assert(balances_seq(seq![t1, t2]) == apply_tx(balances_seq(seq![t1]), t2));
    assert(txs.last() == t3);
    assert(balances_seq(txs) == apply_tx(balances_seq(seq![t1, t2]), t3));
    assert(balances_seq(Seq::<TransactionV>::empty()) =~= Seq::<(AccountV, int)>::empty());
}

/// A ledger: the configuration and the materialized, ordered transaction
/// log. Derived views (accounts, balances) are pure folds over the log.
pub struct Ledger {
    config: RepoConfig,
    transactions: Vec<Transaction>,
}

/// The mathematical value of a [`Ledger`].
#[verifier::ext_equal]
pub ghost struct LedgerV {
    pub config: RepoConfigV,
    pub transactions: Seq<TransactionV>,
}

impl View for Ledger {
    type V = LedgerV;

    closed spec fn view(&self) -> LedgerV {
        LedgerV { config: self.config@, transactions: txs_view(self.transactions@) }
    }
}

impl Ledger {
    /// Builds the ledger from the commit messages of the history, oldest
    /// first: non-ledger messages are skipped, and any marked message that
    /// fails to decode aborts the whole load.
    #[verifier::loop_isolation(false)]
    pub fn from_messages(config: RepoConfig, messages: Vec<Option<String>>) -> (r: Result<
        Ledger,
        Error,
    >)
        ensures
            match r {
                Ok(led) => spec_load(msgs_view(messages@)) == Some(led@.transactions) && led@.config
                    == config@,
                Err(e) => spec_load(msgs_view(messages@)) is None && e is TransactionParseError,
            },
    {
        let ghost mv = msgs_view(messages@);
        let mut txs: Vec<Transaction> = Vec::new();
        proof {
            assert(mv.take(0) =~= Seq::<Option<Seq<char>>>::empty());
            assert(txs_view(txs@) =~= Seq::<TransactionV>::empty());
        }
        let mut i: usize = 0;
        while i < messages.len()
            invariant
                i <= messages@.len(),
                mv == msgs_view(messages@),
                spec_load(mv.take(i as int)) == Some(txs_view(txs@)),
            decreases messages@.len() - i,
        {
            proof {
                assert(mv.take(i as int + 1).drop_last() =~= mv.take(i as int));
                assert(mv.take(i as int + 1).last() == mv[i as int]);
                assert(mv[i as int] == (match messages@[i as int] {
                    Some(x) => Some(x@),
                    None => None::<Seq<char>>,
                }));
            }
            match &messages[i] {
                None => {},
                Some(msg) => {
                    if starts_with_marker(msg.as_str()) {
                        match extract_transaction(msg.as_str()) {
                            Ok(t) => {
                                txs.push(t);
                                proof {
                                    assert(txs_view(txs@) =~= txs_view(txs@.drop_last()).push(
                                        txs@.last()@,
                                    ));
                                }
                            },
                            Err(e) => {
                                proof {
                                    lemma_load_prefix_none(mv, i as int + 1);
                                }
                                return Err(e);
                            },
                        }
                    }
                },
            }
            i = i + 1;
            proof {
                assert(spec_load(mv.take(i as int)) == Some(txs_view(txs@)));
            }
        }
        proof {
            assert(mv.take(mv.len() as int) =~= mv);
        }
        Ok(Ledger { config, transactions: txs })
    }

    /// The loaded configuration.
    pub fn config(&self) -> (r: &RepoConfig)
        ensures
            r@ == self@.config,
    {
        &self.config
    }

    /// The materialized transaction log, oldest first.
    pub fn transactions(&self) -> (r: &Vec<Transaction>)
        ensures
            txs_view(r@) == self@.transactions,
    {
        &self.transactions
    }

    /// The set of all accounts that appear in the log, in order of first
    /// appearance and without duplicates.
    #[verifier::loop_isolation(false)]
    pub fn accounts(&self) -> (r: Vec<Account>)
        ensures
            accts_view(r@) == accounts_of(self@.transactions),
    {
        let ghost txv = txs_view(self.transactions@);
        let mut out: Vec<Account> = Vec::new();
        proof {
            assert(txv.take(0) =~= Seq::<TransactionV>::empty());
            assert(accts_view(out@) =~= Seq::<AccountV>::empty());
        }
        let mut i: usize = 0;
        while i < self.transactions.len()
            invariant
                i <= self.transactions@.len(),
                txv == txs_view(self.transactions@),
                accts_view(out@) == accounts_of(txv.take(i as int)),
            decreases self.transactions@.len() - i,
        {
            proof {
                assert(txv.take(i as int + 1).drop_last() =~= txv.take(i as int));
                assert(txv.take(i as int + 1).last() == txv[i as int]);
                assert(txv[i as int] == self.transactions@[i as int]@);
            }
            let tx = &self.transactions[i];
            add_acct_exec(&mut out, &tx.from);
            add_acct_exec(&mut out, &tx.to);
            i = i + 1;
        }
        proof {
            assert(txv.take(txv.len() as int) =~= txv);
        }
        out
    }

    /// The balances of all accounts, computed by the chronological fold,
    /// provided every intermediate balance fits an `i32`; `None` otherwise.
    #[verifier::loop_isolation(false)]
    pub fn try_balances(&self) -> (r: Option<Vec<(Account, i32)>>)
        ensures
            match r {
                Some(v) => balances_fit(self@.transactions) && pairs_view(v@) == balances_seq(
                    self@.transactions,
                ),
                None => !balances_fit(self@.transactions),
            },
    {
        let ghost txv = txs_view(self.transactions@);
        let mut bal: Vec<(Account, i32)> = Vec::new();
        proof {
            assert(txv.take(0) =~= Seq::<TransactionV>::empty());
            assert(pairs_view(bal@) =~= Seq::<(AccountV, int)>::empty());
        }
        let mut i: usize = 0;
        while i < self.transactions.len()
            invariant
                i <= self.transactions@.len(),
                txv == txs_view(self.transactions@),
                pairs_view(bal@) == balances_seq(txv.take(i as int)),
                balances_fit(txv.take(i as int)),
            decreases self.transactions@.len() - i,
        {
            proof {
                assert(txv.take(i as int + 1).drop_last() =~= txv.take(i as int));
                assert(txv.take(i as int + 1).last() == txv[i as int]);
                assert(txv[i as int] == self.transactions@[i as int]@);
            }
            let tx = &self.transactions[i];
            let ghost before = pairs_view(bal@);
            if !apply_tx_exec(&mut bal, tx) {
                proof {
                    assert(txv.take(i as int) =~= txv.take(txv.len() as int).take(i as int));
                    assert(txv.take(txv.len() as int) =~= txv);
                    lemma_unfit(txv, i as int);
                }
                return None;
            }
            i = i + 1;
        }
        proof {
            assert(txv.take(txv.len() as int) =~= txv);
        }
        Some(bal)
    }

    /// The balances of all accounts. The caller must know the fold stays in
    /// range; [`Ledger::try_balances`] decides that at runtime.
    pub fn balances(&self) -> (r: Vec<(Account, i32)>)
        requires
            balances_fit(self@.transactions),
        ensures
            pairs_view(r@) == balances_seq(self@.transactions),
    {
        match self.try_balances() {
            Some(v) => v,
            None => {
                proof {
                    assert(false);
                }
                vstd::pervasive::unreached()
            },
        }
    }

    /// The commit message that records `tx` in this ledger.
    pub fn commit_message_for(&self, tx: &Transaction) -> (r: String)
        requires
            self@.config.currency.divisor > 0,
        ensures
            r@ == spec_message(tx@, self@.config),
    {
        tx.commit_message(&self.config)
    }
}

} // verus!
