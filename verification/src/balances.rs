//! The balance ledger: who holds how many copies of which token class.
//!
//! Balances are stored as a flat list of entries keyed by `(account,
//! class_id)`.  The well-formedness predicate [`bal_wf`] keeps keys unique
//! and every stored quantity strictly positive: an entry that would drop to
//! zero is deleted instead.  [`sum_class`] adds up every account's holding
//! of one class; the contract-level invariant ties it to the class's total
//! supply.

use vstd::prelude::*;

verus! {

/// One holding: `account` owns `amount` copies of `class_id`.
pub struct BalanceEntry {
    pub account: String,
    pub class_id: String,
    pub amount: u64,
}

/// The mathematical value of a [`BalanceEntry`].
pub ghost struct BalView {
    pub account: Seq<char>,
    pub class_id: Seq<char>,
    pub amount: u64,
}

impl View for BalanceEntry {
    type V = BalView;

    open spec fn view(&self) -> BalView {
        BalView { account: self.account@, class_id: self.class_id@, amount: self.amount }
    }
}

impl DeepView for BalanceEntry {
    type V = BalView;

    open spec fn deep_view(&self) -> BalView {
        self.view()
    }
}

/// Does entry `e` carry the key `(a, c)`?
pub open spec fn bal_key_is(e: BalView, a: Seq<char>, c: Seq<char>) -> bool {
    e.account == a && e.class_id == c
}

/// The entry holding the key `(a, c)`, if one exists.  Scans from the end;
/// under unique keys the position does not matter.
pub open spec fn bal_entry(bs: Seq<BalView>, a: Seq<char>, c: Seq<char>) -> Option<BalView>
    decreases bs.len(),
{
    if bs.len() == 0 {
        None
    } else if bal_key_is(bs.last(), a, c) {
        Some(bs.last())
    } else {
        bal_entry(bs.drop_last(), a, c)
    }
}

/// Does account `a` hold an entry for class `c`?
pub open spec fn has_bal(bs: Seq<BalView>, a: Seq<char>, c: Seq<char>) -> bool {
    bal_entry(bs, a, c) is Some
}

/// How many copies of class `c` account `a` holds; zero when no entry exists.
pub open spec fn bal_of(bs: Seq<BalView>, a: Seq<char>, c: Seq<char>) -> int {
    match bal_entry(bs, a, c) {
        Some(e) => e.amount as int,
        None => 0,
    }
}

/// What entry `e` contributes to the total of class `c`.
pub open spec fn bal_contrib(e: BalView, c: Seq<char>) -> int {
    if e.class_id == c {
        e.amount as int
    } else {
        0
    }
}

/// The sum of every account's holding of class `c`.
pub open spec fn sum_class(bs: Seq<BalView>, c: Seq<char>) -> int
    decreases bs.len(),
{
    if bs.len() == 0 {
        0
    } else {
        sum_class(bs.drop_last(), c) + bal_contrib(bs.last(), c)
    }
}

/// No two entries share a key.
pub open spec fn bal_keys_unique(bs: Seq<BalView>) -> bool {
    forall|i: int, j: int|
        0 <= i < j < bs.len() ==> !(bs[i].account == bs[j].account && bs[i].class_id
            == bs[j].class_id)
}

/// The balance ledger's own invariant: unique keys, and nothing stored at
/// zero.
pub open spec fn bal_wf(bs: Seq<BalView>) -> bool {
    &&& bal_keys_unique(bs)
    &&& forall|i: int| 0 <= i < bs.len() ==> bs[i].amount > 0
}

/// A found entry carries its own key and sits somewhere in the list; when
/// nothing is found, no index matches.
pub proof fn lemma_bal_entry_props(bs: Seq<BalView>, a: Seq<char>, c: Seq<char>)
    ensures
        match bal_entry(bs, a, c) {
            Some(e) => e.account == a && e.class_id == c && exists|k: int|
                0 <= k < bs.len() && bs[k] == e,
            None => forall|k: int| 0 <= k < bs.len() ==> !bal_key_is(bs[k], a, c),
        },
    decreases bs.len(),
{
    if bs.len() > 0 {
        lemma_bal_entry_props(bs.drop_last(), a, c);
        if !bal_key_is(bs.last(), a, c) {
            match bal_entry(bs.drop_last(), a, c) {
                Some(e) => {
                    let k = choose|k: int|
                        0 <= k < bs.drop_last().len() && bs.drop_last()[k] == e;
                    assert(bs[k] == e);
                },
                None => {
                    assert forall|k: int| 0 <= k < bs.len() implies !bal_key_is(
                        bs[k],
                        a,
                        c,
                    ) by {
                        if k < bs.len() - 1 {
                            assert(bs.drop_last()[k] == bs[k]);
                        }
                    }
                },
            }
        } else {
            assert(bs[bs.len() - 1] == bs.last());
        }
    }
}

/// Under unique keys, the entry at index `k` is what lookup by its key finds.
pub proof fn lemma_bal_entry_index(bs: Seq<BalView>, k: int)
    requires
        bal_keys_unique(bs),
        0 <= k < bs.len(),
    ensures
        bal_entry(bs, bs[k].account, bs[k].class_id) == Some(bs[k]),
    decreases bs.len(),
{
    if k == bs.len() - 1 {
        assert(bal_key_is(bs.last(), bs[k].account, bs[k].class_id));
    } else {
        assert(!(bs[k].account == bs[bs.len() - 1].account && bs[k].class_id == bs[bs.len()
            - 1].class_id));
        assert(bs.drop_last()[k] == bs[k]);
        lemma_bal_entry_index(bs.drop_last(), k);
    }
}

/// When no index matches the key, lookup finds nothing.
pub proof fn lemma_bal_entry_absent(bs: Seq<BalView>, a: Seq<char>, c: Seq<char>)
    requires
        forall|k: int| 0 <= k < bs.len() ==> !bal_key_is(bs[k], a, c),
    ensures
        bal_entry(bs, a, c) is None,
{
    lemma_bal_entry_props(bs, a, c);
}

/// How lookup reads through an appended entry.
pub proof fn lemma_bal_entry_push(bs: Seq<BalView>, e: BalView, a: Seq<char>, c: Seq<char>)
    ensures
        bal_entry(bs.push(e), a, c) == (if bal_key_is(e, a, c) {
            Some(e)
        } else {
            bal_entry(bs, a, c)
        }),
{
    assert(bs.push(e).drop_last() =~= bs);
}

/// How lookup reads through an update that keeps the entry's key.
pub proof fn lemma_bal_entry_update(bs: Seq<BalView>, k: int, e: BalView, a: Seq<char>, c: Seq<char>)
    requires
        bal_keys_unique(bs),
        0 <= k < bs.len(),
        e.account == bs[k].account,
        e.class_id == bs[k].class_id,
    ensures
        bal_entry(bs.update(k, e), a, c) == (if bal_key_is(bs[k], a, c) {
            Some(e)
        } else {
            bal_entry(bs, a, c)
        }),
    decreases bs.len(),
{
    let upd = bs.update(k, e);
    if k == bs.len() - 1 {
        assert(upd.last() == e);
        assert(upd.drop_last() =~= bs.drop_last());
    } else {
        assert(upd.last() == bs.last());
        assert(upd.drop_last() =~= bs.drop_last().update(k, e));
        assert(bs.drop_last()[k] == bs[k]);
        assert(!(bs[k].account == bs[bs.len() - 1].account && bs[k].class_id == bs[bs.len()
            - 1].class_id));
        lemma_bal_entry_update(bs.drop_last(), k, e, a, c);
    }
}

/// How lookup reads through a removal.
pub proof fn lemma_bal_entry_remove(bs: Seq<BalView>, k: int, a: Seq<char>, c: Seq<char>)
    requires
        bal_keys_unique(bs),
        0 <= k < bs.len(),
    ensures
        bal_entry(bs.remove(k), a, c) == (if bal_key_is(bs[k], a, c) {
            None
        } else {
            bal_entry(bs, a, c)
        }),
    decreases bs.len(),
{
    let rem = bs.remove(k);
    if k == bs.len() - 1 {
        assert(rem =~= bs.drop_last());
        if bal_key_is(bs[k], a, c) {
            lemma_bal_entry_props(rem, a, c);
            match bal_entry(rem, a, c) {
                Some(e) => {
                    let j = choose|j: int| 0 <= j < rem.len() && rem[j] == e;
                    assert(bs[j] == e);
                    assert(!(bs[j].account == bs[k].account && bs[j].class_id
                        == bs[k].class_id));
                },
                None => {},
            }
        }
    } else {
        assert(rem.last() == bs.last());
        assert(rem.drop_last() =~= bs.drop_last().remove(k));
        assert(bs.drop_last()[k] == bs[k]);
        assert(!(bs[k].account == bs[bs.len() - 1].account && bs[k].class_id == bs[bs.len()
            - 1].class_id));
        lemma_bal_entry_remove(bs.drop_last(), k, a, c);
    }
}

/// Appending adds the new entry's contribution to each class total.
pub proof fn lemma_sum_push(bs: Seq<BalView>, e: BalView, c: Seq<char>)
    ensures
        sum_class(bs.push(e), c) == sum_class(bs, c) + bal_contrib(e, c),
{
    assert(bs.push(e).drop_last() =~= bs);
}

/// Updating one entry shifts each class total by the difference of the
/// contributions.
pub proof fn lemma_sum_update(bs: Seq<BalView>, k: int, e: BalView, c: Seq<char>)
    requires
        0 <= k < bs.len(),
    ensures
        sum_class(bs.update(k, e), c) == sum_class(bs, c) - bal_contrib(bs[k], c) + bal_contrib(
            e,
            c,
        ),
    decreases bs.len(),
{
    let upd = bs.update(k, e);
    if k == bs.len() - 1 {
        assert(upd.last() == e);
        assert(upd.drop_last() =~= bs.drop_last());
    } else {
        assert(upd.last() == bs.last());
        assert(upd.drop_last() =~= bs.drop_last().update(k, e));
        assert(bs.drop_last()[k] == bs[k]);
        lemma_sum_update(bs.drop_last(), k, e, c);
    }
}

/// Removing one entry subtracts its contribution from each class total.
pub proof fn lemma_sum_remove(bs: Seq<BalView>, k: int, c: Seq<char>)
    requires
        0 <= k < bs.len(),
    ensures
        sum_class(bs.remove(k), c) == sum_class(bs, c) - bal_contrib(bs[k], c),
    decreases bs.len(),
{
    let rem = bs.remove(k);
    if k == bs.len() - 1 {
        assert(rem =~= bs.drop_last());
    } else {
        assert(rem.last() == bs.last());
        assert(rem.drop_last() =~= bs.drop_last().remove(k));
        assert(bs.drop_last()[k] == bs[k]);
        lemma_sum_remove(bs.drop_last(), k, c);
    }
}

/// In a well-formed ledger a balance entry exists exactly when the balance
/// is positive: nothing is ever stored at zero.
pub proof fn lemma_bal_positive(bs: Seq<BalView>, a: Seq<char>, c: Seq<char>)
    requires
        bal_wf(bs),
    ensures
        has_bal(bs, a, c) <==> bal_of(bs, a, c) > 0,
{
    lemma_bal_entry_props(bs, a, c);
    match bal_entry(bs, a, c) {
        Some(e) => {
            let k = choose|k: int| 0 <= k < bs.len() && bs[k] == e;
            assert(bs[k].amount > 0);
        },
        None => {},
    }
}

/// Well-formedness survives an update that keeps the key and stays positive.
pub proof fn lemma_wf_update(bs: Seq<BalView>, k: int, e: BalView)
    requires
        bal_wf(bs),
        0 <= k < bs.len(),
        e.account == bs[k].account,
        e.class_id == bs[k].class_id,
        e.amount > 0,
    ensures
        bal_wf(bs.update(k, e)),
{
}

/// Well-formedness survives appending an entry with a fresh key.
pub proof fn lemma_wf_push(bs: Seq<BalView>, e: BalView)
    requires
        bal_wf(bs),
        e.amount > 0,
        forall|k: int| 0 <= k < bs.len() ==> !bal_key_is(bs[k], e.account, e.class_id),
    ensures
        bal_wf(bs.push(e)),
{
    let ext = bs.push(e);
    assert forall|i: int, j: int|
        0 <= i < j < ext.len() implies !(ext[i].account == ext[j].account && ext[i].class_id
        == ext[j].class_id) by {
        if j < bs.len() {
        } else {
            assert(ext[j] == e);
            assert(!bal_key_is(bs[i], e.account, e.class_id));
        }
    }
}

/// Well-formedness survives removing an entry.
pub proof fn lemma_wf_remove(bs: Seq<BalView>, k: int)
    requires
        bal_wf(bs),
        0 <= k < bs.len(),
    ensures
        bal_wf(bs.remove(k)),
{
    let rem = bs.remove(k);
    assert forall|i: int, j: int|
        0 <= i < j < rem.len() implies !(rem[i].account == rem[j].account && rem[i].class_id
        == rem[j].class_id) by {
        let i0 = if i < k { i } else { i + 1 };
        let j0 = if j < k { j } else { j + 1 };
        assert(rem[i] == bs[i0]);
        assert(rem[j] == bs[j0]);
    }
    assert forall|i: int| 0 <= i < rem.len() implies rem[i].amount > 0 by {
        let i0 = if i < k { i } else { i + 1 };
        assert(rem[i] == bs[i0]);
    }
}

/// The index of the entry keyed `(account, class_id)`, scanning forward.
pub fn find_balance(v: &Vec<BalanceEntry>, account: &String, class_id: &String) -> (r: Option<
    usize,
>)
    ensures
        match r {
            Some(i) => i < v.deep_view().len() && bal_key_is(
                v.deep_view()[i as int],
                account@,
                class_id@,
            ),
            None => forall|k: int|
                0 <= k < v.deep_view().len() ==> !bal_key_is(v.deep_view()[k], account@, class_id@),
        },
{
    let n = v.len();
    let mut i: usize = 0;
    while i < n
        invariant
            n == v.deep_view().len(),
            i <= n,
            forall|k: int| 0 <= k < i ==> !bal_key_is(v.deep_view()[k], account@, class_id@),
        decreases n - i,
    {
        if v[i].account == *account && v[i].class_id == *class_id {
            return Some(i);
        }
        i = i + 1;
    }
    None
}

/// Replace the quantity stored at index `i`, keeping the entry's key.
pub fn set_bal_amount(v: &mut Vec<BalanceEntry>, i: usize, amount: u64)
    requires
        i < old(v).deep_view().len(),
    ensures
        final(v).deep_view() == old(v).deep_view().update(
            i as int,
            BalView { amount, ..old(v).deep_view()[i as int] },
        ),
{
    let mut e = v.remove(i);
    e.amount = amount;
    v.insert(i, e);
    proof {
        assert(v@ =~= old(v)@.remove(i as int).insert(i as int, v@[i as int]));
        assert(v.deep_view() =~= old(v).deep_view().update(
            i as int,
            BalView { amount, ..old(v).deep_view()[i as int] },
        ));
    }
}

/// How many copies of class `class_id` the account holds; zero when it holds
/// no entry.
pub fn balance_amount(v: &Vec<BalanceEntry>, account: &String, class_id: &String) -> (r: u64)
    requires
        bal_keys_unique(v.deep_view()),
    ensures
        r as int == bal_of(v.deep_view(), account@, class_id@),
{
    match find_balance(v, account, class_id) {
        Some(i) => {
            proof {
                lemma_bal_entry_index(v.deep_view(), i as int);
            }
            v[i].amount
        },
        None => {
            proof {
                lemma_bal_entry_absent(v.deep_view(), account@, class_id@);
            }
            0
        },
    }
}

/// Is account `a` listed in the enumeration index?
pub open spec fn holder_known(hs: Seq<Seq<char>>, a: Seq<char>) -> bool {
    exists|i: int| 0 <= i < hs.len() && hs[i] == a
}

/// The enumeration index lists no account twice.
pub open spec fn holders_unique(hs: Seq<Seq<char>>) -> bool {
    forall|i: int, j: int| 0 <= i < j < hs.len() ==> hs[i] != hs[j]
}

/// Every account holding a balance entry is listed in the enumeration index.
pub open spec fn holders_cover(bs: Seq<BalView>, hs: Seq<Seq<char>>) -> bool {
    forall|k: int| 0 <= k < bs.len() ==> holder_known(hs, bs[k].account)
}

/// Record account `a` in the enumeration index, once.
pub fn note_holder(v: &mut Vec<String>, a: &String)
    requires
        holders_unique(old(v).deep_view()),
    ensures
        holders_unique(final(v).deep_view()),
        final(v).deep_view() == old(v).deep_view() || final(v).deep_view() == old(
            v,
        ).deep_view().push(a@),
        forall|x: Seq<char>|
            #[trigger] holder_known(final(v).deep_view(), x) <==> holder_known(
                old(v).deep_view(),
                x,
            ) || x == a@,
{
    let n = v.len();
    let mut i: usize = 0;
    while i < n
        invariant
            n == v.deep_view().len(),
            i <= n,
            v == old(v),
            holders_unique(old(v).deep_view()),
            forall|k: int| 0 <= k < i ==> v.deep_view()[k] != a@,
        decreases n - i,
    {
        if v[i] == *a {
            proof {
                assert(v.deep_view()[i as int] == a@);
                assert(holder_known(v.deep_view(), a@));
            }
            return ;
        }
        i = i + 1;
    }
    v.push(a.clone());
    proof {
        let hs0 = old(v).deep_view();
        let hs1 = v.deep_view();
        assert(hs1 =~= hs0.push(a@));
        assert(hs1[hs0.len() as int] == a@);
        assert forall|x: Seq<char>| #[trigger]
            holder_known(hs1, x) <==> holder_known(hs0, x) || x == a@ by {
            if holder_known(hs1, x) {
                let i0 = choose|i0: int| 0 <= i0 < hs1.len() && hs1[i0] == x;
                if i0 < hs0.len() {
                    assert(hs0[i0] == x);
                }
            }
            if holder_known(hs0, x) {
                let i0 = choose|i0: int| 0 <= i0 < hs0.len() && hs0[i0] == x;
                assert(hs1[i0] == x);
            }
        }
    }
}

/// When the move engine may run: a positive amount, a sender (when there is
/// one) distinct from the receiver and holding enough, and a receiver whose
/// balance stays representable.
pub open spec fn can_move(
    bs: Seq<BalView>,
    from: Option<Seq<char>>,
    to: Seq<char>,
    c: Seq<char>,
    amount: u64,
) -> bool {
    &&& amount > 0
    &&& (from is Some ==> from->0 != to && bal_of(bs, from->0, c) >= amount)
    &&& bal_of(bs, to, c) + amount <= u64::MAX
}

/// Each account's balance after the move.
pub open spec fn moved_bal(
    bs: Seq<BalView>,
    from: Option<Seq<char>>,
    to: Seq<char>,
    c: Seq<char>,
    amount: u64,
    a: Seq<char>,
    cc: Seq<char>,
) -> int {
    if from is Some && a == from->0 && cc == c {
        bal_of(bs, a, cc) - amount
    } else if a == to && cc == c {
        bal_of(bs, a, cc) + amount
    } else {
        bal_of(bs, a, cc)
    }
}

/// Which balance entries exist after the move: the sender's entry is gone
/// exactly when it was spent to zero, the receiver's entry exists.
pub open spec fn moved_has(
    bs: Seq<BalView>,
    from: Option<Seq<char>>,
    to: Seq<char>,
    c: Seq<char>,
    amount: u64,
    a: Seq<char>,
    cc: Seq<char>,
) -> bool {
    if from is Some && a == from->0 && cc == c {
        bal_of(bs, a, cc) > amount
    } else if a == to && cc == c {
        true
    } else {
        has_bal(bs, a, cc)
    }
}

/// The transfer engine: debit the sender (when there is one), credit the
/// receiver, and mark the receiver as a known holder.  All-or-nothing by
/// construction — the caller must have established `can_move` first, and no
/// partial state is ever visible.  A mint is a move with no sender; it is
/// the only move that changes a class total, and it changes it by exactly
/// the credited amount.
pub fn apply_move(
    balances: &mut Vec<BalanceEntry>,
    holders: &mut Vec<String>,
    from: Option<&String>,
    to: &String,
    class_id: &String,
    amount: u64,
)
    requires
        bal_wf(old(balances).deep_view()),
        holders_unique(old(holders).deep_view()),
        holders_cover(old(balances).deep_view(), old(holders).deep_view()),
        can_move(old(balances).deep_view(), from.deep_view(), to@, class_id@, amount),
    ensures
        bal_wf(final(balances).deep_view()),
        holders_unique(final(holders).deep_view()),
        holders_cover(final(balances).deep_view(), final(holders).deep_view()),
        forall|a: Seq<char>, cc: Seq<char>|
            #[trigger] bal_of(final(balances).deep_view(), a, cc) == moved_bal(
                old(balances).deep_view(),
                from.deep_view(),
                to@,
                class_id@,
                amount,
                a,
                cc,
            ),
        forall|a: Seq<char>, cc: Seq<char>|
            #[trigger] has_bal(final(balances).deep_view(), a, cc) == moved_has(
                old(balances).deep_view(),
                from.deep_view(),
                to@,
                class_id@,
                amount,
                a,
                cc,
            ),
        forall|cc: Seq<char>|
            #[trigger] sum_class(final(balances).deep_view(), cc) == sum_class(
                old(balances).deep_view(),
                cc,
            ) + (if from is None && cc == class_id@ {
                amount as int
            } else {
                0
            }),
        forall|x: Seq<char>|
            #[trigger] holder_known(final(holders).deep_view(), x) <==> holder_known(
                old(holders).deep_view(),
                x,
            ) || x == to@,
{
    let ghost bs0 = balances.deep_view();
    let ghost fromv = from.deep_view();
    let ghost tov = to@;
    let ghost cv = class_id@;

    // Receiver lookup, before anything changes.
    let to_idx = find_balance(balances, to, class_id);
    let to_old: u64 = match to_idx {
        Some(j) => {
            proof {
                lemma_bal_entry_index(bs0, j as int);
            }
            balances[j].amount
        },
        None => {
            proof {
                lemma_bal_entry_absent(bs0, tov, cv);
            }
            0
        },
    };
    assert(to_old as int == bal_of(bs0, tov, cv));

    // Sender lookup, also before anything changes: crediting the receiver
    // either rewrites an entry in place or appends, so this index stays
    // valid.
    let from_idx: Option<usize> = match from {
        Some(f) => {
            let r = find_balance(balances, f, class_id);
            proof {
                if r is None {
                    lemma_bal_entry_absent(bs0, f@, cv);
                    assert(bal_of(bs0, f@, cv) == 0);
                    assert(false);
                }
                lemma_bal_entry_index(bs0, r->0 as int);
            }
            r
        },
        None => None,
    };

    let to_new: u64 = to_old + amount;

    // Credit the receiver.
    match to_idx {
        Some(j) => {
            let ghost e1 = BalView { amount: to_new, ..bs0[j as int] };
            set_bal_amount(balances, j, to_new);
            proof {
                let bs1 = balances.deep_view();
                assert(bs1 == bs0.update(j as int, e1));
                lemma_wf_update(bs0, j as int, e1);
                assert forall|a: Seq<char>, cc: Seq<char>| #[trigger]
                    bal_entry(bs1, a, cc) == (if a == tov && cc == cv {
                        Some(e1)
                    } else {
                        bal_entry(bs0, a, cc)
                    }) by {
                    lemma_bal_entry_update(bs0, j as int, e1, a, cc);
                }
                assert forall|cc: Seq<char>| #[trigger]
                    sum_class(bs1, cc) == sum_class(bs0, cc) + (if cc == cv {
                        amount as int
                    } else {
                        0
                    }) by {
                    lemma_sum_update(bs0, j as int, e1, cc);
                }
                assert forall|k: int|
                    0 <= k < bs1.len() implies holder_known(old(holders).deep_view(), bs1[k].account)
                    || bs1[k].account == tov by {
                    if k != j {
                        assert(bs1[k] == bs0[k]);
                    }
                }
            }
        },
        None => {
            let ghost e1 = BalView { account: tov, class_id: cv, amount: to_new };
            balances.push(BalanceEntry {
                account: to.clone(),
                class_id: class_id.clone(),
                amount: to_new,
            });
            proof {
                let bs1 = balances.deep_view();
                assert(bs1 =~= bs0.push(e1));
                lemma_wf_push(bs0, e1);
                assert forall|a: Seq<char>, cc: Seq<char>| #[trigger]
                    bal_entry(bs1, a, cc) == (if a == tov && cc == cv {
                        Some(e1)
                    } else {
                        bal_entry(bs0, a, cc)
                    }) by {
                    lemma_bal_entry_push(bs0, e1, a, cc);
                }
                assert forall|cc: Seq<char>| #[trigger]
                    sum_class(bs1, cc) == sum_class(bs0, cc) + (if cc == cv {
                        amount as int
                    } else {
                        0
                    }) by {
                    lemma_sum_push(bs0, e1, cc);
                }
                assert forall|k: int|
                    0 <= k < bs1.len() implies holder_known(old(holders).deep_view(), bs1[k].account)
                    || bs1[k].account == tov by {
                    if k < bs0.len() {
                        assert(bs1[k] == bs0[k]);
                    }
                }
            }
        },
    }
    let ghost bs1 = balances.deep_view();

    // Debit the sender.
    match (from, from_idx) {
        (Some(f), Some(i)) => {
            proof {
                // The receiver's entry and the sender's entry differ, so the
                // sender's index still points at the untouched entry.
                assert(bal_key_is(bs0[i as int], f@, cv));
                assert(f@ != tov);
                assert(bs1[i as int] == bs0[i as int]);
                assert(bs0[i as int].amount as int == bal_of(bs0, f@, cv));
            }
            let cur = balances[i].amount;
            if cur == amount {
                balances.remove(i);
                proof {
                    let bs2 = balances.deep_view();
                    assert(bs2 =~= bs1.remove(i as int));
                    lemma_wf_remove(bs1, i as int);
                    assert forall|a: Seq<char>, cc: Seq<char>| #[trigger]
                        bal_entry(bs2, a, cc) == (if a == f@ && cc == cv {
                            None
                        } else {
                            bal_entry(bs1, a, cc)
                        }) by {
                        lemma_bal_entry_remove(bs1, i as int, a, cc);
                    }
                    assert forall|cc: Seq<char>| #[trigger]
                        sum_class(bs2, cc) == sum_class(bs1, cc) - (if cc == cv {
                            amount as int
                        } else {
                            0
                        }) by {
                        lemma_sum_remove(bs1, i as int, cc);
                    }
                    assert forall|k: int|
                        0 <= k < bs2.len() implies holder_known(
                        old(holders).deep_view(),
                        bs2[k].account,
                    ) || bs2[k].account == tov by {
                        let k0 = if k < i { k } else { k + 1 };
                        assert(bs2[k] == bs1[k0]);
                    }
                }
            } else {
                let ghost e2 = BalView { amount: (cur - amount) as u64, ..bs1[i as int] };
                set_bal_amount(balances, i, cur - amount);
                proof {
                    let bs2 = balances.deep_view();
                    assert(bs2 == bs1.update(i as int, e2));
                    lemma_wf_update(bs1, i as int, e2);
                    assert forall|a: Seq<char>, cc: Seq<char>| #[trigger]
                        bal_entry(bs2, a, cc) == (if a == f@ && cc == cv {
                            Some(e2)
                        } else {
                            bal_entry(bs1, a, cc)
                        }) by {
                        lemma_bal_entry_update(bs1, i as int, e2, a, cc);
                    }
                    assert forall|cc: Seq<char>| #[trigger]
                        sum_class(bs2, cc) == sum_class(bs1, cc) - (if cc == cv {
                            amount as int
                        } else {
                            0
                        }) by {
                        lemma_sum_update(bs1, i as int, e2, cc);
                    }
                    assert forall|k: int|
                        0 <= k < bs2.len() implies holder_known(
                        old(holders).deep_view(),
                        bs2[k].account,
                    ) || bs2[k].account == tov by {
                        if k != i {
                            assert(bs2[k] == bs1[k]);
                        }
                    }
                }
            }
        },
        (None, _) => {
        },
        (Some(_), None) => {
            proof {
                assert(false);
            }
        },
    }

    note_holder(holders, to);

    proof {
        let bs2 = balances.deep_view();
        let hs2 = holders.deep_view();
        assert forall|a: Seq<char>, cc: Seq<char>| #[trigger]
            bal_of(bs2, a, cc) == moved_bal(bs0, fromv, tov, cv, amount, a, cc) by {}
        assert forall|a: Seq<char>, cc: Seq<char>| #[trigger]
            has_bal(bs2, a, cc) == moved_has(bs0, fromv, tov, cv, amount, a, cc) by {}
        assert forall|k: int| 0 <= k < bs2.len() implies holder_known(hs2, bs2[k].account) by {}
    }
}

} // verus!
