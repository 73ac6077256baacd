//! The approval ledger: which spender may move how many copies of which
//! class on which owner's behalf.
//!
//! Entries are keyed by `(owner, class_id, spender)` and hold a strictly
//! positive allowance; an allowance that would be written or spent to zero
//! is deleted instead.  Approving overwrites any prior allowance for the
//! same key, never adds to it; consuming decrements it, bounded below by
//! zero.

use vstd::prelude::*;

verus! {

/// One allowance: `owner` lets `spender` move up to `amount` copies of
/// `class_id`.
pub struct ApprovalEntry {
    pub owner: String,
    pub class_id: String,
    pub spender: String,
    pub amount: u64,
}

/// The mathematical value of an [`ApprovalEntry`].
pub ghost struct ApprView {
    pub owner: Seq<char>,
    pub class_id: Seq<char>,
    pub spender: Seq<char>,
    pub amount: u64,
}

impl View for ApprovalEntry {
    type V = ApprView;

    open spec fn view(&self) -> ApprView {
        ApprView {
            owner: self.owner@,
            class_id: self.class_id@,
            spender: self.spender@,
            amount: self.amount,
        }
    }
}

impl DeepView for ApprovalEntry {
    type V = ApprView;

    open spec fn deep_view(&self) -> ApprView {
        self.view()
    }
}

/// Does entry `e` carry the key `(o, c, s)`?
pub open spec fn appr_key_is(e: ApprView, o: Seq<char>, c: Seq<char>, s: Seq<char>) -> bool {
    e.owner == o && e.class_id == c && e.spender == s
}

/// The entry holding the key `(o, c, s)`, if one exists.
pub open spec fn appr_entry(ps: Seq<ApprView>, o: Seq<char>, c: Seq<char>, s: Seq<char>) -> Option<
    ApprView,
>
    decreases ps.len(),
{
    if ps.len() == 0 {
        None
    } else if appr_key_is(ps.last(), o, c, s) {
        Some(ps.last())
    } else {
        appr_entry(ps.drop_last(), o, c, s)
    }
}

/// Does an allowance entry exist for this key?
pub open spec fn has_appr(ps: Seq<ApprView>, o: Seq<char>, c: Seq<char>, s: Seq<char>) -> bool {
    appr_entry(ps, o, c, s) is Some
}

/// The allowance for this key; zero when no entry exists.
pub open spec fn allowance_of(ps: Seq<ApprView>, o: Seq<char>, c: Seq<char>, s: Seq<char>) -> int {
    match appr_entry(ps, o, c, s) {
        Some(e) => e.amount as int,
        None => 0,
    }
}

/// No two entries share a key.
pub open spec fn appr_keys_unique(ps: Seq<ApprView>) -> bool {
    forall|i: int, j: int|
        0 <= i < j < ps.len() ==> !(ps[i].owner == ps[j].owner && ps[i].class_id == ps[j].class_id
            && ps[i].spender == ps[j].spender)
}

/// The approval ledger's own invariant: unique keys, and nothing stored at
/// zero.
pub open spec fn appr_wf(ps: Seq<ApprView>) -> bool {
    &&& appr_keys_unique(ps)
    &&& forall|i: int| 0 <= i < ps.len() ==> ps[i].amount > 0
}

/// A found entry carries its own key and sits somewhere in the list; when
/// nothing is found, no index matches.
pub proof fn lemma_appr_entry_props(ps: Seq<ApprView>, o: Seq<char>, c: Seq<char>, s: Seq<char>)
    ensures
        match appr_entry(ps, o, c, s) {
            Some(e) => e.owner == o && e.class_id == c && e.spender == s && exists|k: int|
                0 <= k < ps.len() && ps[k] == e,
            None => forall|k: int| 0 <= k < ps.len() ==> !appr_key_is(ps[k], o, c, s),
        },
    decreases ps.len(),
{
    if ps.len() > 0 {
        lemma_appr_entry_props(ps.drop_last(), o, c, s);
        if !appr_key_is(ps.last(), o, c, s) {
            match appr_entry(ps.drop_last(), o, c, s) {
                Some(e) => {
                    let k = choose|k: int|
                        0 <= k < ps.drop_last().len() && ps.drop_last()[k] == e;
                    assert(ps[k] == e);
                },
                None => {
                    assert forall|k: int| 0 <= k < ps.len() implies !appr_key_is(
                        ps[k],
                        o,
                        c,
                        s,
                    ) by {
                        if k < ps.len() - 1 {
                            assert(ps.drop_last()[k] == ps[k]);
                        }
                    }
                },
            }
        } else {
            assert(ps[ps.len() - 1] == ps.last());
        }
    }
}

/// Under unique keys, the entry at index `k` is what lookup by its key finds.
pub proof fn lemma_appr_entry_index(ps: Seq<ApprView>, k: int)
    requires
        appr_keys_unique(ps),
        0 <= k < ps.len(),
    ensures
        appr_entry(ps, ps[k].owner, ps[k].class_id, ps[k].spender) == Some(ps[k]),
    decreases ps.len(),
{
    if k == ps.len() - 1 {
        assert(appr_key_is(ps.last(), ps[k].owner, ps[k].class_id, ps[k].spender));
    } else {
        assert(!(ps[k].owner == ps[ps.len() - 1].owner && ps[k].class_id == ps[ps.len()
            - 1].class_id && ps[k].spender == ps[ps.len() - 1].spender));
        assert(ps.drop_last()[k] == ps[k]);
        lemma_appr_entry_index(ps.drop_last(), k);
    }
}

/// When no index matches the key, lookup finds nothing.
pub proof fn lemma_appr_entry_absent(ps: Seq<ApprView>, o: Seq<char>, c: Seq<char>, s: Seq<char>)
    requires
        forall|k: int| 0 <= k < ps.len() ==> !appr_key_is(ps[k], o, c, s),
    ensures
        appr_entry(ps, o, c, s) is None,
{
    lemma_appr_entry_props(ps, o, c, s);
}

/// How lookup reads through an appended entry.
pub proof fn lemma_appr_entry_push(
    ps: Seq<ApprView>,
    e: ApprView,
    o: Seq<char>,
    c: Seq<char>,
    s: Seq<char>,
)
    ensures
        appr_entry(ps.push(e), o, c, s) == (if appr_key_is(e, o, c, s) {
            Some(e)
        } else {
            appr_entry(ps, o, c, s)
        }),
{
    assert(ps.push(e).drop_last() =~= ps);
}

/// How lookup reads through an update that keeps the entry's key.
pub proof fn lemma_appr_entry_update(
    ps: Seq<ApprView>,
    k: int,
    e: ApprView,
    o: Seq<char>,
    c: Seq<char>,
    s: Seq<char>,
)
    requires
        appr_keys_unique(ps),
        0 <= k < ps.len(),
        e.owner == ps[k].owner,
        e.class_id == ps[k].class_id,
        e.spender == ps[k].spender,
    ensures
        appr_entry(ps.update(k, e), o, c, s) == (if appr_key_is(ps[k], o, c, s) {
            Some(e)
        } else {
            appr_entry(ps, o, c, s)
        }),
    decreases ps.len(),
{
    let upd = ps.update(k, e);
    if k == ps.len() - 1 {
        assert(upd.last() == e);
        assert(upd.drop_last() =~= ps.drop_last());
    } else {
        assert(upd.last() == ps.last());
        assert(upd.drop_last() =~= ps.drop_last().update(k, e));
        assert(ps.drop_last()[k] == ps[k]);
        assert(!(ps[k].owner == ps[ps.len() - 1].owner && ps[k].class_id == ps[ps.len()
            - 1].class_id && ps[k].spender == ps[ps.len() - 1].spender));
        lemma_appr_entry_update(ps.drop_last(), k, e, o, c, s);
    }
}

/// How lookup reads through a removal.
pub proof fn lemma_appr_entry_remove(
    ps: Seq<ApprView>,
    k: int,
    o: Seq<char>,
    c: Seq<char>,
    s: Seq<char>,
)
    requires
        appr_keys_unique(ps),
        0 <= k < ps.len(),
    ensures
        appr_entry(ps.remove(k), o, c, s) == (if appr_key_is(ps[k], o, c, s) {
            None
        } else {
            appr_entry(ps, o, c, s)
        }),
    decreases ps.len(),
{
    let rem = ps.remove(k);
    if k == ps.len() - 1 {
        assert(rem =~= ps.drop_last());
        if appr_key_is(ps[k], o, c, s) {
            lemma_appr_entry_props(rem, o, c, s);
            match appr_entry(rem, o, c, s) {
                Some(e) => {
                    let j = choose|j: int| 0 <= j < rem.len() && rem[j] == e;
                    assert(ps[j] == e);
                    assert(!(ps[j].owner == ps[k].owner && ps[j].class_id == ps[k].class_id
                        && ps[j].spender == ps[k].spender));
                },
                None => {},
            }
        }
    } else {
        assert(rem.last() == ps.last());
        assert(rem.drop_last() =~= ps.drop_last().remove(k));
        assert(ps.drop_last()[k] == ps[k]);
        assert(!(ps[k].owner == ps[ps.len() - 1].owner && ps[k].class_id == ps[ps.len()
            - 1].class_id && ps[k].spender == ps[ps.len() - 1].spender));
        lemma_appr_entry_remove(ps.drop_last(), k, o, c, s);
    }
}

/// In a well-formed ledger an allowance entry exists exactly when the
/// allowance is positive: nothing is ever stored at zero.
pub proof fn lemma_appr_positive(ps: Seq<ApprView>, o: Seq<char>, c: Seq<char>, s: Seq<char>)
    requires
        appr_wf(ps),
    ensures
        has_appr(ps, o, c, s) <==> allowance_of(ps, o, c, s) > 0,
{
    lemma_appr_entry_props(ps, o, c, s);
    match appr_entry(ps, o, c, s) {
        Some(e) => {
            let k = choose|k: int| 0 <= k < ps.len() && ps[k] == e;
            assert(ps[k].amount > 0);
        },
        None => {},
    }
}

/// Well-formedness survives an update that keeps the key and stays positive.
pub proof fn lemma_appr_wf_update(ps: Seq<ApprView>, k: int, e: ApprView)
    requires
        appr_wf(ps),
        0 <= k < ps.len(),
        e.owner == ps[k].owner,
        e.class_id == ps[k].class_id,
        e.spender == ps[k].spender,
        e.amount > 0,
    ensures
        appr_wf(ps.update(k, e)),
{
}

/// Well-formedness survives appending an entry with a fresh key.
pub proof fn lemma_appr_wf_push(ps: Seq<ApprView>, e: ApprView)
    requires
        appr_wf(ps),
        e.amount > 0,
        forall|k: int| 0 <= k < ps.len() ==> !appr_key_is(ps[k], e.owner, e.class_id, e.spender),
    ensures
        appr_wf(ps.push(e)),
{
    let ext = ps.push(e);
    assert forall|i: int, j: int|
        0 <= i < j < ext.len() implies !(ext[i].owner == ext[j].owner && ext[i].class_id
        == ext[j].class_id && ext[i].spender == ext[j].spender) by {
        if j < ps.len() {
        } else {
            assert(ext[j] == e);
            assert(!appr_key_is(ps[i], e.owner, e.class_id, e.spender));
        }
    }
}

/// Well-formedness survives removing an entry.
pub proof fn lemma_appr_wf_remove(ps: Seq<ApprView>, k: int)
    requires
        appr_wf(ps),
        0 <= k < ps.len(),
    ensures
        appr_wf(ps.remove(k)),
{
    let rem = ps.remove(k);
    assert forall|i: int, j: int|
        0 <= i < j < rem.len() implies !(rem[i].owner == rem[j].owner && rem[i].class_id
        == rem[j].class_id && rem[i].spender == rem[j].spender) by {
        let i0 = if i < k { i } else { i + 1 };
        let j0 = if j < k { j } else { j + 1 };
        assert(rem[i] == ps[i0]);
        assert(rem[j] == ps[j0]);
    }
    assert forall|i: int| 0 <= i < rem.len() implies rem[i].amount > 0 by {
        let i0 = if i < k { i } else { i + 1 };
        assert(rem[i] == ps[i0]);
    }
}

/// The index of the entry keyed `(owner, class_id, spender)`.
pub fn find_approval(v: &Vec<ApprovalEntry>, owner: &String, class_id: &String, spender: &String)
    -> (r: Option<usize>)
    ensures
        match r {
            Some(i) => i < v.deep_view().len() && appr_key_is(
                v.deep_view()[i as int],
                owner@,
                class_id@,
                spender@,
            ),
            None => forall|k: int|
                0 <= k < v.deep_view().len() ==> !appr_key_is(
                    v.deep_view()[k],
                    owner@,
                    class_id@,
                    spender@,
                ),
        },
{
    let n = v.len();
    let mut i: usize = 0;
    while i < n
        invariant
            n == v.deep_view().len(),
            i <= n,
            forall|k: int| 0 <= k < i ==> !appr_key_is(v.deep_view()[k], owner@, class_id@, spender@),
        decreases n - i,
    {
        if v[i].owner == *owner && v[i].class_id == *class_id && v[i].spender == *spender {
            return Some(i);
        }
        i = i + 1;
    }
    None
}

/// The allowance for this key; zero when no entry exists.
pub fn allowance_amount(
    v: &Vec<ApprovalEntry>,
    owner: &String,
    class_id: &String,
    spender: &String,
) -> (r: u64)
    requires
        appr_keys_unique(v.deep_view()),
    ensures
        r as int == allowance_of(v.deep_view(), owner@, class_id@, spender@),
{
    match find_approval(v, owner, class_id, spender) {
        Some(i) => {
            proof {
                lemma_appr_entry_index(v.deep_view(), i as int);
            }
            v[i].amount
        },
        None => {
            proof {
                lemma_appr_entry_absent(v.deep_view(), owner@, class_id@, spender@);
            }
            0
        },
    }
}

/// Replace the allowance stored at index `i`, keeping the entry's key.
fn set_appr_amount(v: &mut Vec<ApprovalEntry>, i: usize, amount: u64)
    requires
        i < old(v).deep_view().len(),
    ensures
        final(v).deep_view() == old(v).deep_view().update(
            i as int,
            ApprView { amount, ..old(v).deep_view()[i as int] },
        ),
{
    let mut e = v.remove(i);
    e.amount = amount;
    v.insert(i, e);
    proof {
        assert(v@ =~= old(v)@.remove(i as int).insert(i as int, v@[i as int]));
        assert(v.deep_view() =~= old(v).deep_view().update(
            i as int,
            ApprView { amount, ..old(v).deep_view()[i as int] },
        ));
    }
}

/// Each key's allowance after one key is overwritten to `amount` (where a
/// zero `amount` means the entry is gone).
pub open spec fn written_allowance(
    ps: Seq<ApprView>,
    o: Seq<char>,
    c: Seq<char>,
    s: Seq<char>,
    amount: u64,
    qo: Seq<char>,
    qc: Seq<char>,
    qs: Seq<char>,
) -> int {
    if qo == o && qc == c && qs == s {
        amount as int
    } else {
        allowance_of(ps, qo, qc, qs)
    }
}

/// Set the allowance for `(owner, class_id, spender)` to exactly `amount`,
/// overwriting any prior allowance; an `amount` of zero leaves no entry.
pub fn set_approval(
    v: &mut Vec<ApprovalEntry>,
    owner: &String,
    class_id: &String,
    spender: &String,
    amount: u64,
)
    requires
        appr_wf(old(v).deep_view()),
    ensures
        appr_wf(final(v).deep_view()),
        forall|qo: Seq<char>, qc: Seq<char>, qs: Seq<char>|
            #[trigger] allowance_of(final(v).deep_view(), qo, qc, qs) == written_allowance(
                old(v).deep_view(),
                owner@,
                class_id@,
                spender@,
                amount,
                qo,
                qc,
                qs,
            ),
        forall|qo: Seq<char>, qc: Seq<char>, qs: Seq<char>|
            #[trigger] has_appr(final(v).deep_view(), qo, qc, qs) == (if qo == owner@ && qc
                == class_id@ && qs == spender@ {
                amount > 0
            } else {
                has_appr(old(v).deep_view(), qo, qc, qs)
            }),
{
    let ghost ps0 = v.deep_view();
    let ghost ov = owner@;
    let ghost cv = class_id@;
    let ghost sv = spender@;
    let found = find_approval(v, owner, class_id, spender);
    match found {
        Some(i) => {
            if amount == 0 {
                v.remove(i);
                proof {
                    let ps1 = v.deep_view();
                    assert(ps1 =~= ps0.remove(i as int));
                    lemma_appr_wf_remove(ps0, i as int);
                    assert forall|qo: Seq<char>, qc: Seq<char>, qs: Seq<char>| #[trigger]
                        appr_entry(ps1, qo, qc, qs) == (if qo == ov && qc == cv && qs == sv {
                            None
                        } else {
                            appr_entry(ps0, qo, qc, qs)
                        }) by {
                        lemma_appr_entry_remove(ps0, i as int, qo, qc, qs);
                    }
                }
            } else {
                let ghost e1 = ApprView { amount, ..ps0[i as int] };
                set_appr_amount(v, i, amount);
                proof {
                    let ps1 = v.deep_view();
                    lemma_appr_wf_update(ps0, i as int, e1);
                    assert forall|qo: Seq<char>, qc: Seq<char>, qs: Seq<char>| #[trigger]
                        appr_entry(ps1, qo, qc, qs) == (if qo == ov && qc == cv && qs == sv {
                            Some(e1)
                        } else {
                            appr_entry(ps0, qo, qc, qs)
                        }) by {
                        lemma_appr_entry_update(ps0, i as int, e1, qo, qc, qs);
                    }
                }
            }
        },
        None => {
            if amount == 0 {
                proof {
                    lemma_appr_entry_absent(ps0, ov, cv, sv);
                }
            } else {
                let ghost e1 = ApprView { owner: ov, class_id: cv, spender: sv, amount };
                v.push(ApprovalEntry {
                    owner: owner.clone(),
                    class_id: class_id.clone(),
                    spender: spender.clone(),
                    amount,
                });
                proof {
                    let ps1 = v.deep_view();
                    assert(ps1 =~= ps0.push(e1));
                    lemma_appr_wf_push(ps0, e1);
                    lemma_appr_entry_absent(ps0, ov, cv, sv);
                    assert forall|qo: Seq<char>, qc: Seq<char>, qs: Seq<char>| #[trigger]
                        appr_entry(ps1, qo, qc, qs) == (if qo == ov && qc == cv && qs == sv {
                            Some(e1)
                        } else {
                            appr_entry(ps0, qo, qc, qs)
                        }) by {
                        lemma_appr_entry_push(ps0, e1, qo, qc, qs);
                    }
                }
            }
        },
    }
}

/// Remove the allowance entry for `(owner, class_id, spender)` if one
/// exists; reports whether one did.  Never an error: revoking what is not
/// there is a no-op.
pub fn remove_approval(
    v: &mut Vec<ApprovalEntry>,
    owner: &String,
    class_id: &String,
    spender: &String,
) -> (removed: bool)
    requires
        appr_wf(old(v).deep_view()),
    ensures
        appr_wf(final(v).deep_view()),
        removed == has_appr(old(v).deep_view(), owner@, class_id@, spender@),
        !removed ==> *final(v) == *old(v),
        forall|qo: Seq<char>, qc: Seq<char>, qs: Seq<char>|
            #[trigger] allowance_of(final(v).deep_view(), qo, qc, qs) == written_allowance(
                old(v).deep_view(),
                owner@,
                class_id@,
                spender@,
                0,
                qo,
                qc,
                qs,
            ),
        forall|qo: Seq<char>, qc: Seq<char>, qs: Seq<char>|
            #[trigger] has_appr(final(v).deep_view(), qo, qc, qs) == (if qo == owner@ && qc
                == class_id@ && qs == spender@ {
                false
            } else {
                has_appr(old(v).deep_view(), qo, qc, qs)
            }),
{
    let ghost ps0 = v.deep_view();
    let ghost ov = owner@;
    let ghost cv = class_id@;
    let ghost sv = spender@;
    match find_approval(v, owner, class_id, spender) {
        Some(i) => {
            proof {
                lemma_appr_entry_index(ps0, i as int);
            }
            v.remove(i);
            proof {
                let ps1 = v.deep_view();
                assert(ps1 =~= ps0.remove(i as int));
                lemma_appr_wf_remove(ps0, i as int);
                assert forall|qo: Seq<char>, qc: Seq<char>, qs: Seq<char>| #[trigger]
                    appr_entry(ps1, qo, qc, qs) == (if qo == ov && qc == cv && qs == sv {
                        None
                    } else {
                        appr_entry(ps0, qo, qc, qs)
                    }) by {
                    lemma_appr_entry_remove(ps0, i as int, qo, qc, qs);
                }
            }
            true
        },
        None => {
            proof {
                lemma_appr_entry_absent(ps0, ov, cv, sv);
            }
            false
        },
    }
}

/// Spend `amount` of an existing allowance: decrement it, delete the entry
/// when it reaches zero, and report what remains.  The caller must have
/// checked that the allowance covers the amount.
pub fn consume_approval(
    v: &mut Vec<ApprovalEntry>,
    owner: &String,
    class_id: &String,
    spender: &String,
    amount: u64,
) -> (remaining: u64)
    requires
        appr_wf(old(v).deep_view()),
        amount > 0,
        allowance_of(old(v).deep_view(), owner@, class_id@, spender@) >= amount,
    ensures
        appr_wf(final(v).deep_view()),
        remaining as int == allowance_of(old(v).deep_view(), owner@, class_id@, spender@) - amount,
        forall|qo: Seq<char>, qc: Seq<char>, qs: Seq<char>|
            #[trigger] allowance_of(final(v).deep_view(), qo, qc, qs) == written_allowance(
                old(v).deep_view(),
                owner@,
                class_id@,
                spender@,
                remaining,
                qo,
                qc,
                qs,
            ),
        forall|qo: Seq<char>, qc: Seq<char>, qs: Seq<char>|
            #[trigger] has_appr(final(v).deep_view(), qo, qc, qs) == (if qo == owner@ && qc
                == class_id@ && qs == spender@ {
                remaining > 0
            } else {
                has_appr(old(v).deep_view(), qo, qc, qs)
            }),
{
    let ghost ps0 = v.deep_view();
    let ghost ov = owner@;
    let ghost cv = class_id@;
    let ghost sv = spender@;
    let found = find_approval(v, owner, class_id, spender);
    proof {
        if found is None {
            lemma_appr_entry_absent(ps0, ov, cv, sv);
            assert(false);
        }
        lemma_appr_entry_index(ps0, found->0 as int);
    }
    let i = found.unwrap();
    let cur = v[i].amount;
    let remaining = cur - amount;
    if remaining == 0 {
        v.remove(i);
        proof {
            let ps1 = v.deep_view();
            assert(ps1 =~= ps0.remove(i as int));
            lemma_appr_wf_remove(ps0, i as int);
            assert forall|qo: Seq<char>, qc: Seq<char>, qs: Seq<char>| #[trigger]
                appr_entry(ps1, qo, qc, qs) == (if qo == ov && qc == cv && qs == sv {
                    None
                } else {
                    appr_entry(ps0, qo, qc, qs)
                }) by {
                lemma_appr_entry_remove(ps0, i as int, qo, qc, qs);
            }
        }
    } else {
        let ghost e1 = ApprView { amount: remaining, ..ps0[i as int] };
        set_appr_amount(v, i, remaining);
        proof {
            let ps1 = v.deep_view();
            lemma_appr_wf_update(ps0, i as int, e1);
            assert forall|qo: Seq<char>, qc: Seq<char>, qs: Seq<char>| #[trigger]
                appr_entry(ps1, qo, qc, qs) == (if qo == ov && qc == cv && qs == sv {
                    Some(e1)
                } else {
                    appr_entry(ps0, qo, qc, qs)
                }) by {
                lemma_appr_entry_update(ps0, i as int, e1, qo, qc, qs);
            }
        }
    }
    remaining
}

} // verus!
