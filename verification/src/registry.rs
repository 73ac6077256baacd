//! The class registry: identity, metadata, creator attribution, and the
//! total-supply counter of every token class.
//!
//! A class either exists with all of its parts — metadata, creator, supply —
//! or not at all; the single record type makes partial existence
//! unrepresentable.  Classes are permanent: nothing ever removes a record,
//! and only minting moves the supply counter, upward.

use vstd::prelude::*;

use crate::meta::{MetaView, NFTMetadata};

verus! {

/// One registered token class.
pub struct ClassRecord {
    pub class_id: String,
    pub metadata: NFTMetadata,
    pub creator_id: String,
    pub supply: u64,
}

/// The mathematical value of a [`ClassRecord`].
pub ghost struct ClassView {
    pub class_id: Seq<char>,
    pub metadata: MetaView,
    pub creator_id: Seq<char>,
    pub supply: u64,
}

impl View for ClassRecord {
    type V = ClassView;

    open spec fn view(&self) -> ClassView {
        ClassView {
            class_id: self.class_id@,
            metadata: self.metadata@,
            creator_id: self.creator_id@,
            supply: self.supply,
        }
    }
}

impl DeepView for ClassRecord {
    type V = ClassView;

    open spec fn deep_view(&self) -> ClassView {
        self.view()
    }
}

/// The record registered under class id `c`, if any.  Scans from the end;
/// under unique ids the position does not matter.
pub open spec fn record_of(rs: Seq<ClassView>, c: Seq<char>) -> Option<ClassView>
    decreases rs.len(),
{
    if rs.len() == 0 {
        None
    } else if rs.last().class_id == c {
        Some(rs.last())
    } else {
        record_of(rs.drop_last(), c)
    }
}

/// Is class `c` registered?
pub open spec fn has_class(rs: Seq<ClassView>, c: Seq<char>) -> bool {
    record_of(rs, c) is Some
}

/// The total supply of class `c`; zero when the class is not registered.
pub open spec fn supply_of(rs: Seq<ClassView>, c: Seq<char>) -> int {
    match record_of(rs, c) {
        Some(r) => r.supply as int,
        None => 0,
    }
}

/// No two records share a class id.
pub open spec fn class_ids_unique(rs: Seq<ClassView>) -> bool {
    forall|i: int, j: int| 0 <= i < j < rs.len() ==> rs[i].class_id != rs[j].class_id
}

/// The registry's own invariant: unique, non-empty class ids.
pub open spec fn registry_wf(rs: Seq<ClassView>) -> bool {
    &&& class_ids_unique(rs)
    &&& forall|i: int| 0 <= i < rs.len() ==> rs[i].class_id.len() > 0
}

/// A found record carries its own id and sits somewhere in the list; when
/// nothing is found, no index matches.
pub proof fn lemma_record_of_props(rs: Seq<ClassView>, c: Seq<char>)
    ensures
        match record_of(rs, c) {
            Some(r) => r.class_id == c && exists|k: int| 0 <= k < rs.len() && rs[k] == r,
            None => forall|k: int| 0 <= k < rs.len() ==> rs[k].class_id != c,
        },
    decreases rs.len(),
{
    if rs.len() > 0 {
        lemma_record_of_props(rs.drop_last(), c);
        if rs.last().class_id != c {
            match record_of(rs.drop_last(), c) {
                Some(r) => {
                    let k = choose|k: int|
                        0 <= k < rs.drop_last().len() && rs.drop_last()[k] == r;
                    assert(rs[k] == r);
                },
                None => {
                    assert forall|k: int| 0 <= k < rs.len() implies rs[k].class_id != c by {
                        if k < rs.len() - 1 {
                            assert(rs.drop_last()[k] == rs[k]);
                        }
                    }
                },
            }
        } else {
            assert(rs[rs.len() - 1] == rs.last());
        }
    }
}

/// Under unique ids, the record at index `k` is what lookup by its id finds.
pub proof fn lemma_record_of_index(rs: Seq<ClassView>, k: int)
    requires
        class_ids_unique(rs),
        0 <= k < rs.len(),
    ensures
        record_of(rs, rs[k].class_id) == Some(rs[k]),
    decreases rs.len(),
{
    if k == rs.len() - 1 {
    } else {
        assert(rs[k].class_id != rs[rs.len() - 1].class_id);
        assert(rs.drop_last()[k] == rs[k]);
        lemma_record_of_index(rs.drop_last(), k);
    }
}

/// When no index matches the id, lookup finds nothing.
pub proof fn lemma_record_of_absent(rs: Seq<ClassView>, c: Seq<char>)
    requires
        forall|k: int| 0 <= k < rs.len() ==> rs[k].class_id != c,
    ensures
        record_of(rs, c) is None,
{
    lemma_record_of_props(rs, c);
}

/// How lookup reads through an appended record.
pub proof fn lemma_record_of_push(rs: Seq<ClassView>, r: ClassView, c: Seq<char>)
    ensures
        record_of(rs.push(r), c) == (if r.class_id == c {
            Some(r)
        } else {
            record_of(rs, c)
        }),
{
    assert(rs.push(r).drop_last() =~= rs);
}

/// How lookup reads through an update that keeps the record's id.
pub proof fn lemma_record_of_update(rs: Seq<ClassView>, k: int, r: ClassView, c: Seq<char>)
    requires
        class_ids_unique(rs),
        0 <= k < rs.len(),
        r.class_id == rs[k].class_id,
    ensures
        record_of(rs.update(k, r), c) == (if rs[k].class_id == c {
            Some(r)
        } else {
            record_of(rs, c)
        }),
    decreases rs.len(),
{
    let upd = rs.update(k, r);
    if k == rs.len() - 1 {
        assert(upd.last() == r);
        assert(upd.drop_last() =~= rs.drop_last());
    } else {
        assert(upd.last() == rs.last());
        assert(upd.drop_last() =~= rs.drop_last().update(k, r));
        assert(rs.drop_last()[k] == rs[k]);
        assert(rs[k].class_id != rs[rs.len() - 1].class_id);
        lemma_record_of_update(rs.drop_last(), k, r, c);
    }
}

/// Well-formedness survives appending a record with a fresh, non-empty id.
pub proof fn lemma_registry_wf_push(rs: Seq<ClassView>, r: ClassView)
    requires
        registry_wf(rs),
        r.class_id.len() > 0,
        forall|k: int| 0 <= k < rs.len() ==> rs[k].class_id != r.class_id,
    ensures
        registry_wf(rs.push(r)),
{
    let ext = rs.push(r);
    assert forall|i: int, j: int|
        0 <= i < j < ext.len() implies ext[i].class_id != ext[j].class_id by {
        if j < rs.len() {
        } else {
            assert(ext[j] == r);
        }
    }
}

/// Well-formedness survives an update that keeps the record's id.
pub proof fn lemma_registry_wf_update(rs: Seq<ClassView>, k: int, r: ClassView)
    requires
        registry_wf(rs),
        0 <= k < rs.len(),
        r.class_id == rs[k].class_id,
    ensures
        registry_wf(rs.update(k, r)),
{
}

/// The index of the record registered under `class_id`, scanning forward.
pub fn find_class(v: &Vec<ClassRecord>, class_id: &String) -> (r: Option<usize>)
    ensures
        match r {
            Some(i) => i < v.deep_view().len() && v.deep_view()[i as int].class_id == class_id@,
            None => forall|k: int|
                0 <= k < v.deep_view().len() ==> v.deep_view()[k].class_id != class_id@,
        },
{
    let n = v.len();
    let mut i: usize = 0;
    while i < n
        invariant
            n == v.deep_view().len(),
            i <= n,
            forall|k: int| 0 <= k < i ==> v.deep_view()[k].class_id != class_id@,
        decreases n - i,
    {
        if v[i].class_id == *class_id {
            return Some(i);
        }
        i = i + 1;
    }
    None
}

/// Replace the supply counter stored at index `i`, keeping everything else.
pub fn set_supply(v: &mut Vec<ClassRecord>, i: usize, supply: u64)
    requires
        i < old(v).deep_view().len(),
    ensures
        final(v).deep_view() == old(v).deep_view().update(
            i as int,
            ClassView { supply, ..old(v).deep_view()[i as int] },
        ),
{
    let mut rec = v.remove(i);
    rec.supply = supply;
    v.insert(i, rec);
    proof {
        assert(v@ =~= old(v)@.remove(i as int).insert(i as int, v@[i as int]));
        assert(v.deep_view() =~= old(v).deep_view().update(
            i as int,
            ClassView { supply, ..old(v).deep_view()[i as int] },
        ));
    }
}

} // verus!
