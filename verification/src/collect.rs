//! The branch collector: filtering and time-ordering.
//!
//! Out of the raw listing of local branches the collector drops the
//! protected branch `master` and the branch currently checked out,
//! stamps each survivor with its naive local last-commit time, and
//! orders the survivors by that time, ascending, keeping the raw
//! listing's order between equal times. Each survivor carries the
//! index it had in the raw listing as its `handle`, the key under
//! which its deletion is later asked for.

use vstd::prelude::*;
use crate::branch::{Branch, BranchView, RawBranch, RawBranchView};
use crate::session::distinct_handles;

verus! {

/// A raw branch survives the filter when it is named neither
/// `master` nor like the currently checked-out branch.
pub open spec fn kept(rv: Seq<RawBranchView>, head: Seq<char>, i: int) -> bool {
    rv[i].name != "master"@ && rv[i].name != head
}

/// The reviewed branch `b` is the raw branch at its own handle,
/// decorated: name and commit id carried over, the time the commit
/// timestamp plus the recorded offset in minutes.
pub open spec fn decorates(rv: Seq<RawBranchView>, b: BranchView) -> bool {
    &&& b.name == rv[b.handle as int].name
    &&& b.commit_id == rv[b.handle as int].commit_id
    &&& b.time == rv[b.handle as int].seconds + rv[b.handle as int].offset_minutes
}

/// Strict order on reviewed branches: earlier last-commit time first,
/// and on equal times the branch that the raw listing named first.
pub open spec fn lex_before(a: BranchView, b: BranchView) -> bool {
    a.time < b.time || (a.time == b.time && a.handle < b.handle)
}

/// A branch fit for the review list: its handle points into the raw
/// listing, at an entry that survives the filter and that the branch
/// decorates.
pub open spec fn admitted(rv: Seq<RawBranchView>, head: Seq<char>, b: BranchView) -> bool {
    &&& 0 <= b.handle < rv.len()
    &&& kept(rv, head, b.handle as int)
    &&& decorates(rv, b)
}

/// Some branch of `s` has the handle `i`.
pub open spec fn has_handle(s: Seq<BranchView>, i: int) -> bool {
    exists|j: int| 0 <= j < s.len() && s[j].handle == i
}

/// `lex_before`, decided executably.
pub fn lex_lt(a: &Branch, b: &Branch) -> (r: bool)
    ensures
        r == lex_before(a@, b@),
{
    a.time < b.time || (a.time == b.time && a.handle < b.handle)
}

/// Builds the review list: every raw branch named neither `master`
/// nor like `head_name` appears exactly once, stamped with its naive
/// local last-commit time and its raw index as handle, and the list
/// is ascending by time with ties left in raw-listing order.
pub fn get_branches(raw: Vec<RawBranch>, head_name: &String) -> (r: Vec<Branch>)
    requires
        forall|i: int|
            0 <= i < raw@.len() ==> i64::MIN <= (#[trigger] raw@[i])@.seconds
                + raw@[i]@.offset_minutes <= i64::MAX,
    ensures
        ({
            let rv = raw@.map_values(|x: RawBranch| x@);
            let rb = r@.map_values(|x: Branch| x@);
            &&& forall|j: int| 0 <= j < rb.len() ==> admitted(rv, head_name@, #[trigger] rb[j])
            &&& forall|i: int|
                0 <= i < rv.len() && kept(rv, head_name@, i) ==> has_handle(rb, i)
            &&& forall|j: int, k: int| 0 <= j < k < rb.len() ==> lex_before(rb[j], rb[k])
            &&& distinct_handles(rb)
        }),
{
    let ghost orig = raw@;
    let ghost rv = raw@.map_values(|x: RawBranch| x@);
    let ghost head = head_name@;
    let master: String = "master".to_owned();
    let mut raw = raw;
    let mut pool: Vec<Branch> = Vec::new();
    while raw.len() > 0
        invariant
            raw@ =~= orig.subrange(0, raw@.len() as int),
            raw@.len() <= orig.len(),
            rv == orig.map_values(|x: RawBranch| x@),
            rv.len() == orig.len(),
            master@ == "master"@,
            head == head_name@,
            forall|i: int|
                0 <= i < orig.len() ==> i64::MIN <= (#[trigger] orig[i])@.seconds
                    + orig[i]@.offset_minutes <= i64::MAX,
            forall|j: int|
                0 <= j < pool@.len() ==> admitted(rv, head, #[trigger] pool@[j]@) && raw@.len()
                    <= pool@[j]@.handle,
            forall|j: int, k: int|
                0 <= j < k < pool@.len() ==> pool@[j]@.handle > pool@[k]@.handle,
            forall|i: int|
                raw@.len() <= i < rv.len() && kept(rv, head, i) ==> has_handle(
                    pool@.map_values(|x: Branch| x@),
                    i,
                ),
        decreases raw@.len(),
    {
        let idx = raw.len() - 1;
        let rb = raw.pop().unwrap();
        proof {
            assert(rb == orig[idx as int]);
            assert(rb@ == rv[idx as int]);
            assert(raw@ =~= orig.subrange(0, raw@.len() as int));
        }
        let keep_it = !(rb.name == master || rb.name == *head_name);
        if keep_it {
            let time = rb.seconds + (rb.offset_minutes as i64);
            let ghost pool0 = pool@.map_values(|x: Branch| x@);
            pool.push(Branch { name: rb.name, commit_id: rb.commit_id, time, handle: idx });
            proof {
                let pm = pool@.map_values(|x: Branch| x@);
                assert(pm =~= pool0.push(pool@[pool@.len() - 1]@));
                assert(pm[pm.len() - 1].handle == idx as int);
                assert forall|i: int|
                    raw@.len() <= i < rv.len() && kept(rv, head, i) implies has_handle(
                    pm,
                    i,
                ) by {
                    if i == idx as int {
                        assert(pm[pm.len() - 1].handle == i);
                    } else {
                        let j = choose|j: int| 0 <= j < pool0.len() && pool0[j].handle == i;
                        assert(pm[j].handle == i);
                    }
                }
            }
        } else {
            proof {
                assert(!kept(rv, head, idx as int));
                assert forall|i: int|
                    raw@.len() <= i < rv.len() && kept(rv, head, i) implies has_handle(
                    pool@.map_values(|x: Branch| x@),
                    i,
                ) by {
                    assert(i != idx as int);
                }
            }
        }
    }
    let mut sorted: Vec<Branch> = Vec::new();
    while pool.len() > 0
        invariant
            forall|j: int|
                0 <= j < pool@.len() ==> admitted(rv, head, #[trigger] pool@[j]@),
            forall|j: int|
                0 <= j < sorted@.len() ==> admitted(rv, head, #[trigger] sorted@[j]@),
            forall|j: int, k: int|
                0 <= j < k < pool@.len() ==> pool@[j]@.handle > pool@[k]@.handle,
            forall|j: int, k: int|
                0 <= j < k < sorted@.len() ==> lex_before(sorted@[j]@, sorted@[k]@),
            forall|j: int, k: int|
                0 <= j < sorted@.len() && 0 <= k < pool@.len() ==> sorted@[j]@.handle
                    != pool@[k]@.handle,
            forall|i: int|
                0 <= i < rv.len() && kept(rv, head, i) ==> has_handle(
                    sorted@.map_values(|x: Branch| x@),
                    i,
                ) || has_handle(pool@.map_values(|x: Branch| x@), i),
        decreases pool@.len(),
    {
        let ghost pm0 = pool@.map_values(|x: Branch| x@);
        let b = pool.pop().unwrap();
        let mut k: usize = 0;
        while k < sorted.len() && lex_lt(&sorted[k], &b)
            invariant
                0 <= k <= sorted@.len(),
                forall|j: int| 0 <= j < k ==> lex_before(#[trigger] sorted@[j]@, b@),
            decreases sorted@.len() - k,
        {
            k = k + 1;
        }
        proof {
            if k < sorted@.len() {
                assert(!lex_before(sorted@[k as int]@, b@));
                assert(sorted@[k as int]@.handle != b@.handle);
                assert(lex_before(b@, sorted@[k as int]@));
            }
        }
        let ghost sm_pre = sorted@.map_values(|x: Branch| x@);
        let ghost kk = k as int;
        sorted.insert(k, b);
        proof {
            let sm = sorted@.map_values(|x: Branch| x@);
            let pm = pool@.map_values(|x: Branch| x@);
            assert(sm =~= sm_pre.insert(kk, b@));
            assert(pm =~= pm0.subrange(0, pm0.len() - 1));
            assert(b@ == pm0[pm0.len() - 1]);
            assert forall|j: int, k2: int| 0 <= j < k2 < sorted@.len() implies lex_before(
                sorted@[j]@,
                sorted@[k2]@,
            ) by {
                assert(sm[j] == sorted@[j]@);
                assert(sm[k2] == sorted@[k2]@);
                let oj = if j < kk { j } else { j - 1 };
                let ok = if k2 < kk { k2 } else { k2 - 1 };
                if j == kk {
                    assert(sm[j] == b@);
                    assert(sm[k2] == sm_pre[ok]);
                    assert(lex_before(b@, sm_pre[kk]));
                    if ok > kk {
                        assert(lex_before(sm_pre[kk], sm_pre[ok]));
                    }
                } else if k2 == kk {
                    assert(sm[k2] == b@);
                    assert(sm[j] == sm_pre[oj]);
                } else {
                    assert(sm[j] == sm_pre[oj]);
                    assert(sm[k2] == sm_pre[ok]);
                    if j < kk && k2 > kk {
                        assert(oj < ok);
                    }
                }
            }
            assert forall|j: int, k2: int|
                0 <= j < sorted@.len() && 0 <= k2 < pool@.len() implies sorted@[j]@.handle
                != pool@[k2]@.handle by {
                assert(sm[j] == sorted@[j]@);
                assert(pm[k2] == pool@[k2]@);
                if j != kk {
                    let oj = if j < kk { j } else { j - 1 };
                    assert(sm[j] == sm_pre[oj]);
                } else {
                    assert(sm[j] == b@);
                    assert(pm0[pm0.len() - 1].handle < pm0[k2].handle);
                }
            }
            assert forall|i: int|
                0 <= i < rv.len() && kept(rv, head, i) implies has_handle(sm, i) || has_handle(
                pm,
                i,
            ) by {
                if has_handle(sm_pre, i) {
                    let j = choose|j: int| 0 <= j < sm_pre.len() && sm_pre[j].handle == i;
                    let nj = if j < kk { j } else { j + 1 };
                    assert(sm[nj].handle == i);
                } else if has_handle(pm0, i) {
                    let j = choose|j: int| 0 <= j < pm0.len() && pm0[j].handle == i;
                    if j == pm0.len() - 1 {
                        assert(sm[kk].handle == i);
                    } else {
                        assert(pm[j].handle == i);
                    }
                }
            }
        }
    }
    proof {
        let rb = sorted@.map_values(|x: Branch| x@);
        assert(pool@.map_values(|x: Branch| x@).len() == 0);
        assert forall|i: int|
            0 <= i < rv.len() && kept(rv, head, i) implies has_handle(rb, i) by {
            assert(!has_handle(pool@.map_values(|x: Branch| x@), i));
        }
        assert forall|j: int, k: int| 0 <= j < k < rb.len() implies rb[j].handle
            != rb[k].handle by {
            assert(rb[j] == sorted@[j]@ && rb[k] == sorted@[k]@);
            if rb[j].handle == rb[k].handle {
                assert(rb[j].time == rb[k].time);
                assert(lex_before(sorted@[j]@, sorted@[k]@));
            }
        }
    }
    sorted
}

} // verus!
