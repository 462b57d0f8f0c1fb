//! Catalogs of sealed segments: rows under a tablet and an epoch.
use crate::ids::TabletId;
use crate::sorted_map::{in_order, SortedMap};
use crate::value::{Key, Value};
use vstd::prelude::*;

verus! {

/// Whether `epoch` is the highest epoch that `tablet` has sealed.
pub open spec fn is_last_epoch<R>(
    rows: Map<(TabletId, u64), R>,
    tablet: TabletId,
    epoch: u64,
) -> bool {
    rows.contains_key((tablet, epoch)) && forall|e: u64| #[trigger]
        rows.contains_key((tablet, e)) ==> e <= epoch
}

/// The highest epoch that `tablet` has sealed, if it has sealed any.
pub open spec fn last_epoch<R>(rows: Map<(TabletId, u64), R>, tablet: TabletId) -> Option<u64> {
    if exists|e: u64| is_last_epoch(rows, tablet, e) {
        Some(choose|e: u64| is_last_epoch(rows, tablet, e))
    } else {
        None
    }
}

/// The last epoch of a tablet is the one that is known to be the highest.
pub proof fn last_epoch_is<R>(rows: Map<(TabletId, u64), R>, tablet: TabletId, epoch: u64)
    requires
        is_last_epoch(rows, tablet, epoch),
    ensures
        last_epoch(rows, tablet) == Some(epoch),
{
    let e = choose|e: u64| is_last_epoch(rows, tablet, e);
    assert(is_last_epoch(rows, tablet, e));
    assert(rows.contains_key((tablet, e)) && rows.contains_key((tablet, epoch)));
}

/// The last segment of `tablet`: its epoch and its row.
pub fn last_segment<'a, R: Value>(
    rows: &'a SortedMap<(TabletId, u64), R>,
    tablet: TabletId,
) -> (r: Option<(u64, &'a R)>)
    ensures
        match r {
            Some(p) => is_last_epoch(rows@, tablet, p.0) && last_epoch(rows@, tablet) == Some(p.0)
                && p.1.deep_view() == rows@[(tablet, p.0)],
            None => last_epoch(rows@, tablet) is None && forall|e: u64|
                !(#[trigger] rows@.contains_key((tablet, e))),
        },
{
    let n: usize = rows.len();
    let ghost keys = rows.keys();
    let mut i: usize = n;
    while i > 0
        invariant
            i <= n,
            n == keys.len(),
            keys == rows.keys(),
            in_order(*rows),
            forall|j: int| i <= j < n ==> #[trigger] keys[j].0 != tablet,
        decreases i,
    {
        i = i - 1;
        let k: (TabletId, u64) = *rows.key_at(i);
        if k.0 == tablet {
            proof {
                assert(rows@.contains_key(keys[i as int]));
                assert forall|e: u64|
                    #[trigger] rows@.contains_key((tablet, e)) implies e <= k.1 by {
                    assert(keys.contains((tablet, e)));
                    let j = choose|j: int| 0 <= j < keys.len() && keys[j] == (tablet, e);
                    if j < i {
                        assert(<(TabletId, u64)>::before(keys[j], keys[i as int]));
                    }
                }
                last_epoch_is(rows@, tablet, k.1);
                assert(rows@[keys[i as int]] == rows.values()[i as int]);
            }
            return Some((k.1, rows.value_at(i)));
        }
    }
    proof {
        assert forall|e: u64| !(#[trigger] rows@.contains_key((tablet, e))) by {
            if rows@.contains_key((tablet, e)) {
                assert(keys.contains((tablet, e)));
                let j = choose|j: int| 0 <= j < keys.len() && keys[j] == (tablet, e);
                assert(keys[j].0 != tablet);
            }
        }
    }
    None
}

} // verus!
