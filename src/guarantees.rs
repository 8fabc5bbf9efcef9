//! What every reconciliation plan guarantees, proved from its definition.

use vstd::prelude::*;
use crate::models::{managed_by, Mode, Record};
use crate::reconcile::{
    considered, create_ops, delete_ops, delete_wanted, entry_for, entry_ident, in_actual, in_desired,
    last_entry, last_record, lemma_entry_for, needs_update, plan_spec, record_ident, update_ops,
    update_wanted, DesiredEntry, Operation,
};

verus! {

proof fn lemma_create_ops(actual: Seq<Record>, desired: Seq<DesiredEntry>, n: int)
    requires
        0 <= n <= desired.len() <= usize::MAX,
    ensures
        forall|k: int| 0 <= k < create_ops(actual, desired, n).len() ==> {
            let op = #[trigger] create_ops(actual, desired, n)[k];
            &&& op is Create
            &&& op->Create_entry < n
            &&& last_entry(desired, op->Create_entry as int)
            &&& !in_actual(actual, entry_ident(desired[op->Create_entry as int]))
        },
        forall|j: int| 0 <= j < n && last_entry(desired, j) && !in_actual(actual, entry_ident(desired[j]))
            ==> create_ops(actual, desired, n).contains(Operation::Create { entry: j as usize }),
        forall|k1: int, k2: int| 0 <= k1 < k2 < create_ops(actual, desired, n).len()
            ==> create_ops(actual, desired, n)[k1] != create_ops(actual, desired, n)[k2],
    decreases n,
{
    if n > 0 {
        lemma_create_ops(actual, desired, n - 1);
        let prev = create_ops(actual, desired, n - 1);
        let cur = create_ops(actual, desired, n);
        assert forall|k: int| 0 <= k < prev.len() implies cur[k] == prev[k] by {}
        assert forall|j: int| 0 <= j < n && last_entry(desired, j) && !in_actual(actual, entry_ident(desired[j]))
            implies cur.contains(Operation::Create { entry: j as usize }) by {
            if j < n - 1 {
                let k = choose|k: int| 0 <= k < prev.len() && prev[k] == Operation::Create { entry: j as usize };
                assert(cur[k] == prev[k]);
            } else {
                assert(cur[cur.len() - 1] == Operation::Create { entry: j as usize });
            }
        }
    }
}

proof fn lemma_delete_ops(actual: Seq<Record>, desired: Seq<DesiredEntry>, mode: Mode, owner: Seq<char>, n: int)
    requires
        0 <= n <= actual.len() <= usize::MAX,
    ensures
        forall|k: int| 0 <= k < delete_ops(actual, desired, mode, owner, n).len() ==> {
            let op = #[trigger] delete_ops(actual, desired, mode, owner, n)[k];
            &&& op is Delete
            &&& op->Delete_record < n
            &&& delete_wanted(actual, desired, mode, owner, op->Delete_record as int)
        },
        forall|i: int| 0 <= i < n && delete_wanted(actual, desired, mode, owner, i)
            ==> delete_ops(actual, desired, mode, owner, n).contains(Operation::Delete { record: i as usize }),
        forall|k1: int, k2: int| 0 <= k1 < k2 < delete_ops(actual, desired, mode, owner, n).len()
            ==> delete_ops(actual, desired, mode, owner, n)[k1] != delete_ops(actual, desired, mode, owner, n)[k2],
    decreases n,
{
    if n > 0 {
        lemma_delete_ops(actual, desired, mode, owner, n - 1);
        let prev = delete_ops(actual, desired, mode, owner, n - 1);
        let cur = delete_ops(actual, desired, mode, owner, n);
        assert forall|k: int| 0 <= k < prev.len() implies cur[k] == prev[k] by {}
        assert forall|i: int| 0 <= i < n && delete_wanted(actual, desired, mode, owner, i)
            implies cur.contains(Operation::Delete { record: i as usize }) by {
            if i < n - 1 {
                let k = choose|k: int| 0 <= k < prev.len() && prev[k] == Operation::Delete { record: i as usize };
                assert(cur[k] == prev[k]);
            } else {
                assert(cur[cur.len() - 1] == Operation::Delete { record: i as usize });
            }
        }
    }
}

proof fn lemma_update_ops(actual: Seq<Record>, desired: Seq<DesiredEntry>, owner: Seq<char>, n: int)
    requires
        0 <= n <= actual.len() <= usize::MAX,
        desired.len() <= usize::MAX,
    ensures
        forall|k: int| 0 <= k < update_ops(actual, desired, owner, n).len() ==> {
            let op = #[trigger] update_ops(actual, desired, owner, n)[k];
            &&& op is Update
            &&& op->Update_record < n
            &&& update_wanted(actual, desired, owner, op->Update_record as int)
            &&& op->Update_entry as int == entry_for(desired, record_ident(actual[op->Update_record as int]), desired.len() as int)
        },
        forall|i: int| 0 <= i < n && update_wanted(actual, desired, owner, i)
            ==> update_ops(actual, desired, owner, n).contains(Operation::Update {
                record: i as usize,
                entry: entry_for(desired, record_ident(actual[i]), desired.len() as int) as usize,
            }),
        forall|k1: int, k2: int| 0 <= k1 < k2 < update_ops(actual, desired, owner, n).len()
            ==> update_ops(actual, desired, owner, n)[k1]->Update_record < update_ops(actual, desired, owner, n)[k2]->Update_record,
    decreases n,
{
    if n > 0 {
        lemma_update_ops(actual, desired, owner, n - 1);
        lemma_entry_for(desired, record_ident(actual[n - 1]), desired.len() as int);
        let prev = update_ops(actual, desired, owner, n - 1);
        let cur = update_ops(actual, desired, owner, n);
        assert forall|k: int| 0 <= k < prev.len() implies cur[k] == prev[k] by {}
        assert forall|i: int| 0 <= i < n && update_wanted(actual, desired, owner, i)
            implies cur.contains(Operation::Update {
                record: i as usize,
                entry: entry_for(desired, record_ident(actual[i]), desired.len() as int) as usize,
            }) by {
            let op = Operation::Update {
                record: i as usize,
                entry: entry_for(desired, record_ident(actual[i]), desired.len() as int) as usize,
            };
            if i < n - 1 {
                let k = choose|k: int| 0 <= k < prev.len() && prev[k] == op;
                assert(cur[k] == prev[k]);
            } else {
                assert(cur[cur.len() - 1] == op);
            }
        }
    }
}

/// Where each kind of call stands in a plan: creations first, then
/// deletions, then updates.
proof fn lemma_plan_parts(actual: Seq<Record>, desired: Seq<DesiredEntry>, mode: Mode, owner: Seq<char>)
    requires
        actual.len() <= usize::MAX,
        desired.len() <= usize::MAX,
    ensures
        ({
            let c = create_ops(actual, desired, desired.len() as int);
            let d = delete_ops(actual, desired, mode, owner, actual.len() as int);
            let u = update_ops(actual, desired, owner, actual.len() as int);
            let plan = plan_spec(actual, desired, mode, owner);
            &&& plan.len() == c.len() + d.len() + u.len()
            &&& forall|k: int| 0 <= k < plan.len() && (#[trigger] plan[k]) is Create ==> k < c.len() && plan[k] == c[k]
            &&& forall|k: int| 0 <= k < plan.len() && (#[trigger] plan[k]) is Delete
                ==> c.len() <= k < c.len() + d.len() && plan[k] == d[k - c.len()]
            &&& forall|k: int| 0 <= k < plan.len() && (#[trigger] plan[k]) is Update
                ==> c.len() + d.len() <= k && plan[k] == u[k - c.len() - d.len()]
            &&& forall|x: Operation| c.contains(x) || d.contains(x) || u.contains(x) ==> #[trigger] plan.contains(x)
        }),
{
    let c = create_ops(actual, desired, desired.len() as int);
    let d = delete_ops(actual, desired, mode, owner, actual.len() as int);
    let u = update_ops(actual, desired, owner, actual.len() as int);
    let plan = plan_spec(actual, desired, mode, owner);
    lemma_create_ops(actual, desired, desired.len() as int);
    lemma_delete_ops(actual, desired, mode, owner, actual.len() as int);
    lemma_update_ops(actual, desired, owner, actual.len() as int);
    assert forall|k: int| 0 <= k < plan.len() implies
        (k < c.len() ==> plan[k] == c[k] && plan[k] is Create)
        && (c.len() <= k < c.len() + d.len() ==> plan[k] == d[k - c.len()] && plan[k] is Delete)
        && (c.len() + d.len() <= k ==> plan[k] == u[k - c.len() - d.len()] && plan[k] is Update) by {
        if k < c.len() {
            assert(c[k] is Create);
        } else if k < c.len() + d.len() {
            assert(d[k - c.len()] is Delete);
        } else {
            assert(u[k - c.len() - d.len()] is Update);
        }
    }
    assert forall|x: Operation| c.contains(x) || d.contains(x) || u.contains(x) implies #[trigger] plan.contains(x) by {
        if c.contains(x) {
            let k = choose|k: int| 0 <= k < c.len() && c[k] == x;
            assert(plan[k] == x);
        } else if d.contains(x) {
            let k = choose|k: int| 0 <= k < d.len() && d[k] == x;
            assert(plan[c.len() + k] == x);
        } else {
            let k = choose|k: int| 0 <= k < u.len() && u[k] == x;
            assert(plan[c.len() + d.len() + k] == x);
        }
    }
}

/// Idempotence: when every record's identity is desired, every desired
/// identity has a record, and matching records already have the desired time
/// to live (data is part of the identity), the pass makes no call at all.
pub proof fn lemma_converged_zone_needs_no_calls(
    actual: Seq<Record>,
    desired: Seq<DesiredEntry>,
    mode: Mode,
    owner: Seq<char>,
)
    requires
        actual.len() <= usize::MAX,
        desired.len() <= usize::MAX,
        forall|i: int| 0 <= i < actual.len() ==> in_desired(desired, #[trigger] record_ident(actual[i])),
        forall|j: int| 0 <= j < desired.len() && considered(desired[j]) ==> in_actual(actual, #[trigger] entry_ident(desired[j])),
        forall|i: int, j: int| 0 <= i < actual.len() && 0 <= j < desired.len() && considered(desired[j])
            && #[trigger] record_ident(actual[i]) == #[trigger] entry_ident(desired[j]) ==> actual[i].ttl == desired[j].ttl,
    ensures
        plan_spec(actual, desired, mode, owner).len() == 0,
{
    let c = create_ops(actual, desired, desired.len() as int);
    let d = delete_ops(actual, desired, mode, owner, actual.len() as int);
    let u = update_ops(actual, desired, owner, actual.len() as int);
    lemma_create_ops(actual, desired, desired.len() as int);
    lemma_delete_ops(actual, desired, mode, owner, actual.len() as int);
    lemma_update_ops(actual, desired, owner, actual.len() as int);
    if c.len() > 0 {
        let e = c[0]->Create_entry as int;
        assert(in_actual(actual, entry_ident(desired[e])));
    }
    if d.len() > 0 {
        let i = d[0]->Delete_record as int;
        assert(in_desired(desired, record_ident(actual[i])));
    }
    if u.len() > 0 {
        let i = u[0]->Update_record as int;
        let id = record_ident(actual[i]);
        lemma_entry_for(desired, id, desired.len() as int);
        let j = entry_for(desired, id, desired.len() as int);
        assert(record_ident(actual[i]) == entry_ident(desired[j]));
        assert(!needs_update(actual[i], desired[j]));
    }
}

/// Ownership safety: every deletion and every update targets a record that
/// carries the marker of `owner`; a creation targets no existing record.
pub proof fn lemma_only_owned_records_touched(
    actual: Seq<Record>,
    desired: Seq<DesiredEntry>,
    mode: Mode,
    owner: Seq<char>,
)
    requires
        actual.len() <= usize::MAX,
        desired.len() <= usize::MAX,
    ensures
        forall|k: int| 0 <= k < plan_spec(actual, desired, mode, owner).len()
            && (#[trigger] plan_spec(actual, desired, mode, owner)[k]) is Delete ==> {
            let i = plan_spec(actual, desired, mode, owner)[k]->Delete_record as int;
            i < actual.len() && managed_by(actual[i], owner)
        },
        forall|k: int| 0 <= k < plan_spec(actual, desired, mode, owner).len()
            && (#[trigger] plan_spec(actual, desired, mode, owner)[k]) is Update ==> {
            let i = plan_spec(actual, desired, mode, owner)[k]->Update_record as int;
            i < actual.len() && managed_by(actual[i], owner)
        },
{
    lemma_plan_parts(actual, desired, mode, owner);
    lemma_delete_ops(actual, desired, mode, owner, actual.len() as int);
    lemma_update_ops(actual, desired, owner, actual.len() as int);
    let plan = plan_spec(actual, desired, mode, owner);
    let c = create_ops(actual, desired, desired.len() as int);
    let d = delete_ops(actual, desired, mode, owner, actual.len() as int);
    let u = update_ops(actual, desired, owner, actual.len() as int);
    assert forall|k: int| 0 <= k < plan.len() && (#[trigger] plan[k]) is Delete implies
        plan[k]->Delete_record < actual.len() && managed_by(actual[plan[k]->Delete_record as int], owner) by {
        assert(d[k - c.len()] == plan[k]);
    }
    assert forall|k: int| 0 <= k < plan.len() && (#[trigger] plan[k]) is Update implies
        plan[k]->Update_record < actual.len() && managed_by(actual[plan[k]->Update_record as int], owner) by {
        assert(u[k - c.len() - d.len()] == plan[k]);
    }
}

/// Create completeness: each desired identity that no record has is created
/// by exactly one call, and a creation is made for no other identity.
pub proof fn lemma_missing_identities_created_once(
    actual: Seq<Record>,
    desired: Seq<DesiredEntry>,
    mode: Mode,
    owner: Seq<char>,
)
    requires
        actual.len() <= usize::MAX,
        desired.len() <= usize::MAX,
    ensures
        forall|j: int| 0 <= j < desired.len() && considered(desired[j]) && !in_actual(actual, #[trigger] entry_ident(desired[j]))
            ==> exists|k: int| 0 <= k < plan_spec(actual, desired, mode, owner).len()
                && (#[trigger] plan_spec(actual, desired, mode, owner)[k]) is Create
                && entry_ident(desired[plan_spec(actual, desired, mode, owner)[k]->Create_entry as int]) == entry_ident(desired[j]),
        forall|k1: int, k2: int| 0 <= k1 < plan_spec(actual, desired, mode, owner).len()
            && 0 <= k2 < plan_spec(actual, desired, mode, owner).len()
            && (#[trigger] plan_spec(actual, desired, mode, owner)[k1]) is Create
            && (#[trigger] plan_spec(actual, desired, mode, owner)[k2]) is Create
            && entry_ident(desired[plan_spec(actual, desired, mode, owner)[k1]->Create_entry as int])
                == entry_ident(desired[plan_spec(actual, desired, mode, owner)[k2]->Create_entry as int])
            ==> k1 == k2,
        forall|k: int| 0 <= k < plan_spec(actual, desired, mode, owner).len()
            && (#[trigger] plan_spec(actual, desired, mode, owner)[k]) is Create ==> {
            let e = plan_spec(actual, desired, mode, owner)[k]->Create_entry as int;
            e < desired.len() && considered(desired[e]) && !in_actual(actual, entry_ident(desired[e]))
        },
{
    lemma_plan_parts(actual, desired, mode, owner);
    lemma_create_ops(actual, desired, desired.len() as int);
    let plan = plan_spec(actual, desired, mode, owner);
    let c = create_ops(actual, desired, desired.len() as int);
    assert forall|j: int| 0 <= j < desired.len() && considered(desired[j]) && !in_actual(actual, #[trigger] entry_ident(desired[j]))
        implies exists|k: int| 0 <= k < plan.len() && (#[trigger] plan[k]) is Create
            && entry_ident(desired[plan[k]->Create_entry as int]) == entry_ident(desired[j]) by {
        let id = entry_ident(desired[j]);
        lemma_entry_for(desired, id, desired.len() as int);
        let w = entry_for(desired, id, desired.len() as int);
        assert(w >= 0);
        assert(last_entry(desired, w)) by {
            assert forall|m: int| w < m < desired.len() implies #[trigger] entry_ident(desired[m]) != entry_ident(desired[w]) by {
                if !considered(desired[m]) {
                    assert(entry_ident(desired[m]).1 != entry_ident(desired[w]).1);
                }
            }
        }
        let op = Operation::Create { entry: w as usize };
        assert(c.contains(op));
        assert(plan.contains(op));
        let k = choose|k: int| 0 <= k < plan.len() && plan[k] == op;
        assert(plan[k] is Create);
    }
    assert forall|k1: int, k2: int| 0 <= k1 < plan.len() && 0 <= k2 < plan.len()
        && (#[trigger] plan[k1]) is Create && (#[trigger] plan[k2]) is Create
        && entry_ident(desired[plan[k1]->Create_entry as int]) == entry_ident(desired[plan[k2]->Create_entry as int])
        implies k1 == k2 by {
        let e1 = plan[k1]->Create_entry as int;
        let e2 = plan[k2]->Create_entry as int;
        assert(c[k1] == plan[k1] && c[k2] == plan[k2]);
        if e1 < e2 {
            assert(!last_entry(desired, e1));
        } else if e2 < e1 {
            assert(!last_entry(desired, e2));
        }
        if k1 != k2 {
            if k1 < k2 {
                assert(c[k1] != c[k2]);
            } else {
                assert(c[k2] != c[k1]);
            }
        }
    }
    assert forall|k: int| 0 <= k < plan.len() && (#[trigger] plan[k]) is Create implies ({
        let e = plan[k]->Create_entry as int;
        e < desired.len() && considered(desired[e]) && !in_actual(actual, entry_ident(desired[e]))
    }) by {
        assert(c[k] == plan[k]);
    }
}

/// Mode gating: an owned record that stands for its identity and has no
/// desired entry is deleted exactly when the mode is `Delete`; in `Upsert`
/// mode nothing is deleted.
pub proof fn lemma_orphans_deleted_only_in_delete_mode(
    actual: Seq<Record>,
    desired: Seq<DesiredEntry>,
    mode: Mode,
    owner: Seq<char>,
)
    requires
        actual.len() <= usize::MAX,
        desired.len() <= usize::MAX,
    ensures
        forall|i: int| 0 <= i < actual.len() && last_record(actual, i) && managed_by(actual[i], owner)
            && !in_desired(desired, #[trigger] record_ident(actual[i]))
            ==> (plan_spec(actual, desired, mode, owner).contains(Operation::Delete { record: i as usize })
                <==> mode == Mode::Delete),
        mode == Mode::Upsert ==> forall|k: int| 0 <= k < plan_spec(actual, desired, mode, owner).len()
            ==> !((#[trigger] plan_spec(actual, desired, mode, owner)[k]) is Delete),
{
    lemma_plan_parts(actual, desired, mode, owner);
    lemma_delete_ops(actual, desired, mode, owner, actual.len() as int);
    let plan = plan_spec(actual, desired, mode, owner);
    let c = create_ops(actual, desired, desired.len() as int);
    let d = delete_ops(actual, desired, mode, owner, actual.len() as int);
    assert forall|k: int| 0 <= k < plan.len() && (#[trigger] plan[k]) is Delete implies mode == Mode::Delete by {
        assert(d[k - c.len()] == plan[k]);
    }
    assert forall|i: int| 0 <= i < actual.len() && last_record(actual, i) && managed_by(actual[i], owner)
        && !in_desired(desired, #[trigger] record_ident(actual[i]))
        implies (plan.contains(Operation::Delete { record: i as usize }) <==> mode == Mode::Delete) by {
        if mode == Mode::Delete {
            assert(delete_wanted(actual, desired, mode, owner, i));
            assert(d.contains(Operation::Delete { record: i as usize }));
        }
        if plan.contains(Operation::Delete { record: i as usize }) {
            let k = choose|k: int| 0 <= k < plan.len() && plan[k] == Operation::Delete { record: i as usize };
            assert(plan[k] is Delete);
        }
    }
}

/// Update triggers: an owned record that stands for a desired identity is
/// updated, towards the last desired entry of that identity, exactly when its
/// time to live differs (its data is part of the identity and so already
/// equal); no record is updated twice.
pub proof fn lemma_updates_exactly_when_stale(
    actual: Seq<Record>,
    desired: Seq<DesiredEntry>,
    mode: Mode,
    owner: Seq<char>,
)
    requires
        actual.len() <= usize::MAX,
        desired.len() <= usize::MAX,
    ensures
        forall|i: int| 0 <= i < actual.len() && last_record(actual, i) && managed_by(actual[i], owner)
            && in_desired(desired, #[trigger] record_ident(actual[i])) ==> {
            let j = entry_for(desired, record_ident(actual[i]), desired.len() as int);
            &&& 0 <= j < desired.len()
            &&& entry_ident(desired[j]) == record_ident(actual[i])
            &&& desired[j].rdata@ == actual[i].rdata@
            &&& (plan_spec(actual, desired, mode, owner).contains(Operation::Update { record: i as usize, entry: j as usize })
                <==> desired[j].ttl != actual[i].ttl)
        },
        forall|k: int| 0 <= k < plan_spec(actual, desired, mode, owner).len()
            && (#[trigger] plan_spec(actual, desired, mode, owner)[k]) is Update ==> {
            let op = plan_spec(actual, desired, mode, owner)[k];
            &&& op->Update_record < actual.len()
            &&& op->Update_entry as int == entry_for(desired, record_ident(actual[op->Update_record as int]), desired.len() as int)
            &&& needs_update(actual[op->Update_record as int], desired[op->Update_entry as int])
        },
        forall|k1: int, k2: int| 0 <= k1 < plan_spec(actual, desired, mode, owner).len()
            && 0 <= k2 < plan_spec(actual, desired, mode, owner).len()
            && (#[trigger] plan_spec(actual, desired, mode, owner)[k1]) is Update
            && (#[trigger] plan_spec(actual, desired, mode, owner)[k2]) is Update
            && plan_spec(actual, desired, mode, owner)[k1]->Update_record == plan_spec(actual, desired, mode, owner)[k2]->Update_record
            ==> k1 == k2,
{
    lemma_plan_parts(actual, desired, mode, owner);
    lemma_update_ops(actual, desired, owner, actual.len() as int);
    let plan = plan_spec(actual, desired, mode, owner);
    let c = create_ops(actual, desired, desired.len() as int);
    let d = delete_ops(actual, desired, mode, owner, actual.len() as int);
    let u = update_ops(actual, desired, owner, actual.len() as int);
    assert forall|i: int| 0 <= i < actual.len() && last_record(actual, i) && managed_by(actual[i], owner)
        && in_desired(desired, #[trigger] record_ident(actual[i])) implies ({
        let j = entry_for(desired, record_ident(actual[i]), desired.len() as int);
        &&& 0 <= j < desired.len()
        &&& entry_ident(desired[j]) == record_ident(actual[i])
        &&& desired[j].rdata@ == actual[i].rdata@
        &&& (plan.contains(Operation::Update { record: i as usize, entry: j as usize }) <==> desired[j].ttl != actual[i].ttl)
    }) by {
        let id = record_ident(actual[i]);
        lemma_entry_for(desired, id, desired.len() as int);
        let j = entry_for(desired, id, desired.len() as int);
        let w = choose|w: int| 0 <= w < desired.len() && considered(desired[w]) && #[trigger] entry_ident(desired[w]) == id;
        assert(j >= 0);
        let op = Operation::Update { record: i as usize, entry: j as usize };
        if desired[j].ttl != actual[i].ttl {
            assert(update_wanted(actual, desired, owner, i));
            assert(u.contains(op));
        }
        if plan.contains(op) {
            let k = choose|k: int| 0 <= k < plan.len() && plan[k] == op;
            assert(plan[k] is Update);
            assert(u[k - c.len() - d.len()] == op);
        }
    }
    assert forall|k: int| 0 <= k < plan.len() && (#[trigger] plan[k]) is Update implies ({
        let op = plan[k];
        &&& op->Update_record < actual.len()
        &&& op->Update_entry as int == entry_for(desired, record_ident(actual[op->Update_record as int]), desired.len() as int)
        &&& needs_update(actual[op->Update_record as int], desired[op->Update_entry as int])
    }) by {
        assert(u[k - c.len() - d.len()] == plan[k]);
    }
    assert forall|k1: int, k2: int| 0 <= k1 < plan.len() && 0 <= k2 < plan.len()
        && (#[trigger] plan[k1]) is Update && (#[trigger] plan[k2]) is Update
        && plan[k1]->Update_record == plan[k2]->Update_record implies k1 == k2 by {
        assert(u[k1 - c.len() - d.len()] == plan[k1]);
        assert(u[k2 - c.len() - d.len()] == plan[k2]);
    }
}

} // verus!
