//! The convergence algorithm: which provider calls close the gap between the
//! desired entries of a zone and the records it holds.

use vstd::prelude::*;
use crate::domain::Fqdn;
use crate::models::{managed_by, Mode, Record};

verus! {

/// One desired record: name, type, data and time to live.
#[derive(Debug)]
pub struct DesiredEntry {
    pub fqdn: Fqdn,
    pub record_type: String,
    pub rdata: String,
    pub ttl: u32,
}

/// One provider call. `entry` indexes the desired entries, `record` the
/// zone's actual records.
#[derive(Debug, Clone, Copy, PartialEq, Eq, Structural)]
pub enum Operation {
    /// Create the desired entry, stamped with the ownership marker.
    Create { entry: usize },
    /// Delete the record.
    Delete { record: usize },
    /// Give the record the data and time to live of the desired entry.
    Update { record: usize, entry: usize },
}

/// The identity that matches desired entries to records: name, type, data.
pub type Ident = (Seq<Seq<char>>, Seq<char>, Seq<char>);

pub open spec fn is_soa_spec(t: Seq<char>) -> bool {
    t == "SOA"@
}

pub open spec fn record_ident(r: Record) -> Ident {
    (r.fqdn@, r.record_type@, r.rdata@)
}

pub open spec fn entry_ident(e: DesiredEntry) -> Ident {
    (e.fqdn@, e.record_type@, e.rdata@)
}

/// SOA entries are never managed here.
pub open spec fn considered(e: DesiredEntry) -> bool {
    !is_soa_spec(e.record_type@)
}

/// Some actual record has identity `id`.
pub open spec fn in_actual(actual: Seq<Record>, id: Ident) -> bool {
    exists|i: int| 0 <= i < actual.len() && #[trigger] record_ident(actual[i]) == id
}

/// Some considered desired entry has identity `id`.
pub open spec fn in_desired(desired: Seq<DesiredEntry>, id: Ident) -> bool {
    exists|j: int| 0 <= j < desired.len() && considered(desired[j]) && #[trigger] entry_ident(desired[j]) == id
}

/// Record `i` is the last one with its identity: it is the one that stands
/// for that identity (later records win).
pub open spec fn last_record(actual: Seq<Record>, i: int) -> bool {
    forall|k: int| i < k < actual.len() ==> #[trigger] record_ident(actual[k]) != record_ident(actual[i])
}

/// Entry `j` is considered and is the last one with its identity.
pub open spec fn last_entry(desired: Seq<DesiredEntry>, j: int) -> bool {
    &&& considered(desired[j])
    &&& forall|k: int| j < k < desired.len() ==> #[trigger] entry_ident(desired[k]) != entry_ident(desired[j])
}

/// The last considered entry below `n` with identity `id`, or -1.
pub open spec fn entry_for(desired: Seq<DesiredEntry>, id: Ident, n: int) -> int
    decreases n,
{
    if n <= 0 {
        -1
    } else if considered(desired[n - 1]) && entry_ident(desired[n - 1]) == id {
        n - 1
    } else {
        entry_for(desired, id, n - 1)
    }
}

/// What `entry_for` finds is below `n` and has the identity sought; -1 means
/// that no considered entry below `n` has it.
pub proof fn lemma_entry_for(desired: Seq<DesiredEntry>, id: Ident, n: int)
    requires
        0 <= n <= desired.len(),
    ensures
        -1 <= entry_for(desired, id, n) < n,
        entry_for(desired, id, n) >= 0 ==> considered(desired[entry_for(desired, id, n)])
            && entry_ident(desired[entry_for(desired, id, n)]) == id,
        entry_for(desired, id, n) >= 0 ==> forall|k: int|
            entry_for(desired, id, n) < k < n && considered(desired[k]) ==> #[trigger] entry_ident(desired[k]) != id,
        entry_for(desired, id, n) < 0 ==> forall|k: int|
            0 <= k < n && considered(desired[k]) ==> #[trigger] entry_ident(desired[k]) != id,
    decreases n,
{
    if n > 0 {
        lemma_entry_for(desired, id, n - 1);
        if !(considered(desired[n - 1]) && entry_ident(desired[n - 1]) == id) {
            assert forall|k: int| entry_for(desired, id, n) < k < n && considered(desired[k]) implies #[trigger] entry_ident(desired[k]) != id by {
                if k < n - 1 {
                    assert(entry_for(desired, id, n - 1) < k < n - 1);
                }
            }
        }
    }
}

/// The record's data or time to live differs from the entry's.
pub open spec fn needs_update(r: Record, e: DesiredEntry) -> bool {
    r.rdata@ != e.rdata@ || r.ttl != e.ttl
}

/// Creations, over the first `n` desired entries: one per identity that no
/// actual record has.
pub open spec fn create_ops(actual: Seq<Record>, desired: Seq<DesiredEntry>, n: int) -> Seq<Operation>
    decreases n,
{
    if n <= 0 {
        Seq::empty()
    } else {
        let prev = create_ops(actual, desired, n - 1);
        if last_entry(desired, n - 1) && !in_actual(actual, entry_ident(desired[n - 1])) {
            prev.push(Operation::Create { entry: (n - 1) as usize })
        } else {
            prev
        }
    }
}

/// The owned record `i` has no desired entry and may be deleted.
pub open spec fn delete_wanted(actual: Seq<Record>, desired: Seq<DesiredEntry>, mode: Mode, owner: Seq<char>, i: int) -> bool {
    &&& last_record(actual, i)
    &&& !in_desired(desired, record_ident(actual[i]))
    &&& managed_by(actual[i], owner)
    &&& mode == Mode::Delete
}

/// Deletions, over the first `n` actual records.
pub open spec fn delete_ops(actual: Seq<Record>, desired: Seq<DesiredEntry>, mode: Mode, owner: Seq<char>, n: int) -> Seq<Operation>
    decreases n,
{
    if n <= 0 {
        Seq::empty()
    } else {
        let prev = delete_ops(actual, desired, mode, owner, n - 1);
        if delete_wanted(actual, desired, mode, owner, n - 1) {
            prev.push(Operation::Delete { record: (n - 1) as usize })
        } else {
            prev
        }
    }
}

/// The owned record `i` has a desired entry whose data or time to live differs.
pub open spec fn update_wanted(actual: Seq<Record>, desired: Seq<DesiredEntry>, owner: Seq<char>, i: int) -> bool {
    let j = entry_for(desired, record_ident(actual[i]), desired.len() as int);
    &&& last_record(actual, i)
    &&& j >= 0
    &&& managed_by(actual[i], owner)
    &&& needs_update(actual[i], desired[j])
}

/// Updates, over the first `n` actual records.
pub open spec fn update_ops(actual: Seq<Record>, desired: Seq<DesiredEntry>, owner: Seq<char>, n: int) -> Seq<Operation>
    decreases n,
{
    if n <= 0 {
        Seq::empty()
    } else {
        let prev = update_ops(actual, desired, owner, n - 1);
        let i = n - 1;
        if update_wanted(actual, desired, owner, i) {
            prev.push(Operation::Update {
                record: i as usize,
                entry: entry_for(desired, record_ident(actual[i]), desired.len() as int) as usize,
            })
        } else {
            prev
        }
    }
}

/// The calls of one pass, in order: creations, deletions, updates.
pub open spec fn plan_spec(actual: Seq<Record>, desired: Seq<DesiredEntry>, mode: Mode, owner: Seq<char>) -> Seq<Operation> {
    create_ops(actual, desired, desired.len() as int)
        + delete_ops(actual, desired, mode, owner, actual.len() as int)
        + update_ops(actual, desired, owner, actual.len() as int)
}

/// Whether a record type is SOA.
pub fn is_soa(record_type: &String) -> (r: bool)
    ensures
        r == is_soa_spec(record_type@),
{
    *record_type == String::from_str("SOA")
}

fn record_has_ident_of(r: &Record, e: &DesiredEntry) -> (b: bool)
    ensures
        b == (record_ident(*r) == entry_ident(*e)),
{
    r.fqdn.same_as(&e.fqdn) && r.record_type == e.record_type && r.rdata == e.rdata
}

fn records_share_ident(a: &Record, b: &Record) -> (r: bool)
    ensures
        r == (record_ident(*a) == record_ident(*b)),
{
    a.fqdn.same_as(&b.fqdn) && a.record_type == b.record_type && a.rdata == b.rdata
}

fn entries_share_ident(a: &DesiredEntry, b: &DesiredEntry) -> (r: bool)
    ensures
        r == (entry_ident(*a) == entry_ident(*b)),
{
    a.fqdn.same_as(&b.fqdn) && a.record_type == b.record_type && a.rdata == b.rdata
}

fn found_in_actual(actual: &Vec<Record>, e: &DesiredEntry) -> (r: bool)
    ensures
        r == in_actual(actual@, entry_ident(*e)),
{
    let mut i: usize = 0;
    while i < actual.len()
        invariant
            i <= actual.len(),
            forall|k: int| 0 <= k < i ==> #[trigger] record_ident(actual@[k]) != entry_ident(*e),
        decreases actual.len() - i,
    {
        if record_has_ident_of(&actual[i], e) {
            return true;
        }
        i = i + 1;
    }
    false
}

fn found_in_desired(desired: &Vec<DesiredEntry>, r: &Record) -> (b: bool)
    ensures
        b == in_desired(desired@, record_ident(*r)),
{
    let mut j: usize = 0;
    while j < desired.len()
        invariant
            j <= desired.len(),
            forall|k: int| 0 <= k < j && considered(desired@[k]) ==> #[trigger] entry_ident(desired@[k]) != record_ident(*r),
        decreases desired.len() - j,
    {
        if !is_soa(&desired[j].record_type) && record_has_ident_of(r, &desired[j]) {
            return true;
        }
        j = j + 1;
    }
    false
}

fn is_last_record(actual: &Vec<Record>, i: usize) -> (r: bool)
    requires
        i < actual.len(),
    ensures
        r == last_record(actual@, i as int),
{
    let mut k: usize = i + 1;
    while k < actual.len()
        invariant
            i < k <= actual.len(),
            forall|m: int| i < m < k ==> #[trigger] record_ident(actual@[m]) != record_ident(actual@[i as int]),
        decreases actual.len() - k,
    {
        if records_share_ident(&actual[k], &actual[i]) {
            return false;
        }
        k = k + 1;
    }
    true
}

fn is_last_entry(desired: &Vec<DesiredEntry>, j: usize) -> (r: bool)
    requires
        j < desired.len(),
    ensures
        r == last_entry(desired@, j as int),
{
    if is_soa(&desired[j].record_type) {
        return false;
    }
    let mut k: usize = j + 1;
    while k < desired.len()
        invariant
            j < k <= desired.len(),
            forall|m: int| j < m < k ==> #[trigger] entry_ident(desired@[m]) != entry_ident(desired@[j as int]),
        decreases desired.len() - k,
    {
        if entries_share_ident(&desired[k], &desired[j]) {
            return false;
        }
        k = k + 1;
    }
    true
}

fn find_entry(desired: &Vec<DesiredEntry>, r: &Record) -> (j: Option<usize>)
    ensures
        j is Some <==> entry_for(desired@, record_ident(*r), desired.len() as int) >= 0,
        j matches Some(x) ==> x == entry_for(desired@, record_ident(*r), desired.len() as int),
{
    let mut k: usize = desired.len();
    while k > 0
        invariant
            k <= desired.len(),
            entry_for(desired@, record_ident(*r), desired.len() as int) == entry_for(desired@, record_ident(*r), k as int),
        decreases k,
    {
        if !is_soa(&desired[k - 1].record_type) && record_has_ident_of(r, &desired[k - 1]) {
            return Some(k - 1);
        }
        k = k - 1;
    }
    None
}

/// The provider calls of one reconciliation pass of a zone: create each
/// desired identity that no record has; delete, in `Delete` mode, each owned
/// record whose identity is not desired; update each owned record whose
/// desired entry has other data or another time to live. Records that
/// `controller_name` does not own are never touched.
pub fn plan_reconcile(
    actual: &Vec<Record>,
    desired: &Vec<DesiredEntry>,
    mode: Mode,
    controller_name: &str,
) -> (ops: Vec<Operation>)
    ensures
        ops@ == plan_spec(actual@, desired@, mode, controller_name@),
{
    let mut ops: Vec<Operation> = Vec::new();
    let mut j: usize = 0;
    while j < desired.len()
        invariant
            j <= desired.len(),
            ops@ == create_ops(actual@, desired@, j as int),
        decreases desired.len() - j,
    {
        if is_last_entry(desired, j) && !found_in_actual(actual, &desired[j]) {
            ops.push(Operation::Create { entry: j });
        }
        j = j + 1;
    }
    let ghost creates = ops@;
    let mut i: usize = 0;
    while i < actual.len()
        invariant
            i <= actual.len(),
            ops@ == creates + delete_ops(actual@, desired@, mode, controller_name@, i as int),
        decreases actual.len() - i,
    {
        let ghost before = ops@;
        if mode == Mode::Delete && is_last_record(actual, i) && !found_in_desired(desired, &actual[i])
            && actual[i].is_managed_by(controller_name) {
            ops.push(Operation::Delete { record: i });
        }
        assert(ops@ =~= creates + delete_ops(actual@, desired@, mode, controller_name@, i + 1));
        i = i + 1;
    }
    let ghost deletes = ops@;
    let mut i: usize = 0;
    while i < actual.len()
        invariant
            i <= actual.len(),
            ops@ == deletes + update_ops(actual@, desired@, controller_name@, i as int),
        decreases actual.len() - i,
    {
        if is_last_record(actual, i) && actual[i].is_managed_by(controller_name) {
            match find_entry(desired, &actual[i]) {
                Some(j) => {
                    proof {
                        lemma_entry_for(desired@, record_ident(actual@[i as int]), desired.len() as int);
                    }
                    let rec = &actual[i];
                    let e = &desired[j];
                    if rec.rdata != e.rdata || rec.ttl != e.ttl {
                        ops.push(Operation::Update { record: i, entry: j });
                    }
                },
                None => {},
            }
        }
        assert(ops@ =~= deletes + update_ops(actual@, desired@, controller_name@, i + 1));
        i = i + 1;
    }
    ops
}

} // verus!
