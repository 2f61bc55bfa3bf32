//! Properties that hold across the operations of the programmer and the
//! parser.
use vstd::prelude::*;
use crate::config::{kind_upto, LineEntry, QuotaKind};
use crate::controller::{
    data_block_batch, data_ok, data_tag, data_unblock_batch, time_block_batch, time_next, time_ok,
    time_tag, time_unblock_batch, timer_ok, DataState, NfHandle, NfTimeLimit, TimeState,
};
use crate::model::Ipv4Cidr;
use crate::netfilter::{
    apply, lemma_apply_concat, lemma_role_batch_add, lemma_role_batch_del, lemma_role_rule_injective,
    lemma_role_set_member, role_rule, role_set, LogKind, Object, Role,
};
use crate::timer::lemma_running_deadline;

verus! {

proof fn lemma_in_role_set(t: crate::netfilter::EntryTag, r: Role, nets: Seq<Ipv4Cidr>, k: int)
    requires
        0 <= k < nets.len(),
    ensures
        role_set(t, r, nets).contains(Object::Rule(role_rule(t, r, nets[k]))),
{
    lemma_role_set_member(t, r, nets, Object::Rule(role_rule(t, r, nets[k])));
}

/// While the table is installed, every entry has its accounting rules for
/// each of its networks: drop rules (and log rules while counting) for a
/// data entry, start and fin rules for a time entry. `init` leaves the
/// handle in such a state.
pub proof fn lemma_rulesets_installed(h: NfHandle)
    requires
        h.wf(),
        h.installed,
    ensures
        forall|i: int, k: int|
            0 <= i < h.data_entries@.len() && 0 <= k < h.data_nets@[i]@.len() ==> {
                let c = #[trigger] h.data_nets@[i]@[k];
                &&& h.kernel@.contains(Object::Rule(role_rule(data_tag(i), Role::DataBlock, c)))
                &&& h.data_entries@[i].state == DataState::Counting ==> h.kernel@.contains(
                    Object::Rule(role_rule(data_tag(i), Role::DataLog, c)),
                )
            },
        forall|i: int, k: int|
            0 <= i < h.time_entries@.len() && 0 <= k < h.time_nets@[i]@.len() ==> {
                let c = #[trigger] h.time_nets@[i]@[k];
                &&& h.kernel@.contains(Object::Rule(role_rule(time_tag(i), Role::Start, c)))
                &&& h.kernel@.contains(Object::Rule(role_rule(time_tag(i), Role::InFin, c)))
                &&& h.kernel@.contains(Object::Rule(role_rule(time_tag(i), Role::OutFin, c)))
            },
{
    assert forall|i: int, k: int|
        0 <= i < h.data_entries@.len() && 0 <= k < h.data_nets@[i]@.len() implies {
        let c = #[trigger] h.data_nets@[i]@[k];
        &&& h.kernel@.contains(Object::Rule(role_rule(data_tag(i), Role::DataBlock, c)))
        &&& h.data_entries@[i].state == DataState::Counting ==> h.kernel@.contains(
            Object::Rule(role_rule(data_tag(i), Role::DataLog, c)),
        )
    } by {
        assert(data_ok(h.kernel@, i, h.data_nets@[i]@, h.data_entries@[i]));
        lemma_in_role_set(data_tag(i), Role::DataBlock, h.data_nets@[i]@, k);
        lemma_in_role_set(data_tag(i), Role::DataLog, h.data_nets@[i]@, k);
    }
    assert forall|i: int, k: int|
        0 <= i < h.time_entries@.len() && 0 <= k < h.time_nets@[i]@.len() implies {
        let c = #[trigger] h.time_nets@[i]@[k];
        &&& h.kernel@.contains(Object::Rule(role_rule(time_tag(i), Role::Start, c)))
        &&& h.kernel@.contains(Object::Rule(role_rule(time_tag(i), Role::InFin, c)))
        &&& h.kernel@.contains(Object::Rule(role_rule(time_tag(i), Role::OutFin, c)))
    } by {
        assert(time_ok(h.kernel@, i, h.time_nets@[i]@, h.time_entries@[i]));
        lemma_in_role_set(time_tag(i), Role::Start, h.time_nets@[i]@, k);
        lemma_in_role_set(time_tag(i), Role::InFin, h.time_nets@[i]@, k);
        lemma_in_role_set(time_tag(i), Role::OutFin, h.time_nets@[i]@, k);
    }
}

/// A running time entry has exactly one armed timer; once started no later
/// than `now` and not yet run out, its deadline lies in
/// `(now, now + limit]`.
pub proof fn lemma_running_timer_deadline(h: NfHandle, i: int, now: u64)
    requires
        h.wf(),
        0 <= i < h.time_entries@.len(),
        h.time_entries@[i].state == TimeState::Running,
        h.time_entries@[i].timer.started_at <= now,
        !h.time_entries@[i].timer.fires_spec(now),
    ensures
        h.time_entries@[i].timer.active,
        now < h.time_entries@[i].timer.deadline <= now + h.time_entries@[i].timer.target_secs,
{
    assert(timer_ok(h.time_entries@[i]));
    lemma_running_deadline(h.time_entries@[i].timer, now);
}

/// A data entry over its limit has its drop rules installed and none of its
/// log rules.
pub proof fn lemma_over_limit_drops(h: NfHandle, i: int)
    requires
        h.wf(),
        h.installed,
        0 <= i < h.data_entries@.len(),
        h.data_entries@[i].state == DataState::OverLimit,
    ensures
        forall|k: int|
            0 <= k < h.data_nets@[i]@.len() ==> h.kernel@.contains(
                Object::Rule(role_rule(data_tag(i), Role::DataBlock, #[trigger] h.data_nets@[i]@[k])),
            ) && !h.kernel@.contains(
                Object::Rule(role_rule(data_tag(i), Role::DataLog, h.data_nets@[i]@[k])),
            ),
{
    assert(data_ok(h.kernel@, i, h.data_nets@[i]@, h.data_entries@[i]));
    assert forall|k: int| 0 <= k < h.data_nets@[i]@.len() implies h.kernel@.contains(
        Object::Rule(role_rule(data_tag(i), Role::DataBlock, #[trigger] h.data_nets@[i]@[k])),
    ) && !h.kernel@.contains(
        Object::Rule(role_rule(data_tag(i), Role::DataLog, h.data_nets@[i]@[k])),
    ) by {
        lemma_in_role_set(data_tag(i), Role::DataBlock, h.data_nets@[i]@, k);
        lemma_in_role_set(data_tag(i), Role::DataLog, h.data_nets@[i]@, k);
    }
}

/// An expired time entry has reject rules in both directions for each of
/// its networks.
pub proof fn lemma_expired_blocks(h: NfHandle, i: int)
    requires
        h.wf(),
        h.installed,
        0 <= i < h.time_entries@.len(),
        h.time_entries@[i].state == TimeState::Expired,
    ensures
        forall|k: int|
            0 <= k < h.time_nets@[i]@.len() ==> h.kernel@.contains(
                Object::Rule(role_rule(time_tag(i), Role::BlockIn, #[trigger] h.time_nets@[i]@[k])),
            ) && h.kernel@.contains(
                Object::Rule(role_rule(time_tag(i), Role::BlockOut, h.time_nets@[i]@[k])),
            ),
{
    assert(time_ok(h.kernel@, i, h.time_nets@[i]@, h.time_entries@[i]));
    assert forall|k: int| 0 <= k < h.time_nets@[i]@.len() implies h.kernel@.contains(
        Object::Rule(role_rule(time_tag(i), Role::BlockIn, #[trigger] h.time_nets@[i]@[k])),
    ) && h.kernel@.contains(
        Object::Rule(role_rule(time_tag(i), Role::BlockOut, h.time_nets@[i]@[k])),
    ) by {
        lemma_in_role_set(time_tag(i), Role::BlockIn, h.time_nets@[i]@, k);
        lemma_in_role_set(time_tag(i), Role::BlockOut, h.time_nets@[i]@, k);
    }
}

/// Entries of one kind keep their input order: the `j`-th entry of a kind
/// comes from an earlier line than the `k`-th for `j < k`, and each comes
/// from an entry of that kind.
pub proof fn lemma_policy_order(es: Seq<LineEntry>, kind: QuotaKind)
    ensures
        forall|j: int, k: int|
            0 <= j < k < kind_upto(es, kind, es.len() as int).len() ==> #[trigger] kind_upto(
                es,
                kind,
                es.len() as int,
            )[j] < #[trigger] kind_upto(es, kind, es.len() as int)[k],
        forall|j: int|
            0 <= j < kind_upto(es, kind, es.len() as int).len() ==> es[#[trigger] kind_upto(
                es,
                kind,
                es.len() as int,
            )[j]].entry.kind == kind,
{
    crate::config::lemma_kind_upto_bounds(es, kind, es.len() as int);
    lemma_kind_upto_kinds(es, kind, es.len() as int);
}

proof fn lemma_kind_upto_kinds(es: Seq<LineEntry>, kind: QuotaKind, i: int)
    requires
        0 <= i <= es.len(),
    ensures
        forall|j: int|
            0 <= j < kind_upto(es, kind, i).len() ==> es[#[trigger] kind_upto(es, kind, i)[j]].entry.kind
                == kind,
    decreases i,
{
    if i > 0 {
        lemma_kind_upto_kinds(es, kind, i - 1);
    }
}

/// Blocking a time entry and then unblocking it leaves the installed rules
/// as they were before the block.
pub proof fn lemma_block_unblock_time(k: Set<Object>, i: int, nets: Seq<Ipv4Cidr>)
    requires
        role_set(time_tag(i), Role::BlockIn, nets).disjoint(k),
        role_set(time_tag(i), Role::BlockOut, nets).disjoint(k),
    ensures
        apply(apply(k, time_block_batch(i, nets)), time_unblock_batch(i, nets)) == k,
{
    let t = time_tag(i);
    let bi = role_set(t, Role::BlockIn, nets);
    let bo = role_set(t, Role::BlockOut, nets);
    let add_in = crate::netfilter::role_batch(crate::netfilter::MsgType::Add, t, Role::BlockIn, nets);
    let add_out = crate::netfilter::role_batch(crate::netfilter::MsgType::Add, t, Role::BlockOut, nets);
    let del_in = crate::netfilter::role_batch(crate::netfilter::MsgType::Del, t, Role::BlockIn, nets);
    let del_out = crate::netfilter::role_batch(crate::netfilter::MsgType::Del, t, Role::BlockOut, nets);
    lemma_apply_concat(k, add_in, add_out);
    lemma_role_batch_add(k, t, Role::BlockIn, nets);
    lemma_role_batch_add(k.union(bi), t, Role::BlockOut, nets);
    let k1 = k.union(bi).union(bo);
    lemma_apply_concat(k1, del_in, del_out);
    lemma_role_batch_del(k1, t, Role::BlockIn, nets);
    lemma_role_batch_del(k1.difference(bi), t, Role::BlockOut, nets);
    assert(k1.difference(bi).difference(bo) =~= k);
}

/// Blocking a counting data entry and then unblocking it leaves the
/// installed rules as they were before the block.
pub proof fn lemma_block_unblock_data(k: Set<Object>, i: int, nets: Seq<Ipv4Cidr>)
    requires
        role_set(data_tag(i), Role::DataLog, nets).subset_of(k),
    ensures
        apply(apply(k, data_block_batch(i, nets)), data_unblock_batch(i, nets)) == k,
{
    let t = data_tag(i);
    let dl = role_set(t, Role::DataLog, nets);
    lemma_role_batch_del(k, t, Role::DataLog, nets);
    lemma_role_batch_add(k.difference(dl), t, Role::DataLog, nets);
    assert(k.difference(dl).union(dl) =~= k);
}

/// A time entry with no time left expires on the first connection start.
pub proof fn lemma_zero_time_quota_expires(e: NfTimeLimit, now: u64)
    requires
        e.state == TimeState::Idle,
        e.timer.remaining_secs == 0,
    ensures
        time_next(e, LogKind::Start, now) == TimeState::Expired,
{
}

/// Two data entries with the same destination each keep their own drop and
/// log rules: the rules are distinct objects and all are installed.
pub proof fn lemma_duplicate_destinations(h: NfHandle, i: int, j: int, a: int, b: int)
    requires
        h.wf(),
        h.installed,
        0 <= i < h.data_entries@.len(),
        0 <= j < h.data_entries@.len(),
        i != j,
        0 <= a < h.data_nets@[i]@.len(),
        0 <= b < h.data_nets@[j]@.len(),
        h.data_nets@[i]@[a] == h.data_nets@[j]@[b],
    ensures
        role_rule(data_tag(i), Role::DataBlock, h.data_nets@[i]@[a]) != role_rule(
            data_tag(j),
            Role::DataBlock,
            h.data_nets@[j]@[b],
        ),
        h.kernel@.contains(Object::Rule(role_rule(data_tag(i), Role::DataBlock, h.data_nets@[i]@[a]))),
        h.kernel@.contains(Object::Rule(role_rule(data_tag(j), Role::DataBlock, h.data_nets@[j]@[b]))),
{
    lemma_rulesets_installed(h);
    let c = h.data_nets@[i]@[a];
    assert(h.data_nets@[j]@[b] == c);
    if role_rule(data_tag(i), Role::DataBlock, c) == role_rule(data_tag(j), Role::DataBlock, c) {
        lemma_role_rule_injective(data_tag(i), Role::DataBlock, c, data_tag(j), Role::DataBlock, c);
        assert(h.data_entries@.len() < usize::MAX);
    }
}

} // verus!
