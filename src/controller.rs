//! The classifier programmer and the event dispatcher: per-entry quota
//! state, the batches that keep the classifier in step with it, and the
//! handling of log notifications and timer expiry.
use vstd::prelude::*;
use crate::model::{Accounting, Config, Ipv4Cidr};
use crate::netfilter::{
    apply, lemma_apply_concat, lemma_role_batch_add, lemma_role_batch_del, lemma_role_set_owned,
    lemma_role_sets_disjoint, push_role_batch, role_batch, role_set, ChainId, EntryKind, EntryTag,
    LogKind, LogTag, Msg, MsgType, Object, QuotaObj, Role,
};
use crate::tags::{bytes_eq, log_prefix, log_prefix_spec};
use crate::timer::{sat_add, ConnTimer};

verus! {

#[derive(Clone, Copy, Debug, PartialEq, Eq, Structural)]
pub enum DataState {
    /// Under the limit: the log rule is installed.
    Counting,
    /// Over the limit: only the drop rule remains.
    OverLimit,
}

#[derive(Clone, Copy, Debug, PartialEq, Eq, Structural)]
pub enum TimeState {
    Idle,
    Running,
    Expired,
}

/// Runtime state of a data entry.
#[derive(Clone, Copy, Debug, PartialEq, Eq, Structural)]
pub struct NfDataLimit {
    pub limit: u64,
    pub state: DataState,
}

/// Runtime state of a time entry.
#[derive(Clone, Copy, Debug, PartialEq, Eq, Structural)]
pub struct NfTimeLimit {
    pub timer: ConnTimer,
    pub state: TimeState,
}

/// Data entry `i`: its quota object, then its drop rules, then its log rules.
pub open spec fn data_entry_batch(i: int, nets: Seq<Ipv4Cidr>, limit: u64) -> Seq<Msg> {
    seq![Msg { kind: MsgType::Add, object: Object::Quota(quota_obj(i, limit)) }] + role_batch(
        MsgType::Add,
        data_tag(i),
        Role::DataBlock,
        nets,
    ) + role_batch(MsgType::Add, data_tag(i), Role::DataLog, nets)
}

/// Time entry `i`: its start rules, then its inbound and outbound fin rules.
pub open spec fn time_entry_batch(i: int, nets: Seq<Ipv4Cidr>) -> Seq<Msg> {
    role_batch(MsgType::Add, time_tag(i), Role::Start, nets) + role_batch(
        MsgType::Add,
        time_tag(i),
        Role::InFin,
        nets,
    ) + role_batch(MsgType::Add, time_tag(i), Role::OutFin, nets)
}

/// The messages of the first `n` data entries.
pub open spec fn data_batches(ds: Seq<Accounting>, n: int) -> Seq<Msg>
    decreases n,
{
    if n <= 0 {
        Seq::empty()
    } else {
        data_batches(ds, n - 1) + data_entry_batch(n - 1, ds[n - 1].addr.value@, ds[n - 1].quota)
    }
}

/// The messages of the first `n` time entries.
pub open spec fn time_batches(ts: Seq<Accounting>, n: int) -> Seq<Msg>
    decreases n,
{
    if n <= 0 {
        Seq::empty()
    } else {
        time_batches(ts, n - 1) + time_entry_batch(n - 1, ts[n - 1].addr.value@)
    }
}

/// Everything that installing `data` and `time` sends, and nothing more.
pub open spec fn init_batch(data: Seq<Accounting>, time: Seq<Accounting>) -> Seq<Msg> {
    base_batch() + data_batches(data, data.len() as int) + time_batches(time, time.len() as int)
}

impl NfDataLimit {
    /// Data entry `index`, counting against its limit. Appends to `batch`
    /// its quota object (`Over` the limit, named after the entry) and, for
    /// each network, its drop rule and its log rule.
    pub fn new(acc: &Accounting, index: usize, batch: &mut Vec<Msg>) -> (r: NfDataLimit)
        ensures
            r == (NfDataLimit { limit: acc.quota, state: DataState::Counting }),
            final(batch)@ == old(batch)@ + data_entry_batch(index as int, acc.addr.value@, acc.quota),
    {
        let tag = EntryTag { kind: EntryKind::Data, index };
        let ghost b0 = batch@;
        batch.push(Msg {
            kind: MsgType::Add,
            object: Object::Quota(QuotaObj { owner: tag, over: true, limit: acc.quota }),
        });
        push_role_batch(batch, MsgType::Add, tag, Role::DataBlock, &acc.addr.value);
        push_role_batch(batch, MsgType::Add, tag, Role::DataLog, &acc.addr.value);
        proof {
            assert(batch@ =~= b0 + data_entry_batch(index as int, acc.addr.value@, acc.quota));
        }
        NfDataLimit { limit: acc.quota, state: DataState::Counting }
    }
}

impl NfTimeLimit {
    /// Time entry `index`, with its full limit left and no connection seen.
    /// Appends to `batch`, for each network, its start rule and its inbound
    /// and outbound fin rules.
    pub fn new(acc: &Accounting, index: usize, batch: &mut Vec<Msg>) -> (r: NfTimeLimit)
        ensures
            r.state == TimeState::Idle,
            r.timer.wf(),
            !r.timer.active,
            r.timer.target_secs == acc.quota,
            r.timer.remaining_secs == acc.quota,
            final(batch)@ == old(batch)@ + time_entry_batch(index as int, acc.addr.value@),
    {
        let tag = EntryTag { kind: EntryKind::Time, index };
        let ghost b0 = batch@;
        push_role_batch(batch, MsgType::Add, tag, Role::Start, &acc.addr.value);
        push_role_batch(batch, MsgType::Add, tag, Role::InFin, &acc.addr.value);
        push_role_batch(batch, MsgType::Add, tag, Role::OutFin, &acc.addr.value);
        proof {
            assert(batch@ =~= b0 + time_entry_batch(index as int, acc.addr.value@));
        }
        NfTimeLimit { timer: ConnTimer::new(acc.quota), state: TimeState::Idle }
    }
}

/// The programmer's view of the classifier and of every entry.
pub struct NfHandle {
    /// The `netcontrol` table is installed.
    pub installed: bool,
    pub data_nets: Vec<Vec<Ipv4Cidr>>,
    pub data_entries: Vec<NfDataLimit>,
    pub time_nets: Vec<Vec<Ipv4Cidr>>,
    pub time_entries: Vec<NfTimeLimit>,
    /// Entries one of whose runtime batches the classifier refused: their
    /// enforcement is best-effort.
    pub degraded: Vec<EntryTag>,
    /// The installed objects, as the batches handed out so far leave them.
    pub kernel: Ghost<Set<Object>>,
}

pub open spec fn data_tag(i: int) -> EntryTag {
    EntryTag { kind: EntryKind::Data, index: i as usize }
}

pub open spec fn time_tag(i: int) -> EntryTag {
    EntryTag { kind: EntryKind::Time, index: i as usize }
}

pub open spec fn quota_obj(i: int, limit: u64) -> QuotaObj {
    QuotaObj { owner: data_tag(i), over: true, limit }
}

/// Every object of `a` is a rule owned by `t`.
pub open spec fn owned(a: Set<Object>, t: EntryTag) -> bool {
    forall|o: Object| #[trigger] a.contains(o) ==> (o matches Object::Rule(r) && r.owner == t)
}

/// The installed objects agree with data entry `i`: its quota object and drop
/// rules are there; its log rules are there exactly while it is counting.
pub open spec fn data_ok(k: Set<Object>, i: int, nets: Seq<Ipv4Cidr>, e: NfDataLimit) -> bool {
    &&& k.contains(Object::Quota(quota_obj(i, e.limit)))
    &&& role_set(data_tag(i), Role::DataBlock, nets).subset_of(k)
    &&& e.state == DataState::Counting ==> role_set(data_tag(i), Role::DataLog, nets).subset_of(k)
    &&& e.state == DataState::OverLimit ==> role_set(data_tag(i), Role::DataLog, nets).disjoint(k)
}

/// The installed objects agree with time entry `i`: its monitor rules are
/// there; its block rules are there exactly while it is expired.
pub open spec fn time_ok(k: Set<Object>, i: int, nets: Seq<Ipv4Cidr>, e: NfTimeLimit) -> bool {
    &&& role_set(time_tag(i), Role::Start, nets).subset_of(k)
    &&& role_set(time_tag(i), Role::InFin, nets).subset_of(k)
    &&& role_set(time_tag(i), Role::OutFin, nets).subset_of(k)
    &&& e.state == TimeState::Expired ==> role_set(time_tag(i), Role::BlockIn, nets).subset_of(k)
    &&& e.state == TimeState::Expired ==> role_set(time_tag(i), Role::BlockOut, nets).subset_of(k)
    &&& e.state != TimeState::Expired ==> role_set(time_tag(i), Role::BlockIn, nets).disjoint(k)
    &&& e.state != TimeState::Expired ==> role_set(time_tag(i), Role::BlockOut, nets).disjoint(k)
}

pub open spec fn timer_ok(e: NfTimeLimit) -> bool {
    &&& e.timer.wf()
    &&& (e.state == TimeState::Running <==> e.timer.active)
}

pub open spec fn base_ok(k: Set<Object>) -> bool {
    &&& k.contains(Object::Table)
    &&& k.contains(Object::Chain(ChainId::DataIn))
    &&& k.contains(Object::Chain(ChainId::DataOut))
    &&& k.contains(Object::Chain(ChainId::TimeIn))
    &&& k.contains(Object::Chain(ChainId::TimeOut))
}

/// Data entry `i` blocked: its log rules are removed.
pub open spec fn data_block_batch(i: int, nets: Seq<Ipv4Cidr>) -> Seq<Msg> {
    role_batch(MsgType::Del, data_tag(i), Role::DataLog, nets)
}

/// Data entry `i` unblocked: its log rules are installed again.
pub open spec fn data_unblock_batch(i: int, nets: Seq<Ipv4Cidr>) -> Seq<Msg> {
    role_batch(MsgType::Add, data_tag(i), Role::DataLog, nets)
}

/// Time entry `i` blocked: reject rules in both directions.
pub open spec fn time_block_batch(i: int, nets: Seq<Ipv4Cidr>) -> Seq<Msg> {
    role_batch(MsgType::Add, time_tag(i), Role::BlockIn, nets) + role_batch(
        MsgType::Add,
        time_tag(i),
        Role::BlockOut,
        nets,
    )
}

/// Time entry `i` unblocked: its reject rules are removed.
pub open spec fn time_unblock_batch(i: int, nets: Seq<Ipv4Cidr>) -> Seq<Msg> {
    role_batch(MsgType::Del, time_tag(i), Role::BlockIn, nets) + role_batch(
        MsgType::Del,
        time_tag(i),
        Role::BlockOut,
        nets,
    )
}

impl NfHandle {
    pub open spec fn entries_ok(self, k: Set<Object>) -> bool {
        &&& forall|i: int|
            0 <= i < self.data_entries@.len() ==> data_ok(
                k,
                i,
                self.data_nets@[i]@,
                #[trigger] self.data_entries@[i],
            )
        &&& forall|i: int|
            0 <= i < self.time_entries@.len() ==> time_ok(
                k,
                i,
                self.time_nets@[i]@,
                #[trigger] self.time_entries@[i],
            )
    }

    pub open spec fn wf(self) -> bool {
        &&& self.data_nets@.len() == self.data_entries@.len() < usize::MAX
        &&& self.time_entries@.len() < usize::MAX
        &&& self.time_nets@.len() == self.time_entries@.len()
        &&& forall|i: int|
            0 <= i < self.time_entries@.len() ==> timer_ok(#[trigger] self.time_entries@[i])
        &&& self.installed ==> base_ok(self.kernel@) && self.entries_ok(self.kernel@)
        &&& !self.installed ==> self.kernel@ == Set::<Object>::empty()
    }
}

/// An entry's objects survive adding or removing rules owned by another entry.
proof fn lemma_data_ok_frame(
    k1: Set<Object>,
    k2: Set<Object>,
    a: Set<Object>,
    t: EntryTag,
    i: int,
    nets: Seq<Ipv4Cidr>,
    e: NfDataLimit,
)
    requires
        data_ok(k1, i, nets, e),
        owned(a, t),
        t != data_tag(i),
        k2 == k1.union(a) || k2 == k1.difference(a),
    ensures
        data_ok(k2, i, nets, e),
{
    lemma_role_set_owned(data_tag(i), Role::DataBlock, nets);
    lemma_role_set_owned(data_tag(i), Role::DataLog, nets);
    assert(!a.contains(Object::Quota(quota_obj(i, e.limit))));
}

proof fn lemma_time_ok_frame(
    k1: Set<Object>,
    k2: Set<Object>,
    a: Set<Object>,
    t: EntryTag,
    i: int,
    nets: Seq<Ipv4Cidr>,
    e: NfTimeLimit,
)
    requires
        time_ok(k1, i, nets, e),
        owned(a, t),
        t != time_tag(i),
        k2 == k1.union(a) || k2 == k1.difference(a),
    ensures
        time_ok(k2, i, nets, e),
{
    lemma_role_set_owned(time_tag(i), Role::Start, nets);
    lemma_role_set_owned(time_tag(i), Role::InFin, nets);
    lemma_role_set_owned(time_tag(i), Role::OutFin, nets);
    lemma_role_set_owned(time_tag(i), Role::BlockIn, nets);
    lemma_role_set_owned(time_tag(i), Role::BlockOut, nets);
}

/// Adding or removing rules owned by `t` keeps every other entry in agreement.
proof fn lemma_entries_frame(
    h: NfHandle,
    k1: Set<Object>,
    k2: Set<Object>,
    a: Set<Object>,
    t: EntryTag,
)
    requires
        h.entries_ok(k1),
        owned(a, t),
        k2 == k1.union(a) || k2 == k1.difference(a),
    ensures
        forall|i: int|
            0 <= i < h.data_entries@.len() && data_tag(i) != t ==> data_ok(
                k2,
                i,
                h.data_nets@[i]@,
                #[trigger] h.data_entries@[i],
            ),
        forall|i: int|
            0 <= i < h.time_entries@.len() && time_tag(i) != t ==> time_ok(
                k2,
                i,
                h.time_nets@[i]@,
                #[trigger] h.time_entries@[i],
            ),
{
    assert forall|i: int|
        0 <= i < h.data_entries@.len() && data_tag(i) != t implies data_ok(
        k2,
        i,
        h.data_nets@[i]@,
        #[trigger] h.data_entries@[i],
    ) by {
        lemma_data_ok_frame(k1, k2, a, t, i, h.data_nets@[i]@, h.data_entries@[i]);
    }
    assert forall|i: int|
        0 <= i < h.time_entries@.len() && time_tag(i) != t implies time_ok(
        k2,
        i,
        h.time_nets@[i]@,
        #[trigger] h.time_entries@[i],
    ) by {
        lemma_time_ok_frame(k1, k2, a, t, i, h.time_nets@[i]@, h.time_entries@[i]);
    }
}

proof fn lemma_owned(t: EntryTag, r: Role, nets: Seq<Ipv4Cidr>)
    ensures
        owned(role_set(t, r, nets), t),
{
    lemma_role_set_owned(t, r, nets);
}

proof fn lemma_base_frame(k1: Set<Object>, k2: Set<Object>, a: Set<Object>, t: EntryTag)
    requires
        base_ok(k1),
        owned(a, t),
        k2 == k1.union(a) || k2 == k1.difference(a),
    ensures
        base_ok(k2),
{
    assert(!a.contains(Object::Table));
    assert(!a.contains(Object::Chain(ChainId::DataIn)));
    assert(!a.contains(Object::Chain(ChainId::DataOut)));
    assert(!a.contains(Object::Chain(ChainId::TimeIn)));
    assert(!a.contains(Object::Chain(ChainId::TimeOut)));
}

/// Every rule in `k` belongs to an entry below `nd` (data) or `nt` (time).
pub open spec fn owners_below(k: Set<Object>, nd: int, nt: int) -> bool {
    forall|o: Object| #[trigger]
        k.contains(o) ==> (o matches Object::Rule(r) ==> ((r.owner.kind == EntryKind::Data
            ==> r.owner.index < nd) && (r.owner.kind == EntryKind::Time ==> r.owner.index < nt)))
}

proof fn lemma_data_ok_grow(k1: Set<Object>, k2: Set<Object>, i: int, nets: Seq<Ipv4Cidr>, e: NfDataLimit)
    requires
        data_ok(k1, i, nets, e),
        k1.subset_of(k2),
        e.state == DataState::Counting,
    ensures
        data_ok(k2, i, nets, e),
{
}

fn copy_nets(v: &Vec<Ipv4Cidr>) -> (r: Vec<Ipv4Cidr>)
    ensures
        r@ == v@,
{
    let mut out: Vec<Ipv4Cidr> = Vec::new();
    let mut i: usize = 0;
    while i < v.len()
        invariant
            i <= v@.len(),
            out@ == v@.subrange(0, i as int),
        decreases v@.len() - i,
    {
        out.push(v[i]);
        assert(v@.subrange(0, i + 1) =~= v@.subrange(0, i as int).push(v@[i as int]));
        i = i + 1;
    }
    assert(v@.subrange(0, v@.len() as int) =~= v@);
    out
}

/// The table and its four chains.
pub open spec fn base_batch() -> Seq<Msg> {
    seq![
        Msg { kind: MsgType::Add, object: Object::Table },
        Msg { kind: MsgType::Add, object: Object::Chain(ChainId::DataIn) },
        Msg { kind: MsgType::Add, object: Object::Chain(ChainId::DataOut) },
        Msg { kind: MsgType::Add, object: Object::Chain(ChainId::TimeIn) },
        Msg { kind: MsgType::Add, object: Object::Chain(ChainId::TimeOut) },
    ]
}

proof fn lemma_base_batch()
    ensures
        base_ok(apply(Set::empty(), base_batch())),
        owners_below(apply(Set::empty(), base_batch()), 0, 0),
{
    let e = Set::<Object>::empty();
    let m0 = Msg { kind: MsgType::Add, object: Object::Table };
    let m1 = Msg { kind: MsgType::Add, object: Object::Chain(ChainId::DataIn) };
    let m2 = Msg { kind: MsgType::Add, object: Object::Chain(ChainId::DataOut) };
    let m3 = Msg { kind: MsgType::Add, object: Object::Chain(ChainId::TimeIn) };
    let m4 = Msg { kind: MsgType::Add, object: Object::Chain(ChainId::TimeOut) };
    let b0 = Seq::<Msg>::empty();
    let b1 = b0.push(m0);
    let b2 = b1.push(m1);
    let b3 = b2.push(m2);
    let b4 = b3.push(m3);
    let b5 = b4.push(m4);
    assert(b5 =~= base_batch());
    crate::netfilter::lemma_apply_push(e, b0, m0);
    crate::netfilter::lemma_apply_push(e, b1, m1);
    crate::netfilter::lemma_apply_push(e, b2, m2);
    crate::netfilter::lemma_apply_push(e, b3, m3);
    crate::netfilter::lemma_apply_push(e, b4, m4);
    let k = apply(e, b5);
    assert(k =~= e.insert(m0.object).insert(m1.object).insert(m2.object).insert(m3.object).insert(
        m4.object,
    ));
}

/// Synthesises the whole rule set for `config`: the table, its four chains,
/// and for each data entry its quota object, drop rules and log rules, and
/// for each time entry its start and fin rules. Returns the handle and the
/// batch that installs all of it.
pub fn init(config: &Config) -> (r: (NfHandle, Vec<Msg>))
    requires
        config.data@.len() < usize::MAX,
        config.time@.len() < usize::MAX,
    ensures
        r.0.wf(),
        r.0.installed,
        r.0.kernel@ == apply(Set::empty(), r.1@),
        r.1@ == init_batch(config.data@, config.time@),
        r.0.data_entries@.len() == config.data@.len(),
        r.0.time_entries@.len() == config.time@.len(),
        forall|i: int|
            0 <= i < config.data@.len() ==> (#[trigger] r.0.data_nets@[i])@ == config.data@[i].addr.value@
                && r.0.data_entries@[i] == (NfDataLimit {
                limit: config.data@[i].quota,
                state: DataState::Counting,
            }),
        forall|i: int|
            0 <= i < config.time@.len() ==> (#[trigger] r.0.time_nets@[i])@ == config.time@[i].addr.value@
                && r.0.time_entries@[i].state == TimeState::Idle
                && r.0.time_entries@[i].timer.target_secs == config.time@[i].quota
                && r.0.time_entries@[i].timer.remaining_secs == config.time@[i].quota,
        owners_below(r.0.kernel@, config.data@.len() as int, config.time@.len() as int),
{
    let mut batch: Vec<Msg> = Vec::new();
    batch.push(Msg { kind: MsgType::Add, object: Object::Table });
    batch.push(Msg { kind: MsgType::Add, object: Object::Chain(ChainId::DataIn) });
    batch.push(Msg { kind: MsgType::Add, object: Object::Chain(ChainId::DataOut) });
    batch.push(Msg { kind: MsgType::Add, object: Object::Chain(ChainId::TimeIn) });
    batch.push(Msg { kind: MsgType::Add, object: Object::Chain(ChainId::TimeOut) });
    proof {
        assert(batch@ =~= base_batch());
        lemma_base_batch();
    }
    let mut h = NfHandle {
        installed: true,
        data_nets: Vec::new(),
        data_entries: Vec::new(),
        time_nets: Vec::new(),
        time_entries: Vec::new(),
        degraded: Vec::new(),
        kernel: Ghost(apply(Set::empty(), batch@)),
    };
    proof {
        assert(batch@ =~= base_batch() + data_batches(config.data@, 0));
    }
    let mut i: usize = 0;
    while i < config.data.len()
        invariant
            i <= config.data@.len() < usize::MAX,
            h.wf(),
            h.installed,
            h.kernel@ == apply(Set::empty(), batch@),
            batch@ == base_batch() + data_batches(config.data@, i as int),
            h.data_entries@.len() == i,
            h.time_entries@.len() == 0,
            forall|j: int|
                0 <= j < i ==> (#[trigger] h.data_nets@[j])@ == config.data@[j].addr.value@
                    && h.data_entries@[j] == (NfDataLimit {
                    limit: config.data@[j].quota,
                    state: DataState::Counting,
                }),
            owners_below(h.kernel@, i as int, 0),
        decreases config.data@.len() - i,
    {
        let nets = copy_nets(&config.data[i].addr.value);
        let tag = EntryTag { kind: EntryKind::Data, index: i };
        let ghost k1 = h.kernel@;
        let ghost b1 = batch@;
        let entry = NfDataLimit::new(&config.data[i], i, &mut batch);
        let limit = entry.limit;
        let ghost q = Msg { kind: MsgType::Add, object: Object::Quota(QuotaObj { owner: tag, over: true, limit }) };
        let ghost b2 = b1.push(q);
        let ghost b3 = b2 + role_batch(MsgType::Add, tag, Role::DataBlock, nets@);
        proof {
            assert(batch@ =~= b3 + role_batch(MsgType::Add, tag, Role::DataLog, nets@));
            assert(batch@ =~= base_batch() + data_batches(config.data@, i + 1));
        }
        let ghost db = role_set(tag, Role::DataBlock, nets@);
        let ghost dl = role_set(tag, Role::DataLog, nets@);
        let ghost k2 = k1.insert(q.object);
        let ghost k3 = k2.union(db);
        let ghost k4 = k3.union(dl);
        proof {
            crate::netfilter::lemma_apply_push(Set::empty(), b1, q);
            lemma_apply_concat(Set::empty(), b2, role_batch(MsgType::Add, tag, Role::DataBlock, nets@));
            lemma_role_batch_add(k2, tag, Role::DataBlock, nets@);
            lemma_apply_concat(Set::empty(), b3, role_batch(MsgType::Add, tag, Role::DataLog, nets@));
            lemma_role_batch_add(k3, tag, Role::DataLog, nets@);
            lemma_owned(tag, Role::DataBlock, nets@);
            lemma_owned(tag, Role::DataLog, nets@);
            assert(k1.subset_of(k4));
            assert forall|j: int| 0 <= j < h.data_entries@.len() implies data_ok(
                k4,
                j,
                h.data_nets@[j]@,
                #[trigger] h.data_entries@[j],
            ) by {
                lemma_data_ok_grow(k1, k4, j, h.data_nets@[j]@, h.data_entries@[j]);
            }
            assert(owners_below(k4, i + 1, 0));
        }
        h.data_nets.push(nets);
        h.data_entries.push(entry);
        h.kernel = Ghost(k4);
        proof {
            assert(data_ok(k4, i as int, h.data_nets@[i as int]@, h.data_entries@[i as int]));
            assert(h.entries_ok(k4));
            base_ok_grow(k1, k4);
        }
        i = i + 1;
    }
    proof {
        assert(batch@ =~= base_batch() + data_batches(config.data@, config.data@.len() as int)
            + time_batches(config.time@, 0));
    }
    let mut i: usize = 0;
    while i < config.time.len()
        invariant
            i <= config.time@.len() < usize::MAX,
            h.wf(),
            h.installed,
            h.kernel@ == apply(Set::empty(), batch@),
            batch@ == base_batch() + data_batches(config.data@, config.data@.len() as int)
                + time_batches(config.time@, i as int),
            h.data_entries@.len() == config.data@.len(),
            h.time_entries@.len() == i,
            forall|j: int|
                0 <= j < config.data@.len() ==> (#[trigger] h.data_nets@[j])@ == config.data@[j].addr.value@
                    && h.data_entries@[j] == (NfDataLimit {
                    limit: config.data@[j].quota,
                    state: DataState::Counting,
                }),
            forall|j: int|
                0 <= j < i ==> (#[trigger] h.time_nets@[j])@ == config.time@[j].addr.value@
                    && h.time_entries@[j].state == TimeState::Idle
                    && h.time_entries@[j].timer.target_secs == config.time@[j].quota
                    && h.time_entries@[j].timer.remaining_secs == config.time@[j].quota,
            owners_below(h.kernel@, config.data@.len() as int, i as int),
        decreases config.time@.len() - i,
    {
        let nets = copy_nets(&config.time[i].addr.value);
        let tag = EntryTag { kind: EntryKind::Time, index: i };
        let ghost k1 = h.kernel@;
        let ghost b1 = batch@;
        let entry = NfTimeLimit::new(&config.time[i], i, &mut batch);
        let ghost b2 = b1 + role_batch(MsgType::Add, tag, Role::Start, nets@);
        let ghost b3 = b2 + role_batch(MsgType::Add, tag, Role::InFin, nets@);
        proof {
            assert(batch@ =~= b3 + role_batch(MsgType::Add, tag, Role::OutFin, nets@));
            assert(batch@ =~= base_batch() + data_batches(config.data@, config.data@.len() as int)
                + time_batches(config.time@, i + 1));
        }
        let ghost s1 = role_set(tag, Role::Start, nets@);
        let ghost s2 = role_set(tag, Role::InFin, nets@);
        let ghost s3 = role_set(tag, Role::OutFin, nets@);
        let ghost k2 = k1.union(s1);
        let ghost k3 = k2.union(s2);
        let ghost k4 = k3.union(s3);
        proof {
            lemma_apply_concat(Set::empty(), b1, role_batch(MsgType::Add, tag, Role::Start, nets@));
            lemma_role_batch_add(k1, tag, Role::Start, nets@);
            lemma_apply_concat(Set::empty(), b2, role_batch(MsgType::Add, tag, Role::InFin, nets@));
            lemma_role_batch_add(k2, tag, Role::InFin, nets@);
            lemma_apply_concat(Set::empty(), b3, role_batch(MsgType::Add, tag, Role::OutFin, nets@));
            lemma_role_batch_add(k3, tag, Role::OutFin, nets@);
            lemma_owned(tag, Role::Start, nets@);
            lemma_owned(tag, Role::InFin, nets@);
            lemma_owned(tag, Role::OutFin, nets@);
            lemma_entries_frame(h, k1, k2, s1, tag);
            assert(h.entries_ok(k2));
            lemma_entries_frame(h, k2, k3, s2, tag);
            assert(h.entries_ok(k3));
            lemma_entries_frame(h, k3, k4, s3, tag);
            lemma_base_frame(k1, k2, s1, tag);
            lemma_base_frame(k2, k3, s2, tag);
            lemma_base_frame(k3, k4, s3, tag);
            assert(owners_below(k4, config.data@.len() as int, i + 1));
            lemma_owned(tag, Role::BlockIn, nets@);
            lemma_owned(tag, Role::BlockOut, nets@);
            lemma_role_sets_disjoint(tag, Role::BlockIn, nets@, tag, Role::Start, nets@);
            lemma_role_sets_disjoint(tag, Role::BlockIn, nets@, tag, Role::InFin, nets@);
            lemma_role_sets_disjoint(tag, Role::BlockIn, nets@, tag, Role::OutFin, nets@);
            lemma_role_sets_disjoint(tag, Role::BlockOut, nets@, tag, Role::Start, nets@);
            lemma_role_sets_disjoint(tag, Role::BlockOut, nets@, tag, Role::InFin, nets@);
            lemma_role_sets_disjoint(tag, Role::BlockOut, nets@, tag, Role::OutFin, nets@);
            assert(role_set(tag, Role::BlockIn, nets@).disjoint(k1));
            assert(role_set(tag, Role::BlockOut, nets@).disjoint(k1));
        }
        h.time_nets.push(nets);
        h.time_entries.push(entry);
        h.kernel = Ghost(k4);
        proof {
            assert(time_ok(k4, i as int, h.time_nets@[i as int]@, h.time_entries@[i as int]));
            assert(h.entries_ok(k4));
        }
        i = i + 1;
    }
    (h, batch)
}

proof fn base_ok_grow(k1: Set<Object>, k2: Set<Object>)
    requires
        base_ok(k1),
        k1.subset_of(k2),
    ensures
        base_ok(k2),
{
}

/// The handle is `old` with only the state of data entry `j` replaced.
pub open spec fn same_but_data(new: NfHandle, old: NfHandle, j: int, e: NfDataLimit) -> bool {
    &&& new.degraded@ == old.degraded@
    &&& new.installed == old.installed
    &&& new.data_nets@ == old.data_nets@
    &&& new.time_nets@ == old.time_nets@
    &&& new.time_entries@ == old.time_entries@
    &&& new.data_entries@ == old.data_entries@.update(j, e)
}

/// The handle is `old` with only the state of time entry `j` replaced.
pub open spec fn same_but_time(new: NfHandle, old: NfHandle, j: int, e: NfTimeLimit) -> bool {
    &&& new.degraded@ == old.degraded@
    &&& new.installed == old.installed
    &&& new.data_nets@ == old.data_nets@
    &&& new.time_nets@ == old.time_nets@
    &&& new.data_entries@ == old.data_entries@
    &&& new.time_entries@ == old.time_entries@.update(j, e)
}

pub open spec fn same_entries(new: NfHandle, old: NfHandle) -> bool {
    &&& new.degraded@ == old.degraded@
    &&& new.installed == old.installed
    &&& new.data_nets@ == old.data_nets@
    &&& new.time_nets@ == old.time_nets@
    &&& new.data_entries@ == old.data_entries@
    &&& new.time_entries@ == old.time_entries@
}

impl NfHandle {
    /// Data entry `j` went over its limit: it becomes `OverLimit` and its log
    /// rules are removed, leaving the drop rules. No effect once over.
    pub fn block_data(&mut self, j: usize) -> (r: Vec<Msg>)
        requires
            old(self).wf(),
            j < old(self).data_entries@.len(),
        ensures
            final(self).wf(),
            final(self).kernel@ == apply(old(self).kernel@, r@),
            old(self).data_entries@[j as int].state == DataState::OverLimit ==> r@.len() == 0
                && same_entries(*final(self), *old(self)),
            old(self).data_entries@[j as int].state == DataState::Counting ==> same_but_data(
                *final(self),
                *old(self),
                j as int,
                NfDataLimit { state: DataState::OverLimit, ..old(self).data_entries@[j as int] },
            ) && r@ == (if old(self).installed {
                data_block_batch(j as int, old(self).data_nets@[j as int]@)
            } else {
                Seq::empty()
            }),
    {
        let mut out: Vec<Msg> = Vec::new();
        let e = self.data_entries[j];
        if e.state == DataState::OverLimit {
            return out;
        }
        let tag = EntryTag { kind: EntryKind::Data, index: j };
        let ghost k1 = self.kernel@;
        let ghost nets = self.data_nets@[j as int]@;
        let ghost h0 = *self;
        let ne = NfDataLimit { state: DataState::OverLimit, ..e };
        if self.installed {
            push_role_batch(&mut out, MsgType::Del, tag, Role::DataLog, &self.data_nets[j]);
            let ghost dl = role_set(tag, Role::DataLog, nets);
            let ghost k2 = k1.difference(dl);
            proof {
                assert(out@ =~= role_batch(MsgType::Del, tag, Role::DataLog, nets));
                lemma_role_batch_del(k1, tag, Role::DataLog, nets);
                lemma_owned(tag, Role::DataLog, nets);
                lemma_entries_frame(h0, k1, k2, dl, tag);
                lemma_base_frame(k1, k2, dl, tag);
                lemma_role_sets_disjoint(tag, Role::DataBlock, nets, tag, Role::DataLog, nets);
            }
            self.kernel = Ghost(k2);
        } else {
            proof {
                assert(out@ =~= Seq::<Msg>::empty());
            }
        }
        self.data_entries.set(j, ne);
        proof {
            if self.installed {
                assert(data_ok(self.kernel@, j as int, nets, ne));
                assert forall|i: int| 0 <= i < self.data_entries@.len() implies data_ok(
                    self.kernel@,
                    i,
                    self.data_nets@[i]@,
                    #[trigger] self.data_entries@[i],
                ) by {
                    if i != j {
                        assert(self.data_entries@[i] == h0.data_entries@[i]);
                        assert((i as usize) as int == i);
                        assert(data_tag(i).index != tag.index);
                        assert(data_ok(k1, i, h0.data_nets@[i]@, h0.data_entries@[i]));
                    } else {
                        assert(self.data_entries@[i] == ne);
                    }
                }
                assert forall|i: int| 0 <= i < self.time_entries@.len() implies time_ok(
                    self.kernel@,
                    i,
                    self.time_nets@[i]@,
                    #[trigger] self.time_entries@[i],
                ) by {
                    assert(self.time_entries@[i] == h0.time_entries@[i]);
                }
                assert(self.entries_ok(self.kernel@));
            }
        }
        out
    }

    /// Data entry `j` is counting again: its log rules are installed again.
    /// No effect while counting.
    pub fn unblock_data(&mut self, j: usize) -> (r: Vec<Msg>)
        requires
            old(self).wf(),
            j < old(self).data_entries@.len(),
        ensures
            final(self).wf(),
            final(self).kernel@ == apply(old(self).kernel@, r@),
            old(self).data_entries@[j as int].state == DataState::Counting ==> r@.len() == 0
                && same_entries(*final(self), *old(self)),
            old(self).data_entries@[j as int].state == DataState::OverLimit ==> same_but_data(
                *final(self),
                *old(self),
                j as int,
                NfDataLimit { state: DataState::Counting, ..old(self).data_entries@[j as int] },
            ) && r@ == (if old(self).installed {
                data_unblock_batch(j as int, old(self).data_nets@[j as int]@)
            } else {
                Seq::empty()
            }),
    {
        let mut out: Vec<Msg> = Vec::new();
        let e = self.data_entries[j];
        if e.state == DataState::Counting {
            return out;
        }
        let tag = EntryTag { kind: EntryKind::Data, index: j };
        let ghost k1 = self.kernel@;
        let ghost nets = self.data_nets@[j as int]@;
        let ghost h0 = *self;
        let ne = NfDataLimit { state: DataState::Counting, ..e };
        if self.installed {
            push_role_batch(&mut out, MsgType::Add, tag, Role::DataLog, &self.data_nets[j]);
            let ghost dl = role_set(tag, Role::DataLog, nets);
            let ghost k2 = k1.union(dl);
            proof {
                assert(out@ =~= role_batch(MsgType::Add, tag, Role::DataLog, nets));
                lemma_role_batch_add(k1, tag, Role::DataLog, nets);
                lemma_owned(tag, Role::DataLog, nets);
                lemma_entries_frame(h0, k1, k2, dl, tag);
                lemma_base_frame(k1, k2, dl, tag);
            }
            self.kernel = Ghost(k2);
        } else {
            proof {
                assert(out@ =~= Seq::<Msg>::empty());
            }
        }
        self.data_entries.set(j, ne);
        proof {
            if self.installed {
                assert(data_ok(self.kernel@, j as int, nets, ne));
                assert forall|i: int| 0 <= i < self.data_entries@.len() implies data_ok(
                    self.kernel@,
                    i,
                    self.data_nets@[i]@,
                    #[trigger] self.data_entries@[i],
                ) by {
                    if i != j {
                        assert(self.data_entries@[i] == h0.data_entries@[i]);
                        assert((i as usize) as int == i);
                        assert(data_tag(i).index != tag.index);
                        assert(data_ok(k1, i, h0.data_nets@[i]@, h0.data_entries@[i]));
                    } else {
                        assert(self.data_entries@[i] == ne);
                    }
                }
                assert forall|i: int| 0 <= i < self.time_entries@.len() implies time_ok(
                    self.kernel@,
                    i,
                    self.time_nets@[i]@,
                    #[trigger] self.time_entries@[i],
                ) by {
                    assert(self.time_entries@[i] == h0.time_entries@[i]);
                }
                assert(self.entries_ok(self.kernel@));
            }
        }
        out
    }

    /// Time entry `j` expired at `now`: its timer stops, it becomes `Expired`
    /// and reject rules are installed in both directions. No effect once
    /// expired.
    pub fn block_time(&mut self, j: usize, now: u64) -> (r: Vec<Msg>)
        requires
            old(self).wf(),
            j < old(self).time_entries@.len(),
        ensures
            final(self).wf(),
            final(self).kernel@ == apply(old(self).kernel@, r@),
            old(self).time_entries@[j as int].state == TimeState::Expired ==> r@.len() == 0
                && same_entries(*final(self), *old(self)),
            old(self).time_entries@[j as int].state != TimeState::Expired ==> same_but_time(
                *final(self),
                *old(self),
                j as int,
                NfTimeLimit {
                    state: TimeState::Expired,
                    timer: old(self).time_entries@[j as int].timer.stopped_spec(now),
                },
            ),
            old(self).time_entries@[j as int].state != TimeState::Expired ==> r@ == (
            if old(self).installed {
                time_block_batch(j as int, old(self).time_nets@[j as int]@)
            } else {
                Seq::empty()
            }),
    {
        let mut out: Vec<Msg> = Vec::new();
        let e = self.time_entries[j];
        if e.state == TimeState::Expired {
            return out;
        }
        let tag = EntryTag { kind: EntryKind::Time, index: j };
        let ghost k1 = self.kernel@;
        let ghost nets = self.time_nets@[j as int]@;
        let ghost h0 = *self;
        let mut timer = e.timer;
        timer.stop(now);
        let ne = NfTimeLimit { state: TimeState::Expired, timer };
        if self.installed {
            push_role_batch(&mut out, MsgType::Add, tag, Role::BlockIn, &self.time_nets[j]);
            let ghost b1 = out@;
            push_role_batch(&mut out, MsgType::Add, tag, Role::BlockOut, &self.time_nets[j]);
            let ghost bi = role_set(tag, Role::BlockIn, nets);
            let ghost bo = role_set(tag, Role::BlockOut, nets);
            let ghost k2 = k1.union(bi);
            let ghost k3 = k2.union(bo);
            proof {
                assert(b1 =~= role_batch(MsgType::Add, tag, Role::BlockIn, nets));
                assert(out@ =~= time_block_batch(j as int, nets));
                lemma_apply_concat(k1, b1, role_batch(MsgType::Add, tag, Role::BlockOut, nets));
                lemma_role_batch_add(k1, tag, Role::BlockIn, nets);
                lemma_role_batch_add(k2, tag, Role::BlockOut, nets);
                lemma_owned(tag, Role::BlockIn, nets);
                lemma_owned(tag, Role::BlockOut, nets);
                assert(k3 =~= k1.union(bi.union(bo)));
                assert(owned(bi.union(bo), tag));
                lemma_entries_frame(h0, k1, k3, bi.union(bo), tag);
                lemma_base_frame(k1, k2, bi, tag);
                lemma_base_frame(k2, k3, bo, tag);
            }
            self.kernel = Ghost(k3);
        } else {
            proof {
                assert(out@ =~= Seq::<Msg>::empty());
            }
        }
        self.time_entries.set(j, ne);
        proof {
            if self.installed {
                assert(time_ok(self.kernel@, j as int, nets, ne));
                assert forall|i: int| 0 <= i < self.time_entries@.len() implies time_ok(
                    self.kernel@,
                    i,
                    self.time_nets@[i]@,
                    #[trigger] self.time_entries@[i],
                ) by {
                    if i != j {
                        assert(self.time_entries@[i] == h0.time_entries@[i]);
                        assert((i as usize) as int == i);
                        assert(time_tag(i).index != tag.index);
                        assert(time_ok(k1, i, h0.time_nets@[i]@, h0.time_entries@[i]));
                    } else {
                        assert(self.time_entries@[i] == ne);
                    }
                }
                assert forall|i: int| 0 <= i < self.data_entries@.len() implies data_ok(
                    self.kernel@,
                    i,
                    self.data_nets@[i]@,
                    #[trigger] self.data_entries@[i],
                ) by {
                    assert(self.data_entries@[i] == h0.data_entries@[i]);
                }
                assert(self.entries_ok(self.kernel@));
            }
            assert(same_but_time(*self, h0, j as int, ne));
        }
        out
    }

    /// Time entry `j` is usable again: its reject rules are removed and it
    /// becomes `Idle`. No effect unless expired.
    pub fn unblock_time(&mut self, j: usize) -> (r: Vec<Msg>)
        requires
            old(self).wf(),
            j < old(self).time_entries@.len(),
        ensures
            final(self).wf(),
            final(self).kernel@ == apply(old(self).kernel@, r@),
            old(self).time_entries@[j as int].state != TimeState::Expired ==> r@.len() == 0
                && same_entries(*final(self), *old(self)),
            old(self).time_entries@[j as int].state == TimeState::Expired ==> same_but_time(
                *final(self),
                *old(self),
                j as int,
                NfTimeLimit { state: TimeState::Idle, ..old(self).time_entries@[j as int] },
            ) && r@ == (if old(self).installed {
                time_unblock_batch(j as int, old(self).time_nets@[j as int]@)
            } else {
                Seq::empty()
            }),
    {
        let mut out: Vec<Msg> = Vec::new();
        let e = self.time_entries[j];
        if e.state != TimeState::Expired {
            return out;
        }
        let tag = EntryTag { kind: EntryKind::Time, index: j };
        let ghost k1 = self.kernel@;
        let ghost nets = self.time_nets@[j as int]@;
        let ghost h0 = *self;
        let ne = NfTimeLimit { state: TimeState::Idle, ..e };
        if self.installed {
            push_role_batch(&mut out, MsgType::Del, tag, Role::BlockIn, &self.time_nets[j]);
            let ghost b1 = out@;
            push_role_batch(&mut out, MsgType::Del, tag, Role::BlockOut, &self.time_nets[j]);
            let ghost bi = role_set(tag, Role::BlockIn, nets);
            let ghost bo = role_set(tag, Role::BlockOut, nets);
            let ghost k2 = k1.difference(bi);
            let ghost k3 = k2.difference(bo);
            proof {
                assert(b1 =~= role_batch(MsgType::Del, tag, Role::BlockIn, nets));
                assert(out@ =~= time_unblock_batch(j as int, nets));
                lemma_apply_concat(k1, b1, role_batch(MsgType::Del, tag, Role::BlockOut, nets));
                lemma_role_batch_del(k1, tag, Role::BlockIn, nets);
                lemma_role_batch_del(k2, tag, Role::BlockOut, nets);
                lemma_owned(tag, Role::BlockIn, nets);
                lemma_owned(tag, Role::BlockOut, nets);
                assert(k3 =~= k1.difference(bi.union(bo)));
                assert(owned(bi.union(bo), tag));
                lemma_entries_frame(h0, k1, k3, bi.union(bo), tag);
                lemma_base_frame(k1, k2, bi, tag);
                lemma_base_frame(k2, k3, bo, tag);
                lemma_role_sets_disjoint(tag, Role::Start, nets, tag, Role::BlockIn, nets);
                lemma_role_sets_disjoint(tag, Role::InFin, nets, tag, Role::BlockIn, nets);
                lemma_role_sets_disjoint(tag, Role::OutFin, nets, tag, Role::BlockIn, nets);
                lemma_role_sets_disjoint(tag, Role::Start, nets, tag, Role::BlockOut, nets);
                lemma_role_sets_disjoint(tag, Role::InFin, nets, tag, Role::BlockOut, nets);
                lemma_role_sets_disjoint(tag, Role::OutFin, nets, tag, Role::BlockOut, nets);
            }
            self.kernel = Ghost(k3);
        } else {
            proof {
                assert(out@ =~= Seq::<Msg>::empty());
            }
        }
        self.time_entries.set(j, ne);
        proof {
            if self.installed {
                assert(time_ok(self.kernel@, j as int, nets, ne));
                assert forall|i: int| 0 <= i < self.time_entries@.len() implies time_ok(
                    self.kernel@,
                    i,
                    self.time_nets@[i]@,
                    #[trigger] self.time_entries@[i],
                ) by {
                    if i != j {
                        assert(self.time_entries@[i] == h0.time_entries@[i]);
                        assert((i as usize) as int == i);
                        assert(time_tag(i).index != tag.index);
                        assert(time_ok(k1, i, h0.time_nets@[i]@, h0.time_entries@[i]));
                    } else {
                        assert(self.time_entries@[i] == ne);
                    }
                }
                assert forall|i: int| 0 <= i < self.data_entries@.len() implies data_ok(
                    self.kernel@,
                    i,
                    self.data_nets@[i]@,
                    #[trigger] self.data_entries@[i],
                ) by {
                    assert(self.data_entries@[i] == h0.data_entries@[i]);
                }
                assert(self.entries_ok(self.kernel@));
            }
        }
        out
    }
}

/// A log tag that names an existing entry and arrives on its kind's group.
pub open spec fn tag_valid(h: NfHandle, t: LogTag, group: u16) -> bool {
    match t.kind {
        LogKind::Over => group == 0 && t.index < h.data_entries@.len(),
        _ => group == 1 && t.index < h.time_entries@.len(),
    }
}

pub open spec fn prefix_of(kind: LogKind, k: int) -> Seq<u8> {
    log_prefix_spec(LogTag { kind, index: k as usize })
}

/// The state a time entry moves to on a `start_`/`fin_` notification at `now`.
pub open spec fn time_next(e: NfTimeLimit, kind: LogKind, now: u64) -> TimeState {
    match e.state {
        TimeState::Idle => if kind == LogKind::Start {
            if sat_add(now, e.timer.remaining_secs) <= now {
                TimeState::Expired
            } else {
                TimeState::Running
            }
        } else {
            TimeState::Idle
        },
        TimeState::Running => if e.timer.fires_spec(now) {
            TimeState::Expired
        } else if kind == LogKind::Fin {
            TimeState::Idle
        } else {
            TimeState::Running
        },
        TimeState::Expired => TimeState::Expired,
    }
}

/// A time entry after a `start_`/`fin_` notification at `now`, timer included.
pub open spec fn time_after(e: NfTimeLimit, kind: LogKind, now: u64) -> NfTimeLimit {
    match e.state {
        TimeState::Idle => if kind == LogKind::Start {
            let t = e.timer.started_spec(now);
            if t.fires_spec(now) {
                NfTimeLimit { state: TimeState::Expired, timer: t.stopped_spec(now) }
            } else {
                NfTimeLimit { state: TimeState::Running, timer: t }
            }
        } else {
            e
        },
        TimeState::Running => if e.timer.fires_spec(now) {
            NfTimeLimit { state: TimeState::Expired, timer: e.timer.stopped_spec(now) }
        } else if kind == LogKind::Fin {
            NfTimeLimit { state: TimeState::Idle, timer: e.timer.stopped_spec(now) }
        } else {
            e
        },
        TimeState::Expired => e,
    }
}

/// The batch for time entry `i` moving from `e` to `time_after(e, kind, now)`.
pub open spec fn time_log_batch(
    installed: bool,
    i: int,
    nets: Seq<Ipv4Cidr>,
    e: NfTimeLimit,
    kind: LogKind,
    now: u64,
) -> Seq<Msg> {
    if installed && e.state != TimeState::Expired && time_after(e, kind, now).state
        == TimeState::Expired {
        time_block_batch(i, nets)
    } else {
        Seq::empty()
    }
}

/// The batch for data entry `i` in state `e` receiving its over-limit log.
pub open spec fn data_log_batch(installed: bool, i: int, nets: Seq<Ipv4Cidr>, e: NfDataLimit) -> Seq<
    Msg,
> {
    if installed && e.state == DataState::Counting {
        data_block_batch(i, nets)
    } else {
        Seq::empty()
    }
}

/// Fields that no event but shutdown changes, and the installed objects
/// following the batch.
pub open spec fn frame_post(old: NfHandle, new: NfHandle, r: Seq<Msg>) -> bool {
    &&& new.degraded@ == old.degraded@
    &&& new.installed == old.installed
    &&& new.data_nets@ == old.data_nets@
    &&& new.time_nets@ == old.time_nets@
    &&& new.kernel@ == apply(old.kernel@, r)
}

/// `new` and `r` are what the notification with tag `t` at `now` gives.
pub open spec fn on_log_post(old: NfHandle, t: LogTag, now: u64, new: NfHandle, r: Seq<Msg>) -> bool {
    let i = t.index as int;
    &&& frame_post(old, new, r)
    &&& t.kind == LogKind::Over ==> {
        &&& new.time_entries@ == old.time_entries@
        &&& new.data_entries@ == old.data_entries@.update(
            i,
            NfDataLimit { state: DataState::OverLimit, ..old.data_entries@[i] },
        )
        &&& r == data_log_batch(old.installed, i, old.data_nets@[i]@, old.data_entries@[i])
    }
    &&& t.kind != LogKind::Over ==> {
        &&& new.data_entries@ == old.data_entries@
        &&& new.time_entries@ == old.time_entries@.update(
            i,
            time_after(old.time_entries@[i], t.kind, now),
        )
        &&& r == time_log_batch(
            old.installed,
            i,
            old.time_nets@[i]@,
            old.time_entries@[i],
            t.kind,
            now,
        )
    }
}

/// The entry and event kind that `prefix` names on `group`, if any.
pub open spec fn lookup_spec(h: NfHandle, group: u16, prefix: Seq<u8>) -> Option<LogTag> {
    if exists|t: LogTag| tag_valid(h, t, group) && #[trigger] log_prefix_spec(t) == prefix {
        Some(choose|t: LogTag| tag_valid(h, t, group) && #[trigger] log_prefix_spec(t) == prefix)
    } else {
        None
    }
}

/// `new` and `r` are what the notification `prefix` on `group` at `now` gives.
pub open spec fn log_post(
    old: NfHandle,
    group: u16,
    prefix: Seq<u8>,
    now: u64,
    new: NfHandle,
    r: Seq<Msg>,
) -> bool {
    match lookup_spec(old, group, prefix) {
        Some(t) => on_log_post(old, t, now, new, r),
        None => frame_post(old, new, r) && r.len() == 0 && new.data_entries@ == old.data_entries@
            && new.time_entries@ == old.time_entries@,
    }
}

/// A time entry after a timer check at `now`.
pub open spec fn tick_after(e: NfTimeLimit, now: u64) -> NfTimeLimit {
    if e.state == TimeState::Running && e.timer.fires_spec(now) {
        NfTimeLimit { state: TimeState::Expired, timer: e.timer.stopped_spec(now) }
    } else {
        e
    }
}

/// The batches of a timer check over the first `n` time entries of `h`.
pub open spec fn tick_batch(h: NfHandle, now: u64, n: int) -> Seq<Msg>
    decreases n,
{
    if n <= 0 {
        Seq::empty()
    } else {
        let e = h.time_entries@[n - 1];
        tick_batch(h, now, n - 1) + if h.installed && e.state == TimeState::Running
            && e.timer.fires_spec(now) {
            time_block_batch(n - 1, h.time_nets@[n - 1]@)
        } else {
            Seq::empty()
        }
    }
}

/// `new` and `r` are what a timer check at `now` gives.
pub open spec fn tick_post(old: NfHandle, now: u64, new: NfHandle, r: Seq<Msg>) -> bool {
    &&& frame_post(old, new, r)
    &&& new.data_entries@ == old.data_entries@
    &&& new.time_entries@.len() == old.time_entries@.len()
    &&& forall|k: int|
        0 <= k < old.time_entries@.len() ==> #[trigger] new.time_entries@[k] == tick_after(
            old.time_entries@[k],
            now,
        )
    &&& r == tick_batch(old, now, old.time_entries@.len() as int)
}

/// `new` and `r` are what shutdown gives.
pub open spec fn deinit_post(old: NfHandle, new: NfHandle, r: Seq<Msg>) -> bool {
    &&& new.degraded@ == old.degraded@
    &&& !new.installed
    &&& new.kernel@ == Set::<Object>::empty()
    &&& new.kernel@ == apply(old.kernel@, r)
    &&& r == if old.installed {
        seq![Msg { kind: MsgType::Del, object: Object::Table }]
    } else {
        Seq::empty()
    }
    &&& new.data_entries@ == old.data_entries@
    &&& new.time_entries@ == old.time_entries@
    &&& new.data_nets@ == old.data_nets@
    &&& new.time_nets@ == old.time_nets@
}

/// The state a time entry is in after a timer check at `now`.
pub open spec fn tick_next(e: NfTimeLimit, now: u64) -> TimeState {
    if e.state == TimeState::Running && e.timer.fires_spec(now) {
        TimeState::Expired
    } else {
        e.state
    }
}

fn append_batch(out: &mut Vec<Msg>, b: &Vec<Msg>)
    ensures
        final(out)@ == old(out)@ + b@,
{
    let mut i: usize = 0;
    while i < b.len()
        invariant
            i <= b@.len(),
            out@ == old(out)@ + b@.subrange(0, i as int),
        decreases b@.len() - i,
    {
        out.push(b[i]);
        assert(b@.subrange(0, i + 1) =~= b@.subrange(0, i as int).push(b@[i as int]));
        i = i + 1;
    }
    assert(b@.subrange(0, b@.len() as int) =~= b@);
}

/// A notification of the packet-log channel, or a timer check, or shutdown,
/// at a clock reading in seconds.
pub enum EventKind {
    Log { group: u16, prefix: Vec<u8> },
    Tick,
    Shutdown,
}

pub struct Event {
    pub at: u64,
    pub kind: EventKind,
}

impl NfHandle {
    /// Deletes the table, which removes its chains, rules and quota objects.
    pub fn deinit(&mut self) -> (r: Vec<Msg>)
        requires
            old(self).wf(),
        ensures
            final(self).wf(),
            !final(self).installed,
            final(self).kernel@ == Set::<Object>::empty(),
            final(self).kernel@ == apply(old(self).kernel@, r@),
            old(self).installed ==> r@ == seq![Msg { kind: MsgType::Del, object: Object::Table }],
            !old(self).installed ==> r@.len() == 0,
            final(self).data_entries@ == old(self).data_entries@,
            final(self).time_entries@ == old(self).time_entries@,
            final(self).data_nets@ == old(self).data_nets@,
            final(self).time_nets@ == old(self).time_nets@,
            final(self).degraded@ == old(self).degraded@,
            deinit_post(*old(self), *final(self), r@),
    {
        let mut out: Vec<Msg> = Vec::new();
        if self.installed {
            let m = Msg { kind: MsgType::Del, object: Object::Table };
            out.push(m);
            proof {
                crate::netfilter::lemma_apply_push(self.kernel@, Seq::empty(), m);
                assert(out@ =~= Seq::<Msg>::empty().push(m));
            }
            self.installed = false;
            self.kernel = Ghost(Set::empty());
        }
        proof {
            assert(!old(self).installed ==> out@ =~= Seq::<Msg>::empty());
        }
        out
    }

    /// Finds the entry and event kind that a log prefix names: `dq_<i>` on
    /// group 0, `start_tq_<i>` or `fin_tq_<i>` on group 1.
    pub fn lookup(&self, group: u16, prefix: &Vec<u8>) -> (r: Option<LogTag>)
        requires
            self.wf(),
        ensures
            r matches Some(t) ==> tag_valid(*self, t, group) && log_prefix_spec(t) == prefix@,
            r is None ==> forall|t: LogTag|
                tag_valid(*self, t, group) ==> #[trigger] log_prefix_spec(t) != prefix@,
    {
        if group == 0 {
            let mut i: usize = 0;
            while i < self.data_entries.len()
                invariant
                    group == 0,
                    i <= self.data_entries@.len(),
                    forall|k: int|
                        0 <= k < i ==> #[trigger] prefix_of(LogKind::Over, k) != prefix@,
                decreases self.data_entries@.len() - i,
            {
                let t = LogTag { kind: LogKind::Over, index: i };
                if bytes_eq(&log_prefix(t), prefix) {
                    return Some(t);
                }
                i = i + 1;
            }
            proof {
                assert forall|t: LogTag| tag_valid(*self, t, group) implies #[trigger] log_prefix_spec(t)
                    != prefix@ by {
                    let k = t.index as int;
                    assert(t == LogTag { kind: LogKind::Over, index: k as usize });
                    assert(prefix_of(LogKind::Over, k) != prefix@);
                }
            }
            None
        } else if group == 1 {
            let mut i: usize = 0;
            while i < self.time_entries.len()
                invariant
                    group == 1,
                    i <= self.time_entries@.len(),
                    forall|k: int|
                        0 <= k < i ==> #[trigger] prefix_of(LogKind::Start, k) != prefix@
                            && prefix_of(LogKind::Fin, k) != prefix@,
                decreases self.time_entries@.len() - i,
            {
                let ts = LogTag { kind: LogKind::Start, index: i };
                if bytes_eq(&log_prefix(ts), prefix) {
                    return Some(ts);
                }
                let tf = LogTag { kind: LogKind::Fin, index: i };
                if bytes_eq(&log_prefix(tf), prefix) {
                    return Some(tf);
                }
                i = i + 1;
            }
            proof {
                assert forall|t: LogTag| tag_valid(*self, t, group) implies #[trigger] log_prefix_spec(t)
                    != prefix@ by {
                    let k = t.index as int;
                    if t.kind == LogKind::Start {
                        assert(t == LogTag { kind: LogKind::Start, index: k as usize });
                        assert(prefix_of(LogKind::Start, k) != prefix@);
                    } else {
                        assert(t == LogTag { kind: LogKind::Fin, index: k as usize });
                        assert(prefix_of(LogKind::Start, k) != prefix@);
                    }
                }
            }
            None
        } else {
            None
        }
    }

    /// Replaces the runtime state of time entry `j` by another that is not
    /// expired; the classifier is unaffected.
    fn set_time_entry(&mut self, j: usize, e: NfTimeLimit)
        requires
            old(self).wf(),
            j < old(self).time_entries@.len(),
            old(self).time_entries@[j as int].state != TimeState::Expired,
            e.state != TimeState::Expired,
            timer_ok(e),
        ensures
            final(self).wf(),
            final(self).kernel@ == old(self).kernel@,
            same_but_time(*final(self), *old(self), j as int, e),
    {
        let ghost h0 = *self;
        self.time_entries.set(j, e);
        proof {
            if self.installed {
                assert forall|i: int| 0 <= i < self.time_entries@.len() implies time_ok(
                    self.kernel@,
                    i,
                    self.time_nets@[i]@,
                    #[trigger] self.time_entries@[i],
                ) by {
                    assert(time_ok(h0.kernel@, i, h0.time_nets@[i]@, h0.time_entries@[i]));
                }
                assert forall|i: int| 0 <= i < self.data_entries@.len() implies data_ok(
                    self.kernel@,
                    i,
                    self.data_nets@[i]@,
                    #[trigger] self.data_entries@[i],
                ) by {
                    assert(self.data_entries@[i] == h0.data_entries@[i]);
                }
            }
        }
    }

    /// Runs the quota state machines on one notification with tag `t` at `now`.
    /// A data entry goes over its limit; a time entry starts, pauses or, when
    /// its time is used up, expires and is blocked.
    pub fn on_log(&mut self, t: LogTag, now: u64) -> (r: Vec<Msg>)
        requires
            old(self).wf(),
            t.kind == LogKind::Over ==> t.index < old(self).data_entries@.len(),
            t.kind != LogKind::Over ==> t.index < old(self).time_entries@.len(),
        ensures
            final(self).wf(),
            on_log_post(*old(self), t, now, *final(self), r@),
    {
        let ghost h0 = *self;
        let i = t.index;
        let ghost ii = i as int;
        let ghost nets = h0.time_nets@[ii]@;
        match t.kind {
            LogKind::Over => {
                let r = self.block_data(i);
                proof {
                    assert(self.data_entries@ =~= h0.data_entries@.update(
                        ii,
                        NfDataLimit { state: DataState::OverLimit, ..h0.data_entries@[ii] },
                    ));
                    if h0.data_entries@[ii].state == DataState::OverLimit || !h0.installed {
                        assert(r@ =~= Seq::<Msg>::empty());
                    }
                }
                r
            },
            _ => {
                let e = self.time_entries[i];
                let ghost after = time_after(e, t.kind, now);
                if e.state == TimeState::Idle && t.kind == LogKind::Start {
                    let mut tm = e.timer;
                    tm.start(now);
                    self.set_time_entry(i, NfTimeLimit { timer: tm, state: TimeState::Running });
                    if tm.fires(now) {
                        let r = self.block_time(i, now);
                        proof {
                            assert(self.time_entries@ =~= h0.time_entries@.update(ii, after));
                            if !h0.installed {
                                assert(r@ =~= Seq::<Msg>::empty());
                            }
                        }
                        r
                    } else {
                        let out: Vec<Msg> = Vec::new();
                        proof {
                            assert(apply(self.kernel@, out@) == self.kernel@);
                            assert(self.time_entries@ =~= h0.time_entries@.update(ii, after));
                            assert(out@ =~= Seq::<Msg>::empty());
                        }
                        out
                    }
                } else if e.state == TimeState::Running && e.timer.fires(now) {
                    let r = self.block_time(i, now);
                    proof {
                        assert(self.time_entries@ =~= h0.time_entries@.update(ii, after));
                        if !h0.installed {
                            assert(r@ =~= Seq::<Msg>::empty());
                        }
                    }
                    r
                } else if e.state == TimeState::Running && t.kind == LogKind::Fin {
                    let mut tm = e.timer;
                    tm.stop(now);
                    self.set_time_entry(i, NfTimeLimit { timer: tm, state: TimeState::Idle });
                    let out: Vec<Msg> = Vec::new();
                    proof {
                        assert(apply(self.kernel@, out@) == self.kernel@);
                        assert(self.time_entries@ =~= h0.time_entries@.update(ii, after));
                        assert(out@ =~= Seq::<Msg>::empty());
                    }
                    out
                } else {
                    let out: Vec<Msg> = Vec::new();
                    proof {
                        assert(apply(self.kernel@, out@) == self.kernel@);
                        assert(self.time_entries@ =~= h0.time_entries@.update(ii, after));
                        assert(out@ =~= Seq::<Msg>::empty());
                    }
                    out
                }
            },
        }
    }
}

impl NfHandle {
    /// Fires every running timer that has run out at `now`: those entries
    /// expire and are blocked.
    pub fn tick(&mut self, now: u64) -> (r: Vec<Msg>)
        requires
            old(self).wf(),
        ensures
            final(self).wf(),
            tick_post(*old(self), now, *final(self), r@),
    {
        let ghost h0 = *self;
        let mut out: Vec<Msg> = Vec::new();
        let mut i: usize = 0;
        while i < self.time_entries.len()
            invariant
                self.wf(),
                frame_post(h0, *self, out@),
                self.data_entries@ == h0.data_entries@,
                self.time_entries@.len() == h0.time_entries@.len(),
                i <= self.time_entries@.len(),
                out@ == tick_batch(h0, now, i as int),
                forall|k: int|
                    0 <= k < i ==> #[trigger] self.time_entries@[k] == tick_after(
                        h0.time_entries@[k],
                        now,
                    ),
                forall|k: int|
                    i <= k < self.time_entries@.len() ==> #[trigger] self.time_entries@[k]
                        == h0.time_entries@[k],
            decreases self.time_entries@.len() - i,
        {
            let e = self.time_entries[i];
            let ghost o1 = out@;
            let ghost mid = self.time_entries@;
            if e.state == TimeState::Running && e.timer.fires(now) {
                let b = self.block_time(i, now);
                append_batch(&mut out, &b);
                proof {
                    lemma_apply_concat(h0.kernel@, o1, b@);
                    if !h0.installed {
                        assert(b@ =~= Seq::<Msg>::empty());
                    }
                    assert(self.time_entries@ =~= mid.update(i as int, tick_after(e, now)));
                    assert(out@ =~= tick_batch(h0, now, i + 1));
                }
            } else {
                proof {
                    assert(o1 =~= tick_batch(h0, now, i + 1));
                }
            }
            i = i + 1;
        }
        proof {
            assert forall|k: int| 0 <= k < h0.time_entries@.len() implies #[trigger] self.time_entries@[k]
                == tick_after(h0.time_entries@[k], now) by {}
        }
        out
    }

    /// Handles one notification of the packet-log channel at `now`; a prefix
    /// that names no entry of the group is discarded.
    pub fn handle_log(&mut self, group: u16, prefix: &Vec<u8>, now: u64) -> (r: Vec<Msg>)
        requires
            old(self).wf(),
        ensures
            final(self).wf(),
            log_post(*old(self), group, prefix@, now, *final(self), r@),
    {
        match self.lookup(group, prefix) {
            Some(t) => {
                proof {
                    assert forall|t2: LogTag|
                        tag_valid(*self, t2, group) && #[trigger] log_prefix_spec(t2) == prefix@ implies t2
                        == t by {
                        crate::tags::lemma_log_prefix_injective(t2, t);
                    }
                }
                self.on_log(t, now)
            },
            None => {
                let out: Vec<Msg> = Vec::new();
                proof {
                    assert(apply(self.kernel@, out@) == self.kernel@);
                }
                out
            },
        }
    }
}

/// `new` and `r` are what one event gives: a notification is handled as by
/// `handle_log`, a tick as by `tick`, shutdown as by `deinit`.
pub open spec fn step_post(old: NfHandle, ev: Event, new: NfHandle, r: Seq<Msg>) -> bool {
    match ev.kind {
        EventKind::Log { group, prefix } => log_post(old, group, prefix@, ev.at, new, r),
        EventKind::Tick => tick_post(old, ev.at, new, r),
        EventKind::Shutdown => deinit_post(old, new, r),
    }
}

pub open spec fn same_handle(old: NfHandle, new: NfHandle) -> bool {
    &&& new.degraded@ == old.degraded@
    &&& new.installed == old.installed
    &&& new.kernel@ == old.kernel@
    &&& new.data_nets@ == old.data_nets@
    &&& new.time_nets@ == old.time_nets@
    &&& new.data_entries@ == old.data_entries@
    &&& new.time_entries@ == old.time_entries@
}

/// The batches `bs`, one per event, in order.
pub open spec fn flatten(bs: Seq<Seq<Msg>>) -> Seq<Msg>
    decreases bs.len(),
{
    if bs.len() == 0 {
        Seq::empty()
    } else {
        flatten(bs.drop_last()) + bs.last()
    }
}

/// `hs` are the handles before and after each event of `evs` and `bs` each
/// event's batch: every event does what `step_post` says, in order.
pub open spec fn run_chain(
    old: NfHandle,
    evs: Seq<Event>,
    hs: Seq<NfHandle>,
    bs: Seq<Seq<Msg>>,
    new: NfHandle,
    r: Seq<Msg>,
) -> bool {
    &&& hs.len() == evs.len() + 1
    &&& bs.len() == evs.len()
    &&& same_handle(old, hs[0])
    &&& same_handle(hs[evs.len() as int], new)
    &&& forall|k: int| 0 <= k < evs.len() ==> step_post(hs[k], evs[k], hs[k + 1], #[trigger] bs[k])
    &&& r == flatten(bs)
}

/// The owners of the rules in batch `b`, in order.
pub open spec fn rule_owners(b: Seq<Msg>) -> Seq<EntryTag>
    decreases b.len(),
{
    if b.len() == 0 {
        Seq::empty()
    } else {
        rule_owners(b.drop_last()) + match b.last().object {
            Object::Rule(r) => seq![r.owner],
            _ => Seq::empty(),
        }
    }
}

impl NfHandle {
    /// The classifier refused `batch`: every entry owning a rule in it is
    /// marked degraded. Nothing else changes.
    pub fn mark_degraded(&mut self, batch: &Vec<Msg>)
        requires
            old(self).wf(),
        ensures
            final(self).wf(),
            final(self).degraded@ == old(self).degraded@ + rule_owners(batch@),
            final(self).installed == old(self).installed,
            final(self).kernel@ == old(self).kernel@,
            final(self).data_nets@ == old(self).data_nets@,
            final(self).time_nets@ == old(self).time_nets@,
            final(self).data_entries@ == old(self).data_entries@,
            final(self).time_entries@ == old(self).time_entries@,
    {
        let ghost d0 = self.degraded@;
        let mut i: usize = 0;
        while i < batch.len()
            invariant
                self.wf(),
                i <= batch@.len(),
                self.degraded@ == d0 + rule_owners(batch@.subrange(0, i as int)),
                self.installed == old(self).installed,
                self.kernel@ == old(self).kernel@,
                self.data_nets@ == old(self).data_nets@,
                self.time_nets@ == old(self).time_nets@,
                self.data_entries@ == old(self).data_entries@,
                self.time_entries@ == old(self).time_entries@,
            decreases batch@.len() - i,
        {
            let ghost sub = batch@.subrange(0, i + 1);
            proof {
                assert(sub.drop_last() =~= batch@.subrange(0, i as int));
                assert(sub.last() == batch@[i as int]);
            }
            match batch[i].object {
                Object::Rule(r) => {
                    self.degraded.push(r.owner);
                    proof {
                        assert(self.degraded@ =~= d0 + rule_owners(sub));
                    }
                },
                _ => {
                    proof {
                        assert(self.degraded@ =~= d0 + rule_owners(sub));
                    }
                },
            }
            i = i + 1;
        }
        proof {
            assert(batch@.subrange(0, batch@.len() as int) =~= batch@);
        }
    }
}

/// The dispatcher loop over events already read, in delivery order: log
/// notifications drive the quota state machines, ticks fire timers, and
/// shutdown deletes the table. Returns the batches to commit, in order.
pub fn run(handle: &mut NfHandle, events: &Vec<Event>) -> (r: Vec<Msg>)
    requires
        old(handle).wf(),
    ensures
        final(handle).wf(),
        final(handle).kernel@ == apply(old(handle).kernel@, r@),
        final(handle).data_nets@ == old(handle).data_nets@,
        final(handle).time_nets@ == old(handle).time_nets@,
        exists|hs: Seq<NfHandle>, bs: Seq<Seq<Msg>>|
            run_chain(*old(handle), events@, hs, bs, *final(handle), r@),
{
    let ghost h0 = *handle;
    let ghost mut hs: Seq<NfHandle> = seq![*handle];
    let ghost mut bs: Seq<Seq<Msg>> = Seq::empty();
    let mut out: Vec<Msg> = Vec::new();
    let mut i: usize = 0;
    proof {
        assert(out@ =~= flatten(bs));
    }
    while i < events.len()
        invariant
            handle.wf(),
            handle.kernel@ == apply(h0.kernel@, out@),
            handle.data_nets@ == h0.data_nets@,
            handle.time_nets@ == h0.time_nets@,
            i <= events@.len(),
            hs.len() == i + 1,
            bs.len() == i,
            same_handle(h0, hs[0]),
            hs[i as int] == *handle,
            forall|k: int| 0 <= k < i ==> step_post(hs[k], events@[k], hs[k + 1], #[trigger] bs[k]),
            out@ == flatten(bs),
        decreases events@.len() - i,
    {
        let ev = &events[i];
        let ghost o1 = out@;
        let ghost mid = *handle;
        let b = match &ev.kind {
            EventKind::Log { group, prefix } => handle.handle_log(*group, prefix, ev.at),
            EventKind::Tick => handle.tick(ev.at),
            EventKind::Shutdown => handle.deinit(),
        };
        append_batch(&mut out, &b);
        proof {
            lemma_apply_concat(h0.kernel@, o1, b@);
            assert(step_post(mid, events@[i as int], *handle, b@));
            let bs2 = bs.push(b@);
            assert(bs2.drop_last() =~= bs);
            assert(out@ == flatten(bs2));
            hs = hs.push(*handle);
            bs = bs2;
        }
        i = i + 1;
    }
    proof {
        assert(run_chain(h0, events@, hs, bs, *handle, out@));
    }
    out
}

} // verus!
