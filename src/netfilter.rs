//! The classifier model: table, chains, quota objects and rules as plain
//! values; batches of add/delete messages; and what applying a batch does to
//! the set of installed objects.
use vstd::prelude::*;
use crate::model::Ipv4Cidr;

verus! {

pub const TABLE_NAME: &'static str = "netcontrol";

pub const DATA_IN_CHAIN_NAME: &'static str = "data_qt-in";

pub const DATA_OUT_CHAIN_NAME: &'static str = "data_qt-out";

pub const TIME_IN_CHAIN_NAME: &'static str = "time_qt-in";

pub const TIME_OUT_CHAIN_NAME: &'static str = "time_qt-out";

/// Log group of data-quota notifications.
pub const DATA_QUOTA_NUM: u16 = 0;

/// Log group of time-quota notifications.
pub const TIME_QUOTA_NUM: u16 = 1;

#[derive(Clone, Copy, Debug, PartialEq, Eq, Structural)]
pub enum ChainId {
    DataIn,
    DataOut,
    TimeIn,
    TimeOut,
}

#[derive(Clone, Copy, Debug, PartialEq, Eq, Structural)]
pub enum Hook {
    In,
    Out,
}

impl ChainId {
    pub open spec fn hook_spec(self) -> Hook {
        match self {
            ChainId::DataIn | ChainId::TimeIn => Hook::In,
            ChainId::DataOut | ChainId::TimeOut => Hook::Out,
        }
    }

    /// The pipeline hook of the chain.
    pub fn hook(&self) -> (r: Hook)
        ensures
            r == self.hook_spec(),
    {
        match self {
            ChainId::DataIn | ChainId::TimeIn => Hook::In,
            ChainId::DataOut | ChainId::TimeOut => Hook::Out,
        }
    }

    /// The chain's name in the `netcontrol` table.
    pub fn name(&self) -> (r: &'static str)
        ensures
            r@ == match self {
                ChainId::DataIn => DATA_IN_CHAIN_NAME@,
                ChainId::DataOut => DATA_OUT_CHAIN_NAME@,
                ChainId::TimeIn => TIME_IN_CHAIN_NAME@,
                ChainId::TimeOut => TIME_OUT_CHAIN_NAME@,
            },
    {
        match self {
            ChainId::DataIn => DATA_IN_CHAIN_NAME,
            ChainId::DataOut => DATA_OUT_CHAIN_NAME,
            ChainId::TimeIn => TIME_IN_CHAIN_NAME,
            ChainId::TimeOut => TIME_OUT_CHAIN_NAME,
        }
    }
}

#[derive(Clone, Copy, Debug, PartialEq, Eq, Structural)]
pub enum EntryKind {
    Data,
    Time,
}

/// The name of a policy entry: `dq_<index>` or `tq_<index>`.
#[derive(Clone, Copy, Debug, PartialEq, Eq, Structural)]
pub struct EntryTag {
    pub kind: EntryKind,
    pub index: usize,
}

#[derive(Clone, Copy, Debug, PartialEq, Eq, Structural)]
pub enum LogKind {
    /// `dq_<i>`: a data entry went over its quota.
    Over,
    /// `start_tq_<i>`: a connection to a time entry's destination began.
    Start,
    /// `fin_tq_<i>`: a connection to a time entry's destination ended.
    Fin,
}

/// The prefix that a log rule attaches to its notifications.
#[derive(Clone, Copy, Debug, PartialEq, Eq, Structural)]
pub struct LogTag {
    pub kind: LogKind,
    pub index: usize,
}

#[derive(Clone, Copy, Debug, PartialEq, Eq, Structural)]
pub enum AddrField {
    Saddr,
    Daddr,
}

#[derive(Clone, Copy, Debug, PartialEq, Eq, Structural)]
pub enum TcpMatch {
    /// `(flags & (SYN|ACK)) == SYN|ACK`
    SynAck,
    /// `(flags & (FIN|RST)) != 0`
    FinOrRst,
}

#[derive(Clone, Copy, Debug, PartialEq, Eq, Structural)]
pub enum Verdict {
    Log(LogTag),
    Drop,
    Reject,
}

/// One classifier rule and the entry that owns it.
#[derive(Clone, Copy, Debug, PartialEq, Eq, Structural)]
pub struct Rule {
    pub owner: EntryTag,
    pub chain: ChainId,
    /// Matches TCP only.
    pub tcp: bool,
    pub field: AddrField,
    pub net: Ipv4Cidr,
    pub flags: Option<TcpMatch>,
    /// Matches only once the owner's quota object is over its limit.
    pub over_quota: bool,
    pub verdict: Verdict,
}

/// A byte counter named after its entry; `over` matches once consumed >= limit.
#[derive(Clone, Copy, Debug, PartialEq, Eq, Structural)]
pub struct QuotaObj {
    pub owner: EntryTag,
    pub over: bool,
    pub limit: u64,
}

#[derive(Clone, Copy, Debug, PartialEq, Eq, Structural)]
pub enum Object {
    Table,
    Chain(ChainId),
    Quota(QuotaObj),
    Rule(Rule),
}

#[derive(Clone, Copy, Debug, PartialEq, Eq, Structural)]
pub enum MsgType {
    Add,
    Del,
}

#[derive(Clone, Copy, Debug, PartialEq, Eq, Structural)]
pub struct Msg {
    pub kind: MsgType,
    pub object: Object,
}

/// The parts of a rule set, per network.
#[derive(Clone, Copy, Debug, PartialEq, Eq, Structural)]
pub enum Role {
    DataBlock,
    DataLog,
    Start,
    InFin,
    OutFin,
    BlockIn,
    BlockOut,
}

pub open spec fn role_rule(owner: EntryTag, role: Role, net: Ipv4Cidr) -> Rule {
    match role {
        Role::DataBlock => Rule {
            owner,
            chain: ChainId::DataIn,
            tcp: false,
            field: AddrField::Saddr,
            net,
            flags: None,
            over_quota: true,
            verdict: Verdict::Drop,
        },
        Role::DataLog => Rule {
            owner,
            chain: ChainId::DataIn,
            tcp: false,
            field: AddrField::Saddr,
            net,
            flags: None,
            over_quota: true,
            verdict: Verdict::Log(LogTag { kind: LogKind::Over, index: owner.index }),
        },
        Role::Start => Rule {
            owner,
            chain: ChainId::TimeIn,
            tcp: true,
            field: AddrField::Saddr,
            net,
            flags: Some(TcpMatch::SynAck),
            over_quota: false,
            verdict: Verdict::Log(LogTag { kind: LogKind::Start, index: owner.index }),
        },
        Role::InFin => Rule {
            owner,
            chain: ChainId::TimeIn,
            tcp: true,
            field: AddrField::Saddr,
            net,
            flags: Some(TcpMatch::FinOrRst),
            over_quota: false,
            verdict: Verdict::Log(LogTag { kind: LogKind::Fin, index: owner.index }),
        },
        Role::OutFin => Rule {
            owner,
            chain: ChainId::TimeOut,
            tcp: true,
            field: AddrField::Daddr,
            net,
            flags: Some(TcpMatch::FinOrRst),
            over_quota: false,
            verdict: Verdict::Log(LogTag { kind: LogKind::Fin, index: owner.index }),
        },
        Role::BlockIn => Rule {
            owner,
            chain: ChainId::TimeIn,
            tcp: true,
            field: AddrField::Saddr,
            net,
            flags: None,
            over_quota: false,
            verdict: Verdict::Reject,
        },
        Role::BlockOut => Rule {
            owner,
            chain: ChainId::TimeOut,
            tcp: true,
            field: AddrField::Daddr,
            net,
            flags: None,
            over_quota: false,
            verdict: Verdict::Reject,
        },
    }
}

/// Builds the rule of `role` for `net`, owned by `owner`.
pub fn make_rule(owner: EntryTag, role: Role, net: Ipv4Cidr) -> (r: Rule)
    ensures
        r == role_rule(owner, role, net),
{
    let (chain, tcp, field, flags, over_quota, verdict) = match role {
        Role::DataBlock => (ChainId::DataIn, false, AddrField::Saddr, None, true, Verdict::Drop),
        Role::DataLog => (
            ChainId::DataIn,
            false,
            AddrField::Saddr,
            None,
            true,
            Verdict::Log(LogTag { kind: LogKind::Over, index: owner.index }),
        ),
        Role::Start => (
            ChainId::TimeIn,
            true,
            AddrField::Saddr,
            Some(TcpMatch::SynAck),
            false,
            Verdict::Log(LogTag { kind: LogKind::Start, index: owner.index }),
        ),
        Role::InFin => (
            ChainId::TimeIn,
            true,
            AddrField::Saddr,
            Some(TcpMatch::FinOrRst),
            false,
            Verdict::Log(LogTag { kind: LogKind::Fin, index: owner.index }),
        ),
        Role::OutFin => (
            ChainId::TimeOut,
            true,
            AddrField::Daddr,
            Some(TcpMatch::FinOrRst),
            false,
            Verdict::Log(LogTag { kind: LogKind::Fin, index: owner.index }),
        ),
        Role::BlockIn => (ChainId::TimeIn, true, AddrField::Saddr, None, false, Verdict::Reject),
        Role::BlockOut => (ChainId::TimeOut, true, AddrField::Daddr, None, false, Verdict::Reject),
    };
    Rule { owner, chain, tcp, field, net, flags, over_quota, verdict }
}

/// Two rules built from parts are equal only when their owners and roles are.
pub proof fn lemma_role_rule_injective(o1: EntryTag, r1: Role, n1: Ipv4Cidr, o2: EntryTag, r2: Role, n2: Ipv4Cidr)
    requires
        role_rule(o1, r1, n1) == role_rule(o2, r2, n2),
    ensures
        o1 == o2,
        r1 == r2,
        n1 == n2,
{
}

/// One message per network, for the rule of `role`, in network order.
pub open spec fn role_batch(kind: MsgType, owner: EntryTag, role: Role, nets: Seq<Ipv4Cidr>) -> Seq<Msg>
    decreases nets.len(),
{
    if nets.len() == 0 {
        Seq::empty()
    } else {
        role_batch(kind, owner, role, nets.drop_last()).push(
            Msg { kind, object: Object::Rule(role_rule(owner, role, nets.last())) },
        )
    }
}

/// The rules of `role` for every network in `nets`.
pub open spec fn role_set(owner: EntryTag, role: Role, nets: Seq<Ipv4Cidr>) -> Set<Object>
    decreases nets.len(),
{
    if nets.len() == 0 {
        Set::empty()
    } else {
        role_set(owner, role, nets.drop_last()).insert(
            Object::Rule(role_rule(owner, role, nets.last())),
        )
    }
}

/// What one message does to the installed objects; deleting the table
/// removes everything in it.
pub open spec fn apply_one(s: Set<Object>, m: Msg) -> Set<Object> {
    match m.kind {
        MsgType::Add => s.insert(m.object),
        MsgType::Del => if m.object == Object::Table {
            Set::empty()
        } else {
            s.remove(m.object)
        },
    }
}

/// What a batch does to the installed objects, message by message.
pub open spec fn apply(s: Set<Object>, b: Seq<Msg>) -> Set<Object>
    decreases b.len(),
{
    if b.len() == 0 {
        s
    } else {
        apply_one(apply(s, b.drop_last()), b.last())
    }
}

pub proof fn lemma_apply_push(s: Set<Object>, b: Seq<Msg>, m: Msg)
    ensures
        apply(s, b.push(m)) == apply_one(apply(s, b), m),
{
    assert(b.push(m).drop_last() =~= b);
}

pub proof fn lemma_apply_concat(s: Set<Object>, a: Seq<Msg>, b: Seq<Msg>)
    ensures
        apply(s, a + b) == apply(apply(s, a), b),
    decreases b.len(),
{
    if b.len() == 0 {
        assert(a + b =~= a);
    } else {
        assert((a + b).drop_last() =~= a + b.drop_last());
        lemma_apply_concat(s, a, b.drop_last());
    }
}

/// Membership in a role set.
pub proof fn lemma_role_set_member(owner: EntryTag, role: Role, nets: Seq<Ipv4Cidr>, o: Object)
    ensures
        role_set(owner, role, nets).contains(o) <==> exists|k: int|
            0 <= k < nets.len() && o == Object::Rule(role_rule(owner, role, #[trigger] nets[k])),
    decreases nets.len(),
{
    if nets.len() > 0 {
        let p = nets.drop_last();
        lemma_role_set_member(owner, role, p, o);
        if role_set(owner, role, nets).contains(o) {
            if o == Object::Rule(role_rule(owner, role, nets.last())) {
                assert(nets[nets.len() - 1] == nets.last());
            } else {
                let k = choose|k: int|
                    0 <= k < p.len() && o == Object::Rule(role_rule(owner, role, #[trigger] p[k]));
                assert(nets[k] == p[k]);
            }
        }
        if exists|k: int|
            0 <= k < nets.len() && o == Object::Rule(role_rule(owner, role, #[trigger] nets[k])) {
            let k = choose|k: int|
                0 <= k < nets.len() && o == Object::Rule(role_rule(owner, role, #[trigger] nets[k]));
            if k < nets.len() - 1 {
                assert(p[k] == nets[k]);
            }
        }
    }
}

/// Every object of a role set is that role's rule, owned by `owner`.
pub proof fn lemma_role_set_owned(owner: EntryTag, role: Role, nets: Seq<Ipv4Cidr>)
    ensures
        forall|o: Object| #[trigger]
            role_set(owner, role, nets).contains(o) ==> (o matches Object::Rule(r) && r.owner
                == owner && exists|n: Ipv4Cidr| r == role_rule(owner, role, n)),
{
    assert forall|o: Object| #[trigger] role_set(owner, role, nets).contains(o) implies (o matches Object::Rule(r)
        && r.owner == owner && exists|n: Ipv4Cidr| r == role_rule(owner, role, n)) by {
        lemma_role_set_member(owner, role, nets, o);
    }
}

/// Role sets of different owners, or of different roles, share nothing.
pub proof fn lemma_role_sets_disjoint(
    o1: EntryTag,
    r1: Role,
    n1: Seq<Ipv4Cidr>,
    o2: EntryTag,
    r2: Role,
    n2: Seq<Ipv4Cidr>,
)
    requires
        o1 != o2 || r1 != r2,
    ensures
        role_set(o1, r1, n1).disjoint(role_set(o2, r2, n2)),
{
    lemma_role_set_owned(o1, r1, n1);
    lemma_role_set_owned(o2, r2, n2);
    assert forall|o: Object| role_set(o1, r1, n1).contains(o) implies !role_set(o2, r2, n2).contains(
        o,
    ) by {
        if role_set(o2, r2, n2).contains(o) {
            let r = o->Rule_0;
            let a = choose|n: Ipv4Cidr| r == role_rule(o1, r1, n);
            let b = choose|n: Ipv4Cidr| r == role_rule(o2, r2, n);
            lemma_role_rule_injective(o1, r1, a, o2, r2, b);
        }
    }
}

/// Adding a role batch adds its role set.
pub proof fn lemma_role_batch_add(s: Set<Object>, owner: EntryTag, role: Role, nets: Seq<Ipv4Cidr>)
    ensures
        apply(s, role_batch(MsgType::Add, owner, role, nets)) == s.union(role_set(owner, role, nets)),
    decreases nets.len(),
{
    if nets.len() == 0 {
        assert(s.union(Set::empty()) =~= s);
    } else {
        let p = nets.drop_last();
        let m = Msg { kind: MsgType::Add, object: Object::Rule(role_rule(owner, role, nets.last())) };
        lemma_role_batch_add(s, owner, role, p);
        lemma_apply_push(s, role_batch(MsgType::Add, owner, role, p), m);
        assert(s.union(role_set(owner, role, p)).insert(m.object) =~= s.union(
            role_set(owner, role, nets),
        ));
    }
}

/// Deleting a role batch removes its role set.
pub proof fn lemma_role_batch_del(s: Set<Object>, owner: EntryTag, role: Role, nets: Seq<Ipv4Cidr>)
    ensures
        apply(s, role_batch(MsgType::Del, owner, role, nets)) == s.difference(
            role_set(owner, role, nets),
        ),
    decreases nets.len(),
{
    if nets.len() == 0 {
        assert(s.difference(Set::empty()) =~= s);
    } else {
        let p = nets.drop_last();
        let m = Msg { kind: MsgType::Del, object: Object::Rule(role_rule(owner, role, nets.last())) };
        lemma_role_batch_del(s, owner, role, p);
        lemma_apply_push(s, role_batch(MsgType::Del, owner, role, p), m);
        assert(s.difference(role_set(owner, role, p)).remove(m.object) =~= s.difference(
            role_set(owner, role, nets),
        ));
    }
}

/// Appends to `out` one message of `kind` per network, for the rule of `role`.
pub fn push_role_batch(
    out: &mut Vec<Msg>,
    kind: MsgType,
    owner: EntryTag,
    role: Role,
    nets: &Vec<Ipv4Cidr>,
)
    ensures
        final(out)@ == old(out)@ + role_batch(kind, owner, role, nets@),
{
    let ghost start = old(out)@;
    let mut k: usize = 0;
    while k < nets.len()
        invariant
            k <= nets@.len(),
            out@ == start + role_batch(kind, owner, role, nets@.subrange(0, k as int)),
        decreases nets@.len() - k,
    {
        let rule = make_rule(owner, role, nets[k]);
        out.push(Msg { kind, object: Object::Rule(rule) });
        let ghost sub = nets@.subrange(0, k + 1);
        assert(sub.drop_last() =~= nets@.subrange(0, k as int));
        assert(sub.last() == nets@[k as int]);
        k = k + 1;
    }
    assert(nets@.subrange(0, nets@.len() as int) =~= nets@);
}

} // verus!
