//! The textual names of entries and log prefixes: `dq_<i>`, `tq_<i>`,
//! `start_tq_<i>`, `fin_tq_<i>`, as ASCII bytes.
use vstd::prelude::*;
use crate::netfilter::{EntryKind, EntryTag, LogKind, LogTag};

verus! {

/// Decimal digits of `n`, most significant first, no leading zeros.
pub open spec fn dec(n: nat) -> Seq<u8>
    decreases n,
{
    if n < 10 {
        seq![(48 + n) as u8]
    } else {
        dec(n / 10).push((48 + n % 10) as u8)
    }
}

/// `dq_` (data) or `tq_` (time).
pub open spec fn kind_head(k: EntryKind) -> Seq<u8> {
    match k {
        EntryKind::Data => seq![100u8, 113u8, 95u8],
        EntryKind::Time => seq![116u8, 113u8, 95u8],
    }
}

pub open spec fn entry_name_spec(t: EntryTag) -> Seq<u8> {
    kind_head(t.kind) + dec(t.index as nat)
}

/// `dq_<i>`, `start_tq_<i>` or `fin_tq_<i>`.
pub open spec fn log_prefix_spec(t: LogTag) -> Seq<u8> {
    match t.kind {
        LogKind::Over => entry_name_spec(EntryTag { kind: EntryKind::Data, index: t.index }),
        LogKind::Start => seq![115u8, 116u8, 97u8, 114u8, 116u8, 95u8] + entry_name_spec(
            EntryTag { kind: EntryKind::Time, index: t.index },
        ),
        LogKind::Fin => seq![102u8, 105u8, 110u8, 95u8] + entry_name_spec(
            EntryTag { kind: EntryKind::Time, index: t.index },
        ),
    }
}

proof fn lemma_dec_len(n: nat)
    ensures
        dec(n).len() >= 1,
        n >= 10 <==> dec(n).len() >= 2,
    decreases n,
{
    if n >= 10 {
        lemma_dec_len(n / 10);
    }
}

/// Distinct numbers have distinct decimal forms.
pub proof fn lemma_dec_injective(a: nat, b: nat)
    requires
        dec(a) == dec(b),
    ensures
        a == b,
    decreases a,
{
    lemma_dec_len(a);
    lemma_dec_len(b);
    if a < 10 && b < 10 {
        assert(dec(a) == seq![(48 + a) as u8]);
        assert(dec(b) == seq![(48 + b) as u8]);
        assert(seq![(48 + a) as u8][0] == (48 + a) as u8);
        assert(seq![(48 + b) as u8][0] == (48 + b) as u8);
        assert((48 + a) as u8 == (48 + b) as u8);
        assert(((48 + a) as u8) as int == 48 + a);
        assert(((48 + b) as u8) as int == 48 + b);
        assert(a == b);
    } else if a >= 10 && b >= 10 {
        assert(dec(a).drop_last() =~= dec(a / 10));
        assert(dec(b).drop_last() =~= dec(b / 10));
        assert(dec(a) == dec(a / 10).push((48 + a % 10) as u8));
        assert(dec(b) == dec(b / 10).push((48 + b % 10) as u8));
        assert(dec(a).last() == (48 + a % 10) as u8);
        assert(dec(b).last() == (48 + b % 10) as u8);
        assert(0 <= a % 10 < 10 && 0 <= b % 10 < 10);
        assert(((48 + a % 10) as u8) as int == 48 + a % 10);
        assert(((48 + b % 10) as u8) as int == 48 + b % 10);
        assert(a % 10 == b % 10);
        lemma_dec_injective(a / 10, b / 10);
        assert(a == (a / 10) * 10 + a % 10) by (nonlinear_arith);
        assert(b == (b / 10) * 10 + b % 10) by (nonlinear_arith);
        assert(a == b);
    } else {
        assert(dec(a).len() != dec(b).len());
    }
}

proof fn lemma_strip_head(h: Seq<u8>, x: Seq<u8>, y: Seq<u8>)
    requires
        h + x == h + y,
    ensures
        x == y,
{
    assert((h + x).subrange(h.len() as int, (h + x).len() as int) =~= x);
    assert((h + y).subrange(h.len() as int, (h + y).len() as int) =~= y);
}

proof fn lemma_first_byte(t: LogTag)
    ensures
        log_prefix_spec(t).len() > 0,
        log_prefix_spec(t)[0] == match t.kind {
            LogKind::Over => 100u8,
            LogKind::Start => 115u8,
            LogKind::Fin => 102u8,
        },
{
    let d = dec(t.index as nat);
    let th = seq![116u8, 113u8, 95u8];
    match t.kind {
        LogKind::Over => {
            assert((seq![100u8, 113u8, 95u8] + d)[0] == 100u8);
        },
        LogKind::Start => {
            assert((seq![115u8, 116u8, 97u8, 114u8, 116u8, 95u8] + (th + d))[0] == 115u8);
        },
        LogKind::Fin => {
            assert((seq![102u8, 105u8, 110u8, 95u8] + (th + d))[0] == 102u8);
        },
    }
}

/// Different tags have different log prefixes.
pub proof fn lemma_log_prefix_injective(t1: LogTag, t2: LogTag)
    requires
        log_prefix_spec(t1) == log_prefix_spec(t2),
    ensures
        t1 == t2,
{
    let p1 = log_prefix_spec(t1);
    let d1 = dec(t1.index as nat);
    let d2 = dec(t2.index as nat);
    let dh = seq![100u8, 113u8, 95u8];
    let th = seq![116u8, 113u8, 95u8];
    let sh = seq![115u8, 116u8, 97u8, 114u8, 116u8, 95u8];
    let fh = seq![102u8, 105u8, 110u8, 95u8];
    lemma_first_byte(t1);
    lemma_first_byte(t2);
    match t1.kind {
        LogKind::Over => {
            lemma_strip_head(dh, d1, d2);
        },
        LogKind::Start => {
            assert(sh + (th + d1) =~= (sh + th) + d1);
            assert(sh + (th + d2) =~= (sh + th) + d2);
            lemma_strip_head(sh + th, d1, d2);
        },
        LogKind::Fin => {
            assert(fh + (th + d1) =~= (fh + th) + d1);
            assert(fh + (th + d2) =~= (fh + th) + d2);
            lemma_strip_head(fh + th, d1, d2);
        },
    }
    lemma_dec_injective(t1.index as nat, t2.index as nat);
}

fn push_decimal(out: &mut Vec<u8>, n: usize)
    ensures
        final(out)@ == old(out)@ + dec(n as nat),
    decreases n,
{
    if n < 10 {
        out.push((48 + n) as u8);
        assert(old(out)@.push((48 + n) as u8) =~= old(out)@ + dec(n as nat));
    } else {
        push_decimal(out, n / 10);
        out.push((48 + n % 10) as u8);
        assert(old(out)@ + dec((n / 10) as nat) + seq![(48 + n % 10) as u8] =~= old(out)@ + dec(
            n as nat,
        ));
    }
}

fn push_bytes(out: &mut Vec<u8>, b: &[u8])
    ensures
        final(out)@ == old(out)@ + b@,
{
    let mut i: usize = 0;
    while i < b.len()
        invariant
            i <= b@.len(),
            out@ == old(out)@ + b@.subrange(0, i as int),
        decreases b@.len() - i,
    {
        out.push(b[i]);
        assert(b@.subrange(0, i + 1) =~= b@.subrange(0, i as int).push(b@[i as int]));
        i = i + 1;
    }
    assert(b@.subrange(0, b@.len() as int) =~= b@);
}

/// The name of an entry, which also names its quota object.
pub fn entry_name(t: EntryTag) -> (r: Vec<u8>)
    ensures
        r@ == entry_name_spec(t),
{
    let mut out: Vec<u8> = Vec::new();
    match t.kind {
        EntryKind::Data => push_bytes(&mut out, &[100u8, 113u8, 95u8]),
        EntryKind::Time => push_bytes(&mut out, &[116u8, 113u8, 95u8]),
    }
    proof {
        assert(out@ =~= kind_head(t.kind));
    }
    push_decimal(&mut out, t.index);
    out
}

/// The prefix that log rules with this tag attach to their notifications.
pub fn log_prefix(t: LogTag) -> (r: Vec<u8>)
    ensures
        r@ == log_prefix_spec(t),
{
    let mut out: Vec<u8> = Vec::new();
    match t.kind {
        LogKind::Over => {
            let name = entry_name(EntryTag { kind: EntryKind::Data, index: t.index });
            push_bytes(&mut out, name.as_slice());
            assert(out@ =~= log_prefix_spec(t));
        },
        LogKind::Start => {
            push_bytes(&mut out, &[115u8, 116u8, 97u8, 114u8, 116u8, 95u8]);
            let name = entry_name(EntryTag { kind: EntryKind::Time, index: t.index });
            let ghost head = out@;
            push_bytes(&mut out, name.as_slice());
            assert(head =~= seq![115u8, 116u8, 97u8, 114u8, 116u8, 95u8]);
        },
        LogKind::Fin => {
            push_bytes(&mut out, &[102u8, 105u8, 110u8, 95u8]);
            let name = entry_name(EntryTag { kind: EntryKind::Time, index: t.index });
            let ghost head = out@;
            push_bytes(&mut out, name.as_slice());
            assert(head =~= seq![102u8, 105u8, 110u8, 95u8]);
        },
    }
    out
}

/// Byte-wise equality.
pub fn bytes_eq(a: &Vec<u8>, b: &Vec<u8>) -> (r: bool)
    ensures
        r == (a@ == b@),
{
    if a.len() != b.len() {
        return false;
    }
    let mut i: usize = 0;
    while i < a.len()
        invariant
            i <= a@.len() == b@.len(),
            forall|k: int| 0 <= k < i ==> a@[k] == b@[k],
        decreases a@.len() - i,
    {
        if a[i] != b[i] {
            return false;
        }
        i = i + 1;
    }
    assert(a@ =~= b@);
    true
}

} // verus!
