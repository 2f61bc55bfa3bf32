//! The policy parser: one entry per line, `<host> <quota>`.
use vstd::prelude::*;
use crate::model::{Accounting, Address, Config, Ipv4Cidr, ParseAccntError, ParseConfigError};
use crate::outside::{
    byte_count, cidr_value, duration_secs, parse_byte_count, parse_duration_secs,
    parse_ipv4_network, pattern_matches, regex_is_match,
};
use crate::text::{split_tokens, tokens};

verus! {

/// Dotted quad, each octet in 0..=255, with an optional `/` prefix length.
pub const CIDR_PATTERN: &'static str = "^((25[0-5]|2[0-4][0-9]|[01]?[0-9][0-9]?)\\.){3}(25[0-5]|2[0-4][0-9]|[01]?[0-9][0-9]?)([\\/][0-3][0-2]?|[\\/][1-2][0-9]|[\\/][0-9])?$";

/// LDH labels separated by dots, optionally internationalised (`xn--`).
pub const DOMAIN_PATTERN: &'static str = "^(((?!-))(xn--|_{1,1})?[a-z0-9-]{0,61}[a-z0-9]{1,1}\\.)*(xn--)?([a-z0-9][a-z0-9\\-]{0,60}|[a-z0-9-]{1,30}\\.[a-z]{2,})$";

/// A size literal: SI (`kb`, `mb`, `gb`) or IEC (`kib`, `mib`, `gib`) units.
pub const DATA_QUOTA_PATTERN: &'static str = "^[0-9]+(kb|mb|gb|kib|mib|gib)$";

/// A duration literal in seconds, minutes or hours.
pub const TIME_QUOTA_PATTERN: &'static str = "^[0-9]+(s|m|h)$";

/// The host of an entry before name resolution.
#[derive(Clone, Debug)]
pub enum Host {
    Cidr(Ipv4Cidr),
    Domain(String),
}

#[derive(Clone, Copy, Debug, PartialEq, Eq, Structural)]
pub enum QuotaKind {
    Data,
    Time,
}

/// One policy line, parsed: its host and its limit (bytes or seconds).
#[derive(Clone, Debug)]
pub struct RawEntry {
    pub host: Host,
    pub kind: QuotaKind,
    pub quota: u64,
}

/// A parsed entry with the 1-based line it came from.
#[derive(Clone, Debug)]
pub struct LineEntry {
    pub line: u32,
    pub entry: RawEntry,
}

/// What the pattern matcher and the literal readers said of the two tokens.
/// A literal is read only where its pattern matched.
#[derive(Clone, Copy, Debug)]
pub struct TokenFacts {
    pub host_is_cidr: bool,
    pub cidr: Option<(u32, u8)>,
    pub host_is_domain: bool,
    pub quota_is_time: bool,
    pub secs: Option<u64>,
    pub quota_is_data: bool,
    pub bytes: Option<u128>,
}

impl TokenFacts {
    pub open spec fn wf(self) -> bool {
        self.cidr matches Some(p) ==> p.1 <= 32
    }
}

pub open spec fn facts_of(h: Seq<char>, q: Seq<char>) -> TokenFacts {
    let host_is_cidr = pattern_matches(CIDR_PATTERN@, h);
    let quota_is_time = pattern_matches(TIME_QUOTA_PATTERN@, q);
    let quota_is_data = pattern_matches(DATA_QUOTA_PATTERN@, q);
    TokenFacts {
        host_is_cidr,
        cidr: if host_is_cidr {
            cidr_value(h)
        } else {
            None
        },
        host_is_domain: pattern_matches(DOMAIN_PATTERN@, h),
        quota_is_time,
        secs: if quota_is_time {
            duration_secs(q)
        } else {
            None
        },
        quota_is_data,
        bytes: if quota_is_data {
            byte_count(q)
        } else {
            None
        },
    }
}

/// The error that the host token gives, if any.
pub open spec fn host_error(f: TokenFacts) -> Option<ParseAccntError> {
    if f.host_is_cidr {
        if f.cidr is None {
            Some(ParseAccntError::BadCidr)
        } else {
            None
        }
    } else if f.host_is_domain {
        None
    } else {
        Some(ParseAccntError::InvalidHostFormat)
    }
}

/// The quota token read as (kind, limit), or its error. A token that ends in
/// `b` but is no valid size literal is a bad data quota.
pub open spec fn quota_spec(q: Seq<char>, f: TokenFacts) -> Result<
    (QuotaKind, u64),
    ParseAccntError,
> {
    if f.quota_is_time {
        match f.secs {
            Some(s) => Ok((QuotaKind::Time, s)),
            None => Err(ParseAccntError::BadTimeQuota),
        }
    } else if f.quota_is_data {
        match f.bytes {
            Some(n) => if n <= u64::MAX {
                Ok((QuotaKind::Data, n as u64))
            } else {
                Err(ParseAccntError::BadDataQuota)
            },
            None => Err(ParseAccntError::BadDataQuota),
        }
    } else if q.len() > 0 && q.last() == 'b' {
        Err(ParseAccntError::BadDataQuota)
    } else {
        Err(ParseAccntError::InvalidQuotaFormat)
    }
}

pub open spec fn host_spec(h: Seq<char>, f: TokenFacts, host: Host) -> bool {
    match host {
        Host::Cidr(c) => f.host_is_cidr && f.cidr == Some((c.addr, c.prefix)),
        Host::Domain(d) => !f.host_is_cidr && f.host_is_domain && d@ == h,
    }
}

/// The error of an entry with tokens `h`, `q`, if any.
pub open spec fn entry_error(h: Seq<char>, q: Seq<char>, f: TokenFacts) -> Option<
    ParseAccntError,
> {
    match host_error(f) {
        Some(e) => Some(e),
        None => match quota_spec(q, f) {
            Err(e) => Some(e),
            Ok(_) => None,
        },
    }
}

/// `r` is what the entry with tokens `h`, `q` parses to.
pub open spec fn entry_spec(
    h: Seq<char>,
    q: Seq<char>,
    f: TokenFacts,
    r: Result<RawEntry, ParseAccntError>,
) -> bool {
    match entry_error(h, q, f) {
        Some(e) => r == Err::<RawEntry, ParseAccntError>(e),
        None => match r {
            Ok(e) => host_spec(h, f, e.host) && quota_spec(q, f) == Ok::<
                (QuotaKind, u64),
                ParseAccntError,
            >((e.kind, e.quota)),
            Err(_) => false,
        },
    }
}

/// `r` is what line `s` parses to.
pub open spec fn line_spec(s: Seq<char>, r: Result<RawEntry, ParseAccntError>) -> bool {
    let t = tokens(s);
    if t.len() == 0 {
        r == Err::<RawEntry, ParseAccntError>(ParseAccntError::Empty)
    } else if t[0].len() > 0 && t[0][0] == '#' {
        r == Err::<RawEntry, ParseAccntError>(ParseAccntError::InnactiveEntry)
    } else if t.len() != 2 {
        r == Err::<RawEntry, ParseAccntError>(ParseAccntError::BadLen)
    } else {
        entry_spec(t[0], t[1], facts_of(t[0], t[1]), r)
    }
}

/// Blank lines and comments carry no entry.
pub open spec fn line_skipped(s: Seq<char>) -> bool {
    let t = tokens(s);
    t.len() == 0 || (t[0].len() > 0 && t[0][0] == '#')
}

/// Decides an entry from its two tokens and what was read from them.
pub fn build_entry(h: &str, q: &str, f: &TokenFacts) -> (r: Result<RawEntry, ParseAccntError>)
    requires
        f.wf(),
    ensures
        entry_spec(h@, q@, *f, r),
        r matches Ok(e) ==> (e.host matches Host::Cidr(c) ==> c.wf()),
{
    let host = if f.host_is_cidr {
        match f.cidr {
            Some(p) => Host::Cidr(Ipv4Cidr { addr: p.0, prefix: p.1 }),
            None => return Err(ParseAccntError::BadCidr),
        }
    } else if f.host_is_domain {
        Host::Domain(h.to_string())
    } else {
        return Err(ParseAccntError::InvalidHostFormat);
    };
    if f.quota_is_time {
        match f.secs {
            Some(s) => Ok(RawEntry { host, kind: QuotaKind::Time, quota: s }),
            None => Err(ParseAccntError::BadTimeQuota),
        }
    } else if f.quota_is_data {
        match f.bytes {
            Some(n) => if n <= u64::MAX as u128 {
                Ok(RawEntry { host, kind: QuotaKind::Data, quota: n as u64 })
            } else {
                Err(ParseAccntError::BadDataQuota)
            },
            None => Err(ParseAccntError::BadDataQuota),
        }
    } else {
        let n = q.unicode_len();
        if n > 0 && q.get_char(n - 1) == 'b' {
            Err(ParseAccntError::BadDataQuota)
        } else {
            Err(ParseAccntError::InvalidQuotaFormat)
        }
    }
}

/// Parses one policy line. Blank lines give `Empty`, comments `InnactiveEntry`.
pub fn parse_entry(s: &str) -> (r: Result<RawEntry, ParseAccntError>)
    ensures
        line_spec(s@, r),
        r matches Ok(e) ==> (e.host matches Host::Cidr(c) ==> c.wf()),
        r matches Ok(e) ==> (e.host matches Host::Cidr(c) ==> (!tokens(s@)[0].contains('/')
            ==> c.prefix == 32)),
{
    let t = split_tokens(s);
    if t.len() == 0 {
        return Err(ParseAccntError::Empty);
    }
    let first = t[0].as_str();
    if first.unicode_len() > 0 && first.get_char(0) == '#' {
        return Err(ParseAccntError::InnactiveEntry);
    }
    if t.len() != 2 {
        return Err(ParseAccntError::BadLen);
    }
    let h = t[0].as_str();
    let q = t[1].as_str();
    let host_is_cidr = regex_is_match(CIDR_PATTERN, h);
    let cidr = if host_is_cidr {
        parse_ipv4_network(h)
    } else {
        None
    };
    let host_is_domain = regex_is_match(DOMAIN_PATTERN, h);
    let quota_is_time = regex_is_match(TIME_QUOTA_PATTERN, q);
    let secs = if quota_is_time {
        parse_duration_secs(q)
    } else {
        None
    };
    let quota_is_data = regex_is_match(DATA_QUOTA_PATTERN, q);
    let bytes = if quota_is_data {
        parse_byte_count(q)
    } else {
        None
    };
    let facts = TokenFacts {
        host_is_cidr,
        cidr,
        host_is_domain,
        quota_is_time,
        secs,
        quota_is_data,
        bytes,
    };
    build_entry(h, q, &facts)
}

/// The error of line `s`, if it gives one (blank lines and comments included).
pub open spec fn line_error(s: Seq<char>) -> Option<ParseAccntError> {
    let t = tokens(s);
    if t.len() == 0 {
        Some(ParseAccntError::Empty)
    } else if t[0].len() > 0 && t[0][0] == '#' {
        Some(ParseAccntError::InnactiveEntry)
    } else if t.len() != 2 {
        Some(ParseAccntError::BadLen)
    } else {
        entry_error(t[0], t[1], facts_of(t[0], t[1]))
    }
}

/// Line `s` is neither blank nor a comment, and does not parse.
pub open spec fn line_fails(s: Seq<char>) -> bool {
    !line_skipped(s) && line_error(s) is Some
}

/// Indices, among the first `i` lines, of those that carry an entry.
pub open spec fn kept_upto(ls: Seq<String>, i: int) -> Seq<int>
    decreases i,
{
    if i <= 0 {
        Seq::empty()
    } else if line_skipped(ls[i - 1]@) {
        kept_upto(ls, i - 1)
    } else {
        kept_upto(ls, i - 1).push(i - 1)
    }
}

proof fn lemma_line_spec_error(s: Seq<char>, r: Result<RawEntry, ParseAccntError>)
    requires
        line_spec(s, r),
    ensures
        r matches Err(e) ==> line_error(s) == Some(e),
        r is Ok ==> line_error(s) is None,
        line_skipped(s) ==> r is Err,
{
}

/// Parses the lines of a policy. Blank lines and comments are skipped; the
/// first line that fails gives `EntryError` with its 1-based number.
pub fn parse_policy(lines: &Vec<String>) -> (r: Result<Vec<LineEntry>, ParseConfigError>)
    requires
        lines@.len() < u32::MAX,
    ensures
        r is Ok <==> forall|k: int| 0 <= k < lines@.len() ==> !line_fails(#[trigger] lines@[k]@),
        r matches Err(err) ==> err matches ParseConfigError::EntryError(e, ln) && 1 <= ln
            <= lines@.len() && line_fails(lines@[ln - 1]@) && line_error(lines@[ln - 1]@)
            == Some(e) && forall|k: int| 0 <= k < ln - 1 ==> !line_fails(#[trigger] lines@[k]@),
        r matches Ok(v) ==> v@.len() == kept_upto(lines@, lines@.len() as int).len() && forall|
            j: int,
        |
            0 <= j < v@.len() ==> {
                let k = kept_upto(lines@, lines@.len() as int)[j];
                &&& (#[trigger] v@[j]).line == k + 1
                &&& line_spec(lines@[k]@, Ok(v@[j].entry))
                &&& v@[j].entry.host matches Host::Cidr(c) ==> c.wf()
            },
{
    let mut out: Vec<LineEntry> = Vec::new();
    let mut i: usize = 0;
    while i < lines.len()
        invariant
            i <= lines@.len() < u32::MAX,
            forall|k: int| 0 <= k < i ==> !line_fails(#[trigger] lines@[k]@),
            out@.len() == kept_upto(lines@, i as int).len(),
            forall|j: int|
                0 <= j < out@.len() ==> {
                    let k = kept_upto(lines@, i as int)[j];
                    &&& (#[trigger] out@[j]).line == k + 1
                    &&& line_spec(lines@[k]@, Ok(out@[j].entry))
                    &&& out@[j].entry.host matches Host::Cidr(c) ==> c.wf()
                },
        decreases lines@.len() - i,
    {
        let res = parse_entry(lines[i].as_str());
        proof {
            lemma_line_spec_error(lines@[i as int]@, res);
        }
        match res {
            Ok(entry) => {
                out.push(LineEntry { line: (i + 1) as u32, entry });
            },
            Err(ParseAccntError::Empty) => {},
            Err(ParseAccntError::InnactiveEntry) => {},
            Err(e) => {
                return Err(ParseConfigError::EntryError(e, (i + 1) as u32));
            },
        }
        i = i + 1;
    }
    Ok(out)
}

/// The error that resolving entry `e` with lookup result `l` gives, if any:
/// a failed lookup, or a name with no IPv4 address.
pub open spec fn resolve_error(e: RawEntry, l: Option<Vec<u32>>) -> Option<ParseAccntError> {
    match e.host {
        Host::Cidr(_) => None,
        Host::Domain(_) => match l {
            None => Some(ParseAccntError::DnsFailed),
            Some(v) => if v@.len() == 0 {
                Some(ParseAccntError::InvalidHostFormat)
            } else {
                None
            },
        },
    }
}

/// `a` holds the networks of entry `e`: its CIDR, or one `/32` per address.
pub open spec fn address_spec(e: RawEntry, l: Option<Vec<u32>>, a: Address) -> bool {
    match e.host {
        Host::Cidr(c) => a.value@ == seq![c],
        Host::Domain(_) => match l {
            Some(v) => a.value@.len() == v@.len() && forall|i: int|
                0 <= i < v@.len() ==> (#[trigger] a.value@[i]) == Ipv4Cidr::host_spec(v@[i]),
            None => false,
        },
    }
}

/// Indices, among the first `i` entries, of those of kind `kind`.
pub open spec fn kind_upto(es: Seq<LineEntry>, kind: QuotaKind, i: int) -> Seq<int>
    decreases i,
{
    if i <= 0 {
        Seq::empty()
    } else if es[i - 1].entry.kind == kind {
        kind_upto(es, kind, i - 1).push(i - 1)
    } else {
        kind_upto(es, kind, i - 1)
    }
}

pub proof fn lemma_kind_upto_bounds(es: Seq<LineEntry>, kind: QuotaKind, i: int)
    requires
        0 <= i,
    ensures
        kind_upto(es, kind, i).len() <= i,
        forall|j: int|
            0 <= j < kind_upto(es, kind, i).len() ==> 0 <= #[trigger] kind_upto(es, kind, i)[j]
                < i,
        forall|j: int, k: int|
            0 <= j < k < kind_upto(es, kind, i).len() ==> kind_upto(es, kind, i)[j]
                < kind_upto(es, kind, i)[k],
    decreases i,
{
    if i > 0 {
        lemma_kind_upto_bounds(es, kind, i - 1);
    }
}

pub open spec fn entries_wf(es: Seq<LineEntry>) -> bool {
    forall|k: int|
        0 <= k < es.len() ==> ((#[trigger] es[k]).entry.host matches Host::Cidr(c) ==> c.wf())
}

/// The entries of kind `kind` in `cfg_list` are those of `es`, in order.
pub open spec fn kind_list_spec(
    es: Seq<LineEntry>,
    ls: Seq<Option<Vec<u32>>>,
    kind: QuotaKind,
    cfg_list: Seq<Accounting>,
) -> bool {
    let idx = kind_upto(es, kind, es.len() as int);
    &&& cfg_list.len() == idx.len()
    &&& forall|j: int|
        0 <= j < cfg_list.len() ==> {
            &&& (#[trigger] cfg_list[j]).quota == es[idx[j]].entry.quota
            &&& address_spec(es[idx[j]].entry, ls[idx[j]], cfg_list[j].addr)
        }
}

fn resolve_address(e: &RawEntry, l: &Option<Vec<u32>>) -> (r: Option<Address>)
    ensures
        r is None <==> resolve_error(*e, *l) is Some,
        r matches Some(a) ==> address_spec(*e, *l, a),
{
    match &e.host {
        Host::Cidr(c) => {
            let mut value: Vec<Ipv4Cidr> = Vec::new();
            value.push(*c);
            Some(Address { value })
        },
        Host::Domain(_) => match l {
            None => None,
            Some(v) => {
                if v.len() == 0 {
                    return None;
                }
                let mut value: Vec<Ipv4Cidr> = Vec::new();
                let mut i: usize = 0;
                while i < v.len()
                    invariant
                        i <= v@.len(),
                        value@.len() == i,
                        forall|k: int|
                            0 <= k < i ==> (#[trigger] value@[k]) == Ipv4Cidr::host_spec(v@[k]),
                    decreases v@.len() - i,
                {
                    value.push(Ipv4Cidr::host(v[i]));
                    i = i + 1;
                }
                Some(Address { value })
            },
        },
    }
}

impl Config {
    /// Builds the policy from parsed entries and, for each entry naming a
    /// host, the IPv4 addresses it resolved to (`None` where resolution
    /// failed). Entries keep their order within their kind.
    pub fn new_from_entries(entries: &Vec<LineEntry>, lookups: &Vec<Option<Vec<u32>>>) -> (r: Result<
        Config,
        ParseConfigError,
    >)
        requires
            entries@.len() == lookups@.len(),
        ensures
            r is Ok <==> forall|k: int|
                0 <= k < entries@.len() ==> resolve_error(
                    (#[trigger] entries@[k]).entry,
                    lookups@[k],
                ) is None,
            r matches Err(err) ==> exists|k: int, e: ParseAccntError|
                0 <= k < entries@.len() && resolve_error(entries@[k].entry, lookups@[k]) == Some(e)
                    && err == ParseConfigError::EntryError(e, entries@[k].line) && forall|k2: int|
                    0 <= k2 < k ==> resolve_error(
                        (#[trigger] entries@[k2]).entry,
                        lookups@[k2],
                    ) is None,
            r matches Ok(cfg) ==> kind_list_spec(entries@, lookups@, QuotaKind::Data, cfg.data@)
                && kind_list_spec(entries@, lookups@, QuotaKind::Time, cfg.time@),
    {
        let mut cfg = Config::new();
        let mut i: usize = 0;
        while i < entries.len()
            invariant
                i <= entries@.len() == lookups@.len(),
                forall|k: int|
                    0 <= k < i ==> resolve_error(
                        (#[trigger] entries@[k]).entry,
                        lookups@[k],
                    ) is None,
                cfg.data@.len() == kind_upto(entries@, QuotaKind::Data, i as int).len(),
                cfg.time@.len() == kind_upto(entries@, QuotaKind::Time, i as int).len(),
                forall|j: int|
                    0 <= j < cfg.data@.len() ==> {
                        let k = kind_upto(entries@, QuotaKind::Data, i as int)[j];
                        &&& (#[trigger] cfg.data@[j]).quota == entries@[k].entry.quota
                        &&& address_spec(entries@[k].entry, lookups@[k], cfg.data@[j].addr)
                    },
                forall|j: int|
                    0 <= j < cfg.time@.len() ==> {
                        let k = kind_upto(entries@, QuotaKind::Time, i as int)[j];
                        &&& (#[trigger] cfg.time@[j]).quota == entries@[k].entry.quota
                        &&& address_spec(entries@[k].entry, lookups@[k], cfg.time@[j].addr)
                    },
            decreases entries@.len() - i,
        {
            let e = &entries[i].entry;
            match resolve_address(e, &lookups[i]) {
                None => {
                    let err = match &e.host {
                        Host::Cidr(_) => ParseAccntError::InvalidHostFormat,
                        Host::Domain(_) => match &lookups[i] {
                            None => ParseAccntError::DnsFailed,
                            Some(_) => ParseAccntError::InvalidHostFormat,
                        },
                    };
                    return Err(ParseConfigError::EntryError(err, entries[i].line));
                },
                Some(addr) => {
                    let acc = Accounting { addr, quota: e.quota };
                    match e.kind {
                        QuotaKind::Data => cfg.data.push(acc),
                        QuotaKind::Time => cfg.time.push(acc),
                    }
                },
            }
            i = i + 1;
        }
        Ok(cfg)
    }
}

} // verus!
