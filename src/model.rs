use vstd::prelude::*;

verus! {

/// An IPv4 network: address (host byte order) and prefix length.
#[derive(Clone, Copy, Debug, PartialEq, Eq, Structural)]
pub struct Ipv4Cidr {
    pub addr: u32,
    pub prefix: u8,
}

impl Ipv4Cidr {
    pub open spec fn wf(self) -> bool {
        self.prefix <= 32
    }

    pub open spec fn host_spec(addr: u32) -> Ipv4Cidr {
        Ipv4Cidr { addr, prefix: 32 }
    }

    /// A single host, as a `/32` network.
    pub fn host(addr: u32) -> (r: Ipv4Cidr)
        ensures
            r == Ipv4Cidr::host_spec(addr),
    {
        Ipv4Cidr { addr, prefix: 32 }
    }
}

/// The ordered set of networks that one policy entry applies to.
#[derive(Clone, Debug)]
pub struct Address {
    pub value: Vec<Ipv4Cidr>,
}

/// One accounting entry: where it applies and its limit
/// (bytes for a data entry, seconds for a time entry).
#[derive(Clone, Debug)]
pub struct Accounting {
    pub addr: Address,
    pub quota: u64,
}

/// A parsed entry of either kind.
#[derive(Clone, Debug)]
pub enum QuotaType {
    Time(Accounting),
    Data(Accounting),
}

/// Why one policy line was not accepted.
#[derive(Clone, Copy, Debug, PartialEq, Eq, Structural)]
pub enum ParseAccntError {
    Empty,
    BadLen,
    InnactiveEntry,
    InvalidHostFormat,
    InvalidQuotaFormat,
    DnsFailed,
    BadCidr,
    BadDataQuota,
    BadTimeQuota,
}

impl ParseAccntError {
    /// A short description for logs.
    pub fn message(&self) -> (r: &'static str)
        ensures
            r@ == match self {
                ParseAccntError::Empty => "empty line entry"@,
                ParseAccntError::BadLen => "incorrect entry format"@,
                ParseAccntError::InnactiveEntry => "commented entry"@,
                ParseAccntError::InvalidHostFormat => "host is neither an IPv4 network nor a domain"@,
                ParseAccntError::InvalidQuotaFormat => "quota is neither a size nor a duration"@,
                ParseAccntError::DnsFailed => "error in dns resolution"@,
                ParseAccntError::BadCidr => "error parsing ip network"@,
                ParseAccntError::BadDataQuota => "error parsing data quota"@,
                ParseAccntError::BadTimeQuota => "error parsing time quota"@,
            },
    {
        match self {
            ParseAccntError::Empty => "empty line entry",
            ParseAccntError::BadLen => "incorrect entry format",
            ParseAccntError::InnactiveEntry => "commented entry",
            ParseAccntError::InvalidHostFormat => "host is neither an IPv4 network nor a domain",
            ParseAccntError::InvalidQuotaFormat => "quota is neither a size nor a duration",
            ParseAccntError::DnsFailed => "error in dns resolution",
            ParseAccntError::BadCidr => "error parsing ip network",
            ParseAccntError::BadDataQuota => "error parsing data quota",
            ParseAccntError::BadTimeQuota => "error parsing time quota",
        }
    }
}

/// Why a policy was not accepted; an entry error carries its 1-based line.
#[derive(Clone, Copy, Debug, PartialEq, Eq, Structural)]
pub enum ParseConfigError {
    FileError,
    EntryError(ParseAccntError, u32),
    UnknownError,
}

/// The parsed policy: data entries and time entries, each in input order.
#[derive(Clone, Debug)]
pub struct Config {
    pub data: Vec<Accounting>,
    pub time: Vec<Accounting>,
}

impl Config {
    /// An empty policy.
    pub fn new() -> (r: Config)
        ensures
            r.data@.len() == 0,
            r.time@.len() == 0,
    {
        Config { data: Vec::new(), time: Vec::new() }
    }
}

} // verus!
