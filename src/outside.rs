//! Calls into the parsing crates that the policy grammar relies on.
use vstd::prelude::*;

verus! {

/// Whether `pattern` compiles under fancy_regex and matches `text`.
pub uninterp spec fn pattern_matches(pattern: Seq<char>, text: Seq<char>) -> bool;

/// The byte count that byte_unit reads from `text`, if it reads one.
pub uninterp spec fn byte_count(text: Seq<char>) -> Option<u128>;

/// The whole seconds that parse_duration reads from `text`, if it reads a duration.
pub uninterp spec fn duration_secs(text: Seq<char>) -> Option<u64>;

/// The network (address, prefix) that ipnetwork reads from `text`, if any.
pub uninterp spec fn cidr_value(text: Seq<char>) -> Option<(u32, u8)>;

/// Relies on fancy_regex::Regex::new and Regex::is_match: a pattern that
/// does not compile, or a match that fails, counts as no match.
#[verifier::external_body]
pub(crate) fn regex_is_match(pattern: &str, text: &str) -> (r: bool)
    ensures
        r == pattern_matches(pattern@, text@),
{
    match fancy_regex::Regex::new(pattern) {
        Ok(re) => re.is_match(text).unwrap_or(false),
        Err(_) => false,
    }
}

/// Relies on byte_unit::Byte::from_str and Byte::get_bytes: the number of
/// bytes a size literal such as `11mb` or `3kib` denotes.
#[verifier::external_body]
pub(crate) fn parse_byte_count(text: &str) -> (r: Option<u128>)
    ensures
        r == byte_count(text@),
{
    match byte_unit::Byte::from_str(text) {
        Ok(b) => Some(b.get_bytes()),
        Err(_) => None,
    }
}

/// Relies on parse_duration::parse: the duration a literal such as `5m`
/// denotes, in whole seconds. Only digits followed by one unit letter are
/// handed over: parse_duration expands exponents (`1e9999999999s`) without
/// bound.
#[verifier::external_body]
pub(crate) fn parse_duration_secs(text: &str) -> (r: Option<u64>)
    requires
        pattern_matches(crate::config::TIME_QUOTA_PATTERN@, text@),
    ensures
        r == duration_secs(text@),
{
    match parse_duration::parse(text) {
        Ok(d) => Some(d.as_secs()),
        Err(_) => None,
    }
}

/// Relies on `FromStr for ipnetwork::Ipv4Network`: the prefix never exceeds
/// 32, and is 32 where the text holds no `/`.
#[verifier::external_body]
pub(crate) fn parse_ipv4_network(text: &str) -> (r: Option<(u32, u8)>)
    ensures
        r == cidr_value(text@),
        r matches Some(p) ==> p.1 <= 32,
        r matches Some(p) ==> (!text@.contains('/') ==> p.1 == 32),
{
    match text.parse::<ipnetwork::Ipv4Network>() {
        Ok(net) => Some((u32::from(net.ip()), net.prefix())),
        Err(_) => None,
    }
}

} // verus!
