use netcontrol::config::{parse_entry, parse_policy, Host, LineEntry, QuotaKind, RawEntry};
use netcontrol::model::{Config, Ipv4Cidr, ParseAccntError, ParseConfigError};
use netcontrol::text::split_tokens;

fn ip(a: u8, b: u8, c: u8, d: u8) -> u32 {
    u32::from_be_bytes([a, b, c, d])
}

fn lines(v: &[&str]) -> Vec<String> {
    v.iter().map(|s| s.to_string()).collect()
}

fn data_of(e: &RawEntry) -> u64 {
    assert_eq!(e.kind, QuotaKind::Data);
    e.quota
}

fn time_of(e: &RawEntry) -> u64 {
    assert_eq!(e.kind, QuotaKind::Time);
    e.quota
}

#[test]
fn tokens_split_on_whitespace() {
    let t = split_tokens("  10.0.0.5 \t 1kb  ");
    assert_eq!(t, vec!["10.0.0.5".to_string(), "1kb".to_string()]);
    assert!(split_tokens("   ").is_empty());
}

#[test]
fn cidr_without_prefix_is_host() {
    let e = parse_entry("10.0.0.5 1kb").unwrap();
    match e.host {
        Host::Cidr(c) => assert_eq!(c, Ipv4Cidr { addr: ip(10, 0, 0, 5), prefix: 32 }),
        _ => panic!("expected a cidr"),
    }
    assert_eq!(data_of(&e), 1000);
}

#[test]
fn cidr_with_prefix() {
    let e = parse_entry("10.0.0.0/8 2mb").unwrap();
    match e.host {
        Host::Cidr(c) => assert_eq!(c, Ipv4Cidr { addr: ip(10, 0, 0, 0), prefix: 8 }),
        _ => panic!("expected a cidr"),
    }
    assert_eq!(data_of(&e), 2_000_000);
}

#[test]
fn data_units_si_and_iec() {
    assert_eq!(data_of(&parse_entry("1.2.3.4 1kib").unwrap()), 1024);
    assert_eq!(data_of(&parse_entry("1.2.3.4 3gb").unwrap()), 3_000_000_000);
    assert_eq!(data_of(&parse_entry("1.2.3.4 1mib").unwrap()), 1_048_576);
    assert_eq!(data_of(&parse_entry("1.2.3.4 0kb").unwrap()), 0);
}

#[test]
fn time_units() {
    assert_eq!(time_of(&parse_entry("1.2.3.4 30s").unwrap()), 30);
    assert_eq!(time_of(&parse_entry("1.2.3.4 5m").unwrap()), 300);
    assert_eq!(time_of(&parse_entry("1.2.3.4 2h").unwrap()), 7200);
    assert_eq!(time_of(&parse_entry("1.2.3.4 0s").unwrap()), 0);
}

#[test]
fn domain_host_is_kept_for_resolution() {
    let e = parse_entry("example.test 5m").unwrap();
    match e.host {
        Host::Domain(d) => assert_eq!(d, "example.test"),
        _ => panic!("expected a domain"),
    }
}

#[test]
fn entry_errors() {
    assert_eq!(parse_entry("").unwrap_err(), ParseAccntError::Empty);
    assert_eq!(parse_entry("   ").unwrap_err(), ParseAccntError::Empty);
    assert_eq!(parse_entry("# note").unwrap_err(), ParseAccntError::InnactiveEntry);
    assert_eq!(parse_entry("10.0.0.5").unwrap_err(), ParseAccntError::BadLen);
    assert_eq!(parse_entry("10.0.0.5 1kb extra").unwrap_err(), ParseAccntError::BadLen);
    assert_eq!(parse_entry("-bad-.@ 1kb").unwrap_err(), ParseAccntError::InvalidHostFormat);
    assert_eq!(parse_entry("10.0.0.5 5x").unwrap_err(), ParseAccntError::InvalidQuotaFormat);
    assert_eq!(parse_entry("10.0.0.5 17xb").unwrap_err(), ParseAccntError::BadDataQuota);
    assert_eq!(
        parse_entry("10.0.0.5 99999999999999999999999gb").unwrap_err(),
        ParseAccntError::BadDataQuota
    );
    assert_eq!(
        parse_entry("10.0.0.5 99999999999999999999999h").unwrap_err(),
        ParseAccntError::BadTimeQuota
    );
}

#[test]
fn malformed_line_reports_its_number() {
    let ls = lines(&["10.0.0.1 1kb", "# c", "", "10.0.0.5 17xb", "10.0.0.6 1kb"]);
    match parse_policy(&ls) {
        Err(e) => assert_eq!(e, ParseConfigError::EntryError(ParseAccntError::BadDataQuota, 4)),
        Ok(_) => panic!("expected an error"),
    }
}

#[test]
fn comments_and_blank_lines_are_skipped() {
    let ls = lines(&["# note", "", "example.test 5m"]);
    let v = parse_policy(&ls).unwrap();
    assert_eq!(v.len(), 1);
    assert_eq!(v[0].line, 3);
    assert_eq!(time_of(&v[0].entry), 300);
}

fn resolve(ls: &[&str], lookups: Vec<Option<Vec<u32>>>) -> Result<Config, ParseConfigError> {
    let entries: Vec<LineEntry> = parse_policy(&lines(ls)).unwrap();
    Config::new_from_entries(&entries, &lookups)
}

#[test]
fn domain_resolves_to_host_networks() {
    let cfg = resolve(&["example.test 5m"], vec![Some(vec![ip(192, 0, 2, 1), ip(192, 0, 2, 2)])]).unwrap();
    assert_eq!(cfg.time.len(), 1);
    assert_eq!(cfg.time[0].quota, 300);
    assert_eq!(
        cfg.time[0].addr.value,
        vec![Ipv4Cidr::host(ip(192, 0, 2, 1)), Ipv4Cidr::host(ip(192, 0, 2, 2))]
    );
}

#[test]
fn domain_without_ipv4_is_invalid_host() {
    let r = resolve(&["10.0.0.1 1kb", "example.test 5m"], vec![None, Some(vec![])]);
    assert_eq!(r.unwrap_err(), ParseConfigError::EntryError(ParseAccntError::InvalidHostFormat, 2));
}

#[test]
fn failed_lookup_is_dns_error() {
    let r = resolve(&["example.test 5m"], vec![None]);
    assert_eq!(r.unwrap_err(), ParseConfigError::EntryError(ParseAccntError::DnsFailed, 1));
}

#[test]
fn entries_keep_order_within_kind() {
    let cfg = resolve(
        &["10.0.0.1 1kb", "10.0.0.2 10s", "10.0.0.3 2kb", "10.0.0.4 20s"],
        vec![None, None, None, None],
    )
    .unwrap();
    let d: Vec<u64> = cfg.data.iter().map(|a| a.quota).collect();
    let t: Vec<u64> = cfg.time.iter().map(|a| a.quota).collect();
    assert_eq!(d, vec![1000, 2000]);
    assert_eq!(t, vec![10, 20]);
    assert_eq!(cfg.data[1].addr.value, vec![Ipv4Cidr::host(ip(10, 0, 0, 3))]);
}

#[test]
fn error_messages() {
    assert_eq!(ParseAccntError::BadDataQuota.message(), "error parsing data quota");
    assert_eq!(ParseAccntError::DnsFailed.message(), "error in dns resolution");
}

#[test]
fn unicode_whitespace_separates_tokens() {
    let e = parse_entry("10.0.0.5\u{a0}1kb").unwrap();
    assert_eq!(data_of(&e), 1000);
    assert_eq!(split_tokens("a\u{3000}b").len(), 2);
}

#[test]
fn exponent_quota_is_rejected_without_reading() {
    assert_eq!(
        parse_entry("10.0.0.5 1e9999999999s").unwrap_err(),
        ParseAccntError::InvalidQuotaFormat
    );
}

#[test]
fn bad_len_message() {
    assert_eq!(ParseAccntError::BadLen.message(), "incorrect entry format");
}
