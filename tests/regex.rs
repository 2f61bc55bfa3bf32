use fancy_regex::Regex;
use netcontrol::config::{CIDR_PATTERN, DOMAIN_PATTERN, TIME_QUOTA_PATTERN};

#[test]
fn regex_test() {
    let reg_cidr = Regex::new(CIDR_PATTERN).unwrap();
    let reg_domain = Regex::new(DOMAIN_PATTERN).unwrap();
    let reg_data_quota = Regex::new(r"^[0-9]+(kb|mb|gb)$").unwrap();
    let reg_time_quota = Regex::new(TIME_QUOTA_PATTERN).unwrap();

    assert!(reg_cidr.is_match("192.168.1.1/30").unwrap());
    assert!(reg_cidr.is_match("192.168.1.1").unwrap());
    assert!(reg_cidr.is_match("1.2.3.1/8").unwrap());
    assert!(!reg_cidr.is_match("1.2.3.1/33").unwrap());

    assert!(reg_domain.is_match("google.com").unwrap());
    assert!(reg_domain.is_match("bounty.c").unwrap());
    assert!(!reg_domain.is_match("live.lt.").unwrap());

    assert!(reg_data_quota.is_match("11mb").unwrap());
    assert!(!reg_data_quota.is_match("11m").unwrap());
    assert!(!reg_data_quota.is_match("5215fgf").unwrap());

    assert!(!reg_time_quota.is_match("11mb").unwrap());
    assert!(reg_time_quota.is_match("11m").unwrap());
    assert!(!reg_time_quota.is_match("5215fgf").unwrap());
}
