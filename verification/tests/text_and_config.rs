use p2p_transport::builder::{parse_env_u16, parse_env_u32, QuicConfig};
use p2p_transport::text::{next_word_of, parse_unsigned};
use p2p_transport::AgentInfo;

fn env(pairs: &[(&str, &str)]) -> Vec<(String, String)> {
    pairs.iter().map(|(k, v)| (k.to_string(), v.to_string())).collect()
}

#[test]
fn parse_unsigned_reads_decimal() {
    assert_eq!(parse_unsigned("1452", 65535), Some(1452));
    assert_eq!(parse_unsigned("0", 65535), Some(0));
    assert_eq!(parse_unsigned("007", 65535), Some(7));
    assert_eq!(parse_unsigned("+5", 65535), Some(5));
    assert_eq!(parse_unsigned("65535", 65535), Some(65535));
    assert_eq!(parse_unsigned("4294967295", u32::MAX as u64), Some(4294967295));
}

#[test]
fn parse_unsigned_refuses_what_str_parse_refuses() {
    for bad in ["", "+", "-", "-1", " 5", "5 ", "5a", "1_000", "++1", "65536"] {
        assert_eq!(parse_unsigned(bad, 65535), None, "{bad:?}");
        assert_eq!(bad.parse::<u16>().ok(), None, "{bad:?}");
    }
    assert_eq!(parse_unsigned("4294967296", u32::MAX as u64), None);
    assert_eq!(parse_unsigned("99999999999999999999999", u32::MAX as u64), None);
}

#[test]
fn next_word_splits_on_whitespace() {
    let s = "  alpha \t beta\ngamma";
    let (w, end) = next_word_of(s, 0).unwrap();
    assert_eq!(w, "alpha");
    let (w, end) = next_word_of(s, end).unwrap();
    assert_eq!(w, "beta");
    let (w, end) = next_word_of(s, end).unwrap();
    assert_eq!(w, "gamma");
    assert!(next_word_of(s, end).is_none());
    assert!(next_word_of("   ", 0).is_none());
    assert!(next_word_of("", 0).is_none());
    let (w, _) = next_word_of("\u{3000}wide\u{a0}space", 0).unwrap();
    assert_eq!(w, "wide");
}

#[test]
fn quic_config_defaults_without_environment() {
    let c = QuicConfig::from_env(&env(&[]));
    assert_eq!(c.mtu_discovery_max, 1452);
    assert_eq!(c.keep_alive_interval_ms, 5000);
    assert_eq!(c.max_idle_timeout_ms, 60000);
}

#[test]
fn quic_config_reads_environment() {
    let c = QuicConfig::from_env(&env(&[
        ("MTU_DISCOVERY_MAX", "1200"),
        ("KEEP_ALIVE_INTERVAL_MS", "250"),
        ("MAX_IDLE_TIMEOUT_MS", "90000"),
        ("OTHER", "1"),
    ]));
    assert_eq!(c.mtu_discovery_max, 1200);
    assert_eq!(c.keep_alive_interval_ms, 250);
    assert_eq!(c.max_idle_timeout_ms, 90000);
}

#[test]
fn quic_config_falls_back_on_bad_values() {
    let c = QuicConfig::from_env(&env(&[
        ("MTU_DISCOVERY_MAX", "70000"),
        ("KEEP_ALIVE_INTERVAL_MS", "soon"),
        ("MAX_IDLE_TIMEOUT_MS", ""),
    ]));
    assert_eq!(c.mtu_discovery_max, 1452);
    assert_eq!(c.keep_alive_interval_ms, 5000);
    assert_eq!(c.max_idle_timeout_ms, 60000);
}

#[test]
fn env_lookup_takes_first_entry() {
    let e = env(&[("A", "7"), ("A", "9")]);
    assert_eq!(parse_env_u16(&e, "A", 1), 7);
    assert_eq!(parse_env_u32(&e, "B", 3), 3);
}

#[test]
fn agent_info_text() {
    let a = AgentInfo { name: "node", version: "1.2.3" };
    assert_eq!(a.to_string(), "node/1.2.3");
}

#[test]
fn is_whitespace_agrees_with_char_is_whitespace() {
    for c in (0u32..=0x10ffff).filter_map(char::from_u32) {
        assert_eq!(p2p_transport::text::is_whitespace(c), c.is_whitespace(), "{:#x}", c as u32);
    }
}
