use ufw_auto_block::addr::IpAddress;
use ufw_auto_block::ufw::{
    Address, LoggingLevel, Protocol, RuleDirection, RuleDirectionDefaults, RuleType, Ufw,
    UfwCommandOutput,
};
use ufw_auto_block::{ParseError, UfwCommand};

fn captured(success: bool, stdout: &str) -> UfwCommandOutput {
    UfwCommandOutput { success, stdout: stdout.as_bytes().to_vec(), stderr: Vec::new() }
}

#[test]
fn version_is_taken_after_the_marker() {
    let out = captured(true, "ufw 0.36.1\nCopyright 2008-2021\n");
    assert_eq!(UfwCommand::version(&out).unwrap(), "0.36.1");
}

#[test]
fn version_without_patch_stops_at_the_minor() {
    let out = captured(true, "ufw 0.36\n");
    assert_eq!(UfwCommand::version(&out).unwrap(), "0.36");
}

#[test]
fn missing_version_names_the_text() {
    let out = captured(true, "no such tool\n");
    match UfwCommand::version(&out) {
        Err(ParseError::IOError(msg)) => {
            assert!(msg.contains("no such tool"));
        }
        other => panic!("expected IOError, got {:?}", other),
    }
}

#[test]
fn failed_run_is_io_error_for_every_extractor() {
    let out = captured(false, "ufw 0.36\nStatus: active\nLogging: on (low)\n");
    assert!(matches!(UfwCommand::version(&out), Err(ParseError::IOError(_))));
    assert!(matches!(UfwCommand::info(&out), Err(ParseError::IOError(_))));
    assert!(matches!(UfwCommand::defaults(&out), Err(ParseError::IOError(_))));
    assert!(matches!(UfwCommand::numbered(&out), Err(ParseError::IOError(_))));
}

#[test]
fn info_reads_status_and_level() {
    let out = captured(true, "Status: active\nLogging: on (medium)\n");
    let (enabled, level) = UfwCommand::info(&out).unwrap();
    assert!(enabled);
    assert_eq!(level, LoggingLevel::Medium);
}

#[test]
fn info_reads_the_inactive_state() {
    let out = captured(true, "Status: inactive\nLogging: off\n");
    let (enabled, level) = UfwCommand::info(&out).unwrap();
    assert!(!enabled);
    assert_eq!(level, LoggingLevel::Off);
}

#[test]
fn logging_off_needs_no_level() {
    let out = captured(true, "Status: active\nLogging: off\n");
    let (_, level) = UfwCommand::info(&out).unwrap();
    assert_eq!(level, LoggingLevel::Off);
}

#[test]
fn unknown_logging_level_is_refused() {
    let out = captured(true, "Status: active\nLogging: on (bogus)\n");
    assert!(matches!(
        UfwCommand::info(&out),
        Err(ParseError::InvalidLoggingLevel(_))
    ));
}

#[test]
fn logging_level_try_from_reads_each_level() {
    assert_eq!(LoggingLevel::try_from(("on", "low")).unwrap(), LoggingLevel::Low);
    assert_eq!(LoggingLevel::try_from(("on", "medium")).unwrap(), LoggingLevel::Medium);
    assert_eq!(LoggingLevel::try_from(("on", "high")).unwrap(), LoggingLevel::High);
    assert_eq!(LoggingLevel::try_from(("on", "full")).unwrap(), LoggingLevel::Full);
    assert_eq!(LoggingLevel::try_from(("off", "")).unwrap(), LoggingLevel::Off);
    assert!(matches!(
        LoggingLevel::try_from(("on", "bogus")),
        Err(ParseError::InvalidLoggingLevel(_))
    ));
    assert!(matches!(
        LoggingLevel::try_from(("maybe", "low")),
        Err(ParseError::InvalidLoggingLevel(_))
    ));
}

#[test]
fn defaults_reads_each_clause_alone() {
    let out = captured(
        true,
        "Status: active\nDefault: deny (incoming), allow (outgoing), disabled (routed)\n",
    );
    let pairs = UfwCommand::defaults(&out).unwrap();
    assert_eq!(pairs.len(), 3);
    assert!(matches!(pairs[0].0, Ok(RuleDirectionDefaults::INCOMING)));
    assert!(matches!(pairs[0].1, Ok(RuleType::DENY)));
    assert!(matches!(pairs[1].0, Ok(RuleDirectionDefaults::OUTGOING)));
    assert!(matches!(pairs[1].1, Ok(RuleType::ALLOW)));
    assert!(matches!(pairs[2].0, Ok(RuleDirectionDefaults::ROUTED)));
    assert!(matches!(pairs[2].1, Err(ParseError::WrongRuleType(_))));
}

#[test]
fn malformed_defaults_clause_fails_alone() {
    let out = captured(true, "Default: deny (incoming), what even\n");
    let pairs = UfwCommand::defaults(&out).unwrap();
    assert_eq!(pairs.len(), 2);
    assert!(pairs[0].0.is_ok() && pairs[0].1.is_ok());
    assert!(matches!(pairs[1].0, Err(ParseError::InvalidDefaults(_))));
    assert!(matches!(pairs[1].1, Err(ParseError::InvalidDefaults(_))));
}

#[test]
fn numbered_keeps_order_and_independence() {
    let text = "Status: active\n\n[ 1] 22/tcp ALLOW IN 10.0.0.0/8\n[ 2] zzz ALLOW IN\n[ 3] 443/tcp ALLOW IN 192.168.0.0/16\n";
    let out = captured(true, text);
    let entries = UfwCommand::numbered(&out).unwrap();
    assert_eq!(entries.len(), 3);
    let first = entries[0].as_ref().unwrap();
    assert_eq!(first.number, 1);
    assert_eq!(first.destination_port, Some(22));
    assert_eq!(first.proto, Protocol::TCP);
    assert_eq!(first.action.typ, RuleType::ALLOW);
    assert_eq!(first.action.direction, RuleDirection::IN);
    let src = first.source_address.unwrap();
    assert_eq!(src.addr, IpAddress::V4(10, 0, 0, 0));
    assert_eq!(src.cidr, 8);
    assert!(entries[1].is_err());
    let third = entries[2].as_ref().unwrap();
    assert_eq!(third.number, 3);
    assert_eq!(third.destination_port, Some(443));
}

#[test]
fn numbered_skips_headerless_lines_silently() {
    let out = captured(true, "To  Action  From\n--  ------  ----\n");
    let entries = UfwCommand::numbered(&out).unwrap();
    assert_eq!(entries.len(), 0);
}

#[test]
fn numbered_reads_interface_and_family() {
    let out = captured(true, "[ 7] Anywhere (v6) on eth0 ALLOW FWD Anywhere (v6)\n");
    let entries = UfwCommand::numbered(&out).unwrap();
    let entry = entries[0].as_ref().unwrap();
    assert_eq!(entry.number, 7);
    assert_eq!(entry.interface.as_deref(), Some("eth0"));
    assert!(matches!(entry.ip_version, Some(ufw_auto_block::ufw::IpVersion::V6)));
    assert_eq!(entry.action.direction, RuleDirection::FWD);
}

#[test]
fn parse_stdout_accepts_exactly_utf8() {
    assert_eq!(UfwCommand::parse_stdout("abc".as_bytes().to_vec()).unwrap(), "abc");
    assert!(matches!(
        UfwCommand::parse_stdout(vec![0xff, 0xfe]),
        Err(ParseError::IOError(_))
    ));
}

#[test]
fn report_protocol_accepts_only_tcp_and_udp() {
    assert_eq!(Protocol::try_from("tcp").unwrap(), Protocol::TCP);
    assert_eq!(Protocol::try_from("udp").unwrap(), Protocol::UDP);
    assert!(matches!(Protocol::try_from(""), Err(ParseError::InvalidProtocol(_))));
}

#[test]
fn rule_keywords_fold_case() {
    assert_eq!(RuleType::try_from("Allow").unwrap(), RuleType::ALLOW);
    assert_eq!(RuleType::try_from("LIMIT").unwrap(), RuleType::LIMIT);
    assert_eq!(RuleType::try_from("reject").unwrap(), RuleType::REJECT);
    assert!(matches!(RuleType::try_from("open"), Err(ParseError::WrongRuleType(_))));
    assert_eq!(RuleDirection::try_from("FWD").unwrap(), RuleDirection::FWD);
    assert!(matches!(
        RuleDirection::try_from("sideways"),
        Err(ParseError::WrongRuleDirection(_))
    ));
    assert_eq!(
        RuleDirectionDefaults::try_from("Incoming").unwrap(),
        RuleDirectionDefaults::INCOMING
    );
    assert!(matches!(
        RuleDirectionDefaults::try_from("inward"),
        Err(ParseError::WrongRuleDirection(_))
    ));
}

#[test]
fn address_reads_and_renders_back() {
    let a = Address::try_from("192.168.1.0/24").unwrap();
    assert_eq!(a.addr, IpAddress::V4(192, 168, 1, 0));
    assert_eq!(a.cidr, 24);
    assert_eq!(a.to_string(), "192.168.1.0/24");
    let host = Address::try_from("10.0.0.1").unwrap();
    assert_eq!(host.cidr, 32);
    assert_eq!(host.to_string(), "10.0.0.1");
    assert!(matches!(
        Address::try_from("not an ip"),
        Err(ParseError::RuleLineGrammar(_))
    ));
}

#[test]
fn six_rendering_compresses_the_longest_zero_run() {
    let a = Address::try_from("::1/64").unwrap();
    assert_eq!(a.addr, IpAddress::V6(0, 0, 0, 0, 0, 0, 0, 1));
    assert_eq!(a.cidr, 64);
    assert_eq!(a.addr.is_v6(), true);
    assert_eq!(a.to_string(), "::1/64");
    let full = Address::try_from("2001:db8:0:0:0:0:0:1").unwrap();
    assert_eq!(full.addr, IpAddress::V6(0x2001, 0xdb8, 0, 0, 0, 0, 0, 1));
    assert_eq!(full.to_string(), "2001:db8::1");
    let single = Address::try_from("1:0:2:3:4:5:6:7").unwrap();
    assert_eq!(single.to_string(), "1:0:2:3:4:5:6:7");
    let all = Address::try_from("::").unwrap();
    assert_eq!(all.to_string(), "::");
    let tail = Address::try_from("1::").unwrap();
    assert_eq!(tail.to_string(), "1::");
}

#[test]
fn version_pattern_search_skips_a_bare_marker() {
    let out = captured(true, "ufw tool
ufw 0.36
");
    assert_eq!(UfwCommand::version(&out).unwrap(), "0.36");
}

#[test]
fn failed_run_error_carries_the_error_stream() {
    let out = UfwCommandOutput {
        success: false,
        stdout: Vec::new(),
        stderr: "permission denied".as_bytes().to_vec(),
    };
    match UfwCommand::version(&out) {
        Err(ParseError::IOError(msg)) => {
            assert!(msg.contains("permission denied"));
        }
        other => panic!("expected IOError, got {:?}", other),
    }
}

#[test]
fn unrecognized_level_gets_the_enumerated_hint() {
    let out = captured(true, "Status: active
Logging: on (bogus)
");
    match UfwCommand::info(&out) {
        Err(ParseError::InvalidLoggingLevel(msg)) => {
            assert!(msg.contains("Valid logging levels"));
        }
        other => panic!("expected InvalidLoggingLevel, got {:?}", other),
    }
}

#[test]
fn defaults_clause_is_found_inside_surrounding_text() {
    let out = captured(true, "Default: deny (incoming) on this host
");
    let pairs = UfwCommand::defaults(&out).unwrap();
    assert_eq!(pairs.len(), 1);
    assert!(matches!(pairs[0].0, Ok(RuleDirectionDefaults::INCOMING)));
    assert!(matches!(pairs[0].1, Ok(RuleType::DENY)));
}

#[test]
fn octets_reject_leading_zeros() {
    assert!(matches!(
        Address::try_from("01.2.3.4"),
        Err(ParseError::RuleLineGrammar(_))
    ));
    assert!(matches!(
        Address::try_from("1.2.3.0255"),
        Err(ParseError::RuleLineGrammar(_))
    ));
    assert!(Address::try_from("0.2.3.4").is_ok());
}

#[test]
fn source_side_renders_any_when_absent() {
    let out = captured(true, "[ 1] 22/tcp ALLOW IN\n");
    let entries = UfwCommand::numbered(&out).unwrap();
    let entry = entries[0].as_ref().unwrap();
    assert_eq!(entry.source_address_string(), "any");
}

#[test]
fn staging_keeps_and_removes_entries() {
    let out = captured(true, "[ 1] 22/tcp ALLOW IN 10.0.0.0/8\n");
    let entries = UfwCommand::numbered(&out).unwrap();
    let entry = entries[0].as_ref().unwrap().clone();
    let mut ufw = Ufw { enabled: true, logging: LoggingLevel::Low, entries: Vec::new() };
    ufw.add_rule(entry);
    assert_eq!(ufw.entries.len(), 1);
    assert!(ufw.entries[0].1);
    let removed = ufw.delete_rule(0).unwrap();
    assert_eq!(removed.0.number, 1);
    assert_eq!(ufw.entries.len(), 0);
    assert!(ufw.delete_rule(5).is_none());
}

#[test]
fn command_remembers_its_executable() {
    let cmd = UfwCommand::new();
    assert_eq!(cmd.executable, "/usr/bin/ufw");
    let other = cmd.with_executable("/usr/local/bin/ufw");
    assert_eq!(other.executable, "/usr/local/bin/ufw");
}

#[test]
fn action_pair_reads_type_then_direction() {
    let action = UfwCommand::parse_action(vec!["allow", "in"]).unwrap();
    assert_eq!(action.typ, RuleType::ALLOW);
    assert_eq!(action.direction, RuleDirection::IN);
    assert!(matches!(
        UfwCommand::parse_action(vec![]),
        Err(ParseError::WrongRuleType(_))
    ));
    assert!(matches!(
        UfwCommand::parse_action(vec!["allow"]),
        Err(ParseError::WrongRuleType(_))
    ));
}
