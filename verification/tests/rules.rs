use ufw_auto_block::addr::IpAddress;
use ufw_auto_block::numbered::{parse, parse_cidr, parse_portp, Direction, Element, Modifier,
    Protocol};
use ufw_auto_block::ParseError;

#[test]
fn full_rule_line_parses_to_its_parts() {
    let line = parse("[ 1] 192.168.1.0/24 22/udp on tun0 ALLOW IN 10.0.0.0/8").unwrap();
    assert_eq!(line.index, 1);
    assert!(!line.v6);
    assert_eq!(line.to.addr, Some(IpAddress::V4(192, 168, 1, 0)));
    assert_eq!(line.to.cidr, Some(24));
    assert_eq!(line.to.port, Some(22));
    assert_eq!(line.to.protocol, Protocol::UDP);
    assert_eq!(line.device.as_deref(), Some("tun0"));
    match &line.action {
        Element::Action(m, d) => {
            assert!(matches!(m, Ok(Modifier::ALLOW)));
            assert!(matches!(d, Ok(Direction::IN)));
        }
        other => panic!("expected an action element, got {:?}", other),
    }
    assert_eq!(line.from.addr, Some(IpAddress::V4(10, 0, 0, 0)));
    assert_eq!(line.from.cidr, Some(8));
    assert_eq!(line.from.port, None);
    assert_eq!(line.from.protocol, Protocol::ANY);
}

#[test]
fn action_without_direction_defaults_to_both() {
    let line = parse("[2] 22/tcp DENY 10.0.0.1").unwrap();
    assert_eq!(line.index, 2);
    match &line.action {
        Element::Action(m, d) => {
            assert!(matches!(m, Ok(Modifier::DENY)));
            assert!(matches!(d, Ok(Direction::BOTH)));
        }
        other => panic!("expected an action element, got {:?}", other),
    }
    assert_eq!(line.from.addr, Some(IpAddress::V4(10, 0, 0, 1)));
}

#[test]
fn port_without_address_falls_back_to_unspecified() {
    let line = parse("[3] 22/tcp ALLOW IN").unwrap();
    assert_eq!(line.to.addr, Some(IpAddress::V4(0, 0, 0, 0)));
    assert_eq!(line.to.port, Some(22));
    assert_eq!(line.to.protocol, Protocol::TCP);
    assert_eq!(line.from.addr, None);
}

#[test]
fn line_without_device_has_no_interface() {
    let line = parse("[3] 22/tcp ALLOW IN").unwrap();
    assert!(line.device.is_none());
}

#[test]
fn v6_marker_sets_the_flag() {
    let line = parse("[4] ::1 (v6) ALLOW IN").unwrap();
    assert!(line.v6);
    assert_eq!(line.to.addr, Some(IpAddress::V6(0, 0, 0, 0, 0, 0, 0, 1)));
}

#[test]
fn line_without_index_is_refused_whole() {
    assert!(matches!(
        parse("22/tcp ALLOW IN"),
        Err(ParseError::RuleLineGrammar(_))
    ));
}

#[test]
fn line_without_action_is_refused_whole() {
    assert!(matches!(
        parse("[1] 22/tcp 10.0.0.1"),
        Err(ParseError::RuleLineGrammar(_))
    ));
}

#[test]
fn bad_cidr_fails_the_line() {
    assert!(matches!(
        parse("[1] 10.0.0.0/99 ALLOW IN"),
        Err(ParseError::InvalidCidr(_))
    ));
}

#[test]
fn bad_address_fails_the_line() {
    assert!(matches!(
        parse("[1] 999.0.0.1 ALLOW IN"),
        Err(ParseError::RuleLineGrammar(_))
    ));
}

#[test]
fn cidr_parses_up_to_thirty_two() {
    assert_eq!(parse_cidr("24").unwrap(), 24);
    assert_eq!(parse_cidr("0").unwrap(), 0);
    assert_eq!(parse_cidr("32").unwrap(), 32);
    assert!(matches!(parse_cidr("33"), Err(ParseError::InvalidCidr(_))));
    assert!(matches!(parse_cidr("x"), Err(ParseError::InvalidCidr(_))));
}

#[test]
fn portp_reads_port_and_protocol() {
    assert_eq!(parse_portp("22/udp").unwrap(), (22, Protocol::UDP));
    assert_eq!(parse_portp("80").unwrap(), (80, Protocol::ANY));
    assert!(matches!(
        parse_portp("70000/tcp"),
        Err(ParseError::PortNotANumber(_))
    ));
    assert!(matches!(
        parse_portp("80/icmp"),
        Err(ParseError::InvalidProtocol(_))
    ));
}

#[test]
fn line_protocol_accepts_the_empty_suffix() {
    assert_eq!(Protocol::try_from("tcp").unwrap(), Protocol::TCP);
    assert_eq!(Protocol::try_from("udp").unwrap(), Protocol::UDP);
    assert_eq!(Protocol::try_from("").unwrap(), Protocol::ANY);
    assert!(matches!(
        Protocol::try_from("gre"),
        Err(ParseError::InvalidProtocol(_))
    ));
}

#[test]
fn protocol_text_names_each_value() {
    assert_eq!(Protocol::TCP.text(), "tcp");
    assert_eq!(Protocol::UDP.text(), "udp");
    assert_eq!(Protocol::ANY.text(), "ANY");
}

#[test]
fn modifier_keywords_are_case_sensitive() {
    assert_eq!(Modifier::try_from("ALLOW").unwrap(), Modifier::ALLOW);
    assert_eq!(Modifier::try_from("DENY").unwrap(), Modifier::DENY);
    assert!(matches!(
        Modifier::try_from("allow"),
        Err(ParseError::WrongRuleType(_))
    ));
}

#[test]
fn direction_defaults_when_absent() {
    assert_eq!(Direction::try_from(None).unwrap(), Direction::BOTH);
    assert_eq!(Direction::try_from(Some("IN")).unwrap(), Direction::IN);
    assert_eq!(Direction::try_from(Some("OUT")).unwrap(), Direction::OUT);
    assert_eq!(Direction::try_from(Some("")).unwrap(), Direction::BOTH);
    assert!(matches!(
        Direction::try_from(Some("UP")),
        Err(ParseError::WrongRuleDirection(_))
    ));
}

#[test]
fn tokenizer_wraps_address_runs_in_groups() {
    let elements = ufw_auto_block::parse_line("[1] 10.0.0.1 ALLOW OUT 10.0.0.2").unwrap();
    assert!(matches!(elements[0], Element::Index(1)));
    assert!(matches!(elements[1], Element::ToFrom(_)));
    assert!(matches!(elements[2], Element::Action(_, _)));
    assert!(matches!(elements[3], Element::ToFrom(_)));
    assert!(matches!(elements[elements.len() - 1], Element::END));
}
