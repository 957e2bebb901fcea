use ufw_auto_block::application::ApplicationEntry;
use ufw_auto_block::ufw::Protocol;
use ufw_auto_block::ParseError;

fn entry_pairs(title: Option<&str>, description: Option<&str>, ports: Option<&str>) -> Vec<(
    String,
    Option<String>,
)> {
    let mut v = Vec::new();
    if let Some(t) = title {
        v.push(("title".to_string(), Some(t.to_string())));
    }
    if let Some(d) = description {
        v.push(("description".to_string(), Some(d.to_string())));
    }
    if let Some(p) = ports {
        v.push(("ports".to_string(), Some(p.to_string())));
    }
    v
}

#[test]
fn single_port_parses_to_its_value() {
    let items = ApplicationEntry::parse_ports("65535");
    assert_eq!(items.len(), 1);
    let port = items[0].as_ref().unwrap();
    assert_eq!(port.number, 65535);
    assert!(port.end_number.is_none());
    assert_eq!(port.protocols.len(), 2);
    assert!(matches!(port.protocols[0], Ok(Protocol::TCP)));
    assert!(matches!(port.protocols[1], Ok(Protocol::UDP)));
}

#[test]
fn oversized_port_is_not_a_number() {
    let items = ApplicationEntry::parse_ports("65536");
    assert_eq!(items.len(), 1);
    assert!(matches!(items[0], Err(ParseError::PortNotANumber(_))));
}

#[test]
fn non_numeric_port_is_not_a_number() {
    let items = ApplicationEntry::parse_ports("http");
    assert_eq!(items.len(), 1);
    assert!(matches!(items[0], Err(ParseError::PortNotANumber(_))));
}

#[test]
fn range_keeps_written_order() {
    let items = ApplicationEntry::parse_ports("100:50/tcp");
    assert_eq!(items.len(), 1);
    let port = items[0].as_ref().unwrap();
    assert_eq!(port.number, 100);
    assert_eq!(port.end_number, Some(50));
    assert_eq!(port.protocols.len(), 1);
    assert!(matches!(port.protocols[0], Ok(Protocol::TCP)));
}

#[test]
fn ascending_range_parses_the_same_way() {
    let items = ApplicationEntry::parse_ports("50:100/udp");
    let port = items[0].as_ref().unwrap();
    assert_eq!(port.number, 50);
    assert_eq!(port.end_number, Some(100));
    assert!(matches!(port.protocols[0], Ok(Protocol::UDP)));
}

#[test]
fn range_missing_start_names_the_side() {
    let items = ApplicationEntry::parse_ports(":80");
    assert_eq!(items.len(), 1);
    match &items[0] {
        Err(ParseError::InvalidPortRange(msg)) => {
            assert_eq!(msg, "number before colon hasn't been specified");
        }
        other => panic!("expected InvalidPortRange, got {:?}", other),
    }
}

#[test]
fn range_missing_end_names_the_side() {
    let items = ApplicationEntry::parse_ports("80:");
    match &items[0] {
        Err(ParseError::InvalidPortRange(msg)) => {
            assert_eq!(msg, "number after colon hasn't been specified");
        }
        other => panic!("expected InvalidPortRange, got {:?}", other),
    }
}

#[test]
fn empty_items_part_is_the_empty_section_error() {
    let items = ApplicationEntry::parse_ports("/tcp");
    assert_eq!(items.len(), 1);
    assert!(matches!(items[0], Err(ParseError::PortsSectionEmpty)));
}

#[test]
fn unknown_protocol_suffix_marks_the_protocols() {
    let items = ApplicationEntry::parse_ports("80/icmp");
    let port = items[0].as_ref().unwrap();
    assert_eq!(port.number, 80);
    assert!(matches!(port.protocols[0], Err(ParseError::InvalidProtocol(_))));
}

#[test]
fn ports_field_groups_by_entry() {
    let pairs = entry_pairs(Some("Web"), Some("web ports"), Some("80,443/tcp|53/udp"));
    let entry = ApplicationEntry::parse("web", &pairs).unwrap();
    assert_eq!(entry.name, "web");
    assert_eq!(entry.title, "Web");
    assert_eq!(entry.description, "web ports");
    assert_eq!(entry.ports.len(), 3);
    let p80 = entry.ports[0].as_ref().unwrap();
    assert_eq!(p80.number, 80);
    assert_eq!(p80.protocols.len(), 1);
    assert!(matches!(p80.protocols[0], Ok(Protocol::TCP)));
    let p443 = entry.ports[1].as_ref().unwrap();
    assert_eq!(p443.number, 443);
    assert!(matches!(p443.protocols[0], Ok(Protocol::TCP)));
    let p53 = entry.ports[2].as_ref().unwrap();
    assert_eq!(p53.number, 53);
    assert_eq!(p53.protocols.len(), 1);
    assert!(matches!(p53.protocols[0], Ok(Protocol::UDP)));
}

#[test]
fn suffixless_entry_defaults_to_tcp_and_udp() {
    let items = ApplicationEntry::parse_ports("8080");
    let port = items[0].as_ref().unwrap();
    assert_eq!(port.protocols.len(), 2);
    assert!(matches!(port.protocols[0], Ok(Protocol::TCP)));
    assert!(matches!(port.protocols[1], Ok(Protocol::UDP)));
}

#[test]
fn missing_description_is_exactly_that_error() {
    let pairs = entry_pairs(Some("Web"), None, Some("80"));
    let r = ApplicationEntry::parse("web", &pairs);
    assert!(matches!(r, Err(ParseError::MissingDescription)));
}

#[test]
fn missing_title_is_exactly_that_error() {
    let pairs = entry_pairs(None, Some("d"), Some("80"));
    assert!(matches!(ApplicationEntry::parse("web", &pairs), Err(ParseError::MissingTitle)));
}

#[test]
fn missing_ports_is_exactly_that_error() {
    let pairs = entry_pairs(Some("t"), Some("d"), None);
    assert!(matches!(ApplicationEntry::parse("web", &pairs), Err(ParseError::MissingPorts)));
}

#[test]
fn null_valued_key_counts_as_missing() {
    let mut pairs = entry_pairs(Some("t"), None, Some("80"));
    pairs.push(("description".to_string(), None));
    assert!(matches!(
        ApplicationEntry::parse("web", &pairs),
        Err(ParseError::MissingDescription)
    ));
}

#[test]
fn one_bad_item_keeps_its_siblings() {
    let items = ApplicationEntry::parse_ports("80,bogus,443");
    assert_eq!(items.len(), 3);
    assert!(items[0].is_ok());
    assert!(matches!(items[1], Err(ParseError::PortNotANumber(_))));
    assert!(items[2].is_ok());
}

#[test]
fn whole_document_keeps_every_section() {
    let sections = vec![
        ("good".to_string(), entry_pairs(Some("t"), Some("d"), Some("80"))),
        ("bad".to_string(), entry_pairs(Some("t"), None, Some("80"))),
    ];
    let app = ufw_auto_block::Application::parse_file("apps.ini", &sections).unwrap();
    assert_eq!(app.filepath, "apps.ini");
    assert_eq!(app.entries.len(), 2);
    assert!(app.entries[0].is_ok());
    assert!(matches!(app.entries[1], Err(ParseError::MissingDescription)));
}

#[test]
fn error_messages_read_as_documented() {
    assert_eq!(ParseError::FileNotFound.message(), "ufw ini file not found");
    assert_eq!(
        ParseError::PortNotANumber(String::new()).message(),
        "port must be a number"
    );
    assert_eq!(ParseError::PortsSectionEmpty.message(), "ports section is empty");
}

#[test]
fn config_holds_its_value() {
    let c = ufw_auto_block::Config::new(5);
    assert_eq!(c.block_after_times, 5);
}
