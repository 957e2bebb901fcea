//! Application profiles: the `|`/`,`/`/`/`:`-delimited ports grammar and
//! the builder that assembles a profile from a key-to-value section.
//!
//! The grammar of a ports field is
//! `field := entry ('|' entry)*`, `entry := items ('/' protocol)?`,
//! `items := item (',' item)*`, `item := NUMBER | NUMBER ':' NUMBER`;
//! an entry without a protocol suffix defaults its items to TCP and UDP.
//! Every item parses independently: one bad item never drops its
//! siblings.
use vstd::prelude::*;

use crate::text::{
    all_digits, chars_eq, chars_to_string, dec_val, find_char, find_char_last, find_first,
    find_last, is_u16_numeral, lemma_find_first, lemma_find_last, parse_u16_chars, split_char,
    split_on, str_chars, NumeralError,
};
use crate::ufw::{protocol_results_view, spec_protocol, Protocol, UfwPort, UfwPortV,
    protocol_from_chars};
use crate::{view_result, view_results, ParseError, ParseErrorV, ParseResult};

verus! {

// ---------------------------------------------------------------------------
// The ports grammar, as mathematics
// ---------------------------------------------------------------------------
/// The message a numeral failure carries: the reason the token is no port
/// number.
pub open spec fn numeral_error_text(s: Seq<char>) -> Seq<char> {
    if s.len() == 0 || !all_digits(s) {
        "invalid digit found in string"@
    } else {
        "number too large to fit in target type"@
    }
}

/// The protocols an entry gives its items: both TCP and UDP when no suffix
/// is written, else exactly the suffix's reading.
pub open spec fn entry_protocols(proto: Option<Seq<char>>) -> Seq<Result<Protocol, ParseErrorV>> {
    match proto {
        None => seq![Ok(Protocol::TCP), Ok(Protocol::UDP)],
        Some(p) => seq![spec_protocol(p)],
    }
}

/// The part of an entry before its last `/`, or all of it when it has
/// none: the comma-separated items.
pub open spec fn entry_items_part(e: Seq<char>) -> Seq<char> {
    match find_last(e, '/') {
        None => e,
        Some(i) => e.take(i),
    }
}

/// The part of an entry after its last `/`, if any: the protocol suffix.
pub open spec fn entry_proto_part(e: Seq<char>) -> Option<Seq<char>> {
    match find_last(e, '/') {
        None => None,
        Some(i) => Some(e.skip(i + 1)),
    }
}

/// What one item yields under the given protocols: a single port, or a
/// `start:end` range kept in the written order, or the error naming what
/// is wrong with it.
pub open spec fn item_result(it: Seq<char>, protos: Seq<Result<Protocol, ParseErrorV>>) -> Result<
    UfwPortV,
    ParseErrorV,
> {
    match find_first(it, ':') {
        None => if is_u16_numeral(it) {
            Ok(UfwPortV { number: dec_val(it) as u16, end_number: None, protocols: protos })
        } else {
            Err(ParseErrorV::PortNotANumber(numeral_error_text(it)))
        },
        Some(i) => {
            let a = it.take(i);
            let b = it.skip(i + 1);
            if a.len() == 0 {
                Err(ParseErrorV::InvalidPortRange("number before colon hasn't been specified"@))
            } else if b.len() == 0 {
                Err(ParseErrorV::InvalidPortRange("number after colon hasn't been specified"@))
            } else if !is_u16_numeral(a) {
                Err(ParseErrorV::PortNotANumber(
                    "Cannot parse first number in range: "@ + numeral_error_text(a),
                ))
            } else if !is_u16_numeral(b) {
                Err(ParseErrorV::PortNotANumber(
                    "Cannot parse second number in range: "@ + numeral_error_text(b),
                ))
            } else {
                Ok(UfwPortV {
                    number: dec_val(a) as u16,
                    end_number: Some(dec_val(b) as u16),
                    protocols: protos,
                })
            }
        },
    }
}

/// A single-port item yields exactly its numeral's value; any colon-free
/// token that is not a port-sized numeral fails as not-a-number.
pub proof fn lemma_port_item(it: Seq<char>, protos: Seq<Result<Protocol, ParseErrorV>>)
    requires
        !it.contains(':'),
    ensures
        is_u16_numeral(it) ==> item_result(it, protos) == Ok::<UfwPortV, ParseErrorV>(
            UfwPortV { number: dec_val(it) as u16, end_number: None, protocols: protos },
        ),
        !is_u16_numeral(it) ==> item_result(it, protos) == Err::<UfwPortV, ParseErrorV>(
            ParseErrorV::PortNotANumber(numeral_error_text(it)),
        ),
{
    lemma_find_first(it, ':');
    match find_first(it, ':') {
        Some(i) => {
            assert(it[i] == ':');
        },
        None => {},
    }
}

/// A range item is kept in its written order: `a:b` parses to start `a`
/// and end `b`, whether or not `a` is below `b`.
pub proof fn lemma_range_keeps_order(
    a: Seq<char>,
    b: Seq<char>,
    protos: Seq<Result<Protocol, ParseErrorV>>,
)
    requires
        is_u16_numeral(a),
        is_u16_numeral(b),
    ensures
        item_result(a + seq![':'] + b, protos) == Ok::<UfwPortV, ParseErrorV>(
            UfwPortV {
                number: dec_val(a) as u16,
                end_number: Some(dec_val(b) as u16),
                protocols: protos,
            },
        ),
{
    let s = a + seq![':'] + b;
    assert(s[a.len() as int] == ':');
    assert forall|j: int| 0 <= j < a.len() implies s[j] != ':' by {
        assert(s[j] == a[j]);
        assert(crate::text::is_digit(a[j]));
    }
    crate::text::lemma_find_first_at(s, ':', a.len() as int);
    assert(s.take(a.len() as int) =~= a);
    assert(s.skip(a.len() as int + 1) =~= b);
}

/// What one entry yields: one result per item, in order; an entry with
/// nothing before its suffix yields the one empty-section error.
pub open spec fn entry_results(e: Seq<char>) -> Seq<Result<UfwPortV, ParseErrorV>> {
    let items_s = entry_items_part(e);
    let protos = entry_protocols(entry_proto_part(e));
    if items_s.len() == 0 {
        seq![Err(ParseErrorV::PortsSectionEmpty)]
    } else {
        split_on(items_s, ',').map_values(|it: Seq<char>| item_result(it, protos))
    }
}

/// What a whole ports field yields: the results of all its entries,
/// concatenated in order.
pub open spec fn ports_results(f: Seq<char>) -> Seq<Result<UfwPortV, ParseErrorV>> {
    split_on(f, '|').flat_map(|e: Seq<char>| entry_results(e))
}

// ---------------------------------------------------------------------------
// The executable ports parser
// ---------------------------------------------------------------------------
/// Builds the protocol list an entry's suffix dictates.
fn build_protocols(proto: Option<&[char]>) -> (r: Vec<ParseResult<Protocol>>)
    ensures
        protocol_results_view(r@) =~= entry_protocols(
            match proto {
                Some(p) => Some(p@),
                None => None,
            },
        ),
{
    match proto {
        None => {
            let mut v: Vec<ParseResult<Protocol>> = Vec::new();
            v.push(Ok(Protocol::TCP));
            v.push(Ok(Protocol::UDP));
            v
        },
        Some(p) => {
            let mut v: Vec<ParseResult<Protocol>> = Vec::new();
            v.push(protocol_from_chars(p));
            v
        },
    }
}

/// Reads one item under the given protocols.
fn parse_port_item(it: &[char], proto: Option<&[char]>) -> (r: ParseResult<UfwPort>)
    ensures
        view_result(r) == item_result(
            it@,
            entry_protocols(
                match proto {
                    Some(p) => Some(p@),
                    None => None,
                },
            ),
        ),
{
    proof {
        lemma_find_first(it@, ':');
    }
    let ghost protos = entry_protocols(
        match proto {
            Some(p) => Some(p@),
            None => None,
        },
    );
    match find_char(it, ':') {
        None => {
            match parse_u16_chars(it) {
                Ok(n) => {
                    let r = UfwPort { number: n, end_number: None, protocols: build_protocols(proto) };
                    proof {
                        assert(r@.protocols =~= protos);
                    }
                    Ok(r)
                },
                Err(_) => Err(ParseError::PortNotANumber(numeral_message(it))),
            }
        },
        Some(i) => {
            let n = it.len();
            let a = &it[0..i];
            let b = &it[i + 1..n];
            proof {
                assert(a@ =~= it@.take(i as int));
                assert(b@ =~= it@.skip(i as int + 1));
            }
            if a.len() == 0 {
                return Err(ParseError::InvalidPortRange(String::from_str(
                    "number before colon hasn't been specified",
                )));
            }
            if b.len() == 0 {
                return Err(ParseError::InvalidPortRange(String::from_str(
                    "number after colon hasn't been specified",
                )));
            }
            let start = match parse_u16_chars(a) {
                Ok(v) => v,
                Err(_) => {
                    let mut m = String::from_str("Cannot parse first number in range: ");
                    m.append(numeral_message(a).as_str());
                    return Err(ParseError::PortNotANumber(m));
                },
            };
            let end = match parse_u16_chars(b) {
                Ok(v) => v,
                Err(_) => {
                    let mut m = String::from_str("Cannot parse second number in range: ");
                    m.append(numeral_message(b).as_str());
                    return Err(ParseError::PortNotANumber(m));
                },
            };
            let r = UfwPort {
                number: start,
                end_number: Some(end),
                protocols: build_protocols(proto),
            };
            proof {
                assert(r@.protocols =~= protos);
            }
            Ok(r)
        },
    }
}

/// The message for a token that would not read as a port number.
pub(crate) fn numeral_message(s: &[char]) -> (r: String)
    ensures
        r@ == numeral_error_text(s@),
{
    match parse_u16_chars(s) {
        Err(NumeralError::NotNumeric) => String::from_str("invalid digit found in string"),
        _ => String::from_str("number too large to fit in target type"),
    }
}

/// One item of an application profile, with what it parses to.
#[derive(Debug)]
pub struct ApplicationEntry {
    pub name: String,
    pub title: String,
    pub description: String,
    pub ports: Vec<ParseResult<UfwPort>>,
}

/// The mathematical value of an [`ApplicationEntry`].
pub struct ApplicationEntryV {
    pub name: Seq<char>,
    pub title: Seq<char>,
    pub description: Seq<char>,
    pub ports: Seq<Result<UfwPortV, ParseErrorV>>,
}

impl View for ApplicationEntry {
    type V = ApplicationEntryV;

    open spec fn view(&self) -> ApplicationEntryV {
        ApplicationEntryV {
            name: self.name@,
            title: self.title@,
            description: self.description@,
            ports: view_results(self.ports@),
        }
    }
}

impl ApplicationEntry {
    /// Reads one entry of a ports field: the items before the last `/`,
    /// under the protocols its suffix names.  Returns one result per item,
    /// in order.
    pub fn parse_ports(entry: &str) -> (r: Vec<ParseResult<UfwPort>>)
        ensures
            view_results(r@) =~= entry_results(entry@),
            r@.len() >= 1,
    {
        let ec = str_chars(entry);
        let e = ec.as_slice();
        proof {
            lemma_find_last(e@, '/');
        }
        let n = e.len();
        let (items_sl, proto): (&[char], Option<&[char]>) = match find_char_last(e, '/') {
            None => (e, None),
            Some(p) => (&e[0..p], Some(&e[p + 1..n])),
        };
        proof {
            assert(items_sl@ =~= entry_items_part(e@));
            match entry_proto_part(e@) {
                Some(pp) => {
                    assert(proto matches Some(p) && p@ =~= pp);
                },
                None => {
                    assert(proto is None);
                },
            }
        }
        let mut out: Vec<ParseResult<UfwPort>> = Vec::new();
        if items_sl.len() == 0 {
            out.push(Err(ParseError::PortsSectionEmpty));
            proof {
                assert(view_results(out@) =~= entry_results(entry@));
            }
            return out;
        }
        let items = split_char(items_sl, ',');
        let ghost its = split_on(items_sl@, ',');
        let ghost protos = entry_protocols(entry_proto_part(e@));
        let mut i: usize = 0;
        while i < items.len()
            invariant
                0 <= i <= items.len(),
                items.deep_view() =~~= its,
                its == split_on(entry_items_part(entry@), ','),
                protos == entry_protocols(entry_proto_part(entry@)),
                entry_items_part(entry@).len() > 0,
                (match proto {
                    Some(p) => Some(p@),
                    None => None,
                }) == entry_proto_part(entry@),
                out@.len() == i,
                forall|j: int|
                    0 <= j < i ==> view_result(#[trigger] out@[j]) == item_result(its[j], protos),
            decreases items.len() - i,
        {
            let item = &items[i];
            proof {
                assert(its[i as int] == item@);
            }
            out.push(parse_port_item(item.as_slice(), proto));
            i += 1;
        }
        proof {
            assert(view_results(out@) =~= its.map_values(|it: Seq<char>| item_result(it, protos)));
            assert(view_results(out@) =~= entry_results(entry@));
            crate::text::lemma_split_on_len(items_sl@, ',');
        }
        out
    }
}

// ---------------------------------------------------------------------------
// The profile builder
// ---------------------------------------------------------------------------
/// The view of one key-to-value pair of a profile section.
pub open spec fn kv_view(kv: (String, Option<String>)) -> (Seq<char>, Option<Seq<char>>) {
    (
        kv.0@,
        match kv.1 {
            Some(s) => Some(s@),
            None => None,
        },
    )
}

/// The view of a whole section's pairs.
pub open spec fn kvs_view(s: Seq<(String, Option<String>)>) -> Seq<
    (Seq<char>, Option<Seq<char>>),
> {
    s.map_values(|kv: (String, Option<String>)| kv_view(kv))
}

/// The position of the first pair with the given key, if any.
pub open spec fn key_index(kvs: Seq<(Seq<char>, Option<Seq<char>>)>, key: Seq<char>) -> Option<int>
    decreases kvs.len(),
{
    if kvs.len() == 0 {
        None
    } else if kvs[0].0 == key {
        Some(0)
    } else {
        match key_index(kvs.drop_first(), key) {
            None => None,
            Some(i) => Some(i + 1),
        }
    }
}

pub proof fn lemma_key_index(kvs: Seq<(Seq<char>, Option<Seq<char>>)>, key: Seq<char>)
    ensures
        match key_index(kvs, key) {
            Some(i) => 0 <= i < kvs.len() && kvs[i].0 == key && forall|j: int|
                0 <= j < i ==> kvs[j].0 != key,
            None => forall|j: int| 0 <= j < kvs.len() ==> kvs[j].0 != key,
        },
    decreases kvs.len(),
{
    if kvs.len() > 0 && kvs[0].0 != key {
        lemma_key_index(kvs.drop_first(), key);
        match key_index(kvs, key) {
            Some(i) => {
                assert(kvs.drop_first()[i - 1] == kvs[i]);
                assert forall|j: int| 0 <= j < i implies kvs[j].0 != key by {
                    if j > 0 {
                        assert(kvs.drop_first()[j - 1] == kvs[j]);
                    }
                }
            },
            None => {
                assert forall|j: int| 0 <= j < kvs.len() implies kvs[j].0 != key by {
                    if j > 0 {
                        assert(kvs.drop_first()[j - 1] == kvs[j]);
                    }
                }
            },
        }
    }
}

/// The value stored under the given key: nothing when the key is absent,
/// the possibly null value of its first pair otherwise.
pub open spec fn field_of(kvs: Seq<(Seq<char>, Option<Seq<char>>)>, key: Seq<char>) -> Option<
    Option<Seq<char>>,
> {
    match key_index(kvs, key) {
        None => None,
        Some(i) => Some(kvs[i].1),
    }
}

/// Looks the key up among the pairs, returning a copy of its value.
fn get_field(values: &[(String, Option<String>)], key: &str) -> (r: Option<Option<String>>)
    ensures
        r is None <==> field_of(kvs_view(values@), key@) is None,
        r matches Some(v) ==> field_of(kvs_view(values@), key@) == Some(
            match v {
                Some(s) => Some(s@),
                None => None::<Seq<char>>,
            },
        ),
{
    let ghost kvs = kvs_view(values@);
    proof {
        lemma_key_index(kvs, key@);
    }
    let kc = str_chars(key);
    let mut i: usize = 0;
    while i < values.len()
        invariant
            0 <= i <= values@.len(),
            kvs == kvs_view(values@),
            kc@ == key@,
            forall|j: int| 0 <= j < i ==> kvs[j].0 != key@,
            match key_index(kvs, key@) {
                Some(k) => 0 <= k < kvs.len() && kvs[k].0 == key@ && forall|j: int|
                    0 <= j < k ==> kvs[j].0 != key@,
                None => forall|j: int| 0 <= j < kvs.len() ==> kvs[j].0 != key@,
            },
        decreases values@.len() - i,
    {
        let pair = &values[i];
        proof {
            assert(kvs[i as int] == kv_view(values@[i as int]));
        }
        let pc = str_chars(pair.0.as_str());
        if chars_eq(pc.as_slice(), kc.as_slice()) {
            proof {
                let k = key_index(kvs, key@);
                if k is Some {
                    assert(!(k->0 < i as int));
                    assert(!(k->0 > i as int));
                }
            }
            let v: Option<String> = match &pair.1 {
                Some(s) => Some(s.clone()),
                None => None,
            };
            return Some(v);
        }
        i += 1;
    }
    None
}

/// What building one profile entry yields: the first missing or null field
/// fails it; otherwise every ports item is kept, good or bad, and a field
/// yielding no items at all is refused.
pub open spec fn spec_entry_parse(
    name: Seq<char>,
    kvs: Seq<(Seq<char>, Option<Seq<char>>)>,
) -> Result<ApplicationEntryV, ParseErrorV> {
    match field_of(kvs, "title"@) {
        None => Err(ParseErrorV::MissingTitle),
        Some(None) => Err(ParseErrorV::MissingTitle),
        Some(Some(title)) => match field_of(kvs, "description"@) {
            None => Err(ParseErrorV::MissingDescription),
            Some(None) => Err(ParseErrorV::MissingDescription),
            Some(Some(description)) => match field_of(kvs, "ports"@) {
                None => Err(ParseErrorV::MissingPorts),
                Some(None) => Err(ParseErrorV::MissingPorts),
                Some(Some(ports)) => {
                    let results = ports_results(ports);
                    if results.len() == 0 {
                        Err(ParseErrorV::EmptyPortsSection)
                    } else {
                        Ok(
                            ApplicationEntryV {
                                name: name,
                                title: title,
                                description: description,
                                ports: results,
                            },
                        )
                    }
                },
            },
        },
    }
}

impl ApplicationEntry {
    /// Builds one profile entry from its name and its section's pairs.
    pub fn parse(entry_key: &str, values: &[(String, Option<String>)]) -> (r: ParseResult<
        ApplicationEntry,
    >)
        ensures
            view_result(r) == spec_entry_parse(entry_key@, kvs_view(values@)),
    {
        let title = match get_field(values, "title") {
            None => {
                return Err(ParseError::MissingTitle);
            },
            Some(None) => {
                return Err(ParseError::MissingTitle);
            },
            Some(Some(t)) => t,
        };
        let description = match get_field(values, "description") {
            None => {
                return Err(ParseError::MissingDescription);
            },
            Some(None) => {
                return Err(ParseError::MissingDescription);
            },
            Some(Some(d)) => d,
        };
        let ports_value = match get_field(values, "ports") {
            None => {
                return Err(ParseError::MissingPorts);
            },
            Some(None) => {
                return Err(ParseError::MissingPorts);
            },
            Some(Some(p)) => p,
        };
        let pv = str_chars(ports_value.as_str());
        let chunks = split_char(pv.as_slice(), '|');
        let ghost es = split_on(ports_value@, '|');
        let ghost f = |e: Seq<char>| entry_results(e);
        let mut ports: Vec<ParseResult<UfwPort>> = Vec::new();
        proof {
            assert(es.take(0).flat_map(f) =~= Seq::<Result<UfwPortV, ParseErrorV>>::empty());
        }
        let mut i: usize = 0;
        while i < chunks.len()
            invariant
                0 <= i <= chunks.len(),
                chunks.deep_view() =~~= es,
                es == split_on(ports_value@, '|'),
                f == (|e: Seq<char>| entry_results(e)),
                view_results(ports@) =~~= es.take(i as int).flat_map(f),
            decreases chunks.len() - i,
        {
            let chunk = &chunks[i];
            proof {
                assert(es[i as int] == chunk@);
            }
            let cs = chars_to_string(chunk.as_slice());
            let mut items = Self::parse_ports(cs.as_str());
            let ghost old_ports = ports@;
            let ghost new_items = items@;
            ports.append(&mut items);
            proof {
                es.lemma_flat_map_take_append(f, i as int);
                assert(view_results(old_ports + new_items) =~~= view_results(old_ports)
                    + view_results(new_items));
                assert(view_results(ports@) =~~= es.take(i as int + 1).flat_map(f));
            }
            i += 1;
        }
        proof {
            assert(es.take(es.len() as int) =~= es);
            assert(view_results(ports@) =~~= ports_results(ports_value@));
        }
        if ports.len() == 0 {
            return Err(ParseError::EmptyPortsSection);
        }
        let r = ApplicationEntry {
            name: entry_key.to_owned(),
            title: title,
            description: description,
            ports: ports,
        };
        Ok(r)
    }
}

/// One parsed profile document: where it came from, and one result per
/// section, in order.
#[derive(Debug)]
pub struct Application {
    pub filepath: String,
    pub entries: Vec<ParseResult<ApplicationEntry>>,
}

/// The mathematical value of an [`Application`].
pub struct ApplicationV {
    pub filepath: Seq<char>,
    pub entries: Seq<Result<ApplicationEntryV, ParseErrorV>>,
}

impl View for Application {
    type V = ApplicationV;

    open spec fn view(&self) -> ApplicationV {
        ApplicationV { filepath: self.filepath@, entries: view_results(self.entries@) }
    }
}

/// The view of one named section with its pairs.
pub open spec fn section_view(s: (String, Vec<(String, Option<String>)>)) -> (
    Seq<char>,
    Seq<(Seq<char>, Option<Seq<char>>)>,
) {
    (s.0@, kvs_view(s.1@))
}

/// The view of a whole document's sections.
pub open spec fn sections_view(ss: Seq<(String, Vec<(String, Option<String>)>)>) -> Seq<
    (Seq<char>, Seq<(Seq<char>, Option<Seq<char>>)>),
> {
    ss.map_values(|s: (String, Vec<(String, Option<String>)>)| section_view(s))
}

/// What parsing a whole document yields: one entry result per section,
/// in order, each built independently.
pub open spec fn spec_parse_file(
    path: Seq<char>,
    sections: Seq<(Seq<char>, Seq<(Seq<char>, Option<Seq<char>>)>)>,
) -> ApplicationV {
    ApplicationV {
        filepath: path,
        entries: sections.map_values(
            |s: (Seq<char>, Seq<(Seq<char>, Option<Seq<char>>)>)| spec_entry_parse(s.0, s.1),
        ),
    }
}

impl Application {
    /// Builds a profile from a document's already loaded sections: the
    /// caller reads the file and hands over its name-to-pairs sections.
    /// Every section yields its own result; none is dropped.
    pub fn parse_file(
        filepath: &str,
        sections: &[(String, Vec<(String, Option<String>)>)],
    ) -> (r: ParseResult<Application>)
        ensures
            r matches Ok(a) && a@ == spec_parse_file(filepath@, sections_view(sections@)),
    {
        let ghost model = sections_view(sections@);
        let mut entries: Vec<ParseResult<ApplicationEntry>> = Vec::new();
        let mut i: usize = 0;
        while i < sections.len()
            invariant
                0 <= i <= sections@.len(),
                model == sections_view(sections@),
                entries@.len() == i,
                forall|j: int|
                    0 <= j < i ==> view_result(#[trigger] entries@[j]) == spec_entry_parse(
                        model[j].0,
                        model[j].1,
                    ),
            decreases sections@.len() - i,
        {
            let section = &sections[i];
            entries.push(ApplicationEntry::parse(section.0.as_str(), section.1.as_slice()));
            i += 1;
        }
        let a = Application { filepath: filepath.to_owned(), entries: entries };
        proof {
            assert(view_results(a.entries@) =~~= spec_parse_file(
                filepath@,
                sections_view(sections@),
            ).entries);
        }
        Ok(a)
    }
}

} // verus!
