//! The rule-line grammar: one firewall rule as a line of text, read into
//! a closed tagged-union parse tree and folded into a typed [`Line`].
//!
//! The grammar of a line, tolerant of extra spaces, is
//! `line := index element* EOI` with `index := '[' DIGITS ']'`, where the
//! space-separated elements are: `on <name>` naming the interface, `(v6)`
//! marking the address family, `ALLOW`/`DENY` with an optional `IN`/`OUT`
//! as the action, a port with an optional `/protocol` suffix, or an
//! address with an optional `/cidr` or `/cidr/protocol` suffix.  Address
//! runs before the first marker or action populate the destination;
//! everything after populates the source.  A line without the bracketed
//! index or the action keyword is refused whole; a bad value inside an
//! element is kept as that element's error and fails the line only when
//! the tree is folded.
use vstd::prelude::*;

use crate::addr::{ip_of, is_ip, IpAddress};
use crate::text::{
    all_digits, chars_eq, chars_to_string, dec_val, digits_run, is_digit, is_u16_numeral,
    is_u8_numeral, parse_u16_chars, spaces_run, split_on, str_chars, words,
};
use crate::{result_matches, ParseError, ParseErrorV, ParseResult};

verus! {

// ---------------------------------------------------------------------------
// Keywords and primitive values
// ---------------------------------------------------------------------------
/// A protocol a rule line can carry; `ANY` stands for an absent suffix.
#[derive(Clone, Copy, Debug, PartialEq, Eq, Structural)]
pub enum Protocol {
    TCP,
    UDP,
    ANY,
}

/// What a rule does with the traffic it matches.
#[derive(Clone, Copy, Debug, PartialEq, Eq, Structural)]
pub enum Modifier {
    ALLOW,
    DENY,
}

/// The direction a rule speaks of; absent means both.
#[derive(Clone, Copy, Debug, PartialEq, Eq, Structural)]
pub enum Direction {
    IN,
    OUT,
    BOTH,
}

/// What reading a rule-line protocol yields: `tcp`, `udp`, or the empty
/// suffix standing for any.
pub open spec fn spec_line_protocol(s: Seq<char>) -> Result<Protocol, ParseErrorV> {
    if s == "tcp"@ {
        Ok(Protocol::TCP)
    } else if s == "udp"@ {
        Ok(Protocol::UDP)
    } else if s.len() == 0 {
        Ok(Protocol::ANY)
    } else {
        Err(ParseErrorV::InvalidProtocol(s))
    }
}

/// The text a protocol renders to.
pub open spec fn protocol_text(p: Protocol) -> Seq<char> {
    match p {
        Protocol::TCP => "tcp"@,
        Protocol::UDP => "udp"@,
        Protocol::ANY => "ANY"@,
    }
}

/// Reads a rule-line protocol from characters.
pub(crate) fn line_protocol_from_chars(s: &[char]) -> (r: ParseResult<Protocol>)
    ensures
        result_matches(r, spec_line_protocol(s@)),
{
    if chars_eq(s, str_chars("tcp").as_slice()) {
        Ok(Protocol::TCP)
    } else if chars_eq(s, str_chars("udp").as_slice()) {
        Ok(Protocol::UDP)
    } else if s.len() == 0 {
        proof {
            assert(s@ =~= Seq::<char>::empty());
        }
        Ok(Protocol::ANY)
    } else {
        Err(ParseError::InvalidProtocol(chars_to_string(s)))
    }
}

impl Protocol {
    /// Reads a rule-line protocol token.
    pub fn try_from(value: &str) -> (r: ParseResult<Protocol>)
        ensures
            result_matches(r, spec_line_protocol(value@)),
    {
        let vc = str_chars(value);
        line_protocol_from_chars(vc.as_slice())
    }

    /// The name the protocol renders to.
    pub fn text(&self) -> (r: String)
        ensures
            r@ == protocol_text(*self),
    {
        match self {
            Protocol::TCP => String::from_str("tcp"),
            Protocol::UDP => String::from_str("udp"),
            Protocol::ANY => String::from_str("ANY"),
        }
    }
}

/// What reading a modifier keyword yields, case-sensitively.
pub open spec fn spec_modifier(s: Seq<char>) -> Result<Modifier, ParseErrorV> {
    if s == "ALLOW"@ {
        Ok(Modifier::ALLOW)
    } else if s == "DENY"@ {
        Ok(Modifier::DENY)
    } else {
        Err(ParseErrorV::WrongRuleType(s))
    }
}

/// Reads a modifier keyword from characters.
pub(crate) fn modifier_from_chars(s: &[char]) -> (r: ParseResult<Modifier>)
    ensures
        result_matches(r, spec_modifier(s@)),
{
    if chars_eq(s, str_chars("ALLOW").as_slice()) {
        Ok(Modifier::ALLOW)
    } else if chars_eq(s, str_chars("DENY").as_slice()) {
        Ok(Modifier::DENY)
    } else {
        Err(ParseError::WrongRuleType(chars_to_string(s)))
    }
}

impl Modifier {
    /// Reads a modifier keyword.
    pub fn try_from(value: &str) -> (r: ParseResult<Modifier>)
        ensures
            result_matches(r, spec_modifier(value@)),
    {
        let vc = str_chars(value);
        modifier_from_chars(vc.as_slice())
    }
}

/// What reading an optional direction keyword yields: absence and the
/// empty token both mean both directions.
pub open spec fn spec_direction(v: Option<Seq<char>>) -> Result<Direction, ParseErrorV> {
    match v {
        None => Ok(Direction::BOTH),
        Some(s) => if s == "OUT"@ {
            Ok(Direction::OUT)
        } else if s == "IN"@ {
            Ok(Direction::IN)
        } else if s.len() == 0 {
            Ok(Direction::BOTH)
        } else {
            Err(ParseErrorV::WrongRuleDirection(s))
        },
    }
}

impl Direction {
    /// Reads an optional direction keyword.
    pub fn try_from(value: Option<&str>) -> (r: ParseResult<Direction>)
        ensures
            result_matches(
                r,
                spec_direction(
                    match value {
                        Some(s) => Some(s@),
                        None => None,
                    },
                ),
            ),
    {
        match value {
            None => Ok(Direction::BOTH),
            Some(s) => {
                let sc = str_chars(s);
                if chars_eq(sc.as_slice(), str_chars("OUT").as_slice()) {
                    Ok(Direction::OUT)
                } else if chars_eq(sc.as_slice(), str_chars("IN").as_slice()) {
                    Ok(Direction::IN)
                } else if sc.len() == 0 {
                    proof {
                        assert(sc@ =~= Seq::<char>::empty());
                    }
                    Ok(Direction::BOTH)
                } else {
                    Err(ParseError::WrongRuleDirection(s.to_owned()))
                }
            },
        }
    }
}

/// What reading a port-with-protocol token yields: the value before the
/// first `/` as a port, what follows it as the protocol.
pub open spec fn spec_portp(t: Seq<char>) -> Result<(u16, Protocol), ParseErrorV> {
    let segs = split_on(t, '/');
    let head = segs[0];
    if !is_u16_numeral(head) {
        Err(
            ParseErrorV::PortNotANumber(
                "port must be >= 0 && <= 65535: "@ + crate::application::numeral_error_text(head),
            ),
        )
    } else {
        let proto = if segs.len() >= 2 {
            spec_line_protocol(segs[1])
        } else {
            Ok(Protocol::ANY)
        };
        match proto {
            Err(e) => Err(e),
            Ok(p) => Ok((dec_val(head) as u16, p)),
        }
    }
}

/// Reads a `port(/protocol)?` token.
pub fn parse_portp(s: &str) -> (r: ParseResult<(u16, Protocol)>)
    ensures
        result_matches(r, spec_portp(s@)),
{
    let sc = str_chars(s);
    portp_from_chars(sc.as_slice())
}

/// Reads a `port(/protocol)?` token from characters.
pub(crate) fn portp_from_chars(t: &[char]) -> (r: ParseResult<(u16, Protocol)>)
    ensures
        result_matches(r, spec_portp(t@)),
{
    let segs = crate::text::split_char(t, '/');
    let ghost sv = split_on(t@, '/');
    proof {
        assert(sv[0] == segs@[0]@);
    }
    let head = &segs[0];
    let port = match parse_u16_chars(head.as_slice()) {
        Ok(v) => v,
        Err(_) => {
            let mut m = String::from_str("port must be >= 0 && <= 65535: ");
            m.append(crate::application::numeral_message(head.as_slice()).as_str());
            return Err(ParseError::PortNotANumber(m));
        },
    };
    if segs.len() >= 2 {
        proof {
            assert(sv[1] == segs@[1]@);
        }
        match line_protocol_from_chars(segs[1].as_slice()) {
            Err(e) => Err(e),
            Ok(p) => Ok((port, p)),
        }
    } else {
        Ok((port, Protocol::ANY))
    }
}

/// What reading a prefix-length token yields: a number of at most 32.
pub open spec fn spec_cidr(s: Seq<char>) -> Result<u8, ParseErrorV> {
    if !is_u8_numeral(s) {
        Err(ParseErrorV::InvalidCidr(crate::application::numeral_error_text(s)))
    } else if dec_val(s) > 32 {
        Err(ParseErrorV::InvalidCidr("cidr must be >= 0 && <= 32"@))
    } else {
        Ok(dec_val(s) as u8)
    }
}

/// Reads a prefix-length token.
pub fn parse_cidr(s: &str) -> (r: ParseResult<u8>)
    ensures
        result_matches(r, spec_cidr(s@)),
{
    let sc = str_chars(s);
    cidr_from_chars(sc.as_slice())
}

/// Reads a prefix-length token from characters.
pub(crate) fn cidr_from_chars(s: &[char]) -> (r: ParseResult<u8>)
    ensures
        result_matches(r, spec_cidr(s@)),
{
    match parse_u16_chars(s) {
        Ok(v) => {
            if v > 255 {
                return Err(ParseError::InvalidCidr(crate::application::numeral_message(s)));
            }
            if v > 32 {
                return Err(ParseError::InvalidCidr(String::from_str("cidr must be >= 0 && <= 32")));
            }
            Ok(v as u8)
        },
        Err(_) => Err(ParseError::InvalidCidr(crate::application::numeral_message(s))),
    }
}

// ---------------------------------------------------------------------------
// The parse tree and the typed line
// ---------------------------------------------------------------------------
/// One address side of a rule: what the walked elements filled in.
#[derive(Clone, Copy, Debug, PartialEq, Eq, Structural)]
pub struct Address {
    pub addr: Option<IpAddress>,
    pub cidr: Option<u8>,
    pub port: Option<u16>,
    pub protocol: Protocol,
}

/// What assembling an address from its gathered parts yields: a port with
/// no written address falls back to the unspecified address, an absent
/// protocol to any.
pub open spec fn spec_address_parts(
    v: (Option<IpAddress>, Option<u16>, Option<u8>, Option<Protocol>),
) -> Address {
    Address {
        addr: if v.0 is None && v.1 is Some {
            Some(IpAddress::V4(0, 0, 0, 0))
        } else {
            v.0
        },
        cidr: v.2,
        port: v.1,
        protocol: match v.3 {
            Some(p) => p,
            None => Protocol::ANY,
        },
    }
}

impl Address {
    /// Assembles an address from its gathered parts.
    pub fn from(v: (Option<IpAddress>, Option<u16>, Option<u8>, Option<Protocol>)) -> (r: Address)
        ensures
            r == spec_address_parts(v),
    {
        let (addr, port, cidr, proto) = v;
        let filled: Option<IpAddress> = match (addr, port) {
            (None, Some(_)) => Some(IpAddress::V4(0, 0, 0, 0)),
            (a, _) => a,
        };
        Address {
            addr: filled,
            cidr: cidr,
            port: port,
            protocol: match proto {
                Some(p) => p,
                None => Protocol::ANY,
            },
        }
    }
}

/// One node of the parse tree: each grammar rule reduces to exactly one
/// of these, value errors kept inside the node.
#[derive(Debug)]
pub enum Element {
    Index(u16),
    Ipv4Address(ParseResult<IpAddress>),
    Address(ParseResult<IpAddress>),
    Protocol(ParseResult<Protocol>),
    PortProtocol(ParseResult<(u16, Protocol)>),
    ToFrom(Vec<Element>),
    Port(ParseResult<u16>),
    Device(String),
    V6,
    Action(ParseResult<Modifier>, ParseResult<Direction>),
    Modifier(ParseResult<Modifier>),
    Direction(ParseResult<Direction>),
    CIDR(ParseResult<u8>),
    CIDRProto(ParseResult<u8>, ParseResult<Protocol>),
    END,
}

/// The mathematical value of an [`Element`].
pub enum ElementV {
    Index(u16),
    Ipv4Address(Result<IpAddress, ParseErrorV>),
    Address(Result<IpAddress, ParseErrorV>),
    Protocol(Result<Protocol, ParseErrorV>),
    PortProtocol(Result<(u16, Protocol), ParseErrorV>),
    ToFrom(Seq<ElementV>),
    Port(Result<u16, ParseErrorV>),
    Device(Seq<char>),
    V6,
    Action(Result<Modifier, ParseErrorV>, Result<Direction, ParseErrorV>),
    Modifier(Result<Modifier, ParseErrorV>),
    Direction(Result<Direction, ParseErrorV>),
    CIDR(Result<u8, ParseErrorV>),
    CIDRProto(Result<u8, ParseErrorV>, Result<Protocol, ParseErrorV>),
    END,
}

broadcast use vstd::std_specs::vec::group_vec_axioms;

/// The mathematical value of one parse-tree node, the children of a group
/// taken recursively.
pub open spec fn element_view(e: Element) -> ElementV
    decreases e, 0int,
{
    match e {
        Element::Index(i) => ElementV::Index(i),
        Element::Ipv4Address(r) => ElementV::Ipv4Address(err_view_ip(r)),
        Element::Address(r) => ElementV::Address(err_view_ip(r)),
        Element::Protocol(r) => ElementV::Protocol(err_view_proto(r)),
        Element::PortProtocol(r) => ElementV::PortProtocol(err_view_portp(r)),
        Element::ToFrom(v) => ElementV::ToFrom(element_vec_view(v, 0)),
        Element::Port(r) => ElementV::Port(err_view_port(r)),
        Element::Device(s) => ElementV::Device(s@),
        Element::V6 => ElementV::V6,
        Element::Action(m, d) => ElementV::Action(err_view_mod(m), err_view_dir(d)),
        Element::Modifier(m) => ElementV::Modifier(err_view_mod(m)),
        Element::Direction(d) => ElementV::Direction(err_view_dir(d)),
        Element::CIDR(c) => ElementV::CIDR(err_view_u8(c)),
        Element::CIDRProto(c, p) => ElementV::CIDRProto(err_view_u8(c), err_view_proto(p)),
        Element::END => ElementV::END,
    }
}

/// The values of a group's children from position `i` on.
pub open spec fn element_vec_view(v: Vec<Element>, i: int) -> Seq<ElementV>
    decreases v, v@.len() - i,
    when 0 <= i <= v@.len()
{
    if i >= v@.len() {
        Seq::empty()
    } else {
        seq![element_view(v[i])] + element_vec_view(v, i + 1)
    }
}

impl View for Element {
    type V = ElementV;

    open spec fn view(&self) -> ElementV {
        element_view(*self)
    }
}

/// The mathematical value of an element list.
pub open spec fn elements_view(s: Seq<Element>) -> Seq<ElementV> {
    s.map_values(|e: Element| e@)
}

pub open spec fn err_view_ip(r: ParseResult<IpAddress>) -> Result<IpAddress, ParseErrorV> {
    match r {
        Ok(v) => Ok(v),
        Err(e) => Err(e@),
    }
}

pub open spec fn err_view_proto(r: ParseResult<Protocol>) -> Result<Protocol, ParseErrorV> {
    match r {
        Ok(v) => Ok(v),
        Err(e) => Err(e@),
    }
}

pub open spec fn err_view_portp(r: ParseResult<(u16, Protocol)>) -> Result<
    (u16, Protocol),
    ParseErrorV,
> {
    match r {
        Ok(v) => Ok(v),
        Err(e) => Err(e@),
    }
}

pub open spec fn err_view_port(r: ParseResult<u16>) -> Result<u16, ParseErrorV> {
    match r {
        Ok(v) => Ok(v),
        Err(e) => Err(e@),
    }
}

pub open spec fn err_view_mod(r: ParseResult<Modifier>) -> Result<Modifier, ParseErrorV> {
    match r {
        Ok(v) => Ok(v),
        Err(e) => Err(e@),
    }
}

pub open spec fn err_view_dir(r: ParseResult<Direction>) -> Result<Direction, ParseErrorV> {
    match r {
        Ok(v) => Ok(v),
        Err(e) => Err(e@),
    }
}

pub open spec fn err_view_u8(r: ParseResult<u8>) -> Result<u8, ParseErrorV> {
    match r {
        Ok(v) => Ok(v),
        Err(e) => Err(e@),
    }
}

/// One fully reduced rule line.  The action is kept as the parse-tree
/// node that set it; a walk that saw no action element leaves the family
/// marker there as a sentinel, which only a direct fold of a handmade
/// element list can observe, since the tokenizer refuses a line without
/// an action keyword.
#[derive(Debug)]
pub struct Line {
    pub index: u16,
    pub to: Address,
    pub v6: bool,
    pub action: Element,
    pub device: Option<String>,
    pub from: Address,
}

/// The mathematical value of a [`Line`].
pub struct LineV {
    pub index: u16,
    pub to: Address,
    pub v6: bool,
    pub action: ElementV,
    pub device: Option<Seq<char>>,
    pub from: Address,
}

impl View for Line {
    type V = LineV;

    open spec fn view(&self) -> LineV {
        LineV {
            index: self.index,
            to: self.to,
            v6: self.v6,
            action: self.action@,
            device: match self.device {
                Some(s) => Some(s@),
                None => None,
            },
            from: self.from,
        }
    }
}

impl Line {
    /// A line from its finished parts.
    pub fn new(
        index: u16,
        to: Address,
        v6: bool,
        action: Element,
        device: Option<String>,
        from: Address,
    ) -> (r: Line)
        ensures
            r.index == index && r.to == to && r.v6 == v6 && r.device == device && r.from == from
                && r.action == action,
    {
        Line { index, to, v6, action, device, from }
    }
}

/// A group's child values are the values of its children.
pub proof fn lemma_element_vec_view(v: Vec<Element>, i: int)
    requires
        0 <= i <= v@.len(),
    ensures
        element_vec_view(v, i) =~~= elements_view(v@.skip(i)),
    decreases v@.len() - i,
{
    if i < v@.len() {
        lemma_element_vec_view(v, i + 1);
        assert(v@.skip(i)[0] == v@[i]);
        assert(v@.skip(i).drop_first() =~= v@.skip(i + 1));
        assert(elements_view(v@.skip(i)) =~~= seq![element_view(v@[i])] + elements_view(
            v@.skip(i + 1),
        ));
    } else {
        assert(elements_view(v@.skip(i)) =~~= Seq::<ElementV>::empty());
    }
}

// ---------------------------------------------------------------------------
// The reducer
// ---------------------------------------------------------------------------
/// Which side of the rule the walk is currently filling.
#[derive(Clone, Copy, Debug, PartialEq, Eq, Structural)]
pub enum FillTarget {
    PopulatingDestination,
    PopulatingSource,
}

/// One side's gathered parts: address, port, prefix length, protocol.
pub type SideParts = (Option<IpAddress>, Option<u16>, Option<u8>, Option<Protocol>);

/// The reducer's state: the side being filled, and everything gathered.
pub struct ReduceStateV {
    pub target: FillTarget,
    pub index: u16,
    pub to: SideParts,
    pub action: ElementV,
    pub v6: bool,
    pub device: Option<Seq<char>>,
    pub from: SideParts,
}

/// The state the walk starts from: filling the destination, rule number
/// zero, no device and no action seen.
pub open spec fn init_reduce_state() -> ReduceStateV {
    ReduceStateV {
        target: FillTarget::PopulatingDestination,
        index: 0,
        to: (None, None, None, None),
        action: ElementV::V6,
        v6: false,
        device: None,
        from: (None, None, None, None),
    }
}

/// The parts of the side currently being filled.
pub open spec fn cur_side(st: ReduceStateV) -> SideParts {
    match st.target {
        FillTarget::PopulatingDestination => st.to,
        FillTarget::PopulatingSource => st.from,
    }
}

/// The state with the current side's parts replaced.
pub open spec fn with_side(st: ReduceStateV, t: SideParts) -> ReduceStateV {
    match st.target {
        FillTarget::PopulatingDestination => ReduceStateV {
            target: st.target,
            index: st.index,
            to: t,
            action: st.action,
            v6: st.v6,
            device: st.device,
            from: st.from,
        },
        FillTarget::PopulatingSource => ReduceStateV {
            target: st.target,
            index: st.index,
            to: st.to,
            action: st.action,
            v6: st.v6,
            device: st.device,
            from: t,
        },
    }
}

/// How one child of a group changes the state: its value lands in the
/// field it names on the side being filled; its error fails the whole
/// line; nodes the grammar never nests inside a group are passed over.
pub open spec fn child_step(st: ReduceStateV, x: ElementV) -> Result<ReduceStateV, ParseErrorV> {
    let side = cur_side(st);
    match x {
        ElementV::Address(r) => match r {
            Err(e) => Err(e),
            Ok(ip) => Ok(with_side(st, (Some(ip), side.1, side.2, side.3))),
        },
        ElementV::PortProtocol(r) => match r {
            Err(e) => Err(e),
            Ok(pp) => Ok(with_side(st, (side.0, Some(pp.0), side.2, Some(pp.1)))),
        },
        ElementV::CIDR(r) => match r {
            Err(e) => Err(e),
            Ok(c) => Ok(with_side(st, (side.0, side.1, Some(c), side.3))),
        },
        ElementV::Protocol(r) => match r {
            Err(e) => Err(e),
            Ok(p) => Ok(with_side(st, (side.0, side.1, side.2, Some(p)))),
        },
        ElementV::CIDRProto(c, p) => match c {
            Err(e) => Err(e),
            Ok(cv) => match p {
                Err(e) => Err(e),
                Ok(pv) => Ok(with_side(st, (side.0, side.1, Some(cv), Some(pv)))),
            },
        },
        ElementV::Port(r) => match r {
            Err(e) => Err(e),
            Ok(pv) => Ok(with_side(st, (side.0, Some(pv), side.2, side.3))),
        },
        _ => Ok(st),
    }
}

/// Folds a group's children in order, stopping at the first error.
pub open spec fn child_fold(st: ReduceStateV, children: Seq<ElementV>) -> Result<
    ReduceStateV,
    ParseErrorV,
>
    decreases children.len(),
{
    if children.len() == 0 {
        Ok(st)
    } else {
        match child_step(st, children[0]) {
            Err(e) => Err(e),
            Ok(st2) => child_fold(st2, children.drop_first()),
        }
    }
}

/// How one top-level element changes the state.  A device, the family
/// marker, or an action flips the walk to the source side for good.
pub open spec fn reduce_step(st: ReduceStateV, e: ElementV) -> Result<ReduceStateV, ParseErrorV> {
    match e {
        ElementV::Index(i) => Ok(
            ReduceStateV {
                target: st.target,
                index: i,
                to: st.to,
                action: st.action,
                v6: st.v6,
                device: st.device,
                from: st.from,
            },
        ),
        ElementV::ToFrom(children) => child_fold(st, children),
        ElementV::Device(dev) => Ok(
            ReduceStateV {
                target: FillTarget::PopulatingSource,
                index: st.index,
                to: st.to,
                action: st.action,
                v6: st.v6,
                device: Some(dev),
                from: st.from,
            },
        ),
        ElementV::V6 => Ok(
            ReduceStateV {
                target: FillTarget::PopulatingSource,
                index: st.index,
                to: st.to,
                action: st.action,
                v6: true,
                device: st.device,
                from: st.from,
            },
        ),
        ElementV::Action(m, d) => match m {
            Err(e) => Err(e),
            Ok(mv) => match d {
                Err(e) => Err(e),
                Ok(dv) => Ok(
                    ReduceStateV {
                        target: FillTarget::PopulatingSource,
                        index: st.index,
                        to: st.to,
                        action: ElementV::Action(Ok(mv), Ok(dv)),
                        v6: st.v6,
                        device: st.device,
                        from: st.from,
                    },
                ),
            },
        },
        _ => Ok(st),
    }
}

/// Folds the top-level elements in order, stopping at the first error.
pub open spec fn reduce_fold(st: ReduceStateV, es: Seq<ElementV>) -> Result<
    ReduceStateV,
    ParseErrorV,
>
    decreases es.len(),
{
    if es.len() == 0 {
        Ok(st)
    } else {
        match reduce_step(st, es[0]) {
            Err(e) => Err(e),
            Ok(st2) => reduce_fold(st2, es.drop_first()),
        }
    }
}

/// What folding a whole element list yields: the walked state, each side
/// assembled into an address; the first error inside any element fails
/// the whole line.
pub open spec fn reduce_elements(es: Seq<ElementV>) -> Result<LineV, ParseErrorV> {
    match reduce_fold(init_reduce_state(), es) {
        Err(e) => Err(e),
        Ok(st) => Ok(
            LineV {
                index: st.index,
                to: spec_address_parts(st.to),
                v6: st.v6,
                action: st.action,
                device: st.device,
                from: spec_address_parts(st.from),
            },
        ),
    }
}

/// The reducer's state as the walk carries it.
struct ReduceState {
    target: FillTarget,
    index: u16,
    to: SideParts,
    action: Element,
    v6: bool,
    device: Option<String>,
    from: SideParts,
}

/// The mathematical value of the walk's state.
spec fn rs_view(st: ReduceState) -> ReduceStateV {
    ReduceStateV {
        target: st.target,
        index: st.index,
        to: st.to,
        action: st.action@,
        v6: st.v6,
        device: match st.device {
            Some(d) => Some(d@),
            None => None,
        },
        from: st.from,
    }
}

/// Applies one child of a group to the state.
fn child_step_exec(st: ReduceState, x: Element) -> (r: Result<ReduceState, ParseError>)
    ensures
        (match r {
            Ok(s2) => child_step(rs_view(st), x@) == Ok::<ReduceStateV, ParseErrorV>(rs_view(s2)),
            Err(e) => child_step(rs_view(st), x@) == Err::<ReduceStateV, ParseErrorV>(e@),
        }),
{
    let mut st = st;
    let side: SideParts = match st.target {
        FillTarget::PopulatingDestination => st.to,
        FillTarget::PopulatingSource => st.from,
    };
    let newside: SideParts;
    match x {
        Element::Address(r) => match r {
            Err(e) => {
                return Err(e);
            },
            Ok(ip) => {
                newside = (Some(ip), side.1, side.2, side.3);
            },
        },
        Element::PortProtocol(r) => match r {
            Err(e) => {
                return Err(e);
            },
            Ok(pp) => {
                newside = (side.0, Some(pp.0), side.2, Some(pp.1));
            },
        },
        Element::CIDR(r) => match r {
            Err(e) => {
                return Err(e);
            },
            Ok(c) => {
                newside = (side.0, side.1, Some(c), side.3);
            },
        },
        Element::Protocol(r) => match r {
            Err(e) => {
                return Err(e);
            },
            Ok(p) => {
                newside = (side.0, side.1, side.2, Some(p));
            },
        },
        Element::CIDRProto(c, p) => match c {
            Err(e) => {
                return Err(e);
            },
            Ok(cv) => match p {
                Err(e) => {
                    return Err(e);
                },
                Ok(pv) => {
                    newside = (side.0, side.1, Some(cv), Some(pv));
                },
            },
        },
        Element::Port(r) => match r {
            Err(e) => {
                return Err(e);
            },
            Ok(pv) => {
                newside = (side.0, Some(pv), side.2, side.3);
            },
        },
        _ => {
            return Ok(st);
        },
    }
    match st.target {
        FillTarget::PopulatingDestination => {
            st.to = newside;
        },
        FillTarget::PopulatingSource => {
            st.from = newside;
        },
    }
    Ok(st)
}

/// Folds a whole group of children into the state.
#[verifier::loop_isolation(false)]
fn fold_children(st: ReduceState, val: Vec<Element>) -> (r: Result<ReduceState, ParseError>)
    ensures
        (match r {
            Ok(s2) => child_fold(rs_view(st), elements_view(val@)) == Ok::<
                ReduceStateV,
                ParseErrorV,
            >(rs_view(s2)),
            Err(e) => child_fold(rs_view(st), elements_view(val@)) == Err::<
                ReduceStateV,
                ParseErrorV,
            >(e@),
        }),
{
    let ghost st0 = rs_view(st);
    let ghost full = elements_view(val@);
    let mut st = st;
    let mut val = val;
    while val.len() > 0
        invariant
            child_fold(st0, full) == child_fold(rs_view(st), elements_view(val@)),
        decreases val@.len(),
    {
        let ghost before = elements_view(val@);
        let ghost stv = rs_view(st);
        let x = val.remove(0);
        proof {
            assert(before[0] == x@);
            assert(before.drop_first() =~~= elements_view(val@));
        }
        match child_step_exec(st, x) {
            Ok(s2) => {
                proof {
                    assert(child_fold(stv, before) == child_fold(
                        rs_view(s2),
                        before.drop_first(),
                    ));
                }
                st = s2;
            },
            Err(e) => {
                proof {
                    assert(child_fold(stv, before) == Err::<ReduceStateV, ParseErrorV>(e@));
                }
                return Err(e);
            },
        }
    }
    proof {
        assert(elements_view(val@) =~~= Seq::<ElementV>::empty());
        assert(child_fold(rs_view(st), elements_view(val@)) == Ok::<ReduceStateV, ParseErrorV>(
            rs_view(st),
        ));
    }
    Ok(st)
}

/// Applies one top-level element to the state.
fn reduce_step_exec(st: ReduceState, e: Element) -> (r: Result<ReduceState, ParseError>)
    ensures
        (match r {
            Ok(s2) => reduce_step(rs_view(st), e@) == Ok::<ReduceStateV, ParseErrorV>(rs_view(s2)),
            Err(e2) => reduce_step(rs_view(st), e@) == Err::<ReduceStateV, ParseErrorV>(e2@),
        }),
{
    let mut st = st;
    match e {
        Element::Index(i) => {
            st.index = i;
            Ok(st)
        },
        Element::ToFrom(val) => {
            proof {
                lemma_element_vec_view(val, 0);
                assert(val@.skip(0) =~= val@);
            }
            fold_children(st, val)
        },
        Element::Device(dev) => {
            st.device = Some(dev);
            st.target = FillTarget::PopulatingSource;
            Ok(st)
        },
        Element::V6 => {
            st.v6 = true;
            st.target = FillTarget::PopulatingSource;
            Ok(st)
        },
        Element::Action(m, d) => match m {
            Err(e2) => Err(e2),
            Ok(mv) => match d {
                Err(e2) => Err(e2),
                Ok(dv) => {
                    st.action = Element::Action(Ok(mv), Ok(dv));
                    st.target = FillTarget::PopulatingSource;
                    Ok(st)
                },
            },
        },
        other => {
            proof {
                assert(reduce_step(rs_view(st), other@) == Ok::<ReduceStateV, ParseErrorV>(
                    rs_view(st),
                ));
            }
            Ok(st)
        },
    }
}

impl Line {
    /// Folds an ordered element list into one typed line: fields route
    /// into the destination until a device, family marker or action is
    /// seen, into the source afterwards; the first error inside any
    /// element fails the whole line.
    #[verifier::loop_isolation(false)]
    pub fn try_from(es: Vec<Element>) -> (r: ParseResult<Line>)
        ensures
            (match r {
                Ok(v) => reduce_elements(elements_view(es@)) == Ok::<LineV, ParseErrorV>(v@),
                Err(e) => reduce_elements(elements_view(es@)) == Err::<LineV, ParseErrorV>(e@),
            }),
    {
        let ghost full = elements_view(es@);
        let mut es = es;
        let mut st = ReduceState {
            target: FillTarget::PopulatingDestination,
            index: 0,
            to: (None, None, None, None),
            action: Element::V6,
            v6: false,
            device: None,
            from: (None, None, None, None),
        };
        proof {
            assert(rs_view(st) == init_reduce_state());
        }
        while es.len() > 0
            invariant
                reduce_fold(init_reduce_state(), full) == reduce_fold(
                    rs_view(st),
                    elements_view(es@),
                ),
            decreases es@.len(),
        {
            let ghost before = elements_view(es@);
            let ghost stv = rs_view(st);
            let e = es.remove(0);
            proof {
                assert(before[0] == e@);
                assert(before.drop_first() =~~= elements_view(es@));
            }
            match reduce_step_exec(st, e) {
                Ok(s2) => {
                    proof {
                        assert(reduce_fold(stv, before) == reduce_fold(
                            rs_view(s2),
                            before.drop_first(),
                        ));
                    }
                    st = s2;
                },
                Err(e2) => {
                    proof {
                        assert(reduce_fold(stv, before) == Err::<ReduceStateV, ParseErrorV>(e2@));
                    }
                    return Err(e2);
                },
            }
        }
        proof {
            assert(elements_view(es@) =~~= Seq::<ElementV>::empty());
            assert(reduce_fold(rs_view(st), elements_view(es@)) == Ok::<
                ReduceStateV,
                ParseErrorV,
            >(rs_view(st)));
        }
        let to = Address::from(st.to);
        let from = Address::from(st.from);
        Ok(Line::new(st.index, to, st.v6, st.action, st.device, from))
    }
}

// ---------------------------------------------------------------------------
// The tokenizer
// ---------------------------------------------------------------------------
/// The tokenizer's state: finished elements, and the address group still
/// being gathered.
pub struct TokStateV {
    pub acc: Seq<ElementV>,
    pub group: Seq<ElementV>,
    pub found_action: bool,
}

/// The state tokenizing starts from.
pub open spec fn init_tok_state() -> TokStateV {
    TokStateV { acc: Seq::empty(), group: Seq::empty(), found_action: false }
}

/// Closes the gathered group, if any, into one group node.
pub open spec fn flush_parts(acc: Seq<ElementV>, group: Seq<ElementV>) -> Seq<ElementV> {
    if group.len() == 0 {
        acc
    } else {
        acc + seq![ElementV::ToFrom(group)]
    }
}

/// The elements one data token contributes: a port with its optional
/// protocol, or an address with its optional prefix and protocol.
pub open spec fn token_data_elements(t: Seq<char>) -> Seq<ElementV> {
    let segs = split_on(t, '/');
    let head = segs[0];
    if head.len() > 0 && all_digits(head) {
        seq![ElementV::PortProtocol(spec_portp(t))]
    } else {
        let a: Result<IpAddress, ParseErrorV> = if is_ip(head) {
            Ok(ip_of(head))
        } else {
            Err(ParseErrorV::RuleLineGrammar(head))
        };
        if segs.len() == 1 {
            seq![ElementV::Address(a)]
        } else if segs.len() == 2 {
            seq![ElementV::Address(a), ElementV::CIDR(spec_cidr(segs[1]))]
        } else {
            seq![
                ElementV::Address(a),
                ElementV::CIDRProto(spec_cidr(segs[1]), spec_line_protocol(segs[2])),
            ]
        }
    }
}

/// Folds the line's words into elements: `on` takes the next word as the
/// interface, `(v6)` marks the family, a modifier with its optional
/// direction becomes the action, and every other word extends the current
/// address group.
pub open spec fn token_fold(toks: Seq<Seq<char>>, st: TokStateV) -> Result<
    (Seq<ElementV>, bool),
    ParseErrorV,
>
    decreases toks.len(),
{
    if toks.len() == 0 {
        Ok((flush_parts(st.acc, st.group), st.found_action))
    } else {
        let t = toks[0];
        if t == "on"@ {
            if toks.len() < 2 {
                Err(ParseErrorV::RuleLineGrammar("device name missing"@))
            } else {
                token_fold(
                    toks.skip(2),
                    TokStateV {
                        acc: flush_parts(st.acc, st.group) + seq![ElementV::Device(toks[1])],
                        group: Seq::empty(),
                        found_action: st.found_action,
                    },
                )
            }
        } else if t == "(v6)"@ {
            token_fold(
                toks.skip(1),
                TokStateV {
                    acc: flush_parts(st.acc, st.group) + seq![ElementV::V6],
                    group: Seq::empty(),
                    found_action: st.found_action,
                },
            )
        } else if spec_modifier(t) is Ok {
            if toks.len() >= 2 && (toks[1] == "OUT"@ || toks[1] == "IN"@) {
                token_fold(
                    toks.skip(2),
                    TokStateV {
                        acc: flush_parts(st.acc, st.group) + seq![
                            ElementV::Action(spec_modifier(t), spec_direction(Some(toks[1]))),
                        ],
                        group: Seq::empty(),
                        found_action: true,
                    },
                )
            } else {
                token_fold(
                    toks.skip(1),
                    TokStateV {
                        acc: flush_parts(st.acc, st.group) + seq![
                            ElementV::Action(spec_modifier(t), Ok(Direction::BOTH)),
                        ],
                        group: Seq::empty(),
                        found_action: true,
                    },
                )
            }
        } else {
            token_fold(
                toks.skip(1),
                TokStateV {
                    acc: st.acc,
                    group: st.group + token_data_elements(t),
                    found_action: st.found_action,
                },
            )
        }
    }
}

/// What tokenizing a whole line yields: the bracketed index, the folded
/// elements, and the end marker; a line without the index shape, with an
/// index that is no port-sized number, or without any action keyword is
/// refused whole.
pub open spec fn spec_tokenize(s: Seq<char>) -> Result<Seq<ElementV>, ParseErrorV> {
    if s.len() == 0 || s[0] != '[' {
        Err(ParseErrorV::RuleLineGrammar(s))
    } else {
        let p = 1 + spaces_run(s, 1);
        let d = digits_run(s, p);
        let q = p + d + spaces_run(s, p + d);
        if d == 0 || q >= s.len() || s[q] != ']' {
            Err(ParseErrorV::RuleLineGrammar(s))
        } else if !is_u16_numeral(s.subrange(p, p + d)) {
            Err(ParseErrorV::RuleLineGrammar(s))
        } else {
            match token_fold(words(s.skip(q + 1)), init_tok_state()) {
                Err(e) => Err(e),
                Ok(pr) => if !pr.1 {
                    Err(ParseErrorV::RuleLineGrammar(s))
                } else {
                    Ok(
                        seq![ElementV::Index(dec_val(s.subrange(p, p + d)) as u16)] + pr.0 + seq![
                            ElementV::END,
                        ],
                    )
                },
            }
        }
    }
}

/// What parsing one rule line yields: its tokenized elements folded into
/// a typed line.
pub open spec fn spec_parse(s: Seq<char>) -> Result<LineV, ParseErrorV> {
    match spec_tokenize(s) {
        Err(e) => Err(e),
        Ok(els) => reduce_elements(els),
    }
}

/// Closes the gathered group into the finished elements.
fn flush_into(acc: &mut Vec<Element>, group: Vec<Element>) -> (r: Vec<Element>)
    ensures
        elements_view(final(acc)@) =~~= flush_parts(
            elements_view(old(acc)@),
            elements_view(group@),
        ),
        r@.len() == 0,
{
    if group.len() > 0 {
        proof {
            lemma_element_vec_view(group, 0);
            assert(group@.skip(0) =~= group@);
        }
        acc.push(Element::ToFrom(group));
    }
    Vec::new()
}

/// Reads one data token into its elements.
fn token_data(t: &[char]) -> (r: Vec<Element>)
    ensures
        elements_view(r@) =~~= token_data_elements(t@),
{
    let segs = crate::text::split_char(t, '/');
    let ghost sv = split_on(t@, '/');
    let head = &segs[0];
    proof {
        assert(sv[0] == head@);
    }
    let run = crate::text::digit_run_from(head.as_slice(), 0);
    proof {
        crate::text::lemma_digits_run(head@, 0);
        if run == head@.len() {
            assert(all_digits(head@));
        } else {
            assert(!is_digit(head@[run as int]));
        }
    }
    let mut v: Vec<Element> = Vec::new();
    if head.len() > 0 && run == head.len() {
        v.push(Element::PortProtocol(portp_from_chars(t)));
        proof {
            assert(elements_view(v@) =~~= token_data_elements(t@));
        }
        return v;
    }
    let a: ParseResult<IpAddress> = match crate::addr::parse_ip(head.as_slice()) {
        Some(ip) => Ok(ip),
        None => Err(ParseError::RuleLineGrammar(chars_to_string(head.as_slice()))),
    };
    v.push(Element::Address(a));
    if segs.len() == 2 {
        proof {
            assert(sv[1] == segs@[1]@);
        }
        v.push(Element::CIDR(cidr_from_chars(segs[1].as_slice())));
    } else if segs.len() >= 3 {
        proof {
            assert(sv[1] == segs@[1]@);
            assert(sv[2] == segs@[2]@);
        }
        v.push(
            Element::CIDRProto(
                cidr_from_chars(segs[1].as_slice()),
                line_protocol_from_chars(segs[2].as_slice()),
            ),
        );
    }
    proof {
        assert(elements_view(v@) =~~= token_data_elements(t@));
    }
    v
}

/// Tokenizes one rule line into its ordered elements.
#[verifier::loop_isolation(false)]
pub fn parse_line(line: &str) -> (r: ParseResult<Vec<Element>>)
    ensures
        (match r {
            Ok(v) => spec_tokenize(line@) == Ok::<Seq<ElementV>, ParseErrorV>(elements_view(v@)),
            Err(e) => spec_tokenize(line@) == Err::<Seq<ElementV>, ParseErrorV>(e@),
        }),
{
    let lc = str_chars(line);
    let l = lc.as_slice();
    let n = l.len();
    if n == 0 || l[0] != '[' {
        return Err(ParseError::RuleLineGrammar(line.to_owned()));
    }
    let sp1 = crate::text::space_run_from(l, 1);
    proof {
        crate::text::lemma_spaces_run(l@, 1);
    }
    let p = 1 + sp1;
    let d = crate::text::digit_run_from(l, p);
    proof {
        crate::text::lemma_digits_run(l@, p as int);
    }
    let sp2 = crate::text::space_run_from(l, p + d);
    proof {
        crate::text::lemma_spaces_run(l@, p as int + d as int);
    }
    let q = p + d + sp2;
    if d == 0 || q >= n || l[q] != ']' {
        return Err(ParseError::RuleLineGrammar(line.to_owned()));
    }
    let num = &l[p..p + d];
    proof {
        assert(num@ =~= l@.subrange(p as int, p as int + d as int));
    }
    let idx = match parse_u16_chars(num) {
        Ok(v) => v,
        Err(_) => {
            return Err(ParseError::RuleLineGrammar(line.to_owned()));
        },
    };
    let rest = &l[q + 1..n];
    proof {
        assert(rest@ =~= l@.skip(q as int + 1));
    }
    let toks = crate::text::split_words(rest);
    let ghost tv = words(rest@);
    proof {
        assert(toks.deep_view() =~~= tv);
    }
    let mut acc: Vec<Element> = Vec::new();
    let mut group: Vec<Element> = Vec::new();
    let mut found: bool = false;
    let mut i: usize = 0;
    proof {
        assert(tv.skip(0) =~~= tv);
        assert(elements_view(acc@) =~~= Seq::<ElementV>::empty());
        assert(elements_view(group@) =~~= Seq::<ElementV>::empty());
    }
    while i < toks.len()
        invariant
            0 <= i <= toks.len(),
            token_fold(tv, init_tok_state()) == token_fold(
                tv.skip(i as int),
                TokStateV {
                    acc: elements_view(acc@),
                    group: elements_view(group@),
                    found_action: found,
                },
            ),
        decreases toks.len() - i,
    {
        let ghost remaining = tv.skip(i as int);
        let tok = &toks[i];
        proof {
            assert(tv[i as int] == tok@);
            assert(remaining[0] == tv[i as int]);
            assert(remaining.skip(1) =~~= tv.skip(i as int + 1));
            if remaining.len() >= 2 {
                assert(remaining.skip(2) =~~= tv.skip(i as int + 2));
            }
        }
        let t = tok.as_slice();
        let ghost a0 = elements_view(acc@);
        let ghost g0 = elements_view(group@);
        let ghost st0 = TokStateV { acc: a0, group: g0, found_action: found };
        if chars_eq(t, str_chars("on").as_slice()) {
            if i + 1 >= toks.len() {
                return Err(ParseError::RuleLineGrammar(String::from_str(
                    "device name missing",
                )));
            }
            let next = &toks[i + 1];
            proof {
                assert(tv[i as int + 1] == next@);
                assert(remaining[1] == tv[i as int + 1]);
            }
            group = flush_into(&mut acc, group);
            acc.push(Element::Device(chars_to_string(next.as_slice())));
            proof {
                assert(elements_view(acc@) =~~= flush_parts(a0, g0) + seq![
                    ElementV::Device(next@),
                ]);
                assert(elements_view(group@) =~~= Seq::<ElementV>::empty());
                assert(token_fold(remaining, st0) == token_fold(
                    tv.skip(i as int + 2),
                    TokStateV {
                        acc: elements_view(acc@),
                        group: elements_view(group@),
                        found_action: found,
                    },
                ));
            }
            i += 2;
        } else if chars_eq(t, str_chars("(v6)").as_slice()) {
            group = flush_into(&mut acc, group);
            acc.push(Element::V6);
            proof {
                assert(elements_view(acc@) =~~= flush_parts(a0, g0) + seq![ElementV::V6]);
                assert(elements_view(group@) =~~= Seq::<ElementV>::empty());
                assert(token_fold(remaining, st0) == token_fold(
                    tv.skip(i as int + 1),
                    TokStateV {
                        acc: elements_view(acc@),
                        group: elements_view(group@),
                        found_action: found,
                    },
                ));
            }
            i += 1;
        } else {
            let m = modifier_from_chars(t);
            match m {
                Ok(mv) => {
                    let mut consumed: usize = 1;
                    let mut dir = Direction::BOTH;
                    if i + 1 < toks.len() {
                        let next = &toks[i + 1];
                        proof {
                            assert(tv[i as int + 1] == next@);
                            assert(remaining[1] == tv[i as int + 1]);
                        }
                        if chars_eq(next.as_slice(), str_chars("OUT").as_slice()) {
                            dir = Direction::OUT;
                            consumed = 2;
                        } else if chars_eq(next.as_slice(), str_chars("IN").as_slice()) {
                            dir = Direction::IN;
                            consumed = 2;
                        }
                    }
                    proof {
                        if consumed == 2 {
                            assert(spec_direction(Some(remaining[1])) == Ok::<
                                Direction,
                                ParseErrorV,
                            >(dir));
                        }
                    }
                    group = flush_into(&mut acc, group);
                    acc.push(Element::Action(Ok(mv), Ok(dir)));
                    proof {
                        assert((Element::Action(Ok(mv), Ok(dir)))@ == ElementV::Action(
                            Ok::<Modifier, ParseErrorV>(mv),
                            Ok::<Direction, ParseErrorV>(dir),
                        ));
                        if consumed == 2 {
                            assert(elements_view(acc@) =~~= flush_parts(a0, g0) + seq![
                                ElementV::Action(spec_modifier(tok@), spec_direction(
                                    Some(remaining[1]),
                                )),
                            ]);
                        } else {
                            assert(elements_view(acc@) =~~= flush_parts(a0, g0) + seq![
                                ElementV::Action(spec_modifier(tok@), Ok::<
                                    Direction,
                                    ParseErrorV,
                                >(Direction::BOTH)),
                            ]);
                        }
                        assert(elements_view(group@) =~~= Seq::<ElementV>::empty());
                        assert(token_fold(remaining, st0) == token_fold(
                            tv.skip(i as int + consumed as int),
                            TokStateV {
                                acc: elements_view(acc@),
                                group: elements_view(group@),
                                found_action: true,
                            },
                        ));
                    }
                    found = true;
                    i += consumed;
                },
                Err(_) => {
                    let mut els = token_data(t);
                    let ghost new_els = elements_view(els@);
                    group.append(&mut els);
                    proof {
                        assert(elements_view(group@) =~~= g0 + new_els);
                        assert(elements_view(group@) =~~= g0 + token_data_elements(tok@));
                        assert(token_fold(remaining, st0) == token_fold(
                            tv.skip(i as int + 1),
                            TokStateV {
                                acc: elements_view(acc@),
                                group: elements_view(group@),
                                found_action: found,
                            },
                        ));
                    }
                    i += 1;
                },
            }
        }
    }
    proof {
        assert(tv.skip(tv.len() as int) =~~= Seq::<Seq<char>>::empty());
    }
    group = flush_into(&mut acc, group);
    if !found {
        return Err(ParseError::RuleLineGrammar(line.to_owned()));
    }
    let mut out: Vec<Element> = Vec::new();
    out.push(Element::Index(idx));
    let ghost acc_v = elements_view(acc@);
    out.append(&mut acc);
    out.push(Element::END);
    proof {
        assert(elements_view(out@) =~~= seq![ElementV::Index(idx)] + acc_v + seq![ElementV::END]);
    }
    Ok(out)
}

/// The rule-line grammar, as a type: its `parse` tokenizes one line into
/// the ordered elements the grammar describes.
pub struct AddressParser;

impl AddressParser {
    /// Tokenizes one rule line.
    pub fn parse(line: &str) -> (r: ParseResult<Vec<Element>>)
        ensures
            (match r {
                Ok(v) => spec_tokenize(line@) == Ok::<Seq<ElementV>, ParseErrorV>(
                    elements_view(v@),
                ),
                Err(e) => spec_tokenize(line@) == Err::<Seq<ElementV>, ParseErrorV>(e@),
            }),
    {
        parse_line(line)
    }
}

/// Parses one rule line into a typed [`Line`].
pub fn parse(line: &str) -> (r: ParseResult<Line>)
    ensures
        (match r {
            Ok(v) => spec_parse(line@) == Ok::<LineV, ParseErrorV>(v@),
            Err(e) => spec_parse(line@) == Err::<LineV, ParseErrorV>(e@),
        }),
{
    match parse_line(line) {
        Err(e) => Err(e),
        Ok(els) => Line::try_from(els),
    }
}

} // verus!
