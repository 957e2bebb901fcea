//! The report side of the library: the typed values that the firewall
//! tool's textual reports reduce to, the primitive parsers for their
//! tokens, and the staging area for rule changes.
//!
//! The tool itself is invoked by the caller; everything here consumes the
//! already captured output, as plain bytes plus the exit outcome.
use vstd::prelude::*;

use crate::text::{
    chars_eq, chars_to_string, dec_numeral, dec_val, digits_run, find_last, find_char_last,
    find_sub, is_u8_numeral, lemma_find_last, lower_chars, matches_at, parse_u16_chars,
    space_run_from, spaces_run, split_on, str_chars, to_lower, u16_to_chars, utf8_to_string, word_run,
    word_run_from,
};
use crate::addr::{ip_chars, ip_of, is_ip, parse_ip, IpAddress};
use crate::{result_matches, ParseError, ParseErrorV, ParseResult};

verus! {

// ---------------------------------------------------------------------------
// Protocols
// ---------------------------------------------------------------------------
/// A protocol a rule can name.  `ANY` stands for an unspecified protocol
/// and matches all of them.
#[derive(Clone, Copy, Debug, PartialEq, Eq, Structural)]
pub enum Protocol {
    TCP,
    UDP,
    AH,
    ESP,
    GRE,
    IPV6,
    IGMP,
    ANY,
}

/// What reading a protocol token yields: exactly `tcp` and `udp` are
/// accepted, case-sensitively.
pub open spec fn spec_protocol(s: Seq<char>) -> Result<Protocol, ParseErrorV> {
    if s == "tcp"@ {
        Ok(Protocol::TCP)
    } else if s == "udp"@ {
        Ok(Protocol::UDP)
    } else {
        Err(ParseErrorV::InvalidProtocol(s))
    }
}

/// Reads a protocol token from characters.
pub(crate) fn protocol_from_chars(s: &[char]) -> (r: ParseResult<Protocol>)
    ensures
        result_matches(r, spec_protocol(s@)),
{
    let tcp = str_chars("tcp");
    if chars_eq(s, tcp.as_slice()) {
        return Ok(Protocol::TCP);
    }
    let udp = str_chars("udp");
    if chars_eq(s, udp.as_slice()) {
        return Ok(Protocol::UDP);
    }
    Err(ParseError::InvalidProtocol(chars_to_string(s)))
}

impl Protocol {
    /// Reads a protocol token.
    pub fn try_from(v: &str) -> (r: ParseResult<Protocol>)
        ensures
            result_matches(r, spec_protocol(v@)),
    {
        let vc = str_chars(v);
        protocol_from_chars(vc.as_slice())
    }
}

/// Which family of addresses a report entry concerns.
#[derive(Clone, Copy, Debug, PartialEq, Eq, Structural)]
pub enum IpVersion {
    V4,
    V6,
}

// ---------------------------------------------------------------------------
// Rule keywords
// ---------------------------------------------------------------------------
/// What a rule does with the traffic it matches.
#[derive(Clone, Copy, Debug, PartialEq, Eq, Structural)]
pub enum RuleType {
    ALLOW,
    DENY,
    REJECT,
    LIMIT,
}

/// The direction of the traffic a report entry governs.
#[derive(Clone, Copy, Debug, PartialEq, Eq, Structural)]
pub enum RuleDirection {
    IN,
    OUT,
    FWD,
}

/// The direction class a default policy speaks of.
#[derive(Clone, Copy, Debug, PartialEq, Eq, Structural)]
pub enum RuleDirectionDefaults {
    INCOMING,
    OUTGOING,
    ROUTED,
}

/// What reading a rule-type keyword yields, case-insensitively.
pub open spec fn spec_rule_type(s: Seq<char>) -> Result<RuleType, ParseErrorV> {
    let l = to_lower(s);
    if l == "allow"@ {
        Ok(RuleType::ALLOW)
    } else if l == "deny"@ {
        Ok(RuleType::DENY)
    } else if l == "reject"@ {
        Ok(RuleType::REJECT)
    } else if l == "limit"@ {
        Ok(RuleType::LIMIT)
    } else {
        Err(ParseErrorV::WrongRuleType(s))
    }
}

/// Reads a rule-type keyword from characters.
pub(crate) fn rule_type_from_chars(s: &[char]) -> (r: ParseResult<RuleType>)
    ensures
        result_matches(r, spec_rule_type(s@)),
{
    let l = lower_chars(s);
    if chars_eq(l.as_slice(), str_chars("allow").as_slice()) {
        Ok(RuleType::ALLOW)
    } else if chars_eq(l.as_slice(), str_chars("deny").as_slice()) {
        Ok(RuleType::DENY)
    } else if chars_eq(l.as_slice(), str_chars("reject").as_slice()) {
        Ok(RuleType::REJECT)
    } else if chars_eq(l.as_slice(), str_chars("limit").as_slice()) {
        Ok(RuleType::LIMIT)
    } else {
        Err(ParseError::WrongRuleType(chars_to_string(s)))
    }
}

impl RuleType {
    /// Reads a rule-type keyword, case-insensitively.
    pub fn try_from(value: &str) -> (r: ParseResult<RuleType>)
        ensures
            result_matches(r, spec_rule_type(value@)),
    {
        let vc = str_chars(value);
        rule_type_from_chars(vc.as_slice())
    }
}

/// What reading a rule-direction keyword yields, case-insensitively.
pub open spec fn spec_rule_direction(s: Seq<char>) -> Result<RuleDirection, ParseErrorV> {
    let l = to_lower(s);
    if l == "fwd"@ {
        Ok(RuleDirection::FWD)
    } else if l == "out"@ {
        Ok(RuleDirection::OUT)
    } else if l == "in"@ {
        Ok(RuleDirection::IN)
    } else {
        Err(ParseErrorV::WrongRuleDirection(s))
    }
}

/// Reads a rule-direction keyword from characters.
pub(crate) fn rule_direction_from_chars(s: &[char]) -> (r: ParseResult<RuleDirection>)
    ensures
        result_matches(r, spec_rule_direction(s@)),
{
    let l = lower_chars(s);
    if chars_eq(l.as_slice(), str_chars("fwd").as_slice()) {
        Ok(RuleDirection::FWD)
    } else if chars_eq(l.as_slice(), str_chars("out").as_slice()) {
        Ok(RuleDirection::OUT)
    } else if chars_eq(l.as_slice(), str_chars("in").as_slice()) {
        Ok(RuleDirection::IN)
    } else {
        Err(ParseError::WrongRuleDirection(chars_to_string(s)))
    }
}

impl RuleDirection {
    /// Reads a rule-direction keyword, case-insensitively.
    pub fn try_from(value: &str) -> (r: ParseResult<RuleDirection>)
        ensures
            result_matches(r, spec_rule_direction(value@)),
    {
        let vc = str_chars(value);
        rule_direction_from_chars(vc.as_slice())
    }
}

/// What reading a defaults-direction keyword yields, case-insensitively.
pub open spec fn spec_rule_direction_defaults(s: Seq<char>) -> Result<
    RuleDirectionDefaults,
    ParseErrorV,
> {
    let l = to_lower(s);
    if l == "incoming"@ {
        Ok(RuleDirectionDefaults::INCOMING)
    } else if l == "outgoing"@ {
        Ok(RuleDirectionDefaults::OUTGOING)
    } else if l == "routed"@ {
        Ok(RuleDirectionDefaults::ROUTED)
    } else {
        Err(ParseErrorV::WrongRuleDirection(s))
    }
}

/// Reads a defaults-direction keyword from characters.
pub(crate) fn rule_direction_defaults_from_chars(s: &[char]) -> (r: ParseResult<
    RuleDirectionDefaults,
>)
    ensures
        result_matches(r, spec_rule_direction_defaults(s@)),
{
    let l = lower_chars(s);
    if chars_eq(l.as_slice(), str_chars("incoming").as_slice()) {
        Ok(RuleDirectionDefaults::INCOMING)
    } else if chars_eq(l.as_slice(), str_chars("outgoing").as_slice()) {
        Ok(RuleDirectionDefaults::OUTGOING)
    } else if chars_eq(l.as_slice(), str_chars("routed").as_slice()) {
        Ok(RuleDirectionDefaults::ROUTED)
    } else {
        Err(ParseError::WrongRuleDirection(chars_to_string(s)))
    }
}

impl RuleDirectionDefaults {
    /// Reads a defaults-direction keyword, case-insensitively.
    pub fn try_from(value: &str) -> (r: ParseResult<RuleDirectionDefaults>)
        ensures
            result_matches(r, spec_rule_direction_defaults(value@)),
    {
        let vc = str_chars(value);
        rule_direction_defaults_from_chars(vc.as_slice())
    }
}

/// A rule's disposition and direction, as one value.
#[derive(Clone, Copy, Debug, PartialEq, Eq, Structural)]
pub struct UfwAction {
    pub typ: RuleType,
    pub direction: RuleDirection,
}

// ---------------------------------------------------------------------------
// Addresses in reports
// ---------------------------------------------------------------------------
/// An address with its network prefix length; 32 stands for host-exact.
#[derive(Clone, Copy, Debug, PartialEq, Eq, Structural)]
pub struct Address {
    pub addr: IpAddress,
    pub cidr: u8,
}

/// What reading an address token yields: an IP address, optionally followed
/// by `/` and a prefix length that fits one byte.
pub open spec fn spec_address_from(s: Seq<char>) -> Result<Address, ParseErrorV> {
    match find_last(s, '/') {
        None => if is_ip(s) {
            Ok(Address { addr: ip_of(s), cidr: 32u8 })
        } else {
            Err(ParseErrorV::RuleLineGrammar(s))
        },
        Some(p) => {
            let a = s.take(p);
            let c = s.skip(p + 1);
            if is_ip(a) && is_u8_numeral(c) {
                Ok(Address { addr: ip_of(a), cidr: dec_val(c) as u8 })
            } else {
                Err(ParseErrorV::RuleLineGrammar(s))
            }
        },
    }
}

/// The text an address renders to: the bare address for a host-exact
/// prefix, `address/prefix` otherwise.
pub open spec fn address_chars(a: Address) -> Seq<char> {
    if a.cidr == 32 {
        ip_chars(a.addr)
    } else {
        ip_chars(a.addr) + seq!['/'] + dec_numeral(a.cidr as int)
    }
}

/// Reads an address token from characters.
pub(crate) fn address_from_chars(s: &[char]) -> (r: ParseResult<Address>)
    ensures
        result_matches(r, spec_address_from(s@)),
{
    proof {
        lemma_find_last(s@, '/');
    }
    match find_char_last(s, '/') {
        None => {
            match parse_ip(s) {
                Some(a) => Ok(Address { addr: a, cidr: 32 }),
                None => Err(ParseError::RuleLineGrammar(chars_to_string(s))),
            }
        },
        Some(p) => {
            let n = s.len();
            let head = &s[0..p];
            let tail = &s[p + 1..n];
            proof {
                assert(head@ =~= s@.take(p as int));
                assert(tail@ =~= s@.skip(p as int + 1));
            }
            let a = match parse_ip(head) {
                Some(a) => a,
                None => {
                    return Err(ParseError::RuleLineGrammar(chars_to_string(s)));
                },
            };
            match parse_u16_chars(tail) {
                Ok(c) if c <= 255 => Ok(Address { addr: a, cidr: c as u8 }),
                _ => Err(ParseError::RuleLineGrammar(chars_to_string(s))),
            }
        },
    }
}

impl Address {
    /// An address read as host-exact: prefix length 32.
    pub fn from(ip: IpAddress) -> (r: Address)
        ensures
            r == (Address { addr: ip, cidr: 32u8 }),
    {
        Address { addr: ip, cidr: 32 }
    }

    /// Reads an address token, optionally suffixed with `/` and a prefix
    /// length.
    pub fn try_from(s: &str) -> (r: ParseResult<Address>)
        ensures
            result_matches(r, spec_address_from(s@)),
    {
        let sc = str_chars(s);
        address_from_chars(sc.as_slice())
    }

    /// Renders the address, with its prefix length unless host-exact.
    pub fn to_string(&self) -> (r: String)
        ensures
            r@ == address_chars(*self),
    {
        let mut v = self.addr.to_chars();
        if self.cidr != 32 {
            v.push('/');
            let mut c = u16_to_chars(self.cidr as u16);
            v.append(&mut c);
        }
        proof {
            assert(v@ =~= address_chars(*self));
        }
        chars_to_string(v.as_slice())
    }
}

// ---------------------------------------------------------------------------
// Report entries
// ---------------------------------------------------------------------------
/// One numbered rule as the status report shows it.
#[derive(Clone, Debug)]
pub struct RuleEntry {
    pub interface: Option<String>,
    pub source_address: Option<Address>,
    pub destination_address: Option<Address>,
    pub source_port: Option<u16>,
    pub destination_port: Option<u16>,
    pub proto: Protocol,
    pub ip_version: Option<IpVersion>,
    pub number: u16,
    pub action: UfwAction,
}

/// The mathematical value of a [`RuleEntry`].
pub struct RuleEntryV {
    pub interface: Option<Seq<char>>,
    pub source_address: Option<Address>,
    pub destination_address: Option<Address>,
    pub source_port: Option<u16>,
    pub destination_port: Option<u16>,
    pub proto: Protocol,
    pub ip_version: Option<IpVersion>,
    pub number: u16,
    pub action: UfwAction,
}

impl View for RuleEntry {
    type V = RuleEntryV;

    open spec fn view(&self) -> RuleEntryV {
        RuleEntryV {
            interface: match self.interface {
                Some(s) => Some(s@),
                None => None,
            },
            source_address: self.source_address,
            destination_address: self.destination_address,
            source_port: self.source_port,
            destination_port: self.destination_port,
            proto: self.proto,
            ip_version: self.ip_version,
            number: self.number,
            action: self.action,
        }
    }
}

/// The text the source side of an entry shows: `any` when absent.
pub open spec fn source_address_text(e: RuleEntryV) -> Seq<char> {
    match e.source_address {
        None => "any"@,
        Some(a) => address_chars(a),
    }
}

impl RuleEntry {
    /// Renders the source side: the address, or `any` when absent.
    pub fn source_address_string(&self) -> (r: String)
        ensures
            r@ == source_address_text(self@),
    {
        match &self.source_address {
            None => String::from_str("any"),
            Some(val) => val.to_string(),
        }
    }
}

// ---------------------------------------------------------------------------
// Report kinds and logging levels
// ---------------------------------------------------------------------------
/// The report sections the tool can be asked for.
#[derive(Clone, Copy, Debug, PartialEq, Eq, Structural)]
pub enum ReportFormats {
    Raw,
    Builtins,
    BeforeRules,
    UserRules,
    AfterRules,
    LoggingRules,
    Listening,
    Added,
}

/// How much the firewall logs.
#[derive(Clone, Copy, Debug, PartialEq, Eq, Structural)]
pub enum LoggingLevel {
    Off,
    Low,
    Medium,
    High,
    Full,
}

/// What reading a logging state and level yields: `off` is a level of its
/// own, `on` takes its level from the bracketed word.
pub open spec fn spec_logging_level(onoff: Seq<char>, level: Seq<char>) -> Result<
    LoggingLevel,
    ParseErrorV,
> {
    if onoff == "on"@ {
        if level == "low"@ {
            Ok(LoggingLevel::Low)
        } else if level == "medium"@ {
            Ok(LoggingLevel::Medium)
        } else if level == "high"@ {
            Ok(LoggingLevel::High)
        } else if level == "full"@ {
            Ok(LoggingLevel::Full)
        } else {
            Err(ParseErrorV::InvalidLoggingLevel(level))
        }
    } else if onoff == "off"@ {
        Ok(LoggingLevel::Off)
    } else {
        Err(ParseErrorV::InvalidLoggingLevel(onoff))
    }
}

/// Reads a logging state and level from characters.
pub(crate) fn logging_level_from_chars(onoff: &[char], level: &[char]) -> (r: ParseResult<
    LoggingLevel,
>)
    ensures
        result_matches(r, spec_logging_level(onoff@, level@)),
{
    if chars_eq(onoff, str_chars("on").as_slice()) {
        if chars_eq(level, str_chars("low").as_slice()) {
            Ok(LoggingLevel::Low)
        } else if chars_eq(level, str_chars("medium").as_slice()) {
            Ok(LoggingLevel::Medium)
        } else if chars_eq(level, str_chars("high").as_slice()) {
            Ok(LoggingLevel::High)
        } else if chars_eq(level, str_chars("full").as_slice()) {
            Ok(LoggingLevel::Full)
        } else {
            Err(ParseError::InvalidLoggingLevel(chars_to_string(level)))
        }
    } else if chars_eq(onoff, str_chars("off").as_slice()) {
        Ok(LoggingLevel::Off)
    } else {
        Err(ParseError::InvalidLoggingLevel(chars_to_string(onoff)))
    }
}

impl LoggingLevel {
    /// Reads a logging state and level pair.
    pub fn try_from(value: (&str, &str)) -> (r: ParseResult<LoggingLevel>)
        ensures
            result_matches(r, spec_logging_level(value.0@, value.1@)),
    {
        let onoff = str_chars(value.0);
        let level = str_chars(value.1);
        logging_level_from_chars(onoff.as_slice(), level.as_slice())
    }
}

// ---------------------------------------------------------------------------
// Ports from application profiles
// ---------------------------------------------------------------------------
/// One item of an application profile's ports field: a port or inclusive
/// range, with the protocols its entry names.
#[derive(Clone, Debug)]
pub struct UfwPort {
    pub number: u16,
    pub end_number: Option<u16>,
    pub protocols: Vec<ParseResult<Protocol>>,
}

/// The mathematical value of a [`UfwPort`].
pub struct UfwPortV {
    pub number: u16,
    pub end_number: Option<u16>,
    pub protocols: Seq<Result<Protocol, ParseErrorV>>,
}

/// The mathematical value of a protocol result list.
pub open spec fn protocol_results_view(s: Seq<ParseResult<Protocol>>) -> Seq<
    Result<Protocol, ParseErrorV>,
> {
    s.map_values(
        |p: ParseResult<Protocol>|
            match p {
                Ok(v) => Ok(v),
                Err(e) => Err(e@),
            },
    )
}

impl View for UfwPort {
    type V = UfwPortV;

    open spec fn view(&self) -> UfwPortV {
        UfwPortV {
            number: self.number,
            end_number: self.end_number,
            protocols: protocol_results_view(self.protocols@),
        }
    }
}

// ---------------------------------------------------------------------------
// The staging area
// ---------------------------------------------------------------------------
/// The known state of the firewall, with rule changes staged before they
/// are submitted.  The flag beside each entry is false for an entry that
/// still has to be inserted.
#[derive(Debug)]
pub struct Ufw {
    pub enabled: bool,
    pub logging: LoggingLevel,
    pub entries: Vec<(RuleEntry, bool)>,
}

impl Ufw {
    /// Stages one more rule, kept until submission.
    pub fn add_rule(&mut self, entry: RuleEntry)
        ensures
            final(self).entries@ == old(self).entries@.push((entry, true)),
            final(self).enabled == old(self).enabled,
            final(self).logging == old(self).logging,
    {
        self.entries.push((entry, true))
    }

    /// Takes the entry at the given position out of the staged set.  An
    /// index past the end yields nothing; the position just past the last
    /// entry is not admitted.
    pub fn delete_rule(&mut self, entry_index: u16) -> (r: Option<(RuleEntry, bool)>)
        requires
            entry_index as int != old(self).entries@.len(),
        ensures
            entry_index as int > old(self).entries@.len() ==> r is None && final(self).entries@
                == old(self).entries@,
            (entry_index as int) < old(self).entries@.len() ==> r == Some(
                old(self).entries@[entry_index as int],
            ) && final(self).entries@ == old(self).entries@.remove(entry_index as int),
            final(self).enabled == old(self).enabled,
            final(self).logging == old(self).logging,
    {
        if entry_index as usize > self.entries.len() {
            None
        } else {
            Some(self.entries.remove(entry_index as usize))
        }
    }
}

// ---------------------------------------------------------------------------
// The command boundary
// ---------------------------------------------------------------------------
/// What one invocation of the tool produced: whether it exited well, and
/// the bytes it wrote to each stream.  The caller captures this; the
/// extractors below consume it.
#[derive(Debug)]
pub struct UfwCommandOutput {
    pub success: bool,
    pub stdout: Vec<u8>,
    pub stderr: Vec<u8>,
}

/// The tool's location, held so a caller can invoke it.
#[derive(Clone, Debug)]
pub struct UfwCommand {
    pub executable: String,
}

impl UfwCommand {
    /// The command at the usual place.
    pub fn new() -> (r: UfwCommand)
        ensures
            r.executable@ == "/usr/bin/ufw"@,
    {
        UfwCommand { executable: String::from_str("/usr/bin/ufw") }
    }

    /// The command at the given place.
    pub fn with_executable(self, executable_path: &str) -> (r: UfwCommand)
        ensures
            r.executable@ == executable_path@,
    {
        UfwCommand { executable: executable_path.to_owned() }
    }

    /// Turns captured output bytes into text; exactly valid UTF-8 is
    /// accepted, and a refusal carries the decoder's diagnostic.
    pub fn parse_stdout(o: Vec<u8>) -> (r: ParseResult<String>)
        ensures
            r is Ok <==> vstd::utf8::valid_utf8(o@),
            r matches Ok(s) ==> s@ == vstd::utf8::decode_utf8(o@),
            r matches Err(e) ==> e@ == utf8_error(o@),
    {
        match utf8_to_string(&o) {
            Ok(s) => Ok(s),
            Err(m) => Err(ParseError::IOError(m)),
        }
    }
}

/// The captured error stream as text: its decoding when it is UTF-8,
/// nothing otherwise.
pub open spec fn stderr_text(b: Seq<u8>) -> Seq<char> {
    if vstd::utf8::valid_utf8(b) {
        vstd::utf8::decode_utf8(b)
    } else {
        Seq::empty()
    }
}

/// The error every extractor yields when the tool's run did not succeed:
/// it carries whatever the tool wrote to its error stream.
pub open spec fn run_failed_error(stderr: Seq<u8>) -> ParseErrorV {
    ParseErrorV::IOError("ufw execution unsuccessful: "@ + stderr_text(stderr))
}

/// The error every extractor yields on output that is not UTF-8: it
/// carries the decoder's diagnostic.
pub open spec fn utf8_error(stdout: Seq<u8>) -> ParseErrorV {
    ParseErrorV::IOError(crate::text::utf8_diagnostic(stdout))
}

/// The run-failure error, built from a capture.
fn run_failed(output: &UfwCommandOutput) -> (r: ParseError)
    ensures
        r@ == run_failed_error(output.stderr@),
{
    let mut m = String::from_str("ufw execution unsuccessful: ");
    match utf8_to_string(&output.stderr) {
        Ok(s) => {
            m.append(s.as_str());
        },
        Err(_) => {
            proof {
                assert(m@ =~= "ufw execution unsuccessful: "@ + Seq::<char>::empty());
            }
        },
    }
    ParseError::IOError(m)
}

/// A failed run yields the one run-failure error from every extractor,
/// whatever the captured output stream holds: none of them reads it.
pub proof fn lemma_failed_run_is_io_error(stdout: Seq<u8>, stderr: Seq<u8>)
    ensures
        spec_version(false, stdout, stderr) == Err::<Seq<char>, ParseErrorV>(
            run_failed_error(stderr),
        ),
        spec_info(false, stdout, stderr) == Err::<(bool, LoggingLevel), ParseErrorV>(
            run_failed_error(stderr),
        ),
        spec_defaults(false, stdout, stderr) == Err::<
            Seq<(Result<RuleDirectionDefaults, ParseErrorV>, Result<RuleType, ParseErrorV>)>,
            ParseErrorV,
        >(run_failed_error(stderr)),
        spec_numbered(false, stdout, stderr) == Err::<
            Seq<Result<RuleEntryV, ParseErrorV>>,
            ParseErrorV,
        >(run_failed_error(stderr)),
{
}

// ---------------------------------------------------------------------------
// The version extractor
// ---------------------------------------------------------------------------
/// The length of the version numeral starting at `p`: a run of digits, a
/// dot, a second run, and optionally a dot and a third run, each taken as
/// long as possible.
pub open spec fn version_len_at(t: Seq<char>, p: int) -> Option<int> {
    let d1 = digits_run(t, p);
    let p1 = p + d1;
    if d1 == 0 || p1 >= t.len() || t[p1] != '.' || digits_run(t, p1 + 1) == 0 {
        None
    } else {
        let d2 = digits_run(t, p1 + 1);
        let p2 = p1 + 1 + d2;
        if p2 < t.len() && t[p2] == '.' && digits_run(t, p2 + 1) > 0 {
            Some(p2 + 1 + digits_run(t, p2 + 1) - p)
        } else {
            Some(p2 - p)
        }
    }
}

/// The error the version extractor names the unmatched text with.
pub open spec fn version_error_text(t: Seq<char>) -> Seq<char> {
    "Couldn't find a valid ufw version in "@ + t
}

/// True when the whole version pattern matches at `i`: the `ufw ` marker
/// followed by a version numeral.
pub open spec fn version_match_at(t: Seq<char>, i: int) -> bool {
    matches_at(t, i, "ufw "@) && version_len_at(t, i + 4) is Some
}

/// The first position from `i` on where the whole pattern matches.
pub open spec fn find_version(t: Seq<char>, i: int) -> Option<int>
    decreases t.len() - i,
    when i >= 0
{
    if i >= t.len() {
        None
    } else if version_match_at(t, i) {
        Some(i)
    } else {
        find_version(t, i + 1)
    }
}

pub proof fn lemma_find_version(t: Seq<char>, i: int)
    requires
        0 <= i <= t.len(),
    ensures
        match find_version(t, i) {
            Some(j) => i <= j < t.len() && version_match_at(t, j) && forall|k: int|
                i <= k < j ==> !#[trigger] version_match_at(t, k),
            None => forall|k: int| i <= k < t.len() ==> !#[trigger] version_match_at(t, k),
        },
    decreases t.len() - i,
{
    if i < t.len() && !version_match_at(t, i) {
        lemma_find_version(t, i + 1);
    }
}

/// What the version extractor yields on the decoded text: the numeral of
/// the first position where the whole pattern matches.
pub open spec fn version_text(t: Seq<char>) -> Result<Seq<char>, ParseErrorV> {
    match find_version(t, 0) {
        None => Err(ParseErrorV::IOError(version_error_text(t))),
        Some(j) => Ok(t.subrange(j + 4, j + 4 + version_len_at(t, j + 4)->0)),
    }
}

/// What the version call yields from a captured run.
pub open spec fn spec_version(success: bool, stdout: Seq<u8>, stderr: Seq<u8>) -> Result<
    Seq<char>,
    ParseErrorV,
> {
    if !success {
        Err(run_failed_error(stderr))
    } else if !vstd::utf8::valid_utf8(stdout) {
        Err(utf8_error(stdout))
    } else {
        version_text(vstd::utf8::decode_utf8(stdout))
    }
}

/// Measures the version numeral at `p`, if one starts there.
fn version_len_here(t: &[char], p: usize) -> (r: Option<usize>)
    requires
        p <= t@.len(),
    ensures
        (match r {
            Some(l) => version_len_at(t@, p as int) == Some(l as int) && p + l <= t@.len(),
            None => version_len_at(t@, p as int) is None,
        }),
{
    let n = t.len();
    let d1 = crate::text::digit_run_from(t, p);
    proof {
        crate::text::lemma_digits_run(t@, p as int);
    }
    let p1 = p + d1;
    if d1 == 0 || p1 >= n || t[p1] != '.' {
        return None;
    }
    let d2 = crate::text::digit_run_from(t, p1 + 1);
    proof {
        crate::text::lemma_digits_run(t@, p1 as int + 1);
    }
    if d2 == 0 {
        return None;
    }
    let p2 = p1 + 1 + d2;
    if p2 < n && t[p2] == '.' {
        let d3 = crate::text::digit_run_from(t, p2 + 1);
        proof {
            crate::text::lemma_digits_run(t@, p2 as int + 1);
        }
        if d3 > 0 {
            return Some(p2 + 1 + d3 - p);
        }
    }
    Some(p2 - p)
}

/// The error value naming the unmatched text.
fn version_error(text: &str) -> (r: ParseError)
    ensures
        r@ == ParseErrorV::IOError(version_error_text(text@)),
{
    let mut m = String::from_str("Couldn't find a valid ufw version in ");
    m.append(text);
    ParseError::IOError(m)
}

impl UfwCommand {
    /// Extracts the tool's version from a captured `version` run: the
    /// numeral of the first place its output matches the whole pattern.
    #[verifier::loop_isolation(false)]
    pub fn version(output: &UfwCommandOutput) -> (r: ParseResult<String>)
        ensures
            (match r {
                Ok(s) => spec_version(output.success, output.stdout@, output.stderr@) == Ok::<
                    Seq<char>,
                    ParseErrorV,
                >(s@),
                Err(e) => spec_version(output.success, output.stdout@, output.stderr@) == Err::<
                    Seq<char>,
                    ParseErrorV,
                >(e@),
            }),
    {
        if !output.success {
            return Err(run_failed(output));
        }
        let text = match utf8_to_string(&output.stdout) {
            Ok(s) => s,
            Err(m) => {
                return Err(ParseError::IOError(m));
            },
        };
        let tc = str_chars(text.as_str());
        let t = tc.as_slice();
        let n = t.len();
        let pat = str_chars("ufw ");
        proof {
            reveal_strlit("ufw ");
            lemma_find_version(t@, 0);
        }
        let mut j: usize = 0;
        while j < n
            invariant
                0 <= j <= n,
                forall|k: int| 0 <= k < j ==> !#[trigger] version_match_at(t@, k),
            decreases n - j,
        {
            if matches_here(t, j, pat.as_slice()) {
                match version_len_here(t, j + 4) {
                    Some(l) => {
                        proof {
                            assert(version_match_at(t@, j as int));
                            let fv = find_version(t@, 0);
                            if fv is Some {
                                assert(!(fv->0 < j as int));
                                assert(!(fv->0 > j as int));
                            }
                        }
                        let cap = &t[j + 4..j + 4 + l];
                        proof {
                            assert(cap@ =~= t@.subrange(j as int + 4, j as int + 4 + l as int));
                        }
                        return Ok(chars_to_string(cap));
                    },
                    None => {
                        proof {
                            assert(!version_match_at(t@, j as int));
                        }
                    },
                }
            } else {
                proof {
                    assert(!version_match_at(t@, j as int));
                }
            }
            j += 1;
        }
        Err(version_error(text.as_str()))
    }
}

// ---------------------------------------------------------------------------
// The enabled and logging extractor
// ---------------------------------------------------------------------------
/// Whether the firewall is up, read after the first `Status:` marker:
/// `active` or `inactive`, with spaces between allowed.
pub open spec fn status_text(t: Seq<char>) -> Result<bool, ParseErrorV> {
    match find_sub(t, "Status:"@) {
        None => Err(ParseErrorV::IOError(version_error_text(t))),
        Some(i) => {
            let p = i + 7 + spaces_run(t, i + 7);
            if matches_at(t, p, "inactive"@) {
                Ok(false)
            } else if matches_at(t, p, "active"@) {
                Ok(true)
            } else {
                Err(ParseErrorV::IOError(version_error_text(t)))
            }
        },
    }
}

/// The hint given when logging is on but no level is written.
pub open spec fn logging_hint() -> Seq<char> {
    "Invalid logging level found. Valid logging levels are: `low`, `medium`, `high`, `full`."@
}

/// The logging level, read after the first `Logging:` marker: `off`, or
/// `on` with a bracketed level word.  `on` without a recognized level
/// yields the enumerated-levels hint.
pub open spec fn logging_text(t: Seq<char>) -> Result<LoggingLevel, ParseErrorV> {
    match find_sub(t, "Logging:"@) {
        None => Err(ParseErrorV::InvalidLoggingLevel(t)),
        Some(i) => {
            let p = i + 8 + spaces_run(t, i + 8);
            if matches_at(t, p, "off"@) {
                Ok(LoggingLevel::Off)
            } else if matches_at(t, p, "on"@) {
                let q = p + 2 + spaces_run(t, p + 2);
                let w = word_run(t, q + 1);
                if q < t.len() && t[q] == '(' && w > 0 && q + 1 + w < t.len() && t[q + 1 + w]
                    == ')' {
                    match spec_logging_level("on"@, t.subrange(q + 1, q + 1 + w)) {
                        Ok(lv) => Ok(lv),
                        Err(_) => Err(ParseErrorV::InvalidLoggingLevel(logging_hint())),
                    }
                } else {
                    Err(ParseErrorV::InvalidLoggingLevel(logging_hint()))
                }
            } else {
                Err(ParseErrorV::InvalidLoggingLevel(t))
            }
        },
    }
}

/// What the info call yields from a captured `status verbose` run: the
/// enabled flag, then the logging level, the first failure winning.
pub open spec fn spec_info(success: bool, stdout: Seq<u8>, stderr: Seq<u8>) -> Result<
    (bool, LoggingLevel),
    ParseErrorV,
> {
    if !success {
        Err(run_failed_error(stderr))
    } else if !vstd::utf8::valid_utf8(stdout) {
        Err(utf8_error(stdout))
    } else {
        let t = vstd::utf8::decode_utf8(stdout);
        match status_text(t) {
            Err(e) => Err(e),
            Ok(enabled) => match logging_text(t) {
                Err(e) => Err(e),
                Ok(lv) => Ok((enabled, lv)),
            },
        }
    }
}

/// Tests whether the literal `pat` occurs in `t` at position `p`.
fn matches_here(t: &[char], p: usize, pat: &[char]) -> (r: bool)
    ensures
        r == matches_at(t@, p as int, pat@),
{
    if p > t.len() || pat.len() > t.len() - p {
        return false;
    }
    let piece = &t[p..p + pat.len()];
    let r = chars_eq(piece, pat);
    proof {
        assert(piece@ =~= t@.subrange(p as int, p as int + pat@.len()));
    }
    r
}

impl UfwCommand {
    /// Extracts the enabled flag and the logging level from a captured
    /// `status verbose` run.
    pub fn info(output: &UfwCommandOutput) -> (r: ParseResult<(bool, LoggingLevel)>)
        ensures
            (match r {
                Ok(v) => spec_info(output.success, output.stdout@, output.stderr@) == Ok::<
                    (bool, LoggingLevel),
                    ParseErrorV,
                >(v),
                Err(e) => spec_info(output.success, output.stdout@, output.stderr@) == Err::<
                    (bool, LoggingLevel),
                    ParseErrorV,
                >(e@),
            }),
    {
        if !output.success {
            return Err(run_failed(output));
        }
        let text = match utf8_to_string(&output.stdout) {
            Ok(s) => s,
            Err(m) => {
                return Err(ParseError::IOError(m));
            },
        };
        let tc = str_chars(text.as_str());
        let t = tc.as_slice();
        let n = t.len();
        // the enabled flag
        proof {
            reveal_strlit("Status:");
            crate::text::lemma_find_sub(t@, "Status:"@);
        }
        let status_pat = str_chars("Status:");
        let enabled: bool;
        match crate::text::find_pattern(t, status_pat.as_slice()) {
            None => {
                return Err(version_error(text.as_str()));
            },
            Some(i) => {
                proof {
                    assert(crate::text::matches_at(t@, i as int, "Status:"@));
                }
                let sp = space_run_from(t, i + 7);
                proof {
                    crate::text::lemma_spaces_run(t@, i as int + 7);
                }
                let p = i + 7 + sp;
                if matches_here(t, p, str_chars("inactive").as_slice()) {
                    enabled = false;
                } else if matches_here(t, p, str_chars("active").as_slice()) {
                    enabled = true;
                } else {
                    return Err(version_error(text.as_str()));
                }
            },
        }
        // the logging level
        proof {
            reveal_strlit("Logging:");
            crate::text::lemma_find_sub(t@, "Logging:"@);
        }
        let logging_pat = str_chars("Logging:");
        match crate::text::find_pattern(t, logging_pat.as_slice()) {
            None => {
                return Err(ParseError::InvalidLoggingLevel(text.clone()));
            },
            Some(i) => {
                proof {
                    assert(crate::text::matches_at(t@, i as int, "Logging:"@));
                }
                let sp1 = space_run_from(t, i + 8);
                proof {
                    crate::text::lemma_spaces_run(t@, i as int + 8);
                }
                let p = i + 8 + sp1;
                if matches_here(t, p, str_chars("off").as_slice()) {
                    return Ok((enabled, LoggingLevel::Off));
                }
                if !matches_here(t, p, str_chars("on").as_slice()) {
                    return Err(ParseError::InvalidLoggingLevel(text.clone()));
                }
                proof {
                    reveal_strlit("on");
                }
                let sp2 = space_run_from(t, p + 2);
                proof {
                    crate::text::lemma_spaces_run(t@, p as int + 2);
                }
                let q = p + 2 + sp2;
                if q < n && t[q] == '(' {
                    let w = word_run_from(t, q + 1);
                    proof {
                        crate::text::lemma_word_run(t@, q as int + 1);
                    }
                    if w > 0 && q + 1 + w < n && t[q + 1 + w] == ')' {
                        let level = &t[q + 1..q + 1 + w];
                        proof {
                            assert(level@ =~= t@.subrange(q as int + 1, q as int + 1 + w as int));
                        }
                        let onc = str_chars("on");
                        match logging_level_from_chars(onc.as_slice(), level) {
                            Ok(lv) => Ok((enabled, lv)),
                            Err(_) => Err(ParseError::InvalidLoggingLevel(String::from_str(
                                "Invalid logging level found. Valid logging levels are: `low`, `medium`, `high`, `full`.",
                            ))),
                        }
                    } else {
                        return Err(ParseError::InvalidLoggingLevel(String::from_str(
                            "Invalid logging level found. Valid logging levels are: `low`, `medium`, `high`, `full`.",
                        )));
                    }
                } else {
                    return Err(ParseError::InvalidLoggingLevel(String::from_str(
                        "Invalid logging level found. Valid logging levels are: `low`, `medium`, `high`, `full`.",
                    )));
                }
            },
        }
    }
}

// ---------------------------------------------------------------------------
// The defaults extractor
// ---------------------------------------------------------------------------
/// True of a report line that carries default policies.
pub open spec fn is_default_line(l: Seq<char>) -> bool {
    l.len() >= 9 && l.take(8) == "Default:"@
}

/// True when the `word (word)` shape occurs at position `j` of a clause.
pub open spec fn clause_match_at(c: Seq<char>, j: int) -> bool {
    let w1 = word_run(c, j);
    let q = j + w1 + spaces_run(c, j + w1);
    let w2 = word_run(c, q + 1);
    &&& w1 > 0
    &&& spaces_run(c, j + w1) > 0
    &&& q < c.len()
    &&& c[q] == '('
    &&& w2 > 0
    &&& q + 1 + w2 < c.len()
    &&& c[q + 1 + w2] == ')'
}

/// The first position from `j` on where the shape occurs.
pub open spec fn find_clause(c: Seq<char>, j: int) -> Option<int>
    decreases c.len() - j,
    when j >= 0
{
    if j >= c.len() {
        None
    } else if clause_match_at(c, j) {
        Some(j)
    } else {
        find_clause(c, j + 1)
    }
}

pub proof fn lemma_find_clause(c: Seq<char>, j: int)
    requires
        0 <= j <= c.len(),
    ensures
        match find_clause(c, j) {
            Some(k) => j <= k < c.len() && clause_match_at(c, k) && forall|m: int|
                j <= m < k ==> !#[trigger] clause_match_at(c, m),
            None => forall|m: int| j <= m < c.len() ==> !#[trigger] clause_match_at(c, m),
        },
    decreases c.len() - j,
{
    if j < c.len() && !clause_match_at(c, j) {
        lemma_find_clause(c, j + 1);
    }
}

/// What one clause yields: the first occurrence of the `word (word)`
/// shape decides, the type word before the bracketed direction; a clause
/// holding no such shape yields one paired error.
pub open spec fn clause_result(c: Seq<char>) -> (
    Result<RuleDirectionDefaults, ParseErrorV>,
    Result<RuleType, ParseErrorV>,
) {
    match find_clause(c, 0) {
        None => (Err(ParseErrorV::InvalidDefaults(c)), Err(ParseErrorV::InvalidDefaults(c))),
        Some(j) => {
            let w1 = word_run(c, j);
            let q = j + w1 + spaces_run(c, j + w1);
            let w2 = word_run(c, q + 1);
            (
                spec_rule_direction_defaults(c.subrange(q + 1, q + 1 + w2)),
                spec_rule_type(c.subrange(j, j + w1)),
            )
        },
    }
}

/// The part of a defaults line after its last `: ` separator.
pub open spec fn line_rest(l: Seq<char>) -> Seq<char> {
    match crate::text::find_sub_last(l, ": "@) {
        None => l,
        Some(i) => l.skip(i + 2),
    }
}

/// What one defaults line yields: one pair per `, `-separated clause.
pub open spec fn line_clause_results(l: Seq<char>) -> Seq<
    (Result<RuleDirectionDefaults, ParseErrorV>, Result<RuleType, ParseErrorV>),
> {
    crate::text::split_sub(line_rest(l), ", "@).map_values(|c: Seq<char>| clause_result(c))
}

/// The pairs all the defaults lines yield, in order.
pub open spec fn defaults_lines(ls: Seq<Seq<char>>) -> Seq<
    (Result<RuleDirectionDefaults, ParseErrorV>, Result<RuleType, ParseErrorV>),
>
    decreases ls.len(),
{
    if ls.len() == 0 {
        Seq::empty()
    } else {
        (if is_default_line(ls[0]) {
            line_clause_results(ls[0])
        } else {
            Seq::empty()
        }) + defaults_lines(ls.drop_first())
    }
}

/// What the defaults call yields from a captured `status verbose` run.
pub open spec fn spec_defaults(success: bool, stdout: Seq<u8>, stderr: Seq<u8>) -> Result<
    Seq<(Result<RuleDirectionDefaults, ParseErrorV>, Result<RuleType, ParseErrorV>)>,
    ParseErrorV,
> {
    if !success {
        Err(run_failed_error(stderr))
    } else if !vstd::utf8::valid_utf8(stdout) {
        Err(utf8_error(stdout))
    } else {
        Ok(defaults_lines(split_on(vstd::utf8::decode_utf8(stdout), '\n')))
    }
}

/// The mathematical value of one parsed clause pair.
pub open spec fn default_pair_view(
    p: (ParseResult<RuleDirectionDefaults>, ParseResult<RuleType>),
) -> (Result<RuleDirectionDefaults, ParseErrorV>, Result<RuleType, ParseErrorV>) {
    (
        match p.0 {
            Ok(v) => Ok(v),
            Err(e) => Err(e@),
        },
        match p.1 {
            Ok(v) => Ok(v),
            Err(e) => Err(e@),
        },
    )
}

/// The mathematical value of a parsed clause list.
pub open spec fn default_pairs_view(
    s: Seq<(ParseResult<RuleDirectionDefaults>, ParseResult<RuleType>)>,
) -> Seq<(Result<RuleDirectionDefaults, ParseErrorV>, Result<RuleType, ParseErrorV>)> {
    s.map_values(
        |p: (ParseResult<RuleDirectionDefaults>, ParseResult<RuleType>)| default_pair_view(p),
    )
}

/// Reads one clause, looking for the first occurrence of its shape.
#[verifier::loop_isolation(false)]
fn parse_default_clause(c: &[char]) -> (r: (
    ParseResult<RuleDirectionDefaults>,
    ParseResult<RuleType>,
))
    ensures
        default_pair_view(r) == clause_result(c@),
{
    let n = c.len();
    proof {
        lemma_find_clause(c@, 0);
    }
    let mut j: usize = 0;
    while j < n
        invariant
            0 <= j <= n,
            forall|m: int| 0 <= m < j ==> !#[trigger] clause_match_at(c@, m),
        decreases n - j,
    {
        let w1 = word_run_from(c, j);
        proof {
            crate::text::lemma_word_run(c@, j as int);
        }
        if w1 == 0 {
            proof {
                assert(!clause_match_at(c@, j as int));
            }
            j += 1;
            continue;
        }
        let sp = space_run_from(c, j + w1);
        proof {
            crate::text::lemma_spaces_run(c@, j as int + w1 as int);
        }
        let q = j + w1 + sp;
        if sp == 0 || q >= n || c[q] != '(' {
            proof {
                assert(!clause_match_at(c@, j as int));
            }
            j += 1;
            continue;
        }
        let w2 = word_run_from(c, q + 1);
        proof {
            crate::text::lemma_word_run(c@, q as int + 1);
        }
        if w2 == 0 || q + 1 + w2 >= n || c[q + 1 + w2] != ')' {
            proof {
                assert(!clause_match_at(c@, j as int));
            }
            j += 1;
            continue;
        }
        proof {
            assert(clause_match_at(c@, j as int));
            let fc = find_clause(c@, 0);
            if fc is Some {
                assert(!(fc->0 < j as int));
                assert(!(fc->0 > j as int));
            }
        }
        let dirw = &c[q + 1..q + 1 + w2];
        let typw = &c[j..j + w1];
        proof {
            assert(dirw@ =~= c@.subrange(q as int + 1, q as int + 1 + w2 as int));
            assert(typw@ =~= c@.subrange(j as int, j as int + w1 as int));
        }
        return (rule_direction_defaults_from_chars(dirw), rule_type_from_chars(typw));
    }
    (
        Err(ParseError::InvalidDefaults(chars_to_string(c))),
        Err(ParseError::InvalidDefaults(chars_to_string(c))),
    )
}

/// Reads the clauses of one defaults line.
fn parse_default_line(l: &[char]) -> (r: Vec<
    (ParseResult<RuleDirectionDefaults>, ParseResult<RuleType>),
>)
    ensures
        default_pairs_view(r@) =~~= line_clause_results(l@),
{
    proof {
        reveal_strlit(": ");
        reveal_strlit(", ");
        crate::text::lemma_find_sub_last(l@, ": "@);
    }
    let n = l.len();
    let pat = str_chars(": ");
    let rest: &[char] = match crate::text::find_pattern_last(l, pat.as_slice()) {
        None => l,
        Some(i) => {
            proof {
                assert(matches_at(l@, i as int, ": "@));
            }
            &l[i + 2..n]
        },
    };
    proof {
        assert(rest@ =~= line_rest(l@));
    }
    let sep = str_chars(", ");
    let clauses = crate::text::split_pattern(rest, sep.as_slice());
    let ghost cs = crate::text::split_sub(line_rest(l@), ", "@);
    let mut out: Vec<(ParseResult<RuleDirectionDefaults>, ParseResult<RuleType>)> = Vec::new();
    let mut i: usize = 0;
    while i < clauses.len()
        invariant
            0 <= i <= clauses.len(),
            clauses.deep_view() =~~= cs,
            cs == crate::text::split_sub(line_rest(l@), ", "@),
            out@.len() == i,
            forall|j: int|
                0 <= j < i ==> default_pair_view(#[trigger] out@[j]) == clause_result(cs[j]),
        decreases clauses.len() - i,
    {
        let clause = &clauses[i];
        proof {
            assert(cs[i as int] == clause@);
        }
        out.push(parse_default_clause(clause.as_slice()));
        i += 1;
    }
    proof {
        assert(default_pairs_view(out@) =~~= cs.map_values(|c: Seq<char>| clause_result(c)));
    }
    out
}

impl UfwCommand {
    /// Extracts the default policies from a captured `status verbose` run:
    /// one pair per clause of every `Default:` line, each clause failing
    /// alone.
    pub fn defaults(output: &UfwCommandOutput) -> (r: ParseResult<
        Vec<(ParseResult<RuleDirectionDefaults>, ParseResult<RuleType>)>,
    >)
        ensures
            (match r {
                Ok(v) => spec_defaults(output.success, output.stdout@, output.stderr@) == Ok::<
                    Seq<(Result<RuleDirectionDefaults, ParseErrorV>, Result<RuleType, ParseErrorV>)>,
                    ParseErrorV,
                >(default_pairs_view(v@)),
                Err(e) => spec_defaults(output.success, output.stdout@, output.stderr@) == Err::<
                    Seq<(Result<RuleDirectionDefaults, ParseErrorV>, Result<RuleType, ParseErrorV>)>,
                    ParseErrorV,
                >(e@),
            }),
    {
        if !output.success {
            return Err(run_failed(output));
        }
        let text = match utf8_to_string(&output.stdout) {
            Ok(s) => s,
            Err(m) => {
                return Err(ParseError::IOError(m));
            },
        };
        let tc = str_chars(text.as_str());
        let lines = crate::text::split_char(tc.as_slice(), '\n');
        let ghost ls = split_on(text@, '\n');
        let mut out: Vec<(ParseResult<RuleDirectionDefaults>, ParseResult<RuleType>)> = Vec::new();
        proof {
            assert(ls.skip(0) =~~= ls);
            assert(default_pairs_view(out@) + defaults_lines(ls) =~~= defaults_lines(ls));
        }
        let mut i: usize = 0;
        while i < lines.len()
            invariant
                0 <= i <= lines.len(),
                lines.deep_view() =~~= ls,
                ls == split_on(text@, '\n'),
                defaults_lines(ls) =~~= default_pairs_view(out@) + defaults_lines(
                    ls.skip(i as int),
                ),
            decreases lines.len() - i,
        {
            let l = &lines[i];
            proof {
                assert(ls[i as int] == l@);
                assert(ls.skip(i as int)[0] == ls[i as int]);
                assert(ls.skip(i as int).drop_first() =~~= ls.skip(i as int + 1));
            }
            let header = str_chars("Default:");
            if l.len() >= 9 && chars_eq(&l.as_slice()[0..8], header.as_slice()) {
                proof {
                    assert(l@.subrange(0, 8) =~= l@.take(8));
                    assert(is_default_line(ls[i as int]));
                }
                let mut pairs = parse_default_line(l.as_slice());
                let ghost old_out = out@;
                let ghost newp = pairs@;
                out.append(&mut pairs);
                proof {
                    assert(default_pairs_view(old_out + newp) =~~= default_pairs_view(old_out)
                        + default_pairs_view(newp));
                }
            } else {
                proof {
                    if l@.len() >= 9 {
                        assert(l@.subrange(0, 8) =~= l@.take(8));
                    }
                    assert(!is_default_line(ls[i as int]));
                }
            }
            i += 1;
        }
        proof {
            assert(ls.skip(ls.len() as int) =~~= Seq::<Seq<char>>::empty());
        }
        Ok(out)
    }
}

// ---------------------------------------------------------------------------
// The numbered-rules extractor
// ---------------------------------------------------------------------------
/// What reading an action token pair yields: the rule type from the first
/// token, the direction from the second, each missing token named.
pub open spec fn spec_parse_action(args: Seq<Seq<char>>) -> Result<UfwAction, ParseErrorV> {
    if args.len() < 1 {
        Err(ParseErrorV::WrongRuleType("couldn't get rule type"@))
    } else if args.len() < 2 {
        Err(ParseErrorV::WrongRuleType("couldn't get rule direction"@))
    } else {
        match spec_rule_type(args[0]) {
            Err(e) => Err(e),
            Ok(t) => match spec_rule_direction(args[1]) {
                Err(e) => Err(e),
                Ok(d) => Ok(UfwAction { typ: t, direction: d }),
            },
        }
    }
}

impl UfwCommand {
    /// Reads a rule's action from its argument tokens: the type keyword,
    /// then the direction keyword.
    pub fn parse_action(arguments: Vec<&str>) -> (r: ParseResult<UfwAction>)
        ensures
            result_matches(r, spec_parse_action(arguments.deep_view())),
    {
        if arguments.len() == 0 {
            return Err(ParseError::WrongRuleType(String::from_str("couldn't get rule type")));
        }
        if arguments.len() == 1 {
            return Err(ParseError::WrongRuleType(String::from_str(
                "couldn't get rule direction",
            )));
        }
        let tc = str_chars(arguments[0]);
        let dc = str_chars(arguments[1]);
        proof {
            assert(arguments.deep_view()[0] == arguments@[0]@);
            assert(arguments.deep_view()[1] == arguments@[1]@);
        }
        match rule_type_from_chars(tc.as_slice()) {
            Err(e) => Err(e),
            Ok(t) => match rule_direction_from_chars(dc.as_slice()) {
                Err(e) => Err(e),
                Ok(d) => Ok(UfwAction { typ: t, direction: d }),
            },
        }
    }
}

/// The facts a token run of a report line accumulates.
pub struct RunState {
    pub address: Option<Address>,
    pub port: Option<u16>,
    pub proto: Protocol,
    pub v6: bool,
    pub iface: Option<Seq<char>>,
    pub awaiting_iface: bool,
}

/// The state a run starts from: nothing seen, the protocol unspecified.
pub open spec fn init_run_state() -> RunState {
    RunState {
        address: None,
        port: None,
        proto: Protocol::ANY,
        v6: false,
        iface: None,
        awaiting_iface: false,
    }
}

/// How one token changes the run state.  `anywhere` stands for the absent
/// address; `(v6)` marks the address family; `on` names the interface in
/// the following token; a token opening with digits is a port with an
/// optional protocol; anything else must read as an address.
pub open spec fn run_step(st: RunState, tok: Seq<char>) -> Result<RunState, ParseErrorV> {
    if st.awaiting_iface {
        Ok(
            RunState {
                address: st.address,
                port: st.port,
                proto: st.proto,
                v6: st.v6,
                iface: Some(tok),
                awaiting_iface: false,
            },
        )
    } else if to_lower(tok) == "anywhere"@ {
        Ok(st)
    } else if tok == "(v6)"@ {
        Ok(
            RunState {
                address: st.address,
                port: st.port,
                proto: st.proto,
                v6: true,
                iface: st.iface,
                awaiting_iface: st.awaiting_iface,
            },
        )
    } else if to_lower(tok) == "on"@ {
        Ok(
            RunState {
                address: st.address,
                port: st.port,
                proto: st.proto,
                v6: st.v6,
                iface: st.iface,
                awaiting_iface: true,
            },
        )
    } else {
        let head = match crate::text::find_first(tok, '/') {
            None => tok,
            Some(i) => tok.take(i),
        };
        if head.len() > 0 && crate::text::all_digits(head) {
            if !crate::text::is_u16_numeral(head) {
                Err(ParseErrorV::PortNotANumber(crate::application::numeral_error_text(head)))
            } else {
                match crate::text::find_first(tok, '/') {
                    None => Ok(
                        RunState {
                            address: st.address,
                            port: Some(dec_val(head) as u16),
                            proto: st.proto,
                            v6: st.v6,
                            iface: st.iface,
                            awaiting_iface: st.awaiting_iface,
                        },
                    ),
                    Some(i) => match spec_protocol(tok.skip(i + 1)) {
                        Err(e) => Err(e),
                        Ok(p) => Ok(
                            RunState {
                                address: st.address,
                                port: Some(dec_val(head) as u16),
                                proto: p,
                                v6: st.v6,
                                iface: st.iface,
                                awaiting_iface: st.awaiting_iface,
                            },
                        ),
                    },
                }
            }
        } else {
            match spec_address_from(tok) {
                Err(e) => Err(e),
                Ok(a) => Ok(
                    RunState {
                        address: Some(a),
                        port: st.port,
                        proto: st.proto,
                        v6: st.v6,
                        iface: st.iface,
                        awaiting_iface: st.awaiting_iface,
                    },
                ),
            }
        }
    }
}

/// Folds a whole token run, stopping at its first failing token.
pub open spec fn decode_run(toks: Seq<Seq<char>>, st: RunState) -> Result<RunState, ParseErrorV>
    decreases toks.len(),
{
    if toks.len() == 0 {
        Ok(st)
    } else {
        match run_step(st, toks[0]) {
            Err(e) => Err(e),
            Ok(st2) => decode_run(toks.drop_first(), st2),
        }
    }
}

/// The position of the first token that reads as a rule-type keyword.
pub open spec fn first_keyword(toks: Seq<Seq<char>>, i: int) -> Option<int>
    decreases toks.len() - i,
    when i >= 0
{
    if i >= toks.len() {
        None
    } else if spec_rule_type(toks[i]) is Ok {
        Some(i)
    } else {
        first_keyword(toks, i + 1)
    }
}

pub proof fn lemma_first_keyword(toks: Seq<Seq<char>>, i: int)
    requires
        0 <= i <= toks.len(),
    ensures
        match first_keyword(toks, i) {
            Some(j) => i <= j < toks.len() && spec_rule_type(toks[j]) is Ok && forall|k: int|
                i <= k < j ==> !(spec_rule_type(#[trigger] toks[k]) is Ok),
            None => forall|k: int| i <= k < toks.len() ==> !(spec_rule_type(#[trigger] toks[k])
                is Ok),
        },
    decreases toks.len() - i,
{
    if i < toks.len() && !(spec_rule_type(toks[i]) is Ok) {
        lemma_first_keyword(toks, i + 1);
    }
}

/// What one report entry reduces to: the index, the destination run, the
/// action pair, and the source run, the first failure winning.
pub open spec fn entry_of_tokens(num_s: Seq<char>, toks: Seq<Seq<char>>) -> Result<
    RuleEntryV,
    ParseErrorV,
> {
    if !crate::text::is_u16_numeral(num_s) {
        Err(ParseErrorV::PortNotANumber(crate::application::numeral_error_text(num_s)))
    } else {
        match first_keyword(toks, 0) {
            None => Err(ParseErrorV::WrongRuleType("couldn't get rule type"@)),
            Some(k) => match spec_parse_action(toks.skip(k)) {
                Err(e) => Err(e),
                Ok(action) => match decode_run(toks.take(k), init_run_state()) {
                    Err(e) => Err(e),
                    Ok(dst) => match decode_run(toks.skip(k + 2), init_run_state()) {
                        Err(e) => Err(e),
                        Ok(src) => Ok(
                            RuleEntryV {
                                interface: if dst.iface is Some {
                                    dst.iface
                                } else {
                                    src.iface
                                },
                                source_address: src.address,
                                destination_address: dst.address,
                                source_port: src.port,
                                destination_port: dst.port,
                                proto: if dst.proto != Protocol::ANY {
                                    dst.proto
                                } else {
                                    src.proto
                                },
                                ip_version: if dst.v6 || src.v6 {
                                    Some(IpVersion::V6)
                                } else {
                                    None
                                },
                                number: dec_val(num_s) as u16,
                                action: action,
                            },
                        ),
                    },
                },
            },
        }
    }
}

/// What one report line yields: nothing for a line without a leading
/// bracketed index, else the entry its remainder reduces to.
pub open spec fn line_entry(l: Seq<char>) -> Option<Result<RuleEntryV, ParseErrorV>> {
    if l.len() == 0 || l[0] != '[' {
        None
    } else {
        let p = 1 + spaces_run(l, 1);
        let d = digits_run(l, p);
        if d == 0 || p + d >= l.len() || l[p + d] != ']' {
            None
        } else {
            Some(entry_of_tokens(l.subrange(p, p + d), crate::text::words(l.skip(p + d + 1))))
        }
    }
}

/// The entries all the matching lines yield, in order.
pub open spec fn lines_entries(ls: Seq<Seq<char>>) -> Seq<Result<RuleEntryV, ParseErrorV>>
    decreases ls.len(),
{
    if ls.len() == 0 {
        Seq::empty()
    } else {
        (match line_entry(ls[0]) {
            None => Seq::empty(),
            Some(r) => seq![r],
        }) + lines_entries(ls.drop_first())
    }
}

/// What the numbered call yields from a captured `status numbered` run.
pub open spec fn spec_numbered(success: bool, stdout: Seq<u8>, stderr: Seq<u8>) -> Result<
    Seq<Result<RuleEntryV, ParseErrorV>>,
    ParseErrorV,
> {
    if !success {
        Err(run_failed_error(stderr))
    } else if !vstd::utf8::valid_utf8(stdout) {
        Err(utf8_error(stdout))
    } else {
        Ok(lines_entries(split_on(vstd::utf8::decode_utf8(stdout), '\n')))
    }
}

/// The run state as the decoder carries it.
struct RunDecode {
    address: Option<Address>,
    port: Option<u16>,
    proto: Protocol,
    v6: bool,
    iface: Option<String>,
    awaiting_iface: bool,
}

/// The mathematical value of the decoder's state.
spec fn rd_view(st: RunDecode) -> RunState {
    RunState {
        address: st.address,
        port: st.port,
        proto: st.proto,
        v6: st.v6,
        iface: match st.iface {
            Some(s) => Some(s@),
            None => None,
        },
        awaiting_iface: st.awaiting_iface,
    }
}

/// Folds the tokens in `[from, to)` from the initial state.
fn decode_tokens(toks: &[Vec<char>], from: usize, to: usize) -> (r: Result<RunDecode, ParseError>)
    requires
        from <= to <= toks@.len(),
    ensures
        (match r {
            Ok(st) => decode_run(toks.deep_view().subrange(from as int, to as int),
                init_run_state()) == Ok::<RunState, ParseErrorV>(rd_view(st)),
            Err(e) => decode_run(toks.deep_view().subrange(from as int, to as int),
                init_run_state()) == Err::<RunState, ParseErrorV>(e@),
        }),
{
    let ghost dv = toks.deep_view();
    let mut st = RunDecode {
        address: None,
        port: None,
        proto: Protocol::ANY,
        v6: false,
        iface: None,
        awaiting_iface: false,
    };
    let mut i = from;
    proof {
        assert(rd_view(st) == init_run_state());
    }
    while i < to
        invariant
            from <= i <= to <= toks@.len(),
            dv == toks.deep_view(),
            decode_run(dv.subrange(from as int, to as int), init_run_state()) == decode_run(
                dv.subrange(i as int, to as int),
                rd_view(st),
            ),
        decreases to - i,
    {
        let tok = &toks[i];
        proof {
            assert(dv[i as int] == tok@);
            assert(dv.subrange(i as int, to as int)[0] == dv[i as int]);
            assert(dv.subrange(i as int, to as int).drop_first() =~~= dv.subrange(
                i as int + 1,
                to as int,
            ));
        }
        let t = tok.as_slice();
        if st.awaiting_iface {
            st.iface = Some(chars_to_string(t));
            st.awaiting_iface = false;
        } else {
            let low = lower_chars(t);
            if chars_eq(low.as_slice(), str_chars("anywhere").as_slice()) {
                // the absent address: nothing to record
            } else if chars_eq(t, str_chars("(v6)").as_slice()) {
                st.v6 = true;
            } else if chars_eq(low.as_slice(), str_chars("on").as_slice()) {
                st.awaiting_iface = true;
            } else {
                proof {
                    crate::text::lemma_find_first(tok@, '/');
                }
                let n = t.len();
                let cut = crate::text::find_char(t, '/');
                let head: &[char] = match cut {
                    None => t,
                    Some(c) => &t[0..c],
                };
                proof {
                    match crate::text::find_first(tok@, '/') {
                        None => {
                            assert(head@ =~= tok@);
                        },
                        Some(c) => {
                            assert(head@ =~= tok@.take(c));
                        },
                    }
                }
                match parse_u16_chars(head) {
                    Ok(v) => {
                        match cut {
                            None => {
                                st.port = Some(v);
                            },
                            Some(c) => {
                                let suffix = &t[c + 1..n];
                                proof {
                                    assert(suffix@ =~= tok@.skip(c as int + 1));
                                }
                                match protocol_from_chars(suffix) {
                                    Ok(p) => {
                                        st.port = Some(v);
                                        st.proto = p;
                                    },
                                    Err(e) => {
                                        return Err(e);
                                    },
                                }
                            },
                        }
                    },
                    Err(crate::text::NumeralError::TooLarge) => {
                        return Err(ParseError::PortNotANumber(
                            crate::application::numeral_message(head),
                        ));
                    },
                    Err(crate::text::NumeralError::NotNumeric) => {
                        match address_from_chars(t) {
                            Ok(a) => {
                                st.address = Some(a);
                            },
                            Err(e) => {
                                return Err(e);
                            },
                        }
                    },
                }
            }
        }
        i += 1;
    }
    proof {
        assert(dv.subrange(to as int, to as int) =~~= Seq::<Seq<char>>::empty());
    }
    Ok(st)
}

/// Reads the rule's action starting at the keyword position.
fn action_from_tokens(toks: &[Vec<char>], k: usize) -> (r: ParseResult<UfwAction>)
    requires
        k < toks@.len(),
    ensures
        result_matches(r, spec_parse_action(toks.deep_view().skip(k as int))),
{
    let ghost dv = toks.deep_view();
    proof {
        assert(dv.skip(k as int).len() == dv.len() - k);
    }
    if toks.len() - k < 2 {
        return Err(ParseError::WrongRuleType(String::from_str("couldn't get rule direction")));
    }
    proof {
        assert(dv.skip(k as int)[0] == dv[k as int]);
        assert(dv.skip(k as int)[1] == dv[k as int + 1]);
        assert(dv[k as int] == toks@[k as int]@);
        assert(dv[k as int + 1] == toks@[k as int + 1]@);
    }
    match rule_type_from_chars(toks[k].as_slice()) {
        Err(e) => Err(e),
        Ok(t) => match rule_direction_from_chars(toks[k + 1].as_slice()) {
            Err(e) => Err(e),
            Ok(d) => Ok(UfwAction { typ: t, direction: d }),
        },
    }
}

/// Finds the first token that reads as a rule-type keyword.
fn find_keyword(toks: &[Vec<char>]) -> (r: Option<usize>)
    ensures
        (match r {
            Some(j) => first_keyword(toks.deep_view(), 0) == Some(j as int) && j < toks@.len(),
            None => first_keyword(toks.deep_view(), 0) is None,
        }),
{
    let ghost tv = toks.deep_view();
    proof {
        lemma_first_keyword(tv, 0);
    }
    let mut k: usize = 0;
    while k < toks.len()
        invariant
            0 <= k <= toks.len(),
            tv == toks.deep_view(),
            forall|j: int| 0 <= j < k ==> !(spec_rule_type(#[trigger] tv[j]) is Ok),
            match first_keyword(tv, 0) {
                Some(j) => 0 <= j < tv.len() && spec_rule_type(tv[j]) is Ok && forall|jj: int|
                    0 <= jj < j ==> !(spec_rule_type(#[trigger] tv[jj]) is Ok),
                None => forall|jj: int| 0 <= jj < tv.len() ==> !(spec_rule_type(
                    #[trigger] tv[jj],
                ) is Ok),
            },
        decreases toks.len() - k,
    {
        proof {
            assert(tv[k as int] == toks@[k as int]@);
        }
        match rule_type_from_chars(toks[k].as_slice()) {
            Ok(_) => {
                proof {
                    let j = first_keyword(tv, 0);
                    if j is Some {
                        assert(!(j->0 < k as int));
                        assert(!(j->0 > k as int));
                    }
                }
                return Some(k);
            },
            Err(_) => {},
        }
        k += 1;
    }
    None
}

/// Reduces one line's index numeral and remainder tokens to an entry.
fn parse_entry(num: &[char], rest: &[char]) -> (r: ParseResult<RuleEntry>)
    ensures
        view_result_entry(r) == entry_of_tokens(num@, crate::text::words(rest@)),
{
    let number = match parse_u16_chars(num) {
        Ok(v) => v,
        Err(_) => {
            return Err(ParseError::PortNotANumber(crate::application::numeral_message(num)));
        },
    };
    let toks = crate::text::split_words(rest);
    let ghost tv = crate::text::words(rest@);
    proof {
        assert(toks.deep_view() =~~= tv);
    }
    let k = match find_keyword(toks.as_slice()) {
        None => {
            return Err(ParseError::WrongRuleType(String::from_str("couldn't get rule type")));
        },
        Some(k) => k,
    };
    let action = match action_from_tokens(toks.as_slice(), k) {
        Ok(a) => a,
        Err(e) => {
            return Err(e);
        },
    };
    proof {
        assert(tv.skip(k as int).len() >= 2);
        assert(k as int + 2 <= tv.len());
        assert(tv.len() == toks@.len());
        assert(tv.subrange(0, k as int) =~~= tv.take(k as int));
    }
    let dst = match decode_tokens(toks.as_slice(), 0, k) {
        Ok(st) => st,
        Err(e) => {
            return Err(e);
        },
    };
    proof {
        assert(tv.subrange(k as int + 2, tv.len() as int) =~~= tv.skip(k as int + 2));
    }
    let src = match decode_tokens(toks.as_slice(), k + 2, toks.len()) {
        Ok(st) => st,
        Err(e) => {
            return Err(e);
        },
    };
    let dst_proto_any = match dst.proto {
        Protocol::ANY => true,
        _ => false,
    };
    let entry = RuleEntry {
        interface: match dst.iface {
            Some(s) => Some(s),
            None => src.iface,
        },
        source_address: src.address,
        destination_address: dst.address,
        source_port: src.port,
        destination_port: dst.port,
        proto: if !dst_proto_any {
            dst.proto
        } else {
            src.proto
        },
        ip_version: if dst.v6 || src.v6 {
            Some(IpVersion::V6)
        } else {
            None
        },
        number: number,
        action: action,
    };
    Ok(entry)
}

/// The mathematical value of one entry result.
pub open spec fn view_result_entry(r: ParseResult<RuleEntry>) -> Result<RuleEntryV, ParseErrorV> {
    match r {
        Ok(v) => Ok(v@),
        Err(e) => Err(e@),
    }
}

/// The mathematical value of an entry result list.
pub open spec fn entry_results_view(s: Seq<ParseResult<RuleEntry>>) -> Seq<
    Result<RuleEntryV, ParseErrorV>,
> {
    s.map_values(|r: ParseResult<RuleEntry>| view_result_entry(r))
}

/// Reads one report line, skipping one without a leading bracketed index.
fn parse_rule_line(l: &[char]) -> (r: Option<ParseResult<RuleEntry>>)
    ensures
        (match r {
            None => line_entry(l@) is None,
            Some(res) => line_entry(l@) == Some(view_result_entry(res)),
        }),
{
    let n = l.len();
    if n == 0 || l[0] != '[' {
        return None;
    }
    let sp = space_run_from(l, 1);
    proof {
        crate::text::lemma_spaces_run(l@, 1);
    }
    let p = 1 + sp;
    let d = crate::text::digit_run_from(l, p);
    proof {
        crate::text::lemma_digits_run(l@, p as int);
    }
    if d == 0 {
        return None;
    }
    if p + d >= n || l[p + d] != ']' {
        return None;
    }
    let num = &l[p..p + d];
    let rest = &l[p + d + 1..n];
    proof {
        assert(num@ =~= l@.subrange(p as int, p as int + d as int));
        assert(rest@ =~= l@.skip(p as int + d as int + 1));
    }
    Some(parse_entry(num, rest))
}

impl UfwCommand {
    /// Extracts the numbered rules from a captured `status numbered` run:
    /// one result per line with a leading bracketed index, in order; other
    /// lines are skipped silently.
    pub fn numbered(output: &UfwCommandOutput) -> (r: ParseResult<Vec<ParseResult<RuleEntry>>>)
        ensures
            (match r {
                Ok(v) => spec_numbered(output.success, output.stdout@, output.stderr@) == Ok::<
                    Seq<Result<RuleEntryV, ParseErrorV>>,
                    ParseErrorV,
                >(entry_results_view(v@)),
                Err(e) => spec_numbered(output.success, output.stdout@, output.stderr@) == Err::<
                    Seq<Result<RuleEntryV, ParseErrorV>>,
                    ParseErrorV,
                >(e@),
            }),
    {
        if !output.success {
            return Err(run_failed(output));
        }
        let text = match utf8_to_string(&output.stdout) {
            Ok(s) => s,
            Err(m) => {
                return Err(ParseError::IOError(m));
            },
        };
        let tc = str_chars(text.as_str());
        let lines = crate::text::split_char(tc.as_slice(), '\n');
        let ghost ls = split_on(text@, '\n');
        let mut out: Vec<ParseResult<RuleEntry>> = Vec::new();
        proof {
            assert(ls.skip(0) =~~= ls);
            assert(entry_results_view(out@) + lines_entries(ls) =~~= lines_entries(ls));
        }
        let mut i: usize = 0;
        while i < lines.len()
            invariant
                0 <= i <= lines.len(),
                lines.deep_view() =~~= ls,
                ls == split_on(text@, '\n'),
                lines_entries(ls) =~~= entry_results_view(out@) + lines_entries(ls.skip(i as int)),
            decreases lines.len() - i,
        {
            let l = &lines[i];
            proof {
                assert(ls[i as int] == l@);
                assert(ls.skip(i as int)[0] == ls[i as int]);
                assert(ls.skip(i as int).drop_first() =~~= ls.skip(i as int + 1));
            }
            let ghost old_out = out@;
            match parse_rule_line(l.as_slice()) {
                None => {},
                Some(res) => {
                    out.push(res);
                    proof {
                        assert(entry_results_view(old_out.push(res)) =~~= entry_results_view(
                            old_out,
                        ) + seq![view_result_entry(res)]);
                    }
                },
            }
            i += 1;
        }
        proof {
            assert(ls.skip(ls.len() as int) =~~= Seq::<Seq<char>>::empty());
        }
        Ok(out)
    }
}

} // verus!
