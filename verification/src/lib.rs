//! Parsing and validation of firewall configuration text: application
//! profiles (port/protocol specifications keyed by service name), single
//! rule lines, and the textual reports of the firewall management tool.
//!
//! Everything here is synchronous and pure: text goes in as already
//! materialized values, typed entities or typed errors come out.  Reading
//! files, walking directories and invoking the tool itself are the callers'
//! business.
use vstd::prelude::*;

pub mod addr;
pub mod application;
pub mod config;
pub mod numbered;
pub mod text;
pub mod ufw;

pub use application::{Application, ApplicationEntry};
pub use config::Config;
pub use numbered::{
    parse, parse_cidr, parse_line, parse_portp, Address, AddressParser, Direction, Element, Line,
    Modifier, Protocol,
};
pub use ufw::UfwCommand;

verus! {

/// Every way a parse can fail.  Item-level failures are stored as values
/// inside result collections, so one bad item never discards its siblings.
#[derive(Clone, Debug)]
pub enum ParseError {
    /// A port range is missing one of its sides; the payload names the side.
    InvalidPortRange(String),
    /// A port token is not a number that fits a port; the payload carries
    /// the underlying numeric-parse message.
    PortNotANumber(String),
    /// The profile file to parse does not exist.
    FileNotFound,
    /// A port number appeared after the protocol suffix of its entry.
    NumberAfterProtocol(String),
    /// The token is not a recognized protocol name.
    InvalidProtocol(String),
    /// An underlying read or capture failed; the payload carries the
    /// diagnostic text.
    IOError(String),
    /// A ports entry has no items before its first separator.
    PortsSectionEmpty,
    /// The profile has no usable `title` key.
    MissingTitle,
    /// The profile has no usable `description` key.
    MissingDescription,
    /// The profile has no usable `ports` key.
    MissingPorts,
    /// The `ports` value yields no items at all.
    EmptyPortsSection,
    /// The logging line names no recognized level; the payload is the
    /// offending text or a hint naming the valid levels.
    InvalidLoggingLevel(String),
    /// The token is not a recognized rule direction.
    WrongRuleDirection(String),
    /// The token is not a recognized rule type.
    WrongRuleType(String),
    /// A defaults clause does not have the `<word> (<word>)` shape.
    InvalidDefaults(String),
    /// A CIDR token is not a number between 0 and 32.
    InvalidCidr(String),
    /// A rule line does not match the rule-line grammar at all.
    RuleLineGrammar(String),
}

/// The mathematical value of a [`ParseError`]: the same variants, with each
/// `String` payload replaced by the sequence of its characters.
pub enum ParseErrorV {
    InvalidPortRange(Seq<char>),
    PortNotANumber(Seq<char>),
    FileNotFound,
    NumberAfterProtocol(Seq<char>),
    InvalidProtocol(Seq<char>),
    IOError(Seq<char>),
    PortsSectionEmpty,
    MissingTitle,
    MissingDescription,
    MissingPorts,
    EmptyPortsSection,
    InvalidLoggingLevel(Seq<char>),
    WrongRuleDirection(Seq<char>),
    WrongRuleType(Seq<char>),
    InvalidDefaults(Seq<char>),
    InvalidCidr(Seq<char>),
    RuleLineGrammar(Seq<char>),
}

impl View for ParseError {
    type V = ParseErrorV;

    open spec fn view(&self) -> ParseErrorV {
        match self {
            ParseError::InvalidPortRange(s) => ParseErrorV::InvalidPortRange(s@),
            ParseError::PortNotANumber(s) => ParseErrorV::PortNotANumber(s@),
            ParseError::FileNotFound => ParseErrorV::FileNotFound,
            ParseError::NumberAfterProtocol(s) => ParseErrorV::NumberAfterProtocol(s@),
            ParseError::InvalidProtocol(s) => ParseErrorV::InvalidProtocol(s@),
            ParseError::IOError(s) => ParseErrorV::IOError(s@),
            ParseError::PortsSectionEmpty => ParseErrorV::PortsSectionEmpty,
            ParseError::MissingTitle => ParseErrorV::MissingTitle,
            ParseError::MissingDescription => ParseErrorV::MissingDescription,
            ParseError::MissingPorts => ParseErrorV::MissingPorts,
            ParseError::EmptyPortsSection => ParseErrorV::EmptyPortsSection,
            ParseError::InvalidLoggingLevel(s) => ParseErrorV::InvalidLoggingLevel(s@),
            ParseError::WrongRuleDirection(s) => ParseErrorV::WrongRuleDirection(s@),
            ParseError::WrongRuleType(s) => ParseErrorV::WrongRuleType(s@),
            ParseError::InvalidDefaults(s) => ParseErrorV::InvalidDefaults(s@),
            ParseError::InvalidCidr(s) => ParseErrorV::InvalidCidr(s@),
            ParseError::RuleLineGrammar(s) => ParseErrorV::RuleLineGrammar(s@),
        }
    }
}

/// The one-line description that belongs to each error variant.
pub open spec fn error_message(e: ParseErrorV) -> Seq<char> {
    match e {
        ParseErrorV::InvalidPortRange(_) => "port range must have a protocol attached"@,
        ParseErrorV::PortNotANumber(_) => "port must be a number"@,
        ParseErrorV::FileNotFound => "ufw ini file not found"@,
        ParseErrorV::NumberAfterProtocol(_) => "all port numbers must appear before the protocol"@,
        ParseErrorV::InvalidProtocol(_) => "not a valid protocol"@,
        ParseErrorV::IOError(_) => "an IO error has occured"@,
        ParseErrorV::PortsSectionEmpty => "ports section is empty"@,
        ParseErrorV::MissingTitle => "missing title"@,
        ParseErrorV::MissingDescription => "missing description"@,
        ParseErrorV::MissingPorts => "missing ports"@,
        ParseErrorV::EmptyPortsSection => "ports section yields no items"@,
        ParseErrorV::InvalidLoggingLevel(_) => "not a valid logging level"@,
        ParseErrorV::WrongRuleDirection(_) => "not a valid rule direction"@,
        ParseErrorV::WrongRuleType(_) => "not a valid rule type"@,
        ParseErrorV::InvalidDefaults(_) => "not a valid defaults clause"@,
        ParseErrorV::InvalidCidr(_) => "cidr must be >= 0 && <= 32"@,
        ParseErrorV::RuleLineGrammar(_) => "line does not match the rule grammar"@,
    }
}

impl ParseError {
    /// The one-line description of this error.
    pub fn message(&self) -> (r: String)
        ensures
            r@ == error_message(self@),
    {
        match self {
            ParseError::InvalidPortRange(_) => String::from_str(
                "port range must have a protocol attached",
            ),
            ParseError::PortNotANumber(_) => String::from_str("port must be a number"),
            ParseError::FileNotFound => String::from_str("ufw ini file not found"),
            ParseError::NumberAfterProtocol(_) => String::from_str(
                "all port numbers must appear before the protocol",
            ),
            ParseError::InvalidProtocol(_) => String::from_str("not a valid protocol"),
            ParseError::IOError(_) => String::from_str("an IO error has occured"),
            ParseError::PortsSectionEmpty => String::from_str("ports section is empty"),
            ParseError::MissingTitle => String::from_str("missing title"),
            ParseError::MissingDescription => String::from_str("missing description"),
            ParseError::MissingPorts => String::from_str("missing ports"),
            ParseError::EmptyPortsSection => String::from_str("ports section yields no items"),
            ParseError::InvalidLoggingLevel(_) => String::from_str("not a valid logging level"),
            ParseError::WrongRuleDirection(_) => String::from_str("not a valid rule direction"),
            ParseError::WrongRuleType(_) => String::from_str("not a valid rule type"),
            ParseError::InvalidDefaults(_) => String::from_str("not a valid defaults clause"),
            ParseError::InvalidCidr(_) => String::from_str("cidr must be >= 0 && <= 32"),
            ParseError::RuleLineGrammar(_) => String::from_str(
                "line does not match the rule grammar",
            ),
        }
    }
}

/// The usual result of a parse step.
pub type ParseResult<V> = Result<V, ParseError>;

/// Relates a `ParseResult` to its mathematical value: the same outcome,
/// with an error seen through its view.
pub open spec fn result_matches<T>(r: Result<T, ParseError>, m: Result<T, ParseErrorV>) -> bool {
    match r {
        Ok(v) => m == Ok::<T, ParseErrorV>(v),
        Err(e) => m == Err::<T, ParseErrorV>(e@),
    }
}

/// The mathematical value of a `ParseResult` whose payload has a view:
/// both sides seen through theirs.
pub open spec fn view_result<T: View>(r: Result<T, ParseError>) -> Result<T::V, ParseErrorV> {
    match r {
        Ok(v) => Ok(v@),
        Err(e) => Err(e@),
    }
}

/// The mathematical value of a sequence of `ParseResult`s.
pub open spec fn view_results<T: View>(r: Seq<Result<T, ParseError>>) -> Seq<
    Result<T::V, ParseErrorV>,
> {
    r.map_values(|x: Result<T, ParseError>| view_result(x))
}

} // verus!
