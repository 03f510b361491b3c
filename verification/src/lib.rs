//! Parsers that turn the textual output of platform wireless-scan tools
//! (`airport` on macOS, `iwlist` and `iw` on Linux, `netsh` on Windows)
//! into a uniform sequence of access-point records.
//!
//! Each parser is a pure function from a text blob to a list of [`Wifi`]
//! records (or an [`Error`]), and each carries a contract stating that its
//! result equals a spec-level interpretation of its input. Running the
//! platform tool and capturing its output is left to the caller.

use vstd::prelude::*;

pub mod text;
pub mod numbers;
pub mod signal;
pub mod airport;
pub mod iw;
pub mod iwlist;
pub mod netsh;
pub mod openbsd;

verus! {

/// The ways a scan or a parse can fail.
#[derive(Debug, Clone, Copy, PartialEq, Eq, Structural)]
pub enum Error {
    /// An internal pattern failed to compile. The parsers here carry their
    /// patterns as verified matchers, so none of them produces this.
    SyntaxRegexError,
    /// The platform scanning tool is missing or cannot be executed; produced
    /// by the process-running caller, not by the parsers.
    CommandNotFound,
    /// A required pattern did not match where a value was mandatory.
    NoMatch,
    /// A numeric or structural parse failed.
    FailedToParse,
    /// An expected token or segment was absent.
    NoValue,
}

/// The mathematical image of a [`Wifi`] record: its five fields as
/// character sequences.
#[verifier::ext_equal]
pub struct WifiView {
    pub mac: Seq<char>,
    pub ssid: Seq<char>,
    pub channel: Seq<char>,
    pub signal_level: Seq<char>,
    pub security: Seq<char>,
}

/// One sighting of a wireless network. All fields are text as emitted by the
/// source tool; a field the source format does not expose is the empty string.
#[derive(Debug, Eq)]
pub struct Wifi {
    /// Colon-separated MAC address, case as emitted by the source tool.
    pub mac: String,
    /// Network name; may be empty or a placeholder such as `<hidden>`.
    pub ssid: String,
    /// Channel number as text.
    pub channel: String,
    /// Signal strength in dBm as text.
    pub signal_level: String,
    /// Security label; empty where the source format does not expose it.
    pub security: String,
}

impl View for Wifi {
    type V = WifiView;

    open spec fn view(&self) -> WifiView {
        WifiView {
            mac: self.mac@,
            ssid: self.ssid@,
            channel: self.channel@,
            signal_level: self.signal_level@,
            security: self.security@,
        }
    }
}

impl DeepView for Wifi {
    type V = WifiView;

    open spec fn deep_view(&self) -> WifiView {
        self.view()
    }
}

impl PartialEq for Wifi {
    fn eq(&self, other: &Wifi) -> (r: bool) {
        self.mac == other.mac && self.ssid == other.ssid && self.channel == other.channel
            && self.signal_level == other.signal_level && self.security == other.security
    }
}

impl vstd::std_specs::cmp::PartialEqSpecImpl for Wifi {
    open spec fn obeys_eq_spec() -> bool {
        true
    }

    open spec fn eq_spec(&self, other: &Wifi) -> bool {
        self@ =~= other@
    }
}

impl Default for Wifi {
    /// A record with every field empty.
    fn default() -> (r: Wifi)
        ensures
            r@ =~= empty_wifi(),
    {
        Wifi {
            mac: String::new(),
            ssid: String::new(),
            channel: String::new(),
            signal_level: String::new(),
            security: String::new(),
        }
    }
}

/// The view of a record whose five fields are all empty.
pub open spec fn empty_wifi() -> WifiView {
    WifiView {
        mac: Seq::empty(),
        ssid: Seq::empty(),
        channel: Seq::empty(),
        signal_level: Seq::empty(),
        security: Seq::empty(),
    }
}

/// The image of a parser's result: record views on success, the error itself
/// on failure. The parsers' contracts equate this with a spec-level parse.
pub open spec fn out_view(r: &Result<Vec<Wifi>, Error>) -> Result<Seq<WifiView>, Error> {
    match r {
        Ok(ws) => Ok(ws.deep_view()),
        Err(e) => Err(*e),
    }
}

/// Parsing is a pure function of the input text: each parser's contract
/// equates its result with a spec function of the input's characters alone,
/// so re-parsing equal text yields an identical record sequence (or the
/// identical error).
pub proof fn lemma_parsers_deterministic(s1: Seq<char>, s2: Seq<char>)
    requires
        s1 == s2,
    ensures
        crate::airport::spec_parse_airport(s1) == crate::airport::spec_parse_airport(s2),
        crate::iwlist::spec_parse_iwlist(s1) == crate::iwlist::spec_parse_iwlist(s2),
        crate::netsh::spec_parse_netsh(s1) == crate::netsh::spec_parse_netsh(s2),
        crate::iw::spec_parse_iw_dev(s1) == crate::iw::spec_parse_iw_dev(s2),
        crate::iw::spec_extract_interface(s1) == crate::iw::spec_extract_interface(s2),
{
}

} // verus!
