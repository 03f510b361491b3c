//! Parser for the tabular output of the macOS `airport -s` scan: one header
//! line giving fixed column positions, then one row per network.

use vstd::prelude::*;
use crate::Error;
use crate::Wifi;
use crate::WifiView;
use crate::out_view;
use crate::text::find_from;
use crate::text::find_at;
use crate::text::clamp_slice;
use crate::text::clamp_slice_exec;
use crate::text::spec_trim;
use crate::text::trim;
use crate::text::spec_lines;
use crate::text::lines_of;
use crate::text::to_chars;
use crate::text::chars_to_string;

verus! {

pub open spec fn bssid_tag() -> Seq<char> {
    seq!['B', 'S', 'S', 'I', 'D']
}

pub open spec fn rssi_tag() -> Seq<char> {
    seq!['R', 'S', 'S', 'I']
}

pub open spec fn channel_tag() -> Seq<char> {
    seq!['C', 'H', 'A', 'N', 'N', 'E', 'L']
}

pub open spec fn ht_tag() -> Seq<char> {
    seq!['H', 'T']
}

pub open spec fn security_tag() -> Seq<char> {
    seq!['S', 'E', 'C', 'U', 'R', 'I', 'T', 'Y']
}

fn tag_bssid() -> (v: Vec<char>)
    ensures
        v@ == bssid_tag(),
{
    let v = to_chars("BSSID");
    proof {
        reveal_strlit("BSSID");
        assert(v@ =~= bssid_tag());
    }
    v
}

fn tag_rssi() -> (v: Vec<char>)
    ensures
        v@ == rssi_tag(),
{
    let v = to_chars("RSSI");
    proof {
        reveal_strlit("RSSI");
        assert(v@ =~= rssi_tag());
    }
    v
}

fn tag_channel() -> (v: Vec<char>)
    ensures
        v@ == channel_tag(),
{
    let v = to_chars("CHANNEL");
    proof {
        reveal_strlit("CHANNEL");
        assert(v@ =~= channel_tag());
    }
    v
}

fn tag_ht() -> (v: Vec<char>)
    ensures
        v@ == ht_tag(),
{
    let v = to_chars("HT");
    proof {
        reveal_strlit("HT");
        assert(v@ =~= ht_tag());
    }
    v
}

fn tag_security() -> (v: Vec<char>)
    ensures
        v@ == security_tag(),
{
    let v = to_chars("SECURITY");
    proof {
        reveal_strlit("SECURITY");
        assert(v@ =~= security_tag());
    }
    v
}

/// The character offsets of the column headers in the header line.
pub struct AirportCols {
    pub mac: int,
    pub rssi: int,
    pub channel: int,
    pub ht: int,
    pub security: int,
}

/// The column layout read off the header line: the position of each header
/// token, or `None` when one of them is absent.
pub open spec fn airport_cols(h: Seq<char>) -> Option<AirportCols> {
    match (
        find_from(h, bssid_tag(), 0),
        find_from(h, rssi_tag(), 0),
        find_from(h, channel_tag(), 0),
        find_from(h, ht_tag(), 0),
        find_from(h, security_tag(), 0),
    ) {
        (Some(m), Some(r), Some(c), Some(t), Some(s)) => Some(
            AirportCols { mac: m, rssi: r, channel: c, ht: t, security: s },
        ),
        _ => None,
    }
}

/// One data row sliced at the column offsets, each field trimmed: the text
/// before the BSSID column is the name, then MAC, signal, channel, and the
/// tail from the SECURITY column.
pub open spec fn airport_row(l: Seq<char>, c: AirportCols) -> WifiView {
    WifiView {
        ssid: spec_trim(clamp_slice(l, 0, c.mac)),
        mac: spec_trim(clamp_slice(l, c.mac, c.rssi)),
        signal_level: spec_trim(clamp_slice(l, c.rssi, c.channel)),
        channel: spec_trim(clamp_slice(l, c.channel, c.ht)),
        security: spec_trim(clamp_slice(l, c.security, l.len() as int)),
    }
}

/// The meaning of `airport -s` output: empty input parses to no records;
/// otherwise the first line must hold all five column headers (else the parse
/// fails), and every following line is one record sliced at those columns.
pub open spec fn spec_parse_airport(s: Seq<char>) -> Result<Seq<WifiView>, Error> {
    let ls = spec_lines(s);
    if ls.len() == 0 {
        Ok(Seq::empty())
    } else {
        match airport_cols(ls[0]) {
            Some(c) => Ok(Seq::new((ls.len() - 1) as nat, |i: int| airport_row(ls[i + 1], c))),
            None => Err(Error::FailedToParse),
        }
    }
}

/// Parses the output of `airport -s`.
pub fn parse_airport(network_list: &str) -> (r: Result<Vec<Wifi>, Error>)
    ensures
        out_view(&r) == spec_parse_airport(network_list@),
{
    let cs = to_chars(network_list);
    let ls = lines_of(&cs);
    let ghost lsv = spec_lines(network_list@);
    if ls.len() == 0 {
        let out: Vec<Wifi> = Vec::new();
        proof {
            assert(out.deep_view() =~= Seq::<WifiView>::empty());
        }
        return Ok(out);
    }
    let header = &ls[0];
    proof {
        assert(ls@[0].deep_view() =~= ls@[0]@);
        assert(header@ == lsv[0]);
    }
    let col_mac = find_at(header, &tag_bssid(), 0);
    let col_rssi = find_at(header, &tag_rssi(), 0);
    let col_channel = find_at(header, &tag_channel(), 0);
    let col_ht = find_at(header, &tag_ht(), 0);
    let col_security = find_at(header, &tag_security(), 0);
    let (m, rs, c, t, sc) = match (col_mac, col_rssi, col_channel, col_ht, col_security) {
        (Some(m), Some(rs), Some(c), Some(t), Some(sc)) => (m, rs, c, t, sc),
        _ => {
            return Err(Error::FailedToParse);
        },
    };
    let ghost cols = AirportCols {
        mac: m as int,
        rssi: rs as int,
        channel: c as int,
        ht: t as int,
        security: sc as int,
    };
    proof {
        assert(airport_cols(lsv[0]) == Some(cols));
    }
    let mut out: Vec<Wifi> = Vec::new();
    let mut i: usize = 1;
    while i < ls.len()
        invariant
            1 <= i <= ls@.len(),
            lsv == ls.deep_view(),
            airport_cols(lsv[0]) == Some(cols),
            lsv.len() == ls@.len(),
            cols == (AirportCols {
                mac: m as int,
                rssi: rs as int,
                channel: c as int,
                ht: t as int,
                security: sc as int,
            }),
            out.deep_view() =~= Seq::new((i - 1) as nat, |k: int| airport_row(lsv[k + 1], cols)),
        decreases ls@.len() - i,
    {
        let line = &ls[i];
        proof {
            assert(ls@[i as int].deep_view() =~= ls@[i as int]@);
            assert(line@ == lsv[i as int]);
        }
        let ssid = trim(&clamp_slice_exec(line, 0, m));
        let mac = trim(&clamp_slice_exec(line, m, rs));
        let signal_level = trim(&clamp_slice_exec(line, rs, c));
        let channel = trim(&clamp_slice_exec(line, c, t));
        let security = trim(&clamp_slice_exec(line, sc, line.len()));
        let w = Wifi {
            mac: chars_to_string(&mac),
            ssid: chars_to_string(&ssid),
            channel: chars_to_string(&channel),
            signal_level: chars_to_string(&signal_level),
            security: chars_to_string(&security),
        };
        proof {
            assert(w@ =~= airport_row(lsv[i as int], cols));
        }
        let ghost prev = out.deep_view();
        out.push(w);
        proof {
            assert(out.deep_view() =~= prev.push(w@));
            assert(prev.push(w@) =~= Seq::new(i as nat, |k: int| airport_row(lsv[k + 1], cols)));
        }
        i += 1;
    }
    Ok(out)
}

/// Empty input yields an empty record sequence, never an error.
pub proof fn lemma_parse_airport_empty()
    ensures
        spec_parse_airport(Seq::<char>::empty()) == Ok::<Seq<WifiView>, Error>(
            Seq::<WifiView>::empty(),
        ),
{
    assert(spec_lines(Seq::<char>::empty()) =~= Seq::<Seq<char>>::empty());
}

/// Header-only input whose header line holds all five column tokens yields an
/// empty record sequence, never an error.
pub proof fn lemma_parse_airport_header_only(s: Seq<char>)
    requires
        spec_lines(s).len() == 1,
        airport_cols(spec_lines(s)[0]) is Some,
    ensures
        spec_parse_airport(s) == Ok::<Seq<WifiView>, Error>(Seq::<WifiView>::empty()),
{
    let c = airport_cols(spec_lines(s)[0]).unwrap();
    assert(Seq::new(0nat, |i: int| airport_row(spec_lines(s)[i + 1], c)) =~= Seq::<
        WifiView,
    >::empty());
}

} // verus!
