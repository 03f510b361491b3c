//! Parsers for `iw` on Linux: extraction of the first wireless interface
//! name from `iw dev` output, and a tagged-line accumulator for
//! `iw dev <interface> scan` output.

use vstd::prelude::*;
use crate::Error;
use crate::Wifi;
use crate::WifiView;
use crate::out_view;
use crate::text::match_at;
use crate::text::match_at_exec;
use crate::text::take_to;
use crate::text::take_to_exec;
use crate::text::spec_split;
use crate::text::split_by;
use crate::text::spec_lines;
use crate::text::lines_of;
use crate::text::slice_range;
use crate::text::to_chars;
use crate::text::chars_to_string;

verus! {

pub open spec fn interface_tag() -> Seq<char> {
    seq!['\t', 'I', 'n', 't', 'e', 'r', 'f', 'a', 'c', 'e', ' ']
}

pub open spec fn bss_tag() -> Seq<char> {
    seq!['B', 'S', 'S', ' ']
}

pub open spec fn iw_signal_tag() -> Seq<char> {
    seq!['\t', 's', 'i', 'g', 'n', 'a', 'l', ':', ' ']
}

pub open spec fn iw_channel_tag() -> Seq<char> {
    seq![
        '\t',
        'D',
        'S',
        ' ',
        'P',
        'a',
        'r',
        'a',
        'm',
        'e',
        't',
        'e',
        'r',
        ' ',
        's',
        'e',
        't',
        ':',
        ' ',
        'c',
        'h',
        'a',
        'n',
        'n',
        'e',
        'l',
        ' ',
    ]
}

pub open spec fn iw_ssid_tag() -> Seq<char> {
    seq!['\t', 'S', 'S', 'I', 'D', ':', ' ']
}

pub open spec fn lparen_tag() -> Seq<char> {
    seq!['(']
}

pub open spec fn dbm_term_tag() -> Seq<char> {
    seq![' ', 'd', 'B', 'm']
}

pub open spec fn newline_tag() -> Seq<char> {
    seq!['\n']
}

fn tag_interface() -> (v: Vec<char>)
    ensures
        v@ == interface_tag(),
{
    let v = to_chars("\tInterface ");
    proof {
        reveal_strlit("\tInterface ");
        assert(v@ =~= interface_tag());
    }
    v
}

fn tag_bss() -> (v: Vec<char>)
    ensures
        v@ == bss_tag(),
{
    let v = to_chars("BSS ");
    proof {
        reveal_strlit("BSS ");
        assert(v@ =~= bss_tag());
    }
    v
}

fn tag_iw_signal() -> (v: Vec<char>)
    ensures
        v@ == iw_signal_tag(),
{
    let v = to_chars("\tsignal: ");
    proof {
        reveal_strlit("\tsignal: ");
        assert(v@ =~= iw_signal_tag());
    }
    v
}

fn tag_iw_channel() -> (v: Vec<char>)
    ensures
        v@ == iw_channel_tag(),
{
    let v = to_chars("\tDS Parameter set: channel ");
    proof {
        reveal_strlit("\tDS Parameter set: channel ");
        assert(v@ =~= iw_channel_tag());
    }
    v
}

fn tag_iw_ssid() -> (v: Vec<char>)
    ensures
        v@ == iw_ssid_tag(),
{
    let v = to_chars("\tSSID: ");
    proof {
        reveal_strlit("\tSSID: ");
        assert(v@ =~= iw_ssid_tag());
    }
    v
}

fn tag_lparen() -> (v: Vec<char>)
    ensures
        v@ == lparen_tag(),
{
    let v = to_chars("(");
    proof {
        reveal_strlit("(");
        assert(v@ =~= lparen_tag());
    }
    v
}

fn tag_dbm_term() -> (v: Vec<char>)
    ensures
        v@ == dbm_term_tag(),
{
    let v = to_chars(" dBm");
    proof {
        reveal_strlit(" dBm");
        assert(v@ =~= dbm_term_tag());
    }
    v
}

fn tag_newline() -> (v: Vec<char>)
    ensures
        v@ == newline_tag(),
{
    let v = to_chars("\n");
    proof {
        reveal_strlit("\n");
        assert(v@ =~= newline_tag());
    }
    v
}

// ---------------------------------------------------------------------------
// Interface extraction
// ---------------------------------------------------------------------------

/// The meaning of interface extraction from `iw dev` output: split on the
/// literal `\tInterface `; the name is the second segment up to its first
/// newline, and fewer than two segments is a failure.
pub open spec fn spec_extract_interface(s: Seq<char>) -> Result<Seq<char>, Error> {
    let segs = spec_split(s, interface_tag());
    if segs.len() < 2 {
        Err(Error::NoValue)
    } else {
        Ok(take_to(segs[1], newline_tag()))
    }
}

/// Extracts the first wireless interface name from `iw dev` output.
pub fn extract_first_interface(interfaces: &str) -> (r: Result<String, Error>)
    ensures
        (match r {
            Ok(name) => Ok(name@),
            Err(e) => Err(e),
        }) == spec_extract_interface(interfaces@),
{
    let cs = to_chars(interfaces);
    let segs = split_by(&cs, &tag_interface());
    if segs.len() < 2 {
        return Err(Error::NoValue);
    }
    let seg = &segs[1];
    proof {
        assert(segs@[1].deep_view() =~= segs@[1]@);
        assert(seg@ == spec_split(interfaces@, interface_tag())[1]);
    }
    let name = take_to_exec(seg, &tag_newline());
    Ok(chars_to_string(&name))
}

// ---------------------------------------------------------------------------
// Scan parsing
// ---------------------------------------------------------------------------

/// The record under construction: the four fields the format provides.
pub struct IwState {
    pub mac: Seq<char>,
    pub ssid: Seq<char>,
    pub chan: Seq<char>,
    pub sig: Seq<char>,
}

pub open spec fn iw_empty() -> IwState {
    IwState { mac: Seq::empty(), ssid: Seq::empty(), chan: Seq::empty(), sig: Seq::empty() }
}

/// One line applied to the record under construction. Each recognized prefix
/// overwrites one field: `BSS ` gives the MAC up to an opening parenthesis,
/// `\tsignal: ` the level up to ` dBm`, the DS-parameter prefix the channel,
/// and `\tSSID: ` the name; any other line changes nothing.
pub open spec fn iw_step(st: IwState, l: Seq<char>) -> IwState {
    if match_at(l, 0, bss_tag()) {
        IwState { mac: take_to(l.subrange(4, l.len() as int), lparen_tag()), ..st }
    } else if match_at(l, 0, iw_signal_tag()) {
        IwState { sig: take_to(l.subrange(9, l.len() as int), dbm_term_tag()), ..st }
    } else if match_at(l, 0, iw_channel_tag()) {
        IwState { chan: l.subrange(27, l.len() as int), ..st }
    } else if match_at(l, 0, iw_ssid_tag()) {
        IwState { ssid: l.subrange(7, l.len() as int), ..st }
    } else {
        st
    }
}

/// All four fields of the record under construction are populated.
pub open spec fn iw_complete(st: IwState) -> bool {
    st.mac.len() > 0 && st.ssid.len() > 0 && st.chan.len() > 0 && st.sig.len() > 0
}

/// The finished record; this format exposes no security information.
pub open spec fn iw_record(st: IwState) -> WifiView {
    WifiView {
        mac: st.mac,
        ssid: st.ssid,
        channel: st.chan,
        signal_level: st.sig,
        security: Seq::empty(),
    }
}

/// The records emitted from line `i` on, starting from state `st`: a record
/// is emitted as soon as all four fields are populated, and the state then
/// resets to empty.
pub open spec fn iw_records(ls: Seq<Seq<char>>, i: int, st: IwState) -> Seq<WifiView>
    decreases ls.len() - i,
{
    if 0 <= i && i < ls.len() {
        let st2 = iw_step(st, ls[i]);
        if iw_complete(st2) {
            seq![iw_record(st2)] + iw_records(ls, i + 1, iw_empty())
        } else {
            iw_records(ls, i + 1, st2)
        }
    } else {
        Seq::empty()
    }
}

/// The meaning of `iw dev <interface> scan` output: tagged-line accumulation
/// over the lines, emitting on field completeness. No input is an error.
pub open spec fn spec_parse_iw_dev(s: Seq<char>) -> Result<Seq<WifiView>, Error> {
    Ok(iw_records(spec_lines(s), 0, iw_empty()))
}

/// Parses the output of `iw dev <interface> scan`.
pub fn parse_iw_dev(network_list: &str) -> (r: Result<Vec<Wifi>, Error>)
    ensures
        out_view(&r) == spec_parse_iw_dev(network_list@),
        r is Ok,
{
    let t_bss = tag_bss();
    let t_sig = tag_iw_signal();
    let t_chan = tag_iw_channel();
    let t_ssid = tag_iw_ssid();
    let t_paren = tag_lparen();
    let t_dbm = tag_dbm_term();
    let cs = to_chars(network_list);
    let ls = lines_of(&cs);
    let ghost lsv = spec_lines(network_list@);
    let mut out: Vec<Wifi> = Vec::new();
    let mut mac: Vec<char> = Vec::new();
    let mut ssid: Vec<char> = Vec::new();
    let mut chan: Vec<char> = Vec::new();
    let mut sig: Vec<char> = Vec::new();
    let ghost mut st = iw_empty();
    let mut i: usize = 0;
    while i < ls.len()
        invariant
            i <= ls@.len(),
            lsv == ls.deep_view(),
            lsv.len() == ls@.len(),
            t_bss@ == bss_tag(),
            t_sig@ == iw_signal_tag(),
            t_chan@ == iw_channel_tag(),
            t_ssid@ == iw_ssid_tag(),
            t_paren@ == lparen_tag(),
            t_dbm@ == dbm_term_tag(),
            st == (IwState { mac: mac@, ssid: ssid@, chan: chan@, sig: sig@ }),
            iw_records(lsv, 0, iw_empty()) == out.deep_view() + iw_records(lsv, i as int, st),
        decreases ls@.len() - i,
    {
        let line = &ls[i];
        proof {
            assert(ls@[i as int].deep_view() =~= ls@[i as int]@);
            assert(line@ == lsv[i as int]);
        }
        if match_at_exec(line, 0, &t_bss) {
            mac = take_to_exec(&slice_range(line, 4, line.len()), &t_paren);
        } else if match_at_exec(line, 0, &t_sig) {
            sig = take_to_exec(&slice_range(line, 9, line.len()), &t_dbm);
        } else if match_at_exec(line, 0, &t_chan) {
            chan = slice_range(line, 27, line.len());
        } else if match_at_exec(line, 0, &t_ssid) {
            ssid = slice_range(line, 7, line.len());
        }
        proof {
            st = iw_step(st, lsv[i as int]);
            assert(st == (IwState { mac: mac@, ssid: ssid@, chan: chan@, sig: sig@ }));
        }
        if mac.len() > 0 && ssid.len() > 0 && chan.len() > 0 && sig.len() > 0 {
            let w = Wifi {
                mac: chars_to_string(&mac),
                ssid: chars_to_string(&ssid),
                channel: chars_to_string(&chan),
                signal_level: chars_to_string(&sig),
                security: String::new(),
            };
            proof {
                assert(w@ =~= iw_record(st));
            }
            let ghost prev = out.deep_view();
            out.push(w);
            proof {
                assert(out.deep_view() =~= prev.push(iw_record(st)));
                assert(out.deep_view() + iw_records(lsv, i + 1, iw_empty()) =~= prev + (seq![
                    iw_record(st),
                ] + iw_records(lsv, i + 1, iw_empty())));
            }
            mac = Vec::new();
            ssid = Vec::new();
            chan = Vec::new();
            sig = Vec::new();
            proof {
                st = iw_empty();
            }
        }
        i += 1;
    }
    proof {
        assert(out.deep_view() + iw_records(lsv, lsv.len() as int, st) =~= out.deep_view());
    }
    Ok(out)
}

/// Empty scan output yields an empty record sequence, never an error.
pub proof fn lemma_parse_iw_dev_empty()
    ensures
        spec_parse_iw_dev(Seq::<char>::empty()) == Ok::<Seq<WifiView>, Error>(
            Seq::<WifiView>::empty(),
        ),
{
    assert(spec_lines(Seq::<char>::empty()) =~= Seq::<Seq<char>>::empty());
}

} // verus!
