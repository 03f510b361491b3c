//! Parser for Windows `netsh wlan show networks mode=Bssid` output: blocks
//! per SSID, each accumulating ordered BSSID, channel and signal lists that
//! are zipped positionally into records.

use vstd::prelude::*;
use crate::Error;
use crate::Wifi;
use crate::WifiView;
use crate::out_view;
use crate::text::match_at;
use crate::text::match_at_exec;
use crate::text::contains_lit;
use crate::text::contains_at;
use crate::text::after_first;
use crate::text::after_first_exec;
use crate::text::spec_trim;
use crate::text::trim;
use crate::text::spec_lines;
use crate::text::lines_of;
use crate::text::spec_split;
use crate::text::split_by;
use crate::text::slice_range;
use crate::text::remove_char_from;
use crate::text::remove_char;
use crate::text::digit_run_from;
use crate::text::digit_run;
use crate::text::to_chars;
use crate::text::chars_to_string;
use crate::numbers::spec_parse_i32;
use crate::numbers::parse_i32;
use crate::numbers::int_str;
use crate::numbers::i64_to_chars;
use crate::signal::percent_to_dbm;
use crate::signal::percent_to_dbm_netsh;

verus! {

pub open spec fn nl_ssid_tag() -> Seq<char> {
    seq!['\n', 'S', 'S', 'I', 'D']
}

pub open spec fn auth_tag() -> Seq<char> {
    seq!['A', 'u', 't', 'h', 'e', 'n', 't', 'i', 'c', 'a', 't', 'i', 'o', 'n']
}

pub open spec fn bssid_word_tag() -> Seq<char> {
    seq!['B', 'S', 'S', 'I', 'D']
}

pub open spec fn signal_word_tag() -> Seq<char> {
    seq!['S', 'i', 'g', 'n', 'a', 'l']
}

pub open spec fn channel_word_tag() -> Seq<char> {
    seq!['C', 'h', 'a', 'n', 'n', 'e', 'l']
}

pub open spec fn colon_tag() -> Seq<char> {
    seq![':']
}

pub open spec fn colon_sep_tag() -> Seq<char> {
    seq![' ', ':', ' ']
}

fn tag_nl_ssid() -> (v: Vec<char>)
    ensures
        v@ == nl_ssid_tag(),
{
    let v = to_chars("\nSSID");
    proof {
        reveal_strlit("\nSSID");
        assert(v@ =~= nl_ssid_tag());
    }
    v
}

fn tag_auth() -> (v: Vec<char>)
    ensures
        v@ == auth_tag(),
{
    let v = to_chars("Authentication");
    proof {
        reveal_strlit("Authentication");
        assert(v@ =~= auth_tag());
    }
    v
}

fn tag_bssid_word() -> (v: Vec<char>)
    ensures
        v@ == bssid_word_tag(),
{
    let v = to_chars("BSSID");
    proof {
        reveal_strlit("BSSID");
        assert(v@ =~= bssid_word_tag());
    }
    v
}

fn tag_signal_word() -> (v: Vec<char>)
    ensures
        v@ == signal_word_tag(),
{
    let v = to_chars("Signal");
    proof {
        reveal_strlit("Signal");
        assert(v@ =~= signal_word_tag());
    }
    v
}

fn tag_channel_word() -> (v: Vec<char>)
    ensures
        v@ == channel_word_tag(),
{
    let v = to_chars("Channel");
    proof {
        reveal_strlit("Channel");
        assert(v@ =~= channel_word_tag());
    }
    v
}

fn tag_colon() -> (v: Vec<char>)
    ensures
        v@ == colon_tag(),
{
    let v = to_chars(":");
    proof {
        reveal_strlit(":");
        assert(v@ =~= colon_tag());
    }
    v
}

fn tag_colon_sep() -> (v: Vec<char>)
    ensures
        v@ == colon_sep_tag(),
{
    let v = to_chars(" : ");
    proof {
        reveal_strlit(" : ");
        assert(v@ =~= colon_sep_tag());
    }
    v
}

// ---------------------------------------------------------------------------
// Line shapes
// ---------------------------------------------------------------------------

/// A block's name line: a space, any number of digits, then ` : `,
/// anchored at the start of the line.
pub open spec fn ssid_header_at(l: Seq<char>) -> bool {
    l.len() >= 1 && l[0] == ' ' && match_at(l, 1 + digit_run_from(l, 1) as int, colon_sep_tag())
}

fn ssid_header_check(l: &Vec<char>) -> (r: bool)
    ensures
        r == ssid_header_at(l@),
{
    if l.len() >= 1 && l[0] == ' ' {
        let d = digit_run(l, 1);
        match_at_exec(l, 1 + d, &tag_colon_sep())
    } else {
        false
    }
}

/// A character of the 17-character MAC pattern: a hexadecimal digit or a
/// colon.
pub open spec fn is_hexcolon_char(c: char) -> bool {
    let u = c as u32;
    (0x30 <= u && u <= 0x39) || (0x41 <= u && u <= 0x46) || (0x61 <= u && u <= 0x66) || u == 0x3A
}

fn is_hexcolon(c: char) -> (r: bool)
    ensures
        r == is_hexcolon_char(c),
{
    let u = c as u32;
    (0x30 <= u && u <= 0x39) || (0x41 <= u && u <= 0x46) || (0x61 <= u && u <= 0x66) || u == 0x3A
}

/// Seventeen consecutive MAC-pattern characters start at `i`.
pub open spec fn mac17_at(l: Seq<char>, i: int) -> bool {
    0 <= i && i + 17 <= l.len() && (forall|k: int| i <= k < i + 17 ==> is_hexcolon_char(#[trigger] l[k]))
}

/// The first position at or after `i` where the 17-character pattern occurs.
pub open spec fn find_mac17_from(l: Seq<char>, i: int) -> Option<int>
    decreases l.len() - i,
{
    if i + 17 > l.len() {
        None
    } else if mac17_at(l, i) {
        Some(i)
    } else {
        find_mac17_from(l, i + 1)
    }
}

fn mac17_check(l: &Vec<char>, i: usize) -> (r: bool)
    ensures
        r == mac17_at(l@, i as int),
{
    if !(l.len() >= 17 && i <= l.len() - 17) {
        return false;
    }
    let n = l.len();
    let mut k: usize = 0;
    while k < 17
        invariant
            i + 17 <= l@.len(),
            n == l@.len(),
            k <= 17,
            forall|j: int| i <= j < i + k ==> is_hexcolon_char(#[trigger] l@[j]),
        decreases 17 - k,
    {
        if !is_hexcolon(l[i + k]) {
            return false;
        }
        k += 1;
    }
    true
}

/// Finds the first 17-character MAC-pattern substring of `l`.
fn find_mac17(l: &Vec<char>) -> (r: Option<usize>)
    ensures
        find_mac17_from(l@, 0) == (match r {
            Some(i) => Some(i as int),
            None => None::<int>,
        }),
        r matches Some(i) ==> mac17_at(l@, i as int),
{
    let n = l.len();
    if n < 17 {
        return None;
    }
    let last = n - 17;
    let mut i: usize = 0;
    while i <= last
        invariant
            n == l@.len(),
            17 <= n,
            last == n - 17,
            find_mac17_from(l@, 0) == find_mac17_from(l@, i as int),
        decreases last + 1 - i,
    {
        if mac17_check(l, i) {
            return Some(i);
        }
        i += 1;
    }
    None
}

// ---------------------------------------------------------------------------
// Per-block accumulation
// ---------------------------------------------------------------------------

/// What one block accumulates: its single name and security label, and the
/// ordered BSSID, channel and signal-level lists.
pub struct NetshState {
    pub ssid: Seq<char>,
    pub security: Seq<char>,
    pub macs: Seq<Seq<char>>,
    pub chans: Seq<Seq<char>>,
    pub sigs: Seq<Seq<char>>,
}

pub open spec fn netsh_empty() -> NetshState {
    NetshState {
        ssid: Seq::empty(),
        security: Seq::empty(),
        macs: Seq::empty(),
        chans: Seq::empty(),
        sigs: Seq::empty(),
    }
}

/// One line applied to the block state. The name line and a line holding
/// `Authentication` set the block's single name and security label (text
/// after the first colon, trimmed); a line holding `BSSID` must carry the
/// 17-character MAC pattern (else the parse fails) and appends it; a line
/// holding `Signal` parses the percentage after the colon with `%` removed
/// (a non-number fails the parse) and appends its dBm form; a line holding
/// `Channel` appends the text after the colon, trimmed.
pub open spec fn netsh_step(st: NetshState, l: Seq<char>) -> Result<NetshState, Error> {
    if ssid_header_at(l) {
        Ok(NetshState { ssid: spec_trim(after_first(l, colon_tag())), ..st })
    } else if contains_lit(l, auth_tag()) {
        Ok(NetshState { security: spec_trim(after_first(l, colon_tag())), ..st })
    } else if contains_lit(l, bssid_word_tag()) {
        match find_mac17_from(l, 0) {
            Some(i) => Ok(NetshState { macs: st.macs.push(l.subrange(i, i + 17)), ..st }),
            None => Err(Error::NoMatch),
        }
    } else if contains_lit(l, signal_word_tag()) {
        match spec_parse_i32(remove_char_from(spec_trim(after_first(l, colon_tag())), '%', 0)) {
            Some(v) => Ok(NetshState { sigs: st.sigs.push(int_str(percent_to_dbm(v))), ..st }),
            None => Err(Error::FailedToParse),
        }
    } else if contains_lit(l, channel_word_tag()) {
        Ok(NetshState { chans: st.chans.push(spec_trim(after_first(l, colon_tag()))), ..st })
    } else {
        Ok(st)
    }
}

/// The block state after the lines from `i` on; the first failing line
/// fails the parse.
pub open spec fn netsh_scan(ls: Seq<Seq<char>>, i: int, st: NetshState) -> Result<
    NetshState,
    Error,
>
    decreases ls.len() - i,
{
    if 0 <= i && i < ls.len() {
        match netsh_step(st, ls[i]) {
            Ok(st2) => netsh_scan(ls, i + 1, st2),
            Err(e) => Err(e),
        }
    } else {
        Ok(st)
    }
}

pub open spec fn min3(a: int, b: int, c: int) -> int {
    if a <= b && a <= c {
        a
    } else if b <= c {
        b
    } else {
        c
    }
}

/// The three ordered lists zipped positionally, stopping at the shortest;
/// every record of the block shares its name and security label.
pub open spec fn netsh_zip(st: NetshState) -> Seq<WifiView> {
    Seq::new(
        min3(st.macs.len() as int, st.chans.len() as int, st.sigs.len() as int) as nat,
        |k: int|
            WifiView {
                mac: st.macs[k],
                ssid: st.ssid,
                channel: st.chans[k],
                signal_level: st.sigs[k],
                security: st.security,
            },
    )
}

/// The records of one SSID block.
pub open spec fn netsh_block(b: Seq<char>) -> Result<Seq<WifiView>, Error> {
    match netsh_scan(spec_lines(b), 0, netsh_empty()) {
        Ok(st) => Ok(netsh_zip(st)),
        Err(e) => Err(e),
    }
}

/// The concatenated records of the blocks from `i` on.
pub open spec fn netsh_fold(bs: Seq<Seq<char>>, i: int) -> Result<Seq<WifiView>, Error>
    decreases bs.len() - i,
{
    if 0 <= i && i < bs.len() {
        match netsh_block(bs[i]) {
            Ok(rs) => match netsh_fold(bs, i + 1) {
                Ok(rest) => Ok(rs + rest),
                Err(e) => Err(e),
            },
            Err(e) => Err(e),
        }
    } else {
        Ok(Seq::empty())
    }
}

/// The meaning of `netsh` output: split on the literal `\nSSID`, accumulate
/// each block, zip its lists, concatenate the blocks' records in order.
pub open spec fn spec_parse_netsh(s: Seq<char>) -> Result<Seq<WifiView>, Error> {
    netsh_fold(spec_split(s, nl_ssid_tag()), 0)
}

/// The records of one SSID block.
fn netsh_block_exec(b: &Vec<char>) -> (r: Result<Vec<Wifi>, Error>)
    ensures
        out_view(&r) == netsh_block(b@),
{
    let t_auth = tag_auth();
    let t_bssid = tag_bssid_word();
    let t_signal = tag_signal_word();
    let t_channel = tag_channel_word();
    let t_colon = tag_colon();
    let ls = lines_of(b);
    let ghost lsv = spec_lines(b@);
    let mut ssid: Vec<char> = Vec::new();
    let mut security: Vec<char> = Vec::new();
    let mut macs: Vec<Vec<char>> = Vec::new();
    let mut chans: Vec<Vec<char>> = Vec::new();
    let mut sigs: Vec<Vec<char>> = Vec::new();
    let ghost mut st = netsh_empty();
    proof {
        assert(macs.deep_view() =~= Seq::<Seq<char>>::empty());
        assert(chans.deep_view() =~= Seq::<Seq<char>>::empty());
        assert(sigs.deep_view() =~= Seq::<Seq<char>>::empty());
    }
    let mut i: usize = 0;
    while i < ls.len()
        invariant
            i <= ls@.len(),
            lsv == ls.deep_view(),
            lsv == spec_lines(b@),
            lsv.len() == ls@.len(),
            t_auth@ == auth_tag(),
            t_bssid@ == bssid_word_tag(),
            t_signal@ == signal_word_tag(),
            t_channel@ == channel_word_tag(),
            t_colon@ == colon_tag(),
            st == (NetshState {
                ssid: ssid@,
                security: security@,
                macs: macs.deep_view(),
                chans: chans.deep_view(),
                sigs: sigs.deep_view(),
            }),
            netsh_scan(lsv, 0, netsh_empty()) == netsh_scan(lsv, i as int, st),
        decreases ls@.len() - i,
    {
        let line = &ls[i];
        proof {
            assert(ls@[i as int].deep_view() =~= ls@[i as int]@);
            assert(line@ == lsv[i as int]);
        }
        if ssid_header_check(line) {
            ssid = trim(&after_first_exec(line, &t_colon));
        } else if contains_at(line, &t_auth) {
            security = trim(&after_first_exec(line, &t_colon));
        } else if contains_at(line, &t_bssid) {
            match find_mac17(line) {
                Some(p) => {
                    let ghost prev = macs.deep_view();
                    let _ln = line.len();
                    let m = slice_range(line, p, p + 17);
                    macs.push(m);
                    proof {
                        assert(macs.deep_view() =~~= prev.push(line@.subrange(
                            p as int,
                            p + 17 as int,
                        )));
                    }
                },
                None => {
                    proof {
                        assert(netsh_step(st, lsv[i as int]) == Err::<NetshState, Error>(
                            Error::NoMatch,
                        ));
                        assert(netsh_scan(lsv, i as int, st) == Err::<NetshState, Error>(
                            Error::NoMatch,
                        ));
                    }
                    return Err(Error::NoMatch);
                },
            }
        } else if contains_at(line, &t_signal) {
            let pct = remove_char(&trim(&after_first_exec(line, &t_colon)), '%');
            match parse_i32(&pct) {
                Some(v) => {
                    let ghost prev = sigs.deep_view();
                    let dbm = percent_to_dbm_netsh(v);
                    let sig = i64_to_chars(dbm as i64);
                    sigs.push(sig);
                    proof {
                        assert(sigs.deep_view() =~~= prev.push(int_str(percent_to_dbm(v as int))));
                    }
                },
                None => {
                    proof {
                        assert(netsh_step(st, lsv[i as int]) == Err::<NetshState, Error>(
                            Error::FailedToParse,
                        ));
                        assert(netsh_scan(lsv, i as int, st) == Err::<NetshState, Error>(
                            Error::FailedToParse,
                        ));
                    }
                    return Err(Error::FailedToParse);
                },
            }
        } else if contains_at(line, &t_channel) {
            let ghost prev = chans.deep_view();
            let c = trim(&after_first_exec(line, &t_colon));
            chans.push(c);
            proof {
                assert(chans.deep_view() =~~= prev.push(
                    spec_trim(after_first(lsv[i as int], colon_tag())),
                ));
            }
        }
        proof {
            st = netsh_step(st, lsv[i as int]).unwrap();
            assert(st == (NetshState {
                ssid: ssid@,
                security: security@,
                macs: macs.deep_view(),
                chans: chans.deep_view(),
                sigs: sigs.deep_view(),
            }));
        }
        i += 1;
    }
    // zip the three lists positionally, to the shortest
    let mut count = macs.len();
    if chans.len() < count {
        count = chans.len();
    }
    if sigs.len() < count {
        count = sigs.len();
    }
    proof {
        assert(count as int == min3(
            st.macs.len() as int,
            st.chans.len() as int,
            st.sigs.len() as int,
        ));
    }
    let mut out: Vec<Wifi> = Vec::new();
    let mut k: usize = 0;
    while k < count
        invariant
            k <= count,
            count as int == min3(
                st.macs.len() as int,
                st.chans.len() as int,
                st.sigs.len() as int,
            ),
            st == (NetshState {
                ssid: ssid@,
                security: security@,
                macs: macs.deep_view(),
                chans: chans.deep_view(),
                sigs: sigs.deep_view(),
            }),
            count <= macs@.len() && count <= chans@.len() && count <= sigs@.len(),
            out.deep_view() =~= netsh_zip(st).take(k as int),
        decreases count - k,
    {
        let w = Wifi {
            mac: chars_to_string(&macs[k]),
            ssid: chars_to_string(&ssid),
            channel: chars_to_string(&chans[k]),
            signal_level: chars_to_string(&sigs[k]),
            security: chars_to_string(&security),
        };
        proof {
            assert(macs@[k as int].deep_view() =~= macs@[k as int]@);
            assert(chans@[k as int].deep_view() =~= chans@[k as int]@);
            assert(sigs@[k as int].deep_view() =~= sigs@[k as int]@);
            assert(w@ =~= netsh_zip(st)[k as int]);
        }
        let ghost prev = out.deep_view();
        out.push(w);
        proof {
            assert(out.deep_view() =~= prev.push(w@));
            assert(out.deep_view() =~= netsh_zip(st).take(k + 1 as int));
        }
        k += 1;
    }
    proof {
        assert(netsh_zip(st).take(count as int) =~= netsh_zip(st));
    }
    Ok(out)
}

/// Parses the output of `netsh wlan show networks mode=Bssid`.
pub fn parse_netsh(network_list: &str) -> (r: Result<Vec<Wifi>, Error>)
    ensures
        out_view(&r) == spec_parse_netsh(network_list@),
{
    let cs = to_chars(network_list);
    let blocks = split_by(&cs, &tag_nl_ssid());
    let ghost bsv = spec_split(network_list@, nl_ssid_tag());
    let mut out: Vec<Wifi> = Vec::new();
    let mut i: usize = 0;
    while i < blocks.len()
        invariant
            i <= blocks@.len(),
            bsv == blocks.deep_view(),
            bsv == spec_split(network_list@, nl_ssid_tag()),
            bsv.len() == blocks@.len(),
            netsh_fold(bsv, 0) == (match netsh_fold(bsv, i as int) {
                Ok(rest) => Ok::<Seq<WifiView>, Error>(out.deep_view() + rest),
                Err(e) => Err(e),
            }),
        decreases blocks@.len() - i,
    {
        let block = &blocks[i];
        proof {
            assert(blocks@[i as int].deep_view() =~= blocks@[i as int]@);
            assert(block@ == bsv[i as int]);
        }
        match netsh_block_exec(block) {
            Ok(mut recs) => {
                let ghost prev = out.deep_view();
                let ghost recsv = recs.deep_view();
                out.append(&mut recs);
                proof {
                    assert(out.deep_view() =~~= prev + recsv);
                    if netsh_fold(bsv, i + 1) is Ok {
                        assert((prev + recsv) + netsh_fold(bsv, i + 1).unwrap() =~= prev + (recsv
                            + netsh_fold(bsv, i + 1).unwrap()));
                    }
                }
            },
            Err(e) => {
                proof {
                    assert(netsh_block(bsv[i as int]) == Err::<Seq<WifiView>, Error>(e));
                    assert(netsh_fold(bsv, i as int) == Err::<Seq<WifiView>, Error>(e));
                }
                return Err(e);
            },
        }
        i += 1;
    }
    Ok(out)
}

/// Empty input yields an empty record sequence, never an error.
pub proof fn lemma_parse_netsh_empty()
    ensures
        spec_parse_netsh(Seq::<char>::empty()) == Ok::<Seq<WifiView>, Error>(
            Seq::<WifiView>::empty(),
        ),
{
    let s = Seq::<char>::empty();
    assert(spec_split(s, nl_ssid_tag()) =~~= seq![Seq::<char>::empty()]);
    assert(spec_lines(Seq::<char>::empty()) =~= Seq::<Seq<char>>::empty());
    assert(netsh_scan(Seq::<Seq<char>>::empty(), 0, netsh_empty()) == Ok::<NetshState, Error>(
        netsh_empty(),
    ));
    assert(netsh_zip(netsh_empty()) =~= Seq::<WifiView>::empty());
    assert(netsh_fold(seq![Seq::<char>::empty()], 1) == Ok::<Seq<WifiView>, Error>(
        Seq::<WifiView>::empty(),
    ));
    assert(Seq::<WifiView>::empty() + Seq::<WifiView>::empty() =~= Seq::<WifiView>::empty());
}

} // verus!
