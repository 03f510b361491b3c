//! Parser for Linux `iwlist scan` output: `Cell NN - Address:` blocks whose
//! lines carry the name, channel and signal level, with two signal encodings
//! (a dBm value beside a `Quality` token, or a `NN/100` percentage).

use vstd::prelude::*;
use crate::Error;
use crate::Wifi;
use crate::WifiView;
use crate::out_view;
use crate::text::match_at;
use crate::text::match_at_exec;
use crate::text::contains_lit;
use crate::text::contains_at;
use crate::text::after_first;
use crate::text::after_first_exec;
use crate::text::strip_suffix_lit;
use crate::text::strip_suffix_exec;
use crate::text::spec_strip_quotes;
use crate::text::strip_quotes;
use crate::text::spec_trim;
use crate::text::trim;
use crate::text::spec_lines;
use crate::text::lines_of;
use crate::text::slice_range;
use crate::text::digit_run_from;
use crate::text::digit_run;
use crate::text::to_chars;
use crate::text::chars_to_string;
use crate::numbers::spec_parse_i32;
use crate::numbers::parse_i32;
use crate::numbers::int_str;
use crate::numbers::i64_to_chars;
use crate::signal::quality_to_dbm;
use crate::signal::percent_to_dbm_quality;

verus! {

pub open spec fn cell_tag() -> Seq<char> {
    seq!['C', 'e', 'l', 'l', ' ']
}

pub open spec fn address_tag() -> Seq<char> {
    seq![' ', '-', ' ', 'A', 'd', 'd', 'r', 'e', 's', 's', ':']
}

pub open spec fn essid_tag() -> Seq<char> {
    seq!['E', 'S', 'S', 'I', 'D', ':']
}

pub open spec fn frequency_tag() -> Seq<char> {
    seq!['F', 'r', 'e', 'q', 'u', 'e', 'n', 'c', 'y', ':']
}

pub open spec fn channel_word_tag() -> Seq<char> {
    seq!['C', 'h', 'a', 'n', 'n', 'e', 'l']
}

pub open spec fn signal_level_tag() -> Seq<char> {
    seq!['S', 'i', 'g', 'n', 'a', 'l', ' ', 'l', 'e', 'v', 'e', 'l']
}

pub open spec fn quality_tag() -> Seq<char> {
    seq!['Q', 'u', 'a', 'l', 'i', 't', 'y']
}

pub open spec fn signal_eq_tag() -> Seq<char> {
    seq!['S', 'i', 'g', 'n', 'a', 'l', ' ', 'l', 'e', 'v', 'e', 'l', '=']
}

pub open spec fn slash_100_tag() -> Seq<char> {
    seq!['/', '1', '0', '0']
}

pub open spec fn dbm_tag() -> Seq<char> {
    seq!['d', 'B', 'm']
}

pub open spec fn colon_tag() -> Seq<char> {
    seq![':']
}

pub open spec fn rparen_tag() -> Seq<char> {
    seq![')']
}

fn tag_cell() -> (v: Vec<char>)
    ensures
        v@ == cell_tag(),
{
    let v = to_chars("Cell ");
    proof {
        reveal_strlit("Cell ");
        assert(v@ =~= cell_tag());
    }
    v
}

fn tag_address() -> (v: Vec<char>)
    ensures
        v@ == address_tag(),
{
    let v = to_chars(" - Address:");
    proof {
        reveal_strlit(" - Address:");
        assert(v@ =~= address_tag());
    }
    v
}

fn tag_essid() -> (v: Vec<char>)
    ensures
        v@ == essid_tag(),
{
    let v = to_chars("ESSID:");
    proof {
        reveal_strlit("ESSID:");
        assert(v@ =~= essid_tag());
    }
    v
}

fn tag_frequency() -> (v: Vec<char>)
    ensures
        v@ == frequency_tag(),
{
    let v = to_chars("Frequency:");
    proof {
        reveal_strlit("Frequency:");
        assert(v@ =~= frequency_tag());
    }
    v
}

fn tag_channel_word() -> (v: Vec<char>)
    ensures
        v@ == channel_word_tag(),
{
    let v = to_chars("Channel");
    proof {
        reveal_strlit("Channel");
        assert(v@ =~= channel_word_tag());
    }
    v
}

fn tag_signal_level() -> (v: Vec<char>)
    ensures
        v@ == signal_level_tag(),
{
    let v = to_chars("Signal level");
    proof {
        reveal_strlit("Signal level");
        assert(v@ =~= signal_level_tag());
    }
    v
}

fn tag_quality() -> (v: Vec<char>)
    ensures
        v@ == quality_tag(),
{
    let v = to_chars("Quality");
    proof {
        reveal_strlit("Quality");
        assert(v@ =~= quality_tag());
    }
    v
}

fn tag_signal_eq() -> (v: Vec<char>)
    ensures
        v@ == signal_eq_tag(),
{
    let v = to_chars("Signal level=");
    proof {
        reveal_strlit("Signal level=");
        assert(v@ =~= signal_eq_tag());
    }
    v
}

fn tag_slash_100() -> (v: Vec<char>)
    ensures
        v@ == slash_100_tag(),
{
    let v = to_chars("/100");
    proof {
        reveal_strlit("/100");
        assert(v@ =~= slash_100_tag());
    }
    v
}

fn tag_dbm() -> (v: Vec<char>)
    ensures
        v@ == dbm_tag(),
{
    let v = to_chars("dBm");
    proof {
        reveal_strlit("dBm");
        assert(v@ =~= dbm_tag());
    }
    v
}

fn tag_colon() -> (v: Vec<char>)
    ensures
        v@ == colon_tag(),
{
    let v = to_chars(":");
    proof {
        reveal_strlit(":");
        assert(v@ =~= colon_tag());
    }
    v
}

fn tag_rparen() -> (v: Vec<char>)
    ensures
        v@ == rparen_tag(),
{
    let v = to_chars(")");
    proof {
        reveal_strlit(")");
        assert(v@ =~= rparen_tag());
    }
    v
}

// ---------------------------------------------------------------------------
// Splitting into cells
// ---------------------------------------------------------------------------

/// The length of a block delimiter starting at `i`: the literal `Cell `,
/// then at least two digits (taken greedily), then the literal
/// ` - Address:`. `None` when no delimiter starts at `i`.
pub open spec fn cell_delim_len_at(s: Seq<char>, i: int) -> Option<int> {
    let d = digit_run_from(s, i + 5);
    if match_at(s, i, cell_tag()) && d >= 2 && match_at(s, i + 5 + d, address_tag()) {
        Some(16 + d as int)
    } else {
        None
    }
}

/// The pieces of `s[start ..]` split before each cell delimiter, scanning
/// from `i`; the delimiters themselves are discarded.
pub open spec fn split_cells_from(s: Seq<char>, i: int, start: int) -> Seq<Seq<char>>
    decreases s.len() - i,
{
    if !(0 <= start && start <= i && i <= s.len()) {
        Seq::empty()
    } else if i < s.len() {
        match cell_delim_len_at(s, i) {
            Some(d) => seq![s.subrange(start, i)] + split_cells_from(s, i + d, i + d),
            None => split_cells_from(s, i + 1, start),
        }
    } else {
        seq![s.subrange(start, i)]
    }
}

/// Reports a cell delimiter starting at `i`, and its length.
fn cell_delim_check(s: &Vec<char>, i: usize, t_cell: &Vec<char>, t_addr: &Vec<char>) -> (r: Option<
    usize,
>)
    requires
        t_cell@ == cell_tag(),
        t_addr@ == address_tag(),
    ensures
        cell_delim_len_at(s@, i as int) == (match r {
            Some(d) => Some(d as int),
            None => None::<int>,
        }),
        r matches Some(d) ==> 1 <= d && i + d <= s@.len(),
{
    let n = s.len();
    if match_at_exec(s, i, t_cell) {
        let d = digit_run(s, i + 5);
        if d >= 2 && match_at_exec(s, i + 5 + d, t_addr) {
            return Some(16 + d);
        }
    }
    None
}

/// Splits scan output into cell blocks.
fn split_cells(s: &Vec<char>) -> (r: Vec<Vec<char>>)
    ensures
        r.deep_view() == split_cells_from(s@, 0, 0),
{
    let t_cell = tag_cell();
    let t_addr = tag_address();
    let mut out: Vec<Vec<char>> = Vec::new();
    let mut start: usize = 0;
    let mut i: usize = 0;
    while i < s.len()
        invariant
            start <= i <= s@.len(),
            t_cell@ == cell_tag(),
            t_addr@ == address_tag(),
            split_cells_from(s@, 0, 0) == out.deep_view() + split_cells_from(
                s@,
                i as int,
                start as int,
            ),
        decreases s@.len() - i,
    {
        match cell_delim_check(s, i, &t_cell, &t_addr) {
            Some(d) => {
                let ghost prev = out.deep_view();
                let piece = slice_range(s, start, i);
                out.push(piece);
                proof {
                    assert(out.deep_view() + split_cells_from(s@, i + d, i + d) =~~= prev + (seq![
                        s@.subrange(start as int, i as int),
                    ] + split_cells_from(s@, i + d, i + d)));
                }
                i += d;
                start = i;
            },
            None => {
                i += 1;
            },
        }
    }
    let ghost prev = out.deep_view();
    let piece = slice_range(s, start, s.len());
    out.push(piece);
    proof {
        assert(out.deep_view() =~~= prev + seq![s@.subrange(start as int, s@.len() as int)]);
    }
    out
}

// ---------------------------------------------------------------------------
// MAC address extraction
// ---------------------------------------------------------------------------

/// A letter or digit, the character class the MAC pattern accepts.
pub open spec fn is_alnum_char(c: char) -> bool {
    let u = c as u32;
    (0x30 <= u && u <= 0x39) || (0x41 <= u && u <= 0x5A) || (0x61 <= u && u <= 0x7A)
}

fn is_alnum(c: char) -> (r: bool)
    ensures
        r == is_alnum_char(c),
{
    let u = c as u32;
    (0x30 <= u && u <= 0x39) || (0x41 <= u && u <= 0x5A) || (0x61 <= u && u <= 0x7A)
}

/// Six colon-separated pairs of letters or digits start at `i`.
pub open spec fn mac_shape_at(l: Seq<char>, i: int) -> bool {
    &&& 0 <= i
    &&& i + 17 <= l.len()
    &&& is_alnum_char(l[i]) && is_alnum_char(l[i + 1]) && l[i + 2] == ':'
    &&& is_alnum_char(l[i + 3]) && is_alnum_char(l[i + 4]) && l[i + 5] == ':'
    &&& is_alnum_char(l[i + 6]) && is_alnum_char(l[i + 7]) && l[i + 8] == ':'
    &&& is_alnum_char(l[i + 9]) && is_alnum_char(l[i + 10]) && l[i + 11] == ':'
    &&& is_alnum_char(l[i + 12]) && is_alnum_char(l[i + 13]) && l[i + 14] == ':'
    &&& is_alnum_char(l[i + 15]) && is_alnum_char(l[i + 16])
}

/// The first position at or after `i` where a MAC shape occurs.
pub open spec fn find_mac_from(l: Seq<char>, i: int) -> Option<int>
    decreases l.len() - i,
{
    if i + 17 > l.len() {
        None
    } else if mac_shape_at(l, i) {
        Some(i)
    } else {
        find_mac_from(l, i + 1)
    }
}

/// The first MAC-shaped substring of `l`; empty when there is none.
pub open spec fn first_mac(l: Seq<char>) -> Seq<char> {
    match find_mac_from(l, 0) {
        Some(i) => l.subrange(i, i + 17),
        None => Seq::empty(),
    }
}

fn mac_shape_check(l: &Vec<char>, i: usize) -> (r: bool)
    ensures
        r == mac_shape_at(l@, i as int),
{
    if !(l.len() >= 17 && i <= l.len() - 17) {
        return false;
    }
    is_alnum(l[i]) && is_alnum(l[i + 1]) && l[i + 2] == ':' && is_alnum(l[i + 3]) && is_alnum(
        l[i + 4],
    ) && l[i + 5] == ':' && is_alnum(l[i + 6]) && is_alnum(l[i + 7]) && l[i + 8] == ':' && is_alnum(
        l[i + 9],
    ) && is_alnum(l[i + 10]) && l[i + 11] == ':' && is_alnum(l[i + 12]) && is_alnum(l[i + 13])
        && l[i + 14] == ':' && is_alnum(l[i + 15]) && is_alnum(l[i + 16])
}

/// Extracts the first MAC-shaped substring of `l`, or an empty value.
fn first_mac_exec(l: &Vec<char>) -> (r: Vec<char>)
    ensures
        r@ == first_mac(l@),
{
    let n = l.len();
    if n < 17 {
        let r: Vec<char> = Vec::new();
        proof {
            assert(r@ =~= first_mac(l@));
        }
        return r;
    }
    let last = n - 17;
    let mut i: usize = 0;
    while i <= last
        invariant
            n == l@.len(),
            17 <= n,
            last == n - 17,
            find_mac_from(l@, 0) == find_mac_from(l@, i as int),
        decreases last + 1 - i,
    {
        if mac_shape_check(l, i) {
            return slice_range(l, i, i + 17);
        }
        i += 1;
    }
    let r: Vec<char> = Vec::new();
    proof {
        assert(r@ =~= first_mac(l@));
    }
    r
}

// ---------------------------------------------------------------------------
// The percentage sub-grammar
// ---------------------------------------------------------------------------

/// At position `i`: the literal `Signal level=`, then at least one digit
/// (taken greedily), then the literal `/100`.
pub open spec fn pct_match_at(l: Seq<char>, i: int) -> bool {
    &&& match_at(l, i, signal_eq_tag())
    &&& digit_run_from(l, i + 13) >= 1
    &&& match_at(l, i + 13 + digit_run_from(l, i + 13), slash_100_tag())
}

/// The first position at or after `i` where the percentage pattern matches.
pub open spec fn find_pct_from(l: Seq<char>, i: int) -> Option<int>
    decreases l.len() - i,
{
    if i + 13 > l.len() {
        None
    } else if pct_match_at(l, i) {
        Some(i)
    } else {
        find_pct_from(l, i + 1)
    }
}

/// The captured digits of a percentage match at `i`.
pub open spec fn pct_digits(l: Seq<char>, i: int) -> Seq<char> {
    l.subrange(i + 13, i + 13 + digit_run_from(l, i + 13))
}

/// Finds the first percentage match in `l`.
fn find_pct(l: &Vec<char>, t_sigeq: &Vec<char>, t_slash: &Vec<char>) -> (r: Option<usize>)
    requires
        t_sigeq@ == signal_eq_tag(),
        t_slash@ == slash_100_tag(),
    ensures
        find_pct_from(l@, 0) == (match r {
            Some(i) => Some(i as int),
            None => None::<int>,
        }),
        r matches Some(i) ==> pct_match_at(l@, i as int),
{
    let n = l.len();
    if n < 13 {
        return None;
    }
    let last = n - 13;
    let mut i: usize = 0;
    while i <= last
        invariant
            n == l@.len(),
            13 <= n,
            last == n - 13,
            t_sigeq@ == signal_eq_tag(),
            t_slash@ == slash_100_tag(),
            find_pct_from(l@, 0) == find_pct_from(l@, i as int),
        decreases last + 1 - i,
    {
        if match_at_exec(l, i, t_sigeq) {
            let d = digit_run(l, i + 13);
            if d >= 1 && match_at_exec(l, i + 13 + d, t_slash) {
                return Some(i);
            }
        }
        i += 1;
    }
    None
}

// ---------------------------------------------------------------------------
// Per-block accumulation
// ---------------------------------------------------------------------------

/// The record under construction within one cell block.
pub struct IwlState {
    pub mac: Seq<char>,
    pub ssid: Seq<char>,
    pub chan: Seq<char>,
    pub sig: Seq<char>,
}

pub open spec fn iwl_empty() -> IwlState {
    IwlState { mac: Seq::empty(), ssid: Seq::empty(), chan: Seq::empty(), sig: Seq::empty() }
}

/// One line applied to the record under construction, each tag overwriting
/// its field: `ESSID:` gives the name after the first colon with surrounding
/// quotes stripped; `Frequency:` gives the channel after the token `Channel`,
/// a trailing `)` stripped and trimmed; `Signal level` with `Quality` on the
/// same line gives a dBm value (after `Signal level=`, a trailing `dBm`
/// stripped and trimmed); without `Quality` the `NN/100` percentage is
/// required, parsed, and converted to dBm, and its absence (or a value
/// outside `i32`) is a parse failure.
pub open spec fn iwl_step(st: IwlState, l: Seq<char>) -> Result<IwlState, Error> {
    if contains_lit(l, essid_tag()) {
        Ok(IwlState { ssid: spec_strip_quotes(after_first(l, colon_tag())), ..st })
    } else if contains_lit(l, frequency_tag()) {
        Ok(
            IwlState {
                chan: spec_trim(strip_suffix_lit(after_first(l, channel_word_tag()), rparen_tag())),
                ..st
            },
        )
    } else if contains_lit(l, signal_level_tag()) {
        if contains_lit(l, quality_tag()) {
            Ok(
                IwlState {
                    sig: spec_trim(strip_suffix_lit(after_first(l, signal_eq_tag()), dbm_tag())),
                    ..st
                },
            )
        } else {
            match find_pct_from(l, 0) {
                Some(i) => match spec_parse_i32(pct_digits(l, i)) {
                    Some(v) => Ok(IwlState { sig: int_str(quality_to_dbm(v)), ..st }),
                    None => Err(Error::FailedToParse),
                },
                None => Err(Error::FailedToParse),
            }
        }
    } else {
        Ok(st)
    }
}

/// The finished record; this format exposes no security information.
pub open spec fn iwl_record(st: IwlState) -> WifiView {
    WifiView {
        mac: st.mac,
        ssid: st.ssid,
        channel: st.chan,
        signal_level: st.sig,
        security: Seq::empty(),
    }
}

/// The records emitted from line `i` on: after each line, a record is
/// emitted once name, MAC and signal are populated (the channel may still be
/// empty), and all four fields then reset.
pub open spec fn iwl_records(ls: Seq<Seq<char>>, i: int, st: IwlState) -> Result<
    Seq<WifiView>,
    Error,
>
    decreases ls.len() - i,
{
    if 0 <= i && i < ls.len() {
        match iwl_step(st, ls[i]) {
            Ok(st2) => {
                if st2.ssid.len() > 0 && st2.mac.len() > 0 && st2.sig.len() > 0 {
                    match iwl_records(ls, i + 1, iwl_empty()) {
                        Ok(rest) => Ok(seq![iwl_record(st2)] + rest),
                        Err(e) => Err(e),
                    }
                } else {
                    iwl_records(ls, i + 1, st2)
                }
            },
            Err(e) => Err(e),
        }
    } else {
        Ok(Seq::empty())
    }
}

/// The records of one cell block: the MAC comes from the first line (empty
/// when no MAC shape occurs there), the remaining lines accumulate; a block
/// without lines has no records.
pub open spec fn iwl_block(b: Seq<char>) -> Result<Seq<WifiView>, Error> {
    let ls = spec_lines(b);
    if ls.len() == 0 {
        Ok(Seq::empty())
    } else {
        iwl_records(
            ls,
            1,
            IwlState { mac: first_mac(ls[0]), ssid: Seq::empty(), chan: Seq::empty(), sig: Seq::empty() },
        )
    }
}

/// The concatenated records of the blocks from `i` on; the first failing
/// block fails the parse.
pub open spec fn iwl_fold(bs: Seq<Seq<char>>, i: int) -> Result<Seq<WifiView>, Error>
    decreases bs.len() - i,
{
    if 0 <= i && i < bs.len() {
        match iwl_block(bs[i]) {
            Ok(rs) => match iwl_fold(bs, i + 1) {
                Ok(rest) => Ok(rs + rest),
                Err(e) => Err(e),
            },
            Err(e) => Err(e),
        }
    } else {
        Ok(Seq::empty())
    }
}

/// The meaning of `iwlist scan` output: split into cell blocks, accumulate
/// each block's lines, concatenate the blocks' records in order.
pub open spec fn spec_parse_iwlist(s: Seq<char>) -> Result<Seq<WifiView>, Error> {
    iwl_fold(split_cells_from(s, 0, 0), 0)
}

/// The records of one cell block.
fn iwl_block_exec(b: &Vec<char>) -> (r: Result<Vec<Wifi>, Error>)
    ensures
        out_view(&r) == iwl_block(b@),
{
    let t_essid = tag_essid();
    let t_freq = tag_frequency();
    let t_chanword = tag_channel_word();
    let t_siglvl = tag_signal_level();
    let t_quality = tag_quality();
    let t_sigeq = tag_signal_eq();
    let t_slash = tag_slash_100();
    let t_dbm = tag_dbm();
    let t_colon = tag_colon();
    let t_rparen = tag_rparen();
    let ls = lines_of(b);
    let ghost lsv = spec_lines(b@);
    let mut out: Vec<Wifi> = Vec::new();
    if ls.len() == 0 {
        proof {
            assert(out.deep_view() =~= Seq::<WifiView>::empty());
        }
        return Ok(out);
    }
    let mut mac: Vec<char>;
    {
        let head = &ls[0];
        proof {
            assert(ls@[0].deep_view() =~= ls@[0]@);
            assert(head@ == lsv[0]);
        }
        mac = first_mac_exec(head);
    }
    let mut ssid: Vec<char> = Vec::new();
    let mut chan: Vec<char> = Vec::new();
    let mut sig: Vec<char> = Vec::new();
    let ghost st0 = IwlState {
        mac: mac@,
        ssid: Seq::empty(),
        chan: Seq::empty(),
        sig: Seq::empty(),
    };
    let ghost mut st = st0;
    let mut i: usize = 1;
    while i < ls.len()
        invariant
            1 <= i <= ls@.len(),
            lsv == ls.deep_view(),
            lsv == spec_lines(b@),
            lsv.len() == ls@.len(),
            iwl_block(b@) == iwl_records(lsv, 1, st0),
            t_essid@ == essid_tag(),
            t_freq@ == frequency_tag(),
            t_chanword@ == channel_word_tag(),
            t_siglvl@ == signal_level_tag(),
            t_quality@ == quality_tag(),
            t_sigeq@ == signal_eq_tag(),
            t_slash@ == slash_100_tag(),
            t_dbm@ == dbm_tag(),
            t_colon@ == colon_tag(),
            t_rparen@ == rparen_tag(),
            st == (IwlState { mac: mac@, ssid: ssid@, chan: chan@, sig: sig@ }),
            iwl_records(lsv, 1, st0) == (match iwl_records(lsv, i as int, st) {
                Ok(rest) => Ok::<Seq<WifiView>, Error>(out.deep_view() + rest),
                Err(e) => Err(e),
            }),
        decreases ls@.len() - i,
    {
        let line = &ls[i];
        proof {
            assert(ls@[i as int].deep_view() =~= ls@[i as int]@);
            assert(line@ == lsv[i as int]);
        }
        if contains_at(line, &t_essid) {
            ssid = strip_quotes(&after_first_exec(line, &t_colon));
        } else if contains_at(line, &t_freq) {
            chan = trim(&strip_suffix_exec(&after_first_exec(line, &t_chanword), &t_rparen));
        } else if contains_at(line, &t_siglvl) {
            if contains_at(line, &t_quality) {
                sig = trim(&strip_suffix_exec(&after_first_exec(line, &t_sigeq), &t_dbm));
            } else {
                match find_pct(line, &t_sigeq, &t_slash) {
                    Some(p) => {
                        let _ln = line.len();
                        let d = digit_run(line, p + 13);
                        let digits = slice_range(line, p + 13, p + 13 + d);
                        match parse_i32(&digits) {
                            Some(v) => {
                                let dbm = percent_to_dbm_quality(v);
                                sig = i64_to_chars(dbm as i64);
                            },
                            None => {
                                proof {
                                    assert(iwl_step(st, lsv[i as int]) == Err::<IwlState, Error>(
                                        Error::FailedToParse,
                                    ));
                                    assert(iwl_records(lsv, i as int, st) == Err::<
                                        Seq<WifiView>,
                                        Error,
                                    >(Error::FailedToParse));
                                }
                                return Err(Error::FailedToParse);
                            },
                        }
                    },
                    None => {
                        proof {
                            assert(iwl_step(st, lsv[i as int]) == Err::<IwlState, Error>(
                                Error::FailedToParse,
                            ));
                            assert(iwl_records(lsv, i as int, st) == Err::<Seq<WifiView>, Error>(
                                Error::FailedToParse,
                            ));
                        }
                        return Err(Error::FailedToParse);
                    },
                }
            }
        }
        proof {
            st = iwl_step(st, lsv[i as int]).unwrap();
            assert(st == (IwlState { mac: mac@, ssid: ssid@, chan: chan@, sig: sig@ }));
        }
        if ssid.len() > 0 && mac.len() > 0 && sig.len() > 0 {
            let w = Wifi {
                mac: chars_to_string(&mac),
                ssid: chars_to_string(&ssid),
                channel: chars_to_string(&chan),
                signal_level: chars_to_string(&sig),
                security: String::new(),
            };
            proof {
                assert(w@ =~= iwl_record(st));
            }
            let ghost prev = out.deep_view();
            out.push(w);
            proof {
                assert(out.deep_view() =~= prev.push(iwl_record(st)));
                if iwl_records(lsv, i + 1, iwl_empty()) is Ok {
                    let rest = iwl_records(lsv, i + 1, iwl_empty()).unwrap();
                    assert(out.deep_view() + rest =~= prev + (seq![iwl_record(st)] + rest));
                }
            }
            mac = Vec::new();
            ssid = Vec::new();
            chan = Vec::new();
            sig = Vec::new();
            proof {
                st = iwl_empty();
            }
        }
        i += 1;
    }
    Ok(out)
}

/// Parses the output of `iwlist scan`.
pub fn parse_iwlist(network_list: &str) -> (r: Result<Vec<Wifi>, Error>)
    ensures
        out_view(&r) == spec_parse_iwlist(network_list@),
{
    let cs = to_chars(network_list);
    let blocks = split_cells(&cs);
    let ghost bsv = split_cells_from(network_list@, 0, 0);
    let mut out: Vec<Wifi> = Vec::new();
    let mut i: usize = 0;
    while i < blocks.len()
        invariant
            i <= blocks@.len(),
            bsv == blocks.deep_view(),
            bsv == split_cells_from(network_list@, 0, 0),
            bsv.len() == blocks@.len(),
            iwl_fold(bsv, 0) == (match iwl_fold(bsv, i as int) {
                Ok(rest) => Ok::<Seq<WifiView>, Error>(out.deep_view() + rest),
                Err(e) => Err(e),
            }),
        decreases blocks@.len() - i,
    {
        let block = &blocks[i];
        proof {
            assert(blocks@[i as int].deep_view() =~= blocks@[i as int]@);
            assert(block@ == bsv[i as int]);
        }
        match iwl_block_exec(block) {
            Ok(mut recs) => {
                let ghost prev = out.deep_view();
                let ghost recsv = recs.deep_view();
                out.append(&mut recs);
                proof {
                    assert(out.deep_view() =~~= prev + recsv);
                    if iwl_fold(bsv, i + 1) is Ok {
                        assert((prev + recsv) + iwl_fold(bsv, i + 1).unwrap() =~= prev + (recsv
                            + iwl_fold(bsv, i + 1).unwrap()));
                    }
                }
            },
            Err(e) => {
                proof {
                    assert(iwl_block(bsv[i as int]) == Err::<Seq<WifiView>, Error>(e));
                    assert(iwl_fold(bsv, i as int) == Err::<Seq<WifiView>, Error>(e));
                }
                return Err(e);
            },
        }
        i += 1;
    }
    Ok(out)
}

/// Empty input yields an empty record sequence, never an error.
pub proof fn lemma_parse_iwlist_empty()
    ensures
        spec_parse_iwlist(Seq::<char>::empty()) == Ok::<Seq<WifiView>, Error>(
            Seq::<WifiView>::empty(),
        ),
{
    let s = Seq::<char>::empty();
    assert(split_cells_from(s, 0, 0) =~~= seq![Seq::<char>::empty()]);
    assert(spec_lines(Seq::<char>::empty()) =~= Seq::<Seq<char>>::empty());
    assert(iwl_block(Seq::<char>::empty()) == Ok::<Seq<WifiView>, Error>(Seq::<WifiView>::empty()));
    assert(iwl_fold(seq![Seq::<char>::empty()], 1) == Ok::<Seq<WifiView>, Error>(
        Seq::<WifiView>::empty(),
    ));
    assert(Seq::<WifiView>::empty() + Seq::<WifiView>::empty() =~= Seq::<WifiView>::empty());
}

} // verus!
