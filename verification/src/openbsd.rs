//! Pure helpers for the OpenBSD ioctl-based scan backend: decoding the
//! fixed-size network-id buffer, laying an interface name into its
//! fixed-size field, the media-word test for wireless interfaces, and
//! assembly of one record from a scan-result entry. The ioctl calls
//! themselves are raw OS interop and stay with the caller.

use vstd::prelude::*;
use vstd::utf8::valid_utf8;
use vstd::utf8::decode_utf8;
use crate::Error;
use crate::Wifi;
use crate::numbers::dec_str;
use crate::numbers::int_str;
use crate::numbers::hex_str;
use crate::numbers::u64_to_chars;
use crate::numbers::i64_to_chars;
use crate::numbers::u8_to_hex_chars;
use crate::text::chars_to_string;

verus! {

#[verifier::external_type_specification]
#[verifier::external_body]
pub struct ExFromUtf8Error(std::string::FromUtf8Error);

/// Relies on `String::from_utf8`: it succeeds exactly on valid UTF-8 and
/// then returns the string those bytes encode.
#[verifier::external_body]
fn string_from_utf8(bytes: Vec<u8>) -> (r: Result<String, std::string::FromUtf8Error>)
    ensures
        r is Ok <==> valid_utf8(bytes@),
        r matches Ok(s) ==> s@ == decode_utf8(bytes@),
{
    String::from_utf8(bytes)
}

/// `s` with every zero byte removed.
pub open spec fn nonzero_of(s: Seq<u8>) -> Seq<u8>
    decreases s.len(),
{
    if s.len() == 0 {
        Seq::empty()
    } else if s.last() != 0 {
        nonzero_of(s.drop_last()).push(s.last())
    } else {
        nonzero_of(s.drop_last())
    }
}

/// Decodes a fixed-size network-id buffer: a buffer starting with a zero
/// byte is an unnamed network and gives the empty string; otherwise the
/// padding zero bytes are dropped and the rest must be valid UTF-8.
pub fn nwid_to_str(nwid: &[u8]) -> (r: Result<String, std::string::FromUtf8Error>)
    requires
        nwid@.len() > 0,
    ensures
        nwid@[0] == 0 ==> (r matches Ok(s) && s@ == Seq::<char>::empty()),
        nwid@[0] != 0 ==> ((r is Ok <==> valid_utf8(nonzero_of(nwid@))) && (r matches Ok(s)
            ==> s@ == decode_utf8(nonzero_of(nwid@)))),
{
    if nwid[0] == 0 {
        return Ok(String::new());
    }
    let n = nwid.len();
    let mut kept: Vec<u8> = Vec::new();
    let mut i: usize = 0;
    while i < n
        invariant
            n == nwid@.len(),
            i <= n,
            kept@ == nonzero_of(nwid@.subrange(0, i as int)),
        decreases n - i,
    {
        let b = nwid[i];
        proof {
            assert(nwid@.subrange(0, i + 1 as int).drop_last() =~= nwid@.subrange(0, i as int));
            assert(nwid@.subrange(0, i + 1 as int).last() == nwid@[i as int]);
        }
        if b != 0 {
            kept.push(b);
        }
        i += 1;
    }
    proof {
        assert(nwid@.subrange(0, n as int) =~= nwid@);
    }
    string_from_utf8(kept)
}

/// Lays the bytes of an interface name into a 16-byte name field: byte `k`
/// is byte `k` of `name` for `k < 14` where `name` has one, and zero
/// elsewhere (the last two bytes always stay zero, keeping the field
/// terminated).
pub fn ifname_bytes(name: &[u8]) -> (r: Vec<u8>)
    ensures
        r@.len() == 16,
        forall|k: int|
            0 <= k < 16 ==> r@[k] == (if k < 14 && k < name@.len() {
                name@[k]
            } else {
                0u8
            }),
{
    let n = name.len();
    let mut r: Vec<u8> = Vec::new();
    let mut i: usize = 0;
    while i < 16
        invariant
            n == name@.len(),
            i <= 16,
            r@.len() == i,
            forall|k: int|
                0 <= k < i ==> r@[k] == (if k < 14 && k < name@.len() {
                    name@[k]
                } else {
                    0u8
                }),
        decreases 16 - i,
    {
        if i < 14 && i < n {
            r.push(name[i]);
        } else {
            r.push(0);
        }
        i += 1;
    }
    r
}

/// The media-word test that identifies a wireless interface: the masked
/// media type of the interface equals the IEEE 802.11 media type.
pub fn is_ieee80211_media(current: u64) -> (r: bool)
    ensures
        r == ((current & 0xff00) == 0x400),
{
    (current & 0xff00) == 0x400
}

/// A six-byte MAC as colon-separated lower-case hexadecimal, each byte
/// without leading zeros, as the `{:x}` format writes it.
pub open spec fn mac_hex(b: Seq<u8>) -> Seq<char>
    recommends
        b.len() == 6,
{
    hex_str(b[0] as nat) + seq![':'] + hex_str(b[1] as nat) + seq![':'] + hex_str(b[2] as nat)
        + seq![':'] + hex_str(b[3] as nat) + seq![':'] + hex_str(b[4] as nat) + seq![':'] + hex_str(
        b[5] as nat,
    )
}

/// Builds one record from the fields of a scan-result entry: the MAC in
/// hex, the network id decoded (its zero bytes dropped; a non-UTF-8 id is a
/// parse failure), and the channel, signal level and capability word in
/// decimal.
pub fn node_record(bssid: &[u8], nwid: &[u8], channel: u16, rssi: i8, capinfo: u16) -> (r: Result<
    Wifi,
    Error,
>)
    requires
        bssid@.len() == 6,
        nwid@.len() > 0,
    ensures
        r matches Ok(w) ==> {
            &&& w@.mac == mac_hex(bssid@)
            &&& (nwid@[0] == 0 ==> w@.ssid == Seq::<char>::empty())
            &&& (nwid@[0] != 0 ==> w@.ssid == decode_utf8(nonzero_of(nwid@)))
            &&& w@.channel == dec_str(channel as nat)
            &&& w@.signal_level == int_str(rssi as int)
            &&& w@.security == dec_str(capinfo as nat)
        },
        r is Err <==> nwid@[0] != 0 && !valid_utf8(nonzero_of(nwid@)),
        r matches Err(e) ==> e == Error::FailedToParse,
{
    let ssid = match nwid_to_str(nwid) {
        Ok(s) => s,
        Err(_) => {
            return Err(Error::FailedToParse);
        },
    };
    let mut mac: Vec<char> = u8_to_hex_chars(bssid[0]);
    let mut part = u8_to_hex_chars(bssid[1]);
    mac.push(':');
    mac.append(&mut part);
    let mut part = u8_to_hex_chars(bssid[2]);
    mac.push(':');
    mac.append(&mut part);
    let mut part = u8_to_hex_chars(bssid[3]);
    mac.push(':');
    mac.append(&mut part);
    let mut part = u8_to_hex_chars(bssid[4]);
    mac.push(':');
    mac.append(&mut part);
    let mut part = u8_to_hex_chars(bssid[5]);
    mac.push(':');
    mac.append(&mut part);
    proof {
        assert(mac@ =~= mac_hex(bssid@));
    }
    let chan = u64_to_chars(channel as u64);
    let sig = i64_to_chars(rssi as i64);
    let cap = u64_to_chars(capinfo as u64);
    Ok(
        Wifi {
            mac: chars_to_string(&mac),
            ssid,
            channel: chars_to_string(&chan),
            signal_level: chars_to_string(&sig),
            security: chars_to_string(&cap),
        },
    )
}

} // verus!
