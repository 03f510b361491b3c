use wifiscanner::Error;
use wifiscanner::openbsd::ifname_bytes;
use wifiscanner::openbsd::is_ieee80211_media;
use wifiscanner::openbsd::node_record;
use wifiscanner::openbsd::nwid_to_str;

#[test]
fn nwid_drops_zero_bytes() {
    let nwid = [b'h', b'i', 0, 0, b'!', 0];
    assert_eq!(nwid_to_str(&nwid).unwrap(), "hi!".to_string());
}

#[test]
fn nwid_starting_with_zero_is_unnamed() {
    let nwid = [0, b'x', b'y'];
    assert_eq!(nwid_to_str(&nwid).unwrap(), String::new());
}

#[test]
fn nwid_rejects_invalid_utf8() {
    let nwid = [0xff, 0xfe, 0xfd];
    assert!(nwid_to_str(&nwid).is_err());
}

#[test]
fn ifname_lays_out_sixteen_bytes() {
    let r = ifname_bytes(b"wlan0");
    assert_eq!(r.len(), 16);
    assert_eq!(&r[..5], b"wlan0");
    assert!(r[5..].iter().all(|&b| b == 0));

    let long = ifname_bytes(b"abcdefghijklmnop");
    assert_eq!(&long[..14], b"abcdefghijklmn");
    assert_eq!(long[14], 0);
    assert_eq!(long[15], 0);
}

#[test]
fn media_word_identifies_wireless() {
    assert!(is_ieee80211_media(0x400));
    assert!(is_ieee80211_media(0x8000_0435));
    assert!(!is_ieee80211_media(0x500));
    assert!(!is_ieee80211_media(0));
    assert!(!is_ieee80211_media(0x1400));
}

#[test]
fn node_record_formats_fields() {
    let bssid = [0x00, 0x35, 0x1a, 0x90, 0x56, 0x03];
    let nwid = [b't', b'e', b's', b't', 0, 0, 0];
    let w = node_record(&bssid, &nwid, 112, -70, 1057).unwrap();
    assert_eq!(w.mac, "0:35:1a:90:56:3".to_string());
    assert_eq!(w.ssid, "test".to_string());
    assert_eq!(w.channel, "112".to_string());
    assert_eq!(w.signal_level, "-70".to_string());
    assert_eq!(w.security, "1057".to_string());
}

#[test]
fn node_record_rejects_invalid_utf8_name() {
    let bssid = [1, 2, 3, 4, 5, 6];
    let nwid = [0xc0, 0x00];
    assert_eq!(node_record(&bssid, &nwid, 1, -50, 0), Err(Error::FailedToParse));
}
