use wifiscanner::Error;
use wifiscanner::Wifi;
use wifiscanner::airport::parse_airport;
use wifiscanner::iw::extract_first_interface;
use wifiscanner::iw::parse_iw_dev;
use wifiscanner::iwlist::parse_iwlist;
use wifiscanner::netsh::parse_netsh;
use wifiscanner::signal::percent_to_dbm_netsh;
use wifiscanner::signal::percent_to_dbm_quality;

fn wifi(mac: &str, ssid: &str, channel: &str, signal_level: &str, security: &str) -> Wifi {
    Wifi {
        mac: mac.to_string(),
        ssid: ssid.to_string(),
        channel: channel.to_string(),
        signal_level: signal_level.to_string(),
        security: security.to_string(),
    }
}

#[test]
fn empty_input_yields_no_records() {
    assert_eq!(parse_airport("").unwrap(), Vec::<Wifi>::new());
    assert_eq!(parse_iwlist("").unwrap(), Vec::<Wifi>::new());
    assert_eq!(parse_netsh("").unwrap(), Vec::<Wifi>::new());
    assert_eq!(parse_iw_dev("").unwrap(), Vec::<Wifi>::new());
}

#[test]
fn airport_header_only_yields_no_records() {
    let header = "                            SSID BSSID             RSSI CHANNEL HT CC SECURITY (auth/unicast/group)";
    assert_eq!(parse_airport(header).unwrap(), Vec::<Wifi>::new());
}

#[test]
fn airport_missing_header_is_failed_to_parse() {
    let text = "no columns here\njust text\n";
    assert_eq!(parse_airport(text), Err(Error::FailedToParse));
}

#[test]
fn extracts_first_interface_name() {
    let fixture = "phy#0\n\tInterface wlp2s0\n\t\ttype managed\n\t\ttxpower 22.00 dBm\n";
    assert_eq!(extract_first_interface(fixture).unwrap(), "wlp2s0".to_string());
}

#[test]
fn missing_interface_is_no_value() {
    assert_eq!(extract_first_interface(""), Err(Error::NoValue));
    assert_eq!(extract_first_interface("phy#0\n\ttype managed\n"), Err(Error::NoValue));
}

fn iw_group(mac: &str, ssid: &str, channel: &str, signal: &str) -> String {
    format!(
        "BSS {}(on wlp2s0)\n\tTSF: 2947795 usec\n\tfreq: 2457\n\tsignal: {} dBm\n\tSSID: {}\n\tDS Parameter set: channel {}\n",
        mac, signal, ssid, channel
    )
}

#[test]
fn parses_iw_dev_scan_groups() {
    let mut fixture = String::new();
    fixture.push_str(&iw_group("11:22:33:44:55:66", "hello", "10", "-67.00"));
    fixture.push_str(&iw_group("11:22:33:44:55:67", "guest", "1", "-79.00"));
    fixture.push_str(&iw_group("11:22:33:44:55:68", "office", "6", "-62.00"));
    fixture.push_str(&iw_group("22:33:44:55:66:77", "lab", "11", "-74.00"));
    fixture.push_str(&iw_group("33:44:55:66:77:88", "cafe", "3", "-81.00"));
    fixture.push_str(&iw_group("66:77:88:99:aa:bb", "hello-world-foo-bar", "8", "-89.00"));
    let result = parse_iw_dev(&fixture).unwrap();
    assert_eq!(result.len(), 6);
    assert_eq!(result[0], wifi("11:22:33:44:55:66", "hello", "10", "-67.00", ""));
    assert_eq!(result[5], wifi("66:77:88:99:aa:bb", "hello-world-foo-bar", "8", "-89.00", ""));
}

#[test]
fn quality_conversion_matches_formula() {
    // ((100 * pct) / 100) / 2 - 100 with truncating division
    assert_eq!(percent_to_dbm_quality(56), -72);
    assert_eq!(percent_to_dbm_quality(48), -76);
    assert_eq!(percent_to_dbm_quality(61), -70);
    assert_eq!(percent_to_dbm_quality(0), -100);
    assert_eq!(percent_to_dbm_quality(100), -50);
    assert_eq!(percent_to_dbm_quality(-5), -102);
}

#[test]
fn netsh_conversion_matches_formula() {
    // pct / 2 - 100 with truncating division
    assert_eq!(percent_to_dbm_netsh(16), -92);
    assert_eq!(percent_to_dbm_netsh(54), -73);
    assert_eq!(percent_to_dbm_netsh(36), -82);
    assert_eq!(percent_to_dbm_netsh(100), -50);
    assert_eq!(percent_to_dbm_netsh(0), -100);
    assert_eq!(percent_to_dbm_netsh(1), -100);
    assert_eq!(percent_to_dbm_netsh(-5), -102);
}

#[test]
fn netsh_bssid_without_mac_is_no_match() {
    let text = "\nSSID 1 : thing\n    BSSID 1                 : nope\n";
    assert_eq!(parse_netsh(text), Err(Error::NoMatch));
}

#[test]
fn netsh_bad_percentage_is_failed_to_parse() {
    let text = "\nSSID 1 : thing\n         Signal             : lots%  \n";
    assert_eq!(parse_netsh(text), Err(Error::FailedToParse));
}

#[test]
fn iwlist_signal_without_percentage_is_failed_to_parse() {
    let text = "Cell 01 - Address: 00:11:22:33:44:55\n                    Signal level=weird\n";
    assert_eq!(parse_iwlist(text), Err(Error::FailedToParse));
}

#[test]
fn iwlist_huge_percentage_is_failed_to_parse() {
    let text = "Cell 01 - Address: 00:11:22:33:44:55\n                    Signal level=99999999999/100\n";
    assert_eq!(parse_iwlist(text), Err(Error::FailedToParse));
}

#[test]
fn iwlist_block_without_mac_emits_nothing() {
    let text = "Cell 01 - Address: none here\n                    ESSID:\"x\"\n                    Quality=65/70  Signal level=-60 dBm\n";
    assert_eq!(parse_iwlist(text).unwrap(), Vec::<Wifi>::new());
}

#[test]
fn iwlist_channel_may_be_empty() {
    let text = "Cell 01 - Address: 00:11:22:33:44:55\n                    ESSID:\"x\"\n                    Quality=65/70  Signal level=-60 dBm\n";
    assert_eq!(parse_iwlist(text).unwrap(), vec![wifi("00:11:22:33:44:55", "x", "", "-60", "")]);
}
