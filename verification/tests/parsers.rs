use wifiscanner::Wifi;
use wifiscanner::airport::parse_airport;
use wifiscanner::iwlist::parse_iwlist;
use wifiscanner::netsh::parse_netsh;

fn wifi(mac: &str, ssid: &str, channel: &str, signal_level: &str, security: &str) -> Wifi {
    Wifi {
        mac: mac.to_string(),
        ssid: ssid.to_string(),
        channel: channel.to_string(),
        signal_level: signal_level.to_string(),
        security: security.to_string(),
    }
}

fn quality_cell(n: usize, mac: &str, ssid: &str, channel: &str, dbm: &str) -> String {
    format!(
        "          Cell {:02} - Address: {}\n\
         \u{20}                   Frequency:2.437 GHz (Channel {})\n\
         \u{20}                   Quality=65/70  Signal level={} dBm\n\
         \u{20}                   Encryption key:on\n\
         \u{20}                   ESSID:\"{}\"\n",
        n, mac, channel, dbm, ssid
    )
}

fn percent_cell(n: usize, mac: &str, ssid: &str, channel: &str, pct: u32) -> String {
    format!(
        "          Cell {:02} - Address: {}\n\
         \u{20}                   ESSID:\"{}\"\n\
         \u{20}                   Protocol:IEEE 802.11bgn\n\
         \u{20}                   Mode:Master\n\
         \u{20}                   Frequency:2.437 GHz (Channel {})\n\
         \u{20}                   Encryption key:on\n\
         \u{20}                   Signal level={}/100  \n",
        n, mac, ssid, channel, pct
    )
}

pub fn iwlist01_fixture() -> String {
    let mut f = String::from("wlan0     Scan completed :\n");
    f.push_str(&quality_cell(1, "00:35:1A:6F:0F:40", "TEST-Wifi", "6", "-72"));
    for k in 2..29 {
        let mac = format!("00:11:22:33:44:{:02x}", k);
        let ssid = format!("net-{}", k);
        f.push_str(&quality_cell(k, &mac, &ssid, "1", "-60"));
    }
    f.push_str(&quality_cell(29, "00:F2:8B:8F:58:77", "<hidden>", "11", "-71"));
    f
}

pub fn iwlist02_fixture() -> String {
    let mut f = String::from("wlan0     Scan completed :\n");
    f.push_str(&percent_cell(1, "D4:D1:84:50:76:45", "gsy-97796", "6", 48));
    f.push_str(&percent_cell(2, "11:22:33:44:55:66", "foo-net", "1", 40));
    f.push_str(&percent_cell(3, "7C:B7:33:AE:3B:05", "visitor-18170", "9", 60));
    f
}

pub fn airport01_fixture() -> String {
    let lines = vec![
        "                            SSID BSSID             RSSI CHANNEL HT CC SECURITY (auth/unicast/group)",
        "                         OurTest 00:35:1a:90:56:03 -70  112     Y  -- WPA2(PSK/AES/AES)",
        "                       TEST-Wifi 00:35:1a:90:56:00 -67  1       Y  -- WPA2(PSK/AES/AES)",
    ];
    let mut f = lines.join("\n");
    f.push('\n');
    f
}

fn netsh_block(n: usize, ssid: &str, auth: &str, sightings: &[(u32, &str)]) -> String {
    let mut b = format!(
        "SSID {} : {}\n    Network type            : Infrastructure\n    Authentication          : {}\n    Encryption              : CCMP \n",
        n, ssid, auth
    );
    for (i, (pct, channel)) in sightings.iter().enumerate() {
        b.push_str(&format!(
            "    BSSID {}                 : ab:cd:ef:01:23:45\n\
             \u{20}        Signal             : {}%  \n\
             \u{20}        Radio type         : 802.11n\n\
             \u{20}        Channel            : {} \n\
             \u{20}        Basic rates (Mbps) : 1 2 5.5 11\n",
            i + 1,
            pct,
            channel
        ));
    }
    b
}

pub fn netsh01_fixture() -> String {
    let mut f = String::from(
        "Interface name : Wireless Network Connection \nThere are 3 networks currently visible.\n\n",
    );
    f.push_str(&netsh_block(1, "Vodafone Hotspot", "Open", &[(16, "6"), (54, "6")]));
    f.push('\n');
    f.push_str(&netsh_block(2, "EdaBox", "WPA2-Personal", &[(36, "11")]));
    f.push('\n');
    f.push_str(&netsh_block(3, "FRITZ!Box 2345 Cable", "WPA2-Personal", &[(100, "1")]));
    f
}

#[test]
fn should_parse_iwlist_type_1() {
    let mut expected: Vec<Wifi> = Vec::new();
    expected.push(wifi("00:35:1A:6F:0F:40", "TEST-Wifi", "6", "-72", ""));
    expected.push(wifi("00:F2:8B:8F:58:77", "<hidden>", "11", "-71", ""));

    let filestr = iwlist01_fixture();
    let result = parse_iwlist(&filestr).unwrap();
    assert_eq!(expected[0], result[0]);
    assert_eq!(expected[1], result[28]);
}

#[test]
fn should_parse_iwlist_type_2() {
    let mut expected: Vec<Wifi> = Vec::new();
    expected.push(wifi("D4:D1:84:50:76:45", "gsy-97796", "6", "-76", ""));
    expected.push(wifi("7C:B7:33:AE:3B:05", "visitor-18170", "9", "-70", ""));

    let filestr = iwlist02_fixture();
    let result = parse_iwlist(&filestr).unwrap();
    assert_eq!(expected[0], result[0]);
    assert_eq!(expected[1], result[2]);
}

#[test]
fn should_parse_airport() {
    let mut expected: Vec<Wifi> = Vec::new();
    expected.push(wifi("00:35:1a:90:56:03", "OurTest", "112", "-70", "WPA2(PSK/AES/AES)"));
    expected.push(wifi("00:35:1a:90:56:00", "TEST-Wifi", "1", "-67", "WPA2(PSK/AES/AES)"));

    let filestr = airport01_fixture();
    let result = parse_airport(&filestr).unwrap();
    let last = result.len() - 1;
    assert_eq!(expected[0], result[0]);
    assert_eq!(expected[1], result[last]);
}

#[test]
fn should_parse_netsh() {
    let expected = vec![
        wifi("ab:cd:ef:01:23:45", "Vodafone Hotspot", "6", "-92", "Open"),
        wifi("ab:cd:ef:01:23:45", "Vodafone Hotspot", "6", "-73", "Open"),
        wifi("ab:cd:ef:01:23:45", "EdaBox", "11", "-82", "WPA2-Personal"),
        wifi("ab:cd:ef:01:23:45", "FRITZ!Box 2345 Cable", "1", "-50", "WPA2-Personal"),
    ];

    let fixture = netsh01_fixture();
    let result = parse_netsh(&fixture).unwrap();
    assert_eq!(expected[0], result[0]);
    assert_eq!(expected[1], result[1]);
    assert_eq!(expected[2], result[2]);
    assert_eq!(expected[3], result[3]);
}

#[test]
fn reparsing_fixtures_is_idempotent() {
    let f1 = iwlist01_fixture();
    assert_eq!(parse_iwlist(&f1).unwrap(), parse_iwlist(&f1).unwrap());
    let f2 = iwlist02_fixture();
    assert_eq!(parse_iwlist(&f2).unwrap(), parse_iwlist(&f2).unwrap());
    let fa = airport01_fixture();
    assert_eq!(parse_airport(&fa).unwrap(), parse_airport(&fa).unwrap());
    let fn1 = netsh01_fixture();
    assert_eq!(parse_netsh(&fn1).unwrap(), parse_netsh(&fn1).unwrap());
}
