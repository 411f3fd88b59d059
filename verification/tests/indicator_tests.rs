use mybar::indicators::{
    battery_icon, hex_rgba, network_icon, rssi_to_percent, saturating_totals,
    wifi_signal_from_rssi,
};

fn reference_battery_icon(percent: u8, charging: bool) -> &'static str {
    if charging {
        match percent {
            91.. => "\u{F0085}",
            81..91 => "\u{F008B}",
            71..81 => "\u{F008A}",
            61..71 => "\u{F089E}",
            51..61 => "\u{F0089}",
            41..51 => "\u{F089D}",
            31..41 => "\u{F0088}",
            21..31 => "\u{F0087}",
            11..21 => "\u{F0086}",
            0..11 => "\u{F089C}",
        }
    } else {
        match percent {
            91.. => "\u{F0079}",
            81..91 => "\u{F0082}",
            71..81 => "\u{F0081}",
            61..71 => "\u{F0080}",
            51..61 => "\u{F007F}",
            41..51 => "\u{F007E}",
            31..41 => "\u{F007D}",
            21..31 => "\u{F007C}",
            11..21 => "\u{F007B}",
            0..11 => "\u{F007A}",
        }
    }
}

#[test]
fn battery_icons_for_every_charge() {
    for p in 0..=255u8 {
        for charging in [false, true] {
            assert_eq!(battery_icon(p, charging), reference_battery_icon(p, charging), "{} {}", p, charging);
        }
    }
    assert_eq!(battery_icon(100, true), "\u{F0085}");
    assert_eq!(battery_icon(10, false), "\u{F007A}");
    assert_eq!(battery_icon(11, false), "\u{F007B}");
}

#[test]
fn network_icons() {
    assert_eq!(network_icon(None), "\u{F092B}");
    assert_eq!(network_icon(Some(0)), "\u{F091F}");
    assert_eq!(network_icon(Some(25)), "\u{F091F}");
    assert_eq!(network_icon(Some(26)), "\u{F0922}");
    assert_eq!(network_icon(Some(50)), "\u{F0922}");
    assert_eq!(network_icon(Some(51)), "\u{F0925}");
    assert_eq!(network_icon(Some(75)), "\u{F0925}");
    assert_eq!(network_icon(Some(76)), "\u{F0928}");
    assert_eq!(network_icon(Some(255)), "\u{F0928}");
}

fn reference_percent(rssi_dbm: i32) -> u8 {
    let clamped = rssi_dbm.clamp(-90, -30);
    let pct = (clamped + 90) as f64 / 60.0 * 100.0;
    pct.round().clamp(0.0, 100.0) as u8
}

#[test]
fn rssi_percent_matches_rounded_linear_map() {
    for r in -200..=50 {
        assert_eq!(rssi_to_percent(r), reference_percent(r), "{}", r);
    }
    assert_eq!(rssi_to_percent(i32::MIN), 0);
    assert_eq!(rssi_to_percent(i32::MAX), 100);
    assert_eq!(rssi_to_percent(-60), 50);
    assert_eq!(rssi_to_percent(-89), 2);
}

#[test]
fn wifi_signal() {
    assert_eq!(wifi_signal_from_rssi(0), None);
    assert_eq!(wifi_signal_from_rssi(-30), Some(100));
    assert_eq!(wifi_signal_from_rssi(-90), Some(0));
    assert_eq!(wifi_signal_from_rssi(-75), Some(25));
}

#[test]
fn colour_channels() {
    assert_eq!(hex_rgba(0x000000), (0, 0, 0, 255));
    assert_eq!(hex_rgba(0xDDAACC), (0xDD, 0xAA, 0xCC, 255));
    assert_eq!(hex_rgba(0xFFFFFF), (255, 255, 255, 255));
    assert_eq!(hex_rgba(0xDDAACC66), (0xDD, 0xAA, 0xCC, 0x66));
    assert_eq!(hex_rgba(0x01000000), (1, 0, 0, 0));
}

#[test]
fn traffic_totals_saturate() {
    assert_eq!(saturating_totals(&vec![]), (0, 0));
    assert_eq!(saturating_totals(&vec![(1, 2), (3, 4)]), (4, 6));
    assert_eq!(saturating_totals(&vec![(u64::MAX, 1), (5, 1)]), (u64::MAX, 2));
    assert_eq!(saturating_totals(&vec![(u64::MAX - 1, 0), (1, 0), (1, 0)]), (u64::MAX, 0));
}
