//! Indicator rules: battery and Wi-Fi glyphs, signal strength, colour
//! channels, traffic totals.

use vstd::prelude::*;

verus! {

// ---------------------------------------------------------------------------
// Battery
// ---------------------------------------------------------------------------

/// The battery level shown, `0..=9`: 0–10 %, 11–20 %, …, 81–90 %, 91 % and
/// above.
pub open spec fn battery_level(percent: int) -> int {
    if percent <= 10 {
        0
    } else if percent >= 91 {
        9
    } else {
        (percent - 1) / 10
    }
}

/// Glyphs (Nerd Font code points) of a charging battery, by level.
pub open spec fn charging_glyphs() -> Seq<int> {
    seq![0xF089C, 0xF0086, 0xF0087, 0xF0088, 0xF089D, 0xF0089, 0xF089E, 0xF008A, 0xF008B, 0xF0085]
}

/// Glyphs (Nerd Font code points) of a discharging battery, by level.
pub open spec fn discharging_glyphs() -> Seq<int> {
    seq![0xF007A, 0xF007B, 0xF007C, 0xF007D, 0xF007E, 0xF007F, 0xF0080, 0xF0081, 0xF0082, 0xF0079]
}

/// The glyph of the battery icon.
pub open spec fn battery_glyph(percent: int, charging: bool) -> int {
    if charging {
        charging_glyphs()[battery_level(percent)]
    } else {
        discharging_glyphs()[battery_level(percent)]
    }
}

/// The level of `percent`, as `battery_level` defines it.
fn level_of(percent: u8) -> (r: u8)
    ensures
        r as int == battery_level(percent as int),
        r <= 9,
{
    if percent <= 10 {
        0
    } else if percent >= 91 {
        9
    } else {
        (percent - 1) / 10
    }
}

fn charging_icon(level: u8) -> (r: &'static str)
    requires
        level <= 9,
    ensures
        r@.len() == 1,
        r@[0] as int == charging_glyphs()[level as int],
{
    proof {
        reveal_strlit("\u{F089C}");
        reveal_strlit("\u{F0086}");
        reveal_strlit("\u{F0087}");
        reveal_strlit("\u{F0088}");
        reveal_strlit("\u{F089D}");
        reveal_strlit("\u{F0089}");
        reveal_strlit("\u{F089E}");
        reveal_strlit("\u{F008A}");
        reveal_strlit("\u{F008B}");
        reveal_strlit("\u{F0085}");
    }
    match level {
        0 => "\u{F089C}",
        1 => "\u{F0086}",
        2 => "\u{F0087}",
        3 => "\u{F0088}",
        4 => "\u{F089D}",
        5 => "\u{F0089}",
        6 => "\u{F089E}",
        7 => "\u{F008A}",
        8 => "\u{F008B}",
        _ => "\u{F0085}",
    }
}

fn discharging_icon(level: u8) -> (r: &'static str)
    requires
        level <= 9,
    ensures
        r@.len() == 1,
        r@[0] as int == discharging_glyphs()[level as int],
{
    proof {
        reveal_strlit("\u{F007A}");
        reveal_strlit("\u{F007B}");
        reveal_strlit("\u{F007C}");
        reveal_strlit("\u{F007D}");
        reveal_strlit("\u{F007E}");
        reveal_strlit("\u{F007F}");
        reveal_strlit("\u{F0080}");
        reveal_strlit("\u{F0081}");
        reveal_strlit("\u{F0082}");
        reveal_strlit("\u{F0079}");
    }
    match level {
        0 => "\u{F007A}",
        1 => "\u{F007B}",
        2 => "\u{F007C}",
        3 => "\u{F007D}",
        4 => "\u{F007E}",
        5 => "\u{F007F}",
        6 => "\u{F0080}",
        7 => "\u{F0081}",
        8 => "\u{F0082}",
        _ => "\u{F0079}",
    }
}

/// The battery icon for a charge in percent, charging or not.
pub fn battery_icon(percent: u8, charging: bool) -> (r: &'static str)
    ensures
        r@.len() == 1,
        r@[0] as int == battery_glyph(percent as int, charging),
{
    let level = level_of(percent);
    if charging {
        charging_icon(level)
    } else {
        discharging_icon(level)
    }
}

// ---------------------------------------------------------------------------
// Wi-Fi
// ---------------------------------------------------------------------------

/// The glyph of the network icon: unknown without a Wi-Fi signal, else one
/// to four bars for 0–25, 26–50, 51–75 and 76–100 %.
pub open spec fn network_glyph(wifi_signal: Option<u8>) -> int {
    match wifi_signal {
        None => 0xF092B,
        Some(p) => if p <= 25 {
            0xF091F
        } else if p <= 50 {
            0xF0922
        } else if p <= 75 {
            0xF0925
        } else {
            0xF0928
        },
    }
}

/// The network icon for a Wi-Fi signal strength in percent.
pub fn network_icon(wifi_signal: Option<u8>) -> (r: &'static str)
    ensures
        r@.len() == 1,
        r@[0] as int == network_glyph(wifi_signal),
{
    proof {
        reveal_strlit("\u{F092B}");
        reveal_strlit("\u{F091F}");
        reveal_strlit("\u{F0922}");
        reveal_strlit("\u{F0925}");
        reveal_strlit("\u{F0928}");
    }
    match wifi_signal {
        None => "\u{F092B}",
        Some(p) => if p <= 25 {
            "\u{F091F}"
        } else if p <= 50 {
            "\u{F0922}"
        } else if p <= 75 {
            "\u{F0925}"
        } else {
            "\u{F0928}"
        },
    }
}

/// `x` limited to `lo..=hi`.
pub open spec fn clamp(x: int, lo: int, hi: int) -> int {
    if x < lo {
        lo
    } else if x > hi {
        hi
    } else {
        x
    }
}

/// The signal strength in percent of an RSSI in dBm: -90 dBm and below is 0,
/// -30 dBm and above is 100, linearly in between, rounded to the nearest
/// percent.
pub open spec fn signal_percent(rssi_dbm: int) -> int {
    (200 * (clamp(rssi_dbm, -90, -30) + 90) + 60) / 120
}

/// The signal strength in percent of an RSSI in dBm.
pub fn rssi_to_percent(rssi_dbm: i32) -> (r: u8)
    ensures
        r as int == signal_percent(rssi_dbm as int),
        r <= 100,
{
    let clamped: i32 = if rssi_dbm < -90 {
        -90
    } else if rssi_dbm > -30 {
        -30
    } else {
        rssi_dbm
    };
    let x = (clamped + 90) as u32;
    ((200 * x + 60) / 120) as u8
}

/// The Wi-Fi signal strength reported by an RSSI reading: none for a zero
/// reading (not associated, or an error), else the percentage of the reading
/// taken as an `i32`.
pub fn wifi_signal_from_rssi(rssi: isize) -> (r: Option<u8>)
    ensures
        r == if rssi == 0 {
            None::<u8>
        } else {
            Some(signal_percent((rssi as i32) as int) as u8)
        },
{
    if rssi == 0 {
        None
    } else {
        Some(rssi_to_percent(rssi as i32))
    }
}

/// Law: a stronger signal never shows a lower percentage, and the percentage
/// stays within 0..=100, from 0 at -90 dBm to 100 at -30 dBm.
pub proof fn law_signal_percent_monotone(a: int, b: int)
    requires
        a <= b,
    ensures
        signal_percent(a) <= signal_percent(b),
        0 <= signal_percent(a) <= 100,
        signal_percent(-90) == 0,
        signal_percent(-30) == 100,
{
    let ca = clamp(a, -90, -30) + 90;
    let cb = clamp(b, -90, -30) + 90;
    assert(200 * ca + 60 <= 200 * cb + 60);
    assert((200 * ca + 60) / 120 <= (200 * cb + 60) / 120) by (nonlinear_arith)
        requires
            0 <= 200 * ca + 60 <= 200 * cb + 60,
    ;
    assert((200 * ca + 60) / 120 <= 100) by (nonlinear_arith)
        requires
            0 <= ca <= 60,
    ;
}

// ---------------------------------------------------------------------------
// Colours
// ---------------------------------------------------------------------------

/// The red, green, blue and alpha channels of a hexadecimal colour:
/// `0xRRGGBB` is opaque, a larger value is read as `0xRRGGBBAA`.
pub open spec fn rgba_of(h: int) -> (int, int, int, int) {
    if h <= 0xFF_FF_FF {
        ((h / 0x1_0000) % 0x100, (h / 0x100) % 0x100, h % 0x100, 0xFF)
    } else {
        ((h / 0x100_0000) % 0x100, (h / 0x1_0000) % 0x100, (h / 0x100) % 0x100, h % 0x100)
    }
}

/// The channels of a hexadecimal colour, each `0..=255`.
pub fn hex_rgba(h: u32) -> (r: (u8, u8, u8, u8))
    ensures
        (r.0 as int, r.1 as int, r.2 as int, r.3 as int) == rgba_of(h as int),
{
    if h <= 0xFF_FF_FF {
        let r = ((h >> 16) & 0xFF) as u8;
        let g = ((h >> 8) & 0xFF) as u8;
        let b = (h & 0xFF) as u8;
        assert(((h >> 16) & 0xFF) == (h / 0x1_0000) % 0x100) by (bit_vector);
        assert(((h >> 8) & 0xFF) == (h / 0x100) % 0x100) by (bit_vector);
        assert((h & 0xFF) == h % 0x100) by (bit_vector);
        (r, g, b, 0xFF)
    } else {
        let r = ((h >> 24) & 0xFF) as u8;
        let g = ((h >> 16) & 0xFF) as u8;
        let b = ((h >> 8) & 0xFF) as u8;
        let a = (h & 0xFF) as u8;
        assert(((h >> 24) & 0xFF) == (h / 0x100_0000) % 0x100) by (bit_vector);
        assert(((h >> 16) & 0xFF) == (h / 0x1_0000) % 0x100) by (bit_vector);
        assert(((h >> 8) & 0xFF) == (h / 0x100) % 0x100) by (bit_vector);
        assert((h & 0xFF) == h % 0x100) by (bit_vector);
        (r, g, b, a)
    }
}

// ---------------------------------------------------------------------------
// Traffic totals
// ---------------------------------------------------------------------------

/// The sums of the received and the transmitted byte counts.
pub open spec fn traffic_sums(samples: Seq<(u64, u64)>) -> (int, int)
    decreases samples.len(),
{
    if samples.len() == 0 {
        (0, 0)
    } else {
        let prev = traffic_sums(samples.drop_last());
        (prev.0 + samples.last().0, prev.1 + samples.last().1)
    }
}

pub open spec fn saturate(x: int) -> int {
    if x > u64::MAX {
        u64::MAX as int
    } else {
        x
    }
}

/// The received and transmitted byte counts of all interfaces, each summed
/// with saturation at `u64::MAX`.
pub fn saturating_totals(samples: &Vec<(u64, u64)>) -> (r: (u64, u64))
    ensures
        r.0 as int == saturate(traffic_sums(samples@).0),
        r.1 as int == saturate(traffic_sums(samples@).1),
{
    let mut rx: u64 = 0;
    let mut tx: u64 = 0;
    let mut i: usize = 0;
    while i < samples.len()
        invariant
            i <= samples.len(),
            rx as int == saturate(traffic_sums(samples@.take(i as int)).0),
            tx as int == saturate(traffic_sums(samples@.take(i as int)).1),
            traffic_sums(samples@.take(i as int)).0 >= 0,
            traffic_sums(samples@.take(i as int)).1 >= 0,
        decreases samples.len() - i,
    {
        assert(samples@.take(i + 1).drop_last() =~= samples@.take(i as int));
        assert(samples@.take(i + 1).last() == samples@[i as int]);
        let (a, b) = samples[i];
        rx = rx.saturating_add(a);
        tx = tx.saturating_add(b);
        i = i + 1;
    }
    assert(samples@.take(samples.len() as int) =~= samples@);
    (rx, tx)
}

} // verus!
