//! HF/VHF band conditions estimated from the solar flux index (SFI) and the
//! planetary Kp index, and where the aurora boundary came from.
//!
//! The estimate compares the SFI with the thresholds 80, 100, 150, 200 and
//! 250, and the Kp index with 3, 4, 5, 6 and 7. Both enter as levels:
//! `sfi_level` is how many of the SFI thresholds the index exceeds, and
//! `kp_level` how many of the Kp thresholds the index reaches, so that
//! `sfi > 150` reads `sfi_level >= 3` and `kp < 4` reads `kp_level < 2`.
use vstd::prelude::*;

verus! {

/// Where the aurora boundary came from.
#[derive(Debug, Clone, Copy, PartialEq, Eq, Structural)]
pub enum AuroraSource {
    /// A simplified circle derived from the Kp index (the fallback).
    KpModel,
    /// NOAA's OVATION Prime nowcast grid.
    Ovation,
}

impl Default for AuroraSource {
    fn default() -> (r: Self)
        ensures
            r == AuroraSource::KpModel,
    {
        AuroraSource::KpModel
    }
}

/// Expected propagation on a band.
#[derive(Debug, Clone, Copy, PartialEq, Eq, Structural)]
pub enum BandQuality {
    Good,
    Fair,
    Poor,
}

/// The label shown for a quality.
pub open spec fn quality_label(q: BandQuality) -> Seq<char> {
    match q {
        BandQuality::Good => "GOOD"@,
        BandQuality::Fair => "FAIR"@,
        BandQuality::Poor => "POOR"@,
    }
}

impl BandQuality {
    pub fn label(&self) -> (r: &'static str)
        ensures
            r@ == quality_label(*self),
    {
        match self {
            BandQuality::Good => "GOOD",
            BandQuality::Fair => "FAIR",
            BandQuality::Poor => "POOR",
        }
    }
}

/// The estimated quality of one band.
#[derive(Debug, Clone)]
pub struct BandCondition {
    pub band: &'static str,
    pub quality: BandQuality,
}

/// The quality of a band at `freq_khz` kHz:
/// - 2 m (144 MHz and up): fair only when SFI > 250 and Kp < 3;
/// - 6 m (50 MHz and up): good when SFI > 200 and Kp < 3, fair when
///   SFI > 150 and Kp < 4;
/// - 12 m to 10 m (24 MHz and up): poor from Kp 7, good when SFI > 150 and
///   Kp < 4, fair when SFI > 100 and Kp < 5;
/// - 20 m to 15 m (14 MHz and up): poor from Kp 7, good when SFI > 100 and
///   Kp < 4, fair otherwise;
/// - 60 m to 30 m (5 MHz and up): poor from Kp 7, good when Kp < 4, fair
///   when Kp < 6;
/// - 160 m and 80 m: fair when Kp < 3;
/// and poor in every other case.
pub open spec fn band_quality(freq_khz: int, sfi_level: int, kp_level: int) -> BandQuality {
    if freq_khz >= 144000 {
        if sfi_level >= 5 && kp_level < 1 { BandQuality::Fair } else { BandQuality::Poor }
    } else if freq_khz >= 50000 {
        if sfi_level >= 4 && kp_level < 1 {
            BandQuality::Good
        } else if sfi_level >= 3 && kp_level < 2 {
            BandQuality::Fair
        } else {
            BandQuality::Poor
        }
    } else if freq_khz >= 24000 {
        if kp_level >= 5 {
            BandQuality::Poor
        } else if sfi_level >= 3 && kp_level < 2 {
            BandQuality::Good
        } else if sfi_level >= 2 && kp_level < 3 {
            BandQuality::Fair
        } else {
            BandQuality::Poor
        }
    } else if freq_khz >= 14000 {
        if kp_level >= 5 {
            BandQuality::Poor
        } else if sfi_level >= 2 && kp_level < 2 {
            BandQuality::Good
        } else {
            BandQuality::Fair
        }
    } else if freq_khz >= 5000 {
        if kp_level >= 5 {
            BandQuality::Poor
        } else if kp_level < 2 {
            BandQuality::Good
        } else if kp_level < 4 {
            BandQuality::Fair
        } else {
            BandQuality::Poor
        }
    } else if kp_level < 1 {
        BandQuality::Fair
    } else {
        BandQuality::Poor
    }
}

/// Estimates the quality of a band at `freq_khz` kHz.
pub fn estimate_single_band(freq_khz: u32, sfi_level: u8, kp_level: u8) -> (r: BandQuality)
    ensures
        r == band_quality(freq_khz as int, sfi_level as int, kp_level as int),
{
    if freq_khz >= 144000 {
        if sfi_level >= 5 && kp_level < 1 {
            return BandQuality::Fair;
        }
        return BandQuality::Poor;
    }
    if freq_khz >= 50000 {
        if sfi_level >= 4 && kp_level < 1 {
            return BandQuality::Good;
        }
        if sfi_level >= 3 && kp_level < 2 {
            return BandQuality::Fair;
        }
        return BandQuality::Poor;
    }
    if freq_khz >= 24000 {
        if kp_level >= 5 {
            return BandQuality::Poor;
        }
        if sfi_level >= 3 && kp_level < 2 {
            return BandQuality::Good;
        }
        if sfi_level >= 2 && kp_level < 3 {
            return BandQuality::Fair;
        }
        return BandQuality::Poor;
    }
    if freq_khz >= 14000 {
        if kp_level >= 5 {
            return BandQuality::Poor;
        }
        if sfi_level >= 2 && kp_level < 2 {
            return BandQuality::Good;
        }
        return BandQuality::Fair;
    }
    if freq_khz >= 5000 {
        if kp_level >= 5 {
            return BandQuality::Poor;
        }
        if kp_level < 2 {
            return BandQuality::Good;
        }
        if kp_level < 4 {
            return BandQuality::Fair;
        }
        return BandQuality::Poor;
    }
    if kp_level < 1 {
        return BandQuality::Fair;
    }
    BandQuality::Poor
}

/// The number of bands the dashboard rates.
pub const BAND_COUNT: usize = 13;

/// The name of band `i`, from 160 m up to 2 m.
pub open spec fn band_name(i: int) -> Seq<char> {
    if i == 0 {
        "160m"@
    } else if i == 1 {
        "80m"@
    } else if i == 2 {
        "60m"@
    } else if i == 3 {
        "40m"@
    } else if i == 4 {
        "30m"@
    } else if i == 5 {
        "20m"@
    } else if i == 6 {
        "17m"@
    } else if i == 7 {
        "15m"@
    } else if i == 8 {
        "12m"@
    } else if i == 9 {
        "11m"@
    } else if i == 10 {
        "10m"@
    } else if i == 11 {
        "6m"@
    } else {
        "2m"@
    }
}

/// The frequency of band `i` in kHz.
pub open spec fn band_khz(i: int) -> int {
    if i == 0 {
        1800
    } else if i == 1 {
        3500
    } else if i == 2 {
        5300
    } else if i == 3 {
        7000
    } else if i == 4 {
        10000
    } else if i == 5 {
        14000
    } else if i == 6 {
        18000
    } else if i == 7 {
        21000
    } else if i == 8 {
        24000
    } else if i == 9 {
        27000
    } else if i == 10 {
        28000
    } else if i == 11 {
        50000
    } else {
        144000
    }
}

fn band_entry(i: usize) -> (r: (&'static str, u32))
    requires
        i < BAND_COUNT,
    ensures
        r.0@ == band_name(i as int),
        r.1 == band_khz(i as int),
{
    match i {
        0 => ("160m", 1800),
        1 => ("80m", 3500),
        2 => ("60m", 5300),
        3 => ("40m", 7000),
        4 => ("30m", 10000),
        5 => ("20m", 14000),
        6 => ("17m", 18000),
        7 => ("15m", 21000),
        8 => ("12m", 24000),
        9 => ("11m", 27000),
        10 => ("10m", 28000),
        11 => ("6m", 50000),
        _ => ("2m", 144000),
    }
}

/// The estimated condition of every band, from 160 m up to 2 m.
pub fn estimate_band_conditions(sfi_level: u8, kp_level: u8) -> (r: Vec<BandCondition>)
    ensures
        r.len() == BAND_COUNT,
        forall|i: int|
            0 <= i < BAND_COUNT ==> (#[trigger] r[i]).band@ == band_name(i) && r[i].quality
                == band_quality(band_khz(i), sfi_level as int, kp_level as int),
{
    let mut r: Vec<BandCondition> = Vec::new();
    let mut i: usize = 0;
    while i < BAND_COUNT
        invariant
            i <= BAND_COUNT,
            r.len() == i,
            forall|j: int|
                0 <= j < i ==> (#[trigger] r[j]).band@ == band_name(j) && r[j].quality
                    == band_quality(band_khz(j), sfi_level as int, kp_level as int),
        decreases BAND_COUNT - i,
    {
        let (name, khz) = band_entry(i);
        let quality = estimate_single_band(khz, sfi_level, kp_level);
        r.push(BandCondition { band: name, quality });
        i = i + 1;
    }
    r
}

/// A geomagnetic storm closes every HF band above 160 m and 80 m: from Kp 7
/// on, no band from 60 m to 10 m is rated better than poor, whatever the
/// solar flux.
pub proof fn law_storm_closes_hf(sfi_level: int, kp_level: int, i: int)
    requires
        2 <= i <= 10,
        kp_level >= 5,
    ensures
        band_quality(band_khz(i), sfi_level, kp_level) == BandQuality::Poor,
{
}

/// More solar flux never makes a band worse: with the Kp index fixed, a band
/// rated good stays good, and one rated fair stays at least fair, when the
/// SFI rises.
pub proof fn law_flux_is_monotone(freq_khz: int, sfi_low: int, sfi_high: int, kp_level: int)
    requires
        sfi_low <= sfi_high,
    ensures
        band_quality(freq_khz, sfi_low, kp_level) == BandQuality::Good ==> band_quality(
            freq_khz,
            sfi_high,
            kp_level,
        ) == BandQuality::Good,
        band_quality(freq_khz, sfi_low, kp_level) == BandQuality::Fair ==> band_quality(
            freq_khz,
            sfi_high,
            kp_level,
        ) != BandQuality::Poor,
{
}

/// A quieter geomagnetic field never makes a band worse: with the solar flux
/// fixed, a band rated good stays good, and one rated fair stays at least
/// fair, when the Kp index falls.
pub proof fn law_quiet_field_is_monotone(freq_khz: int, sfi_level: int, kp_low: int, kp_high: int)
    requires
        kp_low <= kp_high,
    ensures
        band_quality(freq_khz, sfi_level, kp_high) == BandQuality::Good ==> band_quality(
            freq_khz,
            sfi_level,
            kp_low,
        ) == BandQuality::Good,
        band_quality(freq_khz, sfi_level, kp_high) == BandQuality::Fair ==> band_quality(
            freq_khz,
            sfi_level,
            kp_low,
        ) != BandQuality::Poor,
{
}


/// When each band is good and when it is open at all (fair or better), for
/// solar flux level `sfi` (0: SFI up to 80, 1: above 80, 2: above 100,
/// 3: above 150, 4: above 200, 5: above 250) and geomagnetic level `kp`
/// (0: Kp below 3, 1: below 4, 2: below 5, 3: below 6, 4: below 7, 5: from 7):
/// - 2 m (from 144 MHz): never good; open only with SFI above 250 and Kp below 3;
/// - 6 m (50 MHz up to 144): good with SFI above 200 and Kp below 3, open
///   with SFI above 150 and Kp below 4;
/// - 12 m to 10 m (24 MHz up to 50): good with SFI above 150 and Kp below 4,
///   open with SFI above 100 and Kp below 5;
/// - 20 m to 15 m (14 MHz up to 24): good with SFI above 100 and Kp below 4,
///   open whenever Kp is below 7;
/// - 60 m to 30 m (5 MHz up to 14): good with Kp below 4, open with Kp below 6;
/// - 160 m and 80 m (below 5 MHz): never good; open only with Kp below 3.
pub proof fn law_band_openings(freq_khz: int, sfi: int, kp: int)
    ensures
        freq_khz >= 144000 ==> band_quality(freq_khz, sfi, kp) != BandQuality::Good && (band_quality(freq_khz, sfi, kp)
            != BandQuality::Poor <==> sfi >= 5 && kp < 1),
        50000 <= freq_khz < 144000 ==> (band_quality(freq_khz, sfi, kp) == BandQuality::Good <==> sfi >= 4 && kp < 1)
            && (band_quality(freq_khz, sfi, kp) != BandQuality::Poor <==> sfi >= 3 && kp < 2),
        24000 <= freq_khz < 50000 ==> (band_quality(freq_khz, sfi, kp) == BandQuality::Good <==> sfi >= 3 && kp < 2)
            && (band_quality(freq_khz, sfi, kp) != BandQuality::Poor <==> sfi >= 2 && kp < 3),
        14000 <= freq_khz < 24000 ==> (band_quality(freq_khz, sfi, kp) == BandQuality::Good <==> sfi >= 2 && kp < 2)
            && (band_quality(freq_khz, sfi, kp) != BandQuality::Poor <==> kp < 5),
        5000 <= freq_khz < 14000 ==> (band_quality(freq_khz, sfi, kp) == BandQuality::Good <==> kp < 2) && (
        band_quality(freq_khz, sfi, kp) != BandQuality::Poor <==> kp < 4),
        freq_khz < 5000 ==> band_quality(freq_khz, sfi, kp) != BandQuality::Good && (band_quality(freq_khz, sfi, kp)
            != BandQuality::Poor <==> kp < 1),
{
}

/// The rating of each band of the list is that of its frequency: 160 m at
/// 1.8 MHz, 80 m at 3.5, 60 m at 5.3, 40 m at 7, 30 m at 10, 20 m at 14,
/// 17 m at 18, 15 m at 21, 12 m at 24, 11 m at 27, 10 m at 28, 6 m at 50 and
/// 2 m at 144 MHz.
pub proof fn law_band_list(i: int)
    requires
        0 <= i < 13,
    ensures
        i == 0 ==> band_name(i) == "160m"@ && band_khz(i) == 1800,
        i == 1 ==> band_name(i) == "80m"@ && band_khz(i) == 3500,
        i == 2 ==> band_name(i) == "60m"@ && band_khz(i) == 5300,
        i == 3 ==> band_name(i) == "40m"@ && band_khz(i) == 7000,
        i == 4 ==> band_name(i) == "30m"@ && band_khz(i) == 10000,
        i == 5 ==> band_name(i) == "20m"@ && band_khz(i) == 14000,
        i == 6 ==> band_name(i) == "17m"@ && band_khz(i) == 18000,
        i == 7 ==> band_name(i) == "15m"@ && band_khz(i) == 21000,
        i == 8 ==> band_name(i) == "12m"@ && band_khz(i) == 24000,
        i == 9 ==> band_name(i) == "11m"@ && band_khz(i) == 27000,
        i == 10 ==> band_name(i) == "10m"@ && band_khz(i) == 28000,
        i == 11 ==> band_name(i) == "6m"@ && band_khz(i) == 50000,
        i == 12 ==> band_name(i) == "2m"@ && band_khz(i) == 144000,
{
}

} // verus!
