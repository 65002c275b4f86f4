//! Audible alerts on rising storm scales and X-class flares.
//!
//! The tracker compares each refresh with the previous one and says which
//! clips to play; playing them is up to the caller.
use vstd::prelude::*;
use crate::flare::{FlareData, class_letter_of};
use crate::scales::{NoaaScales, parse_scale_level, scale_level_spec};
use crate::text::{int_text, push_int};

verus! {

/// The levels an alert decision looks at.
#[derive(Debug, Clone, Copy, PartialEq, Eq, Structural)]
pub struct AlertLevels {
    pub g: i32,
    pub s: i32,
    pub r: i32,
    /// The latest flare is of class X.
    pub x_flare: bool,
}

/// A clip to play.
#[derive(Debug, Clone, Copy, PartialEq, Eq, Structural)]
pub enum AlertSound {
    /// Geomagnetic storm reached the level (capped at 3).
    Geomagnetic(i32),
    /// Solar radiation storm reached the level (capped at 3).
    SolarRadiation(i32),
    /// Radio blackout reached the level (capped at 3).
    RadioBlackout(i32),
    /// A new X-class flare.
    XClassFlare,
}

pub open spec fn cap3(v: i32) -> i32 {
    if v < 3 { v } else { 3 }
}

/// The levels in the scales and flares of one refresh.
pub open spec fn levels_of(scales: NoaaScales, flares: FlareData) -> AlertLevels {
    AlertLevels {
        g: scale_level_spec(scales.geomagnetic_storm.scale@),
        s: scale_level_spec(scales.solar_radiation.scale@),
        r: scale_level_spec(scales.radio_blackout.scale@),
        x_flare: flares.flares@.len() > 0 && class_letter_of(flares.flares@[0].class_type@) == 'X',
    }
}

/// Clips for a change from `prev` to `cur`: one for each scale that rose,
/// in the order G, S, R, and one for an X-class flare that is new.
pub open spec fn sounds_for(prev: AlertLevels, cur: AlertLevels) -> Seq<AlertSound> {
    (if cur.g > prev.g { seq![AlertSound::Geomagnetic(cap3(cur.g))] } else { seq![] })
        + (if cur.s > prev.s { seq![AlertSound::SolarRadiation(cap3(cur.s))] } else { seq![] })
        + (if cur.r > prev.r { seq![AlertSound::RadioBlackout(cap3(cur.r))] } else { seq![] })
        + (if cur.x_flare && !prev.x_flare { seq![AlertSound::XClassFlare] } else { seq![] })
}

/// One refresh: what the tracker remembers afterwards, and what it plays.
/// The first refresh only records; later ones play on rises when enabled.
pub open spec fn alert_step(seen: Option<AlertLevels>, cur: AlertLevels, enabled: bool) -> (
    Option<AlertLevels>,
    Seq<AlertSound>,
) {
    match seen {
        None => (Some(cur), seq![]),
        Some(prev) => (Some(cur), if enabled { sounds_for(prev, cur) } else { seq![] }),
    }
}

/// Tracks scale transitions between refreshes.
pub struct AlertState {
    prev_g: i32,
    prev_s: i32,
    prev_r: i32,
    prev_x_flare: bool,
    first_fetch: bool,
}

impl AlertState {
    /// The levels of the last refresh, none before the first.
    pub closed spec fn last_seen(self) -> Option<AlertLevels> {
        if self.first_fetch {
            None
        } else {
            Some(
                AlertLevels {
                    g: self.prev_g,
                    s: self.prev_s,
                    r: self.prev_r,
                    x_flare: self.prev_x_flare,
                },
            )
        }
    }

    /// A tracker that has seen no refresh yet.
    pub fn new() -> (r: Self)
        ensures
            r.last_seen() is None,
    {
        AlertState { prev_g: 0, prev_s: 0, prev_r: 0, prev_x_flare: false, first_fetch: true }
    }

    /// Tracks the scale transitions of a refresh and returns the clips to
    /// play. Transitions are tracked on every refresh, audible or not, so
    /// that turning sound on later does not replay stale rises.
    pub fn check_and_play(&mut self, scales: &NoaaScales, flares: &FlareData, enabled: bool) -> (r:
        Vec<AlertSound>)
        ensures
            final(self).last_seen() == alert_step(
                old(self).last_seen(),
                levels_of(*scales, *flares),
                enabled,
            ).0,
            r@ == alert_step(old(self).last_seen(), levels_of(*scales, *flares), enabled).1,
    {
        let cur_g = parse_scale_level(scales.geomagnetic_storm.scale.as_str());
        let cur_s = parse_scale_level(scales.solar_radiation.scale.as_str());
        let cur_r = parse_scale_level(scales.radio_blackout.scale.as_str());
        let cur_x = match flares.get_latest() {
            Some(f) => f.class_letter() == 'X',
            None => false,
        };
        let ghost cur = levels_of(*scales, *flares);
        assert(cur.g == cur_g && cur.s == cur_s && cur.r == cur_r && cur.x_flare == cur_x);
        let mut out: Vec<AlertSound> = Vec::new();
        if self.first_fetch {
            self.prev_g = cur_g;
            self.prev_s = cur_s;
            self.prev_r = cur_r;
            self.prev_x_flare = cur_x;
            self.first_fetch = false;
            return out;
        }
        let ghost prev = old(self).last_seen().unwrap();
        if enabled {
            if cur_g > self.prev_g {
                out.push(AlertSound::Geomagnetic(if cur_g < 3 { cur_g } else { 3 }));
            }
            let ghost a = out@;
            if cur_s > self.prev_s {
                out.push(AlertSound::SolarRadiation(if cur_s < 3 { cur_s } else { 3 }));
            }
            let ghost b = out@;
            if cur_r > self.prev_r {
                out.push(AlertSound::RadioBlackout(if cur_r < 3 { cur_r } else { 3 }));
            }
            let ghost c = out@;
            if cur_x && !self.prev_x_flare {
                out.push(AlertSound::XClassFlare);
            }
            assert(out@ == sounds_for(prev, cur));
        }
        self.prev_g = cur_g;
        self.prev_s = cur_s;
        self.prev_r = cur_r;
        self.prev_x_flare = cur_x;
        out
    }
}

impl Default for AlertState {
    fn default() -> (r: Self)
        ensures
            r.last_seen() is None,
    {
        Self::new()
    }
}

impl AlertSound {
    /// The file name of the clip, e.g. "G2.wav" or "XClass.wav".
    pub fn clip_name(&self) -> (r: String)
        ensures
            r@ == match *self {
                AlertSound::Geomagnetic(l) => "G"@ + int_text(l as int) + ".wav"@,
                AlertSound::SolarRadiation(l) => "S"@ + int_text(l as int) + ".wav"@,
                AlertSound::RadioBlackout(l) => "R"@ + int_text(l as int) + ".wav"@,
                AlertSound::XClassFlare => "XClass.wav"@,
            },
    {
        match self {
            AlertSound::Geomagnetic(l) => level_clip("G", *l),
            AlertSound::SolarRadiation(l) => level_clip("S", *l),
            AlertSound::RadioBlackout(l) => level_clip("R", *l),
            AlertSound::XClassFlare => "XClass.wav".to_owned(),
        }
    }
}

fn level_clip(prefix: &str, level: i32) -> (r: String)
    ensures
        r@ == prefix@ + int_text(level as int) + ".wav"@,
{
    let mut s = prefix.to_owned();
    push_int(&mut s, level as i64);
    s.append(".wav");
    s
}

/// The first refresh never plays a clip.
pub proof fn law_first_refresh_is_silent(cur: AlertLevels, enabled: bool)
    ensures
        alert_step(None, cur, enabled).1 == Seq::<AlertSound>::empty(),
{
}

/// Every refresh is remembered, audible or not.
pub proof fn law_refresh_is_tracked(seen: Option<AlertLevels>, cur: AlertLevels, enabled: bool)
    ensures
        alert_step(seen, cur, enabled).0 == Some(cur),
{
}

/// Nothing plays while sound is off.
pub proof fn law_muted_is_silent(seen: Option<AlertLevels>, cur: AlertLevels)
    ensures
        alert_step(seen, cur, false).1 == Seq::<AlertSound>::empty(),
{
}

/// A refresh that repeats the levels last seen plays nothing: in
/// particular, levels tracked while muted do not sound once enabled.
pub proof fn law_no_replay(first: Option<AlertLevels>, cur: AlertLevels, muted_then: bool, enabled: bool)
    ensures
        alert_step(alert_step(first, cur, muted_then).0, cur, enabled).1 == Seq::<AlertSound>::empty(),
{
    assert(sounds_for(cur, cur) =~= Seq::<AlertSound>::empty());
}

/// A clip for a scale plays only when that scale rose, and names the new
/// level capped at 3.
pub proof fn law_clips_follow_rises(prev: AlertLevels, cur: AlertLevels)
    ensures
        sounds_for(prev, cur).contains(AlertSound::Geomagnetic(cap3(cur.g))) <==> cur.g > prev.g,
        sounds_for(prev, cur).contains(AlertSound::SolarRadiation(cap3(cur.s))) <==> cur.s > prev.s,
        sounds_for(prev, cur).contains(AlertSound::RadioBlackout(cap3(cur.r))) <==> cur.r > prev.r,
        sounds_for(prev, cur).contains(AlertSound::XClassFlare) <==> (cur.x_flare && !prev.x_flare),
{
    let sg: Seq<AlertSound> = if cur.g > prev.g { seq![AlertSound::Geomagnetic(cap3(cur.g))] } else { seq![] };
    let ss: Seq<AlertSound> = if cur.s > prev.s { seq![AlertSound::SolarRadiation(cap3(cur.s))] } else { seq![] };
    let sr: Seq<AlertSound> = if cur.r > prev.r { seq![AlertSound::RadioBlackout(cap3(cur.r))] } else { seq![] };
    let sx: Seq<AlertSound> = if cur.x_flare && !prev.x_flare { seq![AlertSound::XClassFlare] } else { seq![] };
    let all = sounds_for(prev, cur);
    assert(all == sg + ss + sr + sx);
    if cur.g > prev.g {
        assert(all[0] == AlertSound::Geomagnetic(cap3(cur.g)));
    }
    if cur.s > prev.s {
        assert(all[sg.len() as int] == AlertSound::SolarRadiation(cap3(cur.s)));
    }
    if cur.r > prev.r {
        assert(all[(sg.len() + ss.len()) as int] == AlertSound::RadioBlackout(cap3(cur.r)));
    }
    if cur.x_flare && !prev.x_flare {
        assert(all[(sg.len() + ss.len() + sr.len()) as int] == AlertSound::XClassFlare);
    }
    assert forall|i: int| 0 <= i < all.len() implies
        (all[i] is Geomagnetic ==> cur.g > prev.g)
        && (all[i] is SolarRadiation ==> cur.s > prev.s)
        && (all[i] is RadioBlackout ==> cur.r > prev.r)
        && (all[i] is XClassFlare ==> cur.x_flare && !prev.x_flare) by {
        if i < sg.len() {
            assert(all[i] == sg[i]);
        } else if i < sg.len() + ss.len() {
            assert(all[i] == ss[i - sg.len()]);
        } else if i < sg.len() + ss.len() + sr.len() {
            assert(all[i] == sr[i - sg.len() - ss.len()]);
        } else {
            assert(all[i] == sx[i - sg.len() - ss.len() - sr.len()]);
        }
    }
}


/// The X-class clip plays exactly when the latest flare (the first of the
/// list) has a class starting with 'X' and the previous refresh had none:
/// a latest flare of any other class (M, C, ...) or no flare at all never
/// plays it.
pub proof fn law_x_clip_only_for_x_flares(prev: AlertLevels, scales: NoaaScales, flares: FlareData, enabled: bool)
    ensures
        alert_step(Some(prev), levels_of(scales, flares), enabled).1.contains(AlertSound::XClassFlare) <==> enabled && (
        flares.flares@.len() > 0 && flares.flares@[0].class_type@.len() > 0 && flares.flares@[0].class_type@[0] == 'X')
            && !prev.x_flare,
        alert_step(Some(prev), levels_of(scales, flares), enabled).0 == Some(levels_of(scales, flares)),
        levels_of(scales, flares).x_flare <==> flares.flares@.len() > 0 && flares.flares@[0].class_type@.len() > 0
            && flares.flares@[0].class_type@[0] == 'X',
{
    law_clips_follow_rises(prev, levels_of(scales, flares));
}

/// Each storm clip follows its own scale: with sound on, the geomagnetic
/// clip plays when the G scale's level rose above the last one seen, the
/// solar radiation clip on the S scale, the radio blackout clip on the R
/// scale, each naming the new level capped at 3.
pub proof fn law_storm_clips_follow_scales(prev: AlertLevels, scales: NoaaScales, flares: FlareData)
    ensures
        ({
            let g = scale_level_spec(scales.geomagnetic_storm.scale@);
            let s = scale_level_spec(scales.solar_radiation.scale@);
            let r = scale_level_spec(scales.radio_blackout.scale@);
            let played = alert_step(Some(prev), levels_of(scales, flares), true).1;
            &&& played.contains(AlertSound::Geomagnetic(if g < 3 { g } else { 3 })) <==> g > prev.g
            &&& played.contains(AlertSound::SolarRadiation(if s < 3 { s } else { 3 })) <==> s > prev.s
            &&& played.contains(AlertSound::RadioBlackout(if r < 3 { r } else { 3 })) <==> r > prev.r
            &&& played.len() == (if g > prev.g { 1int } else { 0 }) + (if s > prev.s { 1int } else { 0 }) + (if r
                > prev.r { 1int } else { 0 }) + (if levels_of(scales, flares).x_flare && !prev.x_flare { 1int } else { 0 })
            &&& g > prev.g ==> played[0] == AlertSound::Geomagnetic(if g < 3 { g } else { 3 })
            &&& g <= prev.g && s > prev.s ==> played[0] == AlertSound::SolarRadiation(if s < 3 { s } else { 3 })
        }),
{
    law_clips_follow_rises(prev, levels_of(scales, flares));
}

} // verus!
