//! Upcoming rocket launches from the Launch Library 2 feed.
use vstd::prelude::*;
use crate::json::{DataError, JsonValue, json_get, json_at, json_str, text_or, get_at, str_at};
use crate::text::{chars_of, contains, has_sub};

verus! {

/// An instant in UTC: whole seconds since the Unix epoch and the
/// nanoseconds past them (at or above 10^9 during a leap second).
#[derive(Debug, Clone, Copy, PartialEq, Eq, Structural)]
pub struct UtcTime {
    pub unix_secs: i64,
    pub nanos: u32,
}

/// `a` is later than `b`.
pub open spec fn later(a: UtcTime, b: UtcTime) -> bool {
    a.unix_secs > b.unix_secs || (a.unix_secs == b.unix_secs && a.nanos > b.nanos)
}

impl UtcTime {
    /// Whether this instant is later than `other`.
    pub fn is_after(&self, other: &UtcTime) -> (r: bool)
        ensures
            r == later(*self, *other),
    {
        self.unix_secs > other.unix_secs || (self.unix_secs == other.unix_secs && self.nanos
            > other.nanos)
    }
}

/// The instant that chrono's RFC 3339 parser reads from `s`, as seconds
/// since the Unix epoch and nanoseconds; none when it rejects `s`.
pub uninterp spec fn rfc3339_instant(s: Seq<char>) -> Option<(i64, u32)>;

pub open spec fn time_of(p: Option<(i64, u32)>) -> Option<UtcTime> {
    match p {
        Some((s, n)) => Some(UtcTime { unix_secs: s, nanos: n }),
        None => None,
    }
}

/// Parses an RFC 3339 date and time with `chrono::DateTime::parse_from_rfc3339`
/// and reads the instant it denotes with `timestamp` (whole seconds since the
/// Unix epoch) and `timestamp_subsec_nanos`. The contract names the result,
/// a function of the text alone, and says nothing of which strings chrono
/// accepts.
#[verifier::external_body]
fn parse_rfc3339(s: &str) -> (r: Option<UtcTime>)
    ensures
        r == time_of(rfc3339_instant(s@)),
{
    match chrono::DateTime::parse_from_rfc3339(s) {
        Ok(d) => Some(UtcTime { unix_secs: d.timestamp(), nanos: d.timestamp_subsec_nanos() }),
        Err(_) => None,
    }
}

/// A launch from one of the tracked sites.
#[derive(Debug, Clone)]
pub struct UpcomingLaunch {
    /// No-earlier-than time
    pub net: UtcTime,
    pub window_start: UtcTime,
    pub vehicle: String,
    pub mission: String,
    pub orbit: String,
    /// The tracked site, empty when the pad is at none of them
    pub site: String,
}

/// The short name of a tracked launch site that a pad location names,
/// empty for any other location.
pub open spec fn site_name_spec(s: Seq<char>) -> Seq<char> {
    if has_sub(s, "Vandenberg"@) {
        "Vandenberg SFB"@
    } else if has_sub(s, "Starbase"@) {
        "Starbase"@
    } else if has_sub(s, "Cape Canaveral"@) || has_sub(s, "Kennedy"@) {
        "Cape Canaveral"@
    } else if has_sub(s, "Guiana"@) {
        "Guiana Space Centre"@
    } else if has_sub(s, "Baikonur"@) {
        "Baikonur Cosmodrome"@
    } else if has_sub(s, "Jiuquan"@) {
        "Jiuquan Launch Ctr"@
    } else if has_sub(s, "Tanegashima"@) {
        "Tanegashima SC"@
    } else {
        Seq::empty()
    }
}

/// Maps a Launch Library 2 pad location to a tracked site's short name.
pub fn map_site_name(ll2_name: &str) -> (r: String)
    ensures
        r@ == site_name_spec(ll2_name@),
{
    let cs = chars_of(ll2_name);
    if contains(&cs, "Vandenberg") {
        "Vandenberg SFB".to_owned()
    } else if contains(&cs, "Starbase") {
        "Starbase".to_owned()
    } else if contains(&cs, "Cape Canaveral") || contains(&cs, "Kennedy") {
        "Cape Canaveral".to_owned()
    } else if contains(&cs, "Guiana") {
        "Guiana Space Centre".to_owned()
    } else if contains(&cs, "Baikonur") {
        "Baikonur Cosmodrome".to_owned()
    } else if contains(&cs, "Jiuquan") {
        "Jiuquan Launch Ctr".to_owned()
    } else if contains(&cs, "Tanegashima") {
        "Tanegashima SC".to_owned()
    } else {
        String::new()
    }
}

/// The string at a path of object members, or `d`.
pub open spec fn text_at3(v: JsonValue, a: Seq<char>, b: Seq<char>, c: Seq<char>, d: Seq<char>) -> Seq<char> {
    text_or(json_str(json_at(json_at(json_get(v, a), b), c)), d)
}

pub open spec fn text_at2(v: JsonValue, a: Seq<char>, b: Seq<char>, d: Seq<char>) -> Seq<char> {
    text_or(json_str(json_at(json_get(v, a), b)), d)
}

/// The instant in member `key` of `v`, when it is an RFC 3339 string.
pub open spec fn time_member(v: JsonValue, key: Seq<char>) -> Option<UtcTime> {
    match json_str(json_get(v, key)) {
        Some(s) => time_of(rfc3339_instant(s)),
        None => None,
    }
}

/// The feed entry `v` describes a launch: both times are present and valid.
pub open spec fn launch_parses(v: JsonValue) -> bool {
    time_member(v, "net"@) is Some && time_member(v, "window_start"@) is Some
}

/// The vehicle, mission, orbit and site of `l` are those that feed entry
/// `v` names, with placeholders for what it lacks.
pub open spec fn launch_texts(l: UpcomingLaunch, v: JsonValue) -> bool {
    &&& l.vehicle@ == text_at3(v, "rocket"@, "configuration"@, "name"@, "Unknown"@)
    &&& l.mission@ == text_at2(v, "mission"@, "name"@, "Unknown Mission"@)
    &&& l.orbit@ == text_at3(v, "mission"@, "orbit"@, "abbrev"@, "--"@)
    &&& l.site@ == site_name_spec(text_at3(v, "pad"@, "location"@, "name"@, Seq::empty()))
}

/// `l` is the launch that feed entry `v` describes.
pub open spec fn launch_read(l: UpcomingLaunch, v: JsonValue) -> bool {
    &&& time_member(v, "net"@) == Some(l.net)
    &&& time_member(v, "window_start"@) == Some(l.window_start)
    &&& launch_texts(l, v)
}

fn read_time(value: &JsonValue, key: &str) -> (r: Result<UtcTime, DataError>)
    ensures
        match r {
            Ok(t) => time_member(*value, key@) == Some(t),
            Err(DataError::MissingField(k)) => k@ == key@ && json_str(json_get(*value, key@)) is None,
            Err(DataError::InvalidTimestamp(k)) => k@ == key@ && json_str(json_get(*value, key@)) is Some
                && time_member(*value, key@) is None,
        },
{
    let s = match value.get(key) {
        Some(x) => match x.as_str() {
            Some(s) => s,
            None => {
                return Err(DataError::MissingField(key.to_owned()));
            },
        },
        None => {
            return Err(DataError::MissingField(key.to_owned()));
        },
    };
    match parse_rfc3339(s) {
        Some(t) => Ok(t),
        None => Err(DataError::InvalidTimestamp(key.to_owned())),
    }
}

impl UpcomingLaunch {
    /// Reads a launch from a Launch Library 2 entry. Fails when "net" or
    /// "window_start" is missing or not an RFC 3339 time; the other members
    /// fall back to placeholders.
    pub fn from_json(value: &JsonValue) -> (r: Result<UpcomingLaunch, DataError>)
        ensures
            r is Ok <==> launch_parses(*value),
            r matches Ok(l) ==> launch_read(l, *value),
            r matches Err(DataError::MissingField(k)) ==> {
                ||| k@ == "net"@ && json_str(json_get(*value, "net"@)) is None
                ||| k@ == "window_start"@ && time_member(*value, "net"@) is Some && json_str(
                    json_get(*value, "window_start"@),
                ) is None
            },
            r matches Err(DataError::InvalidTimestamp(k)) ==> {
                ||| k@ == "net"@ && json_str(json_get(*value, "net"@)) is Some && time_member(
                    *value,
                    "net"@,
                ) is None
                ||| k@ == "window_start"@ && time_member(*value, "net"@) is Some && json_str(
                    json_get(*value, "window_start"@),
                ) is Some && time_member(*value, "window_start"@) is None
            },
    {
        let net = match read_time(value, "net") {
            Ok(t) => t,
            Err(e) => {
                return Err(e);
            },
        };
        let window_start = match read_time(value, "window_start") {
            Ok(t) => t,
            Err(e) => {
                return Err(e);
            },
        };
        let launch = Self::with_times(value, net, window_start);
        assert(time_member(*value, "net"@) == Some(net));
        assert(time_member(*value, "window_start"@) == Some(window_start));
        Ok(launch)
    }

    /// The launch that feed entry `value` describes, at the given times:
    /// the vehicle, mission, orbit and site from the entry, with
    /// placeholders for what it lacks.
    pub fn with_times(value: &JsonValue, net: UtcTime, window_start: UtcTime) -> (r: UpcomingLaunch)
        ensures
            r.net == net,
            r.window_start == window_start,
            launch_texts(r, *value),
    {
        let rocket = value.get("rocket");
        let vehicle = match str_at(get_at(get_at(rocket, "configuration"), "name")) {
            Some(s) => s,
            None => "Unknown",
        };
        let mission_v = value.get("mission");
        let mission = match str_at(get_at(mission_v, "name")) {
            Some(s) => s,
            None => "Unknown Mission",
        };
        let orbit = match str_at(get_at(get_at(mission_v, "orbit"), "abbrev")) {
            Some(s) => s,
            None => "--",
        };
        let pad_location = match str_at(get_at(get_at(value.get("pad"), "location"), "name")) {
            Some(s) => s,
            None => "",
        };
        proof {
            reveal_strlit("");
        }
        let site = map_site_name(pad_location);
        assert(vehicle@ == text_at3(*value, "rocket"@, "configuration"@, "name"@, "Unknown"@));
        assert(mission@ == text_at2(*value, "mission"@, "name"@, "Unknown Mission"@));
        assert(orbit@ == text_at3(*value, "mission"@, "orbit"@, "abbrev"@, "--"@));
        assert(pad_location@ == text_at3(*value, "pad"@, "location"@, "name"@, Seq::empty()));
        UpcomingLaunch {
            net,
            window_start,
            vehicle: vehicle.to_owned(),
            mission: mission.to_owned(),
            orbit: orbit.to_owned(),
            site,
        }
    }
}

/// A feed entry worth showing at `now`: a valid launch from a tracked site
/// whose no-earlier-than time is still ahead.
pub open spec fn is_next_candidate(v: JsonValue, now: UtcTime) -> bool {
    &&& launch_parses(v)
    &&& site_name_spec(text_at3(v, "pad"@, "location"@, "name"@, Seq::empty())).len() > 0
    &&& later(time_member(v, "net"@).unwrap(), now)
}

/// The "results" array of a Launch Library 2 response.
pub open spec fn results_of(response: JsonValue) -> Option<Seq<JsonValue>> {
    match json_get(response, "results"@) {
        Some(JsonValue::Array(a)) => Some(a@),
        _ => None,
    }
}

/// The next launch of a Launch Library 2 response at `now`: the first entry
/// of its "results" array that is a valid launch from a tracked site still
/// ahead. Fails when the response has no "results" array.
pub fn next_launch(response: &JsonValue, now: UtcTime) -> (r: Result<Option<UpcomingLaunch>, DataError>)
    ensures
        r is Err <==> results_of(*response) is None,
        r matches Err(DataError::MissingField(k)) ==> k@ == "results"@,
        r is Err ==> r matches Err(DataError::MissingField(_)),
        r matches Ok(None) ==> forall|i: int|
            0 <= i < results_of(*response).unwrap().len() ==> !is_next_candidate(
                #[trigger] results_of(*response).unwrap()[i],
                now,
            ),
        r matches Ok(Some(l)) ==> exists|i: int|
            0 <= i < results_of(*response).unwrap().len() && is_next_candidate(
                #[trigger] results_of(*response).unwrap()[i],
                now,
            ) && launch_read(l, results_of(*response).unwrap()[i]) && forall|j: int|
                0 <= j < i ==> !is_next_candidate(#[trigger] results_of(*response).unwrap()[j], now),
{
    let results = match value_array(response.get("results")) {
        Some(a) => a,
        None => {
            return Err(DataError::MissingField("results".to_owned()));
        },
    };
    let ghost arr = results_of(*response).unwrap();
    assert(results@ == arr);
    let n = results.len();
    let mut parsed: Vec<Option<UpcomingLaunch>> = Vec::new();
    for i in 0..n
        invariant
            n == arr.len(),
            results@ == arr,
            parsed.len() == i,
            forall|j: int|
                0 <= j < i ==> match #[trigger] parsed@[j] {
                    Some(l) => launch_parses(arr[j]) && launch_read(l, arr[j]),
                    None => !launch_parses(arr[j]),
                },
    {
        let entry = match UpcomingLaunch::from_json(&results[i]) {
            Ok(l) => Some(l),
            Err(_) => None,
        };
        parsed.push(entry);
    }
    let ghost seen = parsed@;
    assert forall|j: int| 0 <= j < n implies (#[trigger] seen[j] matches Some(l) && is_upcoming(l, now)) == is_next_candidate(arr[j], now) by {
        match seen[j] {
            Some(l) => {
                assert(time_member(arr[j], "net"@) == Some(l.net));
            },
            None => {},
        }
    }
    match first_upcoming(&parsed, now) {
        Some(i) => {
            let launch = parsed.remove(i);
            assert(launch == seen[i as int]);
            match launch {
                Some(l) => {
                    assert(is_next_candidate(arr[i as int], now));
                    assert(launch_read(l, arr[i as int]));
                    assert forall|j: int| 0 <= j < i implies !is_next_candidate(#[trigger] arr[j], now) by {
                        assert(!(seen[j] matches Some(l) && is_upcoming(l, now)));
                    }
                    Ok(Some(l))
                },
                None => Ok(None),
            }
        },
        None => {
            assert forall|j: int| 0 <= j < arr.len() implies !is_next_candidate(#[trigger] arr[j], now) by {
                assert(!(seen[j] matches Some(l) && is_upcoming(l, now)));
            }
            Ok(None)
        },
    }
}

/// `l` is worth showing at `now`: it comes from a tracked site and its
/// no-earlier-than time is still ahead.
pub open spec fn is_upcoming(l: UpcomingLaunch, now: UtcTime) -> bool {
    l.site@.len() > 0 && later(l.net, now)
}

/// The index of the first launch of `launches` worth showing at `now`, none
/// when there is no such launch (entries that did not parse are `None`).
pub fn first_upcoming(launches: &Vec<Option<UpcomingLaunch>>, now: UtcTime) -> (r: Option<usize>)
    ensures
        match r {
            Some(i) => i < launches.len() && (launches@[i as int] matches Some(l) && is_upcoming(l, now))
                && forall|j: int| 0 <= j < i ==> !(#[trigger] launches@[j] matches Some(l) && is_upcoming(l, now)),
            None => forall|j: int|
                0 <= j < launches.len() ==> !(#[trigger] launches@[j] matches Some(l) && is_upcoming(l, now)),
        },
{
    let n = launches.len();
    for i in 0..n
        invariant
            n == launches.len(),
            forall|j: int| 0 <= j < i ==> !(#[trigger] launches@[j] matches Some(l) && is_upcoming(l, now)),
    {
        match &launches[i] {
            Some(l) => {
                if !l.site.as_str().is_empty() && l.net.is_after(&now) {
                    return Some(i);
                }
            },
            None => {},
        }
    }
    None
}

fn value_array(v: Option<&JsonValue>) -> (r: Option<&Vec<JsonValue>>)
    ensures
        match v {
            Some(JsonValue::Array(a)) => r == Some(a),
            _ => r is None,
        },
{
    match v {
        Some(x) => x.as_array(),
        None => None,
    }
}


/// The tracked sites a pad location names, by the first of these words it
/// contains: "Vandenberg" (Vandenberg SFB), "Starbase", "Cape Canaveral" or
/// "Kennedy" (Cape Canaveral), "Guiana" (Guiana Space Centre), "Baikonur"
/// (Baikonur Cosmodrome), "Jiuquan" (Jiuquan Launch Ctr), "Tanegashima"
/// (Tanegashima SC); a location containing none of them is at no tracked
/// site.
pub proof fn law_tracked_sites(s: Seq<char>)
    ensures
        has_sub(s, "Vandenberg"@) ==> site_name_spec(s) == "Vandenberg SFB"@,
        !has_sub(s, "Vandenberg"@) && has_sub(s, "Starbase"@) ==> site_name_spec(s) == "Starbase"@,
        !has_sub(s, "Vandenberg"@) && !has_sub(s, "Starbase"@) && (has_sub(s, "Cape Canaveral"@) || has_sub(
            s,
            "Kennedy"@,
        )) ==> site_name_spec(s) == "Cape Canaveral"@,
        !has_sub(s, "Vandenberg"@) && !has_sub(s, "Starbase"@) && !has_sub(s, "Cape Canaveral"@) && !has_sub(
            s,
            "Kennedy"@,
        ) && has_sub(s, "Guiana"@) ==> site_name_spec(s) == "Guiana Space Centre"@,
        !has_sub(s, "Vandenberg"@) && !has_sub(s, "Starbase"@) && !has_sub(s, "Cape Canaveral"@) && !has_sub(
            s,
            "Kennedy"@,
        ) && !has_sub(s, "Guiana"@) && has_sub(s, "Baikonur"@) ==> site_name_spec(s) == "Baikonur Cosmodrome"@,
        !has_sub(s, "Vandenberg"@) && !has_sub(s, "Starbase"@) && !has_sub(s, "Cape Canaveral"@) && !has_sub(
            s,
            "Kennedy"@,
        ) && !has_sub(s, "Guiana"@) && !has_sub(s, "Baikonur"@) && has_sub(s, "Jiuquan"@) ==> site_name_spec(s)
            == "Jiuquan Launch Ctr"@,
        !has_sub(s, "Vandenberg"@) && !has_sub(s, "Starbase"@) && !has_sub(s, "Cape Canaveral"@) && !has_sub(
            s,
            "Kennedy"@,
        ) && !has_sub(s, "Guiana"@) && !has_sub(s, "Baikonur"@) && !has_sub(s, "Jiuquan"@) && has_sub(
            s,
            "Tanegashima"@,
        ) ==> site_name_spec(s) == "Tanegashima SC"@,
        !has_sub(s, "Vandenberg"@) && !has_sub(s, "Starbase"@) && !has_sub(s, "Cape Canaveral"@) && !has_sub(
            s,
            "Kennedy"@,
        ) && !has_sub(s, "Guiana"@) && !has_sub(s, "Baikonur"@) && !has_sub(s, "Jiuquan"@) && !has_sub(
            s,
            "Tanegashima"@,
        ) ==> site_name_spec(s).len() == 0,
{
}

/// A launch whose times parse, whose pad location names a tracked site
/// (contains one of the site words of `law_tracked_sites`) and whose
/// no-earlier-than time is still ahead is a candidate for the next launch.
pub proof fn law_tracked_launch_is_candidate(v: JsonValue, now: UtcTime)
    requires
        launch_parses(v),
        later(time_member(v, "net"@).unwrap(), now),
        ({
            let pad = text_at3(v, "pad"@, "location"@, "name"@, Seq::empty());
            has_sub(pad, "Vandenberg"@) || has_sub(pad, "Starbase"@) || has_sub(pad, "Cape Canaveral"@) || has_sub(
                pad,
                "Kennedy"@,
            ) || has_sub(pad, "Guiana"@) || has_sub(pad, "Baikonur"@) || has_sub(pad, "Jiuquan"@) || has_sub(
                pad,
                "Tanegashima"@,
            )
        }),
    ensures
        is_next_candidate(v, now),
{
    let pad = text_at3(v, "pad"@, "location"@, "name"@, Seq::empty());
    law_tracked_sites(pad);
    reveal_strlit("Vandenberg SFB");
    reveal_strlit("Starbase");
    reveal_strlit("Cape Canaveral");
    reveal_strlit("Guiana Space Centre");
    reveal_strlit("Baikonur Cosmodrome");
    reveal_strlit("Jiuquan Launch Ctr");
    reveal_strlit("Tanegashima SC");
}


/// Only a launch from a tracked site whose times parse and whose
/// no-earlier-than time is still ahead is a candidate.
pub proof fn law_candidates_are_tracked(v: JsonValue, now: UtcTime)
    requires
        is_next_candidate(v, now),
    ensures
        time_member(v, "net"@) is Some,
        time_member(v, "window_start"@) is Some,
        later(time_member(v, "net"@).unwrap(), now),
        ({
            let pad = text_at3(v, "pad"@, "location"@, "name"@, Seq::empty());
            has_sub(pad, "Vandenberg"@) || has_sub(pad, "Starbase"@) || has_sub(pad, "Cape Canaveral"@) || has_sub(
                pad,
                "Kennedy"@,
            ) || has_sub(pad, "Guiana"@) || has_sub(pad, "Baikonur"@) || has_sub(pad, "Jiuquan"@) || has_sub(
                pad,
                "Tanegashima"@,
            )
        }),
{
    let pad = text_at3(v, "pad"@, "location"@, "name"@, Seq::empty());
    law_tracked_sites(pad);
}

/// The texts of a launch: the vehicle is the "rocket"/"configuration"/"name"
/// string ("Unknown" without one), the mission the "mission"/"name" string
/// ("Unknown Mission"), the orbit the "mission"/"orbit"/"abbrev" string
/// ("--"), and the site the tracked site its pad location names.
pub proof fn law_launch_texts(l: UpcomingLaunch, v: JsonValue)
    requires
        launch_texts(l, v),
    ensures
        ({
            let veh = json_str(json_at(json_at(json_get(v, "rocket"@), "configuration"@), "name"@));
            let mis = json_str(json_at(json_get(v, "mission"@), "name"@));
            let orb = json_str(json_at(json_at(json_get(v, "mission"@), "orbit"@), "abbrev"@));
            &&& veh is Some ==> l.vehicle@ == veh.unwrap()
            &&& veh is None ==> l.vehicle@ == "Unknown"@
            &&& mis is Some ==> l.mission@ == mis.unwrap()
            &&& mis is None ==> l.mission@ == "Unknown Mission"@
            &&& orb is Some ==> l.orbit@ == orb.unwrap()
            &&& orb is None ==> l.orbit@ == "--"@
            &&& l.site@ == site_name_spec(text_at3(v, "pad"@, "location"@, "name"@, Seq::empty()))
        }),
{
}

} // verus!
