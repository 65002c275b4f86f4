//! GOES X-ray flare events.
use vstd::prelude::*;
use crate::json::{DataError, JsonValue, json_get, json_str, json_i64, str_view_opt, deref_opt};
use crate::text::{chars_of, int_text, push_char, push_int, string_from_chars};

verus! {

/// X-ray flare event from a GOES satellite.
#[derive(Debug, Clone)]
pub struct XRayFlare {
    /// ISO 8601 timestamp
    pub begin_time: String,
    /// ISO 8601 timestamp, or none while the flare is ongoing
    pub end_time: Option<String>,
    /// ISO 8601 timestamp of the peak
    pub peak_time: Option<String>,
    /// e.g. "M4.8", "X2.1"
    pub class_type: String,
    pub begin_class: Option<String>,
    pub end_class: Option<String>,
    /// e.g. "N12E34"
    pub source_location: Option<String>,
    /// NOAA active region number
    pub active_region: Option<i32>,
}

pub open spec fn opt_string_view(s: Option<String>) -> Option<Seq<char>> {
    match s {
        Some(t) => Some(t@),
        None => None,
    }
}

/// The letter of a flare class string: its first character, 'A' when empty.
pub open spec fn class_letter_of(s: Seq<char>) -> char {
    if s.len() > 0 { s[0] } else { 'A' }
}

impl XRayFlare {
    /// Whether the flare is still ongoing (no end time yet).
    pub fn is_ongoing(&self) -> (r: bool)
        ensures
            r == self.end_time is None,
    {
        self.end_time.is_none()
    }

    /// The flare class letter (A, B, C, M, X).
    pub fn class_letter(&self) -> (r: char)
        ensures
            r == class_letter_of(self.class_type@),
    {
        let cs = chars_of(self.class_type.as_str());
        if cs.len() > 0 {
            cs[0]
        } else {
            'A'
        }
    }
}

/// Latest flare events, most recent first.
#[derive(Debug, Clone)]
pub struct FlareData {
    pub flares: Vec<XRayFlare>,
}

impl Default for FlareData {
    fn default() -> (r: Self)
        ensures
            r.flares@.len() == 0,
    {
        FlareData { flares: Vec::new() }
    }
}

pub open spec fn ascii_lower(c: char) -> char {
    if 'A' <= c && c <= 'Z' { ((c as u8) + 32) as char } else { c }
}

/// `s` equals "Unk" ignoring ASCII case (the feed's placeholder for an
/// unknown time).
pub open spec fn is_unknown_marker(s: Seq<char>) -> bool {
    s.len() == 3 && ascii_lower(s[0]) == 'u' && ascii_lower(s[1]) == 'n' && ascii_lower(s[2]) == 'k'
}

/// A non-empty string member.
pub open spec fn present_text(v: Option<JsonValue>) -> Option<Seq<char>> {
    match json_str(v) {
        Some(s) => if s.len() > 0 { Some(s) } else { None },
        None => None,
    }
}

/// A timestamp member: a non-empty string other than the "Unk" placeholder.
pub open spec fn present_time(v: Option<JsonValue>) -> Option<Seq<char>> {
    match present_text(v) {
        Some(s) => if is_unknown_marker(s) { None } else { Some(s) },
        None => None,
    }
}

/// `a` when present, else `b` (`or_else`).
pub open spec fn first_present<T>(a: Option<T>, b: Option<T>) -> Option<T> {
    match a {
        Some(x) => Some(x),
        None => b,
    }
}

/// Entries of the flare feed that have a begin time are events.
pub open spec fn is_flare_entry(v: JsonValue) -> bool {
    present_time(json_get(v, "begin_time"@)) is Some
}

/// `f` is the event that flare entry `v` describes.
pub open spec fn flare_read(f: XRayFlare, v: JsonValue) -> bool {
    &&& Some(f.begin_time@) == present_time(json_get(v, "begin_time"@))
    &&& opt_string_view(f.end_time) == present_time(json_get(v, "end_time"@))
    &&& opt_string_view(f.peak_time) == present_time(json_get(v, "max_time"@))
    &&& f.class_type@ == match first_present(
        present_text(json_get(v, "max_class"@)),
        present_text(json_get(v, "current_class"@)),
    ) {
        Some(c) => c,
        None => "A0.0"@,
    }
    &&& opt_string_view(f.begin_class) == present_text(json_get(v, "begin_class"@))
    &&& opt_string_view(f.end_class) == present_text(json_get(v, "end_class"@))
    &&& opt_string_view(f.source_location) == first_present(
        present_text(json_get(v, "sourceLocation"@)),
        present_text(json_get(v, "source_location"@)),
    )
    &&& f.active_region == match json_i64(
        first_present(json_get(v, "activeRegion"@), json_get(v, "active_region"@)),
    ) {
        Some(n) => Some(n as i32),
        None => None,
    }
}

/// The flare entries of `s`, in order.
pub open spec fn flare_entries(s: Seq<JsonValue>) -> Seq<JsonValue>
    decreases s.len(),
{
    if s.len() == 0 {
        seq![]
    } else if is_flare_entry(s.last()) {
        flare_entries(s.drop_last()).push(s.last())
    } else {
        flare_entries(s.drop_last())
    }
}

fn is_unknown(s: &str) -> (r: bool)
    ensures
        r == is_unknown_marker(s@),
{
    let cs = chars_of(s);
    if cs.len() != 3 {
        return false;
    }
    lower(cs[0]) == 'u' && lower(cs[1]) == 'n' && lower(cs[2]) == 'k'
}

fn lower(c: char) -> (r: char)
    ensures
        r == ascii_lower(c),
{
    if 'A' <= c && c <= 'Z' {
        ((c as u8) + 32) as char
    } else {
        c
    }
}

fn text_member(v: &JsonValue, key: &str) -> (r: Option<String>)
    ensures
        opt_string_view(r) == present_text(json_get(*v, key@)),
{
    match v.get(key) {
        Some(x) => match x.as_str() {
            Some(s) => if !s.is_empty() {
                Some(s.to_owned())
            } else {
                None
            },
            None => None,
        },
        None => None,
    }
}

fn time_member(v: &JsonValue, key: &str) -> (r: Option<String>)
    ensures
        opt_string_view(r) == present_time(json_get(*v, key@)),
{
    match text_member(v, key) {
        Some(s) => if is_unknown(s.as_str()) {
            None
        } else {
            Some(s)
        },
        None => None,
    }
}

impl FlareData {
    /// The most recent flare event (the first of the feed).
    pub fn get_latest(&self) -> (r: Option<&XRayFlare>)
        ensures
            self.flares@.len() == 0 ==> r is None,
            self.flares@.len() > 0 ==> r == Some(&self.flares@[0]),
    {
        if self.flares.len() > 0 {
            Some(&self.flares[0])
        } else {
            None
        }
    }

    /// Parses the flare feed, an array of event objects, field by field:
    /// entries without a begin time are skipped; "Unk" and empty times read
    /// as absent; the class falls back from the peak class to the current
    /// class to "A0.0", so that flares still in progress are kept.
    pub fn from_json(data: Vec<JsonValue>) -> (r: Result<FlareData, DataError>)
        ensures
            r matches Ok(fd) && fd.flares@.len() == flare_entries(data@).len() && (forall|i: int|
                0 <= i < fd.flares@.len() ==> flare_read(
                    #[trigger] fd.flares@[i],
                    flare_entries(data@)[i],
                )),
    {
        let mut flares: Vec<XRayFlare> = Vec::new();
        let n = data.len();
        for i in 0..n
            invariant
                n == data@.len(),
                flares@.len() == flare_entries(data@.take(i as int)).len(),
                forall|j: int|
                    0 <= j < flares@.len() ==> flare_read(
                        #[trigger] flares@[j],
                        flare_entries(data@.take(i as int))[j],
                    ),
        {
            let v = &data[i];
            let ghost pre = data@.take(i as int);
            assert(data@.take(i + 1).drop_last() == pre);
            assert(data@.take(i + 1).last() == *v);
            if let Some(begin_time) = time_member(v, "begin_time") {
                let class_type = match text_member(v, "max_class") {
                    Some(c) => c,
                    None => match text_member(v, "current_class") {
                        Some(c) => c,
                        None => "A0.0".to_owned(),
                    },
                };
                let source_location = match text_member(v, "sourceLocation") {
                    Some(s) => Some(s),
                    None => text_member(v, "source_location"),
                };
                let region_value = match v.get("activeRegion") {
                    Some(x) => Some(x),
                    None => v.get("active_region"),
                };
                let active_region = match region_value {
                    Some(x) => match x.as_i64() {
                        Some(n) => Some(n as i32),
                        None => None,
                    },
                    None => None,
                };
                let flare = XRayFlare {
                    begin_time,
                    end_time: time_member(v, "end_time"),
                    peak_time: time_member(v, "max_time"),
                    class_type,
                    begin_class: text_member(v, "begin_class"),
                    end_class: text_member(v, "end_class"),
                    source_location,
                    active_region,
                };
                let ghost before = flares@;
                flares.push(flare);
                assert forall|j: int|
                    0 <= j < flares@.len() implies flare_read(
                    #[trigger] flares@[j],
                    flare_entries(data@.take(i + 1))[j],
                ) by {
                    if j < before.len() {
                        assert(flares@[j] == before[j]);
                    }
                }
            }
        }
        assert(data@.take(n as int) == data@);
        Ok(FlareData { flares })
    }
}

/// The characters of `s` before the first `c` (all of `s` when there is
/// none): the first piece of `s.split(c)`.
pub open spec fn upto(s: Seq<char>, c: char) -> Seq<char>
    decreases s.len(),
{
    if s.len() == 0 {
        s
    } else if s[0] == c {
        seq![]
    } else {
        seq![s[0]] + upto(s.drop_first(), c)
    }
}

/// The characters of `s` after its first `c`, none when there is no `c`.
pub open spec fn after(s: Seq<char>, c: char) -> Option<Seq<char>>
    decreases s.len(),
{
    if s.len() == 0 {
        None
    } else if s[0] == c {
        Some(s.drop_first())
    } else {
        after(s.drop_first(), c)
    }
}

/// The date of an ISO 8601 timestamp: what precedes the 'T'.
pub open spec fn stamp_date(s: Seq<char>) -> Seq<char> {
    upto(s, 'T')
}

/// The time of day of an ISO 8601 timestamp, without fractional seconds:
/// the second 'T'-separated piece up to its first '.'; "--:--:--" when the
/// timestamp has no 'T'.
pub open spec fn stamp_clock(s: Seq<char>) -> Seq<char> {
    match after(s, 'T') {
        Some(rest) => upto(upto(rest, 'T'), '.'),
        None => "--:--:--"@,
    }
}

/// Splits `cs` at its first `c`: the characters before it, and those after
/// it when there is one.
fn split_first(cs: &Vec<char>, c: char) -> (r: (Vec<char>, Option<Vec<char>>))
    ensures
        r.0@ == upto(cs@, c),
        match r.1 {
            Some(v) => after(cs@, c) == Some(v@),
            None => after(cs@, c) is None,
        },
{
    let mut head: Vec<char> = Vec::new();
    let mut i: usize = 0;
    assert(cs@.skip(0) =~= cs@);
    assert(head@ + upto(cs@, c) =~= upto(cs@, c));
    while i < cs.len()
        invariant
            i <= cs.len(),
            head@ == cs@.take(i as int),
            forall|k: int| 0 <= k < i ==> cs@[k] != c,
            upto(cs@, c) == head@ + upto(cs@.skip(i as int), c),
            after(cs@, c) == after(cs@.skip(i as int), c),
        decreases cs.len() - i,
    {
        let ghost rest = cs@.skip(i as int);
        assert(rest[0] == cs@[i as int]);
        assert(rest.drop_first() =~= cs@.skip(i + 1));
        if cs[i] == c {
            let mut tail: Vec<char> = Vec::new();
            let mut j: usize = i + 1;
            while j < cs.len()
                invariant
                    i < j <= cs.len(),
                    tail@ =~= cs@.subrange(i + 1, j as int),
                decreases cs.len() - j,
            {
                tail.push(cs[j]);
                j = j + 1;
            }
            assert(upto(rest, c) =~= Seq::<char>::empty());
            assert(head@ + Seq::<char>::empty() =~= head@);
            assert(tail@ =~= rest.drop_first());
            return (head, Some(tail));
        }
        head.push(cs[i]);
        assert(head@ =~= cs@.take(i + 1));
        assert(upto(rest, c) == seq![cs@[i as int]] + upto(cs@.skip(i + 1), c));
        assert(head@ + upto(cs@.skip(i + 1), c) =~= cs@.take(i as int) + (seq![cs@[i as int]] + upto(cs@.skip(i + 1), c)));
        i = i + 1;
    }
    assert(cs@.skip(i as int) =~= Seq::<char>::empty());
    assert(head@ + Seq::<char>::empty() =~= head@);
    (head, None)
}

/// The date of a timestamp.
pub fn date_of(stamp: &str) -> (r: String)
    ensures
        r@ == stamp_date(stamp@),
{
    let cs = chars_of(stamp);
    let (head, _) = split_first(&cs, 'T');
    string_from_chars(&head)
}

/// The time of day of a timestamp.
pub fn clock_of(stamp: &str) -> (r: String)
    ensures
        r@ == stamp_clock(stamp@),
{
    let cs = chars_of(stamp);
    let (_, rest) = split_first(&cs, 'T');
    match rest {
        Some(r) => {
            let (piece, _) = split_first(&r, 'T');
            let (whole, _) = split_first(&piece, '.');
            string_from_chars(&whole)
        },
        None => "--:--:--".to_owned(),
    }
}

/// The text of the latest flare panel.
#[derive(Debug, Clone)]
pub struct FlareEventText {
    /// Date and time of day of the start.
    pub start: String,
    pub peak: String,
    /// "Ongoing" while the flare lasts.
    pub end: String,
    pub class: String,
    /// The class at the start, "--" when unknown.
    pub min_class: String,
    /// "AR" and the active region number, "--" when unknown.
    pub region: String,
    /// The location on the solar disk, empty when unknown.
    pub location: String,
}

/// The time of day of an optional timestamp, "--:--:--" when absent.
pub open spec fn opt_clock(s: Option<String>) -> Seq<char> {
    match s {
        Some(t) => stamp_clock(t@),
        None => "--:--:--"@,
    }
}

/// `f` laid out for the flare panel.
pub open spec fn event_text_of(t: FlareEventText, f: XRayFlare) -> bool {
    &&& t.start@ == stamp_date(f.begin_time@) + seq![' '] + stamp_clock(f.begin_time@)
    &&& t.peak@ == opt_clock(f.peak_time)
    &&& t.end@ == (if f.end_time is None { "Ongoing"@ } else { opt_clock(f.end_time) })
    &&& t.class@ == f.class_type@
    &&& t.min_class@ == match f.begin_class {
        Some(c) => c@,
        None => "--"@,
    }
    &&& t.region@ == match f.active_region {
        Some(n) => "AR"@ + int_text(n as int),
        None => "--"@,
    }
    &&& t.location@ == match f.source_location {
        Some(l) => l@,
        None => Seq::<char>::empty(),
    }
}

fn opt_clock_of(s: &Option<String>) -> (r: String)
    ensures
        r@ == opt_clock(*s),
{
    match s {
        Some(t) => clock_of(t.as_str()),
        None => "--:--:--".to_owned(),
    }
}

impl XRayFlare {
    /// The flare laid out for the latest flare panel.
    pub fn event_text(&self) -> (r: FlareEventText)
        ensures
            event_text_of(r, *self),
    {
        let mut start = date_of(self.begin_time.as_str());
        push_char(&mut start, ' ');
        let clock = clock_of(self.begin_time.as_str());
        start.append(clock.as_str());
        let end = if self.is_ongoing() {
            "Ongoing".to_owned()
        } else {
            opt_clock_of(&self.end_time)
        };
        let min_class = match &self.begin_class {
            Some(c) => c.clone(),
            None => "--".to_owned(),
        };
        let region = match self.active_region {
            Some(n) => {
                let mut s = "AR".to_owned();
                push_int(&mut s, n as i64);
                s
            },
            None => "--".to_owned(),
        };
        let location = match &self.source_location {
            Some(l) => l.clone(),
            None => String::new(),
        };
        let peak = opt_clock_of(&self.peak_time);
        let class = self.class_type.clone();
        assert(start@ == stamp_date(self.begin_time@) + seq![' '] + stamp_clock(self.begin_time@));
        assert(peak@ == opt_clock(self.peak_time));
        assert(end@ == (if self.end_time is None { "Ongoing"@ } else { opt_clock(self.end_time) }));
        assert(class@ == self.class_type@);
        FlareEventText {
            start,
            peak,
            end,
            class,
            min_class,
            region,
            location,
        }
    }
}

/// How intense a flare class letter is.
pub open spec fn class_intensity(letter: char) -> Seq<char> {
    if letter == 'X' {
        "Extreme"@
    } else if letter == 'M' {
        "Strong"@
    } else if letter == 'C' {
        "Moderate"@
    } else if letter == 'B' {
        "Low"@
    } else {
        "Minimal"@
    }
}

/// How intense a flare class letter is: X extreme, M strong, C moderate,
/// B low, anything else minimal.
pub fn class_description(letter: char) -> (r: &'static str)
    ensures
        r@ == class_intensity(letter),
{
    match letter {
        'X' => "Extreme",
        'M' => "Strong",
        'C' => "Moderate",
        'B' => "Low",
        _ => "Minimal",
    }
}


/// The class of a flare event is its peak class: a non-empty "max_class"
/// string wins; the current class ("current_class") is read only when there
/// is no non-empty peak class; "A0.0" only when neither is a non-empty
/// string.
pub proof fn law_peak_class_first(f: XRayFlare, v: JsonValue)
    requires
        flare_read(f, v),
    ensures
        ({
            let max = json_str(json_get(v, "max_class"@));
            let cur = json_str(json_get(v, "current_class"@));
            let max_given = max is Some && max.unwrap().len() > 0;
            let cur_given = cur is Some && cur.unwrap().len() > 0;
            &&& max_given ==> f.class_type@ == max.unwrap()
            &&& !max_given && cur_given ==> f.class_type@ == cur.unwrap()
            &&& !max_given && !cur_given ==> f.class_type@ == "A0.0"@
        }),
{
}

/// The end of a flare event is the "end_time" string when it is present, not
/// empty and not the three-letter "Unk" placeholder; an absent member, or
/// "Unk", leaves the event without an end (still in progress).
pub proof fn law_end_time_read(f: XRayFlare, v: JsonValue)
    requires
        flare_read(f, v),
    ensures
        ({
            let end = json_str(json_get(v, "end_time"@));
            &&& end is Some && end.unwrap().len() > 0 && end.unwrap().len() != 3 ==> opt_string_view(f.end_time) == end
            &&& end is None ==> f.end_time is None
            &&& end == Some("Unk"@) ==> f.end_time is None
        }),
{
    reveal_strlit("Unk");
}


/// The times of a flare event: begin ("begin_time"), end ("end_time") and
/// peak ("max_time") are the members' strings when present, not empty and
/// not "Unk" in any letter case; otherwise the end and peak are absent.
pub proof fn law_flare_times_read(f: XRayFlare, v: JsonValue)
    requires
        flare_read(f, v),
    ensures
        ({
            let begin = json_str(json_get(v, "begin_time"@));
            let end = json_str(json_get(v, "end_time"@));
            let peak = json_str(json_get(v, "max_time"@));
            &&& begin is Some && begin.unwrap().len() > 0 && begin.unwrap().len() != 3 ==> f.begin_time@ == begin.unwrap()
            &&& end is Some && end.unwrap().len() > 0 && end.unwrap().len() != 3 ==> opt_string_view(f.end_time) == end
            &&& peak is Some && peak.unwrap().len() > 0 && peak.unwrap().len() != 3 ==> opt_string_view(f.peak_time) == peak
            &&& end is None || end == Some(Seq::<char>::empty()) ==> f.end_time is None
            &&& peak is None || peak == Some(Seq::<char>::empty()) ==> f.peak_time is None
            &&& end == Some("Unk"@) || end == Some("unk"@) || end == Some("UNK"@) ==> f.end_time is None
            &&& peak == Some("Unk"@) || peak == Some("unk"@) || peak == Some("UNK"@) ==> f.peak_time is None
        }),
{
    reveal_strlit("Unk");
    reveal_strlit("unk");
    reveal_strlit("UNK");
}

/// The other members of a flare event: the begin and end classes are the
/// non-empty "begin_class" and "end_class" strings; the source location is
/// the non-empty "sourceLocation" string, else the non-empty
/// "source_location" one; the active region is the integer of
/// "activeRegion" when that member exists, else of "active_region".
pub proof fn law_flare_members_read(f: XRayFlare, v: JsonValue)
    requires
        flare_read(f, v),
    ensures
        ({
            let bc = json_str(json_get(v, "begin_class"@));
            let ec = json_str(json_get(v, "end_class"@));
            let sl = json_str(json_get(v, "sourceLocation"@));
            let sl2 = json_str(json_get(v, "source_location"@));
            &&& bc is Some && bc.unwrap().len() > 0 ==> opt_string_view(f.begin_class) == bc
            &&& (bc is None || bc == Some(Seq::<char>::empty())) ==> f.begin_class is None
            &&& ec is Some && ec.unwrap().len() > 0 ==> opt_string_view(f.end_class) == ec
            &&& (ec is None || ec == Some(Seq::<char>::empty())) ==> f.end_class is None
            &&& sl is Some && sl.unwrap().len() > 0 ==> opt_string_view(f.source_location) == sl
            &&& (sl is None || sl == Some(Seq::<char>::empty())) && sl2 is Some && sl2.unwrap().len() > 0
                ==> opt_string_view(f.source_location) == sl2
            &&& json_get(v, "activeRegion"@) matches Some(JsonValue::Number(Some(n))) ==> f.active_region == Some(n as i32)
            &&& json_get(v, "activeRegion"@) is None ==> (json_get(v, "active_region"@) matches Some(
                JsonValue::Number(Some(n))) ==> f.active_region == Some(n as i32))
            &&& json_get(v, "activeRegion"@) is None && json_get(v, "active_region"@) is None ==> f.active_region is None
        }),
{
}

/// The events of a feed, in feed order: appending an entry with a begin
/// time (a non-empty "begin_time" string other than "Unk") appends its
/// event; appending one without a "begin_time" string adds none.
pub proof fn law_flare_entries_in_order(s: Seq<JsonValue>, v: JsonValue)
    ensures
        ({
            let begin = json_str(json_get(v, "begin_time"@));
            &&& begin is Some && begin.unwrap().len() > 0 && begin.unwrap().len() != 3 ==> flare_entries(s.push(v))
                == flare_entries(s).push(v)
            &&& (begin is None || begin == Some(Seq::<char>::empty()) || begin == Some("Unk"@)) ==> flare_entries(
                s.push(v),
            ) == flare_entries(s)
        }),
{
    reveal_strlit("Unk");
    assert(s.push(v).drop_last() == s);
}

} // verus!
