//! Dashboard interaction and layout decisions: keys, refresh timing,
//! terminal size, launch countdowns and label text.
use vstd::prelude::*;
use vstd::utf8::{decode_utf8, encode_utf8, is_ascii_chars, is_char_boundary};
use vstd::string::StringSliceAdditionalSpecFns;
use crate::text::{all_digits, digit_value, digits_value, int_text, is_digit, nat_digits, parse_i32_spec, push_char, push_decimal, push_int};

verus! {

/// Seconds between automatic refreshes of the NOAA data.
pub const AUTO_REFRESH_SECS: u64 = 300;

/// Seconds between refreshes of the upcoming launch.
pub const LAUNCH_REFRESH_SECS: u64 = 3600;

/// A key press, as far as the dashboard distinguishes keys.
#[derive(Debug, Clone, Copy, PartialEq, Eq, Structural)]
pub enum UiKey {
    Char(char),
    Esc,
    Other,
}

/// The dashboard's interactive state.
#[derive(Debug, Clone, Copy, PartialEq, Eq, Structural)]
pub struct UiState {
    pub refresh_requested: bool,
    pub show_info: bool,
    pub show_launch_lines: bool,
    pub audio_alerts: bool,
}

/// The key quits the dashboard: q, Q or Esc.
pub open spec fn is_quit_key(key: UiKey) -> bool {
    key == UiKey::Char('q') || key == UiKey::Char('Q') || key == UiKey::Esc
}

/// The state after a key that does not quit: r/R requests a refresh, i/I
/// toggles the metric guide, l/L the launch site links, a/A the sound;
/// other keys change nothing.
pub open spec fn after_key(s: UiState, key: UiKey) -> UiState {
    if key == UiKey::Char('r') || key == UiKey::Char('R') {
        UiState { refresh_requested: true, ..s }
    } else if key == UiKey::Char('i') || key == UiKey::Char('I') {
        UiState { show_info: !s.show_info, ..s }
    } else if key == UiKey::Char('l') || key == UiKey::Char('L') {
        UiState { show_launch_lines: !s.show_launch_lines, ..s }
    } else if key == UiKey::Char('a') || key == UiKey::Char('A') {
        UiState { audio_alerts: !s.audio_alerts, ..s }
    } else {
        s
    }
}

impl UiState {
    /// The state at start: a refresh is due at once, overlays hidden, sound off.
    pub fn new() -> (r: Self)
        ensures
            r == (UiState {
                refresh_requested: true,
                show_info: false,
                show_launch_lines: false,
                audio_alerts: false,
            }),
    {
        UiState { refresh_requested: true, show_info: false, show_launch_lines: false, audio_alerts: false }
    }

    /// Handles a key press; returns whether the dashboard quits.
    pub fn handle_key(&mut self, key: UiKey) -> (quit: bool)
        ensures
            quit == is_quit_key(key),
            quit ==> *final(self) == *old(self),
            !quit ==> *final(self) == after_key(*old(self), key),
    {
        match key {
            UiKey::Char('q') | UiKey::Char('Q') | UiKey::Esc => true,
            UiKey::Char('r') | UiKey::Char('R') => {
                self.refresh_requested = true;
                false
            },
            UiKey::Char('i') | UiKey::Char('I') => {
                self.show_info = !self.show_info;
                false
            },
            UiKey::Char('l') | UiKey::Char('L') => {
                self.show_launch_lines = !self.show_launch_lines;
                false
            },
            UiKey::Char('a') | UiKey::Char('A') => {
                self.audio_alerts = !self.audio_alerts;
                false
            },
            _ => false,
        }
    }

    /// Requests a refresh once `secs_since_refresh` reaches the automatic
    /// refresh interval.
    pub fn tick(&mut self, secs_since_refresh: u64)
        ensures
            *final(self) == (UiState {
                refresh_requested: old(self).refresh_requested || secs_since_refresh >= AUTO_REFRESH_SECS,
                ..*old(self)
            }),
    {
        if secs_since_refresh >= AUTO_REFRESH_SECS {
            self.refresh_requested = true;
        }
    }

    /// Whether a refresh is requested; clears the request.
    pub fn take_refresh(&mut self) -> (r: bool)
        ensures
            r == old(self).refresh_requested,
            *final(self) == (UiState { refresh_requested: false, ..*old(self) }),
    {
        let r = self.refresh_requested;
        self.refresh_requested = false;
        r
    }
}

/// Whether the upcoming launch is due for a refresh.
pub fn launch_refresh_due(secs_since_launch_refresh: u64) -> (r: bool)
    ensures
        r == (secs_since_launch_refresh >= LAUNCH_REFRESH_SECS),
{
    secs_since_launch_refresh >= LAUNCH_REFRESH_SECS
}

/// A toggle key pressed twice restores the state.
pub proof fn law_toggle_twice(s: UiState, key: UiKey)
    requires
        !(key == UiKey::Char('r') || key == UiKey::Char('R')),
    ensures
        after_key(after_key(s, key), key) == s,
{
}

/// Whether the terminal fits the dashboard, and if not, its shape.
#[derive(Debug, Clone, Copy, PartialEq, Eq, Structural)]
pub enum ScreenFit {
    Fits,
    /// Too small, and narrower than twice its height.
    TooSmallPortrait,
    /// Too small, otherwise.
    TooSmallLandscape,
}

/// The dashboard needs 120 by 30 cells; a smaller terminal is "portrait"
/// when narrower than twice its height.
pub fn screen_fit(width: u16, height: u16) -> (r: ScreenFit)
    requires
        !(width < 120 && height > 32767),
    ensures
        r == (if width >= 120 && height >= 30 {
            ScreenFit::Fits
        } else if width < height * 2 {
            ScreenFit::TooSmallPortrait
        } else {
            ScreenFit::TooSmallLandscape
        }),
{
    if width < 120 || height < 30 {
        if width < height * 2 {
            ScreenFit::TooSmallPortrait
        } else {
            ScreenFit::TooSmallLandscape
        }
    } else {
        ScreenFit::Fits
    }
}

/// A launch countdown broken into clock fields.
#[derive(Debug, Clone, Copy, PartialEq, Eq, Structural)]
pub enum Countdown {
    /// An hour or more to go: T- days:hours:minutes:seconds.
    Long { days: i64, hours: i64, mins: i64, secs: i64 },
    /// Under an hour to go: T- minutes:seconds.
    Short { mins: i64, secs: i64 },
    /// Past the launch time: T+ minutes:seconds.
    Elapsed { mins: i64, secs: i64 },
}

/// Breaks the seconds to launch (negative once past) into clock fields.
pub fn countdown(total_secs: i64) -> (r: Countdown)
    ensures
        total_secs >= 3600 ==> r == (Countdown::Long {
            days: (total_secs / 86400) as i64,
            hours: ((total_secs % 86400) / 3600) as i64,
            mins: ((total_secs % 3600) / 60) as i64,
            secs: (total_secs % 60) as i64,
        }),
        0 <= total_secs < 3600 ==> r == (Countdown::Short { mins: ((total_secs % 3600) / 60) as i64, secs: (total_secs % 60) as i64 }),
        total_secs < 0 ==> r == (Countdown::Elapsed {
            mins: ((-total_secs) / 60) as i64,
            secs: ((-total_secs) % 60) as i64,
        }),
{
    if total_secs >= 0 {
        let days = total_secs / 86400;
        let hours = (total_secs % 86400) / 3600;
        let mins = (total_secs % 3600) / 60;
        let secs = total_secs % 60;
        if total_secs >= 3600 {
            Countdown::Long { days, hours, mins, secs }
        } else {
            Countdown::Short { mins, secs }
        }
    } else {
        let abs_secs: u64 = if total_secs == i64::MIN {
            9223372036854775808u64
        } else {
            (0 - total_secs) as u64
        };
        Countdown::Elapsed { mins: (abs_secs / 60) as i64, secs: (abs_secs % 60) as i64 }
    }
}

/// `v` in decimal, padded with a leading zero to at least two characters
/// (`format!("{:02}", v)`).
pub open spec fn two_digits(v: int) -> Seq<char> {
    if 0 <= v < 10 {
        seq!['0'] + int_text(v)
    } else {
        int_text(v)
    }
}

/// The countdown line: " T- dd:hh:mm:ss" an hour or more ahead, " T- mm:ss"
/// under an hour ahead, " T+ mm:ss" once past, each field in two digits at
/// least.
pub open spec fn countdown_text(c: Countdown) -> Seq<char> {
    match c {
        Countdown::Long { days, hours, mins, secs } => seq![' ', 'T', '-', ' '] + two_digits(days as int) + seq![':']
            + two_digits(hours as int) + seq![':'] + two_digits(mins as int) + seq![':'] + two_digits(secs as int),
        Countdown::Short { mins, secs } => seq![' ', 'T', '-', ' '] + two_digits(mins as int) + seq![':'] + two_digits(
            secs as int,
        ),
        Countdown::Elapsed { mins, secs } => seq![' ', 'T', '+', ' '] + two_digits(mins as int) + seq![':']
            + two_digits(secs as int),
    }
}

/// Appends `v` as `two_digits` spells it.
fn push_two_digits(s: &mut String, v: i64)
    ensures
        final(s)@ == old(s)@ + two_digits(v as int),
{
    if 0 <= v && v < 10 {
        push_char(s, '0');
        push_int(s, v);
        assert(old(s)@.push('0') + int_text(v as int) =~= old(s)@ + (seq!['0'] + int_text(v as int)));
    } else {
        push_int(s, v);
    }
}

impl Countdown {
    /// The countdown line, as `countdown_text` spells it.
    pub fn text(&self) -> (r: String)
        ensures
            r@ == countdown_text(*self),
    {
        let mut s = String::new();
        push_char(&mut s, ' ');
        push_char(&mut s, 'T');
        match *self {
            Countdown::Long { days, hours, mins, secs } => {
                push_char(&mut s, '-');
                push_char(&mut s, ' ');
                push_two_digits(&mut s, days);
                push_char(&mut s, ':');
                push_two_digits(&mut s, hours);
                push_char(&mut s, ':');
                push_two_digits(&mut s, mins);
                push_char(&mut s, ':');
                push_two_digits(&mut s, secs);
            },
            Countdown::Short { mins, secs } => {
                push_char(&mut s, '-');
                push_char(&mut s, ' ');
                push_two_digits(&mut s, mins);
                push_char(&mut s, ':');
                push_two_digits(&mut s, secs);
            },
            Countdown::Elapsed { mins, secs } => {
                push_char(&mut s, '+');
                push_char(&mut s, ' ');
                push_two_digits(&mut s, mins);
                push_char(&mut s, ':');
                push_two_digits(&mut s, secs);
            },
        }
        assert(s@ =~= countdown_text(*self));
        s
    }
}

/// The clock fields of a countdown add up to the time to (or since) launch.
pub proof fn law_countdown_adds_up(total_secs: i64)
    ensures
        total_secs >= 3600 ==> (total_secs / 86400) * 86400 + ((total_secs % 86400) / 3600) * 3600 + ((
        total_secs % 3600) / 60) * 60 + total_secs % 60 == total_secs,
        0 <= total_secs < 3600 ==> ((total_secs % 3600) / 60) * 60 + total_secs % 60 == total_secs,
        total_secs < 0 ==> ((-total_secs) / 60) * 60 + (-total_secs) % 60 == -total_secs,
        total_secs >= 0 ==> 0 <= (total_secs % 86400) / 3600 < 24 && 0 <= (total_secs % 3600) / 60 < 60
            && 0 <= total_secs % 60 < 60,
{
    let t = total_secs as int;
    if t >= 0 {
        assert((t / 86400) * 86400 + ((t % 86400) / 3600) * 3600 + ((t % 3600) / 60) * 60 + t % 60 == t)
            by (nonlinear_arith)
            requires
                t >= 0,
        {
            assert(t % 86400 == ((t % 86400) / 3600) * 3600 + (t % 86400) % 3600);
            assert((t % 86400) % 3600 == t % 3600) by {
                assert(t == (t / 86400) * 86400 + t % 86400);
                assert(86400 == 24 * 3600);
            }
            assert(t % 3600 == ((t % 3600) / 60) * 60 + t % 60) by {
                assert(t % 3600 == ((t % 3600) / 60) * 60 + (t % 3600) % 60);
                assert((t % 3600) % 60 == t % 60) by {
                    assert(t == (t / 3600) * 3600 + t % 3600);
                    assert(3600 == 60 * 60);
                }
            }
        }
    }
}

/// The bytes of `s` read one character per byte. A byte at or above 0x80
/// never reads as a digit or a sign, so reading bytes parses as reading the
/// characters of a substring that starts and ends on character boundaries.
pub open spec fn byte_chars(b: Seq<u8>) -> Seq<char> {
    b.map_values(|x: u8| x as char)
}

/// `v` with a leading sign, as `{:+}` prints it.
pub open spec fn signed_text(v: int) -> Seq<char> {
    if v < 0 { seq!['-'] + nat_digits((-v) as nat) } else { seq!['+'] + nat_digits(v as nat) }
}

/// `v` in at least two digits, as `{:02}` prints a non-negative number.
pub open spec fn two_digit_text(v: nat) -> Seq<char> {
    if v < 10 { seq!['0'] + nat_digits(v) } else { nat_digits(v) }
}

/// The "UTC+h[:mm]" label of a `%z` offset ("+0530" gives "UTC+5:30",
/// "-0800" gives "UTC-8"); "UTC" for anything shorter than five bytes.
pub open spec fn utc_offset_label(s: Seq<char>, b: Seq<u8>) -> Seq<char> {
    if b.len() < 5 {
        "UTC"@
    } else {
        let h = match parse_i32_spec(byte_chars(b.subrange(1, 3))) {
            Some(v) => v as int,
            None => 0,
        };
        let m = match parse_i32_spec(byte_chars(b.subrange(3, 5))) {
            Some(v) => v as int,
            None => 0,
        };
        let signed_h = if s.len() > 0 && s[0] == '-' { -h } else { h };
        "UTC"@ + signed_text(signed_h) + if m > 0 { seq![':'] + two_digit_text(m as nat) } else { Seq::empty() }
    }
}

fn parse_byte_pair(b: &[u8], start: usize) -> (r: i32)
    requires
        start + 2 <= b@.len(),
    ensures
        r == match parse_i32_spec(byte_chars(b@.subrange(start as int, start + 2))) {
            Some(v) => v,
            None => 0,
        },
        -9 <= r <= 99,
{
    let c0 = b[start] as char;
    let c1 = b[start + 1] as char;
    let ghost cs = byte_chars(b@.subrange(start as int, start + 2));
    assert(cs.len() == 2 && cs[0] == c0 && cs[1] == c1);
    let d0 = '0' <= c0 && c0 <= '9';
    let d1 = '0' <= c1 && c1 <= '9';
    assert(cs.drop_first() =~= seq![c1]);
    assert(seq![c1].drop_last() =~= Seq::<char>::empty());
    assert(cs.drop_last() =~= seq![c0]);
    assert(seq![c0].drop_last() =~= Seq::<char>::empty());
    assert(seq![c1].last() == c1);
    assert(seq![c0].last() == c0);
    assert(digits_value(Seq::<char>::empty()) == 0);
    assert(digits_value(seq![c1]) == digit_value(c1));
    assert(digits_value(seq![c0]) == digit_value(c0));
    assert(digits_value(cs) == digits_value(seq![c0]) * 10 + digit_value(c1));
    assert(all_digits(seq![c1]) == is_digit(c1)) by {
        if is_digit(c1) {
            assert forall|i: int| 0 <= i < 1 implies is_digit(#[trigger] seq![c1][i]) by {}
        } else {
            assert(!is_digit(seq![c1][0]));
        }
    }
    assert(all_digits(cs) == (is_digit(c0) && is_digit(c1))) by {
        if is_digit(c0) && is_digit(c1) {
            assert forall|i: int| 0 <= i < 2 implies is_digit(#[trigger] cs[i]) by {}
        } else if !is_digit(c0) {
            assert(!is_digit(cs[0]));
        } else {
            assert(!is_digit(cs[1]));
        }
    }
    if d1 && (c0 == '+' || c0 == '-') {
        let v = (c1 as u32 - '0' as u32) as i32;
        if c0 == '-' { 0 - v } else { v }
    } else if d0 && d1 {
        ((c0 as u32 - '0' as u32) * 10 + (c1 as u32 - '0' as u32)) as i32
    } else {
        0
    }
}

/// The "UTC+h[:mm]" label of a `%z` UTC offset.
pub fn format_utc_offset(offset_raw: &str) -> (r: String)
    requires
        offset_raw.spec_bytes().len() >= 5 ==> is_char_boundary(offset_raw.spec_bytes(), 1) && is_char_boundary(
            offset_raw.spec_bytes(),
            3,
        ) && is_char_boundary(offset_raw.spec_bytes(), 5),
    ensures
        r@ == utc_offset_label(offset_raw@, offset_raw.spec_bytes()),
{
    let b = offset_raw.as_bytes();
    let mut out = "UTC".to_owned();
    if b.len() < 5 {
        return out;
    }
    proof {
        if offset_raw@.len() == 0 {
            assert(encode_utf8(offset_raw@) =~= Seq::<u8>::empty());
        }
        vstd::utf8::encode_utf8_first_scalar(offset_raw@);
    }
    let negative = b[0] == 45u8;
    assert(negative == (offset_raw@.len() > 0 && offset_raw@[0] == '-')) by {
        lemma_first_byte_dash(offset_raw@);
    }
    let h = parse_byte_pair(b, 1);
    let m = parse_byte_pair(b, 3);
    let v: i64 = if negative { 0 - h as i64 } else { h as i64 };
    let ghost bs = offset_raw.spec_bytes();
    assert(b@ == bs);
    let ghost base = out@;
    assert(base == "UTC"@);
    if v < 0 {
        push_char(&mut out, '-');
        push_decimal(&mut out, (0 - v) as u64);
        assert(out@ == base + signed_text(v as int));
    } else {
        push_char(&mut out, '+');
        push_decimal(&mut out, v as u64);
        assert(out@ == base + signed_text(v as int));
    }
    let ghost mid = out@;
    if m > 0 {
        push_char(&mut out, ':');
        if m < 10 {
            push_char(&mut out, '0');
        }
        push_decimal(&mut out, m as u64);
        assert(out@ == mid + (seq![':'] + two_digit_text(m as nat)));
    } else {
        assert(out@ == mid + Seq::<char>::empty());
    }
    out
}

proof fn lemma_first_byte_dash(s: Seq<char>)
    requires
        encode_utf8(s).len() > 0,
    ensures
        (encode_utf8(s)[0] == 45u8) == (s.len() > 0 && s[0] == '-'),
{
    assert(s.len() > 0);
    let c = s[0] as u32;
    vstd::utf8::char_is_scalar(s[0]);
    let e = vstd::utf8::encode_scalar(c);
    assert(encode_utf8(s) == e + encode_utf8(s.drop_first()));
    assert(e.len() >= 1);
    assert(encode_utf8(s)[0] == e[0]);
    assert(('-' as u32) == 45);
    vstd::utf8::char_u32_cast(s[0], c);
    vstd::utf8::char_u32_cast('-', 45);
    assert((s[0] == '-') == (c == 45));
    if vstd::utf8::has_width_1_encoding(c) {
        assert(e[0] == vstd::utf8::leading_byte_width_1(c));
        assert((c & 0x7F) as u8 == 45u8 <==> c == 45) by (bit_vector)
            requires
                c <= 0x7F,
        ;
    } else if vstd::utf8::has_width_2_encoding(c) {
        assert(e[0] == vstd::utf8::leading_byte_width_2(c));
        assert((0xC0u8 | ((c >> 6) & 0x1F) as u8) != 45u8) by (bit_vector);
    } else if vstd::utf8::has_width_3_encoding(c) {
        assert(e[0] == vstd::utf8::leading_byte_width_3(c));
        assert((0xE0u8 | ((c >> 12) & 0x0F) as u8) != 45u8) by (bit_vector);
    } else {
        assert(e[0] == vstd::utf8::leading_byte_width_4(c));
        assert((0xF0u8 | ((c >> 18) & 0x7) as u8) != 45u8) by (bit_vector);
    }
}

/// How many bytes of a string that does not fit in `max_len` bytes are
/// kept before the ".." marker.
pub open spec fn kept_bytes(max_len: usize) -> int {
    if max_len >= 2 {
        max_len - 2
    } else {
        0
    }
}

/// `s` cut to `max_len` bytes: unchanged when it fits, else its first
/// `max_len - 2` bytes (none when `max_len < 2`) followed by "..".
pub fn truncate_str(s: &str, max_len: usize) -> (r: String)
    requires
        s.spec_bytes().len() > max_len ==> is_char_boundary(s.spec_bytes(), kept_bytes(max_len)),
    ensures
        s.spec_bytes().len() <= max_len ==> r@ == s@,
        s.spec_bytes().len() > max_len ==> r@ == decode_utf8(
            s.spec_bytes().subrange(0, kept_bytes(max_len)),
        ) + ".."@,
{
    let byte_len = s.as_bytes().len();
    if byte_len <= max_len {
        s.to_owned()
    } else {
        let cut = if max_len >= 2 { max_len - 2 } else { 0 };
        proof {
            vstd::utf8::encode_utf8_valid_utf8(s@);
        }
        let (head, _) = s.split_at(cut);
        proof {
            vstd::utf8::encode_utf8_decode_utf8(head@);
        }
        assert(head.spec_bytes() =~= s.spec_bytes().subrange(0, kept_bytes(max_len)));
        let mut r = head.to_owned();
        r.append("..");
        assert(r@ == head@ + ".."@);
        r
    }
}

/// The time zone line of a launch site clock: the UTC offset label alone
/// when the zone abbreviation is itself a numeric offset (starts with '+'
/// or '-'), else the abbreviation followed by the label in parentheses.
pub open spec fn tz_display_text(abbrev: Seq<char>, offset_raw: Seq<char>, offset_bytes: Seq<u8>) -> Seq<char> {
    let label = utc_offset_label(offset_raw, offset_bytes);
    if abbrev.len() > 0 && (abbrev[0] == '+' || abbrev[0] == '-') {
        label
    } else {
        abbrev + " ("@ + label + ")"@
    }
}

/// The time zone line of a launch site clock.
pub fn tz_display(abbrev: &str, offset_raw: &str) -> (r: String)
    requires
        offset_raw.spec_bytes().len() >= 5 ==> is_char_boundary(offset_raw.spec_bytes(), 1) && is_char_boundary(
            offset_raw.spec_bytes(),
            3,
        ) && is_char_boundary(offset_raw.spec_bytes(), 5),
    ensures
        r@ == tz_display_text(abbrev@, offset_raw@, offset_raw.spec_bytes()),
{
    let label = format_utc_offset(offset_raw);
    let cs = crate::text::chars_of(abbrev);
    if cs.len() > 0 && (cs[0] == '+' || cs[0] == '-') {
        return label;
    }
    let mut r = abbrev.to_owned();
    r.append(" (");
    r.append(label.as_str());
    r.append(")");
    r
}

/// The number of launch site clocks.
pub const CLOCK_COUNT: u16 = 7;

/// Column `i` of the launch site clocks across `width` cells: equal columns
/// of `width / 7` cells, the last one taking what is left. Its left edge and
/// width; none when the row is under 14 cells wide or `height` under 4.
pub fn clock_column(width: u16, height: u16, i: u16) -> (r: Option<(u16, u16)>)
    requires
        i < CLOCK_COUNT,
    ensures
        (width < 2 * CLOCK_COUNT || height < 4) <==> r is None,
        r matches Some((x, w)) ==> x == i * (width / CLOCK_COUNT) && w == (if i == CLOCK_COUNT - 1 {
            width - i * (width / CLOCK_COUNT)
        } else {
            (width / CLOCK_COUNT) as int
        }),
{
    if width < CLOCK_COUNT * 2 || height < 4 {
        return None;
    }
    let col_w = width / CLOCK_COUNT;
    assert(i * col_w <= width) by (nonlinear_arith)
        requires
            i < 7,
            col_w == width / 7,
    ;
    let x = i * col_w;
    let w = if i == CLOCK_COUNT - 1 { width - x } else { col_w };
    Some((x, w))
}

/// The footer's labels for the info, launch site and sound keys, by state.
pub fn footer_labels(s: &UiState) -> (r: (&'static str, &'static str, &'static str))
    ensures
        r.0@ == (if s.show_info { " hide info "@ } else { " info "@ }),
        r.1@ == (if s.show_launch_lines { " hide links "@ } else { " launchsites "@ }),
        r.2@ == (if s.audio_alerts { " sound on "@ } else { " sound off "@ }),
{
    (
        if s.show_info { " hide info " } else { " info " },
        if s.show_launch_lines { " hide links " } else { " launchsites " },
        if s.audio_alerts { " sound on " } else { " sound off " },
    )
}

/// On ASCII text the byte cut of `truncate_str` is a cut between characters
/// that no text refuses, and the result is the first `max_len - 2`
/// characters (none when `max_len < 2`) followed by "..", `max_len`
/// characters in all when `max_len >= 2`.
pub proof fn law_truncate_ascii(s: &str, max_len: usize)
    requires
        is_ascii_chars(s@),
    ensures
        s.spec_bytes().len() == s@.len(),
        s@.len() > max_len ==> is_char_boundary(s.spec_bytes(), kept_bytes(max_len)),
        s@.len() > max_len ==> decode_utf8(s.spec_bytes().subrange(0, kept_bytes(max_len))) + ".."@ == s@.take(
            kept_bytes(max_len),
        ) + ".."@,
        s@.len() > max_len && max_len >= 2 ==> (s@.take(kept_bytes(max_len)) + ".."@).len() == max_len,
{
    let cs = s@;
    let k = kept_bytes(max_len);
    vstd::utf8::is_ascii_chars_encode_utf8(cs);
    if cs.len() > max_len {
        let t = cs.take(k);
        assert(is_ascii_chars(t)) by {
            assert forall|i: int| 0 <= i < t.len() implies '\0' <= #[trigger] t[i] <= '\u{7f}' by {
                assert(t[i] == cs[i]);
            }
        }
        vstd::utf8::is_ascii_chars_encode_utf8(t);
        assert(s.spec_bytes().subrange(0, k) =~= encode_utf8(t)) by {
            assert forall|i: int| 0 <= i < k implies #[trigger] s.spec_bytes().subrange(0, k)[i] == encode_utf8(t)[i] by {
                assert(t[i] == cs[i]);
                assert(cs[i] as u8 == encode_utf8(cs)[i]);
                assert(t[i] as u8 == encode_utf8(t)[i]);
            }
        }
        vstd::utf8::encode_utf8_decode_utf8(t);
        vstd::utf8::encode_utf8_valid_utf8(cs);
        assert(k < cs.len());
        vstd::utf8::is_char_boundary_iff_not_is_continuation_byte(s.spec_bytes(), k);
        assert(cs[k] as u8 == encode_utf8(cs)[k]);
        assert('\0' <= cs[k] <= '\u{7f}');
        assert((cs[k] as u8) < 0x80u8) by {
            vstd::utf8::char_is_scalar(cs[k]);
        }
        reveal_strlit("..");
    }
}

} // verus!
