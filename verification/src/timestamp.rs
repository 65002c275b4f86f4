//! Timestamps of the NOAA and Kyoto feeds ("time_tag", "Forecast Time"):
//! a UTC date and time without an offset, with the date and time separated
//! by a 'T' or a space, optional fractional seconds and an optional 'Z'.
use vstd::prelude::*;
use crate::launch::{UtcTime, later, time_of};
use crate::text::{chars_of, is_whitespace, is_ws, string_from_chars};

verus! {

/// `s` without its leading whitespace.
pub open spec fn trim_start(s: Seq<char>) -> Seq<char>
    decreases s.len(),
{
    if s.len() > 0 && is_ws(s[0]) {
        trim_start(s.drop_first())
    } else {
        s
    }
}

/// `s` without its trailing whitespace.
pub open spec fn trim_end(s: Seq<char>) -> Seq<char>
    decreases s.len(),
{
    if s.len() > 0 && is_ws(s.last()) {
        trim_end(s.drop_last())
    } else {
        s
    }
}

/// `s` without its trailing `c`s.
pub open spec fn strip_trailing(s: Seq<char>, c: char) -> Seq<char>
    decreases s.len(),
{
    if s.len() > 0 && s.last() == c {
        strip_trailing(s.drop_last(), c)
    } else {
        s
    }
}

/// The text a feed timestamp is parsed from: `s` without leading and
/// trailing whitespace (`str::trim`), then without trailing 'Z's.
pub open spec fn feed_text(s: Seq<char>) -> Seq<char> {
    strip_trailing(trim_end(trim_start(s)), 'Z')
}

/// The instant that chrono reads from `s` in the format `fmt`
/// (`NaiveDateTime::parse_from_str`), taken as UTC: seconds since the Unix
/// epoch and nanoseconds; none when chrono rejects `s`.
pub uninterp spec fn naive_utc_instant(s: Seq<char>, fmt: Seq<char>) -> Option<(i64, u32)>;

/// Parses a date and time without offset with `chrono::NaiveDateTime::parse_from_str`
/// in the format `fmt`, takes it as UTC (`and_utc`) and reads the instant with
/// `timestamp` and `timestamp_subsec_nanos`. The contract names the result, a
/// function of the text and the format alone, and says nothing of which texts
/// chrono accepts.
#[verifier::external_body]
fn parse_naive_utc(s: &str, fmt: &str) -> (r: Option<UtcTime>)
    ensures
        r == time_of(naive_utc_instant(s@, fmt@)),
{
    match chrono::NaiveDateTime::parse_from_str(s, fmt) {
        Ok(dt) => {
            let d = dt.and_utc();
            Some(UtcTime { unix_secs: d.timestamp(), nanos: d.timestamp_subsec_nanos() })
        },
        Err(_) => None,
    }
}

/// The instant of a feed timestamp: the first of the formats
/// "%Y-%m-%dT%H:%M:%S%.f", "%Y-%m-%dT%H:%M:%S", "%Y-%m-%d %H:%M:%S%.f" and
/// "%Y-%m-%d %H:%M:%S" in which chrono reads `feed_text(s)`; none when it
/// reads it in none of them.
pub open spec fn feed_time_spec(s: Seq<char>) -> Option<UtcTime> {
    let t = feed_text(s);
    match time_of(naive_utc_instant(t, "%Y-%m-%dT%H:%M:%S%.f"@)) {
        Some(x) => Some(x),
        None => match time_of(naive_utc_instant(t, "%Y-%m-%dT%H:%M:%S"@)) {
            Some(x) => Some(x),
            None => match time_of(naive_utc_instant(t, "%Y-%m-%d %H:%M:%S%.f"@)) {
                Some(x) => Some(x),
                None => time_of(naive_utc_instant(t, "%Y-%m-%d %H:%M:%S"@)),
            },
        },
    }
}

/// The characters of `cs` that `feed_text` keeps.
fn feed_chars(cs: &Vec<char>) -> (r: Vec<char>)
    ensures
        r@ == feed_text(cs@),
{
    let ghost s = cs@;
    let n = cs.len();
    let mut i: usize = 0;
    assert(s.skip(0) =~= s);
    while i < n && is_whitespace(cs[i])
        invariant
            i <= n,
            n == s.len(),
            s == cs@,
            trim_start(s) == trim_start(s.skip(i as int)),
        decreases n - i,
    {
        assert(s.skip(i as int).drop_first() =~= s.skip(i + 1));
        assert(s.skip(i as int)[0] == s[i as int]);
        i = i + 1;
    }
    assert(trim_start(s) == s.subrange(i as int, n as int)) by {
        assert(s.skip(i as int) =~= s.subrange(i as int, n as int));
        if i < n {
            assert(s.skip(i as int)[0] == s[i as int]);
        }
    }
    let mut j: usize = n;
    while j > i && is_whitespace(cs[j - 1])
        invariant
            i <= j <= n,
            n == s.len(),
            s == cs@,
            trim_end(s.subrange(i as int, n as int)) == trim_end(s.subrange(i as int, j as int)),
        decreases j,
    {
        assert(s.subrange(i as int, j as int).drop_last() =~= s.subrange(i as int, j - 1));
        assert(s.subrange(i as int, j as int).last() == s[j - 1]);
        j = j - 1;
    }
    assert(trim_end(s.subrange(i as int, n as int)) == s.subrange(i as int, j as int)) by {
        if j > i {
            assert(s.subrange(i as int, j as int).last() == s[j - 1]);
        }
    }
    let mut k: usize = j;
    while k > i && cs[k - 1] == 'Z'
        invariant
            i <= k <= j,
            j <= n,
            n == s.len(),
            s == cs@,
            strip_trailing(s.subrange(i as int, j as int), 'Z') == strip_trailing(s.subrange(i as int, k as int), 'Z'),
        decreases k,
    {
        assert(s.subrange(i as int, k as int).drop_last() =~= s.subrange(i as int, k - 1));
        assert(s.subrange(i as int, k as int).last() == s[k - 1]);
        k = k - 1;
    }
    assert(strip_trailing(s.subrange(i as int, j as int), 'Z') == s.subrange(i as int, k as int)) by {
        if k > i {
            assert(s.subrange(i as int, k as int).last() == s[k - 1]);
        }
    }
    let mut r: Vec<char> = Vec::new();
    let mut p: usize = i;
    while p < k
        invariant
            i <= p <= k,
            k <= n,
            n == s.len(),
            s == cs@,
            r@ =~= s.subrange(i as int, p as int),
        decreases k - p,
    {
        r.push(cs[p]);
        p = p + 1;
    }
    r
}

/// Parses a feed timestamp: trims whitespace and trailing 'Z's, then tries
/// the formats of `feed_time_spec` in turn.
pub fn parse_timestamp(s: &str) -> (r: Option<UtcTime>)
    ensures
        r == feed_time_spec(s@),
{
    let cs = chars_of(s);
    let kept = feed_chars(&cs);
    let text = string_from_chars(&kept);
    let t = text.as_str();
    match parse_naive_utc(t, "%Y-%m-%dT%H:%M:%S%.f") {
        Some(x) => Some(x),
        None => match parse_naive_utc(t, "%Y-%m-%dT%H:%M:%S") {
            Some(x) => Some(x),
            None => match parse_naive_utc(t, "%Y-%m-%d %H:%M:%S%.f") {
                Some(x) => Some(x),
                None => parse_naive_utc(t, "%Y-%m-%d %H:%M:%S"),
            },
        },
    }
}

// ------------------------------------------------------------ time windows

/// `a` is not earlier than `b`.
pub open spec fn not_before(a: UtcTime, b: UtcTime) -> bool {
    !later(b, a)
}

/// The instant `hours` hours before `t`, as chrono's `DateTime - TimeDelta`
/// gives it: whole hours of seconds earlier; an instant within a leap second
/// (nanoseconds at or above 10^9) first leaves it for the second after.
pub open spec fn hours_earlier(t: UtcTime, hours: int) -> UtcTime {
    if t.nanos >= 1_000_000_000 && hours > 0 {
        UtcTime { unix_secs: (t.unix_secs + 1 - 3600 * hours) as i64, nanos: (t.nanos - 1_000_000_000) as u32 }
    } else {
        UtcTime { unix_secs: (t.unix_secs - 3600 * hours) as i64, nanos: t.nanos }
    }
}

/// chrono holds `t` as a `DateTime<Utc>` (`DateTime::from_timestamp`): its
/// day, counted from 1 January of year 1 as day 1, lies between 1 January of
/// year -262143 and 31 December of year 262142 (`NaiveDate::MIN` and
/// `NaiveDate::MAX`), and nanoseconds at or above 10^9 (a leap second) fall
/// below 2 * 10^9 on the 59th second of a minute.
pub open spec fn representable(t: UtcTime) -> bool {
    let day = t.unix_secs as int / 86400 + 719163;
    let second_of_day = t.unix_secs as int % 86400;
    &&& -95746129 <= day <= 95745399
    &&& (t.nanos < 1_000_000_000 || (t.nanos < 2_000_000_000 && second_of_day % 60 == 59))
}

/// chrono can move `t` `hours` hours earlier: it holds both `t` and the
/// instant that results.
pub open spec fn window_defined(t: UtcTime, hours: int) -> bool {
    representable(t) && representable(hours_earlier(t, hours))
}

/// Moves `t` `hours` hours earlier with chrono: `DateTime::from_timestamp`,
/// then `checked_sub_signed` of `TimeDelta::hours`, read back with
/// `timestamp` and `timestamp_subsec_nanos`. chrono gives an instant exactly
/// when it holds both `t` and the result, and the instant is
/// `hours_earlier(t, hours)`.
#[verifier::external_body]
fn hours_before(t: UtcTime, hours: u32) -> (r: Option<UtcTime>)
    ensures
        r is Some <==> window_defined(t, hours as int),
        r matches Some(u) ==> u == hours_earlier(t, hours as int),
{
    match chrono::DateTime::from_timestamp(t.unix_secs, t.nanos) {
        Some(d) => match d.checked_sub_signed(chrono::TimeDelta::hours(hours as i64)) {
            Some(e) => Some(UtcTime { unix_secs: e.timestamp(), nanos: e.timestamp_subsec_nanos() }),
            None => None,
        },
        None => None,
    }
}

/// The start of the window of `hours` hours that ends at `latest`: `hours`
/// hours earlier, when chrono holds both instants; none otherwise.
pub fn window_start(latest: UtcTime, hours: u32) -> (r: Option<UtcTime>)
    ensures
        r == (if window_defined(latest, hours as int) {
            Some(hours_earlier(latest, hours as int))
        } else {
            None
        }),
{
    hours_before(latest, hours)
}

/// The later of the instants present, `now` when neither is.
pub open spec fn latest_of(a: Option<UtcTime>, b: Option<UtcTime>, now: UtcTime) -> UtcTime {
    match a {
        Some(x) => match b {
            Some(y) => if later(y, x) { y } else { x },
            None => x,
        },
        None => match b {
            Some(y) => y,
            None => now,
        },
    }
}

/// The instant a window of recent samples ends at: the later of the last
/// samples of two series, or `now` when both are empty.
pub fn latest_sample(a: Option<UtcTime>, b: Option<UtcTime>, now: UtcTime) -> (r: UtcTime)
    ensures
        r == latest_of(a, b, now),
{
    match a {
        Some(x) => match b {
            Some(y) => if y.is_after(&x) { y } else { x },
            None => x,
        },
        None => match b {
            Some(y) => y,
            None => now,
        },
    }
}

/// The last of the samples `s`, none when there is none.
pub open spec fn last_of(s: Seq<UtcTime>) -> Option<UtcTime> {
    if s.len() == 0 {
        None
    } else {
        Some(s.last())
    }
}

/// The instant a window over the series `a` and `b` ends at: the later of
/// their last samples, `now` when both are empty.
pub open spec fn window_end(a: Seq<UtcTime>, b: Seq<UtcTime>, now: UtcTime) -> UtcTime {
    latest_of(last_of(a), last_of(b), now)
}

/// The samples of `s` taken at or after `cutoff`, in their order.
pub open spec fn since(s: Seq<UtcTime>, cutoff: UtcTime) -> Seq<UtcTime>
    decreases s.len(),
{
    if s.len() == 0 {
        Seq::empty()
    } else if not_before(s.last(), cutoff) {
        since(s.drop_last(), cutoff).push(s.last())
    } else {
        since(s.drop_last(), cutoff)
    }
}

/// `idx` picks, in order and once each, exactly the samples of `times` taken
/// at or after `cutoff`.
pub open spec fn picks_since(times: Seq<UtcTime>, idx: Seq<usize>, cutoff: UtcTime) -> bool {
    &&& forall|k: int| 0 <= k < idx.len() ==> #[trigger] idx[k] < times.len() && not_before(times[idx[k] as int], cutoff)
    &&& forall|k1: int, k2: int| 0 <= k1 < k2 < idx.len() ==> idx[k1] < idx[k2]
    &&& forall|i: int| 0 <= i < times.len() && not_before(#[trigger] times[i], cutoff) ==> exists|k: int| 0 <= k < idx.len() && idx[k] == i
    &&& idx.map_values(|k: usize| times[k as int]) == since(times, cutoff)
}

/// The indices of the samples taken at or after `cutoff`, in order: every
/// such sample once, and no other.
pub fn samples_since(times: &Vec<UtcTime>, cutoff: UtcTime) -> (r: Vec<usize>)
    ensures
        picks_since(times@, r@, cutoff),
{
    let mut r: Vec<usize> = Vec::new();
    let n = times.len();
    for i in 0..n
        invariant
            n == times.len(),
            forall|k: int| 0 <= k < r.len() ==> #[trigger] r[k] < i && not_before(times[r[k] as int], cutoff),
            forall|k1: int, k2: int| 0 <= k1 < k2 < r.len() ==> r[k1] < r[k2],
            forall|j: int| 0 <= j < i && not_before(#[trigger] times[j], cutoff) ==> exists|k: int| 0 <= k < r.len() && r[k] == j,
            r@.map_values(|k: usize| times@[k as int]) == since(times@.take(i as int), cutoff),
    {
        let ghost before = r@;
        assert(times@.take(i + 1).drop_last() =~= times@.take(i as int));
        assert(times@.take(i + 1).last() == times@[i as int]);
        if !cutoff.is_after(&times[i]) {
            r.push(i);
            assert(r@.map_values(|k: usize| times@[k as int]) =~= before.map_values(|k: usize| times@[k as int]).push(times@[i as int]));
            assert forall|j: int| 0 <= j < i + 1 && not_before(#[trigger] times[j], cutoff) implies exists|k: int|
                0 <= k < r.len() && r[k] == j by {
                if j < i {
                    let k = choose|k: int| 0 <= k < before.len() && before[k] == j;
                    assert(r[k] == j);
                } else {
                    assert(r[r.len() - 1] == j);
                }
            }
        }
    }
    assert(times@.take(n as int) =~= times@);
    r
}

/// The last sample of `a`, none when it is empty.
fn last_sample(a: &Vec<UtcTime>) -> (r: Option<UtcTime>)
    ensures
        r == last_of(a@),
{
    if a.len() == 0 {
        None
    } else {
        Some(a[a.len() - 1])
    }
}

/// The samples of the series `a` and `b` taken in the last `hours` hours:
/// the window ends at the later of their last samples (`now` when both are
/// empty) and starts `hours` hours earlier. Gives, for each series, the
/// indices of the samples kept; none when chrono cannot move the end that
/// far back.
pub fn last_hours_window(a: &Vec<UtcTime>, b: &Vec<UtcTime>, now: UtcTime, hours: u32) -> (r: Option<(Vec<usize>, Vec<usize>)>)
    ensures
        r is Some <==> window_defined(window_end(a@, b@, now), hours as int),
        r matches Some((ka, kb)) ==> {
            let cutoff = hours_earlier(window_end(a@, b@, now), hours as int);
            picks_since(a@, ka@, cutoff) && picks_since(b@, kb@, cutoff)
        },
{
    let end = latest_sample(last_sample(a), last_sample(b), now);
    match window_start(end, hours) {
        Some(cutoff) => Some((samples_since(a, cutoff), samples_since(b, cutoff))),
        None => None,
    }
}

/// No sample of `s` is earlier than one before it.
pub open spec fn in_time_order(s: Seq<UtcTime>) -> bool {
    forall|i: int, j: int| 0 <= i < j < s.len() ==> not_before(s[j], s[i])
}

/// Every sample of `s` is kept: `since` gives `s` back.
proof fn lemma_since_keeps_all(s: Seq<UtcTime>, c: UtcTime)
    requires
        forall|i: int| 0 <= i < s.len() ==> not_before(#[trigger] s[i], c),
    ensures
        since(s, c) == s,
    decreases s.len(),
{
    if s.len() > 0 {
        assert forall|i: int| 0 <= i < s.drop_last().len() implies not_before(#[trigger] s.drop_last()[i], c) by {
            assert(s.drop_last()[i] == s[i]);
        }
        lemma_since_keeps_all(s.drop_last(), c);
        assert(s.drop_last().push(s.last()) =~= s);
    }
}

/// What `since` keeps: samples at or after the cutoff; the last sample when
/// it is kept; and, of a series in time order, nothing after its last sample.
proof fn lemma_since_kept(s: Seq<UtcTime>, c: UtcTime)
    ensures
        forall|j: int| 0 <= j < since(s, c).len() ==> not_before(#[trigger] since(s, c)[j], c),
        s.len() > 0 && not_before(s.last(), c) ==> since(s, c).len() > 0 && since(s, c).last() == s.last(),
        in_time_order(s) && since(s, c).len() > 0 ==> not_before(s.last(), since(s, c).last()),
    decreases s.len(),
{
    if s.len() > 0 {
        let p = s.drop_last();
        lemma_since_kept(p, c);
        let t = since(p, c);
        if not_before(s.last(), c) {
            assert forall|j: int| 0 <= j < since(s, c).len() implies not_before(#[trigger] since(s, c)[j], c) by {
                if j < t.len() {
                    assert(since(s, c)[j] == t[j]);
                }
            }
        }
        if in_time_order(s) && since(s, c).len() > 0 && !not_before(s.last(), c) {
            assert(in_time_order(p)) by {
                assert forall|i: int, j: int| 0 <= i < j < p.len() implies not_before(p[j], p[i]) by {
                    assert(p[j] == s[j] && p[i] == s[i]);
                }
            }
            assert(not_before(s.last(), p.last())) by {
                assert(p.last() == s[s.len() - 2]);
            }
        }
    }
}

/// Keeping what is at or after `c1` keeps the same samples whether or not
/// those before an earlier cutoff `c2` were dropped first.
proof fn lemma_since_nested(s: Seq<UtcTime>, c1: UtcTime, c2: UtcTime)
    requires
        not_before(c1, c2),
    ensures
        since(s, c1) == since(since(s, c2), c1),
    decreases s.len(),
{
    if s.len() > 0 {
        let p = s.drop_last();
        lemma_since_nested(p, c1, c2);
        if not_before(s.last(), c2) {
            assert(since(p, c2).push(s.last()).drop_last() =~= since(p, c2));
        }
    }
}

/// Moving an instant that chrono holds back by more hours gives an earlier
/// instant; by none, the instant itself.
proof fn lemma_hours_earlier_monotone(t: UtcTime, h1: int, h2: int)
    requires
        representable(t),
        0 <= h1 <= h2 <= u32::MAX,
    ensures
        not_before(hours_earlier(t, h1), hours_earlier(t, h2)),
        hours_earlier(t, 0) == t,
{
}

/// A longer window keeps more: the samples within `h1` hours of `end` are
/// those within `h2 >= h1` hours of it that are also within `h1` hours, so
/// each is a subsequence of the other in the same order.
pub proof fn law_window_grows_with_hours(s: Seq<UtcTime>, end: UtcTime, h1: int, h2: int)
    requires
        representable(end),
        0 <= h1 <= h2 <= u32::MAX,
    ensures
        not_before(hours_earlier(end, h1), hours_earlier(end, h2)),
        since(s, hours_earlier(end, h1)) == since(since(s, hours_earlier(end, h2)), hours_earlier(end, h1)),
{
    lemma_hours_earlier_monotone(end, h1, h2);
    lemma_since_nested(s, hours_earlier(end, h1), hours_earlier(end, h2));
}

/// Taking the last `h` hours twice is taking them once: of two series in
/// time order, the window keeps the sample it ends at, so the kept series
/// end at the same instant and a second window keeps all of them.
pub proof fn law_window_idempotent(a: Seq<UtcTime>, b: Seq<UtcTime>, now: UtcTime, h: int)
    requires
        in_time_order(a),
        in_time_order(b),
        0 <= h <= u32::MAX,
        representable(window_end(a, b, now)),
    ensures
        ({
            let c = hours_earlier(window_end(a, b, now), h);
            &&& window_end(since(a, c), since(b, c), now) == window_end(a, b, now)
            &&& since(since(a, c), c) == since(a, c)
            &&& since(since(b, c), c) == since(b, c)
        }),
{
    let end = window_end(a, b, now);
    let c = hours_earlier(end, h);
    lemma_hours_earlier_monotone(end, 0, h);
    lemma_since_kept(a, c);
    lemma_since_kept(b, c);
    lemma_since_keeps_all(since(a, c), c);
    lemma_since_keeps_all(since(b, c), c);
}

} // verus!
