//! The text of the reports: schedule tags read back and shown to people, CSV
//! fields, and the placing of observations in the seven-day heatmap.
use vstd::prelude::*;

use crate::text::{chars_of, push_char, string_from, split_once, find_char, lemma_split_once_at};
use crate::time::{day_number, hour_of, hour_floor, day_of, start_of_hour, hour_of_day, representable};
use crate::text::four_digits;
use crate::schedule::{SchedulePlan, schedule_text, days_text, end_code};

verus! {

/// Number of bytes of the UTF-8 encoding of `c`.
pub open spec fn utf8_width(c: char) -> int {
    let v = c as u32;
    if v < 0x80 {
        1
    } else if v < 0x800 {
        2
    } else if v < 0x10000 {
        3
    } else {
        4
    }
}

/// Number of bytes of the UTF-8 encoding of `s`.
pub open spec fn byte_len(s: Seq<char>) -> int
    decreases s.len(),
{
    if s.len() == 0 {
        0
    } else {
        utf8_width(s[0]) + byte_len(s.drop_first())
    }
}

fn char_width(c: char) -> (w: usize)
    ensures
        w == utf8_width(c),
{
    let v = c as u32;
    if v < 0x80 {
        1
    } else if v < 0x800 {
        2
    } else if v < 0x10000 {
        3
    } else {
        4
    }
}

/// Byte length of the first `k` characters of `s`.
pub open spec fn prefix_bytes(s: Seq<char>, k: int) -> int {
    byte_len(s.subrange(0, k))
}

proof fn lemma_prefix_bytes_step(s: Seq<char>, k: int)
    requires
        0 <= k < s.len(),
    ensures
        prefix_bytes(s, k + 1) == prefix_bytes(s, k) + utf8_width(s[k]),
    decreases k,
{
    let a = s.subrange(0, k + 1);
    if k == 0 {
        assert(a.drop_first() =~= Seq::<char>::empty());
        assert(s.subrange(0, 0) =~= Seq::<char>::empty());
    } else {
        lemma_prefix_bytes_step(s.drop_first(), k - 1);
        assert(a.drop_first() =~= s.drop_first().subrange(0, k));
        assert(s.subrange(0, k).drop_first() =~= s.drop_first().subrange(0, k - 1));
    }
}

proof fn lemma_byte_len_pos(s: Seq<char>)
    ensures
        byte_len(s) >= s.len(),
    decreases s.len(),
{
    if s.len() > 0 {
        lemma_byte_len_pos(s.drop_first());
    }
}

/// A time of a schedule tag as shown to people: a four-byte time `HHMM` gets a
/// colon after its first two bytes (`k` characters), any other text is kept.
pub open spec fn shown_time(t: Seq<char>) -> Seq<char> {
    if byte_len(t) == 4 {
        let k = choose|k: int| 0 <= k <= t.len() && prefix_bytes(t, k) == 2;
        t.subrange(0, k) + ":"@ + t.subrange(k, t.len() as int)
    } else {
        t
    }
}

/// A four-byte time can be cut after its second byte (which otherwise panics).
pub open spec fn time_cuttable(t: Seq<char>) -> bool {
    byte_len(t) == 4 ==> exists|k: int| 0 <= k <= t.len() && prefix_bytes(t, k) == 2
}

/// The day pattern of a schedule tag as shown to people.
pub open spec fn shown_days(d: Seq<char>) -> Seq<char> {
    if d == "mon-fri"@ {
        "Mon–Fri"@
    } else if d == "sat-sun"@ {
        "Sat–Sun"@
    } else if d == "daily"@ {
        "Daily"@
    } else {
        d
    }
}

/// A schedule tag `"HHMM-HHMM days"` as shown to people, e.g. `"Mon–Fri 08:00–18:00"`;
/// "—" for no schedule, and the tag itself when it lacks the space or the dash.
pub open spec fn shown_schedule(sched: Option<Seq<char>>) -> Seq<char> {
    match sched {
        None => "—"@,
        Some(s) => match split_once(s, ' ') {
            None => s,
            Some((times, days)) => match split_once(times, '-') {
                None => s,
                Some((t0, t1)) => shown_days(days) + " "@ + shown_time(t0) + "–"@ + shown_time(t1),
            },
        },
    }
}

/// Whether `shown_schedule` can be computed: the times that are four bytes long
/// can be cut after their second byte.
pub open spec fn schedule_showable(sched: Option<Seq<char>>) -> bool {
    match sched {
        None => true,
        Some(s) => match split_once(s, ' ') {
            None => true,
            Some((times, days)) => match split_once(times, '-') {
                None => true,
                Some((t0, t1)) => time_cuttable(t0) && time_cuttable(t1),
            },
        },
    }
}

/// Whether `t` is four bytes long.
fn four_bytes(t: &Vec<char>) -> (b: bool)
    ensures
        b == (byte_len(t@) == 4),
{
    let n = t.len();
    let mut bytes: usize = 0;
    let mut i: usize = 0;
    proof {
        assert(t@.subrange(0, 0) =~= Seq::<char>::empty());
        assert(t@.subrange(0, n as int) =~= t@);
    }
    while i < n && bytes <= 4
        invariant
            n == t@.len(),
            i <= n,
            bytes == prefix_bytes(t@, i as int),
            bytes <= 8,
            prefix_bytes(t@, n as int) == byte_len(t@),
        decreases n - i,
    {
        proof {
            lemma_prefix_bytes_step(t@, i as int);
        }
        bytes = bytes + char_width(t[i]);
        i = i + 1;
    }
    proof {
        lemma_prefix_bytes_mono(t@, i as int, n as int);
    }
    bytes == 4 && i == n
}

/// Where a four-byte time can be cut after its second byte, if it can.
fn cut_attempt(t: &Vec<char>) -> (r: Option<usize>)
    requires
        byte_len(t@) == 4,
    ensures
        match r {
            Some(k) => k <= t@.len() && prefix_bytes(t@, k as int) == 2,
            None => !time_cuttable(t@),
        },
{
    let n = t.len();
    let mut k: usize = 0;
    let mut pb: usize = 0;
    proof {
        assert(t@.subrange(0, 0) =~= Seq::<char>::empty());
        assert(t@.subrange(0, n as int) =~= t@);
    }
    while k < n && pb < 2
        invariant
            n == t@.len(),
            k <= n,
            pb == prefix_bytes(t@, k as int),
            pb <= 4,
            byte_len(t@) == 4,
            prefix_bytes(t@, n as int) == 4,
            forall|m: int| 0 <= m < k ==> #[trigger] prefix_bytes(t@, m) < 2,
        decreases n - k,
    {
        proof {
            lemma_prefix_bytes_step(t@, k as int);
            lemma_prefix_bytes_mono(t@, k as int + 1, n as int);
        }
        pb = pb + char_width(t[k]);
        k = k + 1;
    }
    if pb == 2 {
        Some(k)
    } else {
        proof {
            assert(pb > 2);
            assert forall|w: int| 0 <= w <= t@.len() implies prefix_bytes(t@, w) != 2 by {
                if w < k {
                    assert(prefix_bytes(t@, w) < 2);
                } else {
                    lemma_prefix_bytes_mono(t@, k as int, w);
                }
            }
        }
        None
    }
}

/// The number of characters in the first two bytes of a four-byte time.
fn cut_point(t: &Vec<char>) -> (k: usize)
    requires
        byte_len(t@) == 4,
        time_cuttable(t@),
    ensures
        k <= t@.len(),
        prefix_bytes(t@, k as int) == 2,
        shown_time(t@) == t@.subrange(0, k as int) + ":"@ + t@.subrange(k as int, t@.len() as int),
{
    let k = match cut_attempt(t) {
        Some(k) => k,
        None => {
            assert(false);
            0
        },
    };
    proof {
        let w = choose|w: int| 0 <= w <= t@.len() && prefix_bytes(t@, w) == 2;
        lemma_prefix_bytes_strict(t@, w, k as int);
    }
    k
}

/// `t` as shown: a colon after its first two bytes when it is four bytes long.
fn show_time(t: &Vec<char>) -> (r: String)
    requires
        time_cuttable(t@),
    ensures
        r@ == shown_time(t@),
{
    let n = t.len();
    if !four_bytes(t) {
        assert(t@.subrange(0, n as int) =~= t@);
        return string_from(t, 0, n);
    }
    let k = cut_point(t);
    let mut r = string_from(t, 0, k);
    push_char(&mut r, ':');
    let rest = string_from(t, k, n);
    r.append(rest.as_str());
    proof {
        reveal_strlit(":");
        assert(":"@ =~= seq![':']);
        assert(r@ =~= t@.subrange(0, k as int) + ":"@ + t@.subrange(k as int, n as int));
    }
    r
}

/// A time of a schedule tag cut for reading: after its second byte when it is four
/// bytes long.
pub enum TimeCut {
    /// The text before and after the second byte.
    Cut(String, String),
    /// The time is not four bytes long.
    NotFourBytes,
    /// The time is four bytes long, but its second byte ends inside a character.
    Uncuttable,
}

/// `c` is how `t` is cut (see `TimeCut`).
pub open spec fn is_cut_of(c: TimeCut, t: Seq<char>) -> bool {
    if byte_len(t) != 4 {
        c is NotFourBytes
    } else if !time_cuttable(t) {
        c is Uncuttable
    } else {
        let k = choose|k: int| 0 <= k <= t.len() && prefix_bytes(t, k) == 2;
        c matches TimeCut::Cut(a, b) && a@ == t.subrange(0, k) && b@ == t.subrange(k, t.len() as int)
    }
}

fn cut_time(t: &String) -> (r: TimeCut)
    ensures
        is_cut_of(r, t@),
{
    let cs = chars_of(t.as_str());
    if !four_bytes(&cs) {
        return TimeCut::NotFourBytes;
    }
    match cut_attempt(&cs) {
        None => TimeCut::Uncuttable,
        Some(k) => {
            proof {
                let w = choose|w: int| 0 <= w <= t@.len() && prefix_bytes(t@, w) == 2;
                lemma_prefix_bytes_strict(t@, w, k as int);
            }
            TimeCut::Cut(string_from(&cs, 0, k), string_from(&cs, k, cs.len()))
        },
    }
}

proof fn lemma_prefix_bytes_mono(s: Seq<char>, a: int, b: int)
    requires
        0 <= a <= b <= s.len(),
    ensures
        prefix_bytes(s, a) <= prefix_bytes(s, b),
    decreases b - a,
{
    if a < b {
        lemma_prefix_bytes_mono(s, a, b - 1);
        lemma_prefix_bytes_step(s, b - 1);
    }
}

proof fn lemma_prefix_bytes_strict(s: Seq<char>, a: int, b: int)
    requires
        0 <= a <= s.len(),
        0 <= b <= s.len(),
        prefix_bytes(s, a) == prefix_bytes(s, b),
    ensures
        a == b,
{
    if a < b {
        lemma_prefix_bytes_mono(s, a + 1, b);
        lemma_prefix_bytes_step(s, a);
    } else if b < a {
        lemma_prefix_bytes_mono(s, b + 1, a);
        lemma_prefix_bytes_step(s, b);
    }
}

fn show_days(d: &String) -> (r: String)
    ensures
        r@ == shown_days(d@),
{
    if *d == String::from_str("mon-fri") {
        String::from_str("Mon–Fri")
    } else if *d == String::from_str("sat-sun") {
        String::from_str("Sat–Sun")
    } else if *d == String::from_str("daily") {
        String::from_str("Daily")
    } else {
        d.clone()
    }
}

fn time_can_be_cut(t: &String) -> (b: bool)
    ensures
        b == time_cuttable(t@),
{
    let cs = chars_of(t.as_str());
    if !four_bytes(&cs) {
        return true;
    }
    cut_attempt(&cs).is_some()
}

/// Whether `format_schedule` can show the tag (`schedule_showable`): its times that
/// are four bytes long can be cut after their second byte.
pub fn can_show_schedule(sched: Option<&str>) -> (b: bool)
    ensures
        b == schedule_showable(match sched {
            None => None,
            Some(s) => Some(s@),
        }),
{
    match sched {
        None => true,
        Some(s) => match schedule_parts(s) {
            None => true,
            Some(p) => time_can_be_cut(&p.start) && time_can_be_cut(&p.end),
        },
    }
}

/// Shows a schedule tag to people: `"0800-1800 mon-fri"` becomes
/// `"Mon–Fri 08:00–18:00"` (see `shown_schedule`).
pub fn format_schedule(sched: Option<&str>) -> (r: String)
    requires
        schedule_showable(match sched {
            None => None,
            Some(s) => Some(s@),
        }),
    ensures
        r@ == shown_schedule(match sched {
            None => None,
            Some(s) => Some(s@),
        }),
{
    let s = match sched {
        None => {
            return String::from_str("—");
        },
        Some(s) => s,
    };
    let cs = chars_of(s);
    let n = cs.len();
    let sp = find_char(&cs, 0, ' ');
    proof {
        lemma_split_once_at(s@, ' ', sp as int);
    }
    if sp == n {
        return string_from(&cs, 0, n);
    }
    let times = string_from(&cs, 0, sp);
    let days = string_from(&cs, sp + 1, n);
    let tcs = chars_of(times.as_str());
    let dash = find_char(&tcs, 0, '-');
    proof {
        lemma_split_once_at(times@, '-', dash as int);
    }
    if dash == tcs.len() {
        assert(cs@.subrange(0, n as int) =~= cs@);
        return string_from(&cs, 0, n);
    }
    let t0 = string_from(&tcs, 0, dash);
    let t1 = string_from(&tcs, dash + 1, tcs.len());
    let t0c = chars_of(t0.as_str());
    let t1c = chars_of(t1.as_str());
    let mut r = show_days(&days);
    r.append(" ");
    let a = show_time(&t0c);
    r.append(a.as_str());
    r.append("–");
    let b = show_time(&t1c);
    r.append(b.as_str());
    r
}

} // verus!

verus! {

/// Four digits `HHMM` shown as `HH:MM`.
pub open spec fn with_colon(d: Seq<char>) -> Seq<char> {
    d.subrange(0, 2) + ":"@ + d.subrange(2, 4)
}

proof fn lemma_digits_ascii(x: int)
    requires
        0 <= x < 10000,
    ensures
        four_digits(x).len() == 4,
        forall|i: int| 0 <= i < 4 ==> '0' <= #[trigger] four_digits(x)[i] <= '9',
        byte_len(four_digits(x)) == 4,
        prefix_bytes(four_digits(x), 2) == 2,
        shown_time(four_digits(x)) == with_colon(four_digits(x)),
        time_cuttable(four_digits(x)),
{
    let d = four_digits(x);
    assert(0 <= x / 1000 <= 9);
    assert(0 <= (x / 100) % 10 <= 9);
    assert(0 <= (x / 10) % 10 <= 9);
    assert(0 <= x % 10 <= 9);
    assert forall|i: int| 0 <= i < 4 implies #[trigger] utf8_width(d[i]) == 1 by {
        assert((d[i] as u32) < 0x80);
    }
    let d1 = d.drop_first();
    let d2 = d1.drop_first();
    let d3 = d2.drop_first();
    let d4 = d3.drop_first();
    assert(d4 =~= Seq::<char>::empty());
    assert(byte_len(d4) == 0);
    assert(byte_len(d3) == 1);
    assert(byte_len(d2) == 2);
    assert(byte_len(d1) == 3);
    assert(byte_len(d) == 4);
    let e = d.subrange(0, 2);
    assert(e.drop_first().drop_first() =~= Seq::<char>::empty());
    assert(byte_len(e.drop_first().drop_first()) == 0);
    assert(byte_len(e.drop_first()) == 1);
    assert(prefix_bytes(d, 2) == 2);
    let k = choose|k: int| 0 <= k <= d.len() && prefix_bytes(d, k) == 2;
    lemma_prefix_bytes_strict(d, k, 2);
}

/// A schedule tag that `suggest_schedule` writes can always be shown, and reads
/// back as its day pattern, then its start and its end as `HH:MM`:
/// `"0800-1800 mon-fri"` is shown as `"Mon–Fri 08:00–18:00"`.
pub proof fn lemma_schedule_tag_shown(p: SchedulePlan)
    requires
        p.start < 24,
        p.end < 24,
    ensures
        schedule_showable(Some(schedule_text(p))),
        shown_schedule(Some(schedule_text(p))) == shown_days(days_text(p)) + " "@ + with_colon(
            four_digits(p.start * 100),
        ) + "–"@ + with_colon(four_digits(end_code(p.end as int))),
        shown_days(days_text(p)) == (if p.weekdays && p.weekends {
            "Daily"@
        } else if p.weekdays {
            "Mon–Fri"@
        } else {
            "Sat–Sun"@
        }),
{
    reveal_strlit("-");
    reveal_strlit(" ");
    reveal_strlit("daily");
    reveal_strlit("mon-fri");
    reveal_strlit("sat-sun");
    assert("sat-sun"@[0] != "mon-fri"@[0]);
    assert("sat-sun"@ != "mon-fri"@);
    assert("daily"@.len() != "mon-fri"@.len());
    let a = four_digits(p.start * 100);
    let b = four_digits(end_code(p.end as int));
    lemma_digits_ascii(p.start * 100);
    lemma_digits_ascii(end_code(p.end as int));
    let days = days_text(p);
    let times = a + "-"@ + b;
    let s = schedule_text(p);
    assert(s =~= times + " "@ + days);
    assert(times.len() == 9);
    lemma_split_once_at(s, ' ', 9);
    assert(s.subrange(0, 9) =~= times);
    assert(s.subrange(10, s.len() as int) =~= days);
    lemma_split_once_at(times, '-', 4);
    assert(times.subrange(0, 4) =~= a);
    assert(times.subrange(5, 9) =~= b);
}

} // verus!

verus! {

/// The days on which a schedule runs.
#[derive(Debug, Clone, Copy, PartialEq, Eq, Structural)]
pub enum DayPattern {
    MonFri,
    SatSun,
    Daily,
}

/// The day pattern that a schedule tag names, if it names one.
pub open spec fn day_pattern_of(d: Seq<char>) -> Option<DayPattern> {
    if d == "mon-fri"@ {
        Some(DayPattern::MonFri)
    } else if d == "sat-sun"@ {
        Some(DayPattern::SatSun)
    } else if d == "daily"@ {
        Some(DayPattern::Daily)
    } else {
        None
    }
}

/// The pieces of a schedule tag `"START-END days"`.
pub struct ScheduleParts {
    /// Text before the first `-` of the part before the first space.
    pub start: String,
    /// Text after that `-`, up to the first space.
    pub end: String,
    /// The day pattern after the first space, if it is one of the three.
    pub days: Option<DayPattern>,
}

/// Cuts a schedule tag into its start, its end and its day pattern: `None` when it
/// has no space, or no `-` before the space.
pub fn schedule_parts(sched: &str) -> (r: Option<ScheduleParts>)
    ensures
        match split_once(sched@, ' ') {
            None => r is None,
            Some((times, days)) => match split_once(times, '-') {
                None => r is None,
                Some((t0, t1)) => r matches Some(p) && p.start@ == t0 && p.end@ == t1 && p.days
                    == day_pattern_of(days),
            },
        },
{
    let cs = chars_of(sched);
    let n = cs.len();
    let sp = find_char(&cs, 0, ' ');
    proof {
        lemma_split_once_at(sched@, ' ', sp as int);
    }
    if sp == n {
        return None;
    }
    let times = string_from(&cs, 0, sp);
    let days = string_from(&cs, sp + 1, n);
    let tcs = chars_of(times.as_str());
    let dash = find_char(&tcs, 0, '-');
    proof {
        lemma_split_once_at(times@, '-', dash as int);
    }
    if dash == tcs.len() {
        return None;
    }
    let start = string_from(&tcs, 0, dash);
    let end = string_from(&tcs, dash + 1, tcs.len());
    let pattern = if days == String::from_str("mon-fri") {
        Some(DayPattern::MonFri)
    } else if days == String::from_str("sat-sun") {
        Some(DayPattern::SatSun)
    } else if days == String::from_str("daily") {
        Some(DayPattern::Daily)
    } else {
        None
    };
    Some(ScheduleParts { start, end, days: pattern })
}

/// A schedule tag read for its monthly off-hours: both times cut into hours and
/// minutes, and the day pattern.
pub struct ScheduleClock {
    pub start: TimeCut,
    pub end: TimeCut,
    pub days: Option<DayPattern>,
}

/// Reads a schedule tag for its monthly off-hours: `None` when it has no space, or
/// no `-` before the space; else its start and end cut (`is_cut_of`) and its day
/// pattern (`day_pattern_of`).
pub fn schedule_clock(sched: &str) -> (r: Option<ScheduleClock>)
    ensures
        match split_once(sched@, ' ') {
            None => r is None,
            Some((times, days)) => match split_once(times, '-') {
                None => r is None,
                Some((t0, t1)) => r matches Some(c) && is_cut_of(c.start, t0) && is_cut_of(c.end, t1)
                    && c.days == day_pattern_of(days),
            },
        },
{
    match schedule_parts(sched) {
        None => None,
        Some(p) => Some(ScheduleClock { start: cut_time(&p.start), end: cut_time(&p.end), days: p.days }),
    }
}

/// A CSV field must be quoted when it holds a comma, a double quote or a newline.
pub open spec fn needs_quotes(s: Seq<char>) -> bool {
    exists|i: int| 0 <= i < s.len() && (s[i] == ',' || s[i] == '"' || s[i] == '\n')
}

/// `s` with every double quote doubled.
pub open spec fn double_quotes(s: Seq<char>) -> Seq<char>
    decreases s.len(),
{
    if s.len() == 0 {
        Seq::empty()
    } else {
        double_quotes(s.drop_last()) + if s.last() == '"' {
            seq!['"', '"']
        } else {
            seq![s.last()]
        }
    }
}

/// `s` as a CSV field: quoted, with inner quotes doubled, when it must be.
pub open spec fn csv_field(s: Seq<char>) -> Seq<char> {
    if needs_quotes(s) {
        seq!['"'] + double_quotes(s) + seq!['"']
    } else {
        s
    }
}

/// Writes `s` as a CSV field (see `csv_field`).
pub fn csv_escape(s: &str) -> (r: String)
    ensures
        r@ == csv_field(s@),
{
    let cs = chars_of(s);
    let n = cs.len();
    let mut quote = false;
    let mut i: usize = 0;
    while i < n
        invariant
            cs@ == s@,
            n == cs@.len(),
            i <= n,
            quote == exists|j: int| 0 <= j < i && (cs@[j] == ',' || cs@[j] == '"' || cs@[j] == '\n'),
        decreases n - i,
    {
        if cs[i] == ',' || cs[i] == '"' || cs[i] == '\n' {
            quote = true;
        }
        i = i + 1;
    }
    if !quote {
        return string_from(&cs, 0, n);
    }
    let mut r = String::new();
    push_char(&mut r, '"');
    let mut k: usize = 0;
    proof {
        assert(cs@.take(0) =~= Seq::<char>::empty());
    }
    while k < n
        invariant
            cs@ == s@,
            n == cs@.len(),
            k <= n,
            r@ == seq!['"'] + double_quotes(cs@.take(k as int)),
        decreases n - k,
    {
        let c = cs[k];
        assert(cs@.take(k + 1).drop_last() =~= cs@.take(k as int));
        let ghost before = r@;
        if c == '"' {
            push_char(&mut r, '"');
            push_char(&mut r, '"');
        } else {
            push_char(&mut r, c);
        }
        assert(r@ =~= seq!['"'] + double_quotes(cs@.take(k + 1)));
        k = k + 1;
    }
    assert(cs@.take(n as int) =~= cs@);
    push_char(&mut r, '"');
    assert(r@ =~= seq!['"'] + double_quotes(cs@) + seq!['"']);
    r
}

/// The heatmap cell of an observation at `t`, seen at the instant `now` (whole
/// seconds `now` and `now_nanos` more nanoseconds): `(row, hour)` where row 6 is
/// today and row 0 six days ago (UTC calendar days). Observations older than seven
/// days, or in the current (incomplete) hour or later, have no cell.
pub open spec fn heatmap_cell_of(now: int, now_nanos: int, t: int) -> Option<(usize, usize)> {
    let before_cutoff = t < now - 604800 || (t == now - 604800 && now_nanos > 0);
    let days_ago = day_number(now) - day_number(t);
    if before_cutoff || t >= hour_floor(now) || days_ago < 0 || days_ago >= 7 {
        None
    } else {
        Some(((6 - days_ago) as usize, hour_of(t) as usize))
    }
}

/// Places an observation at `t` in the seven-day heatmap seen at `now` (see
/// `heatmap_cell_of`).
pub fn heatmap_cell(now: i64, now_nanos: u32, t: i64) -> (c: Option<(usize, usize)>)
    requires
        representable(now as int),
        representable(t as int),
    ensures
        c == heatmap_cell_of(now as int, now_nanos as int, t as int),
        c matches Some((row, hour)) ==> row < 7 && hour < 24,
{
    let cutoff = now - 604800;
    if t < cutoff || (t == cutoff && now_nanos > 0) {
        return None;
    }
    if t >= start_of_hour(now) {
        return None;
    }
    let days_ago = day_of(now) - day_of(t);
    if days_ago < 0 || days_ago >= 7 {
        return None;
    }
    Some(((6 - days_ago) as usize, hour_of_day(t) as usize))
}

} // verus!
