use vstd::prelude::*;

verus! {

// ---------------------------------------------------------------------------
// Decimal digits
// ---------------------------------------------------------------------------

pub open spec fn is_digit(c: char) -> bool {
    '0' <= c && c <= '9'
}

pub open spec fn digit_val(c: char) -> nat {
    (c as int - '0' as int) as nat
}

pub open spec fn digit_char(d: nat) -> char {
    ('0' as int + d) as char
}

/// Decimal representation of `n`, without leading zeros.
pub open spec fn dec(n: nat) -> Seq<char>
    decreases n,
{
    if n < 10 {
        seq![digit_char(n)]
    } else {
        dec(n / 10).push(digit_char(n % 10))
    }
}

/// `digits` left-padded with zeros to at least `width` characters.
pub open spec fn zero_pad(digits: Seq<char>, width: nat) -> Seq<char> {
    if digits.len() < width {
        Seq::new((width - digits.len()) as nat, |i: int| '0') + digits
    } else {
        digits
    }
}

/// Value of a run of decimal digits.
pub open spec fn value_of(s: Seq<char>) -> nat
    decreases s.len(),
{
    if s.len() == 0 {
        0
    } else {
        value_of(s.drop_last()) * 10 + digit_val(s.last())
    }
}

pub open spec fn all_digits(s: Seq<char>) -> bool {
    forall|i: int| 0 <= i < s.len() ==> is_digit(#[trigger] s[i])
}

/// End of the maximal run of digits of `s` that starts at `i`.
pub open spec fn run_end(s: Seq<char>, i: int) -> int
    decreases s.len() - i,
{
    if 0 <= i < s.len() && is_digit(s[i]) {
        run_end(s, i + 1)
    } else {
        i
    }
}

/// The `k`-th digit of a fraction, zero past its end.
pub open spec fn fraction_digit(f: Seq<char>, k: int) -> nat {
    if k < f.len() {
        digit_val(f[k])
    } else {
        0
    }
}

/// Milliseconds of a fraction: its first three digits, padded with zeros, the rest dropped.
pub open spec fn millis_of_fraction(f: Seq<char>) -> nat {
    100 * fraction_digit(f, 0) + 10 * fraction_digit(f, 1) + fraction_digit(f, 2)
}

pub proof fn lemma_dec_digits(n: nat)
    ensures
        all_digits(dec(n)),
        value_of(dec(n)) == n,
        dec(n).len() >= 1,
        n < 10 <==> dec(n).len() == 1,
        10 <= n < 100 <==> dec(n).len() == 2,
    decreases n,
{
    if n < 10 {
        assert(dec(n).drop_last() =~= Seq::<char>::empty());
        assert(digit_val(digit_char(n)) == n);
        assert(value_of(Seq::<char>::empty()) == 0);
        assert(value_of(dec(n)) == n);
    } else {
        lemma_dec_digits(n / 10);
        assert(dec(n).drop_last() == dec(n / 10));
        assert(digit_val(digit_char(n % 10)) == n % 10);
        assert(value_of(dec(n)) == value_of(dec(n / 10)) * 10 + n % 10);
        if n >= 100 {
            assert(n / 10 >= 10);
        }
    }
}

pub proof fn lemma_run_end(s: Seq<char>, i: int, j: int)
    requires
        0 <= i <= j <= s.len(),
        forall|k: int| i <= k < j ==> is_digit(#[trigger] s[k]),
        j == s.len() || !is_digit(s[j]),
    ensures
        run_end(s, i) == j,
    decreases j - i,
{
    if i < j {
        lemma_run_end(s, i + 1, j);
    }
}

proof fn lemma_value_step(s: Seq<char>, from: int, to: int)
    requires
        0 <= from < to <= s.len(),
    ensures
        value_of(s.subrange(from, to)) == value_of(s.subrange(from, to - 1)) * 10 + digit_val(
            s[to - 1],
        ),
{
    assert(s.subrange(from, to).drop_last() == s.subrange(from, to - 1));
}

pub proof fn lemma_pad2(n: nat)
    ensures
        all_digits(pad2(n)),
        value_of(pad2(n)) == n,
        pad2(n).len() >= 2,
{
    lemma_dec_digits(n);
    if n < 10 {
        let p = pad2(n);
        assert(p =~= seq!['0', digit_char(n)]);
        assert(p.drop_last() =~= seq!['0']);
        assert(seq!['0'].drop_last() =~= Seq::<char>::empty());
        assert(value_of(Seq::<char>::empty()) == 0);
        assert(value_of(seq!['0']) == 0);
        assert(digit_val(digit_char(n)) == n);
    }
}

// ---------------------------------------------------------------------------
// TimePoint
// ---------------------------------------------------------------------------

/// A non-negative wall-clock offset split into hours, minutes, seconds and milliseconds.
#[derive(Clone, Copy, Debug, PartialEq, Eq, Structural)]
pub struct TimePoint {
    pub hours: u64,
    pub minutes: u64,
    pub seconds: u64,
    pub millis: u64,
}

/// Whether an offset of `ms` milliseconds has a whole number of seconds that fits in a `u64`.
pub open spec fn fits(ms: nat) -> bool {
    ms / 1000 <= u64::MAX
}

/// The offset of `secs` seconds and `ms` milliseconds, with seconds carried into minutes and hours.
pub open spec fn from_parts(secs: nat, ms: nat) -> TimePoint {
    TimePoint {
        hours: (secs / 3600) as u64,
        minutes: ((secs % 3600) / 60) as u64,
        seconds: (secs % 60) as u64,
        millis: ms as u64,
    }
}

impl TimePoint {
    pub open spec fn wf(self) -> bool {
        self.minutes < 60 && self.seconds < 60 && self.millis < 1000
    }

    /// The offset in milliseconds.
    pub open spec fn total_ms(self) -> nat {
        (((self.hours * 60 + self.minutes) * 60 + self.seconds) * 1000 + self.millis) as nat
    }

    pub open spec fn zero_spec() -> TimePoint {
        TimePoint { hours: 0, minutes: 0, seconds: 0, millis: 0 }
    }

    pub fn zero() -> (r: TimePoint)
        ensures
            r == TimePoint::zero_spec(),
            r.wf(),
            r.total_ms() == 0,
    {
        TimePoint { hours: 0, minutes: 0, seconds: 0, millis: 0 }
    }

    /// Adds two offsets, carrying milliseconds into seconds, seconds into minutes and
    /// minutes into hours.
    pub fn accumulate(self, other: TimePoint) -> (r: TimePoint)
        requires
            self.wf(),
            other.wf(),
            fits(self.total_ms() + other.total_ms()),
        ensures
            r.wf(),
            r.total_ms() == self.total_ms() + other.total_ms(),
    {
        let ms = self.millis + other.millis;
        let secs = self.seconds + other.seconds + ms / 1000;
        let mins = self.minutes + other.minutes + secs / 60;
        let hours = self.hours + other.hours + mins / 60;
        TimePoint { hours, minutes: mins % 60, seconds: secs % 60, millis: ms % 1000 }
    }
}

/// Two well-formed offsets of the same length are the same value.
pub proof fn lemma_total_ms_unique(a: TimePoint, b: TimePoint)
    requires
        a.wf(),
        b.wf(),
        a.total_ms() == b.total_ms(),
    ensures
        a == b,
{
    assert(a.millis == b.millis);
    assert(a.hours * 3600 + a.minutes * 60 + a.seconds == b.hours * 3600 + b.minutes * 60
        + b.seconds);
    assert(a.seconds == b.seconds);
    assert(a.hours * 60 + a.minutes == b.hours * 60 + b.minutes);
    assert(a.minutes == b.minutes);
}

/// The well-formed offset of `ms` milliseconds.
pub open spec fn of_ms(ms: nat) -> TimePoint {
    from_parts(ms / 1000, ms % 1000)
}

/// A well-formed offset is the one its length in milliseconds gives.
pub proof fn lemma_of_ms(t: TimePoint)
    requires
        t.wf(),
    ensures
        of_ms(t.total_ms()) == t,
{
    let n = t.total_ms();
    assert(n / 1000 == (t.hours * 3600 + t.minutes * 60 + t.seconds) as nat);
    assert(n % 1000 == t.millis);
    assert(n / 1000 / 3600 == t.hours);
    lemma_from_parts(n / 1000, n % 1000);
    lemma_total_ms_unique(of_ms(n), t);
}

pub proof fn lemma_from_parts(secs: nat, ms: nat)
    requires
        secs / 3600 <= u64::MAX,
        ms < 1000,
    ensures
        from_parts(secs, ms).wf(),
        from_parts(secs, ms).total_ms() == secs * 1000 + ms,
{
    let t = from_parts(secs, ms);
    assert(secs == (secs / 3600) * 3600 + ((secs % 3600) / 60) * 60 + secs % 60) by {
        assert(secs % 3600 == ((secs % 3600) / 60) * 60 + (secs % 3600) % 60);
        assert((secs % 3600) % 60 == secs % 60) by {
            vstd::arithmetic::div_mod::lemma_mod_mod(secs as int, 60, 60);
        }
    }
}

// ---------------------------------------------------------------------------
// Text forms
// ---------------------------------------------------------------------------

/// A two-digit field, wider when the value needs it.
pub open spec fn pad2(n: nat) -> Seq<char> {
    zero_pad(dec(n), 2)
}

/// Display form of milliseconds as centiseconds: the first two characters of the
/// milliseconds written with three digits, so truncated rather than rounded.
pub open spec fn centis_text(ms: nat) -> Seq<char> {
    zero_pad(dec(ms), 3).take(2)
}

/// `HH:MM:SS`
pub open spec fn clock_text(t: TimePoint) -> Seq<char> {
    pad2(t.hours as nat) + seq![':'] + pad2(t.minutes as nat) + seq![':'] + pad2(t.seconds as nat)
}

/// `HH:MM:SS.CC`
pub open spec fn centisecond_text(t: TimePoint) -> Seq<char> {
    clock_text(t) + seq!['.'] + centis_text(t.millis as nat)
}

/// `HH:MM:SS,mmm`
pub open spec fn millisecond_text(t: TimePoint) -> Seq<char> {
    clock_text(t) + seq![','] + zero_pad(dec(t.millis as nat), 3)
}

/// Milliseconds below 1000 written with three digits, and their first two as the
/// centiseconds padded to two digits.
pub proof fn lemma_three_digits(ms: nat)
    requires
        ms < 1000,
    ensures
        zero_pad(dec(ms), 3) =~= seq![
            digit_char(ms / 100),
            digit_char((ms / 10) % 10),
            digit_char(ms % 10),
        ],
        pad2(ms / 10) =~= seq![digit_char(ms / 100), digit_char((ms / 10) % 10)],
        centis_text(ms) == pad2(ms / 10),
{
    lemma_dec_digits(ms);
    lemma_dec_digits(ms / 10);
    if ms < 10 {
        assert(dec(ms) == seq![digit_char(ms)]);
        assert(dec(ms / 10) == seq![digit_char(0)]);
    } else if ms < 100 {
        assert(dec(ms) == dec(ms / 10).push(digit_char(ms % 10)));
        assert(dec(ms / 10) == seq![digit_char(ms / 10)]);
    } else {
        lemma_dec_digits(ms / 100);
        assert(dec(ms) == dec(ms / 10).push(digit_char(ms % 10)));
        assert(dec(ms / 10) == dec(ms / 100).push(digit_char((ms / 10) % 10)));
        assert(dec(ms / 100) == seq![digit_char(ms / 100)]);
    }
    assert(zero_pad(dec(ms), 3).take(2) =~= pad2(ms / 10));
}

/// What `parse_timestamp` reads: `H:M:S.F`, each field one or more digits, minutes and
/// seconds below 60, hours within `u64`; the fraction is truncated to milliseconds.
pub open spec fn timestamp_of(s: Seq<char>) -> Option<TimePoint> {
    let a = run_end(s, 0);
    let b = run_end(s, a + 1);
    let c = run_end(s, b + 1);
    let d = run_end(s, c + 1);
    if 0 < a && a + 1 < b && b + 1 < c && c + 1 < d && d == s.len() && s[a] == ':' && s[b]
        == ':' && s[c] == '.' && value_of(s.subrange(0, a)) <= u64::MAX && value_of(
        s.subrange(a + 1, b),
    ) < 60 && value_of(s.subrange(b + 1, c)) < 60 {
        Some(
            TimePoint {
                hours: value_of(s.subrange(0, a)) as u64,
                minutes: value_of(s.subrange(a + 1, b)) as u64,
                seconds: value_of(s.subrange(b + 1, c)) as u64,
                millis: millis_of_fraction(s.subrange(c + 1, d)) as u64,
            },
        )
    } else {
        None
    }
}

/// What `parse_duration` reads: decimal seconds `S` or `S.F`, with `S` within `u64`;
/// the fraction is truncated to milliseconds.
pub open spec fn seconds_of(s: Seq<char>) -> Option<TimePoint> {
    let a = run_end(s, 0);
    let b = run_end(s, a + 1);
    if 0 < a && value_of(s.subrange(0, a)) <= u64::MAX {
        if a == s.len() {
            Some(from_parts(value_of(s.subrange(0, a)), 0))
        } else if s[a] == '.' && a + 1 < b && b == s.len() {
            Some(from_parts(value_of(s.subrange(0, a)), millis_of_fraction(s.subrange(a + 1, b))))
        } else {
            None
        }
    } else {
        None
    }
}

/// A duration read as decimal seconds is well formed and fits.
pub proof fn lemma_seconds_wf(s: Seq<char>)
    requires
        seconds_of(s) is Some,
    ensures
        seconds_of(s).unwrap().wf(),
        fits(seconds_of(s).unwrap().total_ms()),
{
    let a = run_end(s, 0);
    let b = run_end(s, a + 1);
    let secs = value_of(s.subrange(0, a));
    if a == s.len() {
        lemma_from_parts(secs, 0);
    } else {
        let f = s.subrange(a + 1, b);
        lemma_run_digits(s, a + 1);
        assert(all_digits(f));
        assert(millis_of_fraction(f) < 1000) by {
            lemma_fraction_digit(f, 0);
            lemma_fraction_digit(f, 1);
            lemma_fraction_digit(f, 2);
        }
        lemma_from_parts(secs, millis_of_fraction(f));
    }
}

proof fn lemma_fraction_digit(f: Seq<char>, k: int)
    requires
        0 <= k,
        all_digits(f),
    ensures
        fraction_digit(f, k) <= 9,
{
    if k < f.len() {
        assert(is_digit(f[k]));
    }
}

/// The run that `run_end` measures is made of digits and stays within the sequence.
pub proof fn lemma_run_digits(s: Seq<char>, i: int)
    requires
        0 <= i <= s.len(),
    ensures
        i <= run_end(s, i) <= s.len(),
        forall|k: int| i <= k < run_end(s, i) ==> is_digit(#[trigger] s[k]),
    decreases s.len() - i,
{
    if i < s.len() && is_digit(s[i]) {
        lemma_run_digits(s, i + 1);
    }
}

// ---------------------------------------------------------------------------
// Executable codec
// ---------------------------------------------------------------------------

/// Relies on `String::push`: it appends one character to the end of the string.
pub assume_specification[ String::push ](s: &mut String, ch: char)
    ensures
        final(s)@ == old(s)@.push(ch),
;

fn digit_at(s: &str, i: usize) -> (r: u64)
    requires
        i < s@.len(),
        is_digit(s@[i as int]),
    ensures
        r == digit_val(s@[i as int]),
        r < 10,
{
    (s.get_char(i) as u32 - '0' as u32) as u64
}

fn is_digit_at(s: &str, i: usize) -> (r: bool)
    requires
        i < s@.len(),
    ensures
        r == is_digit(s@[i as int]),
{
    let c = s.get_char(i);
    '0' <= c && c <= '9'
}

/// Appends the decimal digits of `n`.
pub fn push_decimal(out: &mut String, n: u64)
    ensures
        final(out)@ == old(out)@ + dec(n as nat),
    decreases n,
{
    if n >= 10 {
        push_decimal(out, n / 10);
    }
    let d = n % 10;
    out.push(((d as u8) + 48u8) as char);
    assert(digit_char(d as nat) == ((d as u8) + 48u8) as char);
}

/// Appends `n` as a decimal field of at least `width` digits.
pub fn push_padded(out: &mut String, n: u64, width: usize)
    requires
        width <= 3,
    ensures
        final(out)@ == old(out)@ + zero_pad(dec(n as nat), width as nat),
{
    proof {
        lemma_dec_digits(n as nat);
    }
    let len: usize = if n < 10 {
        1
    } else if n < 100 {
        2
    } else {
        3
    };
    assert(len < width ==> dec(n as nat).len() == len);
    let ghost start = out@;
    let mut k: usize = len;
    while k < width
        invariant
            len <= 3,
            width <= 3,
            len < width ==> dec(n as nat).len() == len,
            out@ == start + Seq::new((k - len) as nat, |i: int| '0'),
            len <= k,
            k <= width || k == len,
        decreases width - k,
    {
        out.push('0');
        k = k + 1;
        assert(out@ == start + Seq::new((k - len) as nat, |i: int| '0'));
    }
    push_decimal(out, n);
    assert(out@ == start + zero_pad(dec(n as nat), width as nat));
}

/// End of the run of digits that starts at `i`.
fn scan_digits(s: &str, i: usize) -> (r: usize)
    requires
        i <= s@.len(),
    ensures
        r as int == run_end(s@, i as int),
        i <= r <= s@.len(),
        forall|k: int| i <= k < r ==> is_digit(#[trigger] s@[k]),
{
    let n = s.unicode_len();
    let mut j = i;
    while j < n && is_digit_at(s, j)
        invariant
            n == s@.len(),
            i <= j <= n,
            forall|k: int| i <= k < j ==> is_digit(#[trigger] s@[k]),
        decreases n - j,
    {
        j = j + 1;
    }
    proof {
        lemma_run_end(s@, i as int, j as int);
    }
    j
}

/// Value of the digits of `s` in `[from, to)`, or `None` when it exceeds `u64`.
fn read_number(s: &str, from: usize, to: usize) -> (r: Option<u64>)
    requires
        from <= to <= s@.len(),
        forall|k: int| from <= k < to ==> is_digit(#[trigger] s@[k]),
    ensures
        r == (if value_of(s@.subrange(from as int, to as int)) <= u64::MAX {
            Some(value_of(s@.subrange(from as int, to as int)) as u64)
        } else {
            None::<u64>
        }),
{
    let mut acc: Option<u64> = Some(0);
    let mut k = from;
    assert(s@.subrange(from as int, from as int).len() == 0);
    while k < to
        invariant
            from <= k <= to <= s@.len(),
            forall|j: int| from <= j < to ==> is_digit(#[trigger] s@[j]),
            acc == (if value_of(s@.subrange(from as int, k as int)) <= u64::MAX {
                Some(value_of(s@.subrange(from as int, k as int)) as u64)
            } else {
                None::<u64>
            }),
        decreases to - k,
    {
        let d = digit_at(s, k);
        proof {
            lemma_value_step(s@, from as int, k + 1);
        }
        acc = match acc {
            Some(v) => match v.checked_mul(10) {
                Some(w) => w.checked_add(d),
                None => None,
            },
            None => None,
        };
        k = k + 1;
    }
    acc
}

/// Milliseconds of the fraction digits of `s` in `[from, to)`.
fn read_millis(s: &str, from: usize, to: usize) -> (r: u64)
    requires
        from <= to <= s@.len(),
        forall|k: int| from <= k < to ==> is_digit(#[trigger] s@[k]),
    ensures
        r == millis_of_fraction(s@.subrange(from as int, to as int)),
        r < 1000,
{
    let len = to - from;
    let d0 = if len > 0 { digit_at(s, from) } else { 0 };
    let d1 = if len > 1 { digit_at(s, from + 1) } else { 0 };
    let d2 = if len > 2 { digit_at(s, from + 2) } else { 0 };
    100 * d0 + 10 * d1 + d2
}

/// Reads a `H:M:S.F` timestamp.
pub fn parse_timestamp(s: &str) -> (r: Option<TimePoint>)
    ensures
        r == timestamp_of(s@),
        r matches Some(t) ==> t.wf(),
{
    let n = s.unicode_len();
    let a = scan_digits(s, 0);
    if a == 0 || a >= n || s.get_char(a) != ':' {
        return None;
    }
    let b = scan_digits(s, a + 1);
    if b <= a + 1 || b >= n || s.get_char(b) != ':' {
        return None;
    }
    let c = scan_digits(s, b + 1);
    if c <= b + 1 || c >= n || s.get_char(c) != '.' {
        return None;
    }
    let d = scan_digits(s, c + 1);
    if d <= c + 1 || d != n {
        return None;
    }
    let hours = read_number(s, 0, a);
    let minutes = read_number(s, a + 1, b);
    let seconds = read_number(s, b + 1, c);
    match (hours, minutes, seconds) {
        (Some(h), Some(m), Some(sec)) => {
            if m >= 60 || sec >= 60 {
                return None;
            }
            let ms = read_millis(s, c + 1, d);
            Some(TimePoint { hours: h, minutes: m, seconds: sec, millis: ms })
        },
        _ => None,
    }
}

/// Reads a duration printed as decimal seconds, `S` or `S.F`.
pub fn parse_duration(s: &str) -> (r: Option<TimePoint>)
    ensures
        r == seconds_of(s@),
        r matches Some(t) ==> t.wf() && fits(t.total_ms()),
{
    let n = s.unicode_len();
    let a = scan_digits(s, 0);
    if a == 0 {
        return None;
    }
    let secs = match read_number(s, 0, a) {
        Some(v) => v,
        None => return None,
    };
    let ms = if a == n {
        0
    } else {
        if s.get_char(a) != '.' {
            return None;
        }
        let b = scan_digits(s, a + 1);
        if b <= a + 1 || b != n {
            return None;
        }
        read_millis(s, a + 1, b)
    };
    proof {
        lemma_from_parts(secs as nat, ms as nat);
        assert(fits(secs as nat * 1000 + ms as nat));
    }
    Some(TimePoint { hours: secs / 3600, minutes: (secs % 3600) / 60, seconds: secs % 60, millis: ms })
}

} // verus!
