use vstd::prelude::*;

use crate::time::{
    all_digits, centis_text, centisecond_text, clock_text, dec, digit_char, digit_val, fits,
    is_digit, lemma_of_ms, lemma_pad2, lemma_run_end, lemma_seconds_wf, lemma_three_digits,
    millis_of_fraction, millisecond_text, of_ms, pad2, push_padded, seconds_of, timestamp_of,
    zero_pad, TimePoint,
};

verus! {

/// Renders an offset as `HH:MM:SS.CC`, the fraction being the first two digits of the
/// three-digit milliseconds (truncated, not rounded).
pub fn format_duration(t: TimePoint) -> (r: String)
    requires
        t.wf(),
    ensures
        r@ == centisecond_text(t),
{
    let mut out = String::new();
    push_padded(&mut out, t.hours, 2);
    out.push(':');
    push_padded(&mut out, t.minutes, 2);
    out.push(':');
    push_padded(&mut out, t.seconds, 2);
    out.push('.');
    push_padded(&mut out, t.millis / 10, 2);
    proof {
        lemma_three_digits(t.millis as nat);
    }
    assert(out@ =~= centisecond_text(t));
    out
}

/// The clock part of an offset followed by `.` and a fraction worth its milliseconds reads
/// back as the offset.
proof fn lemma_read_back(t: TimePoint, c: Seq<char>)
    requires
        t.wf(),
        c.len() >= 1,
        all_digits(c),
        millis_of_fraction(c) == t.millis,
    ensures
        timestamp_of(clock_text(t) + seq!['.'] + c) == Some(t),
{
    let p = pad2(t.hours as nat);
    let q = pad2(t.minutes as nat);
    let r = pad2(t.seconds as nat);
    lemma_pad2(t.hours as nat);
    lemma_pad2(t.minutes as nat);
    lemma_pad2(t.seconds as nat);
    let s = clock_text(t) + seq!['.'] + c;
    let a = p.len() as int;
    let b = a + 1 + q.len();
    let e = b + 1 + r.len();
    let d = e + 1 + c.len();
    assert(s =~= p + seq![':'] + q + seq![':'] + r + seq!['.'] + c);
    assert(s.len() == d);
    assert forall|k: int| 0 <= k < a implies is_digit(#[trigger] s[k]) by {
        assert(s[k] == p[k]);
    }
    assert(s[a] == ':');
    lemma_run_end(s, 0, a);
    assert forall|k: int| a + 1 <= k < b implies is_digit(#[trigger] s[k]) by {
        assert(s[k] == q[k - a - 1]);
    }
    assert(s[b] == ':');
    lemma_run_end(s, a + 1, b);
    assert forall|k: int| b + 1 <= k < e implies is_digit(#[trigger] s[k]) by {
        assert(s[k] == r[k - b - 1]);
    }
    assert(s[e] == '.');
    lemma_run_end(s, b + 1, e);
    assert forall|k: int| e + 1 <= k < d implies is_digit(#[trigger] s[k]) by {
        assert(s[k] == c[k - e - 1]);
    }
    lemma_run_end(s, e + 1, d);
    assert(s.subrange(0, a) =~= p);
    assert(s.subrange(a + 1, b) =~= q);
    assert(s.subrange(b + 1, e) =~= r);
    assert(s.subrange(e + 1, d) =~= c);
}

/// Reading back the centisecond form of an offset gives the offset, for every offset with
/// a whole number of centiseconds.
pub proof fn lemma_timestamp_round_trip(t: TimePoint)
    requires
        t.wf(),
        t.millis % 10 == 0,
    ensures
        timestamp_of(centisecond_text(t)) == Some(t),
{
    let ms = t.millis as nat;
    lemma_three_digits(ms);
    let c = centis_text(ms);
    assert(digit_val(digit_char(ms / 100)) == ms / 100);
    assert(digit_val(digit_char((ms / 10) % 10)) == (ms / 10) % 10);
    assert(millis_of_fraction(c) == ms);
    assert(all_digits(c));
    lemma_read_back(t, c);
}

/// Reading back the millisecond form of an offset, its `,` written as `.`, gives the offset.
pub proof fn lemma_millisecond_round_trip(t: TimePoint)
    requires
        t.wf(),
    ensures
        millisecond_text(t) == clock_text(t) + seq![','] + zero_pad(dec(t.millis as nat), 3),
        timestamp_of(clock_text(t) + seq!['.'] + zero_pad(dec(t.millis as nat), 3)) == Some(t),
{
    let ms = t.millis as nat;
    lemma_three_digits(ms);
    let c = zero_pad(dec(ms), 3);
    assert(digit_val(digit_char(ms / 100)) == ms / 100);
    assert(digit_val(digit_char((ms / 10) % 10)) == (ms / 10) % 10);
    assert(digit_val(digit_char(ms % 10)) == ms % 10);
    assert(millis_of_fraction(c) == ms);
    assert(all_digits(c));
    lemma_read_back(t, c);
}

/// A run of consecutive verses of one surah, both bounds included.
#[derive(Debug)]
pub struct VerseRange {
    pub surah: String,
    pub start: u16,
    pub end: u16,
}

/// One timed subtitle entry.
#[derive(Debug)]
pub struct SubtitleData {
    pub start_time: String,
    pub end_time: String,
    pub text: String,
}

/// The cues of a verse range and the playlist lines of their audio clips, in verse order.
#[derive(Debug)]
pub struct Timeline {
    pub cues: Vec<SubtitleData>,
    pub playlist: Vec<String>,
}

#[derive(Clone, Copy, Debug, PartialEq, Eq, Structural)]
pub enum TimelineError {
    /// The probed duration of this verse's clip is not a decimal number of seconds.
    Probe(u16),
    /// The whole range lasts more seconds than a `u64` holds.
    TooLong,
}

impl VerseRange {
    /// Number of verses in the range; zero when `start > end`.
    pub open spec fn count(self) -> nat {
        if self.start <= self.end {
            (self.end - self.start + 1) as nat
        } else {
            0
        }
    }
}

/// `<dir>/<kind>/<surah><verse>.mp3`, surah and verse each zero-padded to three characters.
pub open spec fn verse_path_text(
    audio_dir: Seq<char>,
    audio_type: Seq<char>,
    surah: Seq<char>,
    verse: nat,
) -> Seq<char> {
    audio_dir + seq!['/'] + audio_type + seq!['/'] + zero_pad(surah, 3) + zero_pad(dec(verse), 3)
        + ".mp3"@
}

/// `file '<path>'` and a newline, the form the concatenation tool reads.
pub open spec fn playlist_line_text(path: Seq<char>) -> Seq<char> {
    "file '"@ + path + "'\n"@
}

/// The duration read from the `k`-th probe output.
pub open spec fn probed(raw: Seq<String>, k: int) -> Option<TimePoint> {
    seconds_of(raw[k]@)
}

/// Milliseconds elapsed before the `k`-th clip.
pub open spec fn elapsed(raw: Seq<String>, k: int) -> nat
    decreases k,
{
    if k <= 0 {
        0
    } else {
        elapsed(raw, k - 1) + probed(raw, k - 1).unwrap().total_ms()
    }
}

/// The cue of the `k`-th verse: it starts where the clips before it end, and its end is the
/// clip's own duration.
pub open spec fn cue_matches(cue: SubtitleData, raw: Seq<String>, texts: Seq<String>, k: int) -> bool {
    &&& cue.start_time@ == centisecond_text(of_ms(elapsed(raw, k)))
    &&& cue.end_time@ == centisecond_text(probed(raw, k).unwrap())
    &&& cue.text@ == texts[k]@
}

/// Appends `s` left-padded with zeros to three characters.
fn push_padded_text(out: &mut String, s: &str)
    ensures
        final(out)@ == old(out)@ + zero_pad(s@, 3),
{
    let len = s.unicode_len();
    let ghost start = out@;
    let mut k: usize = len;
    while k < 3
        invariant
            len == s@.len(),
            out@ == start + Seq::new((k - len) as nat, |i: int| '0'),
            len <= k,
            k <= 3 || k == len,
        decreases 3 - k,
    {
        out.push('0');
        k = k + 1;
        assert(out@ == start + Seq::new((k - len) as nat, |i: int| '0'));
    }
    out.append(s);
    assert(out@ =~= start + zero_pad(s@, 3));
}

/// Path of the audio clip of one verse.
pub fn verse_path(audio_dir: &str, audio_type: &str, surah: &str, verse: u16) -> (r: String)
    ensures
        r@ == verse_path_text(audio_dir@, audio_type@, surah@, verse as nat),
{
    let mut out = String::new();
    out.append(audio_dir);
    out.push('/');
    out.append(audio_type);
    out.push('/');
    push_padded_text(&mut out, surah);
    push_padded(&mut out, verse as u64, 3);
    out.append(".mp3");
    assert(out@ =~= verse_path_text(audio_dir@, audio_type@, surah@, verse as nat));
    out
}

/// The playlist line that names one clip.
pub fn playlist_line(path: &str) -> (r: String)
    ensures
        r@ == playlist_line_text(path@),
{
    let mut out = String::new();
    out.append("file '");
    out.append(path);
    out.append("'\n");
    assert(out@ =~= playlist_line_text(path@));
    out
}

proof fn lemma_elapsed_monotone(raw: Seq<String>, j: int, k: int)
    requires
        0 <= j <= k,
    ensures
        elapsed(raw, j) <= elapsed(raw, k),
    decreases k - j,
{
    if j < k {
        lemma_elapsed_monotone(raw, j, k - 1);
    }
}

/// What `get_full_audio_and_text` returns for these inputs: the first unreadable duration,
/// else a range too long for a `u64` of seconds, else one cue and one playlist line per verse.
pub open spec fn timeline_built(
    range: VerseRange,
    audio_dir: Seq<char>,
    audio_type: Seq<char>,
    durations: Seq<String>,
    texts: Seq<String>,
    r: Result<Timeline, TimelineError>,
) -> bool {
    match r {
        Err(TimelineError::Probe(v)) => {
            let k = v - range.start;
            &&& range.start <= v <= range.end
            &&& probed(durations, k) is None
            &&& forall|j: int| 0 <= j < k ==> probed(durations, j) is Some
        },
        Err(TimelineError::TooLong) => {
            &&& forall|j: int| 0 <= j < range.count() ==> probed(durations, j) is Some
            &&& !fits(elapsed(durations, range.count() as int))
        },
        Ok(tl) => {
            &&& forall|j: int| 0 <= j < range.count() ==> probed(durations, j) is Some
            &&& fits(elapsed(durations, range.count() as int))
            &&& tl.cues@.len() == range.count()
            &&& tl.playlist@.len() == range.count()
            &&& forall|k: int|
                0 <= k < range.count() ==> cue_matches(
                    #[trigger] tl.cues@[k],
                    durations,
                    texts,
                    k,
                )
            &&& forall|k: int|
                0 <= k < range.count() ==> #[trigger] tl.playlist@[k]@ == playlist_line_text(
                    verse_path_text(
                        audio_dir,
                        audio_type,
                        range.surah@,
                        (range.start + k) as nat,
                    ),
                )
        },
    }
}

/// Builds the cues and the playlist of a verse range from the probed duration of each
/// verse's clip (`durations`, decimal seconds) and each verse's text (`texts`, empty where
/// the verse has none), both in verse order.
///
/// Cue `k` starts at the sum of the durations before it and ends at its own clip's
/// duration. The first duration that cannot be read fails the whole build, so that no
/// partial timeline or playlist is handed out.
pub fn get_full_audio_and_text(
    range: &VerseRange,
    audio_dir: &str,
    audio_type: &str,
    durations: &Vec<String>,
    texts: &Vec<String>,
) -> (r: Result<Timeline, TimelineError>)
    requires
        durations@.len() == range.count(),
        texts@.len() == range.count(),
    ensures
        timeline_built(*range, audio_dir@, audio_type@, durations@, texts@, r),
{
    let n: usize = if range.start <= range.end {
        (range.end - range.start) as usize + 1
    } else {
        0
    };
    // Read every duration first: the first unreadable one fails the build.
    let mut segs: Vec<TimePoint> = Vec::new();
    let mut total: u128 = 0;
    let mut k: usize = 0;
    while k < n
        invariant
            n == range.count(),
            n <= 65536,
            durations@.len() == n,
            k <= n,
            segs@.len() == k,
            total == elapsed(durations@, k as int),
            total <= k * 18446744073709551616000,
            forall|j: int| 0 <= j < k ==> probed(durations@, j) == Some(#[trigger] segs@[j]),
            forall|j: int| 0 <= j < k ==> #[trigger] probed(durations@, j) is Some,
            forall|j: int| 0 <= j < k ==> (#[trigger] segs@[j]).wf() && fits(segs@[j].total_ms()),
        decreases n - k,
    {
        match crate::time::parse_duration(durations[k].as_str()) {
            Some(t) => {
                proof {
                    assert(t.total_ms() < 18446744073709551616000);
                }
                total = total + ((t.hours as u128 * 60 + t.minutes as u128) * 60
                    + t.seconds as u128) * 1000 + t.millis as u128;
                segs.push(t);
            },
            None => {
                return Err(TimelineError::Probe(range.start + k as u16));
            },
        }
        k = k + 1;
    }
    if total / 1000 > u64::MAX as u128 {
        return Err(TimelineError::TooLong);
    }
    let mut cues: Vec<SubtitleData> = Vec::new();
    let mut playlist: Vec<String> = Vec::new();
    let mut current = TimePoint::zero();
    let mut k: usize = 0;
    while k < n
        invariant
            n == range.count(),
            n <= 65536,
            durations@.len() == n,
            texts@.len() == n,
            segs@.len() == n,
            k <= n,
            fits(elapsed(durations@, n as int)),
            forall|j: int| 0 <= j < n ==> probed(durations@, j) == Some(#[trigger] segs@[j]),
            forall|j: int| 0 <= j < n ==> #[trigger] probed(durations@, j) is Some,
            forall|j: int| 0 <= j < n ==> (#[trigger] segs@[j]).wf(),
            current.wf(),
            current.total_ms() == elapsed(durations@, k as int),
            cues@.len() == k,
            playlist@.len() == k,
            forall|j: int| 0 <= j < k ==> cue_matches(#[trigger] cues@[j], durations@, texts@, j),
            forall|j: int|
                0 <= j < k ==> #[trigger] playlist@[j]@ == playlist_line_text(
                    verse_path_text(audio_dir@, audio_type@, range.surah@, (range.start + j) as nat),
                ),
        decreases n - k,
    {
        let verse = range.start + k as u16;
        let path = verse_path(audio_dir, audio_type, range.surah.as_str(), verse);
        playlist.push(playlist_line(path.as_str()));
        let seg = segs[k];
        proof {
            lemma_of_ms(current);
        }
        cues.push(
            SubtitleData {
                start_time: format_duration(current),
                end_time: format_duration(seg),
                text: texts[k].clone(),
            },
        );
        proof {
            lemma_elapsed_monotone(durations@, k + 1, n as int);
        }
        current = current.accumulate(seg);
        k = k + 1;
    }
    Ok(Timeline { cues, playlist })
}

/// A range with `start <= end` gives exactly `end - start + 1` cues and as many playlist
/// lines, line `k` naming the clip of verse `start + k`.
pub proof fn lemma_one_entry_per_verse(
    range: VerseRange,
    audio_dir: Seq<char>,
    audio_type: Seq<char>,
    durations: Seq<String>,
    texts: Seq<String>,
    r: Result<Timeline, TimelineError>,
)
    requires
        range.start <= range.end,
        timeline_built(range, audio_dir, audio_type, durations, texts, r),
        r is Ok,
    ensures
        r->Ok_0.cues@.len() == range.end - range.start + 1,
        r->Ok_0.playlist@.len() == range.end - range.start + 1,
        forall|k: int|
            0 <= k <= range.end - range.start ==> #[trigger] r->Ok_0.playlist@[k]@
                == playlist_line_text(
                verse_path_text(audio_dir, audio_type, range.surah@, (range.start + k) as nat),
            ),
{
}

/// An empty range (`start > end`) builds an empty timeline and an empty playlist, and no error.
pub proof fn lemma_empty_range(
    range: VerseRange,
    audio_dir: Seq<char>,
    audio_type: Seq<char>,
    durations: Seq<String>,
    texts: Seq<String>,
    r: Result<Timeline, TimelineError>,
)
    requires
        range.start > range.end,
        timeline_built(range, audio_dir, audio_type, durations, texts, r),
    ensures
        r is Ok,
        r->Ok_0.cues@.len() == 0,
        r->Ok_0.playlist@.len() == 0,
{
    assert(elapsed(durations, 0) == 0);
}

/// An unreadable duration for the verse at offset `k` fails the build with the first such
/// verse, at or before `start + k`: no timeline and no playlist come out.
pub proof fn lemma_probe_failure_aborts(
    range: VerseRange,
    audio_dir: Seq<char>,
    audio_type: Seq<char>,
    durations: Seq<String>,
    texts: Seq<String>,
    r: Result<Timeline, TimelineError>,
    k: int,
)
    requires
        0 <= k < range.count(),
        probed(durations, k) is None,
        timeline_built(range, audio_dir, audio_type, durations, texts, r),
    ensures
        r matches Err(TimelineError::Probe(v)) && range.start <= v <= range.start + k,
{
    if let Err(TimelineError::Probe(v)) = r {
        if v > range.start + k {
            assert(probed(durations, k) is Some);
        }
    }
}

/// The second cue starts where the first clip ends, and the first cue ends at the first
/// clip's own duration: the end of a cue is its clip's duration, not a running total.
pub proof fn lemma_cue_end_is_own_duration(
    range: VerseRange,
    audio_dir: Seq<char>,
    audio_type: Seq<char>,
    durations: Seq<String>,
    texts: Seq<String>,
    r: Result<Timeline, TimelineError>,
)
    requires
        range.count() >= 2,
        timeline_built(range, audio_dir, audio_type, durations, texts, r),
        r is Ok,
    ensures
        probed(durations, 0) is Some,
        r->Ok_0.cues@[0].end_time@ == centisecond_text(probed(durations, 0).unwrap()),
        r->Ok_0.cues@[1].start_time@ == centisecond_text(probed(durations, 0).unwrap()),
        r->Ok_0.cues@[0].start_time@ == centisecond_text(TimePoint::zero_spec()),
{
    let tl = r->Ok_0;
    assert(cue_matches(tl.cues@[0], durations, texts, 0));
    assert(cue_matches(tl.cues@[1], durations, texts, 1));
    let t = probed(durations, 0).unwrap();
    assert(seconds_of(durations[0]@) == Some(t));
    lemma_seconds_wf(durations[0]@);
    assert(elapsed(durations, 1) == t.total_ms()) by {
        assert(elapsed(durations, 0) == 0);
    }
    lemma_of_ms(t);
    lemma_of_ms(TimePoint::zero_spec());
}

} // verus!
