use vstd::prelude::*;

use crate::timeline::SubtitleData;

verus! {

/// Script info, the style block (centred text) and the events format line of a timeline
/// subtitle document.
pub const TIMELINE_HEADER: &'static str = "[Script Info]\nScriptType: v4.00+\n\n[V4+ Styles]\nFormat: Name, Fontname, Fontsize, PrimaryColour, SecondaryColour, OutlineColour, BackColour, Bold, Italic, Underline, StrikeOut, ScaleX, ScaleY, Spacing, Angle, BorderStyle, Outline, Shadow, Alignment, MarginL, MarginR, MarginV, Encoding\nStyle: Default, Noto Naskh Arabic, 18, &H00FFFFFF, &H000000FF, &H00000000, &H00000000, 0, 0, 0, 0, 100, 100, 0, 0, 1, 1, 0, 5, 10, 10, 10, 1\n\n[Events]\nFormat: Layer, Start, End, Style, Name, MarginL, MarginR, MarginV, Effect, Text\n";

/// `Dialogue: 0,<start>,<end>,Default,,0,0,0,,<text>` and a newline.
pub open spec fn dialogue_text(start: Seq<char>, end: Seq<char>, text: Seq<char>) -> Seq<char> {
    "Dialogue: 0,"@ + start + seq![','] + end + ",Default,,0,0,0,,"@ + text + seq!['\n']
}

/// The dialogue lines of the first `k` cues, in order.
pub open spec fn dialogues_text(cues: Seq<SubtitleData>, k: int) -> Seq<char>
    decreases k,
{
    if k <= 0 {
        Seq::empty()
    } else {
        dialogues_text(cues, k - 1) + dialogue_text(
            cues[k - 1].start_time@,
            cues[k - 1].end_time@,
            cues[k - 1].text@,
        )
    }
}

/// Appends the dialogue line of one cue.
pub fn push_dialogue(out: &mut String, start: &str, end: &str, text: &str)
    ensures
        final(out)@ == old(out)@ + dialogue_text(start@, end@, text@),
{
    let ghost before = out@;
    out.append("Dialogue: 0,");
    out.append(start);
    out.push(',');
    out.append(end);
    out.append(",Default,,0,0,0,,");
    out.append(text);
    out.push('\n');
    assert(out@ =~= before + dialogue_text(start@, end@, text@));
}

/// The subtitle document of a timeline: the fixed header, then one dialogue line per cue,
/// in the order given.
pub fn make_subtitle_file(subtitles: &Vec<SubtitleData>) -> (r: String)
    ensures
        r@ == TIMELINE_HEADER@ + dialogues_text(subtitles@, subtitles@.len() as int),
{
    let mut out = String::new();
    out.append(TIMELINE_HEADER);
    let mut k: usize = 0;
    while k < subtitles.len()
        invariant
            k <= subtitles@.len(),
            out@ == TIMELINE_HEADER@ + dialogues_text(subtitles@, k as int),
        decreases subtitles@.len() - k,
    {
        let cue = &subtitles[k];
        push_dialogue(&mut out, cue.start_time.as_str(), cue.end_time.as_str(), cue.text.as_str());
        k = k + 1;
        assert(out@ =~= TIMELINE_HEADER@ + dialogues_text(subtitles@, k as int));
    }
    out
}

} // verus!
