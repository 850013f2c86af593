use vstd::prelude::*;

use crate::subtitle::{dialogue_text, push_dialogue};
use crate::time::{millisecond_text, parse_timestamp, push_padded, timestamp_of};

verus! {

/// Script info, the style block (bottom-centred text) and the events format line of a
/// single-clip subtitle document.
pub const CLIP_HEADER: &'static str = "[Script Info]\nScriptType: v4.00+\n\n[V4+ Styles]\nFormat: Name, Fontname, Fontsize, PrimaryColour, SecondaryColour, OutlineColour, BackColour, Bold, Italic, Underline, StrikeOut, ScaleX, ScaleY, Spacing, Angle, BorderStyle, Outline, Shadow, Alignment, MarginL, MarginR, MarginV, Encoding\nStyle: Default, Noto Naskh Arabic, 18, &H00FFFFFF, &H000000FF, &H00000000, &H00000000, 0, 0, 0, 0, 100, 100, 0, 0, 1, 1, 0, 2, 10, 10, 10, 1\n\n[Events]\nFormat: Layer, Start, End, Style, Name, MarginL, MarginR, MarginV, Effect, Text\n";

/// Start of the one cue of a single-clip document.
pub const CLIP_START: &'static str = "0:00:00.00";

/// Renders an `H:M:S.F` duration as `HH:MM:SS,mmm`; `None` when it does not read as one.
pub fn format_duration(duration: &str) -> (r: Option<String>)
    ensures
        r is Some <==> timestamp_of(duration@) is Some,
        r matches Some(s) ==> s@ == millisecond_text(timestamp_of(duration@).unwrap()),
{
    match parse_timestamp(duration) {
        Some(t) => {
            let mut out = String::new();
            push_padded(&mut out, t.hours, 2);
            out.push(':');
            push_padded(&mut out, t.minutes, 2);
            out.push(':');
            push_padded(&mut out, t.seconds, 2);
            out.push(',');
            push_padded(&mut out, t.millis, 3);
            assert(out@ =~= millisecond_text(t));
            Some(out)
        },
        None => None,
    }
}

/// The subtitle document of one clip: a single cue with `text` from the start of the clip
/// to its `duration` (`H:M:S.F`); `None` when the duration does not read as one.
pub fn subtitle_generator(text: &str, duration: &str) -> (r: Option<String>)
    ensures
        r is Some <==> timestamp_of(duration@) is Some,
        r matches Some(s) ==> s@ == CLIP_HEADER@ + dialogue_text(
            CLIP_START@,
            millisecond_text(timestamp_of(duration@).unwrap()),
            text@,
        ),
{
    match format_duration(duration) {
        Some(end) => {
            let mut out = String::new();
            out.append(CLIP_HEADER);
            push_dialogue(&mut out, CLIP_START, end.as_str(), text);
            Some(out)
        },
        None => None,
    }
}

} // verus!
