use vstd::prelude::*;

verus! {

/// Overlay that writes the channel title at the top of the frame.
pub const TITLE_FILTER: &'static str = "drawtext=text=Al-Quran:fontfile=resources/fonts/english-bold.ttf:fontcolor=white:fontsize=60:x=(w-text_w)/2:y=80";

/// Overlay that writes the subtitle language heading.
pub const HEADING_FILTER: &'static str = "drawtext=text=Translation:fontfile=resources/fonts/english.ttf:fontcolor=white:fontsize=35:x=(w-text_w)/2:y=175";

/// Overlay that draws the ornamental separator under the headings.
pub const SEPARATOR_FILTER: &'static str = "drawtext=text=\u{2740}----------\u{2764}----------\u{2740}:fontfile=resources/fonts/english.ttf:fontcolor=white:fontsize=30:x=(w-text_w)/2:y=215";

pub open spec fn views(v: Seq<String>) -> Seq<Seq<char>> {
    v.map_values(|s: String| s@)
}

/// The overlay chain of a video: title, `<surah title> <start>-<end>`, heading, separator,
/// then the subtitle track burnt in.
pub open spec fn video_filter_text(
    surah_title: Seq<char>,
    start_aya: Seq<char>,
    end_aya: Seq<char>,
    subtitle_path: Seq<char>,
) -> Seq<char> {
    TITLE_FILTER@ + seq![','] + "drawtext=text="@ + surah_title + seq![' '] + start_aya + seq!['-']
        + end_aya
        + ":fontfile=resources/fonts/english.ttf:fontcolor=white:fontsize=38:x=(w-text_w)/2:y=135"@
        + seq![','] + HEADING_FILTER@ + seq![','] + SEPARATOR_FILTER@ + seq![','] + "subtitles=filename="@
        + subtitle_path + ":fontsdir=resources/fonts/"@
}

fn push_arg(args: &mut Vec<String>, s: &str)
    ensures
        views(final(args)@) == views(old(args)@).push(s@),
{
    let ghost before = args@;
    args.push(s.to_owned());
    assert(views(args@) =~= views(before).push(s@));
}

/// Arguments of the concatenation tool: join the clips listed in `list_file_path` into
/// `output_path` without re-encoding.
pub fn concatenate_mp3(list_file_path: &str, output_path: &str) -> (r: Vec<String>)
    ensures
        views(r@) == seq![
            "-f"@,
            "concat"@,
            "-safe"@,
            "0"@,
            "-i"@,
            list_file_path@,
            "-c"@,
            "copy"@,
            output_path@,
        ],
{
    let mut args: Vec<String> = Vec::new();
    push_arg(&mut args, "-f");
    push_arg(&mut args, "concat");
    push_arg(&mut args, "-safe");
    push_arg(&mut args, "0");
    push_arg(&mut args, "-i");
    push_arg(&mut args, list_file_path);
    push_arg(&mut args, "-c");
    push_arg(&mut args, "copy");
    push_arg(&mut args, output_path);
    assert(views(args@) =~= seq![
        "-f"@,
        "concat"@,
        "-safe"@,
        "0"@,
        "-i"@,
        list_file_path@,
        "-c"@,
        "copy"@,
        output_path@,
    ]);
    args
}

/// The overlay chain of a video.
pub fn video_filter(surah_title: &str, start_aya: &str, end_aya: &str, subtitle_path: &str) -> (r:
    String)
    ensures
        r@ == video_filter_text(surah_title@, start_aya@, end_aya@, subtitle_path@),
{
    let mut out = String::new();
    out.append(TITLE_FILTER);
    out.push(',');
    out.append("drawtext=text=");
    out.append(surah_title);
    out.push(' ');
    out.append(start_aya);
    out.push('-');
    out.append(end_aya);
    out.append(":fontfile=resources/fonts/english.ttf:fontcolor=white:fontsize=38:x=(w-text_w)/2:y=135");
    out.push(',');
    out.append(HEADING_FILTER);
    out.push(',');
    out.append(SEPARATOR_FILTER);
    out.push(',');
    out.append("subtitles=filename=");
    out.append(subtitle_path);
    out.append(":fontsdir=resources/fonts/");
    assert(out@ =~= video_filter_text(surah_title@, start_aya@, end_aya@, subtitle_path@));
    out
}

/// Arguments of the encoder for a short video: the still `bg_image` looped under
/// `audio_path`, with the overlay chain, cut to the audio's length, written to `output_path`.
pub fn make_short(
    bg_image: &str,
    surah_title: &str,
    start_aya: &str,
    end_aya: &str,
    subtitle_path: &str,
    audio_path: &str,
    output_path: &str,
) -> (r: Vec<String>)
    ensures
        views(r@) == seq![
            "-loop"@,
            "1"@,
            "-i"@,
            bg_image@,
            "-i"@,
            audio_path@,
            "-vf"@,
            video_filter_text(surah_title@, start_aya@, end_aya@, subtitle_path@),
            "-c:v"@,
            "libx264"@,
            "-c:a"@,
            "aac"@,
            "-pix_fmt"@,
            "yuv420p"@,
            "-shortest"@,
            output_path@,
        ],
{
    let mut args: Vec<String> = Vec::new();
    push_arg(&mut args, "-loop");
    push_arg(&mut args, "1");
    push_arg(&mut args, "-i");
    push_arg(&mut args, bg_image);
    push_arg(&mut args, "-i");
    push_arg(&mut args, audio_path);
    push_arg(&mut args, "-vf");
    let filter = video_filter(surah_title, start_aya, end_aya, subtitle_path);
    push_arg(&mut args, filter.as_str());
    push_arg(&mut args, "-c:v");
    push_arg(&mut args, "libx264");
    push_arg(&mut args, "-c:a");
    push_arg(&mut args, "aac");
    push_arg(&mut args, "-pix_fmt");
    push_arg(&mut args, "yuv420p");
    push_arg(&mut args, "-shortest");
    push_arg(&mut args, output_path);
    assert(views(args@) =~= seq![
        "-loop"@,
        "1"@,
        "-i"@,
        bg_image@,
        "-i"@,
        audio_path@,
        "-vf"@,
        video_filter_text(surah_title@, start_aya@, end_aya@, subtitle_path@),
        "-c:v"@,
        "libx264"@,
        "-c:a"@,
        "aac"@,
        "-pix_fmt"@,
        "yuv420p"@,
        "-shortest"@,
        output_path@,
    ]);
    args
}

} // verus!
