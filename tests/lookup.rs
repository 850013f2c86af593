use quran_shorts::corpus::{get_attribute_value, get_surah_title, read_arabic_quran, Attribute};
use quran_shorts::media::{concatenate_mp3, make_short, video_filter};
use quran_shorts::options::{AudioType, TextType};
use std::str::FromStr;

const VERSES: &str = r#"<?xml version="1.0" encoding="utf-8"?>
<quran>
  <sura index="1" name="first">
    <aya index="1" text="one-one"/>
    <aya index="2" text="one-two"/>
  </sura>
  <sura index="2" name="second">
    <aya index="1" text="two-one"/>
    <aya index="2"/>
  </sura>
</quran>
"#;

const TITLES: &str = r#"<?xml version="1.0"?>
<quran><suras>
  <sura index="1" ayas="7" name="x" tname="Al-Faatiha"/>
  <sura index="2" ayas="286" tname="Al-Baqara"/>
  <sura tname="Before" index="3"/>
</suras></quran>
"#;

#[test]
fn verse_text_found() {
    assert_eq!(read_arabic_quran("1", "2", Some(VERSES.as_bytes())), "one-two");
    assert_eq!(read_arabic_quran("2", "1", Some(VERSES.as_bytes())), "two-one");
}

#[test]
fn verse_text_missing_is_empty() {
    assert_eq!(read_arabic_quran("2", "2", Some(VERSES.as_bytes())), "");
    assert_eq!(read_arabic_quran("3", "1", Some(VERSES.as_bytes())), "");
    assert_eq!(read_arabic_quran("1", "1", None), "");
    assert_eq!(read_arabic_quran("1", "1", Some("<quran><sura".as_bytes())), "");
}

#[test]
fn surah_titles() {
    assert_eq!(get_surah_title("1", TITLES.as_bytes()), "Al-Faatiha");
    assert_eq!(get_surah_title("2", TITLES.as_bytes()), "Al-Baqara");
    // The title must follow the index among the attributes.
    assert_eq!(get_surah_title("3", TITLES.as_bytes()), "");
    assert_eq!(get_surah_title("9", TITLES.as_bytes()), "");
}

#[test]
fn first_attribute_wins() {
    let attrs = vec![
        Attribute { name: "index".to_string(), value: "1".to_string() },
        Attribute { name: "text".to_string(), value: "a".to_string() },
        Attribute { name: "text".to_string(), value: "b".to_string() },
    ];
    assert_eq!(get_attribute_value(&attrs, "text"), Some("a".to_string()));
    assert_eq!(get_attribute_value(&attrs, "name"), None);
}

#[test]
fn option_names_ignore_case() {
    assert_eq!(AudioType::from_str("ARABIC"), Ok(AudioType::Arabic));
    assert_eq!(AudioType::from_str("Urdu"), Ok(AudioType::Urdu));
    assert_eq!(AudioType::from_str("english"), Ok(AudioType::English));
    assert_eq!(AudioType::from_str("french"), Err("no match"));
    assert_eq!(TextType::from_str("NONE"), Ok(TextType::NoText));
    assert_eq!(TextType::from_str("English"), Ok(TextType::English));
    assert_eq!(TextType::from_str(""), Err("no match"));
}

#[test]
fn option_folders_and_files() {
    assert_eq!(AudioType::Urdu.folder(), "urdu");
    assert_eq!(TextType::Arabic.file_name(), Some("arabic.xml"));
    assert_eq!(TextType::NoText.file_name(), None);
}

#[test]
fn concat_arguments() {
    assert_eq!(
        concatenate_mp3("list.txt", "audio.mp3"),
        vec!["-f", "concat", "-safe", "0", "-i", "list.txt", "-c", "copy", "audio.mp3"]
    );
}

#[test]
fn video_arguments() {
    let args = make_short("bg.jpg", "Al-Faatiha", "1", "7", "sub.ass", "audio.mp3", "out.mp4");
    assert_eq!(args.len(), 16);
    assert_eq!(&args[0..7], &["-loop", "1", "-i", "bg.jpg", "-i", "audio.mp3", "-vf"]);
    assert_eq!(args[7], video_filter("Al-Faatiha", "1", "7", "sub.ass"));
    assert_eq!(args[15], "out.mp4");
    assert!(args[7].contains(",drawtext=text=Al-Faatiha 1-7:fontfile=resources/fonts/english.ttf:fontcolor=white:fontsize=38:x=(w-text_w)/2:y=135,"));
    assert!(args[7].ends_with(",subtitles=filename=sub.ass:fontsdir=resources/fonts/"));
    assert!(args[7].contains("❀----------❤----------❀"));
}
