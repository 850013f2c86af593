use vstd::prelude::*;

use crate::text::same_text;

verus! {

/// Lower-case form of a string, as `str::to_lowercase` gives it.
pub uninterp spec fn lower_of(s: Seq<char>) -> Seq<char>;

/// Relies on `str::to_lowercase`: the result depends on the characters alone.
#[verifier::external_body]
fn lowercase(s: &str) -> (r: String)
    ensures
        r@ == lower_of(s@),
{
    s.to_lowercase()
}

/// The language of the recitation audio.
#[derive(Clone, Copy, Debug, PartialEq, Eq, Structural)]
pub enum AudioType {
    Arabic,
    English,
    Urdu,
}

/// The language of the verse text shown in the subtitles, if any.
#[derive(Clone, Copy, Debug, PartialEq, Eq, Structural)]
pub enum TextType {
    Arabic,
    English,
    Urdu,
    NoText,
}

/// The options of one run.
#[derive(Debug)]
pub struct Args {
    pub bg: String,
    pub surah: String,
    pub start_aya: String,
    pub end_aya: String,
    pub audio_type: AudioType,
    pub text_type: TextType,
}

pub open spec fn audio_type_named(s: Seq<char>) -> Option<AudioType> {
    if s == "arabic"@ {
        Some(AudioType::Arabic)
    } else if s == "english"@ {
        Some(AudioType::English)
    } else if s == "urdu"@ {
        Some(AudioType::Urdu)
    } else {
        None
    }
}

pub open spec fn text_type_named(s: Seq<char>) -> Option<TextType> {
    if s == "arabic"@ {
        Some(TextType::Arabic)
    } else if s == "english"@ {
        Some(TextType::English)
    } else if s == "urdu"@ {
        Some(TextType::Urdu)
    } else if s == "none"@ {
        Some(TextType::NoText)
    } else {
        None
    }
}

impl AudioType {
    /// The audio type of an already lower-case name.
    pub fn from_lowercase(s: &str) -> (r: Option<AudioType>)
        ensures
            r == audio_type_named(s@),
    {
        if same_text(s, "arabic") {
            Some(AudioType::Arabic)
        } else if same_text(s, "english") {
            Some(AudioType::English)
        } else if same_text(s, "urdu") {
            Some(AudioType::Urdu)
        } else {
            None
        }
    }

    /// The audio type of a name, in any case.
    pub fn from_name(s: &str) -> (r: Option<AudioType>)
        ensures
            r == audio_type_named(lower_of(s@)),
    {
        let lower = lowercase(s);
        AudioType::from_lowercase(lower.as_str())
    }

    /// The directory that holds the clips of this language.
    pub fn folder(self) -> (r: &'static str)
        ensures
            r@ == (match self {
                AudioType::Arabic => "arabic"@,
                AudioType::English => "english"@,
                AudioType::Urdu => "urdu"@,
            }),
    {
        match self {
            AudioType::Arabic => "arabic",
            AudioType::English => "english",
            AudioType::Urdu => "urdu",
        }
    }
}

impl TextType {
    /// The text type of an already lower-case name.
    pub fn from_lowercase(s: &str) -> (r: Option<TextType>)
        ensures
            r == text_type_named(s@),
    {
        if same_text(s, "arabic") {
            Some(TextType::Arabic)
        } else if same_text(s, "english") {
            Some(TextType::English)
        } else if same_text(s, "urdu") {
            Some(TextType::Urdu)
        } else if same_text(s, "none") {
            Some(TextType::NoText)
        } else {
            None
        }
    }

    /// The text type of a name, in any case.
    pub fn from_name(s: &str) -> (r: Option<TextType>)
        ensures
            r == text_type_named(lower_of(s@)),
    {
        let lower = lowercase(s);
        TextType::from_lowercase(lower.as_str())
    }

    /// The corpus file that holds the verse texts of this language; `None` for no text.
    pub fn file_name(self) -> (r: Option<&'static str>)
        ensures
            match self {
                TextType::Arabic => r matches Some(f) && f@ == "arabic.xml"@,
                TextType::English => r matches Some(f) && f@ == "english.xml"@,
                TextType::Urdu => r matches Some(f) && f@ == "urdu.xml"@,
                TextType::NoText => r is None,
            },
    {
        match self {
            TextType::Arabic => Some("arabic.xml"),
            TextType::English => Some("english.xml"),
            TextType::Urdu => Some("urdu.xml"),
            TextType::NoText => None,
        }
    }
}

impl std::str::FromStr for AudioType {
    type Err = &'static str;

    fn from_str(s: &str) -> (r: Result<AudioType, &'static str>)
        ensures
            r matches Ok(t) ==> audio_type_named(lower_of(s@)) == Some(t),
            r is Err ==> audio_type_named(lower_of(s@)) is None,
    {
        match AudioType::from_name(s) {
            Some(t) => Ok(t),
            None => Err("no match"),
        }
    }
}

impl std::str::FromStr for TextType {
    type Err = &'static str;

    fn from_str(s: &str) -> (r: Result<TextType, &'static str>)
        ensures
            r matches Ok(t) ==> text_type_named(lower_of(s@)) == Some(t),
            r is Err ==> text_type_named(lower_of(s@)) is None,
    {
        match TextType::from_name(s) {
            Some(t) => Ok(t),
            None => Err("no match"),
        }
    }
}

} // verus!
