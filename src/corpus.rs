use vstd::prelude::*;

use crate::text::same_text;

verus! {

broadcast use vstd::string::group_string_axioms;

/// An attribute of an element: its local name and its value.
#[derive(Debug)]
pub struct Attribute {
    pub name: String,
    pub value: String,
}

/// A start tag: the element's local name and its attributes, in document order.
#[derive(Debug)]
pub struct StartTag {
    pub name: String,
    pub attributes: Vec<Attribute>,
}

pub open spec fn attrs_view(attrs: Seq<Attribute>) -> Seq<(Seq<char>, Seq<char>)> {
    attrs.map_values(|a: Attribute| (a.name@, a.value@))
}

pub open spec fn tags_view(tags: Seq<Option<StartTag>>) -> Seq<
    Option<(Seq<char>, Seq<(Seq<char>, Seq<char>)>)>,
> {
    tags.map_values(
        |o: Option<StartTag>|
            match o {
                Some(t) => Some((t.name@, attrs_view(t.attributes@))),
                None => None,
            },
    )
}

/// The events of an XML document, as the xml crate's reader gives them, one entry per event:
/// a start tag with the local names and values of its attributes, or `None` for any other
/// event. The sequence ends at the end of the document or at the first error.
pub uninterp spec fn events_of(doc: Seq<u8>) -> Seq<
    Option<(Seq<char>, Seq<(Seq<char>, Seq<char>)>)>,
>;

/// Relies on `xml::EventReader` and its event iterator, which ends after the end of the
/// document or after the first error: the events depend on the document's bytes alone.
#[verifier::external_body]
fn read_events(doc: &[u8]) -> (r: Vec<Option<StartTag>>)
    ensures
        tags_view(r@) == events_of(doc@),
{
    xml::EventReader::new(doc).into_iter().map(|e| match e {
        Ok(xml::reader::XmlEvent::StartElement { name, attributes, .. }) => Some(StartTag {
            name: name.local_name,
            attributes: attributes.into_iter().map(
                |a| Attribute { name: a.name.local_name, value: a.value },
            ).collect(),
        }),
        _ => None,
    }).collect()
}

/// Value of the first of the first `n` attributes named `name`.
pub open spec fn first_value(
    attrs: Seq<(Seq<char>, Seq<char>)>,
    n: int,
    name: Seq<char>,
) -> Option<Seq<char>>
    decreases n,
{
    if n <= 0 {
        None
    } else {
        match first_value(attrs, n - 1, name) {
            Some(v) => Some(v),
            None => if attrs[n - 1].0 == name {
                Some(attrs[n - 1].1)
            } else {
                None
            },
        }
    }
}

pub open spec fn attribute(attrs: Seq<(Seq<char>, Seq<char>)>, name: Seq<char>) -> Option<
    Seq<char>,
> {
    first_value(attrs, attrs.len() as int, name)
}

proof fn lemma_first_value_stays(
    attrs: Seq<(Seq<char>, Seq<char>)>,
    k: int,
    n: int,
    name: Seq<char>,
)
    requires
        0 <= k <= n,
        first_value(attrs, k, name) is Some,
    ensures
        first_value(attrs, n, name) == first_value(attrs, k, name),
    decreases n - k,
{
    if k < n {
        lemma_first_value_stays(attrs, k, n - 1, name);
    }
}

/// Value of the first attribute named `name`.
pub fn get_attribute_value(attributes: &Vec<Attribute>, name: &str) -> (r: Option<String>)
    ensures
        r matches Some(v) ==> attribute(attrs_view(attributes@), name@) == Some(v@),
        r is None ==> attribute(attrs_view(attributes@), name@) is None,
{
    let ghost view = attrs_view(attributes@);
    let mut k: usize = 0;
    while k < attributes.len()
        invariant
            k <= attributes@.len(),
            view == attrs_view(attributes@),
            first_value(view, k as int, name@) is None,
        decreases attributes@.len() - k,
    {
        assert(view[k as int] == (attributes@[k as int].name@, attributes@[k as int].value@));
        if same_text(attributes[k].name.as_str(), name) {
            proof {
                lemma_first_value_stays(view, k + 1, attributes@.len() as int, name@);
            }
            return Some(attributes[k].value.clone());
        }
        k = k + 1;
    }
    None
}

/// Whether the last `sura` tag among the first `k` events has index `sura`.
pub open spec fn in_sura(
    tags: Seq<Option<(Seq<char>, Seq<(Seq<char>, Seq<char>)>)>>,
    k: int,
    sura: Seq<char>,
) -> bool
    decreases k,
{
    if k <= 0 {
        false
    } else {
        match tags[k - 1] {
            Some(t) => if t.0 == "sura"@ {
                attribute(t.1, "index"@) == Some(sura)
            } else {
                in_sura(tags, k - 1, sura)
            },
            None => in_sura(tags, k - 1, sura),
        }
    }
}

/// Text of the first verse among the first `n` events: an `aya` tag inside the wanted
/// sura, with index `aya` and a `text` attribute.
pub open spec fn verse_text_in(
    tags: Seq<Option<(Seq<char>, Seq<(Seq<char>, Seq<char>)>)>>,
    n: int,
    sura: Seq<char>,
    aya: Seq<char>,
) -> Option<Seq<char>>
    decreases n,
{
    if n <= 0 {
        None
    } else {
        match verse_text_in(tags, n - 1, sura, aya) {
            Some(v) => Some(v),
            None => match tags[n - 1] {
                Some(t) => if t.0 == "aya"@ && in_sura(tags, n - 1, sura) && attribute(
                    t.1,
                    "index"@,
                ) == Some(aya) {
                    attribute(t.1, "text"@)
                } else {
                    None
                },
                None => None,
            },
        }
    }
}

/// The text that `read_arabic_quran` gives: that of the first matching verse, else empty.
pub open spec fn verse_text(document: Option<&[u8]>, sura: Seq<char>, aya: Seq<char>) -> Seq<char> {
    match document {
        Some(doc) => match verse_text_in(events_of(doc@), events_of(doc@).len() as int, sura, aya) {
            Some(v) => v,
            None => Seq::empty(),
        },
        None => Seq::empty(),
    }
}

proof fn lemma_verse_text_stays(
    tags: Seq<Option<(Seq<char>, Seq<(Seq<char>, Seq<char>)>)>>,
    k: int,
    n: int,
    sura: Seq<char>,
    aya: Seq<char>,
)
    requires
        0 <= k <= n,
        verse_text_in(tags, k, sura, aya) is Some,
    ensures
        verse_text_in(tags, n, sura, aya) == verse_text_in(tags, k, sura, aya),
    decreases n - k,
{
    if k < n {
        lemma_verse_text_stays(tags, k, n - 1, sura, aya);
    }
}

/// Text of verse `aya` of sura `sura` in a verse-text document; empty when there is no
/// document or the verse is not in it.
pub fn read_arabic_quran(
    sura_index_target: &str,
    aya_index_target: &str,
    document: Option<&[u8]>,
) -> (r: String)
    ensures
        r@ == verse_text(document, sura_index_target@, aya_index_target@),
{
    let doc = match document {
        Some(d) => d,
        None => return String::new(),
    };
    let tags = read_events(doc);
    let ghost view = tags_view(tags@);
    let mut inside = false;
    let mut k: usize = 0;
    while k < tags.len()
        invariant
            k <= tags@.len(),
            view == tags_view(tags@),
            view == events_of(doc@),
            view.len() == tags@.len(),
            inside == in_sura(view, k as int, sura_index_target@),
            document == Some(doc),
            verse_text_in(view, k as int, sura_index_target@, aya_index_target@) is None,
        decreases tags@.len() - k,
    {
        if let Some(tag) = &tags[k] {
            let ghost attrs = attrs_view(tag.attributes@);
            assert(view[k as int] == Some((tag.name@, attrs)));
            if same_text(tag.name.as_str(), "sura") {
                let index = get_attribute_value(&tag.attributes, "index");
                inside = match index {
                    Some(v) => same_text(v.as_str(), sura_index_target),
                    None => false,
                };
            } else if inside && same_text(tag.name.as_str(), "aya") {
                let index = get_attribute_value(&tag.attributes, "index");
                let matches = match index {
                    Some(v) => same_text(v.as_str(), aya_index_target),
                    None => false,
                };
                if matches {
                    if let Some(text) = get_attribute_value(&tag.attributes, "text") {
                        proof {
                            assert(verse_text_in(
                                view,
                                k + 1,
                                sura_index_target@,
                                aya_index_target@,
                            ) == Some(text@));
                            lemma_verse_text_stays(
                                view,
                                k + 1,
                                view.len() as int,
                                sura_index_target@,
                                aya_index_target@,
                            );
                            assert(document == Some(doc));
                        }
                        return text;
                    }
                }
            }
            proof {
                reveal_strlit("sura");
                reveal_strlit("aya");
                if tag.name@ == "sura"@ {
                    assert("sura"@.len() == 4 && "aya"@.len() == 3);
                    assert(tag.name@ != "aya"@);
                }
            }
        }
        assert(verse_text_in(view, k + 1, sura_index_target@, aya_index_target@) is None);
        assert(inside == in_sura(view, k + 1, sura_index_target@));
        k = k + 1;
    }
    String::new()
}

/// Title of a sura tag for index `surah`: the first `tname` attribute that follows an `index`
/// attribute equal to `surah`, among the first `n` attributes.
pub open spec fn title_in(attrs: Seq<(Seq<char>, Seq<char>)>, n: int, surah: Seq<char>) -> Option<
    Seq<char>,
>
    decreases n,
{
    if n <= 0 {
        None
    } else {
        match title_in(attrs, n - 1, surah) {
            Some(v) => Some(v),
            None => if attrs[n - 1].0 == "tname"@ && index_seen(attrs, n - 1, surah) {
                Some(attrs[n - 1].1)
            } else {
                None
            },
        }
    }
}

/// Whether one of the first `n` attributes is an `index` equal to `surah`.
pub open spec fn index_seen(attrs: Seq<(Seq<char>, Seq<char>)>, n: int, surah: Seq<char>) -> bool {
    exists|i: int| 0 <= i < n && attrs[i].0 == "index"@ && attrs[i].1 == surah
}

/// The title of sura `surah` among the first `n` events: that of the last `sura` tag that
/// has one for it, empty when none has.
pub open spec fn surah_title_in(
    tags: Seq<Option<(Seq<char>, Seq<(Seq<char>, Seq<char>)>)>>,
    n: int,
    surah: Seq<char>,
) -> Seq<char>
    decreases n,
{
    if n <= 0 {
        Seq::empty()
    } else {
        match tags[n - 1] {
            Some(t) => if t.0 == "sura"@ && title_in(t.1, t.1.len() as int, surah) is Some {
                title_in(t.1, t.1.len() as int, surah).unwrap()
            } else {
                surah_title_in(tags, n - 1, surah)
            },
            None => surah_title_in(tags, n - 1, surah),
        }
    }
}

proof fn lemma_title_stays(attrs: Seq<(Seq<char>, Seq<char>)>, k: int, n: int, surah: Seq<char>)
    requires
        0 <= k <= n,
        title_in(attrs, k, surah) is Some,
    ensures
        title_in(attrs, n, surah) == title_in(attrs, k, surah),
    decreases n - k,
{
    if k < n {
        lemma_title_stays(attrs, k, n - 1, surah);
    }
}

/// The title that a sura tag with these attributes gives for index `surah`.
fn sura_title(attributes: &Vec<Attribute>, surah: &str) -> (r: Option<String>)
    ensures
        r matches Some(v) ==> title_in(
            attrs_view(attributes@),
            attributes@.len() as int,
            surah@,
        ) == Some(v@),
        r is None ==> title_in(attrs_view(attributes@), attributes@.len() as int, surah@) is None,
{
    let ghost attrs = attrs_view(attributes@);
    let mut matched = false;
    let mut j: usize = 0;
    let n = attributes.len();
    while j < n
        invariant
            n == attributes@.len(),
            attrs == attrs_view(attributes@),
            j <= n,
            matched == index_seen(attrs, j as int, surah@),
            title_in(attrs, j as int, surah@) is None,
        decreases n - j,
    {
        let attr = &attributes[j];
        assert(attrs[j as int] == (attr.name@, attr.value@));
        if same_text(attr.name.as_str(), "index") && same_text(attr.value.as_str(), surah) {
            matched = true;
        }
        proof {
            if !matched {
                assert forall|i: int|
                    0 <= i < j + 1 && attrs[i].0 == "index"@ implies attrs[i].1 != surah@ by {
                    if i < j {
                    } else {
                        assert(attrs[i] == (attr.name@, attr.value@));
                    }
                }
            } else {
                if !index_seen(attrs, j as int, surah@) {
                    assert(attrs[j as int].0 == "index"@ && attrs[j as int].1 == surah@);
                }
            }
        }
        if matched && same_text(attr.name.as_str(), "tname") {
            proof {
                reveal_strlit("index");
                reveal_strlit("tname");
                assert(attrs[j as int].0[0] == 't');
                assert("index"@[0] == 'i');
                assert(attrs[j as int].0 != "index"@);
                assert(index_seen(attrs, j as int, surah@));
                assert(title_in(attrs, j + 1, surah@) == Some(attr.value@));
                lemma_title_stays(attrs, j + 1, n as int, surah@);
            }
            return Some(attr.value.clone());
        }
        j = j + 1;
    }
    None
}

/// Title (`tname`) of sura `surah_index` in a sura metadata document; empty when absent.
pub fn get_surah_title(surah_index: &str, document: &[u8]) -> (r: String)
    ensures
        r@ == surah_title_in(events_of(document@), events_of(document@).len() as int, surah_index@),
{
    let tags = read_events(document);
    let ghost view = tags_view(tags@);
    let mut title = String::new();
    let mut k: usize = 0;
    while k < tags.len()
        invariant
            k <= tags@.len(),
            view == tags_view(tags@),
            view == events_of(document@),
            view.len() == tags@.len(),
            title@ == surah_title_in(view, k as int, surah_index@),
        decreases tags@.len() - k,
    {
        if let Some(tag) = &tags[k] {
            let ghost attrs = attrs_view(tag.attributes@);
            assert(view[k as int] == Some((tag.name@, attrs)));
            if same_text(tag.name.as_str(), "sura") {
                if let Some(t) = sura_title(&tag.attributes, surah_index) {
                    title = t;
                }
            }
        }
        k = k + 1;
    }
    title
}

} // verus!
