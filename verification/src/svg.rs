use quick_xml::events::{BytesStart, Event};
use quick_xml::Reader;
use vstd::prelude::*;

use std::sync::Arc;

use crate::map_error::{map_error_view, MapError, MapErrorView};
use crate::player::PlayerInfo;
use crate::support::{arc_clone, str_eq};
use crate::text::{get_fill_color, spec_fill_color};

verus! {

/// An attribute of an SVG element: its name and its unescaped value
/// (`None` when the value could not be unescaped).
pub struct XmlAttribute {
    pub key: String,
    pub value: Option<String>,
}

/// An SVG element as the map parser reads it: its local name and its
/// attributes in order, `None` standing for one that is malformed.
pub struct XmlElement {
    pub name: String,
    pub attributes: Vec<Option<XmlAttribute>>,
}

/// The events of an SVG document that the map parser acts on.
pub enum XmlEvent {
    Start(XmlElement),
    End,
    Empty(XmlElement),
    Other,
}

/// An attribute as plain values.
pub type AttributeView = (Seq<char>, Option<Seq<char>>);

/// An element as plain values: name and attributes.
pub type ElementView = (Seq<char>, Seq<Option<AttributeView>>);

/// An event as plain values: kind (0 start, 1 end, 2 empty element,
/// 3 anything else) and, for the first and third, the element.
pub type EventView = (int, ElementView);

pub open spec fn attribute_view(a: Option<XmlAttribute>) -> Option<AttributeView> {
    match a {
        Some(a) => Some(
            (
                a.key@,
                match a.value {
                    Some(v) => Some(v@),
                    None => None,
                },
            ),
        ),
        None => None,
    }
}

pub open spec fn element_view(e: XmlElement) -> ElementView {
    (e.name@, e.attributes@.map_values(|a: Option<XmlAttribute>| attribute_view(a)))
}

pub open spec fn no_element() -> ElementView {
    (Seq::empty(), Seq::empty())
}

pub open spec fn event_view(e: XmlEvent) -> EventView {
    match e {
        XmlEvent::Start(el) => (0, element_view(el)),
        XmlEvent::End => (1, no_element()),
        XmlEvent::Empty(el) => (2, element_view(el)),
        XmlEvent::Other => (3, no_element()),
    }
}

pub open spec fn events_view(v: Seq<XmlEvent>) -> Seq<EventView> {
    v.map_values(|e: XmlEvent| event_view(e))
}

/// An event as the XML reader gives it: for a start tag or an element
/// without content, the text inside the tag and the length (in bytes) of
/// the element's name at its start.
pub enum RawEvent {
    Start(String, usize),
    End,
    Empty(String, usize),
    Other,
}

/// A reader's event as plain values: kind (as for `EventView`), tag text,
/// name length.
pub type RawEventView = (int, Seq<char>, usize);

pub open spec fn raw_event_view(e: RawEvent) -> RawEventView {
    match e {
        RawEvent::Start(t, n) => (0, t@, n),
        RawEvent::End => (1, Seq::empty(), 0),
        RawEvent::Empty(t, n) => (2, t@, n),
        RawEvent::Other => (3, Seq::empty(), 0),
    }
}

pub open spec fn raw_events_view(v: Seq<RawEvent>) -> Seq<RawEventView> {
    v.map_values(|e: RawEvent| raw_event_view(e))
}

/// The events quick-xml reads from a document, up to its end, or the
/// position of the first error.
pub uninterp spec fn xml_event_stream(svg: Seq<char>) -> Result<Seq<RawEventView>, u64>;

/// The element quick-xml sees in the text of a tag whose name is `name_len`
/// bytes long: its local name, and its attributes.
pub uninterp spec fn tag_element(tag: Seq<char>, name_len: usize) -> ElementView;

/// Reads a document with quick-xml (`Reader::read_event`) up to its end:
/// start tags and elements without content as the text of the tag (whose
/// name is a prefix of it), end tags, and the rest. Claimed: the events
/// are those of `xml_event_stream`, an error gives the reader's error
/// position, and each name length is at most the length of its tag (the
/// reader's `BytesStart::name` is a prefix of the tag).
#[verifier::external_body]
fn read_raw_events(svg: &str) -> (res: Result<Vec<RawEvent>, u64>)
    ensures
        match res {
            Ok(v) => xml_event_stream(svg@) == Ok::<Seq<RawEventView>, u64>(raw_events_view(v@)),
            Err(p) => xml_event_stream(svg@) == Err::<Seq<RawEventView>, u64>(p),
        },
        res matches Ok(v) ==> forall|k: int|
            0 <= k < v@.len() ==> match #[trigger] v@[k] {
                RawEvent::Start(t, n) => n <= vstd::utf8::encode_utf8(t@).len(),
                RawEvent::Empty(t, n) => n <= vstd::utf8::encode_utf8(t@).len(),
                _ => true,
            },
{
    let mut reader = Reader::from_str(svg);
    let mut events = Vec::new();
    loop {
        let e = match reader.read_event() {
            Ok(Event::Eof) => return Ok(events),
            Ok(Event::Start(e)) => RawEvent::Start(String::from_utf8_lossy(&e).into_owned(), e.name().as_ref().len()),
            Ok(Event::End(_)) => RawEvent::End,
            Ok(Event::Empty(e)) => RawEvent::Empty(String::from_utf8_lossy(&e).into_owned(), e.name().as_ref().len()),
            Ok(_) => RawEvent::Other,
            Err(_) => return Err(reader.error_position()),
        };
        events.push(e);
    }
}

/// The element quick-xml makes of a tag's text (`BytesStart::from_content`):
/// its local name, and its attributes (`attributes().with_checks(false)`),
/// each unescaped (`Attribute::unescape_value`), `None` for one quick-xml
/// finds malformed. Claimed: the result is `tag_element` of the arguments.
#[verifier::external_body]
fn element_of(tag: &str, name_len: usize) -> (res: XmlElement)
    requires
        name_len <= vstd::utf8::encode_utf8(tag@).len(),
    ensures
        element_view(res) == tag_element(tag@, name_len),
{
    let e = BytesStart::from_content(tag, name_len);
    let attributes = e.attributes().with_checks(false).map(|a| a.ok().map(|a| XmlAttribute {
        key: String::from_utf8_lossy(a.key.as_ref()).into_owned(),
        value: a.unescape_value().ok().map(|v| v.into_owned()),
    })).collect();
    XmlElement { name: String::from_utf8_lossy(e.local_name().as_ref()).into_owned(), attributes }
}

/// The event a reader's event stands for.
pub open spec fn drawing_event(r: RawEventView) -> EventView {
    if r.0 == 0 {
        (0, tag_element(r.1, r.2))
    } else if r.0 == 1 {
        (1, no_element())
    } else if r.0 == 2 {
        (2, tag_element(r.1, r.2))
    } else {
        (3, no_element())
    }
}

/// Reads the events of an SVG drawing: those of `xml_event_stream` with
/// their elements (see `tag_element`); `MapError::Xml` with the position of
/// the first error in the document.
pub fn read_drawing(svg: &str) -> (res: Result<Vec<XmlEvent>, MapError>)
    ensures
        match xml_event_stream(svg@) {
            Ok(raw) => res is Ok && events_view(res->Ok_0@) == raw.map_values(|r: RawEventView| drawing_event(r)),
            Err(p) => res is Err && map_error_view(res->Err_0) == MapErrorView::Xml(p),
        },
{
    let raw = match read_raw_events(svg) {
        Ok(v) => v,
        Err(p) => {
            return Err(MapError::Xml(p));
        },
    };
    let ghost rv = raw_events_view(raw@);
    let mut out: Vec<XmlEvent> = Vec::new();
    let mut k: usize = 0;
    while k < raw.len()
        invariant
            rv == raw_events_view(raw@),
            xml_event_stream(svg@) == Ok::<Seq<RawEventView>, u64>(rv),
            forall|j: int|
                0 <= j < raw@.len() ==> match #[trigger] raw@[j] {
                    RawEvent::Start(t, n) => n <= vstd::utf8::encode_utf8(t@).len(),
                    RawEvent::Empty(t, n) => n <= vstd::utf8::encode_utf8(t@).len(),
                    _ => true,
                },
            k <= raw@.len(),
            events_view(out@) == rv.subrange(0, k as int).map_values(|r: RawEventView| drawing_event(r)),
        decreases raw@.len() - k,
    {
        let e = match &raw[k] {
            RawEvent::Start(t, n) => XmlEvent::Start(element_of(t.as_str(), *n)),
            RawEvent::End => XmlEvent::End,
            RawEvent::Empty(t, n) => XmlEvent::Empty(element_of(t.as_str(), *n)),
            RawEvent::Other => XmlEvent::Other,
        };
        let ghost before = events_view(out@);
        out.push(e);
        assert(events_view(out@) =~= before.push(event_view(e)));
        assert(rv.subrange(0, k + 1).map_values(|r: RawEventView| drawing_event(r)) =~= rv.subrange(
            0,
            k as int,
        ).map_values(|r: RawEventView| drawing_event(r)).push(drawing_event(rv[k as int])));
        k = k + 1;
    }
    assert(rv.subrange(0, k as int) =~= rv);
    Ok(out)
}

/// Why an attribute could not be read.
#[derive(Debug, Clone, Copy, PartialEq, Eq, Structural)]
pub enum AttributeError {
    /// An attribute before the one looked for is malformed.
    Malformed,
    /// The attribute's value could not be unescaped.
    Unescape,
}

/// The position of the first attribute that is malformed or called `key`.
pub open spec fn attribute_position(attrs: Seq<Option<AttributeView>>, key: Seq<char>) -> Option<int>
    decreases attrs.len(),
{
    if attrs.len() == 0 {
        None
    } else if attrs[0] is None || attrs[0].unwrap().0 == key {
        Some(0)
    } else {
        match attribute_position(attrs.drop_first(), key) {
            Some(i) => Some(i + 1),
            None => None,
        }
    }
}

proof fn lemma_attribute_position(attrs: Seq<Option<AttributeView>>, key: Seq<char>)
    ensures
        match attribute_position(attrs, key) {
            Some(i) => 0 <= i < attrs.len() && (attrs[i] is None || attrs[i].unwrap().0 == key) && forall|j: int|
                0 <= j < i ==> attrs[j] is Some && attrs[j].unwrap().0 != key,
            None => forall|j: int| 0 <= j < attrs.len() ==> attrs[j] is Some && attrs[j].unwrap().0 != key,
        },
    decreases attrs.len(),
{
    if attrs.len() > 0 && !(attrs[0] is None || attrs[0].unwrap().0 == key) {
        lemma_attribute_position(attrs.drop_first(), key);
        assert forall|j: int| 1 <= j < attrs.len() implies attrs[j] == attrs.drop_first()[j - 1] by {}
    }
}

/// The value of attribute `key` of an element: the first attribute so
/// named; an error when its value cannot be unescaped, or when a malformed
/// attribute comes before it (or, if it is missing, anywhere).
pub open spec fn spec_attribute(e: ElementView, key: Seq<char>) -> Result<Option<Seq<char>>, AttributeError> {
    match attribute_position(e.1, key) {
        Some(i) => match e.1[i] {
            None => Err(AttributeError::Malformed),
            Some(a) => match a.1 {
                Some(v) => Ok(Some(v)),
                None => Err(AttributeError::Unescape),
            },
        },
        None => Ok(None),
    }
}

/// Reads attribute `id` of an element (see `spec_attribute`).
pub fn get_attribute(e: &XmlElement, id: &str) -> (res: Result<Option<String>, AttributeError>)
    ensures
        match res {
            Ok(Some(v)) => spec_attribute(element_view(*e), id@) == Ok::<Option<Seq<char>>, AttributeError>(Some(v@)),
            Ok(None) => spec_attribute(element_view(*e), id@) == Ok::<Option<Seq<char>>, AttributeError>(None),
            Err(err) => spec_attribute(element_view(*e), id@) == Err::<Option<Seq<char>>, AttributeError>(err),
        },
{
    let ghost attrs = element_view(*e).1;
    proof {
        lemma_attribute_position(attrs, id@);
    }
    let mut i: usize = 0;
    while i < e.attributes.len()
        invariant
            attrs == element_view(*e).1,
            attrs.len() == e.attributes@.len(),
            i <= e.attributes@.len(),
            forall|j: int| 0 <= j < i ==> attrs[j] is Some && attrs[j].unwrap().0 != id@,
            match attribute_position(attrs, id@) {
                Some(k) => 0 <= k < attrs.len() && (attrs[k] is None || attrs[k].unwrap().0 == id@) && forall|j: int|
                    0 <= j < k ==> attrs[j] is Some && attrs[j].unwrap().0 != id@,
                None => forall|j: int| 0 <= j < attrs.len() ==> attrs[j] is Some && attrs[j].unwrap().0 != id@,
            },
        decreases e.attributes@.len() - i,
    {
        assert(attrs[i as int] == attribute_view(e.attributes@[i as int]));
        match &e.attributes[i] {
            None => {
                proof {
                    let k = attribute_position(attrs, id@);
                    if k is Some {
                        assert(!(k.unwrap() < i));
                        assert(!(k.unwrap() > i));
                    }
                }
                return Err(AttributeError::Malformed);
            },
            Some(a) => {
                if str_eq(a.key.as_str(), id) {
                    proof {
                        let k = attribute_position(attrs, id@);
                        if k is Some {
                            assert(!(k.unwrap() < i));
                            assert(!(k.unwrap() > i));
                        }
                    }
                    return match &a.value {
                        Some(v) => Ok(Some(v.clone())),
                        None => Err(AttributeError::Unescape),
                    };
                }
            },
        }
        i = i + 1;
    }
    proof {
        let k = attribute_position(attrs, id@);
        if k is Some {
            let q = k.unwrap();
            assert(attrs[q] is Some);
        }
    }
    Ok(None)
}


pub const INKSPACE_LABEL: &'static str = "inkscape:label";

pub const SODIPODI_SIDES: &'static str = "sodipodi:sides";

pub const SODIPODI_CX: &'static str = "sodipodi:cx";

pub const SODIPODI_CY: &'static str = "sodipodi:cy";

/// The value of a required attribute, or the error reading it gives:
/// `Attribute` when it cannot be read, `MissingAttribute` when it is
/// missing.
pub open spec fn spec_required_attribute(e: ElementView, key: Seq<char>) -> Result<Seq<char>, MapErrorView> {
    match spec_attribute(e, key) {
        Ok(Some(v)) => Ok(v),
        Ok(None) => Err(MapErrorView::MissingAttribute(key)),
        Err(a) => Err(MapErrorView::Attribute(key, a)),
    }
}

/// Reads a required attribute (see `spec_required_attribute`).
pub fn required_attribute(e: &XmlElement, key: &str) -> (res: Result<String, MapError>)
    ensures
        match res {
            Ok(v) => spec_required_attribute(element_view(*e), key@) == Ok::<Seq<char>, MapErrorView>(v@),
            Err(err) => spec_required_attribute(element_view(*e), key@) == Err::<Seq<char>, MapErrorView>(
                map_error_view(err),
            ),
        },
{
    match get_attribute(e, key) {
        Ok(Some(v)) => Ok(v),
        Ok(None) => Err(MapError::MissingAttribute(String::from_str(key))),
        Err(a) => Err(MapError::Attribute(String::from_str(key), a)),
    }
}

/// The `id` of an element.
pub fn get_id(e: &XmlElement) -> (res: Result<String, MapError>)
    ensures
        match res {
            Ok(v) => spec_required_attribute(element_view(*e), "id"@) == Ok::<Seq<char>, MapErrorView>(v@),
            Err(err) => spec_required_attribute(element_view(*e), "id"@) == Err::<Seq<char>, MapErrorView>(
                map_error_view(err),
            ),
        },
{
    required_attribute(e, "id")
}

/// The Inkscape label of an element.
pub fn get_inkspace_label(e: &XmlElement) -> (res: Result<String, MapError>)
    ensures
        match res {
            Ok(v) => spec_required_attribute(element_view(*e), INKSPACE_LABEL@) == Ok::<Seq<char>, MapErrorView>(
                v@,
            ),
            Err(err) => spec_required_attribute(element_view(*e), INKSPACE_LABEL@) == Err::<
                Seq<char>,
                MapErrorView,
            >(map_error_view(err)),
        },
{
    required_attribute(e, INKSPACE_LABEL)
}

/// The colours of the map and the power each stands for (`None` for the
/// neutral colours). Colours differ.
pub type ColorTable = Vec<(String, Option<Arc<PlayerInfo>>)>;

/// The position of a colour in a colour table.
pub open spec fn color_position(t: Seq<(String, Option<Arc<PlayerInfo>>)>, color: Seq<char>) -> Option<int>
    decreases t.len(),
{
    if t.len() == 0 {
        None
    } else if t[0].0@ == color {
        Some(0)
    } else {
        match color_position(t.drop_first(), color) {
            Some(i) => Some(i + 1),
            None => None,
        }
    }
}

pub proof fn lemma_color_position(t: Seq<(String, Option<Arc<PlayerInfo>>)>, color: Seq<char>)
    ensures
        match color_position(t, color) {
            Some(i) => 0 <= i < t.len() && t[i].0@ == color && forall|j: int| 0 <= j < i ==> t[j].0@ != color,
            None => forall|j: int| 0 <= j < t.len() ==> t[j].0@ != color,
        },
    decreases t.len(),
{
    if t.len() > 0 && t[0].0@ != color {
        lemma_color_position(t.drop_first(), color);
        assert forall|j: int| 1 <= j < t.len() implies t[j] == t.drop_first()[j - 1] by {}
    }
}

/// The power whose colour fills an element: none when the element has no
/// style, the style no fill, or the fill colour is not a power's.
pub open spec fn spec_get_player(e: ElementView, t: Seq<(String, Option<Arc<PlayerInfo>>)>) -> Result<Option<Arc<PlayerInfo>>, AttributeError> {
    match spec_attribute(e, "style"@) {
        Err(a) => Err(a),
        Ok(None) => Ok(None),
        Ok(Some(style)) => match spec_fill_color(style) {
            None => Ok(None),
            Some(c) => match color_position(t, c) {
                None => Ok(None),
                Some(i) => Ok(t[i].1),
            },
        },
    }
}

/// The power filling an element, or the error reading its style gives.
pub open spec fn player_result(e: ElementView, t: Seq<(String, Option<Arc<PlayerInfo>>)>) -> Result<
    Option<Arc<PlayerInfo>>,
    MapErrorView,
> {
    match spec_get_player(e, t) {
        Ok(p) => Ok(p),
        Err(a) => Err(MapErrorView::Attribute("style"@, a)),
    }
}

/// The position of a colour in a colour table.
pub fn find_color(t: &ColorTable, color: &str) -> (res: Option<usize>)
    ensures
        match res {
            Some(i) => color_position(t@, color@) == Some(i as int),
            None => color_position(t@, color@) is None,
        },
{
    proof {
        lemma_color_position(t@, color@);
    }
    let mut i: usize = 0;
    while i < t.len()
        invariant
            i <= t@.len(),
            forall|j: int| 0 <= j < i ==> t@[j].0@ != color@,
            match color_position(t@, color@) {
                Some(k) => 0 <= k < t@.len() && t@[k].0@ == color@ && forall|j: int| 0 <= j < k ==> t@[j].0@ != color@,
                None => forall|j: int| 0 <= j < t@.len() ==> t@[j].0@ != color@,
            },
        decreases t@.len() - i,
    {
        if str_eq(t[i].0.as_str(), color) {
            proof {
                let k = color_position(t@, color@);
                if k is Some {
                    assert(!(k.unwrap() < i));
                    assert(!(k.unwrap() > i));
                }
            }
            return Some(i);
        }
        i = i + 1;
    }
    None
}

/// The power whose colour fills an element (see `spec_get_player`); an
/// unreadable style is an error.
pub fn get_player(e: &XmlElement, color_to_player: &ColorTable) -> (res: Result<Option<Arc<PlayerInfo>>, MapError>)
    ensures
        match res {
            Ok(p) => spec_get_player(element_view(*e), color_to_player@) == Ok::<Option<Arc<PlayerInfo>>, AttributeError>(p),
            Err(err) => spec_get_player(element_view(*e), color_to_player@) is Err && err is Attribute
                && err->Attribute_0@ == "style"@ && spec_get_player(element_view(*e), color_to_player@) == Err::<Option<Arc<PlayerInfo>>, AttributeError>(err->Attribute_1),
        },
        match res {
            Ok(p) => player_result(element_view(*e), color_to_player@) == Ok::<
                Option<Arc<PlayerInfo>>,
                MapErrorView,
            >(p),
            Err(err) => player_result(element_view(*e), color_to_player@) == Err::<
                Option<Arc<PlayerInfo>>,
                MapErrorView,
            >(map_error_view(err)),
        },
{
    let style = match get_attribute(e, "style") {
        Err(a) => {
            return Err(MapError::Attribute(String::from_str("style"), a));
        },
        Ok(None) => {
            return Ok(None);
        },
        Ok(Some(s)) => s,
    };
    let fill = match get_fill_color(style.as_str()) {
        None => {
            return Ok(None);
        },
        Some(f) => f,
    };
    proof {
        lemma_color_position(color_to_player@, fill@);
    }
    match find_color(color_to_player, fill) {
        None => Ok(None),
        Some(i) => match &color_to_player[i].1 {
            Some(p) => Ok(Some(arc_clone(p))),
            None => Ok(None),
        },
    }
}

} // verus!
