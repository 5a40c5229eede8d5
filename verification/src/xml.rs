//! Subsonic XML bodies as lists of events. quick-xml reads a body into
//! events and parses the content of a tag; everything the proxy decides on
//! an XML body (which element it looks at, where entries are appended, what
//! is written back) is done here over those events, and new elements are
//! written as quick-xml's `BytesStart` and `Writer` write them.
use vstd::prelude::*;

use quick_xml::events::Event;
use quick_xml::{Reader, Writer};

use crate::text::{chars_of, extend_chars, str_eq};

verus! {

/// What an event is: a start tag, an empty (self-closing) tag, an end tag,
/// or anything else (text, comment, declaration, ...).
#[derive(Debug, Clone, Copy, PartialEq, Eq, Structural)]
pub enum XmlKind {
    Start,
    Empty,
    End,
    Other,
}

/// One event of a body. For a tag, `text` is its content between the
/// brackets (`song id="1"` for `<song id="1"/>`); for anything else it is
/// the event exactly as quick-xml's `Writer` writes it back.
#[derive(Debug)]
pub struct XmlEvent {
    pub kind: XmlKind,
    pub text: String,
}

/// A body that quick-xml's reader stopped on with an error.
#[derive(Debug, Clone, Copy, PartialEq, Eq)]
pub struct MalformedXml;

pub open spec fn event_view(e: XmlEvent) -> (XmlKind, Seq<char>) {
    (e.kind, e.text@)
}

pub open spec fn events_view(v: Seq<XmlEvent>) -> Seq<(XmlKind, Seq<char>)> {
    v.map_values(|e: XmlEvent| event_view(e))
}

/// The events quick-xml's `Reader` reads from `body`, in order, up to the
/// end of the input or the first error, and whether it stopped on an error.
pub uninterp spec fn xml_read(body: Seq<char>) -> (Seq<(XmlKind, Seq<char>)>, bool);

/// The local name of the tag whose content is `tag`, and its well-formed
/// attributes in order, each key with its unescaped value (`None` where the
/// value does not unescape), as quick-xml parses them.
pub uninterp spec fn xml_tag(tag: Seq<char>) -> (Seq<char>, Seq<(Seq<char>, Option<Seq<char>>)>);

pub open spec fn attrs_view(v: Seq<(String, Option<String>)>) -> Seq<(Seq<char>, Option<Seq<char>>)> {
    v.map_values(
        |a: (String, Option<String>)|
            (
                a.0@,
                match a.1 {
                    Some(s) => Some(s@),
                    None => None,
                },
            ),
    )
}

/// Reads `body` with quick-xml's `Reader` (its default configuration) until
/// the end of the input or the first error. Each tag comes back with its
/// kind and its content; any other event with the text quick-xml's
/// `Writer` writes for it. The contract names the result (`xml_read`): it
/// is a function of `body` alone.
#[verifier::external_body]
fn read_xml(body: &str) -> (r: (Vec<XmlEvent>, bool))
    ensures
        (events_view(r.0@), r.1) == xml_read(body@),
{
    let mut reader = Reader::from_str(body);
    let mut events = Vec::new();
    loop {
        let (kind, bytes) = match reader.read_event() {
            Ok(Event::Eof) => return (events, false),
            Err(_) => return (events, true),
            Ok(Event::Start(e)) => (XmlKind::Start, e.to_vec()),
            Ok(Event::Empty(e)) => (XmlKind::Empty, e.to_vec()),
            Ok(Event::End(e)) => (XmlKind::End, e.to_vec()),
            Ok(other) => (XmlKind::Other, { let mut w = Writer::new(vec![]); w.write_event(other).ok(); w.into_inner() }),
        };
        events.push(XmlEvent { kind, text: String::from_utf8_lossy(&bytes).into() });
    }
}

/// Parses the content `tag` of a tag with quick-xml, by reading `<tag/>`
/// back as one empty tag: its `local_name`, and its `attributes()` that are
/// well formed, each key with `unescape_value()` (`None` where that fails).
/// The contract names the result (`xml_tag`): it is a function of `tag`
/// alone.
#[verifier::external_body]
fn read_tag(tag: &str) -> (r: (String, Vec<(String, Option<String>)>))
    ensures
        (r.0@, attrs_view(r.1@)) == xml_tag(tag@),
{
    let wrapped = format!("<{}/>", tag);
    let mut reader = Reader::from_str(&wrapped);
    match reader.read_event() {
        Ok(Event::Empty(e)) => (
            String::from_utf8_lossy(e.local_name().as_ref()).into_owned(),
            e.attributes().flatten().map(|a| (String::from_utf8_lossy(a.key.as_ref()).into_owned(), a.unescape_value().ok().map(|v| v.into_owned()))).collect(),
        ),
        _ => (String::new(), Vec::new()),
    }
}

pub open spec fn escape_char(c: char) -> Seq<char> {
    if c == '<' {
        seq!['&', 'l', 't', ';']
    } else if c == '>' {
        seq!['&', 'g', 't', ';']
    } else if c == '&' {
        seq!['&', 'a', 'm', 'p', ';']
    } else if c == '\'' {
        seq!['&', 'a', 'p', 'o', 's', ';']
    } else if c == '"' {
        seq!['&', 'q', 'u', 'o', 't', ';']
    } else {
        seq![c]
    }
}

/// `s` with `<`, `>`, `&`, `'` and `"` replaced by their entities.
pub open spec fn escaped(s: Seq<char>) -> Seq<char>
    decreases s.len(),
{
    if s.len() == 0 {
        Seq::empty()
    } else {
        escaped(s.drop_last()) + escape_char(s.last())
    }
}

/// quick-xml's `escape`, which replaces `<`, `>`, `&`, `'` and `"` by
/// `&lt;`, `&gt;`, `&amp;`, `&apos;` and `&quot;` and keeps every other
/// character.
#[verifier::external_body]
fn xml_escape(s: &str) -> (r: String)
    ensures
        r@ == escaped(s@),
{
    quick_xml::escape::escape(s).into_owned()
}

// ------------------------------------------------------------ writing

/// An attribute as `BytesStart::push_attribute` adds it to a tag: a space,
/// the key, `="`, the escaped value and `"`.
pub open spec fn attr_text(key: Seq<char>, value: Seq<char>) -> Seq<char> {
    seq![' '] + key + seq!['=', '"'] + escaped(value) + seq!['"']
}

pub open spec fn opt_attr_text(key: Seq<char>, value: Option<Seq<char>>) -> Seq<char> {
    match value {
        Some(v) => attr_text(key, v),
        None => Seq::empty(),
    }
}

pub open spec fn opt_seq(o: Option<String>) -> Option<Seq<char>> {
    match o {
        Some(s) => Some(s@),
        None => None,
    }
}

/// An event as quick-xml's `Writer` writes it.
pub open spec fn written(kind: XmlKind, text: Seq<char>) -> Seq<char> {
    match kind {
        XmlKind::Start => seq!['<'] + text + seq!['>'],
        XmlKind::Empty => seq!['<'] + text + seq!['/', '>'],
        XmlKind::End => seq!['<', '/'] + text + seq!['>'],
        XmlKind::Other => text,
    }
}

/// Add an attribute to the content of a tag (see `attr_text`).
pub fn push_attr(tag: &mut Vec<char>, key: &str, value: &str)
    ensures
        final(tag)@ == old(tag)@ + attr_text(key@, value@),
{
    tag.push(' ');
    extend_chars(tag, chars_of(key).as_slice());
    tag.push('=');
    tag.push('"');
    let e = xml_escape(value);
    extend_chars(tag, chars_of(e.as_str()).as_slice());
    tag.push('"');
    assert(final(tag)@ =~= old(tag)@ + attr_text(key@, value@));
}

/// Add an attribute when there is a value.
pub fn push_opt_attr(tag: &mut Vec<char>, key: &str, value: &Option<String>)
    ensures
        final(tag)@ == old(tag)@ + opt_attr_text(
            key@,
            match value {
                Some(v) => Some(v@),
                None => None,
            },
        ),
{
    match value {
        Some(v) => push_attr(tag, key, v.as_str()),
        None => {
            assert(final(tag)@ =~= old(tag)@ + Seq::<char>::empty());
        },
    }
}

/// Write an event of kind `kind` with content (or text) `text`.
pub fn write_event(out: &mut Vec<char>, kind: XmlKind, text: &[char])
    ensures
        final(out)@ == old(out)@ + written(kind, text@),
{
    match kind {
        XmlKind::Start => {
            out.push('<');
            extend_chars(out, text);
            out.push('>');
        },
        XmlKind::Empty => {
            out.push('<');
            extend_chars(out, text);
            out.push('/');
            out.push('>');
        },
        XmlKind::End => {
            out.push('<');
            out.push('/');
            extend_chars(out, text);
            out.push('>');
        },
        XmlKind::Other => {
            extend_chars(out, text);
        },
    }
    assert(final(out)@ =~= old(out)@ + written(kind, text@));
}

// ------------------------------------------------------------ reading

pub open spec fn is_tag_open(k: XmlKind) -> bool {
    k == XmlKind::Start || k == XmlKind::Empty
}

/// The index of the first start or empty tag named `name` at or after `i`.
pub open spec fn first_open_from(evs: Seq<(XmlKind, Seq<char>)>, name: Seq<char>, i: int) -> Option<int>
    decreases evs.len() - i,
{
    if i < 0 || i >= evs.len() {
        None
    } else if is_tag_open(evs[i].0) && xml_tag(evs[i].1).0 == name {
        Some(i)
    } else {
        first_open_from(evs, name, i + 1)
    }
}

/// The index of the first start or empty tag named `name`.
pub open spec fn first_open(evs: Seq<(XmlKind, Seq<char>)>, name: Seq<char>) -> Option<int> {
    first_open_from(evs, name, 0)
}

/// The index of the first start or empty tag of `events` named `name`
/// (see `first_open`).
pub fn find_open(events: &Vec<XmlEvent>, name: &str) -> (r: Option<usize>)
    ensures
        match r {
            Some(i) => i < events@.len() && first_open(events_view(events@), name@) == Some(i as int),
            None => first_open(events_view(events@), name@) is None,
        },
{
    let ghost evs = events_view(events@);
    let mut i: usize = 0;
    while i < events.len()
        invariant
            i <= events@.len(),
            evs == events_view(events@),
            first_open_from(evs, name@, 0) == first_open_from(evs, name@, i as int),
        decreases events@.len() - i,
    {
        let e = &events[i];
        assert(evs[i as int] == (e.kind, e.text@));
        if e.kind == XmlKind::Start || e.kind == XmlKind::Empty {
            let (tag_name, _attrs) = read_tag(e.text.as_str());
            if str_eq(tag_name.as_str(), name) {
                return Some(i);
            }
        }
        i += 1;
    }
    None
}

/// The name and attributes of the tag whose content is `tag` (see
/// `xml_tag`).
pub fn tag_parts(tag: &str) -> (r: (String, Vec<(String, Option<String>)>))
    ensures
        (r.0@, attrs_view(r.1@)) == xml_tag(tag@),
{
    read_tag(tag)
}

/// The events of `body` and whether reading stopped on an error (see
/// `xml_read`).
pub fn read_events(body: &str) -> (r: (Vec<XmlEvent>, bool))
    ensures
        (events_view(r.0@), r.1) == xml_read(body@),
{
    read_xml(body)
}

/// The value of the last attribute keyed `key`, as the loops that assign
/// each matching attribute in turn leave it: `None` when no attribute has
/// that key.
pub open spec fn last_attr(attrs: Seq<(Seq<char>, Option<Seq<char>>)>, key: Seq<char>) -> Option<
    Option<Seq<char>>,
>
    decreases attrs.len(),
{
    if attrs.len() == 0 {
        None
    } else if attrs.last().0 == key {
        Some(attrs.last().1)
    } else {
        last_attr(attrs.drop_last(), key)
    }
}

/// The value of the last attribute keyed `key`, or the empty text when
/// there is none or it does not unescape.
pub open spec fn attr_or_empty(attrs: Seq<(Seq<char>, Option<Seq<char>>)>, key: Seq<char>) -> Seq<
    char,
> {
    match last_attr(attrs, key) {
        Some(Some(v)) => v,
        _ => Seq::empty(),
    }
}

fn copy_opt_string(o: &Option<String>) -> (r: Option<String>)
    ensures
        r == *o,
{
    match o {
        Some(s) => Some(s.clone()),
        None => None,
    }
}

/// The value of the last attribute keyed `key` (see `last_attr`).
pub fn last_attr_value(attrs: &Vec<(String, Option<String>)>, key: &str) -> (r: Option<Option<String>>)
    ensures
        match r {
            Some(Some(v)) => last_attr(attrs_view(attrs@), key@) == Some(Some(v@)),
            Some(None) => last_attr(attrs_view(attrs@), key@) == Some(None::<Seq<char>>),
            None => last_attr(attrs_view(attrs@), key@) is None,
        },
{
    let ghost av = attrs_view(attrs@);
    let mut found: Option<Option<String>> = None;
    let mut i: usize = 0;
    while i < attrs.len()
        invariant
            i <= attrs@.len(),
            av == attrs_view(attrs@),
            match found {
                Some(Some(v)) => last_attr(av.take(i as int), key@) == Some(Some(v@)),
                Some(None) => last_attr(av.take(i as int), key@) == Some(None::<Seq<char>>),
                None => last_attr(av.take(i as int), key@) is None,
            },
        decreases attrs@.len() - i,
    {
        proof {
            assert(av.take(i + 1).drop_last() =~= av.take(i as int));
            assert(av.take(i + 1).last() == av[i as int]);
        }
        if str_eq(attrs[i].0.as_str(), key) {
            found = Some(copy_opt_string(&attrs[i].1));
        }
        i += 1;
    }
    assert(av.take(attrs@.len() as int) =~= av);
    found
}

/// The value of the last attribute keyed `key`, or empty (see
/// `attr_or_empty`).
pub fn attr_text_or_empty(attrs: &Vec<(String, Option<String>)>, key: &str) -> (r: String)
    ensures
        r@ == attr_or_empty(attrs_view(attrs@), key@),
{
    match last_attr_value(attrs, key) {
        Some(Some(v)) => v,
        _ => String::new(),
    }
}

// ------------------------------------------------------------ injecting

/// What is written for one event when `payload` is appended inside the
/// element `container`: an empty container is opened, filled and closed; a
/// container's end tag gets the payload before it; and, while nothing was
/// appended yet, the response's end tag gets a new container (when
/// `create`) or nothing before it. The flag says whether something was
/// appended so far.
pub open spec fn inject_step(
    kind: XmlKind,
    text: Seq<char>,
    injected: bool,
    container: Seq<char>,
    payload: Seq<char>,
    create: bool,
) -> (Seq<char>, bool) {
    let name = xml_tag(text).0;
    if kind == XmlKind::Empty && name == container {
        (written(XmlKind::Start, text) + payload + written(XmlKind::End, container), true)
    } else if kind == XmlKind::End && name == container {
        (payload + written(XmlKind::End, text), true)
    } else if kind == XmlKind::End && name == "subsonic-response"@ && !injected {
        (
            (if create {
                written(XmlKind::Start, container) + payload + written(XmlKind::End, container)
            } else {
                Seq::empty()
            }) + written(XmlKind::End, text),
            true,
        )
    } else {
        (written(kind, text), injected)
    }
}

/// The text written for the first `n` events, and the flag after them.
pub open spec fn inject_prefix(
    evs: Seq<(XmlKind, Seq<char>)>,
    n: nat,
    container: Seq<char>,
    payload: Seq<char>,
    create: bool,
) -> (Seq<char>, bool)
    decreases n,
{
    if n == 0 || n > evs.len() {
        (Seq::empty(), false)
    } else {
        let prev = inject_prefix(evs, (n - 1) as nat, container, payload, create);
        let step = inject_step(evs[n - 1].0, evs[n - 1].1, prev.1, container, payload, create);
        (prev.0 + step.0, step.1)
    }
}

/// The body written back with `payload` appended inside `container`.
pub open spec fn injected_text(
    evs: Seq<(XmlKind, Seq<char>)>,
    container: Seq<char>,
    payload: Seq<char>,
    create: bool,
) -> Seq<char> {
    inject_prefix(evs, evs.len(), container, payload, create).0
}

/// Write `events` back with `payload` appended inside `container` (see
/// `injected_text`).
pub fn inject_events(events: &Vec<XmlEvent>, container: &str, payload: &[char], create: bool) -> (r:
    Vec<char>)
    ensures
        r@ == injected_text(events_view(events@), container@, payload@, create),
{
    let ghost evs = events_view(events@);
    let mut out: Vec<char> = Vec::new();
    let mut injected = false;
    let container_chars = chars_of(container);
    let mut i: usize = 0;
    while i < events.len()
        invariant
            i <= events@.len(),
            evs == events_view(events@),
            container_chars@ == container@,
            (out@, injected) == inject_prefix(evs, i as nat, container@, payload@, create),
        decreases events@.len() - i,
    {
        let e = &events[i];
        assert(evs[i as int] == (e.kind, e.text@));
        let ghost step = inject_step(e.kind, e.text@, injected, container@, payload@, create);
        let ghost before = out@;
        let text = chars_of(e.text.as_str());
        let mut handled = false;
        if e.kind == XmlKind::Empty || e.kind == XmlKind::End {
            let (tag_name, _attrs) = read_tag(e.text.as_str());
            if str_eq(tag_name.as_str(), container) {
                if e.kind == XmlKind::Empty {
                    write_event(&mut out, XmlKind::Start, text.as_slice());
                    extend_chars(&mut out, payload);
                    write_event(&mut out, XmlKind::End, container_chars.as_slice());
                } else {
                    extend_chars(&mut out, payload);
                    write_event(&mut out, XmlKind::End, text.as_slice());
                }
                injected = true;
                handled = true;
            } else if e.kind == XmlKind::End && !injected && str_eq(tag_name.as_str(), "subsonic-response") {
                if create {
                    write_event(&mut out, XmlKind::Start, container_chars.as_slice());
                    extend_chars(&mut out, payload);
                    write_event(&mut out, XmlKind::End, container_chars.as_slice());
                }
                write_event(&mut out, XmlKind::End, text.as_slice());
                injected = true;
                handled = true;
            }
        }
        if !handled {
            write_event(&mut out, e.kind, text.as_slice());
        }
        proof {
            assert(out@ =~= before + step.0);
        }
        i += 1;
    }
    out
}

/// The events written back one after another.
pub open spec fn written_all(evs: Seq<(XmlKind, Seq<char>)>) -> Seq<char>
    decreases evs.len(),
{
    if evs.len() == 0 {
        Seq::empty()
    } else {
        written_all(evs.drop_last()) + written(evs.last().0, evs.last().1)
    }
}

/// An event where injection acts: an empty or end tag named `container`,
/// or the end of the response.
pub open spec fn is_target(e: (XmlKind, Seq<char>), container: Seq<char>) -> bool {
    ||| (e.0 == XmlKind::Empty || e.0 == XmlKind::End) && xml_tag(e.1).0 == container
    ||| e.0 == XmlKind::End && xml_tag(e.1).0 == "subsonic-response"@
}

proof fn lemma_prefix_without_targets(
    evs: Seq<(XmlKind, Seq<char>)>,
    n: nat,
    container: Seq<char>,
    payload: Seq<char>,
    create: bool,
)
    requires
        n <= evs.len(),
        forall|i: int| 0 <= i < n ==> !is_target(#[trigger] evs[i], container),
    ensures
        inject_prefix(evs, n, container, payload, create) == (written_all(evs.take(n as int)), false),
    decreases n,
{
    if n > 0 {
        lemma_prefix_without_targets(evs, (n - 1) as nat, container, payload, create);
        assert(evs.take(n as int).drop_last() =~= evs.take(n - 1));
        assert(evs.take(n as int).last() == evs[n - 1]);
        assert(!is_target(evs[n - 1], container));
    } else {
        assert(evs.take(0) =~= Seq::<(XmlKind, Seq<char>)>::empty());
    }
}

/// A body with no element to append into and no end of response is written
/// back as read: for any events, container and payload, when no event is
/// an empty or end tag named `container` or the response's end tag, the
/// injected body is the events written back in order.
pub proof fn law_body_kept_without_targets(
    evs: Seq<(XmlKind, Seq<char>)>,
    container: Seq<char>,
    payload: Seq<char>,
    create: bool,
)
    requires
        forall|i: int| 0 <= i < evs.len() ==> !is_target(#[trigger] evs[i], container),
    ensures
        injected_text(evs, container, payload, create) == written_all(evs),
{
    lemma_prefix_without_targets(evs, evs.len(), container, payload, create);
    assert(evs.take(evs.len() as int) =~= evs);
}

/// Appended entries come after what the element already holds: when the
/// first place injection acts is the end tag of `container` at `k`, the
/// body up to that tag is everything before it written back, then the
/// payload, then the end tag.
pub proof fn law_payload_follows_existing(
    evs: Seq<(XmlKind, Seq<char>)>,
    k: int,
    container: Seq<char>,
    payload: Seq<char>,
    create: bool,
)
    requires
        0 <= k < evs.len(),
        forall|i: int| 0 <= i < k ==> !is_target(#[trigger] evs[i], container),
        evs[k].0 == XmlKind::End,
        xml_tag(evs[k].1).0 == container,
    ensures
        inject_prefix(evs, (k + 1) as nat, container, payload, create).0 == written_all(evs.take(k))
            + payload + written(XmlKind::End, evs[k].1),
{
    lemma_prefix_without_targets(evs, k as nat, container, payload, create);
}

} // verus!
