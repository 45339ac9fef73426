//! Rendering a document as XML text
//!
//! A document is rendered as a declaration followed by its elements in
//! document order: an element without children as an empty tag, any other
//! element as a start tag, its children in order, and an end tag. The
//! events are computed here; `quick_xml` writes them, indented by four
//! spaces per level.

use vstd::prelude::*;
use vstd::utf8::{valid_utf8, decode_utf8};
use quick_xml::events::{BytesDecl, BytesEnd, BytesStart, Event};
use quick_xml::Writer;
use crate::errors::AxmlError;
use crate::parser::{Axml, ElementView, XmlNode, tree_wf};
use crate::unicode::string_from_utf8;

verus! {

/// The writer of quick_xml
#[verifier::external_type_specification]
#[verifier::external_body]
#[verifier::reject_recursive_types(W)]
pub struct ExWriter<W>(Writer<W>);

/// The I/O error of the standard library
#[verifier::external_type_specification]
#[verifier::external_body]
pub struct ExIoError(std::io::Error);

/// Something to write: the declaration, or a tag of an element
#[derive(Debug, Clone, Copy, PartialEq, Eq, Structural)]
pub enum XmlEvent {
    /// The XML declaration
    Decl,
    /// An element without children, as one tag
    Empty(XmlNode),
    /// The start tag of an element with children
    Start(XmlNode),
    /// The end tag of an element with children
    End(XmlNode),
}

/// The events of element `i` and everything in it
pub open spec fn element_events(nodes: Seq<ElementView>, i: int) -> Seq<XmlEvent>
    decreases nodes.len() - i, 1int, 0int,
{
    if 0 <= i < nodes.len() {
        if nodes[i].children.len() == 0 {
            seq![XmlEvent::Empty(i as XmlNode)]
        } else {
            seq![XmlEvent::Start(i as XmlNode)] + children_events(nodes, nodes[i].children, i)
                + seq![XmlEvent::End(i as XmlNode)]
        }
    } else {
        Seq::empty()
    }
}

/// The events of the children `cs` of element `parent`, in order
pub open spec fn children_events(nodes: Seq<ElementView>, cs: Seq<XmlNode>, parent: int) -> Seq<XmlEvent>
    decreases nodes.len() - parent, 0int, cs.len(),
{
    if cs.len() == 0 {
        Seq::empty()
    } else {
        let c = cs.last() as int;
        children_events(nodes, cs.drop_last(), parent) + (if parent < c < nodes.len() {
            element_events(nodes, c)
        } else {
            Seq::empty()
        })
    }
}

/// The number of events of the first `k` elements of `cs`
pub open spec fn events_before(nodes: Seq<ElementView>, cs: Seq<XmlNode>, k: nat) -> nat
    decreases k,
{
    if k == 0 {
        0
    } else {
        events_before(nodes, cs, (k - 1) as nat) + element_events(nodes, cs[k - 1] as int).len()
    }
}

/// The events of the first `m` children of element `i` are those of each
/// child in turn, in the order of the children list
proof fn lemma_children_events_in_order(nodes: Seq<ElementView>, i: int, m: nat)
    requires
        tree_wf(nodes),
        0 <= i < nodes.len(),
        m <= nodes[i].children.len(),
    ensures
        ({
            let cs = nodes[i].children;
            let ev = children_events(nodes, cs.take(m as int), i);
            &&& ev.len() == events_before(nodes, cs, m)
            &&& forall|k: int| 0 <= k < m ==> ev.subrange(events_before(nodes, cs, k as nat) as int,
                events_before(nodes, cs, (k + 1) as nat) as int) == #[trigger] element_events(nodes, cs[k] as int)
        }),
    decreases m,
{
    let cs = nodes[i].children;
    if m == 0 {
        assert(cs.take(0) =~= Seq::<XmlNode>::empty());
    } else {
        lemma_children_events_in_order(nodes, i, (m - 1) as nat);
        let prev = children_events(nodes, cs.take(m - 1), i);
        let c = cs[m - 1];
        assert(i < c < nodes.len());
        assert(cs.take(m as int).drop_last() =~= cs.take(m - 1));
        assert(cs.take(m as int).last() == c);
        let ev = children_events(nodes, cs.take(m as int), i);
        assert(ev == prev + element_events(nodes, c as int));
        assert forall|k: int| 0 <= k < m implies ev.subrange(events_before(nodes, cs, k as nat) as int,
            events_before(nodes, cs, (k + 1) as nat) as int) == #[trigger] element_events(nodes, cs[k] as int) by {
            if k < m - 1 {
                lemma_events_before_monotonic(nodes, cs, (k + 1) as nat, (m - 1) as nat);
                assert(prev.subrange(events_before(nodes, cs, k as nat) as int, events_before(nodes, cs, (k + 1) as nat) as int)
                    == element_events(nodes, cs[k] as int));
                assert(ev.subrange(events_before(nodes, cs, k as nat) as int, events_before(nodes, cs, (k + 1) as nat) as int)
                    =~= prev.subrange(events_before(nodes, cs, k as nat) as int, events_before(nodes, cs, (k + 1) as nat) as int));
            } else {
                assert(ev.subrange(prev.len() as int, ev.len() as int) =~= element_events(nodes, c as int));
            }
        }
    }
}

/// The counts of events grow along the children
proof fn lemma_events_before_monotonic(nodes: Seq<ElementView>, cs: Seq<XmlNode>, j: nat, k: nat)
    requires
        j <= k,
    ensures
        events_before(nodes, cs, j) <= events_before(nodes, cs, k),
    decreases k,
{
    if j < k {
        lemma_events_before_monotonic(nodes, cs, j, (k - 1) as nat);
    }
}

/// An element with children is rendered as its start tag, then each child
/// (everything in it) in the order of the children list, one right after
/// the other, then its end tag.
pub proof fn lemma_children_rendered_in_order(nodes: Seq<ElementView>, i: int)
    requires
        tree_wf(nodes),
        0 <= i < nodes.len(),
        nodes[i].children.len() > 0,
    ensures
        ({
            let cs = nodes[i].children;
            let e = element_events(nodes, i);
            &&& e.len() == events_before(nodes, cs, cs.len()) + 2
            &&& e[0] == XmlEvent::Start(i as XmlNode)
            &&& e.last() == XmlEvent::End(i as XmlNode)
            &&& forall|k: int| 0 <= k < cs.len() ==> e.subrange(1 + events_before(nodes, cs, k as nat) as int,
                1 + events_before(nodes, cs, (k + 1) as nat) as int) == #[trigger] element_events(nodes, cs[k] as int)
        }),
{
    let cs = nodes[i].children;
    lemma_children_events_in_order(nodes, i, cs.len());
    assert(cs.take(cs.len() as int) =~= cs);
    let ev = children_events(nodes, cs, i);
    let e = element_events(nodes, i);
    assert(e == seq![XmlEvent::Start(i as XmlNode)] + ev + seq![XmlEvent::End(i as XmlNode)]);
    assert forall|k: int| 0 <= k < cs.len() implies e.subrange(1 + events_before(nodes, cs, k as nat) as int,
        1 + events_before(nodes, cs, (k + 1) as nat) as int) == #[trigger] element_events(nodes, cs[k] as int) by {
        lemma_events_before_monotonic(nodes, cs, (k + 1) as nat, cs.len());
        assert(ev.subrange(events_before(nodes, cs, k as nat) as int, events_before(nodes, cs, (k + 1) as nat) as int)
            == element_events(nodes, cs[k] as int));
        assert(e.subrange(1 + events_before(nodes, cs, k as nat) as int, 1 + events_before(nodes, cs, (k + 1) as nat) as int)
            =~= ev.subrange(events_before(nodes, cs, k as nat) as int, events_before(nodes, cs, (k + 1) as nat) as int));
    }
}

/// Whether an event is about an element of a document of `len` elements
pub open spec fn event_in(e: XmlEvent, len: nat) -> bool {
    match e {
        XmlEvent::Empty(n) => n < len,
        XmlEvent::Start(n) => n < len,
        XmlEvent::End(n) => n < len,
        XmlEvent::Decl => true,
    }
}

/// The events of a document: the declaration, then the root and everything in it
pub open spec fn document_events(nodes: Seq<ElementView>) -> Seq<XmlEvent> {
    seq![XmlEvent::Decl] + element_events(nodes, 0)
}

/// Append the events of element `n` and everything in it
fn push_element_events(axml: &Axml, n: XmlNode, out: &mut Vec<XmlEvent>)
    requires
        n < axml@.len(),
    ensures
        final(out)@ == old(out)@ + element_events(axml@, n as int),
        forall|j: int| 0 <= j < final(out)@.len() ==> (j < old(out)@.len() && #[trigger] event_in(final(out)@[j], axml@.len()) == event_in(old(out)@[j], axml@.len()))
            || (j >= old(out)@.len() && event_in(final(out)@[j], axml@.len())),
    decreases axml@.len() - n,
{
    let element = axml.node(n);
    let children = element.children();
    if children.len() == 0 {
        out.push(XmlEvent::Empty(n));
        proof {
            assert(final(out)@ =~= old(out)@ + element_events(axml@, n as int));
        }
    } else {
        let ghost nodes = axml@;
        out.push(XmlEvent::Start(n));
        let ghost start = out@;
        let mut k: usize = 0;
        while k < children.len()
            invariant
                k <= children@.len(),
                nodes == axml@,
                tree_wf(nodes),
                n < nodes.len(),
                children@ == nodes[n as int].children,
                out@ == start + children_events(nodes, children@.take(k as int), n as int),
                start.len() == old(out)@.len() + 1,
                start.drop_last() == old(out)@,
                forall|j: int| 0 <= j < out@.len() ==> (j < old(out)@.len() && #[trigger] event_in(out@[j], axml@.len()) == event_in(old(out)@[j], axml@.len()))
                    || (j >= old(out)@.len() && event_in(out@[j], axml@.len())),
            decreases children.len() - k,
        {
            let c = children[k];
            proof {
                assert(n < nodes[n as int].children[k as int] < nodes.len());
                assert(children@.take(k + 1).drop_last() =~= children@.take(k as int));
            }
            push_element_events(axml, c, out);
            proof {
                assert(out@ =~= start + children_events(nodes, children@.take(k + 1), n as int));
            }
            k = k + 1;
        }
        out.push(XmlEvent::End(n));
        proof {
            assert(children@.take(children@.len() as int) =~= children@);
            assert(final(out)@ =~= old(out)@ + element_events(axml@, n as int));
        }
    }
}

/// A write made to an XML writer, as plain values: its kind (see
/// `decl_write`, `empty_write`, `start_write` and `end_write`), a name, and
/// attributes as key/value pairs in order
pub type XmlWrite = (u8, Seq<char>, Seq<(Seq<char>, Seq<char>)>);

/// The key `version`
pub open spec fn version_key() -> Seq<char> {
    seq!['v', 'e', 'r', 's', 'i', 'o', 'n']
}

/// The key `encoding`
pub open spec fn encoding_key() -> Seq<char> {
    seq!['e', 'n', 'c', 'o', 'd', 'i', 'n', 'g']
}

/// The XML declaration with this version and encoding
pub open spec fn decl_write(version: Seq<char>, encoding: Seq<char>) -> XmlWrite {
    (0u8, Seq::empty(), seq![(version_key(), version), (encoding_key(), encoding)])
}

/// An empty (self-closing) tag
pub open spec fn empty_write(name: Seq<char>, attributes: Seq<(Seq<char>, Seq<char>)>) -> XmlWrite {
    (1u8, name, attributes)
}

/// A start tag
pub open spec fn start_write(name: Seq<char>, attributes: Seq<(Seq<char>, Seq<char>)>) -> XmlWrite {
    (2u8, name, attributes)
}

/// An end tag
pub open spec fn end_write(name: Seq<char>) -> XmlWrite {
    (3u8, name, Seq::empty())
}

/// What a quick_xml writer over a byte buffer holds: the writes made to it
/// since it was made, in order. Every writer of this library is made by
/// `xml_writer_new`, over an empty buffer, and written only by the wrappers
/// below.
pub uninterp spec fn writer_writes(w: Writer<Vec<u8>>) -> Seq<XmlWrite>;

/// The indentation a quick_xml writer was made with: the indent character
/// and how many of them make one level
pub uninterp spec fn writer_indent(w: Writer<Vec<u8>>) -> (u8, usize);

/// The bytes that `quick_xml::Writer::into_inner` gives back for a writer
/// made over an empty buffer with indentation `indent` and given `writes`.
/// quick_xml's output depends on nothing else: each write appends the tag's
/// text (names as given, attribute values escaped), preceded, after the
/// first write, by a line break and the indentation of the current level.
pub uninterp spec fn xml_rendering(indent: (u8, usize), writes: Seq<XmlWrite>) -> Seq<u8>;

/// Calls `quick_xml::Writer::new_with_indent` on an empty buffer. The writer
/// holds no writes and keeps the indentation it is given. An indent
/// character that is not ASCII makes quick_xml panic when it indents.
#[verifier::external_body]
fn xml_writer_new(indent_char: u8, indent_size: usize) -> (w: Writer<Vec<u8>>)
    requires
        indent_char < 128,
    ensures
        writer_writes(w) == Seq::<XmlWrite>::empty(),
        writer_indent(w) == (indent_char, indent_size),
{
    Writer::new_with_indent(Vec::new(), indent_char, indent_size)
}

/// Calls `quick_xml::Writer::write_event` with the XML declaration of this
/// version and encoding. quick_xml fails only where the buffer does, and
/// writing into a `Vec<u8>` does not fail: the write succeeds and is added
/// to what the writer holds.
#[verifier::external_body]
fn xml_write_decl(writer: &mut Writer<Vec<u8>>, version: &str, encoding: &str) -> (r: std::io::Result<()>)
    ensures
        r is Ok,
        writer_writes(*final(writer)) == writer_writes(*old(writer)).push(decl_write(version@, encoding@)),
        writer_indent(*final(writer)) == writer_indent(*old(writer)),
{
    writer.write_event(Event::Decl(BytesDecl::new(version, Some(encoding), None)))
}

/// Calls `quick_xml::ElementWriter::write_empty` for an element with these
/// attributes, in order. The write succeeds (see `xml_write_decl`) and is
/// added to what the writer holds.
#[verifier::external_body]
fn xml_write_empty(writer: &mut Writer<Vec<u8>>, name: &str, attributes: &Vec<(String, String)>) -> (r: std::io::Result<()>)
    ensures
        r is Ok,
        writer_writes(*final(writer)) == writer_writes(*old(writer)).push(empty_write(name@, attributes.deep_view())),
        writer_indent(*final(writer)) == writer_indent(*old(writer)),
{
    writer
        .create_element(name)
        .with_attributes(attributes.iter().map(|(k, v)| (k.as_str(), v.as_str())))
        .write_empty()
        .map(|_| ())
}

/// Calls `quick_xml::Writer::write_event` with the start tag of an element
/// with these attributes, in order. The write succeeds (see
/// `xml_write_decl`) and is added to what the writer holds.
#[verifier::external_body]
fn xml_write_start(writer: &mut Writer<Vec<u8>>, name: &str, attributes: &Vec<(String, String)>) -> (r: std::io::Result<()>)
    ensures
        r is Ok,
        writer_writes(*final(writer)) == writer_writes(*old(writer)).push(start_write(name@, attributes.deep_view())),
        writer_indent(*final(writer)) == writer_indent(*old(writer)),
{
    writer.write_event(Event::Start(
        BytesStart::new(name).with_attributes(attributes.iter().map(|(k, v)| (k.as_str(), v.as_str()))),
    ))
}

/// Calls `quick_xml::Writer::write_event` with the end tag of an element.
/// The write succeeds (see `xml_write_decl`) and is added to what the
/// writer holds.
#[verifier::external_body]
fn xml_write_end(writer: &mut Writer<Vec<u8>>, name: &str) -> (r: std::io::Result<()>)
    ensures
        r is Ok,
        writer_writes(*final(writer)) == writer_writes(*old(writer)).push(end_write(name@)),
        writer_indent(*final(writer)) == writer_indent(*old(writer)),
{
    writer.write_event(Event::End(BytesEnd::new(name)))
}

/// Calls `quick_xml::Writer::into_inner`: the bytes written, named by
/// `xml_rendering` on the writer's indentation and writes.
#[verifier::external_body]
fn xml_writer_into_inner(writer: Writer<Vec<u8>>) -> (r: Vec<u8>)
    ensures
        r@ == xml_rendering(writer_indent(writer), writer_writes(writer)),
{
    writer.into_inner()
}

/// The version of the XML declaration: `1.0`
pub open spec fn xml_version() -> Seq<char> {
    seq!['1', '.', '0']
}

/// The encoding of the XML declaration: `utf-8`
pub open spec fn xml_encoding() -> Seq<char> {
    seq!['u', 't', 'f', '-', '8']
}

/// The write that an event of a document makes: the declaration of XML 1.0
/// in UTF-8, or a tag with the element's type and attributes
pub open spec fn event_write(nodes: Seq<ElementView>, e: XmlEvent) -> XmlWrite {
    match e {
        XmlEvent::Decl => decl_write(xml_version(), xml_encoding()),
        XmlEvent::Empty(n) => empty_write(nodes[n as int].element_type, nodes[n as int].attributes),
        XmlEvent::Start(n) => start_write(nodes[n as int].element_type, nodes[n as int].attributes),
        XmlEvent::End(n) => end_write(nodes[n as int].element_type),
    }
}

/// The writes that rendering a document makes, in order
pub open spec fn document_writes(nodes: Seq<ElementView>) -> Seq<XmlWrite> {
    document_events(nodes).map_values(|e: XmlEvent| event_write(nodes, e))
}

/// The bytes of a rendered document: its writes, indented by four spaces per level
pub open spec fn document_bytes(nodes: Seq<ElementView>) -> Seq<u8> {
    xml_rendering((32u8, 4usize), document_writes(nodes))
}

impl Axml {
    /// What rendering the document writes, in order
    pub fn xml_events(&self) -> (r: Vec<XmlEvent>)
        ensures
            r@ == document_events(self@),
            forall|j: int| 0 <= j < r@.len() ==> #[trigger] event_in(r@[j], self@.len()),
    {
        let mut out: Vec<XmlEvent> = Vec::new();
        out.push(XmlEvent::Decl);
        let root = self.root();
        push_element_events(self, root, &mut out);
        proof {
            assert(out@ =~= document_events(self@));
        }
        out
    }

    /// Convert the whole parsed XML into a string
    ///
    /// The document is written as the XML declaration followed by its
    /// elements (see `document_writes`), indented by four spaces per level;
    /// the text is those bytes, which fails only if they are not UTF-8.
    pub fn to_string(&self) -> (r: Result<String, AxmlError>)
        ensures
            r is Ok <==> valid_utf8(document_bytes(self@)),
            r matches Ok(text) ==> text@ == decode_utf8(document_bytes(self@)),
            r matches Err(e) ==> e == AxmlError::Utf8StrDecodeError,
    {
        let events = self.xml_events();
        let mut writer = xml_writer_new(32u8, 4);
        let ghost writes = document_writes(self@);
        let version = "1.0";
        let encoding = "utf-8";
        proof {
            reveal_strlit("1.0");
            reveal_strlit("utf-8");
            assert(version@ =~= xml_version());
            assert(encoding@ =~= xml_encoding());
            assert(writes.take(0) =~= Seq::<XmlWrite>::empty());
        }
        let mut k: usize = 0;
        while k < events.len()
            invariant
                k <= events@.len(),
                events@ == document_events(self@),
                writes == document_writes(self@),
                writes.len() == events@.len(),
                version@ == xml_version(),
                encoding@ == xml_encoding(),
                forall|j: int| 0 <= j < events@.len() ==> #[trigger] event_in(events@[j], self@.len()),
                writer_writes(writer) == writes.take(k as int),
                writer_indent(writer) == (32u8, 4usize),
            decreases events.len() - k,
        {
            proof {
                assert(event_in(events@[k as int], self@.len()));
                assert(writes[k as int] == event_write(self@, events@[k as int]));
                assert(writes.take(k + 1) =~= writes.take(k as int).push(writes[k as int]));
            }
            match events[k] {
                XmlEvent::Decl => {
                    let _ = xml_write_decl(&mut writer, version, encoding);
                },
                XmlEvent::Empty(n) => {
                    let element = self.node(n);
                    let _ = xml_write_empty(&mut writer, element.element_type(), element.attributes().entries());
                },
                XmlEvent::Start(n) => {
                    let element = self.node(n);
                    let _ = xml_write_start(&mut writer, element.element_type(), element.attributes().entries());
                },
                XmlEvent::End(n) => {
                    let _ = xml_write_end(&mut writer, self.node(n).element_type());
                },
            }
            k = k + 1;
        }
        proof {
            assert(writes.take(writes.len() as int) =~= writes);
        }
        let bytes = xml_writer_into_inner(writer);
        match string_from_utf8(bytes) {
            Some(text) => Ok(text),
            None => Err(AxmlError::Utf8StrDecodeError),
        }
    }
}

} // verus!
