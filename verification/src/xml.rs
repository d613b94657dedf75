//! A document of markup as the list of its edges, and the text that is
//! left of it when the white space around its texts is taken away.

use vstd::prelude::*;
use vstd::string::*;

verus! {

/// `roxmltree::Document`, a parsed document. Nothing is known of what is
/// in it but through [`document_edges`].
#[verifier::external_type_specification]
#[verifier::external_body]
pub struct ExDocument<'input>(roxmltree::Document<'input>);

/// `roxmltree::Error`, why a text did not parse. Nothing is known of what
/// is in it.
#[verifier::external_type_specification]
#[verifier::external_body]
pub struct ExParseError(roxmltree::Error);

/// The five kinds of node of a document.
#[derive(Clone, Copy, Debug, PartialEq, Eq, Structural)]
pub enum NodeKind {
    Root,
    Element,
    Pi,
    Comment,
    Text,
}

/// One step of a walk through a document: a node is entered (`open`) or
/// left. Of the node it holds the kind, the local tag name (empty but for
/// an element) and the text (of a text or a comment its own, of an element
/// that of a first child that is a text).
#[derive(Debug)]
pub struct XmlEdge {
    pub open: bool,
    pub kind: NodeKind,
    pub tag: String,
    pub text: Option<String>,
}

/// What an [`XmlEdge`] is.
pub struct XmlEdgeView {
    pub open: bool,
    pub kind: NodeKind,
    pub tag: Seq<char>,
    pub text: Option<Seq<char>>,
}

/// What an optional text is.
pub open spec fn text_view(text: Option<String>) -> Option<Seq<char>> {
    match text {
        Some(t) => Some(t@),
        None => None,
    }
}

impl View for XmlEdge {
    type V = XmlEdgeView;

    open spec fn view(&self) -> XmlEdgeView {
        XmlEdgeView {
            open: self.open,
            kind: self.kind,
            tag: self.tag@,
            text: text_view(self.text),
        }
    }
}

/// The edges of a list, each as what it is.
pub open spec fn edge_views(edges: Seq<XmlEdge>) -> Seq<XmlEdgeView> {
    edges.map_values(|e: XmlEdge| e@)
}

/// What a parsed document holds: its edges, in the order in which a walk
/// from its root hands them out.
pub uninterp spec fn document_edges(document: &roxmltree::Document) -> Seq<XmlEdgeView>;

/// The edges of the document that a text parses to, where it parses.
pub uninterp spec fn parsed_edges(text: Seq<char>) -> Option<Seq<XmlEdgeView>>;

/// The bytes of `<!ENTITY`, with which a text declares an entity.
pub open spec fn entity_mark() -> Seq<u8> {
    seq![60u8, 33u8, 69u8, 78u8, 84u8, 73u8, 84u8, 89u8]
}

/// Whether the mark stands in the bytes at place `i`.
pub open spec fn mark_at(bytes: Seq<u8>, i: int) -> bool {
    0 <= i && i + 8 <= bytes.len() && bytes.subrange(i, i + 8) == entity_mark()
}

/// Whether the text declares an entity: its bytes hold `<!ENTITY`
/// somewhere, be it in a comment.
pub open spec fn declares_entity(text: Seq<char>) -> bool {
    exists|i: int| mark_at(vstd::utf8::encode_utf8(text), i)
}

/// Whether the text declares an entity.
pub fn has_entity_declaration(text: &str) -> (yes: bool)
    ensures
        yes == declares_entity(text@),
{
    let bytes = text.as_bytes();
    let ghost all = bytes@;
    let mut i: usize = 0;
    while i < bytes.len() && bytes.len() - i >= 8
        invariant
            i <= bytes.len(),
            all == bytes@,
            all == vstd::utf8::encode_utf8(text@),
            forall|j: int| 0 <= j < i ==> !mark_at(all, j),
        decreases bytes.len() - i,
    {
        if bytes[i] == 60 && bytes[i + 1] == 33 && bytes[i + 2] == 69 && bytes[i + 3] == 78
            && bytes[i + 4] == 84 && bytes[i + 5] == 73 && bytes[i + 6] == 84 && bytes[i + 7]
            == 89 {
            assert(all.subrange(i as int, i + 8) =~= entity_mark());
            assert(mark_at(all, i as int));
            return true;
        }
        proof {
            if mark_at(all, i as int) {
                let part = all.subrange(i as int, i + 8);
                assert(part[0] == 60 && part[1] == 33 && part[2] == 69 && part[3] == 78
                    && part[4] == 84 && part[5] == 73 && part[6] == 84 && part[7] == 89);
            }
        }
        i = i + 1;
    }
    false
}

/// `roxmltree::Document::parse`. The contract claims that parsing depends
/// on the text alone: the same text always fails, or always gives a
/// document with the same edges. A text that declares an entity is left
/// out: the value of an entity is parsed as a piece of its own, and one
/// that closes more elements than it opens brings the parser to a place
/// that it holds for unreachable.
#[verifier::external_body]
pub(crate) fn parse_document(text: &str) -> (parsed: Result<roxmltree::Document, roxmltree::Error>)
    requires
        !declares_entity(text@),
    ensures
        match parsed {
            Ok(document) => parsed_edges(text@) == Some(document_edges(&document)),
            Err(_) => parsed_edges(text@) is None,
        },
{
    roxmltree::Document::parse(text)
}

/// `roxmltree::Node::traverse` from `roxmltree::Document::root`, each edge
/// with the node's `node_type`, `tag_name().name()` and `text()`. The
/// contract claims that the list handed back holds the document's edges in
/// their order, and nothing of what they are.
#[verifier::external_body]
pub(crate) fn edges_of_document(document: &roxmltree::Document) -> (edges: Vec<XmlEdge>)
    ensures
        edge_views(edges@) == document_edges(document),
{
    document.root().traverse().map(|edge| match edge {
        roxmltree::Edge::Open(node) => (true, node),
        roxmltree::Edge::Close(node) => (false, node),
    }).map(|(open, node)| XmlEdge {
        open,
        kind: match node.node_type() {
            roxmltree::NodeType::Root => NodeKind::Root,
            roxmltree::NodeType::Element => NodeKind::Element,
            roxmltree::NodeType::PI => NodeKind::Pi,
            roxmltree::NodeType::Comment => NodeKind::Comment,
            roxmltree::NodeType::Text => NodeKind::Text,
        },
        tag: node.tag_name().name().to_string(),
        text: node.text().map(String::from),
    }).collect()
}

/// Whether the character is white space: one of the code points that
/// Unicode calls White_Space.
pub open spec fn is_white_space(c: char) -> bool {
    let code = c as u32;
    ||| 0x09 <= code <= 0x0d
    ||| code == 0x20
    ||| code == 0x85
    ||| code == 0xa0
    ||| code == 0x1680
    ||| 0x2000 <= code <= 0x200a
    ||| code == 0x2028
    ||| code == 0x2029
    ||| code == 0x202f
    ||| code == 0x205f
    ||| code == 0x3000
}

/// The text without the white space at its start.
pub open spec fn trim_start(text: Seq<char>) -> Seq<char>
    decreases text.len(),
{
    if text.len() > 0 && is_white_space(text.first()) {
        trim_start(text.drop_first())
    } else {
        text
    }
}

/// The text without the white space at its end.
pub open spec fn trim_end(text: Seq<char>) -> Seq<char>
    decreases text.len(),
{
    if text.len() > 0 && is_white_space(text.last()) {
        trim_end(text.drop_last())
    } else {
        text
    }
}

/// The text without the white space at its start and at its end.
pub open spec fn trimmed(text: Seq<char>) -> Seq<char> {
    trim_end(trim_start(text))
}

/// Taking the white space at the start away leaves the text from its first
/// other character on.
pub proof fn lemma_trim_start(text: Seq<char>, from: int)
    requires
        0 <= from <= text.len(),
        forall|i: int| 0 <= i < from ==> is_white_space(#[trigger] text[i]),
        from < text.len() ==> !is_white_space(text[from]),
    ensures
        trim_start(text) == text.skip(from),
    decreases from,
{
    if from == 0 {
        assert(text.skip(0) =~= text);
    } else {
        let rest = text.drop_first();
        assert forall|i: int| 0 <= i < from - 1 implies is_white_space(#[trigger] rest[i]) by {
            assert(rest[i] == text[i + 1]);
        }
        lemma_trim_start(rest, from - 1);
        assert(rest.skip(from - 1) =~= text.skip(from));
    }
}

/// Taking the white space at the end away leaves the text up to its last
/// other character.
pub proof fn lemma_trim_end(text: Seq<char>, to: int)
    requires
        0 <= to <= text.len(),
        forall|i: int| to <= i < text.len() ==> is_white_space(#[trigger] text[i]),
        to > 0 ==> !is_white_space(text[to - 1]),
    ensures
        trim_end(text) == text.take(to),
    decreases text.len() - to,
{
    if to == text.len() {
        assert(text.take(to) =~= text);
    } else {
        let rest = text.drop_last();
        lemma_trim_end(rest, to);
        assert(rest.take(to) =~= text.take(to));
    }
}

/// Whether the character is white space.
pub fn is_space(c: char) -> (yes: bool)
    ensures
        yes == is_white_space(c),
{
    let code = c as u32;
    (0x09 <= code && code <= 0x0d) || code == 0x20 || code == 0x85 || code == 0xa0 || code
        == 0x1680 || (0x2000 <= code && code <= 0x200a) || code == 0x2028 || code == 0x2029
        || code == 0x202f || code == 0x205f || code == 0x3000
}

/// The text without the white space at its start and at its end.
pub fn trim_text(text: &str) -> (kept: &str)
    ensures
        kept@ == trimmed(text@),
{
    let mut index: usize = 0;
    let mut from: usize = 0;
    let mut to: usize = 0;
    let mut found = false;
    let total = text.unicode_len();
    proof {
        vstd::string::axiom_spec_iter(text);
    }
    for c in it: text.chars()
        invariant
            it.seq() == text@,
            index == it.index(),
            total == text@.len(),
            !found ==> from == 0 && to == 0 && forall|i: int|
                0 <= i < index ==> is_white_space(#[trigger] text@[i]),
            found ==> from < to <= index && !is_white_space(text@[from as int])
                && !is_white_space(text@[to - 1]) && (forall|i: int|
                0 <= i < from ==> is_white_space(#[trigger] text@[i])) && (forall|i: int|
                to <= i < index ==> is_white_space(#[trigger] text@[i])),
    {
        if !is_space(c) {
            if !found {
                from = index;
                found = true;
            }
            to = index + 1;
        }
        index = index + 1;
    }
    proof {
        if found {
            lemma_trim_start(text@, from as int);
            let rest = text@.skip(from as int);
            assert forall|i: int| to - from <= i < rest.len() implies is_white_space(
                #[trigger] rest[i],
            ) by {
                assert(rest[i] == text@[i + from]);
            }
            lemma_trim_end(rest, to - from);
            assert(rest.take(to - from) =~= text@.subrange(from as int, to as int));
        } else {
            lemma_trim_start(text@, text@.len() as int);
            assert(text@.skip(text@.len() as int) =~= Seq::<char>::empty());
            assert(text@.subrange(0, 0) =~= Seq::<char>::empty());
        }
    }
    text.substring_char(from, to)
}

/// What one edge leaves in the filtered text: a text that is entered its
/// trimmed text, an element its tag in angle brackets when it is entered
/// and with a slash when it is left, anything else nothing.
pub open spec fn edge_text(edge: XmlEdgeView) -> Seq<char> {
    match edge.kind {
        NodeKind::Text => match edge.text {
            Some(text) if edge.open => trimmed(text),
            _ => Seq::empty(),
        },
        NodeKind::Element => if edge.open {
            "<"@ + edge.tag + ">"@
        } else {
            "</"@ + edge.tag + ">"@
        },
        _ => Seq::empty(),
    }
}

/// The filtered text of a list of edges: what each edge leaves, in order.
pub open spec fn filtered_text(edges: Seq<XmlEdgeView>) -> Seq<char>
    decreases edges.len(),
{
    if edges.len() == 0 {
        Seq::empty()
    } else {
        filtered_text(edges.drop_last()) + edge_text(edges.last())
    }
}

/// The filtered text of a list of edges: the tags of its elements and the
/// trimmed texts between them, without attributes, comments or
/// instructions.
pub fn filter_edges(edges: &Vec<XmlEdge>) -> (buffer: String)
    ensures
        buffer@ == filtered_text(edge_views(edges@)),
{
    let mut buffer = String::new();
    let mut i: usize = 0;
    assert(edge_views(edges@).take(0) =~= Seq::<XmlEdgeView>::empty());
    while i < edges.len()
        invariant
            i <= edges.len(),
            buffer@ == filtered_text(edge_views(edges@).take(i as int)),
        decreases edges.len() - i,
    {
        let edge = &edges[i];
        let ghost before = buffer@;
        proof {
            assert(edge_views(edges@).take(i + 1).drop_last() =~= edge_views(edges@).take(
                i as int,
            ));
            assert(edge_views(edges@).take(i + 1).last() == edge@);
        }
        match edge.kind {
            NodeKind::Text => {
                if edge.open {
                    match &edge.text {
                        Some(text) => {
                            buffer.append(trim_text(text.as_str()));
                        },
                        None => {},
                    }
                }
            },
            NodeKind::Element => {
                if edge.open {
                    buffer.append("<");
                } else {
                    buffer.append("</");
                }
                buffer.append(edge.tag.as_str());
                buffer.append(">");
            },
            _ => {},
        }
        assert(buffer@ =~= before + edge_text(edge@));
        i = i + 1;
    }
    assert(edge_views(edges@).take(edges.len() as int) =~= edge_views(edges@));
    buffer
}

/// The filtered text of a document: the tags of its elements and the
/// trimmed texts between them.
pub fn filter_newlines(document: &roxmltree::Document) -> (buffer: String)
    ensures
        buffer@ == filtered_text(document_edges(document)),
{
    let edges = edges_of_document(document);
    filter_edges(&edges)
}

} // verus!
