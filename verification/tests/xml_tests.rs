use kitty_fs::fs::HelloFS;
use kitty_fs::ingest::{
    document_to_game_dir, filter_xml, game_dir_from_edges, game_dir_from_filtered,
    game_dir_from_xml, IngestError,
};
use kitty_fs::tree::GameDir;
use kitty_fs::xml::{
    filter_edges, filter_newlines, has_entity_declaration, is_space, trim_text, NodeKind, XmlEdge,
};
use kitty_fs::xml_tree::{parse_node_at, tree_of_edges, XmlNode};

const SAMPLE: &str = "<?xml version=\"1.0\"?>
<root kind=\"x\">
  <!-- a comment -->
  <cat>
     Tom
  </cat>
  <deep>
    <dog>Rex</dog>
    <empty/>
  </deep>
</root>
";

fn edge(open: bool, kind: NodeKind, tag: &str, text: Option<&str>) -> XmlEdge {
    XmlEdge { open, kind, tag: tag.to_string(), text: text.map(|t| t.to_string()) }
}

fn both(kind: NodeKind, tag: &str, text: Option<&str>) -> Vec<XmlEdge> {
    vec![edge(true, kind, tag, text), edge(false, kind, tag, text)]
}

fn shape(dir: &GameDir) -> String {
    let files: Vec<String> =
        dir.files.iter().map(|f| format!("{}#{}={:?}/{}", f.name, f.inode, f.content, f.life)).collect();
    let dirs: Vec<String> = dir.sub_dirs.iter().map(shape).collect();
    format!("{}#{}[{}][{}]", dir.name, dir.inode, files.join(","), dirs.join(","))
}

#[test]
fn white_space_is_what_std_calls_white_space() {
    for code in 0..=0x10ffffu32 {
        if let Some(c) = char::from_u32(code) {
            assert_eq!(is_space(c), c.is_whitespace(), "{:x}", code);
        }
    }
}

#[test]
fn trim_text_takes_white_space_from_both_ends() {
    assert_eq!(trim_text("  a b \n"), "a b");
    assert_eq!(trim_text("\n\n  \t"), "");
    assert_eq!(trim_text(""), "");
    assert_eq!(trim_text("x"), "x");
    assert_eq!(trim_text(" x"), "x");
    assert_eq!(trim_text("x "), "x");
    assert_eq!(trim_text("\u{3000}\u{2764} \u{2764}\u{a0}\u{2028}"), "\u{2764} \u{2764}");
    for s in ["\n a\nb \n", "\r\n\tTom\r\n", "a", " \u{85}\u{1680}z\u{205f}", "\n\n"] {
        assert_eq!(trim_text(s), s.trim_matches('\n').trim());
    }
}

#[test]
fn filter_newlines_keeps_tags_and_trimmed_texts() {
    let document = roxmltree::Document::parse(SAMPLE).unwrap();
    assert_eq!(
        filter_newlines(&document),
        "<root><cat>Tom</cat><deep><dog>Rex</dog><empty></empty></deep></root>"
    );
    let document = roxmltree::Document::parse("<a> x <b/> y </a>").unwrap();
    assert_eq!(filter_newlines(&document), "<a>x<b></b>y</a>");
}

#[test]
fn filter_edges_writes_what_each_edge_leaves() {
    let edges = vec![
        edge(true, NodeKind::Root, "", None),
        edge(true, NodeKind::Element, "a", Some(" x ")),
        edge(true, NodeKind::Text, "", Some(" x ")),
        edge(false, NodeKind::Text, "", Some(" x ")),
        edge(true, NodeKind::Comment, "", Some("c")),
        edge(false, NodeKind::Comment, "", Some("c")),
        edge(true, NodeKind::Pi, "", None),
        edge(false, NodeKind::Pi, "", None),
        edge(true, NodeKind::Text, "", None),
        edge(false, NodeKind::Element, "a", Some(" x ")),
        edge(false, NodeKind::Root, "", None),
    ];
    assert_eq!(filter_edges(&edges), "<a>x</a>");
    assert_eq!(filter_edges(&vec![]), "");
}

#[test]
fn a_document_becomes_a_tree_with_inodes_in_order() {
    let dir = game_dir_from_xml(SAMPLE).unwrap();
    assert_eq!(
        shape(&dir),
        "#1[][root#2[cat#3=\"Tom\"/5][deep#4[dog#5=\"Rex\"/5][empty#6[][]]]]"
    );
}

#[test]
fn each_directory_leaves_one_inode_out_behind_its_children() {
    let dir = game_dir_from_xml("<r><a><x>1</x></a><b>2</b><c><d/></c><e>3</e></r>").unwrap();
    assert_eq!(
        shape(&dir),
        "#1[][r#2[b#6=\"2\"/5,e#11=\"3\"/5][a#3[x#4=\"1\"/5][],c#7[][d#8[][]]]]"
    );
}

#[test]
fn an_element_that_starts_with_a_text_is_a_file_whatever_follows() {
    let dir = game_dir_from_xml("<r><a>text<b/>tail</a><c><d/>tail</c></r>").unwrap();
    assert_eq!(shape(&dir), "#1[][r#2[a#3=\"text\"/5][c#4[][d#5[][],#7[][]]]]");
}

#[test]
fn the_tree_of_a_document_mounts() {
    let dir = game_dir_from_xml(SAMPLE).unwrap();
    let fs = HelloFS::from_tree(&dir).unwrap();
    let text = String::from_utf8(fs.read(3, 0, u32::MAX).unwrap()).unwrap();
    assert!(text.starts_with("Hello StarCon!\nMy name is: Tom\n\nI NEED TO BE PETTED\n\nPlease send me 5 pets\n"));
    assert_eq!(fs.lookup(2, "cat"), fs.getattr(3));
    assert_eq!(fs.lookup(4, "dog"), fs.getattr(5));
}

#[test]
fn a_text_that_is_no_document_is_malformed() {
    assert_eq!(game_dir_from_xml("<a").err(), Some(IngestError::Malformed));
    assert_eq!(game_dir_from_xml("").err(), Some(IngestError::Malformed));
    assert_eq!(game_dir_from_xml("no markup at all").err(), Some(IngestError::Malformed));
    assert_eq!(game_dir_from_xml("<a></b>").err(), Some(IngestError::Malformed));
}

#[test]
fn a_text_with_markup_characters_does_not_survive_the_filter() {
    assert_eq!(game_dir_from_xml("<a>x &lt; y</a>").err(), Some(IngestError::Unfilterable));
}

#[test]
fn edges_that_are_no_walk_stand_for_no_tree() {
    let only_open = vec![edge(true, NodeKind::Root, "", None)];
    assert_eq!(game_dir_from_edges(&only_open).err(), Some(IngestError::NoTree));
    assert!(tree_of_edges(&only_open).is_none());
    assert_eq!(game_dir_from_edges(&vec![]).err(), Some(IngestError::NoTree));
    let only_close = vec![edge(false, NodeKind::Root, "", None)];
    assert_eq!(game_dir_from_edges(&only_close).err(), Some(IngestError::NoTree));
    let mut two = both(NodeKind::Element, "a", None);
    two.extend(both(NodeKind::Element, "b", None));
    assert_eq!(game_dir_from_edges(&two).err(), Some(IngestError::NoTree));
    let crossed = vec![
        edge(true, NodeKind::Element, "a", None),
        edge(true, NodeKind::Element, "b", None),
        edge(false, NodeKind::Element, "a", None),
        edge(false, NodeKind::Element, "b", None),
    ];
    assert_eq!(game_dir_from_edges(&crossed).err(), Some(IngestError::NoTree));
    let other_text = vec![
        edge(true, NodeKind::Element, "a", Some("x")),
        edge(false, NodeKind::Element, "a", Some("y")),
    ];
    assert_eq!(game_dir_from_edges(&other_text).err(), Some(IngestError::NoTree));
    let other_kind = vec![
        edge(true, NodeKind::Element, "a", None),
        edge(false, NodeKind::Comment, "a", None),
    ];
    assert_eq!(game_dir_from_edges(&other_kind).err(), Some(IngestError::NoTree));
}

#[test]
fn the_tree_of_edges_keeps_kinds_tags_texts_and_order() {
    let edges = vec![
        edge(true, NodeKind::Root, "", None),
        edge(true, NodeKind::Element, "a", Some("x")),
        edge(true, NodeKind::Text, "", Some("x")),
        edge(false, NodeKind::Text, "", Some("x")),
        edge(true, NodeKind::Element, "b", None),
        edge(false, NodeKind::Element, "b", None),
        edge(false, NodeKind::Element, "a", Some("x")),
        edge(true, NodeKind::Comment, "", Some("c")),
        edge(false, NodeKind::Comment, "", Some("c")),
        edge(false, NodeKind::Root, "", None),
    ];
    let tree = tree_of_edges(&edges).unwrap();
    fn show(n: &XmlNode) -> String {
        let kids: Vec<String> = n.children.iter().map(show).collect();
        format!("{:?}:{}:{:?}({})", n.kind, n.tag, n.text, kids.join(" "))
    }
    assert_eq!(
        show(&tree),
        "Root::None(Element:a:Some(\"x\")(Text::Some(\"x\")() Element:b:None()) Comment::Some(\"c\")())"
    );
    let (first, end) = parse_node_at(&edges, 1).unwrap();
    assert_eq!(end, 7);
    assert_eq!(first.tag, "a");
    assert!(parse_node_at(&edges, 3).is_none());
    assert!(parse_node_at(&edges, 10).is_none());
    assert_eq!(parse_node_at(&edges, 4).unwrap().1, 6);
}

#[test]
fn document_to_game_dir_counts_from_the_inode_handed_in() {
    let edges = vec![
        edge(true, NodeKind::Element, "r", None),
        edge(true, NodeKind::Element, "f", Some("one")),
        edge(true, NodeKind::Text, "", Some("one")),
        edge(false, NodeKind::Text, "", Some("one")),
        edge(false, NodeKind::Element, "f", Some("one")),
        edge(true, NodeKind::Root, "", None),
        edge(false, NodeKind::Root, "", None),
        edge(true, NodeKind::Element, "d", None),
        edge(false, NodeKind::Element, "d", None),
        edge(false, NodeKind::Element, "r", None),
    ];
    let tree = tree_of_edges(&edges).unwrap();
    let mut counter = 40u64;
    let dir = document_to_game_dir(&tree, &mut counter);
    assert_eq!(shape(&dir), "r#40[f#41=\"one\"/5][d#42[][]]");
    assert_eq!(counter, 45);
}

#[test]
fn a_text_declares_an_entity_where_it_holds_the_mark() {
    assert!(has_entity_declaration("<!ENTITY"));
    assert!(has_entity_declaration("<!DOCTYPE t [<!ENTITY p 'x'>]><r>&p;</r>"));
    assert!(has_entity_declaration("<r><!-- <!ENTITY --></r>"));
    assert!(has_entity_declaration("\u{2764}<!ENTITY"));
    assert!(!has_entity_declaration(""));
    assert!(!has_entity_declaration("<!ENTIT"));
    assert!(!has_entity_declaration("<!entity p 'x'>"));
    assert!(!has_entity_declaration("<! ENTITY p 'x'>"));
    assert!(!has_entity_declaration("<r>ENTITY</r>"));
    assert!(!has_entity_declaration(SAMPLE));
}

#[test]
fn a_text_that_declares_an_entity_is_not_read() {
    let closes_too_much = "<!DOCTYPE t [<!ENTITY p '<a/></r></x>'>]><r>&p;</r>";
    assert_eq!(game_dir_from_xml(closes_too_much).err(), Some(IngestError::DeclaresEntity));
    assert_eq!(filter_xml(closes_too_much).err(), Some(IngestError::DeclaresEntity));
    let harmless = "<!DOCTYPE t [<!ENTITY p 'x'>]><r>&p;</r>";
    assert_eq!(game_dir_from_xml(harmless).err(), Some(IngestError::DeclaresEntity));
    assert_eq!(game_dir_from_filtered(closes_too_much).err(), Some(IngestError::Unfilterable));
}

#[test]
fn a_filtered_text_that_declares_an_entity_is_not_read() {
    let text = "<a>&lt;!ENTITY p 'x'&gt;</a>";
    assert_eq!(filter_xml(text).unwrap(), "<a><!ENTITY p 'x'></a>");
    assert_eq!(game_dir_from_xml(text).err(), Some(IngestError::Unfilterable));
}

#[test]
fn the_two_steps_make_the_whole() {
    let filtered = filter_xml(SAMPLE).unwrap();
    assert_eq!(filtered, "<root><cat>Tom</cat><deep><dog>Rex</dog><empty></empty></deep></root>");
    assert_eq!(
        shape(&game_dir_from_filtered(&filtered).unwrap()),
        shape(&game_dir_from_xml(SAMPLE).unwrap())
    );
    assert_eq!(filter_xml("<a").err(), Some(IngestError::Malformed));
    assert_eq!(game_dir_from_filtered("<a").err(), Some(IngestError::Unfilterable));
}
