//! Tests of the parts, on values written out by hand.

use gqls::body::{Diagnostic, DiagnosticKind, Severity};
use gqls::db::resolve_among;
use gqls::diagnostics::{collect_errors, sort};
use gqls::ir::{
    DirectiveLocation, DirectiveLocations, FileId, ItemKind, ItemRes, Name, TypeDefinitionKind,
};
use gqls::item_map::item_map;
use gqls::lower::{lower_file, lower_locations, lower_name, lower_name_of, ItemCtxt};
use gqls::source::{all_files, contains_file, insert_sorted, neighborhood, Project};
use gqls::syntax::{FieldLabel, NodeKind, Point, Range, SyntaxNode, SyntaxTree};
use gqls::text::{parse_i32, slice, starts_with_sigil, str_eq, trim_quotes, with_sigil};
use gqls::tokens::{
    classify_node, encode, semantic_tokens, Token, TokenDelta, TokenType, DEFINITION,
};

/// A node on the first line of a text, from one byte to another.
fn node(kind: NodeKind, named: bool, from: usize, to: usize, children: Vec<SyntaxNode>) -> SyntaxNode {
    SyntaxNode {
        kind,
        label: FieldLabel::Unlabelled,
        named,
        extra: false,
        range: range(from, to),
        children,
    }
}

fn range(from: usize, to: usize) -> Range {
    Range {
        start_byte: from,
        end_byte: to,
        start_point: Point { row: 0, column: from as u32 },
        end_point: Point { row: 0, column: to as u32 },
    }
}

fn at(column: u32) -> Point {
    Point { row: 0, column }
}

fn kinds(nodes: &[&SyntaxNode]) -> Vec<NodeKind> {
    nodes.iter().map(|n| n.kind).collect()
}

/// `type Foo implements A & B @d` as a root-level item, in the text given.
fn object_item() -> (&'static str, SyntaxNode) {
    let text = "type Foo implements A & B @d";
    let name = node(NodeKind::Name, true, 5, 8, vec![]);
    let implements = node(
        NodeKind::ImplementsInterfaces,
        true,
        9,
        25,
        vec![
            node(NodeKind::Other, false, 9, 19, vec![]),
            node(NodeKind::NamedType, true, 20, 21, vec![]),
            node(NodeKind::Other, false, 22, 23, vec![]),
            node(NodeKind::NamedType, true, 24, 25, vec![]),
        ],
    );
    let directive = node(
        NodeKind::Directive,
        true,
        26,
        28,
        vec![node(NodeKind::Other, false, 26, 27, vec![]), node(NodeKind::Name, true, 27, 28, vec![])],
    );
    let directives = node(NodeKind::Directives, true, 26, 28, vec![directive]);
    let object = node(
        NodeKind::ObjectTypeDefinition,
        true,
        0,
        28,
        vec![node(NodeKind::Type, false, 0, 4, vec![]), name, implements, directives],
    );
    let definition = node(NodeKind::TypeDefinition, true, 0, 28, vec![object]);
    (text, node(NodeKind::Item, true, 0, 28, vec![definition]))
}

#[test]
fn points_are_ordered_by_row_then_column() {
    let a = Point::new(1, 5);
    assert_eq!((a.row, a.column), (1, 5));
    assert!(Point::new(0, 9).lt(&a));
    assert!(Point::new(1, 4).lt(&a));
    assert!(!a.lt(&a));
    assert!(a.le(&a));
    assert!(!Point::new(2, 0).le(&a));
    assert!(a < Point::new(1, 6));
}

#[test]
fn ranges_are_half_open() {
    let r = range(5, 8);
    assert!(!r.contains(at(4)));
    assert!(r.contains(at(5)));
    assert!(r.contains(at(7)));
    assert!(!r.contains(at(8)));
    assert!(!r.is_empty());
    assert!(range(3, 3).is_empty());
    assert!(r.encloses(&range(5, 8)));
    assert!(r.encloses(&range(6, 7)));
    assert!(!r.encloses(&range(4, 6)));
    let span = gqls::ide::Range::of(r);
    assert_eq!((span.start, span.end), (at(5), at(8)));
    assert!(span.contains(at(5)));
    assert!(!span.contains(at(8)));
}

#[test]
fn ranges_intersect_when_they_share_a_byte() {
    assert!(range(0, 5).intersects(range(4, 9)));
    assert!(range(4, 9).intersects(range(0, 5)));
    assert!(!range(0, 5).intersects(range(5, 9)));
    assert!(range(0, 9).intersects(range(3, 4)));
    assert!(!range(0, 9).intersects(range(3, 3)));
    assert!(!range(2, 2).intersects(range(0, 9)));
}

#[test]
fn node_kinds_have_the_names_of_their_symbols() {
    let names = [
        "document", "item", "type_definition", "type_extension", "directive_definition",
        "object_type_definition", "interface_type_definition", "scalar_type_definition",
        "enum_type_definition", "union_type_definition", "input_object_type_definition",
        "object_type_extension", "interface_type_extension", "scalar_type_extension",
        "enum_type_extension", "union_type_extension", "input_object_type_extension", "name",
        "directive_name", "description", "directives", "directive", "directive_locations",
        "directive_location", "implements_interfaces", "type", "named_type", "list_type",
        "non_null_type", "fields_definition", "field_definition", "arguments_definition",
        "input_fields_definition", "input_value_definition", "enum_values_definition",
        "enum_value_definition", "enum_value", "union_member_types", "default_value", "value",
        "string_value", "int_value", "float_value", "boolean_value", "null_value", "list_value",
        "object_value", "object_field", "comment", "ERROR", "ARGUMENT_DEFINITION", "ENUM",
        "ENUM_VALUE", "FIELD_DEFINITION", "INPUT_FIELD_DEFINITION", "INPUT_OBJECT", "INTERFACE",
        "OBJECT", "SCALAR", "SCHEMA", "UNION",
    ];
    let mut seen = Vec::new();
    for name in names {
        let kind = NodeKind::from_name(name);
        assert_ne!(kind, NodeKind::Other, "{name}");
        assert_eq!(kind.name(), name);
        assert!(!seen.contains(&kind));
        seen.push(kind);
    }
    assert_eq!(NodeKind::from_name("item"), NodeKind::Item);
    assert_eq!(NodeKind::from_name("ERROR"), NodeKind::Error);
    assert_eq!(NodeKind::from_name("QUERY"), NodeKind::Other);
    assert_eq!(NodeKind::from_name(""), NodeKind::Other);
    assert_eq!(NodeKind::from_name("Item"), NodeKind::Other);
    assert_eq!(FieldLabel::from_name(None), FieldLabel::Unlabelled);
    assert_eq!(FieldLabel::from_name(Some("location")), FieldLabel::Location);
    assert_eq!(FieldLabel::from_name(Some("name")), FieldLabel::Other);
}

#[test]
fn sole_named_child_ignores_error_nodes() {
    let anonymous = || node(NodeKind::Other, false, 0, 1, vec![]);
    let name = || node(NodeKind::Name, true, 1, 2, vec![]);
    let error = || node(NodeKind::Error, true, 2, 3, vec![]);
    let parent = |children| node(NodeKind::Item, true, 0, 9, children);

    assert!(parent(vec![]).sole_named_child().is_none());
    assert!(parent(vec![anonymous()]).sole_named_child().is_none());
    assert_eq!(parent(vec![anonymous(), name()]).sole_named_child().unwrap().kind, NodeKind::Name);
    assert!(parent(vec![error()]).sole_named_child().is_none());
    assert!(parent(vec![anonymous(), error()]).sole_named_child().is_none());
    assert_eq!(parent(vec![error(), name()]).sole_named_child().unwrap().kind, NodeKind::Name);
    assert_eq!(
        parent(vec![name(), error(), error()]).sole_named_child().unwrap().kind,
        NodeKind::Name
    );
    assert!(parent(vec![name(), name()]).sole_named_child().is_none());
    assert!(parent(vec![name(), error(), name()]).sole_named_child().is_none());
    assert!(parent(vec![error(), error()]).sole_named_child().is_none());
}

#[test]
fn children_are_found_by_kind_and_label() {
    let keyword = node(NodeKind::Type, false, 0, 4, vec![]);
    let directive_name = node(NodeKind::DirectiveName, true, 5, 8, vec![]);
    let first = node(NodeKind::Name, true, 9, 10, vec![]);
    let second = node(NodeKind::Name, true, 11, 12, vec![]);
    let mut comment = node(NodeKind::Comment, true, 13, 14, vec![]);
    comment.extra = true;
    let mut labelled = node(NodeKind::ObjectLocation, false, 15, 21, vec![]);
    labelled.label = FieldLabel::Location;
    let parent = node(
        NodeKind::Item,
        true,
        0,
        21,
        vec![keyword, directive_name, first, second, comment, labelled],
    );

    assert!(parent.child_of_kind(NodeKind::Type).is_none());
    assert_eq!(parent.child_of_kind(NodeKind::Name).unwrap().range, range(9, 10));
    assert_eq!(parent.child_of_kind(NodeKind::Comment).unwrap().range, range(13, 14));
    assert_eq!(parent.name_node().unwrap().range, range(9, 10));
    assert_eq!(parent.child_by_label(FieldLabel::Location).unwrap().kind, NodeKind::ObjectLocation);
    assert!(parent.child_by_label(FieldLabel::Other).is_none());
    assert_eq!(
        kinds(&parent.relevant_children()),
        vec![NodeKind::DirectiveName, NodeKind::Name, NodeKind::Name]
    );
    assert_eq!(kinds(&parent.children_of_kind(NodeKind::Name)), vec![NodeKind::Name, NodeKind::Name]);
    assert!(parent.children_of_kind(NodeKind::Comment).is_empty());

    let only_directive_name =
        node(NodeKind::Directive, true, 0, 4, vec![node(NodeKind::DirectiveName, true, 0, 4, vec![])]);
    assert_eq!(only_directive_name.name_node().unwrap().kind, NodeKind::DirectiveName);
    assert!(node(NodeKind::Directive, true, 0, 4, vec![]).name_node().is_none());
}

#[test]
fn the_smallest_named_node_around_a_point() {
    let (_, item) = object_item();
    assert_eq!(item.named_node_at(at(0)).unwrap().kind, NodeKind::ObjectTypeDefinition);
    assert_eq!(item.named_node_at(at(5)).unwrap().kind, NodeKind::Name);
    assert_eq!(item.named_node_at(at(7)).unwrap().kind, NodeKind::Name);
    assert_eq!(item.named_node_at(at(8)).unwrap().kind, NodeKind::ObjectTypeDefinition);
    assert_eq!(item.named_node_at(at(12)).unwrap().kind, NodeKind::ImplementsInterfaces);
    assert_eq!(item.named_node_at(at(20)).unwrap().kind, NodeKind::NamedType);
    assert_eq!(item.named_node_at(at(26)).unwrap().kind, NodeKind::Directive);
    assert_eq!(item.named_node_at(at(27)).unwrap().range, range(27, 28));
    assert!(item.named_node_at(at(28)).is_none());
    assert!(item.named_node_at(Point { row: 1, column: 0 }).is_none());

    let anonymous = node(NodeKind::Other, false, 0, 4, vec![]);
    assert!(anonymous.named_node_at(at(1)).is_none());

    assert_eq!(item.named_descendant_for_range(range(5, 8)).unwrap().kind, NodeKind::Name);
    assert_eq!(
        item.named_descendant_for_range(range(5, 21)).unwrap().kind,
        NodeKind::ObjectTypeDefinition
    );
    assert_eq!(
        item.named_descendant_for_range(range(20, 25)).unwrap().kind,
        NodeKind::ImplementsInterfaces
    );
    assert!(item.named_descendant_for_range(range(5, 40)).is_none());

    assert_eq!(item.enclosing_of_kind(at(27), NodeKind::Directives).unwrap().range, range(26, 28));
    assert_eq!(item.enclosing_of_kind(at(27), NodeKind::Name).unwrap().range, range(27, 28));
    assert_eq!(item.enclosing_of_kind(at(27), NodeKind::Item).unwrap().range, range(0, 28));
    assert!(item.enclosing_of_kind(at(27), NodeKind::NamedType).is_none());
    assert!(item.enclosing_of_kind(at(30), NodeKind::Item).is_none());
}

#[test]
fn preorder_visits_a_node_before_its_children() {
    let (text, item) = object_item();
    let order = kinds(&item.preorder());
    assert_eq!(
        order,
        vec![
            NodeKind::Item,
            NodeKind::TypeDefinition,
            NodeKind::ObjectTypeDefinition,
            NodeKind::Type,
            NodeKind::Name,
            NodeKind::ImplementsInterfaces,
            NodeKind::Other,
            NodeKind::NamedType,
            NodeKind::Other,
            NodeKind::NamedType,
            NodeKind::Directives,
            NodeKind::Directive,
            NodeKind::Other,
            NodeKind::Name,
        ]
    );
    let texts: Vec<&str> = item.preorder().iter().filter_map(|n| n.text(text)).collect();
    assert_eq!(texts[0], text);
    assert_eq!(texts[4], "Foo");
    assert_eq!(texts[13], "d");
    assert!(node(NodeKind::Name, true, 20, 40, vec![]).text(text).is_none());
}

#[test]
fn slices_follow_bytes_and_character_boundaries() {
    assert_eq!(slice("type Foo", 5, 8), Some("Foo"));
    assert_eq!(slice("type Foo", 0, 0), Some(""));
    assert_eq!(slice("type Foo", 8, 8), Some(""));
    assert_eq!(slice("type Foo", 5, 9), None);
    assert_eq!(slice("type Foo", 6, 5), None);
    let accented = "h\u{e9}llo";
    assert_eq!(slice(accented, 1, 3), Some("\u{e9}"));
    assert_eq!(slice(accented, 1, 2), None);
    assert_eq!(slice(accented, 2, 3), None);
    assert_eq!(slice(accented, 3, 6), Some("llo"));
    assert!(str_eq("true", "true"));
    assert!(!str_eq("true", "tru"));
    assert!(!str_eq("true", "trUe"));
    assert!(str_eq("", ""));
    assert!(str_eq(accented, "h\u{e9}llo"));
}

#[test]
fn quotes_are_trimmed_from_both_ends() {
    assert_eq!(trim_quotes("\"hi\""), "hi");
    assert_eq!(trim_quotes("\"\"\"doc\"\"\""), "doc");
    assert_eq!(trim_quotes("\""), "");
    assert_eq!(trim_quotes("\"\""), "");
    assert_eq!(trim_quotes(""), "");
    assert_eq!(trim_quotes("a\"b"), "a\"b");
    assert_eq!(trim_quotes("\"a\"b"), "a\"b");
    assert_eq!(trim_quotes("plain"), "plain");
    assert_eq!(trim_quotes("\"\u{e9}\""), "\u{e9}");
}

#[test]
fn integers_are_read_in_decimal() {
    assert_eq!(parse_i32("0"), Some(0));
    assert_eq!(parse_i32("42"), Some(42));
    assert_eq!(parse_i32("-7"), Some(-7));
    assert_eq!(parse_i32("+5"), Some(5));
    assert_eq!(parse_i32("007"), Some(7));
    assert_eq!(parse_i32("2147483647"), Some(i32::MAX));
    assert_eq!(parse_i32("-2147483648"), Some(i32::MIN));
    assert_eq!(parse_i32("2147483648"), None);
    assert_eq!(parse_i32("-2147483649"), None);
    assert_eq!(parse_i32("99999999999999999999999999"), None);
    assert_eq!(parse_i32(""), None);
    assert_eq!(parse_i32("-"), None);
    assert_eq!(parse_i32("+"), None);
    assert_eq!(parse_i32("12a"), None);
    assert_eq!(parse_i32("a12"), None);
    assert_eq!(parse_i32(" 1"), None);
    assert_eq!(parse_i32("1.5"), None);
    assert_eq!(parse_i32("--1"), None);
}

#[test]
fn names_are_compared_by_text_alone() {
    let here = Name::ranged("Foo", range(5, 8));
    let there = Name::ranged("Foo", range(15, 18));
    assert_eq!(here, there);
    assert_eq!(here, Name::unranged("Foo"));
    assert_ne!(here, Name::unranged("foo"));
    assert!(here.same(&there));
    assert!(!here.same(&Name::unranged("Fo")));
    assert_eq!(here.range, Some(range(5, 8)));
    assert_eq!(Name::unranged("Foo").range, None);
    assert_eq!(here.clone().range, here.range);
    assert_eq!(here.as_str(), "Foo");
}

#[test]
fn directive_locations_are_a_set_of_bits() {
    let all = [
        (DirectiveLocation::ArgumentDefinition, 0x001),
        (DirectiveLocation::Enum, 0x002),
        (DirectiveLocation::EnumValue, 0x004),
        (DirectiveLocation::FieldDefinition, 0x008),
        (DirectiveLocation::InputFieldDefinition, 0x010),
        (DirectiveLocation::InputObject, 0x020),
        (DirectiveLocation::Interface, 0x040),
        (DirectiveLocation::Object, 0x080),
        (DirectiveLocation::Scalar, 0x100),
        (DirectiveLocation::Schema, 0x200),
        (DirectiveLocation::Union, 0x400),
    ];
    let empty = DirectiveLocations::empty();
    let mut whole = empty;
    for (location, bit) in all {
        assert_eq!(location.bit(), bit);
        assert!(!empty.contains(location));
        let one = DirectiveLocations::single(location);
        assert_eq!(one.bits, bit);
        for (other, _) in all {
            assert_eq!(one.contains(other), other == location);
        }
        whole = whole.insert(location);
        assert!(whole.contains(location));
    }
    assert_eq!(whole.bits, 0x7ff);
    let a = DirectiveLocations::single(DirectiveLocation::Object).insert(DirectiveLocation::Enum);
    let b = DirectiveLocations::single(DirectiveLocation::Enum).insert(DirectiveLocation::Union);
    let both = a.union(b);
    assert_eq!(both.bits, 0x080 | 0x002 | 0x400);
    assert!(both.contains(DirectiveLocation::Union));
    assert!(!both.contains(DirectiveLocation::Scalar));
    assert_eq!(a.insert(DirectiveLocation::Object), a);
}

#[test]
fn names_need_a_text() {
    let text = "type Foo";
    assert_eq!(lower_name(text, &node(NodeKind::Name, true, 5, 8, vec![])), Some(Name::unranged("Foo")));
    assert_eq!(
        lower_name(text, &node(NodeKind::Name, true, 5, 8, vec![])).unwrap().range,
        Some(range(5, 8))
    );
    assert_eq!(lower_name(text, &node(NodeKind::Name, true, 5, 5, vec![])), None);
    assert_eq!(lower_name(text, &node(NodeKind::Name, true, 5, 9, vec![])), None);
    assert_eq!(lower_name(text, &node(NodeKind::Name, true, 8, 5, vec![])), None);
    let (text, item) = object_item();
    let object = &item.children[0].children[0];
    assert_eq!(lower_name_of(text, object), Some(Name::unranged("Foo")));
    assert_eq!(lower_name_of(text, &item), None);
}

#[test]
fn an_item_is_lowered_with_its_header() {
    let (text, item) = object_item();
    let mut ctx = ItemCtxt::new(text);
    let object = &item.children[0].children[0];
    assert_eq!(
        ctx.try_lower_implementations_of(object),
        Some(vec![Name::unranged("A"), Name::unranged("B")])
    );
    assert_eq!(ctx.try_lower_implementations_of(&item), None);

    let first = ctx.lower_item(&item).expect("a complete definition");
    assert_eq!(first.name, Name::unranged("Foo"));
    assert_eq!(first.range, range(0, 28));
    assert_eq!(first.kind, ItemKind::TypeDefinition(0));
    let second = ctx.lower_item(&item).expect("a complete definition");
    assert_eq!(second.kind, ItemKind::TypeDefinition(1));
    assert!(ctx.lower_item(&item.children[0]).is_none());
    assert!(ctx.lower_item(&node(NodeKind::Item, true, 0, 28, vec![])).is_none());

    let tree = SyntaxTree { root: node(NodeKind::Document, true, 0, 28, vec![item]) };
    let items = ctx.lower(&tree);
    assert_eq!(items.len(), 1);
    assert_eq!(items.item(0).unwrap().kind, ItemKind::TypeDefinition(2));
    let definition = items.typedef(2).expect("the definition exists");
    assert_eq!(definition.kind, TypeDefinitionKind::Object);
    assert!(!definition.is_ext);
    assert_eq!(definition.directives.len(), 1);
    assert_eq!(definition.directives[0].name, Name::unranged("@d"));
    assert_eq!(definition.directives[0].range, range(26, 28));
    assert_eq!(
        definition.implementations,
        Some(vec![Name::unranged("A"), Name::unranged("B")])
    );
    assert!(items.typedef(3).is_none());
    assert!(items.item(1).is_none());
}

#[test]
fn malformed_items_are_passed_over() {
    let (text, item) = object_item();
    let mut nameless = object_item().1;
    nameless.children[0].children[0].children.remove(1);
    let mut doubled = object_item().1;
    let extra = node(NodeKind::TypeDefinition, true, 0, 28, vec![]);
    doubled.children.push(extra);
    let stray = node(NodeKind::Error, true, 0, 4, vec![]);
    let mut comment = object_item().1;
    comment.extra = true;
    let mut anonymous = object_item().1;
    anonymous.named = false;
    let tree = SyntaxTree {
        root: node(
            NodeKind::Document,
            true,
            0,
            28,
            vec![nameless, stray, item, doubled, comment, anonymous],
        ),
    };
    let items = lower_file(text, &tree);
    assert_eq!(items.len(), 1);
    assert_eq!(items.item(0).unwrap().kind, ItemKind::TypeDefinition(0));
    assert!(items.typedef(1).is_none());
}

#[test]
fn locations_are_gathered_from_their_tokens() {
    let location = |kind: NodeKind, label: FieldLabel| {
        let mut token = node(kind, false, 0, 1, vec![]);
        token.label = label;
        node(NodeKind::DirectiveLocation, true, 0, 1, vec![token])
    };
    let list = |children| node(NodeKind::DirectiveLocations, true, 0, 9, children);
    let found = lower_locations(&list(vec![
        location(NodeKind::ObjectLocation, FieldLabel::Location),
        node(NodeKind::Other, false, 1, 2, vec![]),
        location(NodeKind::EnumLocation, FieldLabel::Location),
        location(NodeKind::ScalarLocation, FieldLabel::Unlabelled),
    ]))
    .expect("all locations are known");
    assert_eq!(found.bits, 0x080 | 0x002);
    assert_eq!(lower_locations(&list(vec![])).map(|l| l.bits), Some(0));
    assert!(lower_locations(&list(vec![
        location(NodeKind::ObjectLocation, FieldLabel::Location),
        location(NodeKind::Other, FieldLabel::Location),
    ]))
    .is_none());
}

#[test]
fn the_item_map_lists_names_in_order_of_first_occurrence() {
    let text = "ABAC";
    let item = |at: usize| {
        let name = node(NodeKind::Name, true, at, at + 1, vec![]);
        let scalar = node(NodeKind::ScalarTypeDefinition, true, at, at + 1, vec![name]);
        let definition = node(NodeKind::TypeDefinition, true, at, at + 1, vec![scalar]);
        node(NodeKind::Item, true, at, at + 1, vec![definition])
    };
    let tree = SyntaxTree {
        root: node(NodeKind::Document, true, 0, 4, vec![item(0), item(1), item(2), item(3)]),
    };
    let items = lower_file(text, &tree);
    let map = item_map(&items);
    assert_eq!(map.len(), 3);
    let entries: Vec<(&str, Vec<u32>)> =
        (0..3).map(|k| (map.name_at(k).as_str(), map.indices_at(k).to_vec())).collect();
    assert_eq!(entries, vec![("A", vec![0, 2]), ("B", vec![1]), ("C", vec![3])]);
    assert_eq!(map.get(&Name::unranged("A")).unwrap().to_vec(), vec![0, 2]);
    assert_eq!(map.get(&Name::unranged("A")).unwrap().count(), 2);
    assert_eq!(map.get(&Name::unranged("C")).unwrap().to_vec(), vec![3]);
    assert!(map.get(&Name::unranged("D")).is_none());

    let other = item_map(&lower_file("XY", &SyntaxTree {
        root: node(NodeKind::Document, true, 0, 2, vec![item(0), item(1)]),
    }));
    let found = resolve_among(&vec![FileId(3), FileId(1), FileId(3)], &vec![&map, &other, &map], &Name::unranged("A"));
    assert_eq!(
        found.to_vec(),
        vec![
            ItemRes { file: FileId(3), idx: 0 },
            ItemRes { file: FileId(3), idx: 2 },
            ItemRes { file: FileId(3), idx: 0 },
            ItemRes { file: FileId(3), idx: 2 },
        ]
    );
    assert_eq!(found.count(), 4);
    let found = resolve_among(&vec![FileId(3), FileId(1)], &vec![&map, &other], &Name::unranged("Y"));
    assert_eq!(found.to_vec(), vec![ItemRes { file: FileId(1), idx: 1 }]);
    assert!(resolve_among(&vec![], &vec![], &Name::unranged("A")).is_empty());
}

#[test]
fn file_lists_are_kept_sorted() {
    let mut files = Vec::new();
    for id in [5, 1, 9, 5, 0, 9, 3] {
        insert_sorted(&mut files, FileId(id));
    }
    assert_eq!(files, vec![FileId(0), FileId(1), FileId(3), FileId(5), FileId(9)]);
    assert!(contains_file(&files, FileId(3)));
    assert!(!contains_file(&files, FileId(4)));

    let projects = vec![
        Project { name: "a".to_string(), files: vec![FileId(4), FileId(2), FileId(4)] },
        Project { name: "b".to_string(), files: vec![] },
        Project { name: "c".to_string(), files: vec![FileId(7), FileId(2)] },
        Project { name: "d".to_string(), files: vec![FileId(8)] },
    ];
    assert_eq!(all_files(&projects), vec![FileId(2), FileId(4), FileId(7), FileId(8)]);
    assert_eq!(neighborhood(&projects, FileId(2)), vec![FileId(2), FileId(4), FileId(7)]);
    assert_eq!(neighborhood(&projects, FileId(4)), vec![FileId(2), FileId(4)]);
    assert_eq!(neighborhood(&projects, FileId(8)), vec![FileId(8)]);
    assert!(neighborhood(&projects, FileId(1)).is_empty());
    assert!(all_files(&Vec::new()).is_empty());
}

#[test]
fn diagnostics_are_sorted_by_place_then_code() {
    let at = |row: u32, column: u32, kind: DiagnosticKind| {
        Diagnostic::new(
            Range {
                start_byte: 0,
                end_byte: 0,
                start_point: Point { row, column },
                end_point: Point { row, column: column + 1 },
            },
            kind,
        )
    };
    let unresolved = |name: &str| DiagnosticKind::UnresolvedType(Name::unranged(name));
    let input = vec![
        at(2, 0, unresolved("late")),
        at(0, 5, unresolved("first")),
        at(0, 5, DiagnosticKind::Syntax),
        at(0, 5, unresolved("second")),
        at(1, 9, DiagnosticKind::Syntax),
        at(0, 4, unresolved("early")),
    ];
    let sorted = sort(&input);
    let seen: Vec<(u32, u32, &str)> = sorted
        .iter()
        .map(|d| (d.range.start_point.row, d.range.start_point.column, d.code()))
        .collect();
    assert_eq!(
        seen,
        vec![
            (0, 4, "E0002"),
            (0, 5, "E0001"),
            (0, 5, "E0002"),
            (0, 5, "E0002"),
            (1, 9, "E0001"),
            (2, 0, "E0002"),
        ]
    );
    assert_eq!(sorted[2].kind, unresolved("first"));
    assert_eq!(sorted[3].kind, unresolved("second"));
    assert_eq!(sorted[0].code_number(), 2);
    assert_eq!(sorted[1].code_number(), 1);
    assert_eq!(sorted[1].severity(), Severity::Error);
    assert_eq!(sorted[0].message(), "unresolved type `early`");
    assert_eq!(sorted[0].clone(), sorted[0]);
    assert!(sort(&Vec::new()).is_empty());
}

#[test]
fn every_error_node_is_a_syntax_error() {
    let tree = node(
        NodeKind::Document,
        true,
        0,
        9,
        vec![
            node(NodeKind::Error, true, 0, 2, vec![node(NodeKind::Error, true, 1, 2, vec![])]),
            node(NodeKind::Item, true, 3, 6, vec![node(NodeKind::Error, true, 4, 5, vec![])]),
        ],
    );
    let mut found = vec![Diagnostic::new(range(9, 9), DiagnosticKind::Syntax)];
    collect_errors(&tree, &mut found);
    let places: Vec<Range> = found.iter().map(|d| d.range).collect();
    assert_eq!(places, vec![range(9, 9), range(0, 2), range(1, 2), range(4, 5)]);
    assert!(found.iter().all(|d| d.kind == DiagnosticKind::Syntax));
}

#[test]
fn token_types_have_stable_numbers() {
    let all = [
        TokenType::Type,
        TokenType::Property,
        TokenType::EnumMember,
        TokenType::Decorator,
        TokenType::String,
        TokenType::Number,
        TokenType::Keyword,
        TokenType::Comment,
    ];
    for (n, token_type) in all.iter().enumerate() {
        assert_eq!(token_type.ordinal(), n as u32);
    }
    assert_eq!(DEFINITION, 1);
    assert_eq!(
        classify_node(NodeKind::ObjectTypeDefinition, NodeKind::Name),
        Some((TokenType::Type, DEFINITION))
    );
    assert_eq!(
        classify_node(NodeKind::EnumTypeExtension, NodeKind::Name),
        Some((TokenType::Type, DEFINITION))
    );
    assert_eq!(classify_node(NodeKind::FieldDefinition, NodeKind::Name), Some((TokenType::Property, 0)));
    assert_eq!(classify_node(NodeKind::Directive, NodeKind::Name), Some((TokenType::Decorator, 0)));
    assert_eq!(classify_node(NodeKind::Document, NodeKind::Name), None);
    assert_eq!(classify_node(NodeKind::Type, NodeKind::NamedType), Some((TokenType::Type, 0)));
    assert_eq!(classify_node(NodeKind::Value, NodeKind::IntValue), Some((TokenType::Number, 0)));
    assert_eq!(classify_node(NodeKind::Value, NodeKind::NullValue), Some((TokenType::Keyword, 0)));
    assert_eq!(classify_node(NodeKind::Value, NodeKind::StringValue), Some((TokenType::String, 0)));
    assert_eq!(classify_node(NodeKind::Document, NodeKind::Comment), Some((TokenType::Comment, 0)));
    assert_eq!(classify_node(NodeKind::Document, NodeKind::Item), None);
}

#[test]
fn tokens_are_placed_relative_to_the_one_before() {
    let token = |row: u32, column: u32, length: u32| Token {
        start: Point { row, column },
        length,
        token_type: TokenType::Type,
        modifiers: 0,
    };
    let deltas = encode(&vec![
        token(0, 3, 2),
        token(0, 10, 4),
        token(0, 5, 1),
        token(2, 1, 3),
        token(2, 1, 3),
        token(1, 0, 9),
        token(5, 0, 1),
    ]);
    let seen: Vec<(u32, u32, u32)> =
        deltas.iter().map(|d| (d.delta_line, d.delta_start, d.length)).collect();
    assert_eq!(seen, vec![(0, 3, 2), (0, 7, 4), (2, 1, 3), (0, 0, 3), (3, 0, 1)]);
    assert!(encode(&Vec::new()).is_empty());

    let mut spread = node(NodeKind::StringValue, true, 0, 9, vec![]);
    spread.range.end_point = Point { row: 1, column: 2 };
    let tree = node(
        NodeKind::Document,
        true,
        0,
        30,
        vec![spread, node(NodeKind::IntValue, true, 12, 14, vec![])],
    );
    assert_eq!(
        semantic_tokens(&tree),
        vec![TokenDelta { delta_line: 0, delta_start: 12, length: 2, token_type: 5, modifiers: 0 }]
    );
}

#[test]
fn parents_are_listed_nearest_first() {
    let (_, item) = object_item();
    assert_eq!(
        kinds(&item.parents_at(at(27))),
        vec![
            NodeKind::Directive,
            NodeKind::Directives,
            NodeKind::ObjectTypeDefinition,
            NodeKind::TypeDefinition,
            NodeKind::Item,
        ]
    );
    assert_eq!(
        kinds(&item.parents_at(at(8))),
        vec![NodeKind::TypeDefinition, NodeKind::Item]
    );
    assert!(item.parents_at(at(40)).is_empty());
    assert!(node(NodeKind::Name, true, 0, 4, vec![]).parents_at(at(1)).is_empty());

    assert_eq!(item.parent_of_kind(at(27), NodeKind::Directives).unwrap().range, range(26, 28));
    assert_eq!(item.parent_of_kind(at(27), NodeKind::Item).unwrap().range, range(0, 28));
    assert!(item.parent_of_kind(at(27), NodeKind::Name).is_none());
    assert!(item.parent_of_kind(at(27), NodeKind::NamedType).is_none());
    assert!(item.has_parent_of_kind(at(20), NodeKind::ImplementsInterfaces));
    assert!(!item.has_parent_of_kind(at(20), NodeKind::NamedType));
    assert!(!item.has_parent_of_kind(at(20), NodeKind::Directives));
    assert!(!item.has_parent_of_kind(at(40), NodeKind::Item));
}

#[test]
fn descendants_are_sought_in_preorder() {
    let (_, item) = object_item();
    let first_name = item.find_descendant(|n: &SyntaxNode| n.kind == NodeKind::Name).unwrap();
    assert_eq!(first_name.range, range(5, 8));
    let first_type = item.find_descendant(|n: &SyntaxNode| n.kind == NodeKind::NamedType).unwrap();
    assert_eq!(first_type.range, range(20, 21));
    let itself = item.find_descendant(|n: &SyntaxNode| n.named).unwrap();
    assert_eq!(itself.kind, NodeKind::Item);
    assert!(item.find_descendant(|n: &SyntaxNode| n.kind == NodeKind::Comment).is_none());
    assert!(item.find_descendant(|n: &SyntaxNode| n.range.start_byte > 27).is_none());
}

#[test]
fn the_sigil_is_put_in_front_once() {
    assert_eq!(with_sigil("qux"), "@qux");
    assert_eq!(with_sigil("@qux"), "@qux");
    assert_eq!(with_sigil(""), "@");
    assert_eq!(with_sigil("q@"), "@q@");
    assert!(starts_with_sigil("@a"));
    assert!(!starts_with_sigil("a@"));
    assert!(!starts_with_sigil(""));
}

#[test]
fn a_type_may_not_bear_the_sigil() {
    let text = "@ab";
    let name = node(NodeKind::Name, true, 0, 3, vec![]);
    let scalar = node(NodeKind::ScalarTypeDefinition, true, 0, 3, vec![name]);
    let definition = node(NodeKind::TypeDefinition, true, 0, 3, vec![scalar]);
    let item = node(NodeKind::Item, true, 0, 3, vec![definition]);
    let tree = SyntaxTree { root: node(NodeKind::Document, true, 0, 3, vec![item]) };
    assert_eq!(lower_file(text, &tree).len(), 0);
    assert_eq!(lower_file("xab", &tree).len(), 1);
}
