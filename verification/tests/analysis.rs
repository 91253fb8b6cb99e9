//! End-to-end tests over small schemas. The trees are built here, by a small
//! reader of the schema language, the way a parser would hand them over.

use gqls::body::{DiagnosticKind, ItemBodyKind, Value};
use gqls::completions::{CompletionItem, CompletionItemKind};
use gqls::db::Database;
use gqls::ide::{Location, Position, Range as Span};
use gqls::ir::{DirectiveLocation, FileId, ItemKind, ItemRes, Name, TypeDefinitionKind};
use gqls::source::{FileData, Project};
use gqls::syntax::{FieldLabel, NodeKind, Point, Range, SyntaxNode, SyntaxTree};
use gqls::ty::TyKind;
use gqls::tydb::{arg_types, field_types, implementors, implements, union_members};

#[derive(Clone, Debug, PartialEq)]
enum Tok {
    Name,
    Punct(char),
    Str,
    Int,
    Float,
    Comment,
}

#[derive(Clone, Debug)]
struct Token {
    tok: Tok,
    text: String,
    range: Range,
}

fn lex(text: &str) -> Vec<Token> {
    let bytes = text.as_bytes();
    let mut out = Vec::new();
    let mut i = 0usize;
    let mut row = 0u32;
    let mut col = 0u32;
    while i < bytes.len() {
        let c = bytes[i] as char;
        if c == '\n' {
            i += 1;
            row += 1;
            col = 0;
            continue;
        }
        if c == ' ' || c == '\t' || c == '\r' || c == ',' {
            i += 1;
            col += 1;
            continue;
        }
        let start = i;
        let start_point = Point { row, column: col };
        let tok;
        if c == '#' {
            while i < bytes.len() && bytes[i] != b'\n' {
                i += 1;
            }
            tok = Tok::Comment;
        } else if c == '"' {
            i += 1;
            while i < bytes.len() && bytes[i] != b'"' && bytes[i] != b'\n' {
                i += 1;
            }
            if i < bytes.len() && bytes[i] == b'"' {
                i += 1;
            }
            tok = Tok::Str;
        } else if c.is_ascii_digit() || c == '-' {
            i += 1;
            let mut float = false;
            while i < bytes.len()
                && (bytes[i].is_ascii_digit() || bytes[i] == b'.' || bytes[i] == b'e')
            {
                if bytes[i] == b'.' || bytes[i] == b'e' {
                    float = true;
                }
                i += 1;
            }
            tok = if float { Tok::Float } else { Tok::Int };
        } else if c.is_ascii_alphabetic() || c == '_' {
            while i < bytes.len() && (bytes[i].is_ascii_alphanumeric() || bytes[i] == b'_') {
                i += 1;
            }
            tok = Tok::Name;
        } else {
            i += 1;
            tok = Tok::Punct(c);
        }
        col += (i - start) as u32;
        out.push(Token {
            tok,
            text: text[start..i].to_string(),
            range: Range {
                start_byte: start,
                end_byte: i,
                start_point,
                end_point: Point { row, column: col },
            },
        });
    }
    out
}

fn leaf(kind: NodeKind, named: bool, token: &Token) -> SyntaxNode {
    SyntaxNode {
        kind,
        label: FieldLabel::Unlabelled,
        named,
        extra: false,
        range: token.range,
        children: Vec::new(),
    }
}

fn branch(kind: NodeKind, children: Vec<SyntaxNode>) -> SyntaxNode {
    let first = children.first().expect("a branch has children").range;
    let last = children.last().expect("a branch has children").range;
    SyntaxNode {
        kind,
        label: FieldLabel::Unlabelled,
        named: true,
        extra: false,
        range: Range {
            start_byte: first.start_byte,
            end_byte: last.end_byte,
            start_point: first.start_point,
            end_point: last.end_point,
        },
        children,
    }
}

struct Reader {
    tokens: Vec<Token>,
    pos: usize,
    /// Whether a directive's name takes in the `@` in front of it.
    sigil: bool,
}

impl Reader {
    fn peek(&self) -> Option<&Token> {
        self.tokens.get(self.pos)
    }

    fn at_punct(&self, c: char) -> bool {
        matches!(self.peek(), Some(t) if t.tok == Tok::Punct(c))
    }

    fn at_word(&self, word: &str) -> bool {
        matches!(self.peek(), Some(t) if t.tok == Tok::Name && t.text == word)
    }

    fn at_name(&self) -> bool {
        matches!(self.peek(), Some(t) if t.tok == Tok::Name)
    }

    fn anonymous(&mut self) -> SyntaxNode {
        let token = self.tokens[self.pos].clone();
        self.pos += 1;
        leaf(NodeKind::from_name(&token.text), false, &token)
    }

    fn name(&mut self) -> SyntaxNode {
        let token = self.tokens[self.pos].clone();
        self.pos += 1;
        leaf(NodeKind::Name, true, &token)
    }

    /// One or more elements with the separator between them, and
    /// optionally in front of the first.
    fn separated(
        &mut self,
        separator: char,
        parts: &mut Vec<SyntaxNode>,
        element: fn(&mut Reader) -> SyntaxNode,
    ) {
        if self.at_punct(separator) {
            parts.push(self.anonymous());
        }
        if !self.at_name() {
            return;
        }
        parts.push(element(self));
        while self.at_punct(separator) {
            parts.push(self.anonymous());
            if !self.at_name() {
                return;
            }
            parts.push(element(self));
        }
    }

    fn named_type(&mut self) -> SyntaxNode {
        let name = self.name();
        branch(NodeKind::NamedType, vec![name])
    }

    fn ty(&mut self) -> Option<SyntaxNode> {
        let bare = self.bare_type()?;
        Some(branch(NodeKind::Type, vec![bare]))
    }

    fn bare_type(&mut self) -> Option<SyntaxNode> {
        let inner = if self.at_punct('[') {
            let open = self.anonymous();
            let mut children = vec![open];
            if let Some(t) = self.ty() {
                children.push(t);
            }
            if self.at_punct(']') {
                children.push(self.anonymous());
            }
            branch(NodeKind::ListType, children)
        } else if self.at_name() {
            self.named_type()
        } else {
            return None;
        };
        if self.at_punct('!') {
            let bang = self.anonymous();
            Some(branch(NodeKind::NonNullType, vec![inner, bang]))
        } else {
            Some(inner)
        }
    }

    fn directive_name(&mut self, children: &mut Vec<SyntaxNode>) {
        if self.sigil {
            let at = self.anonymous();
            let mut parts = vec![at];
            if self.at_name() {
                parts.push(self.name());
            }
            let mut node = branch(NodeKind::DirectiveName, parts);
            node.children.clear();
            children.push(node);
        } else {
            children.push(self.anonymous());
            if self.at_name() {
                children.push(self.name());
            }
        }
    }

    fn directives(&mut self) -> Option<SyntaxNode> {
        let mut all = Vec::new();
        while self.at_punct('@') {
            let mut children = Vec::new();
            self.directive_name(&mut children);
            all.push(branch(NodeKind::Directive, children));
        }
        if all.is_empty() {
            None
        } else {
            Some(branch(NodeKind::Directives, all))
        }
    }

    fn value(&mut self) -> Option<SyntaxNode> {
        let token = self.peek()?.clone();
        let inner = match token.tok {
            Tok::Str => {
                self.pos += 1;
                leaf(NodeKind::StringValue, true, &token)
            }
            Tok::Int => {
                self.pos += 1;
                leaf(NodeKind::IntValue, true, &token)
            }
            Tok::Float => {
                self.pos += 1;
                leaf(NodeKind::FloatValue, true, &token)
            }
            Tok::Name => {
                self.pos += 1;
                let kind = match token.text.as_str() {
                    "true" | "false" => NodeKind::BooleanValue,
                    "null" => NodeKind::NullValue,
                    _ => NodeKind::EnumValue,
                };
                leaf(kind, true, &token)
            }
            Tok::Punct('[') => {
                let mut children = vec![self.anonymous()];
                while !self.at_punct(']') {
                    match self.value() {
                        Some(v) => children.push(v),
                        None => break,
                    }
                }
                if self.at_punct(']') {
                    children.push(self.anonymous());
                }
                branch(NodeKind::ListValue, children)
            }
            Tok::Punct('{') => {
                let mut children = vec![self.anonymous()];
                while self.at_name() {
                    let mut parts = vec![self.name()];
                    if self.at_punct(':') {
                        parts.push(self.anonymous());
                    }
                    if let Some(v) = self.value() {
                        parts.push(v);
                    }
                    children.push(branch(NodeKind::ObjectField, parts));
                }
                if self.at_punct('}') {
                    children.push(self.anonymous());
                }
                branch(NodeKind::ObjectValue, children)
            }
            _ => return None,
        };
        Some(branch(NodeKind::Value, vec![inner]))
    }

    fn input_value(&mut self) -> SyntaxNode {
        let mut children = vec![self.name()];
        if self.at_punct(':') {
            children.push(self.anonymous());
            if let Some(t) = self.ty() {
                children.push(t);
            }
        }
        if self.at_punct('=') {
            let mut parts = vec![self.anonymous()];
            if let Some(v) = self.value() {
                parts.push(v);
            }
            children.push(branch(NodeKind::DefaultValue, parts));
        }
        if let Some(d) = self.directives() {
            children.push(d);
        }
        branch(NodeKind::InputValueDefinition, children)
    }

    fn field(&mut self) -> SyntaxNode {
        let mut children = vec![self.name()];
        if self.at_punct('(') {
            let mut parts = vec![self.anonymous()];
            while self.at_name() {
                parts.push(self.input_value());
            }
            if self.at_punct(')') {
                parts.push(self.anonymous());
            }
            children.push(branch(NodeKind::ArgumentsDefinition, parts));
        }
        if self.at_punct(':') {
            children.push(self.anonymous());
            if let Some(t) = self.ty() {
                children.push(t);
            }
        }
        if let Some(d) = self.directives() {
            children.push(d);
        }
        branch(NodeKind::FieldDefinition, children)
    }

    fn braces(&mut self, kind: NodeKind, what: NodeKind) -> SyntaxNode {
        let mut children = vec![self.anonymous()];
        while self.at_name() {
            let child = match what {
                NodeKind::FieldDefinition => self.field(),
                NodeKind::InputValueDefinition => self.input_value(),
                _ => {
                    let name = self.name();
                    let mut parts = vec![branch(NodeKind::EnumValue, vec![name])];
                    if let Some(d) = self.directives() {
                        parts.push(d);
                    }
                    branch(NodeKind::EnumValueDefinition, parts)
                }
            };
            children.push(child);
        }
        if self.at_punct('}') {
            children.push(self.anonymous());
        }
        branch(kind, children)
    }

    fn type_definition(&mut self, mut children: Vec<SyntaxNode>, kinds: [NodeKind; 6]) -> SyntaxNode {
        let keyword = self.tokens[self.pos].text.clone();
        children.push(self.anonymous());
        if self.at_name() {
            children.push(self.name());
        }
        if self.at_word("implements") {
            let mut parts = vec![self.anonymous()];
            self.separated('&', &mut parts, |reader| reader.named_type());
            children.push(branch(NodeKind::ImplementsInterfaces, parts));
        }
        if let Some(d) = self.directives() {
            children.push(d);
        }
        let kind = match keyword.as_str() {
            "type" => {
                if self.at_punct('{') {
                    children
                        .push(self.braces(NodeKind::FieldsDefinition, NodeKind::FieldDefinition));
                }
                kinds[0]
            }
            "interface" => {
                if self.at_punct('{') {
                    children
                        .push(self.braces(NodeKind::FieldsDefinition, NodeKind::FieldDefinition));
                }
                kinds[1]
            }
            "scalar" => kinds[2],
            "enum" => {
                if self.at_punct('{') {
                    children.push(
                        self.braces(NodeKind::EnumValuesDefinition, NodeKind::EnumValueDefinition),
                    );
                }
                kinds[3]
            }
            "union" => {
                if self.at_punct('=') {
                    let mut parts = vec![self.anonymous()];
                    self.separated('|', &mut parts, |reader| reader.named_type());
                    children.push(branch(NodeKind::UnionMemberTypes, parts));
                }
                kinds[4]
            }
            _ => {
                if self.at_punct('{') {
                    children.push(self.braces(
                        NodeKind::InputFieldsDefinition,
                        NodeKind::InputValueDefinition,
                    ));
                }
                kinds[5]
            }
        };
        branch(kind, children)
    }

    fn definition(&mut self) -> Option<SyntaxNode> {
        const KEYWORDS: [&str; 6] = ["type", "interface", "scalar", "enum", "union", "input"];
        let token = self.peek()?.clone();
        if token.tok != Tok::Name {
            return None;
        }
        if KEYWORDS.contains(&token.text.as_str()) {
            let inner = self.type_definition(
                Vec::new(),
                [
                    NodeKind::ObjectTypeDefinition,
                    NodeKind::InterfaceTypeDefinition,
                    NodeKind::ScalarTypeDefinition,
                    NodeKind::EnumTypeDefinition,
                    NodeKind::UnionTypeDefinition,
                    NodeKind::InputObjectTypeDefinition,
                ],
            );
            return Some(branch(NodeKind::TypeDefinition, vec![inner]));
        }
        if token.text == "extend" {
            let next = self.tokens.get(self.pos + 1)?;
            if !KEYWORDS.contains(&next.text.as_str()) {
                return None;
            }
            let extend = self.anonymous();
            let inner = self.type_definition(
                vec![extend],
                [
                    NodeKind::ObjectTypeExtension,
                    NodeKind::InterfaceTypeExtension,
                    NodeKind::ScalarTypeExtension,
                    NodeKind::EnumTypeExtension,
                    NodeKind::UnionTypeExtension,
                    NodeKind::InputObjectTypeExtension,
                ],
            );
            return Some(branch(NodeKind::TypeExtension, vec![inner]));
        }
        if token.text == "directive" {
            let mut children = vec![self.anonymous()];
            if self.at_punct('@') {
                self.directive_name(&mut children);
            }
            if self.at_word("on") {
                children.push(self.anonymous());
                let mut parts = Vec::new();
                self.separated('|', &mut parts, |reader| {
                    let mut location = reader.anonymous();
                    location.label = FieldLabel::Location;
                    branch(NodeKind::DirectiveLocation, vec![location])
                });
                if !parts.is_empty() {
                    children.push(branch(NodeKind::DirectiveLocations, parts));
                }
            }
            return Some(branch(NodeKind::DirectiveDefinition, children));
        }
        None
    }
}

fn parse_with(text: &str, sigil: bool) -> SyntaxTree {
    let all = lex(text);
    let mut comments = Vec::new();
    let mut tokens = Vec::new();
    for token in all {
        if token.tok == Tok::Comment {
            let mut node = leaf(NodeKind::Comment, true, &token);
            node.extra = true;
            comments.push(node);
        } else {
            tokens.push(token);
        }
    }
    let mut reader = Reader { tokens, pos: 0, sigil };
    let mut children: Vec<SyntaxNode> = Vec::new();
    while reader.pos < reader.tokens.len() {
        match reader.definition() {
            Some(def) => children.push(branch(NodeKind::Item, vec![def])),
            None => {
                let token = reader.tokens[reader.pos].clone();
                reader.pos += 1;
                match children.last_mut() {
                    Some(last) if last.kind == NodeKind::Error => {
                        last.range.end_byte = token.range.end_byte;
                        last.range.end_point = token.range.end_point;
                    }
                    _ => children.push(leaf(NodeKind::Error, true, &token)),
                }
            }
        }
    }
    children.extend(comments);
    children.sort_by_key(|c| c.range.start_byte);
    let rows = text.matches('\n').count() as u32;
    let last_line = text.rsplit('\n').next().unwrap_or("").len() as u32;
    SyntaxTree {
        root: SyntaxNode {
            kind: NodeKind::Document,
            label: FieldLabel::Unlabelled,
            named: true,
            extra: false,
            range: Range {
                start_byte: 0,
                end_byte: text.len(),
                start_point: Point { row: 0, column: 0 },
                end_point: Point { row: rows, column: last_line },
            },
            children,
        },
    }
}

fn parse(text: &str) -> SyntaxTree {
    parse_with(text, false)
}

fn database(files: &[&str], sigil: bool) -> Database {
    let mut db = Database::new();
    let ids: Vec<FileId> = (0..files.len() as u32).map(FileId).collect();
    db.set_projects(vec![Project { name: "default".to_string(), files: ids.clone() }]);
    for (id, text) in ids.iter().zip(files) {
        db.set_file_data(*id, FileData::new(text, parse_with(text, sigil)));
    }
    db
}

fn point(row: u32, column: u32) -> Point {
    Point { row, column }
}

fn position(file: FileId, row: u32, column: u32) -> Position {
    Position { file, point: point(row, column) }
}

fn span(a: u32, b: u32, x: u32, y: u32) -> Span {
    Span { start: point(a, b), end: point(x, y) }
}

fn sorted(mut locations: Vec<Location>) -> Vec<Location> {
    locations.sort_by_key(|l| (l.file, l.range.start, l.range.end));
    locations
}

fn item_map_entries(db: &Database, file: FileId) -> Vec<(String, Vec<u32>)> {
    let map = db.item_map(file).expect("the file has data");
    let mut out = Vec::new();
    for k in 0..map.len() {
        out.push((map.name_at(k).as_str().to_string(), map.indices_at(k).to_vec()));
    }
    out.sort();
    out
}

fn labels(items: &[CompletionItem]) -> Vec<String> {
    let mut out: Vec<String> = items.iter().map(|c| c.label.clone()).collect();
    out.sort();
    out
}

/// The marks of a fixture: a comment of dots marks a range in the line above
/// it, a comment of carets marks positions there.
fn marks(text: &str) -> (Vec<Span>, Vec<Point>) {
    let mut ranges = Vec::new();
    let mut points = Vec::new();
    for (row, line) in text.lines().enumerate() {
        let trimmed = line.trim_start();
        let hash = line.len() - trimmed.len();
        let rest = &trimmed[trimmed.len().min(1)..];
        if !trimmed.starts_with('#') || rest.is_empty() || row == 0 {
            continue;
        }
        let above = row as u32 - 1;
        let from = hash as u32 + 1;
        let to = from + rest.len() as u32;
        if rest.chars().all(|c| c == '.') {
            ranges.push(span(above, from, above, to));
        } else if rest.chars().all(|c| c == '^') {
            for column in from..to {
                points.push(point(above, column));
            }
        }
    }
    (ranges, points)
}

fn check_goto_fixture(files: &[&str]) {
    let db = database(files, false);
    let snapshot = db.snapshot();
    let mut expected = Vec::new();
    for (i, text) in files.iter().enumerate() {
        for range in marks(text).0 {
            expected.push(Location { file: FileId(i as u32), range });
        }
    }
    let expected = sorted(expected);
    let mut asked = 0;
    for (i, text) in files.iter().enumerate() {
        for at in marks(text).1 {
            let found = snapshot.goto_definition(Position { file: FileId(i as u32), point: at });
            assert_eq!(expected, sorted(found), "at {:?}", at);
            asked += 1;
        }
    }
    assert!(asked > 0);
}

#[test]
fn test_goto_definition_cross_file() {
    check_goto_fixture(&[
        "
type Foo {
    #...
    bar: Bar
}
",
        "
extend type Foo {
           #...
    i: Int!
}

type Bar {
    foo: Foo
        #^^^
}

type Baz {
    foo: Foo!
        #^^^^
}

type Qux {
    foo: [Foo!]!
        #^^^^^^^
}
            ",
    ]);
}

#[test]
fn test_goto_definition() {
    let db = database(
        &["
type Foo {
    bar: Bar
}

type Bar {
    foo: Foo
},
       "],
        false,
    );
    let foo = FileId(0);
    let snapshot = db.snapshot();
    let diagnostics = snapshot.file_diagnostics(foo);
    assert!(diagnostics.is_empty());

    let snapshot = db.snapshot();
    assert!(snapshot.name_at(position(foo, 0, 0)).is_none());

    assert!(snapshot.name_at(position(foo, 1, 0)).is_none());
    for j in 5..8 {
        assert_eq!(snapshot.name_at(position(foo, 1, j)), Some(Name::unranged("Foo")));
        assert_eq!(snapshot.name_at(position(foo, 1, j)), Some(Name::unranged("Foo")));
        assert_eq!(snapshot.name_at(position(foo, 1, j)), Some(Name::unranged("Foo")));
    }
    assert!(snapshot.name_at(position(foo, 1, 8)).is_none());

    assert!(snapshot.name_at(position(foo, 2, 8)).is_none());
    for j in 9..12 {
        assert_eq!(snapshot.name_at(position(foo, 2, j)), Some(Name::unranged("Bar")));
    }
    assert!(snapshot.name_at(position(foo, 2, 12)).is_none());

    assert!(snapshot.goto_definition(position(foo, 0, 0)).is_empty());
    assert_eq!(
        vec![Location { file: foo, range: span(1, 5, 1, 8) }],
        snapshot.goto_definition(position(foo, 1, 6)),
    );
}

const FOO_SCHEMA: &str = r#"
        type Foo @qux {
           bar: Bar @qux
        }

        type Foo {
            foo: Foo @d
        }

        type Bar {
            foo: Foo
        }

        extend type Bar implements Iface {
            i: Int! @qux
        }

        directive @qux on FIELD_DEFINITION | OBJECT

        scalar S @qux

        union U @qux = Foo | Bar

        input I @qux {
            foo: Foo @qux
        }

        interface Iface @qux {
            foo: Foo @qux
        }
    "#;

const BAR_SCHEMA: &str = r#"
        type Bar {
            baz: Baz
        }

        type Baz @foo {
            foo: Foo
        }

        directive @d on FIELD
    "#;

#[test]
fn test_definitions() {
    let db = database(&[FOO_SCHEMA, BAR_SCHEMA], false);
    let foo = FileId(0);
    let bar = FileId(1);

    assert_eq!(
        item_map_entries(&db, foo),
        vec![
            ("@qux".to_string(), vec![4]),
            ("Bar".to_string(), vec![2, 3]),
            ("Foo".to_string(), vec![0, 1]),
            ("I".to_string(), vec![7]),
            ("Iface".to_string(), vec![8]),
            ("S".to_string(), vec![5]),
            ("U".to_string(), vec![6]),
        ]
    );

    let resolutions = db.resolve(bar, &Name::unranged("Foo"));
    assert_eq!(
        resolutions.to_vec(),
        [ItemRes { file: foo, idx: 0 }, ItemRes { file: foo, idx: 1 }]
    );

    let mut resolutions = db.resolve(foo, &Name::unranged("Bar")).to_vec();
    resolutions.sort_by_key(|r| (r.file, r.idx));
    assert_eq!(
        resolutions,
        [
            ItemRes { file: foo, idx: 2 },
            ItemRes { file: foo, idx: 3 },
            ItemRes { file: bar, idx: 0 },
        ]
    );

    // `FIELD` is no location of the schema language, so `@d` defines nothing.
    let resolutions = db.resolve(bar, &Name::unranged("d"));
    assert_eq!(resolutions.to_vec(), []);
    assert!(db.resolve(bar, &Name::unranged("@d")).is_empty());
    assert!(db.resolve(bar, &Name::unranged("qux")).is_empty());
    assert_eq!(
        db.resolve(bar, &Name::unranged("@qux")).to_vec(),
        [ItemRes { file: foo, idx: 4 }]
    );

    let items = db.items(foo).expect("the file has data");
    assert_eq!(items.len(), 9);
    let expected = [
        ("Foo", 9, 59, (1, 8), (3, 9), ItemKind::TypeDefinition(0)),
        ("Foo", 69, 113, (5, 8), (7, 9), ItemKind::TypeDefinition(1)),
        ("Bar", 123, 164, (9, 8), (11, 9), ItemKind::TypeDefinition(2)),
        ("Bar", 174, 243, (13, 8), (15, 9), ItemKind::TypeDefinition(3)),
        ("@qux", 253, 296, (17, 8), (17, 51), ItemKind::DirectiveDefinition(0)),
        ("S", 306, 319, (19, 8), (19, 21), ItemKind::TypeDefinition(4)),
        ("U", 329, 353, (21, 8), (21, 32), ItemKind::TypeDefinition(5)),
        ("I", 363, 413, (23, 8), (25, 9), ItemKind::TypeDefinition(6)),
        ("Iface", 423, 481, (27, 8), (29, 9), ItemKind::TypeDefinition(7)),
    ];
    for (idx, (name, start, end, from, to, kind)) in expected.iter().enumerate() {
        let item = items.item(idx as u32).expect("the item exists");
        assert_eq!(item.name.as_str(), *name);
        assert_eq!(
            item.range,
            Range {
                start_byte: *start,
                end_byte: *end,
                start_point: point(from.0, from.1),
                end_point: point(to.0, to.1),
            }
        );
        assert_eq!(item.kind, *kind);
    }
    let first = items.typedef(0).expect("the definition exists");
    assert_eq!(first.directives.len(), 1);
    assert_eq!(first.directives[0].name.as_str(), "@qux");
    assert_eq!(
        first.directives[0].range,
        Range { start_byte: 18, end_byte: 22, start_point: point(1, 17), end_point: point(1, 21) }
    );
    assert_eq!(first.implementations, None);
    assert!(items.typedef(1).expect("the definition exists").directives.is_empty());
    let extension = items.typedef(3).expect("the definition exists");
    assert!(extension.is_ext);
    assert_eq!(extension.kind, TypeDefinitionKind::Object);
    assert!(extension.directives.is_empty());
    assert_eq!(extension.implementations, Some(vec![Name::unranged("Iface")]));
    assert!(items.typedef(8).is_none());
    let qux = items.directive(0).expect("the definition exists");
    assert!(qux.locations.contains(DirectiveLocation::FieldDefinition));
    assert!(qux.locations.contains(DirectiveLocation::Object));
    assert!(!qux.locations.contains(DirectiveLocation::InputObject));
    assert!(items.directive(1).is_none());

    let items = db.items(bar).expect("the file has data");
    assert_eq!(items.len(), 2);
    let bar_item = items.item(0).expect("the item exists");
    assert_eq!(bar_item.name.as_str(), "Bar");
    assert_eq!(
        bar_item.range,
        Range { start_byte: 9, end_byte: 50, start_point: point(1, 8), end_point: point(3, 9) }
    );
    let baz_item = items.item(1).expect("the item exists");
    assert_eq!(baz_item.name.as_str(), "Baz");
    assert_eq!(
        baz_item.range,
        Range { start_byte: 60, end_byte: 106, start_point: point(5, 8), end_point: point(7, 9) }
    );
    let baz = items.typedef(1).expect("the definition exists");
    assert_eq!(baz.directives.len(), 1);
    assert_eq!(baz.directives[0].name.as_str(), "@foo");
    assert_eq!(
        baz.directives[0].range,
        Range { start_byte: 69, end_byte: 73, start_point: point(5, 17), end_point: point(5, 21) }
    );
}

#[test]
fn cross_file_resolution_finds_the_only_definition() {
    let db = database(&["type Foo { bar: Bar }", "type Bar { foo: Foo }"], false);
    let found = db.resolve(FileId(0), &Name::unranged("Bar")).to_vec();
    assert_eq!(found, vec![ItemRes { file: FileId(1), idx: 0 }]);
    let snapshot = db.snapshot();
    let locations = snapshot.goto_definition(position(FileId(0), 0, 17));
    assert_eq!(locations, vec![Location { file: FileId(1), range: span(0, 5, 0, 8) }]);
}

#[test]
fn duplicate_definitions_are_all_kept() {
    let db = database(&["type Foo { a: Int } type Foo { b: Int }", "scalar Int"], false);
    assert_eq!(
        item_map_entries(&db, FileId(0)),
        vec![("Foo".to_string(), vec![0, 1])]
    );
    for file in [FileId(0), FileId(1)] {
        assert_eq!(
            db.resolve(file, &Name::unranged("Foo")).to_vec(),
            vec![ItemRes { file: FileId(0), idx: 0 }, ItemRes { file: FileId(0), idx: 1 }]
        );
    }
}

#[test]
fn extensions_are_items_beside_their_base() {
    let db = database(
        &["extend type Bar implements Iface @tag { i: Int! }", "type Bar { a: Bar }"],
        false,
    );
    let items = db.items(FileId(0)).expect("the file has data");
    assert_eq!(items.len(), 1);
    let extension = items.typedef(0).expect("the definition exists");
    assert!(extension.is_ext);
    assert_eq!(extension.kind, TypeDefinitionKind::Object);
    assert_eq!(extension.implementations, Some(vec![Name::unranged("Iface")]));
    assert_eq!(extension.directives.len(), 1);
    assert_eq!(extension.directives[0].name.as_str(), "@tag");
    assert_eq!(
        db.resolve(FileId(1), &Name::unranged("Bar")).to_vec(),
        vec![ItemRes { file: FileId(0), idx: 0 }, ItemRes { file: FileId(1), idx: 0 }]
    );
}

#[test]
fn every_kind_of_extension_is_lowered() {
    let db = database(
        &["extend enum E { A } extend interface I { a: E } extend scalar S extend union U = I \
           extend input In { a: E }"],
        false,
    );
    let items = db.items(FileId(0)).expect("the file has data");
    let kinds: Vec<TypeDefinitionKind> =
        (0..5).map(|i| items.typedef(i).expect("the definition exists").kind).collect();
    assert_eq!(
        kinds,
        vec![
            TypeDefinitionKind::Enum,
            TypeDefinitionKind::Interface,
            TypeDefinitionKind::Scalar,
            TypeDefinitionKind::Union,
            TypeDefinitionKind::Input,
        ]
    );
    assert!((0..5).all(|i| items.typedef(i).expect("the definition exists").is_ext));
}

#[test]
fn unresolved_type_gives_one_diagnostic_and_a_sentinel() {
    let db = database(&["type Foo { bar: Baz }"], false);
    let snapshot = db.snapshot();
    let diagnostics = snapshot.file_diagnostics(FileId(0));
    assert_eq!(diagnostics.len(), 1);
    let baz = Range { start_byte: 16, end_byte: 19, start_point: point(0, 16), end_point: point(0, 19) };
    assert_eq!(diagnostics[0].range, baz);
    assert_eq!(diagnostics[0].kind, DiagnosticKind::UnresolvedType(Name::unranged("Baz")));
    assert_eq!(diagnostics[0].code(), "E0002");
    assert_eq!(diagnostics[0].message(), "unresolved type `Baz`");

    let body = snapshot.item_body(ItemRes { file: FileId(0), idx: 0 }).expect("a type has a body");
    match body.kind {
        ItemBodyKind::Object(object) => {
            assert_eq!(object.fields.len(), 1);
            assert_eq!(object.fields[0].name.as_str(), "bar");
            assert_eq!(object.fields[0].ty.kind, TyKind::Unresolved(Name::unranged("Baz")));
            assert_eq!(object.fields[0].ty.range, baz);
            assert!(object.fields[0].ty.item_resolutions().is_empty());
            assert_eq!(object.fields[0].ty.name(), Name::unranged("Baz"));
        }
        other => panic!("not an object: {:?}", other),
    }
    assert_eq!(body.diagnostics.len(), 1);
}

#[test]
fn diagnostics_come_in_order_of_place() {
    let db = database(&["type A { b: Missing }\nbad gql\n"], false);
    let diagnostics = db.snapshot().file_diagnostics(FileId(0));
    let seen: Vec<(&str, u32, u32)> = diagnostics
        .iter()
        .map(|d| (d.code(), d.range.start_point.row, d.range.start_point.column))
        .collect();
    assert_eq!(seen, vec![("E0002", 0, 12), ("E0001", 1, 0)]);
    assert_eq!(diagnostics[1].kind, DiagnosticKind::Syntax);
    assert_eq!(diagnostics[1].message(), "syntax error");
    assert!(db.snapshot().file_diagnostics(FileId(7)).is_empty());
}

#[test]
fn completions_follow_the_context() {
    let schema = "type Foo {  }
input In { a: Foo }
enum E { A }
scalar S
union U = Foo
interface I { a: S }
directive @onfield on FIELD_DEFINITION
directive @onobject on OBJECT
";
    let db = database(&[schema], true);
    let snapshot = db.snapshot();

    let inside = snapshot.completions(FileId(0), point(0, 11));
    assert_eq!(labels(&inside), vec!["@onfield", "E", "Foo", "I", "S", "U"]);
    assert!(inside.iter().all(|c| c.kind != CompletionItemKind::Keyword));
    assert!(inside.iter().all(|c| c.kind != CompletionItemKind::InputObject));

    let top = snapshot.completions(FileId(0), point(8, 0));
    let top_labels: Vec<&str> = top.iter().map(|c| c.label.as_str()).collect();
    assert_eq!(
        top_labels,
        vec!["scalar", "enum", "struct", "union", "interface", "directive", "input"]
    );
    assert!(top.iter().all(|c| c.kind == CompletionItemKind::Keyword));

    let input = snapshot.completions(FileId(0), point(1, 10));
    assert_eq!(labels(&input), vec!["E", "In", "S"]);

    let members = snapshot.completions(FileId(0), point(4, 8));
    assert_eq!(labels(&members), vec!["Foo"]);
}

#[test]
fn directive_locations_gate_completions() {
    let schema = "directive @qux on FIELD_DEFINITION | OBJECT | INPUT_OBJECT
type Foo @qux { a: Foo }
enum E { A }
";
    let db = database(&[schema], true);
    let items = db.items(FileId(0)).expect("the file has data");
    let qux = items.directive(0).expect("the definition exists");
    let expected = DirectiveLocation::FieldDefinition.bit()
        | DirectiveLocation::Object.bit()
        | DirectiveLocation::InputObject.bit();
    assert_eq!(qux.locations.bits, expected);
    assert_eq!(expected, 0x008 | 0x080 | 0x020);

    let snapshot = db.snapshot();
    let object = snapshot.completions(FileId(0), point(1, 5));
    assert_eq!(labels(&object), vec!["@qux"]);
    assert_eq!(object[0].kind, CompletionItemKind::Directive(qux.locations));
    let value = snapshot.completions(FileId(0), point(2, 9));
    assert!(value.is_empty());
}

#[test]
fn unknown_location_drops_the_directive_only() {
    let db = database(&["directive @d on QUERY | OBJECT\ntype A { a: A }"], false);
    let items = db.items(FileId(0)).expect("the file has data");
    assert_eq!(items.len(), 1);
    assert_eq!(items.item(0).expect("the item exists").name.as_str(), "A");
    assert!(items.directive(0).is_none());
}

#[test]
fn resolution_is_the_union_of_the_item_maps_of_the_project() {
    let files = ["type A { a: A } scalar B", "type A { a: B } type B { b: A }", "scalar C"];
    let db = database(&files, false);
    for name in ["A", "B", "C", "D"] {
        for from in 0..3u32 {
            let found = db.resolve(FileId(from), &Name::unranged(name)).to_vec();
            let mut expected = Vec::new();
            for g in 0..3u32 {
                if let Some(indices) = db.item_map(FileId(g)).unwrap().get(&Name::unranged(name)) {
                    for idx in indices.to_vec() {
                        expected.push(ItemRes { file: FileId(g), idx });
                    }
                }
            }
            let mut in_order = found.clone();
            in_order.sort_by_key(|r| (r.file, r.idx));
            assert_eq!(in_order, expected);
            assert_eq!(found, expected);
        }
    }
}

#[test]
fn resolution_keeps_to_the_neighborhood() {
    let mut db = Database::new();
    db.set_projects(vec![
        Project { name: "one".to_string(), files: vec![FileId(0), FileId(1)] },
        Project { name: "two".to_string(), files: vec![FileId(1), FileId(2)] },
    ]);
    for (i, text) in ["type A { a: A }", "type B { a: A }", "type A { b: B }"].iter().enumerate() {
        db.set_file_data(FileId(i as u32), FileData::new(text, parse(text)));
    }
    assert_eq!(db.project_of(FileId(0)), vec![FileId(0), FileId(1)]);
    assert_eq!(db.project_of(FileId(1)), vec![FileId(0), FileId(1), FileId(2)]);
    assert_eq!(db.project_of(FileId(9)), Vec::<FileId>::new());
    assert_eq!(db.files(), vec![FileId(0), FileId(1), FileId(2)]);
    let a = Name::unranged("A");
    assert_eq!(db.resolve(FileId(0), &a).to_vec(), vec![ItemRes { file: FileId(0), idx: 0 }]);
    assert_eq!(
        db.resolve(FileId(1), &a).to_vec(),
        vec![ItemRes { file: FileId(0), idx: 0 }, ItemRes { file: FileId(2), idx: 0 }]
    );
    assert!(db.resolve(FileId(9), &a).is_empty());
}

#[test]
fn edits_inside_a_body_keep_the_item_map() {
    let mut db = database(&["type A { a: A }\nscalar B", "type C { a: A }"], false);
    let before = item_map_entries(&db, FileId(0));
    let other = item_map_entries(&db, FileId(1));
    let resolved = db.resolve(FileId(1), &Name::unranged("A")).to_vec();
    let edited = "type A {\n  a: A\n  b: B\n}\n\nscalar B";
    db.set_file_data(FileId(0), FileData::new(edited, parse(edited)));
    assert_eq!(item_map_entries(&db, FileId(0)), before);
    assert_eq!(item_map_entries(&db, FileId(1)), other);
    assert_eq!(db.resolve(FileId(1), &Name::unranged("A")).to_vec(), resolved);
}

#[test]
fn edits_that_rename_show_in_the_neighbors() {
    let mut db = database(&["type A { a: A }", "type C { a: A }"], false);
    let renamed = "type Z { a: Z }";
    db.set_file_data(FileId(0), FileData::new(renamed, parse(renamed)));
    assert!(db.resolve(FileId(1), &Name::unranged("A")).is_empty());
    assert_eq!(item_map_entries(&db, FileId(1)), vec![("C".to_string(), vec![0])]);
}

#[test]
fn name_at_is_stable_under_whitespace_between_tokens() {
    let tight = database(&["type Foo { bar: Bar }"], false);
    let loose = database(&["type   Foo   {\n\n    bar:    Bar\n}"], false);
    let a = tight.snapshot().name_at(position(FileId(0), 0, 16));
    let b = loose.snapshot().name_at(position(FileId(0), 2, 12));
    assert_eq!(a, Some(Name::unranged("Bar")));
    assert_eq!(a, b);
    let a = tight.snapshot().name_at(position(FileId(0), 0, 5));
    let b = loose.snapshot().name_at(position(FileId(0), 0, 7));
    assert_eq!(a, Some(Name::unranged("Foo")));
    assert_eq!(a, b);
}

#[test]
fn goto_definition_in_a_single_file_stays_in_the_file() {
    let text = "type A { a: B }\ntype B { a: A }\nextend type B { c: A }";
    let db = database(&[text], false);
    let snapshot = db.snapshot();
    let mut asked = 0;
    for row in 0..3 {
        for column in 0..24 {
            for location in snapshot.goto_definition(position(FileId(0), row, column)) {
                assert_eq!(location.file, FileId(0));
                asked += 1;
            }
        }
    }
    assert!(asked > 0);
    assert_eq!(
        snapshot.goto_definition(position(FileId(0), 0, 12)),
        vec![
            Location { file: FileId(0), range: span(1, 5, 1, 6) },
            Location { file: FileId(0), range: span(2, 12, 2, 13) },
        ]
    );
}

#[test]
fn references_list_every_bearer_of_the_name() {
    let db = database(&["type A { a: B }", "type B { a: A }\nextend type B { c: A }"], false);
    let snapshot = db.snapshot();
    let at = position(FileId(0), 0, 12);
    let expected = vec![
        Location { file: FileId(1), range: span(0, 5, 0, 6) },
        Location { file: FileId(1), range: span(1, 12, 1, 13) },
    ];
    assert_eq!(snapshot.references(at), expected);
    assert_eq!(snapshot.goto_definition(at), expected);
    assert!(snapshot.references(position(FileId(0), 0, 0)).is_empty());
}

#[test]
fn bodies_are_lowered_by_kind() {
    let schema = r#"type T { f(a: Int = 3, b: [S!]! = [1, 2] @tag): T @tag }
input In { x: S = "hi" y: E = RED z: In = { x: "a", y: null } w: Flt = 1.5 v: B = true }
enum E { RED GREEN }
union U = T | Gone
scalar S
scalar Int
scalar Flt
scalar B
interface I { g: I }
"#;
    let db = database(&[schema], false);
    let snapshot = db.snapshot();
    let body = |idx: u32| snapshot.item_body(ItemRes { file: FileId(0), idx }).expect("a body");

    match body(0).kind {
        ItemBodyKind::Object(object) => {
            let f = &object.fields[0];
            assert_eq!(f.name.as_str(), "f");
            assert_eq!(f.ty.item_resolutions(), [ItemRes { file: FileId(0), idx: 0 }]);
            assert_eq!(f.directives.len(), 1);
            assert_eq!(f.default_value, None);
            assert_eq!(f.args.len(), 2);
            assert_eq!(f.args[0].name.as_str(), "a");
            assert_eq!(f.args[0].default_value, Some(Value::Int(3)));
            assert_eq!(
                f.args[1].default_value,
                Some(Value::List(vec![Value::Int(1), Value::Int(2)]))
            );
            assert_eq!(f.args[1].directives.len(), 1);
            match &f.args[1].ty.kind {
                TyKind::NonNull(list) => match &list.kind {
                    TyKind::List(inner) => match &inner.kind {
                        TyKind::NonNull(named) => {
                            assert_eq!(named.name(), Name::unranged("S"));
                            assert_eq!(
                                named.item_resolutions(),
                                [ItemRes { file: FileId(0), idx: 4 }]
                            );
                        }
                        other => panic!("not non-null: {:?}", other),
                    },
                    other => panic!("not a list: {:?}", other),
                },
                other => panic!("not non-null: {:?}", other),
            }
            assert_eq!(f.args[1].ty.name(), Name::unranged("S"));
            assert_eq!(f.args[1].ty.written(), "[S!]!");
            assert_eq!(f.ty.written(), "T");
            assert_eq!(f.args[1].ty.item_resolutions(), [ItemRes { file: FileId(0), idx: 4 }]);
        }
        other => panic!("not an object: {:?}", other),
    }
    match body(1).kind {
        ItemBodyKind::InputObject(input) => {
            let values: Vec<Option<Value>> =
                input.fields.into_iter().map(|f| f.default_value).collect();
            assert_eq!(
                values,
                vec![
                    Some(Value::String("hi".to_string())),
                    Some(Value::Enum("RED".to_string())),
                    Some(Value::Object(vec![
                        (Name::unranged("x"), Value::String("a".to_string())),
                        (Name::unranged("y"), Value::Null),
                    ])),
                    Some(Value::Float("1.5".to_string())),
                    Some(Value::Boolean(true)),
                ]
            );
        }
        other => panic!("not an input object: {:?}", other),
    }
    match body(2).kind {
        ItemBodyKind::Enum(e) => {
            let names: Vec<&str> = e.variants.iter().map(|v| v.name.as_str()).collect();
            assert_eq!(names, vec!["RED", "GREEN"]);
        }
        other => panic!("not an enum: {:?}", other),
    }
    let union = body(3);
    match union.kind {
        ItemBodyKind::Union(u) => {
            assert_eq!(u.types.len(), 2);
            assert_eq!(u.types[0].item_resolutions(), [ItemRes { file: FileId(0), idx: 0 }]);
            assert_eq!(u.types[1].kind, TyKind::Unresolved(Name::unranged("Gone")));
        }
        other => panic!("not a union: {:?}", other),
    }
    assert_eq!(union.diagnostics.len(), 1);
    assert!(matches!(body(4).kind, ItemBodyKind::Todo));
    assert!(matches!(body(8).kind, ItemBodyKind::Interface(_)));
    assert!(snapshot.item_body(ItemRes { file: FileId(0), idx: 99 }).is_none());
    assert!(snapshot.item_body(ItemRes { file: FileId(3), idx: 0 }).is_none());
}

#[test]
fn queries_on_a_file_without_data_are_empty() {
    let db = database(&["type A { a: A }"], false);
    let snapshot = db.snapshot();
    let nowhere = FileId(5);
    assert!(snapshot.file_syntax_tree(nowhere).is_none());
    assert!(snapshot.file_syntax_tree(FileId(0)).is_some());
    assert!(snapshot.name_at(position(nowhere, 0, 5)).is_none());
    assert!(snapshot.goto_definition(position(nowhere, 0, 5)).is_empty());
    assert!(snapshot.semantic_tokens(nowhere).is_empty());
    assert_eq!(snapshot.completions(nowhere, point(0, 0)).len(), 7);
    assert!(db.items(nowhere).is_none());
    assert!(db.item_map(nowhere).is_none());
    assert!(db.item(ItemRes { file: FileId(0), idx: 1 }).is_none());
    assert_eq!(db.item(ItemRes { file: FileId(0), idx: 0 }).unwrap().name.as_str(), "A");
}

#[test]
fn semantic_tokens_are_placed_relative_to_each_other() {
    let text = "# note\ntype Foo {\n  bar: Baz\n}\n";
    let db = database(&[text], false);
    let tokens = db.snapshot().semantic_tokens(FileId(0));
    let seen: Vec<(u32, u32, u32, u32, u32)> = tokens
        .iter()
        .map(|t| (t.delta_line, t.delta_start, t.length, t.token_type, t.modifiers))
        .collect();
    assert_eq!(seen, vec![(0, 0, 6, 7, 0), (1, 5, 3, 0, 1), (1, 2, 3, 1, 0), (0, 5, 3, 0, 0)]);
}

#[test]
fn the_type_graph_reads_bodies_and_headers() {
    let db = database(
        &[
            "interface Node { id: ID }
type A implements Node & Gone { f(x: Int, y: [A]): A g: ID }
union U = A | B
scalar ID
scalar Int",
            "type B implements Node { id: ID }
extend type A implements Node { h: B }
directive @d on OBJECT",
        ],
        false,
    );
    let snapshot = db.snapshot();
    let body = |file: u32, idx: u32| {
        snapshot.item_body(ItemRes { file: FileId(file), idx }).expect("a body")
    };

    let fields = field_types(body(0, 1));
    let names: Vec<&str> = fields.iter().map(|f| f.name.as_str()).collect();
    assert_eq!(names, vec!["f", "g"]);
    assert_eq!(fields[0].ty.name(), Name::unranged("A"));
    assert_eq!(
        fields[0].ty.item_resolutions(),
        [ItemRes { file: FileId(0), idx: 1 }, ItemRes { file: FileId(1), idx: 1 }]
    );
    assert!(field_types(body(0, 2)).is_empty());
    assert!(field_types(body(0, 3)).is_empty());

    let args = arg_types(body(0, 1), &Name::unranged("f"));
    let names: Vec<&str> = args.iter().map(|a| a.name.as_str()).collect();
    assert_eq!(names, vec!["x", "y"]);
    assert_eq!(args[0].ty.item_resolutions(), [ItemRes { file: FileId(0), idx: 4 }]);
    assert!(matches!(args[1].ty.kind, TyKind::List(_)));
    assert!(arg_types(body(0, 1), &Name::unranged("g")).is_empty());
    assert!(arg_types(body(0, 1), &Name::unranged("nope")).is_empty());
    assert!(arg_types(body(0, 2), &Name::unranged("f")).is_empty());

    let members = union_members(body(0, 2));
    assert_eq!(members.len(), 2);
    assert_eq!(members[1].item_resolutions(), [ItemRes { file: FileId(1), idx: 0 }]);
    assert!(union_members(body(0, 1)).is_empty());

    assert_eq!(
        implements(&db, ItemRes { file: FileId(0), idx: 1 }),
        vec![ItemRes { file: FileId(0), idx: 0 }]
    );
    assert_eq!(
        implements(&db, ItemRes { file: FileId(1), idx: 1 }),
        vec![ItemRes { file: FileId(0), idx: 0 }]
    );
    assert!(implements(&db, ItemRes { file: FileId(0), idx: 0 }).is_empty());
    assert!(implements(&db, ItemRes { file: FileId(1), idx: 2 }).is_empty());
    assert!(implements(&db, ItemRes { file: FileId(1), idx: 9 }).is_empty());
    assert!(implements(&db, ItemRes { file: FileId(4), idx: 0 }).is_empty());

    assert_eq!(
        implementors(&db, FileId(1), &Name::unranged("Node")),
        vec![
            ItemRes { file: FileId(0), idx: 1 },
            ItemRes { file: FileId(1), idx: 0 },
            ItemRes { file: FileId(1), idx: 1 },
        ]
    );
    assert_eq!(
        implementors(&db, FileId(0), &Name::unranged("Gone")),
        vec![ItemRes { file: FileId(0), idx: 1 }]
    );
    assert!(implementors(&db, FileId(0), &Name::unranged("A")).is_empty());
    assert!(implementors(&db, FileId(7), &Name::unranged("Node")).is_empty());
}

#[test]
fn replacing_a_file_replaces_what_is_derived() {
    let mut db = database(&["type A { a: A }"], false);
    assert_eq!(Database::new().revision(), 0);
    assert_eq!(db.revision(), 2);
    assert_eq!(db.snapshot().revision(), 2);
    assert_eq!(db.projects().len(), 1);
    assert_eq!(db.file_data(FileId(0)).unwrap().text, "type A { a: A }");
    let next = "scalar B\nscalar C";
    db.set_file_data(FileId(0), FileData::new(next, parse(next)));
    assert_eq!(db.revision(), 3);
    assert_eq!(db.file_data(FileId(0)).unwrap().text, next);
    assert_eq!(db.items(FileId(0)).unwrap().len(), 2);
    assert_eq!(
        item_map_entries(&db, FileId(0)),
        vec![("B".to_string(), vec![0]), ("C".to_string(), vec![1])]
    );
    assert!(db.resolve(FileId(0), &Name::unranged("A")).is_empty());
    assert!(db.file_data(FileId(1)).is_none());
    db.set_projects(Vec::new());
    assert!(db.files().is_empty());
    assert!(db.resolve(FileId(0), &Name::unranged("B")).is_empty());
    assert_eq!(db.items(FileId(0)).unwrap().len(), 2);
    match db.resolve_item(FileId(0), &Name::unranged("B")) {
        gqls::ty::Res::Unresolved => {}
        other => panic!("resolved outside any project: {:?}", other),
    }
    db.set_projects(vec![Project { name: "p".to_string(), files: vec![FileId(0)] }]);
    match db.resolve_item(FileId(0), &Name::unranged("B")) {
        gqls::ty::Res::Item(items) => {
            assert_eq!(items.to_vec(), vec![ItemRes { file: FileId(0), idx: 0 }])
        }
        other => panic!("unresolved: {:?}", other),
    }
}

#[test]
fn the_context_is_sought_ten_columns_to_the_left() {
    let text = "type T { a: T }            \n\nscalar S\n";
    let db = database(&[text], false);
    let snapshot = db.snapshot();
    let keywords = |at: Point| {
        let found = snapshot.completions(FileId(0), at);
        found.len() == 7 && found.iter().all(|c| c.kind == CompletionItemKind::Keyword)
    };
    for column in 14..24 {
        let found = snapshot.completions(FileId(0), point(0, column));
        assert_eq!(labels(&found), vec!["S", "T"], "at column {column}");
    }
    assert!(keywords(point(0, 24)));
    assert!(keywords(point(0, 26)));
    assert!(keywords(point(1, 0)));
    assert!(keywords(point(9, 9)));
    assert!(snapshot.completions(FileId(0), point(2, 0)).is_empty());
    let found = snapshot.completions(FileId(0), point(0, 5));
    assert!(found.is_empty());

    // at the end of a text the point lies in no node, and the search goes on
    let ended = database(&["type T { a: T }"], false);
    let at_end = ended.snapshot().completions(FileId(0), point(0, 15));
    assert_eq!(labels(&at_end), vec!["T"]);
}

#[test]
fn the_context_is_sought_from_the_end_of_a_text() {
    let db = database(&["type T { a: T }"], false);
    let snapshot = db.snapshot();
    for column in 15..24 {
        let found = snapshot.completions(FileId(0), point(0, column));
        assert_eq!(labels(&found), vec!["T"], "at column {column}");
    }
    let far = snapshot.completions(FileId(0), point(0, 24));
    assert_eq!(far.len(), 7);
    assert!(far.iter().all(|c| c.kind == CompletionItemKind::Keyword));
    let below = snapshot.completions(FileId(0), point(3, 0));
    assert_eq!(below.len(), 7);
}

#[test]
fn a_type_and_a_directive_never_share_a_name() {
    for sigil in [false, true] {
        let db = database(&["type qux { a: qux @qux } directive @qux on FIELD_DEFINITION"], sigil);
        assert_eq!(
            item_map_entries(&db, FileId(0)),
            vec![("@qux".to_string(), vec![1]), ("qux".to_string(), vec![0])]
        );
        assert_eq!(
            db.resolve(FileId(0), &Name::unranged("qux")).to_vec(),
            vec![ItemRes { file: FileId(0), idx: 0 }]
        );
        assert_eq!(
            db.resolve(FileId(0), &Name::unranged("@qux")).to_vec(),
            vec![ItemRes { file: FileId(0), idx: 1 }]
        );
        let snapshot = db.snapshot();
        // on the `qux` of the type, of the field's type, and of the directive's use
        assert_eq!(snapshot.name_at(position(FileId(0), 0, 6)), Some(Name::unranged("qux")));
        assert_eq!(snapshot.name_at(position(FileId(0), 0, 14)), Some(Name::unranged("qux")));
        assert_eq!(snapshot.name_at(position(FileId(0), 0, 19)), Some(Name::unranged("@qux")));
        assert_eq!(snapshot.name_at(position(FileId(0), 0, 37)), Some(Name::unranged("@qux")));
        let definitions = snapshot.goto_definition(position(FileId(0), 0, 19));
        assert_eq!(definitions.len(), 1);
        assert_eq!(definitions[0].range.start, point(0, if sigil { 35 } else { 36 }));
        let body = snapshot.item_body(ItemRes { file: FileId(0), idx: 0 }).expect("a body");
        match body.kind {
            ItemBodyKind::Object(object) => {
                assert_eq!(object.fields[0].directives[0].name.as_str(), "@qux")
            }
            other => panic!("not an object: {:?}", other),
        }
    }
}

#[test]
fn a_part_that_does_not_lower_is_dropped_with_a_diagnostic() {
    let schema = "input In {
  a: Int = 99999999999999999999999999
  b: Int = [1, 99999999999999999999999999]
  c: Int = 7
  d
  e: Gone = 99999999999999999999999999
}
type T { f(x y: Int): T g h: Int }
enum E { A }
union U = T
scalar Int
";
    let db = database(&[schema], false);
    let snapshot = db.snapshot();
    let input = snapshot.item_body(ItemRes { file: FileId(0), idx: 0 }).expect("a body");
    let seen: Vec<(&str, u32, u32)> = input
        .diagnostics
        .iter()
        .map(|d| (d.code(), d.range.start_point.row, d.range.start_point.column))
        .collect();
    assert_eq!(
        seen,
        vec![("E0003", 1, 9), ("E0003", 2, 9), ("E0003", 4, 2), ("E0002", 5, 5), ("E0003", 5, 10)]
    );
    assert_eq!(input.diagnostics[0].kind, DiagnosticKind::Malformed);
    assert_eq!(input.diagnostics[0].message(), "malformed definition");
    assert_eq!(input.diagnostics[0].code_number(), 3);
    match input.kind {
        ItemBodyKind::InputObject(body) => {
            let fields: Vec<(&str, &Option<Value>)> =
                body.fields.iter().map(|f| (f.name.as_str(), &f.default_value)).collect();
            assert_eq!(
                fields,
                vec![("a", &None), ("b", &None), ("c", &Some(Value::Int(7))), ("e", &None)]
            );
        }
        other => panic!("not an input object: {:?}", other),
    }
    let object = snapshot.item_body(ItemRes { file: FileId(0), idx: 1 }).expect("a body");
    let seen: Vec<(&str, u32, u32)> = object
        .diagnostics
        .iter()
        .map(|d| (d.code(), d.range.start_point.row, d.range.start_point.column))
        .collect();
    assert_eq!(seen, vec![("E0003", 7, 11), ("E0003", 7, 24)]);
    match object.kind {
        ItemBodyKind::Object(body) => {
            let fields: Vec<&str> = body.fields.iter().map(|f| f.name.as_str()).collect();
            assert_eq!(fields, vec!["f", "h"]);
            let args: Vec<&str> = body.fields[0].args.iter().map(|a| a.name.as_str()).collect();
            assert_eq!(args, vec!["y"]);
        }
        other => panic!("not an object: {:?}", other),
    }
    let all = snapshot.file_diagnostics(FileId(0));
    let codes: Vec<&str> = all.iter().map(|d| d.code()).collect();
    assert_eq!(codes, vec!["E0003", "E0003", "E0003", "E0002", "E0003", "E0003", "E0003"]);
}

#[test]
fn an_interface_is_implemented_once() {
    let db = database(&["type T implements A & B & A & A & C & B { a: T }"], false);
    let items = db.items(FileId(0)).expect("the file has data");
    let definition = items.typedef(0).expect("the definition exists");
    assert_eq!(
        definition.implementations,
        Some(vec![Name::unranged("A"), Name::unranged("B"), Name::unranged("C")])
    );
    assert_eq!(definition.implementations.as_ref().unwrap()[0].range.unwrap().start_byte, 18);
}
