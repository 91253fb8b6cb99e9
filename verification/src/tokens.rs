//! Semantic tokens: the stretches of a file that an editor colours, in the
//! order of the text, each placed relative to the one before it.

use vstd::prelude::*;
use crate::syntax::{NodeKind, Point, SyntaxNode};

verus! {

/// What a token is coloured as.
#[derive(Clone, Copy, Debug, PartialEq, Eq, Hash, Structural)]
pub enum TokenType {
    Type,
    Property,
    EnumMember,
    Decorator,
    String,
    Number,
    Keyword,
    Comment,
}

impl TokenType {
    /// The number that stands for the token type. It never changes.
    pub open spec fn spec_ordinal(self) -> u32 {
        match self {
            TokenType::Type => 0,
            TokenType::Property => 1,
            TokenType::EnumMember => 2,
            TokenType::Decorator => 3,
            TokenType::String => 4,
            TokenType::Number => 5,
            TokenType::Keyword => 6,
            TokenType::Comment => 7,
        }
    }

    pub fn ordinal(self) -> (n: u32)
        ensures
            n == self.spec_ordinal(),
    {
        match self {
            TokenType::Type => 0,
            TokenType::Property => 1,
            TokenType::EnumMember => 2,
            TokenType::Decorator => 3,
            TokenType::String => 4,
            TokenType::Number => 5,
            TokenType::Keyword => 6,
            TokenType::Comment => 7,
        }
    }
}

/// The modifier bit of a name that is being defined.
pub const DEFINITION: u32 = 1;

/// A token at its place in the text.
#[derive(Clone, Copy, Debug, PartialEq, Eq, Hash, Structural)]
pub struct Token {
    pub start: Point,
    pub length: u32,
    pub token_type: TokenType,
    pub modifiers: u32,
}

/// A token placed relative to the token before it: so many lines further
/// down and, if on the same line, so many columns further right; on a new
/// line, `delta_start` is the column itself.
#[derive(Clone, Copy, Debug, PartialEq, Eq, Hash, Structural)]
pub struct TokenDelta {
    pub delta_line: u32,
    pub delta_start: u32,
    pub length: u32,
    pub token_type: u32,
    pub modifiers: u32,
}

/// Whether a node of this kind defines the name below it.
pub open spec fn defines_type(kind: NodeKind) -> bool {
    match kind {
        NodeKind::ObjectTypeDefinition
        | NodeKind::InterfaceTypeDefinition
        | NodeKind::ScalarTypeDefinition
        | NodeKind::EnumTypeDefinition
        | NodeKind::UnionTypeDefinition
        | NodeKind::InputObjectTypeDefinition
        | NodeKind::ObjectTypeExtension
        | NodeKind::InterfaceTypeExtension
        | NodeKind::ScalarTypeExtension
        | NodeKind::EnumTypeExtension
        | NodeKind::UnionTypeExtension
        | NodeKind::InputObjectTypeExtension => true,
        _ => false,
    }
}

/// How a node is coloured, going by its kind and the kind of its parent.
/// A node that is coloured is one token; its children are not looked at.
pub open spec fn classify(parent: NodeKind, kind: NodeKind) -> Option<(TokenType, u32)> {
    match kind {
        NodeKind::Comment => Some((TokenType::Comment, 0u32)),
        NodeKind::StringValue | NodeKind::Description => Some((TokenType::String, 0u32)),
        NodeKind::IntValue | NodeKind::FloatValue => Some((TokenType::Number, 0u32)),
        NodeKind::BooleanValue | NodeKind::NullValue => Some((TokenType::Keyword, 0u32)),
        NodeKind::EnumValue => Some((TokenType::EnumMember, 0u32)),
        NodeKind::DirectiveName => Some((TokenType::Decorator, 0u32)),
        NodeKind::NamedType => Some((TokenType::Type, 0u32)),
        NodeKind::Name => if defines_type(parent) {
            Some((TokenType::Type, DEFINITION))
        } else if parent == NodeKind::Directive || parent == NodeKind::DirectiveDefinition {
            Some((TokenType::Decorator, 0u32))
        } else if parent == NodeKind::FieldDefinition || parent == NodeKind::InputValueDefinition
            || parent == NodeKind::ObjectField {
            Some((TokenType::Property, 0u32))
        } else {
            None
        },
        _ => None,
    }
}

/// The tokens of a subtree, in preorder. A coloured node that does not lie
/// on one line gives no token.
pub open spec fn tokens_in(parent: NodeKind, node: SyntaxNode) -> Seq<Token>
    decreases node, 1int, 0int,
{
    match classify(parent, node.kind) {
        Some((token_type, modifiers)) => {
            let start = node.range.start_point;
            let end = node.range.end_point;
            if start.row == end.row && start.column <= end.column {
                seq![
                    Token {
                        start,
                        length: (end.column - start.column) as u32,
                        token_type,
                        modifiers,
                    },
                ]
            } else {
                Seq::empty()
            }
        },
        None => tokens_in_children(node, node.children@.len() as int),
    }
}

/// The tokens of the subtrees of the first `upto` children.
pub open spec fn tokens_in_children(node: SyntaxNode, upto: int) -> Seq<Token>
    decreases node, 0int, upto,
{
    if upto <= 0 || upto > node.children@.len() {
        Seq::empty()
    } else {
        tokens_in_children(node, upto - 1) + tokens_in(node.kind, node.children@[upto - 1])
    }
}

/// The tokens from index `from` on, each placed relative to the one before
/// it, the first relative to `prev`. A token that starts before the one
/// before it is left out.
pub open spec fn encode_from(tokens: Seq<Token>, from: int, prev: Point) -> Seq<TokenDelta>
    decreases tokens.len() - from,
{
    if from < 0 || from >= tokens.len() {
        Seq::empty()
    } else {
        let t = tokens[from];
        if t.start.spec_lt(prev) {
            encode_from(tokens, from + 1, prev)
        } else {
            seq![
                TokenDelta {
                    delta_line: (t.start.row - prev.row) as u32,
                    delta_start: if t.start.row == prev.row {
                        (t.start.column - prev.column) as u32
                    } else {
                        t.start.column
                    },
                    length: t.length,
                    token_type: t.token_type.spec_ordinal(),
                    modifiers: t.modifiers,
                },
            ] + encode_from(tokens, from + 1, t.start)
        }
    }
}

/// The semantic tokens of a tree, the first placed relative to the start of
/// the text.
pub open spec fn spec_semantic_tokens(root: SyntaxNode) -> Seq<TokenDelta> {
    encode_from(tokens_in(NodeKind::Document, root), 0, Point { row: 0, column: 0 })
}

/// The places that a sequence of deltas stands for, the first relative to `prev`.
pub open spec fn decode_from(deltas: Seq<TokenDelta>, from: int, prev: Point) -> Seq<Point>
    decreases deltas.len() - from,
{
    if from < 0 || from >= deltas.len() {
        Seq::empty()
    } else {
        let d = deltas[from];
        let at = Point {
            row: (prev.row + d.delta_line) as u32,
            column: if d.delta_line == 0 {
                (prev.column + d.delta_start) as u32
            } else {
                d.delta_start
            },
        };
        seq![at] + decode_from(deltas, from + 1, at)
    }
}

/// The tokens from index `from` on that are not left out by `encode_from`.
pub open spec fn kept_from(tokens: Seq<Token>, from: int, prev: Point) -> Seq<Point>
    decreases tokens.len() - from,
{
    if from < 0 || from >= tokens.len() {
        Seq::empty()
    } else if tokens[from].start.spec_lt(prev) {
        kept_from(tokens, from + 1, prev)
    } else {
        seq![tokens[from].start] + kept_from(tokens, from + 1, tokens[from].start)
    }
}

/// Reading the deltas back gives the places of the tokens they were made from.
pub proof fn lemma_decode_encode(tokens: Seq<Token>, from: int, prev: Point)
    requires
        0 <= from,
    ensures
        decode_from(encode_from(tokens, from, prev), 0, prev) == kept_from(tokens, from, prev),
    decreases tokens.len() - from,
{
    if from < tokens.len() {
        let t = tokens[from];
        if t.start.spec_lt(prev) {
            lemma_decode_encode(tokens, from + 1, prev);
        } else {
            lemma_decode_encode(tokens, from + 1, t.start);
            let rest = encode_from(tokens, from + 1, t.start);
            let all = encode_from(tokens, from, prev);
            assert(all.len() == rest.len() + 1);
            lemma_decode_shift(all, rest, 1, 0, t.start);
            assert(decode_from(all, 0, prev) =~= seq![t.start] + decode_from(all, 1, t.start));
        }
    } else {
        assert(encode_from(tokens, from, prev).len() == 0);
    }
}

proof fn lemma_decode_shift(
    all: Seq<TokenDelta>,
    rest: Seq<TokenDelta>,
    at: int,
    from: int,
    prev: Point,
)
    requires
        0 <= from,
        at == from + 1,
        all.len() == rest.len() + 1,
        forall|i: int| 0 <= i < rest.len() ==> all[i + 1] == rest[i],
    ensures
        decode_from(all, at, prev) == decode_from(rest, from, prev),
    decreases rest.len() - from,
{
    if from < rest.len() {
        let d = rest[from];
        assert(all[at] == d);
        let next = Point {
            row: (prev.row + d.delta_line) as u32,
            column: if d.delta_line == 0 {
                (prev.column + d.delta_start) as u32
            } else {
                d.delta_start
            },
        };
        lemma_decode_shift(all, rest, at + 1, from + 1, next);
    }
}

fn defines_type_kind(kind: NodeKind) -> (b: bool)
    ensures
        b == defines_type(kind),
{
    match kind {
        NodeKind::ObjectTypeDefinition
        | NodeKind::InterfaceTypeDefinition
        | NodeKind::ScalarTypeDefinition
        | NodeKind::EnumTypeDefinition
        | NodeKind::UnionTypeDefinition
        | NodeKind::InputObjectTypeDefinition
        | NodeKind::ObjectTypeExtension
        | NodeKind::InterfaceTypeExtension
        | NodeKind::ScalarTypeExtension
        | NodeKind::EnumTypeExtension
        | NodeKind::UnionTypeExtension
        | NodeKind::InputObjectTypeExtension => true,
        _ => false,
    }
}

/// How a node is coloured.
pub fn classify_node(parent: NodeKind, kind: NodeKind) -> (r: Option<(TokenType, u32)>)
    ensures
        r == classify(parent, kind),
{
    match kind {
        NodeKind::Comment => Some((TokenType::Comment, 0u32)),
        NodeKind::StringValue | NodeKind::Description => Some((TokenType::String, 0u32)),
        NodeKind::IntValue | NodeKind::FloatValue => Some((TokenType::Number, 0u32)),
        NodeKind::BooleanValue | NodeKind::NullValue => Some((TokenType::Keyword, 0u32)),
        NodeKind::EnumValue => Some((TokenType::EnumMember, 0u32)),
        NodeKind::DirectiveName => Some((TokenType::Decorator, 0u32)),
        NodeKind::NamedType => Some((TokenType::Type, 0u32)),
        NodeKind::Name => if defines_type_kind(parent) {
            Some((TokenType::Type, DEFINITION))
        } else if matches!(parent, NodeKind::Directive | NodeKind::DirectiveDefinition) {
            Some((TokenType::Decorator, 0u32))
        } else if matches!(
            parent,
            NodeKind::FieldDefinition | NodeKind::InputValueDefinition | NodeKind::ObjectField
        ) {
            Some((TokenType::Property, 0u32))
        } else {
            None
        },
        _ => None,
    }
}

/// Collects the tokens of a subtree.
pub fn collect_tokens(parent: NodeKind, node: &SyntaxNode, out: &mut Vec<Token>)
    ensures
        final(out)@ == old(out)@ + tokens_in(parent, *node),
    decreases node,
{
    let ghost start = out@;
    match classify_node(parent, node.kind) {
        Some((token_type, modifiers)) => {
            let from = node.range.start_point;
            let to = node.range.end_point;
            if from.row == to.row && from.column <= to.column {
                out.push(
                    Token { start: from, length: to.column - from.column, token_type, modifiers },
                );
                proof {
                    assert(out@ =~= start + tokens_in(parent, *node));
                }
            } else {
                proof {
                    assert(out@ =~= start + tokens_in(parent, *node));
                }
            }
        },
        None => {
            let mut i: usize = 0;
            proof {
                assert(out@ =~= start + tokens_in_children(*node, 0));
            }
            while i < node.children.len()
                invariant
                    i <= node.children@.len(),
                    out@ == start + tokens_in_children(*node, i as int),
                decreases node.children@.len() - i,
            {
                let ghost prev = out@;
                collect_tokens(node.kind, &node.children[i], out);
                proof {
                    assert(start + tokens_in_children(*node, i + 1) =~= prev + tokens_in(
                        node.kind,
                        node.children@[i as int],
                    ));
                }
                i += 1;
            }
        },
    }
}

/// Places each token relative to the one before it.
pub fn encode(tokens: &Vec<Token>) -> (r: Vec<TokenDelta>)
    ensures
        r@ == encode_from(tokens@, 0, Point { row: 0, column: 0 }),
{
    let mut out: Vec<TokenDelta> = Vec::new();
    let mut prev = Point { row: 0, column: 0 };
    let mut i: usize = 0;
    let ghost origin = prev;
    proof {
        assert(out@ + encode_from(tokens@, 0, prev) =~= encode_from(tokens@, 0, origin));
    }
    while i < tokens.len()
        invariant
            i <= tokens@.len(),
            out@ + encode_from(tokens@, i as int, prev) == encode_from(tokens@, 0, origin),
        decreases tokens@.len() - i,
    {
        let t = tokens[i];
        if !t.start.lt(&prev) {
            let delta_line = t.start.row - prev.row;
            let delta_start = if t.start.row == prev.row {
                t.start.column - prev.column
            } else {
                t.start.column
            };
            let ghost before = out@;
            let d = TokenDelta {
                delta_line,
                delta_start,
                length: t.length,
                token_type: t.token_type.ordinal(),
                modifiers: t.modifiers,
            };
            out.push(d);
            proof {
                assert(before + encode_from(tokens@, i as int, prev) =~= before.push(d)
                    + encode_from(tokens@, i + 1, t.start));
            }
            prev = t.start;
        }
        i += 1;
    }
    proof {
        assert(out@ + encode_from(tokens@, i as int, prev) =~= out@);
    }
    out
}

/// The semantic tokens of a tree.
pub fn semantic_tokens(root: &SyntaxNode) -> (r: Vec<TokenDelta>)
    ensures
        r@ == spec_semantic_tokens(*root),
{
    let mut tokens: Vec<Token> = Vec::new();
    collect_tokens(NodeKind::Document, root, &mut tokens);
    proof {
        assert(tokens@ =~= tokens_in(NodeKind::Document, *root));
    }
    encode(&tokens)
}

} // verus!
