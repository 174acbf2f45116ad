//! Access to configuration documents parsed by `knuffel` (KDL syntax).
//!
//! `knuffel` parses the text into a tree of nodes; the tree is held as `knuffel`'s own value
//! and read through the functions below. What a node holds is named [`kdl_node`]: its name,
//! its arguments, how many properties it has, and its children.

use vstd::prelude::*;
use knuffel::ast::{Literal, Node};
use knuffel::span::{Span, Spanned};

verus! {

#[verifier::external_type_specification]
#[verifier::external_body]
#[verifier::reject_recursive_types(T)]
#[verifier::reject_recursive_types(S)]
pub struct ExSpanned<T, S>(Spanned<T, S>);

#[verifier::external_type_specification]
#[verifier::external_body]
#[verifier::reject_recursive_types(S)]
pub struct ExNode<S>(Node<S>);

#[verifier::external_type_specification]
#[verifier::external_body]
pub struct ExSpan(Span);

#[verifier::external_type_specification]
#[verifier::external_body]
pub struct ExKnuffelError(knuffel::Error);

/// A node of a parsed document, with its source span.
pub type KdlSpannedNode = Spanned<Node<Span>, Span>;

/// A scalar value as written.
#[derive(Debug, Clone, PartialEq, Eq)]
pub enum KdlLiteral {
    Null,
    Bool(bool),
    /// An integer; `None` when it does not fit an `i64`.
    Int(Option<i64>),
    /// A decimal number, as `Decimal("<digits>")`: the text of the number (digits, sign, `.`,
    /// exponent) between the quotes.
    Decimal(String),
    Str(String),
}

/// An argument of a node: its value (a type annotation written before it is not read).
#[derive(Debug, Clone, PartialEq, Eq)]
pub struct KdlValue {
    pub literal: KdlLiteral,
}

/// The abstract value of [`KdlLiteral`].
pub enum LiteralView {
    Null,
    Bool(bool),
    Int(Option<i64>),
    Decimal(Seq<char>),
    Str(Seq<char>),
}

pub struct ValueView {
    pub literal: LiteralView,
}

impl View for KdlValue {
    type V = ValueView;

    open spec fn view(&self) -> ValueView {
        ValueView {
            literal: match self.literal {
                KdlLiteral::Null => LiteralView::Null,
                KdlLiteral::Bool(b) => LiteralView::Bool(b),
                KdlLiteral::Int(i) => LiteralView::Int(i),
                KdlLiteral::Decimal(s) => LiteralView::Decimal(s@),
                KdlLiteral::Str(s) => LiteralView::Str(s@),
            },
        }
    }
}

/// What a node holds.
pub struct NodeView {
    pub name: Seq<char>,
    pub args: Seq<ValueView>,
    /// How many `key=value` properties the node has.
    pub props: nat,
    /// The child nodes (empty when the node has no `{ .. }` block).
    pub children: Seq<NodeView>,
}

/// The contents of a parsed node.
pub uninterp spec fn kdl_node(n: KdlSpannedNode) -> NodeView;

/// The nodes of the document that `knuffel` parses from `text`; `None` when `text` is not
/// valid KDL.
pub uninterp spec fn kdl_document(text: Seq<char>) -> Option<Seq<NodeView>>;

/// Parses KDL text with `knuffel::parse_ast`; on success, the top-level nodes of the document.
/// The contract claims that the result is the same for the same text (named `kdl_document`)
/// and that the nodes returned are the document's top-level nodes in order.
#[verifier::external_body]
pub fn parse_kdl(text: &str) -> (r: Result<Vec<KdlSpannedNode>, knuffel::Error>)
    ensures
        r is Ok <==> kdl_document(text@) is Some,
        r matches Ok(nodes) ==> nodes@.len() == kdl_document(text@)->Some_0.len() && forall|
            i: int,
        | 0 <= i < nodes@.len() ==> kdl_node(#[trigger] nodes@[i]) == kdl_document(
            text@,
        )->Some_0[i],
{
    knuffel::parse_ast::<Span>("config.kdl", text).map(|doc| doc.nodes)
}

/// The name of the node (`Node::node_name`).
#[verifier::external_body]
pub fn kdl_node_name(n: &KdlSpannedNode) -> (r: String)
    ensures
        r@ == kdl_node(*n).name,
{
    String::from(&**n.node_name)
}

/// The number of arguments of the node (`Node::arguments`).
#[verifier::external_body]
pub fn kdl_arg_count(n: &KdlSpannedNode) -> (r: usize)
    ensures
        r == kdl_node(*n).args.len(),
{
    n.arguments.len()
}

/// The literal of argument `i` of the node. Integers are
/// converted with `knuffel`'s `TryFrom<&Integer> for i64`; a decimal is given as its `Debug`
/// text, which is `Decimal("` followed by the number and `")`.
#[verifier::external_body]
pub fn kdl_arg(n: &KdlSpannedNode, i: usize) -> (r: KdlValue)
    requires
        i < kdl_node(*n).args.len(),
    ensures
        r@ == kdl_node(*n).args[i as int],
{
    let v = &n.arguments[i];
    let literal = match &*v.literal {
        Literal::Null => KdlLiteral::Null,
        Literal::Bool(b) => KdlLiteral::Bool(*b),
        Literal::Int(x) => KdlLiteral::Int(i64::try_from(x).ok()),
        Literal::Decimal(d) => KdlLiteral::Decimal(format!("{:?}", d)),
        Literal::String(s) => KdlLiteral::Str(String::from(&**s)),
    };
    KdlValue { literal }
}

/// The number of properties of the node (`Node::properties`).
#[verifier::external_body]
pub fn kdl_prop_count(n: &KdlSpannedNode) -> (r: usize)
    ensures
        r == kdl_node(*n).props,
{
    n.properties.len()
}

/// The child nodes of the node (`Node::children`, empty without a block).
#[verifier::external_body]
pub fn kdl_children(n: &KdlSpannedNode) -> (r: &[KdlSpannedNode])
    ensures
        r@.len() == kdl_node(*n).children.len(),
        forall|i: int| 0 <= i < r@.len() ==> kdl_node(#[trigger] r@[i]) == kdl_node(*n).children[i],
{
    match &n.children {
        Some(c) => &c[..],
        None => &[],
    }
}

} // verus!
