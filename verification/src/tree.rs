//! The rule-tagged parse tree produced by the grammar engine.
//!
//! A [`Node`] carries the grammar rule it was matched from, the exact text it
//! spans, and its child nodes. The ghost mirror [`NodeS`] is the mathematical
//! model that all contracts speak of: text as `Seq<char>`, children as a
//! `Seq<NodeS>`.

use vstd::prelude::*;

verus! {

broadcast use vstd::seq::axiom_seq_index_decreases;

/// The label identifying which grammar production a tree node was matched
/// from. The builder dispatches on this tag; tags it does not recognise are
/// reported, never silently defaulted.
#[derive(Clone, Copy, Debug, PartialEq, Eq, Structural)]
pub enum Rule {
    /// The top-level rule: one expression, then end of input.
    Query,
    /// The wrapper around a single expression form.
    Expr,
    /// The context reference, written `@`.
    At,
    /// The wrapper around a single literal value form.
    Value,
    /// The keyword `null`.
    NullKw,
    /// The keyword `true`.
    TrueKw,
    /// The keyword `false`.
    FalseKw,
    /// A numeric literal.
    Number,
    /// A string literal, delimiters included.
    Str,
    /// A sequence literal, written `[ ... ]`.
    Array,
    /// A mapping literal, written `{ ... }`.
    Object,
    /// One key/value entry of a mapping literal.
    Pair,
    /// The end-of-input marker.
    Eoi,
}

/// One node of the parse tree: the rule it was matched from, the text it
/// spans, and its children in source order.
#[derive(Debug, PartialEq)]
pub struct Node {
    pub rule: Rule,
    pub text: String,
    pub children: Vec<Node>,
}

/// The mathematical model of a [`Node`].
pub ghost struct NodeS {
    pub rule: Rule,
    pub text: Seq<char>,
    pub children: Seq<NodeS>,
}

impl View for Node {
    type V = NodeS;

    open spec fn view(&self) -> NodeS {
        node_view(*self)
    }
}

/// The model of a node: its text as a character sequence, its children
/// modelled recursively.
pub open spec fn node_view(n: Node) -> NodeS
    decreases n, 1int,
{
    NodeS { rule: n.rule, text: n.text@, children: views_of(n.children) }
}

/// The views of the nodes of a vector, in order: the model of a vector of
/// nodes.
pub open spec fn views_of(v: Vec<Node>) -> Seq<NodeS>
    decreases v, 0int,
    via views_of_decreases
{
    Seq::new(
        v@.len(),
        |i: int|
            if 0 <= i < v.len() {
                node_view(v[i])
            } else {
                arbitrary()
            },
    )
}

#[via_fn]
proof fn views_of_decreases(v: Vec<Node>) {
    assert forall|i: int| 0 <= i < v.len() implies decreases_to!(v, 0int => v[i], 1int) by {
        vstd::std_specs::vec::axiom_vec_index_decreases(v, i);
    }
}

} // verus!
