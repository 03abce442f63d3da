//! The expression builder and the query entry point.
//!
//! [`parse_query`] drives the grammar engine over the top-level query rule,
//! takes the first top-level node and hands it to [`parse_expression`],
//! which dispatches on the rule tag of the node's single child. Every rule
//! tag the builder does not know becomes a reported error naming that tag:
//! extending the language means adding one variant and one match arm here.

use vstd::prelude::*;

use crate::engine::MistQLParser;
use crate::error::Error;
use crate::error::ErrorS;
use crate::error::StructureKind;
use crate::grammar;
use crate::tree::Node;
use crate::tree::NodeS;
use crate::tree::Rule;
use crate::tree::views_of;
use crate::value::Value;
use crate::value::ValueS;
use crate::value::build_value;
use crate::value::parse_value;
use crate::value::value_view;

verus! {

/// One parsed query form: the abstract syntax tree handed to the caller.
#[derive(Debug, PartialEq)]
pub enum Expression {
    /// The context reference, written `@`: the implicit current-data
    /// context at evaluation time.
    At,
    /// A literal value.
    Value(Value),
    /// The end-of-input marker. It is not a semantically meaningful
    /// expression; a caller must treat it as "no further expression" and
    /// never evaluate it.
    EOI,
}

/// The mathematical model of an [`Expression`].
pub ghost enum ExprS {
    At,
    Value(ValueS),
    EOI,
}

impl View for Expression {
    type V = ExprS;

    open spec fn view(&self) -> ExprS {
        match *self {
            Expression::At => ExprS::At,
            Expression::Value(v) => ExprS::Value(value_view(v)),
            Expression::EOI => ExprS::EOI,
        }
    }
}

/// The expression an expression wrapper node stands for: its single child
/// names the form. A childless wrapper and a child with an unknown rule
/// tag are structural errors, the latter naming the tag.
pub open spec fn build_expr(n: NodeS) -> Result<ExprS, ErrorS> {
    if n.children.len() == 0 {
        Err(ErrorS::Structure { kind: StructureKind::EmptyExpression })
    } else {
        let c = n.children[0];
        match c.rule {
            Rule::At => Ok(ExprS::At),
            Rule::Value => match build_value(c) {
                Ok(v) => Ok(ExprS::Value(v)),
                Err(e) => Err(e),
            },
            Rule::Eoi => Ok(ExprS::EOI),
            r => Err(ErrorS::Structure { kind: StructureKind::UnknownExpressionRule { rule: r } }),
        }
    }
}

/// Builds the expression a wrapper node stands for, exactly as
/// [`build_expr`] states. It never panics on unexpected input: every
/// unhandled shape becomes a reported error.
pub fn parse_expression(node: &Node) -> (r: Result<Expression, Error>)
    ensures
        match build_expr(node@) {
            Ok(e) => r is Ok && r->Ok_0@ == e,
            Err(e) => r is Err && r->Err_0@ == e,
        },
{
    if node.children.len() == 0 {
        return Err(Error::structural(StructureKind::EmptyExpression));
    }
    let c: &Node = &node.children[0];
    proof {
        assert(node@.children[0int] == c@);
    }
    match c.rule {
        Rule::At => Ok(Expression::At),
        Rule::Value => match parse_value(c) {
            Ok(v) => Ok(Expression::Value(v)),
            Err(e) => Err(e),
        },
        Rule::Eoi => Ok(Expression::EOI),
        _ => Err(Error::structural(StructureKind::UnknownExpressionRule { rule: c.rule })),
    }
}

/// The expression that parsing the query text `s` yields, when it yields
/// one: the grammar must accept `s` in full, and the builder must accept
/// the tree.
pub open spec fn parse_query_ok(s: Seq<char>) -> Option<ExprS> {
    match grammar::query_at(s) {
        Ok(nodes) => match build_expr(nodes[0]) {
            Ok(e) => Some(e),
            Err(_) => None,
        },
        Err(_) => None,
    }
}

/// Parses one query: drives the grammar engine over the top-level query
/// rule and builds the expression from the first top-level node.
///
/// The contract pins the whole outcome: when the grammar accepts the text,
/// the result is exactly what [`build_expr`] makes of the tree the grammar
/// assigns to it; when the grammar rejects the text, the result is a
/// syntax error at the grammar's failure offset.
pub fn parse_query(query: &str) -> (r: Result<Expression, Error>)
    ensures
        match grammar::query_at(query@) {
            Ok(nodes) => match build_expr(nodes[0]) {
                Ok(e) => r is Ok && r->Ok_0@ == e,
                Err(es) => r is Err && r->Err_0@ == es,
            },
            Err(p) => r is Err && crate::error::is_syntax_at(r->Err_0@, p),
        },
        r is Ok ==> parse_query_ok(query@) == Some(r->Ok_0@),
        r is Err ==> parse_query_ok(query@) is None,
{
    match MistQLParser::parse(Rule::Query, query) {
        Err(e) => Err(e),
        Ok(nodes) => {
            proof {
                assert(views_of(nodes).len() == nodes@.len());
            }
            if nodes.len() == 0 {
                // The grammar never hands back an empty run of top-level
                // nodes; an empty run is a contract violation and is
                // reported, not defaulted.
                return Err(Error::structural(StructureKind::NoExpressions));
            }
            proof {
                assert(views_of(nodes)[0] == nodes[0int]@);
            }
            parse_expression(&nodes[0])
        },
    }
}

/// Parsing is deterministic: the same query text parses to structurally
/// equal expressions, every time.
pub proof fn lemma_parse_query_deterministic(s: Seq<char>, e1: ExprS, e2: ExprS)
    requires
        parse_query_ok(s) == Some(e1),
        parse_query_ok(s) == Some(e2),
    ensures
        e1 == e2,
{
}

/// A wrapper node whose child bears a rule the expression builder does not
/// know yields a structural error naming that rule: never a silent
/// default, never an abort.
pub proof fn lemma_unknown_expression_rule_reported(n: NodeS)
    requires
        n.children.len() > 0,
        n.children[0].rule != Rule::At,
        n.children[0].rule != Rule::Value,
        n.children[0].rule != Rule::Eoi,
    ensures
        build_expr(n) == Err::<ExprS, ErrorS>(
            ErrorS::Structure {
                kind: StructureKind::UnknownExpressionRule { rule: n.children[0].rule },
            },
        ),
{
}

} // verus!
