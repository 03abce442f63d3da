//! The executable grammar engine.
//!
//! [`MistQLParser`] drives the grammar of [`crate::grammar`] over query text
//! and returns the rule-tagged parse tree. Every function here is proved to
//! return exactly what the corresponding grammar specification function
//! says: `Ok` carries the same end position and the same tree, `Err` a
//! syntax error at the same position.

use vstd::prelude::*;
use vstd::string::StrSliceExecFns;

use crate::error::Error;
use crate::error::StructureKind;
use crate::grammar;
use crate::tree::Node;
use crate::tree::NodeS;
use crate::tree::Rule;
use crate::tree::views_of;

verus! {

/// A `Result` of positions, lifted to the mathematical integers that the
/// grammar specification functions speak of.
pub open spec fn lift_pos(r: Result<usize, usize>) -> Result<int, int> {
    match r {
        Ok(e) => Ok(e as int),
        Err(p) => Err(p as int),
    }
}

fn ws_end_x(s: &str, n: usize, pos: usize) -> (r: usize)
    requires
        n == s@.len(),
        pos <= n,
    ensures
        r == grammar::ws_end(s@, pos as int),
        pos <= r <= n,
    decreases n - pos,
{
    if pos < n {
        let c = s.get_char(pos);
        if c == ' ' || c == '\t' || c == '\n' || c == '\r' {
            return ws_end_x(s, n, pos + 1);
        }
    }
    pos
}

fn digits_end_x(s: &str, n: usize, pos: usize) -> (r: usize)
    requires
        n == s@.len(),
        pos <= n,
    ensures
        r == grammar::digits_end(s@, pos as int),
        pos <= r <= n,
    decreases n - pos,
{
    if pos < n {
        let c = s.get_char(pos);
        if c >= '0' && c <= '9' {
            return digits_end_x(s, n, pos + 1);
        }
    }
    pos
}

pub(crate) fn number_end_x(s: &str, n: usize, pos: usize) -> (r: Result<usize, usize>)
    requires
        n == s@.len(),
        pos <= n,
    ensures
        lift_pos(r) == grammar::number_end(s@, pos as int),
        r is Ok ==> pos < r->Ok_0 <= n,
        r is Err ==> r->Err_0 <= n,
{
    if pos >= n {
        return Err(pos);
    }
    let p1 = if s.get_char(pos) == '-' {
        pos + 1
    } else {
        pos
    };
    let d1 = digits_end_x(s, n, p1);
    if d1 == p1 {
        return Err(p1);
    }
    let p2 = if d1 < n && s.get_char(d1) == '.' {
        let d2 = digits_end_x(s, n, d1 + 1);
        if d2 == d1 + 1 {
            return Err(d1 + 1);
        }
        d2
    } else {
        d1
    };
    if p2 < n {
        let c = s.get_char(p2);
        if c == 'e' || c == 'E' {
            let p3 = if p2 + 1 < n {
                let c2 = s.get_char(p2 + 1);
                if c2 == '+' || c2 == '-' {
                    p2 + 2
                } else {
                    p2 + 1
                }
            } else {
                p2 + 1
            };
            let d3 = digits_end_x(s, n, p3);
            if d3 == p3 {
                return Err(p3);
            }
            return Ok(d3);
        }
    }
    Ok(p2)
}

fn string_body_end_x(s: &str, n: usize, pos: usize) -> (r: Result<usize, usize>)
    requires
        n == s@.len(),
        pos <= n,
    ensures
        lift_pos(r) == grammar::string_body_end(s@, pos as int),
        r is Ok ==> pos < r->Ok_0 <= n,
        r is Err ==> r->Err_0 <= n,
    decreases n - pos,
{
    if pos >= n {
        Err(pos)
    } else {
        let c = s.get_char(pos);
        if c == '"' {
            Ok(pos + 1)
        } else if c == '\\' {
            if n - pos >= 2 {
                string_body_end_x(s, n, pos + 2)
            } else {
                Err(pos + 1)
            }
        } else {
            string_body_end_x(s, n, pos + 1)
        }
    }
}

fn string_end_x(s: &str, n: usize, pos: usize) -> (r: Result<usize, usize>)
    requires
        n == s@.len(),
        pos <= n,
    ensures
        lift_pos(r) == grammar::string_end(s@, pos as int),
        r is Ok ==> pos + 2 <= r->Ok_0 <= n,
        r is Err ==> r->Err_0 <= n,
{
    if pos < n && s.get_char(pos) == '"' {
        let r = string_body_end_x(s, n, pos + 1);
        proof {
            if r is Ok {
                grammar::lemma_string_end_bounds(s@, pos as int);
            }
        }
        r
    } else {
        Err(pos)
    }
}

/// Whether the given keyword (`null`, `true` or `false`, by its rule tag)
/// stands at `pos`.
fn keyword_at_x(s: &str, n: usize, pos: usize, rule: Rule) -> (r: bool)
    requires
        n == s@.len(),
        pos <= n,
        rule == Rule::NullKw || rule == Rule::TrueKw || rule == Rule::FalseKw,
    ensures
        rule == Rule::NullKw ==> r == grammar::has_null_at(s@, pos as int),
        rule == Rule::TrueKw ==> r == grammar::has_true_at(s@, pos as int),
        rule == Rule::FalseKw ==> r == grammar::has_false_at(s@, pos as int),
{
    match rule {
        Rule::NullKw => {
            n - pos >= 4 && s.get_char(pos) == 'n' && s.get_char(pos + 1) == 'u' && s.get_char(
                pos + 2,
            ) == 'l' && s.get_char(pos + 3) == 'l'
        },
        Rule::TrueKw => {
            n - pos >= 4 && s.get_char(pos) == 't' && s.get_char(pos + 1) == 'r' && s.get_char(
                pos + 2,
            ) == 'u' && s.get_char(pos + 3) == 'e'
        },
        _ => {
            n - pos >= 5 && s.get_char(pos) == 'f' && s.get_char(pos + 1) == 'a' && s.get_char(
                pos + 2,
            ) == 'l' && s.get_char(pos + 3) == 's' && s.get_char(pos + 4) == 'e'
        },
    }
}

/// A syntax error at `pos`, expecting the given rules.
fn syntax(pos: usize, expected: Vec<Rule>) -> (e: Error)
    ensures
        crate::error::is_syntax_at(e@, pos as int),
{
    Error::Syntax { pos, expected }
}

/// A node spanning `pos..end` of the input, with the given children.
fn make_node(s: &str, n: usize, rule: Rule, pos: usize, end: usize, children: Vec<Node>) -> (nd:
    Node)
    requires
        n == s@.len(),
        pos <= end <= n,
    ensures
        nd@ == (NodeS {
            rule,
            text: s@.subrange(pos as int, end as int),
            children: views_of(children),
        }),
{
    let text = s.substring_char(pos, end).to_owned();
    Node { rule, text, children }
}

/// Whether an executable node result matches a grammar specification result:
/// same end position and same tree on success, a syntax error at the
/// position the grammar gives on failure.
pub open spec fn node_result_matches(
    r: Result<(usize, Node), Error>,
    g: Result<(int, NodeS), int>,
) -> bool {
    match g {
        Ok(sp) => r is Ok && r->Ok_0.0 as int == sp.0 && r->Ok_0.1@ == sp.1,
        Err(p) => r is Err && crate::error::is_syntax_at(r->Err_0@, p),
    }
}

/// As [`node_result_matches`], for results carrying a run of nodes.
pub open spec fn nodes_result_matches(
    r: Result<(usize, Vec<Node>), Error>,
    g: Result<(int, Seq<NodeS>), int>,
) -> bool {
    match g {
        Ok(sp) => r is Ok && r->Ok_0.0 as int == sp.0 && views_of(r->Ok_0.1) == sp.1,
        Err(p) => r is Err && crate::error::is_syntax_at(r->Err_0@, p),
    }
}

fn value_at_x(s: &str, n: usize, pos: usize) -> (r: Result<(usize, Node), Error>)
    requires
        n == s@.len(),
        pos <= n,
    ensures
        node_result_matches(r, grammar::value_at(s@, pos as int)),
    decreases n - pos, 4int,
{
    if pos >= n {
        return Err(syntax(pos, vec![Rule::Value]));
    }
    let c = s.get_char(pos);
    if c == '{' {
        match object_at_x(s, n, pos) {
            Err(e) => Err(e),
            Ok((end, onode)) => {
                proof {
                    grammar::lemma_object_at_bounds(s@, pos as int);
                }
                let ghost go = onode@;
                let mut ch: Vec<Node> = Vec::new();
                ch.push(onode);
                let nd = make_node(s, n, Rule::Value, pos, end, ch);
                proof {
                    assert(nd@.children =~= seq![go]);
                }
                Ok((end, nd))
            },
        }
    } else if c == '[' {
        match array_at_x(s, n, pos) {
            Err(e) => Err(e),
            Ok((end, anode)) => {
                proof {
                    grammar::lemma_array_at_bounds(s@, pos as int);
                }
                let ghost ga = anode@;
                let mut ch: Vec<Node> = Vec::new();
                ch.push(anode);
                let nd = make_node(s, n, Rule::Value, pos, end, ch);
                proof {
                    assert(nd@.children =~= seq![ga]);
                }
                Ok((end, nd))
            },
        }
    } else if c == '"' {
        match string_end_x(s, n, pos) {
            Err(p) => Err(syntax(p, vec![Rule::Str])),
            Ok(end) => {
                let inner = make_node(s, n, Rule::Str, pos, end, Vec::new());
                let mut ch: Vec<Node> = Vec::new();
                ch.push(inner);
                let nd = make_node(s, n, Rule::Value, pos, end, ch);
                proof {
                    assert(inner@.children =~= Seq::<NodeS>::empty());
                    assert(nd@.children =~= seq![inner@]);
                }
                Ok((end, nd))
            },
        }
    } else if c == 'n' || c == 't' {
        let rule = if c == 'n' {
            Rule::NullKw
        } else {
            Rule::TrueKw
        };
        if keyword_at_x(s, n, pos, rule) {
            let end = pos + 4;
            let inner = make_node(s, n, rule, pos, end, Vec::new());
            let mut ch: Vec<Node> = Vec::new();
            ch.push(inner);
            let nd = make_node(s, n, Rule::Value, pos, end, ch);
            proof {
                assert(inner@.children =~= Seq::<NodeS>::empty());
                assert(nd@.children =~= seq![inner@]);
            }
            Ok((end, nd))
        } else {
            Err(syntax(pos, vec![Rule::Value]))
        }
    } else if c == 'f' {
        if keyword_at_x(s, n, pos, Rule::FalseKw) {
            let end = pos + 5;
            let inner = make_node(s, n, Rule::FalseKw, pos, end, Vec::new());
            let mut ch: Vec<Node> = Vec::new();
            ch.push(inner);
            let nd = make_node(s, n, Rule::Value, pos, end, ch);
            proof {
                assert(inner@.children =~= Seq::<NodeS>::empty());
                assert(nd@.children =~= seq![inner@]);
            }
            Ok((end, nd))
        } else {
            Err(syntax(pos, vec![Rule::Value]))
        }
    } else if c == '-' || (c >= '0' && c <= '9') {
        match number_end_x(s, n, pos) {
            Err(p) => Err(syntax(p, vec![Rule::Number])),
            Ok(end) => {
                let inner = make_node(s, n, Rule::Number, pos, end, Vec::new());
                let mut ch: Vec<Node> = Vec::new();
                ch.push(inner);
                let nd = make_node(s, n, Rule::Value, pos, end, ch);
                proof {
                    assert(inner@.children =~= Seq::<NodeS>::empty());
                    assert(nd@.children =~= seq![inner@]);
                }
                Ok((end, nd))
            },
        }
    } else {
        Err(syntax(pos, vec![Rule::Value]))
    }
}

fn array_at_x(s: &str, n: usize, pos: usize) -> (r: Result<(usize, Node), Error>)
    requires
        n == s@.len(),
        pos <= n,
    ensures
        node_result_matches(r, grammar::array_at(s@, pos as int)),
    decreases n - pos, 3int,
{
    if !(pos < n && s.get_char(pos) == '[') {
        return Err(syntax(pos, vec![Rule::Array]));
    }
    let p1 = ws_end_x(s, n, pos + 1);
    if p1 < n && s.get_char(p1) == ']' {
        let nd = make_node(s, n, Rule::Array, pos, p1 + 1, Vec::new());
        proof {
            assert(nd@.children =~= Seq::<NodeS>::empty());
        }
        Ok((p1 + 1, nd))
    } else {
        match elements_at_x(s, n, p1) {
            Err(e) => Err(e),
            Ok((end, items)) => {
                proof {
                    grammar::lemma_elements_at_bounds(s@, p1 as int);
                }
                let p2 = ws_end_x(s, n, end);
                if p2 < n && s.get_char(p2) == ']' {
                    let nd = make_node(s, n, Rule::Array, pos, p2 + 1, items);
                    Ok((p2 + 1, nd))
                } else {
                    Err(syntax(p2, vec![Rule::Array]))
                }
            },
        }
    }
}

fn elements_at_x(s: &str, n: usize, pos: usize) -> (r: Result<(usize, Vec<Node>), Error>)
    requires
        n == s@.len(),
        pos <= n,
    ensures
        nodes_result_matches(r, grammar::elements_at(s@, pos as int)),
    decreases n - pos, 5int,
{
    match value_at_x(s, n, pos) {
        Err(e) => Err(e),
        Ok((np, vnode)) => {
            proof {
                grammar::lemma_value_at_bounds(s@, pos as int);
            }
            let ghost gv = vnode@;
            let p2 = ws_end_x(s, n, np);
            if p2 < n && s.get_char(p2) == ',' {
                let p3 = ws_end_x(s, n, p2 + 1);
                match elements_at_x(s, n, p3) {
                    Err(e) => Err(e),
                    Ok((end, rest)) => {
                        let ghost grest = views_of(rest);
                        let mut out: Vec<Node> = Vec::new();
                        out.push(vnode);
                        let mut rest = rest;
                        out.append(&mut rest);
                        proof {
                            assert(views_of(out) =~= seq![gv] + grest);
                        }
                        Ok((end, out))
                    },
                }
            } else {
                let mut out: Vec<Node> = Vec::new();
                out.push(vnode);
                proof {
                    assert(views_of(out) =~= seq![gv]);
                }
                Ok((np, out))
            }
        },
    }
}

fn object_at_x(s: &str, n: usize, pos: usize) -> (r: Result<(usize, Node), Error>)
    requires
        n == s@.len(),
        pos <= n,
    ensures
        node_result_matches(r, grammar::object_at(s@, pos as int)),
    decreases n - pos, 3int,
{
    if !(pos < n && s.get_char(pos) == '{') {
        return Err(syntax(pos, vec![Rule::Object]));
    }
    let p1 = ws_end_x(s, n, pos + 1);
    if p1 < n && s.get_char(p1) == '}' {
        let nd = make_node(s, n, Rule::Object, pos, p1 + 1, Vec::new());
        proof {
            assert(nd@.children =~= Seq::<NodeS>::empty());
        }
        Ok((p1 + 1, nd))
    } else {
        match pairs_at_x(s, n, p1) {
            Err(e) => Err(e),
            Ok((end, entries)) => {
                proof {
                    grammar::lemma_pairs_at_bounds(s@, p1 as int);
                }
                let p2 = ws_end_x(s, n, end);
                if p2 < n && s.get_char(p2) == '}' {
                    let nd = make_node(s, n, Rule::Object, pos, p2 + 1, entries);
                    Ok((p2 + 1, nd))
                } else {
                    Err(syntax(p2, vec![Rule::Object]))
                }
            },
        }
    }
}

fn pairs_at_x(s: &str, n: usize, pos: usize) -> (r: Result<(usize, Vec<Node>), Error>)
    requires
        n == s@.len(),
        pos <= n,
    ensures
        nodes_result_matches(r, grammar::pairs_at(s@, pos as int)),
    decreases n - pos, 5int,
{
    match pair_at_x(s, n, pos) {
        Err(e) => Err(e),
        Ok((np, pnode)) => {
            proof {
                grammar::lemma_pair_at_bounds(s@, pos as int);
            }
            let ghost gp = pnode@;
            let p2 = ws_end_x(s, n, np);
            if p2 < n && s.get_char(p2) == ',' {
                let p3 = ws_end_x(s, n, p2 + 1);
                match pairs_at_x(s, n, p3) {
                    Err(e) => Err(e),
                    Ok((end, rest)) => {
                        let ghost grest = views_of(rest);
                        let mut out: Vec<Node> = Vec::new();
                        out.push(pnode);
                        let mut rest = rest;
                        out.append(&mut rest);
                        proof {
                            assert(views_of(out) =~= seq![gp] + grest);
                        }
                        Ok((end, out))
                    },
                }
            } else {
                let mut out: Vec<Node> = Vec::new();
                out.push(pnode);
                proof {
                    assert(views_of(out) =~= seq![gp]);
                }
                Ok((np, out))
            }
        },
    }
}

fn pair_at_x(s: &str, n: usize, pos: usize) -> (r: Result<(usize, Node), Error>)
    requires
        n == s@.len(),
        pos <= n,
    ensures
        node_result_matches(r, grammar::pair_at(s@, pos as int)),
    decreases n - pos, 2int,
{
    match string_end_x(s, n, pos) {
        Err(p) => Err(syntax(p, vec![Rule::Str])),
        Ok(kend) => {
            let keynode = make_node(s, n, Rule::Str, pos, kend, Vec::new());
            proof {
                assert(keynode@.children =~= Seq::<NodeS>::empty());
            }
            let ghost gk = keynode@;
            let p2 = ws_end_x(s, n, kend);
            if p2 < n && s.get_char(p2) == ':' {
                let p3 = ws_end_x(s, n, p2 + 1);
                match value_at_x(s, n, p3) {
                    Err(e) => Err(e),
                    Ok((vend, vnode)) => {
                        proof {
                            grammar::lemma_value_at_bounds(s@, p3 as int);
                        }
                        let ghost gv = vnode@;
                        let mut ch: Vec<Node> = Vec::new();
                        ch.push(keynode);
                        ch.push(vnode);
                        let nd = make_node(s, n, Rule::Pair, pos, vend, ch);
                        proof {
                            assert(nd@.children =~= seq![gk, gv]);
                        }
                        Ok((vend, nd))
                    },
                }
            } else {
                Err(syntax(p2, vec![Rule::Pair]))
            }
        },
    }
}

fn expr_at_x(s: &str, n: usize, pos: usize) -> (r: Result<(usize, Node), Error>)
    requires
        n == s@.len(),
        pos <= n,
    ensures
        node_result_matches(r, grammar::expr_at(s@, pos as int)),
{
    if pos < n && s.get_char(pos) == '@' {
        let at = make_node(s, n, Rule::At, pos, pos + 1, Vec::new());
        proof {
            assert(at@.children =~= Seq::<NodeS>::empty());
        }
        let ghost ga = at@;
        let mut ch: Vec<Node> = Vec::new();
        ch.push(at);
        let nd = make_node(s, n, Rule::Expr, pos, pos + 1, ch);
        proof {
            assert(nd@.children =~= seq![ga]);
        }
        Ok((pos + 1, nd))
    } else {
        match value_at_x(s, n, pos) {
            Err(e) => Err(e),
            Ok((end, vnode)) => {
                proof {
                    grammar::lemma_value_at_bounds(s@, pos as int);
                }
                let ghost gv = vnode@;
                let mut ch: Vec<Node> = Vec::new();
                ch.push(vnode);
                let nd = make_node(s, n, Rule::Expr, pos, end, ch);
                proof {
                    assert(nd@.children =~= seq![gv]);
                }
                Ok((end, nd))
            },
        }
    }
}

/// The grammar engine: it drives a grammar rule over query text and returns
/// the rule-tagged parse tree, or a syntax error.
pub struct MistQLParser;

impl MistQLParser {
    /// Matches `rule` against `input` from the start.
    ///
    /// - For [`Rule::Query`] the whole input must be consumed; the result
    ///   holds the expression wrapper node, then the end-of-input marker.
    /// - For [`Rule::At`] and [`Rule::Value`] the single matched node is
    ///   returned and trailing input is left unread.
    /// - Every other start rule is refused with a structural error.
    pub fn parse(rule: Rule, input: &str) -> (r: Result<Vec<Node>, Error>)
        ensures
            rule == Rule::Query ==> match grammar::query_at(input@) {
                Ok(nodes) => r is Ok && views_of(r->Ok_0) == nodes,
                Err(p) => r is Err && crate::error::is_syntax_at(r->Err_0@, p),
            },
            rule == Rule::At ==> match grammar::at_rule_at(input@, 0) {
                Ok(sp) => r is Ok && views_of(r->Ok_0) == seq![sp.1],
                Err(p) => r is Err && crate::error::is_syntax_at(r->Err_0@, p),
            },
            rule == Rule::Value ==> match grammar::value_at(input@, 0) {
                Ok(sp) => r is Ok && views_of(r->Ok_0) == seq![sp.1],
                Err(p) => r is Err && crate::error::is_syntax_at(r->Err_0@, p),
            },
            !(rule == Rule::Query || rule == Rule::At || rule == Rule::Value) ==> r == Err::<
                Vec<Node>,
                Error,
            >(Error::Structure { kind: StructureKind::UnsupportedStartRule { rule } }),
    {
        let n = input.unicode_len();
        match rule {
            Rule::Query => {
                let p0 = ws_end_x(input, n, 0);
                match expr_at_x(input, n, p0) {
                    Err(e) => Err(e),
                    Ok((end, enode)) => {
                        proof {
                            grammar::lemma_expr_at_bounds(input@, p0 as int);
                        }
                        let ghost ge = enode@;
                        let p2 = ws_end_x(input, n, end);
                        if p2 == n {
                            let eoi = Node {
                                rule: Rule::Eoi,
                                text: String::new(),
                                children: Vec::new(),
                            };
                            proof {
                                assert(eoi@.children =~= Seq::<NodeS>::empty());
                            }
                            let ghost geoi = eoi@;
                            let mut out: Vec<Node> = Vec::new();
                            out.push(enode);
                            out.push(eoi);
                            proof {
                                assert(views_of(out) =~= seq![ge, geoi]);
                            }
                            Ok(out)
                        } else {
                            Err(syntax(p2, vec![Rule::Eoi]))
                        }
                    },
                }
            },
            Rule::At => {
                if n > 0 && input.get_char(0) == '@' {
                    let at = make_node(input, n, Rule::At, 0, 1, Vec::new());
                    proof {
                        assert(at@.children =~= Seq::<NodeS>::empty());
                    }
                    let ghost ga = at@;
                    let mut out: Vec<Node> = Vec::new();
                    out.push(at);
                    proof {
                        assert(views_of(out) =~= seq![ga]);
                    }
                    Ok(out)
                } else {
                    Err(syntax(0, vec![Rule::At]))
                }
            },
            Rule::Value => {
                match value_at_x(input, n, 0) {
                    Err(e) => Err(e),
                    Ok((_end, vnode)) => {
                        let ghost gv = vnode@;
                        let mut out: Vec<Node> = Vec::new();
                        out.push(vnode);
                        proof {
                            assert(views_of(out) =~= seq![gv]);
                        }
                        Ok(out)
                    },
                }
            },
            _ => Err(Error::Structure { kind: StructureKind::UnsupportedStartRule { rule } }),
        }
    }
}

} // verus!
