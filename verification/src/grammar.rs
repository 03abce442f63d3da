//! The grammar of the query language, as specification functions over
//! character sequences.
//!
//! Each `*_at` function states what the grammar matches from a given
//! position: `Ok` carries the position just past the match (and the tree node
//! built from it), `Err` carries the position where matching failed. The
//! executable engine in [`crate::engine`] is proved to return exactly these
//! results.
//!
//! The grammar:
//!
//! ```text
//! query   = ws expression ws end-of-input
//! expression = at | value
//! at      = "@"
//! value   = object | array | string | number | "true" | "false" | "null"
//! object  = "{" ws ( pair (ws "," ws pair)* )? ws "}"
//! pair    = string ws ":" ws value
//! array   = "[" ws ( value (ws "," ws value)* )? ws "]"
//! string  = '"' ( "\" any | any-but-quote )* '"'
//! number  = "-"? digits ( "." digits )? ( ("e"|"E") ("+"|"-")? digits )?
//! ws      = (" " | tab | newline | carriage-return)*
//! ```
//!
//! A few recursive calls are guarded by positional checks such as
//! `pos < p <= s.len()`; the guards make termination checkable and never
//! fire, as the `lemma_*_bounds` lemmas show.

use vstd::prelude::*;

use crate::tree::NodeS;
use crate::tree::Rule;

verus! {

/// Whitespace accepted between tokens.
pub open spec fn is_ws(c: char) -> bool {
    c == ' ' || c == '\t' || c == '\n' || c == '\r'
}

/// A decimal digit.
pub open spec fn is_digit(c: char) -> bool {
    '0' <= c && c <= '9'
}

/// The first index at or after `pos` that does not hold whitespace.
pub open spec fn ws_end(s: Seq<char>, pos: int) -> int
    decreases s.len() - pos,
{
    if 0 <= pos < s.len() && is_ws(s[pos]) {
        ws_end(s, pos + 1)
    } else {
        pos
    }
}

/// The end of the run of decimal digits starting at `pos`.
pub open spec fn digits_end(s: Seq<char>, pos: int) -> int
    decreases s.len() - pos,
{
    if 0 <= pos < s.len() && is_digit(s[pos]) {
        digits_end(s, pos + 1)
    } else {
        pos
    }
}

pub proof fn lemma_ws_end_bounds(s: Seq<char>, pos: int)
    requires
        0 <= pos <= s.len(),
    ensures
        pos <= ws_end(s, pos) <= s.len(),
    decreases s.len() - pos,
{
    if pos < s.len() && is_ws(s[pos]) {
        lemma_ws_end_bounds(s, pos + 1);
    }
}

pub proof fn lemma_digits_end_bounds(s: Seq<char>, pos: int)
    requires
        0 <= pos <= s.len(),
    ensures
        pos <= digits_end(s, pos) <= s.len(),
    decreases s.len() - pos,
{
    if pos < s.len() && is_digit(s[pos]) {
        lemma_digits_end_bounds(s, pos + 1);
    }
}

/// Whether the keyword `null` stands at `pos`.
pub open spec fn has_null_at(s: Seq<char>, pos: int) -> bool {
    &&& pos + 4 <= s.len()
    &&& s[pos] == 'n'
    &&& s[pos + 1] == 'u'
    &&& s[pos + 2] == 'l'
    &&& s[pos + 3] == 'l'
}

/// Whether the keyword `true` stands at `pos`.
pub open spec fn has_true_at(s: Seq<char>, pos: int) -> bool {
    &&& pos + 4 <= s.len()
    &&& s[pos] == 't'
    &&& s[pos + 1] == 'r'
    &&& s[pos + 2] == 'u'
    &&& s[pos + 3] == 'e'
}

/// Whether the keyword `false` stands at `pos`.
pub open spec fn has_false_at(s: Seq<char>, pos: int) -> bool {
    &&& pos + 5 <= s.len()
    &&& s[pos] == 'f'
    &&& s[pos + 1] == 'a'
    &&& s[pos + 2] == 'l'
    &&& s[pos + 3] == 's'
    &&& s[pos + 4] == 'e'
}

/// The end of the numeral starting at `pos`: an optional sign, an integer
/// part, an optional fraction, an optional exponent. `Err` carries the
/// position at which a digit was missing.
pub open spec fn number_end(s: Seq<char>, pos: int) -> Result<int, int> {
    if !(0 <= pos < s.len()) {
        Err(pos)
    } else {
        let p1 = if s[pos] == '-' {
            pos + 1
        } else {
            pos
        };
        let d1 = digits_end(s, p1);
        if d1 == p1 {
            Err(p1)
        } else {
            let p2 = if d1 < s.len() && s[d1] == '.' {
                let d2 = digits_end(s, d1 + 1);
                if d2 == d1 + 1 {
                    Err(d1 + 1)
                } else {
                    Ok(d2)
                }
            } else {
                Ok(d1)
            };
            match p2 {
                Err(p) => Err(p),
                Ok(p2) => {
                    if p2 < s.len() && (s[p2] == 'e' || s[p2] == 'E') {
                        let p3 = if p2 + 1 < s.len() && (s[p2 + 1] == '+' || s[p2 + 1] == '-') {
                            p2 + 2
                        } else {
                            p2 + 1
                        };
                        let d3 = digits_end(s, p3);
                        if d3 == p3 {
                            Err(p3)
                        } else {
                            Ok(d3)
                        }
                    } else {
                        Ok(p2)
                    }
                },
            }
        }
    }
}

pub proof fn lemma_number_end_bounds(s: Seq<char>, pos: int)
    requires
        0 <= pos <= s.len(),
        number_end(s, pos) is Ok,
    ensures
        pos < number_end(s, pos)->Ok_0 <= s.len(),
{
    let p1 = if pos < s.len() && s[pos] == '-' {
        pos + 1
    } else {
        pos
    };
    lemma_digits_end_bounds(s, p1);
    let d1 = digits_end(s, p1);
    if d1 < s.len() && s[d1] == '.' {
        lemma_digits_end_bounds(s, d1 + 1);
    }
    let p2 = number_end_frac_end(s, pos);
    if 0 <= p2 < s.len() && (s[p2] == 'e' || s[p2] == 'E') {
        if p2 + 1 < s.len() && (s[p2 + 1] == '+' || s[p2 + 1] == '-') {
            lemma_digits_end_bounds(s, p2 + 2);
        } else {
            lemma_digits_end_bounds(s, p2 + 1);
        }
    }
}

/// The position after the integer and fraction parts of the numeral at
/// `pos`, when they are well-formed; a helper for stating bounds.
pub open spec fn number_end_frac_end(s: Seq<char>, pos: int) -> int {
    let p1 = if 0 <= pos < s.len() && s[pos] == '-' {
        pos + 1
    } else {
        pos
    };
    let d1 = digits_end(s, p1);
    if d1 < s.len() && s[d1] == '.' {
        digits_end(s, d1 + 1)
    } else {
        d1
    }
}

/// The end of a string-literal body scanned from just inside the opening
/// quote: an unescaped quote closes the literal, a backslash always takes
/// the next character with it. `Err` carries the position where the input
/// ran out.
pub open spec fn string_body_end(s: Seq<char>, pos: int) -> Result<int, int>
    decreases s.len() - pos,
{
    if !(0 <= pos < s.len()) {
        Err(pos)
    } else if s[pos] == '"' {
        Ok(pos + 1)
    } else if s[pos] == '\\' {
        if pos + 2 <= s.len() {
            string_body_end(s, pos + 2)
        } else {
            Err(pos + 1)
        }
    } else {
        string_body_end(s, pos + 1)
    }
}

pub proof fn lemma_string_body_end_bounds(s: Seq<char>, pos: int)
    requires
        0 <= pos,
        string_body_end(s, pos) is Ok,
    ensures
        pos < string_body_end(s, pos)->Ok_0 <= s.len(),
    decreases s.len() - pos,
{
    if pos < s.len() && s[pos] != '"' {
        if s[pos] == '\\' {
            if pos + 2 <= s.len() {
                lemma_string_body_end_bounds(s, pos + 2);
            }
        } else {
            lemma_string_body_end_bounds(s, pos + 1);
        }
    }
}

/// The end of the string literal (both quotes included) starting at `pos`.
pub open spec fn string_end(s: Seq<char>, pos: int) -> Result<int, int> {
    if 0 <= pos < s.len() && s[pos] == '"' {
        string_body_end(s, pos + 1)
    } else {
        Err(pos)
    }
}

pub proof fn lemma_string_end_bounds(s: Seq<char>, pos: int)
    requires
        0 <= pos,
        string_end(s, pos) is Ok,
    ensures
        pos + 2 <= string_end(s, pos)->Ok_0 <= s.len(),
{
    lemma_string_body_end_bounds(s, pos + 1);
}

/// The literal value starting at `pos`: the matched span, and a `Value`
/// wrapper node holding the node of the concrete literal form.
pub open spec fn value_at(s: Seq<char>, pos: int) -> Result<(int, NodeS), int>
    decreases s.len() - pos, 4int,
{
    if !(0 <= pos < s.len()) {
        Err(pos)
    } else {
        let c = s[pos];
        if c == '{' {
            match object_at(s, pos) {
                Err(p) => Err(p),
                Ok((end, onode)) => Ok((end, value_node(s, pos, end, onode))),
            }
        } else if c == '[' {
            match array_at(s, pos) {
                Err(p) => Err(p),
                Ok((end, anode)) => Ok((end, value_node(s, pos, end, anode))),
            }
        } else if c == '"' {
            match string_end(s, pos) {
                Err(p) => Err(p),
                Ok(end) => Ok(
                    (
                        end,
                        value_node(
                            s,
                            pos,
                            end,
                            NodeS { rule: Rule::Str, text: s.subrange(pos, end), children: Seq::empty() },
                        ),
                    ),
                ),
            }
        } else if c == 'n' {
            if has_null_at(s, pos) {
                Ok((pos + 4, keyword_value_node(s, pos, pos + 4, Rule::NullKw)))
            } else {
                Err(pos)
            }
        } else if c == 't' {
            if has_true_at(s, pos) {
                Ok((pos + 4, keyword_value_node(s, pos, pos + 4, Rule::TrueKw)))
            } else {
                Err(pos)
            }
        } else if c == 'f' {
            if has_false_at(s, pos) {
                Ok((pos + 5, keyword_value_node(s, pos, pos + 5, Rule::FalseKw)))
            } else {
                Err(pos)
            }
        } else if c == '-' || is_digit(c) {
            match number_end(s, pos) {
                Err(p) => Err(p),
                Ok(end) => Ok(
                    (
                        end,
                        value_node(
                            s,
                            pos,
                            end,
                            NodeS {
                                rule: Rule::Number,
                                text: s.subrange(pos, end),
                                children: Seq::empty(),
                            },
                        ),
                    ),
                ),
            }
        } else {
            Err(pos)
        }
    }
}

/// A `Value` wrapper node spanning `pos..end`, holding one inner node.
pub open spec fn value_node(s: Seq<char>, pos: int, end: int, inner: NodeS) -> NodeS {
    NodeS { rule: Rule::Value, text: s.subrange(pos, end), children: seq![inner] }
}

/// A `Value` wrapper around a keyword leaf node spanning `pos..end`.
pub open spec fn keyword_value_node(s: Seq<char>, pos: int, end: int, rule: Rule) -> NodeS {
    value_node(
        s,
        pos,
        end,
        NodeS { rule, text: s.subrange(pos, end), children: Seq::empty() },
    )
}

/// The sequence literal starting at `pos` (which must hold `[`): the matched
/// span and an `Array` node whose children are the element nodes in source
/// order.
pub open spec fn array_at(s: Seq<char>, pos: int) -> Result<(int, NodeS), int>
    decreases s.len() - pos, 3int,
{
    if !(0 <= pos < s.len() && s[pos] == '[') {
        Err(pos)
    } else {
        let p1 = ws_end(s, pos + 1);
        if !(pos < p1 <= s.len()) {
            Err(pos)
        } else if p1 < s.len() && s[p1] == ']' {
            Ok((p1 + 1, NodeS { rule: Rule::Array, text: s.subrange(pos, p1 + 1), children: Seq::empty() }))
        } else {
            match elements_at(s, p1) {
                Err(p) => Err(p),
                Ok((end, items)) => {
                    let p2 = ws_end(s, end);
                    if p2 < s.len() && s[p2] == ']' {
                        Ok(
                            (
                                p2 + 1,
                                NodeS {
                                    rule: Rule::Array,
                                    text: s.subrange(pos, p2 + 1),
                                    children: items,
                                },
                            ),
                        )
                    } else {
                        Err(p2)
                    }
                },
            }
        }
    }
}

/// The comma-separated run of values starting at `pos`: the position after
/// the last value, and the value wrapper nodes in source order.
pub open spec fn elements_at(s: Seq<char>, pos: int) -> Result<(int, Seq<NodeS>), int>
    decreases s.len() - pos, 5int,
{
    match value_at(s, pos) {
        Err(p) => Err(p),
        Ok((np, vnode)) => {
            let p2 = ws_end(s, np);
            if p2 < s.len() && s[p2] == ',' {
                let p3 = ws_end(s, p2 + 1);
                if !(pos < p3 <= s.len()) {
                    Err(p3)
                } else {
                    match elements_at(s, p3) {
                        Err(p) => Err(p),
                        Ok((end, rest)) => Ok((end, seq![vnode] + rest)),
                    }
                }
            } else {
                Ok((np, seq![vnode]))
            }
        },
    }
}

/// The mapping literal starting at `pos` (which must hold `{`): the matched
/// span and an `Object` node whose children are the pair nodes in source
/// order.
pub open spec fn object_at(s: Seq<char>, pos: int) -> Result<(int, NodeS), int>
    decreases s.len() - pos, 3int,
{
    if !(0 <= pos < s.len() && s[pos] == '{') {
        Err(pos)
    } else {
        let p1 = ws_end(s, pos + 1);
        if !(pos < p1 <= s.len()) {
            Err(pos)
        } else if p1 < s.len() && s[p1] == '}' {
            Ok((p1 + 1, NodeS { rule: Rule::Object, text: s.subrange(pos, p1 + 1), children: Seq::empty() }))
        } else {
            match pairs_at(s, p1) {
                Err(p) => Err(p),
                Ok((end, entries)) => {
                    let p2 = ws_end(s, end);
                    if p2 < s.len() && s[p2] == '}' {
                        Ok(
                            (
                                p2 + 1,
                                NodeS {
                                    rule: Rule::Object,
                                    text: s.subrange(pos, p2 + 1),
                                    children: entries,
                                },
                            ),
                        )
                    } else {
                        Err(p2)
                    }
                },
            }
        }
    }
}

/// The comma-separated run of key/value pairs starting at `pos`.
pub open spec fn pairs_at(s: Seq<char>, pos: int) -> Result<(int, Seq<NodeS>), int>
    decreases s.len() - pos, 5int,
{
    match pair_at(s, pos) {
        Err(p) => Err(p),
        Ok((np, pnode)) => {
            let p2 = ws_end(s, np);
            if p2 < s.len() && s[p2] == ',' {
                let p3 = ws_end(s, p2 + 1);
                if !(pos < p3 <= s.len()) {
                    Err(p3)
                } else {
                    match pairs_at(s, p3) {
                        Err(p) => Err(p),
                        Ok((end, rest)) => Ok((end, seq![pnode] + rest)),
                    }
                }
            } else {
                Ok((np, seq![pnode]))
            }
        },
    }
}

/// One key/value pair starting at `pos`: a string key, a colon, a value.
/// The `Pair` node holds the key node and the value wrapper node.
pub open spec fn pair_at(s: Seq<char>, pos: int) -> Result<(int, NodeS), int>
    decreases s.len() - pos, 2int,
{
    match string_end(s, pos) {
        Err(p) => Err(p),
        Ok(kend) => {
            let keynode = NodeS { rule: Rule::Str, text: s.subrange(pos, kend), children: Seq::empty() };
            let p2 = ws_end(s, kend);
            if p2 < s.len() && s[p2] == ':' {
                let p3 = ws_end(s, p2 + 1);
                if !(pos < p3 <= s.len()) {
                    Err(p3)
                } else {
                    match value_at(s, p3) {
                        Err(p) => Err(p),
                        Ok((vend, vnode)) => Ok(
                            (
                                vend,
                                NodeS {
                                    rule: Rule::Pair,
                                    text: s.subrange(pos, vend),
                                    children: seq![keynode, vnode],
                                },
                            ),
                        ),
                    }
                }
            } else {
                Err(p2)
            }
        },
    }
}

/// One expression starting at `pos`: the context reference `@`, or a literal
/// value. The result is an `Expr` wrapper node holding the concrete form.
pub open spec fn expr_at(s: Seq<char>, pos: int) -> Result<(int, NodeS), int> {
    if 0 <= pos < s.len() && s[pos] == '@' {
        Ok(
            (
                pos + 1,
                NodeS {
                    rule: Rule::Expr,
                    text: s.subrange(pos, pos + 1),
                    children: seq![
                        NodeS { rule: Rule::At, text: s.subrange(pos, pos + 1), children: Seq::empty() },
                    ],
                },
            ),
        )
    } else {
        match value_at(s, pos) {
            Err(p) => Err(p),
            Ok((end, vnode)) => Ok(
                (
                    end,
                    NodeS { rule: Rule::Expr, text: s.subrange(pos, end), children: seq![vnode] },
                ),
            ),
        }
    }
}

/// The context reference `@` standing at `pos`, as a bare leaf node.
pub open spec fn at_rule_at(s: Seq<char>, pos: int) -> Result<(int, NodeS), int> {
    if 0 <= pos < s.len() && s[pos] == '@' {
        Ok(
            (
                pos + 1,
                NodeS { rule: Rule::At, text: s.subrange(pos, pos + 1), children: Seq::empty() },
            ),
        )
    } else {
        Err(pos)
    }
}

/// The whole query: whitespace, one expression, whitespace, end of input.
/// `Ok` carries the top-level nodes: the expression wrapper, then the
/// end-of-input marker.
pub open spec fn query_at(s: Seq<char>) -> Result<Seq<NodeS>, int> {
    let p0 = ws_end(s, 0);
    match expr_at(s, p0) {
        Err(p) => Err(p),
        Ok((end, enode)) => {
            let p2 = ws_end(s, end);
            if p2 == s.len() {
                Ok(seq![enode, NodeS { rule: Rule::Eoi, text: Seq::empty(), children: Seq::empty() }])
            } else {
                Err(p2)
            }
        },
    }
}

pub proof fn lemma_value_at_bounds(s: Seq<char>, pos: int)
    requires
        value_at(s, pos) is Ok,
    ensures
        pos < value_at(s, pos)->Ok_0.0 <= s.len(),
    decreases s.len() - pos, 4int,
{
    if 0 <= pos < s.len() {
        let c = s[pos];
        if c == '{' {
            lemma_object_at_bounds(s, pos);
        } else if c == '[' {
            lemma_array_at_bounds(s, pos);
        } else if c == '"' {
            lemma_string_end_bounds(s, pos);
        } else if c == '-' || is_digit(c) {
            lemma_number_end_bounds(s, pos);
        }
    }
}

pub proof fn lemma_array_at_bounds(s: Seq<char>, pos: int)
    requires
        array_at(s, pos) is Ok,
    ensures
        pos < array_at(s, pos)->Ok_0.0 <= s.len(),
    decreases s.len() - pos, 3int,
{
    if 0 <= pos < s.len() && s[pos] == '[' {
        lemma_ws_end_bounds(s, pos + 1);
        let p1 = ws_end(s, pos + 1);
        if !(p1 < s.len() && s[p1] == ']') {
            if elements_at(s, p1) is Ok {
                lemma_elements_at_bounds(s, p1);
                let end = elements_at(s, p1)->Ok_0.0;
                lemma_ws_end_bounds(s, end);
            }
        }
    }
}

pub proof fn lemma_elements_at_bounds(s: Seq<char>, pos: int)
    requires
        elements_at(s, pos) is Ok,
    ensures
        pos < elements_at(s, pos)->Ok_0.0 <= s.len(),
    decreases s.len() - pos, 5int,
{
    if value_at(s, pos) is Ok {
        lemma_value_at_bounds(s, pos);
        let np = value_at(s, pos)->Ok_0.0;
        lemma_ws_end_bounds(s, np);
        let p2 = ws_end(s, np);
        if p2 < s.len() && s[p2] == ',' {
            lemma_ws_end_bounds(s, p2 + 1);
            let p3 = ws_end(s, p2 + 1);
            if pos < p3 <= s.len() && elements_at(s, p3) is Ok {
                lemma_elements_at_bounds(s, p3);
            }
        }
    }
}

pub proof fn lemma_object_at_bounds(s: Seq<char>, pos: int)
    requires
        object_at(s, pos) is Ok,
    ensures
        pos < object_at(s, pos)->Ok_0.0 <= s.len(),
    decreases s.len() - pos, 3int,
{
    if 0 <= pos < s.len() && s[pos] == '{' {
        lemma_ws_end_bounds(s, pos + 1);
        let p1 = ws_end(s, pos + 1);
        if !(p1 < s.len() && s[p1] == '}') {
            if pairs_at(s, p1) is Ok {
                lemma_pairs_at_bounds(s, p1);
                let end = pairs_at(s, p1)->Ok_0.0;
                lemma_ws_end_bounds(s, end);
            }
        }
    }
}

pub proof fn lemma_pairs_at_bounds(s: Seq<char>, pos: int)
    requires
        pairs_at(s, pos) is Ok,
    ensures
        pos < pairs_at(s, pos)->Ok_0.0 <= s.len(),
    decreases s.len() - pos, 5int,
{
    if pair_at(s, pos) is Ok {
        lemma_pair_at_bounds(s, pos);
        let np = pair_at(s, pos)->Ok_0.0;
        lemma_ws_end_bounds(s, np);
        let p2 = ws_end(s, np);
        if p2 < s.len() && s[p2] == ',' {
            lemma_ws_end_bounds(s, p2 + 1);
            let p3 = ws_end(s, p2 + 1);
            if pos < p3 <= s.len() && pairs_at(s, p3) is Ok {
                lemma_pairs_at_bounds(s, p3);
            }
        }
    }
}

pub proof fn lemma_pair_at_bounds(s: Seq<char>, pos: int)
    requires
        pair_at(s, pos) is Ok,
    ensures
        pos < pair_at(s, pos)->Ok_0.0 <= s.len(),
    decreases s.len() - pos, 2int,
{
    if string_end(s, pos) is Ok {
        if pos >= 0 {
            lemma_string_end_bounds(s, pos);
        }
        let kend = string_end(s, pos)->Ok_0;
        lemma_ws_end_bounds(s, kend);
        let p2 = ws_end(s, kend);
        if p2 < s.len() && s[p2] == ':' {
            lemma_ws_end_bounds(s, p2 + 1);
            let p3 = ws_end(s, p2 + 1);
            if pos < p3 <= s.len() && value_at(s, p3) is Ok {
                lemma_value_at_bounds(s, p3);
            }
        }
    }
}

pub proof fn lemma_expr_at_bounds(s: Seq<char>, pos: int)
    requires
        expr_at(s, pos) is Ok,
    ensures
        pos < expr_at(s, pos)->Ok_0.0 <= s.len(),
{
    if !(0 <= pos < s.len() && s[pos] == '@') {
        lemma_value_at_bounds(s, pos);
    }
}

} // verus!
