//! Literal values, and the value parser that rebuilds them from the parse
//! tree.
//!
//! A literal is rebuilt bottom-up from a `Value`-tagged node: scalars from
//! the node's text, sequences and mappings by recursing into the children.
//! The specification functions here ([`build_value`] and its helpers) state
//! the exact result for every tree shape; [`parse_value`] is proved to
//! return it.
//!
//! Mapping literals keep their entries in source order with unique keys;
//! when one literal repeats a key, the last value wins and the entry keeps
//! the position of its first occurrence ([`obj_insert`]).

use vstd::prelude::*;

use vstd::string::StrSliceExecFns;

use crate::error::Error;
use crate::error::ErrorS;
use crate::error::StructureKind;
use crate::grammar;
use crate::tree::Node;
use crate::tree::NodeS;
use crate::tree::Rule;

verus! {

broadcast use vstd::seq::axiom_seq_index_decreases;

/// A literal value: a scalar, a sequence, or a key/value mapping.
///
/// Numbers follow the numeral's own shape: a numeral without fraction or
/// exponent becomes [`Value::Int`]; any other numeral becomes
/// [`Value::Float`], which keeps the exact source text of the numeral, so
/// that re-rendering it is the identity.
#[derive(Debug, PartialEq)]
pub enum Value {
    /// The literal `null`.
    Null,
    /// The literals `true` and `false`.
    Boolean(bool),
    /// An integer numeral.
    Int(i64),
    /// A fractional or exponent numeral, kept as its exact source text.
    Float(String),
    /// A string literal, delimiters stripped and escapes decoded.
    Str(String),
    /// A sequence literal, elements in source order.
    Array(Vec<Value>),
    /// A mapping literal: entries in source order, keys unique.
    Object(Vec<(String, Value)>),
}

/// The mathematical model of a [`Value`].
pub ghost enum ValueS {
    Null,
    Boolean(bool),
    Int(i64),
    Float(Seq<char>),
    Str(Seq<char>),
    Array(Seq<ValueS>),
    Object(Seq<(Seq<char>, ValueS)>),
}

/// The model of a value, element by element.
pub open spec fn value_view(v: Value) -> ValueS
    decreases v, 1int,
{
    match v {
        Value::Null => ValueS::Null,
        Value::Boolean(b) => ValueS::Boolean(b),
        Value::Int(i) => ValueS::Int(i),
        Value::Float(t) => ValueS::Float(t@),
        Value::Str(t) => ValueS::Str(t@),
        Value::Array(items) => ValueS::Array(values_of(items)),
        Value::Object(entries) => ValueS::Object(entries_of(entries)),
    }
}

/// The views of the values of a vector, in order.
pub open spec fn values_of(v: Vec<Value>) -> Seq<ValueS>
    decreases v, 0int,
    via values_of_decreases
{
    Seq::new(
        v@.len(),
        |i: int|
            if 0 <= i < v.len() {
                value_view(v[i])
            } else {
                arbitrary()
            },
    )
}

#[via_fn]
proof fn values_of_decreases(v: Vec<Value>) {
    assert forall|i: int| 0 <= i < v.len() implies decreases_to!(v, 0int => v[i], 1int) by {
        vstd::std_specs::vec::axiom_vec_index_decreases(v, i);
    }
}

/// The views of the entries of a vector of key/value pairs, in order.
pub open spec fn entries_of(v: Vec<(String, Value)>) -> Seq<(Seq<char>, ValueS)>
    decreases v, 0int,
    via entries_of_decreases
{
    Seq::new(
        v@.len(),
        |i: int|
            if 0 <= i < v.len() {
                (v[i].0@, value_view(v[i].1))
            } else {
                arbitrary()
            },
    )
}

#[via_fn]
proof fn entries_of_decreases(v: Vec<(String, Value)>) {
    assert forall|i: int| 0 <= i < v.len() implies decreases_to!(v, 0int => v[i].1, 1int) by {
        vstd::std_specs::vec::axiom_vec_index_decreases(v, i);
        assert(decreases_to!(v[i] => v[i].1));
    }
}

impl View for Value {
    type V = ValueS;

    open spec fn view(&self) -> ValueS {
        value_view(*self)
    }
}

/// The numeric value of a run of decimal digits.
pub open spec fn dec_val(s: Seq<char>) -> int
    decreases s.len(),
{
    if s.len() == 0 {
        0
    } else {
        dec_val(s.drop_last()) * 10 + (s.last() as int - '0' as int)
    }
}

/// Whether `t` is, in full, one well-formed numeral of the grammar.
pub open spec fn is_numeral(t: Seq<char>) -> bool {
    grammar::number_end(t, 0) == Ok::<int, int>(t.len() as int)
}

/// Whether the numeral contains a fraction or exponent marker, making it a
/// floating-point literal rather than an integer one.
pub open spec fn has_frac_or_exp(t: Seq<char>) -> bool {
    exists|i: int| 0 <= i < t.len() && (t[i] == '.' || t[i] == 'e' || t[i] == 'E')
}

/// The largest magnitude an integer numeral may carry: `2^63 - 1` unsigned,
/// `2^63` when negated.
pub open spec fn int_bound(negative: bool) -> int {
    if negative {
        0x8000000000000000
    } else {
        0x7fffffffffffffff
    }
}

/// The digits of the numeral `t`, its sign stripped.
pub open spec fn numeral_digits(t: Seq<char>) -> Seq<char> {
    if t.len() > 0 && t[0] == '-' {
        t.subrange(1, t.len() as int)
    } else {
        t
    }
}

/// The signed numeric value of the integer numeral `t`.
pub open spec fn numeral_value(t: Seq<char>) -> int {
    if t.len() > 0 && t[0] == '-' {
        -dec_val(numeral_digits(t))
    } else {
        dec_val(numeral_digits(t))
    }
}

/// The value of the number node text `t`: not a numeral, a structural
/// error; a fractional or exponent numeral, a float carrying the text; an
/// integer numeral, the machine integer it denotes, or a structural error
/// when it does not fit.
pub open spec fn build_number(t: Seq<char>) -> Result<ValueS, ErrorS> {
    if !is_numeral(t) {
        Err(ErrorS::Structure { kind: StructureKind::BadNumeral })
    } else if has_frac_or_exp(t) {
        Ok(ValueS::Float(t))
    } else {
        let negative = t.len() > 0 && t[0] == '-';
        if dec_val(numeral_digits(t)) > int_bound(negative) {
            Err(ErrorS::Structure { kind: StructureKind::NumberTooLarge })
        } else {
            Ok(ValueS::Int(numeral_value(t) as i64))
        }
    }
}

/// The decoding of one escape selector: the character it stands for, or
/// nothing when the selector is not recognised.
pub open spec fn escape_of(c: char) -> Option<char> {
    if c == '"' {
        Some('"')
    } else if c == '\\' {
        Some('\\')
    } else if c == '/' {
        Some('/')
    } else if c == 'n' {
        Some('\n')
    } else if c == 't' {
        Some('\t')
    } else if c == 'r' {
        Some('\r')
    } else if c == 'b' {
        Some('\u{0008}')
    } else if c == 'f' {
        Some('\u{000C}')
    } else {
        None
    }
}

/// The decoding of a string-literal body: each backslash and its selector
/// become the selected character, every other character stands for itself.
/// An unrecognised selector, or a lone backslash at the end, is an encoding
/// error.
pub open spec fn decode_chars(s: Seq<char>) -> Result<Seq<char>, ErrorS>
    decreases s.len(),
{
    if s.len() == 0 {
        Ok(Seq::empty())
    } else if s[0] == '\\' {
        if s.len() == 1 {
            Err(ErrorS::Encoding { escape: '\\' })
        } else {
            match escape_of(s[1]) {
                Option::None => Err(ErrorS::Encoding { escape: s[1] }),
                Option::Some(c) => match decode_chars(s.subrange(2, s.len() as int)) {
                    Ok(rest) => Ok(seq![c] + rest),
                    Err(e) => Err(e),
                },
            }
        }
    } else {
        match decode_chars(s.subrange(1, s.len() as int)) {
            Ok(rest) => Ok(seq![s[0]] + rest),
            Err(e) => Err(e),
        }
    }
}

/// The decoded content of the string node text `t`: `t` must be delimited
/// by one quote on each side, and the body in between is decoded.
pub open spec fn decode_string(t: Seq<char>) -> Result<Seq<char>, ErrorS> {
    if t.len() < 2 || t[0] != '"' || t[t.len() - 1] != '"' {
        Err(ErrorS::Structure { kind: StructureKind::BadStringNode })
    } else {
        decode_chars(t.subrange(1, t.len() - 1))
    }
}

/// Insertion into a mapping with unique keys: a new key goes to the end; an
/// existing key keeps its position and takes the new value. This is the
/// last-write-wins policy for duplicate keys in one mapping literal.
pub open spec fn obj_insert(
    es: Seq<(Seq<char>, ValueS)>,
    k: Seq<char>,
    v: ValueS,
) -> Seq<(Seq<char>, ValueS)>
    decreases es.len(),
{
    if es.len() == 0 {
        seq![(k, v)]
    } else if es[0].0 == k {
        seq![(k, v)] + es.subrange(1, es.len() as int)
    } else {
        seq![es[0]] + obj_insert(es.subrange(1, es.len() as int), k, v)
    }
}

/// The mapping built by inserting `entries` in order into `acc`.
pub open spec fn obj_fold(
    acc: Seq<(Seq<char>, ValueS)>,
    entries: Seq<(Seq<char>, ValueS)>,
) -> Seq<(Seq<char>, ValueS)>
    decreases entries.len(),
{
    if entries.len() == 0 {
        acc
    } else {
        obj_fold(
            obj_insert(acc, entries[0].0, entries[0].1),
            entries.subrange(1, entries.len() as int),
        )
    }
}

/// The values of the element nodes of the array node `c`, from child `i`
/// on; the first failure aborts the walk.
pub open spec fn build_elements(c: NodeS, i: int) -> Result<Seq<ValueS>, ErrorS>
    decreases c, c.children.len() - i, 1int,
{
    if i < 0 || i >= c.children.len() {
        Ok(Seq::empty())
    } else {
        match build_value(c.children[i]) {
            Err(e) => Err(e),
            Ok(v) => match build_elements(c, i + 1) {
                Err(e) => Err(e),
                Ok(rest) => Ok(seq![v] + rest),
            },
        }
    }
}

/// The key/value pairs of the object node `c`, from child `i` on, in source
/// order and with duplicates still present. Each child must be a `Pair`
/// node holding a string-node key and a value node.
pub open spec fn build_entries(c: NodeS, i: int) -> Result<Seq<(Seq<char>, ValueS)>, ErrorS>
    decreases c, c.children.len() - i, 1int,
{
    if i < 0 || i >= c.children.len() {
        Ok(Seq::empty())
    } else {
        let p = c.children[i];
        if p.rule != Rule::Pair {
            Err(ErrorS::Structure { kind: StructureKind::ExpectedPair { rule: p.rule } })
        } else if p.children.len() < 2 {
            Err(ErrorS::Structure { kind: StructureKind::MalformedPair })
        } else if p.children[0].rule != Rule::Str {
            Err(
                ErrorS::Structure {
                    kind: StructureKind::KeyNotString { rule: p.children[0].rule },
                },
            )
        } else {
            match decode_string(p.children[0].text) {
                Err(e) => Err(e),
                Ok(k) => match build_value(p.children[1]) {
                    Err(e) => Err(e),
                    Ok(v) => match build_entries(c, i + 1) {
                        Err(e) => Err(e),
                        Ok(rest) => Ok(seq![(k, v)] + rest),
                    },
                },
            }
        }
    }
}

/// The value a `Value`-tagged node stands for. The node's first child names
/// the concrete literal form; scalars are rebuilt from its text, sequences
/// and mappings by recursion over its children. Every unexpected shape is
/// a reported error carrying the tag that was met.
pub open spec fn build_value(n: NodeS) -> Result<ValueS, ErrorS>
    decreases n, 0int, 0int,
{
    if n.children.len() == 0 {
        Err(ErrorS::Structure { kind: StructureKind::EmptyValue })
    } else {
        let c = n.children[0];
        match c.rule {
            Rule::NullKw => Ok(ValueS::Null),
            Rule::TrueKw => Ok(ValueS::Boolean(true)),
            Rule::FalseKw => Ok(ValueS::Boolean(false)),
            Rule::Number => build_number(c.text),
            Rule::Str => match decode_string(c.text) {
                Ok(t) => Ok(ValueS::Str(t)),
                Err(e) => Err(e),
            },
            Rule::Array => match build_elements(c, 0) {
                Ok(items) => Ok(ValueS::Array(items)),
                Err(e) => Err(e),
            },
            Rule::Object => match build_entries(c, 0) {
                Ok(entries) => Ok(ValueS::Object(obj_fold(Seq::empty(), entries))),
                Err(e) => Err(e),
            },
            r => Err(ErrorS::Structure { kind: StructureKind::UnknownValueRule { rule: r } }),
        }
    }
}

pub proof fn lemma_dec_val_nonneg(s: Seq<char>)
    requires
        forall|j: int| 0 <= j < s.len() ==> is_digit(s[j]),
    ensures
        dec_val(s) >= 0,
    decreases s.len(),
{
    if s.len() > 0 {
        lemma_dec_val_nonneg(s.drop_last());
    }
}

/// A digit, as the grammar and the numeral lemmas speak of it.
pub open spec fn is_digit(c: char) -> bool {
    grammar::is_digit(c)
}

/// The value of a run of digits never shrinks as the run grows: a prefix
/// denotes at most the whole.
pub proof fn lemma_dec_val_prefix(s: Seq<char>, i: int)
    requires
        0 <= i <= s.len(),
        forall|j: int| 0 <= j < s.len() ==> is_digit(s[j]),
    ensures
        dec_val(s.subrange(0, i)) <= dec_val(s),
    decreases s.len(),
{
    if i == s.len() {
        assert(s.subrange(0, i) =~= s);
    } else {
        let d = s.drop_last();
        assert(forall|j: int| 0 <= j < d.len() ==> is_digit(#[trigger] d[j]));
        assert(s.subrange(0, i) =~= d.subrange(0, i));
        lemma_dec_val_prefix(d, i);
        lemma_dec_val_nonneg(d);
        assert(dec_val(s) == dec_val(d) * 10 + (s.last() as int - '0' as int));
        assert(dec_val(d) * 10 >= dec_val(d)) by (nonlinear_arith)
            requires
                dec_val(d) >= 0,
        ;
    }
}

/// All characters of a run that `digits_end` scanned to its end are digits.
pub proof fn lemma_digits_end_all(s: Seq<char>, pos: int)
    requires
        0 <= pos <= s.len(),
    ensures
        forall|j: int|
            pos <= j < grammar::digits_end(s, pos) ==> is_digit(#[trigger] s[j]),
    decreases s.len() - pos,
{
    if pos < s.len() && grammar::is_digit(s[pos]) {
        lemma_digits_end_all(s, pos + 1);
        grammar::lemma_digits_end_bounds(s, pos + 1);
    }
}

/// Relies on `String::push`: it appends the given character to the end of
/// the string.
#[verifier::external_body]
fn push_char(s: &mut String, c: char)
    ensures
        final(s)@ == old(s)@.push(c),
{
    s.push(c);
}

fn escape_x(c: char) -> (r: Option<char>)
    ensures
        r == escape_of(c),
{
    if c == '"' {
        Option::Some('"')
    } else if c == '\\' {
        Option::Some('\\')
    } else if c == '/' {
        Option::Some('/')
    } else if c == 'n' {
        Option::Some('\n')
    } else if c == 't' {
        Option::Some('\t')
    } else if c == 'r' {
        Option::Some('\r')
    } else if c == 'b' {
        Option::Some('\u{0008}')
    } else if c == 'f' {
        Option::Some('\u{000C}')
    } else {
        Option::None
    }
}

/// Strips the delimiters of the string node text `t` and decodes its
/// escape sequences, exactly as [`decode_string`] states.
fn decode_string_text(t: &String) -> (r: Result<String, Error>)
    ensures
        match decode_string(t@) {
            Ok(sq) => r is Ok && r->Ok_0@ == sq,
            Err(e) => r is Err && r->Err_0@ == e,
        },
{
    let n = t.as_str().unicode_len();
    if n < 2 || t.as_str().get_char(0) != '"' || t.as_str().get_char(n - 1) != '"' {
        return Err(Error::structural(StructureKind::BadStringNode));
    }
    let ghost inner = t@.subrange(1, n as int - 1);
    let end = n - 1;
    let mut out = String::new();
    let mut i: usize = 1;
    proof {
        assert(t@.subrange(1 as int, end as int) =~= inner);
        if decode_chars(inner) is Ok {
            assert(Seq::<char>::empty() + decode_chars(inner)->Ok_0 =~= decode_chars(
                inner,
            )->Ok_0);
        }
    }
    while i < end
        invariant
            1 <= i <= end,
            end == n - 1,
            n == t@.len(),
            2 <= n,
            t@[0] == '"',
            t@[n - 1] == '"',
            inner == t@.subrange(1, n as int - 1),
            match decode_chars(t@.subrange(i as int, end as int)) {
                Ok(rest) => decode_chars(inner) == Ok::<Seq<char>, ErrorS>(out@ + rest),
                Err(e) => decode_chars(inner) == Err::<Seq<char>, ErrorS>(e),
            },
        decreases end - i,
    {
        let ghost rem = t@.subrange(i as int, end as int);
        let c = t.as_str().get_char(i);
        proof {
            assert(rem[0] == t@[i as int]);
        }
        if c == '\\' {
            if i + 1 >= end {
                proof {
                    assert(rem.len() == 1);
                }
                return Err(Error::Encoding { escape: '\\' });
            }
            let c2 = t.as_str().get_char(i + 1);
            proof {
                assert(rem[1] == t@[i + 1]);
            }
            match escape_x(c2) {
                Option::None => {
                    proof {
                        assert(rem.len() > 1);
                        assert(decode_chars(rem) == Err::<Seq<char>, ErrorS>(
                            ErrorS::Encoding { escape: c2 },
                        ));
                    }
                    return Err(Error::Encoding { escape: c2 });
                },
                Option::Some(dc) => {
                    let ghost out0 = out@;
                    push_char(&mut out, dc);
                    proof {
                        assert(rem.subrange(2, rem.len() as int) =~= t@.subrange(
                            i + 2,
                            end as int,
                        ));
                        match decode_chars(t@.subrange(i + 2, end as int)) {
                            Ok(rest2) => {
                                assert(out0 + (seq![dc] + rest2) =~= out@ + rest2);
                            },
                            Err(_) => {},
                        }
                    }
                    i = i + 2;
                },
            }
        } else {
            let ghost out0 = out@;
            push_char(&mut out, c);
            proof {
                assert(rem.subrange(1, rem.len() as int) =~= t@.subrange(i + 1, end as int));
                match decode_chars(t@.subrange(i + 1, end as int)) {
                    Ok(rest2) => {
                        assert(out0 + (seq![c] + rest2) =~= out@ + rest2);
                    },
                    Err(_) => {},
                }
            }
            i = i + 1;
        }
    }
    proof {
        assert(t@.subrange(i as int, end as int) =~= Seq::<char>::empty());
        assert(out@ + Seq::<char>::empty() =~= out@);
    }
    Ok(out)
}

/// Parses the number node text `t`, exactly as [`build_number`] states: a
/// float keeps the text, an integer becomes the machine integer it
/// denotes, anything malformed or out of range is reported.
fn parse_number_text(t: &String) -> (r: Result<Value, Error>)
    ensures
        match build_number(t@) {
            Ok(v) => r is Ok && r->Ok_0@ == v,
            Err(e) => r is Err && r->Err_0@ == e,
        },
{
    let n = t.as_str().unicode_len();
    let valid = match crate::engine::number_end_x(t.as_str(), n, 0) {
        Ok(e) => e == n,
        Err(_) => false,
    };
    if !valid {
        return Err(Error::structural(StructureKind::BadNumeral));
    }
    let mut i: usize = 0;
    while i < n
        invariant
            i <= n,
            n == t@.len(),
            is_numeral(t@),
            forall|j: int| 0 <= j < i ==> !(t@[j] == '.' || t@[j] == 'e' || t@[j] == 'E'),
        decreases n - i,
    {
        let c = t.as_str().get_char(i);
        if c == '.' || c == 'e' || c == 'E' {
            proof {
                assert(0 <= i < t@.len() && (t@[i as int] == '.' || t@[i as int] == 'e'
                    || t@[i as int] == 'E'));
                assert(has_frac_or_exp(t@));
            }
            return Ok(Value::Float(t.clone()));
        }
        i = i + 1;
    }
    // An integer numeral: no fraction, no exponent.
    proof {
        assert(!has_frac_or_exp(t@)) by {
            if has_frac_or_exp(t@) {
                let w = choose|w: int|
                    0 <= w < t@.len() && (t@[w] == '.' || t@[w] == 'e' || t@[w] == 'E');
                assert(!(t@[w] == '.' || t@[w] == 'e' || t@[w] == 'E'));
            }
        }
    }
    let negative = n > 0 && t.as_str().get_char(0) == '-';
    let start: usize = if negative {
        1
    } else {
        0
    };
    let ghost digits = numeral_digits(t@);
    proof {
        assert(digits =~= t@.subrange(start as int, n as int));
        // With no marker anywhere, the numeral is one digit run after the
        // optional sign.
        grammar::lemma_digits_end_bounds(t@, start as int);
        assert(grammar::digits_end(t@, start as int) == n as int);
        lemma_digits_end_all(t@, start as int);
        assert(forall|j: int|
            0 <= j < digits.len() ==> is_digit(#[trigger] digits[j]));
        assert(t@.subrange(start as int, start as int) =~= Seq::<char>::empty());
    }
    let mut acc: u64 = 0;
    let mut k: usize = start;
    while k < n
        invariant
            start <= k <= n,
            n == t@.len(),
            start <= 1,
            start == 0 || start == 1,
            digits == t@.subrange(start as int, n as int),
            forall|j: int| 0 <= j < digits.len() ==> is_digit(#[trigger] digits[j]),
            acc as int == dec_val(t@.subrange(start as int, k as int)),
            acc as int <= int_bound(negative),
            t@.len() > 0,
            negative ==> (t@[0] == '-' && start == 1),
            !negative ==> (start == 0 && t@[0] != '-'),
            !has_frac_or_exp(t@),
            is_numeral(t@),
        decreases n - k,
    {
        let c = t.as_str().get_char(k);
        proof {
            assert(digits[k - start] == t@[k as int]);
        }
        let d: u64 = (c as u64) - 48;
        let last_ok: u64 = if negative {
            8
        } else {
            7
        };
        let ghost prefix = t@.subrange(start as int, k as int);
        let ghost prefix1 = t@.subrange(start as int, k + 1);
        proof {
            assert(prefix1.drop_last() =~= prefix);
            assert(prefix1.last() == t@[k as int]);
            assert(dec_val(prefix1) == (acc as int) * 10 + d);
        }
        if acc > 922337203685477580u64 || (acc == 922337203685477580u64 && d > last_ok) {
            proof {
                assert(dec_val(prefix1) > int_bound(negative));
                assert(prefix1 =~= digits.subrange(0, k + 1 - start));
                lemma_dec_val_prefix(digits, k + 1 - start);
                assert(dec_val(digits) > int_bound(negative));
                assert(is_numeral(t@));
                assert(!has_frac_or_exp(t@));
                assert((t@.len() > 0 && t@[0] == '-') == negative);
                assert(numeral_digits(t@) == digits);
                assert(dec_val(numeral_digits(t@)) > int_bound(negative));
                assert(build_number(t@) == Err::<ValueS, ErrorS>(
                    ErrorS::Structure { kind: StructureKind::NumberTooLarge },
                ));
            }
            return Err(Error::structural(StructureKind::NumberTooLarge));
        }
        acc = acc * 10 + d;
        k = k + 1;
    }
    proof {
        assert(t@.subrange(start as int, n as int) =~= digits);
        assert(acc as int == dec_val(digits));
    }
    if negative {
        if acc == 9223372036854775808u64 {
            Ok(Value::Int(i64::MIN))
        } else {
            Ok(Value::Int(-(acc as i64)))
        }
    } else {
        Ok(Value::Int(acc as i64))
    }
}

/// The canonical digits of the non-negative integer `m`, most significant
/// first.
pub open spec fn int_to_digits(m: int) -> Seq<char>
    decreases m,
{
    if 0 <= m < 10 {
        seq![((48 + m) as u8) as char]
    } else if m >= 10 {
        int_to_digits(m / 10).push(((48 + (m % 10)) as u8) as char)
    } else {
        Seq::empty()
    }
}

/// The canonical rendering of the integer `v`: a minus sign for a negative
/// value, then its digits.
pub open spec fn render_int(v: int) -> Seq<char> {
    if v < 0 {
        seq!['-'] + int_to_digits(-v)
    } else {
        int_to_digits(v)
    }
}

/// The canonical digits of `m` denote `m`, are all digits, and are never
/// empty.
pub proof fn lemma_int_to_digits_val(m: int)
    requires
        m >= 0,
    ensures
        dec_val(int_to_digits(m)) == m,
        int_to_digits(m).len() >= 1,
        forall|j: int|
            0 <= j < int_to_digits(m).len() ==> is_digit(#[trigger] int_to_digits(m)[j]),
    decreases m,
{
    if m < 10 {
        let s = int_to_digits(m);
        assert(s.len() == 1);
        assert(s[0] == ((48 + m) as u8) as char);
        assert((48 + m) as u8 == 48 + m);
        assert(s[0] as int == 48 + m);
        assert(s.drop_last() =~= Seq::<char>::empty());
        assert(dec_val(s) == dec_val(s.drop_last()) * 10 + (s.last() as int - '0' as int));
        assert(dec_val(s.drop_last()) == 0);
        assert(s.last() == s[0]);
    } else {
        lemma_int_to_digits_val(m / 10);
        vstd::arithmetic::div_mod::lemma_fundamental_div_mod(m, 10);
        let s = int_to_digits(m);
        let d = int_to_digits(m / 10);
        assert(s == d.push(((48 + (m % 10)) as u8) as char));
        assert(s.drop_last() =~= d);
        assert(s.last() as int == 48 + (m % 10));
        assert(forall|j: int| 0 <= j < s.len() - 1 ==> s[j] == #[trigger] d[j]);
    }
}

/// An integer numeral's digits, after the optional sign, are one
/// non-empty run of decimal digits.
pub proof fn lemma_int_numeral_digits(t: Seq<char>)
    requires
        is_numeral(t),
        !has_frac_or_exp(t),
    ensures
        numeral_digits(t).len() >= 1,
        forall|j: int|
            0 <= j < numeral_digits(t).len() ==> is_digit(#[trigger] numeral_digits(t)[j]),
{
    let negative = t.len() > 0 && t[0] == '-';
    let start: int = if negative {
        1
    } else {
        0
    };
    let d1 = grammar::digits_end(t, start);
    grammar::lemma_digits_end_bounds(t, start);
    if d1 < t.len() && t[d1] == '.' {
        assert(has_frac_or_exp(t));
    }
    if d1 < t.len() && (t[d1] == 'e' || t[d1] == 'E') {
        assert(has_frac_or_exp(t));
    }
    assert(d1 == t.len());
    lemma_digits_end_all(t, start);
    assert(numeral_digits(t) =~= t.subrange(start, t.len() as int));
    assert(forall|j: int|
        0 <= j < numeral_digits(t).len() ==> is_digit(#[trigger] numeral_digits(t)[j]));
}

/// Re-rendering a parsed integer numeral yields a numeral with the same
/// numeric value as the source text: the textual round-trip of an integer
/// literal is numerically exact.
pub proof fn lemma_int_numeral_roundtrip(t: Seq<char>, i: i64)
    requires
        build_number(t) == Ok::<ValueS, ErrorS>(ValueS::Int(i)),
        !has_frac_or_exp(t),
    ensures
        numeral_value(render_int(i as int)) == numeral_value(t),
{
    let digits = numeral_digits(t);
    let negative = t.len() > 0 && t[0] == '-';
    assert(is_numeral(t));
    assert(dec_val(digits) <= int_bound(negative));
    lemma_int_numeral_digits(t);
    lemma_dec_val_nonneg(digits);
    assert(-0x8000000000000000 <= numeral_value(t) <= 0x7fffffffffffffff);
    assert(i as int == numeral_value(t));
    if i >= 0 {
        let r = render_int(i as int);
        lemma_int_to_digits_val(i as int);
        assert(r[0] != '-');
        assert(numeral_digits(r) == r);
        assert(numeral_value(r) == dec_val(r));
    } else {
        let m = -(i as int);
        let r = render_int(i as int);
        lemma_int_to_digits_val(m);
        assert(r[0] == '-');
        assert(numeral_digits(r) =~= int_to_digits(m));
        assert(numeral_value(r) == -dec_val(int_to_digits(m)));
    }
}

/// A string body without backslashes decodes to itself: with no escape
/// sequences, decoding a literal removes only the delimiters.
pub proof fn lemma_decode_plain(s: Seq<char>)
    requires
        forall|j: int| 0 <= j < s.len() ==> s[j] != '\\',
    ensures
        decode_chars(s) == Ok::<Seq<char>, ErrorS>(s),
    decreases s.len(),
{
    if s.len() == 0 {
        assert(s =~= Seq::<char>::empty());
    } else {
        let rest = s.subrange(1, s.len() as int);
        assert(forall|j: int| 0 <= j < rest.len() ==> #[trigger] rest[j] != '\\');
        lemma_decode_plain(rest);
        assert(seq![s[0]] + rest =~= s);
    }
}

/// A string literal without escape sequences decodes to its inner text:
/// only the delimiter characters are removed.
pub proof fn lemma_plain_string_literal(t: Seq<char>)
    requires
        t.len() >= 2,
        t[0] == '"',
        t[t.len() - 1] == '"',
        forall|j: int| 1 <= j < t.len() - 1 ==> t[j] != '\\',
    ensures
        decode_string(t) == Ok::<Seq<char>, ErrorS>(t.subrange(1, t.len() - 1)),
{
    let inner = t.subrange(1, t.len() - 1);
    assert(forall|j: int| 0 <= j < inner.len() ==> #[trigger] inner[j] != '\\');
    lemma_decode_plain(inner);
}

/// A value wrapper whose child bears a rule the value parser does not know
/// yields a structural error naming that rule: never a silent default,
/// never an abort.
pub proof fn lemma_unknown_value_rule_reported(n: NodeS)
    requires
        n.children.len() > 0,
        n.children[0].rule != Rule::NullKw,
        n.children[0].rule != Rule::TrueKw,
        n.children[0].rule != Rule::FalseKw,
        n.children[0].rule != Rule::Number,
        n.children[0].rule != Rule::Str,
        n.children[0].rule != Rule::Array,
        n.children[0].rule != Rule::Object,
    ensures
        build_value(n) == Err::<ValueS, ErrorS>(
            ErrorS::Structure {
                kind: StructureKind::UnknownValueRule { rule: n.children[0].rule },
            },
        ),
{
}

/// Inserting a key that is absent appends the entry at the end.
pub proof fn lemma_obj_insert_absent(es: Seq<(Seq<char>, ValueS)>, k: Seq<char>, v: ValueS)
    requires
        forall|j: int| 0 <= j < es.len() ==> (#[trigger] es[j]).0 != k,
    ensures
        obj_insert(es, k, v) == es + seq![(k, v)],
    decreases es.len(),
{
    if es.len() == 0 {
        assert(seq![(k, v)] =~= es + seq![(k, v)]);
    } else {
        let rest = es.subrange(1, es.len() as int);
        assert(forall|j: int| 0 <= j < rest.len() ==> (#[trigger] rest[j]).0 != k);
        lemma_obj_insert_absent(rest, k, v);
        assert(seq![es[0]] + (rest + seq![(k, v)]) =~= es + seq![(k, v)]);
    }
}

/// Inserting a key already present replaces the value in place: the entry
/// keeps the position of the key's first occurrence.
pub proof fn lemma_obj_insert_found(
    es: Seq<(Seq<char>, ValueS)>,
    k: Seq<char>,
    v: ValueS,
    i: int,
)
    requires
        0 <= i < es.len(),
        es[i].0 == k,
        forall|j: int| 0 <= j < i ==> (#[trigger] es[j]).0 != k,
    ensures
        obj_insert(es, k, v) == es.update(i, (k, v)),
    decreases i,
{
    if i == 0 {
        assert(seq![(k, v)] + es.subrange(1, es.len() as int) =~= es.update(0, (k, v)));
    } else {
        let rest = es.subrange(1, es.len() as int);
        assert(forall|j: int| 0 <= j < i - 1 ==> (#[trigger] rest[j]).0 != k);
        lemma_obj_insert_found(rest, k, v, i - 1);
        assert(seq![es[0]] + rest.update(i - 1, (k, v)) =~= es.update(i, (k, v)));
    }
}

/// Puts one entry into a mapping under construction, as [`obj_insert`]
/// states: a new key at the end, an existing key overwritten in place.
fn upsert(obj: &mut Vec<(String, Value)>, k: String, v: Value)
    ensures
        entries_of(*final(obj)) == obj_insert(entries_of(*old(obj)), k@, v@),
{
    let mut i: usize = 0;
    while i < obj.len()
        invariant
            i <= obj.len(),
            *obj == *old(obj),
            forall|j: int| 0 <= j < i ==> (#[trigger] entries_of(*obj)[j]).0 != k@,
        decreases obj.len() - i,
    {
        if obj[i].0 == k {
            proof {
                assert(entries_of(*obj)[i as int].0 == k@);
                lemma_obj_insert_found(entries_of(*obj), k@, v@, i as int);
            }
            let ghost before = entries_of(*obj);
            obj.remove(i);
            obj.insert(i, (k, v));
            proof {
                assert(entries_of(*obj) =~= before.update(i as int, (k@, v@)));
            }
            return;
        }
        i = i + 1;
    }
    proof {
        lemma_obj_insert_absent(entries_of(*obj), k@, v@);
    }
    let ghost before = entries_of(*obj);
    obj.push((k, v));
    proof {
        assert(entries_of(*obj) =~= before + seq![(k@, v@)]);
    }
}

/// Rebuilds the literal value a `Value`-tagged node stands for, exactly as
/// [`build_value`] states: the node's first child names the form; scalars
/// come from its text, sequences and mappings from its children, and every
/// unexpected shape is a reported error naming the tag that was met.
pub fn parse_value(node: &Node) -> (r: Result<Value, Error>)
    ensures
        match build_value(node@) {
            Ok(v) => r is Ok && r->Ok_0@ == v,
            Err(e) => r is Err && r->Err_0@ == e,
        },
    decreases *node,
{
    if node.children.len() == 0 {
        return Err(Error::structural(StructureKind::EmptyValue));
    }
    let c: &Node = &node.children[0];
    let ghost cs = node@.children[0int];
    proof {
        assert(cs == c@);
    }
    match c.rule {
        Rule::NullKw => Ok(Value::Null),
        Rule::TrueKw => Ok(Value::Boolean(true)),
        Rule::FalseKw => Ok(Value::Boolean(false)),
        Rule::Number => parse_number_text(&c.text),
        Rule::Str => match decode_string_text(&c.text) {
            Ok(s) => Ok(Value::Str(s)),
            Err(e) => Err(e),
        },
        Rule::Array => {
            let m = c.children.len();
            let mut items: Vec<Value> = Vec::new();
            let mut i: usize = 0;
            proof {
                assert(values_of(items) =~= Seq::<ValueS>::empty());
                if build_elements(cs, 0) is Ok {
                    assert(Seq::<ValueS>::empty() + build_elements(cs, 0)->Ok_0
                        =~= build_elements(cs, 0)->Ok_0);
                }
            }
            while i < m
                invariant
                    i <= m,
                    node.children.len() > 0,
                    *c == node.children[0int],
                    cs == c@,
                    cs.rule == Rule::Array,
                    m == c.children.len(),
                    match build_elements(cs, i as int) {
                        Ok(rest) => build_elements(cs, 0) == Ok::<Seq<ValueS>, ErrorS>(
                            values_of(items) + rest,
                        ),
                        Err(e) => build_elements(cs, 0) == Err::<Seq<ValueS>, ErrorS>(e),
                    },
                decreases m - i,
            {
                proof {
                    vstd::std_specs::vec::axiom_vec_index_decreases(node.children, 0);
                    vstd::std_specs::vec::axiom_vec_index_decreases(c.children, i as int);
                    assert(cs.children[i as int] == c.children[i as int]@);
                }
                match parse_value(&c.children[i]) {
                    Err(e) => {
                        return Err(e);
                    },
                    Ok(v) => {
                        let ghost gv = v@;
                        let ghost items0 = values_of(items);
                        items.push(v);
                        proof {
                            assert(values_of(items) =~= items0 + seq![gv]);
                            match build_elements(cs, i + 1) {
                                Ok(rest2) => {
                                    assert(items0 + (seq![gv] + rest2) =~= values_of(items)
                                        + rest2);
                                },
                                Err(_) => {},
                            }
                        }
                        i = i + 1;
                    },
                }
            }
            proof {
                assert(values_of(items) + Seq::<ValueS>::empty() =~= values_of(items));
            }
            Ok(Value::Array(items))
        },
        Rule::Object => {
            let m = c.children.len();
            let mut entries: Vec<(String, Value)> = Vec::new();
            let mut i: usize = 0;
            proof {
                assert(entries_of(entries) =~= Seq::<(Seq<char>, ValueS)>::empty());
                if build_entries(cs, 0) is Ok {
                    assert(Seq::<(Seq<char>, ValueS)>::empty() + build_entries(cs, 0)->Ok_0
                        =~= build_entries(cs, 0)->Ok_0);
                }
            }
            while i < m
                invariant
                    i <= m,
                    node.children.len() > 0,
                    *c == node.children[0int],
                    cs == c@,
                    cs.rule == Rule::Object,
                    m == c.children.len(),
                    match build_entries(cs, i as int) {
                        Ok(rest) => build_entries(cs, 0) == Ok::<
                            Seq<(Seq<char>, ValueS)>,
                            ErrorS,
                        >(entries_of(entries) + rest),
                        Err(e) => build_entries(cs, 0) == Err::<
                            Seq<(Seq<char>, ValueS)>,
                            ErrorS,
                        >(e),
                    },
                decreases m - i,
            {
                let p: &Node = &c.children[i];
                proof {
                    assert(cs.children[i as int] == p@);
                }
                if p.rule != Rule::Pair {
                    return Err(
                        Error::structural(StructureKind::ExpectedPair { rule: p.rule }),
                    );
                }
                if p.children.len() < 2 {
                    return Err(Error::structural(StructureKind::MalformedPair));
                }
                let key: &Node = &p.children[0];
                proof {
                    assert(p@.children[0int] == key@);
                }
                if key.rule != Rule::Str {
                    return Err(
                        Error::structural(StructureKind::KeyNotString { rule: key.rule }),
                    );
                }
                match decode_string_text(&key.text) {
                    Err(e) => {
                        return Err(e);
                    },
                    Ok(k) => {
                        proof {
                            vstd::std_specs::vec::axiom_vec_index_decreases(node.children, 0);
                            vstd::std_specs::vec::axiom_vec_index_decreases(
                                c.children,
                                i as int,
                            );
                            vstd::std_specs::vec::axiom_vec_index_decreases(p.children, 1);
                            assert(p@.children[1int] == p.children[1int]@);
                        }
                        match parse_value(&p.children[1]) {
                            Err(e) => {
                                return Err(e);
                            },
                            Ok(v) => {
                                let ghost gk = k@;
                                let ghost gv = v@;
                                let ghost entries0 = entries_of(entries);
                                entries.push((k, v));
                                proof {
                                    assert(entries_of(entries) =~= entries0 + seq![(gk, gv)]);
                                    match build_entries(cs, i + 1) {
                                        Ok(rest2) => {
                                            assert(entries0 + (seq![(gk, gv)] + rest2)
                                                =~= entries_of(entries) + rest2);
                                        },
                                        Err(_) => {},
                                    }
                                }
                                i = i + 1;
                            },
                        }
                    },
                }
            }
            proof {
                assert(entries_of(entries) + Seq::<(Seq<char>, ValueS)>::empty()
                    =~= entries_of(entries));
            }
            let ghost all = entries_of(entries);
            let mut obj: Vec<(String, Value)> = Vec::new();
            proof {
                assert(entries_of(obj) =~= Seq::<(Seq<char>, ValueS)>::empty());
            }
            while entries.len() > 0
                invariant
                    obj_fold(entries_of(obj), entries_of(entries)) == obj_fold(
                        Seq::empty(),
                        all,
                    ),
                decreases entries.len(),
            {
                let ghost e0 = entries_of(entries);
                let ghost o0 = entries_of(obj);
                let (k, v) = entries.remove(0);
                proof {
                    assert(e0[0] == (k@, v@));
                    assert(entries_of(entries) =~= e0.subrange(1, e0.len() as int));
                }
                upsert(&mut obj, k, v);
            }
            proof {
                assert(entries_of(entries).len() == 0);
            }
            Ok(Value::Object(obj))
        },
        _ => Err(Error::structural(StructureKind::UnknownValueRule { rule: c.rule })),
    }
}

} // verus!
