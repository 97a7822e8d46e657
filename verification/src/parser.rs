//! The reader: from program text to an expression tree.
//!
//! The grammar is stated as functions on byte strings. Comments are removed
//! first; what is left is read as a sequence of top-level forms, which becomes
//! one `begin` form.

use crate::error::ParseError;
use crate::expression::{list_of, same_bytes, values_of, Expr, Value};
use crate::keyword::{form_name, form_symbol, word_false, word_nil, word_true, Form};
use std::rc::Rc;
use vstd::prelude::*;
use vstd::slice::{slice_subrange, slice_to_vec};

verus! {

/// White space: blank, tab, line feed and carriage return.
pub open spec fn is_space(b: u8) -> bool {
    b == ' ' as u8 || b == '\t' as u8 || b == '\n' as u8 || b == '\r' as u8
}

/// The bytes that end an atom: white space, both parentheses and the quote mark.
pub open spec fn is_delimiter(b: u8) -> bool {
    is_space(b) || b == '(' as u8 || b == ')' as u8 || b == '\'' as u8
}

/// The decimal digits.
pub open spec fn is_digit(b: u8) -> bool {
    '0' as u8 <= b <= '9' as u8
}

/// `text` from `at` on without its comments, where `in_comment` says whether
/// `at` lies inside one. A comment runs from a semicolon up to the end of its
/// line; the line break itself stays.
pub open spec fn strip_from(text: Seq<u8>, at: int, in_comment: bool) -> Seq<u8>
    decreases text.len() - at,
{
    if at < 0 || at >= text.len() {
        Seq::empty()
    } else if text[at] == '\n' as u8 {
        seq![text[at]] + strip_from(text, at + 1, false)
    } else if in_comment || text[at] == ';' as u8 {
        strip_from(text, at + 1, true)
    } else {
        seq![text[at]] + strip_from(text, at + 1, false)
    }
}

/// `text` without its comments.
pub open spec fn strip_comments(text: Seq<u8>) -> Seq<u8> {
    strip_from(text, 0, false)
}

/// The first position from `at` on that holds no white space.
pub open spec fn space_end(text: Seq<u8>, at: int) -> int
    decreases text.len() - at,
{
    if 0 <= at < text.len() && is_space(text[at]) {
        space_end(text, at + 1)
    } else {
        at
    }
}

/// The first position from `at` on that holds a delimiter, or the end.
pub open spec fn atom_end(text: Seq<u8>, at: int) -> int
    decreases text.len() - at,
{
    if 0 <= at < text.len() && !is_delimiter(text[at]) {
        atom_end(text, at + 1)
    } else {
        at
    }
}

/// One decimal digit or more, and nothing else.
pub open spec fn all_digits(token: Seq<u8>) -> bool {
    token.len() > 0 && forall|i: int| 0 <= i < token.len() ==> is_digit(#[trigger] token[i])
}

/// The number that a string of decimal digits denotes.
pub open spec fn decimal(digits: Seq<u8>) -> int
    decreases digits.len(),
{
    if digits.len() == 0 {
        0
    } else {
        decimal(digits.drop_last()) * 10 + (digits.last() - '0' as u8)
    }
}

/// The number that a token denotes if it is a numeric literal: decimal digits,
/// with an optional minus sign in front.
pub open spec fn number_model(token: Seq<u8>) -> Option<int> {
    if all_digits(token) {
        Some(decimal(token))
    } else if token.len() > 1 && token[0] == '-' as u8 && all_digits(token.skip(1)) {
        Some(-decimal(token.skip(1)))
    } else {
        None
    }
}

/// What an atom denotes: one of the three `#` literals, a number, or else a
/// symbol with the token as its name.
pub open spec fn atom_model(token: Seq<u8>) -> Result<Value, ParseError> {
    if token == word_true() {
        Ok(Value::Boolean(true))
    } else if token == word_false() {
        Ok(Value::Boolean(false))
    } else if token == word_nil() {
        Ok(Value::Nil)
    } else {
        match number_model(token) {
            Some(n) => if i64::MIN <= n <= i64::MAX {
                Ok(Value::Number(n as i64))
            } else {
                Err(ParseError::NumberOutOfRange)
            },
            None => Ok(Value::Symbol(token)),
        }
    }
}

/// The expression that starts at the first position from `at` on that is not
/// white space, with the position just after it.
pub open spec fn parse_expr(text: Seq<u8>, at: int) -> Result<(Value, int), ParseError>
    decreases text.len() - at, 0int,
{
    let i = space_end(text, at);
    if !(0 <= at <= i < text.len()) {
        Err(ParseError::UnexpectedEnd)
    } else if text[i] == '(' as u8 {
        match parse_items(text, i + 1, Seq::empty(), true) {
            Ok((items, end)) => Ok((list_of(items), end)),
            Err(e) => Err(e),
        }
    } else if text[i] == ')' as u8 {
        Err(ParseError::UnexpectedClose)
    } else if text[i] == '\'' as u8 {
        match parse_expr(text, i + 1) {
            Ok((quoted, end)) => Ok(
                (list_of(seq![Value::Symbol(form_name(Form::Quote)), quoted]), end),
            ),
            Err(e) => Err(e),
        }
    } else {
        let end = atom_end(text, i);
        match atom_model(text.subrange(i, end)) {
            Ok(v) => Ok((v, end)),
            Err(e) => Err(e),
        }
    }
}

/// The expressions from `at` on, added to `items`, with the position where they
/// end. Inside a list (`nested`) they end just after the closing parenthesis,
/// and the end of the text is an error; at top level they end with the text, and
/// a closing parenthesis is an error.
pub open spec fn parse_items(text: Seq<u8>, at: int, items: Seq<Value>, nested: bool) -> Result<
    (Seq<Value>, int),
    ParseError,
>
    decreases text.len() - at, 1int,
{
    let i = space_end(text, at);
    if !(0 <= at <= i < text.len()) {
        if nested {
            Err(ParseError::UnexpectedEnd)
        } else {
            Ok((items, i))
        }
    } else if text[i] == ')' as u8 {
        if nested {
            Ok((items, i + 1))
        } else {
            Err(ParseError::UnexpectedClose)
        }
    } else {
        match parse_expr(text, i) {
            // An expression is never empty, so the reader always moves on.
            Ok((v, next)) => if i < next <= text.len() {
                parse_items(text, next, items.push(v), nested)
            } else {
                Err(ParseError::UnexpectedEnd)
            },
            Err(e) => Err(e),
        }
    }
}

/// What a whole text without comments denotes: its top-level forms, in order,
/// as the body of one `begin` form.
pub open spec fn parse_root_model(text: Seq<u8>) -> Result<Value, ParseError> {
    match parse_items(text, 0, Seq::empty(), false) {
        Ok((items, _)) => Ok(list_of(seq![Value::Symbol(form_name(Form::Begin))] + items)),
        Err(e) => Err(e),
    }
}

/// What a program text denotes: its comments are removed, the rest is read.
pub open spec fn parse_model(text: Seq<u8>) -> Result<Value, ParseError> {
    parse_root_model(strip_comments(text))
}

/// White space is skipped forward, within the text, up to a byte that is none.
pub proof fn lemma_space_end(text: Seq<u8>, at: int)
    ensures
        at <= space_end(text, at),
        at <= text.len() ==> space_end(text, at) <= text.len(),
        0 <= space_end(text, at) < text.len() ==> !is_space(text[space_end(text, at)]),
        space_end(text, space_end(text, at)) == space_end(text, at),
    decreases text.len() - at,
{
    if 0 <= at < text.len() && is_space(text[at]) {
        lemma_space_end(text, at + 1);
    }
}

/// An atom ends after its start, within the text.
pub proof fn lemma_atom_end(text: Seq<u8>, at: int)
    ensures
        at <= atom_end(text, at),
        at <= text.len() ==> atom_end(text, at) <= text.len(),
        0 <= at < text.len() && !is_delimiter(text[at]) ==> at < atom_end(text, at),
    decreases text.len() - at,
{
    if 0 <= at < text.len() && !is_delimiter(text[at]) {
        lemma_atom_end(text, at + 1);
    }
}

/// A successful read of an expression ends after its start and within the text.
pub proof fn lemma_expr_progress(text: Seq<u8>, at: int)
    requires
        0 <= at,
    ensures
        parse_expr(text, at) matches Ok((_, end)) ==> space_end(text, at) < end <= text.len(),
    decreases text.len() - at, 0int,
{
    let i = space_end(text, at);
    lemma_space_end(text, at);
    if 0 <= i < text.len() {
        if text[i] == '(' as u8 {
            lemma_items_progress(text, i + 1, Seq::empty(), true);
        } else if text[i] == '\'' as u8 {
            lemma_expr_progress(text, i + 1);
        } else if text[i] != ')' as u8 {
            lemma_atom_end(text, i);
        }
    }
}

/// A successful read of a run of expressions ends within the text, and not
/// before its start.
pub proof fn lemma_items_progress(text: Seq<u8>, at: int, items: Seq<Value>, nested: bool)
    requires
        0 <= at <= text.len(),
    ensures
        parse_items(text, at, items, nested) matches Ok((_, end)) ==> at <= end <= text.len(),
    decreases text.len() - at, 1int,
{
    let i = space_end(text, at);
    lemma_space_end(text, at);
    if 0 <= i < text.len() && text[i] != ')' as u8 {
        match parse_expr(text, i) {
            Ok((v, next)) => {
                if i < next <= text.len() {
                    lemma_items_progress(text, next, items.push(v), nested);
                }
            },
            Err(_) => {},
        }
    }
}

fn space(b: u8) -> (r: bool)
    ensures
        r == is_space(b),
{
    b == ' ' as u8 || b == '\t' as u8 || b == '\n' as u8 || b == '\r' as u8
}

fn delimiter(b: u8) -> (r: bool)
    ensures
        r == is_delimiter(b),
{
    space(b) || b == '(' as u8 || b == ')' as u8 || b == '\'' as u8
}

/// Removes the comments from a program text: each semicolon and what follows
/// it on its line. Line breaks stay, so no two tokens run together.
pub fn remove_comments(text: &[u8]) -> (clean: Vec<u8>)
    ensures
        clean@ == strip_comments(text@),
{
    let mut clean: Vec<u8> = Vec::new();
    let mut in_comment = false;
    let mut i: usize = 0;
    while i < text.len()
        invariant
            i <= text.len(),
            clean@ + strip_from(text@, i as int, in_comment) == strip_comments(text@),
        decreases text.len() - i,
    {
        let b = text[i];
        if b == '\n' as u8 {
            clean.push(b);
            in_comment = false;
        } else if in_comment || b == ';' as u8 {
            in_comment = true;
        } else {
            clean.push(b);
        }
        i += 1;
    }
    clean
}

fn skip_space(text: &[u8], start: usize) -> (i: usize)
    ensures
        i == space_end(text@, start as int),
{
    let mut i = start;
    loop
        invariant
            start <= i,
            space_end(text@, start as int) == space_end(text@, i as int),
        decreases text.len() - i,
    {
        if i >= text.len() || !space(text[i]) {
            return i;
        }
        i += 1;
    }
}

fn skip_atom(text: &[u8], start: usize) -> (i: usize)
    ensures
        i == atom_end(text@, start as int),
{
    let mut i = start;
    loop
        invariant
            start <= i,
            atom_end(text@, start as int) == atom_end(text@, i as int),
        decreases text.len() - i,
    {
        if i >= text.len() || delimiter(text[i]) {
            return i;
        }
        i += 1;
    }
}

proof fn lemma_decimal_prefix(digits: Seq<u8>, k: int)
    requires
        0 <= k <= digits.len(),
        forall|i: int| 0 <= i < digits.len() ==> is_digit(#[trigger] digits[i]),
    ensures
        0 <= decimal(digits.take(k)) <= decimal(digits),
    decreases digits.len() - k,
{
    if k == digits.len() {
        assert(digits.take(k) =~= digits);
        lemma_decimal_nonnegative(digits);
    } else {
        lemma_decimal_prefix(digits, k + 1);
        assert(digits.take(k + 1).drop_last() =~= digits.take(k));
    }
}

proof fn lemma_decimal_nonnegative(digits: Seq<u8>)
    requires
        forall|i: int| 0 <= i < digits.len() ==> is_digit(#[trigger] digits[i]),
    ensures
        0 <= decimal(digits),
    decreases digits.len(),
{
    if digits.len() > 0 {
        lemma_decimal_nonnegative(digits.drop_last());
    }
}

/// The negated value of a string of digits, or `None` where it is below the
/// least number.
fn negated_decimal(digits: &[u8]) -> (r: Option<i64>)
    requires
        all_digits(digits@),
    ensures
        match r {
            Some(n) => n == -decimal(digits@),
            None => -decimal(digits@) < i64::MIN,
        },
{
    let mut acc: i64 = 0;
    let mut k: usize = 0;
    while k < digits.len()
        invariant
            k <= digits.len(),
            all_digits(digits@),
            acc == -decimal(digits@.take(k as int)),
        decreases digits.len() - k,
    {
        let d: i64 = (digits[k] - '0' as u8) as i64;
        proof {
            assert(digits@.take(k + 1).drop_last() =~= digits@.take(k as int));
            lemma_decimal_prefix(digits@, k + 1);
        }
        let next = match acc.checked_mul(10) {
            Some(m) => m.checked_sub(d),
            None => None,
        };
        match next {
            Some(n) => {
                acc = n;
            },
            None => {
                return None;
            },
        }
        k += 1;
    }
    proof {
        assert(digits@.take(digits.len() as int) =~= digits@);
    }
    Some(acc)
}

fn digits_only(token: &[u8]) -> (r: bool)
    ensures
        r == all_digits(token@),
{
    if token.len() == 0 {
        return false;
    }
    let mut i: usize = 0;
    while i < token.len()
        invariant
            i <= token.len(),
            forall|j: int| 0 <= j < i ==> is_digit(#[trigger] token@[j]),
        decreases token.len() - i,
    {
        let b = token[i];
        if b < '0' as u8 || b > '9' as u8 {
            return false;
        }
        i += 1;
    }
    true
}

/// Reads a token as a numeric literal. `None`: it is none. `Some(None)`: it is
/// one, and its value does not fit.
fn read_number(token: &[u8]) -> (r: Option<Option<i64>>)
    ensures
        match number_model(token@) {
            Some(n) => if i64::MIN <= n <= i64::MAX {
                r == Some(Some(n as i64))
            } else {
                r == Some(None::<i64>)
            },
            None => r is None,
        },
{
    if digits_only(token) {
        match negated_decimal(token) {
            Some(n) => if n == i64::MIN {
                Some(None)
            } else {
                Some(Some(-n))
            },
            None => Some(None),
        }
    } else if token.len() > 1 && token[0] == '-' as u8 {
        let digits = slice_subrange(token, 1, token.len());
        if digits_only(digits) {
            Some(negated_decimal(digits))
        } else {
            None
        }
    } else {
        None
    }
}

fn read_atom(token: &[u8]) -> (r: Result<Rc<Expr>, ParseError>)
    ensures
        match atom_model(token@) {
            Ok(v) => r matches Ok(e) && e@ == v,
            Err(x) => r == Err::<Rc<Expr>, ParseError>(x),
        },
{
    let word_t = ['#' as u8, 't' as u8, 'r' as u8, 'u' as u8, 'e' as u8];
    let word_f = ['#' as u8, 'f' as u8, 'a' as u8, 'l' as u8, 's' as u8, 'e' as u8];
    let word_n = ['#' as u8, 'n' as u8, 'i' as u8, 'l' as u8];
    if same_bytes(token, word_t.as_slice()) {
        Ok(Rc::new(Expr::Boolean(true)))
    } else if same_bytes(token, word_f.as_slice()) {
        Ok(Rc::new(Expr::Boolean(false)))
    } else if same_bytes(token, word_n.as_slice()) {
        Ok(Rc::new(Expr::Nil))
    } else {
        match read_number(token) {
            Some(Some(n)) => Ok(Rc::new(Expr::Number(n))),
            Some(None) => Err(ParseError::NumberOutOfRange),
            None => Ok(Rc::new(Expr::Symbol(slice_to_vec(token)))),
        }
    }
}

/// The mathematical reading of what reading one expression returned.
pub open spec fn expr_read(r: Result<(Rc<Expr>, usize), ParseError>) -> Result<
    (Value, int),
    ParseError,
> {
    match r {
        Ok((e, end)) => Ok((e@, end as int)),
        Err(x) => Err(x),
    }
}

/// The mathematical reading of what reading a run of expressions returned.
pub open spec fn items_read(r: Result<(Vec<Rc<Expr>>, usize), ParseError>) -> Result<
    (Seq<Value>, int),
    ParseError,
> {
    match r {
        Ok((items, end)) => Ok((values_of(items@), end as int)),
        Err(x) => Err(x),
    }
}

/// Reads the expression that starts at the first position from `start` on that
/// is not white space.
pub fn read_expr(text: &[u8], start: usize) -> (r: Result<(Rc<Expr>, usize), ParseError>)
    ensures
        expr_read(r) == parse_expr(text@, start as int),
    decreases text.len() - start, 0int,
{
    let i = skip_space(text, start);
    proof {
        lemma_space_end(text@, start as int);
    }
    if i >= text.len() {
        Err(ParseError::UnexpectedEnd)
    } else if text[i] == '(' as u8 {
        match read_items(text, i + 1, true) {
            Ok((items, end)) => Ok((Expr::new_list(items), end)),
            Err(e) => Err(e),
        }
    } else if text[i] == ')' as u8 {
        Err(ParseError::UnexpectedClose)
    } else if text[i] == '\'' as u8 {
        match read_expr(text, i + 1) {
            Ok((quoted, end)) => {
                let mut items: Vec<Rc<Expr>> = Vec::new();
                items.push(Rc::new(Expr::Symbol(form_symbol(Form::Quote))));
                items.push(quoted);
                proof {
                    assert(values_of(items@) =~= seq![
                        Value::Symbol(form_name(Form::Quote)),
                        quoted@,
                    ]);
                }
                Ok((Expr::new_list(items), end))
            },
            Err(e) => Err(e),
        }
    } else {
        let end = skip_atom(text, i);
        proof {
            lemma_atom_end(text@, i as int);
        }
        match read_atom(slice_subrange(text, i, end)) {
            Ok(e) => Ok((e, end)),
            Err(e) => Err(e),
        }
    }
}

/// Reads expressions from `start` on: up to the closing parenthesis of the
/// list they are in (`nested`), or up to the end of the text.
pub fn read_items(text: &[u8], start: usize, nested: bool) -> (r: Result<
    (Vec<Rc<Expr>>, usize),
    ParseError,
>)
    ensures
        items_read(r) == parse_items(text@, start as int, Seq::empty(), nested),
    decreases text.len() - start, 1int,
{
    let mut items: Vec<Rc<Expr>> = Vec::new();
    let mut pos: usize = start;
    proof {
        assert(values_of(items@) =~= Seq::empty());
    }
    if start > text.len() {
        return if nested {
            Err(ParseError::UnexpectedEnd)
        } else {
            Ok((items, start))
        };
    }
    loop
        invariant
            start <= pos <= text.len(),
            parse_items(text@, start as int, Seq::empty(), nested) == parse_items(
                text@,
                pos as int,
                values_of(items@),
                nested,
            ),
        decreases text.len() - pos,
    {
        let i = skip_space(text, pos);
        proof {
            lemma_space_end(text@, pos as int);
        }
        if i >= text.len() {
            return if nested {
                Err(ParseError::UnexpectedEnd)
            } else {
                Ok((items, i))
            };
        }
        if text[i] == ')' as u8 {
            return if nested {
                Ok((items, i + 1))
            } else {
                Err(ParseError::UnexpectedClose)
            };
        }
        proof {
            lemma_expr_progress(text@, i as int);
        }
        match read_expr(text, i) {
            Ok((e, next)) => {
                proof {
                    assert(values_of(items@.push(e)) =~= values_of(items@).push(e@));
                }
                items.push(e);
                pos = next;
            },
            Err(e) => {
                return Err(e);
            },
        }
    }
}

/// Reads a text without comments as a sequence of top-level forms and returns
/// them as one `begin` form, or says why the text is malformed.
pub fn parse_root(text: &[u8]) -> (r: Result<Rc<Expr>, ParseError>)
    ensures
        match parse_root_model(text@) {
            Ok(v) => r matches Ok(e) && e@ == v,
            Err(x) => r == Err::<Rc<Expr>, ParseError>(x),
        },
{
    match read_items(text, 0, false) {
        Ok((forms, _)) => {
            let mut items: Vec<Rc<Expr>> = Vec::new();
            items.push(Rc::new(Expr::Symbol(form_symbol(Form::Begin))));
            let mut forms = forms;
            let ghost rest = values_of(forms@);
            items.append(&mut forms);
            proof {
                assert(values_of(items@) =~= seq![Value::Symbol(form_name(Form::Begin))] + rest);
            }
            Ok(Expr::new_list(items))
        },
        Err(e) => Err(e),
    }
}

/// Reads a program text: removes its comments and reads the rest.
pub fn parse(text: &[u8]) -> (r: Result<Rc<Expr>, ParseError>)
    ensures
        match parse_model(text@) {
            Ok(v) => r matches Ok(e) && e@ == v,
            Err(x) => r == Err::<Rc<Expr>, ParseError>(x),
        },
{
    let clean = remove_comments(text);
    parse_root(clean.as_slice())
}

} // verus!
