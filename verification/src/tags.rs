//! Boolean tag expression evaluator.
//!
//! Supports: tag names, `and`, `or`, `not`, and parentheses.
//! Example: "mvp and not blocked"
use vstd::prelude::*;
use crate::model::strings_view;
use crate::text::{
    chars_of, chars_of_string, contains, eq_ignore_case, find_seq, is_ws, is_whitespace, lower, lower_char,
    lower_seq, same, slice_of, string_of, strings_of, vv, lemma_skip_drop_first, eq_ic, to_lower,
};

verus! {

// ---------------------------------------------------------------------------
// Specification
// ---------------------------------------------------------------------------

pub open spec fn is_paren(c: char) -> bool {
    c == '(' || c == ')'
}

/// Length of the leading run of characters that are neither white space nor parentheses.
pub open spec fn term_len(s: Seq<char>) -> nat
    decreases s.len(),
{
    if s.len() == 0 || is_ws(s[0]) || is_paren(s[0]) { 0 } else { 1 + term_len(s.drop_first()) }
}

/// The tokens of an expression: parentheses, and words between white space and parentheses.
pub open spec fn tokens(s: Seq<char>) -> Seq<Seq<char>>
    decreases s.len(),
{
    if s.len() == 0 {
        seq![]
    } else if is_ws(s[0]) {
        tokens(s.drop_first())
    } else if is_paren(s[0]) {
        seq![seq![s[0]]] + tokens(s.drop_first())
    } else {
        let n = term_len(s);
        if 0 < n <= s.len() { seq![s.take(n as int)] + tokens(s.skip(n as int)) } else { seq![] }
    }
}

pub open spec fn tok_or() -> Seq<char> { seq!['o', 'r'] }
pub open spec fn tok_and() -> Seq<char> { seq!['a', 'n', 'd'] }
pub open spec fn tok_not() -> Seq<char> { seq!['n', 'o', 't'] }
pub open spec fn tok_open() -> Seq<char> { seq!['('] }
pub open spec fn tok_close() -> Seq<char> { seq![')'] }

/// A parsed expression.
pub enum ExprV {
    Tag(Seq<char>),
    Not(Box<ExprV>),
    And(Box<ExprV>, Box<ExprV>),
    Or(Box<ExprV>, Box<ExprV>),
}

/// Why an expression is malformed.
pub enum ExprErrV {
    /// Ran out of tokens where an operand was expected.
    UnexpectedEnd,
    /// A `(` without its `)`.
    MissingParen,
    /// Tokens left over after a complete expression.
    Trailing(Seq<Seq<char>>),
}

/// The result of parsing from a token position: the expression and the next position.
pub type Parsed = Result<(ExprV, nat), ExprErrV>;

pub open spec fn p_or(t: Seq<Seq<char>>, p: nat) -> Parsed
    decreases t.len() - p, 4nat,
{
    match p_and(t, p) {
        Err(e) => Err(e),
        Ok((l, q)) => if p < q <= t.len() { or_tail(t, l, q) } else { Ok((l, q)) },
    }
}

pub open spec fn or_tail(t: Seq<Seq<char>>, l: ExprV, p: nat) -> Parsed
    decreases t.len() - p, 5nat,
{
    if p < t.len() && t[p as int] == tok_or() {
        match p_and(t, p + 1) {
            Err(e) => Err(e),
            Ok((r, q)) => if p < q <= t.len() { or_tail(t, ExprV::Or(Box::new(l), Box::new(r)), q) } else { Ok((l, q)) },
        }
    } else {
        Ok((l, p))
    }
}

pub open spec fn p_and(t: Seq<Seq<char>>, p: nat) -> Parsed
    decreases t.len() - p, 2nat,
{
    match p_not(t, p) {
        Err(e) => Err(e),
        Ok((l, q)) => if p < q <= t.len() { and_tail(t, l, q) } else { Ok((l, q)) },
    }
}

pub open spec fn and_tail(t: Seq<Seq<char>>, l: ExprV, p: nat) -> Parsed
    decreases t.len() - p, 3nat,
{
    if p < t.len() && t[p as int] == tok_and() {
        match p_not(t, p + 1) {
            Err(e) => Err(e),
            Ok((r, q)) => if p < q <= t.len() { and_tail(t, ExprV::And(Box::new(l), Box::new(r)), q) } else { Ok((l, q)) },
        }
    } else {
        Ok((l, p))
    }
}

pub open spec fn p_not(t: Seq<Seq<char>>, p: nat) -> Parsed
    decreases t.len() - p, 1nat,
{
    if p >= t.len() {
        Err(ExprErrV::UnexpectedEnd)
    } else if t[p as int] == tok_not() {
        match p_not(t, p + 1) {
            Err(e) => Err(e),
            Ok((e, q)) => Ok((ExprV::Not(Box::new(e)), q)),
        }
    } else {
        p_primary(t, p)
    }
}

pub open spec fn p_primary(t: Seq<Seq<char>>, p: nat) -> Parsed
    decreases t.len() - p, 0nat,
{
    if p >= t.len() {
        Err(ExprErrV::UnexpectedEnd)
    } else if t[p as int] == tok_open() {
        match p_or(t, p + 1) {
            Err(e) => Err(e),
            Ok((e, q)) => if q >= t.len() || t[q as int] != tok_close() {
                Err(ExprErrV::MissingParen)
            } else {
                Ok((e, q + 1))
            },
        }
    } else {
        Ok((ExprV::Tag(t[p as int]), p + 1))
    }
}

/// The expression an input denotes, or why it is malformed.
pub open spec fn parse_expr_spec(input: Seq<char>) -> Result<ExprV, ExprErrV> {
    let t = tokens(input);
    match p_or(t, 0) {
        Err(e) => Err(e),
        Ok((e, q)) => if q < t.len() { Err(ExprErrV::Trailing(t.skip(q as int))) } else { Ok(e) },
    }
}

/// A word of an expression: non-empty, with no white space and no parenthesis.
pub open spec fn is_word(w: Seq<char>) -> bool {
    w.len() > 0 && forall|i: int| 0 <= i < w.len() ==> !is_ws(#[trigger] w[i]) && !is_paren(w[i])
}

/// `a`, a space, the operator word `op`, a space, `b`.
pub open spec fn infix(a: Seq<char>, op: Seq<char>, b: Seq<char>) -> Seq<char> {
    a + seq![' '] + op + seq![' '] + b
}

proof fn lemma_term_len_word(w: Seq<char>, s: Seq<char>)
    requires
        is_word(w),
        s.len() == 0 || is_ws(s[0]) || is_paren(s[0]),
    ensures
        term_len(w + s) == w.len(),
    decreases w.len(),
{
    assert((w + s)[0] == w[0]);
    assert(!is_ws(w[0]) && !is_paren(w[0]));
    if w.len() == 1 {
        assert((w + s).drop_first() =~= s);
        assert(term_len(s) == 0);
    } else {
        let w1 = w.drop_first();
        assert forall|i: int| 0 <= i < w1.len() implies !is_ws(#[trigger] w1[i]) && !is_paren(w1[i]) by {
            assert(w1[i] == w[i + 1]);
        }
        lemma_term_len_word(w1, s);
        assert((w + s).drop_first() =~= w1 + s);
    }
}

proof fn lemma_tokens_word(w: Seq<char>, s: Seq<char>)
    requires
        is_word(w),
        s.len() == 0 || is_ws(s[0]) || is_paren(s[0]),
    ensures
        tokens(w + s) == seq![w] + tokens(s),
{
    lemma_term_len_word(w, s);
    assert((w + s)[0] == w[0]);
    assert((w + s).take(w.len() as int) =~= w);
    assert((w + s).skip(w.len() as int) =~= s);
}

proof fn lemma_tokens_space(s: Seq<char>)
    ensures
        tokens(seq![' '] + s) == tokens(s),
{
    assert(is_ws(' '));
    assert((seq![' '] + s).drop_first() =~= s);
}

proof fn lemma_tokens_infix(a: Seq<char>, op: Seq<char>, b: Seq<char>)
    requires
        is_word(a),
        is_word(op),
        is_word(b),
    ensures
        tokens(infix(a, op, b)) == seq![a, op, b],
{
    let sb = seq![' '] + b;
    let r = seq![' '] + op + sb;
    assert(infix(a, op, b) =~= a + r);
    lemma_tokens_word(a, r);
    lemma_tokens_space(op + sb);
    assert(r =~= seq![' '] + (op + sb));
    lemma_tokens_word(op, sb);
    lemma_tokens_space(b);
    assert(b =~= b + Seq::<char>::empty());
    lemma_tokens_word(b, Seq::<char>::empty());
    assert(tokens(Seq::<char>::empty()) == Seq::<Seq<char>>::empty());
    assert(tokens(infix(a, op, b)) =~= seq![a, op, b]);
}

proof fn lemma_operator_words()
    ensures
        is_word(tok_and()),
        is_word(tok_or()),
        is_word(tok_not()),
        tok_and() != tok_or(),
        tok_and() != tok_not(),
        tok_or() != tok_not(),
        tok_and() != tok_open(),
        tok_or() != tok_open(),
        tok_not() != tok_open(),
{
    assert(tok_and().len() != tok_or().len());
    assert(tok_or().len() != tok_not().len());
    assert(tok_and()[0] != tok_not()[0]);
    assert(tok_and().len() != tok_open().len());
    assert(tok_or().len() != tok_open().len());
    assert(tok_not().len() != tok_open().len());
}

proof fn lemma_not_tok(a: Seq<char>)
    requires
        is_word(a),
    ensures
        a != tok_open(),
{
    if a == tok_open() {
        assert(is_paren(a[0]));
    }
}

proof fn lemma_parse_and(a: Seq<char>, b: Seq<char>)
    requires
        is_word(a),
        is_word(b),
        a != tok_not(),
        b != tok_not(),
    ensures
        parse_expr_spec(infix(a, tok_and(), b)) == Ok::<ExprV, ExprErrV>(
            ExprV::And(Box::new(ExprV::Tag(a)), Box::new(ExprV::Tag(b))),
        ),
{
    lemma_operator_words();
    lemma_not_tok(a);
    lemma_not_tok(b);
    lemma_tokens_infix(a, tok_and(), b);
    let t = seq![a, tok_and(), b];
    assert(t[0] == a && t[1] == tok_and() && t[2] == b);
    assert(p_primary(t, 0) == Ok::<(ExprV, nat), ExprErrV>((ExprV::Tag(a), 1nat)));
    assert(p_not(t, 0) == p_primary(t, 0));
    assert(p_primary(t, 2) == Ok::<(ExprV, nat), ExprErrV>((ExprV::Tag(b), 3nat)));
    assert(p_not(t, 2) == p_primary(t, 2));
    let ab = ExprV::And(Box::new(ExprV::Tag(a)), Box::new(ExprV::Tag(b)));
    assert(and_tail(t, ab, 3) == Ok::<(ExprV, nat), ExprErrV>((ab, 3nat)));
    assert(and_tail(t, ExprV::Tag(a), 1) == Ok::<(ExprV, nat), ExprErrV>((ab, 3nat)));
    assert(p_and(t, 0) == Ok::<(ExprV, nat), ExprErrV>((ab, 3nat)));
    assert(or_tail(t, ab, 3) == Ok::<(ExprV, nat), ExprErrV>((ab, 3nat)));
    assert(p_or(t, 0) == Ok::<(ExprV, nat), ExprErrV>((ab, 3nat)));
}

proof fn lemma_parse_or(a: Seq<char>, b: Seq<char>)
    requires
        is_word(a),
        is_word(b),
        a != tok_not(),
        b != tok_not(),
    ensures
        parse_expr_spec(infix(a, tok_or(), b)) == Ok::<ExprV, ExprErrV>(
            ExprV::Or(Box::new(ExprV::Tag(a)), Box::new(ExprV::Tag(b))),
        ),
{
    lemma_operator_words();
    lemma_not_tok(a);
    lemma_not_tok(b);
    lemma_tokens_infix(a, tok_or(), b);
    let u = seq![a, tok_or(), b];
    assert(u[0] == a && u[1] == tok_or() && u[2] == b);
    assert(p_primary(u, 0) == Ok::<(ExprV, nat), ExprErrV>((ExprV::Tag(a), 1nat)));
    assert(p_not(u, 0) == p_primary(u, 0));
    assert(and_tail(u, ExprV::Tag(a), 1) == Ok::<(ExprV, nat), ExprErrV>((ExprV::Tag(a), 1nat)));
    assert(p_and(u, 0) == Ok::<(ExprV, nat), ExprErrV>((ExprV::Tag(a), 1nat)));
    assert(p_primary(u, 2) == Ok::<(ExprV, nat), ExprErrV>((ExprV::Tag(b), 3nat)));
    assert(p_not(u, 2) == p_primary(u, 2));
    assert(and_tail(u, ExprV::Tag(b), 3) == Ok::<(ExprV, nat), ExprErrV>((ExprV::Tag(b), 3nat)));
    assert(p_and(u, 2) == Ok::<(ExprV, nat), ExprErrV>((ExprV::Tag(b), 3nat)));
    let aob = ExprV::Or(Box::new(ExprV::Tag(a)), Box::new(ExprV::Tag(b)));
    assert(or_tail(u, aob, 3) == Ok::<(ExprV, nat), ExprErrV>((aob, 3nat)));
    assert(or_tail(u, ExprV::Tag(a), 1) == Ok::<(ExprV, nat), ExprErrV>((aob, 3nat)));
    assert(p_or(u, 0) == Ok::<(ExprV, nat), ExprErrV>((aob, 3nat)));
}

proof fn lemma_parse_not(a: Seq<char>)
    requires
        is_word(a),
        a != tok_not(),
    ensures
        parse_expr_spec(tok_not() + seq![' '] + a) == Ok::<ExprV, ExprErrV>(ExprV::Not(Box::new(ExprV::Tag(a)))),
{
    lemma_operator_words();
    lemma_not_tok(a);
    let na = tok_not() + seq![' '] + a;
    assert(na =~= tok_not() + (seq![' '] + a));
    lemma_tokens_word(tok_not(), seq![' '] + a);
    lemma_tokens_space(a);
    assert(a =~= a + Seq::<char>::empty());
    lemma_tokens_word(a, Seq::<char>::empty());
    assert(tokens(Seq::<char>::empty()) == Seq::<Seq<char>>::empty());
    let v = seq![tok_not(), a];
    assert(tokens(na) =~= v);
    assert(v[0] == tok_not() && v[1] == a);
    assert(p_primary(v, 1) == Ok::<(ExprV, nat), ExprErrV>((ExprV::Tag(a), 2nat)));
    assert(p_not(v, 1) == p_primary(v, 1));
    let n = ExprV::Not(Box::new(ExprV::Tag(a)));
    assert(p_not(v, 0) == Ok::<(ExprV, nat), ExprErrV>((n, 2nat)));
    assert(and_tail(v, n, 2) == Ok::<(ExprV, nat), ExprErrV>((n, 2nat)));
    assert(p_and(v, 0) == Ok::<(ExprV, nat), ExprErrV>((n, 2nat)));
    assert(or_tail(v, n, 2) == Ok::<(ExprV, nat), ExprErrV>((n, 2nat)));
    assert(p_or(v, 0) == Ok::<(ExprV, nat), ExprErrV>((n, 2nat)));
}

/// `and`, `or` and `not` combine tags as the boolean operators: for tag words
/// `a` and `b` (neither of them `not`), `a and b` holds of a fact's tags when
/// both tags are there, `a or b` when either is, and `not a` when `a` is not.
pub proof fn law_tag_operators_are_boolean(a: Seq<char>, b: Seq<char>, tags: Seq<Seq<char>>)
    requires
        is_word(a),
        is_word(b),
        a != tok_not(),
        b != tok_not(),
    ensures
        parse_expr_spec(infix(a, tok_and(), b)) matches Ok(e) && eval_spec(e, tags) == (has_tag(tags, a) && has_tag(tags, b)),
        parse_expr_spec(infix(a, tok_or(), b)) matches Ok(e) && eval_spec(e, tags) == (has_tag(tags, a) || has_tag(tags, b)),
        parse_expr_spec(tok_not() + seq![' '] + a) matches Ok(e) && eval_spec(e, tags) == !has_tag(tags, a),
{
    lemma_parse_and(a, b);
    lemma_parse_or(a, b);
    lemma_parse_not(a);
    assert(eval_spec(ExprV::Tag(a), tags) == has_tag(tags, a));
    assert(eval_spec(ExprV::Tag(b), tags) == has_tag(tags, b));
    let ab = ExprV::And(Box::new(ExprV::Tag(a)), Box::new(ExprV::Tag(b)));
    let aob = ExprV::Or(Box::new(ExprV::Tag(a)), Box::new(ExprV::Tag(b)));
    assert(eval_spec(ab, tags) == (eval_spec(ExprV::Tag(a), tags) && eval_spec(ExprV::Tag(b), tags)));
    assert(eval_spec(aob, tags) == (eval_spec(ExprV::Tag(a), tags) || eval_spec(ExprV::Tag(b), tags)));
}

proof fn lemma_term_len_concat(a: Seq<char>, b: Seq<char>)
    requires
        b.len() == 0 || is_ws(b[0]) || is_paren(b[0]),
    ensures
        term_len(a + b) == term_len(a),
        term_len(a) <= a.len(),
    decreases a.len(),
{
    if a.len() == 0 {
        assert(a + b =~= b);
    } else {
        assert((a + b)[0] == a[0]);
        if !(is_ws(a[0]) || is_paren(a[0])) {
            lemma_term_len_concat(a.drop_first(), b);
            assert((a + b).drop_first() =~= a.drop_first() + b);
        }
    }
}

proof fn lemma_tokens_concat(a: Seq<char>, b: Seq<char>)
    requires
        b.len() == 0 || is_ws(b[0]) || is_paren(b[0]),
    ensures
        tokens(a + b) == tokens(a) + tokens(b),
    decreases a.len(),
{
    if a.len() == 0 {
        assert(a + b =~= b);
        assert(tokens(a) == Seq::<Seq<char>>::empty());
        assert(tokens(a) + tokens(b) =~= tokens(b));
    } else {
        assert((a + b)[0] == a[0]);
        if is_ws(a[0]) || is_paren(a[0]) {
            lemma_tokens_concat(a.drop_first(), b);
            assert((a + b).drop_first() =~= a.drop_first() + b);
            if is_paren(a[0]) && !is_ws(a[0]) {
                assert(tokens(a + b) =~= tokens(a) + tokens(b));
            }
        } else {
            lemma_term_len_concat(a, b);
            let n = term_len(a);
            assert(term_len(a) == 1 + term_len(a.drop_first()));
            assert((a + b).take(n as int) =~= a.take(n as int));
            assert((a + b).skip(n as int) =~= a.skip(n as int) + b);
            lemma_tokens_concat(a.skip(n as int), b);
            assert(tokens(a + b) =~= tokens(a) + tokens(b));
        }
    }
}

/// `tx` stands in `t` from position `off` on, and what follows it there is
/// neither `or` nor `and`.
pub open spec fn embedded(tx: Seq<Seq<char>>, t: Seq<Seq<char>>, off: nat) -> bool {
    &&& off + tx.len() <= t.len()
    &&& forall|i: int| 0 <= i < tx.len() ==> #[trigger] t[off + i] == tx[i]
    &&& off + tx.len() < t.len() ==> t[(off + tx.len()) as int] != tok_or() && t[(off + tx.len()) as int] != tok_and()
}

/// A parse result moved `off` positions on.
pub open spec fn shifted(r: Parsed, off: nat) -> Parsed {
    match r {
        Ok((e, q)) => Ok((e, q + off)),
        Err(x) => Err(x),
    }
}

/// A successful parse at a position of `tx` ends within `tx`.
pub open spec fn ends_within(r: Parsed, n: nat) -> bool {
    r matches Ok((e, q)) ==> q <= n
}

proof fn lemma_shift_or(tx: Seq<Seq<char>>, t: Seq<Seq<char>>, off: nat, p: nat)
    requires
        embedded(tx, t, off),
        p <= tx.len(),
    ensures
        p_or(tx, p) is Ok ==> ends_within(p_or(tx, p), tx.len()) && p_or(t, p + off) == shifted(p_or(tx, p), off),
    decreases tx.len() - p, 4nat,
{
    lemma_shift_and(tx, t, off, p);
    if p_or(tx, p) is Ok {
        let (l, q) = p_and(tx, p)->Ok_0;
        if p < q <= tx.len() {
            lemma_shift_or_tail(tx, t, off, l, q);
        }
    }
}

proof fn lemma_shift_or_tail(tx: Seq<Seq<char>>, t: Seq<Seq<char>>, off: nat, l: ExprV, p: nat)
    requires
        embedded(tx, t, off),
        p <= tx.len(),
    ensures
        or_tail(tx, l, p) is Ok ==> ends_within(or_tail(tx, l, p), tx.len()) && or_tail(t, l, p + off) == shifted(
            or_tail(tx, l, p),
            off,
        ),
    decreases tx.len() - p, 5nat,
{
    if p < tx.len() {
        assert(t[(off + p) as int] == tx[p as int]);
        if tx[p as int] == tok_or() {
            lemma_shift_and(tx, t, off, p + 1);
            if or_tail(tx, l, p) is Ok {
                let (r, q) = p_and(tx, p + 1)->Ok_0;
                if p < q <= tx.len() {
                    lemma_shift_or_tail(tx, t, off, ExprV::Or(Box::new(l), Box::new(r)), q);
                }
            }
        }
    }
}

proof fn lemma_shift_and(tx: Seq<Seq<char>>, t: Seq<Seq<char>>, off: nat, p: nat)
    requires
        embedded(tx, t, off),
        p <= tx.len(),
    ensures
        p_and(tx, p) is Ok ==> ends_within(p_and(tx, p), tx.len()) && p_and(t, p + off) == shifted(p_and(tx, p), off),
    decreases tx.len() - p, 2nat,
{
    lemma_shift_not(tx, t, off, p);
    if p_and(tx, p) is Ok {
        let (l, q) = p_not(tx, p)->Ok_0;
        if p < q <= tx.len() {
            lemma_shift_and_tail(tx, t, off, l, q);
        }
    }
}

proof fn lemma_shift_and_tail(tx: Seq<Seq<char>>, t: Seq<Seq<char>>, off: nat, l: ExprV, p: nat)
    requires
        embedded(tx, t, off),
        p <= tx.len(),
    ensures
        and_tail(tx, l, p) is Ok ==> ends_within(and_tail(tx, l, p), tx.len()) && and_tail(t, l, p + off) == shifted(
            and_tail(tx, l, p),
            off,
        ),
    decreases tx.len() - p, 3nat,
{
    if p < tx.len() {
        assert(t[(off + p) as int] == tx[p as int]);
        if tx[p as int] == tok_and() {
            lemma_shift_not(tx, t, off, p + 1);
            if and_tail(tx, l, p) is Ok {
                let (r, q) = p_not(tx, p + 1)->Ok_0;
                if p < q <= tx.len() {
                    lemma_shift_and_tail(tx, t, off, ExprV::And(Box::new(l), Box::new(r)), q);
                }
            }
        }
    }
}

proof fn lemma_shift_not(tx: Seq<Seq<char>>, t: Seq<Seq<char>>, off: nat, p: nat)
    requires
        embedded(tx, t, off),
        p <= tx.len(),
    ensures
        p_not(tx, p) is Ok ==> ends_within(p_not(tx, p), tx.len()) && p_not(t, p + off) == shifted(p_not(tx, p), off),
    decreases tx.len() - p, 1nat,
{
    if p < tx.len() {
        assert(t[(off + p) as int] == tx[p as int]);
        if tx[p as int] == tok_not() {
            lemma_shift_not(tx, t, off, p + 1);
        } else {
            lemma_shift_primary(tx, t, off, p);
        }
    }
}

proof fn lemma_shift_primary(tx: Seq<Seq<char>>, t: Seq<Seq<char>>, off: nat, p: nat)
    requires
        embedded(tx, t, off),
        p <= tx.len(),
    ensures
        p_primary(tx, p) is Ok ==> ends_within(p_primary(tx, p), tx.len()) && p_primary(t, p + off) == shifted(
            p_primary(tx, p),
            off,
        ),
    decreases tx.len() - p, 0nat,
{
    if p < tx.len() {
        assert(t[(off + p) as int] == tx[p as int]);
        if tx[p as int] == tok_open() {
            lemma_shift_or(tx, t, off, p + 1);
            if p_primary(tx, p) is Ok {
                let (e, q) = p_or(tx, p + 1)->Ok_0;
                assert(q < tx.len());
                assert(t[(off + q) as int] == tx[q as int]);
            }
        }
    }
}

proof fn lemma_whole_parse(x: Seq<char>)
    requires
        parse_expr_spec(x) is Ok,
    ensures
        p_or(tokens(x), 0) == Ok::<(ExprV, nat), ExprErrV>((parse_expr_spec(x)->Ok_0, tokens(x).len())),
{
    let tx = tokens(x);
    lemma_shift_or(tx, tx, 0, 0);
    assert(embedded(tx, tx, 0));
}

/// `x` in parentheses.
pub open spec fn paren(x: Seq<char>) -> Seq<char> {
    seq!['('] + x + seq![')']
}

proof fn lemma_tokens_paren(x: Seq<char>, s: Seq<char>)
    ensures
        tokens(paren(x) + s) == seq![tok_open()] + tokens(x) + seq![tok_close()] + tokens(s),
{
    let cs = seq![')'] + s;
    assert(is_paren(')'));
    assert(!is_ws('(') && !is_ws(')'));
    lemma_tokens_concat(x, cs);
    assert(paren(x) + s =~= seq!['('] + (x + cs));
    assert((seq!['('] + (x + cs)).drop_first() =~= x + cs);
    assert(cs.drop_first() =~= s);
    assert(tokens(cs) =~= seq![tok_close()] + tokens(s));
    assert(tokens(paren(x) + s) =~= seq![tok_open()] + (tokens(x) + tokens(cs)));
    assert(tokens(paren(x) + s) =~= seq![tok_open()] + tokens(x) + seq![tok_close()] + tokens(s));
}

proof fn lemma_tokens_op_paren(op: Seq<char>, y: Seq<char>, s: Seq<char>)
    requires
        is_word(op),
    ensures
        tokens(seq![' '] + op + seq![' '] + paren(y) + s) == seq![op, tok_open()] + tokens(y) + seq![tok_close()] + tokens(s),
{
    let r = seq![' '] + (paren(y) + s);
    assert(seq![' '] + op + seq![' '] + paren(y) + s =~= seq![' '] + (op + r));
    lemma_tokens_space(op + r);
    assert(is_ws(' '));
    lemma_tokens_word(op, r);
    lemma_tokens_space(paren(y) + s);
    lemma_tokens_paren(y, s);
    assert(tokens(seq![' '] + op + seq![' '] + paren(y) + s) =~= seq![op, tok_open()] + tokens(y) + seq![tok_close()] + tokens(s));
}

proof fn lemma_tok_facts()
    ensures
        tok_open() != tok_not(),
        tok_close() != tok_or(),
        tok_close() != tok_and(),
        tok_close() != tok_open(),
        tok_and() != tok_or(),
        tok_or() != tok_and(),
        is_word(tok_and()),
        is_word(tok_or()),
        is_word(tok_not()),
{
    lemma_operator_words();
    assert(tok_open().len() != tok_not().len());
    assert(tok_close().len() != tok_or().len());
    assert(tok_close().len() != tok_and().len());
    assert(tok_close()[0] != tok_open()[0]);
}

/// A parenthesised expression at position `p` of `t` parses to what its inside
/// parses to, and ends after the closing parenthesis.
proof fn lemma_paren_at(t: Seq<Seq<char>>, p: nat, x: Seq<char>)
    requires
        parse_expr_spec(x) is Ok,
        p + tokens(x).len() + 2 <= t.len(),
        t[p as int] == tok_open(),
        forall|i: int| 0 <= i < tokens(x).len() ==> #[trigger] t[p + 1 + i] == tokens(x)[i],
        t[(p + 1 + tokens(x).len()) as int] == tok_close(),
    ensures
        p_primary(t, p) == Ok::<(ExprV, nat), ExprErrV>((parse_expr_spec(x)->Ok_0, p + tokens(x).len() + 2)),
        p_not(t, p) == p_primary(t, p),
{
    lemma_tok_facts();
    let tx = tokens(x);
    lemma_whole_parse(x);
    assert(embedded(tx, t, p + 1));
    lemma_shift_or(tx, t, p + 1, 0);
}

proof fn lemma_paren_alone(x: Seq<char>)
    requires
        parse_expr_spec(x) is Ok,
    ensures
        parse_expr_spec(paren(x)) == parse_expr_spec(x),
{
    lemma_tok_facts();
    assert(paren(x) =~= paren(x) + Seq::<char>::empty());
    lemma_tokens_paren(x, Seq::<char>::empty());
    assert(tokens(Seq::<char>::empty()) == Seq::<Seq<char>>::empty());
    let tx = tokens(x);
    let t = seq![tok_open()] + tx + seq![tok_close()];
    assert(tokens(paren(x)) =~= t);
    let n = t.len();
    let ex = parse_expr_spec(x)->Ok_0;
    assert forall|i: int| 0 <= i < tx.len() implies #[trigger] t[1 + i] == tx[i] by {}
    lemma_paren_at(t, 0, x);
    assert(and_tail(t, ex, n) == Ok::<(ExprV, nat), ExprErrV>((ex, n)));
    assert(p_and(t, 0) == Ok::<(ExprV, nat), ExprErrV>((ex, n)));
    assert(or_tail(t, ex, n) == Ok::<(ExprV, nat), ExprErrV>((ex, n)));
    assert(p_or(t, 0) == Ok::<(ExprV, nat), ExprErrV>((ex, n)));
}

proof fn lemma_not_paren(x: Seq<char>)
    requires
        parse_expr_spec(x) is Ok,
    ensures
        parse_expr_spec(tok_not() + seq![' '] + paren(x)) == Ok::<ExprV, ExprErrV>(
            ExprV::Not(Box::new(parse_expr_spec(x)->Ok_0)),
        ),
{
    lemma_tok_facts();
    let r = seq![' '] + paren(x);
    assert(tok_not() + seq![' '] + paren(x) =~= tok_not() + r);
    assert(is_ws(' '));
    lemma_tokens_word(tok_not(), r);
    lemma_tokens_space(paren(x));
    assert(paren(x) =~= paren(x) + Seq::<char>::empty());
    lemma_tokens_paren(x, Seq::<char>::empty());
    assert(tokens(Seq::<char>::empty()) == Seq::<Seq<char>>::empty());
    let tx = tokens(x);
    let t = seq![tok_not(), tok_open()] + tx + seq![tok_close()];
    assert(tokens(tok_not() + seq![' '] + paren(x)) =~= t);
    let n = t.len();
    let ex = parse_expr_spec(x)->Ok_0;
    assert forall|i: int| 0 <= i < tx.len() implies #[trigger] t[2 + i] == tx[i] by {}
    lemma_paren_at(t, 1, x);
    let ne = ExprV::Not(Box::new(ex));
    assert(t[0] == tok_not());
    assert(p_not(t, 0) == Ok::<(ExprV, nat), ExprErrV>((ne, n)));
    assert(and_tail(t, ne, n) == Ok::<(ExprV, nat), ExprErrV>((ne, n)));
    assert(p_and(t, 0) == Ok::<(ExprV, nat), ExprErrV>((ne, n)));
    assert(or_tail(t, ne, n) == Ok::<(ExprV, nat), ExprErrV>((ne, n)));
    assert(p_or(t, 0) == Ok::<(ExprV, nat), ExprErrV>((ne, n)));
}

proof fn lemma_tokens_bin(x: Seq<char>, op: Seq<char>, y: Seq<char>, s: Seq<char>)
    requires
        is_word(op),
    ensures
        tokens(paren(x) + (seq![' '] + op + seq![' '] + paren(y) + s)) == seq![tok_open()] + tokens(x) + seq![
            tok_close(),
            op,
            tok_open(),
        ] + tokens(y) + seq![tok_close()] + tokens(s),
{
    let rest = seq![' '] + op + seq![' '] + paren(y) + s;
    lemma_tokens_paren(x, rest);
    lemma_tokens_op_paren(op, y, s);
    assert(tokens(paren(x) + rest) =~= seq![tok_open()] + tokens(x) + seq![tok_close(), op, tok_open()] + tokens(y) + seq![
        tok_close(),
    ] + tokens(s));
}

proof fn lemma_and_paren(x: Seq<char>, y: Seq<char>)
    requires
        parse_expr_spec(x) is Ok,
        parse_expr_spec(y) is Ok,
    ensures
        parse_expr_spec(infix(paren(x), tok_and(), paren(y))) == Ok::<ExprV, ExprErrV>(
            ExprV::And(Box::new(parse_expr_spec(x)->Ok_0), Box::new(parse_expr_spec(y)->Ok_0)),
        ),
{
    lemma_tok_facts();
    let e: Seq<char> = seq![];
    assert(infix(paren(x), tok_and(), paren(y)) =~= paren(x) + (seq![' '] + tok_and() + seq![' '] + paren(y) + e));
    lemma_tokens_bin(x, tok_and(), y, e);
    assert(tokens(e) == Seq::<Seq<char>>::empty());
    let t = seq![tok_open()] + tokens(x) + seq![tok_close(), tok_and(), tok_open()] + tokens(y) + seq![tok_close()];
    assert(tokens(infix(paren(x), tok_and(), paren(y))) =~= t);
    lemma_parse_and_tokens(t, x, y);
}

proof fn lemma_parse_and_tokens(t: Seq<Seq<char>>, x: Seq<char>, y: Seq<char>)
    requires
        parse_expr_spec(x) is Ok,
        parse_expr_spec(y) is Ok,
        t == seq![tok_open()] + tokens(x) + seq![tok_close(), tok_and(), tok_open()] + tokens(y) + seq![tok_close()],
    ensures
        p_or(t, 0) == Ok::<(ExprV, nat), ExprErrV>(
            (ExprV::And(Box::new(parse_expr_spec(x)->Ok_0), Box::new(parse_expr_spec(y)->Ok_0)), t.len()),
        ),
{
    lemma_tok_facts();
    let tx = tokens(x);
    let ty = tokens(y);
    let n = t.len();
    let lx = tx.len();
    let ex = parse_expr_spec(x)->Ok_0;
    let ey = parse_expr_spec(y)->Ok_0;
    assert forall|i: int| 0 <= i < tx.len() implies #[trigger] t[1 + i] == tx[i] by {}
    lemma_paren_at(t, 0, x);
    assert forall|i: int| 0 <= i < ty.len() implies #[trigger] t[lx + 3 + 1 + i] == ty[i] by {}
    lemma_paren_at(t, lx + 3, y);
    let ab = ExprV::And(Box::new(ex), Box::new(ey));
    assert(t[(lx + 2) as int] == tok_and());
    assert(and_tail(t, ab, n) == Ok::<(ExprV, nat), ExprErrV>((ab, n)));
    assert(and_tail(t, ex, lx + 2) == Ok::<(ExprV, nat), ExprErrV>((ab, n)));
    assert(p_and(t, 0) == Ok::<(ExprV, nat), ExprErrV>((ab, n)));
    assert(or_tail(t, ab, n) == Ok::<(ExprV, nat), ExprErrV>((ab, n)));
}

proof fn lemma_or_paren(x: Seq<char>, y: Seq<char>)
    requires
        parse_expr_spec(x) is Ok,
        parse_expr_spec(y) is Ok,
    ensures
        parse_expr_spec(infix(paren(x), tok_or(), paren(y))) == Ok::<ExprV, ExprErrV>(
            ExprV::Or(Box::new(parse_expr_spec(x)->Ok_0), Box::new(parse_expr_spec(y)->Ok_0)),
        ),
{
    lemma_tok_facts();
    let e: Seq<char> = seq![];
    assert(infix(paren(x), tok_or(), paren(y)) =~= paren(x) + (seq![' '] + tok_or() + seq![' '] + paren(y) + e));
    lemma_tokens_bin(x, tok_or(), y, e);
    assert(tokens(e) == Seq::<Seq<char>>::empty());
    let t = seq![tok_open()] + tokens(x) + seq![tok_close(), tok_or(), tok_open()] + tokens(y) + seq![tok_close()];
    assert(tokens(infix(paren(x), tok_or(), paren(y))) =~= t);
    lemma_parse_or_tokens(t, x, y);
}

proof fn lemma_parse_or_tokens(t: Seq<Seq<char>>, x: Seq<char>, y: Seq<char>)
    requires
        parse_expr_spec(x) is Ok,
        parse_expr_spec(y) is Ok,
        t == seq![tok_open()] + tokens(x) + seq![tok_close(), tok_or(), tok_open()] + tokens(y) + seq![tok_close()],
    ensures
        p_or(t, 0) == Ok::<(ExprV, nat), ExprErrV>(
            (ExprV::Or(Box::new(parse_expr_spec(x)->Ok_0), Box::new(parse_expr_spec(y)->Ok_0)), t.len()),
        ),
{
    lemma_tok_facts();
    let tx = tokens(x);
    let ty = tokens(y);
    let n = t.len();
    let lx = tx.len();
    let ex = parse_expr_spec(x)->Ok_0;
    let ey = parse_expr_spec(y)->Ok_0;
    assert forall|i: int| 0 <= i < tx.len() implies #[trigger] t[1 + i] == tx[i] by {}
    lemma_paren_at(t, 0, x);
    assert forall|i: int| 0 <= i < ty.len() implies #[trigger] t[lx + 3 + 1 + i] == ty[i] by {}
    lemma_paren_at(t, lx + 3, y);
    assert(t[(lx + 2) as int] == tok_or());
    assert(and_tail(t, ex, lx + 2) == Ok::<(ExprV, nat), ExprErrV>((ex, lx + 2)));
    assert(p_and(t, 0) == Ok::<(ExprV, nat), ExprErrV>((ex, lx + 2)));
    assert(and_tail(t, ey, n) == Ok::<(ExprV, nat), ExprErrV>((ey, n)));
    assert(p_and(t, lx + 3) == Ok::<(ExprV, nat), ExprErrV>((ey, n)));
    let ob = ExprV::Or(Box::new(ex), Box::new(ey));
    assert(or_tail(t, ob, n) == Ok::<(ExprV, nat), ExprErrV>((ob, n)));
    assert(or_tail(t, ex, lx + 2) == Ok::<(ExprV, nat), ExprErrV>((ob, n)));
}

/// The tokens of `(x) or (y) and (z)`.
pub open spec fn or_and_tokens(x: Seq<char>, y: Seq<char>, z: Seq<char>) -> Seq<Seq<char>> {
    seq![tok_open()] + tokens(x) + seq![tok_close(), tok_or(), tok_open()] + tokens(y) + seq![tok_close(), tok_and(), tok_open()]
        + tokens(z) + seq![tok_close()]
}

proof fn lemma_tokens_or_and(x: Seq<char>, y: Seq<char>, z: Seq<char>)
    ensures
        tokens(infix(paren(x), tok_or(), infix(paren(y), tok_and(), paren(z)))) == or_and_tokens(x, y, z),
{
    lemma_tok_facts();
    let e: Seq<char> = seq![];
    let tail = seq![' '] + tok_and() + seq![' '] + paren(z);
    assert(infix(paren(x), tok_or(), infix(paren(y), tok_and(), paren(z))) =~= paren(x) + (seq![' '] + tok_or()
        + seq![' '] + paren(y) + tail));
    lemma_tokens_bin(x, tok_or(), y, tail);
    assert(tail =~= tail + e);
    lemma_tokens_op_paren(tok_and(), z, e);
    assert(tokens(e) == Seq::<Seq<char>>::empty());
    assert(tokens(infix(paren(x), tok_or(), infix(paren(y), tok_and(), paren(z)))) =~= or_and_tokens(x, y, z));
}

proof fn lemma_or_and_paren(x: Seq<char>, y: Seq<char>, z: Seq<char>)
    requires
        parse_expr_spec(x) is Ok,
        parse_expr_spec(y) is Ok,
        parse_expr_spec(z) is Ok,
    ensures
        parse_expr_spec(infix(paren(x), tok_or(), infix(paren(y), tok_and(), paren(z)))) == Ok::<ExprV, ExprErrV>(
            ExprV::Or(
                Box::new(parse_expr_spec(x)->Ok_0),
                Box::new(ExprV::And(Box::new(parse_expr_spec(y)->Ok_0), Box::new(parse_expr_spec(z)->Ok_0))),
            ),
        ),
{
    lemma_tokens_or_and(x, y, z);
    lemma_parse_or_and_tokens(or_and_tokens(x, y, z), x, y, z);
}

#[verifier::rlimit(40)]
proof fn lemma_parse_or_and_tokens(t: Seq<Seq<char>>, x: Seq<char>, y: Seq<char>, z: Seq<char>)
    requires
        parse_expr_spec(x) is Ok,
        parse_expr_spec(y) is Ok,
        parse_expr_spec(z) is Ok,
        t == or_and_tokens(x, y, z),
    ensures
        p_or(t, 0) == Ok::<(ExprV, nat), ExprErrV>(
            (
                ExprV::Or(
                    Box::new(parse_expr_spec(x)->Ok_0),
                    Box::new(ExprV::And(Box::new(parse_expr_spec(y)->Ok_0), Box::new(parse_expr_spec(z)->Ok_0))),
                ),
                t.len(),
            ),
        ),
{
    lemma_tok_facts();
    let tx = tokens(x);
    let ty = tokens(y);
    let tz = tokens(z);
    let n = t.len();
    let lx = tx.len();
    let ly = ty.len();
    let ex = parse_expr_spec(x)->Ok_0;
    let ey = parse_expr_spec(y)->Ok_0;
    let ez = parse_expr_spec(z)->Ok_0;
    assert forall|i: int| 0 <= i < tx.len() implies #[trigger] t[1 + i] == tx[i] by {}
    lemma_paren_at(t, 0, x);
    assert forall|i: int| 0 <= i < ty.len() implies #[trigger] t[lx + 3 + 1 + i] == ty[i] by {}
    lemma_paren_at(t, lx + 3, y);
    assert forall|i: int| 0 <= i < tz.len() implies #[trigger] t[lx + ly + 6 + 1 + i] == tz[i] by {}
    lemma_paren_at(t, lx + ly + 6, z);
    assert(t[(lx + 2) as int] == tok_or());
    assert(t[(lx + ly + 5) as int] == tok_and());
    assert(and_tail(t, ex, lx + 2) == Ok::<(ExprV, nat), ExprErrV>((ex, lx + 2)));
    assert(p_and(t, 0) == Ok::<(ExprV, nat), ExprErrV>((ex, lx + 2)));
    let yz = ExprV::And(Box::new(ey), Box::new(ez));
    assert(and_tail(t, yz, n) == Ok::<(ExprV, nat), ExprErrV>((yz, n)));
    assert(and_tail(t, ey, lx + ly + 5) == Ok::<(ExprV, nat), ExprErrV>((yz, n)));
    assert(p_and(t, lx + 3) == Ok::<(ExprV, nat), ExprErrV>((yz, n)));
    let o = ExprV::Or(Box::new(ex), Box::new(yz));
    assert(or_tail(t, o, n) == Ok::<(ExprV, nat), ExprErrV>((o, n)));
    assert(or_tail(t, ex, lx + 2) == Ok::<(ExprV, nat), ExprErrV>((o, n)));
}

/// Parentheses around any well-formed expression change nothing; `and`, `or`
/// and `not` combine any well-formed expressions, each in parentheses, as the
/// boolean operators, for tag expressions and search expressions alike; and
/// `and` binds tighter than `or`.
pub proof fn law_operators_compose(x: Seq<char>, y: Seq<char>, z: Seq<char>, tags: Seq<Seq<char>>, haystack: Seq<char>)
    requires
        parse_expr_spec(x) is Ok,
        parse_expr_spec(y) is Ok,
        parse_expr_spec(z) is Ok,
    ensures
        parse_expr_spec(paren(x)) == parse_expr_spec(x),
        parse_expr_spec(tok_not() + seq![' '] + paren(x)) matches Ok(e) && e == ExprV::Not(
            Box::new(parse_expr_spec(x)->Ok_0),
        ) && eval_spec(e, tags) == !eval_spec(parse_expr_spec(x)->Ok_0, tags),
        parse_expr_spec(infix(paren(x), tok_and(), paren(y))) matches Ok(e) && e == ExprV::And(
            Box::new(parse_expr_spec(x)->Ok_0),
            Box::new(parse_expr_spec(y)->Ok_0),
        ) && eval_spec(e, tags) == (eval_spec(parse_expr_spec(x)->Ok_0, tags) && eval_spec(parse_expr_spec(y)->Ok_0, tags)),
        parse_expr_spec(infix(paren(x), tok_or(), paren(y))) matches Ok(e) && e == ExprV::Or(
            Box::new(parse_expr_spec(x)->Ok_0),
            Box::new(parse_expr_spec(y)->Ok_0),
        ) && eval_spec(e, tags) == (eval_spec(parse_expr_spec(x)->Ok_0, tags) || eval_spec(parse_expr_spec(y)->Ok_0, tags)),
        parse_expr_spec(infix(paren(x), tok_or(), infix(paren(y), tok_and(), paren(z)))) == Ok::<ExprV, ExprErrV>(
            ExprV::Or(
                Box::new(parse_expr_spec(x)->Ok_0),
                Box::new(ExprV::And(Box::new(parse_expr_spec(y)->Ok_0), Box::new(parse_expr_spec(z)->Ok_0))),
            ),
        ),
        parse_expr_spec(infix(paren(x), tok_and(), paren(y))) matches Ok(e) && eval_search_spec(e, haystack) == (
        eval_search_spec(parse_expr_spec(x)->Ok_0, haystack) && eval_search_spec(parse_expr_spec(y)->Ok_0, haystack)),
        parse_expr_spec(infix(paren(x), tok_or(), paren(y))) matches Ok(e) && eval_search_spec(e, haystack) == (
        eval_search_spec(parse_expr_spec(x)->Ok_0, haystack) || eval_search_spec(parse_expr_spec(y)->Ok_0, haystack)),
        parse_expr_spec(tok_not() + seq![' '] + paren(x)) matches Ok(e) && eval_search_spec(e, haystack)
            == !eval_search_spec(parse_expr_spec(x)->Ok_0, haystack),
{
    lemma_paren_alone(x);
    lemma_not_paren(x);
    lemma_and_paren(x, y);
    lemma_or_paren(x, y);
    lemma_or_and_paren(x, y, z);
}

/// `not` binds only the operand right after it: for tag words `a` and `b`
/// (neither of them `not`), `not a and b` is `(not a) and b`, so it holds of a
/// fact's tags exactly when `a` is not among them and `b` is; and `a and not b`
/// holds exactly when `a` is there and `b` is not.
pub proof fn law_not_binds_tightest(a: Seq<char>, b: Seq<char>, tags: Seq<Seq<char>>)
    requires
        is_word(a),
        is_word(b),
        a != tok_not(),
        b != tok_not(),
    ensures
        parse_expr_spec(tok_not() + seq![' '] + infix(a, tok_and(), b)) == Ok::<ExprV, ExprErrV>(
            ExprV::And(Box::new(ExprV::Not(Box::new(ExprV::Tag(a)))), Box::new(ExprV::Tag(b))),
        ),
        parse_expr_spec(tok_not() + seq![' '] + infix(a, tok_and(), b)) matches Ok(e) && eval_spec(e, tags) == (!has_tag(
            tags,
            a,
        ) && has_tag(tags, b)),
        parse_expr_spec(infix(a, tok_and(), tok_not() + seq![' '] + b)) matches Ok(e) && eval_spec(e, tags) == (has_tag(
            tags,
            a,
        ) && !has_tag(tags, b)),
{
    lemma_operator_words();
    lemma_not_tok(a);
    lemma_not_tok(b);
    // not a and b
    let s1 = tok_not() + seq![' '] + infix(a, tok_and(), b);
    let r1 = seq![' '] + infix(a, tok_and(), b);
    assert(s1 =~= tok_not() + r1);
    assert(is_ws(' '));
    lemma_tokens_word(tok_not(), r1);
    lemma_tokens_space(infix(a, tok_and(), b));
    lemma_tokens_infix(a, tok_and(), b);
    let t = seq![tok_not(), a, tok_and(), b];
    assert(tokens(s1) =~= t);
    assert(t[0] == tok_not() && t[1] == a && t[2] == tok_and() && t[3] == b);
    assert(p_primary(t, 1) == Ok::<(ExprV, nat), ExprErrV>((ExprV::Tag(a), 2nat)));
    assert(p_not(t, 1) == p_primary(t, 1));
    let na = ExprV::Not(Box::new(ExprV::Tag(a)));
    assert(p_not(t, 0) == Ok::<(ExprV, nat), ExprErrV>((na, 2nat)));
    assert(p_primary(t, 3) == Ok::<(ExprV, nat), ExprErrV>((ExprV::Tag(b), 4nat)));
    assert(p_not(t, 3) == p_primary(t, 3));
    let e1 = ExprV::And(Box::new(na), Box::new(ExprV::Tag(b)));
    assert(and_tail(t, e1, 4) == Ok::<(ExprV, nat), ExprErrV>((e1, 4nat)));
    assert(and_tail(t, na, 2) == Ok::<(ExprV, nat), ExprErrV>((e1, 4nat)));
    assert(p_and(t, 0) == Ok::<(ExprV, nat), ExprErrV>((e1, 4nat)));
    assert(or_tail(t, e1, 4) == Ok::<(ExprV, nat), ExprErrV>((e1, 4nat)));
    assert(p_or(t, 0) == Ok::<(ExprV, nat), ExprErrV>((e1, 4nat)));
    assert(eval_spec(ExprV::Tag(a), tags) == has_tag(tags, a));
    assert(eval_spec(ExprV::Tag(b), tags) == has_tag(tags, b));
    assert(eval_spec(na, tags) == !has_tag(tags, a));
    assert(eval_spec(e1, tags) == (eval_spec(na, tags) && eval_spec(ExprV::Tag(b), tags)));
    // a and not b
    lemma_a_and_not_b(a, b, tags);
}

proof fn lemma_a_and_not_b(a: Seq<char>, b: Seq<char>, tags: Seq<Seq<char>>)
    requires
        is_word(a),
        is_word(b),
        a != tok_not(),
        b != tok_not(),
    ensures
        parse_expr_spec(infix(a, tok_and(), tok_not() + seq![' '] + b)) matches Ok(e) && eval_spec(e, tags) == (has_tag(
            tags,
            a,
        ) && !has_tag(tags, b)),
{
    lemma_operator_words();
    lemma_not_tok(a);
    lemma_not_tok(b);
    assert(is_ws(' '));
    let s2 = infix(a, tok_and(), tok_not() + seq![' '] + b);
    let nb = seq![' '] + b;
    let r3 = seq![' '] + (tok_not() + nb);
    let r2 = seq![' '] + (tok_and() + r3);
    assert(s2 =~= a + r2);
    lemma_tokens_word(a, r2);
    lemma_tokens_space(tok_and() + r3);
    lemma_tokens_word(tok_and(), r3);
    lemma_tokens_space(tok_not() + nb);
    lemma_tokens_word(tok_not(), nb);
    lemma_tokens_space(b);
    assert(b =~= b + Seq::<char>::empty());
    lemma_tokens_word(b, Seq::<char>::empty());
    assert(tokens(Seq::<char>::empty()) == Seq::<Seq<char>>::empty());
    let t = seq![a, tok_and(), tok_not(), b];
    assert(tokens(s2) =~= t);
    assert(t[0] == a && t[1] == tok_and() && t[2] == tok_not() && t[3] == b);
    assert(p_primary(t, 0) == Ok::<(ExprV, nat), ExprErrV>((ExprV::Tag(a), 1nat)));
    assert(p_not(t, 0) == p_primary(t, 0));
    assert(p_primary(t, 3) == Ok::<(ExprV, nat), ExprErrV>((ExprV::Tag(b), 4nat)));
    assert(p_not(t, 3) == p_primary(t, 3));
    let nbe = ExprV::Not(Box::new(ExprV::Tag(b)));
    assert(p_not(t, 2) == Ok::<(ExprV, nat), ExprErrV>((nbe, 4nat)));
    let e2 = ExprV::And(Box::new(ExprV::Tag(a)), Box::new(nbe));
    assert(and_tail(t, e2, 4) == Ok::<(ExprV, nat), ExprErrV>((e2, 4nat)));
    assert(and_tail(t, ExprV::Tag(a), 1) == Ok::<(ExprV, nat), ExprErrV>((e2, 4nat)));
    assert(p_and(t, 0) == Ok::<(ExprV, nat), ExprErrV>((e2, 4nat)));
    assert(or_tail(t, e2, 4) == Ok::<(ExprV, nat), ExprErrV>((e2, 4nat)));
    assert(p_or(t, 0) == Ok::<(ExprV, nat), ExprErrV>((e2, 4nat)));
    assert(eval_spec(ExprV::Tag(a), tags) == has_tag(tags, a));
    assert(eval_spec(ExprV::Tag(b), tags) == has_tag(tags, b));
    assert(eval_spec(nbe, tags) == !has_tag(tags, b));
    assert(eval_spec(e2, tags) == (eval_spec(ExprV::Tag(a), tags) && eval_spec(nbe, tags)));
}

/// A single word is an expression of one term: as a tag expression it holds of
/// a fact's tags when one of them equals the word, ignoring ASCII case; as a
/// search expression it holds when the lower-cased word occurs in the
/// (lower-cased) haystack.
pub proof fn law_single_word_expression(w: Seq<char>, tags: Seq<Seq<char>>, haystack: Seq<char>)
    requires
        is_word(w),
        w != tok_not(),
    ensures
        parse_expr_spec(w) == Ok::<ExprV, ExprErrV>(ExprV::Tag(w)),
        parse_expr_spec(w) matches Ok(e) && eval_spec(e, tags) == has_tag(tags, w),
        parse_expr_spec(w) matches Ok(e) && eval_search_spec(e, haystack) == contains(haystack, lower_seq(w)),
{
    lemma_not_tok(w);
    assert(w =~= w + Seq::<char>::empty());
    lemma_tokens_word(w, Seq::<char>::empty());
    assert(tokens(Seq::<char>::empty()) == Seq::<Seq<char>>::empty());
    let t = seq![w];
    assert(tokens(w) =~= t);
    assert(t[0] == w);
    assert(p_primary(t, 0) == Ok::<(ExprV, nat), ExprErrV>((ExprV::Tag(w), 1nat)));
    assert(p_not(t, 0) == p_primary(t, 0));
    assert(and_tail(t, ExprV::Tag(w), 1) == Ok::<(ExprV, nat), ExprErrV>((ExprV::Tag(w), 1nat)));
    assert(p_and(t, 0) == Ok::<(ExprV, nat), ExprErrV>((ExprV::Tag(w), 1nat)));
    assert(or_tail(t, ExprV::Tag(w), 1) == Ok::<(ExprV, nat), ExprErrV>((ExprV::Tag(w), 1nat)));
    assert(p_or(t, 0) == Ok::<(ExprV, nat), ExprErrV>((ExprV::Tag(w), 1nat)));
}

/// Whether some tag equals `name`, ignoring ASCII case.
pub open spec fn has_tag(tags: Seq<Seq<char>>, name: Seq<char>) -> bool {
    exists|i: int| 0 <= i < tags.len() && eq_ignore_case(#[trigger] tags[i], name)
}

/// The truth of an expression over a set of tags.
pub open spec fn eval_spec(e: ExprV, tags: Seq<Seq<char>>) -> bool
    decreases e,
{
    match e {
        ExprV::Tag(n) => has_tag(tags, n),
        ExprV::Not(a) => !eval_spec(*a, tags),
        ExprV::And(a, b) => eval_spec(*a, tags) && eval_spec(*b, tags),
        ExprV::Or(a, b) => eval_spec(*a, tags) || eval_spec(*b, tags),
    }
}

/// The truth of a search expression over a lower-cased haystack: each term
/// holds when its lower-cased form occurs in the haystack.
pub open spec fn eval_search_spec(e: ExprV, haystack: Seq<char>) -> bool
    decreases e,
{
    match e {
        ExprV::Tag(n) => contains(haystack, lower_seq(n)),
        ExprV::Not(a) => !eval_search_spec(*a, haystack),
        ExprV::And(a, b) => eval_search_spec(*a, haystack) && eval_search_spec(*b, haystack),
        ExprV::Or(a, b) => eval_search_spec(*a, haystack) || eval_search_spec(*b, haystack),
    }
}

} // verus!


verus! {

// ---------------------------------------------------------------------------
// Implementation
// ---------------------------------------------------------------------------

#[derive(Debug)]
enum Expr {
    Tag(Vec<char>),
    Not(Box<Expr>),
    And(Box<Expr>, Box<Expr>),
    Or(Box<Expr>, Box<Expr>),
}

spec fn expr_view(e: Expr) -> ExprV
    decreases e,
{
    match e {
        Expr::Tag(n) => ExprV::Tag(n@),
        Expr::Not(a) => ExprV::Not(Box::new(expr_view(*a))),
        Expr::And(a, b) => ExprV::And(Box::new(expr_view(*a)), Box::new(expr_view(*b))),
        Expr::Or(a, b) => ExprV::Or(Box::new(expr_view(*a)), Box::new(expr_view(*b))),
    }
}

enum ExprError {
    UnexpectedEnd,
    MissingParen,
    Trailing(Vec<Vec<char>>),
}

spec fn err_view(e: ExprError) -> ExprErrV {
    match e {
        ExprError::UnexpectedEnd => ExprErrV::UnexpectedEnd,
        ExprError::MissingParen => ExprErrV::MissingParen,
        ExprError::Trailing(t) => ExprErrV::Trailing(vv(t@)),
    }
}

spec fn parsed_matches(r: Result<(Expr, usize), ExprError>, s: Parsed, p: nat, n: nat) -> bool {
    match (r, s) {
        (Ok((e, q)), Ok((se, sq))) => expr_view(e) == se && q == sq && p < q <= n,
        (Err(e), Err(se)) => err_view(e) == se,
        _ => false,
    }
}

fn tokenize(input: &[char]) -> (r: Vec<Vec<char>>)
    ensures
        vv(r@) =~= tokens(input@),
{
    let n = input.len();
    let mut r: Vec<Vec<char>> = Vec::new();
    let mut i: usize = 0;
    assert(input@.skip(0) =~= input@);
    while i < n
        invariant
            n == input@.len(),
            i <= n,
            tokens(input@) =~= vv(r@) + tokens(input@.skip(i as int)),
        decreases n - i,
    {
        let c = input[i];
        let ghost s = input@.skip(i as int);
        proof {
            lemma_skip_drop_first(input@, i as int);
        }
        if is_whitespace(c) {
            i += 1;
        } else if c == '(' || c == ')' {
            let ghost old_r = vv(r@);
            let one = vec![c];
            assert(one@ =~= seq![c]);
            r.push(one);
            proof {
                assert(vv(r@) =~= old_r.push(seq![c]));
            }
            i += 1;
        } else {
            let mut k = i;
            while k < n && !is_whitespace(input[k]) && input[k] != '(' && input[k] != ')'
                invariant
                    n == input@.len(),
                    i <= k <= n,
                    term_len(s) == (k - i) + term_len(input@.skip(k as int)),
                    s == input@.skip(i as int),
                decreases n - k,
            {
                proof {
                    lemma_skip_drop_first(input@, k as int);
                }
                k += 1;
            }
            proof {
                if k < n {
                    assert(input@.skip(k as int)[0] == input@[k as int]);
                }
                assert(term_len(input@.skip(k as int)) == 0);
                assert(s.take((k - i) as int) =~= input@.subrange(i as int, k as int));
                assert(s.skip((k - i) as int) =~= input@.skip(k as int));
            }
            let w = slice_of(input, i, k);
            let ghost old_r = vv(r@);
            r.push(w);
            proof {
                assert(vv(r@) =~= old_r.push(w@));
            }
            i = k;
        }
    }
    assert(input@.skip(i as int).len() == 0);
    r
}

fn is_tok(t: &Vec<char>, a: char, b: char, c: char, n: usize) -> (r: bool)
    requires
        1 <= n <= 3,
    ensures
        r == (t@ =~= seq![a, b, c].take(n as int)),
{
    if t.len() != n {
        return false;
    }
    let w = vec![a, b, c];
    let k = slice_of(w.as_slice(), 0, n);
    same(t.as_slice(), k.as_slice())
}

fn parse_or(t: &Vec<Vec<char>>, p: usize) -> (r: Result<(Expr, usize), ExprError>)
    requires
        p <= t@.len(),
    ensures
        parsed_matches(r, p_or(vv(t@), p as nat), p as nat, t@.len()),
    decreases t@.len() - p, 4nat,
{
    let (mut left, mut rest) = match parse_and(t, p) {
        Ok(x) => x,
        Err(e) => {
            return Err(e);
        },
    };
    let ghost tv = vv(t@);
    while rest < t.len() && is_tok(&t[rest], 'o', 'r', ' ', 2)
        invariant
            tv == vv(t@),
            p < rest <= t@.len(),
            p_or(tv, p as nat) == or_tail(tv, expr_view(left), rest as nat),
        decreases t@.len() - rest,
    {
        proof {
            assert(tv[rest as int] == tok_or());
        }
        let (right, q) = match parse_and(t, rest + 1) {
            Ok(x) => x,
            Err(e) => {
                return Err(e);
            },
        };
        left = Expr::Or(Box::new(left), Box::new(right));
        rest = q;
    }
    proof {
        if rest < t@.len() {
            assert(tv[rest as int] != tok_or());
        }
    }
    Ok((left, rest))
}

fn parse_and(t: &Vec<Vec<char>>, p: usize) -> (r: Result<(Expr, usize), ExprError>)
    requires
        p <= t@.len(),
    ensures
        parsed_matches(r, p_and(vv(t@), p as nat), p as nat, t@.len()),
    decreases t@.len() - p, 2nat,
{
    let (mut left, mut rest) = match parse_not(t, p) {
        Ok(x) => x,
        Err(e) => {
            return Err(e);
        },
    };
    let ghost tv = vv(t@);
    while rest < t.len() && is_tok(&t[rest], 'a', 'n', 'd', 3)
        invariant
            tv == vv(t@),
            p < rest <= t@.len(),
            p_and(tv, p as nat) == and_tail(tv, expr_view(left), rest as nat),
        decreases t@.len() - rest,
    {
        proof {
            assert(tv[rest as int] == tok_and());
        }
        let (right, q) = match parse_not(t, rest + 1) {
            Ok(x) => x,
            Err(e) => {
                return Err(e);
            },
        };
        left = Expr::And(Box::new(left), Box::new(right));
        rest = q;
    }
    proof {
        if rest < t@.len() {
            assert(tv[rest as int] != tok_and());
        }
    }
    Ok((left, rest))
}

fn parse_not(t: &Vec<Vec<char>>, p: usize) -> (r: Result<(Expr, usize), ExprError>)
    requires
        p <= t@.len(),
    ensures
        parsed_matches(r, p_not(vv(t@), p as nat), p as nat, t@.len()),
    decreases t@.len() - p, 1nat,
{
    if p >= t.len() {
        return Err(ExprError::UnexpectedEnd);
    }
    if is_tok(&t[p], 'n', 'o', 't', 3) {
        proof {
            assert(vv(t@)[p as int] == tok_not());
        }
        let (e, rest) = match parse_not(t, p + 1) {
            Ok(x) => x,
            Err(e) => {
                return Err(e);
            },
        };
        return Ok((Expr::Not(Box::new(e)), rest));
    }
    proof {
        assert(vv(t@)[p as int] != tok_not());
    }
    parse_primary(t, p)
}

fn parse_primary(t: &Vec<Vec<char>>, p: usize) -> (r: Result<(Expr, usize), ExprError>)
    requires
        p <= t@.len(),
    ensures
        parsed_matches(r, p_primary(vv(t@), p as nat), p as nat, t@.len()),
    decreases t@.len() - p, 0nat,
{
    if p >= t.len() {
        return Err(ExprError::UnexpectedEnd);
    }
    if is_tok(&t[p], '(', ' ', ' ', 1) {
        proof {
            assert(vv(t@)[p as int] == tok_open());
        }
        let (e, rest) = match parse_or(t, p + 1) {
            Ok(x) => x,
            Err(e) => {
                return Err(e);
            },
        };
        if rest >= t.len() || !is_tok(&t[rest], ')', ' ', ' ', 1) {
            proof {
                if rest < t@.len() {
                    assert(vv(t@)[rest as int] != tok_close());
                }
            }
            return Err(ExprError::MissingParen);
        }
        proof {
            assert(vv(t@)[rest as int] == tok_close());
        }
        return Ok((e, rest + 1));
    }
    proof {
        assert(vv(t@)[p as int] != tok_open());
    }
    Ok((Expr::Tag(t[p].clone()), p + 1))
}

/// Simple recursive descent parser for tag expressions.
fn parse_expr(input: &[char]) -> (r: Result<Expr, ExprError>)
    ensures
        match (r, parse_expr_spec(input@)) {
            (Ok(e), Ok(se)) => expr_view(e) == se,
            (Err(e), Err(se)) => err_view(e) == se,
            _ => false,
        },
{
    let tokens = tokenize(input);
    let (expr, rest) = match parse_or(&tokens, 0) {
        Ok(x) => x,
        Err(e) => {
            return Err(e);
        },
    };
    if rest < tokens.len() {
        let left = slice_vecs(&tokens, rest);
        return Err(ExprError::Trailing(left));
    }
    Ok(expr)
}

/// The vectors of `v` from position `lo` on.
fn slice_vecs(v: &Vec<Vec<char>>, lo: usize) -> (r: Vec<Vec<char>>)
    requires
        lo <= v@.len(),
    ensures
        vv(r@) =~= vv(v@).skip(lo as int),
{
    let mut r: Vec<Vec<char>> = Vec::new();
    let mut i = lo;
    while i < v.len()
        invariant
            lo <= i <= v@.len(),
            vv(r@) =~= vv(v@).subrange(lo as int, i as int),
        decreases v.len() - i,
    {
        let ghost old_r = vv(r@);
        let c = v[i].clone();
        r.push(c);
        proof {
            assert(vv(r@) =~= old_r.push(c@));
            assert(vv(v@).subrange(lo as int, i + 1) =~= vv(v@).subrange(lo as int, i as int).push(v@[i as int]@));
        }
        i += 1;
    }
    r
}

} // verus!

verus! {

fn eval(expr: &Expr, tags: &[String]) -> (r: bool)
    ensures
        r == eval_spec(expr_view(*expr), strings_view(tags@)),
    decreases expr,
{
    match expr {
        Expr::Tag(name) => {
            let ghost tv = strings_view(tags@);
            let mut i: usize = 0;
            assert(expr_view(*expr) == ExprV::Tag(name@));
            while i < tags.len()
                invariant
                    expr_view(*expr) == ExprV::Tag(name@),
                    tv == strings_view(tags@),
                    i <= tags@.len(),
                    forall|j: int| 0 <= j < i ==> !eq_ignore_case(#[trigger] tv[j], name@),
                decreases tags.len() - i,
            {
                let t = chars_of_string(&tags[i]);
                if eq_ic(t.as_slice(), name.as_slice()) {
                    assert(eq_ignore_case(tv[i as int], name@));
                    assert(has_tag(tv, name@));
                    assert(expr_view(*expr) == ExprV::Tag(name@));
                    return true;
                }
                i += 1;
            }
            assert(expr_view(*expr) == ExprV::Tag(name@));
            false
        },
        Expr::Not(e) => !eval(e, tags),
        Expr::And(a, b) => eval(a, tags) && eval(b, tags),
        Expr::Or(a, b) => eval(a, tags) || eval(b, tags),
    }
}

fn eval_search(expr: &Expr, haystack: &[char]) -> (r: bool)
    ensures
        r == eval_search_spec(expr_view(*expr), haystack@),
    decreases expr,
{
    match expr {
        Expr::Tag(term) => {
            let lt = to_lower(term.as_slice());
            find_seq(haystack, lt.as_slice()).is_some()
        },
        Expr::Not(e) => !eval_search(e, haystack),
        Expr::And(a, b) => eval_search(a, haystack) && eval_search(b, haystack),
        Expr::Or(a, b) => eval_search(a, haystack) || eval_search(b, haystack),
    }
}

/// The rendering `format!("{:?}", list)` gives of a list of strings.
pub uninterp spec fn debug_string_list(items: Seq<Seq<char>>) -> Seq<char>;

/// `format!("{:?}", items)`: std's `Debug` rendering of a list of strings
/// (brackets, each string quoted and escaped, `, ` between). The contract
/// names the result and claims nothing else of it.
#[verifier::external_body]
fn debug_list(items: &Vec<String>) -> (r: String)
    ensures
        r@ == debug_string_list(strings_view(items@)),
{
    format!("{:?}", items)
}

/// The message for a malformed expression.
pub open spec fn expr_error_message(e: ExprErrV) -> Seq<char> {
    match e {
        ExprErrV::UnexpectedEnd => "unexpected end of expression"@,
        ExprErrV::MissingParen => "missing closing parenthesis"@,
        ExprErrV::Trailing(rest) => "unexpected tokens: "@ + debug_string_list(rest),
    }
}

fn error_message(e: &ExprError) -> (r: String)
    ensures
        r@ == expr_error_message(err_view(*e)),
{
    match e {
        ExprError::UnexpectedEnd => "unexpected end of expression".to_string(),
        ExprError::MissingParen => "missing closing parenthesis".to_string(),
        ExprError::Trailing(rest) => {
            let mut s = "unexpected tokens: ".to_string();
            let list = debug_list(&strings_of(rest));
            s.append(list.as_str());
            s
        },
    }
}

/// Validate a tag expression, returning an error if it is malformed.
/// Call this once before the main loop to fail early on bad expressions.
pub fn validate_tag_expr(expr: &str) -> (r: Result<(), String>)
    ensures
        match (r, parse_expr_spec(expr@)) {
            (Ok(()), Ok(_)) => true,
            (Err(m), Err(e)) => m@ == expr_error_message(e),
            _ => false,
        },
{
    let input = chars_of(expr);
    match parse_expr(input.as_slice()) {
        Ok(_) => Ok(()),
        Err(e) => Err(error_message(&e)),
    }
}

/// Check if a set of tags matches a boolean expression.
pub fn matches_tag_expr(expr: &str, tags: &[String]) -> (b: bool)
    ensures
        b == match parse_expr_spec(expr@) {
            Ok(e) => eval_spec(e, strings_view(tags@)),
            Err(_) => false,
        },
{
    let input = chars_of(expr);
    match parse_expr(input.as_slice()) {
        Ok(ast) => eval(&ast, tags),
        Err(_) => false,
    }
}

/// Check if a haystack string matches a boolean search expression.
///
/// Each term in the expression is matched case-insensitively as a substring
/// of the haystack. Supports the same operators as tag expressions: and, or,
/// not, and parentheses.
pub fn matches_search_expr(expr: &str, haystack: &str) -> (b: bool)
    ensures
        b == match parse_expr_spec(expr@) {
            Ok(e) => eval_search_spec(e, lower_seq(haystack@)),
            Err(_) => false,
        },
{
    let input = chars_of(expr);
    match parse_expr(input.as_slice()) {
        Ok(ast) => {
            let h = to_lower(chars_of(haystack).as_slice());
            eval_search(&ast, h.as_slice())
        },
        Err(_) => false,
    }
}

} // verus!
