use vstd::prelude::*;
use vstd::string::StrSliceExecFns;

use crate::ast::{
    arena_extends, expr_at, lemma_arena_extends_trans, lemma_arena_push_extends,
    lemma_expr_at_stable, lemma_names_extends_push, lemma_names_extends_refl,
    lemma_names_extends_trans, names_extends, Arena, BinOp, Expr, Node, NodeId,
};
use crate::Error;

verus! {

/// One lexical token of the expression language.
enum Token {
    Num(i64),
    Ident(String),
    Plus,
    Minus,
    Star,
    Slash,
    Shl,
    Shr,
    EqEq,
    NotEq,
    Question,
    Colon,
    LParen,
    RParen,
}

/// The mathematical value of a token: what contracts speak of.
pub enum Tok {
    Num(i64),
    Ident(Seq<char>),
    Plus,
    Minus,
    Star,
    Slash,
    Shl,
    Shr,
    EqEq,
    NotEq,
    Question,
    Colon,
    LParen,
    RParen,
}

spec fn tok_view(t: Token) -> Tok {
    match t {
        Token::Num(v) => Tok::Num(v),
        Token::Ident(s) => Tok::Ident(s@),
        Token::Plus => Tok::Plus,
        Token::Minus => Tok::Minus,
        Token::Star => Tok::Star,
        Token::Slash => Tok::Slash,
        Token::Shl => Tok::Shl,
        Token::Shr => Tok::Shr,
        Token::EqEq => Tok::EqEq,
        Token::NotEq => Tok::NotEq,
        Token::Question => Tok::Question,
        Token::Colon => Tok::Colon,
        Token::LParen => Tok::LParen,
        Token::RParen => Tok::RParen,
    }
}

spec fn toks_view(ts: Seq<Token>) -> Seq<Tok> {
    ts.map_values(|t: Token| tok_view(t))
}

/// `c` is horizontal or vertical whitespace.
pub open spec fn is_space(c: char) -> bool {
    c == ' ' || c == '\t' || c == '\n' || c == '\r'
}

/// `c` is an ASCII decimal digit.
pub open spec fn is_digit(c: char) -> bool {
    48 <= (c as u32) && (c as u32) <= 57
}

/// `c` may start an identifier.
pub open spec fn is_ident_start(c: char) -> bool {
    (97 <= (c as u32) && (c as u32) <= 122) || (65 <= (c as u32) && (c as u32) <= 90) || (
    c as u32) == 95
}

/// `c` may continue an identifier.
pub open spec fn is_ident_continue(c: char) -> bool {
    is_ident_start(c) || is_digit(c)
}

/// How many consecutive identifier characters start at `i`.
pub open spec fn ident_len_from(text: Seq<char>, i: int) -> nat
    decreases text.len() - i,
{
    if 0 <= i < text.len() && is_ident_continue(text[i]) {
        (1 + ident_len_from(text, i + 1)) as nat
    } else {
        0
    }
}

proof fn lemma_ident_len_bound(text: Seq<char>, i: int)
    requires
        0 <= i <= text.len(),
    ensures
        i + ident_len_from(text, i) <= text.len(),
    decreases text.len() - i,
{
    if i < text.len() && is_ident_continue(text[i]) {
        lemma_ident_len_bound(text, i + 1);
    }
}

/// How many consecutive digits start at `i`.
pub open spec fn digits_len_from(text: Seq<char>, i: int) -> nat
    decreases text.len() - i,
{
    if 0 <= i < text.len() && is_digit(text[i]) {
        (1 + digits_len_from(text, i + 1)) as nat
    } else {
        0
    }
}

proof fn lemma_digits_len_bound(text: Seq<char>, i: int)
    requires
        0 <= i <= text.len(),
    ensures
        i + digits_len_from(text, i) <= text.len(),
    decreases text.len() - i,
{
    if i < text.len() && is_digit(text[i]) {
        lemma_digits_len_bound(text, i + 1);
    }
}

/// The value of the digit run starting at `i`, accumulated onto `val`;
/// `None` when it exceeds the 64-bit signed range.
pub open spec fn num_value_from(text: Seq<char>, i: int, val: i64) -> Option<i64>
    decreases text.len() - i,
{
    if 0 <= i < text.len() && is_digit(text[i]) {
        let d = text[i] as u32 - 48;
        if val * 10 + d > i64::MAX {
            None
        } else {
            num_value_from(text, i + 1, (val * 10 + d) as i64)
        }
    } else {
        Some(val)
    }
}

/// The token list of `text` from position `i` on, after the tokens `acc`:
/// `None` on any text the tokenizer rejects.
pub open spec fn toks_from(text: Seq<char>, i: int, acc: Seq<Tok>) -> Option<Seq<Tok>>
    decreases text.len() - i,
    when 0 <= i
    via toks_from_decreases
{
    if 0 <= i < text.len() {
        let c = text[i];
        if is_space(c) {
            toks_from(text, i + 1, acc)
        } else if c == '+' {
            toks_from(text, i + 1, acc.push(Tok::Plus))
        } else if c == '-' {
            toks_from(text, i + 1, acc.push(Tok::Minus))
        } else if c == '*' {
            toks_from(text, i + 1, acc.push(Tok::Star))
        } else if c == '/' {
            toks_from(text, i + 1, acc.push(Tok::Slash))
        } else if c == '(' {
            toks_from(text, i + 1, acc.push(Tok::LParen))
        } else if c == ')' {
            toks_from(text, i + 1, acc.push(Tok::RParen))
        } else if c == '?' {
            toks_from(text, i + 1, acc.push(Tok::Question))
        } else if c == ':' {
            toks_from(text, i + 1, acc.push(Tok::Colon))
        } else if c == '<' {
            if i + 1 < text.len() && text[i + 1] == '<' {
                toks_from(text, i + 2, acc.push(Tok::Shl))
            } else {
                None
            }
        } else if c == '>' {
            if i + 1 < text.len() && text[i + 1] == '>' {
                toks_from(text, i + 2, acc.push(Tok::Shr))
            } else {
                None
            }
        } else if c == '=' {
            if i + 1 < text.len() && text[i + 1] == '=' {
                toks_from(text, i + 2, acc.push(Tok::EqEq))
            } else {
                None
            }
        } else if c == '!' {
            if i + 1 < text.len() && text[i + 1] == '=' {
                toks_from(text, i + 2, acc.push(Tok::NotEq))
            } else {
                None
            }
        } else if is_digit(c) {
            match num_value_from(text, i, 0) {
                None => None,
                Some(v) => toks_from(
                    text,
                    i + digits_len_from(text, i),
                    acc.push(Tok::Num(v)),
                ),
            }
        } else if is_ident_start(c) {
            let j = i + ident_len_from(text, i);
            toks_from(text, j, acc.push(Tok::Ident(text.subrange(i, j))))
        } else {
            None
        }
    } else {
        Some(acc)
    }
}

#[via_fn]
proof fn toks_from_decreases(text: Seq<char>, i: int, acc: Seq<Tok>) {
    if 0 <= i < text.len() {
        lemma_digits_len_bound(text, i);
        lemma_ident_len_bound(text, i);
    }
}

/// The token list of `text`, or `None` on malformed text.
pub open spec fn spec_tokens(text: Seq<char>) -> Option<Seq<Tok>> {
    toks_from(text, 0, Seq::empty())
}

// ---- the grammar, loosest binding first ----
//   expr: cmp | cmp `?` cmp `:` cmp
//   cmp:  sum | sum `==` sum | sum `!=` sum
//   sum:  term (`+` term | `-` term)*
//   term: item (`*` item | `/` item | `>>` item | `<<` item)*
//   item: number | identifier | `-` item | `(` expr `)`
//
// Each function yields the parsed expression and the position after it,
// or `None` where the tokens do not fit its production. The bound checks
// on intermediate positions only keep the definitions total: a successful
// parse always lands inside them.

pub open spec fn sp_item(toks: Seq<Tok>, pos: int) -> Option<(Expr, int)>
    decreases toks.len() - pos, 0int,
{
    if 0 <= pos < toks.len() {
        match toks[pos] {
            Tok::Num(v) => Some((Expr::Const(v), pos + 1)),
            Tok::Ident(name) => Some((Expr::Var(name), pos + 1)),
            Tok::Minus => match sp_item(toks, pos + 1) {
                None => None,
                Some((e, p)) => Some((Expr::Neg(Box::new(e)), p)),
            },
            Tok::LParen => match sp_expr(toks, pos + 1) {
                None => None,
                Some((e, p)) => if pos + 1 <= p <= toks.len() {
                    if p < toks.len() && toks[p] == Tok::RParen {
                        Some((e, p + 1))
                    } else {
                        None
                    }
                } else {
                    arbitrary()
                },
            },
            _ => None,
        }
    } else if pos == toks.len() {
        None
    } else {
        arbitrary()
    }
}

pub open spec fn sp_term_tail(toks: Seq<Tok>, pos: int, acc: Expr) -> Option<(Expr, int)>
    decreases toks.len() - pos, 1int,
{
    if 0 <= pos <= toks.len() {
        if pos < toks.len() && (toks[pos] == Tok::Star || toks[pos] == Tok::Slash || toks[pos]
            == Tok::Shr || toks[pos] == Tok::Shl) {
            let op = if toks[pos] == Tok::Star {
                BinOp::Mul
            } else if toks[pos] == Tok::Slash {
                BinOp::Div
            } else if toks[pos] == Tok::Shr {
                BinOp::Shr
            } else {
                BinOp::Shl
            };
            match sp_item(toks, pos + 1) {
                None => None,
                Some((rhs, p)) => if pos + 1 <= p <= toks.len() {
                    sp_term_tail(toks, p, Expr::Bin(op, Box::new(acc), Box::new(rhs)))
                } else {
                    arbitrary()
                },
            }
        } else {
            Some((acc, pos))
        }
    } else {
        arbitrary()
    }
}

pub open spec fn sp_term(toks: Seq<Tok>, pos: int) -> Option<(Expr, int)>
    decreases toks.len() - pos, 2int,
{
    if 0 <= pos <= toks.len() {
        match sp_item(toks, pos) {
            None => None,
            Some((e, p)) => if pos < p <= toks.len() {
                sp_term_tail(toks, p, e)
            } else {
                arbitrary()
            },
        }
    } else {
        arbitrary()
    }
}

pub open spec fn sp_sum_tail(toks: Seq<Tok>, pos: int, acc: Expr) -> Option<(Expr, int)>
    decreases toks.len() - pos, 3int,
{
    if 0 <= pos <= toks.len() {
        if pos < toks.len() && (toks[pos] == Tok::Plus || toks[pos] == Tok::Minus) {
            let op = if toks[pos] == Tok::Plus {
                BinOp::Add
            } else {
                BinOp::Sub
            };
            match sp_term(toks, pos + 1) {
                None => None,
                Some((rhs, p)) => if pos + 1 <= p <= toks.len() {
                    sp_sum_tail(toks, p, Expr::Bin(op, Box::new(acc), Box::new(rhs)))
                } else {
                    arbitrary()
                },
            }
        } else {
            Some((acc, pos))
        }
    } else {
        arbitrary()
    }
}

pub open spec fn sp_sum(toks: Seq<Tok>, pos: int) -> Option<(Expr, int)>
    decreases toks.len() - pos, 4int,
{
    if 0 <= pos <= toks.len() {
        match sp_term(toks, pos) {
            None => None,
            Some((e, p)) => if pos < p <= toks.len() {
                sp_sum_tail(toks, p, e)
            } else {
                arbitrary()
            },
        }
    } else {
        arbitrary()
    }
}

pub open spec fn sp_cmp(toks: Seq<Tok>, pos: int) -> Option<(Expr, int)>
    decreases toks.len() - pos, 5int,
{
    if 0 <= pos <= toks.len() {
        match sp_sum(toks, pos) {
            None => None,
            Some((l, p1)) => if pos < p1 <= toks.len() {
                if p1 < toks.len() && (toks[p1] == Tok::EqEq || toks[p1] == Tok::NotEq) {
                    let op = if toks[p1] == Tok::EqEq {
                        BinOp::Eq
                    } else {
                        BinOp::Neq
                    };
                    match sp_sum(toks, p1 + 1) {
                        None => None,
                        Some((r, p2)) => Some((Expr::Bin(op, Box::new(l), Box::new(r)), p2)),
                    }
                } else {
                    Some((l, p1))
                }
            } else {
                arbitrary()
            },
        }
    } else {
        arbitrary()
    }
}

pub open spec fn sp_expr(toks: Seq<Tok>, pos: int) -> Option<(Expr, int)>
    decreases toks.len() - pos, 6int,
{
    if 0 <= pos <= toks.len() {
        match sp_cmp(toks, pos) {
            None => None,
            Some((c, p1)) => if pos < p1 <= toks.len() {
                if p1 < toks.len() && toks[p1] == Tok::Question {
                    match sp_cmp(toks, p1 + 1) {
                        None => None,
                        Some((t, p2)) => if p1 + 1 <= p2 <= toks.len() {
                            if p2 < toks.len() && toks[p2] == Tok::Colon {
                                match sp_cmp(toks, p2 + 1) {
                                    None => None,
                                    Some((f, p3)) => Some(
                                        (Expr::Cond(Box::new(c), Box::new(t), Box::new(f)), p3),
                                    ),
                                }
                            } else {
                                None
                            }
                        } else {
                            arbitrary()
                        },
                    }
                } else {
                    Some((c, p1))
                }
            } else {
                arbitrary()
            },
        }
    } else {
        arbitrary()
    }
}

/// The expression `text` denotes under the grammar, or `None` on
/// malformed text (including trailing input).
pub open spec fn spec_parse_text(text: Seq<char>) -> Option<Expr> {
    match spec_tokens(text) {
        None => None,
        Some(toks) => match sp_expr(toks, 0) {
            None => None,
            Some((e, p)) => if p == toks.len() {
                Some(e)
            } else {
                None
            },
        },
    }
}

// ---- executable code ----

fn exec_is_space(c: char) -> (r: bool)
    ensures
        r == is_space(c),
{
    c == ' ' || c == '\t' || c == '\n' || c == '\r'
}

fn exec_is_digit(c: char) -> (r: bool)
    ensures
        r == is_digit(c),
{
    let u = c as u32;
    48 <= u && u <= 57
}

fn exec_is_ident_start(c: char) -> (r: bool)
    ensures
        r == is_ident_start(c),
{
    let u = c as u32;
    (97 <= u && u <= 122) || (65 <= u && u <= 90) || u == 95
}

fn digit_char_at(s: &str, i: usize) -> (r: bool)
    requires
        i < s@.len(),
    ensures
        r == is_digit(s@[i as int]),
{
    exec_is_digit(s.get_char(i))
}

fn ident_char_at(s: &str, i: usize) -> (r: bool)
    requires
        i < s@.len(),
    ensures
        r == is_ident_continue(s@[i as int]),
{
    let c = s.get_char(i);
    exec_is_ident_start(c) || exec_is_digit(c)
}

fn parse_error(msg: &str) -> (r: Error)
    ensures
        r@ is Parse,
{
    Error::Parse(msg.to_owned())
}

/// Split `src` into tokens, exactly as [`spec_tokens`] says.
fn tokenize(src: &str) -> (r: Result<Vec<Token>, Error>)
    ensures
        match r {
            Ok(ts) => spec_tokens(src@) == Some(toks_view(ts@)),
            Err(e) => e@ is Parse && spec_tokens(src@) is None,
        },
{
    let ghost text = src@;
    let n = src.unicode_len();
    let mut toks: Vec<Token> = Vec::new();
    proof {
        assert(toks_view(toks@) =~= Seq::<Tok>::empty());
    }
    let mut i: usize = 0;
    while i < n
        invariant
            i <= n,
            n == text.len(),
            text == src@,
            toks_from(text, 0, Seq::empty()) == toks_from(text, i as int, toks_view(toks@)),
        decreases n - i,
    {
        let ghost iv = i as int;
        let ghost accv = toks_view(toks@);
        let c = src.get_char(i);
        if exec_is_space(c) {
            i = i + 1;
        } else if c == '+' {
            toks.push(Token::Plus);
            i = i + 1;
            proof {
                assert(toks_view(toks@) =~= accv.push(Tok::Plus));
            }
        } else if c == '-' {
            toks.push(Token::Minus);
            i = i + 1;
            proof {
                assert(toks_view(toks@) =~= accv.push(Tok::Minus));
            }
        } else if c == '*' {
            toks.push(Token::Star);
            i = i + 1;
            proof {
                assert(toks_view(toks@) =~= accv.push(Tok::Star));
            }
        } else if c == '/' {
            toks.push(Token::Slash);
            i = i + 1;
            proof {
                assert(toks_view(toks@) =~= accv.push(Tok::Slash));
            }
        } else if c == '(' {
            toks.push(Token::LParen);
            i = i + 1;
            proof {
                assert(toks_view(toks@) =~= accv.push(Tok::LParen));
            }
        } else if c == ')' {
            toks.push(Token::RParen);
            i = i + 1;
            proof {
                assert(toks_view(toks@) =~= accv.push(Tok::RParen));
            }
        } else if c == '?' {
            toks.push(Token::Question);
            i = i + 1;
            proof {
                assert(toks_view(toks@) =~= accv.push(Tok::Question));
            }
        } else if c == ':' {
            toks.push(Token::Colon);
            i = i + 1;
            proof {
                assert(toks_view(toks@) =~= accv.push(Tok::Colon));
            }
        } else if c == '<' {
            if i + 1 < n && src.get_char(i + 1) == '<' {
                toks.push(Token::Shl);
                i = i + 2;
                proof {
                    assert(toks_view(toks@) =~= accv.push(Tok::Shl));
                }
            } else {
                return Err(parse_error("expected '<<'"));
            }
        } else if c == '>' {
            if i + 1 < n && src.get_char(i + 1) == '>' {
                toks.push(Token::Shr);
                i = i + 2;
                proof {
                    assert(toks_view(toks@) =~= accv.push(Tok::Shr));
                }
            } else {
                return Err(parse_error("expected '>>'"));
            }
        } else if c == '=' {
            if i + 1 < n && src.get_char(i + 1) == '=' {
                toks.push(Token::EqEq);
                i = i + 2;
                proof {
                    assert(toks_view(toks@) =~= accv.push(Tok::EqEq));
                }
            } else {
                return Err(parse_error("expected '=='"));
            }
        } else if c == '!' {
            if i + 1 < n && src.get_char(i + 1) == '=' {
                toks.push(Token::NotEq);
                i = i + 2;
                proof {
                    assert(toks_view(toks@) =~= accv.push(Tok::NotEq));
                }
            } else {
                return Err(parse_error("expected '!='"));
            }
        } else if exec_is_digit(c) {
            let ghost i0 = i as int;
            let mut val: i64 = 0;
            while i < n && digit_char_at(src, i)
                invariant
                    i0 <= i <= n,
                    i0 < n,
                    n == text.len(),
                    text == src@,
                    is_digit(text[i0]),
                    0 <= val,
                    num_value_from(text, i0, 0) == num_value_from(text, i as int, val),
                    digits_len_from(text, i0) == i - i0 + digits_len_from(text, i as int),
                    toks_from(text, 0, Seq::empty()) == toks_from(text, i0, toks_view(toks@)),
                decreases n - i,
            {
                let d: i64 = (src.get_char(i) as u32 - 48) as i64;
                let scaled = match val.checked_mul(10) {
                    Some(s) => s,
                    None => {
                        proof {
                            assert(num_value_from(text, i0, 0) is None);
                        }
                        return Err(parse_error("integer literal does not fit in 64 bits"));
                    },
                };
                val = match scaled.checked_add(d) {
                    Some(s) => s,
                    None => {
                        proof {
                            assert(num_value_from(text, i0, 0) is None);
                        }
                        return Err(parse_error("integer literal does not fit in 64 bits"));
                    },
                };
                i = i + 1;
            }
            toks.push(Token::Num(val));
            proof {
                assert(digits_len_from(text, i as int) == 0);
                assert(i0 + digits_len_from(text, i0) == i);
                assert(num_value_from(text, i0, 0) == Some(val));
                assert(toks_view(toks@) =~= accv.push(Tok::Num(val)));
            }
        } else if exec_is_ident_start(c) {
            let start = i;
            while i < n && ident_char_at(src, i)
                invariant
                    start <= i <= n,
                    start < n,
                    n == text.len(),
                    text == src@,
                    is_ident_start(text[start as int]),
                    ident_len_from(text, start as int) == i - start + ident_len_from(
                        text,
                        i as int,
                    ),
                    toks_from(text, 0, Seq::empty()) == toks_from(
                        text,
                        start as int,
                        toks_view(toks@),
                    ),
                decreases n - i,
            {
                i = i + 1;
            }
            let name = src.substring_char(start, i);
            toks.push(Token::Ident(name.to_owned()));
            proof {
                assert(ident_len_from(text, i as int) == 0);
                assert(start + ident_len_from(text, start as int) == i);
                assert(toks_view(toks@) =~= accv.push(Tok::Ident(text.subrange(start as int, i as int))));
            }
        } else {
            return Err(parse_error("unexpected character"));
        }
    }
    Ok(toks)
}

/// Everything every parsing step preserves: the arena stays well formed
/// and only grows, so earlier handles keep their meaning.
pub open spec fn arena_grew(pre: Arena, post: Arena) -> bool {
    &&& post.wf()
    &&& arena_extends(pre.nodes(), post.nodes())
    &&& names_extends(pre.names(), post.names())
}

proof fn lemma_grew_refl(a: Arena)
    requires
        a.wf(),
    ensures
        arena_grew(a, a),
{
    crate::ast::lemma_arena_extends_refl(a.nodes());
    lemma_names_extends_refl(a.names());
}

proof fn lemma_grew_trans(a: Arena, b: Arena, c: Arena)
    requires
        arena_grew(a, b),
        arena_grew(b, c),
    ensures
        arena_grew(a, c),
{
    lemma_arena_extends_trans(a.nodes(), b.nodes(), c.nodes());
    lemma_names_extends_trans(a.names(), b.names(), c.names());
}

proof fn lemma_grew_push(a: Arena, b: Arena, node: Node)
    requires
        b.wf(),
        b.nodes() == a.nodes().push(node),
        b.names() == a.names(),
    ensures
        arena_grew(a, b),
{
    lemma_arena_push_extends(a.nodes(), node);
    lemma_names_extends_refl(a.names());
}

/// What a parse step's handle means does not change as the arena grows on.
proof fn lemma_expr_stable(a: Arena, b: Arena, id: NodeId)
    requires
        a.wf(),
        arena_grew(a, b),
        id.0 < a.nodes().len(),
    ensures
        expr_at(b.nodes(), b.names(), id.0 as int) == expr_at(a.nodes(), a.names(), id.0 as int),
{
    lemma_expr_at_stable(a.nodes(), a.names(), b.nodes(), b.names(), id.0 as int);
}

/// The contract every recursive-descent level meets, against its grammar
/// production `sp`: on success the built tree stands for exactly the
/// expression the production yields, and parsing stopped where it says.
pub open spec fn parses_as(
    sp: Option<(Expr, int)>,
    pre: Arena,
    post: Arena,
    pos0: int,
    pos1: int,
    len: int,
    r: Result<NodeId, Error>,
) -> bool {
    &&& arena_grew(pre, post)
    &&& pos1 <= len
    &&& pos0 <= pos1
    &&& match r {
        Ok(id) => id.0 < post.nodes().len() && pos0 < pos1 && sp == Some(
            (expr_at(post.nodes(), post.names(), id.0 as int), pos1),
        ),
        Err(e) => e@ is Parse && sp is None,
    }
}

#[verifier::rlimit(50)]
fn parse_expr(toks: &Vec<Token>, pos: &mut usize, ctx: &mut Arena) -> (r: Result<NodeId, Error>)
    requires
        old(ctx).wf(),
        *old(pos) <= toks@.len(),
    ensures
        parses_as(
            sp_expr(toks_view(toks@), *old(pos) as int),
            *old(ctx),
            *final(ctx),
            *old(pos) as int,
            *final(pos) as int,
            toks@.len() as int,
            r,
        ),
    decreases toks@.len() - *old(pos), 10int,
{
    let ghost toksv = toks_view(toks@);
    let ghost pre = *old(ctx);
    let ghost pos0 = *old(pos) as int;
    let c = match parse_cmp(toks, pos, ctx) {
        Ok(id) => id,
        Err(e) => {
            return Err(e);
        },
    };
    let ghost ctx1 = *ctx;
    let ghost p1 = *pos as int;
    let question = *pos < toks.len() && matches!(&toks[*pos], Token::Question);
    if !question {
        proof {
            if p1 < toksv.len() {
                assert(toksv[p1] == tok_view(toks@[p1]));
                assert(!(toksv[p1] == Tok::Question));
            }
        }
        return Ok(c);
    }
    proof {
        assert(toksv[p1] == tok_view(toks@[p1]));
    }
    *pos = *pos + 1;
    let t = match parse_cmp(toks, pos, ctx) {
        Ok(id) => id,
        Err(e) => {
            proof {
                lemma_grew_trans(pre, ctx1, *ctx);
            }
            return Err(e);
        },
    };
    let ghost ctx2 = *ctx;
    let ghost p2 = *pos as int;
    if !(*pos < toks.len() && matches!(&toks[*pos], Token::Colon)) {
        proof {
            lemma_grew_trans(pre, ctx1, *ctx);
            if p2 < toksv.len() {
                assert(toksv[p2] == tok_view(toks@[p2]));
            }
        }
        return Err(parse_error("expected ':' in conditional"));
    }
    proof {
        assert(toksv[p2] == tok_view(toks@[p2]));
    }
    *pos = *pos + 1;
    let f = match parse_cmp(toks, pos, ctx) {
        Ok(id) => id,
        Err(e) => {
            proof {
                lemma_grew_trans(pre, ctx1, ctx2);
                lemma_grew_trans(pre, ctx2, *ctx);
            }
            return Err(e);
        },
    };
    let ghost ctx3 = *ctx;
    proof {
        lemma_grew_trans(pre, ctx1, ctx2);
        lemma_grew_trans(pre, ctx2, ctx3);
    }
    let id = ctx.new_node(Node::Conditional(c, t, f));
    proof {
        lemma_grew_push(ctx3, *ctx, Node::Conditional(c, t, f));
        lemma_grew_trans(pre, ctx3, *ctx);
        lemma_grew_trans(ctx1, ctx2, ctx3);
        lemma_grew_trans(ctx1, ctx3, *ctx);
        lemma_grew_trans(ctx2, ctx3, *ctx);
        lemma_expr_stable(ctx1, *ctx, c);
        lemma_expr_stable(ctx2, *ctx, t);
        lemma_expr_stable(ctx3, *ctx, f);
    }
    Ok(id)
}

fn parse_cmp(toks: &Vec<Token>, pos: &mut usize, ctx: &mut Arena) -> (r: Result<NodeId, Error>)
    requires
        old(ctx).wf(),
        *old(pos) <= toks@.len(),
    ensures
        parses_as(
            sp_cmp(toks_view(toks@), *old(pos) as int),
            *old(ctx),
            *final(ctx),
            *old(pos) as int,
            *final(pos) as int,
            toks@.len() as int,
            r,
        ),
    decreases toks@.len() - *old(pos), 8int,
{
    let ghost toksv = toks_view(toks@);
    let ghost pre = *old(ctx);
    let l = match parse_sum(toks, pos, ctx) {
        Ok(id) => id,
        Err(e) => {
            return Err(e);
        },
    };
    let ghost ctx1 = *ctx;
    let ghost p1 = *pos as int;
    let equal = *pos < toks.len() && matches!(&toks[*pos], Token::EqEq);
    let unequal = *pos < toks.len() && matches!(&toks[*pos], Token::NotEq);
    if !equal && !unequal {
        proof {
            if p1 < toksv.len() {
                assert(toksv[p1] == tok_view(toks@[p1]));
            }
        }
        return Ok(l);
    }
    proof {
        assert(toksv[p1] == tok_view(toks@[p1]));
    }
    *pos = *pos + 1;
    let rhs = match parse_sum(toks, pos, ctx) {
        Ok(id) => id,
        Err(e) => {
            proof {
                lemma_grew_trans(pre, ctx1, *ctx);
            }
            return Err(e);
        },
    };
    let ghost ctx2 = *ctx;
    proof {
        lemma_grew_trans(pre, ctx1, ctx2);
    }
    let node = if equal {
        Node::Equal(l, rhs)
    } else {
        Node::NotEqual(l, rhs)
    };
    let id = ctx.new_node(node);
    proof {
        lemma_grew_push(ctx2, *ctx, node);
        lemma_grew_trans(pre, ctx2, *ctx);
        lemma_grew_trans(ctx1, ctx2, *ctx);
        lemma_expr_stable(ctx1, *ctx, l);
        lemma_expr_stable(ctx2, *ctx, rhs);
    }
    Ok(id)
}

fn parse_sum(toks: &Vec<Token>, pos: &mut usize, ctx: &mut Arena) -> (r: Result<NodeId, Error>)
    requires
        old(ctx).wf(),
        *old(pos) <= toks@.len(),
    ensures
        parses_as(
            sp_sum(toks_view(toks@), *old(pos) as int),
            *old(ctx),
            *final(ctx),
            *old(pos) as int,
            *final(pos) as int,
            toks@.len() as int,
            r,
        ),
    decreases toks@.len() - *old(pos), 6int,
{
    let ghost toksv = toks_view(toks@);
    let ghost pre = *old(ctx);
    let ghost pos0 = *old(pos) as int;
    let mut acc = match parse_term(toks, pos, ctx) {
        Ok(id) => id,
        Err(e) => {
            return Err(e);
        },
    };
    loop
        invariant
            ctx.wf(),
            *pos <= toks@.len(),
            *old(pos) < *pos,
            toksv == toks_view(toks@),
            pre == *old(ctx),
            pos0 == *old(pos) as int,
            arena_grew(pre, *ctx),
            acc.0 < ctx.nodes().len(),
            sp_sum(toksv, pos0) == sp_sum_tail(
                toksv,
                *pos as int,
                expr_at(ctx.nodes(), ctx.names(), acc.0 as int),
            ),
        ensures
            ctx.wf(),
            *pos <= toks@.len(),
            *old(pos) < *pos,
            arena_grew(pre, *ctx),
            acc.0 < ctx.nodes().len(),
            sp_sum(toksv, pos0) == Some(
                (expr_at(ctx.nodes(), ctx.names(), acc.0 as int), *pos as int),
            ),
        decreases toks@.len() - *pos,
    {
        let ghost p = *pos as int;
        let plus = *pos < toks.len() && matches!(&toks[*pos], Token::Plus);
        let minus = *pos < toks.len() && matches!(&toks[*pos], Token::Minus);
        if !plus && !minus {
            proof {
                if p < toksv.len() {
                    assert(toksv[p] == tok_view(toks@[p]));
                }
            }
            break;
        }
        proof {
            assert(toksv[p] == tok_view(toks@[p]));
        }
        *pos = *pos + 1;
        let ghost ctxa = *ctx;
        let rhs = match parse_term(toks, pos, ctx) {
            Ok(id) => id,
            Err(e) => {
                proof {
                    lemma_grew_trans(pre, ctxa, *ctx);
                }
                return Err(e);
            },
        };
        let ghost ctxb = *ctx;
        proof {
            lemma_grew_trans(pre, ctxa, ctxb);
        }
        let node = if plus {
            Node::Addition(acc, rhs)
        } else {
            Node::Subtraction(acc, rhs)
        };
        let ghost old_acc = acc;
        acc = ctx.new_node(node);
        proof {
            lemma_grew_push(ctxb, *ctx, node);
            lemma_grew_trans(pre, ctxb, *ctx);
            lemma_grew_trans(ctxa, ctxb, *ctx);
            lemma_expr_stable(ctxa, *ctx, old_acc);
            lemma_expr_stable(ctxb, *ctx, rhs);
        }
    }
    Ok(acc)
}

fn parse_term(toks: &Vec<Token>, pos: &mut usize, ctx: &mut Arena) -> (r: Result<NodeId, Error>)
    requires
        old(ctx).wf(),
        *old(pos) <= toks@.len(),
    ensures
        parses_as(
            sp_term(toks_view(toks@), *old(pos) as int),
            *old(ctx),
            *final(ctx),
            *old(pos) as int,
            *final(pos) as int,
            toks@.len() as int,
            r,
        ),
    decreases toks@.len() - *old(pos), 4int,
{
    let ghost toksv = toks_view(toks@);
    let ghost pre = *old(ctx);
    let ghost pos0 = *old(pos) as int;
    let mut acc = match parse_item(toks, pos, ctx) {
        Ok(id) => id,
        Err(e) => {
            return Err(e);
        },
    };
    loop
        invariant
            ctx.wf(),
            *pos <= toks@.len(),
            *old(pos) < *pos,
            toksv == toks_view(toks@),
            pre == *old(ctx),
            pos0 == *old(pos) as int,
            arena_grew(pre, *ctx),
            acc.0 < ctx.nodes().len(),
            sp_term(toksv, pos0) == sp_term_tail(
                toksv,
                *pos as int,
                expr_at(ctx.nodes(), ctx.names(), acc.0 as int),
            ),
        ensures
            ctx.wf(),
            *pos <= toks@.len(),
            *old(pos) < *pos,
            arena_grew(pre, *ctx),
            acc.0 < ctx.nodes().len(),
            sp_term(toksv, pos0) == Some(
                (expr_at(ctx.nodes(), ctx.names(), acc.0 as int), *pos as int),
            ),
        decreases toks@.len() - *pos,
    {
        let ghost p = *pos as int;
        let star = *pos < toks.len() && matches!(&toks[*pos], Token::Star);
        let slash = *pos < toks.len() && matches!(&toks[*pos], Token::Slash);
        let shr = *pos < toks.len() && matches!(&toks[*pos], Token::Shr);
        let shl = *pos < toks.len() && matches!(&toks[*pos], Token::Shl);
        if !star && !slash && !shr && !shl {
            proof {
                if p < toksv.len() {
                    assert(toksv[p] == tok_view(toks@[p]));
                }
            }
            break;
        }
        proof {
            assert(toksv[p] == tok_view(toks@[p]));
        }
        *pos = *pos + 1;
        let ghost ctxa = *ctx;
        let rhs = match parse_item(toks, pos, ctx) {
            Ok(id) => id,
            Err(e) => {
                proof {
                    lemma_grew_trans(pre, ctxa, *ctx);
                }
                return Err(e);
            },
        };
        let ghost ctxb = *ctx;
        proof {
            lemma_grew_trans(pre, ctxa, ctxb);
        }
        let node = if star {
            Node::Multiplication(acc, rhs)
        } else if slash {
            Node::Division(acc, rhs)
        } else if shr {
            Node::RightShift(acc, rhs)
        } else {
            Node::LeftShift(acc, rhs)
        };
        let ghost old_acc = acc;
        acc = ctx.new_node(node);
        proof {
            lemma_grew_push(ctxb, *ctx, node);
            lemma_grew_trans(pre, ctxb, *ctx);
            lemma_grew_trans(ctxa, ctxb, *ctx);
            lemma_expr_stable(ctxa, *ctx, old_acc);
            lemma_expr_stable(ctxb, *ctx, rhs);
        }
    }
    Ok(acc)
}

fn parse_item(toks: &Vec<Token>, pos: &mut usize, ctx: &mut Arena) -> (r: Result<NodeId, Error>)
    requires
        old(ctx).wf(),
        *old(pos) <= toks@.len(),
    ensures
        parses_as(
            sp_item(toks_view(toks@), *old(pos) as int),
            *old(ctx),
            *final(ctx),
            *old(pos) as int,
            *final(pos) as int,
            toks@.len() as int,
            r,
        ),
    decreases toks@.len() - *old(pos), 2int,
{
    let ghost toksv = toks_view(toks@);
    let ghost pre = *old(ctx);
    let ghost pos0 = *old(pos) as int;
    if !(*pos < toks.len()) {
        proof {
            lemma_grew_refl(pre);
        }
        return Err(parse_error("unexpected end of input"));
    }
    proof {
        assert(toksv[pos0] == tok_view(toks@[pos0]));
    }
    match &toks[*pos] {
        Token::Num(v) => {
            let id = ctx.new_node(Node::Const(*v));
            proof {
                lemma_grew_push(pre, *ctx, Node::Const(*v));
            }
            *pos = *pos + 1;
            Ok(id)
        },
        Token::Ident(name) => {
            let id = ctx.new_identifier(name.as_str());
            proof {
                if pre.names().contains(name@) {
                    lemma_names_extends_refl(pre.names());
                } else {
                    lemma_names_extends_push(pre.names(), name@);
                }
            }
            *pos = *pos + 1;
            Ok(id)
        },
        Token::Minus => {
            *pos = *pos + 1;
            let e = match parse_item(toks, pos, ctx) {
                Ok(id) => id,
                Err(e) => {
                    return Err(e);
                },
            };
            let ghost ctx1 = *ctx;
            let id = ctx.new_node(Node::Negation(e));
            proof {
                lemma_grew_push(ctx1, *ctx, Node::Negation(e));
                lemma_grew_trans(pre, ctx1, *ctx);
                lemma_expr_stable(ctx1, *ctx, e);
            }
            Ok(id)
        },
        Token::LParen => {
            *pos = *pos + 1;
            let e = match parse_expr(toks, pos, ctx) {
                Ok(id) => id,
                Err(e) => {
                    return Err(e);
                },
            };
            let ghost p = *pos as int;
            if !(*pos < toks.len() && matches!(&toks[*pos], Token::RParen)) {
                proof {
                    if p < toksv.len() {
                        assert(toksv[p] == tok_view(toks@[p]));
                    }
                }
                return Err(parse_error("expected ')'"));
            }
            proof {
                assert(toksv[p] == tok_view(toks@[p]));
            }
            *pos = *pos + 1;
            Ok(e)
        },
        _ => {
            proof {
                lemma_grew_refl(pre);
            }
            Err(parse_error("expected a literal, identifier, negation or '('"))
        },
    }
}

/// Turn `source` into a tree in `ctx` and hand back its root: the tree
/// stands for exactly the expression the grammar gives `source`, and the
/// arena only grows, so handles issued earlier stay valid and unchanged.
pub fn parse(ctx: &mut Arena, source: &str) -> (r: Result<NodeId, Error>)
    requires
        old(ctx).wf(),
    ensures
        final(ctx).wf(),
        arena_grew(*old(ctx), *final(ctx)),
        match r {
            Ok(id) => final(ctx).valid_node(id) && spec_parse_text(source@) == Some(
                expr_at(final(ctx).nodes(), final(ctx).names(), id.0 as int),
            ),
            Err(e) => e@ is Parse && spec_parse_text(source@) is None,
        },
{
    let toks = match tokenize(source) {
        Ok(t) => t,
        Err(e) => {
            proof {
                lemma_grew_refl(*old(ctx));
            }
            return Err(e);
        },
    };
    let mut pos: usize = 0;
    let root = match parse_expr(&toks, &mut pos, ctx) {
        Ok(id) => id,
        Err(e) => {
            return Err(e);
        },
    };
    if pos != toks.len() {
        return Err(parse_error("unexpected trailing input"));
    }
    Ok(root)
}

} // verus!
