//! Parsing: tokens to an ordered sequence of statements.
//!
//! The grammar is given as spec functions over the classes of the tokens;
//! the executable parser is proved to compute exactly what they say.

use crate::ast::{
    all_arguments, all_statements, lemma_call_view, nodes_view, AstNode, AstView,
};
use crate::errors::{CompileError, ErrorView};
use crate::lexer::{
    kinds, lex, lex_spec, token_views, view_kinds, Token, TokenKind, TokenKindView,
};
use vstd::prelude::*;
use vstd::string::{StringExecFns, StringSliceAdditionalSpecFns};

verus! {

broadcast use lemma_call_view;

/// The number of tokens from position `j` to the end.
pub open spec fn remaining(toks: Seq<TokenKindView>, j: int) -> nat {
    if j <= toks.len() {
        (toks.len() - j) as nat
    } else {
        0
    }
}

/// Whether a call expression opens at `j`: an identifier directly followed
/// by `(`.
pub open spec fn opens_call(toks: Seq<TokenKindView>, j: int) -> bool {
    0 <= j && j + 1 < toks.len() && toks[j] is Ident && toks[j + 1] is LParen
}

/// The failure reported for a token that cannot stand in an argument list.
pub open spec fn invalid_argument(kind: TokenKindView) -> ErrorView {
    ErrorView::ParseError("Invalid call argument: "@ + kind.variant_name())
}

/// The argument list read from position `j` on, after the arguments `acc`
/// already read: the arguments in source order and the position after the
/// closing `)`. A list that the end of the input cuts short is accepted as it
/// stands.
pub open spec fn parse_args_spec(toks: Seq<TokenKindView>, j: int, acc: Seq<AstView>) -> Result<
    (Seq<AstView>, int),
    ErrorView,
>
    decreases remaining(toks, j), 1int,
{
    if j < 0 || j >= toks.len() {
        Ok((acc, j))
    } else if opens_call(toks, j) {
        match parse_call_expr_spec(toks, j) {
            // A call expression spans at least its name and its `(`, so the
            // position always moves on (`lemma_call_end`).
            Ok((node, next)) => if next > j {
                parse_args_spec(toks, next, acc.push(node))
            } else {
                Ok((acc, j))
            },
            Err(e) => Err(e),
        }
    } else {
        match toks[j] {
            TokenKindView::Number(text) => parse_args_spec(
                toks,
                j + 1,
                acc.push(AstView::Number(text)),
            ),
            TokenKindView::StrLiteral(text) => parse_args_spec(
                toks,
                j + 1,
                acc.push(AstView::StrLiteral(text)),
            ),
            TokenKindView::Ident(name) => parse_args_spec(
                toks,
                j + 1,
                acc.push(AstView::Ident(name)),
            ),
            TokenKindView::Comma => parse_args_spec(toks, j + 1, acc),
            TokenKindView::RParen => Ok((acc, j + 1)),
            other => Err(invalid_argument(other)),
        }
    }
}

/// The call expression whose name stands at `start`, where a call opens: the
/// node and the position after it. The arguments start behind the `(` that
/// follows the name.
pub open spec fn parse_call_expr_spec(toks: Seq<TokenKindView>, start: int) -> Result<
    (AstView, int),
    ErrorView,
>
    decreases remaining(toks, start), 0int,
{
    if 0 <= start < toks.len() {
        match toks[start] {
            TokenKindView::Ident(func) => match parse_args_spec(toks, start + 2, Seq::empty()) {
                Ok((args, next)) => Ok((AstView::Call { func, args }, next)),
                Err(e) => Err(e),
            },
            _ => Err(ErrorView::ParseError("Invalid call syntax"@)),
        }
    } else {
        Err(ErrorView::ParseError("Invalid call syntax"@))
    }
}

/// A call statement at `i`: a call expression followed by `;`.
pub open spec fn parse_call_stmt_spec(toks: Seq<TokenKindView>, i: int) -> Result<
    (AstView, int),
    ErrorView,
> {
    match parse_call_expr_spec(toks, i) {
        Ok((node, next)) => if 0 <= next < toks.len() && toks[next] is Semi {
            Ok((node, next + 1))
        } else {
            Err(ErrorView::ParseError("Missing ';' after call"@))
        },
        Err(e) => Err(e),
    }
}

/// The right-hand side of a binding, at position `at`: a number, a string
/// literal, or a call expression. A name that no `(` follows is no
/// right-hand side.
pub open spec fn parse_rhs_spec(toks: Seq<TokenKindView>, at: int) -> Result<
    (AstView, int),
    ErrorView,
> {
    if opens_call(toks, at) {
        parse_call_expr_spec(toks, at)
    } else {
        match toks[at] {
            TokenKindView::Number(text) => Ok((AstView::Number(text), at + 1)),
            TokenKindView::StrLiteral(text) => Ok((AstView::StrLiteral(text), at + 1)),
            _ => Err(ErrorView::ParseError("Expected literal or call"@)),
        }
    }
}

/// A binding at `i`, where the keyword `let` stands: a name, `=`, a
/// right-hand side and `;`.
pub open spec fn parse_let_spec(toks: Seq<TokenKindView>, i: int) -> Result<
    (AstView, int),
    ErrorView,
> {
    if i + 3 >= toks.len() {
        Err(ErrorView::ParseError("Incomplete let"@))
    } else {
        match toks[i + 1] {
            TokenKindView::Ident(name) => if !(toks[i + 2] is Eq) {
                Err(ErrorView::ParseError("Expected '='"@))
            } else {
                match parse_rhs_spec(toks, i + 3) {
                    Ok((expr, next)) => if 0 <= next < toks.len() && toks[next] is Semi {
                        Ok((AstView::Let { name, expr: Box::new(expr) }, next + 1))
                    } else {
                        Err(ErrorView::ParseError("Missing ';' in let"@))
                    },
                    Err(e) => Err(e),
                }
            },
            _ => Err(ErrorView::ParseError("Expected identifier"@)),
        }
    }
}

/// Where the skip that follows the keyword `cast` ends. The skip starts at
/// nesting depth zero; `{` goes one level down, `}` one level up, and the `}`
/// met at depth zero ends the skip and is consumed. Without such a `}` the
/// skip runs to the end of the input.
pub open spec fn cast_skip_end(toks: Seq<TokenKindView>, j: int, depth: nat) -> int
    decreases remaining(toks, j),
{
    if j < 0 || j >= toks.len() {
        j
    } else {
        match toks[j] {
            TokenKindView::LBrace => cast_skip_end(toks, j + 1, depth + 1),
            TokenKindView::RBrace => if depth == 0 {
                j + 1
            } else {
                cast_skip_end(toks, j + 1, (depth - 1) as nat)
            },
            _ => cast_skip_end(toks, j + 1, depth),
        }
    }
}

/// The statements read from position `i` on, after the statements `acc`
/// already read.
///
/// At each position, in this order: the keyword `cast` starts a skip that
/// yields no statement; the keyword `let` starts a binding; an identifier
/// directly followed by `(` starts a call statement; any other token yields
/// one `Noop` and is passed over.
pub open spec fn parse_stmts_spec(toks: Seq<TokenKindView>, i: int, acc: Seq<AstView>) -> Result<
    Seq<AstView>,
    ErrorView,
>
    decreases remaining(toks, i),
{
    if i < 0 || i >= toks.len() {
        Ok(acc)
    } else if toks[i] is Cast {
        proof {
            lemma_cast_skip_end(toks, i + 1, 0);
        }
        parse_stmts_spec(toks, cast_skip_end(toks, i + 1, 0), acc)
    } else if toks[i] is Let {
        match parse_let_spec(toks, i) {
            Ok((node, next)) => {
                proof {
                    lemma_let_end(toks, i);
                }
                parse_stmts_spec(toks, next, acc.push(node))
            },
            Err(e) => Err(e),
        }
    } else if opens_call(toks, i) {
        match parse_call_stmt_spec(toks, i) {
            Ok((node, next)) => {
                proof {
                    lemma_call_end(toks, i);
                }
                parse_stmts_spec(toks, next, acc.push(node))
            },
            Err(e) => Err(e),
        }
    } else {
        parse_stmts_spec(toks, i + 1, acc.push(AstView::Noop))
    }
}

/// The statements that a whole token sequence parses to, or the first
/// failure.
pub open spec fn parse_spec(toks: Seq<TokenKindView>) -> Result<Seq<AstView>, ErrorView> {
    parse_stmts_spec(toks, 0, Seq::empty())
}

/// The statements that a source parses to, given by its bytes, or the first
/// failure.
pub open spec fn parse_source_spec(bytes: Seq<u8>) -> Result<Seq<AstView>, ErrorView> {
    parse_spec(view_kinds(lex_spec(bytes)))
}

/// An argument list ends at or after the position where it starts.
pub proof fn lemma_args_end(toks: Seq<TokenKindView>, j: int, acc: Seq<AstView>)
    ensures
        parse_args_spec(toks, j, acc) matches Ok((_, next)) ==> j <= next,
    decreases remaining(toks, j),
{
    if j < 0 || j >= toks.len() {
    } else if opens_call(toks, j) {
        match parse_call_expr_spec(toks, j) {
            Ok((node, next)) => {
                if next > j {
                    lemma_args_end(toks, next, acc.push(node));
                }
            },
            Err(_) => {},
        }
    } else {
        match toks[j] {
            TokenKindView::Number(text) => lemma_args_end(
                toks,
                j + 1,
                acc.push(AstView::Number(text)),
            ),
            TokenKindView::StrLiteral(text) => lemma_args_end(
                toks,
                j + 1,
                acc.push(AstView::StrLiteral(text)),
            ),
            TokenKindView::Ident(name) => lemma_args_end(
                toks,
                j + 1,
                acc.push(AstView::Ident(name)),
            ),
            TokenKindView::Comma => lemma_args_end(toks, j + 1, acc),
            _ => {},
        }
    }
}

/// A call expression ends at least two tokens after its name.
pub proof fn lemma_call_end(toks: Seq<TokenKindView>, start: int)
    ensures
        parse_call_expr_spec(toks, start) matches Ok((_, next)) ==> start + 2 <= next,
        parse_call_stmt_spec(toks, start) matches Ok((_, next)) ==> start + 3 <= next,
{
    lemma_args_end(toks, start + 2, Seq::empty());
}

/// A binding ends at least five tokens after its keyword.
pub proof fn lemma_let_end(toks: Seq<TokenKindView>, i: int)
    ensures
        parse_let_spec(toks, i) matches Ok((_, next)) ==> i + 5 <= next,
{
    lemma_call_end(toks, i + 3);
}

/// The skip after `cast` ends at or after the position where it starts.
pub proof fn lemma_cast_skip_end(toks: Seq<TokenKindView>, j: int, depth: nat)
    ensures
        j <= cast_skip_end(toks, j, depth),
        0 <= j <= toks.len() ==> cast_skip_end(toks, j, depth) <= toks.len(),
    decreases remaining(toks, j),
{
    if j < 0 || j >= toks.len() {
    } else {
        match toks[j] {
            TokenKindView::LBrace => lemma_cast_skip_end(toks, j + 1, depth + 1),
            TokenKindView::RBrace => {
                if depth != 0 {
                    lemma_cast_skip_end(toks, j + 1, (depth - 1) as nat);
                }
            },
            _ => lemma_cast_skip_end(toks, j + 1, depth),
        }
    }
}

/// The empty token sequence parses to no statement.
pub proof fn lemma_parse_empty()
    ensures
        parse_spec(Seq::empty()) == Ok::<Seq<AstView>, ErrorView>(Seq::empty()),
{
}

/// A failure in an argument list is a parse fault.
pub proof fn lemma_args_fault(toks: Seq<TokenKindView>, j: int, acc: Seq<AstView>)
    ensures
        parse_args_spec(toks, j, acc) matches Err(e) ==> e is ParseError,
    decreases remaining(toks, j), 1int,
{
    if j < 0 || j >= toks.len() {
    } else if opens_call(toks, j) {
        lemma_call_fault(toks, j);
        match parse_call_expr_spec(toks, j) {
            Ok((node, next)) => {
                if next > j {
                    lemma_args_fault(toks, next, acc.push(node));
                }
            },
            Err(_) => {},
        }
    } else {
        match toks[j] {
            TokenKindView::Number(text) => lemma_args_fault(
                toks,
                j + 1,
                acc.push(AstView::Number(text)),
            ),
            TokenKindView::StrLiteral(text) => lemma_args_fault(
                toks,
                j + 1,
                acc.push(AstView::StrLiteral(text)),
            ),
            TokenKindView::Ident(name) => lemma_args_fault(
                toks,
                j + 1,
                acc.push(AstView::Ident(name)),
            ),
            TokenKindView::Comma => lemma_args_fault(toks, j + 1, acc),
            _ => {},
        }
    }
}

/// A failure in a call expression is a parse fault.
pub proof fn lemma_call_fault(toks: Seq<TokenKindView>, start: int)
    ensures
        parse_call_expr_spec(toks, start) matches Err(e) ==> e is ParseError,
    decreases remaining(toks, start), 0int,
{
    if 0 <= start < toks.len() {
        match toks[start] {
            TokenKindView::Ident(_) => lemma_args_fault(toks, start + 2, Seq::empty()),
            _ => {},
        }
    }
}

/// A failure in a sequence of statements is a parse fault.
pub proof fn lemma_stmts_fault(toks: Seq<TokenKindView>, i: int, acc: Seq<AstView>)
    ensures
        parse_stmts_spec(toks, i, acc) matches Err(e) ==> e is ParseError,
    decreases remaining(toks, i),
{
    if i < 0 || i >= toks.len() {
    } else if toks[i] is Cast {
        lemma_cast_skip_end(toks, i + 1, 0);
        lemma_stmts_fault(toks, cast_skip_end(toks, i + 1, 0), acc);
    } else if toks[i] is Let {
        lemma_call_fault(toks, i + 3);
        lemma_let_end(toks, i);
        match parse_let_spec(toks, i) {
            Ok((node, next)) => lemma_stmts_fault(toks, next, acc.push(node)),
            Err(_) => {},
        }
    } else if opens_call(toks, i) {
        lemma_call_fault(toks, i);
        lemma_call_end(toks, i);
        match parse_call_stmt_spec(toks, i) {
            Ok((node, next)) => lemma_stmts_fault(toks, next, acc.push(node)),
            Err(_) => {},
        }
    } else {
        lemma_stmts_fault(toks, i + 1, acc.push(AstView::Noop));
    }
}

/// Parsing is total: every token sequence yields its statements or exactly
/// one failure, and that failure is a parse fault.
pub proof fn lemma_parse_total(toks: Seq<TokenKindView>)
    ensures
        parse_spec(toks) is Ok || (parse_spec(toks) matches Err(e) && e is ParseError),
{
    lemma_stmts_fault(toks, 0, Seq::empty());
}

/// A parse result with its position moved on by `by` tokens.
pub open spec fn shifted<T>(r: Result<(T, int), ErrorView>, by: int) -> Result<(T, int), ErrorView> {
    match r {
        Ok((item, next)) => Ok((item, next + by)),
        Err(e) => Err(e),
    }
}

/// An argument list does not depend on the tokens before it.
pub proof fn lemma_args_shift(
    front: Seq<TokenKindView>,
    toks: Seq<TokenKindView>,
    j: int,
    acc: Seq<AstView>,
)
    requires
        0 <= j,
    ensures
        parse_args_spec(front + toks, front.len() + j, acc) == shifted(
            parse_args_spec(toks, j, acc),
            front.len() as int,
        ),
    decreases remaining(toks, j), 1int,
{
    let all = front + toks;
    let k = front.len() as int;
    if j >= toks.len() {
    } else {
        assert(all[k + j] == toks[j]);
        if j + 1 < toks.len() {
            assert(all[k + j + 1] == toks[j + 1]);
        }
        assert(opens_call(all, k + j) == opens_call(toks, j));
        if opens_call(toks, j) {
            lemma_call_shift(front, toks, j);
            match parse_call_expr_spec(toks, j) {
                Ok((node, next)) => {
                    if next > j {
                        lemma_args_shift(front, toks, next, acc.push(node));
                    }
                },
                Err(_) => {},
            }
        } else {
            match toks[j] {
                TokenKindView::Number(text) => lemma_args_shift(
                    front,
                    toks,
                    j + 1,
                    acc.push(AstView::Number(text)),
                ),
                TokenKindView::StrLiteral(text) => lemma_args_shift(
                    front,
                    toks,
                    j + 1,
                    acc.push(AstView::StrLiteral(text)),
                ),
                TokenKindView::Ident(name) => lemma_args_shift(
                    front,
                    toks,
                    j + 1,
                    acc.push(AstView::Ident(name)),
                ),
                TokenKindView::Comma => lemma_args_shift(front, toks, j + 1, acc),
                _ => {},
            }
        }
    }
}

/// A call expression does not depend on the tokens before it.
pub proof fn lemma_call_shift(front: Seq<TokenKindView>, toks: Seq<TokenKindView>, start: int)
    requires
        0 <= start < toks.len(),
    ensures
        parse_call_expr_spec(front + toks, front.len() + start) == shifted(
            parse_call_expr_spec(toks, start),
            front.len() as int,
        ),
    decreases remaining(toks, start), 0int,
{
    assert((front + toks)[front.len() + start] == toks[start]);
    match toks[start] {
        TokenKindView::Ident(_) => lemma_args_shift(front, toks, start + 2, Seq::empty()),
        _ => {},
    }
}

/// The skip after `cast` does not depend on the tokens before it.
pub proof fn lemma_cast_skip_shift(
    front: Seq<TokenKindView>,
    toks: Seq<TokenKindView>,
    j: int,
    depth: nat,
)
    requires
        0 <= j,
    ensures
        cast_skip_end(front + toks, front.len() + j, depth) == front.len() + cast_skip_end(
            toks,
            j,
            depth,
        ),
    decreases remaining(toks, j),
{
    if j < toks.len() {
        assert((front + toks)[front.len() + j] == toks[j]);
        match toks[j] {
            TokenKindView::LBrace => lemma_cast_skip_shift(front, toks, j + 1, depth + 1),
            TokenKindView::RBrace => {
                if depth != 0 {
                    lemma_cast_skip_shift(front, toks, j + 1, (depth - 1) as nat);
                }
            },
            _ => lemma_cast_skip_shift(front, toks, j + 1, depth),
        }
    }
}

/// The statements from a position on do not depend on the tokens before it:
/// parsing a sequence from the end of its front part on is parsing the rest
/// alone.
pub proof fn lemma_stmts_shift(
    front: Seq<TokenKindView>,
    toks: Seq<TokenKindView>,
    i: int,
    acc: Seq<AstView>,
)
    requires
        0 <= i,
    ensures
        parse_stmts_spec(front + toks, front.len() + i, acc) == parse_stmts_spec(toks, i, acc),
    decreases remaining(toks, i),
{
    let all = front + toks;
    let k = front.len() as int;
    if i < toks.len() {
        assert(all[k + i] == toks[i]);
        if i + 1 < toks.len() {
            assert(all[k + i + 1] == toks[i + 1]);
        }
        assert(opens_call(all, k + i) == opens_call(toks, i));
        if toks[i] is Cast {
            lemma_cast_skip_shift(front, toks, i + 1, 0);
            lemma_cast_skip_end(toks, i + 1, 0);
            lemma_stmts_shift(front, toks, cast_skip_end(toks, i + 1, 0), acc);
        } else if toks[i] is Let {
            lemma_let_end(toks, i);
            if i + 3 < toks.len() {
                assert(all[k + i + 1] == toks[i + 1]);
                assert(all[k + i + 2] == toks[i + 2]);
                assert(all[k + i + 3] == toks[i + 3]);
                if i + 4 < toks.len() {
                    assert(all[k + i + 4] == toks[i + 4]);
                }
                assert(opens_call(all, k + i + 3) == opens_call(toks, i + 3));
                lemma_call_shift(front, toks, i + 3);
                lemma_call_end(toks, i + 3);
                match parse_rhs_spec(toks, i + 3) {
                    Ok((_, next)) => {
                        if next < toks.len() {
                            assert(all[k + next] == toks[next]);
                        }
                    },
                    Err(_) => {},
                }
                assert(parse_let_spec(all, k + i) == shifted(parse_let_spec(toks, i), k));
            }
            match parse_let_spec(toks, i) {
                Ok((node, next)) => lemma_stmts_shift(front, toks, next, acc.push(node)),
                Err(_) => {},
            }
        } else if opens_call(toks, i) {
            lemma_call_shift(front, toks, i);
            lemma_call_end(toks, i);
            match parse_call_expr_spec(toks, i) {
                Ok((_, next)) => {
                    if next < toks.len() {
                        assert(all[k + next] == toks[next]);
                    }
                },
                Err(_) => {},
            }
            assert(parse_call_stmt_spec(all, k + i) == shifted(parse_call_stmt_spec(toks, i), k));
            match parse_call_stmt_spec(toks, i) {
                Ok((node, next)) => lemma_stmts_shift(front, toks, next, acc.push(node)),
                Err(_) => {},
            }
        } else {
            lemma_stmts_shift(front, toks, i + 1, acc.push(AstView::Noop));
        }
    }
}

/// An argument list that ends inside a token sequence does not depend on
/// what follows the sequence.
proof fn lemma_args_extend(
    toks: Seq<TokenKindView>,
    back: Seq<TokenKindView>,
    j: int,
    acc: Seq<AstView>,
)
    requires
        0 <= j,
        parse_args_spec(toks, j, acc) matches Ok((_, next)) && next < toks.len(),
    ensures
        parse_args_spec(toks + back, j, acc) == parse_args_spec(toks, j, acc),
    decreases remaining(toks, j), 1int,
{
    let all = toks + back;
    if j < toks.len() {
        assert(all[j] == toks[j]);
        if j + 1 < toks.len() {
            assert(all[j + 1] == toks[j + 1]);
        }
        if opens_call(toks, j) {
            assert(opens_call(all, j));
            match parse_call_expr_spec(toks, j) {
                Ok((node, next)) => {
                    if next > j {
                        lemma_args_end(toks, next, acc.push(node));
                        lemma_call_extend(toks, back, j);
                        lemma_args_extend(toks, back, next, acc.push(node));
                    } else {
                        lemma_call_extend(toks, back, j);
                    }
                },
                Err(_) => {},
            }
        } else {
            match toks[j] {
                TokenKindView::Number(text) => {
                    assert(!opens_call(all, j));
                    lemma_args_extend(toks, back, j + 1, acc.push(AstView::Number(text)));
                },
                TokenKindView::StrLiteral(text) => {
                    assert(!opens_call(all, j));
                    lemma_args_extend(toks, back, j + 1, acc.push(AstView::StrLiteral(text)));
                },
                TokenKindView::Ident(name) => {
                    lemma_args_end(toks, j + 1, acc.push(AstView::Ident(name)));
                    assert(j + 1 < toks.len());
                    assert(!opens_call(all, j));
                    lemma_args_extend(toks, back, j + 1, acc.push(AstView::Ident(name)));
                },
                TokenKindView::Comma => {
                    assert(!opens_call(all, j));
                    lemma_args_extend(toks, back, j + 1, acc);
                },
                _ => {
                    assert(!opens_call(all, j));
                },
            }
        }
    }
}

/// A call expression that ends inside a token sequence does not depend on
/// what follows the sequence.
proof fn lemma_call_extend(toks: Seq<TokenKindView>, back: Seq<TokenKindView>, start: int)
    requires
        0 <= start,
        parse_call_expr_spec(toks, start) matches Ok((_, next)) && next < toks.len(),
    ensures
        parse_call_expr_spec(toks + back, start) == parse_call_expr_spec(toks, start),
    decreases remaining(toks, start), 0int,
{
    if start < toks.len() {
        assert((toks + back)[start] == toks[start]);
        match toks[start] {
            TokenKindView::Ident(_) => lemma_args_extend(toks, back, start + 2, Seq::empty()),
            _ => {},
        }
    }
}

/// Whether a token sequence is a closed unit: it is not empty, ends in `;`
/// and holds no `cast`.
pub open spec fn closed_unit(toks: Seq<TokenKindView>) -> bool {
    &&& toks.len() > 0
    &&& toks[toks.len() - 1] is Semi
    &&& forall|k: int| 0 <= k < toks.len() ==> !((#[trigger] toks[k]) is Cast)
}

/// The statements of a closed unit that parses do not depend on what follows
/// the unit: parsing the longer sequence arrives at the end of the unit with
/// the statements of the unit.
proof fn lemma_stmts_extend(
    toks: Seq<TokenKindView>,
    back: Seq<TokenKindView>,
    i: int,
    acc: Seq<AstView>,
)
    requires
        0 <= i <= toks.len(),
        closed_unit(toks),
        parse_stmts_spec(toks, i, acc) is Ok,
    ensures
        parse_stmts_spec(toks + back, i, acc) == parse_stmts_spec(
            toks + back,
            toks.len() as int,
            parse_stmts_spec(toks, i, acc)->Ok_0,
        ),
    decreases remaining(toks, i),
{
    let all = toks + back;
    let n = toks.len() as int;
    if i < n {
        assert(all[i] == toks[i]);
        assert(!(toks[i] is Cast));
        if i + 1 < n {
            assert(all[i + 1] == toks[i + 1]);
        }
        assert(opens_call(all, i) == opens_call(toks, i));
        if toks[i] is Let {
            lemma_let_end(toks, i);
            match parse_let_spec(toks, i) {
                Ok((node, next)) => {
                    assert(all[i + 1] == toks[i + 1]);
                    assert(all[i + 2] == toks[i + 2]);
                    assert(all[i + 3] == toks[i + 3]);
                    if i + 4 < n {
                        assert(all[i + 4] == toks[i + 4]);
                    }
                    assert(opens_call(all, i + 3) == opens_call(toks, i + 3));
                    match parse_rhs_spec(toks, i + 3) {
                        Ok((_, end)) => {
                            assert(all[end] == toks[end]);
                            if opens_call(toks, i + 3) {
                                lemma_call_extend(toks, back, i + 3);
                            }
                        },
                        Err(_) => {},
                    }
                    assert(parse_let_spec(all, i) == parse_let_spec(toks, i));
                    lemma_stmts_extend(toks, back, next, acc.push(node));
                },
                Err(_) => {},
            }
        } else if opens_call(toks, i) {
            lemma_call_end(toks, i);
            match parse_call_stmt_spec(toks, i) {
                Ok((node, next)) => {
                    assert(all[next - 1] == toks[next - 1]);
                    lemma_call_extend(toks, back, i);
                    assert(parse_call_stmt_spec(all, i) == parse_call_stmt_spec(toks, i));
                    lemma_stmts_extend(toks, back, next, acc.push(node));
                },
                Err(_) => {},
            }
        } else {
            lemma_stmts_extend(toks, back, i + 1, acc.push(AstView::Noop));
        }
    }
}

/// Statements already read stay in front of those read after them.
proof fn lemma_stmts_prepend(
    toks: Seq<TokenKindView>,
    i: int,
    front: Seq<AstView>,
    acc: Seq<AstView>,
)
    ensures
        parse_stmts_spec(toks, i, front + acc) == match parse_stmts_spec(toks, i, acc) {
            Ok(stmts) => Ok(front + stmts),
            Err(e) => Err(e),
        },
    decreases remaining(toks, i),
{
    if i < 0 || i >= toks.len() {
    } else if toks[i] is Cast {
        lemma_cast_skip_end(toks, i + 1, 0);
        lemma_stmts_prepend(toks, cast_skip_end(toks, i + 1, 0), front, acc);
    } else if toks[i] is Let {
        lemma_let_end(toks, i);
        match parse_let_spec(toks, i) {
            Ok((node, next)) => {
                assert((front + acc).push(node) =~= front + acc.push(node));
                lemma_stmts_prepend(toks, next, front, acc.push(node));
            },
            Err(_) => {},
        }
    } else if opens_call(toks, i) {
        lemma_call_end(toks, i);
        match parse_call_stmt_spec(toks, i) {
            Ok((node, next)) => {
                assert((front + acc).push(node) =~= front + acc.push(node));
                lemma_stmts_prepend(toks, next, front, acc.push(node));
            },
            Err(_) => {},
        }
    } else {
        assert((front + acc).push(AstView::Noop) =~= front + acc.push(AstView::Noop));
        lemma_stmts_prepend(toks, i + 1, front, acc.push(AstView::Noop));
    }
}

/// Units put one behind the other parse as the units in a row: where a
/// closed unit and what follows it both parse, the two together parse to
/// the statements of the unit followed by the statements of the rest. No
/// mark is needed between them.
pub proof fn lemma_parse_concat(unit: Seq<TokenKindView>, rest: Seq<TokenKindView>)
    requires
        closed_unit(unit),
        parse_spec(unit) is Ok,
        parse_spec(rest) is Ok,
    ensures
        parse_spec(unit + rest) == Ok::<Seq<AstView>, ErrorView>(
            parse_spec(unit)->Ok_0 + parse_spec(rest)->Ok_0,
        ),
{
    let first = parse_spec(unit)->Ok_0;
    lemma_stmts_extend(unit, rest, 0, Seq::empty());
    lemma_stmts_shift(unit, rest, 0, first);
    lemma_stmts_prepend(rest, 0, first, Seq::empty());
    assert(first + Seq::<AstView>::empty() =~= first);
}

/// The arguments of a parsed argument list can stand among arguments.
pub proof fn lemma_args_shape(toks: Seq<TokenKindView>, j: int, acc: Seq<AstView>)
    requires
        all_arguments(acc),
    ensures
        parse_args_spec(toks, j, acc) matches Ok((args, _)) ==> all_arguments(args),
    decreases remaining(toks, j), 1int,
{
    if j < 0 || j >= toks.len() {
    } else if opens_call(toks, j) {
        lemma_call_shape(toks, j);
        match parse_call_expr_spec(toks, j) {
            Ok((node, next)) => {
                if next > j {
                    lemma_args_shape(toks, next, acc.push(node));
                }
            },
            Err(_) => {},
        }
    } else {
        match toks[j] {
            TokenKindView::Number(text) => lemma_args_shape(
                toks,
                j + 1,
                acc.push(AstView::Number(text)),
            ),
            TokenKindView::StrLiteral(text) => lemma_args_shape(
                toks,
                j + 1,
                acc.push(AstView::StrLiteral(text)),
            ),
            TokenKindView::Ident(name) => lemma_args_shape(
                toks,
                j + 1,
                acc.push(AstView::Ident(name)),
            ),
            TokenKindView::Comma => lemma_args_shape(toks, j + 1, acc),
            _ => {},
        }
    }
}

/// A parsed call expression is a call whose arguments are numbers, string
/// literals, names and such calls.
pub proof fn lemma_call_shape(toks: Seq<TokenKindView>, start: int)
    ensures
        parse_call_expr_spec(toks, start) matches Ok((node, _)) ==> node is Call
            && node.is_argument(),
    decreases remaining(toks, start), 0int,
{
    if 0 <= start < toks.len() {
        match toks[start] {
            TokenKindView::Ident(_) => lemma_args_shape(toks, start + 2, Seq::empty()),
            _ => {},
        }
    }
}

/// The statements read from a position on can stand at the top level.
pub proof fn lemma_stmts_shape(toks: Seq<TokenKindView>, i: int, acc: Seq<AstView>)
    requires
        all_statements(acc),
    ensures
        parse_stmts_spec(toks, i, acc) matches Ok(stmts) ==> all_statements(stmts),
    decreases remaining(toks, i),
{
    if i < 0 || i >= toks.len() {
    } else if toks[i] is Cast {
        lemma_cast_skip_end(toks, i + 1, 0);
        lemma_stmts_shape(toks, cast_skip_end(toks, i + 1, 0), acc);
    } else if toks[i] is Let {
        lemma_let_end(toks, i);
        lemma_call_shape(toks, i + 3);
        match parse_let_spec(toks, i) {
            Ok((node, next)) => {
                assert(node.is_statement());
                lemma_stmts_shape(toks, next, acc.push(node));
            },
            Err(_) => {},
        }
    } else if opens_call(toks, i) {
        lemma_call_end(toks, i);
        lemma_call_shape(toks, i);
        match parse_call_stmt_spec(toks, i) {
            Ok((node, next)) => {
                assert(node.is_statement());
                lemma_stmts_shape(toks, next, acc.push(node));
            },
            Err(_) => {},
        }
    } else {
        lemma_stmts_shape(toks, i + 1, acc.push(AstView::Noop));
    }
}

/// The shape of a parsed program: every statement is a binding, a call or a
/// no-op; a binding holds a number, a string literal or a call; and the
/// arguments of every call, at any depth, are numbers, string literals,
/// names and calls.
pub proof fn lemma_parse_shape(toks: Seq<TokenKindView>)
    ensures
        parse_spec(toks) matches Ok(stmts) ==> all_statements(stmts),
{
    lemma_stmts_shape(toks, 0, Seq::empty());
}

/// The nesting depth of braces before position `k`: one up for each `{`, one
/// down for each `}`.
pub open spec fn brace_depth(toks: Seq<TokenKindView>, k: int) -> int
    decreases k,
{
    if k <= 0 {
        0
    } else {
        brace_depth(toks, k - 1) + match toks[k - 1] {
            TokenKindView::LBrace => 1int,
            TokenKindView::RBrace => -1int,
            _ => 0int,
        }
    }
}

/// Whether every `}` of the sequence closes a `{` of the sequence opened
/// before it.
pub open spec fn braces_stay_open(toks: Seq<TokenKindView>) -> bool {
    forall|k: int| 0 <= k < toks.len() && toks[k] is RBrace ==> brace_depth(toks, k) > 0
}

/// Where every `}` closes an earlier `{`, the depth is never negative.
pub proof fn lemma_depth_not_negative(toks: Seq<TokenKindView>, k: int)
    requires
        braces_stay_open(toks),
        0 <= k <= toks.len(),
    ensures
        0 <= brace_depth(toks, k),
    decreases k,
{
    if k > 0 {
        lemma_depth_not_negative(toks, k - 1);
    }
}

/// Inside a body in which every `}` closes an earlier `{`, the skip after
/// `cast` runs on to the end of the body.
proof fn lemma_skip_runs_through(
    front: Seq<TokenKindView>,
    body: Seq<TokenKindView>,
    back: Seq<TokenKindView>,
    k: int,
)
    requires
        braces_stay_open(body),
        0 <= k <= body.len(),
    ensures
        0 <= brace_depth(body, k),
        0 <= brace_depth(body, body.len() as int),
        cast_skip_end(front + body + back, front.len() + k, brace_depth(body, k) as nat)
            == cast_skip_end(
            front + body + back,
            (front.len() + body.len()) as int,
            brace_depth(body, body.len() as int) as nat,
        ),
    decreases body.len() - k,
{
    lemma_depth_not_negative(body, k);
    lemma_depth_not_negative(body, body.len() as int);
    if k < body.len() {
        let all = front + body + back;
        assert(all[front.len() + k] == body[k]);
        lemma_depth_not_negative(body, k + 1);
        lemma_skip_runs_through(front, body, back, k + 1);
    }
}

/// A `cast` block that is never closed is skipped to the end of the input:
/// where every `}` after the keyword closes a `{` after the keyword, the
/// keyword and all that follows it yield no statement, whatever the tokens
/// are.
pub proof fn lemma_cast_skips_to_end(body: Seq<TokenKindView>)
    requires
        braces_stay_open(body),
    ensures
        parse_spec(seq![TokenKindView::Cast] + body) == Ok::<Seq<AstView>, ErrorView>(
            Seq::empty(),
        ),
{
    let front = seq![TokenKindView::Cast];
    let back = Seq::<TokenKindView>::empty();
    let all = front + body;
    assert(all =~= front + body + back);
    assert(all[0] is Cast);
    lemma_skip_runs_through(front, body, back, 0);
    assert(cast_skip_end(all, 1, 0) == all.len());
    assert(parse_stmts_spec(all, all.len() as int, Seq::empty()) == Ok::<
        Seq<AstView>,
        ErrorView,
    >(Seq::empty()));
}

/// A `cast` block is opaque: the keyword, a body in which the braces are
/// balanced, and the `}` that follows the body yield no statement, whatever
/// the tokens of the body are, and parsing goes on with what follows as if
/// the block were not there.
pub proof fn lemma_cast_block_opaque(body: Seq<TokenKindView>, rest: Seq<TokenKindView>)
    requires
        braces_stay_open(body),
        brace_depth(body, body.len() as int) == 0,
    ensures
        parse_spec(seq![TokenKindView::Cast] + body + seq![TokenKindView::RBrace] + rest)
            == parse_spec(rest),
{
    let front = seq![TokenKindView::Cast];
    let back = seq![TokenKindView::RBrace] + rest;
    let all = front + body + seq![TokenKindView::RBrace] + rest;
    assert(all =~= front + body + back);
    assert(all[0] is Cast);
    lemma_skip_runs_through(front, body, back, 0);
    let close = 1 + body.len() as int;
    assert(all[close] == back[0]);
    assert(cast_skip_end(all, close, 0) == close + 1);
    assert(cast_skip_end(all, 1, 0) == close + 1);
    let skipped = front + body + seq![TokenKindView::RBrace];
    assert(all =~= skipped + rest);
    lemma_stmts_shift(skipped, rest, 0, Seq::empty());
}

/// The content of the result of parsing one expression or statement.
pub open spec fn parsed_view(r: Result<(AstNode, usize), CompileError>) -> Result<
    (AstView, int),
    ErrorView,
> {
    match r {
        Ok((node, next)) => Ok((node@, next as int)),
        Err(e) => Err(e@),
    }
}

/// The content of the result of parsing a program.
pub open spec fn program_view(r: Result<Vec<AstNode>, CompileError>) -> Result<
    Seq<AstView>,
    ErrorView,
> {
    match r {
        Ok(nodes) => Ok(nodes_view(nodes@)),
        Err(e) => Err(e@),
    }
}

fn parse_error(text: &str) -> (e: CompileError)
    ensures
        e@ == ErrorView::ParseError(text@),
{
    CompileError::ParseError(String::from_str(text))
}

fn is_lparen(kind: &TokenKind) -> (b: bool)
    ensures
        b == (kind@ is LParen),
{
    match kind {
        TokenKind::LParen => true,
        _ => false,
    }
}

fn is_semi(kind: &TokenKind) -> (b: bool)
    ensures
        b == (kind@ is Semi),
{
    match kind {
        TokenKind::Semi => true,
        _ => false,
    }
}

fn is_eq(kind: &TokenKind) -> (b: bool)
    ensures
        b == (kind@ is Eq),
{
    match kind {
        TokenKind::Eq => true,
        _ => false,
    }
}

/// Whether an identifier directly followed by `(` stands at `j`.
fn call_opens_at(tokens: &Vec<Token>, j: usize) -> (b: bool)
    requires
        j < tokens.len(),
    ensures
        b == opens_call(kinds(tokens@), j as int),
{
    match &tokens[j].0 {
        TokenKind::Ident(_) => tokens.len() - j > 1 && is_lparen(&tokens[j + 1].0),
        _ => false,
    }
}

/// Parses the call expression whose name stands at `start`. A call among
/// the arguments is parsed by a call of this function, so the recursion is
/// as deep as the calls are nested.
fn parse_call_expr(tokens: &Vec<Token>, start: usize) -> (result: Result<
    (AstNode, usize),
    CompileError,
>)
    requires
        start + 2 <= tokens.len(),
    ensures
        parsed_view(result) == parse_call_expr_spec(kinds(tokens@), start as int),
        result matches Ok((_, next)) ==> start + 2 <= next <= tokens.len(),
    decreases tokens.len() - start,
{
    let ghost toks = kinds(tokens@);
    let func_name = match &tokens[start].0 {
        TokenKind::Ident(name) => name.clone(),
        _ => {
            return Err(parse_error("Invalid call syntax"));
        },
    };
    let mut args: Vec<AstNode> = Vec::new();
    let mut j: usize = start + 2;
    assert(nodes_view(args@) =~= Seq::empty());
    while j < tokens.len()
        invariant
            toks == kinds(tokens@),
            start + 2 <= j <= tokens.len(),
            toks[start as int] == TokenKindView::Ident(func_name@),
            parse_args_spec(toks, start + 2, Seq::empty()) == parse_args_spec(
                toks,
                j as int,
                nodes_view(args@),
            ),
        decreases tokens.len() - j,
    {
        let ghost before = nodes_view(args@);
        if call_opens_at(tokens, j) {
            match parse_call_expr(tokens, j) {
                Ok((nested, next_j)) => {
                    args.push(nested);
                    assert(nodes_view(args@) =~= before.push(nested@));
                    j = next_j;
                },
                Err(e) => {
                    return Err(e);
                },
            }
        } else {
            match &tokens[j].0 {
                TokenKind::Number(text) => {
                    args.push(AstNode::Number(text.clone()));
                    assert(nodes_view(args@) =~= before.push(AstView::Number(text@)));
                    j += 1;
                },
                TokenKind::StrLiteral(text) => {
                    args.push(AstNode::StrLiteral(text.clone()));
                    assert(nodes_view(args@) =~= before.push(AstView::StrLiteral(text@)));
                    j += 1;
                },
                TokenKind::Ident(name) => {
                    args.push(AstNode::Ident(name.clone()));
                    assert(nodes_view(args@) =~= before.push(AstView::Ident(name@)));
                    j += 1;
                },
                TokenKind::Comma => {
                    j += 1;
                },
                TokenKind::RParen => {
                    return Ok((AstNode::Call { func: func_name, args }, j + 1));
                },
                other => {
                    let mut text = String::from_str("Invalid call argument: ");
                    text.append(other.variant_name());
                    return Err(CompileError::ParseError(text));
                },
            }
        }
    }
    Ok((AstNode::Call { func: func_name, args }, j))
}

/// Parses the call statement that starts at `start`.
fn parse_call(tokens: &Vec<Token>, start: usize) -> (result: Result<(AstNode, usize), CompileError>)
    requires
        start + 2 <= tokens.len(),
    ensures
        parsed_view(result) == parse_call_stmt_spec(kinds(tokens@), start as int),
        result matches Ok((_, next)) ==> start < next <= tokens.len(),
{
    match parse_call_expr(tokens, start) {
        Ok((node, j)) => {
            if j >= tokens.len() || !is_semi(&tokens[j].0) {
                return Err(parse_error("Missing ';' after call"));
            }
            Ok((node, j + 1))
        },
        Err(e) => Err(e),
    }
}

/// Parses the binding whose keyword stands at `i`.
fn parse_let(tokens: &Vec<Token>, i: usize) -> (result: Result<(AstNode, usize), CompileError>)
    requires
        i < tokens.len(),
    ensures
        parsed_view(result) == parse_let_spec(kinds(tokens@), i as int),
        result matches Ok((_, next)) ==> i < next <= tokens.len(),
{
    if tokens.len() - i <= 3 {
        return Err(parse_error("Incomplete let"));
    }
    let name = match &tokens[i + 1].0 {
        TokenKind::Ident(name) => name.clone(),
        _ => {
            return Err(parse_error("Expected identifier"));
        },
    };
    if !is_eq(&tokens[i + 2].0) {
        return Err(parse_error("Expected '='"));
    }
    let parsed = if call_opens_at(tokens, i + 3) {
        parse_call_expr(tokens, i + 3)
    } else {
        match &tokens[i + 3].0 {
            TokenKind::Number(text) => Ok((AstNode::Number(text.clone()), i + 4)),
            TokenKind::StrLiteral(text) => Ok((AstNode::StrLiteral(text.clone()), i + 4)),
            _ => Err(parse_error("Expected literal or call")),
        }
    };
    assert(parsed_view(parsed) == parse_rhs_spec(kinds(tokens@), i + 3));
    match parsed {
        Ok((expr, next)) => {
            if next >= tokens.len() || !is_semi(&tokens[next].0) {
                return Err(parse_error("Missing ';' in let"));
            }
            Ok((AstNode::Let { name, expr: Box::new(expr) }, next + 1))
        },
        Err(e) => Err(e),
    }
}

/// Passes over the tokens that follow the keyword `cast`, from `start` on.
fn skip_cast(tokens: &Vec<Token>, start: usize) -> (end: usize)
    requires
        start <= tokens.len(),
    ensures
        end == cast_skip_end(kinds(tokens@), start as int, 0),
        start <= end <= tokens.len(),
{
    let ghost toks = kinds(tokens@);
    let mut j: usize = start;
    let mut depth: usize = 0;
    while j < tokens.len()
        invariant
            toks == kinds(tokens@),
            start <= j <= tokens.len(),
            depth <= j - start,
            cast_skip_end(toks, start as int, 0) == cast_skip_end(toks, j as int, depth as nat),
        decreases tokens.len() - j,
    {
        match &tokens[j].0 {
            TokenKind::LBrace => {
                depth += 1;
            },
            TokenKind::RBrace => {
                if depth == 0 {
                    return j + 1;
                }
                depth -= 1;
            },
            _ => {},
        }
        j += 1;
    }
    j
}

/// Parses a token sequence into its statements, in source order.
///
/// Parsing is total: every token sequence yields either its statements or one
/// failure, and the empty sequence yields no statement.
pub fn parse_tokens(tokens: Vec<Token>) -> (result: Result<Vec<AstNode>, CompileError>)
    ensures
        program_view(result) == parse_spec(kinds(tokens@)),
{
    let ghost toks = kinds(tokens@);
    let mut nodes: Vec<AstNode> = Vec::new();
    let mut i: usize = 0;
    assert(nodes_view(nodes@) =~= Seq::empty());
    while i < tokens.len()
        invariant
            toks == kinds(tokens@),
            i <= tokens.len(),
            parse_spec(toks) == parse_stmts_spec(toks, i as int, nodes_view(nodes@)),
        decreases tokens.len() - i,
    {
        let ghost before = nodes_view(nodes@);
        match &tokens[i].0 {
            TokenKind::Cast => {
                i = skip_cast(&tokens, i + 1);
            },
            TokenKind::Let => {
                match parse_let(&tokens, i) {
                    Ok((node, next)) => {
                        nodes.push(node);
                        assert(nodes_view(nodes@) =~= before.push(node@));
                        i = next;
                    },
                    Err(e) => {
                        return Err(e);
                    },
                }
            },
            _ => {
                if call_opens_at(&tokens, i) {
                    match parse_call(&tokens, i) {
                        Ok((node, next)) => {
                            nodes.push(node);
                            assert(nodes_view(nodes@) =~= before.push(node@));
                            i = next;
                        },
                        Err(e) => {
                            return Err(e);
                        },
                    }
                } else {
                    nodes.push(AstNode::Noop);
                    assert(nodes_view(nodes@) =~= before.push(AstView::Noop));
                    i += 1;
                }
            },
        }
    }
    Ok(nodes)
}

/// Parses a source into its statements, in source order.
pub fn parse(source: &str) -> (result: Result<Vec<AstNode>, CompileError>)
    ensures
        program_view(result) == parse_source_spec(source.spec_bytes()),
{
    let tokens = lex(source);
    assert(kinds(tokens@) =~= view_kinds(token_views(tokens@)));
    parse_tokens(tokens)
}

} // verus!
