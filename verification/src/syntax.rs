//! What checking means: how each production of the grammar reads a token
//! sequence, what it reports when the tokens do not fit, and where it
//! resumes. The parser is proved against this description.
//!
//! A production is a function from a position in the input and the
//! diagnostics registered so far to a `Step`: whether the tokens fit, how
//! many tokens were taken up, recovery included, and the diagnostics
//! registered afterwards. Recovery is panic mode: a production that fails
//! passes over tokens up to the first one of its synchronization set, and
//! the token found there decides whether checking goes on at this level
//! or further up.

use vstd::prelude::*;
use crate::text::diagnostic_text;
use crate::token::{
    end_place, kind_name, mismatch_text, rendered, SyntaxToken, TokenSubType, TokenType,
};

verus! {

/// What the parser reads: the tokens, and the table that their texts are
/// looked up in for diagnostics.
pub struct Input {
    pub items: Seq<SyntaxToken>,
    pub texts: Seq<Seq<char>>,
}

/// What a production did: whether the tokens fit it, how many tokens it
/// took up, recovery included, and the diagnostics registered so far:
/// those that were there when it started, then its own.
pub struct Step {
    pub ok: bool,
    pub used: nat,
    pub said: Seq<Seq<char>>,
}

/// How many tokens are left from position `p` on.
pub open spec fn left(inp: Input, p: nat) -> nat {
    if p <= inp.items.len() {
        (inp.items.len() - p) as nat
    } else {
        0
    }
}

/// Whether a token of the kind `kind` stands at position `p`.
pub open spec fn is_kind(inp: Input, p: nat, kind: TokenType) -> bool {
    p < inp.items.len() && inp.items[p as int].t_type == kind
}

/// Whether a token with the payload `payload` stands at position `p`.
pub open spec fn is_payload(inp: Input, p: nat, payload: TokenSubType) -> bool {
    p < inp.items.len() && inp.items[p as int].t_subtype == payload
}

/// Success over `used` tokens, with nothing new to report.
pub open spec fn pass(used: nat, told: Seq<Seq<char>>) -> Step {
    Step { ok: true, used, said: told }
}

/// Failure that takes up no token and reports nothing.
pub open spec fn fail(told: Seq<Seq<char>>) -> Step {
    Step { ok: false, used: 0, said: told }
}

/// One step after another, where the second started with what the first
/// had reported: both must succeed.
pub open spec fn after(first: Step, second: Step) -> Step {
    Step { ok: first.ok && second.ok, used: first.used + second.used, said: second.said }
}

/// The first step, and the second only if the first succeeded.
pub open spec fn and_then(first: Step, second: Step) -> Step {
    if first.ok {
        after(first, second)
    } else {
        first
    }
}

/// The step `step` behind `count` tokens that were taken up before it.
pub open spec fn took(count: nat, step: Step) -> Step {
    Step { ok: step.ok, used: count + step.used, said: step.said }
}

/// The same step, counted as a failure.
pub open spec fn spoiled(step: Step) -> Step {
    Step { ok: false, used: step.used, said: step.said }
}

/// The same step, counted as a success whatever it reported.
pub open spec fn quiet(step: Step) -> Step {
    Step { ok: true, used: step.used, said: step.said }
}

/// The diagnostic that blames the token at position `at`.
pub open spec fn blame_text(inp: Input, at: nat, message: Seq<char>) -> Seq<char>
    recommends
        at < inp.items.len(),
{
    diagnostic_text(
        inp.items[at as int].line as int,
        inp.items[at as int].pos_at_line as int,
        message,
    )
}

/// The diagnostic that blames the end of the input.
pub open spec fn blame_end_text(inp: Input, message: Seq<char>) -> Seq<char> {
    diagnostic_text(end_place(inp.items).0, end_place(inp.items).1, message)
}

/// The failure that blames the token at position `at`.
pub open spec fn blamed(inp: Input, at: nat, message: Seq<char>, told: Seq<Seq<char>>) -> Step
    recommends
        at < inp.items.len(),
{
    Step { ok: false, used: 0, said: told.push(blame_text(inp, at, message)) }
}

/// The failure that blames the end of the input.
pub open spec fn blamed_end(inp: Input, message: Seq<char>, told: Seq<Seq<char>>) -> Step {
    Step { ok: false, used: 0, said: told.push(blame_end_text(inp, message)) }
}

/// Takes the token at `p` if it is of the kind `kind`; reports what
/// stands there instead if it is not.
pub open spec fn expected(inp: Input, p: nat, kind: TokenType, told: Seq<Seq<char>>) -> Step {
    if is_kind(inp, p, kind) {
        pass(1, told)
    } else {
        Step {
            ok: false,
            used: 0,
            said: told.push(mismatch_text(inp.items, inp.texts, p as int, kind)),
        }
    }
}

/// How many tokens from `p` on stand before the first one whose kind is
/// among `stops`, or before the end of the input.
pub open spec fn skipped(inp: Input, p: nat, stops: Seq<TokenType>) -> nat
    decreases left(inp, p),
{
    if p < inp.items.len() && !stops.contains(inp.items[p as int].t_type) {
        1 + skipped(inp, p + 1, stops)
    } else {
        0
    }
}

/// Panic-mode recovery behind the step `step`, which started at `p`:
/// passes over tokens up to the first one whose kind is among `stops`.
pub open spec fn skip(inp: Input, p: nat, step: Step, stops: Seq<TokenType>) -> Step {
    Step {
        ok: step.ok,
        used: step.used + skipped(inp, p + step.used, stops),
        said: step.said,
    }
}

/// The step `step`, which started at `p`, followed by recovery to `stops`
/// if it failed.
pub open spec fn recovered(inp: Input, p: nat, step: Step, stops: Seq<TokenType>) -> Step {
    if step.ok {
        step
    } else {
        skip(inp, p, step, stops)
    }
}

/// The token at `p` as a diagnostic shows it.
pub open spec fn shown(inp: Input, p: nat) -> Seq<char> {
    rendered(inp.items[p as int], inp.texts)
}

/// What is said of a token that starts no function.
pub open spec fn invalid_start_text(token: Seq<char>) -> Seq<char> {
    "Invalid token "@ + token + ". Expected token "@ + kind_name(TokenType::Fn)
}

/// What is said of `void` where the type of a value is wanted.
pub open spec fn void_text(token: Seq<char>) -> Seq<char> {
    "Invalid type "@ + token + ". Expected the type of a value"@
}

/// What is said of a token that starts no statement.
pub open spec fn statement_start_text(token: Seq<char>) -> Seq<char> {
    "Unexpected token "@ + token + " when expecting start of statement"@
}

/// What is said of a token behind an identifier that makes the identifier neither a call
/// nor an assignment.
pub open spec fn after_identifier_text(token: Seq<char>) -> Seq<char> {
    "Unexpected token "@ + token + ". Expected "@ + kind_name(TokenType::Assign)
        + " for variable assignment or "@ + kind_name(TokenType::LParen) + " for function call"@
}

/// What is said of an identifier at the end of the input.
pub open spec fn lone_identifier_text() -> Seq<char> {
    "Unexpected end-of-line"@
}

/// What is said of a token that starts no expression.
pub open spec fn factor_text(token: Seq<char>) -> Seq<char> {
    "Invalid token "@ + token + ". Expected an expression"@
}

/// What is said where the input ends and an expression is wanted.
pub open spec fn factor_end_text() -> Seq<char> {
    "Unexpected end of file when parsing expression"@
}

/// What is said of a branch behind the `else` block.
pub open spec fn misplaced_branch_text(token: Seq<char>) -> Seq<char> {
    "Unexpected token "@ + token + ". An if statement ends with its else block"@
}

/// What is said of a condition behind `else`.
pub open spec fn else_condition_text(token: Seq<char>) -> Seq<char> {
    "Unexpected token "@ + token + ". An else block takes no condition"@
}

/// What is said of an input without a function.
pub open spec fn no_function_text() -> Seq<char> {
    "Expected token of type "@ + kind_name(TokenType::Fn) + ". Instead found end-of-file"@
}

// Synchronization sets: the kinds of token at which a production resumes.

/// Where checking resumes behind a token that starts no function.
pub open spec fn function_stops() -> Seq<TokenType> {
    seq![TokenType::Fn]
}

/// Where checking resumes behind a declaration that failed.
pub open spec fn body_stops() -> Seq<TokenType> {
    seq![TokenType::LBrace, TokenType::Fn]
}

/// Where checking resumes behind a missing function name.
pub open spec fn name_stops() -> Seq<TokenType> {
    seq![TokenType::Fn, TokenType::LBrace, TokenType::LParen]
}

/// Where checking resumes behind a missing opening parenthesis.
pub open spec fn open_stops() -> Seq<TokenType> {
    seq![TokenType::Fn, TokenType::LBrace, TokenType::RParen, TokenType::Identifier]
}

/// Where checking resumes behind a list of parameters that failed.
pub open spec fn close_stops() -> Seq<TokenType> {
    seq![TokenType::Fn, TokenType::LBrace, TokenType::RParen]
}

/// Where checking resumes behind a missing closing parenthesis.
pub open spec fn result_stops() -> Seq<TokenType> {
    seq![TokenType::Fn, TokenType::LBrace, TokenType::Colon]
}

/// Where checking resumes behind a parameter that failed.
pub open spec fn parameter_stops() -> Seq<TokenType> {
    seq![TokenType::Fn, TokenType::Comma, TokenType::RParen, TokenType::LBrace]
}

/// Where checking resumes behind a missing opening brace.
pub open spec fn block_stops() -> Seq<TokenType> {
    seq![TokenType::RBrace]
}

/// Where checking resumes behind a statement that failed.
pub open spec fn statement_stops() -> Seq<TokenType> {
    seq![TokenType::RBrace, TokenType::SemiColon, TokenType::Fn]
}

/// Where checking resumes inside a statement.
pub open spec fn line_stops() -> Seq<TokenType> {
    seq![TokenType::RBrace, TokenType::SemiColon]
}

/// Where checking resumes behind a call that failed.
pub open spec fn call_stops() -> Seq<TokenType> {
    seq![TokenType::SemiColon]
}

/// Where checking resumes behind an assignment that failed.
pub open spec fn assignment_stops() -> Seq<TokenType> {
    seq![TokenType::SemiColon, TokenType::LBrace, TokenType::RBrace, TokenType::Fn]
}

/// Where checking resumes behind an argument that failed.
pub open spec fn argument_stops() -> Seq<TokenType> {
    seq![
        TokenType::SemiColon,
        TokenType::Comma,
        TokenType::RBrace,
        TokenType::LBrace,
        TokenType::Fn,
    ]
}

/// Where checking resumes behind a parenthesis missing from a `for` loop.
pub open spec fn loop_stops() -> Seq<TokenType> {
    seq![TokenType::LBrace, TokenType::SemiColon, TokenType::Fn]
}

/// Where checking resumes behind a condition that failed.
pub open spec fn condition_stops() -> Seq<TokenType> {
    seq![
        TokenType::RParen,
        TokenType::LBrace,
        TokenType::RBrace,
        TokenType::SemiColon,
        TokenType::Fn,
    ]
}

/// Where checking resumes behind a condition that stands behind `else`.
pub open spec fn branch_stops() -> Seq<TokenType> {
    seq![TokenType::LBrace, TokenType::RBrace, TokenType::SemiColon, TokenType::Fn]
}

// Expressions. Each level of precedence is a production of its own, and
// the operators of a level associate to the left.

/// Expression = Relational (`==` Relational)*
#[verifier::opaque]
pub open spec fn expression_step(inp: Input, p: nat, told: Seq<Seq<char>>) -> Step
    decreases left(inp, p), 9nat,
{
    let first = expression_2_step(inp, p, told);
    if first.ok {
        after(first, equality_tail_step(inp, p + first.used, first.said))
    } else {
        first
    }
}

/// Whether `==` stands at `p`.
pub open spec fn is_equality_operator(inp: Input, p: nat) -> bool {
    is_kind(inp, p, TokenType::CompOp) && is_payload(inp, p, TokenSubType::Equals)
}

/// (`==` Relational)*
#[verifier::opaque]
pub open spec fn equality_tail_step(inp: Input, p: nat, told: Seq<Seq<char>>) -> Step
    decreases left(inp, p), 8nat,
{
    if is_equality_operator(inp, p) {
        let operand = expression_2_step(inp, p + 1, told);
        if operand.ok {
            took(1, after(operand, equality_tail_step(inp, p + 1 + operand.used, operand.said)))
        } else {
            took(1, operand)
        }
    } else {
        pass(0, told)
    }
}

/// Relational = Additive ((`<` | `>` | `<=` | `>=`) Additive)*
#[verifier::opaque]
pub open spec fn expression_2_step(inp: Input, p: nat, told: Seq<Seq<char>>) -> Step
    decreases left(inp, p), 7nat,
{
    let first = expression_3_step(inp, p, told);
    if first.ok {
        after(first, less_more_tail_step(inp, p + first.used, first.said))
    } else {
        first
    }
}

/// Whether an order comparison stands at `p`.
pub open spec fn is_order_operator(inp: Input, p: nat) -> bool {
    is_kind(inp, p, TokenType::CompOp) && (is_payload(inp, p, TokenSubType::Lesser) || is_payload(
        inp,
        p,
        TokenSubType::Greater,
    ) || is_payload(inp, p, TokenSubType::GreaterOrEq) || is_payload(
        inp,
        p,
        TokenSubType::LesserOrEq,
    ))
}

/// ((`<` | `>` | `<=` | `>=`) Additive)*
#[verifier::opaque]
pub open spec fn less_more_tail_step(inp: Input, p: nat, told: Seq<Seq<char>>) -> Step
    decreases left(inp, p), 6nat,
{
    if is_order_operator(inp, p) {
        let operand = expression_3_step(inp, p + 1, told);
        if operand.ok {
            took(1, after(operand, less_more_tail_step(inp, p + 1 + operand.used, operand.said)))
        } else {
            took(1, operand)
        }
    } else {
        pass(0, told)
    }
}

/// Additive = Term ((`+` | `-`) Term)*
#[verifier::opaque]
pub open spec fn expression_3_step(inp: Input, p: nat, told: Seq<Seq<char>>) -> Step
    decreases left(inp, p), 5nat,
{
    let first = term_step(inp, p, told);
    if first.ok {
        after(first, plus_minus_tail_step(inp, p + first.used, first.said))
    } else {
        first
    }
}

/// Whether a sign stands at `p`.
pub open spec fn is_sign(inp: Input, p: nat) -> bool {
    is_payload(inp, p, TokenSubType::Plus) || is_payload(inp, p, TokenSubType::Minus)
}

/// ((`+` | `-`) Term)*
#[verifier::opaque]
pub open spec fn plus_minus_tail_step(inp: Input, p: nat, told: Seq<Seq<char>>) -> Step
    decreases left(inp, p), 4nat,
{
    if is_sign(inp, p) {
        let operand = term_step(inp, p + 1, told);
        if operand.ok {
            took(1, after(operand, plus_minus_tail_step(inp, p + 1 + operand.used, operand.said)))
        } else {
            took(1, operand)
        }
    } else {
        pass(0, told)
    }
}

/// Term = Factor ((`*` | `/`) Factor)*
#[verifier::opaque]
pub open spec fn term_step(inp: Input, p: nat, told: Seq<Seq<char>>) -> Step
    decreases left(inp, p), 3nat,
{
    let first = factor_step(inp, p, told);
    if first.ok {
        after(first, mult_div_tail_step(inp, p + first.used, first.said))
    } else {
        first
    }
}

/// Whether `*` or `/` stands at `p`.
pub open spec fn is_scaling(inp: Input, p: nat) -> bool {
    is_payload(inp, p, TokenSubType::Multiply) || is_payload(inp, p, TokenSubType::Divide)
}

/// ((`*` | `/`) Factor)*
#[verifier::opaque]
pub open spec fn mult_div_tail_step(inp: Input, p: nat, told: Seq<Seq<char>>) -> Step
    decreases left(inp, p), 2nat,
{
    if is_scaling(inp, p) {
        let operand = factor_step(inp, p + 1, told);
        if operand.ok {
            took(1, after(operand, mult_div_tail_step(inp, p + 1 + operand.used, operand.said)))
        } else {
            took(1, operand)
        }
    } else {
        pass(0, told)
    }
}

/// Whether a token that is an expression by itself stands at `p`.
pub open spec fn is_atom(inp: Input, p: nat) -> bool {
    is_kind(inp, p, TokenType::Identifier) || is_kind(inp, p, TokenType::Number) || is_kind(
        inp,
        p,
        TokenType::Text,
    ) || is_kind(inp, p, TokenType::Boolean)
}

/// Factor = Identifier | Number | Text | Boolean | `(` Expression `)`
/// | (`+` | `-`) Number
#[verifier::opaque]
pub open spec fn factor_step(inp: Input, p: nat, told: Seq<Seq<char>>) -> Step
    decreases left(inp, p), 1nat,
{
    if p >= inp.items.len() {
        blamed_end(inp, factor_end_text(), told)
    } else if is_kind(inp, p, TokenType::ArithOp) {
        if is_sign(inp, p) && is_kind(inp, p + 1, TokenType::Number) {
            pass(2, told)
        } else {
            took(1, blamed(inp, p, factor_text(shown(inp, p)), told))
        }
    } else if is_atom(inp, p) {
        pass(1, told)
    } else if is_kind(inp, p, TokenType::LParen) {
        let inner = expression_step(inp, p + 1, told);
        took(
            1,
            after(quiet(inner), expected(inp, p + 1 + inner.used, TokenType::RParen, inner.said)),
        )
    } else {
        blamed(inp, p, factor_text(shown(inp, p)), told)
    }
}

// Function declarations.

/// ValueType: any type but `void`.
#[verifier::opaque]
pub open spec fn value_type_step(inp: Input, p: nat, told: Seq<Seq<char>>) -> Step {
    if is_kind(inp, p, TokenType::VarType) && is_payload(inp, p, TokenSubType::VoidType) {
        took(1, blamed(inp, p, void_text(shown(inp, p)), told))
    } else {
        expected(inp, p, TokenType::VarType, told)
    }
}

/// Param = Identifier `:` ValueType
#[verifier::opaque]
pub open spec fn parameter_step(inp: Input, p: nat, told: Seq<Seq<char>>) -> Step {
    let name = expected(inp, p, TokenType::Identifier, told);
    let colon = expected(inp, p + 1, TokenType::Colon, name.said);
    and_then(name, and_then(colon, value_type_step(inp, p + 2, colon.said)))
}

/// (`,` Param)*, up to the closing parenthesis.
#[verifier::opaque]
pub open spec fn more_parameters_step(inp: Input, p: nat, told: Seq<Seq<char>>) -> Step
    decreases left(inp, p),
{
    if is_kind(inp, p, TokenType::RParen) {
        pass(0, told)
    } else {
        let comma = expected(inp, p, TokenType::Comma, told);
        if !comma.ok {
            let lost = recovered(inp, p, comma, parameter_stops());
            if is_kind(inp, p + lost.used, TokenType::Comma) {
                spoiled(after(lost, more_parameters_step(inp, p + lost.used, lost.said)))
            } else {
                lost
            }
        } else {
            let one = recovered(
                inp,
                p + 1,
                parameter_step(inp, p + 1, comma.said),
                parameter_stops(),
            );
            if !one.ok && !is_kind(inp, p + 1 + one.used, TokenType::Comma) {
                took(1, one)
            } else {
                took(1, after(one, more_parameters_step(inp, p + 1 + one.used, one.said)))
            }
        }
    }
}

/// Param (`,` Param)*
#[verifier::opaque]
pub open spec fn parameter_list_step(inp: Input, p: nat, told: Seq<Seq<char>>) -> Step {
    let one = recovered(inp, p, parameter_step(inp, p, told), parameter_stops());
    let q = p + one.used;
    if !one.ok && (is_kind(inp, q, TokenType::LBrace) || is_kind(inp, q, TokenType::Fn)) {
        one
    } else {
        after(one, more_parameters_step(inp, q, one.said))
    }
}

/// [Param (`,` Param)*]
#[verifier::opaque]
pub open spec fn parameters_step(inp: Input, p: nat, told: Seq<Seq<char>>) -> Step {
    if is_kind(inp, p, TokenType::RParen) {
        pass(0, told)
    } else {
        parameter_list_step(inp, p, told)
    }
}

/// [`:` Type]
#[verifier::opaque]
pub open spec fn return_type_step(inp: Input, p: nat, told: Seq<Seq<char>>) -> Step {
    if is_kind(inp, p, TokenType::Colon) {
        took(1, expected(inp, p + 1, TokenType::VarType, told))
    } else {
        pass(0, told)
    }
}

/// The rest of a declaration from its closing parenthesis on.
#[verifier::opaque]
pub open spec fn declaration_close_step(inp: Input, p: nat, told: Seq<Seq<char>>) -> Step {
    let close = recovered(inp, p, expected(inp, p, TokenType::RParen, told), result_stops());
    let q = p + close.used;
    if close.ok || is_kind(inp, q, TokenType::Colon) {
        after(close, return_type_step(inp, q, close.said))
    } else {
        close
    }
}

/// The rest of a declaration from its parameters on.
#[verifier::opaque]
pub open spec fn declaration_parameters_step(inp: Input, p: nat, told: Seq<Seq<char>>) -> Step {
    let list = recovered(inp, p, parameters_step(inp, p, told), close_stops());
    let q = p + list.used;
    if list.ok || is_kind(inp, q, TokenType::RParen) {
        after(list, declaration_close_step(inp, q, list.said))
    } else {
        list
    }
}

/// The rest of a declaration from its opening parenthesis on.
#[verifier::opaque]
pub open spec fn declaration_open_step(inp: Input, p: nat, told: Seq<Seq<char>>) -> Step {
    let open = recovered(inp, p, expected(inp, p, TokenType::LParen, told), open_stops());
    let q = p + open.used;
    if open.ok || is_kind(inp, q, TokenType::RParen) || is_kind(inp, q, TokenType::Identifier) {
        after(open, declaration_parameters_step(inp, q, open.said))
    } else {
        open
    }
}

/// Identifier `(` [Param (`,` Param)*] `)` [`:` Type], behind `fn`.
#[verifier::opaque]
pub open spec fn function_declaration_step(inp: Input, p: nat, told: Seq<Seq<char>>) -> Step {
    let name = recovered(inp, p, expected(inp, p, TokenType::Identifier, told), name_stops());
    let q = p + name.used;
    if name.ok || is_kind(inp, q, TokenType::LParen) {
        after(name, declaration_open_step(inp, q, name.said))
    } else {
        name
    }
}

// Statements.

/// `let` Identifier `:` ValueType `=` Expression
#[verifier::opaque]
pub open spec fn variable_declaration_step(inp: Input, p: nat, told: Seq<Seq<char>>) -> Step {
    let stops = line_stops();
    let keyword = recovered(inp, p, expected(inp, p, TokenType::Let, told), stops);
    let name = recovered(
        inp,
        p + 1,
        expected(inp, p + 1, TokenType::Identifier, keyword.said),
        stops,
    );
    let colon = recovered(inp, p + 2, expected(inp, p + 2, TokenType::Colon, name.said), stops);
    let kind = recovered(inp, p + 3, value_type_step(inp, p + 3, colon.said), stops);
    let assign = recovered(inp, p + 4, expected(inp, p + 4, TokenType::Assign, kind.said), stops);
    let value = quiet(expression_step(inp, p + 5, assign.said));
    and_then(keyword, and_then(name, and_then(colon, and_then(kind, and_then(assign, value)))))
}

/// Identifier `=` Expression
#[verifier::opaque]
pub open spec fn variable_assignment_step(inp: Input, p: nat, told: Seq<Seq<char>>) -> Step {
    let name = expected(inp, p, TokenType::Identifier, told);
    let assign = expected(inp, p + 1, TokenType::Assign, name.said);
    and_then(name, and_then(assign, expression_step(inp, p + 2, assign.said)))
}

/// (`,` Expression)*, up to the closing parenthesis.
#[verifier::opaque]
pub open spec fn more_arguments_step(inp: Input, p: nat, told: Seq<Seq<char>>) -> Step
    decreases left(inp, p),
{
    if is_kind(inp, p, TokenType::RParen) {
        pass(0, told)
    } else {
        let comma = expected(inp, p, TokenType::Comma, told);
        if !comma.ok {
            let lost = recovered(inp, p, comma, argument_stops());
            if is_kind(inp, p + lost.used, TokenType::Comma) {
                spoiled(after(lost, more_arguments_step(inp, p + lost.used, lost.said)))
            } else {
                lost
            }
        } else {
            let one = recovered(
                inp,
                p + 1,
                expression_step(inp, p + 1, comma.said),
                argument_stops(),
            );
            if !one.ok && !is_kind(inp, p + 1 + one.used, TokenType::Comma) {
                took(1, one)
            } else {
                took(1, after(one, more_arguments_step(inp, p + 1 + one.used, one.said)))
            }
        }
    }
}

/// Expression (`,` Expression)*
#[verifier::opaque]
pub open spec fn argument_list_step(inp: Input, p: nat, told: Seq<Seq<char>>) -> Step {
    let one = recovered(inp, p, expression_step(inp, p, told), argument_stops());
    let q = p + one.used;
    if !one.ok && !is_kind(inp, q, TokenType::Comma) {
        one
    } else {
        after(one, more_arguments_step(inp, q, one.said))
    }
}

/// [Expression (`,` Expression)*]
#[verifier::opaque]
pub open spec fn arguments_step(inp: Input, p: nat, told: Seq<Seq<char>>) -> Step {
    if is_kind(inp, p, TokenType::RParen) {
        pass(0, told)
    } else {
        argument_list_step(inp, p, told)
    }
}

/// Identifier `(` [Expression (`,` Expression)*] `)`
#[verifier::opaque]
pub open spec fn function_call_step(inp: Input, p: nat, told: Seq<Seq<char>>) -> Step {
    let name = expected(inp, p, TokenType::Identifier, told);
    let open = expected(inp, p + 1, TokenType::LParen, name.said);
    let arguments = arguments_step(inp, p + 2, open.said);
    let q = p + 2 + arguments.used;
    let close = recovered(
        inp,
        q,
        expected(inp, q, TokenType::RParen, arguments.said),
        call_stops(),
    );
    and_then(name, and_then(open, and_then(arguments, close)))
}

/// A statement that starts with an identifier: the token behind the
/// identifier tells a call from an assignment.
#[verifier::opaque]
pub open spec fn assignment_or_call_step(inp: Input, p: nat, told: Seq<Seq<char>>) -> Step {
    if p + 1 >= inp.items.len() {
        blamed_end(inp, lone_identifier_text(), told)
    } else if is_kind(inp, p + 1, TokenType::LParen) {
        recovered(inp, p, function_call_step(inp, p, told), call_stops())
    } else if is_kind(inp, p + 1, TokenType::Assign) {
        recovered(inp, p, variable_assignment_step(inp, p, told), assignment_stops())
    } else {
        skip(
            inp,
            p,
            blamed(inp, p + 1, after_identifier_text(shown(inp, p + 1)), told),
            line_stops(),
        )
    }
}

/// [Identifier `=` Expression]
#[verifier::opaque]
pub open spec fn optional_assignment_step(inp: Input, p: nat, told: Seq<Seq<char>>) -> Step {
    if is_kind(inp, p, TokenType::Identifier) {
        variable_assignment_step(inp, p, told)
    } else {
        pass(0, told)
    }
}

/// What may open a `for` loop: a declaration, an assignment, or nothing.
#[verifier::opaque]
pub open spec fn loop_start_step(inp: Input, p: nat, told: Seq<Seq<char>>) -> Step {
    if is_kind(inp, p, TokenType::Let) {
        variable_declaration_step(inp, p, told)
    } else {
        optional_assignment_step(inp, p, told)
    }
}

/// The three parts between the parentheses of a `for` loop, with their
/// separators. What they report does not end the loop's check.
#[verifier::opaque]
pub open spec fn loop_head_step(inp: Input, p: nat, told: Seq<Seq<char>>) -> Step {
    let start = if is_kind(inp, p, TokenType::SemiColon) {
        pass(0, told)
    } else {
        loop_start_step(inp, p, told)
    };
    let q1 = p + start.used;
    let first = expected(inp, q1, TokenType::SemiColon, start.said);
    let q2 = q1 + first.used;
    let test = if is_kind(inp, q2, TokenType::SemiColon) {
        pass(0, first.said)
    } else {
        expression_step(inp, q2, first.said)
    };
    let q3 = q2 + test.used;
    let second = expected(inp, q3, TokenType::SemiColon, test.said);
    let q4 = q3 + second.used;
    let update = if is_kind(inp, q4, TokenType::RParen) {
        pass(0, second.said)
    } else {
        optional_assignment_step(inp, q4, second.said)
    };
    quiet(after(start, after(first, after(test, after(second, update)))))
}

/// `(` Expression `)`, the condition of an `if` or `elif`.
#[verifier::opaque]
pub open spec fn condition_step(inp: Input, p: nat, told: Seq<Seq<char>>) -> Step {
    let open = expected(inp, p, TokenType::LParen, told);
    let q = p + open.used;
    let test = recovered(inp, q, expression_step(inp, q, open.said), condition_stops());
    let r = q + test.used;
    if !test.ok && !is_kind(inp, r, TokenType::RParen) {
        spoiled(after(open, test))
    } else {
        after(open, after(test, expected(inp, r, TokenType::RParen, test.said)))
    }
}

/// Block = `{` Statement* `}`. Where the opening brace is missing, the
/// tokens through the next closing brace are passed over.
#[verifier::opaque]
pub open spec fn block_step(inp: Input, p: nat, told: Seq<Seq<char>>) -> Step
    decreases left(inp, p), 3nat,
{
    if is_kind(inp, p, TokenType::LBrace) {
        let body = statements_step(inp, p + 1, told);
        took(1, after(body, expected(inp, p + 1 + body.used, TokenType::RBrace, body.said)))
    } else {
        let lost = recovered(
            inp,
            p,
            expected(inp, p, TokenType::LBrace, told),
            block_stops(),
        );
        if p + lost.used < inp.items.len() {
            took(1, lost)
        } else {
            lost
        }
    }
}

/// Statement*, up to the closing brace. After a statement that failed,
/// checking resumes at the next semicolon or closing brace, and the
/// statements end where neither is found before the next `fn`.
#[verifier::opaque]
pub open spec fn statements_step(inp: Input, p: nat, told: Seq<Seq<char>>) -> Step
    decreases left(inp, p), 11nat,
{
    if is_kind(inp, p, TokenType::RBrace) {
        pass(0, told)
    } else {
        let one = recovered(inp, p, statement_step(inp, p, told), statement_stops());
        let q = p + one.used;
        let resumes = one.ok || is_kind(inp, q, TokenType::RBrace) || is_kind(
            inp,
            q,
            TokenType::SemiColon,
        );
        // a statement that is taken up leaves fewer tokens behind
        if resumes && left(inp, q) < left(inp, p) {
            quiet(after(one, statements_step(inp, q, one.said)))
        } else {
            quiet(one)
        }
    }
}

/// A statement that is taken up, or behind which checking resumes,
/// leaves fewer tokens behind than stood before it.
pub proof fn lemma_statement_moves(inp: Input, p: nat, told: Seq<Seq<char>>)
    requires
        !is_kind(inp, p, TokenType::RBrace),
    ensures
        ({
            let one = recovered(inp, p, statement_step(inp, p, told), statement_stops());
            let q = p + one.used;
            one.ok || is_kind(inp, q, TokenType::RBrace) || is_kind(inp, q, TokenType::SemiColon)
                ==> left(inp, q) < left(inp, p)
        }),
{
    reveal(statement_step);
    reveal(variable_declaration_step);
    reveal(block_step);
    reveal(assignment_or_call_step);
    reveal(function_call_step);
    reveal(variable_assignment_step);
    reveal(for_loop_step);
    reveal(if_statement_step);
    if p < inp.items.len() {
        let kind = inp.items[p as int].t_type;
        if kind == TokenType::Identifier {
            assert(!statement_stops().contains(kind));
            assert(!line_stops().contains(kind));
        } else if kind != TokenType::SemiColon && kind != TokenType::Let && kind
            != TokenType::LBrace && kind != TokenType::For && kind != TokenType::If {
            assert(!line_stops().contains(kind));
        }
    }
}

/// One statement.
#[verifier::opaque]
pub open spec fn statement_step(inp: Input, p: nat, told: Seq<Seq<char>>) -> Step
    decreases left(inp, p), 10nat,
{
    if p >= inp.items.len() {
        fail(told)
    } else if is_kind(inp, p, TokenType::SemiColon) {
        pass(1, told)
    } else if is_kind(inp, p, TokenType::Let) {
        let declared = variable_declaration_step(inp, p, told);
        and_then(
            declared,
            expected(inp, p + declared.used, TokenType::SemiColon, declared.said),
        )
    } else if is_kind(inp, p, TokenType::LBrace) {
        block_step(inp, p, told)
    } else if is_kind(inp, p, TokenType::Identifier) {
        let named = assignment_or_call_step(inp, p, told);
        and_then(named, expected(inp, p + named.used, TokenType::SemiColon, named.said))
    } else if is_kind(inp, p, TokenType::For) {
        for_loop_step(inp, p, told)
    } else if is_kind(inp, p, TokenType::If) {
        if_statement_step(inp, p, told)
    } else {
        skip(inp, p, blamed(inp, p, statement_start_text(shown(inp, p)), told), line_stops())
    }
}

/// `for` `(` [start] `;` [Expression] `;` [assignment] `)` Block
#[verifier::opaque]
pub open spec fn for_loop_step(inp: Input, p: nat, told: Seq<Seq<char>>) -> Step
    decreases left(inp, p), 7nat,
{
    let keyword = expected(inp, p, TokenType::For, told);
    if !keyword.ok {
        keyword
    } else {
        let open = recovered(
            inp,
            p + 1,
            expected(inp, p + 1, TokenType::LParen, keyword.said),
            loop_stops(),
        );
        if !open.ok {
            took(1, open)
        } else {
            let head = loop_head_step(inp, p + 2, open.said);
            let q = p + 2 + head.used;
            let close = recovered(
                inp,
                q,
                expected(inp, q, TokenType::RParen, head.said),
                loop_stops(),
            );
            if !close.ok {
                took(2, after(quiet(head), close))
            } else {
                took(2, after(quiet(head), after(close, block_step(inp, q + 1, close.said))))
            }
        }
    }
}

/// The block of a branch of an `if` statement. Where it does not start,
/// nothing is passed over.
#[verifier::opaque]
pub open spec fn branch_block_step(inp: Input, p: nat, told: Seq<Seq<char>>) -> Step
    decreases left(inp, p), 4nat,
{
    if is_kind(inp, p, TokenType::LBrace) {
        block_step(inp, p, told)
    } else {
        expected(inp, p, TokenType::LBrace, told)
    }
}

/// The block behind `else`, which takes no condition.
#[verifier::opaque]
pub open spec fn else_block_step(inp: Input, p: nat, told: Seq<Seq<char>>) -> Step
    decreases left(inp, p), 5nat,
{
    if is_kind(inp, p, TokenType::LParen) {
        let lost = skip(
            inp,
            p,
            blamed(inp, p, else_condition_text(shown(inp, p)), told),
            branch_stops(),
        );
        if is_kind(inp, p + lost.used, TokenType::LBrace) {
            spoiled(after(lost, block_step(inp, p + lost.used, lost.said)))
        } else {
            lost
        }
    } else {
        branch_block_step(inp, p, told)
    }
}

/// (`elif` `(` Expression `)` Block)*
#[verifier::opaque]
pub open spec fn elif_chain_step(inp: Input, p: nat, told: Seq<Seq<char>>) -> Step
    decreases left(inp, p), 6nat,
{
    if is_kind(inp, p, TokenType::ElseIf) {
        let test = condition_step(inp, p + 1, told);
        let block = branch_block_step(inp, p + 1 + test.used, test.said);
        let q = p + 1 + test.used + block.used;
        took(1, after(test, after(block, elif_chain_step(inp, q, block.said))))
    } else {
        pass(0, told)
    }
}

/// The branches that stand behind the `else` block of an `if` statement,
/// where none may stand. Each is reported, and then checked like a branch
/// in its place.
#[verifier::opaque]
pub open spec fn misplaced_branches_step(inp: Input, p: nat, told: Seq<Seq<char>>) -> Step
    decreases left(inp, p), 6nat,
{
    if is_kind(inp, p, TokenType::ElseIf) {
        let report = blamed(inp, p, misplaced_branch_text(shown(inp, p)), told);
        let test = condition_step(inp, p + 1, report.said);
        let block = branch_block_step(inp, p + 1 + test.used, test.said);
        let q = p + 1 + test.used + block.used;
        spoiled(took(1, after(test, after(block, misplaced_branches_step(inp, q, block.said)))))
    } else if is_kind(inp, p, TokenType::Else) {
        let report = blamed(inp, p, misplaced_branch_text(shown(inp, p)), told);
        let block = else_block_step(inp, p + 1, report.said);
        let q = p + 1 + block.used;
        spoiled(took(1, after(block, misplaced_branches_step(inp, q, block.said))))
    } else {
        pass(0, told)
    }
}

/// The `else` branch of an `if` statement, if it has one.
#[verifier::opaque]
pub open spec fn else_branch_step(inp: Input, p: nat, told: Seq<Seq<char>>) -> Step
    decreases left(inp, p), 6nat,
{
    if is_kind(inp, p, TokenType::Else) {
        took(1, else_block_step(inp, p + 1, told))
    } else {
        pass(0, told)
    }
}

/// (`elif` `(` Expression `)` Block)* [`else` Block]: what may stand
/// behind the first branch of an `if` statement, and the report of what
/// may not.
#[verifier::opaque]
pub open spec fn more_branches_step(inp: Input, p: nat, told: Seq<Seq<char>>) -> Step
    decreases left(inp, p), 7nat,
{
    let chain = elif_chain_step(inp, p, told);
    let q1 = p + chain.used;
    let last = else_branch_step(inp, q1, chain.said);
    let q2 = q1 + last.used;
    after(chain, after(last, misplaced_branches_step(inp, q2, last.said)))
}

/// `if` `(` Expression `)` Block (`elif` `(` Expression `)` Block)*
/// [`else` Block]
#[verifier::opaque]
pub open spec fn if_statement_step(inp: Input, p: nat, told: Seq<Seq<char>>) -> Step
    decreases left(inp, p), 8nat,
{
    let keyword = expected(inp, p, TokenType::If, told);
    let test = condition_step(inp, p + keyword.used, keyword.said);
    let q1 = p + keyword.used + test.used;
    let block = branch_block_step(inp, q1, test.said);
    let q2 = q1 + block.used;
    after(keyword, after(test, after(block, more_branches_step(inp, q2, block.said))))
}

// Functions and programs.

/// Function = `fn` declaration Block, behind the `fn`. A declaration
/// that failed does not keep the block from being checked, if the block
/// can be found.
#[verifier::opaque]
pub open spec fn function_step(inp: Input, p: nat, told: Seq<Seq<char>>) -> Step {
    let declared = recovered(inp, p, function_declaration_step(inp, p, told), body_stops());
    let q = p + declared.used;
    if declared.ok || is_kind(inp, q, TokenType::LBrace) {
        after(declared, block_step(inp, q, declared.said))
    } else {
        declared
    }
}

/// What the token at `p`, which has been taken up as the start of a
/// top-level item, leads to: a function behind `fn`, and a diagnostic and
/// recovery to the next `fn` behind anything else.
#[verifier::opaque]
pub open spec fn start_token_step(inp: Input, p: nat, told: Seq<Seq<char>>) -> Step
    recommends
        p < inp.items.len(),
{
    if is_kind(inp, p, TokenType::Fn) {
        function_step(inp, p + 1, told)
    } else {
        skip(inp, p + 1, blamed(inp, p, invalid_start_text(shown(inp, p)), told), function_stops())
    }
}

/// Function*, to the end of the input.
#[verifier::opaque]
pub open spec fn functions_step(inp: Input, p: nat, told: Seq<Seq<char>>) -> Step
    decreases left(inp, p),
{
    if p >= inp.items.len() {
        pass(0, told)
    } else {
        let one = start_token_step(inp, p, told);
        quiet(took(1, after(one, functions_step(inp, p + 1 + one.used, one.said))))
    }
}

/// Program = Function+: a whole check from `p` on.
#[verifier::opaque]
pub open spec fn program_step(inp: Input, p: nat, told: Seq<Seq<char>>) -> Step {
    if p >= inp.items.len() {
        blamed_end(inp, no_function_text(), told)
    } else {
        functions_step(inp, p, told)
    }
}

/// What a check of `inp` from `p` on reports.
pub open spec fn diagnostics(inp: Input, p: nat) -> Seq<Seq<char>> {
    program_step(inp, p, Seq::empty()).said
}

} // verus!
