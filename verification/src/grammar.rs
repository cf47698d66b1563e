//! The grammar: for each production, how many tokens from a position on
//! form a phrase of it, if any do. The next token or two decide every
//! choice, so a position starts at most one phrase of each production.

use vstd::prelude::*;
use crate::syntax::{
    is_atom, is_equality_operator, is_kind, is_order_operator, is_payload, is_scaling, is_sign,
    left, Input,
};
use crate::token::{TokenSubType, TokenType};

verus! {

/// The length of two phrases in a row, the second of which starts where
/// the first ends.
pub open spec fn both(first: Option<nat>, second: Option<nat>) -> Option<nat> {
    match first {
        Some(n) => match second {
            Some(m) => Some(n + m),
            None => None,
        },
        None => None,
    }
}

/// The length of a phrase that `count` tokens stand before.
pub open spec fn behind(count: nat, phrase: Option<nat>) -> Option<nat> {
    match phrase {
        Some(n) => Some(count + n),
        None => None,
    }
}

/// The single token of the kind `kind`, if it stands at `p`.
pub open spec fn one(inp: Input, p: nat, kind: TokenType) -> Option<nat> {
    if is_kind(inp, p, kind) {
        Some(1)
    } else {
        None
    }
}

/// Where the phrase that starts at `p` ends, if there is one.
pub open spec fn end_of(p: nat, phrase: Option<nat>) -> nat {
    match phrase {
        Some(n) => p + n,
        None => p,
    }
}

// Expressions.

/// Expression = Relational (`==` Relational)*
pub open spec fn expression_len(inp: Input, p: nat) -> Option<nat>
    decreases left(inp, p), 9nat,
{
    let first = relational_len(inp, p);
    both(first, equality_tail_len(inp, end_of(p, first)))
}

/// (`==` Relational)*
pub open spec fn equality_tail_len(inp: Input, p: nat) -> Option<nat>
    decreases left(inp, p), 8nat,
{
    if is_equality_operator(inp, p) {
        let operand = relational_len(inp, p + 1);
        behind(1, both(operand, equality_tail_len(inp, end_of(p + 1, operand))))
    } else {
        Some(0)
    }
}

/// Relational = Additive ((`<` | `>` | `<=` | `>=`) Additive)*
pub open spec fn relational_len(inp: Input, p: nat) -> Option<nat>
    decreases left(inp, p), 7nat,
{
    let first = additive_len(inp, p);
    both(first, order_tail_len(inp, end_of(p, first)))
}

/// ((`<` | `>` | `<=` | `>=`) Additive)*
pub open spec fn order_tail_len(inp: Input, p: nat) -> Option<nat>
    decreases left(inp, p), 6nat,
{
    if is_order_operator(inp, p) {
        let operand = additive_len(inp, p + 1);
        behind(1, both(operand, order_tail_len(inp, end_of(p + 1, operand))))
    } else {
        Some(0)
    }
}

/// Additive = Term ((`+` | `-`) Term)*
pub open spec fn additive_len(inp: Input, p: nat) -> Option<nat>
    decreases left(inp, p), 5nat,
{
    let first = term_len(inp, p);
    both(first, sign_tail_len(inp, end_of(p, first)))
}

/// ((`+` | `-`) Term)*
pub open spec fn sign_tail_len(inp: Input, p: nat) -> Option<nat>
    decreases left(inp, p), 4nat,
{
    if is_sign(inp, p) {
        let operand = term_len(inp, p + 1);
        behind(1, both(operand, sign_tail_len(inp, end_of(p + 1, operand))))
    } else {
        Some(0)
    }
}

/// Term = Factor ((`*` | `/`) Factor)*
pub open spec fn term_len(inp: Input, p: nat) -> Option<nat>
    decreases left(inp, p), 3nat,
{
    let first = factor_len(inp, p);
    both(first, scaling_tail_len(inp, end_of(p, first)))
}

/// ((`*` | `/`) Factor)*
pub open spec fn scaling_tail_len(inp: Input, p: nat) -> Option<nat>
    decreases left(inp, p), 2nat,
{
    if is_scaling(inp, p) {
        let operand = factor_len(inp, p + 1);
        behind(1, both(operand, scaling_tail_len(inp, end_of(p + 1, operand))))
    } else {
        Some(0)
    }
}

/// Factor = Identifier | Number | Text | Boolean | `(` Expression `)`
/// | (`+` | `-`) Number
pub open spec fn factor_len(inp: Input, p: nat) -> Option<nat>
    decreases left(inp, p), 1nat,
{
    if is_kind(inp, p, TokenType::ArithOp) {
        if is_sign(inp, p) && is_kind(inp, p + 1, TokenType::Number) {
            Some(2)
        } else {
            None
        }
    } else if is_atom(inp, p) {
        Some(1)
    } else if is_kind(inp, p, TokenType::LParen) {
        let inner = expression_len(inp, p + 1);
        behind(1, both(inner, one(inp, end_of(p + 1, inner), TokenType::RParen)))
    } else {
        None
    }
}

// Function declarations.

/// ValueType: any type but `void`.
pub open spec fn value_type_len(inp: Input, p: nat) -> Option<nat> {
    if is_kind(inp, p, TokenType::VarType) && !is_payload(inp, p, TokenSubType::VoidType) {
        Some(1)
    } else {
        None
    }
}

/// Param = Identifier `:` ValueType
pub open spec fn parameter_len(inp: Input, p: nat) -> Option<nat> {
    both(
        one(inp, p, TokenType::Identifier),
        both(one(inp, p + 1, TokenType::Colon), value_type_len(inp, p + 2)),
    )
}

/// (`,` Param)*, up to the closing parenthesis.
pub open spec fn more_parameters_len(inp: Input, p: nat) -> Option<nat>
    decreases left(inp, p),
{
    if is_kind(inp, p, TokenType::RParen) {
        Some(0)
    } else if is_kind(inp, p, TokenType::Comma) {
        let param = parameter_len(inp, p + 1);
        behind(1, both(param, more_parameters_len(inp, end_of(p + 1, param))))
    } else {
        None
    }
}

/// [Param (`,` Param)*], up to the closing parenthesis.
pub open spec fn parameters_len(inp: Input, p: nat) -> Option<nat> {
    if is_kind(inp, p, TokenType::RParen) {
        Some(0)
    } else {
        let param = parameter_len(inp, p);
        both(param, more_parameters_len(inp, end_of(p, param)))
    }
}

/// [`:` Type]
pub open spec fn return_type_len(inp: Input, p: nat) -> Option<nat> {
    if is_kind(inp, p, TokenType::Colon) {
        behind(1, one(inp, p + 1, TokenType::VarType))
    } else {
        Some(0)
    }
}

/// Identifier `(` [Param (`,` Param)*] `)` [`:` Type]
pub open spec fn function_declaration_len(inp: Input, p: nat) -> Option<nat> {
    let list = parameters_len(inp, p + 2);
    let close = end_of(p + 2, list);
    both(
        one(inp, p, TokenType::Identifier),
        both(
            one(inp, p + 1, TokenType::LParen),
            both(list, both(one(inp, close, TokenType::RParen), return_type_len(inp, close + 1))),
        ),
    )
}

// Statements.

/// `let` Identifier `:` ValueType `=` Expression
pub open spec fn variable_declaration_len(inp: Input, p: nat) -> Option<nat> {
    both(
        one(inp, p, TokenType::Let),
        both(
            one(inp, p + 1, TokenType::Identifier),
            both(
                one(inp, p + 2, TokenType::Colon),
                both(
                    value_type_len(inp, p + 3),
                    both(one(inp, p + 4, TokenType::Assign), expression_len(inp, p + 5)),
                ),
            ),
        ),
    )
}

/// Identifier `=` Expression
pub open spec fn variable_assignment_len(inp: Input, p: nat) -> Option<nat> {
    both(
        one(inp, p, TokenType::Identifier),
        both(one(inp, p + 1, TokenType::Assign), expression_len(inp, p + 2)),
    )
}

/// (`,` Expression)*, up to the closing parenthesis.
pub open spec fn more_arguments_len(inp: Input, p: nat) -> Option<nat>
    decreases left(inp, p),
{
    if is_kind(inp, p, TokenType::RParen) {
        Some(0)
    } else if is_kind(inp, p, TokenType::Comma) {
        let argument = expression_len(inp, p + 1);
        behind(1, both(argument, more_arguments_len(inp, end_of(p + 1, argument))))
    } else {
        None
    }
}

/// [Expression (`,` Expression)*], up to the closing parenthesis.
pub open spec fn arguments_len(inp: Input, p: nat) -> Option<nat> {
    if is_kind(inp, p, TokenType::RParen) {
        Some(0)
    } else {
        let argument = expression_len(inp, p);
        both(argument, more_arguments_len(inp, end_of(p, argument)))
    }
}

/// Identifier `(` [Expression (`,` Expression)*] `)`
pub open spec fn function_call_len(inp: Input, p: nat) -> Option<nat> {
    let list = arguments_len(inp, p + 2);
    both(
        one(inp, p, TokenType::Identifier),
        both(
            one(inp, p + 1, TokenType::LParen),
            both(list, one(inp, end_of(p + 2, list), TokenType::RParen)),
        ),
    )
}

/// A call or an assignment, whichever the token behind the identifier
/// starts.
pub open spec fn assignment_or_call_len(inp: Input, p: nat) -> Option<nat> {
    if is_kind(inp, p + 1, TokenType::LParen) {
        function_call_len(inp, p)
    } else if is_kind(inp, p + 1, TokenType::Assign) {
        variable_assignment_len(inp, p)
    } else {
        None
    }
}

/// [Identifier `=` Expression]
pub open spec fn optional_assignment_len(inp: Input, p: nat) -> Option<nat> {
    if is_kind(inp, p, TokenType::Identifier) {
        variable_assignment_len(inp, p)
    } else {
        Some(0)
    }
}

/// [declaration | assignment] `;` [Expression] `;` [assignment], up to
/// the closing parenthesis of a `for` loop.
pub open spec fn loop_head_len(inp: Input, p: nat) -> Option<nat> {
    let start = if is_kind(inp, p, TokenType::SemiColon) {
        Some(0)
    } else if is_kind(inp, p, TokenType::Let) {
        variable_declaration_len(inp, p)
    } else {
        optional_assignment_len(inp, p)
    };
    let q1 = end_of(p, start);
    let test = if is_kind(inp, q1 + 1, TokenType::SemiColon) {
        Some(0)
    } else {
        expression_len(inp, q1 + 1)
    };
    let q2 = end_of(q1 + 1, test);
    let update = if is_kind(inp, q2 + 1, TokenType::RParen) {
        Some(0)
    } else {
        optional_assignment_len(inp, q2 + 1)
    };
    both(
        start,
        both(
            one(inp, q1, TokenType::SemiColon),
            both(test, both(one(inp, q2, TokenType::SemiColon), update)),
        ),
    )
}

/// `(` Expression `)`
pub open spec fn condition_len(inp: Input, p: nat) -> Option<nat> {
    let test = expression_len(inp, p + 1);
    both(
        one(inp, p, TokenType::LParen),
        both(test, one(inp, end_of(p + 1, test), TokenType::RParen)),
    )
}

/// Block = `{` Statement* `}`
pub open spec fn block_len(inp: Input, p: nat) -> Option<nat>
    decreases left(inp, p), 3nat,
{
    if is_kind(inp, p, TokenType::LBrace) {
        behind(1, block_rest_len(inp, p + 1))
    } else {
        None
    }
}

/// Statement* `}`
pub open spec fn block_rest_len(inp: Input, p: nat) -> Option<nat>
    decreases left(inp, p), 11nat,
{
    if is_kind(inp, p, TokenType::RBrace) {
        Some(1)
    } else {
        let first = statement_len(inp, p);
        // a statement is one token long or longer
        if left(inp, end_of(p, first)) < left(inp, p) {
            both(first, block_rest_len(inp, end_of(p, first)))
        } else {
            None
        }
    }
}

/// Statement = `;` | declaration `;` | Block | call `;` | assignment `;`
/// | `for` loop | `if` statement
pub open spec fn statement_len(inp: Input, p: nat) -> Option<nat>
    decreases left(inp, p), 10nat,
{
    if is_kind(inp, p, TokenType::SemiColon) {
        Some(1)
    } else if is_kind(inp, p, TokenType::Let) {
        let declared = variable_declaration_len(inp, p);
        both(declared, one(inp, end_of(p, declared), TokenType::SemiColon))
    } else if is_kind(inp, p, TokenType::LBrace) {
        block_len(inp, p)
    } else if is_kind(inp, p, TokenType::Identifier) {
        let named = assignment_or_call_len(inp, p);
        both(named, one(inp, end_of(p, named), TokenType::SemiColon))
    } else if is_kind(inp, p, TokenType::For) {
        for_loop_len(inp, p)
    } else if is_kind(inp, p, TokenType::If) {
        if_statement_len(inp, p)
    } else {
        None
    }
}

/// `for` `(` [start] `;` [Expression] `;` [assignment] `)` Block
pub open spec fn for_loop_len(inp: Input, p: nat) -> Option<nat>
    decreases left(inp, p), 7nat,
{
    let head = loop_head_len(inp, p + 2);
    let close = end_of(p + 2, head);
    both(
        one(inp, p, TokenType::For),
        both(
            one(inp, p + 1, TokenType::LParen),
            both(head, both(one(inp, close, TokenType::RParen), block_len(inp, close + 1))),
        ),
    )
}

/// (`elif` `(` Expression `)` Block)*
pub open spec fn elif_chain_len(inp: Input, p: nat) -> Option<nat>
    decreases left(inp, p), 6nat,
{
    if is_kind(inp, p, TokenType::ElseIf) {
        let test = condition_len(inp, p + 1);
        let block = block_len(inp, end_of(p + 1, test));
        let q = end_of(end_of(p + 1, test), block);
        behind(1, both(test, both(block, elif_chain_len(inp, q))))
    } else {
        Some(0)
    }
}

/// [`else` Block]
pub open spec fn else_branch_len(inp: Input, p: nat) -> Option<nat>
    decreases left(inp, p), 6nat,
{
    if is_kind(inp, p, TokenType::Else) {
        behind(1, block_len(inp, p + 1))
    } else {
        Some(0)
    }
}

/// (`elif` `(` Expression `)` Block)* [`else` Block], with no further
/// `elif` or `else` behind.
pub open spec fn more_branches_len(inp: Input, p: nat) -> Option<nat>
    decreases left(inp, p), 7nat,
{
    let chain = elif_chain_len(inp, p);
    let q1 = end_of(p, chain);
    let last = else_branch_len(inp, q1);
    let q2 = end_of(q1, last);
    if is_kind(inp, q2, TokenType::ElseIf) || is_kind(inp, q2, TokenType::Else) {
        None
    } else {
        both(chain, last)
    }
}

/// `if` `(` Expression `)` Block (`elif` `(` Expression `)` Block)*
/// [`else` Block]
pub open spec fn if_statement_len(inp: Input, p: nat) -> Option<nat>
    decreases left(inp, p), 8nat,
{
    let test = condition_len(inp, p + 1);
    let q1 = end_of(p + 1, test);
    let block = block_len(inp, q1);
    let q2 = end_of(q1, block);
    both(
        one(inp, p, TokenType::If),
        both(test, both(block, more_branches_len(inp, q2))),
    )
}

// Functions and programs.

/// What stands behind the `fn` of a function: declaration Block
pub open spec fn function_len(inp: Input, p: nat) -> Option<nat> {
    let declared = function_declaration_len(inp, p);
    both(declared, block_len(inp, end_of(p, declared)))
}

/// Function*, to the end of the input.
pub open spec fn functions_len(inp: Input, p: nat) -> Option<nat>
    decreases left(inp, p),
{
    if p >= inp.items.len() {
        Some(0)
    } else if is_kind(inp, p, TokenType::Fn) {
        let function = function_len(inp, p + 1);
        behind(1, both(function, functions_len(inp, end_of(p + 1, function))))
    } else {
        None
    }
}

/// Whether the tokens from `p` to the end of the input are a program:
/// one function or more, and nothing else.
pub open spec fn is_program(inp: Input, p: nat) -> bool {
    p < inp.items.len() && functions_len(inp, p) is Some
}

} // verus!
