//! The parser and the grammar agree: a production registers no
//! diagnostic exactly where the tokens form a phrase of it, and then it
//! takes up the phrase and nothing more.

use vstd::prelude::*;
use crate::grammar::{
    additive_len, arguments_len, assignment_or_call_len, behind, block_len, block_rest_len,
    condition_len, elif_chain_len, else_branch_len, equality_tail_len, expression_len, factor_len,
    for_loop_len, function_call_len, function_declaration_len, function_len, functions_len,
    if_statement_len, is_program, loop_head_len, more_arguments_len, more_branches_len,
    more_parameters_len, one, optional_assignment_len, order_tail_len, parameter_len,
    parameters_len, relational_len, return_type_len, scaling_tail_len, sign_tail_len,
    statement_len, term_len, value_type_len, variable_assignment_len, variable_declaration_len,
};
use crate::syntax::{
    after, argument_list_step, argument_stops, arguments_step, assignment_or_call_step, blamed,
    block_step, body_stops, branch_block_step, branch_stops, close_stops, condition_step,
    declaration_close_step, declaration_open_step, declaration_parameters_step, diagnostics,
    elif_chain_step, else_block_step, else_branch_step, else_condition_text, equality_tail_step,
    expected, expression_2_step, expression_3_step, expression_step, factor_step, fail,
    for_loop_step, function_call_step, function_declaration_step, function_step, functions_step,
    if_statement_step, is_equality_operator, is_kind, is_order_operator, is_scaling, is_sign,
    left, lemma_statement_moves, less_more_tail_step, line_stops, loop_head_step, loop_start_step,
    loop_stops, misplaced_branch_text, misplaced_branches_step, more_arguments_step,
    more_branches_step, more_parameters_step, mult_div_tail_step, name_stops, open_stops,
    optional_assignment_step, parameter_list_step, parameter_step, parameter_stops,
    parameters_step, plus_minus_tail_step, program_step, recovered, result_stops,
    return_type_step, shown, skip, start_token_step, statement_step, statement_stops,
    statements_step, term_step, value_type_step, variable_assignment_step,
    variable_declaration_step, Input, Step,
};
use crate::token::TokenType;

verus! {

/// Whether the step `step`, which started with the diagnostics `told`,
/// agrees with the grammar, by which `phrase` is the length of the phrase
/// at the step's position: where there is a phrase, the step succeeded,
/// took up the phrase and registered nothing; where there is none, it
/// registered a diagnostic. Either way it kept what had been registered.
pub open spec fn agrees(step: Step, told: Seq<Seq<char>>, phrase: Option<nat>) -> bool {
    &&& step.said.len() >= told.len()
    &&& match phrase {
        Some(n) => step.ok && step.used == n && step.said == told,
        None => step.said.len() > told.len(),
    }
}

// Expressions.

/// The check of an expression agrees with the grammar.
pub proof fn lemma_expression(inp: Input, p: nat, told: Seq<Seq<char>>)
    ensures
        agrees(expression_step(inp, p, told), told, expression_len(inp, p)),
    decreases left(inp, p), 9nat,
{
    reveal(expression_step);
    reveal(expression_2_step);
    reveal(equality_tail_step);
    lemma_relational(inp, p, told);
    let first = expression_2_step(inp, p, told);
    if first.ok {
        lemma_equality_tail(inp, p + first.used, first.said);
    }
}

/// The check of the equality operators behind a comparison agrees with the grammar.
pub proof fn lemma_equality_tail(inp: Input, p: nat, told: Seq<Seq<char>>)
    ensures
        agrees(equality_tail_step(inp, p, told), told, equality_tail_len(inp, p)),
    decreases left(inp, p), 8nat,
{
    reveal(equality_tail_step);
    reveal(expression_2_step);
    if is_equality_operator(inp, p) {
        lemma_relational(inp, p + 1, told);
        let operand = expression_2_step(inp, p + 1, told);
        if operand.ok {
            lemma_equality_tail(inp, p + 1 + operand.used, operand.said);
        }
    }
}

/// The check of a comparison agrees with the grammar.
pub proof fn lemma_relational(inp: Input, p: nat, told: Seq<Seq<char>>)
    ensures
        agrees(expression_2_step(inp, p, told), told, relational_len(inp, p)),
    decreases left(inp, p), 7nat,
{
    reveal(expression_2_step);
    reveal(expression_3_step);
    reveal(less_more_tail_step);
    lemma_additive(inp, p, told);
    let first = expression_3_step(inp, p, told);
    if first.ok {
        lemma_order_tail(inp, p + first.used, first.said);
    }
}

/// The check of the order operators behind a sum agrees with the grammar.
pub proof fn lemma_order_tail(inp: Input, p: nat, told: Seq<Seq<char>>)
    ensures
        agrees(less_more_tail_step(inp, p, told), told, order_tail_len(inp, p)),
    decreases left(inp, p), 6nat,
{
    reveal(less_more_tail_step);
    reveal(expression_3_step);
    if is_order_operator(inp, p) {
        lemma_additive(inp, p + 1, told);
        let operand = expression_3_step(inp, p + 1, told);
        if operand.ok {
            lemma_order_tail(inp, p + 1 + operand.used, operand.said);
        }
    }
}

/// The check of a sum agrees with the grammar.
pub proof fn lemma_additive(inp: Input, p: nat, told: Seq<Seq<char>>)
    ensures
        agrees(expression_3_step(inp, p, told), told, additive_len(inp, p)),
    decreases left(inp, p), 5nat,
{
    reveal(expression_3_step);
    reveal(term_step);
    reveal(plus_minus_tail_step);
    lemma_term(inp, p, told);
    let first = term_step(inp, p, told);
    if first.ok {
        lemma_sign_tail(inp, p + first.used, first.said);
    }
}

/// The check of the signs behind a term agrees with the grammar.
pub proof fn lemma_sign_tail(inp: Input, p: nat, told: Seq<Seq<char>>)
    ensures
        agrees(plus_minus_tail_step(inp, p, told), told, sign_tail_len(inp, p)),
    decreases left(inp, p), 4nat,
{
    reveal(plus_minus_tail_step);
    reveal(term_step);
    if is_sign(inp, p) {
        lemma_term(inp, p + 1, told);
        let operand = term_step(inp, p + 1, told);
        if operand.ok {
            lemma_sign_tail(inp, p + 1 + operand.used, operand.said);
        }
    }
}

/// The check of a term agrees with the grammar.
pub proof fn lemma_term(inp: Input, p: nat, told: Seq<Seq<char>>)
    ensures
        agrees(term_step(inp, p, told), told, term_len(inp, p)),
    decreases left(inp, p), 3nat,
{
    reveal(term_step);
    reveal(factor_step);
    reveal(mult_div_tail_step);
    lemma_factor(inp, p, told);
    let first = factor_step(inp, p, told);
    if first.ok {
        lemma_scaling_tail(inp, p + first.used, first.said);
    }
}

/// The check of the `*` and `/` behind a factor agrees with the grammar.
pub proof fn lemma_scaling_tail(inp: Input, p: nat, told: Seq<Seq<char>>)
    ensures
        agrees(mult_div_tail_step(inp, p, told), told, scaling_tail_len(inp, p)),
    decreases left(inp, p), 2nat,
{
    reveal(mult_div_tail_step);
    reveal(factor_step);
    if is_scaling(inp, p) {
        lemma_factor(inp, p + 1, told);
        let operand = factor_step(inp, p + 1, told);
        if operand.ok {
            lemma_scaling_tail(inp, p + 1 + operand.used, operand.said);
        }
    }
}

/// The check of a factor agrees with the grammar.
pub proof fn lemma_factor(inp: Input, p: nat, told: Seq<Seq<char>>)
    ensures
        agrees(factor_step(inp, p, told), told, factor_len(inp, p)),
    decreases left(inp, p), 1nat,
{
    reveal(factor_step);
    reveal(expression_step);
    if is_kind(inp, p, TokenType::LParen) {
        lemma_expression(inp, p + 1, told);
    }
}

// Function declarations.

/// The check of the type of a value agrees with the grammar.
pub proof fn lemma_value_type(inp: Input, p: nat, told: Seq<Seq<char>>)
    ensures
        agrees(value_type_step(inp, p, told), told, value_type_len(inp, p)),
{
    reveal(value_type_step);
}

/// The check of a parameter agrees with the grammar.
pub proof fn lemma_parameter(inp: Input, p: nat, told: Seq<Seq<char>>)
    ensures
        agrees(parameter_step(inp, p, told), told, parameter_len(inp, p)),
{
    reveal(parameter_step);
    let name = expected(inp, p, TokenType::Identifier, told);
    let colon = expected(inp, p + 1, TokenType::Colon, name.said);
    lemma_value_type(inp, p + 2, colon.said);
}

/// The check of the parameters behind the first agrees with the grammar.
pub proof fn lemma_more_parameters(inp: Input, p: nat, told: Seq<Seq<char>>)
    ensures
        agrees(more_parameters_step(inp, p, told), told, more_parameters_len(inp, p)),
    decreases left(inp, p),
{
    reveal(more_parameters_step);
    if !is_kind(inp, p, TokenType::RParen) {
        let comma = expected(inp, p, TokenType::Comma, told);
        if !comma.ok {
            let lost = recovered(inp, p, comma, parameter_stops());
            if is_kind(inp, p + lost.used, TokenType::Comma) {
                lemma_more_parameters(inp, p + lost.used, lost.said);
            }
        } else {
            lemma_parameter(inp, p + 1, comma.said);
            let one = recovered(
                inp,
                p + 1,
                parameter_step(inp, p + 1, comma.said),
                parameter_stops(),
            );
            if one.ok || is_kind(inp, p + 1 + one.used, TokenType::Comma) {
                lemma_more_parameters(inp, p + 1 + one.used, one.said);
            }
        }
    }
}

/// The check of a list of parameters agrees with the grammar.
pub proof fn lemma_parameters(inp: Input, p: nat, told: Seq<Seq<char>>)
    ensures
        agrees(parameters_step(inp, p, told), told, parameters_len(inp, p)),
{
    reveal(parameters_step);
    reveal(parameter_list_step);
    if !is_kind(inp, p, TokenType::RParen) {
        lemma_parameter(inp, p, told);
        let one = recovered(inp, p, parameter_step(inp, p, told), parameter_stops());
        lemma_more_parameters(inp, p + one.used, one.said);
    }
}

/// The check of the type of a result agrees with the grammar.
pub proof fn lemma_return_type(inp: Input, p: nat, told: Seq<Seq<char>>)
    ensures
        agrees(return_type_step(inp, p, told), told, return_type_len(inp, p)),
{
    reveal(return_type_step);
}

/// The check of the declaration of a function agrees with the grammar.
pub proof fn lemma_function_declaration(inp: Input, p: nat, told: Seq<Seq<char>>)
    ensures
        agrees(
            function_declaration_step(inp, p, told),
            told,
            function_declaration_len(inp, p),
        ),
{
    reveal(function_declaration_step);
    reveal(declaration_open_step);
    reveal(declaration_parameters_step);
    reveal(declaration_close_step);
    let name = recovered(inp, p, expected(inp, p, TokenType::Identifier, told), name_stops());
    let q1 = p + name.used;
    let open = recovered(inp, q1, expected(inp, q1, TokenType::LParen, name.said), open_stops());
    let q2 = q1 + open.used;
    lemma_parameters(inp, q2, open.said);
    let list = recovered(inp, q2, parameters_step(inp, q2, open.said), close_stops());
    let q3 = q2 + list.used;
    let close = recovered(inp, q3, expected(inp, q3, TokenType::RParen, list.said), result_stops());
    let q4 = q3 + close.used;
    lemma_return_type(inp, q4, close.said);
}

// Statements.

/// The check of the declaration of a variable agrees with the grammar.
pub proof fn lemma_variable_declaration(inp: Input, p: nat, told: Seq<Seq<char>>)
    ensures
        agrees(
            variable_declaration_step(inp, p, told),
            told,
            variable_declaration_len(inp, p),
        ),
{
    reveal(variable_declaration_step);
    let stops = line_stops();
    let keyword = recovered(inp, p, expected(inp, p, TokenType::Let, told), stops);
    let name = recovered(
        inp,
        p + 1,
        expected(inp, p + 1, TokenType::Identifier, keyword.said),
        stops,
    );
    let colon = recovered(inp, p + 2, expected(inp, p + 2, TokenType::Colon, name.said), stops);
    lemma_value_type(inp, p + 3, colon.said);
    let kind = recovered(inp, p + 3, value_type_step(inp, p + 3, colon.said), stops);
    let assign = recovered(inp, p + 4, expected(inp, p + 4, TokenType::Assign, kind.said), stops);
    lemma_expression(inp, p + 5, assign.said);
}

/// The check of an assignment agrees with the grammar.
pub proof fn lemma_variable_assignment(inp: Input, p: nat, told: Seq<Seq<char>>)
    ensures
        agrees(variable_assignment_step(inp, p, told), told, variable_assignment_len(inp, p)),
{
    reveal(variable_assignment_step);
    let name = expected(inp, p, TokenType::Identifier, told);
    let assign = expected(inp, p + 1, TokenType::Assign, name.said);
    lemma_expression(inp, p + 2, assign.said);
}

/// The check of the arguments behind the first agrees with the grammar.
pub proof fn lemma_more_arguments(inp: Input, p: nat, told: Seq<Seq<char>>)
    ensures
        agrees(more_arguments_step(inp, p, told), told, more_arguments_len(inp, p)),
    decreases left(inp, p),
{
    reveal(more_arguments_step);
    if !is_kind(inp, p, TokenType::RParen) {
        let comma = expected(inp, p, TokenType::Comma, told);
        if !comma.ok {
            let lost = recovered(inp, p, comma, argument_stops());
            if is_kind(inp, p + lost.used, TokenType::Comma) {
                lemma_more_arguments(inp, p + lost.used, lost.said);
            }
        } else {
            lemma_expression(inp, p + 1, comma.said);
            let one = recovered(
                inp,
                p + 1,
                expression_step(inp, p + 1, comma.said),
                argument_stops(),
            );
            if one.ok || is_kind(inp, p + 1 + one.used, TokenType::Comma) {
                lemma_more_arguments(inp, p + 1 + one.used, one.said);
            }
        }
    }
}

/// The check of a list of arguments agrees with the grammar.
pub proof fn lemma_arguments(inp: Input, p: nat, told: Seq<Seq<char>>)
    ensures
        agrees(arguments_step(inp, p, told), told, arguments_len(inp, p)),
{
    reveal(arguments_step);
    reveal(argument_list_step);
    if !is_kind(inp, p, TokenType::RParen) {
        lemma_expression(inp, p, told);
        let one = recovered(inp, p, expression_step(inp, p, told), argument_stops());
        if one.ok || is_kind(inp, p + one.used, TokenType::Comma) {
            lemma_more_arguments(inp, p + one.used, one.said);
        }
    }
}

/// The check of a function call agrees with the grammar.
pub proof fn lemma_function_call(inp: Input, p: nat, told: Seq<Seq<char>>)
    ensures
        agrees(function_call_step(inp, p, told), told, function_call_len(inp, p)),
{
    reveal(function_call_step);
    let name = expected(inp, p, TokenType::Identifier, told);
    let open = expected(inp, p + 1, TokenType::LParen, name.said);
    lemma_arguments(inp, p + 2, open.said);
}

/// The check of a statement that starts with an identifier agrees with the grammar.
pub proof fn lemma_assignment_or_call(inp: Input, p: nat, told: Seq<Seq<char>>)
    ensures
        agrees(assignment_or_call_step(inp, p, told), told, assignment_or_call_len(inp, p)),
{
    reveal(assignment_or_call_step);
    lemma_function_call(inp, p, told);
    lemma_variable_assignment(inp, p, told);
}

/// The check of an assignment that may be left out agrees with the grammar.
pub proof fn lemma_optional_assignment(inp: Input, p: nat, told: Seq<Seq<char>>)
    ensures
        agrees(optional_assignment_step(inp, p, told), told, optional_assignment_len(inp, p)),
{
    reveal(optional_assignment_step);
    lemma_variable_assignment(inp, p, told);
}

/// The check of the head of a `for` loop agrees with the grammar.
pub proof fn lemma_loop_head(inp: Input, p: nat, told: Seq<Seq<char>>)
    ensures
        agrees(loop_head_step(inp, p, told), told, loop_head_len(inp, p)),
{
    reveal(loop_head_step);
    reveal(loop_start_step);
    lemma_variable_declaration(inp, p, told);
    lemma_optional_assignment(inp, p, told);
    let start = if is_kind(inp, p, TokenType::SemiColon) {
        Step { ok: true, used: 0, said: told }
    } else {
        loop_start_step(inp, p, told)
    };
    let q1 = p + start.used;
    let first = expected(inp, q1, TokenType::SemiColon, start.said);
    let q2 = q1 + first.used;
    lemma_expression(inp, q2, first.said);
    let test = if is_kind(inp, q2, TokenType::SemiColon) {
        Step { ok: true, used: 0, said: first.said }
    } else {
        expression_step(inp, q2, first.said)
    };
    let q3 = q2 + test.used;
    let second = expected(inp, q3, TokenType::SemiColon, test.said);
    let q4 = q3 + second.used;
    lemma_optional_assignment(inp, q4, second.said);
}

/// The check of a condition agrees with the grammar.
pub proof fn lemma_condition(inp: Input, p: nat, told: Seq<Seq<char>>)
    ensures
        agrees(condition_step(inp, p, told), told, condition_len(inp, p)),
{
    reveal(condition_step);
    let open = expected(inp, p, TokenType::LParen, told);
    lemma_expression(inp, p + open.used, open.said);
}

/// Whether the step `step` of a statement at `p` agrees with the
/// grammar. At the end of the input, where no statement stands, the step
/// fails without a diagnostic: the block that wants its closing brace
/// registers one.
pub open spec fn statement_agrees(
    inp: Input,
    p: nat,
    step: Step,
    told: Seq<Seq<char>>,
    phrase: Option<nat>,
) -> bool {
    &&& step.said.len() >= told.len()
    &&& match phrase {
        Some(n) => step.ok && step.used == n && step.said == told,
        None => step.said.len() > told.len() || (p >= inp.items.len() && step == fail(told)),
    }
}

/// The check of a block agrees with the grammar.
pub proof fn lemma_block(inp: Input, p: nat, told: Seq<Seq<char>>)
    ensures
        agrees(block_step(inp, p, told), told, block_len(inp, p)),
    decreases left(inp, p), 3nat,
{
    reveal(block_step);
    reveal(statements_step);
    if is_kind(inp, p, TokenType::LBrace) {
        lemma_statements(inp, p + 1, told);
    }
}

/// The statements of a block and the closing brace behind them.
pub proof fn lemma_statements(inp: Input, p: nat, told: Seq<Seq<char>>)
    ensures
        ({
            let body = statements_step(inp, p, told);
            agrees(
                after(body, expected(inp, p + body.used, TokenType::RBrace, body.said)),
                told,
                block_rest_len(inp, p),
            )
        }),
    decreases left(inp, p), 11nat,
{
    reveal(statements_step);
    reveal(statement_step);
    if !is_kind(inp, p, TokenType::RBrace) {
        lemma_statement(inp, p, told);
        let one = recovered(inp, p, statement_step(inp, p, told), statement_stops());
        let q = p + one.used;
        let resumes = one.ok || is_kind(inp, q, TokenType::RBrace) || is_kind(
            inp,
            q,
            TokenType::SemiColon,
        );
        if resumes && left(inp, q) < left(inp, p) {
            lemma_statements(inp, q, one.said);
        }
        if statement_len(inp, p) is Some {
            lemma_statement_moves(inp, p, told);
        }
    }
}

/// The check of a statement agrees with the grammar.
pub proof fn lemma_statement(inp: Input, p: nat, told: Seq<Seq<char>>)
    ensures
        statement_agrees(inp, p, statement_step(inp, p, told), told, statement_len(inp, p)),
    decreases left(inp, p), 10nat,
{
    reveal(statement_step);
    reveal(block_step);
    reveal(for_loop_step);
    reveal(if_statement_step);
    if p < inp.items.len() {
        if is_kind(inp, p, TokenType::SemiColon) {
        } else if is_kind(inp, p, TokenType::Let) {
            lemma_variable_declaration(inp, p, told);
        } else if is_kind(inp, p, TokenType::LBrace) {
            lemma_block(inp, p, told);
        } else if is_kind(inp, p, TokenType::Identifier) {
            lemma_assignment_or_call(inp, p, told);
        } else if is_kind(inp, p, TokenType::For) {
            lemma_for_loop(inp, p, told);
        } else if is_kind(inp, p, TokenType::If) {
            lemma_if_statement(inp, p, told);
        }
    }
}

/// The check of a `for` loop agrees with the grammar.
pub proof fn lemma_for_loop(inp: Input, p: nat, told: Seq<Seq<char>>)
    ensures
        agrees(for_loop_step(inp, p, told), told, for_loop_len(inp, p)),
    decreases left(inp, p), 7nat,
{
    reveal(for_loop_step);
    reveal(block_step);
    let keyword = expected(inp, p, TokenType::For, told);
    if keyword.ok {
        let open = recovered(
            inp,
            p + 1,
            expected(inp, p + 1, TokenType::LParen, keyword.said),
            loop_stops(),
        );
        if open.ok {
            lemma_loop_head(inp, p + 2, open.said);
            let head = loop_head_step(inp, p + 2, open.said);
            let q = p + 2 + head.used;
            let close = recovered(
                inp,
                q,
                expected(inp, q, TokenType::RParen, head.said),
                loop_stops(),
            );
            if close.ok {
                lemma_block(inp, q + 1, close.said);
            }
        }
    }
}

/// The check of the block of a branch agrees with the grammar.
pub proof fn lemma_branch_block(inp: Input, p: nat, told: Seq<Seq<char>>)
    ensures
        agrees(branch_block_step(inp, p, told), told, block_len(inp, p)),
    decreases left(inp, p), 4nat,
{
    reveal(branch_block_step);
    reveal(block_step);
    if is_kind(inp, p, TokenType::LBrace) {
        lemma_block(inp, p, told);
    }
}

/// The check of the block behind `else` agrees with the grammar.
pub proof fn lemma_else_block(inp: Input, p: nat, told: Seq<Seq<char>>)
    ensures
        agrees(else_block_step(inp, p, told), told, block_len(inp, p)),
    decreases left(inp, p), 5nat,
{
    reveal(else_block_step);
    reveal(block_step);
    reveal(branch_block_step);
    if is_kind(inp, p, TokenType::LParen) {
        let lost = skip(
            inp,
            p,
            blamed(inp, p, else_condition_text(shown(inp, p)), told),
            branch_stops(),
        );
        if is_kind(inp, p + lost.used, TokenType::LBrace) {
            lemma_block(inp, p + lost.used, lost.said);
        }
    } else {
        lemma_branch_block(inp, p, told);
    }
}

/// The check of a chain of `elif` branches agrees with the grammar.
pub proof fn lemma_elif_chain(inp: Input, p: nat, told: Seq<Seq<char>>)
    ensures
        agrees(elif_chain_step(inp, p, told), told, elif_chain_len(inp, p)),
    decreases left(inp, p), 6nat,
{
    reveal(elif_chain_step);
    reveal(branch_block_step);
    if is_kind(inp, p, TokenType::ElseIf) {
        lemma_condition(inp, p + 1, told);
        let test = condition_step(inp, p + 1, told);
        lemma_branch_block(inp, p + 1 + test.used, test.said);
        let block = branch_block_step(inp, p + 1 + test.used, test.said);
        lemma_elif_chain(inp, p + 1 + test.used + block.used, block.said);
    }
}

/// The check of an `else` branch agrees with the grammar.
pub proof fn lemma_else_branch(inp: Input, p: nat, told: Seq<Seq<char>>)
    ensures
        agrees(else_branch_step(inp, p, told), told, else_branch_len(inp, p)),
    decreases left(inp, p), 6nat,
{
    reveal(else_branch_step);
    reveal(else_block_step);
    if is_kind(inp, p, TokenType::Else) {
        lemma_else_block(inp, p + 1, told);
    }
}

/// A branch behind the `else` block is reported, and where there is none,
/// nothing is taken up.
pub proof fn lemma_misplaced_branches(inp: Input, p: nat, told: Seq<Seq<char>>)
    ensures
        ({
            let stray = misplaced_branches_step(inp, p, told);
            if is_kind(inp, p, TokenType::ElseIf) || is_kind(inp, p, TokenType::Else) {
                stray.said.len() > told.len()
            } else {
                stray == Step { ok: true, used: 0, said: told }
            }
        }),
    decreases left(inp, p), 6nat,
{
    reveal(misplaced_branches_step);
    reveal(branch_block_step);
    reveal(else_block_step);
    if is_kind(inp, p, TokenType::ElseIf) {
        let report = blamed(inp, p, misplaced_branch_text(shown(inp, p)), told);
        lemma_condition(inp, p + 1, report.said);
        let test = condition_step(inp, p + 1, report.said);
        lemma_branch_block(inp, p + 1 + test.used, test.said);
        let block = branch_block_step(inp, p + 1 + test.used, test.said);
        let q = p + 1 + test.used + block.used;
        lemma_misplaced_branches(inp, q, block.said);
    } else if is_kind(inp, p, TokenType::Else) {
        let report = blamed(inp, p, misplaced_branch_text(shown(inp, p)), told);
        lemma_else_block(inp, p + 1, report.said);
        let block = else_block_step(inp, p + 1, report.said);
        lemma_misplaced_branches(inp, p + 1 + block.used, block.said);
    }
}

/// The check of the branches behind the first agrees with the grammar.
pub proof fn lemma_more_branches(inp: Input, p: nat, told: Seq<Seq<char>>)
    ensures
        agrees(more_branches_step(inp, p, told), told, more_branches_len(inp, p)),
    decreases left(inp, p), 7nat,
{
    reveal(more_branches_step);
    reveal(elif_chain_step);
    reveal(else_branch_step);
    reveal(misplaced_branches_step);
    lemma_elif_chain(inp, p, told);
    let chain = elif_chain_step(inp, p, told);
    let q1 = p + chain.used;
    lemma_else_branch(inp, q1, chain.said);
    let last = else_branch_step(inp, q1, chain.said);
    let q2 = q1 + last.used;
    lemma_misplaced_branches(inp, q2, last.said);
}

/// The check of an `if` statement agrees with the grammar.
pub proof fn lemma_if_statement(inp: Input, p: nat, told: Seq<Seq<char>>)
    ensures
        agrees(if_statement_step(inp, p, told), told, if_statement_len(inp, p)),
    decreases left(inp, p), 8nat,
{
    reveal(if_statement_step);
    reveal(branch_block_step);
    reveal(more_branches_step);
    let keyword = expected(inp, p, TokenType::If, told);
    lemma_condition(inp, p + keyword.used, keyword.said);
    let test = condition_step(inp, p + keyword.used, keyword.said);
    let q1 = p + keyword.used + test.used;
    lemma_branch_block(inp, q1, test.said);
    let block = branch_block_step(inp, q1, test.said);
    lemma_more_branches(inp, q1 + block.used, block.said);
}

// Functions and programs.

/// The check of a function agrees with the grammar.
pub proof fn lemma_function(inp: Input, p: nat, told: Seq<Seq<char>>)
    ensures
        agrees(function_step(inp, p, told), told, function_len(inp, p)),
{
    reveal(function_step);
    lemma_function_declaration(inp, p, told);
    let declared = recovered(inp, p, function_declaration_step(inp, p, told), body_stops());
    lemma_block(inp, p + declared.used, declared.said);
}

/// Functions to the end of the input: nothing is registered exactly
/// where each token that starts a top-level item is a `fn` that a function
/// stands behind.
pub proof fn lemma_functions(inp: Input, p: nat, told: Seq<Seq<char>>)
    ensures
        functions_step(inp, p, told).said.len() >= told.len(),
        functions_len(inp, p) is Some <==> functions_step(inp, p, told).said == told,
        functions_len(inp, p) is None ==> functions_step(inp, p, told).said.len() > told.len(),
    decreases left(inp, p),
{
    reveal(functions_step);
    reveal(start_token_step);
    if p < inp.items.len() {
        lemma_function(inp, p + 1, told);
        let one = start_token_step(inp, p, told);
        lemma_functions(inp, p + 1 + one.used, one.said);
    }
}

/// The parser registers no diagnostic if and only if the tokens are a
/// program: one function or more, each of them a phrase of the grammar,
/// and nothing else.
pub proof fn lemma_silent_on_programs_only(inp: Input, p: nat)
    ensures
        diagnostics(inp, p).len() == 0 <==> is_program(inp, p),
{
    reveal(program_step);
    lemma_functions(inp, p, Seq::empty());
}

} // verus!
