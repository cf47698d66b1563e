//! The parser: a recursive-descent pass over a token stream that
//! builds no tree. It registers a diagnostic for every violation of the
//! grammar and resumes at a synchronization token, so one pass reports
//! many independent faults.

use vstd::prelude::*;
use vstd::string::*;
use crate::syntax::{
    argument_list_step, argument_stops, arguments_step, assignment_or_call_step, assignment_stops,
    blamed, blamed_end, block_step, block_stops, body_stops, branch_block_step, branch_stops,
    call_stops, close_stops, condition_step, condition_stops, declaration_close_step,
    declaration_open_step, declaration_parameters_step, diagnostics, elif_chain_step,
    else_block_step, else_branch_step, equality_tail_step, expected, expression_2_step,
    expression_3_step, expression_step, factor_step, factor_text, for_loop_step,
    function_call_step, function_declaration_step, function_step, function_stops, functions_step,
    if_statement_step, is_kind, is_sign, left, lemma_statement_moves, less_more_tail_step,
    line_stops, loop_head_step, loop_start_step, loop_stops, misplaced_branches_step,
    more_arguments_step, more_branches_step, more_parameters_step, mult_div_tail_step, name_stops,
    open_stops, optional_assignment_step, parameter_list_step, parameter_step, parameter_stops,
    parameters_step, pass, plus_minus_tail_step, program_step, result_stops, return_type_step,
    shown, skip, skipped, start_token_step, statement_step, statement_stops, statements_step,
    term_step, value_type_step, variable_assignment_step, variable_declaration_step, Input, Step,
};
use crate::conformance::lemma_silent_on_programs_only;
use crate::grammar::is_program;
use crate::text::{diagnostic_text, format_diagnostic};
use crate::token::{rendered, resolves, spelled, SyntaxToken, Tokens, TokenSubType, TokenType};

verus! {

/// Checks the tokens of `tokens` from its cursor on against the grammar.
/// The result is `Ok` if they form a program, and the diagnostics of all
/// the faults found if they do not.
pub fn parse(tokens: Tokens) -> (checked: Result<(), Vec<String>>)
    requires
        tokens.well_formed(),
    ensures
        ({
            let told = diagnostics(
                Input { items: tokens.items(), texts: tokens.texts() },
                tokens.cursor(),
            );
            match checked {
                Ok(_) => told.len() == 0,
                Err(errors) => errors@.len() > 0 && spelled(errors@) == told,
            }
        }),
        checked is Ok <==> is_program(
            Input { items: tokens.items(), texts: tokens.texts() },
            tokens.cursor(),
        ),
{
    proof {
        lemma_silent_on_programs_only(
            Input { items: tokens.items(), texts: tokens.texts() },
            tokens.cursor(),
        );
    }
    let mut parser = Parser::new(tokens);
    parser.parse();
    if parser.errors.len() == 0 {
        Ok(())
    } else {
        Err(parser.errors)
    }
}

/// The synchronization set `function_stops`, as the list that recovery takes.
fn sync_function() -> (stops: Vec<TokenType>)
    ensures
        stops@ == function_stops(),
{
    let stops = vec![TokenType::Fn];
    assert(stops@ =~= function_stops());
    stops
}

/// The synchronization set `body_stops`, as the list that recovery takes.
fn sync_body() -> (stops: Vec<TokenType>)
    ensures
        stops@ == body_stops(),
{
    let stops = vec![TokenType::LBrace, TokenType::Fn];
    assert(stops@ =~= body_stops());
    stops
}

/// The synchronization set `name_stops`, as the list that recovery takes.
fn sync_name() -> (stops: Vec<TokenType>)
    ensures
        stops@ == name_stops(),
{
    let stops = vec![TokenType::Fn, TokenType::LBrace, TokenType::LParen];
    assert(stops@ =~= name_stops());
    stops
}

/// The synchronization set `open_stops`, as the list that recovery takes.
fn sync_open() -> (stops: Vec<TokenType>)
    ensures
        stops@ == open_stops(),
{
    let stops = vec![TokenType::Fn, TokenType::LBrace, TokenType::RParen, TokenType::Identifier];
    assert(stops@ =~= open_stops());
    stops
}

/// The synchronization set `close_stops`, as the list that recovery takes.
fn sync_close() -> (stops: Vec<TokenType>)
    ensures
        stops@ == close_stops(),
{
    let stops = vec![TokenType::Fn, TokenType::LBrace, TokenType::RParen];
    assert(stops@ =~= close_stops());
    stops
}

/// The synchronization set `result_stops`, as the list that recovery takes.
fn sync_result() -> (stops: Vec<TokenType>)
    ensures
        stops@ == result_stops(),
{
    let stops = vec![TokenType::Fn, TokenType::LBrace, TokenType::Colon];
    assert(stops@ =~= result_stops());
    stops
}

/// The synchronization set `parameter_stops`, as the list that recovery takes.
fn sync_parameter() -> (stops: Vec<TokenType>)
    ensures
        stops@ == parameter_stops(),
{
    let stops = vec![TokenType::Fn, TokenType::Comma, TokenType::RParen, TokenType::LBrace];
    assert(stops@ =~= parameter_stops());
    stops
}

/// The synchronization set `block_stops`, as the list that recovery takes.
fn sync_block() -> (stops: Vec<TokenType>)
    ensures
        stops@ == block_stops(),
{
    let stops = vec![TokenType::RBrace];
    assert(stops@ =~= block_stops());
    stops
}

/// The synchronization set `statement_stops`, as the list that recovery takes.
fn sync_statement() -> (stops: Vec<TokenType>)
    ensures
        stops@ == statement_stops(),
{
    let stops = vec![TokenType::RBrace, TokenType::SemiColon, TokenType::Fn];
    assert(stops@ =~= statement_stops());
    stops
}

/// The synchronization set `line_stops`, as the list that recovery takes.
fn sync_line() -> (stops: Vec<TokenType>)
    ensures
        stops@ == line_stops(),
{
    let stops = vec![TokenType::RBrace, TokenType::SemiColon];
    assert(stops@ =~= line_stops());
    stops
}

/// The synchronization set `call_stops`, as the list that recovery takes.
fn sync_call() -> (stops: Vec<TokenType>)
    ensures
        stops@ == call_stops(),
{
    let stops = vec![TokenType::SemiColon];
    assert(stops@ =~= call_stops());
    stops
}

/// The synchronization set `assignment_stops`, as the list that recovery takes.
fn sync_assignment() -> (stops: Vec<TokenType>)
    ensures
        stops@ == assignment_stops(),
{
    let stops = vec![TokenType::SemiColon, TokenType::LBrace, TokenType::RBrace, TokenType::Fn];
    assert(stops@ =~= assignment_stops());
    stops
}

/// The synchronization set `argument_stops`, as the list that recovery takes.
fn sync_argument() -> (stops: Vec<TokenType>)
    ensures
        stops@ == argument_stops(),
{
    let stops = vec![
        TokenType::SemiColon,
        TokenType::Comma,
        TokenType::RBrace,
        TokenType::LBrace,
        TokenType::Fn,
    ];
    assert(stops@ =~= argument_stops());
    stops
}

/// The synchronization set `loop_stops`, as the list that recovery takes.
fn sync_loop() -> (stops: Vec<TokenType>)
    ensures
        stops@ == loop_stops(),
{
    let stops = vec![TokenType::LBrace, TokenType::SemiColon, TokenType::Fn];
    assert(stops@ =~= loop_stops());
    stops
}

/// The synchronization set `condition_stops`, as the list that recovery takes.
fn sync_condition() -> (stops: Vec<TokenType>)
    ensures
        stops@ == condition_stops(),
{
    let stops = vec![
        TokenType::RParen,
        TokenType::LBrace,
        TokenType::RBrace,
        TokenType::SemiColon,
        TokenType::Fn,
    ];
    assert(stops@ =~= condition_stops());
    stops
}

/// The synchronization set `branch_stops`, as the list that recovery takes.
fn sync_branch() -> (stops: Vec<TokenType>)
    ensures
        stops@ == branch_stops(),
{
    let stops = vec![TokenType::LBrace, TokenType::RBrace, TokenType::SemiColon, TokenType::Fn];
    assert(stops@ =~= branch_stops());
    stops
}

/// Whether `kind` is among `kinds`.
fn among(kinds: &Vec<TokenType>, kind: TokenType) -> (found: bool)
    ensures
        found == kinds@.contains(kind),
{
    let mut i: usize = 0;
    while i < kinds.len()
        invariant
            i <= kinds.len(),
            forall|j: int| 0 <= j < i ==> kinds@[j] != kind,
        decreases kinds.len() - i,
    {
        if kinds[i] == kind {
            return true;
        }
        i += 1;
    }
    false
}

/// The texts of a list of diagnostics that one more was added to.
pub proof fn lemma_spelled_push(table: Seq<String>, last: String)
    ensures
        spelled(table.push(last)) == spelled(table).push(last@),
{
    assert(spelled(table.push(last)) =~= spelled(table).push(last@));
}

struct Parser {
    tokens: Tokens,
    errors: Vec<String>,
}

impl Parser {
    /// What is being checked.
    spec fn input(&self) -> Input {
        Input { items: self.tokens.items(), texts: self.tokens.texts() }
    }

    /// The position of the token that is read next.
    spec fn at(&self) -> nat {
        self.tokens.cursor()
    }

    /// Every token can be shown in a diagnostic.
    spec fn wf(&self) -> bool {
        self.tokens.well_formed()
    }

    /// The diagnostics registered so far.
    spec fn told(&self) -> Seq<Seq<char>> {
        spelled(self.errors@)
    }

    /// This parser is what `before` becomes by the step `step`.
    spec fn follows(&self, before: &Parser, step: Step) -> bool {
        &&& self.wf()
        &&& self.input() == before.input()
        &&& self.at() == before.at() + step.used
        &&& self.told() == step.said
    }

    fn new(tokens: Tokens) -> (parser: Parser)
        requires
            tokens.well_formed(),
        ensures
            parser.wf(),
            parser.tokens == tokens,
            parser.errors@.len() == 0,
    {
        Parser { tokens: tokens, errors: Vec::new() }
    }

    /// Checks the whole input and collects the diagnostics.
    fn parse(&mut self)
        requires
            old(self).wf(),
            old(self).errors@.len() == 0,
        ensures
            final(self).told() == diagnostics(old(self).input(), old(self).at()),
    {
        let ghost inp = self.input();
        let ghost start = self.at();
        proof {
            reveal(program_step);
        }
        assert(self.told() =~= Seq::<Seq<char>>::empty());
        if self.tokens.invalid_pos() {
            let mut message = String::from_str("Expected token of type ");
            message.append(TokenType::Fn.name());
            message.append(". Instead found end-of-file");
            self.register_error_at_end(message);
            return ;
        }
        loop
            invariant
                self.wf(),
                self.input() == inp,
                functions_step(inp, start, Seq::empty()).said == functions_step(
                    inp,
                    self.at(),
                    self.told(),
                ).said,
            ensures
                functions_step(inp, start, Seq::empty()).said == self.told(),
            decreases left(inp, self.at()),
        {
            proof {
                reveal(functions_step);
            }
            let next_token = self.tokens.next();

            match next_token {
                Some(token) => self.parse_start_token(token),
                None => break ,
            }
        }
    }

    fn parse_start_token(&mut self, token: SyntaxToken)
        requires
            old(self).wf(),
            old(self).at() >= 1,
            old(self).at() <= old(self).input().items.len(),
            token == old(self).input().items[old(self).at() - 1],
        ensures
            final(self).follows(
                old(self),
                start_token_step(
                    old(self).input(),
                    (old(self).at() - 1) as nat,
                    old(self).told(),
                ),
            ),
    {
        proof {
            reveal(start_token_step);
        }
        match token.t_type {
            TokenType::Fn => {
                self.parse_function();
            },
            _ => {
                let token_str = self.tokens.to_string(&token);
                let mut message = String::from_str("Invalid token ");
                message.append(token_str.as_str());
                message.append(". Expected token ");
                message.append(TokenType::Fn.name());
                self.register_error_and_skip_to(message, &token, sync_function());
            },
        }
    }

    fn parse_function(&mut self) -> (ok: bool)
        requires
            old(self).wf(),
        ensures
            final(self).follows(
                old(self),
                function_step(old(self).input(), old(self).at(), old(self).told()),
            ),
            ok == function_step(old(self).input(), old(self).at(), old(self).told()).ok,
    {
        proof {
            reveal(function_step);
        }
        let mut success = true;
        if !self.parse_function_declaration() {
            self.skip_to_first_of(sync_body());
            success = false;
            // with the block in sight its statements can still be checked;
            // without it too much is broken to go on
            if !self.next_token_is(TokenType::LBrace) {
                return false;
            }
        }

        self.parse_block() && success
    }

    fn parse_function_declaration(&mut self) -> (ok: bool)
        requires
            old(self).wf(),
        ensures
            final(self).follows(
                old(self),
                function_declaration_step(old(self).input(), old(self).at(), old(self).told()),
            ),
            ok == function_declaration_step(old(self).input(), old(self).at(), old(self).told()).ok,
    {
        proof {
            reveal(function_declaration_step);
            reveal(declaration_open_step);
            reveal(declaration_parameters_step);
            reveal(declaration_close_step);
        }
        let mut success = true;

        if !self.expect(TokenType::Identifier) {
            // skip to the start of the block or of the parameter list
            self.skip_to_first_of(sync_name());
            success = false;
            // go on only at the start of the parameter list, to see
            // whether more is wrong there
            if !self.next_token_is(TokenType::LParen) {
                return false;
            }
        }

        if !self.expect(TokenType::LParen) {
            self.skip_to_first_of(
                sync_open(),
            );
            success = false;
            if self.next_token_is(TokenType::RParen) || self.next_token_is(TokenType::Identifier) {
                // go on
            } else {
                return false;
            }
        }

        if !self.parse_function_parameters() {
            self.skip_to_first_of(sync_close());
            success = false;
            if !self.next_token_is(TokenType::RParen) {
                return false;
            }
        }

        if !self.expect(TokenType::RParen) {
            self.skip_to_first_of(sync_result());
            success = false;
            if !self.next_token_is(TokenType::Colon) {
                return false;
            }
        }

        self.parse_optional_return_type() && success
    }

    fn parse_function_parameters(&mut self) -> (ok: bool)
        requires
            old(self).wf(),
        ensures
            final(self).follows(
                old(self),
                parameters_step(old(self).input(), old(self).at(), old(self).told()),
            ),
            ok == parameters_step(old(self).input(), old(self).at(), old(self).told()).ok,
    {
        proof {
            reveal(parameters_step);
        }
        if self.next_token_is(TokenType::RParen) {
            true
        } else {
            self.parse_function_parameter_list()
        }
    }

    fn parse_function_parameter_list(&mut self) -> (ok: bool)
        requires
            old(self).wf(),
        ensures
            final(self).follows(
                old(self),
                parameter_list_step(old(self).input(), old(self).at(), old(self).told()),
            ),
            ok == parameter_list_step(old(self).input(), old(self).at(), old(self).told()).ok,
    {
        proof {
            reveal(parameter_list_step);
        }
        let mut success = true;

        if !self.parse_function_parameter() {
            success = false;
            self.skip_to_first_of(
                sync_parameter(),
            );

            // the whole list was passed over, up to the block or the next
            // function
            if self.next_token_is(TokenType::LBrace) || self.next_token_is(TokenType::Fn) {
                return false;
            }
        }

        self.parse_additional_parameters() && success
    }

    fn parse_additional_parameters(&mut self) -> (ok: bool)
        requires
            old(self).wf(),
        ensures
            final(self).follows(
                old(self),
                more_parameters_step(old(self).input(), old(self).at(), old(self).told()),
            ),
            ok == more_parameters_step(old(self).input(), old(self).at(), old(self).told()).ok,
        decreases left(old(self).input(), old(self).at()),
    {
        proof {
            reveal(more_parameters_step);
        }
        if self.next_token_is(TokenType::RParen) {
            return true;
        }

        if !self.expect(TokenType::Comma) {
            self.skip_to_first_of(
                sync_parameter(),
            );

            if self.next_token_is(TokenType::Comma) {
                self.parse_additional_parameters();
            }

            return false;
        }

        let mut success = true;
        if !self.parse_function_parameter() {
            success = false;
            self.skip_to_first_of(
                sync_parameter(),
            );
            if !self.next_token_is(TokenType::Comma) {
                return false;
            }
        }

        self.parse_additional_parameters() && success
    }

    fn parse_function_parameter(&mut self) -> (ok: bool)
        requires
            old(self).wf(),
        ensures
            final(self).follows(
                old(self),
                parameter_step(old(self).input(), old(self).at(), old(self).told()),
            ),
            ok == parameter_step(old(self).input(), old(self).at(), old(self).told()).ok,
    {
        proof {
            reveal(parameter_step);
        }
        if !self.expect(TokenType::Identifier) {
            return false;
        }

        if !self.expect(TokenType::Colon) {
            return false;
        }

        self.expect_value_type()
    }

    /// Reads a type, which must not be `void`.
    fn expect_value_type(&mut self) -> (ok: bool)
        requires
            old(self).wf(),
        ensures
            final(self).follows(
                old(self),
                value_type_step(old(self).input(), old(self).at(), old(self).told()),
            ),
            ok == value_type_step(old(self).input(), old(self).at(), old(self).told()).ok,
    {
        proof {
            reveal(value_type_step);
        }
        match self.tokens.peek() {
            Some(token) => {
                if token.t_type == TokenType::VarType && token.t_subtype == TokenSubType::VoidType {
                    self.tokens.next();
                    let token_str = self.tokens.to_string(&token);
                    let mut message = String::from_str("Invalid type ");
                    message.append(token_str.as_str());
                    message.append(". Expected the type of a value");
                    self.register_error(message, &token);
                    return false;
                }
            },
            None => {},
        }
        self.expect(TokenType::VarType)
    }

    fn parse_optional_return_type(&mut self) -> (ok: bool)
        requires
            old(self).wf(),
        ensures
            final(self).follows(
                old(self),
                return_type_step(old(self).input(), old(self).at(), old(self).told()),
            ),
            ok == return_type_step(old(self).input(), old(self).at(), old(self).told()).ok,
    {
        proof {
            reveal(return_type_step);
        }
        if self.next_token_is(TokenType::Colon) {
            self.tokens.next();

            if !self.expect(TokenType::VarType) {
                return false;
            }
        }

        true
    }

    fn parse_block(&mut self) -> (ok: bool)
        requires
            old(self).wf(),
        ensures
            final(self).follows(
                old(self),
                block_step(old(self).input(), old(self).at(), old(self).told()),
            ),
            ok == block_step(old(self).input(), old(self).at(), old(self).told()).ok,
        decreases left(old(self).input(), old(self).at()), 3nat,
    {
        proof {
            reveal(block_step);
            reveal(statements_step);
        }
        if !self.expect(TokenType::LBrace) {
            self.skip_to_first_of(sync_block());
            self.tokens.next();
            return false;
        }
        self.parse_statements();

        self.expect(TokenType::RBrace)
    }

    fn parse_statements(&mut self)
        requires
            old(self).wf(),
        ensures
            final(self).follows(
                old(self),
                statements_step(old(self).input(), old(self).at(), old(self).told()),
            ),
        decreases left(old(self).input(), old(self).at()), 11nat,
    {
        let ghost inp = self.input();
        let ghost whole = statements_step(inp, self.at(), self.told());
        let ghost start = self.at();
        loop
            invariant_except_break
                whole.said == statements_step(inp, self.at(), self.told()).said,
                whole.used == self.at() - start + statements_step(
                    inp,
                    self.at(),
                    self.told(),
                ).used,
            invariant
                self.wf(),
                self.input() == inp,
                inp == old(self).input(),
                start == old(self).at(),
                start <= self.at(),
            ensures
                self.at() == start + whole.used,
                self.told() == whole.said,
            decreases left(inp, self.at()),
        {
            proof {
                reveal(statements_step);
                reveal(statement_step);
            }
            if self.next_token_is(TokenType::RBrace) {
                break ;
            }
            proof {
                lemma_statement_moves(inp, self.at(), self.told());
            }
            if !self.parse_statement() {
                self.skip_to_first_of(sync_statement());

                // neither a closing brace nor a semicolon: the next function
                // or the end of the input has been reached
                if !self.next_token_is(TokenType::RBrace) && !self.next_token_is(
                    TokenType::SemiColon,
                ) {
                    break ;
                }
            }
        }
    }

    fn parse_statement(&mut self) -> (ok: bool)
        requires
            old(self).wf(),
        ensures
            final(self).follows(
                old(self),
                statement_step(old(self).input(), old(self).at(), old(self).told()),
            ),
            ok == statement_step(old(self).input(), old(self).at(), old(self).told()).ok,
        decreases left(old(self).input(), old(self).at()), 10nat,
    {
        proof {
            reveal(statement_step);
            reveal(block_step);
            reveal(for_loop_step);
            reveal(if_statement_step);
        }
        match self.tokens.peek() {
            Some(token) => {
                match token.t_type {
                    TokenType::SemiColon => {
                        // the empty statement
                        self.tokens.next();
                        true
                    },
                    TokenType::Let => self.parse_variable_declaration() && self.expect(
                        TokenType::SemiColon,
                    ),
                    TokenType::LBrace => self.parse_block(),
                    TokenType::Identifier => self.parse_variable_assignment_or_function_call()
                        && self.expect(TokenType::SemiColon),
                    TokenType::For => self.parse_for_loop(),
                    TokenType::If => self.parse_if_statement(),
                    _ => {
                        let token_str = self.tokens.to_string(&token);
                        let mut message = String::from_str("Unexpected token ");
                        message.append(token_str.as_str());
                        message.append(" when expecting start of statement");
                        self.register_error_and_skip_to(
                            message,
                            &token,
                            sync_line(),
                        );
                        false
                    },
                }
            },
            // the statements have ended: the level above deals with it
            None => false,
        }
    }

    fn parse_variable_declaration(&mut self) -> (ok: bool)
        requires
            old(self).wf(),
        ensures
            final(self).follows(
                old(self),
                variable_declaration_step(old(self).input(), old(self).at(), old(self).told()),
            ),
            ok == variable_declaration_step(old(self).input(), old(self).at(), old(self).told()).ok,
    {
        proof {
            reveal(variable_declaration_step);
            reveal(value_type_step);
        }
        if !self.expect(TokenType::Let) {
            self.skip_to_first_of(sync_line());
            return false;
        }
        if !self.expect(TokenType::Identifier) {
            self.skip_to_first_of(sync_line());
            return false;
        }
        if !self.expect(TokenType::Colon) {
            self.skip_to_first_of(sync_line());
            return false;
        }
        if !self.expect_value_type() {
            self.skip_to_first_of(sync_line());
            return false;
        }
        if !self.expect(TokenType::Assign) {
            self.skip_to_first_of(sync_line());
            return false;
        }
        self.parse_expression();

        true
    }

    fn parse_variable_assignment_or_function_call(&mut self) -> (ok: bool)
        requires
            old(self).wf(),
        ensures
            final(self).follows(
                old(self),
                assignment_or_call_step(old(self).input(), old(self).at(), old(self).told()),
            ),
            ok == assignment_or_call_step(old(self).input(), old(self).at(), old(self).told()).ok,
    {
        proof {
            reveal(assignment_or_call_step);
        }
        match self.tokens.peek_second() {
            Some(token) => match token.t_type {
                TokenType::LParen => {
                    if !self.parse_function_call() {
                        self.skip_to_first_of(sync_call());
                        false
                    } else {
                        true
                    }
                },
                TokenType::Assign => if !self.parse_variable_assignment() {
                    self.skip_to_first_of(
                        sync_assignment(),
                    );
                    false
                } else {
                    true
                },
                _ => {
                    let token_str = self.tokens.to_string(&token);
                    let mut message = String::from_str("Unexpected token ");
                    message.append(token_str.as_str());
                    message.append(". Expected ");
                    message.append(TokenType::Assign.name());
                    message.append(" for variable assignment or ");
                    message.append(TokenType::LParen.name());
                    message.append(" for function call");
                    self.register_error_and_skip_to(
                        message,
                        &token,
                        sync_line(),
                    );
                    false
                },
            },
            None => {
                self.register_error_at_end(String::from_str("Unexpected end-of-line"));
                false
            },
        }
    }

    fn parse_function_call(&mut self) -> (ok: bool)
        requires
            old(self).wf(),
        ensures
            final(self).follows(
                old(self),
                function_call_step(old(self).input(), old(self).at(), old(self).told()),
            ),
            ok == function_call_step(old(self).input(), old(self).at(), old(self).told()).ok,
    {
        proof {
            reveal(function_call_step);
        }
        if !self.expect(TokenType::Identifier) {
            return false;
        }

        if !self.expect(TokenType::LParen) {
            return false;
        }

        if !self.parse_optional_function_call_argument_list() {
            return false;
        }

        if !self.expect(TokenType::RParen) {
            self.skip_to_first_of(sync_call());
            return false;
        }

        true
    }

    fn parse_optional_function_call_argument_list(&mut self) -> (ok: bool)
        requires
            old(self).wf(),
        ensures
            final(self).follows(
                old(self),
                arguments_step(old(self).input(), old(self).at(), old(self).told()),
            ),
            ok == arguments_step(old(self).input(), old(self).at(), old(self).told()).ok,
    {
        proof {
            reveal(arguments_step);
        }
        if self.next_token_is(TokenType::RParen) {
            return true;
        }

        self.parse_function_call_argument_list()
    }

    fn parse_function_call_argument_list(&mut self) -> (ok: bool)
        requires
            old(self).wf(),
        ensures
            final(self).follows(
                old(self),
                argument_list_step(old(self).input(), old(self).at(), old(self).told()),
            ),
            ok == argument_list_step(old(self).input(), old(self).at(), old(self).told()).ok,
    {
        proof {
            reveal(argument_list_step);
        }
        let mut success = true;

        if !self.parse_expression() {
            success = false;
            self.skip_to_first_of(
                sync_argument(),
            );

            // go on at a comma, give up anywhere else
            if !self.next_token_is(TokenType::Comma) {
                return false;
            }
        }

        self.parse_additional_function_call_arguments() && success
    }

    fn parse_additional_function_call_arguments(&mut self) -> (ok: bool)
        requires
            old(self).wf(),
        ensures
            final(self).follows(
                old(self),
                more_arguments_step(old(self).input(), old(self).at(), old(self).told()),
            ),
            ok == more_arguments_step(old(self).input(), old(self).at(), old(self).told()).ok,
        decreases left(old(self).input(), old(self).at()),
    {
        proof {
            reveal(more_arguments_step);
        }
        if self.next_token_is(TokenType::RParen) {
            return true;
        }

        let mut success = true;

        if !self.expect(TokenType::Comma) {
            self.skip_to_first_of(
                sync_argument(),
            );

            if self.next_token_is(TokenType::Comma) {
                self.parse_additional_function_call_arguments();
            }

            return false;
        }

        if !self.parse_expression() {
            success = false;
            self.skip_to_first_of(
                sync_argument(),
            );
            if !self.next_token_is(TokenType::Comma) {
                return false;
            }
        }

        self.parse_additional_function_call_arguments() && success
    }

    fn parse_variable_assignment(&mut self) -> (ok: bool)
        requires
            old(self).wf(),
        ensures
            final(self).follows(
                old(self),
                variable_assignment_step(old(self).input(), old(self).at(), old(self).told()),
            ),
            ok == variable_assignment_step(old(self).input(), old(self).at(), old(self).told()).ok,
    {
        proof {
            reveal(variable_assignment_step);
        }
        if !self.expect(TokenType::Identifier) {
            return false;
        }

        if !self.expect(TokenType::Assign) {
            return false;
        }

        if !self.parse_expression() {
            return false;
        }

        true
    }

    fn parse_for_loop(&mut self) -> (ok: bool)
        requires
            old(self).wf(),
        ensures
            final(self).follows(
                old(self),
                for_loop_step(old(self).input(), old(self).at(), old(self).told()),
            ),
            ok == for_loop_step(old(self).input(), old(self).at(), old(self).told()).ok,
        decreases left(old(self).input(), old(self).at()), 7nat,
    {
        proof {
            reveal(for_loop_step);
            reveal(block_step);
        }
        if !self.expect(TokenType::For) {
            return false;
        }

        if !self.expect(TokenType::LParen) {
            self.skip_to_first_of(sync_loop());
            return false;
        }

        self.parse_for_loop_head();

        if !self.expect(TokenType::RParen) {
            self.skip_to_first_of(sync_loop());
            return false;
        }

        self.parse_block()
    }

    /// Checks what stands between the parentheses of a `for` loop.
    fn parse_for_loop_head(&mut self)
        requires
            old(self).wf(),
        ensures
            final(self).follows(
                old(self),
                loop_head_step(old(self).input(), old(self).at(), old(self).told()),
            ),
    {
        proof {
            reveal(loop_head_step);
        }
        if !self.next_token_is(TokenType::SemiColon) {
            self.parse_optional_variable_declaration_or_assignment();
        }

        self.expect(TokenType::SemiColon);

        if !self.next_token_is(TokenType::SemiColon) {
            self.parse_expression();
        }

        self.expect(TokenType::SemiColon);

        if !self.next_token_is(TokenType::RParen) {
            self.parse_optional_variable_assignment();
        }
    }

    fn parse_optional_variable_declaration_or_assignment(&mut self) -> (ok: bool)
        requires
            old(self).wf(),
        ensures
            final(self).follows(
                old(self),
                loop_start_step(old(self).input(), old(self).at(), old(self).told()),
            ),
            ok == loop_start_step(old(self).input(), old(self).at(), old(self).told()).ok,
    {
        proof {
            reveal(loop_start_step);
        }
        if self.next_token_is(TokenType::Let) {
            self.parse_variable_declaration()
        } else {
            self.parse_optional_variable_assignment()
        }
    }

    fn parse_optional_variable_assignment(&mut self) -> (ok: bool)
        requires
            old(self).wf(),
        ensures
            final(self).follows(
                old(self),
                optional_assignment_step(old(self).input(), old(self).at(), old(self).told()),
            ),
            ok == optional_assignment_step(old(self).input(), old(self).at(), old(self).told()).ok,
    {
        proof {
            reveal(optional_assignment_step);
        }
        if self.next_token_is(TokenType::Identifier) {
            self.parse_variable_assignment()
        } else {
            true
        }
    }

    fn parse_if_statement(&mut self) -> (ok: bool)
        requires
            old(self).wf(),
        ensures
            final(self).follows(
                old(self),
                if_statement_step(old(self).input(), old(self).at(), old(self).told()),
            ),
            ok == if_statement_step(old(self).input(), old(self).at(), old(self).told()).ok,
        decreases left(old(self).input(), old(self).at()), 8nat,
    {
        proof {
            reveal(if_statement_step);
            reveal(branch_block_step);
            reveal(more_branches_step);
        }
        let mut success = self.expect(TokenType::If);
        success = self.parse_condition() && success;
        success = self.parse_branch_block() && success;
        self.parse_more_branches() && success
    }

    /// Checks what stands behind the first branch of an `if` statement.
    fn parse_more_branches(&mut self) -> (ok: bool)
        requires
            old(self).wf(),
        ensures
            final(self).follows(
                old(self),
                more_branches_step(old(self).input(), old(self).at(), old(self).told()),
            ),
            ok == more_branches_step(old(self).input(), old(self).at(), old(self).told()).ok,
        decreases left(old(self).input(), old(self).at()), 7nat,
    {
        proof {
            reveal(more_branches_step);
            reveal(elif_chain_step);
            reveal(else_branch_step);
            reveal(misplaced_branches_step);
        }
        let mut success = self.parse_elif_branches();
        success = self.parse_else_branch() && success;
        self.parse_misplaced_branches() && success
    }

    /// Checks the `else` branch of an `if` statement, if it has one.
    fn parse_else_branch(&mut self) -> (ok: bool)
        requires
            old(self).wf(),
        ensures
            final(self).follows(
                old(self),
                else_branch_step(old(self).input(), old(self).at(), old(self).told()),
            ),
            ok == else_branch_step(old(self).input(), old(self).at(), old(self).told()).ok,
        decreases left(old(self).input(), old(self).at()), 6nat,
    {
        proof {
            reveal(else_branch_step);
            reveal(else_block_step);
        }
        if self.next_token_is(TokenType::Else) {
            self.tokens.next();
            self.parse_else_block()
        } else {
            true
        }
    }

    /// Checks the `elif` branches of an `if` statement.
    fn parse_elif_branches(&mut self) -> (ok: bool)
        requires
            old(self).wf(),
        ensures
            final(self).follows(
                old(self),
                elif_chain_step(old(self).input(), old(self).at(), old(self).told()),
            ),
            ok == elif_chain_step(old(self).input(), old(self).at(), old(self).told()).ok,
        decreases left(old(self).input(), old(self).at()), 6nat,
    {
        proof {
            reveal(elif_chain_step);
            reveal(branch_block_step);
        }
        if !self.next_token_is(TokenType::ElseIf) {
            return true;
        }
        self.tokens.next();
        let mut success = self.parse_condition();
        success = self.parse_branch_block() && success;
        self.parse_elif_branches() && success
    }

    /// Reports and checks the branches that stand behind the `else` block
    /// of an `if` statement.
    fn parse_misplaced_branches(&mut self) -> (ok: bool)
        requires
            old(self).wf(),
        ensures
            final(self).follows(
                old(self),
                misplaced_branches_step(old(self).input(), old(self).at(), old(self).told()),
            ),
            ok == misplaced_branches_step(old(self).input(), old(self).at(), old(self).told()).ok,
        decreases left(old(self).input(), old(self).at()), 6nat,
    {
        proof {
            reveal(misplaced_branches_step);
            reveal(branch_block_step);
            reveal(else_block_step);
        }
        match self.tokens.peek() {
            Some(token) => {
                if token.t_type == TokenType::ElseIf || token.t_type == TokenType::Else {
                    self.tokens.next();
                    let token_str = self.tokens.to_string(&token);
                    let mut message = String::from_str("Unexpected token ");
                    message.append(token_str.as_str());
                    message.append(". An if statement ends with its else block");
                    self.register_error(message, &token);
                    if token.t_type == TokenType::ElseIf {
                        self.parse_condition();
                        self.parse_branch_block();
                    } else {
                        self.parse_else_block();
                    }
                    self.parse_misplaced_branches();
                    false
                } else {
                    true
                }
            },
            None => true,
        }
    }

    /// Checks the condition of an `if` or `elif` branch, parentheses
    /// included.
    fn parse_condition(&mut self) -> (ok: bool)
        requires
            old(self).wf(),
        ensures
            final(self).follows(
                old(self),
                condition_step(old(self).input(), old(self).at(), old(self).told()),
            ),
            ok == condition_step(old(self).input(), old(self).at(), old(self).told()).ok,
    {
        proof {
            reveal(condition_step);
        }
        let mut success = self.expect(TokenType::LParen);
        if !self.parse_expression() {
            success = false;
            self.skip_to_first_of(
                sync_condition(),
            );
            if !self.next_token_is(TokenType::RParen) {
                return false;
            }
        }
        self.expect(TokenType::RParen) && success
    }

    /// Checks the block of a branch of an `if` statement.
    fn parse_branch_block(&mut self) -> (ok: bool)
        requires
            old(self).wf(),
        ensures
            final(self).follows(
                old(self),
                branch_block_step(old(self).input(), old(self).at(), old(self).told()),
            ),
            ok == branch_block_step(old(self).input(), old(self).at(), old(self).told()).ok,
        decreases left(old(self).input(), old(self).at()), 4nat,
    {
        proof {
            reveal(branch_block_step);
            reveal(block_step);
        }
        if self.next_token_is(TokenType::LBrace) {
            self.parse_block()
        } else {
            self.expect(TokenType::LBrace)
        }
    }

    /// Checks the block behind `else`.
    fn parse_else_block(&mut self) -> (ok: bool)
        requires
            old(self).wf(),
        ensures
            final(self).follows(
                old(self),
                else_block_step(old(self).input(), old(self).at(), old(self).told()),
            ),
            ok == else_block_step(old(self).input(), old(self).at(), old(self).told()).ok,
        decreases left(old(self).input(), old(self).at()), 5nat,
    {
        proof {
            reveal(else_block_step);
            reveal(block_step);
            reveal(branch_block_step);
        }
        match self.tokens.peek() {
            Some(token) => {
                if token.t_type == TokenType::LParen {
                    let token_str = self.tokens.to_string(&token);
                    let mut message = String::from_str("Unexpected token ");
                    message.append(token_str.as_str());
                    message.append(". An else block takes no condition");
                    self.register_error_and_skip_to(
                        message,
                        &token,
                        sync_branch(),
                    );
                    if self.next_token_is(TokenType::LBrace) {
                        self.parse_block();
                    }
                    return false;
                }
            },
            None => {},
        }
        self.parse_branch_block()
    }

    fn parse_expression(&mut self) -> (ok: bool)
        requires
            old(self).wf(),
        ensures
            final(self).follows(
                old(self),
                expression_step(old(self).input(), old(self).at(), old(self).told()),
            ),
            ok == expression_step(old(self).input(), old(self).at(), old(self).told()).ok,
        decreases left(old(self).input(), old(self).at()), 9nat,
    {
        proof {
            reveal(expression_step);
            reveal(expression_2_step);
            reveal(equality_tail_step);
        }
        self.parse_expression_2() && self.parse_equality_expression()
    }

    fn parse_equality_expression(&mut self) -> (ok: bool)
        requires
            old(self).wf(),
        ensures
            final(self).follows(
                old(self),
                equality_tail_step(old(self).input(), old(self).at(), old(self).told()),
            ),
            ok == equality_tail_step(old(self).input(), old(self).at(), old(self).told()).ok,
        decreases left(old(self).input(), old(self).at()), 8nat,
    {
        proof {
            reveal(equality_tail_step);
            reveal(expression_2_step);
        }
        match self.tokens.peek() {
            Some(token) => {
                if token.t_type == TokenType::CompOp && token.t_subtype == TokenSubType::Equals {
                    self.tokens.next();
                    self.parse_expression_2() && self.parse_equality_expression()
                } else {
                    true
                }
            },
            None => true,
        }
    }

    fn parse_expression_2(&mut self) -> (ok: bool)
        requires
            old(self).wf(),
        ensures
            final(self).follows(
                old(self),
                expression_2_step(old(self).input(), old(self).at(), old(self).told()),
            ),
            ok == expression_2_step(old(self).input(), old(self).at(), old(self).told()).ok,
        decreases left(old(self).input(), old(self).at()), 7nat,
    {
        proof {
            reveal(expression_2_step);
            reveal(expression_3_step);
            reveal(less_more_tail_step);
        }
        self.parse_expression_3() && self.parse_less_more_expression()
    }

    fn parse_less_more_expression(&mut self) -> (ok: bool)
        requires
            old(self).wf(),
        ensures
            final(self).follows(
                old(self),
                less_more_tail_step(old(self).input(), old(self).at(), old(self).told()),
            ),
            ok == less_more_tail_step(old(self).input(), old(self).at(), old(self).told()).ok,
        decreases left(old(self).input(), old(self).at()), 6nat,
    {
        proof {
            reveal(less_more_tail_step);
            reveal(expression_3_step);
        }
        match self.tokens.peek() {
            Some(token) => {
                if token.t_type == TokenType::CompOp {
                    match token.t_subtype {
                        TokenSubType::Lesser
                        | TokenSubType::Greater
                        | TokenSubType::GreaterOrEq
                        | TokenSubType::LesserOrEq => {
                            self.tokens.next();
                            self.parse_expression_3() && self.parse_less_more_expression()
                        },
                        _ => true,
                    }
                } else {
                    true
                }
            },
            None => true,
        }
    }

    fn parse_expression_3(&mut self) -> (ok: bool)
        requires
            old(self).wf(),
        ensures
            final(self).follows(
                old(self),
                expression_3_step(old(self).input(), old(self).at(), old(self).told()),
            ),
            ok == expression_3_step(old(self).input(), old(self).at(), old(self).told()).ok,
        decreases left(old(self).input(), old(self).at()), 5nat,
    {
        proof {
            reveal(expression_3_step);
            reveal(term_step);
            reveal(plus_minus_tail_step);
        }
        self.parse_term() && self.parse_plus_minus_expression()
    }

    fn parse_plus_minus_expression(&mut self) -> (ok: bool)
        requires
            old(self).wf(),
        ensures
            final(self).follows(
                old(self),
                plus_minus_tail_step(old(self).input(), old(self).at(), old(self).told()),
            ),
            ok == plus_minus_tail_step(old(self).input(), old(self).at(), old(self).told()).ok,
        decreases left(old(self).input(), old(self).at()), 4nat,
    {
        proof {
            reveal(plus_minus_tail_step);
            reveal(term_step);
        }
        match self.tokens.peek() {
            Some(token) => match token.t_subtype {
                TokenSubType::Plus | TokenSubType::Minus => {
                    self.tokens.next();
                    self.parse_term() && self.parse_plus_minus_expression()
                },
                _ => true,
            },
            None => true,
        }
    }

    fn parse_term(&mut self) -> (ok: bool)
        requires
            old(self).wf(),
        ensures
            final(self).follows(
                old(self),
                term_step(old(self).input(), old(self).at(), old(self).told()),
            ),
            ok == term_step(old(self).input(), old(self).at(), old(self).told()).ok,
        decreases left(old(self).input(), old(self).at()), 3nat,
    {
        proof {
            reveal(term_step);
            reveal(factor_step);
            reveal(mult_div_tail_step);
        }
        self.parse_factor() && self.parse_mult_div_term()
    }

    fn parse_mult_div_term(&mut self) -> (ok: bool)
        requires
            old(self).wf(),
        ensures
            final(self).follows(
                old(self),
                mult_div_tail_step(old(self).input(), old(self).at(), old(self).told()),
            ),
            ok == mult_div_tail_step(old(self).input(), old(self).at(), old(self).told()).ok,
        decreases left(old(self).input(), old(self).at()), 2nat,
    {
        proof {
            reveal(mult_div_tail_step);
            reveal(factor_step);
        }
        match self.tokens.peek() {
            Some(token) => match token.t_subtype {
                TokenSubType::Multiply | TokenSubType::Divide => {
                    self.tokens.next();
                    self.parse_factor() && self.parse_mult_div_term()
                },
                _ => true,
            },
            None => true,
        }
    }

    fn parse_factor(&mut self) -> (ok: bool)
        requires
            old(self).wf(),
        ensures
            final(self).follows(
                old(self),
                factor_step(old(self).input(), old(self).at(), old(self).told()),
            ),
            ok == factor_step(old(self).input(), old(self).at(), old(self).told()).ok,
        decreases left(old(self).input(), old(self).at()), 1nat,
    {
        proof {
            reveal(factor_step);
            reveal(expression_step);
        }
        match self.tokens.peek() {
            Some(token) => match token.t_type {
                // a sign is accepted where a number follows it
                TokenType::ArithOp => {
                    self.tokens.next();
                    self.parse_plus_minus_number(&token)
                },
                TokenType::Identifier => {
                    self.tokens.next();
                    true
                },
                TokenType::Number | TokenType::Text | TokenType::Boolean => {
                    self.tokens.next();
                    true
                },
                TokenType::LParen => {
                    self.tokens.next();
                    self.parse_expression();
                    self.expect(TokenType::RParen)
                },
                _ => self.factor_err(&token),
            },
            None => {
                self.register_error_at_end(
                    String::from_str("Unexpected end of file when parsing expression"),
                );
                false
            },
        }
    }

    /// Takes the number behind the sign `token`, which has just been read.
    fn parse_plus_minus_number(&mut self, token: &SyntaxToken) -> (ok: bool)
        requires
            old(self).wf(),
            old(self).at() >= 1,
            old(self).at() <= old(self).input().items.len(),
            *token == old(self).input().items[old(self).at() - 1],
        ensures
            ({
                let inp = old(self).input();
                let p = (old(self).at() - 1) as nat;
                if is_sign(inp, p) && is_kind(inp, p + 1, TokenType::Number) {
                    ok && final(self).follows(old(self), pass(1, old(self).told()))
                } else {
                    !ok && final(self).follows(
                        old(self),
                        blamed(inp, p, factor_text(shown(inp, p)), old(self).told()),
                    )
                }
            }),
    {
        match token.t_subtype {
            TokenSubType::Plus | TokenSubType::Minus => {
                match self.tokens.peek() {
                    Some(peek_token) => match peek_token.t_type {
                        TokenType::Number => {
                            self.tokens.next();
                            true
                        },
                        _ => self.factor_err(token),
                    },
                    None => self.factor_err(token),
                }
            },
            _ => self.factor_err(token),
        }
    }

    /// Reports that `token` starts no expression.
    fn factor_err(&mut self, token: &SyntaxToken) -> (ok: bool)
        requires
            old(self).wf(),
            resolves(token.t_subtype, old(self).input().texts.len()),
        ensures
            !ok,
            final(self).follows(
                old(self),
                Step {
                    ok: false,
                    used: 0,
                    said: old(self).told().push(
                        diagnostic_text(
                            token.line as int,
                            token.pos_at_line as int,
                            factor_text(rendered(*token, old(self).input().texts)),
                        ),
                    ),
                },
            ),
    {
        let token_str = self.tokens.to_string(token);
        let mut message = String::from_str("Invalid token ");
        message.append(token_str.as_str());
        message.append(". Expected an expression");
        self.register_error(message, token);
        false
    }

    fn expect(&mut self, expected_type: TokenType) -> (ok: bool)
        requires
            old(self).wf(),
        ensures
            final(self).follows(
                old(self),
                expected(old(self).input(), old(self).at(), expected_type, old(self).told()),
            ),
            ok == is_kind(old(self).input(), old(self).at(), expected_type),
    {
        match self.tokens.expect(expected_type) {
            Ok(_) => true,
            Err(message) => {
                proof {
                    lemma_spelled_push(self.errors@, message);
                }
                self.errors.push(message);
                false
            },
        }
    }

    fn next_token_is(&self, token_type: TokenType) -> (is: bool)
        ensures
            is == is_kind(self.input(), self.at(), token_type),
    {
        match self.tokens.peek() {
            Some(token) => token.t_type == token_type,
            None => false,
        }
    }

    fn register_error_and_skip_to(
        &mut self,
        msg: String,
        err_token: &SyntaxToken,
        skip_tokens: Vec<TokenType>,
    )
        requires
            old(self).wf(),
        ensures
            final(self).follows(
                old(self),
                Step {
                    ok: false,
                    used: skipped(old(self).input(), old(self).at(), skip_tokens@),
                    said: old(self).told().push(
                        diagnostic_text(
                            err_token.line as int,
                            err_token.pos_at_line as int,
                            msg@,
                        ),
                    ),
                },
            ),
    {
        self.register_error(msg, err_token);
        self.skip_to_first_of(skip_tokens);
    }

    fn register_error(&mut self, msg: String, err_token: &SyntaxToken)
        requires
            old(self).wf(),
        ensures
            final(self).follows(
                old(self),
                Step {
                    ok: false,
                    used: 0,
                    said: old(self).told().push(
                        diagnostic_text(
                            err_token.line as int,
                            err_token.pos_at_line as int,
                            msg@,
                        ),
                    ),
                },
            ),
    {
        let text = format_diagnostic(err_token.line, err_token.pos_at_line, msg.as_str());
        proof {
            lemma_spelled_push(self.errors@, text);
        }
        self.errors.push(text);
    }

    /// Registers a diagnostic about the end of the input.
    fn register_error_at_end(&mut self, msg: String)
        requires
            old(self).wf(),
        ensures
            final(self).follows(
                old(self),
                blamed_end(old(self).input(), msg@, old(self).told()),
            ),
    {
        let (line, column) = self.tokens.end_position();
        let text = format_diagnostic(line, column, msg.as_str());
        proof {
            lemma_spelled_push(self.errors@, text);
        }
        self.errors.push(text);
    }

    /// Passes over tokens up to the first one whose kind is among
    /// `skip_tokens`.
    fn skip_to_first_of(&mut self, skip_tokens: Vec<TokenType>)
        requires
            old(self).wf(),
        ensures
            final(self).follows(
                old(self),
                pass(
                    skipped(old(self).input(), old(self).at(), skip_tokens@),
                    old(self).told(),
                ),
            ),
    {
        let ghost inp = self.input();
        loop
            invariant
                self.wf(),
                self.input() == inp,
                inp == old(self).input(),
                self.errors == old(self).errors,
                old(self).at() <= self.at(),
                old(self).at() + skipped(inp, old(self).at(), skip_tokens@) == self.at() + skipped(
                    inp,
                    self.at(),
                    skip_tokens@,
                ),
            ensures
                self.wf(),
                self.input() == inp,
                self.errors == old(self).errors,
                self.at() == old(self).at() + skipped(inp, old(self).at(), skip_tokens@),
            decreases left(inp, self.at()),
        {
            match self.tokens.peek() {
                Some(token) => {
                    if among(&skip_tokens, token.t_type) {
                        break ;
                    } else {
                        self.tokens.next();
                    }
                },
                None => break ,
            }
        }
    }
}

} // verus!
