//! Sourceful Energy Language: a small rule language over energy telemetry.
//!
//! The library holds the front end (lexer, parser, compiler), the scheduler,
//! the state the evaluator keeps between calls, and the data exchanged with
//! a dispatcher. Numbers in rule sources are kept as exact decimals.

use vstd::prelude::*;

pub mod text;
pub mod error;
pub mod ast;
pub mod clock;
pub mod ledger;
pub mod scheduler;
pub mod runtime;
pub mod lexer;
pub mod units;
pub mod parser;
pub mod compiler;
pub mod json;
pub mod dispatcher;
pub mod service;


pub use crate::ast::{
    Decimal, Program, Variable, Value, TimeOfDay, Rule, EventRule, ScheduleRule, Condition,
    ComparisonCondition, ComparisonOp, LogicalCondition, LogicalOp, TrendCondition, TrendDirection,
    AnomalyCondition, TimeWindowCondition, Expression, MetricExpr, Metric, VariableRef, LiteralExpr,
    FunctionCall, Function, BinaryExpr, BinaryOp, Schedule, IntervalSchedule, CalendarSchedule,
    CalendarFrequency, CronSchedule, Action, NotifyAction, NotifyChannel, NotifyPriority,
    WebhookAction, HttpMethod, LogAction, LogLevel, SetVariableAction, TemplateString, TemplatePart,
    CompiledProgram, CompiledVariable, CompiledRule, CompiledRuleType, CompiledAction,
};
pub use crate::compiler::Compiler;
pub use crate::dispatcher::{
    Dispatcher, DispatcherBuilder, DispatcherConfig, DispatchResult, WebhookConfig,
    WebhookAuthType, WebhookEvent, WebhookDelivery,
};
pub use crate::error::{SELError, SourceLocation};
pub use crate::lexer::{Lexer, Token, TokenKind};
pub use crate::parser::Parser;
pub use crate::runtime::{CooldownState, MetricHistory, RuleResult, ActionResult};
pub use crate::scheduler::{Scheduler, ScheduleState, DateTime};
use crate::compiler::compiled_image;
use crate::json::json_program;
use crate::parser::{
    ids_in_order, parsed_rule_shape, literal_of, declarations_from, declared, lemma_no_newlines,
    one_bare_event, single_event, found_cond, bare_event_at,
};
use crate::lexer::{lex_from, kinds_texts, lex_at, lexer_error_is};

verus! {

/// Parses source text into a program.
pub fn parse(source: &str) -> (r: Result<Program, SELError>)
    ensures
        r matches Ok(p) ==> p.version@ == "1.0"@ && ids_in_order(p.rules@) && forall|i: int|
            0 <= i < p.rules@.len() ==> parsed_rule_shape(#[trigger] p.rules@[i]),
        r matches Ok(p) ==> forall|i: int|
            0 <= i < p.variables@.len() ==> exists|t: Token| literal_of(t, #[trigger] p.variables@[i].value),
        r matches Err(e) ==> e is LexerError || e is ParserError,
        source@.len() < lexer::MAX_SOURCE_CHARS ==> (lex_from(source@, 0, seq![0usize]) is None ==> r is Err),
        source@.len() < lexer::MAX_SOURCE_CHARS && lex_at(source@, 0, 1, 1, seq![0usize]) is Err ==> r is Err
            && lexer_error_is(r->Err_0, lex_at(source@, 0, 1, 1, seq![0usize])->Err_0),
        source@.len() < lexer::MAX_SOURCE_CHARS && lex_from(source@, 0, seq![0usize]) is Some && no_newlines(
            lex_from(source@, 0, seq![0usize])->0,
        ) && declarations_from(lex_from(source@, 0, seq![0usize])->0, 0) ==> r is Ok && declared(
            lex_from(source@, 0, seq![0usize])->0,
            r->Ok_0,
        ),
        source@.len() < lexer::MAX_SOURCE_CHARS && lex_from(source@, 0, seq![0usize]) is Some && no_newlines(
            lex_from(source@, 0, seq![0usize])->0,
        ) && one_bare_event(lex_from(source@, 0, seq![0usize])->0) ==> r is Ok && single_event(
            r->Ok_0,
            found_cond(bare_event_at(lex_from(source@, 0, seq![0usize])->0, 0)),
        ),
{
    let lexer = Lexer::new(source);
    let tokens = match lexer.tokenize() {
        Ok(ts) => ts,
        Err(e) => return Err(e),
    };
    let ghost ts = tokens@;
    let parser = Parser::new(tokens);
    proof {
        if source@.len() < lexer::MAX_SOURCE_CHARS && no_newlines(kinds_texts(ts)) {
            assert forall|i: int| 0 <= i < ts.len() implies (#[trigger] ts[i]).kind != TokenKind::Newline by {
                assert(kinds_texts(ts)[i] == (ts[i].kind, ts[i].value@));
            }
            lemma_no_newlines(ts);
        }
    }
    parser.parse()
}

/// Whether a token list (kinds and texts) holds no `Newline`.
pub open spec fn no_newlines(kt: Seq<(TokenKind, Seq<char>)>) -> bool {
    forall|i: int| 0 <= i < kt.len() ==> (#[trigger] kt[i]).0 != TokenKind::Newline
}

/// The JSON image of a program, compiled now.
pub fn compile_to_json(program: &Program) -> (r: Result<String, SELError>)
    ensures
        r is Ok,
        r matches Ok(s) ==> exists|c: ast::CompiledProgram, t: u64| compiled_image(c, *program, t)
            && s@ == json_program(c),
{
    let compiler = Compiler::new();
    compiler.to_json(program)
}

/// Parses source text and returns the JSON image of the program: the
/// image of the very program parsing yields, or parsing's error unchanged.
pub fn parse_and_compile(source: &str) -> (r: Result<String, SELError>)
    ensures
        r matches Ok(s) ==> exists|p: Program, c: ast::CompiledProgram, t: u64| compiled_image(c, p, t)
            && s@ == json_program(c) && ids_in_order(p.rules@) && (source@.len()
            < lexer::MAX_SOURCE_CHARS && lex_from(source@, 0, seq![0usize]) is Some && no_newlines(
            lex_from(source@, 0, seq![0usize])->0,
        ) && declarations_from(lex_from(source@, 0, seq![0usize])->0, 0) ==> declared(
            lex_from(source@, 0, seq![0usize])->0,
            p,
        )),
        r matches Err(e) ==> e is LexerError || e is ParserError,
        source@.len() < lexer::MAX_SOURCE_CHARS ==> (lex_from(source@, 0, seq![0usize]) is None ==> r is Err),
        source@.len() < lexer::MAX_SOURCE_CHARS && lex_at(source@, 0, 1, 1, seq![0usize]) is Err ==> r is Err
            && lexer_error_is(r->Err_0, lex_at(source@, 0, 1, 1, seq![0usize])->Err_0),
        source@.len() < lexer::MAX_SOURCE_CHARS && lex_from(source@, 0, seq![0usize]) is Some && no_newlines(
            lex_from(source@, 0, seq![0usize])->0,
        ) && declarations_from(lex_from(source@, 0, seq![0usize])->0, 0) ==> r is Ok,
        source@.len() < lexer::MAX_SOURCE_CHARS && lex_from(source@, 0, seq![0usize]) is Some && no_newlines(
            lex_from(source@, 0, seq![0usize])->0,
        ) && one_bare_event(lex_from(source@, 0, seq![0usize])->0) ==> r is Ok && exists|
            p: Program,
            c: ast::CompiledProgram,
            t: u64,
        |
            compiled_image(c, p, t) && r->Ok_0@ == json_program(c) && single_event(
                p,
                found_cond(bare_event_at(lex_from(source@, 0, seq![0usize])->0, 0)),
            ),
{
    let program = match parse(source) {
        Ok(p) => p,
        Err(e) => return Err(e),
    };
    compile_to_json(&program)
}

} // verus!
