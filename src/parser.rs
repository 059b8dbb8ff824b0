//! The parser: recursive descent from tokens to a `Program`.

use vstd::prelude::*;
use crate::ast::{
    Decimal, Value, Program, Variable, Rule, EventRule, ScheduleRule, Condition, ComparisonCondition,
    ComparisonOp, LogicalCondition, LogicalOp, TrendCondition, TrendDirection, AnomalyCondition,
    Expression, MetricExpr, Metric, VariableRef, LiteralExpr, FunctionCall, Function, BinaryExpr,
    BinaryOp, Schedule, CalendarSchedule, CalendarFrequency, TimeOfDay, Action, NotifyAction,
    WebhookAction, TemplateString,
};
use crate::error::SELError;
use crate::lexer::{Token, TokenKind};
use crate::text::{digits_of, push_digits, push_str, chars_of, lower_of, eq_exact, fold_lower};
use crate::ast::metric_named;
use crate::units::{
    literal_fits, literal_number, literal_unit, num_prefix_len, duration_seconds, time_parts,
    parse_number_with_unit, parse_duration, parse_time,
};

verus! {

/// A decimal times a whole factor.
pub open spec fn scaled(d: Decimal, k: int) -> Decimal {
    Decimal { mantissa: (d.mantissa * k) as i128, scale: d.scale }
}

/// The value of a number literal with an optional power or energy unit:
/// `kW` and `kWh` scale by a thousand, `MW` and `MWh` by a million.
pub open spec fn number_literal_value(s: Seq<char>) -> Value {
    let n = literal_number(s);
    let u = literal_unit(s);
    if u == "W"@ {
        Value::Power { watts: n }
    } else if u == "kW"@ {
        Value::Power { watts: scaled(n, 1000) }
    } else if u == "MW"@ {
        Value::Power { watts: scaled(n, 1000000) }
    } else if u == "Wh"@ {
        Value::Energy { watt_hours: n }
    } else if u == "kWh"@ {
        Value::Energy { watt_hours: scaled(n, 1000) }
    } else if u == "MWh"@ {
        Value::Energy { watt_hours: scaled(n, 1000000) }
    } else {
        Value::Number(n)
    }
}

/// The value of a percent literal (the percentage itself).
pub open spec fn percent_literal_value(s: Seq<char>) -> Decimal {
    if num_prefix_len(s) == s.len() {
        literal_number(s)
    } else {
        Decimal { mantissa: 0, scale: 0 }
    }
}

/// What a literal token denotes, for the literal kinds other than strings.
pub open spec fn literal_value_spec(kind: TokenKind, s: Seq<char>) -> Option<Value> {
    match kind {
        TokenKind::Number => Some(number_literal_value(s)),
        TokenKind::Percent => Some(Value::Percent(percent_literal_value(s))),
        TokenKind::Duration => Some(Value::Duration { seconds: duration_seconds(s) }),
        TokenKind::Time => Some(Value::Time { hour: time_parts(s).0, minute: time_parts(s).1 }),
        _ => None,
    }
}

/// Whether a literal token is read without exceeding the digit limit.
pub open spec fn literal_in_range(kind: TokenKind, s: Seq<char>) -> bool {
    match kind {
        TokenKind::Number => literal_fits(s),
        TokenKind::Percent => num_prefix_len(s) != s.len() || literal_fits(s),
        _ => true,
    }
}

fn scale_by(d: Decimal, k: i128) -> (r: Decimal)
    requires
        0 < k <= 1000000,
        0 <= d.mantissa < 1000000000000000000000000000000,
    ensures
        r == scaled(d, k as int),
{
    proof {
        assert(d.mantissa * k <= 1000000000000000000000000000000 * 1000000) by (nonlinear_arith)
            requires
                0 < k <= 1000000,
                0 <= d.mantissa < 1000000000000000000000000000000,
        ;
    }
    Decimal { mantissa: d.mantissa * k, scale: d.scale }
}

/// The value a literal token denotes: numbers with their unit scaled to
/// base units, percentages, durations in seconds, times of day and strings.
/// Any other token is not a value.
pub fn literal_value(token: &Token) -> (r: Option<Value>)
    ensures
        token.kind == TokenKind::String ==> (r matches Some(Value::String(s)) && s@ == token.value@),
        token.kind != TokenKind::String && literal_in_range(token.kind, token.value@) ==> r
            == literal_value_spec(token.kind, token.value@),
        !literal_in_range(token.kind, token.value@) ==> r is None,
{
    let cs = chars_of(token.value.as_str());
    match token.kind {
        TokenKind::Number => match parse_number_with_unit(&cs) {
            Some((n, end)) => {
                proof {
                    crate::units::lemma_literal_bound(cs@);
                }
                let unit = &cs.as_slice()[end..cs.len()];
                proof {
                    assert(unit@ =~= literal_unit(cs@));
                }
                if eq_exact(unit, "W") {
                    Some(Value::Power { watts: n })
                } else if eq_exact(unit, "kW") {
                    Some(Value::Power { watts: scale_by(n, 1000) })
                } else if eq_exact(unit, "MW") {
                    Some(Value::Power { watts: scale_by(n, 1000000) })
                } else if eq_exact(unit, "Wh") {
                    Some(Value::Energy { watt_hours: n })
                } else if eq_exact(unit, "kWh") {
                    Some(Value::Energy { watt_hours: scale_by(n, 1000) })
                } else if eq_exact(unit, "MWh") {
                    Some(Value::Energy { watt_hours: scale_by(n, 1000000) })
                } else {
                    Some(Value::Number(n))
                }
            },
            None => None,
        },
        TokenKind::Percent => match parse_number_with_unit(&cs) {
            Some((n, end)) => {
                if end == cs.len() {
                    Some(Value::Percent(n))
                } else {
                    Some(Value::Percent(Decimal { mantissa: 0, scale: 0 }))
                }
            },
            None => {
                if num_prefix_end_is_all(&cs) {
                    None
                } else {
                    Some(Value::Percent(Decimal { mantissa: 0, scale: 0 }))
                }
            },
        },
        TokenKind::Duration => Some(Value::Duration { seconds: parse_duration(&cs) }),
        TokenKind::Time => {
            let (h, m) = parse_time(&cs);
            Some(Value::Time { hour: h, minute: m })
        },
        TokenKind::String => Some(Value::String(token.value.clone())),
        _ => None,
    }
}

fn num_prefix_end_is_all(cs: &[char]) -> (r: bool)
    ensures
        r == (num_prefix_len(cs@) == cs@.len()),
{
    let end = crate::units::num_prefix_end(cs, 0);
    proof {
        assert(cs@.subrange(0, cs@.len() as int) =~= cs@);
    }
    end == cs.len()
}


fn copy_token(t: &Token) -> (r: Token)
    ensures
        r == *t,
{
    Token { kind: t.kind, value: t.value.clone(), location: t.location }
}

/// The id given to the `n`-th rule of a program.
pub open spec fn rule_id_spec(n: nat) -> Seq<char> {
    "rule_"@ + digits_of(n)
}

/// A rule id, unique within a program: `rule_` and the rule's 1-based
/// position.
fn generate_id(n: usize) -> (r: String)
    ensures
        r@ == rule_id_spec(n as nat),
{
    let mut s = String::new();
    push_str(&mut s, "rule_");
    push_digits(&mut s, n as u64);
    s
}

pub open spec fn rule_id_of(r: Rule) -> Seq<char> {
    match r {
        Rule::Event(e) => e.id@,
        Rule::Schedule(s) => s.id@,
    }
}

/// Whether `v` is the value a literal token of kind `k` and text `text`
/// denotes.
pub open spec fn literal_kt(k: TokenKind, text: Seq<char>, v: Value) -> bool {
    if k == TokenKind::String {
        v is String && v->String_0@ == text
    } else {
        literal_value_spec(k, text) == Some(v)
    }
}

/// Whether `v` is the value the literal token `t` denotes.
pub open spec fn literal_of(t: Token, v: Value) -> bool {
    literal_kt(t.kind, t.value@, v)
}

/// Whether a token of kind `k` and text `text` is a literal the parser
/// reads as a value.
pub open spec fn value_kt(k: TokenKind, text: Seq<char>) -> bool {
    k != TokenKind::Eof && (k == TokenKind::String || literal_value_spec(k, text) is Some)
        && literal_in_range(k, text)
}

/// Whether the tokens (kinds and texts) from `i` on are complete variable
/// declarations `$name = literal`, up to `Eof`.
pub open spec fn declarations_from(kt: Seq<(TokenKind, Seq<char>)>, i: int) -> bool
    decreases kt.len() - i,
{
    if i < 0 || i >= kt.len() {
        false
    } else if kt[i].0 == TokenKind::Eof {
        true
    } else if i + 2 < kt.len() {
        kt[i].0 == TokenKind::Variable && kt[i + 1].0 == TokenKind::Assign && value_kt(
            kt[i + 2].0,
            kt[i + 2].1,
        ) && declarations_from(kt, i + 3)
    } else {
        false
    }
}

/// The program of declarations `kt` holds: variable `i` is named by token
/// `3i` and valued by token `3i + 2`, and no rule.
pub open spec fn declared(kt: Seq<(TokenKind, Seq<char>)>, p: Program) -> bool {
    &&& p.rules@.len() == 0
    &&& 3 * p.variables@.len() < kt.len()
    &&& kt[3 * p.variables@.len() as int].0 == TokenKind::Eof
    &&& forall|i: int|
        0 <= i < p.variables@.len() ==> (#[trigger] p.variables@[i]).name@ == kt[3 * i].1
            && literal_kt(kt[3 * i + 2].0, kt[3 * i + 2].1, p.variables@[i].value)
}

/// Whether a token is a literal the parser reads as a value.
pub open spec fn is_value_token(t: Token) -> bool {
    value_kt(t.kind, t.value@)
}

/// The comparison an operator token stands for.
pub open spec fn comparison_of(k: TokenKind) -> Option<ComparisonOp> {
    match k {
        TokenKind::Eq => Some(ComparisonOp::Equal),
        TokenKind::Neq => Some(ComparisonOp::NotEqual),
        TokenKind::Lt => Some(ComparisonOp::LessThan),
        TokenKind::Lte => Some(ComparisonOp::LessThanOrEqual),
        TokenKind::Gt => Some(ComparisonOp::GreaterThan),
        TokenKind::Gte => Some(ComparisonOp::GreaterThanOrEqual),
        _ => None,
    }
}

/// A token list without `Newline`s is its own filtered list.
pub proof fn lemma_no_newlines(ts: Seq<Token>)
    requires
        forall|i: int| 0 <= i < ts.len() ==> (#[trigger] ts[i]).kind != TokenKind::Newline,
    ensures
        ts.filter(|t: Token| t.kind != TokenKind::Newline) == ts,
    decreases ts.len(),
{
    let pred = |t: Token| t.kind != TokenKind::Newline;
    if ts.len() > 0 {
        let init = ts.drop_last();
        assert forall|i: int| 0 <= i < init.len() implies (#[trigger] init[i]).kind != TokenKind::Newline by {
            assert(init[i] == ts[i]);
        }
        lemma_no_newlines(init);
        assert(init.push(ts.last()) =~= ts);
        init.lemma_filter_push(ts.last(), pred);
    } else {
        assert(ts.filter(pred) =~= ts) by {
            reveal(Seq::filter);
        }
    }
}

/// Arithmetic operator tokens.
pub open spec fn is_arith_kind(k: TokenKind) -> bool {
    k == TokenKind::Plus || k == TokenKind::Minus || k == TokenKind::Star || k == TokenKind::Slash
        || k == TokenKind::Modulo
}

/// A lone metric or a lone number or percentage literal at `c`, not
/// followed by an arithmetic operator: the expression it stands for.
pub open spec fn simple_expr_at(ts: Seq<(TokenKind, Seq<char>)>, c: int) -> Option<Expression> {
    if 0 <= c && c + 1 < ts.len() && !is_arith_kind(ts[c + 1].0) {
        if ts[c].0 == TokenKind::Metric && metric_named(lower_of(ts[c].1)) is Some {
            Some(Expression::Metric(MetricExpr { metric: metric_named(lower_of(ts[c].1))->0 }))
        } else if (ts[c].0 == TokenKind::Number || ts[c].0 == TokenKind::Percent) && value_kt(
            ts[c].0,
            ts[c].1,
        ) {
            Some(
                Expression::Literal(
                    LiteralExpr { value: literal_value_spec(ts[c].0, ts[c].1)->0 },
                ),
            )
        } else {
            None
        }
    } else {
        None
    }
}

/// The trend direction a token stands for.
pub open spec fn direction_of(k: TokenKind) -> Option<TrendDirection> {
    match k {
        TokenKind::Rising => Some(TrendDirection::Rising),
        TokenKind::Falling => Some(TrendDirection::Falling),
        TokenKind::Stable => Some(TrendDirection::Stable),
        _ => None,
    }
}

/// A simple condition at `c` and where it ends: `metric RISING|FALLING|
/// STABLE`, or a comparison of two simple expressions.
pub open spec fn simple_condition_at(ts: Seq<(TokenKind, Seq<char>)>, c: int) -> Option<(Condition, int)> {
    match simple_expr_at(ts, c) {
        Some(left) => if left is Metric && direction_of(ts[c + 1].0) is Some {
            Some(
                (
                    Condition::Trend(
                        TrendCondition {
                            metric: left->Metric_0.metric,
                            direction: direction_of(ts[c + 1].0)->0,
                            threshold_per_hour: None,
                        },
                    ),
                    c + 2,
                ),
            )
        } else if comparison_of(ts[c + 1].0) is Some && simple_expr_at(ts, c + 2) is Some {
            Some(
                (
                    Condition::Comparison(
                        ComparisonCondition {
                            left,
                            operator: comparison_of(ts[c + 1].0)->0,
                            right: simple_expr_at(ts, c + 2)->0,
                        },
                    ),
                    c + 3,
                ),
            )
        } else {
            None
        },
        None => None,
    }
}

/// A simple condition at `c` that stands alone: no `AND` or `OR` follows.
pub open spec fn lone_condition_at(ts: Seq<(TokenKind, Seq<char>)>, c: int) -> Option<(Condition, int)> {
    match simple_condition_at(ts, c) {
        Some((cond, e)) => if e < ts.len() && ts[e].0 != TokenKind::And && ts[e].0
            != TokenKind::Or {
            Some((cond, e))
        } else {
            None
        },
        None => None,
    }
}

/// The condition of a found simple condition.
pub open spec fn found_cond(o: Option<(Condition, int)>) -> Condition {
    match o {
        Some((c, _)) => c,
        None => arbitrary(),
    }
}

/// Where a found simple condition ends.
pub open spec fn found_end(o: Option<(Condition, int)>) -> int {
    match o {
        Some((_, e)) => e,
        None => 0,
    }
}

/// `ON` and a lone simple condition at `c`, with no action block or
/// clause after it: the condition and where the rule ends.
pub open spec fn bare_event_at(ts: Seq<(TokenKind, Seq<char>)>, c: int) -> Option<(Condition, int)> {
    if 0 <= c < ts.len() && ts[c].0 == TokenKind::On {
        match lone_condition_at(ts, c + 1) {
            Some((cond, e)) => if ts[e].0 != TokenKind::Indent && ts[e].0 != TokenKind::Notify
                && ts[e].0 != TokenKind::Webhook && ts[e].0 != TokenKind::Cooldown {
                Some((cond, e))
            } else {
                None
            },
            None => None,
        }
    } else {
        None
    }
}

/// A program of one event rule with condition `cond`, no action, no
/// cooldown, and no variable.
pub open spec fn single_event(p: Program, cond: Condition) -> bool {
    &&& p.variables@.len() == 0
    &&& p.rules@.len() == 1
    &&& p.rules@[0] is Event
    &&& p.rules@[0]->Event_0.condition == cond
    &&& p.rules@[0]->Event_0.actions@.len() == 0
    &&& p.rules@[0]->Event_0.cooldown_seconds is None
}

/// Whether the tokens are one bare event rule and then `Eof`.
pub open spec fn one_bare_event(ts: Seq<(TokenKind, Seq<char>)>) -> bool {
    bare_event_at(ts, 0) is Some && found_end(bare_event_at(ts, 0)) < ts.len() && ts[found_end(
        bare_event_at(ts, 0),
    )].0 == TokenKind::Eof
}

/// The schedule `EVERY` introduces at `c`: an optional frequency word or
/// weekday name, then an optional `AT` and time of day (midnight by
/// default).
pub open spec fn schedule_at(ts: Seq<(TokenKind, Seq<char>)>, c: int) -> Schedule {
    let word = if 0 <= c < ts.len() && (ts[c].0 == TokenKind::Identifier || ts[c].0
        == TokenKind::Duration) {
        Some(lower_of(ts[c].1))
    } else {
        None
    };
    let w = if word is Some { c + 1 } else { c };
    let at = if 0 <= w && w + 1 < ts.len() && ts[w].0 == TokenKind::At && ts[w + 1].0
        == TokenKind::Time {
        TimeOfDay { hour: time_parts(ts[w + 1].1).0, minute: time_parts(ts[w + 1].1).1 }
    } else {
        TimeOfDay { hour: 0, minute: 0 }
    };
    Schedule::Calendar(
        CalendarSchedule { frequency: frequency_of(word), at, on: weekday_of(word) },
    )
}

/// What every parsed rule has: it is enabled and unnamed, and a schedule
/// rule has a calendar schedule.
pub open spec fn parsed_rule_shape(r: Rule) -> bool {
    match r {
        Rule::Event(e) => e.enabled && e.name is None,
        Rule::Schedule(s) => s.enabled && s.name is None && s.schedule is Calendar,
    }
}

/// The rule ids of a parsed program: `rule_1`, `rule_2`, ... in order.
pub open spec fn ids_in_order(rules: Seq<Rule>) -> bool {
    forall|i: int| 0 <= i < rules.len() ==> rule_id_of(#[trigger] rules[i]) == rule_id_spec(
        (i + 1) as nat,
    )
}

/// Recursive-descent parser over a token list without newlines.
pub struct Parser {
    tokens: Vec<Token>,
    current: usize,
}

impl Parser {
    pub closed spec fn wf(&self) -> bool {
        &&& self.tokens@.len() >= 1
        &&& self.tokens@.last().kind == TokenKind::Eof
        &&& self.current < self.tokens@.len() <= usize::MAX
        &&& forall|i: int| 0 <= i < self.tokens@.len() ==> (#[trigger] self.tokens@[i]).kind != TokenKind::Newline
    }

    /// The tokens being parsed.
    pub closed spec fn token_seq(&self) -> Seq<Token> {
        self.tokens@
    }

    pub closed spec fn rest(&self) -> int {
        self.tokens@.len() - self.current
    }

    /// The tokens the parser reads: `tokens` without `Newline`s, in order.
    pub fn new(tokens: Vec<Token>) -> (r: Self)
        ensures
            r.token_seq() == tokens@.filter(|t: Token| t.kind != TokenKind::Newline),
            r.position() == 0,
            r.token_seq().len() > 0 && r.token_seq().last().kind == TokenKind::Eof ==> r.wf(),
    {
        let ghost pred = |t: Token| t.kind != TokenKind::Newline;
        let mut kept: Vec<Token> = Vec::new();
        let mut i: usize = 0;
        while i < tokens.len()
            invariant
                i <= tokens@.len(),
                kept@ == tokens@.take(i as int).filter(pred),
                pred == (|t: Token| t.kind != TokenKind::Newline),
            decreases tokens@.len() - i,
        {
            proof {
                assert(tokens@.take(i + 1) =~= tokens@.take(i as int).push(tokens@[i as int]));
                tokens@.take(i as int).lemma_filter_push(tokens@[i as int], pred);
            }
            if tokens[i].kind != TokenKind::Newline {
                kept.push(copy_token(&tokens[i]));
            }
            i = i + 1;
        }
        proof {
            assert(tokens@.take(tokens@.len() as int) =~= tokens@);
            assert forall|k: int| 0 <= k < kept@.len() implies (#[trigger] kept@[k]).kind != TokenKind::Newline by {
                tokens@.lemma_filter_pred(pred, k);
            }
        }
        let _n = kept.len();
        Parser { tokens: kept, current: 0 }
    }

    /// The index of the next token to read.
    pub closed spec fn position(&self) -> int {
        self.current as int
    }

    /// Whether the token list can be parsed: it holds no `Newline` and
    /// ends with `Eof`, and reading has not gone past it.
    fn ready(&self) -> (r: bool)
        ensures
            r == self.wf(),
    {
        let n = self.tokens.len();
        if n == 0 || self.tokens[n - 1].kind != TokenKind::Eof || self.current >= n {
            return false;
        }
        let mut i: usize = 0;
        while i < n
            invariant
                n == self.tokens@.len(),
                i <= n,
                forall|k: int| 0 <= k < i ==> (#[trigger] self.tokens@[k]).kind != TokenKind::Newline,
            decreases n - i,
        {
            if self.tokens[i].kind == TokenKind::Newline {
                return false;
            }
            i = i + 1;
        }
        true
    }

    fn peek(&self) -> (r: &Token)
        requires
            self.wf(),
        ensures
            *r == self.tokens@[self.current as int],
    {
        &self.tokens[self.current]
    }

    fn is_at_end(&self) -> (r: bool)
        requires
            self.wf(),
        ensures
            r == (self.tokens@[self.current as int].kind == TokenKind::Eof),
            !r ==> self.current + 1 < self.tokens@.len(),
    {
        self.tokens[self.current].kind == TokenKind::Eof
    }

    fn check(&self, kind: TokenKind) -> (r: bool)
        requires
            self.wf(),
        ensures
            r == (self.tokens@[self.current as int].kind != TokenKind::Eof
                && self.tokens@[self.current as int].kind == kind),
            r ==> self.current + 1 < self.tokens@.len(),
    {
        !self.is_at_end() && self.peek().kind == kind
    }

    fn check_next(&self, kind: TokenKind) -> (r: bool)
        requires
            self.wf(),
        ensures
            r == (self.current + 1 < self.tokens@.len() && self.tokens@[self.current + 1].kind == kind),
    {
        self.current < self.tokens.len() - 1 && self.tokens[self.current + 1].kind == kind
    }

    fn advance(&mut self) -> (t: Token)
        requires
            old(self).wf(),
        ensures
            final(self).wf(),
            final(self).tokens == old(self).tokens,
            old(self).tokens@[old(self).current as int].kind != TokenKind::Eof ==> final(self).current
                == old(self).current + 1,
            old(self).tokens@[old(self).current as int].kind == TokenKind::Eof ==> final(self).current
                == old(self).current,
            old(self).tokens@[old(self).current as int].kind != TokenKind::Eof ==> t.kind == old(
                self,
            ).tokens@[old(self).current as int].kind && t.value@ == old(self).tokens@[old(self).current as int].value@,
    {
        let at_end = self.is_at_end();
        if !at_end {
            self.current = self.current + 1;
        }
        let i = if self.current > 0 { self.current - 1 } else { 0 };
        copy_token(&self.tokens[i])
    }

    fn match_token(&mut self, kind: TokenKind) -> (r: bool)
        requires
            old(self).wf(),
        ensures
            final(self).wf(),
            final(self).tokens == old(self).tokens,
            r ==> final(self).current == old(self).current + 1,
            !r ==> final(self).current == old(self).current,
            r == (old(self).tokens@[old(self).current as int].kind != TokenKind::Eof && old(
                self,
            ).tokens@[old(self).current as int].kind == kind),
    {
        if self.check(kind) {
            self.advance();
            true
        } else {
            false
        }
    }

    fn consume(&mut self, kind: TokenKind, msg: &str) -> (r: Result<Token, SELError>)
        requires
            old(self).wf(),
        ensures
            final(self).wf(),
            final(self).tokens == old(self).tokens,
            r is Ok ==> final(self).current == old(self).current + 1 && r->Ok_0.kind == kind
                && r->Ok_0.value@ == old(self).tokens@[old(self).current as int].value@,
            r is Err ==> final(self).current == old(self).current && r->Err_0 is ParserError,
            r is Ok <==> (old(self).tokens@[old(self).current as int].kind != TokenKind::Eof && old(
                self,
            ).tokens@[old(self).current as int].kind == kind),
    {
        if self.check(kind) {
            Ok(self.advance())
        } else {
            Err(self.error(msg))
        }
    }

    /// A parse error at the current token.
    fn error(&self, msg: &str) -> (r: SELError)
        requires
            self.wf(),
        ensures
            r matches SELError::ParserError { message, line, column } && message@ == msg@ && line
                == self.tokens@[self.current as int].location.line && column == self.tokens@[self.current as int].location.column,
    {
        let token = self.peek();
        SELError::parser(msg, token.location.line, token.location.column)
    }

    /// Parses the whole token list: variable declarations and rules, in
    /// order; other tokens at the top level are skipped.
    pub fn parse(self) -> (r: Result<Program, SELError>)
        ensures
            !self.wf() ==> r is Err,
            r matches Ok(p) ==> p.version@ == "1.0"@ && ids_in_order(p.rules@) && forall|i: int|
                0 <= i < p.rules@.len() ==> parsed_rule_shape(#[trigger] p.rules@[i]),
            r matches Ok(p) ==> forall|i: int|
                0 <= i < p.variables@.len() ==> exists|j: int|
                    0 <= j < self.token_seq().len() && literal_of(
                        self.token_seq()[j],
                        #[trigger] p.variables@[i].value,
                    ),
            r matches Err(e) ==> e is ParserError,
            self.wf() && one_bare_event(crate::lexer::kinds_texts(self.token_seq())) ==> (r is Ok
                && single_event(
                r->Ok_0,
                found_cond(bare_event_at(crate::lexer::kinds_texts(self.token_seq()), 0)),
            )),
            self.wf() && declarations_from(crate::lexer::kinds_texts(self.token_seq()), 0) ==> (r is Ok
                && declared(crate::lexer::kinds_texts(self.token_seq()), r->Ok_0)),
    {
        if !self.ready() {
            let (line, column) = match self.tokens.last() {
                Some(t) => (t.location.line, t.location.column),
                None => (1, 1),
            };
            return Err(SELError::parser("Expected end of input", line, column));
        }
        let ghost toks = self.tokens@;
        let mut ps = self;
        ps.current = 0;
        let ghost kt = crate::lexer::kinds_texts(toks);
        proof {
            assert forall|i: int| 0 <= i < toks.len() implies #[trigger] kt[i] == (toks[i].kind, toks[i].value@) by {}
        }
        let mut program = Program::default();
        while !ps.is_at_end()
            invariant
                ps.wf(),
                program.version@ == "1.0"@,
                ids_in_order(program.rules@),
                forall|i: int| 0 <= i < program.rules@.len() ==> parsed_rule_shape(#[trigger] program.rules@[i]),
                program.rules@.len() <= ps.current,
                ps.tokens@ == toks,
                kt == crate::lexer::kinds_texts(toks),
                toks == self.token_seq(),
                kt.len() == toks.len(),
                forall|i: int| 0 <= i < toks.len() ==> #[trigger] kt[i] == (toks[i].kind, toks[i].value@),
                one_bare_event(kt) ==> ((ps.current == 0 && program.rules@.len() == 0
                    && program.variables@.len() == 0) || (ps.current == found_end(bare_event_at(kt, 0))
                    && single_event(program, found_cond(bare_event_at(kt, 0))))),
                declarations_from(crate::lexer::kinds_texts(toks), 0) ==> {
                    &&& declarations_from(crate::lexer::kinds_texts(toks), ps.current as int)
                    &&& ps.current == 3 * program.variables@.len()
                    &&& program.rules@.len() == 0
                    &&& forall|i: int|
                        0 <= i < program.variables@.len() ==> (#[trigger] program.variables@[i]).name@
                            == toks[3 * i].value@ && literal_of(toks[3 * i + 2], program.variables@[i].value)
                },
                forall|i: int|
                    0 <= i < program.variables@.len() ==> exists|j: int|
                        0 <= j < toks.len() && literal_of(toks[j], #[trigger] program.variables@[i].value),
            decreases ps.rest(),
        {
            proof {
                let c = ps.current as int;
                if declarations_from(kt, c) {
                    assert(kt[c].0 == TokenKind::Eof || (kt[c].0 == TokenKind::Variable && kt[c + 1].0
                        == TokenKind::Assign && value_kt(kt[c + 2].0, kt[c + 2].1) && declarations_from(
                        kt,
                        c + 3,
                    )));
                }
            }
            let kind = ps.peek().kind;
            if kind == TokenKind::Variable {
                if ps.check_next(TokenKind::Assign) {
                    let v = ps.variable_declaration()?;
                    let ghost before = program.variables@;
                    program.variables.push(v);
                    proof {
                        assert(program.variables@[before.len() as int] == v);
                        assert forall|i: int| 0 <= i < program.variables@.len() implies exists|j: int|
                            0 <= j < toks.len() && literal_of(toks[j], #[trigger] program.variables@[i].value) by {
                            if i < before.len() {
                                assert(program.variables@[i] == before[i]);
                            }
                        }
                    }
                } else {
                    ps.advance();
                }
            } else if kind == TokenKind::On {
                let id = generate_id(program.rules.len() + 1);
                let rule = ps.event_rule(id)?;
                program.rules.push(Rule::Event(rule));
            } else if kind == TokenKind::Every {
                let id = generate_id(program.rules.len() + 1);
                let rule = ps.schedule_rule(id)?;
                program.rules.push(Rule::Schedule(rule));
            } else {
                ps.advance();
            }
        }
        proof {
            assert(self.token_seq() == toks);
            assert(program.version@ == "1.0"@);
        }
        Ok(program)
    }

    fn variable_declaration(&mut self) -> (r: Result<Variable, SELError>)
        requires
            old(self).wf(),
        ensures
            final(self).wf(),
            final(self).tokens == old(self).tokens,
            final(self).current >= old(self).current,
            r is Ok ==> final(self).current > old(self).current,
            r matches Ok(v) ==> exists|j: int|
                0 <= j < old(self).tokens@.len() && literal_of(old(self).tokens@[j], v.value),
            r is Err ==> r->Err_0 is ParserError,
            ({
                let ts = old(self).tokens@;
                let c = old(self).current as int;
                &&& r is Ok <==> ts[c].kind == TokenKind::Variable && ts[c + 1].kind
                    == TokenKind::Assign && is_value_token(ts[c + 2])
                &&& r matches Ok(v) ==> v.name@ == ts[c].value@ && literal_of(ts[c + 2], v.value)
                    && final(self).current == c + 3
            }),
    {
        let name = match self.consume(TokenKind::Variable, "Expected variable name") {
            Ok(t) => t.value,
            Err(e) => return Err(e),
        };
        match self.consume(TokenKind::Assign, "Expected '='") {
            Ok(_) => {},
            Err(e) => return Err(e),
        }
        match self.value() {
            Ok(value) => Ok(Variable { name, value }),
            Err(e) => Err(e),
        }
    }

    /// One literal value token.
    fn value(&mut self) -> (r: Result<Value, SELError>)
        requires
            old(self).wf(),
        ensures
            final(self).wf(),
            final(self).tokens == old(self).tokens,
            final(self).current >= old(self).current,
            r matches Ok(v) ==> literal_of(old(self).tokens@[old(self).current as int], v),
            r is Err ==> r->Err_0 is ParserError,
            r is Ok <==> is_value_token(old(self).tokens@[old(self).current as int]),
            r is Ok ==> final(self).current == old(self).current + 1,
    {
        if self.is_at_end() {
            return Err(self.error("Expected value"));
        }
        let token = self.advance();
        match literal_value(&token) {
            Some(v) => Ok(v),
            None => {
                if token.kind == TokenKind::Number || token.kind == TokenKind::Percent {
                    Err(self.error("Number literal has too many digits"))
                } else {
                    Err(self.error("Expected value"))
                }
            },
        }
    }

    fn cooldown(&mut self) -> (r: Result<u64, SELError>)
        requires
            old(self).wf(),
        ensures
            final(self).wf(),
            final(self).tokens == old(self).tokens,
            final(self).current >= old(self).current,
            r is Ok ==> final(self).current > old(self).current,
            r is Err ==> r->Err_0 is ParserError,
            ({
                let ts = old(self).tokens@;
                let c = old(self).current as int;
                &&& r is Ok <==> ts[c].kind == TokenKind::Cooldown && ts[c + 1].kind
                    == TokenKind::Duration
                &&& r matches Ok(v) ==> v == duration_seconds(ts[c + 1].value@)
            }),
    {
        match self.consume(TokenKind::Cooldown, "Expected 'COOLDOWN'") {
            Ok(_) => {},
            Err(e) => return Err(e),
        }
        let token = match self.consume(TokenKind::Duration, "Expected duration") {
            Ok(t) => t,
            Err(e) => return Err(e),
        };
        let cs = chars_of(token.value.as_str());
        Ok(parse_duration(&cs))
    }

    fn notify_action(&mut self) -> (r: Result<Action, SELError>)
        requires
            old(self).wf(),
        ensures
            final(self).wf(),
            final(self).tokens == old(self).tokens,
            final(self).current >= old(self).current,
            r is Ok ==> final(self).current > old(self).current,
            r is Err ==> r->Err_0 is ParserError,
            ({
                let ts = old(self).tokens@;
                let c = old(self).current as int;
                &&& r is Ok <==> ts[c].kind == TokenKind::Notify && ts[c + 1].kind == TokenKind::String
                &&& r matches Ok(a) ==> a is Notify && a->Notify_0.channel is None
                    && a->Notify_0.priority is None && a->Notify_0.message.parts@.len() == 1
                    && a->Notify_0.message.parts@[0] is Text
                    && a->Notify_0.message.parts@[0]->Text_text@ == ts[c + 1].value@
            }),
    {
        match self.consume(TokenKind::Notify, "Expected 'NOTIFY'") {
            Ok(_) => {},
            Err(e) => return Err(e),
        }
        let message = match self.consume(TokenKind::String, "Expected message string") {
            Ok(t) => t.value,
            Err(e) => return Err(e),
        };
        Ok(
            Action::Notify(
                NotifyAction {
                    message: TemplateString::from_literal(message.as_str()),
                    channel: None,
                    priority: None,
                },
            ),
        )
    }

    fn webhook_action(&mut self) -> (r: Result<Action, SELError>)
        requires
            old(self).wf(),
        ensures
            final(self).wf(),
            final(self).tokens == old(self).tokens,
            final(self).current >= old(self).current,
            r is Ok ==> final(self).current > old(self).current,
            r is Err ==> r->Err_0 is ParserError,
            ({
                let ts = old(self).tokens@;
                let c = old(self).current as int;
                &&& r is Ok <==> ts[c].kind == TokenKind::Webhook && ts[c + 1].kind == TokenKind::String
                &&& r matches Ok(a) ==> a is Webhook && a->Webhook_0.url@ == ts[c + 1].value@
                    && a->Webhook_0.method is None && a->Webhook_0.headers is None
                    && a->Webhook_0.body is None
            }),
    {
        match self.consume(TokenKind::Webhook, "Expected 'WEBHOOK'") {
            Ok(_) => {},
            Err(e) => return Err(e),
        }
        let url = match self.consume(TokenKind::String, "Expected URL string") {
            Ok(t) => t.value,
            Err(e) => return Err(e),
        };
        Ok(Action::Webhook(WebhookAction { url, method: None, headers: None, body: None }))
    }

    fn event_rule(&mut self, id: String) -> (r: Result<EventRule, SELError>)
        requires
            old(self).wf(),
        ensures
            final(self).wf(),
            final(self).tokens == old(self).tokens,
            final(self).current >= old(self).current,
            r is Ok ==> final(self).current > old(self).current && r->Ok_0.id == id
                && r->Ok_0.enabled && r->Ok_0.name is None,
            r is Err ==> r->Err_0 is ParserError,
            bare_event_at(crate::lexer::kinds_texts(old(self).tokens@), old(self).current as int) is Some
                ==> (r is Ok && r->Ok_0.condition == found_cond(
                bare_event_at(crate::lexer::kinds_texts(old(self).tokens@), old(self).current as int),
            ) && r->Ok_0.actions@.len() == 0 && r->Ok_0.cooldown_seconds is None && final(self).current
                == found_end(
                bare_event_at(crate::lexer::kinds_texts(old(self).tokens@), old(self).current as int),
            )),
    {
        let ghost kt = crate::lexer::kinds_texts(old(self).tokens@);
        let ghost c0 = old(self).current as int;
        let ghost bare = bare_event_at(kt, c0);
        proof {
            if bare is Some {
                assert(kt[c0] == (self.tokens@[c0].kind, self.tokens@[c0].value@));
                assert(bare == lone_condition_at(kt, c0 + 1));
            }
        }
        match self.consume(TokenKind::On, "Expected 'ON'") {
            Ok(_) => {},
            Err(e) => return Err(e),
        }
        let condition = match self.condition() {
            Ok(c) => c,
            Err(e) => return Err(e),
        };
        proof {
            if bare is Some {
                let e = found_end(bare);
                assert(kt[e] == (self.tokens@[e].kind, self.tokens@[e].value@));
                assert(self.current == e);
            }
        }
        let mut actions: Vec<Action> = Vec::new();
        let mut cooldown: Option<u64> = None;
        if self.check(TokenKind::Indent) {
            self.advance();
            while !self.check(TokenKind::Dedent) && !self.is_at_end()
                invariant
                    self.wf(),
                    self.tokens == old(self).tokens,
                    self.current > old(self).current,
                    bare is None,
                    bare == bare_event_at(crate::lexer::kinds_texts(old(self).tokens@), old(self).current as int),
                decreases self.rest(),
            {
                if self.check(TokenKind::Notify) {
                    actions.push(self.notify_action()?);
                } else if self.check(TokenKind::Webhook) {
                    actions.push(self.webhook_action()?);
                } else if self.check(TokenKind::Cooldown) {
                    cooldown = Some(self.cooldown()?);
                } else {
                    break;
                }
            }
            if self.check(TokenKind::Dedent) {
                self.advance();
            }
        } else {
            if self.check(TokenKind::Notify) {
                actions.push(self.notify_action()?);
            }
            if self.check(TokenKind::Webhook) {
                actions.push(self.webhook_action()?);
            }
            if self.check(TokenKind::Cooldown) {
                cooldown = Some(self.cooldown()?);
            }
        }
        Ok(EventRule { id, name: None, condition, actions, cooldown_seconds: cooldown, enabled: true })
    }

    fn schedule_rule(&mut self, id: String) -> (r: Result<ScheduleRule, SELError>)
        requires
            old(self).wf(),
        ensures
            final(self).wf(),
            final(self).tokens == old(self).tokens,
            final(self).current >= old(self).current,
            r is Ok ==> final(self).current > old(self).current && r->Ok_0.id == id
                && r->Ok_0.enabled && r->Ok_0.name is None && r->Ok_0.schedule is Calendar,
            r is Ok ==> r->Ok_0.schedule == schedule_at(
                crate::lexer::kinds_texts(old(self).tokens@),
                old(self).current + 1,
            ),
            r is Err ==> r->Err_0 is ParserError,
    {
        self.consume(TokenKind::Every, "Expected 'EVERY'")?;
        let schedule = self.schedule();
        let mut actions: Vec<Action> = Vec::new();
        if self.check(TokenKind::Indent) {
            self.advance();
            while !self.check(TokenKind::Dedent) && !self.is_at_end()
                invariant
                    self.wf(),
                    self.tokens == old(self).tokens,
                    self.current > old(self).current,
                decreases self.rest(),
            {
                if self.check(TokenKind::Notify) {
                    actions.push(self.notify_action()?);
                } else if self.check(TokenKind::Webhook) {
                    actions.push(self.webhook_action()?);
                } else {
                    break;
                }
            }
            if self.check(TokenKind::Dedent) {
                self.advance();
            }
        } else if self.check(TokenKind::Notify) {
            actions.push(self.notify_action()?);
        }
        Ok(ScheduleRule { id, name: None, schedule, actions, enabled: true })
    }

    /// `<freq> [AT <time>]`: a frequency word or weekday name, and an
    /// optional time of day (default midnight).
    fn schedule(&mut self) -> (r: Schedule)
        requires
            old(self).wf(),
        ensures
            final(self).wf(),
            final(self).tokens == old(self).tokens,
            final(self).current >= old(self).current,
            r matches Schedule::Calendar(c) && c.frequency == frequency_of(
                old(self).word_at(old(self).current as int),
            ) && c.on == weekday_of(old(self).word_at(old(self).current as int)),
            r == schedule_at(crate::lexer::kinds_texts(old(self).tokens@), old(self).current as int),
    {
        let ghost kt = crate::lexer::kinds_texts(old(self).tokens@);
        let ghost c0 = old(self).current as int;
        proof {
            assert(kt[c0] == (self.tokens@[c0].kind, self.tokens@[c0].value@));
            if c0 + 1 < kt.len() {
                assert(kt[c0 + 1] == (self.tokens@[c0 + 1].kind, self.tokens@[c0 + 1].value@));
            }
            if c0 + 2 < kt.len() {
                assert(kt[c0 + 2] == (self.tokens@[c0 + 2].kind, self.tokens@[c0 + 2].value@));
            }
        }
        let mut frequency = CalendarFrequency::Daily;
        let mut on: Option<u8> = None;
        let mut at = TimeOfDay { hour: 0, minute: 0 };
        if self.check(TokenKind::Identifier) || self.check(TokenKind::Duration) {
            let token = self.advance();
            let cs = chars_of(token.value.as_str());
            let low = fold_lower(&cs, 0, cs.len());
            proof {
                assert(cs@.subrange(0, cs@.len() as int) =~= cs@);
            }
            let (f, o) = frequency_word(&low);
            frequency = f;
            on = o;
        }
        if self.match_token(TokenKind::At) {
            if self.check(TokenKind::Time) {
                let token = self.advance();
                let cs = chars_of(token.value.as_str());
                let (h, m) = parse_time(&cs);
                at = TimeOfDay { hour: h, minute: m };
            }
        }
        Schedule::Calendar(CalendarSchedule { frequency, at, on })
    }

    /// The text of the token at `i` where it can name a frequency.
    pub closed spec fn word_at(&self, i: int) -> Option<Seq<char>> {
        let t = self.tokens@[i];
        if t.kind == TokenKind::Identifier || t.kind == TokenKind::Duration {
            Some(lower_of(t.value@))
        } else {
            None
        }
    }
}

pub open spec fn frequency_of(w: Option<Seq<char>>) -> CalendarFrequency {
    match w {
        Some(s) => if s == "week"@ || s == "weekly"@ || weekday_number(s) is Some {
            CalendarFrequency::Weekly
        } else if s == "month"@ || s == "monthly"@ {
            CalendarFrequency::Monthly
        } else {
            CalendarFrequency::Daily
        },
        None => CalendarFrequency::Daily,
    }
}

pub open spec fn weekday_of(w: Option<Seq<char>>) -> Option<u8> {
    match w {
        Some(s) => weekday_number(s),
        None => None,
    }
}

/// Monday is 1, Sunday is 7.
pub open spec fn weekday_number(s: Seq<char>) -> Option<u8> {
    if s == "monday"@ {
        Some(1u8)
    } else if s == "tuesday"@ {
        Some(2u8)
    } else if s == "wednesday"@ {
        Some(3u8)
    } else if s == "thursday"@ {
        Some(4u8)
    } else if s == "friday"@ {
        Some(5u8)
    } else if s == "saturday"@ {
        Some(6u8)
    } else if s == "sunday"@ {
        Some(7u8)
    } else {
        None
    }
}

fn frequency_word(cs: &[char]) -> (r: (CalendarFrequency, Option<u8>))
    ensures
        r.0 == frequency_of(Some(cs@)),
        r.1 == weekday_of(Some(cs@)),
{
    if eq_exact(cs, "monday") {
        (CalendarFrequency::Weekly, Some(1))
    } else if eq_exact(cs, "tuesday") {
        (CalendarFrequency::Weekly, Some(2))
    } else if eq_exact(cs, "wednesday") {
        (CalendarFrequency::Weekly, Some(3))
    } else if eq_exact(cs, "thursday") {
        (CalendarFrequency::Weekly, Some(4))
    } else if eq_exact(cs, "friday") {
        (CalendarFrequency::Weekly, Some(5))
    } else if eq_exact(cs, "saturday") {
        (CalendarFrequency::Weekly, Some(6))
    } else if eq_exact(cs, "sunday") {
        (CalendarFrequency::Weekly, Some(7))
    } else if eq_exact(cs, "week") || eq_exact(cs, "weekly") {
        (CalendarFrequency::Weekly, None)
    } else if eq_exact(cs, "month") || eq_exact(cs, "monthly") {
        (CalendarFrequency::Monthly, None)
    } else {
        (CalendarFrequency::Daily, None)
    }
}

impl Parser {
    fn condition(&mut self) -> (r: Result<Condition, SELError>)
        requires
            old(self).wf(),
        ensures
            final(self).wf(),
            final(self).tokens == old(self).tokens,
            final(self).current >= old(self).current,
            r is Err ==> r->Err_0 is ParserError,
            lone_condition_at(crate::lexer::kinds_texts(old(self).tokens@), old(self).current as int) is Some ==> (r is Ok
                && r->Ok_0 == found_cond(lone_condition_at(crate::lexer::kinds_texts(old(self).tokens@), old(self).current as int))
                && final(self).current == found_end(lone_condition_at(crate::lexer::kinds_texts(old(self).tokens@), old(self).current as int))),
        decreases old(self).rest(), 9nat,
    {
        self.or_condition()
    }

    fn or_condition(&mut self) -> (r: Result<Condition, SELError>)
        requires
            old(self).wf(),
        ensures
            final(self).wf(),
            final(self).tokens == old(self).tokens,
            final(self).current >= old(self).current,
            r is Err ==> r->Err_0 is ParserError,
            lone_condition_at(crate::lexer::kinds_texts(old(self).tokens@), old(self).current as int) is Some ==> (r is Ok
                && r->Ok_0 == found_cond(lone_condition_at(crate::lexer::kinds_texts(old(self).tokens@), old(self).current as int))
                && final(self).current == found_end(lone_condition_at(crate::lexer::kinds_texts(old(self).tokens@), old(self).current as int))),
        decreases old(self).rest(), 8nat,
    {
        let mut left = self.and_condition()?;
        while self.match_token(TokenKind::Or)
            invariant
                self.wf(),
                self.tokens == old(self).tokens,
                self.current >= old(self).current,
                lone_condition_at(crate::lexer::kinds_texts(old(self).tokens@), old(self).current as int) is Some ==> (self.current
                    == found_end(lone_condition_at(crate::lexer::kinds_texts(old(self).tokens@), old(self).current as int)) && left
                    == found_cond(lone_condition_at(crate::lexer::kinds_texts(old(self).tokens@), old(self).current as int))),
            decreases self.rest(),
        {
            let right = self.and_condition()?;
            left = Condition::Logical(LogicalCondition { operator: LogicalOp::Or, conditions: vec![left, right] });
        }
        Ok(left)
    }

    fn and_condition(&mut self) -> (r: Result<Condition, SELError>)
        requires
            old(self).wf(),
        ensures
            final(self).wf(),
            final(self).tokens == old(self).tokens,
            final(self).current >= old(self).current,
            r is Err ==> r->Err_0 is ParserError,
            lone_condition_at(crate::lexer::kinds_texts(old(self).tokens@), old(self).current as int) is Some ==> (r is Ok
                && r->Ok_0 == found_cond(lone_condition_at(crate::lexer::kinds_texts(old(self).tokens@), old(self).current as int))
                && final(self).current == found_end(lone_condition_at(crate::lexer::kinds_texts(old(self).tokens@), old(self).current as int))),
        decreases old(self).rest(), 7nat,
    {
        let mut left = self.unary_condition()?;
        while self.match_token(TokenKind::And)
            invariant
                self.wf(),
                self.tokens == old(self).tokens,
                self.current >= old(self).current,
                lone_condition_at(crate::lexer::kinds_texts(old(self).tokens@), old(self).current as int) is Some ==> (self.current
                    == found_end(lone_condition_at(crate::lexer::kinds_texts(old(self).tokens@), old(self).current as int)) && left
                    == found_cond(lone_condition_at(crate::lexer::kinds_texts(old(self).tokens@), old(self).current as int))),
            decreases self.rest(),
        {
            let right = self.unary_condition()?;
            left = Condition::Logical(LogicalCondition { operator: LogicalOp::And, conditions: vec![left, right] });
        }
        Ok(left)
    }

    fn unary_condition(&mut self) -> (r: Result<Condition, SELError>)
        requires
            old(self).wf(),
        ensures
            final(self).wf(),
            final(self).tokens == old(self).tokens,
            final(self).current >= old(self).current,
            r is Err ==> r->Err_0 is ParserError,
            lone_condition_at(crate::lexer::kinds_texts(old(self).tokens@), old(self).current as int) is Some ==> (r is Ok
                && r->Ok_0 == found_cond(lone_condition_at(crate::lexer::kinds_texts(old(self).tokens@), old(self).current as int))
                && final(self).current == found_end(lone_condition_at(crate::lexer::kinds_texts(old(self).tokens@), old(self).current as int))),
        decreases old(self).rest(), 6nat,
    {
        if self.match_token(TokenKind::Not) {
            let cond = self.unary_condition()?;
            return Ok(Condition::Logical(LogicalCondition { operator: LogicalOp::Not, conditions: vec![cond] }));
        }
        self.primary_condition()
    }

    fn primary_condition(&mut self) -> (r: Result<Condition, SELError>)
        requires
            old(self).wf(),
        ensures
            final(self).wf(),
            final(self).tokens == old(self).tokens,
            final(self).current >= old(self).current,
            r is Err ==> r->Err_0 is ParserError,
            simple_condition_at(crate::lexer::kinds_texts(old(self).tokens@), old(self).current as int) is Some ==> (r is Ok
                && r->Ok_0 == found_cond(simple_condition_at(crate::lexer::kinds_texts(old(self).tokens@), old(self).current as int))
                && final(self).current == found_end(simple_condition_at(crate::lexer::kinds_texts(old(self).tokens@), old(self).current as int))),
        decreases old(self).rest(), 5nat,
    {
        if self.match_token(TokenKind::LParen) {
            let cond = self.condition()?;
            self.consume(TokenKind::RParen, "Expected ')'")?;
            return Ok(cond);
        }
        let expr = self.expression()?;
        if self.check(TokenKind::Rising) || self.check(TokenKind::Falling) || self.check(TokenKind::Stable) {
            let kind = self.advance().kind;
            let direction = if kind == TokenKind::Rising {
                TrendDirection::Rising
            } else if kind == TokenKind::Falling {
                TrendDirection::Falling
            } else {
                TrendDirection::Stable
            };
            let metric = match expr {
                Expression::Metric(m) => m.metric,
                _ => return Err(self.error("Expected metric for trend condition")),
            };
            return Ok(Condition::Trend(TrendCondition { metric, direction, threshold_per_hour: None }));
        }
        if self.match_token(TokenKind::Is) {
            if self.match_token(TokenKind::Unusual) {
                self.consume(TokenKind::Compared, "Expected 'COMPARED'")?;
                self.consume(TokenKind::To, "Expected 'TO'")?;
                let period = if self.check(TokenKind::Duration) {
                    let token = self.advance();
                    let cs = chars_of(token.value.as_str());
                    parse_duration(&cs)
                } else {
                    // A week by default.
                    604800
                };
                let metric = match expr {
                    Expression::Metric(m) => m.metric,
                    _ => return Err(self.error("Expected metric for anomaly condition")),
                };
                return Ok(Condition::Anomaly(AnomalyCondition {
                    metric,
                    period_seconds: period,
                    sensitivity: Decimal { mantissa: 2, scale: 0 },
                }));
            }
        }
        let operator = self.comparison_op()?;
        let right = self.expression()?;
        Ok(Condition::Comparison(ComparisonCondition { left: expr, operator, right }))
    }

    fn comparison_op(&mut self) -> (r: Result<ComparisonOp, SELError>)
        requires
            old(self).wf(),
        ensures
            final(self).wf(),
            final(self).tokens == old(self).tokens,
            final(self).current >= old(self).current,
            r is Err ==> r->Err_0 is ParserError,
            old(self).tokens@[old(self).current as int].kind != TokenKind::Eof && r is Ok ==> Some(
                r->Ok_0,
            ) == comparison_of(old(self).tokens@[old(self).current as int].kind),
            old(self).tokens@[old(self).current as int].kind != TokenKind::Eof ==> (r is Ok
                <==> comparison_of(old(self).tokens@[old(self).current as int].kind) is Some),
            old(self).tokens@[old(self).current as int].kind != TokenKind::Eof ==> final(self).current
                == old(self).current + 1,
    {
        let kind = self.advance().kind;
        if kind == TokenKind::Eq {
            Ok(ComparisonOp::Equal)
        } else if kind == TokenKind::Neq {
            Ok(ComparisonOp::NotEqual)
        } else if kind == TokenKind::Lt {
            Ok(ComparisonOp::LessThan)
        } else if kind == TokenKind::Lte {
            Ok(ComparisonOp::LessThanOrEqual)
        } else if kind == TokenKind::Gt {
            Ok(ComparisonOp::GreaterThan)
        } else if kind == TokenKind::Gte {
            Ok(ComparisonOp::GreaterThanOrEqual)
        } else {
            Err(self.error("Expected comparison operator"))
        }
    }

    fn expression(&mut self) -> (r: Result<Expression, SELError>)
        requires
            old(self).wf(),
        ensures
            final(self).wf(),
            final(self).tokens == old(self).tokens,
            final(self).current >= old(self).current,
            r is Err ==> r->Err_0 is ParserError,
            simple_expr_at(crate::lexer::kinds_texts(old(self).tokens@), old(self).current as int) is Some ==> (r is Ok
                && r->Ok_0 == simple_expr_at(crate::lexer::kinds_texts(old(self).tokens@), old(self).current as int)->0
                && final(self).current == old(self).current + 1),
        decreases old(self).rest(), 4nat,
    {
        self.additive()
    }

    fn additive(&mut self) -> (r: Result<Expression, SELError>)
        requires
            old(self).wf(),
        ensures
            final(self).wf(),
            final(self).tokens == old(self).tokens,
            final(self).current >= old(self).current,
            r is Err ==> r->Err_0 is ParserError,
            simple_expr_at(crate::lexer::kinds_texts(old(self).tokens@), old(self).current as int) is Some ==> (r is Ok
                && r->Ok_0 == simple_expr_at(crate::lexer::kinds_texts(old(self).tokens@), old(self).current as int)->0
                && final(self).current == old(self).current + 1),
        decreases old(self).rest(), 3nat,
    {
        let mut left = self.multiplicative()?;
        while self.check(TokenKind::Plus) || self.check(TokenKind::Minus)
            invariant
                self.wf(),
                self.tokens == old(self).tokens,
                self.current >= old(self).current,
                simple_expr_at(crate::lexer::kinds_texts(old(self).tokens@), old(self).current as int) is Some ==> (self.current
                    == old(self).current + 1 && left == simple_expr_at(crate::lexer::kinds_texts(old(self).tokens@), old(self).current as int)->0),
            decreases self.rest(),
        {
            let operator = if self.advance().kind == TokenKind::Plus {
                BinaryOp::Add
            } else {
                BinaryOp::Subtract
            };
            let right = self.multiplicative()?;
            left = Expression::Binary(BinaryExpr { left: Box::new(left), operator, right: Box::new(right) });
        }
        Ok(left)
    }

    fn multiplicative(&mut self) -> (r: Result<Expression, SELError>)
        requires
            old(self).wf(),
        ensures
            final(self).wf(),
            final(self).tokens == old(self).tokens,
            final(self).current >= old(self).current,
            r is Err ==> r->Err_0 is ParserError,
            simple_expr_at(crate::lexer::kinds_texts(old(self).tokens@), old(self).current as int) is Some ==> (r is Ok
                && r->Ok_0 == simple_expr_at(crate::lexer::kinds_texts(old(self).tokens@), old(self).current as int)->0
                && final(self).current == old(self).current + 1),
        decreases old(self).rest(), 2nat,
    {
        let mut left = self.primary()?;
        while self.check(TokenKind::Star) || self.check(TokenKind::Slash) || self.check(TokenKind::Modulo)
            invariant
                self.wf(),
                self.tokens == old(self).tokens,
                self.current >= old(self).current,
                simple_expr_at(crate::lexer::kinds_texts(old(self).tokens@), old(self).current as int) is Some ==> (self.current
                    == old(self).current + 1 && left == simple_expr_at(crate::lexer::kinds_texts(old(self).tokens@), old(self).current as int)->0),
            decreases self.rest(),
        {
            let kind = self.advance().kind;
            let operator = if kind == TokenKind::Star {
                BinaryOp::Multiply
            } else if kind == TokenKind::Slash {
                BinaryOp::Divide
            } else {
                BinaryOp::Modulo
            };
            let right = self.primary()?;
            left = Expression::Binary(BinaryExpr { left: Box::new(left), operator, right: Box::new(right) });
        }
        Ok(left)
    }

    fn primary(&mut self) -> (r: Result<Expression, SELError>)
        requires
            old(self).wf(),
        ensures
            final(self).wf(),
            final(self).tokens == old(self).tokens,
            final(self).current >= old(self).current,
            r is Err ==> r->Err_0 is ParserError,
            simple_expr_at(crate::lexer::kinds_texts(old(self).tokens@), old(self).current as int) is Some ==> (r is Ok
                && r->Ok_0 == simple_expr_at(crate::lexer::kinds_texts(old(self).tokens@), old(self).current as int)->0
                && final(self).current == old(self).current + 1),
        decreases old(self).rest(), 1nat,
    {
        if self.check(TokenKind::Function) {
            return self.function_call();
        }
        if self.check(TokenKind::Metric) {
            let token = self.advance();
            return match Metric::from_str(token.value.as_str()) {
                Some(metric) => Ok(Expression::Metric(MetricExpr { metric })),
                None => Err(self.error("Unknown metric")),
            };
        }
        if self.check(TokenKind::Variable) {
            let name = self.advance().value;
            return Ok(Expression::Variable(VariableRef { name }));
        }
        if self.check(TokenKind::Number) || self.check(TokenKind::Percent) {
            let value = self.value()?;
            return Ok(Expression::Literal(LiteralExpr { value }));
        }
        if self.match_token(TokenKind::LParen) {
            let expr = self.expression()?;
            self.consume(TokenKind::RParen, "Expected ')'")?;
            return Ok(expr);
        }
        Err(self.error("Expected expression"))
    }

    fn function_call(&mut self) -> (r: Result<Expression, SELError>)
        requires
            old(self).wf(),
        ensures
            final(self).wf(),
            final(self).tokens == old(self).tokens,
            final(self).current >= old(self).current,
            r is Err ==> r->Err_0 is ParserError,
        decreases old(self).rest(), 0nat,
    {
        let token = self.consume(TokenKind::Function, "Expected function")?;
        let name = match Function::from_str(token.value.as_str()) {
            Some(f) => f,
            None => return Err(self.error("Unknown function")),
        };
        self.consume(TokenKind::LParen, "Expected '('")?;
        let mut args: Vec<Expression> = Vec::new();
        let mut period: Option<u64> = None;
        if !self.check(TokenKind::RParen) {
            args.push(self.expression()?);
            if self.match_token(TokenKind::Comma) {
                if self.check(TokenKind::Duration) || self.check(TokenKind::Identifier) {
                    let t = self.advance();
                    let tcs = chars_of(t.value.as_str());
                    period = Some(parse_duration(&tcs));
                } else {
                    args.push(self.expression()?);
                }
            }
        }
        self.consume(TokenKind::RParen, "Expected ')'")?;
        Ok(Expression::Function(FunctionCall { name, args, period_seconds: period }))
    }

}

} // verus!
