//! The lexer: source text to tokens with positions, tracking indentation.

use vstd::prelude::*;
use crate::error::{SELError, SourceLocation};
use crate::text::{push_char, string_from_chars, eq_exact, lower_of, upper_of, is_digit, fold_lower, fold_upper};
use crate::units::{is_num_char, literal_unit, num_prefix_len};

verus! {

#[derive(Debug, Clone)]
pub struct Token {
    pub kind: TokenKind,
    pub value: String,
    pub location: SourceLocation,
}

#[derive(Debug, Clone, Copy, PartialEq, Eq, Structural)]
pub enum TokenKind {
    On,
    Every,
    At,
    During,
    Between,
    And,
    Or,
    Not,
    Notify,
    Webhook,
    Log,
    SetKeyword,
    Cooldown,
    Is,
    Unusual,
    Compared,
    To,
    Rising,
    Falling,
    Stable,
    Number,
    Percent,
    String,
    Time,
    Duration,
    Metric,
    Function,
    Variable,
    Identifier,
    Plus,
    Minus,
    Star,
    Slash,
    Modulo,
    Eq,
    Neq,
    Lt,
    Lte,
    Gt,
    Gte,
    Assign,
    LParen,
    RParen,
    LBrace,
    RBrace,
    Comma,
    Dot,
    DotDot,
    Colon,
    Newline,
    Indent,
    Dedent,
    Eof,
}

/// Whether `c` is alphabetic in the Unicode sense.
pub uninterp spec fn alphabetic(c: char) -> bool;

/// Whether `c` is alphabetic or numeric in the Unicode sense.
pub uninterp spec fn alphanumeric(c: char) -> bool;

/// Relies on char::is_alphabetic: the Unicode Alphabetic property of `c`.
#[verifier::external_body]
fn is_alphabetic(c: char) -> (r: bool)
    ensures
        r == alphabetic(c),
{
    c.is_alphabetic()
}

/// Relies on char::is_alphanumeric: Unicode Alphabetic or Numeric.
#[verifier::external_body]
fn is_alphanumeric(c: char) -> (r: bool)
    ensures
        r == alphanumeric(c),
{
    c.is_alphanumeric()
}

fn is_ascii_digit(c: char) -> (r: bool)
    ensures
        r == ('0' <= c && c <= '9'),
{
    '0' <= c && c <= '9'
}

/// Number of bytes of the UTF-8 encoding of `c`.
pub open spec fn utf8_len(c: char) -> nat {
    if (c as u32) < 0x80 {
        1
    } else if (c as u32) < 0x800 {
        2
    } else if (c as u32) < 0x10000 {
        3
    } else {
        4
    }
}

fn char_len_utf8(c: char) -> (r: usize)
    ensures
        r == utf8_len(c),
        1 <= r <= 4,
{
    let v = c as u32;
    if v < 0x80 {
        1
    } else if v < 0x800 {
        2
    } else if v < 0x10000 {
        3
    } else {
        4
    }
}

/// The largest source, in characters, the lexer takes on.
pub const MAX_SOURCE_CHARS: usize = 0x1000_0000;

pub open spec fn is_function_name(s: Seq<char>) -> bool {
    s == "AVG"@ || s == "MEDIAN"@ || s == "SUM"@ || s == "MIN"@ || s == "MAX"@ || s == "COUNT"@
        || s == "STDDEV"@ || s == "TREND"@ || s == "PERCENTILE"@
}

pub open spec fn is_metric_name(s: Seq<char>) -> bool {
    s == "pv_power"@ || s == "battery_power"@ || s == "battery_soc"@ || s == "grid_power"@
        || s == "grid_import"@ || s == "grid_export"@ || s == "load_power"@
}

pub open spec fn is_power_or_energy_unit_spec(s: Seq<char>) -> bool {
    s == "W"@ || s == "kW"@ || s == "MW"@ || s == "Wh"@ || s == "kWh"@ || s == "MWh"@
}

pub open spec fn is_duration_unit_spec(s: Seq<char>) -> bool {
    s == "min"@ || s == "hour"@ || s == "day"@ || s == "week"@ || s == "month"@ || s == "h"@
        || s == "d"@ || s == "s"@ || s == "sec"@
}

/// The keyword spelled `s` (upper-cased), if any.
pub open spec fn keyword_kind(s: Seq<char>) -> Option<TokenKind> {
    if s == "ON"@ {
        Some(TokenKind::On)
    } else if s == "EVERY"@ {
        Some(TokenKind::Every)
    } else if s == "AT"@ {
        Some(TokenKind::At)
    } else if s == "DURING"@ {
        Some(TokenKind::During)
    } else if s == "BETWEEN"@ {
        Some(TokenKind::Between)
    } else if s == "AND"@ {
        Some(TokenKind::And)
    } else if s == "OR"@ {
        Some(TokenKind::Or)
    } else if s == "NOT"@ {
        Some(TokenKind::Not)
    } else if s == "NOTIFY"@ {
        Some(TokenKind::Notify)
    } else if s == "WEBHOOK"@ {
        Some(TokenKind::Webhook)
    } else if s == "LOG"@ {
        Some(TokenKind::Log)
    } else if s == "SET"@ {
        Some(TokenKind::SetKeyword)
    } else if s == "COOLDOWN"@ {
        Some(TokenKind::Cooldown)
    } else if s == "IS"@ {
        Some(TokenKind::Is)
    } else if s == "UNUSUAL"@ {
        Some(TokenKind::Unusual)
    } else if s == "COMPARED"@ {
        Some(TokenKind::Compared)
    } else if s == "TO"@ {
        Some(TokenKind::To)
    } else if s == "RISING"@ {
        Some(TokenKind::Rising)
    } else if s == "FALLING"@ {
        Some(TokenKind::Falling)
    } else if s == "STABLE"@ {
        Some(TokenKind::Stable)
    } else {
        None
    }
}

/// The kind of an identifier-like word: keyword, then function, then
/// metric, else a plain identifier.
pub open spec fn word_kind(text: Seq<char>) -> TokenKind {
    match keyword_kind(upper_of(text)) {
        Some(k) => k,
        None => if is_function_name(upper_of(text)) {
            TokenKind::Function
        } else if is_metric_name(lower_of(text)) {
            TokenKind::Metric
        } else {
            TokenKind::Identifier
        },
    }
}

fn keyword(cs: &[char]) -> (r: Option<TokenKind>)
    ensures
        r == keyword_kind(cs@),
{
    if eq_exact(cs, "ON") {
        Some(TokenKind::On)
    } else if eq_exact(cs, "EVERY") {
        Some(TokenKind::Every)
    } else if eq_exact(cs, "AT") {
        Some(TokenKind::At)
    } else if eq_exact(cs, "DURING") {
        Some(TokenKind::During)
    } else if eq_exact(cs, "BETWEEN") {
        Some(TokenKind::Between)
    } else if eq_exact(cs, "AND") {
        Some(TokenKind::And)
    } else if eq_exact(cs, "OR") {
        Some(TokenKind::Or)
    } else if eq_exact(cs, "NOT") {
        Some(TokenKind::Not)
    } else if eq_exact(cs, "NOTIFY") {
        Some(TokenKind::Notify)
    } else if eq_exact(cs, "WEBHOOK") {
        Some(TokenKind::Webhook)
    } else if eq_exact(cs, "LOG") {
        Some(TokenKind::Log)
    } else if eq_exact(cs, "SET") {
        Some(TokenKind::SetKeyword)
    } else if eq_exact(cs, "COOLDOWN") {
        Some(TokenKind::Cooldown)
    } else if eq_exact(cs, "IS") {
        Some(TokenKind::Is)
    } else if eq_exact(cs, "UNUSUAL") {
        Some(TokenKind::Unusual)
    } else if eq_exact(cs, "COMPARED") {
        Some(TokenKind::Compared)
    } else if eq_exact(cs, "TO") {
        Some(TokenKind::To)
    } else if eq_exact(cs, "RISING") {
        Some(TokenKind::Rising)
    } else if eq_exact(cs, "FALLING") {
        Some(TokenKind::Falling)
    } else if eq_exact(cs, "STABLE") {
        Some(TokenKind::Stable)
    } else {
        None
    }
}

fn is_function(cs: &[char]) -> (r: bool)
    ensures
        r == is_function_name(cs@),
{
    eq_exact(cs, "AVG") || eq_exact(cs, "MEDIAN") || eq_exact(cs, "SUM") || eq_exact(cs, "MIN")
        || eq_exact(cs, "MAX") || eq_exact(cs, "COUNT") || eq_exact(cs, "STDDEV") || eq_exact(
        cs,
        "TREND",
    ) || eq_exact(cs, "PERCENTILE")
}

fn is_metric(cs: &[char]) -> (r: bool)
    ensures
        r == is_metric_name(cs@),
{
    eq_exact(cs, "pv_power") || eq_exact(cs, "battery_power") || eq_exact(cs, "battery_soc")
        || eq_exact(cs, "grid_power") || eq_exact(cs, "grid_import") || eq_exact(cs, "grid_export")
        || eq_exact(cs, "load_power")
}

/// Power and energy units are case-sensitive.
fn is_power_or_energy_unit(cs: &[char]) -> (r: bool)
    ensures
        r == is_power_or_energy_unit_spec(cs@),
{
    eq_exact(cs, "W") || eq_exact(cs, "kW") || eq_exact(cs, "MW") || eq_exact(cs, "Wh")
        || eq_exact(cs, "kWh") || eq_exact(cs, "MWh")
}

/// Duration units ignore ASCII case.
fn is_duration_unit(cs: &[char]) -> (r: bool)
    ensures
        r == is_duration_unit_spec(cs@),
{
    eq_exact(cs, "min") || eq_exact(cs, "hour") || eq_exact(cs, "day") || eq_exact(cs, "week")
        || eq_exact(cs, "month") || eq_exact(cs, "h") || eq_exact(cs, "d") || eq_exact(cs, "s")
        || eq_exact(cs, "sec")
}

/// Characters of a word: alphanumeric or `_`.
pub open spec fn word_chars() -> spec_fn(char) -> bool {
    |c: char| alphanumeric(c) || c == '_'
}

pub open spec fn num_chars() -> spec_fn(char) -> bool {
    |c: char| is_num_char(c)
}

pub open spec fn digit_chars() -> spec_fn(char) -> bool {
    |c: char| is_digit(c)
}

pub open spec fn alpha_chars() -> spec_fn(char) -> bool {
    |c: char| alphabetic(c)
}

/// Characters inside a string literal opened by `quote`.
pub open spec fn string_chars(quote: char) -> spec_fn(char) -> bool {
    |c: char| c != quote && c != '\n'
}

/// The end of the run of characters satisfying `p` from index `i`.
pub open spec fn run_end(cs: Seq<char>, i: int, p: spec_fn(char) -> bool) -> int
    decreases cs.len() - i,
{
    if i < 0 || i >= cs.len() || !p(cs[i]) {
        i
    } else {
        run_end(cs, i + 1, p)
    }
}

proof fn lemma_run_end(cs: Seq<char>, i: int, j: int, p: spec_fn(char) -> bool)
    requires
        0 <= i <= j <= cs.len(),
        forall|k: int| i <= k < j ==> p(#[trigger] cs[k]),
        j == cs.len() || !p(cs[j]),
    ensures
        run_end(cs, i, p) == j,
    decreases j - i,
{
    if i < j {
        lemma_run_end(cs, i + 1, j, p);
    }
}

/// Kinds and texts of a token list.
pub open spec fn kinds_texts(ts: Seq<Token>) -> Seq<(TokenKind, Seq<char>)> {
    ts.map_values(|t: Token| (t.kind, t.value@))
}

/// The tokens of a numeric literal whose first digit is at `s0 - 1`, and
/// where reading ends: a time `HH:MM`; a number followed by a colon that
/// starts no time; a percentage; or a number with its alphabetic suffix,
/// which is a duration when the suffix (in any case) is a duration unit and
/// not a power or energy unit.
pub open spec fn number_scan(cs: Seq<char>, s0: int) -> (Seq<(TokenKind, Seq<char>)>, int) {
    let start = s0 - 1;
    let a = run_end(cs, s0, num_chars());
    if a < cs.len() && cs[a] == ':' {
        if a + 1 < cs.len() && is_digit(cs[a + 1]) {
            let b = run_end(cs, a + 1, digit_chars());
            (seq![(TokenKind::Time, cs.subrange(start, b))], b)
        } else {
            (seq![(TokenKind::Number, cs.subrange(start, a)), (TokenKind::Colon, ":"@)], a + 1)
        }
    } else if a < cs.len() && cs[a] == '%' {
        (seq![(TokenKind::Percent, cs.subrange(start, a))], a + 1)
    } else {
        let u = run_end(cs, a, alpha_chars());
        let unit = cs.subrange(a, u);
        let k = if !is_power_or_energy_unit_spec(unit) && is_duration_unit_spec(lower_of(unit)) {
            TokenKind::Duration
        } else {
            TokenKind::Number
        };
        (seq![(k, cs.subrange(start, u))], u)
    }
}

pub open spec fn indent_chars() -> spec_fn(char) -> bool {
    |c: char| c == ' ' || c == '\t'
}

pub open spec fn comment_chars() -> spec_fn(char) -> bool {
    |c: char| c != '\n'
}

/// Indentation width of `cs[i..j]`: a tab counts four.
pub open spec fn indent_width(cs: Seq<char>, i: int, j: int) -> int
    decreases j - i,
{
    if j <= i {
        0
    } else {
        indent_width(cs, i, j - 1) + if cs[j - 1] == '\t' { 4int } else { 1int }
    }
}

proof fn lemma_indent_width_step(cs: Seq<char>, i: int, j: int)
    requires
        i <= j,
    ensures
        indent_width(cs, i, j + 1) == indent_width(cs, i, j) + if cs[j] == '\t' {
            4int
        } else {
            1int
        },
{
}

/// How many levels a line indented by `w` closes.
pub open spec fn dedents(stack: Seq<usize>, w: int) -> nat
    decreases stack.len(),
{
    if stack.len() > 1 && stack.last() > w {
        1 + dedents(stack.drop_last(), w)
    } else {
        0
    }
}

pub open spec fn layout_tokens(kind: TokenKind, n: nat) -> Seq<(TokenKind, Seq<char>)> {
    Seq::new(n, |i: int| (kind, Seq::<char>::empty()))
}

/// The start of a new line at `pos`: where reading goes on, the new
/// indentation stack, and the layout tokens. Blank and comment lines leave
/// the stack alone.
pub open spec fn indent_step(cs: Seq<char>, pos: int, stack: Seq<usize>) -> (int, Seq<usize>, Seq<(TokenKind, Seq<char>)>) {
    let e = run_end(cs, pos, indent_chars());
    let w = indent_width(cs, pos, e);
    if e < cs.len() && (cs[e] == '\n' || cs[e] == '#') {
        (e, stack, Seq::empty())
    } else if w > stack.last() {
        (e, stack.push(w as usize), layout_tokens(TokenKind::Indent, 1))
    } else if w < stack.last() {
        let n = dedents(stack, w);
        (e, stack.take(stack.len() - n), layout_tokens(TokenKind::Dedent, n))
    } else {
        (e, stack, Seq::empty())
    }
}

/// A one-character token.
pub open spec fn single_token(c: char) -> Option<(TokenKind, Seq<char>)> {
    if c == '(' {
        Some((TokenKind::LParen, "("@))
    } else if c == ')' {
        Some((TokenKind::RParen, ")"@))
    } else if c == '{' {
        Some((TokenKind::LBrace, "{"@))
    } else if c == '}' {
        Some((TokenKind::RBrace, "}"@))
    } else if c == ',' {
        Some((TokenKind::Comma, ","@))
    } else if c == ':' {
        Some((TokenKind::Colon, ":"@))
    } else if c == '+' {
        Some((TokenKind::Plus, "+"@))
    } else if c == '-' {
        Some((TokenKind::Minus, "-"@))
    } else if c == '*' {
        Some((TokenKind::Star, "*"@))
    } else if c == '%' {
        Some((TokenKind::Modulo, "%"@))
    } else {
        None
    }
}

/// A token that may take a second character: `(second, two, one)`.
pub open spec fn pair_token(c: char) -> Option<(char, (TokenKind, Seq<char>), Option<(TokenKind, Seq<char>)>)> {
    if c == '.' {
        Some(('.', (TokenKind::DotDot, ".."@), Some((TokenKind::Dot, "."@))))
    } else if c == '=' {
        Some(('=', (TokenKind::Eq, "=="@), Some((TokenKind::Assign, "="@))))
    } else if c == '!' {
        Some(('=', (TokenKind::Neq, "!="@), None))
    } else if c == '<' {
        Some(('=', (TokenKind::Lte, "<="@), Some((TokenKind::Lt, "<"@))))
    } else if c == '>' {
        Some(('=', (TokenKind::Gte, ">="@), Some((TokenKind::Gt, ">"@))))
    } else {
        None
    }
}

pub open spec fn prepend(ts: Seq<(TokenKind, Seq<char>)>, rest: Option<Seq<(TokenKind, Seq<char>)>>) -> Option<Seq<(TokenKind, Seq<char>)>> {
    match rest {
        Some(r) => Some(ts + r),
        None => None,
    }
}

/// The kinds and texts of the tokens of `cs` from `pos` on, with the
/// indentation stack `stack`, ending with `Eof`; `None` when the text holds
/// an unknown character, an unterminated string, a `$` without a name or a
/// lone `!`.
pub open spec fn lex_from(cs: Seq<char>, pos: int, stack: Seq<usize>) -> Option<Seq<(TokenKind, Seq<char>)>>
    decreases cs.len() - pos,
{
    if pos < 0 || pos >= cs.len() {
        Some(seq![(TokenKind::Eof, Seq::<char>::empty())])
    } else {
        let c = cs[pos];
        let next = pos + 1;
        if single_token(c) is Some {
            prepend(seq![single_token(c)->0], lex_from(cs, next, stack))
        } else if c == ' ' || c == '\t' || c == '\r' {
            lex_from(cs, next, stack)
        } else if c == '\n' {
            let st = indent_step(cs, next, stack);
            if st.0 < next || st.0 > cs.len() {
                None
            } else {
                prepend(seq![(TokenKind::Newline, "\\n"@)] + st.2, lex_from(cs, st.0, st.1))
            }
        } else if pair_token(c) is Some {
            let (second, two, one) = pair_token(c)->0;
            if next < cs.len() && cs[next] == second {
                prepend(seq![two], lex_from(cs, next + 1, stack))
            } else {
                match one {
                    Some(t) => prepend(seq![t], lex_from(cs, next, stack)),
                    None => None,
                }
            }
        } else if c == '/' && next < cs.len() && cs[next] == '/' || c == '#' {
            let e = run_end(cs, next, comment_chars());
            if e < next || e > cs.len() {
                None
            } else {
                lex_from(cs, e, stack)
            }
        } else if c == '/' {
            prepend(seq![(TokenKind::Slash, "/"@)], lex_from(cs, next, stack))
        } else if c == '"' || c == '\'' {
            let e = run_end(cs, next, string_chars(c));
            if e < next || !(e < cs.len() && cs[e] == c) {
                None
            } else {
                prepend(seq![(TokenKind::String, cs.subrange(next, e))], lex_from(cs, e + 1, stack))
            }
        } else if c == '$' {
            let e = run_end(cs, next, word_chars());
            if e <= next || e > cs.len() {
                None
            } else {
                prepend(seq![(TokenKind::Variable, cs.subrange(next, e))], lex_from(cs, e, stack))
            }
        } else if is_digit(c) {
            let sc = number_scan(cs, next);
            if sc.1 < next || sc.1 > cs.len() {
                None
            } else {
                prepend(sc.0, lex_from(cs, sc.1, stack))
            }
        } else if alphabetic(c) || c == '_' {
            let e = run_end(cs, next, word_chars());
            if e < next || e > cs.len() {
                None
            } else {
                let text = cs.subrange(pos, e);
                prepend(seq![(word_kind(text), text)], lex_from(cs, e, stack))
            }
        } else {
            None
        }
    }
}

proof fn lemma_prepend_assoc(
    a: Seq<(TokenKind, Seq<char>)>,
    b: Seq<(TokenKind, Seq<char>)>,
    o: Option<Seq<(TokenKind, Seq<char>)>>,
)
    ensures
        prepend(a + b, o) == prepend(a, prepend(b, o)),
{
    if let Some(r) = o {
        assert(a + b + r =~= a + (b + r));
    }
}

proof fn lemma_kinds_texts_push(ts: Seq<Token>, t: Token)
    ensures
        kinds_texts(ts.push(t)) == kinds_texts(ts) + seq![(t.kind, t.value@)],
{
    assert(kinds_texts(ts.push(t)) =~= kinds_texts(ts) + seq![(t.kind, t.value@)]);
}

proof fn lemma_run_end_ge(cs: Seq<char>, i: int, p: spec_fn(char) -> bool)
    requires
        0 <= i,
    ensures
        i <= run_end(cs, i, p),
        run_end(cs, i, p) <= cs.len() || run_end(cs, i, p) == i,
    decreases cs.len() - i,
{
    if !(i < 0 || i >= cs.len() || !p(cs[i])) {
        lemma_run_end_ge(cs, i + 1, p);
    }
}

/// Line and column of each token of a list.
pub open spec fn positions(ts: Seq<Token>) -> Seq<(int, int)> {
    ts.map_values(|t: Token| (t.location.line as int, t.location.column as int))
}

pub open spec fn prepend_at(ps: Seq<(int, int)>, rest: Result<Seq<(int, int)>, (Seq<char>, int, int)>) -> Result<Seq<(int, int)>, (Seq<char>, int, int)> {
    match rest {
        Ok(r) => Ok(ps + r),
        Err(e) => Err(e),
    }
}

/// Where the tokens of a numeric literal stand: all at the literal's first
/// character, but a colon that starts no time at its own column.
pub open spec fn number_places(cs: Seq<char>, s0: int, line: int, col: int) -> Seq<(int, int)> {
    let a = run_end(cs, s0, num_chars());
    if a < cs.len() && cs[a] == ':' && !(a + 1 < cs.len() && is_digit(cs[a + 1])) {
        seq![(line, col), (line, col + (a - (s0 - 1)))]
    } else {
        seq![(line, col)]
    }
}

/// Whether `e` is the lexer error with message, line and column `f`.
pub open spec fn lexer_error_is(e: SELError, f: (Seq<char>, int, int)) -> bool {
    match e {
        SELError::LexerError { message, line, column } => message@ == f.0 && line == f.1 && column
            == f.2,
        _ => false,
    }
}

/// The message for a character no token starts with.
pub open spec fn unexpected_message(c: char) -> Seq<char> {
    "Unexpected character '"@ + seq![c, '\'']
}

/// The 1-based line and column of each token of `cs` from `pos` on (which
/// is at line `line`, column `col`), in the order `lex_from` gives them; or
/// the message, line and column of the first lexical error. A tab or any
/// other character counts one column; comment characters count none; a
/// line starts at column 1.
pub open spec fn lex_at(cs: Seq<char>, pos: int, line: int, col: int, stack: Seq<usize>) -> Result<Seq<(int, int)>, (Seq<char>, int, int)>
    decreases cs.len() - pos,
{
    if pos < 0 || pos >= cs.len() {
        Ok(seq![(line, col)])
    } else {
        let c = cs[pos];
        let next = pos + 1;
        let here = seq![(line, col)];
        if single_token(c) is Some {
            prepend_at(here, lex_at(cs, next, line, col + 1, stack))
        } else if c == ' ' || c == '\t' || c == '\r' {
            lex_at(cs, next, line, col + 1, stack)
        } else if c == '\n' {
            let st = indent_step(cs, next, stack);
            if st.0 < next || st.0 > cs.len() {
                Err((Seq::empty(), line, col))
            } else {
                let ncol = 1 + (st.0 - next);
                prepend_at(
                    here + Seq::new(st.2.len(), |i: int| (line + 1, ncol)),
                    lex_at(cs, st.0, line + 1, ncol, st.1),
                )
            }
        } else if pair_token(c) is Some {
            let (second, two, one) = pair_token(c)->0;
            if next < cs.len() && cs[next] == second {
                prepend_at(here, lex_at(cs, next + 1, line, col + 2, stack))
            } else {
                match one {
                    Some(t) => prepend_at(here, lex_at(cs, next, line, col + 1, stack)),
                    None => Err(("Unexpected character '!'"@, line, col)),
                }
            }
        } else if c == '/' && next < cs.len() && cs[next] == '/' || c == '#' {
            let e = run_end(cs, next, comment_chars());
            if e < next || e > cs.len() {
                Err((Seq::empty(), line, col))
            } else {
                lex_at(cs, e, line, col, stack)
            }
        } else if c == '/' {
            prepend_at(here, lex_at(cs, next, line, col + 1, stack))
        } else if c == '"' || c == '\'' {
            let e = run_end(cs, next, string_chars(c));
            if e < next || !(e < cs.len() && cs[e] == c) {
                Err(("Unterminated string"@, line, col))
            } else {
                prepend_at(here, lex_at(cs, e + 1, line, col + (e + 1 - pos), stack))
            }
        } else if c == '$' {
            let e = run_end(cs, next, word_chars());
            if e <= next || e > cs.len() {
                Err(("Expected variable name after $"@, line, col))
            } else {
                prepend_at(here, lex_at(cs, e, line, col + (e - pos), stack))
            }
        } else if is_digit(c) {
            let sc = number_scan(cs, next);
            if sc.1 < next || sc.1 > cs.len() {
                Err((Seq::empty(), line, col))
            } else {
                prepend_at(number_places(cs, next, line, col), lex_at(cs, sc.1, line, col + (sc.1 - pos), stack))
            }
        } else if alphabetic(c) || c == '_' {
            let e = run_end(cs, next, word_chars());
            if e < next || e > cs.len() {
                Err((Seq::empty(), line, col))
            } else {
                prepend_at(here, lex_at(cs, e, line, col + (e - pos), stack))
            }
        } else {
            Err((unexpected_message(c), line, col))
        }
    }
}

proof fn lemma_prepend_at_assoc(
    a: Seq<(int, int)>,
    b: Seq<(int, int)>,
    o: Result<Seq<(int, int)>, (Seq<char>, int, int)>,
)
    ensures
        prepend_at(a + b, o) == prepend_at(a, prepend_at(b, o)),
{
    if let Ok(r) = o {
        assert(a + b + r =~= a + (b + r));
    }
}

proof fn lemma_positions_push(ts: Seq<Token>, t: Token)
    ensures
        positions(ts.push(t)) == positions(ts) + seq![(t.location.line as int, t.location.column as int)],
{
    assert(positions(ts.push(t)) =~= positions(ts) + seq![(t.location.line as int, t.location.column as int)]);
}

/// Lexer state over the characters of one source text.
pub struct Lexer {
    chars: Vec<char>,
    pos: usize,
    offset: usize,
    tokens: Vec<Token>,
    line: usize,
    column: usize,
    indent_stack: Vec<usize>,
}

/// Whether a kind is one a word (keyword, function, metric or
/// identifier) lexes to.
pub open spec fn is_word_kind(k: TokenKind) -> bool {
    match k {
        TokenKind::On | TokenKind::Every | TokenKind::At | TokenKind::During | TokenKind::Between
        | TokenKind::And | TokenKind::Or | TokenKind::Not | TokenKind::Notify | TokenKind::Webhook
        | TokenKind::Log | TokenKind::SetKeyword | TokenKind::Cooldown | TokenKind::Is
        | TokenKind::Unusual | TokenKind::Compared | TokenKind::To | TokenKind::Rising
        | TokenKind::Falling | TokenKind::Stable | TokenKind::Metric | TokenKind::Function
        | TokenKind::Identifier => true,
        _ => false,
    }
}

/// A word token is classified by its text: keyword first, then function,
/// then metric, else identifier.
pub open spec fn word_classified(t: Token) -> bool {
    is_word_kind(t.kind) ==> t.kind == word_kind(t.value@)
}

/// The text of literal tokens: a variable name is not empty, numbers start
/// with a digit, a percentage is digits and dots only, and a duration ends
/// in a duration unit (in any case) that is not a power or energy unit.
pub open spec fn literal_shape(kind: TokenKind, v: Seq<char>) -> bool {
    match kind {
        TokenKind::Variable => v.len() > 0,
        TokenKind::Number => v.len() > 0 && is_digit(v[0]),
        TokenKind::Percent => v.len() > 0 && is_digit(v[0]) && forall|i: int|
            0 <= i < v.len() ==> is_num_char(#[trigger] v[i]),
        TokenKind::Duration => v.len() > 0 && is_digit(v[0]) && is_duration_unit_spec(
            lower_of(literal_unit(v)),
        ) && !is_power_or_energy_unit_spec(literal_unit(v)),
        _ => true,
    }
}

/// A token list of kinds that are not `Eof`, at positions starting at 1,
/// with every word token classified by its text and every literal token of
/// its shape.
pub open spec fn body_tokens(ts: Seq<Token>) -> bool {
    forall|i: int|
        0 <= i < ts.len() ==> (#[trigger] ts[i]).kind != TokenKind::Eof && ts[i].location.line
            >= 1 && ts[i].location.column >= 1 && word_classified(ts[i]) && literal_shape(
            ts[i].kind,
            ts[i].value@,
        )
}

impl Lexer {
    pub closed spec fn wf(&self) -> bool {
        &&& self.chars@.len() < MAX_SOURCE_CHARS
        &&& self.pos <= self.chars@.len()
        &&& 1 <= self.line <= self.pos + 1
        &&& 1 <= self.column <= self.pos + 1
        &&& self.offset <= 4 * self.pos
        &&& self.indent_stack@.len() >= 1
        &&& forall|i: int| 0 <= i < self.indent_stack@.len() ==> self.indent_stack@[i] <= 4 * self.pos
        &&& body_tokens(self.tokens@)
    }

    /// The characters still to read.
    pub closed spec fn rest(&self) -> nat {
        (self.chars@.len() - self.pos) as nat
    }

    /// The source text, as characters.
    pub closed spec fn source(&self) -> Seq<char> {
        self.chars@
    }

    pub fn new(source: &str) -> (r: Self)
        ensures
            r.source() == source@,
    {
        let chars = crate::text::chars_of(source);
        Lexer {
            chars,
            pos: 0,
            offset: 0,
            tokens: Vec::new(),
            line: 1,
            column: 1,
            indent_stack: vec![0],
        }
    }

    fn peek_char(&self) -> (r: Option<char>)
        ensures
            r == (if self.pos < self.chars@.len() {
                Some(self.chars@[self.pos as int])
            } else {
                None::<char>
            }),
    {
        if self.pos < self.chars.len() {
            Some(self.chars[self.pos])
        } else {
            None
        }
    }

    /// Consumes one character.
    fn bump(&mut self) -> (c: char)
        requires
            old(self).wf(),
            old(self).pos < old(self).chars@.len(),
        ensures
            final(self).wf(),
            c == old(self).chars@[old(self).pos as int],
            final(self).pos == old(self).pos + 1,
            final(self).chars == old(self).chars,
            final(self).tokens == old(self).tokens,
            final(self).line == old(self).line,
            final(self).column == old(self).column,
            final(self).indent_stack == old(self).indent_stack,
    {
        let c = self.chars[self.pos];
        self.pos = self.pos + 1;
        self.offset = self.offset + char_len_utf8(c);
        c
    }

    /// Moves the column on by `n` characters already consumed.
    fn advance_column(&mut self, n: usize)
        requires
            old(self).wf(),
            old(self).column + n <= old(self).pos + 1,
        ensures
            final(self).wf(),
            final(self).pos == old(self).pos,
            final(self).chars == old(self).chars,
            final(self).tokens == old(self).tokens,
            final(self).line == old(self).line,
            final(self).column == old(self).column + n,
            final(self).indent_stack == old(self).indent_stack,
    {
        self.column = self.column + n;
    }

    fn add_token(&mut self, kind: TokenKind, value: String, offset: usize, column: usize)
        requires
            old(self).wf(),
            kind != TokenKind::Eof,
            column >= 1,
            is_word_kind(kind) ==> kind == word_kind(value@),
            literal_shape(kind, value@),
        ensures
            final(self).wf(),
            final(self).pos == old(self).pos,
            final(self).chars == old(self).chars,
            final(self).tokens@ == old(self).tokens@.push(
                Token { kind, value, location: SourceLocation { line: old(self).line, column, offset } },
            ),
            final(self).line == old(self).line,
            final(self).column == old(self).column,
            final(self).indent_stack == old(self).indent_stack,
    {
        let t = Token { kind, value, location: SourceLocation::new(self.line, column, offset) };
        self.tokens.push(t);
    }

    fn add_token_str(&mut self, kind: TokenKind, value: &str, offset: usize, column: usize)
        requires
            old(self).wf(),
            kind != TokenKind::Eof,
            column >= 1,
            !is_word_kind(kind),
            literal_shape(kind, value@),
        ensures
            final(self).wf(),
            final(self).pos == old(self).pos,
            final(self).chars == old(self).chars,
            final(self).tokens@.len() == old(self).tokens@.len() + 1,
            final(self).tokens@.last().kind == kind,
            final(self).tokens@.last().value@ == value@,
            final(self).tokens@.last().location == (SourceLocation { line: old(self).line, column, offset }),
            final(self).tokens@.drop_last() == old(self).tokens@,
            final(self).line == old(self).line,
            final(self).column == old(self).column,
            final(self).indent_stack == old(self).indent_stack,
    {
        self.add_token(kind, value.to_string(), offset, column);
        proof {
            assert(self.tokens@.drop_last() =~= old(self).tokens@);
        }
    }

    /// A string literal; the opening quote is consumed.
    fn string(&mut self, quote: char, start_pos: usize, start_col: usize) -> (r: Result<(), SELError>)
        requires
            old(self).wf(),
            old(self).column <= old(self).pos,
            start_col >= 1,
        ensures
            final(self).wf(),
            final(self).pos >= old(self).pos,
            final(self).chars == old(self).chars,
            final(self).indent_stack == old(self).indent_stack,
            ({
                let cs = old(self).chars@;
                let e = run_end(cs, old(self).pos as int, string_chars(quote));
                &&& r is Ok <==> e < cs.len() && cs[e] == quote
                &&& r is Ok ==> final(self).pos == e + 1 && final(self).line == old(self).line
                    && final(self).column == old(self).column + 1 + (e + 1 - old(self).pos)
                    && final(self).tokens@ == old(self).tokens@.push(final(self).tokens@.last())
                    && final(self).tokens@.last().kind == TokenKind::String
                    && final(self).tokens@.last().value@ == cs.subrange(old(self).pos as int, e)
                    && final(self).tokens@.last().location == (SourceLocation {
                    line: old(self).line,
                    column: start_col,
                    offset: start_pos,
                })
                &&& r matches Err(err) ==> err matches SELError::LexerError { message, line, column }
                    && message@ == "Unterminated string"@ && line == old(self).line && column
                    == start_col
            }),
    {
        let ghost cs = self.chars@;
        let ghost p0 = self.pos as int;
        let mut value = String::new();
        self.advance_column(1);
        while self.pos < self.chars.len()
            invariant
                self.wf(),
                self.chars == old(self).chars,
                self.indent_stack == old(self).indent_stack,
                cs == self.chars@,
                p0 == old(self).pos,
                self.pos >= old(self).pos,
                self.column <= self.pos + 1,
                self.column == old(self).column + 1 + (self.pos - old(self).pos),
                start_col >= 1,
                self.tokens == old(self).tokens,
                self.line == old(self).line,
                value@ == cs.subrange(p0, self.pos as int),
                forall|k: int| p0 <= k < self.pos ==> string_chars(quote)(#[trigger] cs[k]),
            decreases self.chars@.len() - self.pos,
        {
            let ghost at = self.pos as int;
            let ch = self.bump();
            self.advance_column(1);
            if ch == quote {
                proof {
                    lemma_run_end(cs, p0, at, string_chars(quote));
                }
                self.add_token(TokenKind::String, value, start_pos, start_col);
                return Ok(());
            }
            if ch == '\n' {
                proof {
                    lemma_run_end(cs, p0, at, string_chars(quote));
                }
                return Err(SELError::lexer("Unterminated string", self.line, start_col));
            }
            push_char(&mut value, ch);
            proof {
                assert(value@ =~= cs.subrange(p0, self.pos as int));
            }
        }
        proof {
            lemma_run_end(cs, p0, cs.len() as int, string_chars(quote));
        }
        Err(SELError::lexer("Unterminated string", self.line, start_col))
    }

    /// A variable reference; the `$` is consumed.
    fn variable(&mut self, start_pos: usize, start_col: usize) -> (r: Result<(), SELError>)
        requires
            old(self).wf(),
            old(self).column <= old(self).pos,
            start_col >= 1,
        ensures
            final(self).wf(),
            final(self).pos >= old(self).pos,
            final(self).chars == old(self).chars,
            final(self).indent_stack == old(self).indent_stack,
            ({
                let cs = old(self).chars@;
                let e = run_end(cs, old(self).pos as int, word_chars());
                &&& r is Ok <==> e > old(self).pos
                &&& r is Ok ==> final(self).pos == e && final(self).line == old(self).line
                    && final(self).column == old(self).column + 1 + (e - old(self).pos)
                    && final(self).tokens@ == old(self).tokens@.push(final(self).tokens@.last())
                    && final(self).tokens@.last().kind == TokenKind::Variable
                    && final(self).tokens@.last().value@ == cs.subrange(old(self).pos as int, e)
                    && final(self).tokens@.last().location == (SourceLocation {
                    line: old(self).line,
                    column: start_col,
                    offset: start_pos,
                })
                &&& r matches Err(err) ==> err matches SELError::LexerError { message, line, column }
                    && message@ == "Expected variable name after $"@ && line == old(self).line
                    && column == start_col
            }),
    {
        self.advance_column(1);
        let first = self.pos;
        while self.pos < self.chars.len()
            invariant
                self.wf(),
                self.chars == old(self).chars,
                self.indent_stack == old(self).indent_stack,
                first <= self.pos,
                first == old(self).pos,
                self.column <= self.pos + 1,
                self.column == old(self).column + 1 + (self.pos - old(self).pos),
                self.tokens == old(self).tokens,
                self.line == old(self).line,
                forall|k: int| first <= k < self.pos ==> word_chars()(#[trigger] self.chars@[k]),
            ensures
                self.wf(),
                self.chars == old(self).chars,
                self.indent_stack == old(self).indent_stack,
                first <= self.pos,
                self.column <= self.pos + 1,
                self.column == old(self).column + 1 + (self.pos - old(self).pos),
                self.tokens == old(self).tokens,
                self.line == old(self).line,
                forall|k: int| first <= k < self.pos ==> word_chars()(#[trigger] self.chars@[k]),
                self.pos == self.chars@.len() || !word_chars()(self.chars@[self.pos as int]),
            decreases self.chars@.len() - self.pos,
        {
            let ch = self.chars[self.pos];
            if is_alphanumeric(ch) || ch == '_' {
                self.bump();
                self.advance_column(1);
            } else {
                break;
            }
        }
        proof {
            lemma_run_end(self.chars@, first as int, self.pos as int, word_chars());
        }
        if self.pos == first {
            return Err(SELError::lexer("Expected variable name after $", self.line, start_col));
        }
        let name = string_from_chars(&self.chars, first, self.pos);
        self.add_token(TokenKind::Variable, name, start_pos, start_col);
        Ok(())
    }

    /// Consumes a run of ASCII digits.
    fn digits(&mut self)
        requires
            old(self).wf(),
            old(self).column <= old(self).pos + 1,
        ensures
            final(self).wf(),
            final(self).pos >= old(self).pos,
            final(self).chars == old(self).chars,
            final(self).tokens == old(self).tokens,
            final(self).line == old(self).line,
            final(self).column - final(self).pos == old(self).column - old(self).pos,
            final(self).indent_stack == old(self).indent_stack,
            final(self).pos == run_end(old(self).chars@, old(self).pos as int, digit_chars()),
    {
        loop
            invariant
                self.wf(),
                self.chars == old(self).chars,
                self.tokens == old(self).tokens,
                self.line == old(self).line,
                self.indent_stack == old(self).indent_stack,
                self.pos >= old(self).pos,
                self.column - self.pos == old(self).column - old(self).pos,
                forall|k: int| old(self).pos <= k < self.pos ==> digit_chars()(#[trigger] self.chars@[k]),
            ensures
                self.wf(),
                self.chars == old(self).chars,
                self.tokens == old(self).tokens,
                self.line == old(self).line,
                self.indent_stack == old(self).indent_stack,
                self.pos >= old(self).pos,
                self.column - self.pos == old(self).column - old(self).pos,
                forall|k: int| old(self).pos <= k < self.pos ==> digit_chars()(#[trigger] self.chars@[k]),
                self.pos == self.chars@.len() || !digit_chars()(self.chars@[self.pos as int]),
            decreases self.chars@.len() - self.pos,
        {
            if self.pos >= self.chars.len() {
                break;
            }
            if is_ascii_digit(self.chars[self.pos]) {
                self.bump();
                self.advance_column(1);
            } else {
                break;
            }
        }
        proof {
            lemma_run_end(self.chars@, old(self).pos as int, self.pos as int, digit_chars());
        }
    }

    /// A number, percentage, time or duration; the first digit is consumed.
    fn number(&mut self, start_pos: usize, start_col: usize)
        requires
            old(self).wf(),
            old(self).column <= old(self).pos,
            old(self).pos >= 1,
            start_col >= 1,
            is_digit(old(self).chars@[old(self).pos - 1]),
            start_col == old(self).column,
        ensures
            final(self).column == old(self).column + 1 + (final(self).pos - old(self).pos),
            positions(final(self).tokens@) == positions(old(self).tokens@) + number_places(
                old(self).chars@,
                old(self).pos as int,
                old(self).line as int,
                start_col as int,
            ),
            final(self).wf(),
            final(self).pos >= old(self).pos,
            final(self).chars == old(self).chars,
            final(self).indent_stack == old(self).indent_stack,
            final(self).line == old(self).line,
            final(self).pos == number_scan(old(self).chars@, old(self).pos as int).1,
            kinds_texts(final(self).tokens@) == kinds_texts(old(self).tokens@) + number_scan(
                old(self).chars@,
                old(self).pos as int,
            ).0,
    {
        let ghost cs = self.chars@;
        let ghost toks = self.tokens@;
        let ghost scan = number_scan(cs, self.pos as int);
        let start = self.pos - 1;
        self.advance_column(1);
        loop
            invariant
                self.wf(),
                self.chars == old(self).chars,
                self.indent_stack == old(self).indent_stack,
                self.pos >= old(self).pos,
                start < self.pos,
                start == old(self).pos - 1,
                self.column <= self.pos + 1,
                self.column == old(self).column + 1 + (self.pos - old(self).pos),
                self.tokens == old(self).tokens,
                self.line == old(self).line,
                forall|k: int| start <= k < self.pos ==> is_num_char(#[trigger] self.chars@[k]),
            ensures
                self.tokens == old(self).tokens,
                self.line == old(self).line,
                self.wf(),
                self.chars == old(self).chars,
                self.indent_stack == old(self).indent_stack,
                self.pos >= old(self).pos,
                start < self.pos,
                self.column <= self.pos + 1,
                self.column == old(self).column + 1 + (self.pos - old(self).pos),
                forall|k: int| start <= k < self.pos ==> is_num_char(#[trigger] self.chars@[k]),
                self.pos == self.chars@.len() || !is_num_char(self.chars@[self.pos as int]),
            decreases self.chars@.len() - self.pos,
        {
            if self.pos >= self.chars.len() {
                break;
            }
            let ch = self.chars[self.pos];
            if is_ascii_digit(ch) || ch == '.' {
                self.bump();
                self.advance_column(1);
            } else {
                break;
            }
        }
        let num_end = self.pos;
        proof {
            assert forall|k: int| old(self).pos <= k < num_end implies num_chars()(#[trigger] cs[k]) by {}
            lemma_run_end(cs, old(self).pos as int, num_end as int, num_chars());
        }
        if self.peek_char() == Some(':') {
            let colon_pos = self.offset;
            self.bump();
            self.advance_column(1);
            let is_time = match self.peek_char() {
                Some(c) => is_ascii_digit(c),
                None => false,
            };
            if is_time {
                self.digits();
                let text = string_from_chars(&self.chars, start, self.pos);
                self.add_token(TokenKind::Time, text, start_pos, start_col);
                proof {
                    assert(kinds_texts(self.tokens@) =~= kinds_texts(toks) + scan.0);
                    assert(positions(self.tokens@) =~= positions(toks) + number_places(cs, old(self).pos as int, old(self).line as int, start_col as int));
                }
            } else {
                // Not a time: the number, then the colon on its own.
                let text = string_from_chars(&self.chars, start, num_end);
                proof {
                    assert(text@[0] == self.chars@[start as int]);
                }
                self.add_token(TokenKind::Number, text, start_pos, start_col);
                let ghost mid = self.tokens@;
                let col = self.column - 1;
                self.add_token_str(TokenKind::Colon, ":", colon_pos, if col >= 1 { col } else { 1 });
                proof {
                    assert(self.tokens@ == mid.push(self.tokens@.last()));
                    assert(kinds_texts(self.tokens@) =~= kinds_texts(toks) + scan.0);
                    assert(positions(self.tokens@) =~= positions(toks) + number_places(cs, old(self).pos as int, old(self).line as int, start_col as int));
                }
            }
            return;
        }
        if self.peek_char() == Some('%') {
            self.bump();
            self.advance_column(1);
            let text = string_from_chars(&self.chars, start, num_end);
            proof {
                assert(text@[0] == self.chars@[start as int]);
                assert forall|j: int| 0 <= j < text@.len() implies is_num_char(#[trigger] text@[j]) by {
                    assert(text@[j] == self.chars@[start + j]);
                }
            }
            self.add_token(TokenKind::Percent, text, start_pos, start_col);
            proof {
                assert(kinds_texts(self.tokens@) =~= kinds_texts(toks) + scan.0);
                    assert(positions(self.tokens@) =~= positions(toks) + number_places(cs, old(self).pos as int, old(self).line as int, start_col as int));
            }
            return;
        }
        let unit_start = self.pos;
        loop
            invariant
                self.tokens == old(self).tokens,
                self.line == old(self).line,
                forall|k: int| unit_start <= k < self.pos ==> alpha_chars()(#[trigger] self.chars@[k]),
                self.wf(),
                self.chars == old(self).chars,
                self.indent_stack == old(self).indent_stack,
                self.pos >= unit_start,
                unit_start >= old(self).pos,
                start < unit_start,
                start == old(self).pos - 1,
                self.column <= self.pos + 1,
                self.column == old(self).column + 1 + (self.pos - old(self).pos),
                forall|k: int| start <= k < unit_start ==> is_num_char(#[trigger] self.chars@[k]),
                unit_start == self.chars@.len() || !is_num_char(self.chars@[unit_start as int]),
            ensures
                self.wf(),
                self.chars == old(self).chars,
                self.indent_stack == old(self).indent_stack,
                self.pos >= unit_start,
                self.column <= self.pos + 1,
                self.column == old(self).column + 1 + (self.pos - old(self).pos),
                self.tokens == old(self).tokens,
                self.line == old(self).line,
                forall|k: int| start <= k < unit_start ==> is_num_char(#[trigger] self.chars@[k]),
                unit_start == self.chars@.len() || !is_num_char(self.chars@[unit_start as int]),
                forall|k: int| unit_start <= k < self.pos ==> alpha_chars()(#[trigger] self.chars@[k]),
                self.pos == self.chars@.len() || !alpha_chars()(self.chars@[self.pos as int]),
            decreases self.chars@.len() - self.pos,
        {
            if self.pos >= self.chars.len() {
                break;
            }
            if is_alphabetic(self.chars[self.pos]) {
                self.bump();
                self.advance_column(1);
            } else {
                break;
            }
        }
        let unit = &self.chars.as_slice()[unit_start..self.pos];
        let unit_lower = fold_lower(&self.chars, unit_start, self.pos);
        let kind = if !is_power_or_energy_unit(unit) && is_duration_unit(&unit_lower) {
            TokenKind::Duration
        } else {
            TokenKind::Number
        };
        let text = string_from_chars(&self.chars, start, self.pos);
        proof {
            let v = text@;
            let i = unit_start - start;
            assert forall|j: int| 0 <= j < i implies is_num_char(#[trigger] v[j]) by {
                assert(v[j] == self.chars@[start + j]);
            }
            if unit_start < self.pos {
                assert(v[i] == self.chars@[unit_start as int]);
            }
            crate::units::lemma_num_prefix(v, i);
            assert(v.skip(i) =~= unit@);
            assert(v[0] == self.chars@[start as int]);
            lemma_run_end(cs, unit_start as int, self.pos as int, alpha_chars());
        }
        self.add_token(kind, text, start_pos, start_col);
        proof {
            assert(kinds_texts(self.tokens@) =~= kinds_texts(toks) + scan.0);
                    assert(positions(self.tokens@) =~= positions(toks) + number_places(cs, old(self).pos as int, old(self).line as int, start_col as int));
        }
    }

    /// A keyword, function name, metric name or identifier; the first
    /// character is consumed.
    fn identifier(&mut self, start_pos: usize, start_col: usize)
        requires
            old(self).wf(),
            old(self).column <= old(self).pos,
            old(self).pos >= 1,
            start_col >= 1,
        ensures
            final(self).wf(),
            final(self).pos >= old(self).pos,
            final(self).chars == old(self).chars,
            final(self).indent_stack == old(self).indent_stack,
            ({
                let cs = old(self).chars@;
                let e = run_end(cs, old(self).pos as int, word_chars());
                let text = cs.subrange(old(self).pos - 1, e);
                &&& final(self).pos == e
                &&& final(self).line == old(self).line
                &&& final(self).column == old(self).column + 1 + (e - old(self).pos)
                &&& final(self).tokens@ == old(self).tokens@.push(final(self).tokens@.last())
                &&& final(self).tokens@.last().kind == word_kind(text)
                &&& final(self).tokens@.last().value@ == text
                &&& final(self).tokens@.last().location == (SourceLocation {
                    line: old(self).line,
                    column: start_col,
                    offset: start_pos,
                })
            }),
    {
        let start = self.pos - 1;
        self.advance_column(1);
        while self.pos < self.chars.len()
            invariant
                self.wf(),
                self.chars == old(self).chars,
                self.indent_stack == old(self).indent_stack,
                self.pos >= old(self).pos,
                start < self.pos,
                start == old(self).pos - 1,
                self.column <= self.pos + 1,
                self.column == old(self).column + 1 + (self.pos - old(self).pos),
                self.tokens == old(self).tokens,
                self.line == old(self).line,
                forall|k: int| old(self).pos <= k < self.pos ==> word_chars()(#[trigger] self.chars@[k]),
            ensures
                self.wf(),
                self.chars == old(self).chars,
                self.indent_stack == old(self).indent_stack,
                self.pos >= old(self).pos,
                start < self.pos,
                self.column <= self.pos + 1,
                self.column == old(self).column + 1 + (self.pos - old(self).pos),
                self.tokens == old(self).tokens,
                self.line == old(self).line,
                forall|k: int| old(self).pos <= k < self.pos ==> word_chars()(#[trigger] self.chars@[k]),
                self.pos == self.chars@.len() || !word_chars()(self.chars@[self.pos as int]),
            decreases self.chars@.len() - self.pos,
        {
            let ch = self.chars[self.pos];
            if is_alphanumeric(ch) || ch == '_' {
                self.bump();
                self.advance_column(1);
            } else {
                break;
            }
        }
        proof {
            lemma_run_end(self.chars@, old(self).pos as int, self.pos as int, word_chars());
        }
        let word = &self.chars.as_slice()[start..self.pos];
        let upper = fold_upper(&self.chars, start, self.pos);
        let lower = fold_lower(&self.chars, start, self.pos);
        let kind = match keyword(&upper) {
            Some(k) => k,
            None => if is_function(&upper) {
                TokenKind::Function
            } else if is_metric(&lower) {
                TokenKind::Metric
            } else {
                TokenKind::Identifier
            },
        };
        let text = string_from_chars(&self.chars, start, self.pos);
        self.add_token(kind, text, start_pos, start_col);
    }

    /// Measures the indentation of a new line and emits `Indent` or
    /// `Dedent` tokens against the indentation stack. Blank and comment
    /// lines leave the stack alone.
    fn handle_indentation(&mut self)
        requires
            old(self).wf(),
        ensures
            final(self).wf(),
            final(self).pos >= old(self).pos,
            final(self).chars == old(self).chars,
            final(self).line == old(self).line,
            ({
                let st = indent_step(old(self).chars@, old(self).pos as int, old(self).indent_stack@);
                &&& final(self).pos == st.0
                &&& final(self).indent_stack@ == st.1
                &&& kinds_texts(final(self).tokens@) == kinds_texts(old(self).tokens@) + st.2
                &&& final(self).column == old(self).column + (st.0 - old(self).pos)
                &&& positions(final(self).tokens@) == positions(old(self).tokens@) + Seq::new(
                    st.2.len(),
                    |i: int| (old(self).line as int, final(self).column as int),
                )
            }),
    {
        let ghost cs = self.chars@;
        let ghost p0 = self.pos as int;
        let ghost stack0 = self.indent_stack@;
        let ghost toks0 = self.tokens@;
        let mut spaces: usize = 0;
        loop
            invariant
                self.wf(),
                self.chars == old(self).chars,
                cs == self.chars@,
                p0 == old(self).pos,
                self.line == old(self).line,
                self.tokens == old(self).tokens,
                self.indent_stack == old(self).indent_stack,
                self.pos >= old(self).pos,
                spaces <= 4 * self.pos,
                self.column == old(self).column + (self.pos - old(self).pos),
                spaces == indent_width(cs, p0, self.pos as int),
                forall|k: int| p0 <= k < self.pos ==> indent_chars()(#[trigger] cs[k]),
            ensures
                self.wf(),
                self.chars == old(self).chars,
                self.line == old(self).line,
                self.tokens == old(self).tokens,
                self.indent_stack == old(self).indent_stack,
                self.pos >= old(self).pos,
                spaces <= 4 * self.pos,
                self.column == old(self).column + (self.pos - old(self).pos),
                spaces == indent_width(cs, p0, self.pos as int),
                forall|k: int| p0 <= k < self.pos ==> indent_chars()(#[trigger] cs[k]),
                self.pos == cs.len() || !indent_chars()(cs[self.pos as int]),
            decreases self.chars@.len() - self.pos,
        {
            if self.pos >= self.chars.len() {
                break;
            }
            let ghost at = self.pos as int;
            let ch = self.chars[self.pos];
            if ch == ' ' {
                spaces = spaces + 1;
            } else if ch == '\t' {
                spaces = spaces + 4;
            } else {
                break;
            }
            self.bump();
            self.advance_column(1);
            proof {
                lemma_indent_width_step(cs, p0, at);
            }
        }
        proof {
            lemma_run_end(cs, p0, self.pos as int, indent_chars());
        }
        match self.peek_char() {
            Some(c) => {
                if c == '\n' || c == '#' {
                    proof {
                        assert(kinds_texts(self.tokens@) =~= kinds_texts(toks0) + Seq::<(TokenKind, Seq<char>)>::empty());
                        assert(positions(self.tokens@) =~= positions(toks0) + Seq::new(0, |i: int| (old(self).line as int, self.column as int)));
                    }
                    return;
                }
            },
            None => {},
        }
        let current = self.indent_stack[self.indent_stack.len() - 1];
        if spaces > current {
            self.indent_stack.push(spaces);
            let col = self.column;
            self.add_token_str(TokenKind::Indent, "", col, col);
            proof {
                reveal_strlit("");
                assert(self.tokens@ =~= toks0.push(self.tokens@.last()));
                assert(self.tokens@.last().value@ =~= Seq::<char>::empty());
                lemma_kinds_texts_push(toks0, self.tokens@.last());
                assert(layout_tokens(TokenKind::Indent, 1) =~= seq![(TokenKind::Indent, Seq::<char>::empty())]);
                assert(kinds_texts(self.tokens@) =~= kinds_texts(toks0) + layout_tokens(TokenKind::Indent, 1));
                assert(positions(self.tokens@) =~= positions(toks0) + Seq::new(1, |i: int| (old(self).line as int, self.column as int)));
            }
        } else if spaces < current {
            let ghost mut k: nat = 0;
            while self.indent_stack.len() > 1 && self.indent_stack[self.indent_stack.len() - 1] > spaces
                invariant
                    self.wf(),
                    self.chars == old(self).chars,
                    self.line == old(self).line,
                    self.pos >= old(self).pos,
                    self.pos == run_end(cs, p0, indent_chars()),
                    k <= stack0.len(),
                    self.indent_stack@ == stack0.take(stack0.len() - k),
                    dedents(stack0, spaces as int) == k + dedents(self.indent_stack@, spaces as int),
                    kinds_texts(self.tokens@) == kinds_texts(toks0) + layout_tokens(TokenKind::Dedent, k),
                    self.column == old(self).column + (self.pos - old(self).pos),
                    positions(self.tokens@) == positions(toks0) + Seq::new(k, |i: int| (old(self).line as int, self.column as int)),
                decreases self.indent_stack@.len(),
            {
                let ghost before = self.indent_stack@;
                let ghost tbefore = self.tokens@;
                self.indent_stack.pop();
                let col = self.column;
                self.add_token_str(TokenKind::Dedent, "", col, col);
                proof {
                    reveal_strlit("");
                    assert(self.indent_stack@ =~= before.drop_last());
                    k = k + 1;
                    assert(self.indent_stack@ =~= stack0.take(stack0.len() - k));
                    assert(self.tokens@ =~= tbefore.push(self.tokens@.last()));
                    assert(self.tokens@.last().value@ =~= Seq::<char>::empty());
                    lemma_kinds_texts_push(tbefore, self.tokens@.last());
                    assert(layout_tokens(TokenKind::Dedent, k) =~= layout_tokens(TokenKind::Dedent, (k - 1) as nat) + seq![(TokenKind::Dedent, Seq::<char>::empty())]);
                    assert(kinds_texts(self.tokens@) =~= kinds_texts(toks0) + layout_tokens(TokenKind::Dedent, k));
                    lemma_positions_push(tbefore, self.tokens@.last());
                    assert(positions(self.tokens@) =~= positions(toks0) + Seq::new(k, |i: int| (old(self).line as int, self.column as int)));
                }
            }
        } else {
            proof {
                assert(kinds_texts(self.tokens@) =~= kinds_texts(toks0) + Seq::<(TokenKind, Seq<char>)>::empty());
                assert(positions(self.tokens@) =~= positions(toks0) + Seq::new(0, |i: int| (old(self).line as int, self.column as int)));
            }
        }
    }

    /// Skips to the end of the line, leaving the newline unread.
    fn skip_comment(&mut self)
        requires
            old(self).wf(),
        ensures
            final(self).wf(),
            final(self).pos >= old(self).pos,
            final(self).chars == old(self).chars,
            final(self).line == old(self).line,
            final(self).column == old(self).column,
            final(self).tokens == old(self).tokens,
            final(self).indent_stack == old(self).indent_stack,
            final(self).pos == run_end(old(self).chars@, old(self).pos as int, comment_chars()),
    {
        while self.pos < self.chars.len() && self.chars[self.pos] != '\n'
            invariant
                self.wf(),
                self.chars == old(self).chars,
                self.line == old(self).line,
                self.column == old(self).column,
                self.tokens == old(self).tokens,
                self.indent_stack == old(self).indent_stack,
                self.pos >= old(self).pos,
                forall|k: int| old(self).pos <= k < self.pos ==> comment_chars()(#[trigger] self.chars@[k]),
            decreases self.chars@.len() - self.pos,
        {
            self.bump();
        }
        proof {
            lemma_run_end(self.chars@, old(self).pos as int, self.pos as int, comment_chars());
        }
    }

    /// Emits a one- or two-character operator: `two` when the next
    /// character is `second`, else `one` (or an error when `one` is `None`).
    fn operator(
        &mut self,
        second: char,
        two: TokenKind,
        two_text: &str,
        one: Option<TokenKind>,
        one_text: &str,
        pos: usize,
        start_col: usize,
    ) -> (r: Result<(), SELError>)
        requires
            old(self).wf(),
            old(self).column <= old(self).pos,
            start_col >= 1,
            two != TokenKind::Eof,
            one != Some(TokenKind::Eof),
            !is_word_kind(two),
            one matches Some(k) ==> !is_word_kind(k),
            literal_shape(two, two_text@),
            one matches Some(k) ==> literal_shape(k, one_text@),
        ensures
            final(self).wf(),
            final(self).pos >= old(self).pos,
            final(self).chars == old(self).chars,
            final(self).indent_stack == old(self).indent_stack,
            r is Err ==> r->Err_0 is LexerError,
            ({
                let cs = old(self).chars@;
                let p = old(self).pos as int;
                let at = seq![(old(self).line as int, start_col as int)];
                if p < cs.len() && cs[p] == second {
                    r is Ok && final(self).pos == p + 1 && kinds_texts(final(self).tokens@)
                        == kinds_texts(old(self).tokens@) + seq![(two, two_text@)]
                        && positions(final(self).tokens@) == positions(old(self).tokens@) + at
                        && final(self).column == old(self).column + 2
                        && final(self).line == old(self).line
                } else if one is Some {
                    r is Ok && final(self).pos == p && kinds_texts(final(self).tokens@)
                        == kinds_texts(old(self).tokens@) + seq![(one->0, one_text@)]
                        && positions(final(self).tokens@) == positions(old(self).tokens@) + at
                        && final(self).column == old(self).column + 1
                        && final(self).line == old(self).line
                } else {
                    r matches Err(SELError::LexerError { message, line, column }) && message@
                        == "Unexpected character '!'"@ && line == old(self).line && column == start_col
                }
            }),
    {
        if self.peek_char() == Some(second) {
            self.bump();
            self.add_token_str(two, two_text, pos, start_col);
            self.advance_column(2);
            proof {
                assert(kinds_texts(self.tokens@) =~= kinds_texts(old(self).tokens@) + seq![(two, two_text@)]);
                assert(positions(self.tokens@) =~= positions(old(self).tokens@) + seq![(old(self).line as int, start_col as int)]);
            }
            Ok(())
        } else {
            match one {
                Some(k) => {
                    self.add_token_str(k, one_text, pos, start_col);
                    self.advance_column(1);
                    proof {
                        assert(kinds_texts(self.tokens@) =~= kinds_texts(old(self).tokens@) + seq![(k, one_text@)]);
                        assert(positions(self.tokens@) =~= positions(old(self).tokens@) + seq![(old(self).line as int, start_col as int)]);
                    }
                    Ok(())
                },
                None => Err(SELError::lexer("Unexpected character '!'", self.line, start_col)),
            }
        }
    }

    /// Reads one token's worth of source: what it adds and where reading
    /// goes on agree with `lex_from` and `lex_at`.
    fn step(&mut self) -> (r: Result<(), SELError>)
        requires
            old(self).wf(),
            old(self).pos < old(self).chars@.len(),
        ensures
            final(self).wf(),
            final(self).chars == old(self).chars,
            final(self).pos > old(self).pos,
            r is Ok ==> prepend(
                kinds_texts(old(self).tokens@),
                lex_from(old(self).chars@, old(self).pos as int, old(self).indent_stack@),
            ) == prepend(
                kinds_texts(final(self).tokens@),
                lex_from(final(self).chars@, final(self).pos as int, final(self).indent_stack@),
            ),
            r is Ok ==> prepend_at(
                positions(old(self).tokens@),
                lex_at(
                    old(self).chars@,
                    old(self).pos as int,
                    old(self).line as int,
                    old(self).column as int,
                    old(self).indent_stack@,
                ),
            ) == prepend_at(
                positions(final(self).tokens@),
                lex_at(
                    final(self).chars@,
                    final(self).pos as int,
                    final(self).line as int,
                    final(self).column as int,
                    final(self).indent_stack@,
                ),
            ),
            r is Err ==> lex_from(old(self).chars@, old(self).pos as int, old(self).indent_stack@) is None,
            r is Err ==> lex_at(
                old(self).chars@,
                old(self).pos as int,
                old(self).line as int,
                old(self).column as int,
                old(self).indent_stack@,
            ) is Err && lexer_error_is(
                r->Err_0,
                lex_at(
                    old(self).chars@,
                    old(self).pos as int,
                    old(self).line as int,
                    old(self).column as int,
                    old(self).indent_stack@,
                )->Err_0,
            ),
    {
        let ghost cs = self.chars@;
        let ghost p = self.pos as int;
        let ghost st = self.indent_stack@;
        let ghost tk = self.tokens@;
        let ghost next = p + 1;
        let ghost ln = self.line as int;
        let ghost co = self.column as int;
        let pos = self.offset;
        let start_column = self.column;
        let ch = self.bump();
        let single: Option<(TokenKind, &str)> = if ch == '(' {
            Some((TokenKind::LParen, "("))
        } else if ch == ')' {
            Some((TokenKind::RParen, ")"))
        } else if ch == '{' {
            Some((TokenKind::LBrace, "{"))
        } else if ch == '}' {
            Some((TokenKind::RBrace, "}"))
        } else if ch == ',' {
            Some((TokenKind::Comma, ","))
        } else if ch == ':' {
            Some((TokenKind::Colon, ":"))
        } else if ch == '+' {
            Some((TokenKind::Plus, "+"))
        } else if ch == '-' {
            Some((TokenKind::Minus, "-"))
        } else if ch == '*' {
            Some((TokenKind::Star, "*"))
        } else if ch == '%' {
            Some((TokenKind::Modulo, "%"))
        } else {
            None
        };
        match single {
            Some((kind, text)) => {
                self.add_token_str(kind, text, pos, start_column);
                self.advance_column(1);
                proof {
                    assert(single_token(ch) == Some((kind, text@)));
                    assert(self.tokens@ =~= tk.push(self.tokens@.last()));
                    lemma_kinds_texts_push(tk, self.tokens@.last());
                    lemma_prepend_assoc(kinds_texts(tk), seq![(kind, text@)], lex_from(cs, next, st));
                    lemma_positions_push(tk, self.tokens@.last());
                    lemma_prepend_at_assoc(positions(tk), seq![(ln, co)], lex_at(cs, next, ln, co + 1, st));
                }
                return Ok(());
            },
            None => {},
        }
        proof {
            assert(single_token(ch) is None);
        }
        if ch == ' ' || ch == '\t' || ch == '\r' {
            self.advance_column(1);
        } else if ch == '\n' {
            self.add_token_str(TokenKind::Newline, "\\n", pos, start_column);
            self.line = self.line + 1;
            self.column = 1;
            let ghost tk1 = self.tokens@;
            self.handle_indentation();
            proof {
                let stp = indent_step(cs, next, st);
                assert(tk1 =~= tk.push(tk1.last()));
                lemma_kinds_texts_push(tk, tk1.last());
                lemma_prepend_assoc(kinds_texts(tk1), stp.2, lex_from(cs, stp.0, stp.1));
                lemma_prepend_assoc(kinds_texts(tk), seq![(TokenKind::Newline, "\\n"@)], prepend(stp.2, lex_from(cs, stp.0, stp.1)));
                lemma_prepend_assoc(seq![(TokenKind::Newline, "\\n"@)], stp.2, lex_from(cs, stp.0, stp.1));
                let ncol = 1 + (stp.0 - next);
                let lay = Seq::new(stp.2.len(), |i: int| (ln + 1, ncol));
                assert(Seq::new(stp.2.len(), |i: int| (ln + 1, self.column as int)) =~= lay);
                lemma_positions_push(tk, tk1.last());
                lemma_prepend_at_assoc(positions(tk1), lay, lex_at(cs, stp.0, ln + 1, ncol, stp.1));
                lemma_prepend_at_assoc(positions(tk), seq![(ln, co)], prepend_at(lay, lex_at(cs, stp.0, ln + 1, ncol, stp.1)));
                lemma_prepend_at_assoc(seq![(ln, co)], lay, lex_at(cs, stp.0, ln + 1, ncol, stp.1));
            }
        } else if ch == '.' || ch == '=' || ch == '!' || ch == '<' || ch == '>' {
            let ghost pt = pair_token(ch)->0;
            let res = if ch == '.' {
                self.operator('.', TokenKind::DotDot, "..", Some(TokenKind::Dot), ".", pos, start_column)
            } else if ch == '=' {
                self.operator('=', TokenKind::Eq, "==", Some(TokenKind::Assign), "=", pos, start_column)
            } else if ch == '!' {
                self.operator('=', TokenKind::Neq, "!=", None, "", pos, start_column)
            } else if ch == '<' {
                self.operator('=', TokenKind::Lte, "<=", Some(TokenKind::Lt), "<", pos, start_column)
            } else {
                self.operator('=', TokenKind::Gte, ">=", Some(TokenKind::Gt), ">", pos, start_column)
            };
            proof {
                if next < cs.len() && cs[next] == pt.0 {
                    lemma_prepend_assoc(kinds_texts(tk), seq![pt.1], lex_from(cs, next + 1, st));
                    lemma_prepend_at_assoc(positions(tk), seq![(ln, co)], lex_at(cs, next + 1, ln, co + 2, st));
                } else if pt.2 is Some {
                    lemma_prepend_assoc(kinds_texts(tk), seq![pt.2->0], lex_from(cs, next, st));
                    lemma_prepend_at_assoc(positions(tk), seq![(ln, co)], lex_at(cs, next, ln, co + 1, st));
                }
            }
            if res.is_err() {
                proof {
                    assert(cs[p] == ch);
                    assert(lex_from(cs, p, st) is None);
                    assert(lex_at(cs, p, ln, co, st) is Err);
                }
                return Err(res.unwrap_err());
            }
        } else if ch == '/' && self.peek_char() == Some('/') || ch == '#' {
            self.skip_comment();
            proof {
                lemma_run_end_ge(cs, next, comment_chars());
            }
        } else if ch == '/' {
            self.add_token_str(TokenKind::Slash, "/", pos, start_column);
            self.advance_column(1);
            proof {
                assert(self.tokens@ =~= tk.push(self.tokens@.last()));
                lemma_kinds_texts_push(tk, self.tokens@.last());
                lemma_prepend_assoc(kinds_texts(tk), seq![(TokenKind::Slash, "/"@)], lex_from(cs, next, st));
                lemma_positions_push(tk, self.tokens@.last());
                lemma_prepend_at_assoc(positions(tk), seq![(ln, co)], lex_at(cs, next, ln, co + 1, st));
            }
        } else if ch == '"' || ch == '\'' {
            let res = self.string(ch, pos, start_column);
            proof {
                lemma_run_end_ge(cs, next, string_chars(ch));
                if res is Ok {
                    let e = run_end(cs, next, string_chars(ch));
                    lemma_kinds_texts_push(tk, self.tokens@.last());
                    lemma_prepend_assoc(kinds_texts(tk), seq![(TokenKind::String, cs.subrange(next, e))], lex_from(cs, e + 1, st));
                    lemma_positions_push(tk, self.tokens@.last());
                    lemma_prepend_at_assoc(positions(tk), seq![(ln, co)], lex_at(cs, e + 1, ln, co + (e + 1 - p), st));
                }
            }
            if res.is_err() {
                proof {
                    assert(cs[p] == ch);
                    assert(lex_from(cs, p, st) is None);
                    assert(lex_at(cs, p, ln, co, st) is Err);
                }
                return Err(res.unwrap_err());
            }
        } else if ch == '$' {
            let res = self.variable(pos, start_column);
            proof {
                lemma_run_end_ge(cs, next, word_chars());
                if res is Ok {
                    let e = run_end(cs, next, word_chars());
                    lemma_kinds_texts_push(tk, self.tokens@.last());
                    lemma_prepend_assoc(kinds_texts(tk), seq![(TokenKind::Variable, cs.subrange(next, e))], lex_from(cs, e, st));
                    lemma_positions_push(tk, self.tokens@.last());
                    lemma_prepend_at_assoc(positions(tk), seq![(ln, co)], lex_at(cs, e, ln, co + (e - p), st));
                }
            }
            if res.is_err() {
                proof {
                    assert(cs[p] == ch);
                    assert(lex_from(cs, p, st) is None);
                    assert(lex_at(cs, p, ln, co, st) is Err);
                }
                return Err(res.unwrap_err());
            }
        } else if is_ascii_digit(ch) {
            self.number(pos, start_column);
            proof {
                let sc = number_scan(cs, next);
                lemma_prepend_assoc(kinds_texts(tk), sc.0, lex_from(cs, sc.1, st));
                lemma_prepend_at_assoc(positions(tk), number_places(cs, next, ln, co), lex_at(cs, sc.1, ln, co + (sc.1 - p), st));
            }
        } else if is_alphabetic(ch) || ch == '_' {
            self.identifier(pos, start_column);
            proof {
                lemma_run_end_ge(cs, next, word_chars());
                let e = run_end(cs, next, word_chars());
                let text = cs.subrange(p, e);
                lemma_kinds_texts_push(tk, self.tokens@.last());
                lemma_prepend_assoc(kinds_texts(tk), seq![(word_kind(text), text)], lex_from(cs, e, st));
                lemma_positions_push(tk, self.tokens@.last());
                lemma_prepend_at_assoc(positions(tk), seq![(ln, co)], lex_at(cs, e, ln, co + (e - p), st));
            }
        } else {
            proof {
                assert(cs[p] == ch);
                assert(lex_from(cs, p, st) is None);
                assert(lex_at(cs, p, ln, co, st) is Err);
            }
            return Err(self.unexpected(ch, start_column));
        }
        Ok(())
    }

    /// Turns the whole source into tokens, ending with `Eof`: it succeeds
    /// exactly when the lexical rules accept the source, and then the kinds
    /// and texts of the tokens are those the rules give.
    pub fn tokenize(self) -> (r: Result<Vec<Token>, SELError>)
        ensures
            r matches Ok(ts) ==> ts@.len() >= 1 && ts@.last().kind == TokenKind::Eof && body_tokens(
                ts@.drop_last(),
            ) && ts@.last().location.line >= 1 && ts@.last().location.column >= 1,
            r matches Err(e) ==> e is LexerError,
            self.source().len() < MAX_SOURCE_CHARS ==> (r is Ok <==> lex_from(
                self.source(),
                0,
                seq![0usize],
            ) is Some),
            r matches Ok(ts) ==> lex_from(self.source(), 0, seq![0usize]) == Some(kinds_texts(ts@)),
            self.source().len() < MAX_SOURCE_CHARS ==> (r is Ok <==> lex_at(
                self.source(),
                0,
                1,
                1,
                seq![0usize],
            ) is Ok),
            r matches Ok(ts) ==> lex_at(self.source(), 0, 1, 1, seq![0usize]) == Ok::<Seq<(int, int)>, (Seq<char>, int, int)>(positions(ts@)),
            r is Err && self.source().len() < MAX_SOURCE_CHARS ==> (lex_at(
                self.source(),
                0,
                1,
                1,
                seq![0usize],
            ) is Err && lexer_error_is(r->Err_0, lex_at(self.source(), 0, 1, 1, seq![0usize])->Err_0)),
    {
        let mut lx = self;
        let ghost cs = lx.chars@;
        if lx.chars.len() >= MAX_SOURCE_CHARS {
            return Err(SELError::lexer("Source too long", 1, 1));
        }
        lx.pos = 0;
        lx.offset = 0;
        lx.line = 1;
        lx.column = 1;
        lx.tokens = Vec::new();
        lx.indent_stack = vec![0];
        let ghost whole = lex_from(cs, 0, seq![0usize]);
        let ghost whole_at = lex_at(cs, 0, 1, 1, seq![0usize]);
        proof {
            if let Ok(w) = whole_at {
                assert(positions(lx.tokens@) + w =~= w);
            }
            assert(lx.indent_stack@ =~= seq![0usize]);
            if let Some(w) = whole {
                assert(kinds_texts(lx.tokens@) + w =~= w);
            }
        }
        while lx.pos < lx.chars.len()
            invariant
                lx.wf(),
                lx.chars@ == cs,
                cs == self.source(),
                whole == lex_from(cs, 0, seq![0usize]),
                whole == prepend(kinds_texts(lx.tokens@), lex_from(cs, lx.pos as int, lx.indent_stack@)),
                whole_at == lex_at(cs, 0, 1, 1, seq![0usize]),
                whole_at == prepend_at(
                    positions(lx.tokens@),
                    lex_at(cs, lx.pos as int, lx.line as int, lx.column as int, lx.indent_stack@),
                ),
            decreases lx.chars@.len() - lx.pos,
        {
            let ghost before_at = lex_at(cs, lx.pos as int, lx.line as int, lx.column as int, lx.indent_stack@);
            let ghost tk = lx.tokens@;
            match lx.step() {
                Ok(()) => {},
                Err(e) => {
                    proof {
                        assert(whole is None);
                        assert(whole_at == before_at);
                    }
                    return Err(e);
                },
            }
        }
        let end = lx.offset;
        let col = lx.column;
        let t = Token {
            kind: TokenKind::Eof,
            value: String::new(),
            location: SourceLocation::new(lx.line, col, end),
        };
        let mut tokens = lx.tokens;
        let ghost before = tokens@;
        tokens.push(t);
        proof {
            assert(tokens@.drop_last() =~= before);
            lemma_kinds_texts_push(before, t);
            lemma_positions_push(before, t);
        }
        Ok(tokens)
    }

    fn unexpected(&self, ch: char, column: usize) -> (r: SELError)
        ensures
            r matches SELError::LexerError { message, line, column: c } && message@
                == unexpected_message(ch) && line == self.line && c == column,
    {
        let mut msg = String::new();
        crate::text::push_str(&mut msg, "Unexpected character '");
        push_char(&mut msg, ch);
        push_char(&mut msg, '\'');
        proof {
            assert(msg@ =~= unexpected_message(ch));
        }
        SELError::LexerError { message: msg, line: self.line, column }
    }
}

} // verus!
