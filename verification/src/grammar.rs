//! The grammar as mathematics: which character sequences denote which
//! expression trees, what the cursor position is after consuming a prefix,
//! and the exact text of every diagnostic.

use vstd::prelude::*;
use crate::ast::SpecExpr;

verus! {

/// The ASCII whitespace characters: space, tab, line feed, form feed,
/// carriage return.
pub open spec fn is_ws_char(c: char) -> bool {
    c == ' ' || c == '\t' || c == '\n' || c == '\x0c' || c == '\r'
}

/// The ASCII alphabetic characters.
pub open spec fn is_alpha_char(c: char) -> bool {
    ('a' <= c && c <= 'z') || ('A' <= c && c <= 'Z')
}

/// The 1-based line the cursor stands on after consuming `s[0..j]`:
/// one more than the number of line feeds consumed.
pub open spec fn line_of(s: Seq<char>, j: int) -> nat
    decreases j,
{
    if j <= 0 {
        1
    } else {
        line_of(s, j - 1) + if s[j - 1] == '\n' { 1nat } else { 0nat }
    }
}

/// The 1-based column the cursor stands on after consuming `s[0..j]`:
/// one more than the number of characters consumed since the last line feed.
pub open spec fn col_of(s: Seq<char>, j: int) -> nat
    decreases j,
{
    if j <= 0 {
        1
    } else if s[j - 1] == '\n' {
        1
    } else {
        col_of(s, j - 1) + 1
    }
}

/// The decimal digit `d % 10` as a character.
pub open spec fn dec_digit(d: nat) -> char {
    ((48 + (d % 10)) as u8) as char
}

/// The decimal rendering of `n`, most significant digit first.
pub open spec fn dec_rep(n: nat) -> Seq<char>
    decreases n,
{
    if n < 10 {
        seq![dec_digit(n)]
    } else {
        dec_rep(n / 10).push(dec_digit(n % 10))
    }
}

/// What a `char`'s quoted form (its `Debug` rendering) is. The escaping
/// rules are the standard library's; only that the form depends on the
/// character alone is relied upon.
pub uninterp spec fn char_quoted(c: char) -> Seq<char>;

/// The text of a diagnostic raised at line `line`, column `col`.
pub open spec fn err_text(reason: Seq<char>, line: nat, col: nat) -> Seq<char> {
    "ERROR: "@ + reason + " on line "@ + dec_rep(line) + " column "@ + dec_rep(col)
}

/// The text of a diagnostic raised with the cursor after `s[0..j]`.
pub open spec fn err_at(reason: Seq<char>, s: Seq<char>, j: int) -> Seq<char> {
    err_text(reason, line_of(s, j), col_of(s, j))
}

/// The text reported when a character remains after the top-level expression.
pub open spec fn trailing_text(c: char) -> Seq<char> {
    "Unexpected character "@ + char_quoted(c) + " after expression"@
}

/// What one parsing step yields: an expression and the position one past
/// the last character consumed, or a diagnostic and the position the
/// cursor stood at when it was raised.
#[verifier::ext_equal]
pub enum SpecOut {
    Done { e: SpecExpr, pos: int },
    Fail { msg: Seq<char>, pos: int },
}

/// The position of the first character at or after `i` that is not
/// ASCII whitespace, or the end of the input.
pub open spec fn skip_ws(s: Seq<char>, i: int) -> int
    decreases s.len() - i,
{
    if 0 <= i < s.len() && is_ws_char(s[i]) {
        skip_ws(s, i + 1)
    } else {
        i
    }
}

/// The position of the first character at or after `i` that is not
/// ASCII alphabetic, or the end of the input.
pub open spec fn ident_end(s: Seq<char>, i: int) -> int
    decreases s.len() - i,
{
    if 0 <= i < s.len() && is_alpha_char(s[i]) {
        ident_end(s, i + 1)
    } else {
        i
    }
}

/// The position of the first `"` at or after `i`, or the end of the input.
pub open spec fn quote_end(s: Seq<char>, i: int) -> int
    decreases s.len() - i,
{
    if 0 <= i < s.len() {
        if s[i] == '"' {
            i
        } else {
            quote_end(s, i + 1)
        }
    } else {
        i
    }
}

/// Parsing an identifier with the cursor at `i`: one or more consecutive
/// ASCII alphabetic characters, taken greedily.
pub open spec fn spec_identifier(s: Seq<char>, i: int) -> SpecOut {
    if !(0 <= i < s.len()) {
        SpecOut::Fail { msg: err_at("no identifier"@, s, i), pos: i }
    } else if !is_alpha_char(s[i]) {
        SpecOut::Fail {
            msg: err_at("Identifier can't start with "@ + char_quoted(s[i]), s, i + 1),
            pos: i + 1,
        }
    } else {
        let j = ident_end(s, i + 1);
        SpecOut::Done { e: SpecExpr::Identifier(s.subrange(i, j)), pos: j }
    }
}

/// Parsing a string literal with the cursor on its opening `"`: the raw
/// characters up to the next `"`, with no escape processing.
pub open spec fn spec_string_literal(s: Seq<char>, i: int) -> SpecOut {
    if 0 <= i < s.len() && s[i] == '"' {
        let e = quote_end(s, i + 1);
        if e < s.len() {
            SpecOut::Done { e: SpecExpr::StringLiteral(s.subrange(i + 1, e)), pos: e + 1 }
        } else {
            SpecOut::Fail {
                msg: err_at("Unterminated string literal"@, s, s.len() as int),
                pos: s.len() as int,
            }
        }
    } else {
        SpecOut::Fail { msg: Seq::empty(), pos: i }
    }
}

/// Parsing an expression with the cursor at `i`: skip whitespace, then
/// dispatch on one peeked character. The end of the input denotes the
/// empty expression.
pub open spec fn spec_expr(s: Seq<char>, i: int) -> SpecOut
    decreases s.len() - i, 1int,
{
    if !(0 <= i <= s.len()) {
        SpecOut::Fail { msg: Seq::empty(), pos: i }
    } else {
        let j = skip_ws(s, i);
        if !(i <= j <= s.len()) {
            SpecOut::Fail { msg: Seq::empty(), pos: j }
        } else if j == s.len() {
            SpecOut::Done { e: SpecExpr::Noop, pos: j }
        } else if s[j] == '(' {
            spec_list(s, j)
        } else if s[j] == '"' {
            spec_string_literal(s, j)
        } else if is_alpha_char(s[j]) {
            spec_identifier(s, j)
        } else {
            SpecOut::Fail {
                msg: err_at("unexpected char "@ + char_quoted(s[j]) + " in expression"@, s, j),
                pos: j,
            }
        }
    }
}

/// Parsing a list with the cursor on its opening `(`.
pub open spec fn spec_list(s: Seq<char>, i: int) -> SpecOut
    decreases s.len() - i, 0int,
{
    if 0 <= i < s.len() && s[i] == '(' {
        spec_list_items(s, i + 1, Seq::empty())
    } else {
        SpecOut::Fail {
            msg: "list"@,
            pos: if 0 <= i < s.len() { i + 1 } else { i },
        }
    }
}

/// Parsing the remaining elements of a list, `acc` already collected:
/// skip whitespace, then a `)` closes the list, the end of the input is
/// a fault, and anything else must be one more element.
pub open spec fn spec_list_items(s: Seq<char>, i: int, acc: Seq<SpecExpr>) -> SpecOut
    decreases s.len() - i, 2int,
{
    if !(0 <= i <= s.len()) {
        SpecOut::Fail { msg: Seq::empty(), pos: i }
    } else {
        let j = skip_ws(s, i);
        if !(i <= j <= s.len()) {
            SpecOut::Fail { msg: Seq::empty(), pos: j }
        } else if j == s.len() {
            SpecOut::Fail { msg: err_at("Unterminated list"@, s, j), pos: j }
        } else if s[j] == ')' {
            SpecOut::Done { e: SpecExpr::List(acc), pos: j + 1 }
        } else {
            match spec_expr(s, j) {
                SpecOut::Fail { msg, pos } => SpecOut::Fail { msg, pos },
                SpecOut::Done { e, pos } => if j < pos <= s.len() {
                    spec_list_items(s, pos, acc.push(e))
                } else {
                    SpecOut::Fail { msg: Seq::empty(), pos }
                },
            }
        }
    }
}

/// The whole-input contract: the input must denote exactly one expression.
/// A character standing after the top-level expression — even after a
/// failed one — is reported as trailing, without a position.
pub open spec fn spec_parse(s: Seq<char>) -> Result<SpecExpr, Seq<char>> {
    match spec_expr(s, 0) {
        SpecOut::Done { e, pos } => if pos < s.len() {
            Result::Err(trailing_text(s[pos]))
        } else {
            Result::Ok(e)
        },
        SpecOut::Fail { msg, pos } => if 0 <= pos < s.len() {
            Result::Err(trailing_text(s[pos]))
        } else {
            Result::Err(msg)
        },
    }
}

/// Skipping whitespace never moves the cursor backwards, never leaves the
/// input, skips only whitespace, and stops only at the end or at a
/// non-whitespace character.
pub proof fn lemma_skip_ws(s: Seq<char>, i: int)
    requires
        0 <= i <= s.len(),
    ensures
        i <= skip_ws(s, i) <= s.len(),
        skip_ws(s, i) < s.len() ==> !is_ws_char(s[skip_ws(s, i)]),
        forall|k: int| i <= k < skip_ws(s, i) ==> is_ws_char(#[trigger] s[k]),
    decreases s.len() - i,
{
    if i < s.len() && is_ws_char(s[i]) {
        lemma_skip_ws(s, i + 1);
    }
}

/// The identifier scan never moves backwards, never leaves the input,
/// passes only alphabetic characters, and stops only at the end or at a
/// non-alphabetic character.
pub proof fn lemma_ident_end(s: Seq<char>, i: int)
    requires
        0 <= i <= s.len(),
    ensures
        i <= ident_end(s, i) <= s.len(),
        ident_end(s, i) < s.len() ==> !is_alpha_char(s[ident_end(s, i)]),
        forall|k: int| i <= k < ident_end(s, i) ==> is_alpha_char(#[trigger] s[k]),
    decreases s.len() - i,
{
    if i < s.len() && is_alpha_char(s[i]) {
        lemma_ident_end(s, i + 1);
    }
}

/// The scan for a closing quote never moves backwards, never leaves the
/// input, passes no quote, and stops only at the end or on a quote.
pub proof fn lemma_quote_end(s: Seq<char>, i: int)
    requires
        0 <= i <= s.len(),
    ensures
        i <= quote_end(s, i) <= s.len(),
        quote_end(s, i) < s.len() ==> s[quote_end(s, i)] == '"',
        forall|k: int| i <= k < quote_end(s, i) ==> #[trigger] s[k] != '"',
    decreases s.len() - i,
{
    if i < s.len() && s[i] != '"' {
        lemma_quote_end(s, i + 1);
    }
}

/// An input of nothing but whitespace — the empty input included —
/// denotes the empty expression.
pub proof fn lemma_whitespace_only_noop(s: Seq<char>)
    requires
        forall|k: int| 0 <= k < s.len() ==> is_ws_char(#[trigger] s[k]),
    ensures
        spec_parse(s) == Ok::<SpecExpr, Seq<char>>(SpecExpr::Noop),
{
    lemma_skip_ws_exact(s, 0, s.len() as int);
}

/// Skipping whitespace stops exactly at `b` when everything before `b`
/// is whitespace and `b` is the end or holds a non-whitespace character.
pub proof fn lemma_skip_ws_exact(s: Seq<char>, a: int, b: int)
    requires
        0 <= a <= b <= s.len(),
        forall|k: int| a <= k < b ==> is_ws_char(#[trigger] s[k]),
        b == s.len() || !is_ws_char(s[b]),
    ensures
        skip_ws(s, a) == b,
    decreases b - a,
{
    if a < b {
        lemma_skip_ws_exact(s, a + 1, b);
    }
}

/// The identifier scan stops exactly at `b` when everything before `b`
/// is alphabetic and `b` is the end or holds a non-alphabetic character.
pub proof fn lemma_ident_end_exact(s: Seq<char>, a: int, b: int)
    requires
        0 <= a <= b <= s.len(),
        forall|k: int| a <= k < b ==> is_alpha_char(#[trigger] s[k]),
        b == s.len() || !is_alpha_char(s[b]),
    ensures
        ident_end(s, a) == b,
    decreases b - a,
{
    if a < b {
        lemma_ident_end_exact(s, a + 1, b);
    }
}

/// The scan for a quote stops exactly at `b` when no quote stands before
/// `b` and `b` is the end or holds one.
pub proof fn lemma_quote_end_exact(s: Seq<char>, a: int, b: int)
    requires
        0 <= a <= b <= s.len(),
        forall|k: int| a <= k < b ==> #[trigger] s[k] != '"',
        b == s.len() || s[b] == '"',
    ensures
        quote_end(s, a) == b,
    decreases b - a,
{
    if a < b {
        lemma_quote_end_exact(s, a + 1, b);
    }
}

/// The number of line feeds among the first `j` characters.
pub open spec fn newline_count(s: Seq<char>, j: int) -> nat
    decreases j,
{
    if j <= 0 {
        0
    } else {
        newline_count(s, j - 1) + if s[j - 1] == '\n' { 1nat } else { 0nat }
    }
}

/// The position right after the last line feed among the first `j`
/// characters, or the start of the input if there is none.
pub open spec fn line_start(s: Seq<char>, j: int) -> int
    decreases j,
{
    if j <= 0 {
        0
    } else if s[j - 1] == '\n' {
        j
    } else {
        line_start(s, j - 1)
    }
}

/// A cursor that has consumed `j` characters, among them `N` line feeds,
/// reports line `N + 1`, and a column one more than the count of
/// characters consumed since the character after the last line feed.
pub proof fn lemma_position_accurate(s: Seq<char>, j: int)
    requires
        0 <= j <= s.len(),
    ensures
        line_of(s, j) == 1 + newline_count(s, j),
        0 <= line_start(s, j) <= j,
        col_of(s, j) == 1 + j - line_start(s, j),
        forall|k: int| line_start(s, j) <= k < j ==> #[trigger] s[k] != '\n',
        line_start(s, j) == 0 || s[line_start(s, j) - 1] == '\n',
    decreases j,
{
    if j > 0 {
        lemma_position_accurate(s, j - 1);
    }
}

/// The line is always positive and never exceeds the count of consumed
/// characters plus one; the same holds of the column.
pub proof fn lemma_line_col_bounds(s: Seq<char>, j: int)
    ensures
        1 <= line_of(s, j),
        1 <= col_of(s, j),
        j >= 0 ==> line_of(s, j) <= j + 1,
        j >= 0 ==> col_of(s, j) <= j + 1,
    decreases j,
{
    if j > 0 {
        lemma_line_col_bounds(s, j - 1);
    }
}

} // verus!
