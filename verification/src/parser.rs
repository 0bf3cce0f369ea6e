//! The parser: a single-pass recursive descent over the characters of the
//! input, tracking a 1-based line and column for diagnostics.

use vstd::prelude::*;
use vstd::string::StrSliceExecFns;
use vstd::string::StringExecFns;
use crate::ast::lemma_views_of_push;
use crate::ast::views_of;
use crate::ast::Expr;
use crate::ast::SpecExpr;
use crate::grammar::char_quoted;
use crate::grammar::col_of;
use crate::grammar::dec_digit;
use crate::grammar::dec_rep;
use crate::grammar::err_at;
use crate::grammar::err_text;
use crate::grammar::ident_end;
use crate::grammar::is_alpha_char;
use crate::grammar::is_ws_char;
use crate::grammar::lemma_line_col_bounds;
use crate::grammar::line_of;
use crate::grammar::lemma_skip_ws;
use crate::grammar::quote_end;
use crate::grammar::skip_ws;
use crate::grammar::spec_expr;
use crate::grammar::spec_identifier;
use crate::grammar::spec_list;
use crate::grammar::spec_list_items;
use crate::grammar::spec_parse;
use crate::grammar::spec_string_literal;
use crate::grammar::trailing_text;
use crate::grammar::SpecOut;

verus! {

/// A failed parse, carrying the human-readable message.
#[derive(Debug, PartialEq)]
pub enum ParseError {
    Invalid(String),
}

impl ParseError {
    /// The message's characters.
    pub open spec fn view(&self) -> Seq<char> {
        match self {
            ParseError::Invalid(m) => m@,
        }
    }
}

/// Relies on the standard library's `Debug` rendering of `char`
/// (`format!("{:?}", c)`): the quoted form depends on the character alone.
#[verifier::external_body]
fn quote_char(c: char) -> (r: String)
    ensures
        r@ == char_quoted(c),
{
    format!("{:?}", c)
}

/// Whether `c` is ASCII whitespace.
fn is_whitespace(c: char) -> (r: bool)
    ensures
        r == is_ws_char(c),
{
    c == ' ' || c == '\t' || c == '\n' || c == '\x0c' || c == '\r'
}

/// Whether `c` is ASCII alphabetic.
fn is_alphabetic(c: char) -> (r: bool)
    ensures
        r == is_alpha_char(c),
{
    let u = c as u32;
    (97 <= u && u <= 122) || (65 <= u && u <= 90)
}

/// The decimal digit `d` as a one-character string.
fn digit_str(d: usize) -> (r: &'static str)
    requires
        d < 10,
    ensures
        r@ == seq![dec_digit(d as nat)],
{
    proof {
        reveal_strlit("0");
        reveal_strlit("1");
        reveal_strlit("2");
        reveal_strlit("3");
        reveal_strlit("4");
        reveal_strlit("5");
        reveal_strlit("6");
        reveal_strlit("7");
        reveal_strlit("8");
        reveal_strlit("9");
    }
    match d {
        0 => "0",
        1 => "1",
        2 => "2",
        3 => "3",
        4 => "4",
        5 => "5",
        6 => "6",
        7 => "7",
        8 => "8",
        _ => "9",
    }
}

/// The decimal rendering of `n`.
fn to_decimal(n: usize) -> (r: String)
    ensures
        r@ == dec_rep(n as nat),
    decreases n,
{
    let d: usize = n % 10;
    let ds = digit_str(d);
    if n < 10 {
        String::from_str(ds)
    } else {
        let mut r = to_decimal(n / 10);
        r.append(ds);
        proof {
            assert(r@ =~= dec_rep(n as nat));
        }
        r
    }
}

/// The cursor: the 1-based line and column the parse stands on, and the
/// count of characters consumed so far. Created fresh for each parse.
pub struct Parser {
    pos: usize,
    line: usize,
    col: usize,
}

impl Parser {
    /// The cursor lies inside the input and its line and column agree
    /// with the characters consumed so far.
    pub closed spec fn wf(self, s: Seq<char>) -> bool {
        &&& self.pos <= s.len()
        &&& self.line == line_of(s, self.pos as int)
        &&& self.col == col_of(s, self.pos as int)
    }

    fn new() -> (p: Parser)
        ensures
            p == (Parser { pos: 0, line: 1, col: 1 }),
    {
        Parser { pos: 0, line: 1, col: 1 }
    }

    /// The sole primitive that consumes a character: a line feed moves the
    /// cursor to the start of the next line, any other character moves it
    /// one column to the right, and the end of the input leaves it alone.
    fn next(&mut self, s: &str) -> (r: Option<char>)
        requires
            old(self).wf(s@),
            s@.len() < usize::MAX,
        ensures
            final(self).wf(s@),
            old(self).pos < s@.len() ==> final(self).pos == old(self).pos + 1 && r == Some(
                s@[old(self).pos as int],
            ),
            old(self).pos >= s@.len() ==> *final(self) == *old(self) && r is None,
    {
        if self.pos < s.unicode_len() {
            let c = s.get_char(self.pos);
            proof {
                lemma_line_col_bounds(s@, self.pos as int);
            }
            self.pos = self.pos + 1;
            if c == '\n' {
                self.line = self.line + 1;
                self.col = 1;
            } else {
                self.col = self.col + 1;
            }
            Some(c)
        } else {
            None
        }
    }

    /// Consumes whitespace until a non-whitespace character or the end of
    /// the input is ahead.
    #[verifier::loop_isolation(false)]
    fn skip_whitespace(&mut self, s: &str)
        requires
            old(self).wf(s@),
            s@.len() < usize::MAX,
        ensures
            final(self).wf(s@),
            final(self).pos == skip_ws(s@, old(self).pos as int),
            old(self).pos <= final(self).pos <= s@.len(),
    {
        let ghost entry = *old(self);
        loop
            invariant
                self.wf(s@),
                s@.len() < usize::MAX,
                entry.pos <= self.pos <= s@.len(),
                skip_ws(s@, self.pos as int) == skip_ws(s@, entry.pos as int),
            decreases s@.len() - self.pos,
        {
            if self.pos < s.unicode_len() {
                let c = s.get_char(self.pos);
                if is_whitespace(c) {
                    self.next(s);
                } else {
                    break;
                }
            } else {
                break;
            }
        }
    }

    /// Consumes one or more ASCII alphabetic characters greedily; the first
    /// non-alphabetic character ahead is left unconsumed.
    #[verifier::loop_isolation(false)]
    fn parse_identifier(&mut self, s: &str) -> (r: Result<Expr, ParseError>)
        requires
            old(self).wf(s@),
            s@.len() < usize::MAX,
        ensures
            final(self).wf(s@),
            old(self).pos <= final(self).pos <= s@.len(),
            (match r {
                Ok(e) => spec_identifier(s@, old(self).pos as int) == (SpecOut::Done {
                    e: e@,
                    pos: final(self).pos as int,
                }),
                Err(pe) => spec_identifier(s@, old(self).pos as int) == (SpecOut::Fail {
                    msg: pe@,
                    pos: final(self).pos as int,
                }),
            }),
            r is Ok ==> final(self).pos > old(self).pos,
    {
        let ghost entry = *old(self);
        let start = self.pos;
        match self.next(s) {
            None => Err(self.error("no identifier")),
            Some(c) => {
                if is_alphabetic(c) {
                    loop
                        invariant
                            self.wf(s@),
                            s@.len() < usize::MAX,
                            entry.pos < self.pos <= s@.len(),
                            ident_end(s@, self.pos as int) == ident_end(s@, entry.pos + 1),
                        decreases s@.len() - self.pos,
                    {
                        if self.pos < s.unicode_len() {
                            let a = s.get_char(self.pos);
                            if is_alphabetic(a) {
                                self.next(s);
                            } else {
                                break;
                            }
                        } else {
                            break;
                        }
                    }
                    let text = s.substring_char(start, self.pos);
                    Ok(Expr::Identifier(String::from_str(text)))
                } else {
                    let quoted = quote_char(c);
                    let mut reason = String::from_str("Identifier can't start with ");
                    reason.append(quoted.as_str());
                    let e = self.error(reason.as_str());
                    proof {
                        assert(e@ =~= err_at(
                            "Identifier can't start with "@ + char_quoted(c),
                            s@,
                            entry.pos + 1,
                        ));
                    }
                    Err(e)
                }
            },
        }
    }

    /// Consumes a string literal: the opening quote must be ahead, and the
    /// raw characters up to the closing quote become the literal.
    #[verifier::loop_isolation(false)]
    fn parse_string_literal(&mut self, s: &str) -> (r: Result<Expr, ParseError>)
        requires
            old(self).wf(s@),
            s@.len() < usize::MAX,
            old(self).pos < s@.len(),
            s@[old(self).pos as int] == '"',
        ensures
            final(self).wf(s@),
            old(self).pos <= final(self).pos <= s@.len(),
            (match r {
                Ok(e) => spec_string_literal(s@, old(self).pos as int) == (SpecOut::Done {
                    e: e@,
                    pos: final(self).pos as int,
                }),
                Err(pe) => spec_string_literal(s@, old(self).pos as int) == (SpecOut::Fail {
                    msg: pe@,
                    pos: final(self).pos as int,
                }),
            }),
            r is Ok ==> final(self).pos > old(self).pos,
    {
        let ghost entry = *old(self);
        let start = self.pos;
        self.next(s);
        loop
            invariant
                self.wf(s@),
                s@.len() < usize::MAX,
                entry.pos < self.pos <= s@.len(),
                start == entry.pos,
                s@[entry.pos as int] == '"',
                quote_end(s@, self.pos as int) == quote_end(s@, entry.pos + 1),
                forall|k: int| entry.pos + 1 <= k < self.pos ==> #[trigger] s@[k] != '"',
            decreases s@.len() - self.pos,
        {
            match self.next(s) {
                Some(c) => {
                    if c == '"' {
                        let text = s.substring_char(start + 1, self.pos - 1);
                        return Ok(Expr::StringLiteral(String::from_str(text)));
                    }
                },
                None => {
                    return Err(self.error("Unterminated string literal"));
                },
            }
        }
    }

    /// Parses one expression: skips whitespace, then dispatches on one
    /// peeked character; the end of the input denotes the empty expression.
    fn parse_expr(&mut self, s: &str) -> (r: Result<Expr, ParseError>)
        requires
            old(self).wf(s@),
            s@.len() < usize::MAX,
        ensures
            final(self).wf(s@),
            old(self).pos <= final(self).pos <= s@.len(),
            (match r {
                Ok(e) => spec_expr(s@, old(self).pos as int) == (SpecOut::Done {
                    e: e@,
                    pos: final(self).pos as int,
                }),
                Err(pe) => spec_expr(s@, old(self).pos as int) == (SpecOut::Fail {
                    msg: pe@,
                    pos: final(self).pos as int,
                }),
            }),
            r is Ok && skip_ws(s@, old(self).pos as int) < s@.len() ==> final(self).pos
                > skip_ws(s@, old(self).pos as int),
        decreases s@.len() - old(self).pos, 1int,
    {
        self.skip_whitespace(s);
        if self.pos >= s.unicode_len() {
            Ok(Expr::Noop)
        } else {
            let c = s.get_char(self.pos);
            if c == '(' {
                self.parse_list(s)
            } else if c == '"' {
                self.parse_string_literal(s)
            } else if is_alphabetic(c) {
                self.parse_identifier(s)
            } else {
                let quoted = quote_char(c);
                let mut reason = String::from_str("unexpected char ");
                reason.append(quoted.as_str());
                reason.append(" in expression");
                let e = self.error(reason.as_str());
                proof {
                    assert(e@ =~= err_at(
                        "unexpected char "@ + char_quoted(c) + " in expression"@,
                        s@,
                        self.pos as int,
                    ));
                }
                Err(e)
            }
        }
    }

    /// Parses a parenthesized list: the opening parenthesis must be ahead;
    /// elements are collected until the closing parenthesis. Every consumed
    /// character — the opening parenthesis included — goes through [`Self::next`],
    /// so the cursor stays exact; a parenthesis is never a line feed, so
    /// this moves the cursor one column right, as the column bump it
    /// replaces did.
    #[verifier::loop_isolation(false)]
    fn parse_list(&mut self, s: &str) -> (r: Result<Expr, ParseError>)
        requires
            old(self).wf(s@),
            s@.len() < usize::MAX,
        ensures
            final(self).wf(s@),
            old(self).pos <= final(self).pos <= s@.len(),
            (match r {
                Ok(e) => spec_list(s@, old(self).pos as int) == (SpecOut::Done {
                    e: e@,
                    pos: final(self).pos as int,
                }),
                Err(pe) => spec_list(s@, old(self).pos as int) == (SpecOut::Fail {
                    msg: pe@,
                    pos: final(self).pos as int,
                }),
            }),
            r is Ok ==> final(self).pos > old(self).pos,
        decreases s@.len() - old(self).pos, 0int,
    {
        let ghost entry = *old(self);
        match self.next(s) {
            Some(c) => if c == '(' {
                let mut contents: Vec<Expr> = Vec::new();
                proof {
                    assert(views_of(contents@) =~= Seq::<SpecExpr>::empty());
                    assert(spec_list(s@, entry.pos as int) == spec_list_items(
                        s@,
                        entry.pos + 1,
                        views_of(contents@),
                    ));
                }
                loop
                    invariant
                        self.wf(s@),
                        entry.pos < self.pos <= s@.len(),
                        spec_list(s@, entry.pos as int) == spec_list_items(
                            s@,
                            self.pos as int,
                            views_of(contents@),
                        ),
                    decreases s@.len() - self.pos,
                {
                    self.skip_whitespace(s);
                    proof {
                        lemma_skip_ws(s@, self.pos as int);
                    }
                    if self.pos >= s.unicode_len() {
                        return Err(self.error("Unterminated list"));
                    }
                    let c = s.get_char(self.pos);
                    if c == ')' {
                        self.next(s);
                        return Ok(Expr::List(contents));
                    }
                    let ghost before = self.pos as int;
                    let inner = self.parse_expr(s);
                    match inner {
                        Err(pe) => {
                            return Err(pe);
                        },
                        Ok(e) => {
                            proof {
                                lemma_views_of_push(contents@, e);
                            }
                            contents.push(e);
                        },
                    }
                }
            } else {
                Err(ParseError::Invalid(String::from_str("list")))
            },
            None => Err(ParseError::Invalid(String::from_str("list"))),
        }
    }

    /// Parses the whole input as exactly one expression: any character that
    /// remains after the top-level expression — even after a failed one —
    /// is reported as trailing. Lists nest to arbitrary depth: each level
    /// consumes its opening parenthesis, so the recursion is bounded by
    /// the input's length, and no separate depth cap is imposed.
    pub fn parse(code: &str) -> (r: Result<Expr, ParseError>)
        requires
            code@.len() < usize::MAX,
        ensures
            (match r {
                Ok(e) => spec_parse(code@) == Ok::<SpecExpr, Seq<char>>(e@),
                Err(pe) => spec_parse(code@) == Err::<SpecExpr, Seq<char>>(pe@),
            }),
    {
        let mut parser = Parser::new();
        let expr = parser.parse_expr(code);
        if parser.pos < code.unicode_len() {
            let c = code.get_char(parser.pos);
            let quoted = quote_char(c);
            let mut m = String::from_str("Unexpected character ");
            m.append(quoted.as_str());
            m.append(" after expression");
            proof {
                assert(m@ =~= trailing_text(c));
            }
            Err(ParseError::Invalid(m))
        } else {
            expr
        }
    }

    /// A diagnostic raised at the cursor's current line and column.
    fn error(&self, reason: &str) -> (r: ParseError)
        ensures
            r@ == err_text(reason@, self.line as nat, self.col as nat),
    {
        let mut m = String::from_str("ERROR: ");
        m.append(reason);
        m.append(" on line ");
        let line_dec = to_decimal(self.line);
        m.append(line_dec.as_str());
        m.append(" column ");
        let col_dec = to_decimal(self.col);
        m.append(col_dec.as_str());
        proof {
            assert(m@ =~= err_text(reason@, self.line as nat, self.col as nat));
        }
        ParseError::Invalid(m)
    }
}

} // verus!
