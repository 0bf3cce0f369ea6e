//! Renderings of expression trees, and the laws tying them to the parser:
//! every rendering of a tree — whatever whitespace stands between its
//! tokens — parses back to exactly that tree.

use vstd::prelude::*;
use crate::ast::SpecExpr;
use crate::grammar::is_alpha_char;
use crate::grammar::is_ws_char;
use crate::grammar::lemma_ident_end;
use crate::grammar::lemma_ident_end_exact;
use crate::grammar::lemma_quote_end;
use crate::grammar::lemma_quote_end_exact;
use crate::grammar::ident_end;
use crate::grammar::lemma_skip_ws;
use crate::grammar::quote_end;
use crate::grammar::lemma_skip_ws_exact;
use crate::grammar::skip_ws;
use crate::grammar::spec_expr;
use crate::grammar::spec_list;
use crate::grammar::spec_list_items;
use crate::grammar::spec_parse;
use crate::grammar::SpecOut;

verus! {

/// `s[i..j)` is a rendering of `e`: its tokens in order, arbitrary ASCII
/// whitespace between them, no whitespace before the first token or after
/// the last. The empty expression has no rendering of its own; it is what
/// an all-whitespace input denotes.
pub open spec fn renders(s: Seq<char>, i: int, j: int, e: SpecExpr) -> bool
    decreases e, 0int,
{
    match e {
        SpecExpr::Noop => false,
        SpecExpr::Identifier(id) => {
            &&& 0 <= i <= j <= s.len()
            &&& j - i == id.len()
            &&& id.len() >= 1
            &&& s.subrange(i, j) == id
            &&& forall|k: int| i <= k < j ==> is_alpha_char(#[trigger] s[k])
        },
        SpecExpr::StringLiteral(t) => {
            &&& 0 <= i <= j <= s.len()
            &&& j - i == t.len() + 2
            &&& s[i] == '"'
            &&& s[j - 1] == '"'
            &&& s.subrange(i + 1, j - 1) == t
            &&& forall|k: int| i + 1 <= k < j - 1 ==> #[trigger] s[k] != '"'
        },
        SpecExpr::List(es) => {
            &&& 0 <= i < j <= s.len()
            &&& s[i] == '('
            &&& s[j - 1] == ')'
            &&& renders_items(s, i + 1, j - 1, es)
        },
    }
}

/// `s[i..j)` is a rendering of the elements `es`, in order: whitespace,
/// then each element's rendering, whitespace between them, possibly
/// whitespace at the end.
pub open spec fn renders_items(s: Seq<char>, i: int, j: int, es: Seq<SpecExpr>) -> bool
    decreases es, 1int,
{
    if es.len() == 0 {
        &&& 0 <= i <= j <= s.len()
        &&& forall|k: int| i <= k < j ==> is_ws_char(#[trigger] s[k])
    } else {
        exists|a: int, b: int|
            {
                &&& #[trigger] split_frame(s, i, j, es, a, b)
                &&& renders(s, a, b, es[0])
                &&& renders_items(s, b, j, es.drop_first())
            }
    }
}

/// The frame around one rendered element of a list: it stands on
/// `s[a..b)`, only whitespace stands before it, and an identifier is not
/// followed immediately by another alphabetic character.
pub open spec fn split_frame(
    s: Seq<char>,
    i: int,
    j: int,
    es: Seq<SpecExpr>,
    a: int,
    b: int,
) -> bool {
    &&& i <= a <= b <= j
    &&& (forall|k: int| i <= k < a ==> is_ws_char(#[trigger] s[k]))
    &&& (es.len() > 0 && es[0] is Identifier ==> b == j || !is_alpha_char(s[b]))
}

/// A rendered expression starts with a character that is neither
/// whitespace nor a closing parenthesis, and is never empty.
proof fn lemma_renders_head(s: Seq<char>, i: int, j: int, e: SpecExpr)
    requires
        renders(s, i, j, e),
    ensures
        i < j <= s.len(),
        0 <= i,
        !is_ws_char(s[i]),
        s[i] != ')',
{
    match e {
        SpecExpr::Noop => {},
        SpecExpr::Identifier(id) => {
            assert(is_alpha_char(s[i]));
        },
        SpecExpr::StringLiteral(t) => {},
        SpecExpr::List(es) => {},
    }
}

/// Parsing one expression at the start of its rendering yields exactly
/// that expression and consumes exactly the rendering.
pub proof fn lemma_renders_parse(s: Seq<char>, i: int, j: int, e: SpecExpr)
    requires
        renders(s, i, j, e),
        e is Identifier ==> j == s.len() || !is_alpha_char(s[j]),
    ensures
        spec_expr(s, i) == (SpecOut::Done { e, pos: j }),
    decreases e, 0int,
{
    lemma_renders_head(s, i, j, e);
    lemma_skip_ws_exact(s, i, i);
    match e {
        SpecExpr::Noop => {},
        SpecExpr::Identifier(id) => {
            lemma_ident_end_exact(s, i + 1, j);
            assert(is_alpha_char(s[i]));
            assert(s[i] != '(' && s[i] != '"');
        },
        SpecExpr::StringLiteral(t) => {
            lemma_quote_end_exact(s, i + 1, j - 1);
        },
        SpecExpr::List(es) => {
            lemma_renders_items_parse(s, i + 1, j - 1, es, Seq::empty());
            assert(Seq::<SpecExpr>::empty() + es =~= es);
        },
    }
}

/// Parsing the elements of a list from the start of their rendering,
/// with `acc` already collected, finds the closing parenthesis right
/// after the rendering and yields all the elements in order.
pub proof fn lemma_renders_items_parse(
    s: Seq<char>,
    a: int,
    b: int,
    es: Seq<SpecExpr>,
    acc: Seq<SpecExpr>,
)
    requires
        renders_items(s, a, b, es),
        0 <= a <= b < s.len(),
        s[b] == ')',
    ensures
        spec_list_items(s, a, acc) == (SpecOut::Done {
            e: SpecExpr::List(acc + es),
            pos: b + 1,
        }),
    decreases es, 1int,
{
    if es.len() == 0 {
        lemma_skip_ws_exact(s, a, b);
        assert(acc + es =~= acc);
    } else {
        let (a1, b1) = choose|a1: int, b1: int|
            {
                &&& #[trigger] split_frame(s, a, b, es, a1, b1)
                &&& renders(s, a1, b1, es[0])
                &&& renders_items(s, b1, b, es.drop_first())
            };
        lemma_renders_head(s, a1, b1, es[0]);
        lemma_skip_ws_exact(s, a, a1);
        lemma_renders_parse(s, a1, b1, es[0]);
        lemma_renders_items_parse(s, b1, b, es.drop_first(), acc.push(es[0]));
        assert(acc.push(es[0]) + es.drop_first() =~= acc + es);
    }
}

/// A tree the parser could have produced: identifiers are nonempty and
/// alphabetic, string literals hold no quote, and the empty expression
/// appears nowhere — the parser yields it only for a whole input of
/// whitespace, never inside a list.
pub open spec fn valid_expr(e: SpecExpr) -> bool
    decreases e,
{
    match e {
        SpecExpr::Noop => false,
        SpecExpr::Identifier(id) => {
            &&& id.len() >= 1
            &&& forall|k: int| 0 <= k < id.len() ==> is_alpha_char(#[trigger] id[k])
        },
        SpecExpr::StringLiteral(t) => forall|k: int| 0 <= k < t.len() ==> #[trigger] t[k] != '"',
        SpecExpr::List(es) => forall|k: int|
            0 <= k < es.len() ==> valid_expr(#[trigger] es[k]),
    }
}

/// One canonical rendering: tokens as they are, a single space before
/// each list element.
pub open spec fn render(e: SpecExpr) -> Seq<char>
    decreases e, 0int,
{
    match e {
        SpecExpr::Noop => Seq::empty(),
        SpecExpr::Identifier(id) => id,
        SpecExpr::StringLiteral(t) => seq!['"'] + t + seq!['"'],
        SpecExpr::List(es) => seq!['('] + render_items(es) + seq![')'],
    }
}

/// The canonical rendering of a list's elements.
pub open spec fn render_items(es: Seq<SpecExpr>) -> Seq<char>
    decreases es, 1int,
{
    if es.len() == 0 {
        Seq::empty()
    } else {
        seq![' '] + render(es[0]) + render_items(es.drop_first())
    }
}

/// The canonical rendering of a valid tree, wherever it stands in a
/// larger input, is a rendering in the sense of [`renders`].
proof fn lemma_render_embeds(s: Seq<char>, i: int, e: SpecExpr)
    requires
        valid_expr(e),
        0 <= i,
        i + render(e).len() <= s.len(),
        s.subrange(i, i + render(e).len() as int) == render(e),
    ensures
        renders(s, i, i + render(e).len() as int, e),
    decreases e, 0int,
{
    let j = i + render(e).len() as int;
    assert forall|k: int| i <= k < j implies s[k] == render(e)[k - i] by {
        assert(s.subrange(i, j)[k - i] == s[k]);
    }
    match e {
        SpecExpr::Noop => {},
        SpecExpr::Identifier(id) => {},
        SpecExpr::StringLiteral(t) => {
            assert(render(e)[0] == '"');
            assert(render(e)[j - i - 1] == '"');
            assert(s.subrange(i + 1, j - 1) =~= t);
        },
        SpecExpr::List(es) => {
            assert(render(e)[0] == '(');
            assert(render(e)[j - i - 1] == ')');
            assert(s.subrange(i + 1, i + 1 + render_items(es).len() as int) =~= render_items(es));
            lemma_render_items_embeds(s, i + 1, es);
        },
    }
}

/// The canonical rendering of a list's elements, wherever it stands in a
/// larger input, is a rendering of those elements.
proof fn lemma_render_items_embeds(s: Seq<char>, i: int, es: Seq<SpecExpr>)
    requires
        forall|k: int| 0 <= k < es.len() ==> valid_expr(#[trigger] es[k]),
        0 <= i,
        i + render_items(es).len() <= s.len(),
        s.subrange(i, i + render_items(es).len() as int) == render_items(es),
    ensures
        renders_items(s, i, i + render_items(es).len() as int, es),
    decreases es, 1int,
{
    let j = i + render_items(es).len() as int;
    assert forall|k: int| i <= k < j implies s[k] == render_items(es)[k - i] by {
        assert(s.subrange(i, j)[k - i] == s[k]);
    }
    if es.len() > 0 {
        let a1 = i + 1;
        let b1 = a1 + render(es[0]).len() as int;
        assert(s[i] == render_items(es)[0]);
        assert(render_items(es)[0] == ' ');
        assert(s.subrange(a1, b1) =~= render(es[0]));
        lemma_render_embeds(s, a1, es[0]);
        assert(s.subrange(b1, j) =~= render_items(es.drop_first()));
        lemma_render_items_embeds(s, b1, es.drop_first());
        if es.drop_first().len() > 0 {
            assert(s[b1] == render_items(es.drop_first())[0]);
            assert(render_items(es.drop_first())[0] == ' ');
        }
        assert(split_frame(s, i, j, es, a1, b1));
    }
}

/// The round trip: every valid tree has at least one rendering — the
/// canonical one — that parses back to exactly that tree; the empty
/// expression round-trips through the empty input.
pub proof fn lemma_round_trip(e: SpecExpr)
    requires
        e is Noop || valid_expr(e),
    ensures
        spec_parse(render(e)) == Ok::<SpecExpr, Seq<char>>(e),
{
    let s = render(e);
    if e is Noop {
        crate::grammar::lemma_whitespace_only_noop(s);
    } else {
        assert(s.subrange(0, s.len() as int) =~= s);
        lemma_render_embeds(s, 0, e);
        lemma_rendering_parses(s, 0, e);
    }
}

/// The law of renderings: an input that is one rendering of a tree,
/// possibly after leading whitespace, parses to exactly that tree.
/// Because the rendering places arbitrary whitespace between tokens,
/// inserting or removing whitespace there never changes the parsed tree.
pub proof fn lemma_rendering_parses(s: Seq<char>, i: int, e: SpecExpr)
    requires
        0 <= i <= s.len(),
        forall|k: int| 0 <= k < i ==> is_ws_char(#[trigger] s[k]),
        renders(s, i, s.len() as int, e),
    ensures
        spec_parse(s) == Ok::<SpecExpr, Seq<char>>(e),
{
    lemma_renders_head(s, i, s.len() as int, e);
    lemma_skip_ws_exact(s, 0, i);
    lemma_renders_parse(s, i, s.len() as int, e);
    assert(spec_expr(s, 0) == (SpecOut::Done { e, pos: s.len() as int }));
}

/// A successful parse of one expression is a rendering of its result:
/// when the dispatch saw a character, the consumed characters render a
/// valid tree, and an identifier never stops right before another
/// alphabetic character.
pub proof fn lemma_expr_yields_rendering(s: Seq<char>, i: int)
    requires
        0 <= i <= s.len(),
    ensures
        (match spec_expr(s, i) {
            SpecOut::Done { e, pos } => {
                let j = skip_ws(s, i);
                &&& i <= j <= pos <= s.len()
                &&& (j == s.len() ==> e is Noop && pos == j)
                &&& (j < s.len() ==> {
                    &&& !(e is Noop)
                    &&& renders(s, j, pos, e)
                    &&& valid_expr(e)
                    &&& (e is Identifier ==> pos == s.len() || !is_alpha_char(s[pos]))
                })
            },
            _ => true,
        }),
    decreases s.len() - i, 1int,
{
    lemma_skip_ws(s, i);
    let j = skip_ws(s, i);
    if j < s.len() {
        if s[j] == '(' {
            lemma_items_yields_rendering(s, j + 1, Seq::empty());
            match spec_list(s, j) {
                SpecOut::Done { e, pos } => {
                    let es = e->List_0;
                    assert(es.subrange(0, es.len() as int) =~= es);
                    assert(renders_items(s, j + 1, pos - 1, es));
                },
                SpecOut::Fail { .. } => {},
            }
        } else if s[j] == '"' {
            lemma_quote_end(s, j + 1);
            let e0 = quote_end(s, j + 1);
            if e0 < s.len() {
                let t = s.subrange(j + 1, e0);
                assert forall|k: int| 0 <= k < t.len() implies #[trigger] t[k] != '"' by {
                    assert(t[k] == s[j + 1 + k]);
                }
            }
        } else if is_alpha_char(s[j]) {
            lemma_ident_end(s, j + 1);
            let p = ident_end(s, j + 1);
            let id = s.subrange(j, p);
            assert forall|k: int| 0 <= k < id.len() implies is_alpha_char(#[trigger] id[k]) by {
                assert(id[k] == s[j + k]);
            }
        }
    }
}

/// A successful parse of a list's remaining elements is a rendering of
/// the elements beyond those already collected, and finds the closing
/// parenthesis right after it.
pub proof fn lemma_items_yields_rendering(s: Seq<char>, i: int, acc: Seq<SpecExpr>)
    requires
        0 <= i <= s.len(),
    ensures
        (match spec_list_items(s, i, acc) {
            SpecOut::Done { e, pos } => {
                &&& i < pos <= s.len()
                &&& s[pos - 1] == ')'
                &&& e is List
                &&& (e matches SpecExpr::List(es) ==> {
                    &&& acc.len() <= es.len()
                    &&& es.subrange(0, acc.len() as int) == acc
                    &&& renders_items(s, i, pos - 1, es.subrange(acc.len() as int, es.len() as int))
                    &&& forall|k: int| acc.len() <= k < es.len() ==> valid_expr(#[trigger] es[k])
                })
            },
            _ => true,
        }),
    decreases s.len() - i, 2int,
{
    lemma_skip_ws(s, i);
    let j = skip_ws(s, i);
    if j == s.len() {
    } else if s[j] == ')' {
        assert(acc.subrange(0, acc.len() as int) =~= acc);
        assert(acc.subrange(acc.len() as int, acc.len() as int) =~= Seq::<SpecExpr>::empty());
    } else {
        lemma_expr_yields_rendering(s, j);
        match spec_expr(s, j) {
            SpecOut::Fail { .. } => {},
            SpecOut::Done { e: e0, pos: p0 } => {
                lemma_renders_head(s, j, p0, e0);
                lemma_items_yields_rendering(s, p0, acc.push(e0));
                match spec_list_items(s, p0, acc.push(e0)) {
                    SpecOut::Fail { .. } => {},
                    SpecOut::Done { e, pos } => {
                        let es = e->List_0;
                        let stored = es.subrange(0, acc.len() as int + 1);
                        assert(stored[acc.len() as int] == es[acc.len() as int]);
                        assert(es[acc.len() as int] == e0);
                        assert(es.subrange(0, acc.len() as int) =~= acc) by {
                            assert forall|k: int| 0 <= k < acc.len() implies es.subrange(
                                0,
                                acc.len() as int,
                            )[k] == acc[k] by {
                                assert(stored[k] == es[k]);
                                assert(stored[k] == acc.push(e0)[k]);
                            }
                        }
                        let tail = es.subrange(acc.len() as int, es.len() as int);
                        assert(tail[0] == es[acc.len() as int]);
                        assert(tail.drop_first() =~= es.subrange(acc.len() as int + 1, es.len() as int));
                        assert(split_frame(s, i, pos - 1, tail, j, p0));
                        assert(renders_items(s, i, pos - 1, tail));
                    },
                }
            },
        }
    }
}

/// The converse law of renderings: an input that parses successfully is
/// nothing but whitespace — denoting the empty expression — or leading
/// whitespace followed by one rendering of the valid tree it parses to,
/// reaching exactly to the end of the input.
pub proof fn lemma_parse_yields_rendering(s: Seq<char>)
    ensures
        (match spec_parse(s) {
            Ok(e) => {
                &&& (e is Noop ==> forall|k: int|
                    0 <= k < s.len() ==> is_ws_char(#[trigger] s[k]))
                &&& (!(e is Noop) ==> {
                    &&& renders(s, skip_ws(s, 0), s.len() as int, e)
                    &&& valid_expr(e)
                    &&& forall|k: int| 0 <= k < skip_ws(s, 0) ==> is_ws_char(#[trigger] s[k])
                })
            },
            Err(m) => true,
        }),
{
    lemma_skip_ws(s, 0);
    lemma_expr_yields_rendering(s, 0);
}

} // verus!
