//! The grammar of whole statements: queries and the commands that change
//! the database, over the tokens of the query language.

use vstd::prelude::*;

use crate::client::{upper_chars, upper_text};
use crate::materialization::aggregation_function::AggregationView;
use crate::parser::expression::ExprView;
use crate::parser::grammar::{
    chars_of, exec_parse_expr, exec_parse_term_at, parse_expr, parse_term_at, parsed_view,
    term_parsed_view, token_views, Token, TokenView,
};
use crate::parser::predicate::{term_views, Term, TermView};
use crate::materialization::aggregation_function::AggregationFn;
use crate::materialization::avg_function::AvgFn;
use crate::materialization::count_function::CountFn;
use crate::materialization::max_function::MaxFn;
use crate::materialization::min_function::MinFn;
use crate::materialization::sum_function::SumFn;
use crate::parser::expression::Expression;
use crate::parser::predicate::Predicate;
use crate::parser::grammar::{parse_outcome, result_view, tokenize, ParseError};
use crate::parser::statement::{
    aggs_view, definitions_view, extends_view, names_view, opt_names_view, opt_predicate_view,
    values_view, CreateCommand, FieldDefinition, QueryData, Statement, UpdateCommand,
};
use crate::record::field::Value;
use crate::parser::statement::{
    CreateCommandView, QueryView, StatementView, UpdateCommandView,
};
use crate::record::field::{Spec, ValueView};

verus! {

/// The token at `p`, if there is one.
pub open spec fn tok(ts: Seq<TokenView>, p: int) -> Option<TokenView> {
    if 0 <= p < ts.len() {
        Some(ts[p])
    } else {
        None
    }
}

/// Whether the token at `p` is the word `w` (given in upper case), written in any case.
pub open spec fn kw(ts: Seq<TokenView>, p: int, w: Seq<char>) -> bool {
    match tok(ts, p) {
        Some(TokenView::Ident(x)) => upper_text(x) == w,
        _ => false,
    }
}

/// The name at `p`, if the token there is a name.
pub open spec fn ident_at(ts: Seq<TokenView>, p: int) -> Option<Seq<char>> {
    match tok(ts, p) {
        Some(TokenView::Ident(x)) => Some(x),
        _ => None,
    }
}

pub open spec fn kw_select() -> Seq<char> {
    seq!['S', 'E', 'L', 'E', 'C', 'T']
}

pub open spec fn kw_from() -> Seq<char> {
    seq!['F', 'R', 'O', 'M']
}

pub open spec fn kw_where() -> Seq<char> {
    seq!['W', 'H', 'E', 'R', 'E']
}

pub open spec fn kw_group() -> Seq<char> {
    seq!['G', 'R', 'O', 'U', 'P']
}

pub open spec fn kw_order() -> Seq<char> {
    seq!['O', 'R', 'D', 'E', 'R']
}

pub open spec fn kw_by() -> Seq<char> {
    seq!['B', 'Y']
}

pub open spec fn kw_as() -> Seq<char> {
    seq!['A', 'S']
}

pub open spec fn kw_insert() -> Seq<char> {
    seq!['I', 'N', 'S', 'E', 'R', 'T']
}

pub open spec fn kw_into() -> Seq<char> {
    seq!['I', 'N', 'T', 'O']
}

pub open spec fn kw_values() -> Seq<char> {
    seq!['V', 'A', 'L', 'U', 'E', 'S']
}

pub open spec fn kw_delete() -> Seq<char> {
    seq!['D', 'E', 'L', 'E', 'T', 'E']
}

pub open spec fn kw_modify() -> Seq<char> {
    seq!['M', 'O', 'D', 'I', 'F', 'Y']
}

pub open spec fn kw_set() -> Seq<char> {
    seq!['S', 'E', 'T']
}

pub open spec fn kw_create() -> Seq<char> {
    seq!['C', 'R', 'E', 'A', 'T', 'E']
}

pub open spec fn kw_table() -> Seq<char> {
    seq!['T', 'A', 'B', 'L', 'E']
}

pub open spec fn kw_view() -> Seq<char> {
    seq!['V', 'I', 'E', 'W']
}

pub open spec fn kw_index() -> Seq<char> {
    seq!['I', 'N', 'D', 'E', 'X']
}

pub open spec fn kw_on() -> Seq<char> {
    seq!['O', 'N']
}

pub open spec fn kw_i32() -> Seq<char> {
    seq!['I', '3', '2']
}

pub open spec fn kw_varchar() -> Seq<char> {
    seq!['V', 'A', 'R', 'C', 'H', 'A', 'R']
}

/// Names separated by commas, from `p` on.
pub open spec fn parse_names(ts: Seq<TokenView>, p: int) -> Option<(Seq<Seq<char>>, int)>
    decreases ts.len() - p,
{
    match ident_at(ts, p) {
        Some(x) => if tok(ts, p + 1) == Some(TokenView::Comma) {
            match parse_names(ts, p + 2) {
                Some((rest, q)) => Some((seq![x] + rest, q)),
                None => None,
            }
        } else {
            Some((seq![x], p + 1))
        },
        None => None,
    }
}

/// A constant at `p`: a number, possibly negated, a string, or `NULL`.
pub open spec fn parse_constant(ts: Seq<TokenView>, p: int) -> Option<(ValueView, int)> {
    match tok(ts, p) {
        Some(TokenView::Int(i)) => Some((ValueView::I32(i), p + 1)),
        Some(TokenView::Str(s)) => Some((ValueView::Str(s), p + 1)),
        Some(TokenView::Null) => Some((ValueView::Null, p + 1)),
        Some(TokenView::Minus) => match tok(ts, p + 1) {
            Some(TokenView::Int(i)) => if i >= 0 {
                Some((ValueView::I32((-i) as i32), p + 2))
            } else {
                None
            },
            _ => None,
        },
        _ => None,
    }
}

/// Constants separated by commas, from `p` on.
pub open spec fn parse_constants(ts: Seq<TokenView>, p: int) -> Option<(Seq<ValueView>, int)>
    decreases ts.len() - p,
{
    match parse_constant(ts, p) {
        Some((c, q)) => if p < q && tok(ts, q) == Some(TokenView::Comma) {
            match parse_constants(ts, q + 1) {
                Some((rest, r)) => Some((seq![c] + rest, r)),
                None => None,
            }
        } else {
            Some((seq![c], q))
        },
        None => None,
    }
}

/// Terms joined by `AND`, from `p` on.
pub open spec fn parse_conjunction(ts: Seq<TokenView>, p: int) -> Option<(Seq<TermView>, int)>
    decreases ts.len() - p,
{
    match parse_term_at(ts, p) {
        Some((t, q)) => if p < q && tok(ts, q) == Some(TokenView::And) {
            match parse_conjunction(ts, q + 1) {
                Some((rest, r)) => Some((seq![t] + rest, r)),
                None => None,
            }
        } else {
            Some((seq![t], q))
        },
        None => None,
    }
}

/// The fresh aggregate that a function name asks for over a field.
pub open spec fn aggregate_of(name: Seq<char>, field: Seq<char>) -> Option<AggregationView> {
    let u = upper_text(name);
    if u == seq!['M', 'A', 'X'] {
        Some(AggregationView::Max((field, None)))
    } else if u == seq!['M', 'I', 'N'] {
        Some(AggregationView::Min((field, None)))
    } else if u == seq!['C', 'O', 'U', 'N', 'T'] {
        Some(AggregationView::Count((field, 0i32, None)))
    } else if u == seq!['S', 'U', 'M'] {
        Some(AggregationView::Sum((field, 0i64, false)))
    } else if u == seq!['A', 'V', 'G'] {
        Some(AggregationView::Avg((field, 0i64, 0i32)))
    } else {
        None
    }
}

/// One item of a select list: the name it is output under, the computed
/// field it adds, and the aggregate it asks for.
pub type ItemView = (Seq<char>, Option<(ExprView, Seq<char>)>, Option<AggregationView>);

/// The aggregate called at `p`, as in `SUM(f)`, with the field it reads.
pub open spec fn aggregate_call(ts: Seq<TokenView>, p: int) -> Option<(AggregationView, Seq<char>)> {
    match (ident_at(ts, p), ident_at(ts, p + 2)) {
        (Some(n), Some(f)) => if tok(ts, p + 1) == Some(TokenView::LParen) && tok(ts, p + 3)
            == Some(TokenView::RParen) {
            match aggregate_of(n, f) {
                Some(a) => Some((a, f)),
                None => None,
            }
        } else {
            None
        },
        _ => None,
    }
}

/// An item of a select list at `p`: an aggregate call or an expression,
/// either with `AS` and a name; an expression without a name must be a field.
pub open spec fn parse_item(ts: Seq<TokenView>, p: int) -> Option<(ItemView, int)> {
    match aggregate_call(ts, p) {
        Some((a, f)) => if kw(ts, p + 4, kw_as()) {
            match ident_at(ts, p + 5) {
                Some(al) => Some(((al, Some((ExprView::Field(f), al)), Some(a)), p + 6)),
                None => None,
            }
        } else {
            Some(((f, None, Some(a)), p + 4))
        },
        None => match parse_expr(ts, p) {
            Some((e, q)) => if kw(ts, q, kw_as()) {
                match ident_at(ts, q + 1) {
                    Some(al) => Some(((al, Some((e, al)), None), q + 2)),
                    None => None,
                }
            } else {
                match e {
                    ExprView::Field(x) => Some(((x, None, None), q)),
                    _ => None,
                }
            },
            None => None,
        },
    }
}

/// The items of a select list, separated by commas, from `p` on.
pub open spec fn parse_items(ts: Seq<TokenView>, p: int) -> Option<(Seq<ItemView>, int)>
    decreases ts.len() - p,
{
    match parse_item(ts, p) {
        Some((it, q)) => if p < q && tok(ts, q) == Some(TokenView::Comma) {
            match parse_items(ts, q + 1) {
                Some((rest, r)) => Some((seq![it] + rest, r)),
                None => None,
            }
        } else {
            Some((seq![it], q))
        },
        None => None,
    }
}

/// The names the items are output under.
pub open spec fn item_names(its: Seq<ItemView>) -> Seq<Seq<char>> {
    its.map_values(|it: ItemView| it.0)
}

/// The computed fields the items add, in order.
pub open spec fn item_extends(its: Seq<ItemView>) -> Seq<(ExprView, Seq<char>)>
    decreases its.len(),
{
    if its.len() == 0 {
        Seq::empty()
    } else {
        let rest = item_extends(its.drop_last());
        match its.last().1 {
            Some(x) => rest.push(x),
            None => rest,
        }
    }
}

/// The aggregates the items ask for, in order.
pub open spec fn item_aggregates(its: Seq<ItemView>) -> Seq<AggregationView>
    decreases its.len(),
{
    if its.len() == 0 {
        Seq::empty()
    } else {
        let rest = item_aggregates(its.drop_last());
        match its.last().2 {
            Some(a) => rest.push(a),
            None => rest,
        }
    }
}

/// A select list at `p`: `*`, or items.
pub open spec fn parse_selection(ts: Seq<TokenView>, p: int) -> Option<(Option<Seq<ItemView>>, int)> {
    if tok(ts, p) == Some(TokenView::Star) {
        Some((None, p + 1))
    } else {
        match parse_items(ts, p) {
            Some((its, q)) => Some((Some(its), q)),
            None => None,
        }
    }
}

/// An optional `WHERE` clause at `p`.
pub open spec fn parse_where(ts: Seq<TokenView>, p: int) -> Option<(Option<Seq<TermView>>, int)> {
    if kw(ts, p, kw_where()) {
        match parse_conjunction(ts, p + 1) {
            Some((c, q)) => Some((Some(c), q)),
            None => None,
        }
    } else {
        Some((None, p))
    }
}

/// An optional clause `<first> BY` and names, at `p`.
pub open spec fn parse_by(ts: Seq<TokenView>, p: int, first: Seq<char>) -> Option<
    (Option<Seq<Seq<char>>>, int),
> {
    if kw(ts, p, first) && kw(ts, p + 1, kw_by()) {
        match parse_names(ts, p + 2) {
            Some((ns, q)) => Some((Some(ns), q)),
            None => None,
        }
    } else {
        Some((None, p))
    }
}

/// The query that the parts of a `SELECT` make.
pub open spec fn query_of(
    selection: Option<Seq<ItemView>>,
    tables: Seq<Seq<char>>,
    predicate: Option<Seq<TermView>>,
    group_by: Option<Seq<Seq<char>>>,
    order_by: Option<Seq<Seq<char>>>,
) -> QueryView {
    match selection {
        None => QueryView {
            fields: None,
            tables,
            predicate,
            group_by,
            order_by,
            extend_fields: Seq::empty(),
            aggregation_functions: Seq::empty(),
        },
        Some(its) => QueryView {
            fields: Some(item_names(its)),
            tables,
            predicate,
            group_by,
            order_by,
            extend_fields: item_extends(its),
            aggregation_functions: item_aggregates(its),
        },
    }
}

/// A query at `p`: `SELECT` list `FROM` tables, then optional `WHERE`,
/// `GROUP BY` and `ORDER BY` clauses.
pub open spec fn parse_query(ts: Seq<TokenView>, p: int) -> Option<(QueryView, int)> {
    if !kw(ts, p, kw_select()) {
        None
    } else {
        match parse_selection(ts, p + 1) {
            None => None,
            Some((sel, q)) => if !kw(ts, q, kw_from()) {
                None
            } else {
                match parse_names(ts, q + 1) {
                    None => None,
                    Some((tables, r)) => match parse_where(ts, r) {
                        None => None,
                        Some((pred, r2)) => match parse_by(ts, r2, kw_group()) {
                            None => None,
                            Some((g, r3)) => match parse_by(ts, r3, kw_order()) {
                                None => None,
                                Some((o, r4)) => Some((query_of(sel, tables, pred, g, o), r4)),
                            },
                        },
                    },
                }
            },
        }
    }
}

/// `INSERT INTO t (fields) VALUES (constants)` at `p`.
pub open spec fn parse_insert(ts: Seq<TokenView>, p: int) -> Option<(UpdateCommandView, int)> {
    if kw(ts, p, kw_insert()) && kw(ts, p + 1, kw_into()) && tok(ts, p + 3) == Some(
        TokenView::LParen,
    ) {
        match (ident_at(ts, p + 2), parse_names(ts, p + 4)) {
            (Some(t), Some((fs, q))) => if tok(ts, q) == Some(TokenView::RParen) && kw(
                ts,
                q + 1,
                kw_values(),
            ) && tok(ts, q + 2) == Some(TokenView::LParen) {
                match parse_constants(ts, q + 3) {
                    Some((vs, r)) => if tok(ts, r) == Some(TokenView::RParen) {
                        Some((UpdateCommandView::Insert(t, fs, vs), r + 1))
                    } else {
                        None
                    },
                    None => None,
                }
            } else {
                None
            },
            _ => None,
        }
    } else {
        None
    }
}

/// `DELETE FROM t` and an optional `WHERE` clause, at `p`.
pub open spec fn parse_delete(ts: Seq<TokenView>, p: int) -> Option<(UpdateCommandView, int)> {
    if kw(ts, p, kw_delete()) && kw(ts, p + 1, kw_from()) {
        match ident_at(ts, p + 2) {
            Some(t) => match parse_where(ts, p + 3) {
                Some((pred, q)) => Some((UpdateCommandView::Delete(t, pred), q)),
                None => None,
            },
            None => None,
        }
    } else {
        None
    }
}

/// `MODIFY t SET f = expression` and an optional `WHERE` clause, at `p`.
pub open spec fn parse_modify(ts: Seq<TokenView>, p: int) -> Option<(UpdateCommandView, int)> {
    if kw(ts, p, kw_modify()) && kw(ts, p + 2, kw_set()) && tok(ts, p + 4) == Some(TokenView::Eq) {
        match (ident_at(ts, p + 1), ident_at(ts, p + 3), parse_expr(ts, p + 5)) {
            (Some(t), Some(f), Some((e, q))) => match parse_where(ts, q) {
                Some((pred, r)) => Some((UpdateCommandView::Modify(t, f, e, pred), r)),
                None => None,
            },
            _ => None,
        }
    } else {
        None
    }
}

/// A field definition at `p`: a name and `I32` or `VARCHAR(n)`.
pub open spec fn parse_definition(ts: Seq<TokenView>, p: int) -> Option<((Seq<char>, Spec), int)> {
    match ident_at(ts, p) {
        Some(f) => if kw(ts, p + 1, kw_i32()) {
            Some(((f, Spec::I32), p + 2))
        } else if kw(ts, p + 1, kw_varchar()) && tok(ts, p + 2) == Some(TokenView::LParen) && tok(
            ts,
            p + 4,
        ) == Some(TokenView::RParen) {
            match tok(ts, p + 3) {
                Some(TokenView::Int(n)) => if n >= 0 {
                    Some(((f, Spec::VarChar(n as usize)), p + 5))
                } else {
                    None
                },
                _ => None,
            }
        } else {
            None
        },
        None => None,
    }
}

/// Field definitions separated by commas, from `p` on.
pub open spec fn parse_definitions(ts: Seq<TokenView>, p: int) -> Option<
    (Seq<(Seq<char>, Spec)>, int),
>
    decreases ts.len() - p,
{
    match parse_definition(ts, p) {
        Some((d, q)) => if p < q && tok(ts, q) == Some(TokenView::Comma) {
            match parse_definitions(ts, q + 1) {
                Some((rest, r)) => Some((seq![d] + rest, r)),
                None => None,
            }
        } else {
            Some((seq![d], q))
        },
        None => None,
    }
}

/// `CREATE TABLE`, `CREATE VIEW` or `CREATE INDEX` at `p`.
pub open spec fn parse_create(ts: Seq<TokenView>, p: int) -> Option<(UpdateCommandView, int)> {
    if !kw(ts, p, kw_create()) {
        None
    } else if kw(ts, p + 1, kw_table()) {
        match ident_at(ts, p + 2) {
            Some(t) => if tok(ts, p + 3) == Some(TokenView::LParen) {
                match parse_definitions(ts, p + 4) {
                    Some((ds, q)) => if tok(ts, q) == Some(TokenView::RParen) {
                        Some((UpdateCommandView::Create(CreateCommandView::Table(t, ds)), q + 1))
                    } else {
                        None
                    },
                    None => None,
                }
            } else {
                None
            },
            None => None,
        }
    } else if kw(ts, p + 1, kw_view()) {
        match ident_at(ts, p + 2) {
            Some(v) => if kw(ts, p + 3, kw_as()) {
                match parse_query(ts, p + 4) {
                    Some((qv, q)) => Some(
                        (UpdateCommandView::Create(CreateCommandView::View(v, qv)), q),
                    ),
                    None => None,
                }
            } else {
                None
            },
            None => None,
        }
    } else if kw(ts, p + 1, kw_index()) {
        match (ident_at(ts, p + 2), ident_at(ts, p + 4), ident_at(ts, p + 6)) {
            (Some(i), Some(t), Some(f)) => if kw(ts, p + 3, kw_on()) && tok(ts, p + 5) == Some(
                TokenView::LParen,
            ) && tok(ts, p + 7) == Some(TokenView::RParen) {
                Some((UpdateCommandView::Create(CreateCommandView::Index(i, t, f)), p + 8))
            } else {
                None
            },
            _ => None,
        }
    } else {
        None
    }
}

/// A command that changes the database, at `p`.
pub open spec fn parse_update(ts: Seq<TokenView>, p: int) -> Option<(UpdateCommandView, int)> {
    if kw(ts, p, kw_insert()) {
        parse_insert(ts, p)
    } else if kw(ts, p, kw_delete()) {
        parse_delete(ts, p)
    } else if kw(ts, p, kw_modify()) {
        parse_modify(ts, p)
    } else {
        parse_create(ts, p)
    }
}

/// The statement that all the tokens form: a query if they start with
/// `SELECT`, else a command.
pub open spec fn parse_statement(ts: Seq<TokenView>) -> Option<StatementView> {
    let r = if kw(ts, 0, kw_select()) {
        match parse_query(ts, 0) {
            Some((q, e)) => Some((StatementView::Query(q), e)),
            None => None,
        }
    } else {
        match parse_update(ts, 0) {
            Some((u, e)) => Some((StatementView::UpdateCommand(u), e)),
            None => None,
        }
    };
    match r {
        Some((s, e)) => if e == ts.len() {
            Some(s)
        } else {
            None
        },
        None => None,
    }
}


/// `SELECT * FROM` a list of tables queries every field of those tables,
/// with no condition, grouping or ordering; `DELETE FROM` a table with no
/// `WHERE` clause deletes every record of it. The keywords may be written in
/// any case.
pub proof fn lemma_plain_statements(sel: Seq<char>, from: Seq<char>, del: Seq<char>, t1: Seq<char>, t2: Seq<char>)
    requires
        upper_text(sel) == kw_select(),
        upper_text(from) == kw_from(),
        upper_text(del) == kw_delete(),
    ensures
        parse_statement(seq![
            TokenView::Ident(sel),
            TokenView::Star,
            TokenView::Ident(from),
            TokenView::Ident(t1),
            TokenView::Comma,
            TokenView::Ident(t2),
        ]) == Some(StatementView::Query(QueryView {
            fields: None,
            tables: seq![t1, t2],
            predicate: None,
            group_by: None,
            order_by: None,
            extend_fields: Seq::empty(),
            aggregation_functions: Seq::empty(),
        })),
        parse_statement(seq![TokenView::Ident(del), TokenView::Ident(from), TokenView::Ident(t1)])
            == Some(StatementView::UpdateCommand(UpdateCommandView::Delete(t1, None))),
{
    let ts = seq![
        TokenView::Ident(sel),
        TokenView::Star,
        TokenView::Ident(from),
        TokenView::Ident(t1),
        TokenView::Comma,
        TokenView::Ident(t2),
    ];
    assert(kw(ts, 0, kw_select()));
    assert(kw(ts, 2, kw_from()));
    assert(parse_selection(ts, 1) == Some((None::<Seq<ItemView>>, 2int)));
    assert(parse_names(ts, 5) == Some((seq![t2], 6int)));
    assert(parse_names(ts, 3) == Some((seq![t1] + seq![t2], 6int)));
    assert(seq![t1] + seq![t2] =~= seq![t1, t2]);
    assert(!kw(ts, 6, kw_where()));
    assert(!kw(ts, 6, kw_group()));
    assert(!kw(ts, 6, kw_order()));
    assert(parse_where(ts, 6) == Some((None::<Seq<TermView>>, 6int)));
    let d = seq![TokenView::Ident(del), TokenView::Ident(from), TokenView::Ident(t1)];
    assert(kw(d, 0, kw_delete()));
    assert(kw(d, 1, kw_from()));
    assert(!kw(d, 0, kw_select())) by {
        assert(kw_delete() != kw_select()) by {
            assert(kw_delete()[0] != kw_select()[0]);
        }
    }
    assert(!kw(d, 3, kw_where()));
    assert(parse_delete(d, 0) == Some((UpdateCommandView::Delete(t1, None), 3int)));
}

fn tok_at(ts: &Vec<Token>, p: usize) -> (r: Option<&Token>)
    ensures
        match r {
            Some(t) => p < ts@.len() && tok(token_views(ts@), p as int) == Some(t@),
            None => tok(token_views(ts@), p as int).is_none(),
        },
{
    if p < ts.len() {
        Some(&ts[p])
    } else {
        None
    }
}

fn comma_at(ts: &Vec<Token>, p: usize) -> (r: bool)
    ensures
        r == (tok(token_views(ts@), p as int) == Some(TokenView::Comma)),
        r ==> p < ts@.len(),
{
    match tok_at(ts, p) {
        Some(Token::Comma) => true,
        _ => false,
    }
}

fn lparen_at(ts: &Vec<Token>, p: usize) -> (r: bool)
    ensures
        r == (tok(token_views(ts@), p as int) == Some(TokenView::LParen)),
        r ==> p < ts@.len(),
{
    match tok_at(ts, p) {
        Some(Token::LParen) => true,
        _ => false,
    }
}

fn rparen_at(ts: &Vec<Token>, p: usize) -> (r: bool)
    ensures
        r == (tok(token_views(ts@), p as int) == Some(TokenView::RParen)),
        r ==> p < ts@.len(),
{
    match tok_at(ts, p) {
        Some(Token::RParen) => true,
        _ => false,
    }
}

fn star_at(ts: &Vec<Token>, p: usize) -> (r: bool)
    ensures
        r == (tok(token_views(ts@), p as int) == Some(TokenView::Star)),
        r ==> p < ts@.len(),
{
    match tok_at(ts, p) {
        Some(Token::Star) => true,
        _ => false,
    }
}

fn and_at(ts: &Vec<Token>, p: usize) -> (r: bool)
    ensures
        r == (tok(token_views(ts@), p as int) == Some(TokenView::And)),
        r ==> p < ts@.len(),
{
    match tok_at(ts, p) {
        Some(Token::And) => true,
        _ => false,
    }
}

fn eq_at(ts: &Vec<Token>, p: usize) -> (r: bool)
    ensures
        r == (tok(token_views(ts@), p as int) == Some(TokenView::Eq)),
        r ==> p < ts@.len(),
{
    match tok_at(ts, p) {
        Some(Token::Eq) => true,
        _ => false,
    }
}

fn same_word(x: &String, w: &[char]) -> (r: bool)
    ensures
        r == (upper_text(x@) == w@),
{
    let cs = chars_of(x.as_str());
    let up = upper_chars(&cs);
    if up.len() != w.len() {
        return false;
    }
    let mut i: usize = 0;
    while i < w.len()
        invariant
            i <= w@.len(),
            up@.len() == w@.len(),
            up@ == upper_text(x@),
            forall|k: int| 0 <= k < i ==> up@[k] == w@[k],
        decreases w@.len() - i,
    {
        if up[i] != w[i] {
            return false;
        }
        i = i + 1;
    }
    assert(up@ =~= w@);
    true
}

fn keyword_at(ts: &Vec<Token>, p: usize, w: &[char]) -> (r: bool)
    ensures
        r == kw(token_views(ts@), p as int, w@),
        r ==> p < ts@.len(),
{
    match tok_at(ts, p) {
        Some(Token::Ident(x)) => same_word(x, w),
        _ => false,
    }
}

/// The model of an optional name.
pub open spec fn opt_text(r: Option<String>) -> Option<Seq<char>> {
    match r {
        Some(s) => Some(s@),
        None => None,
    }
}

fn name_at(ts: &Vec<Token>, p: usize) -> (r: Option<String>)
    ensures
        opt_text(r) == ident_at(token_views(ts@), p as int),
        r.is_some() ==> p < ts@.len(),
{
    match tok_at(ts, p) {
        Some(Token::Ident(x)) => Some(x.clone()),
        _ => None,
    }
}

/// The model of an optional list of names read up to a position.
pub open spec fn names_parsed(r: Option<(Vec<String>, usize)>) -> Option<(Seq<Seq<char>>, int)> {
    match r {
        Some((ns, q)) => Some((names_view(ns@), q as int)),
        None => None,
    }
}

fn exec_parse_names(ts: &Vec<Token>, p: usize) -> (r: Option<(Vec<String>, usize)>)
    ensures
        names_parsed(r) == parse_names(token_views(ts@), p as int),
    decreases ts@.len() - p,
{
    let _n = ts.len();
    match name_at(ts, p) {
        Some(x) => if comma_at(ts, p + 1) {
            match exec_parse_names(ts, p + 2) {
                Some((rest, q)) => {
                    let mut all = rest;
                    let ghost before = all@;
                    all.insert(0, x);
                    assert(names_view(all@) =~= seq![x@] + names_view(before));
                    Some((all, q))
                },
                None => None,
            }
        } else {
            let mut one: Vec<String> = Vec::new();
            one.push(x);
            assert(names_view(one@) =~= seq![one@[0]@]);
            Some((one, p + 1))
        },
        None => None,
    }
}

/// The model of an optional constant read up to a position.
pub open spec fn constant_parsed(r: Option<(Value, usize)>) -> Option<(ValueView, int)> {
    match r {
        Some((c, q)) => Some((c@, q as int)),
        None => None,
    }
}

fn exec_parse_constant(ts: &Vec<Token>, p: usize) -> (r: Option<(Value, usize)>)
    ensures
        constant_parsed(r) == parse_constant(token_views(ts@), p as int),
        r matches Some((_, q)) ==> p < q <= ts@.len(),
{
    let _n = ts.len();
    match tok_at(ts, p) {
        Some(Token::Int(i)) => Some((Value::I32(*i), p + 1)),
        Some(Token::Str(s)) => Some((Value::String(s.clone()), p + 1)),
        Some(Token::Null) => Some((Value::Null, p + 1)),
        Some(Token::Minus) => match tok_at(ts, p + 1) {
            Some(Token::Int(i)) => if *i >= 0 {
                Some((Value::I32(-*i), p + 2))
            } else {
                None
            },
            _ => None,
        },
        _ => None,
    }
}

/// The model of an optional list of constants read up to a position.
pub open spec fn constants_parsed(r: Option<(Vec<Value>, usize)>) -> Option<(Seq<ValueView>, int)> {
    match r {
        Some((vs, q)) => Some((values_view(vs@), q as int)),
        None => None,
    }
}

fn exec_parse_constants(ts: &Vec<Token>, p: usize) -> (r: Option<(Vec<Value>, usize)>)
    ensures
        constants_parsed(r) == parse_constants(token_views(ts@), p as int),
    decreases ts@.len() - p,
{
    let _n = ts.len();
    match exec_parse_constant(ts, p) {
        Some((c, q)) => if p < q && comma_at(ts, q) {
            match exec_parse_constants(ts, q + 1) {
                Some((rest, r)) => {
                    let mut all = rest;
                    let ghost before = all@;
                    all.insert(0, c);
                    assert(values_view(all@) =~= seq![c@] + values_view(before));
                    Some((all, r))
                },
                None => None,
            }
        } else {
            let mut one: Vec<Value> = Vec::new();
            one.push(c);
            assert(values_view(one@) =~= seq![one@[0]@]);
            Some((one, q))
        },
        None => None,
    }
}

/// The model of an optional conjunction read up to a position.
pub open spec fn terms_parsed(r: Option<(Vec<Term>, usize)>) -> Option<(Seq<TermView>, int)> {
    match r {
        Some((ts, q)) => Some((term_views(ts@), q as int)),
        None => None,
    }
}

fn exec_parse_conjunction(ts: &Vec<Token>, p: usize) -> (r: Option<(Vec<Term>, usize)>)
    ensures
        terms_parsed(r) == parse_conjunction(token_views(ts@), p as int),
    decreases ts@.len() - p,
{
    let _n = ts.len();
    match exec_parse_term_at(ts, p) {
        Some((t, q)) => if p < q && and_at(ts, q) {
            match exec_parse_conjunction(ts, q + 1) {
                Some((rest, r)) => {
                    let mut all = rest;
                    let ghost before = all@;
                    all.insert(0, t);
                    assert(term_views(all@) =~= seq![t@] + term_views(before));
                    Some((all, r))
                },
                None => None,
            }
        } else {
            let mut one: Vec<Term> = Vec::new();
            one.push(t);
            assert(term_views(one@) =~= seq![one@[0]@]);
            Some((one, q))
        },
        None => None,
    }
}


fn make_aggregate(name: &String, field: &String) -> (r: Option<AggregationFn>)
    ensures
        match r {
            Some(a) => aggregate_of(name@, field@) == Some(a@),
            None => aggregate_of(name@, field@).is_none(),
        },
{
    if same_word(name, &['M', 'A', 'X']) {
        Some(AggregationFn::Max(MaxFn::new(field.as_str())))
    } else if same_word(name, &['M', 'I', 'N']) {
        Some(AggregationFn::Min(MinFn::new(field.as_str())))
    } else if same_word(name, &['C', 'O', 'U', 'N', 'T']) {
        Some(AggregationFn::Count(CountFn::new(field.as_str())))
    } else if same_word(name, &['S', 'U', 'M']) {
        Some(AggregationFn::Sum(SumFn::new(field.as_str())))
    } else if same_word(name, &['A', 'V', 'G']) {
        Some(AggregationFn::Avg(AvgFn::new(field.as_str())))
    } else {
        None
    }
}

/// The model of an optional aggregate call.
pub open spec fn call_parsed(r: Option<(AggregationFn, String)>) -> Option<(AggregationView, Seq<char>)> {
    match r {
        Some((a, f)) => Some((a@, f@)),
        None => None,
    }
}

fn exec_aggregate_call(ts: &Vec<Token>, p: usize) -> (r: Option<(AggregationFn, String)>)
    ensures
        call_parsed(r) == aggregate_call(token_views(ts@), p as int),
        r.is_some() ==> p + 3 < ts@.len(),
{
    let _n = ts.len();
    let n = match name_at(ts, p) {
        Some(n) => n,
        None => {
            return None;
        },
    };
    if !lparen_at(ts, p + 1) {
        return None;
    }
    let f = match name_at(ts, p + 2) {
        Some(f) => f,
        None => {
            return None;
        },
    };
    if !rparen_at(ts, p + 3) {
        return None;
    }
    match make_aggregate(&n, &f) {
        Some(a) => Some((a, f)),
        None => None,
    }
}

/// An item of a select list as the parser builds it.
pub type Item = (String, Option<(Expression, String)>, Option<AggregationFn>);

/// The model of an item of a select list.
pub open spec fn item_view(it: Item) -> ItemView {
    (
        it.0@,
        match it.1 {
            Some((e, a)) => Some((e@, a@)),
            None => None,
        },
        match it.2 {
            Some(g) => Some(g@),
            None => None,
        },
    )
}

/// The model of an optional item read up to a position.
pub open spec fn item_parsed(r: Option<(Item, usize)>) -> Option<(ItemView, int)> {
    match r {
        Some((it, q)) => Some((item_view(it), q as int)),
        None => None,
    }
}

fn exec_parse_item(ts: &Vec<Token>, p: usize) -> (r: Option<(Item, usize)>)
    ensures
        item_parsed(r) == parse_item(token_views(ts@), p as int),
{
    let _n = ts.len();
    match exec_aggregate_call(ts, p) {
        Some((a, f)) => {
            if keyword_at(ts, p + 4, &['A', 'S']) {
                match name_at(ts, p + 5) {
                    Some(al) => {
                        let al2 = al.clone();
                        Some(((al, Some((Expression::Field(f), al2)), Some(a)), p + 6))
                    },
                    None => None,
                }
            } else {
                Some(((f, None, Some(a)), p + 4))
            }
        },
        None => match exec_parse_expr(ts, p) {
            Some((e, q)) => {
                if keyword_at(ts, q, &['A', 'S']) {
                    match name_at(ts, q + 1) {
                        Some(al) => {
                            let al2 = al.clone();
                            Some(((al, Some((e, al2)), None), q + 2))
                        },
                        None => None,
                    }
                } else {
                    match e {
                        Expression::Field(x) => Some(((x, None, None), q)),
                        _ => None,
                    }
                }
            },
            None => None,
        },
    }
}

/// The items read so far put in front of the reading of the rest.
pub open spec fn after_items(done: Seq<ItemView>, rest: Option<(Seq<ItemView>, int)>) -> Option<
    (Seq<ItemView>, int),
> {
    match rest {
        Some((its, q)) => Some((done + its, q)),
        None => None,
    }
}

/// A select list as the parser builds it: the output names, the computed
/// fields and the aggregates, in order.
pub type Selection = (Vec<String>, Vec<(Expression, String)>, Vec<AggregationFn>);

fn exec_parse_items(ts: &Vec<Token>, p0: usize) -> (r: Option<(Selection, Ghost<Seq<ItemView>>, usize)>)
    ensures
        match r {
            Some((sel, its, q)) => parse_items(token_views(ts@), p0 as int) == Some((its@, q as int))
                && names_view(sel.0@) == item_names(its@) && extends_view(sel.1@) == item_extends(
                its@,
            ) && aggs_view(sel.2@) == item_aggregates(its@),
            None => parse_items(token_views(ts@), p0 as int).is_none(),
        },
{
    let _n = ts.len();
    if p0 >= ts.len() {
        return None;
    }
    let ghost v = token_views(ts@);
    let mut names: Vec<String> = Vec::new();
    let mut exts: Vec<(Expression, String)> = Vec::new();
    let mut aggs: Vec<AggregationFn> = Vec::new();
    let ghost mut done: Seq<ItemView> = Seq::empty();
    let mut p = p0;
    proof {
        match parse_items(v, p0 as int) {
            Some((its, q)) => {
                assert(done + its =~= its);
            },
            None => {},
        }
        assert(names_view(names@) =~= item_names(done));
        assert(extends_view(exts@) =~= item_extends(done));
        assert(aggs_view(aggs@) =~= item_aggregates(done));
    }
    loop
        invariant
            v == token_views(ts@),
            p <= ts@.len() <= usize::MAX,
            parse_items(v, p0 as int) == after_items(done, parse_items(v, p as int)),
            names_view(names@) == item_names(done),
            extends_view(exts@) == item_extends(done),
            aggs_view(aggs@) == item_aggregates(done),
        decreases ts@.len() - p,
    {
        match exec_parse_item(ts, p) {
            Some((it, q)) => {
                let ghost iv = item_view(it);
                let ghost before = done;
                let ghost names_before = names@;
                let ghost exts_before = exts@;
                let ghost aggs_before = aggs@;
                let (name, ext, agg) = it;
                let ghost name_g = name;
                names.push(name);
                match ext {
                    Some(x) => {
                        exts.push(x);
                    },
                    None => {},
                }
                match agg {
                    Some(a) => {
                        aggs.push(a);
                    },
                    None => {},
                }
                proof {
                    done = before.push(iv);
                    assert(done.drop_last() =~= before);
                    crate::seqs::lemma_map_push(names_before, name_g, |s: String| s@);
                    crate::seqs::lemma_map_push(before, iv, |it: ItemView| it.0);
                    assert(names_view(names@) =~= item_names(done));
                    assert(extends_view(exts@) =~= item_extends(done));
                    assert(aggs_view(aggs@) =~= item_aggregates(done));
                }
                if p < q && comma_at(ts, q) {
                    proof {
                        match parse_items(v, q + 1) {
                            Some((rest, r)) => {
                                assert(before + (seq![iv] + rest) =~= done + rest);
                            },
                            None => {},
                        }
                    }
                    p = q + 1;
                } else {
                    proof {
                        assert(before + seq![iv] =~= done);
                    }
                    return Some(((names, exts, aggs), Ghost(done), q));
                }
            },
            None => {
                return None;
            },
        }
    }
}


/// The model of an optional `WHERE` clause read up to a position.
pub open spec fn where_parsed(r: Option<(Option<Predicate>, usize)>) -> Option<(Option<Seq<TermView>>, int)> {
    match r {
        Some((p, q)) => Some((opt_predicate_view(p), q as int)),
        None => None,
    }
}

fn exec_parse_where(ts: &Vec<Token>, p: usize) -> (r: Option<(Option<Predicate>, usize)>)
    ensures
        where_parsed(r) == parse_where(token_views(ts@), p as int),
{
    let _n = ts.len();
    if keyword_at(ts, p, &['W', 'H', 'E', 'R', 'E']) {
        match exec_parse_conjunction(ts, p + 1) {
            Some((terms, q)) => Some((Some(Predicate::new(terms)), q)),
            None => None,
        }
    } else {
        Some((None, p))
    }
}

/// The model of an optional `BY` clause read up to a position.
pub open spec fn by_parsed(r: Option<(Option<Vec<String>>, usize)>) -> Option<(Option<Seq<Seq<char>>>, int)> {
    match r {
        Some((ns, q)) => Some((opt_names_view(ns), q as int)),
        None => None,
    }
}

fn exec_parse_by(ts: &Vec<Token>, p: usize, first: &[char]) -> (r: Option<(Option<Vec<String>>, usize)>)
    ensures
        by_parsed(r) == parse_by(token_views(ts@), p as int, first@),
{
    let _n = ts.len();
    if keyword_at(ts, p, first) && keyword_at(ts, p + 1, &['B', 'Y']) {
        match exec_parse_names(ts, p + 2) {
            Some((ns, q)) => Some((Some(ns), q)),
            None => None,
        }
    } else {
        Some((None, p))
    }
}

/// The model of an optional query read up to a position.
pub open spec fn query_parsed(r: Option<(QueryData, usize)>) -> Option<(QueryView, int)> {
    match r {
        Some((q, e)) => Some((q@, e as int)),
        None => None,
    }
}

fn exec_parse_query(ts: &Vec<Token>, p: usize) -> (r: Option<(QueryData, usize)>)
    ensures
        query_parsed(r) == parse_query(token_views(ts@), p as int),
{
    let _n = ts.len();
    let ghost v = token_views(ts@);
    if !keyword_at(ts, p, &['S', 'E', 'L', 'E', 'C', 'T']) {
        return None;
    }
    let ghost sel_model: Option<Seq<ItemView>>;
    let (selection, q) = if star_at(ts, p + 1) {
        proof {
            sel_model = None;
        }
        (None, p + 2)
    } else {
        match exec_parse_items(ts, p + 1) {
            Some((sel, its, q)) => {
                proof {
                    sel_model = Some(its@);
                }
                (Some(sel), q)
            },
            None => {
                return None;
            },
        }
    };
    assert(parse_selection(v, p + 1) == Some((sel_model, q as int)));
    if !keyword_at(ts, q, &['F', 'R', 'O', 'M']) {
        return None;
    }
    let (tables, r) = match exec_parse_names(ts, q + 1) {
        Some(x) => x,
        None => {
            return None;
        },
    };
    let (predicate, r2) = match exec_parse_where(ts, r) {
        Some(x) => x,
        None => {
            return None;
        },
    };
    let (group_by, r3) = match exec_parse_by(ts, r2, &['G', 'R', 'O', 'U', 'P']) {
        Some(x) => x,
        None => {
            return None;
        },
    };
    let (order_by, r4) = match exec_parse_by(ts, r3, &['O', 'R', 'D', 'E', 'R']) {
        Some(x) => x,
        None => {
            return None;
        },
    };
    let query = match selection {
        None => {
            let e: Vec<(Expression, String)> = Vec::new();
            let a: Vec<AggregationFn> = Vec::new();
            assert(extends_view(e@) =~= Seq::empty());
            assert(aggs_view(a@) =~= Seq::empty());
            QueryData::new_full(None, tables, predicate, group_by, order_by, e, a)
        },
        Some((names, exts, aggs)) => QueryData::new_full(
            Some(names),
            tables,
            predicate,
            group_by,
            order_by,
            exts,
            aggs,
        ),
    };
    Some((query, r4))
}

/// The model of an optional command read up to a position.
pub open spec fn update_parsed(r: Option<(UpdateCommand, usize)>) -> Option<(UpdateCommandView, int)> {
    match r {
        Some((u, q)) => Some((u@, q as int)),
        None => None,
    }
}

fn exec_parse_insert(ts: &Vec<Token>, p: usize) -> (r: Option<(UpdateCommand, usize)>)
    ensures
        update_parsed(r) == parse_insert(token_views(ts@), p as int),
{
    let _n = ts.len();
    if !(keyword_at(ts, p, &['I', 'N', 'S', 'E', 'R', 'T']) && keyword_at(
        ts,
        p + 1,
        &['I', 'N', 'T', 'O'],
    )) {
        return None;
    }
    let t = match name_at(ts, p + 2) {
        Some(t) => t,
        None => {
            return None;
        },
    };
    if !lparen_at(ts, p + 3) {
        return None;
    }
    let (fields, q) = match exec_parse_names(ts, p + 4) {
        Some(x) => x,
        None => {
            return None;
        },
    };
    if !(rparen_at(ts, q) && keyword_at(ts, q + 1, &['V', 'A', 'L', 'U', 'E', 'S']) && lparen_at(
        ts,
        q + 2,
    )) {
        return None;
    }
    let (values, r) = match exec_parse_constants(ts, q + 3) {
        Some(x) => x,
        None => {
            return None;
        },
    };
    if !rparen_at(ts, r) {
        return None;
    }
    Some((UpdateCommand::Insert(t, fields, values), r + 1))
}

fn exec_parse_delete(ts: &Vec<Token>, p: usize) -> (r: Option<(UpdateCommand, usize)>)
    ensures
        update_parsed(r) == parse_delete(token_views(ts@), p as int),
{
    let _n = ts.len();
    if !(keyword_at(ts, p, &['D', 'E', 'L', 'E', 'T', 'E']) && keyword_at(
        ts,
        p + 1,
        &['F', 'R', 'O', 'M'],
    )) {
        return None;
    }
    let t = match name_at(ts, p + 2) {
        Some(t) => t,
        None => {
            return None;
        },
    };
    match exec_parse_where(ts, p + 3) {
        Some((pred, q)) => Some((UpdateCommand::Delete(t, pred), q)),
        None => None,
    }
}

fn exec_parse_modify(ts: &Vec<Token>, p: usize) -> (r: Option<(UpdateCommand, usize)>)
    ensures
        update_parsed(r) == parse_modify(token_views(ts@), p as int),
{
    let _n = ts.len();
    if !keyword_at(ts, p, &['M', 'O', 'D', 'I', 'F', 'Y']) {
        return None;
    }
    let t = match name_at(ts, p + 1) {
        Some(t) => t,
        None => {
            return None;
        },
    };
    if !keyword_at(ts, p + 2, &['S', 'E', 'T']) {
        return None;
    }
    let f = match name_at(ts, p + 3) {
        Some(f) => f,
        None => {
            return None;
        },
    };
    if !eq_at(ts, p + 4) {
        return None;
    }
    let (e, q) = match exec_parse_expr(ts, p + 5) {
        Some(x) => x,
        None => {
            return None;
        },
    };
    match exec_parse_where(ts, q) {
        Some((pred, r)) => Some((UpdateCommand::Modify(t, f, e, pred), r)),
        None => None,
    }
}

/// The model of an optional field definition read up to a position.
pub open spec fn definition_parsed(r: Option<(FieldDefinition, usize)>) -> Option<((Seq<char>, Spec), int)> {
    match r {
        Some((d, q)) => Some(((d.name@, d.field_type), q as int)),
        None => None,
    }
}

fn exec_parse_definition(ts: &Vec<Token>, p: usize) -> (r: Option<(FieldDefinition, usize)>)
    ensures
        definition_parsed(r) == parse_definition(token_views(ts@), p as int),
        r matches Some((_, q)) ==> p < q,
{
    let _n = ts.len();
    let f = match name_at(ts, p) {
        Some(f) => f,
        None => {
            return None;
        },
    };
    if keyword_at(ts, p + 1, &['I', '3', '2']) {
        Some((FieldDefinition::new(f, Spec::I32), p + 2))
    } else if keyword_at(ts, p + 1, &['V', 'A', 'R', 'C', 'H', 'A', 'R']) && lparen_at(ts, p + 2) {
        match tok_at(ts, p + 3) {
            Some(Token::Int(n)) => if *n >= 0 && rparen_at(ts, p + 4) {
                let len: usize = *n as usize;
                Some((FieldDefinition::new(f, Spec::VarChar(len)), p + 5))
            } else {
                None
            },
            _ => None,
        }
    } else {
        None
    }
}

/// The model of an optional list of field definitions read up to a position.
pub open spec fn definitions_parsed(r: Option<(Vec<FieldDefinition>, usize)>) -> Option<
    (Seq<(Seq<char>, Spec)>, int),
> {
    match r {
        Some((ds, q)) => Some((definitions_view(ds@), q as int)),
        None => None,
    }
}

fn exec_parse_definitions(ts: &Vec<Token>, p: usize) -> (r: Option<(Vec<FieldDefinition>, usize)>)
    ensures
        definitions_parsed(r) == parse_definitions(token_views(ts@), p as int),
    decreases ts@.len() - p,
{
    let _n = ts.len();
    match exec_parse_definition(ts, p) {
        Some((d, q)) => if p < q && comma_at(ts, q) {
            match exec_parse_definitions(ts, q + 1) {
                Some((rest, r)) => {
                    let mut all = rest;
                    let ghost before = all@;
                    let ghost dv = (d.name@, d.field_type);
                    all.insert(0, d);
                    assert(definitions_view(all@) =~= seq![dv] + definitions_view(before));
                    Some((all, r))
                },
                None => None,
            }
        } else {
            let mut one: Vec<FieldDefinition> = Vec::new();
            one.push(d);
            assert(definitions_view(one@) =~= seq![(one@[0].name@, one@[0].field_type)]);
            Some((one, q))
        },
        None => None,
    }
}

fn exec_parse_create(ts: &Vec<Token>, p: usize) -> (r: Option<(UpdateCommand, usize)>)
    ensures
        update_parsed(r) == parse_create(token_views(ts@), p as int),
{
    let _n = ts.len();
    if !keyword_at(ts, p, &['C', 'R', 'E', 'A', 'T', 'E']) {
        return None;
    }
    if keyword_at(ts, p + 1, &['T', 'A', 'B', 'L', 'E']) {
        let t = match name_at(ts, p + 2) {
            Some(t) => t,
            None => {
                return None;
            },
        };
        if !lparen_at(ts, p + 3) {
            return None;
        }
        match exec_parse_definitions(ts, p + 4) {
            Some((ds, q)) => if rparen_at(ts, q) {
                Some((UpdateCommand::Create(CreateCommand::Table(t, ds)), q + 1))
            } else {
                None
            },
            None => None,
        }
    } else if keyword_at(ts, p + 1, &['V', 'I', 'E', 'W']) {
        let v = match name_at(ts, p + 2) {
            Some(v) => v,
            None => {
                return None;
            },
        };
        if !keyword_at(ts, p + 3, &['A', 'S']) {
            return None;
        }
        match exec_parse_query(ts, p + 4) {
            Some((qd, q)) => Some((UpdateCommand::Create(CreateCommand::View(v, qd)), q)),
            None => None,
        }
    } else if keyword_at(ts, p + 1, &['I', 'N', 'D', 'E', 'X']) {
        let i = match name_at(ts, p + 2) {
            Some(i) => i,
            None => {
                return None;
            },
        };
        if !keyword_at(ts, p + 3, &['O', 'N']) {
            return None;
        }
        let t = match name_at(ts, p + 4) {
            Some(t) => t,
            None => {
                return None;
            },
        };
        if !lparen_at(ts, p + 5) {
            return None;
        }
        let f = match name_at(ts, p + 6) {
            Some(f) => f,
            None => {
                return None;
            },
        };
        if !rparen_at(ts, p + 7) {
            return None;
        }
        Some((UpdateCommand::Create(CreateCommand::Index(i, t, f)), p + 8))
    } else {
        None
    }
}

fn exec_parse_update(ts: &Vec<Token>, p: usize) -> (r: Option<(UpdateCommand, usize)>)
    ensures
        update_parsed(r) == parse_update(token_views(ts@), p as int),
{
    if keyword_at(ts, p, &['I', 'N', 'S', 'E', 'R', 'T']) {
        exec_parse_insert(ts, p)
    } else if keyword_at(ts, p, &['D', 'E', 'L', 'E', 'T', 'E']) {
        exec_parse_delete(ts, p)
    } else if keyword_at(ts, p, &['M', 'O', 'D', 'I', 'F', 'Y']) {
        exec_parse_modify(ts, p)
    } else {
        exec_parse_create(ts, p)
    }
}

/// Parses a whole statement: a query or a command that changes the database.
pub struct StatementParser {}

impl StatementParser {
    /// A parser of statements.
    pub fn new() -> Self {
        StatementParser {  }
    }

    /// Parses the whole text as one statement.
    pub fn parse(&self, text: &str) -> (r: Result<Statement, ParseError>)
        ensures
            result_view(r) == parse_outcome(text@, |ts: Seq<TokenView>| parse_statement(ts)),
    {
        match tokenize(text) {
            None => Err(ParseError::InvalidToken),
            Some(ts) => {
                let parsed = if keyword_at(&ts, 0, &['S', 'E', 'L', 'E', 'C', 'T']) {
                    match exec_parse_query(&ts, 0) {
                        Some((q, e)) => Some((Statement::Query(q), e)),
                        None => None,
                    }
                } else {
                    match exec_parse_update(&ts, 0) {
                        Some((u, e)) => Some((Statement::UpdateCommand(u), e)),
                        None => None,
                    }
                };
                match parsed {
                    Some((st, e)) => if e == ts.len() {
                        Ok(st)
                    } else {
                        Err(ParseError::UnrecognizedToken)
                    },
                    None => Err(ParseError::UnrecognizedToken),
                }
            },
        }
    }
}

} // verus!
