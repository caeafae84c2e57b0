//! Passes backed by Lua functions.

use crate::decimal::push_decimal;
use crate::lua::{owns_function, owns_value, LuaCtx};
use crate::lua_notice::{words_of, LuaNotice, LuaWatch};
use crate::lua_table::{
    call_on_region, field, item_in, offset_field, table_with, tables_in, Field, FieldValue,
    LuaItem, LuaKind,
};
use crate::outcome::{Outcome, OutcomeModel};
use crate::pass::Pass;
use crate::span::Span;
use mlua::{Function, Lua, Table, Value};
use vstd::prelude::*;

verus! {

/// A child region that a Lua pass asks for.
#[derive(Debug)]
pub struct LuaChild {
    /// Where it starts, as an absolute byte offset.
    pub start: usize,
    /// Where it ends.
    pub end: usize,
    /// Its context.
    pub ctx: LuaCtx,
}

/// What a Lua pass returned.
#[derive(Debug)]
pub enum PassReply {
    /// `nil`
    Nil,
    /// A string.
    Text(Vec<u8>),
    /// A table whose `expand` is an array: its children, up to the first that
    /// is not what it should be, or the error instead of it.
    Children(Vec<Result<LuaChild, mlua::Error>>),
    /// A table whose `expand` is no table.
    NoChildren,
    /// Something else, of this kind.
    Other(LuaKind),
}

/// Why a Lua pass gave no outcome.
#[derive(Debug)]
pub enum LuaPassError {
    /// Lua reported an error: one that the pass threw, or a reply whose fields
    /// are not what they should be.
    Lua(mlua::Error),
    /// The function or the context is not one of the pass's Lua state.
    OtherState,
    /// A child starts after its end.
    InvertedChild {
        /// The round of the pass.
        index: usize,
        /// Where the child starts.
        start: usize,
        /// Where it ends.
        end: usize,
    },
}

impl LuaPassError {
    /// `message` may be what went wrong, in words.
    pub open spec fn may_read(self, message: Seq<char>) -> bool {
        match self {
            LuaPassError::Lua(error) => crate::lua_notice::may_say(error, message),
            LuaPassError::OtherState => message == "a value belongs to another Lua state"@,
            LuaPassError::InvertedChild { index, start, end } => message == "pass #"@
                + crate::decimal::decimal(index as nat) + " produced a child with start "@
                + crate::decimal::decimal(start as nat) + " > end "@ + crate::decimal::decimal(
                end as nat,
            ),
        }
    }

    /// What went wrong, in words.
    pub fn message(&self) -> (message: String)
        ensures
            self.may_read(message@),
    {
        match self {
            LuaPassError::Lua(error) => words_of(error),
            LuaPassError::OtherState => "a value belongs to another Lua state".to_owned(),
            LuaPassError::InvertedChild { index, start, end } => {
                let mut out = "pass #".to_owned();
                push_decimal(&mut out, *index as u64);
                out.append(" produced a child with start ");
                push_decimal(&mut out, *start as u64);
                out.append(" > end ");
                push_decimal(&mut out, *end as u64);
                out
            },
        }
    }
}

/// The table that stands for a span in Lua.
pub open spec fn span_fields(span: Span) -> Seq<Field<'static>> {
    seq![
        Field { key: "start", value: FieldValue::Integer(span.start as u64) },
        Field { key: "end", value: FieldValue::Integer(span.end as u64) },
        Field { key: "rev", value: FieldValue::Integer(span.rev) },
    ]
}

/// Calling a pass may come to `answer`: the function is called on the source, a
/// fresh table with the span's `start`, `end` and `rev`, and the context.
pub open spec fn may_answer(
    lua: Lua,
    function: Function,
    source: &str,
    span: Span,
    ctx: LuaCtx,
    answer: Result<Value, mlua::Error>,
) -> bool {
    exists|table: Result<Table, mlua::Error>| #[trigger]
        crate::lua_table::makes_table(lua, span_fields(span), table) && match table {
            Ok(table) => crate::lua_table::may_answer_on_region(
                lua,
                function,
                source,
                table,
                ctx.0,
                answer,
            ),
            Err(error) => answer == Err::<Value, mlua::Error>(error),
        }
}

/// Calls a pass.
fn ask_pass(lua: &Lua, function: &Function, source: &str, span: Span, ctx: &LuaCtx) -> (answer:
    Result<Value, mlua::Error>)
    requires
        crate::lua_table::may_own_function(*lua, *function, true),
        crate::lua_table::may_own_value(*lua, ctx.0, true),
    ensures
        may_answer(*lua, *function, source, span, *ctx, answer),
        answer matches Ok(answer) ==> crate::lua_table::may_own_value(*lua, answer, true),
{
    proof {
        crate::lua_table::lemma_calls();
    }
    let mut fields: Vec<Field<'static>> = Vec::new();
    fields.push(Field { key: "start", value: FieldValue::Integer(span.start as u64) });
    fields.push(Field { key: "end", value: FieldValue::Integer(span.end as u64) });
    fields.push(Field { key: "rev", value: FieldValue::Integer(span.rev) });
    assert(fields@ =~= span_fields(span));
    let table = table_with(lua, &fields);
    let ghost made = table;
    assert(crate::lua_table::makes_table(*lua, span_fields(span), made));
    match table {
        Ok(table) => call_on_region(lua, function, source, &table, &ctx.0),
        Err(error) => Err(error),
    }
}

/// A row of `expand` may read as `child`: its fields `start`, `end` and `ctx`,
/// in that order, or the first error.
pub open spec fn may_read_child(
    lua: Lua,
    row: Result<Table, mlua::Error>,
    child: Result<LuaChild, mlua::Error>,
) -> bool {
    match row {
        Ok(row) => exists|start: Result<usize, mlua::Error>| #[trigger]
            crate::lua_table::may_hold_offset(lua, row, "start", start) && match start {
                Ok(start) => exists|end: Result<usize, mlua::Error>| #[trigger]
                    crate::lua_table::may_hold_offset(lua, row, "end", end) && match end {
                        Ok(end) => exists|ctx: Result<Value, mlua::Error>| #[trigger]
                            crate::lua_table::may_hold(lua, row, "ctx", ctx) && child
                                == match ctx {
                                Ok(ctx) => Ok::<LuaChild, mlua::Error>(
                                    LuaChild { start, end, ctx: LuaCtx(ctx) },
                                ),
                                Err(error) => Err(error),
                            },
                        Err(error) => child == Err::<LuaChild, mlua::Error>(error),
                    },
                Err(error) => child == Err::<LuaChild, mlua::Error>(error),
            },
        Err(error) => child == Err::<LuaChild, mlua::Error>(error),
    }
}

/// Reads a row of `expand`.
fn read_child(lua: &Lua, row: Result<Table, mlua::Error>) -> (child: Result<LuaChild, mlua::Error>)
    requires
        row matches Ok(row) ==> crate::lua_table::may_own_table(*lua, row, true),
    ensures
        may_read_child(*lua, row, child),
{
    proof {
        crate::lua_table::lemma_calls();
    }
    let row = match row {
        Ok(row) => row,
        Err(error) => return Err(error),
    };
    let start = offset_field(lua, &row, "start");
    let ghost read = start;
    assert(crate::lua_table::may_hold_offset(*lua, row, "start", read));
    let start: usize = match start {
        Ok(start) => start,
        Err(error) => return Err(error),
    };
    let end = offset_field(lua, &row, "end");
    let ghost read = end;
    assert(crate::lua_table::may_hold_offset(*lua, row, "end", read));
    let end: usize = match end {
        Ok(end) => end,
        Err(error) => return Err(error),
    };
    let ctx = field(lua, &row, "ctx");
    let ghost read = ctx;
    assert(crate::lua_table::may_hold(*lua, row, "ctx", read));
    match ctx {
        Ok(ctx) => Ok(LuaChild { start, end, ctx: LuaCtx(ctx) }),
        Err(error) => Err(error),
    }
}

/// The array `expand` may read as `children`: its rows in order, up to the
/// first that is not upright.
pub open spec fn may_read_children(
    lua: Lua,
    rows: Table,
    children: Seq<Result<LuaChild, mlua::Error>>,
) -> bool {
    exists|items: Vec<Result<Table, mlua::Error>>| #[trigger]
        crate::lua_table::may_list_tables(lua, rows, items) && {
            &&& children.len() <= items@.len()
            &&& forall|k: int|
                0 <= k < children.len() ==> may_read_child(lua, items@[k], #[trigger] children[k])
            &&& forall|k: int| 0 <= k < children.len() - 1 ==> upright(#[trigger] children[k])
            &&& children.len() < items@.len() ==> children.len() > 0 && !upright(children.last())
        }
}

/// Reads the array `expand`.
fn read_children(lua: &Lua, rows: &Table) -> (children: Vec<Result<LuaChild, mlua::Error>>)
    requires
        crate::lua_table::may_own_table(*lua, *rows, true),
    ensures
        may_read_children(*lua, *rows, children@),
{
    proof {
        crate::lua_table::lemma_calls();
    }
    let items = tables_in(lua, rows);
    let ghost given = items;
    assert(crate::lua_table::may_list_tables(*lua, *rows, given));
    let mut children: Vec<Result<LuaChild, mlua::Error>> = Vec::new();
    for item in it: items.into_iter()
        invariant
            it.seq() == given@,
            crate::lua_table::may_list_tables(*lua, *rows, given),
            forall|k: int|
                0 <= k < given@.len() ==> (#[trigger] given@[k] matches Ok(row)
                    ==> crate::lua_table::may_own_table(*lua, row, true)),
            children@.len() == it.index(),
            forall|k: int|
                0 <= k < children@.len() ==> may_read_child(
                    *lua,
                    given@[k],
                    #[trigger] children@[k],
                ),
            forall|k: int| 0 <= k < children@.len() ==> upright(#[trigger] children@[k]),
    {
        assert(item == given@[it.index() as int]);
        let child = read_child(lua, item);
        let good = match &child {
            Ok(child) => child.start <= child.end,
            Err(_) => false,
        };
        assert(good == upright(child));
        children.push(child);
        if !good {
            return children;
        }
    }
    children
}

/// An answer may read as `reply`: for a table, by what its field `expand` is.
pub open spec fn may_read(lua: Lua, answer: Value, reply: Result<PassReply, mlua::Error>) -> bool {
    exists|item: LuaItem| #[trigger]
        crate::lua_table::may_be(lua, answer, item) && match item {
            LuaItem::Nil => reply == Ok::<PassReply, mlua::Error>(PassReply::Nil),
            LuaItem::Text(text) => reply == Ok::<PassReply, mlua::Error>(PassReply::Text(text)),
            LuaItem::Table(table) => may_read_expand(lua, table, reply),
            LuaItem::Function(_) => reply == Ok::<PassReply, mlua::Error>(
                PassReply::Other(LuaKind::Function),
            ),
            LuaItem::Other(kind) => reply == Ok::<PassReply, mlua::Error>(PassReply::Other(kind)),
        }
}

/// The same, of a table.
pub open spec fn may_read_expand(
    lua: Lua,
    table: Table,
    reply: Result<PassReply, mlua::Error>,
) -> bool {
    exists|expand: Result<Value, mlua::Error>| #[trigger]
        crate::lua_table::may_hold(lua, table, "expand", expand) && match expand {
            Ok(expand) => exists|item: LuaItem| #[trigger]
                crate::lua_table::may_be(lua, expand, item) && match item {
                    LuaItem::Table(rows) => reply matches Ok(PassReply::Children(children))
                        && may_read_children(lua, rows, children@),
                    _ => reply == Ok::<PassReply, mlua::Error>(PassReply::NoChildren),
                },
            Err(error) => reply == Err::<PassReply, mlua::Error>(error),
        }
}

/// Reads an answer.
fn read_reply(lua: &Lua, answer: Value) -> (reply: Result<PassReply, mlua::Error>)
    requires
        crate::lua_table::may_own_value(*lua, answer, true),
    ensures
        may_read(*lua, answer, reply),
{
    proof {
        crate::lua_table::lemma_calls();
    }
    let item = item_in(lua, answer);
    let ghost found = item;
    assert(crate::lua_table::may_be(*lua, answer, found));
    let table = match item {
        LuaItem::Nil => return Ok(PassReply::Nil),
        LuaItem::Text(text) => return Ok(PassReply::Text(text)),
        LuaItem::Table(table) => table,
        LuaItem::Function(_) => return Ok(PassReply::Other(LuaKind::Function)),
        LuaItem::Other(kind) => return Ok(PassReply::Other(kind)),
    };
    let expand = field(lua, &table, "expand");
    let ghost read = expand;
    assert(crate::lua_table::may_hold(*lua, table, "expand", read));
    let expand = match expand {
        Ok(expand) => expand,
        Err(error) => {
            assert(may_read_expand(*lua, table, Err(error)));
            return Err(error);
        },
    };
    let ghost inner = expand;
    let item = item_in(lua, expand);
    let ghost listed = item;
    assert(crate::lua_table::may_be(*lua, inner, listed));
    let reply = match item {
        LuaItem::Table(rows) => Ok(PassReply::Children(read_children(lua, &rows))),
        _ => Ok(PassReply::NoChildren),
    };
    assert(may_read_expand(*lua, table, reply));
    reply
}

/// The bytes of `done`, by which a pass accepts its region.
pub open spec fn done_bytes() -> Seq<u8> {
    seq![100u8, 111u8, 110u8, 101u8]
}

/// The region that `child` asks for.
pub open spec fn region_of(child: LuaChild, rev: u64) -> (Span, LuaCtx) {
    (Span { start: child.start, end: child.end, rev }, child.ctx)
}

/// The child could be read and starts no later than its end.
pub open spec fn upright(child: Result<LuaChild, mlua::Error>) -> bool {
    match child {
        Ok(child) => child.start <= child.end,
        Err(_) => false,
    }
}

/// Every child is upright.
pub open spec fn all_upright(children: Seq<Result<LuaChild, mlua::Error>>) -> bool {
    forall|k: int| 0 <= k < children.len() ==> upright(#[trigger] children[k])
}

/// Child number `k` is the first that is not upright.
pub open spec fn first_bad(children: Seq<Result<LuaChild, mlua::Error>>, k: int) -> bool {
    &&& 0 <= k < children.len()
    &&& !upright(children[k])
    &&& forall|j: int| 0 <= j < k ==> upright(#[trigger] children[j])
}

/// The error that the first child that is not upright comes to.
pub open spec fn fault_of(child: Result<LuaChild, mlua::Error>, index: usize) -> LuaPassError {
    match child {
        Ok(child) => LuaPassError::InvertedChild { index, start: child.start, end: child.end },
        Err(error) => LuaPassError::Lua(error),
    }
}

/// The outcome that `reply` stands for at revision `rev`: `"done"` accepts the
/// region, upright children expand it, and anything else fails it.
pub open spec fn outcome_for(reply: PassReply, rev: u64) -> OutcomeModel<LuaCtx> {
    match reply {
        PassReply::Text(text) => if text@ == done_bytes() {
            OutcomeModel::Done
        } else {
            OutcomeModel::Failed
        },
        PassReply::Children(children) => if all_upright(children@) {
            OutcomeModel::Expand(
                children@.map_values(
                    |child: Result<LuaChild, mlua::Error>| region_of(child->Ok_0, rev),
                ),
            )
        } else {
            OutcomeModel::Failed
        },
        _ => OutcomeModel::Failed,
    }
}

/// Decoding the reply of pass number `index` at revision `rev` comes to
/// `outcome`: the first child that is not upright is an error.
pub open spec fn decoded(
    reply: PassReply,
    rev: u64,
    index: usize,
    outcome: Result<Outcome<LuaCtx>, LuaPassError>,
) -> bool {
    match outcome {
        Ok(outcome) => outcome@ == outcome_for(reply, rev) && (reply is Children ==> all_upright(
            (reply->Children_0)@,
        )),
        Err(error) => reply is Children && exists|k: int| #[trigger]
            first_bad((reply->Children_0)@, k) && error == fault_of(
                (reply->Children_0)@[k],
                index,
            ),
    }
}

/// The bytes of `failed`, by which a pass fails its region.
pub open spec fn failed_bytes() -> Seq<u8> {
    seq![102u8, 97u8, 105u8, 108u8, 101u8, 100u8]
}

/// What is wrong with the reply of pass number `index`, if it fails the region
/// without saying so.
pub open spec fn notice_of(reply: PassReply, index: usize) -> Option<LuaNotice> {
    match reply {
        PassReply::Text(text) => if text@ == done_bytes() || text@ == failed_bytes() {
            None
        } else {
            Some(LuaNotice::WrongReply { index, kind: LuaKind::Text })
        },
        PassReply::NoChildren => Some(LuaNotice::NoChildren { index }),
        PassReply::Other(kind) => Some(LuaNotice::WrongReply { index, kind }),
        _ => None,
    }
}

/// What is wrong with the reply of pass number `index`, if it fails the region
/// without saying so.
pub fn find_notice(reply: &PassReply, index: usize) -> (notice: Option<LuaNotice>)
    ensures
        notice == notice_of(*reply, index),
{
    match reply {
        PassReply::Text(text) => if is_done(text) || is_failed(text) {
            None
        } else {
            Some(LuaNotice::WrongReply { index, kind: LuaKind::Text })
        },
        PassReply::NoChildren => Some(LuaNotice::NoChildren { index }),
        PassReply::Other(kind) => Some(LuaNotice::WrongReply { index, kind: *kind }),
        _ => None,
    }
}

/// Whether `text` is `failed`.
fn is_failed(text: &Vec<u8>) -> (failed: bool)
    ensures
        failed == (text@ == failed_bytes()),
{
    let failed = text.len() == 6 && text[0] == 102 && text[1] == 97 && text[2] == 105 && text[3]
        == 108 && text[4] == 101 && text[5] == 100;
    proof {
        if failed {
            assert(text@ =~= failed_bytes());
        }
    }
    failed
}

/// Whether `text` is `done`.
fn is_done(text: &Vec<u8>) -> (done: bool)
    ensures
        done == (text@ == done_bytes()),
{
    let done = text.len() == 4 && text[0] == 100 && text[1] == 111 && text[2] == 110 && text[3]
        == 101;
    proof {
        if done {
            assert(text@ =~= done_bytes());
        }
    }
    done
}

/// Turns the reply of pass number `index` into an outcome at revision `rev`.
pub fn decode(reply: PassReply, rev: u64, index: usize) -> (outcome: Result<
    Outcome<LuaCtx>,
    LuaPassError,
>)
    ensures
        decoded(reply, rev, index, outcome),
{
    match reply {
        PassReply::Text(text) => if is_done(&text) {
            Ok(Outcome::Done)
        } else {
            Ok(Outcome::Failed)
        },
        PassReply::Children(children) => {
            let ghost given = children@;
            let ghost shift = |child: Result<LuaChild, mlua::Error>| region_of(child->Ok_0, rev);
            let mut regions: Vec<(Span, LuaCtx)> = Vec::new();
            for child in it: children.into_iter()
                invariant
                    it.seq() == given,
                    reply == PassReply::Children(children),
                    children@ == given,
                    shift == (|child: Result<LuaChild, mlua::Error>| region_of(child->Ok_0, rev)),
                    forall|k: int| 0 <= k < it.index() ==> upright(#[trigger] given[k]),
                    regions@ == given.take(it.index() as int).map_values(shift),
            {
                let ghost k = it.index() as int;
                assert(child == given[k]);
                let child = match child {
                    Ok(child) => child,
                    Err(error) => {
                        assert(first_bad(given, k));
                        return Err(LuaPassError::Lua(error));
                    },
                };
                if child.start > child.end {
                    assert(first_bad(given, k));
                    return Err(
                        LuaPassError::InvertedChild {
                            index,
                            start: child.start,
                            end: child.end,
                        },
                    );
                }
                regions.push((Span { start: child.start, end: child.end, rev }, child.ctx));
                assert(regions@ =~= given.take(k + 1).map_values(shift));
            }
            assert(given.take(given.len() as int) =~= given);
            Ok(Outcome::Expand(regions))
        },
        _ => Ok(Outcome::Failed),
    }
}

/// A [`Pass`] backed by a Lua function.
pub struct LuaPass {
    lua: Lua,
    function: Function,
    index: usize,
    watch: LuaWatch,
}

impl LuaPass {
    /// The Lua state.
    pub closed spec fn state(&self) -> Lua {
        self.lua
    }

    /// The Lua function.
    pub closed spec fn body(&self) -> Function {
        self.function
    }

    /// The round of the pass.
    pub closed spec fn round(&self) -> usize {
        self.index
    }

    /// Who is told of what goes wrong.
    pub closed spec fn watcher(&self) -> LuaWatch {
        self.watch
    }

    /// Wraps `function`, as the pass of round `index`.
    pub fn new(lua: Lua, function: Function, index: usize) -> (pass: Self)
        ensures
            pass.state() == lua,
            pass.body() == function,
            pass.round() == index,
            pass.watcher().is_silent(),
    {
        LuaPass { lua, function, index, watch: LuaWatch::silent() }
    }

    /// The same pass, with `watch` told of what goes wrong.
    pub fn watched(self, watch: LuaWatch) -> (pass: Self)
        ensures
            pass.state() == self.state(),
            pass.body() == self.body(),
            pass.round() == self.round(),
            pass.watcher() == watch,
    {
        LuaPass { lua: self.lua, function: self.function, index: self.index, watch }
    }

    /// Whether the function and `ctx` are of the pass's Lua state may be found
    /// to be `own`.
    pub open spec fn may_own(&self, ctx: &LuaCtx, own: bool) -> bool {
        exists|function: bool, value: bool| #[trigger]
            crate::lua_table::may_own_function(self.state(), self.body(), function) && #[trigger]
            crate::lua_table::may_own_value(self.state(), ctx.0, value) && own == (function
                && value)
    }

    /// Calls the function and reads its answer.
    fn ask(&self, source: &str, span: Span, ctx: &LuaCtx) -> (reply: Result<
        PassReply,
        LuaPassError,
    >)
        ensures
            self.may_reply(source, span, ctx, reply),
    {
        proof {
            crate::lua_table::lemma_calls();
        }
        let function = owns_function(&self.lua, &self.function);
        let value = owns_value(&self.lua, &ctx.0);
        assert(crate::lua_table::may_own_function(self.state(), self.body(), function));
        assert(crate::lua_table::may_own_value(self.state(), ctx.0, value));
        assert(self.may_own(ctx, function && value));
        if !function || !value {
            return Err(LuaPassError::OtherState);
        }
        let answer = ask_pass(&self.lua, &self.function, source, span, ctx);
        let ghost given = answer;
        assert(may_answer(self.state(), self.body(), source, span, *ctx, given));
        let value = match answer {
            Ok(value) => value,
            Err(error) => return Err(LuaPassError::Lua(error)),
        };
        let read = read_reply(&self.lua, value);
        let ghost seen = read;
        assert(may_read(self.state(), given->Ok_0, seen));
        match read {
            Ok(reply) => Ok(reply),
            Err(error) => Err(LuaPassError::Lua(error)),
        }
    }

    /// `reply` may come of calling the pass: what its answer reads as, or its
    /// error; without a call where the function or the context is of another
    /// Lua state.
    pub open spec fn may_reply(
        &self,
        source: &str,
        span: Span,
        ctx: &LuaCtx,
        reply: Result<PassReply, LuaPassError>,
    ) -> bool {
        ||| self.may_own(ctx, false) && reply == Err::<PassReply, LuaPassError>(
            LuaPassError::OtherState,
        )
        ||| self.may_own(ctx, true) && exists|answer: Result<Value, mlua::Error>| #[trigger]
            may_answer(self.state(), self.body(), source, span, *ctx, answer) && match answer {
                Ok(value) => exists|read: Result<PassReply, mlua::Error>| #[trigger]
                    may_read(self.state(), value, read) && reply == match read {
                        Ok(read) => Ok::<PassReply, LuaPassError>(read),
                        Err(error) => Err(LuaPassError::Lua(error)),
                    },
                Err(error) => reply == Err::<PassReply, LuaPassError>(LuaPassError::Lua(error)),
            }
    }

    /// Parsing a region may come to `outcome`, with the watcher told of a reply
    /// that makes no sense.
    pub open spec fn may_try(
        &self,
        source: &str,
        span: Span,
        ctx: &LuaCtx,
        outcome: Result<Outcome<LuaCtx>, LuaPassError>,
    ) -> bool {
        exists|reply: Result<PassReply, LuaPassError>| #[trigger]
            self.may_reply(source, span, ctx, reply) && match reply {
                Ok(reply) => decoded(reply, span.rev, self.round(), outcome) && match notice_of(
                    reply,
                    self.round(),
                ) {
                    Some(notice) => self.watcher().told(&notice),
                    None => true,
                },
                Err(error) => outcome == Err::<Outcome<LuaCtx>, LuaPassError>(error),
            }
    }

    /// Calls the function on a region and decodes its reply.
    pub fn try_parse(&self, source: &str, span: Span, ctx: &LuaCtx) -> (outcome: Result<
        Outcome<LuaCtx>,
        LuaPassError,
    >)
        ensures
            self.may_try(source, span, ctx, outcome),
    {
        let reply = self.ask(source, span, ctx);
        let ghost given = reply;
        assert(self.may_reply(source, span, ctx, given));
        match reply {
            Ok(reply) => {
                if let Some(notice) = find_notice(&reply, self.index) {
                    self.watch.tell(&notice);
                }
                decode(reply, span.rev, self.index)
            },
            Err(error) => Err(error),
        }
    }
}

impl Pass for LuaPass {
    type Ctx = LuaCtx;

    /// Every region may be handed to Lua.
    open spec fn accepts(&self, source: &str, span: Span, ctx: &LuaCtx) -> bool {
        true
    }

    /// The outcome is what the reply stands for; an error fails the region, and
    /// the watcher is told.
    open spec fn may_return(
        &self,
        source: &str,
        span: Span,
        ctx: &LuaCtx,
        outcome: Outcome<LuaCtx>,
    ) -> bool {
        exists|result: Result<Outcome<LuaCtx>, LuaPassError>| #[trigger]
            self.may_try(source, span, ctx, result) && match result {
                Ok(result) => outcome@ == result@,
                Err(error) => outcome@ == OutcomeModel::<LuaCtx>::Failed && self.watcher().told(
                    &LuaNotice::PassFailed { index: self.round(), error },
                ),
            }
    }

    fn parse(&self, source: &str, span: Span, ctx: &LuaCtx) -> (outcome: Outcome<LuaCtx>) {
        let result = self.try_parse(source, span, ctx);
        let ghost given = result;
        assert(self.may_try(source, span, ctx, given));
        match result {
            Ok(outcome) => outcome,
            Err(error) => {
                let notice = LuaNotice::PassFailed { index: self.index, error };
                self.watch.tell(&notice);
                Outcome::Failed
            },
        }
    }

    fn name(&self) -> (name: &'static str)
        ensures
            name@ == "LuaPass"@,
    {
        "LuaPass"
    }
}

/// The bytes of the two words by which a pass accepts or fails its region.
pub proof fn law_words_of_passes()
    ensures
        done_bytes() == crate::text::bytes_of("done"@),
        failed_bytes() == crate::text::bytes_of("failed"@),
{
    reveal_strlit("done");
    reveal_strlit("failed");
    vstd::utf8::is_ascii_chars_encode_utf8("done"@);
    vstd::utf8::is_ascii_chars_encode_utf8("failed"@);
    assert("done"@[0] == 'd' && "done"@[1] == 'o' && "done"@[2] == 'n' && "done"@[3] == 'e');
    assert("failed"@[0] == 'f' && "failed"@[1] == 'a' && "failed"@[2] == 'i' && "failed"@[3] == 'l'
        && "failed"@[4] == 'e' && "failed"@[5] == 'd');
    assert(done_bytes() =~= crate::text::bytes_of("done"@));
    assert(failed_bytes() =~= crate::text::bytes_of("failed"@));
}

/// What a reply means: the word `done` accepts the region, children that all end
/// no earlier than they start expand it into just these, in order, on its
/// revision, and a child that does not, or that cannot be read, is an error.
/// Anything else fails the region.
pub proof fn law_replies_mean_outcomes(
    reply: PassReply,
    rev: u64,
    index: usize,
    outcome: Result<Outcome<LuaCtx>, LuaPassError>,
)
    requires
        decoded(reply, rev, index, outcome),
    ensures
        match reply {
            PassReply::Text(text) => outcome matches Ok(outcome) && if text@
                == crate::text::bytes_of("done"@) {
                outcome@ is Done
            } else {
                outcome@ is Failed
            },
            PassReply::Children(children) => match outcome {
                Ok(outcome) => {
                    &&& outcome@ matches OutcomeModel::Expand(produced)
                    &&& produced.len() == children@.len()
                    &&& forall|k: int|
                        #![trigger produced[k]]
                        #![trigger children@[k]]
                        0 <= k < produced.len() ==> (children@[k] matches Ok(child)
                            && child.start <= child.end && produced[k].0.start == child.start
                            && produced[k].0.end == child.end && produced[k].0.rev == rev
                            && produced[k].1 == child.ctx)
                },
                Err(LuaPassError::InvertedChild { index: at, start, end }) => {
                    &&& at == index
                    &&& start > end
                    &&& exists|k: int|
                        0 <= k < children@.len() && (#[trigger] children@[k] matches Ok(child)
                            && child.start == start && child.end == end) && forall|j: int|
                            0 <= j < k ==> (#[trigger] children@[j] matches Ok(child) && child.start
                                <= child.end)
                },
                Err(LuaPassError::Lua(error)) => exists|k: int|
                    0 <= k < children@.len() && #[trigger] children@[k] == Err::<
                        LuaChild,
                        mlua::Error,
                    >(error) && forall|j: int|
                        0 <= j < k ==> (#[trigger] children@[j] matches Ok(child) && child.start
                            <= child.end),
                Err(LuaPassError::OtherState) => false,
            },
            _ => outcome matches Ok(outcome) && outcome@ is Failed,
        },
{
    law_words_of_passes();
    if let PassReply::Children(children) = reply {
        match outcome {
            Ok(outcome) => {
                let produced = outcome@->Expand_0;
                assert forall|k: int|
                    #![trigger produced[k]]
                    #![trigger children@[k]]
                    0 <= k < produced.len() implies (children@[k] matches Ok(child) && child.start
                    <= child.end && produced[k].0.start == child.start && produced[k].0.end
                    == child.end && produced[k].0.rev == rev && produced[k].1 == child.ctx) by {
                    assert(upright(children@[k]));
                }
            },
            Err(error) => {
                let k = choose|k: int| #[trigger]
                    first_bad(children@, k) && error == fault_of(children@[k], index);
                assert(!upright(children@[k]));
                assert forall|j: int| 0 <= j < k implies (#[trigger] children@[j] matches Ok(child)
                    && child.start <= child.end) by {
                    assert(upright(children@[j]));
                }
            },
        }
    }
}

/// Whoever watches is told of a reply that fails the region without saying so:
/// not of `nil`, of children or of the words `done` and `failed`, but of any
/// other string, of a table without children, and of anything else, with the
/// number of the pass and the kind of what it returned.
pub proof fn law_odd_replies_are_noticed(reply: PassReply, index: usize)
    ensures
        match reply {
            PassReply::Nil => notice_of(reply, index) is None,
            PassReply::Children(_) => notice_of(reply, index) is None,
            PassReply::Text(text) => if text@ == crate::text::bytes_of("done"@) || text@
                == crate::text::bytes_of("failed"@) {
                notice_of(reply, index) is None
            } else {
                notice_of(reply, index) matches Some(LuaNotice::WrongReply { index: at, kind })
                    && at == index && kind is Text
            },
            PassReply::NoChildren => notice_of(reply, index) matches Some(
                LuaNotice::NoChildren { index: at },
            ) && at == index,
            PassReply::Other(found) => notice_of(reply, index) matches Some(
                LuaNotice::WrongReply { index: at, kind },
            ) && at == index && kind == found,
        },
{
    law_words_of_passes();
}

/// Lua sees a region as a table with the bytes between which it lies as `start`
/// and `end`, and its revision as `rev`.
pub proof fn law_lua_sees_the_region(span: Span)
    ensures
        ({
            let fields = span_fields(span);
            &&& fields.len() == 3
            &&& fields.contains(
                (Field { key: "start", value: FieldValue::Integer(span.start as u64) }),
            )
            &&& fields.contains((Field { key: "end", value: FieldValue::Integer(span.end as u64) }))
            &&& fields.contains((Field { key: "rev", value: FieldValue::Integer(span.rev) }))
            &&& forall|i: int, j: int|
                0 <= i < j < fields.len() ==> (#[trigger] fields[i]).key@ != (
                #[trigger] fields[j]).key@
        }),
{
    let fields = span_fields(span);
    reveal_strlit("start");
    reveal_strlit("end");
    reveal_strlit("rev");
    assert("start"@.len() == 5);
    assert("end"@[0] == 'e');
    assert("rev"@[0] == 'r');
    assert("end"@.len() == 3 && "rev"@.len() == 3);
    assert(fields[0] == (Field { key: "start", value: FieldValue::Integer(span.start as u64) }));
    assert(fields[1] == (Field { key: "end", value: FieldValue::Integer(span.end as u64) }));
    assert(fields[2] == (Field { key: "rev", value: FieldValue::Integer(span.rev) }));
}

/// A child region that Lua asks for is read from the fields `start`, `end` and
/// `ctx` of its row.
pub proof fn law_child_fields_are_read(lua: Lua, row: Table, child: LuaChild)
    requires
        may_read_child(lua, Ok(row), Ok(child)),
    ensures
        crate::lua_table::may_hold_offset(lua, row, "start", Ok(child.start)),
        crate::lua_table::may_hold_offset(lua, row, "end", Ok(child.end)),
        crate::lua_table::may_hold(lua, row, "ctx", Ok(child.ctx.0)),
{
    let read: Result<LuaChild, mlua::Error> = Ok(child);
    let start = choose|start: Result<usize, mlua::Error>| #[trigger]
        crate::lua_table::may_hold_offset(lua, row, "start", start) && match start {
            Ok(start) => exists|end: Result<usize, mlua::Error>| #[trigger]
                crate::lua_table::may_hold_offset(lua, row, "end", end) && match end {
                    Ok(end) => exists|ctx: Result<Value, mlua::Error>| #[trigger]
                        crate::lua_table::may_hold(lua, row, "ctx", ctx) && read == match ctx {
                            Ok(ctx) => Ok::<LuaChild, mlua::Error>(
                                LuaChild { start, end, ctx: LuaCtx(ctx) },
                            ),
                            Err(error) => Err(error),
                        },
                    Err(error) => read == Err::<LuaChild, mlua::Error>(error),
                },
            Err(error) => read == Err::<LuaChild, mlua::Error>(error),
        };
    let first = start->Ok_0;
    let end = choose|end: Result<usize, mlua::Error>| #[trigger]
        crate::lua_table::may_hold_offset(lua, row, "end", end) && match end {
            Ok(end) => exists|ctx: Result<Value, mlua::Error>| #[trigger]
                crate::lua_table::may_hold(lua, row, "ctx", ctx) && read == match ctx {
                    Ok(ctx) => Ok::<LuaChild, mlua::Error>(
                        LuaChild { start: first, end, ctx: LuaCtx(ctx) },
                    ),
                    Err(error) => Err(error),
                },
            Err(error) => read == Err::<LuaChild, mlua::Error>(error),
        };
    let second = end->Ok_0;
    let ctx = choose|ctx: Result<Value, mlua::Error>| #[trigger]
        crate::lua_table::may_hold(lua, row, "ctx", ctx) && read == match ctx {
            Ok(ctx) => Ok::<LuaChild, mlua::Error>(
                LuaChild { start: first, end: second, ctx: LuaCtx(ctx) },
            ),
            Err(error) => Err(error),
        };
    assert(ctx == Ok::<Value, mlua::Error>(child.ctx.0));
    assert(start == Ok::<usize, mlua::Error>(child.start));
    assert(end == Ok::<usize, mlua::Error>(child.end));
}

/// A pass other than in failure does what Lua says: its function is called on
/// the source, a table that stands for the region, and the context, and what
/// comes back means the outcome.
pub proof fn law_lua_is_asked_about_the_region(
    pass: &LuaPass,
    source: &str,
    span: Span,
    ctx: &LuaCtx,
    outcome: Outcome<LuaCtx>,
)
    requires
        pass.may_return(source, span, ctx, outcome),
        !(outcome@ is Failed),
    ensures
        exists|table: Table, value: Value, reply: PassReply, result: Outcome<LuaCtx>|
            {
                &&& #[trigger] crate::lua_table::makes_table(
                    pass.state(),
                    span_fields(span),
                    Ok(table),
                )
                &&& #[trigger] crate::lua_table::may_answer_on_region(
                    pass.state(),
                    pass.body(),
                    source,
                    table,
                    ctx.0,
                    Ok(value),
                )
                &&& #[trigger] may_read(pass.state(), value, Ok(reply))
                &&& #[trigger] decoded(reply, span.rev, pass.round(), Ok(result))
                &&& outcome@ == result@
            },
{
    let result = choose|result: Result<Outcome<LuaCtx>, LuaPassError>| #[trigger]
        pass.may_try(source, span, ctx, result) && match result {
            Ok(result) => outcome@ == result@,
            Err(error) => outcome@ == OutcomeModel::<LuaCtx>::Failed,
        };
    let reply = choose|reply: Result<PassReply, LuaPassError>| #[trigger]
        pass.may_reply(source, span, ctx, reply) && match reply {
            Ok(reply) => decoded(reply, span.rev, pass.round(), result),
            Err(error) => result == Err::<Outcome<LuaCtx>, LuaPassError>(error),
        };
    let inner = reply->Ok_0;
    let answer = choose|answer: Result<Value, mlua::Error>| #[trigger]
        may_answer(pass.state(), pass.body(), source, span, *ctx, answer) && match answer {
            Ok(value) => exists|read: Result<PassReply, mlua::Error>| #[trigger]
                may_read(pass.state(), value, read) && reply == match read {
                    Ok(read) => Ok::<PassReply, LuaPassError>(read),
                    Err(error) => Err(LuaPassError::Lua(error)),
                },
            Err(error) => reply == Err::<PassReply, LuaPassError>(LuaPassError::Lua(error)),
        };
    let value = answer->Ok_0;
    let read = choose|read: Result<PassReply, mlua::Error>| #[trigger]
        may_read(pass.state(), value, read) && reply == match read {
            Ok(read) => Ok::<PassReply, LuaPassError>(read),
            Err(error) => Err(LuaPassError::Lua(error)),
        };
    assert(read == Ok::<PassReply, mlua::Error>(inner));
    let table = choose|table: Result<Table, mlua::Error>| #[trigger]
        crate::lua_table::makes_table(pass.state(), span_fields(span), table) && match table {
            Ok(table) => crate::lua_table::may_answer_on_region(
                pass.state(),
                pass.body(),
                source,
                table,
                ctx.0,
                answer,
            ),
            Err(error) => answer == Err::<Value, mlua::Error>(error),
        };
    let made = table->Ok_0;
    assert(crate::lua_table::makes_table(pass.state(), span_fields(span), Ok(made)));
    assert(crate::lua_table::may_answer_on_region(
        pass.state(),
        pass.body(),
        source,
        made,
        ctx.0,
        Ok(value),
    ));
    assert(may_read(pass.state(), value, Ok(inner)));
    assert(decoded(inner, span.rev, pass.round(), Ok(result->Ok_0)));
}

/// A Lua pass fails a region for a reason: the function or the context is of
/// another state, the call fails, its answer cannot be read, or what it reads as
/// means a failure or has a child that does not end after it starts.
pub proof fn law_lua_fails_a_region_for_a_reason(
    pass: &LuaPass,
    source: &str,
    span: Span,
    ctx: &LuaCtx,
    outcome: Outcome<LuaCtx>,
)
    requires
        pass.may_return(source, span, ctx, outcome),
        outcome@ is Failed,
        !pass.may_own(ctx, false),
    ensures
        exists|answer: Result<Value, mlua::Error>| #[trigger]
            may_answer(pass.state(), pass.body(), source, span, *ctx, answer) && match answer {
                Err(_) => true,
                Ok(value) => exists|read: Result<PassReply, mlua::Error>| #[trigger]
                    may_read(pass.state(), value, read) && match read {
                        Err(_) => true,
                        Ok(PassReply::Text(text)) => text@ != crate::text::bytes_of("done"@),
                        Ok(PassReply::Children(children)) => exists|k: int|
                            0 <= k < children@.len() && (#[trigger] children@[k] matches Ok(child)
                                ==> child.start > child.end),
                        Ok(_) => true,
                    },
            },
{
    law_words_of_passes();
    let result = choose|result: Result<Outcome<LuaCtx>, LuaPassError>| #[trigger]
        pass.may_try(source, span, ctx, result) && match result {
            Ok(result) => outcome@ == result@,
            Err(error) => outcome@ == OutcomeModel::<LuaCtx>::Failed,
        };
    let reply = choose|reply: Result<PassReply, LuaPassError>| #[trigger]
        pass.may_reply(source, span, ctx, reply) && match reply {
            Ok(reply) => decoded(reply, span.rev, pass.round(), result),
            Err(error) => result == Err::<Outcome<LuaCtx>, LuaPassError>(error),
        };
    let answer = choose|answer: Result<Value, mlua::Error>| #[trigger]
        may_answer(pass.state(), pass.body(), source, span, *ctx, answer) && match answer {
            Ok(value) => exists|read: Result<PassReply, mlua::Error>| #[trigger]
                may_read(pass.state(), value, read) && reply == match read {
                    Ok(read) => Ok::<PassReply, LuaPassError>(read),
                    Err(error) => Err(LuaPassError::Lua(error)),
                },
            Err(error) => reply == Err::<PassReply, LuaPassError>(LuaPassError::Lua(error)),
        };
    assert(may_answer(pass.state(), pass.body(), source, span, *ctx, answer));
    if let Ok(value) = answer {
        let read = choose|read: Result<PassReply, mlua::Error>| #[trigger]
            may_read(pass.state(), value, read) && reply == match read {
                Ok(read) => Ok::<PassReply, LuaPassError>(read),
                Err(error) => Err(LuaPassError::Lua(error)),
            };
        assert(may_read(pass.state(), value, read));
        if let Ok(inner) = read {
            assert(decoded(inner, span.rev, pass.round(), result));
            law_replies_mean_outcomes(inner, span.rev, pass.round(), result);
            if let PassReply::Children(children) = inner {
                if let Err(error) = result {
                    let k = choose|k: int| #[trigger]
                        first_bad(children@, k) && error == fault_of(children@[k], pass.round());
                    assert(!upright(children@[k]));
                    assert(0 <= k < children@.len());
                }
            }
        }
    }
}

} // verus!
