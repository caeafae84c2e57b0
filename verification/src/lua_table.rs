//! Reading and writing Lua tables, and calling Lua functions.
//!
//! What a table holds and what a function answers depends on the Lua state, so
//! the calls below claim nothing of the values they hand back but that these
//! live in the same state; contracts speak of them as what the call returned
//! for its key or its arguments.

use crate::lua::{owns_function, owns_table, owns_value};
use mlua::{Function, Lua, Table, Value};
use vstd::prelude::*;

verus! {

/// What a Lua value is, apart from nil.
#[derive(Debug, Clone, Copy, PartialEq, Eq, Structural)]
pub enum LuaKind {
    /// A boolean.
    Boolean,
    /// A raw pointer.
    LightUserData,
    /// An integer number.
    Integer,
    /// A floating-point number.
    Number,
    /// A string.
    Text,
    /// A table.
    Table,
    /// A function.
    Function,
    /// A coroutine.
    Thread,
    /// A foreign object.
    UserData,
    /// An error object.
    Error,
    /// Anything else.
    Other,
}

impl LuaKind {
    /// What Lua calls values of this kind.
    pub open spec fn label(self) -> Seq<char> {
        match self {
            LuaKind::Boolean => "boolean"@,
            LuaKind::LightUserData => "lightuserdata"@,
            LuaKind::Integer => "integer"@,
            LuaKind::Number => "number"@,
            LuaKind::Text => "string"@,
            LuaKind::Table => "table"@,
            LuaKind::Function => "function"@,
            LuaKind::Thread => "thread"@,
            LuaKind::UserData => "userdata"@,
            LuaKind::Error => "error"@,
            LuaKind::Other => "other"@,
        }
    }

    /// What Lua calls values of this kind.
    pub fn name(self) -> (name: &'static str)
        ensures
            name@ == self.label(),
    {
        match self {
            LuaKind::Boolean => "boolean",
            LuaKind::LightUserData => "lightuserdata",
            LuaKind::Integer => "integer",
            LuaKind::Number => "number",
            LuaKind::Text => "string",
            LuaKind::Table => "table",
            LuaKind::Function => "function",
            LuaKind::Thread => "thread",
            LuaKind::UserData => "userdata",
            LuaKind::Error => "error",
            LuaKind::Other => "other",
        }
    }
}

/// A Lua value, told by what it is.
pub enum LuaItem {
    /// `nil`
    Nil,
    /// The bytes of a string.
    Text(Vec<u8>),
    /// A table.
    Table(Table),
    /// A function.
    Function(Function),
    /// Something else, of this kind.
    Other(LuaKind),
}

/// Tells the variants of mlua's `Value` apart; the bytes of a string by
/// `LuaString::as_bytes`. A table in a value lives in the state of the value.
#[verifier::external_body]
pub(crate) fn item_in(lua: &Lua, value: Value) -> (item: LuaItem)
    requires
        call_ensures(owns_value, (lua, &value), true),
    ensures
        item matches LuaItem::Table(table) ==> call_ensures(owns_table, (lua, &table), true),
{
    match value {
        Value::Nil => LuaItem::Nil,
        Value::String(text) => LuaItem::Text(text.as_bytes().to_vec()),
        Value::Table(table) => LuaItem::Table(table),
        Value::Function(function) => LuaItem::Function(function),
        Value::Boolean(_) => LuaItem::Other(LuaKind::Boolean),
        Value::LightUserData(_) => LuaItem::Other(LuaKind::LightUserData),
        Value::Integer(_) => LuaItem::Other(LuaKind::Integer),
        Value::Number(_) => LuaItem::Other(LuaKind::Number),
        Value::Thread(_) => LuaItem::Other(LuaKind::Thread),
        Value::UserData(_) => LuaItem::Other(LuaKind::UserData),
        Value::Error(_) => LuaItem::Other(LuaKind::Error),
        _ => LuaItem::Other(LuaKind::Other),
    }
}

/// Reads a field, by mlua's `Table::get`. Reading may call back into Lua code.
/// The value lives in the state of the table.
#[verifier::external_body]
pub(crate) fn field(lua: &Lua, table: &Table, key: &str) -> (value: Result<Value, mlua::Error>)
    requires
        call_ensures(owns_table, (lua, table), true),
    ensures
        value matches Ok(value) ==> call_ensures(owns_value, (lua, &value), true),
{
    table.get(key)
}

/// Reads a field that is a table, by mlua's `Table::get`. Reading may call back
/// into Lua code. The field lives in the state of the table.
#[verifier::external_body]
pub(crate) fn table_field(lua: &Lua, table: &Table, key: &str) -> (inner: Result<Table, mlua::Error>)
    requires
        call_ensures(owns_table, (lua, table), true),
    ensures
        inner matches Ok(inner) ==> call_ensures(owns_table, (lua, &inner), true),
{
    table.get(key)
}

/// Reads a field that is a text, by mlua's `Table::get`. Reading may call back
/// into Lua code, so nothing is claimed of the result.
#[verifier::external_body]
pub(crate) fn text_field(lua: &Lua, table: &Table, key: &str) -> (text: Result<String, mlua::Error>)
    requires
        call_ensures(owns_table, (lua, table), true),
{
    table.get(key)
}

/// Reads a field that is a text or absent, by mlua's `Table::get`. Reading may
/// call back into Lua code, so nothing is claimed of the result.
#[verifier::external_body]
pub(crate) fn note_field(lua: &Lua, table: &Table, key: &str) -> (note: Result<
    Option<String>,
    mlua::Error,
>)
    requires
        call_ensures(owns_table, (lua, table), true),
{
    table.get(key)
}

/// Reads a field that is a byte offset, by mlua's `Table::get`. Reading may call
/// back into Lua code, so nothing is claimed of the result.
#[verifier::external_body]
pub(crate) fn offset_field(lua: &Lua, table: &Table, key: &str) -> (offset: Result<
    usize,
    mlua::Error,
>)
    requires
        call_ensures(owns_table, (lua, table), true),
{
    table.get(key)
}

/// Reads a field that is an integer, by mlua's `Table::get`. Reading may call
/// back into Lua code, so nothing is claimed of the result.
#[verifier::external_body]
pub(crate) fn integer_field(lua: &Lua, table: &Table, key: &str) -> (integer: Result<
    i64,
    mlua::Error,
>)
    requires
        call_ensures(owns_table, (lua, table), true),
{
    table.get(key)
}

/// Reads an array of tables, by mlua's `Table::sequence_values`; an error stands
/// for an item that is no table. The tables live in the state of the array.
#[verifier::external_body]
pub(crate) fn tables_in(lua: &Lua, array: &Table) -> (items: Vec<Result<Table, mlua::Error>>)
    requires
        call_ensures(owns_table, (lua, array), true),
    ensures
        forall|k: int|
            0 <= k < items@.len() ==> (#[trigger] items@[k] matches Ok(item) ==> call_ensures(
                owns_table,
                (lua, &item),
                true,
            )),
{
    array.sequence_values().collect()
}

/// Reads an array of functions, by mlua's `Table::sequence_values`; an error
/// stands for an item that is no function. What the array holds may change with
/// every call into the state, so nothing is claimed of the result.
#[verifier::external_body]
pub(crate) fn functions_in(lua: &Lua, array: &Table) -> (items: Vec<Result<Function, mlua::Error>>)
    requires
        call_ensures(owns_table, (lua, array), true),
{
    array.sequence_values().collect()
}

/// Makes an empty table, by mlua's `Lua::create_table`. It lives in that state.
#[verifier::external_body]
pub(crate) fn new_table(lua: &Lua) -> (table: Result<Table, mlua::Error>)
    ensures
        table matches Ok(table) ==> call_ensures(owns_table, (lua, &table), true),
{
    lua.create_table()
}

/// Sets a field to an integer, by mlua's `Table::set`.
#[verifier::external_body]
pub(crate) fn set_integer(lua: &Lua, table: &Table, key: &str, value: u64) -> (done: Result<
    (),
    mlua::Error,
>)
    requires
        call_ensures(owns_table, (lua, table), true),
{
    table.set(key, value)
}

/// Sets a field to a text, by mlua's `Table::set`.
#[verifier::external_body]
pub(crate) fn set_text(lua: &Lua, table: &Table, key: &str, value: &str) -> (done: Result<
    (),
    mlua::Error,
>)
    requires
        call_ensures(owns_table, (lua, table), true),
{
    table.set(key, value)
}

/// Sets a field to a value, by mlua's `Table::set`.
#[verifier::external_body]
pub(crate) fn set_value(lua: &Lua, table: &Table, key: &str, value: &Value) -> (done: Result<
    (),
    mlua::Error,
>)
    requires
        call_ensures(owns_table, (lua, table), true),
        call_ensures(owns_value, (lua, value), true),
{
    table.set(key, value.clone())
}

/// Appends a table to an array, by mlua's `Table::push`.
#[verifier::external_body]
pub(crate) fn push_table(lua: &Lua, array: &Table, item: &Table) -> (done: Result<(), mlua::Error>)
    requires
        call_ensures(owns_table, (lua, array), true),
        call_ensures(owns_table, (lua, item), true),
{
    array.push(item.clone())
}

/// Calls a function on a text, a table and a value, by mlua's `Function::call`.
/// What Lua code answers is up to it; the answer lives in that state.
#[verifier::external_body]
pub(crate) fn call_on_region(
    lua: &Lua,
    function: &Function,
    text: &str,
    table: &Table,
    value: &Value,
) -> (answer: Result<Value, mlua::Error>)
    requires
        call_ensures(owns_function, (lua, function), true),
        call_ensures(owns_table, (lua, table), true),
        call_ensures(owns_value, (lua, value), true),
    ensures
        answer matches Ok(answer) ==> call_ensures(owns_value, (lua, &answer), true),
{
    function.call((text, table.clone(), value.clone()))
}

/// Calls a function on a text and a table, by mlua's `Function::call`. What Lua
/// code answers is up to it; the answer lives in that state.
#[verifier::external_body]
pub(crate) fn call_on_node(lua: &Lua, function: &Function, text: &str, table: &Table) -> (answer:
    Result<Value, mlua::Error>)
    requires
        call_ensures(owns_function, (lua, function), true),
        call_ensures(owns_table, (lua, table), true),
    ensures
        answer matches Ok(answer) ==> call_ensures(owns_value, (lua, &answer), true),
{
    function.call((text, table.clone()))
}

/// Calls a function on a table, by mlua's `Function::call`. What Lua code
/// answers is up to it; the answer lives in that state.
#[verifier::external_body]
pub(crate) fn call_on_rows(lua: &Lua, function: &Function, table: &Table) -> (answer: Result<
    Value,
    mlua::Error,
>)
    requires
        call_ensures(owns_function, (lua, function), true),
        call_ensures(owns_table, (lua, table), true),
    ensures
        answer matches Ok(answer) ==> call_ensures(owns_value, (lua, &answer), true),
{
    function.call(table.clone())
}

/// `item` may be what `value` is.
pub closed spec fn may_be(lua: Lua, value: Value, item: LuaItem) -> bool {
    call_ensures(item_in, (&lua, value), item)
}

/// The field `key` of `table` may read as `value`.
pub closed spec fn may_hold(
    lua: Lua,
    table: Table,
    key: &str,
    value: Result<Value, mlua::Error>,
) -> bool {
    call_ensures(field, (&lua, &table, key), value)
}

/// The field `key` of `table` may read as the table `inner`.
pub closed spec fn may_hold_table(
    lua: Lua,
    table: Table,
    key: &str,
    inner: Result<Table, mlua::Error>,
) -> bool {
    call_ensures(table_field, (&lua, &table, key), inner)
}

/// The field `key` of `table` may read as `text`.
pub closed spec fn may_hold_text(
    lua: Lua,
    table: Table,
    key: &str,
    text: Result<String, mlua::Error>,
) -> bool {
    call_ensures(text_field, (&lua, &table, key), text)
}

/// The field `key` of `table` may read as `note`.
pub closed spec fn may_hold_note(
    lua: Lua,
    table: Table,
    key: &str,
    note: Result<Option<String>, mlua::Error>,
) -> bool {
    call_ensures(note_field, (&lua, &table, key), note)
}

/// The field `key` of `table` may read as `offset`.
pub closed spec fn may_hold_offset(
    lua: Lua,
    table: Table,
    key: &str,
    offset: Result<usize, mlua::Error>,
) -> bool {
    call_ensures(offset_field, (&lua, &table, key), offset)
}

/// The field `key` of `table` may read as `integer`.
pub closed spec fn may_hold_integer(
    lua: Lua,
    table: Table,
    key: &str,
    integer: Result<i64, mlua::Error>,
) -> bool {
    call_ensures(integer_field, (&lua, &table, key), integer)
}

/// The array may read as the tables `items`.
pub closed spec fn may_list_tables(
    lua: Lua,
    array: Table,
    items: Vec<Result<Table, mlua::Error>>,
) -> bool {
    call_ensures(tables_in, (&lua, &array), items)
}

/// The array may read as the functions `items`.
pub closed spec fn may_list_functions(
    lua: Lua,
    array: Table,
    items: Vec<Result<Function, mlua::Error>>,
) -> bool {
    call_ensures(functions_in, (&lua, &array), items)
}

/// Whether `function` is one of the state `lua` may be found to be `own`.
pub closed spec fn may_own_function(lua: Lua, function: Function, own: bool) -> bool {
    call_ensures(owns_function, (&lua, &function), own)
}

/// Whether `value` is one of the state `lua` may be found to be `own`.
pub closed spec fn may_own_value(lua: Lua, value: Value, own: bool) -> bool {
    call_ensures(owns_value, (&lua, &value), own)
}

/// Whether `table` is one of the state `lua` may be found to be `own`.
pub closed spec fn may_own_table(lua: Lua, table: Table, own: bool) -> bool {
    call_ensures(owns_table, (&lua, &table), own)
}

/// Calling `function` on a text, a table and a value may come to `answer`.
pub closed spec fn may_answer_on_region(
    lua: Lua,
    function: Function,
    text: &str,
    table: Table,
    value: Value,
    answer: Result<Value, mlua::Error>,
) -> bool {
    call_ensures(call_on_region, (&lua, &function, text, &table, &value), answer)
}

/// Calling `function` on a text and a table may come to `answer`.
pub closed spec fn may_answer_on_node(
    lua: Lua,
    function: Function,
    text: &str,
    table: Table,
    answer: Result<Value, mlua::Error>,
) -> bool {
    call_ensures(call_on_node, (&lua, &function, text, &table), answer)
}

/// Calling `function` on a table may come to `answer`.
pub closed spec fn may_answer_on_rows(
    lua: Lua,
    function: Function,
    table: Table,
    answer: Result<Value, mlua::Error>,
) -> bool {
    call_ensures(call_on_rows, (&lua, &function, &table), answer)
}

/// What the predicates on calls stand for.
pub(crate) proof fn lemma_calls()
    ensures
        forall|lua: Lua, value: Value, item: LuaItem|
            #![trigger may_be(lua, value, item)]
            #![trigger call_ensures(item_in, (&lua, value), item)]
            may_be(lua, value, item) == call_ensures(item_in, (&lua, value), item),
        forall|lua: Lua, table: Table, key: &str, value: Result<Value, mlua::Error>|
            #![trigger may_hold(lua, table, key, value)]
            #![trigger call_ensures(field, (&lua, &table, key), value)]
            may_hold(lua, table, key, value) == call_ensures(field, (&lua, &table, key), value),
        forall|lua: Lua, table: Table, key: &str, inner: Result<Table, mlua::Error>|
            #![trigger may_hold_table(lua, table, key, inner)]
            #![trigger call_ensures(table_field, (&lua, &table, key), inner)]
            may_hold_table(lua, table, key, inner) == call_ensures(table_field, (&lua, &table, key), inner),
        forall|lua: Lua, table: Table, key: &str, text: Result<String, mlua::Error>|
            #![trigger may_hold_text(lua, table, key, text)]
            #![trigger call_ensures(text_field, (&lua, &table, key), text)]
            may_hold_text(lua, table, key, text) == call_ensures(text_field, (&lua, &table, key), text),
        forall|lua: Lua, table: Table, key: &str, note: Result<Option<String>, mlua::Error>|
            #![trigger may_hold_note(lua, table, key, note)]
            #![trigger call_ensures(note_field, (&lua, &table, key), note)]
            may_hold_note(lua, table, key, note) == call_ensures(note_field, (&lua, &table, key), note),
        forall|lua: Lua, table: Table, key: &str, offset: Result<usize, mlua::Error>|
            #![trigger may_hold_offset(lua, table, key, offset)]
            #![trigger call_ensures(offset_field, (&lua, &table, key), offset)]
            may_hold_offset(lua, table, key, offset) == call_ensures(offset_field, (&lua, &table, key), offset),
        forall|lua: Lua, table: Table, key: &str, integer: Result<i64, mlua::Error>|
            #![trigger may_hold_integer(lua, table, key, integer)]
            #![trigger call_ensures(integer_field, (&lua, &table, key), integer)]
            may_hold_integer(lua, table, key, integer) == call_ensures(integer_field, (&lua, &table, key), integer),
        forall|lua: Lua, array: Table, items: Vec<Result<Table, mlua::Error>>|
            #![trigger may_list_tables(lua, array, items)]
            #![trigger call_ensures(tables_in, (&lua, &array), items)]
            may_list_tables(lua, array, items) == call_ensures(tables_in, (&lua, &array), items),
        forall|lua: Lua, array: Table, items: Vec<Result<Function, mlua::Error>>|
            #![trigger may_list_functions(lua, array, items)]
            #![trigger call_ensures(functions_in, (&lua, &array), items)]
            may_list_functions(lua, array, items) == call_ensures(functions_in, (&lua, &array), items),
        forall|lua: Lua, function: Function, own: bool|
            #![trigger may_own_function(lua, function, own)]
            #![trigger call_ensures(owns_function, (&lua, &function), own)]
            may_own_function(lua, function, own) == call_ensures(owns_function, (&lua, &function), own),
        forall|lua: Lua, value: Value, own: bool|
            #![trigger may_own_value(lua, value, own)]
            #![trigger call_ensures(owns_value, (&lua, &value), own)]
            may_own_value(lua, value, own) == call_ensures(owns_value, (&lua, &value), own),
        forall|lua: Lua, table: Table, own: bool|
            #![trigger may_own_table(lua, table, own)]
            #![trigger call_ensures(owns_table, (&lua, &table), own)]
            may_own_table(lua, table, own) == call_ensures(owns_table, (&lua, &table), own),
        forall|lua: Lua, function: Function, text: &str, table: Table, value: Value, answer: Result<Value, mlua::Error>|
            #![trigger may_answer_on_region(lua, function, text, table, value, answer)]
            #![trigger call_ensures(call_on_region, (&lua, &function, text, &table, &value), answer)]
            may_answer_on_region(lua, function, text, table, value, answer) == call_ensures(call_on_region, (&lua, &function, text, &table, &value), answer),
        forall|lua: Lua, function: Function, text: &str, table: Table, answer: Result<Value, mlua::Error>|
            #![trigger may_answer_on_node(lua, function, text, table, answer)]
            #![trigger call_ensures(call_on_node, (&lua, &function, text, &table), answer)]
            may_answer_on_node(lua, function, text, table, answer) == call_ensures(call_on_node, (&lua, &function, text, &table), answer),
        forall|lua: Lua, function: Function, table: Table, answer: Result<Value, mlua::Error>|
            #![trigger may_answer_on_rows(lua, function, table, answer)]
            #![trigger call_ensures(call_on_rows, (&lua, &function, &table), answer)]
            may_answer_on_rows(lua, function, table, answer) == call_ensures(call_on_rows, (&lua, &function, &table), answer),
        forall|lua: Lua, table: Result<Table, mlua::Error>|
            #![trigger may_make(lua, table)]
            #![trigger call_ensures(new_table, (&lua,), table)]
            may_make(lua, table) == call_ensures(new_table, (&lua,), table),
        forall|lua: Lua, array: Table, item: Table, done: Result<(), mlua::Error>|
            #![trigger may_push(lua, array, item, done)]
            #![trigger call_ensures(push_table, (&lua, &array, &item), done)]
            may_push(lua, array, item, done) == call_ensures(push_table, (&lua, &array, &item), done),
{
}

/// What a field is set to.
pub enum FieldValue<'a> {
    /// An integer.
    Integer(u64),
    /// A text.
    Text(&'a str),
    /// A Lua value.
    Value(&'a Value),
}

/// A field to set.
pub struct Field<'a> {
    /// Its key.
    pub key: &'static str,
    /// What it is set to.
    pub value: FieldValue<'a>,
}

/// A Lua value among the fields is one of the state `lua`.
pub open spec fn fields_owned(lua: Lua, fields: Seq<Field<'_>>) -> bool {
    forall|k: int|
        0 <= k < fields.len() ==> ((#[trigger] fields[k]).value matches FieldValue::Value(value)
            ==> may_own_value(lua, *value, true))
}

/// Setting `field` of `table` may come to `done`.
pub closed spec fn may_set(
    lua: Lua,
    table: Table,
    field: Field<'_>,
    done: Result<(), mlua::Error>,
) -> bool {
    match field.value {
        FieldValue::Integer(value) => call_ensures(
            set_integer,
            (&lua, &table, field.key, value),
            done,
        ),
        FieldValue::Text(value) => call_ensures(set_text, (&lua, &table, field.key, value), done),
        FieldValue::Value(value) => call_ensures(set_value, (&lua, &table, field.key, value), done),
    }
}

/// Making an empty table may come to `table`.
pub closed spec fn may_make(lua: Lua, table: Result<Table, mlua::Error>) -> bool {
    call_ensures(new_table, (&lua,), table)
}

/// Appending `item` to `array` may come to `done`.
pub closed spec fn may_push(
    lua: Lua,
    array: Table,
    item: Table,
    done: Result<(), mlua::Error>,
) -> bool {
    call_ensures(push_table, (&lua, &array, &item), done)
}

/// Setting the first `n` fields of `table`, in order, may come to `done`; the
/// first error ends it.
pub open spec fn fills(
    lua: Lua,
    table: Table,
    fields: Seq<Field<'_>>,
    n: int,
    done: Result<(), mlua::Error>,
) -> bool
    decreases n,
{
    if n <= 0 {
        done is Ok
    } else {
        ||| done is Err && fills(lua, table, fields, n - 1, done)
        ||| fills(lua, table, fields, n - 1, Ok(())) && may_set(lua, table, fields[n - 1], done)
    }
}

/// Making a table with `fields` may come to `made`.
pub open spec fn makes_table(
    lua: Lua,
    fields: Seq<Field<'_>>,
    made: Result<Table, mlua::Error>,
) -> bool {
    exists|fresh: Result<Table, mlua::Error>| #[trigger]
        may_make(lua, fresh) && match (fresh, made) {
            (Ok(table), Ok(filled)) => filled == table && fills(
                lua,
                table,
                fields,
                fields.len() as int,
                Ok(()),
            ),
            (Ok(table), Err(error)) => fills(lua, table, fields, fields.len() as int, Err(error)),
            (Err(error), Err(reported)) => reported == error,
            (Err(_), Ok(_)) => false,
        }
}

/// An error stays the result of setting further fields.
proof fn lemma_filled_short(
    lua: Lua,
    table: Table,
    fields: Seq<Field<'_>>,
    k: int,
    n: int,
    error: mlua::Error,
)
    requires
        0 <= k <= n,
        fills(lua, table, fields, k, Err(error)),
    ensures
        fills(lua, table, fields, n, Err(error)),
    decreases n,
{
    if k < n {
        lemma_filled_short(lua, table, fields, k, n - 1, error);
    }
}

/// Sets one field.
fn set_field(lua: &Lua, table: &Table, field: &Field<'_>) -> (done: Result<(), mlua::Error>)
    requires
        may_own_table(*lua, *table, true),
        field.value matches FieldValue::Value(value) ==> may_own_value(*lua, *value, true),
    ensures
        may_set(*lua, *table, *field, done),
{
    match &field.value {
        FieldValue::Integer(value) => set_integer(lua, table, field.key, *value),
        FieldValue::Text(value) => set_text(lua, table, field.key, *value),
        FieldValue::Value(value) => set_value(lua, table, field.key, *value),
    }
}

/// Makes a table with `fields`, set in order.
pub(crate) fn table_with(lua: &Lua, fields: &Vec<Field<'_>>) -> (made: Result<Table, mlua::Error>)
    requires
        fields_owned(*lua, fields@),
    ensures
        makes_table(*lua, fields@, made),
        made matches Ok(table) ==> may_own_table(*lua, table, true),
{
    let fresh = new_table(lua);
    let ghost given = fresh;
    assert(may_make(*lua, given));
    let table = match fresh {
        Ok(table) => table,
        Err(error) => return Err(error),
    };
    assert(may_own_table(*lua, table, true));
    let mut k: usize = 0;
    while k < fields.len()
        invariant
            k <= fields@.len(),
            fields_owned(*lua, fields@),
            may_own_table(*lua, table, true),
            may_make(*lua, Ok(table)),
            fills(*lua, table, fields@, k as int, Ok(())),
        decreases fields.len() - k,
    {
        let done = set_field(lua, &table, &fields[k]);
        let ghost end = done;
        assert(fills(*lua, table, fields@, k + 1, end));
        match done {
            Ok(unit) => {
                assert(unit == ());
            },
            Err(error) => {
                proof {
                    lemma_filled_short(
                        *lua,
                        table,
                        fields@,
                        k + 1,
                        fields@.len() as int,
                        error,
                    );
                }
                return Err(error);
            },
        }
        k = k + 1;
    }
    Ok(table)
}

/// Every one of the first `n` fields was set.
proof fn lemma_all_set(lua: Lua, table: Table, fields: Seq<Field<'_>>, n: int)
    requires
        0 <= n <= fields.len(),
        fills(lua, table, fields, n, Ok(())),
    ensures
        forall|k: int| 0 <= k < n ==> may_set(lua, table, #[trigger] fields[k], Ok(())),
    decreases n,
{
    if n > 0 {
        lemma_all_set(lua, table, fields, n - 1);
    }
}

/// A table made with fields is a new one in which every one of them was set.
pub proof fn law_tables_are_made_with_every_field(lua: Lua, fields: Seq<Field<'_>>, table: Table)
    requires
        makes_table(lua, fields, Ok(table)),
    ensures
        may_make(lua, Ok(table)),
        forall|k: int| 0 <= k < fields.len() ==> may_set(lua, table, #[trigger] fields[k], Ok(())),
{
    let made = Ok::<Table, mlua::Error>(table);
    let fresh = choose|fresh: Result<Table, mlua::Error>| #[trigger]
        may_make(lua, fresh) && match (fresh, made) {
            (Ok(table), Ok(filled)) => filled == table && fills(
                lua,
                table,
                fields,
                fields.len() as int,
                Ok(()),
            ),
            (Ok(table), Err(error)) => fills(lua, table, fields, fields.len() as int, Err(error)),
            (Err(error), Err(reported)) => reported == error,
            (Err(_), Ok(_)) => false,
        };
    assert(fresh == made);
    lemma_all_set(lua, table, fields, fields.len() as int);
}

/// Values go by the names that Lua has for their kinds.
pub proof fn law_kinds_have_names()
    ensures
        LuaKind::Boolean.label() == "boolean"@,
        LuaKind::LightUserData.label() == "lightuserdata"@,
        LuaKind::Integer.label() == "integer"@,
        LuaKind::Number.label() == "number"@,
        LuaKind::Text.label() == "string"@,
        LuaKind::Table.label() == "table"@,
        LuaKind::Function.label() == "function"@,
        LuaKind::Thread.label() == "thread"@,
        LuaKind::UserData.label() == "userdata"@,
        LuaKind::Error.label() == "error"@,
        LuaKind::Other.label() == "other"@,
{
}

} // verus!
