//! Languages defined by Lua configuration tables.

use crate::diagnostics::FailedNode;
use crate::document::Document;
use crate::encoding::PositionEncoding;
use crate::engine::{Engine, EngineConfig};
use crate::language::Language;
use crate::lsp::{Diagnostic, DiagnosticSeverity, DocumentSymbol, Range, SymbolKind};
use crate::lua::{owns_function, owns_table, owns_value, LuaCtx};
use crate::lua_notice::{words_of, LuaNotice, LuaWatch};
use crate::lua_pass::LuaPass;
use crate::lua_table::{
    call_on_node, call_on_rows, field, functions_in, integer_field, item_in, new_table, note_field,
    offset_field, push_table, table_field, table_with, tables_in, text_field, Field, FieldValue,
    LuaItem, LuaKind,
};
use crate::model::TreeModel;
use crate::node::NodeId;
use crate::schedule::{BoxedPass, Schedule};
use crate::span::Span;
use crate::status::status_name;
use mlua::{Function, Lua, Table, Value};
use vstd::prelude::*;

verus! {

/// mlua's `Lua::clone`: another handle to the same state. The value is opaque
/// here, so nothing is claimed of it; contracts speak of it as what this call
/// returns.
pub assume_specification[ <mlua::Lua as Clone>::clone ](lua: &mlua::Lua) -> (copy: mlua::Lua);

/// An optional function of a configuration table.
pub enum HookField {
    /// It is not there.
    Absent,
    /// It is there.
    Given(Function),
    /// Something else is there, of this kind.
    Wrong(LuaKind),
}

/// Why a configuration table makes no language.
#[derive(Debug)]
pub enum LuaConfigError {
    /// The configuration is no table.
    NotATable,
    /// The configuration is a table of another Lua state.
    OtherState,
    /// Lua reported an error, e.g. a field that is missing or of another type.
    Lua(mlua::Error),
    /// `passes` lists no function.
    NoPasses,
    /// `diagnostic` is of this kind, and no function.
    DiagnosticNotAFunction(LuaKind),
    /// `symbols` is of this kind, and no function.
    SymbolsNotAFunction(LuaKind),
}

/// Takes the table out of a configuration value, if it is one.
#[verifier::external_body]
pub(crate) fn table_of(config: Value) -> (table: Option<Table>) {
    match config {
        Value::Table(table) => Some(table),
        _ => None,
    }
}

/// The optional function that a field holds.
pub open spec fn hook_in(item: LuaItem) -> HookField {
    match item {
        LuaItem::Nil => HookField::Absent,
        LuaItem::Function(function) => HookField::Given(function),
        LuaItem::Text(_) => HookField::Wrong(LuaKind::Text),
        LuaItem::Table(_) => HookField::Wrong(LuaKind::Table),
        LuaItem::Other(kind) => HookField::Wrong(kind),
    }
}

/// The field `key` of `table` may read as the optional function `hook`.
pub open spec fn may_hook(
    lua: Lua,
    table: Table,
    key: &str,
    hook: Result<HookField, mlua::Error>,
) -> bool {
    exists|value: Result<Value, mlua::Error>| #[trigger]
        crate::lua_table::may_hold(lua, table, key, value) && match value {
            Ok(value) => exists|item: LuaItem| #[trigger]
                crate::lua_table::may_be(lua, value, item) && hook == Ok::<HookField, mlua::Error>(
                    hook_in(item),
                ),
            Err(error) => hook == Err::<HookField, mlua::Error>(error),
        }
}

/// Reads an optional function.
fn read_hook(lua: &Lua, table: &Table, key: &str) -> (hook: Result<HookField, mlua::Error>)
    requires
        crate::lua_table::may_own_table(*lua, *table, true),
    ensures
        may_hook(*lua, *table, key, hook),
{
    proof {
        crate::lua_table::lemma_calls();
    }
    let value = field(lua, table, key);
    let ghost read = value;
    assert(crate::lua_table::may_hold(*lua, *table, key, read));
    let value = match value {
        Ok(value) => value,
        Err(error) => return Err(error),
    };
    let item = item_in(lua, value);
    let ghost found = item;
    assert(crate::lua_table::may_be(*lua, read->Ok_0, found));
    Ok(
        match item {
            LuaItem::Nil => HookField::Absent,
            LuaItem::Function(function) => HookField::Given(function),
            LuaItem::Text(_) => HookField::Wrong(LuaKind::Text),
            LuaItem::Table(_) => HookField::Wrong(LuaKind::Table),
            LuaItem::Other(kind) => HookField::Wrong(kind),
        },
    )
}

/// The first `n` items are all functions.
pub open spec fn all_functions(items: Seq<Result<Function, mlua::Error>>, n: int) -> bool {
    forall|k: int| 0 <= k < n ==> #[trigger] items[k] is Ok
}

/// The items are `functions`, or the first that is none is the error.
pub open spec fn collected(
    items: Seq<Result<Function, mlua::Error>>,
    functions: Result<Vec<Function>, mlua::Error>,
) -> bool {
    match functions {
        Ok(functions) => {
            &&& functions@.len() == items.len()
            &&& forall|k: int|
                0 <= k < items.len() ==> #[trigger] items[k] == Ok::<Function, mlua::Error>(
                    functions@[k],
                )
        },
        Err(error) => exists|k: int|
            0 <= k < items.len() && all_functions(items, k) && #[trigger] items[k] == Err::<
                Function,
                mlua::Error,
            >(error),
    }
}

/// Takes functions out of items, unless one is none.
pub fn collect_functions(items: Vec<Result<Function, mlua::Error>>) -> (functions: Result<
    Vec<Function>,
    mlua::Error,
>)
    ensures
        collected(items@, functions),
{
    let ghost given = items@;
    let mut functions: Vec<Function> = Vec::new();
    for item in it: items.into_iter()
        invariant
            it.seq() == given,
            items@ == given,
            functions@.len() == it.index(),
            forall|k: int|
                0 <= k < it.index() ==> #[trigger] given[k] == Ok::<Function, mlua::Error>(
                    functions@[k],
                ),
    {
        assert(item == given[it.index() as int]);
        match item {
            Ok(function) => functions.push(function),
            Err(error) => {
                assert(all_functions(given, it.index() as int));
                return Err(error);
            },
        }
    }
    Ok(functions)
}

/// The array `passes` of `table` may read as `passes`.
pub open spec fn may_list(
    lua: Lua,
    table: Table,
    passes: Result<Vec<Function>, mlua::Error>,
) -> bool {
    exists|array: Result<Table, mlua::Error>| #[trigger]
        crate::lua_table::may_hold_table(lua, table, "passes", array) && match array {
            Ok(array) => exists|items: Vec<Result<Function, mlua::Error>>| #[trigger]
                crate::lua_table::may_list_functions(lua, array, items) && collected(
                    items@,
                    passes,
                ),
            Err(error) => passes == Err::<Vec<Function>, mlua::Error>(error),
        }
}

/// Reads the array `passes`.
fn read_passes(lua: &Lua, table: &Table) -> (passes: Result<Vec<Function>, mlua::Error>)
    requires
        crate::lua_table::may_own_table(*lua, *table, true),
    ensures
        may_list(*lua, *table, passes),
{
    proof {
        crate::lua_table::lemma_calls();
    }
    let array = table_field(lua, table, "passes");
    let ghost read = array;
    assert(crate::lua_table::may_hold_table(*lua, *table, "passes", read));
    let array = match array {
        Ok(array) => array,
        Err(error) => return Err(error),
    };
    let items = functions_in(lua, &array);
    let ghost listed = items;
    assert(crate::lua_table::may_list_functions(*lua, array, listed));
    collect_functions(items)
}

/// Runs a chunk of Lua code, by mlua's `Lua::load` and `Chunk::eval`. What Lua
/// code answers is up to it, so nothing is claimed of the result.
#[verifier::external_body]
pub(crate) fn evaluate(lua: &Lua, script: &str) -> (value: Result<Value, mlua::Error>) {
    lua.load(script).eval()
}

/// mlua's `Lua::new`: a fresh Lua state with the safe part of the standard
/// library. The value is opaque here, so nothing is claimed of it.
pub assume_specification[ mlua::Lua::new ]() -> (lua: mlua::Lua);

impl LuaConfigError {
    /// What went wrong, in words.
    pub fn message(&self) -> (message: String)
        ensures
            match *self {
                LuaConfigError::NotATable => message@ == "config must be a table"@,
                LuaConfigError::OtherState => message@
                    == "config must be a table of the same Lua state"@,
                LuaConfigError::Lua(error) => crate::lua_notice::may_say(error, message@),
                LuaConfigError::NoPasses => message@
                    == "config.passes must list at least one function"@,
                LuaConfigError::DiagnosticNotAFunction(kind) => message@
                    == "config.diagnostic must be a function, got "@ + kind.label(),
                LuaConfigError::SymbolsNotAFunction(kind) => message@
                    == "config.symbols must be a function, got "@ + kind.label(),
            },
    {
        match self {
            LuaConfigError::NotATable => "config must be a table".to_owned(),
            LuaConfigError::OtherState =>
                "config must be a table of the same Lua state".to_owned(),
            LuaConfigError::Lua(error) => words_of(error),
            LuaConfigError::NoPasses =>
                "config.passes must list at least one function".to_owned(),
            LuaConfigError::DiagnosticNotAFunction(kind) => {
                let mut message = "config.diagnostic must be a function, got ".to_owned();
                message.append(kind.name());
                message
            },
            LuaConfigError::SymbolsNotAFunction(kind) => {
                let mut message = "config.symbols must be a function, got ".to_owned();
                message.append(kind.name());
                message
            },
        }
    }
}

/// The boxed pass is the Lua function `function`, as the pass of round `index`,
/// with `watch` told of what goes wrong.
pub open spec fn scheduled(
    boxed: BoxedPass<LuaCtx>,
    lua: Lua,
    function: Function,
    index: int,
    watch: LuaWatch,
) -> bool {
    exists|pass: LuaPass| #[trigger]
        boxed.holds(&pass) && cloned(lua, pass.state()) && pass.body() == function && pass.round()
            == index && pass.watcher() == watch
}

/// The boxed passes are the Lua functions `functions`, in order.
pub open spec fn all_scheduled(
    passes: Seq<BoxedPass<LuaCtx>>,
    lua: Lua,
    functions: Seq<Function>,
    watch: LuaWatch,
) -> bool {
    &&& passes.len() == functions.len()
    &&& forall|k: int|
        0 <= k < functions.len() ==> scheduled(
            #[trigger] passes[k],
            lua,
            functions[k],
            k,
            watch,
        )
}

/// Schedules `functions`, of which there must be one, with `watch` told of what
/// goes wrong.
pub fn schedule_of(lua: &Lua, functions: Vec<Function>, watch: &LuaWatch) -> (schedule: Result<
    Schedule<LuaCtx>,
    LuaConfigError,
>)
    ensures
        match schedule {
            Ok(schedule) => functions@.len() > 0 && all_scheduled(
                schedule@,
                *lua,
                functions@,
                *watch,
            ),
            Err(error) => functions@.len() == 0 && error is NoPasses,
        },
{
    if functions.len() == 0 {
        return Err(LuaConfigError::NoPasses);
    }
    let ghost given = functions@;
    let mut schedule: Schedule<LuaCtx> = Schedule::new();
    let mut index: usize = 0;
    for function in it: functions.into_iter()
        invariant
            it.seq() == given,
            index == it.index(),
            given.len() <= usize::MAX,
            all_scheduled(schedule@, *lua, given.take(it.index() as int), *watch),
    {
        let ghost k = it.index() as int;
        let ghost before = schedule@;
        assert(function == given[k]);
        let state = lua.clone();
        let pass = LuaPass::new(state, function, index).watched(watch.clone());
        let ghost made = pass;
        schedule.push(pass);
        proof {
            assert(schedule@.last().holds(&made));
            assert(scheduled(schedule@[k], *lua, given[k], k, *watch));
            assert forall|j: int| 0 <= j < k + 1 implies scheduled(
                #[trigger] schedule@[j],
                *lua,
                given.take(k + 1)[j],
                j,
                *watch,
            ) by {
                if j < k {
                    assert(schedule@.drop_last()[j] == schedule@[j]);
                    assert(scheduled(before[j], *lua, given.take(k)[j], j, *watch));
                }
            }
        }
        index = index + 1;
    }
    assert(given.take(given.len() as int) =~= given);
    Ok(schedule)
}

/// The function in the field `diagnostic`, if there is one.
pub fn diagnostic_hook(field: HookField) -> (hook: Result<Option<Function>, LuaConfigError>)
    ensures
        match field {
            HookField::Absent => hook == Ok::<Option<Function>, LuaConfigError>(None),
            HookField::Given(f) => hook == Ok::<Option<Function>, LuaConfigError>(Some(f)),
            HookField::Wrong(kind) => hook == Err::<Option<Function>, LuaConfigError>(
                LuaConfigError::DiagnosticNotAFunction(kind),
            ),
        },
{
    match field {
        HookField::Absent => Ok(None),
        HookField::Given(function) => Ok(Some(function)),
        HookField::Wrong(kind) => Err(LuaConfigError::DiagnosticNotAFunction(kind)),
    }
}

/// The function in the field `symbols`, if there is one.
pub fn symbols_hook(field: HookField) -> (hook: Result<Option<Function>, LuaConfigError>)
    ensures
        match field {
            HookField::Absent => hook == Ok::<Option<Function>, LuaConfigError>(None),
            HookField::Given(f) => hook == Ok::<Option<Function>, LuaConfigError>(Some(f)),
            HookField::Wrong(kind) => hook == Err::<Option<Function>, LuaConfigError>(
                LuaConfigError::SymbolsNotAFunction(kind),
            ),
        },
{
    match field {
        HookField::Absent => Ok(None),
        HookField::Given(function) => Ok(Some(function)),
        HookField::Wrong(kind) => Err(LuaConfigError::SymbolsNotAFunction(kind)),
    }
}

/// A language defined by a Lua configuration table.
///
/// Build with [`LuaLanguage::from_script`] and hand it to the server loop.
pub struct LuaLanguage {
    lua: Lua,
    engine: Engine<LuaCtx>,
    root_ctx: LuaCtx,
    name: String,
    diagnostic_fn: Option<Function>,
    symbols_fn: Option<Function>,
    watch: LuaWatch,
}

/// What a [`LuaLanguage`] is made of.
pub struct LuaModel {
    /// The Lua state.
    pub lua: Lua,
    /// The passes.
    pub passes: Seq<BoxedPass<LuaCtx>>,
    /// The configuration of the engine that runs them.
    pub settings: EngineConfig,
    /// The root context.
    pub root_ctx: LuaCtx,
    /// The name.
    pub name: Seq<char>,
    /// How failing regions become diagnostics.
    pub diagnostic: Option<Function>,
    /// How trees are outlined.
    pub symbols: Option<Function>,
    /// Who is told of what goes wrong.
    pub watch: LuaWatch,
}

impl View for LuaLanguage {
    type V = LuaModel;

    closed spec fn view(&self) -> LuaModel {
        LuaModel {
            lua: self.lua,
            passes: self.engine.passes(),
            settings: self.engine.settings(),
            root_ctx: self.root_ctx,
            name: self.name@,
            diagnostic: self.diagnostic_fn,
            symbols: self.symbols_fn,
            watch: self.watch,
        }
    }
}

/// Every one of the passes takes every region.
pub open spec fn all_accept(passes: Seq<BoxedPass<LuaCtx>>) -> bool {
    forall|r: int, source: &str, span: Span, ctx: &LuaCtx|
        0 <= r < passes.len() ==> #[trigger] passes[r].accepts(source, span, ctx)
}

impl LuaLanguage {
    /// The passes take every region.
    #[verifier::type_invariant]
    spec fn total(&self) -> bool {
        all_accept(self.engine.passes())
    }

    /// Loading `config` may come to `result`: the fields are read in the order
    /// `name`, `root_ctx`, `passes`, `diagnostic`, `symbols`, and the first
    /// fault ends it.
    pub open spec fn may_load(
        lua: Lua,
        config: Value,
        watch: LuaWatch,
        result: Result<LuaLanguage, LuaConfigError>,
    ) -> bool {
        exists|table: Option<Table>| #[trigger]
            may_be_table(config, table) && match table {
                Some(table) => placed(lua, table, watch, result),
                None => result == Err::<LuaLanguage, LuaConfigError>(LuaConfigError::NotATable),
            }
    }
}

/// `table` may be the table in `config`, if it is one.
pub closed spec fn may_be_table(config: Value, table: Option<Table>) -> bool {
    call_ensures(table_of, (config,), table)
}

/// Loading goes on with a table of the right state.
pub open spec fn placed(
    lua: Lua,
    table: Table,
    watch: LuaWatch,
    result: Result<LuaLanguage, LuaConfigError>,
) -> bool {
    exists|own: bool| #[trigger]
        crate::lua_table::may_own_table(lua, table, own) && if own {
            named(lua, table, watch, result)
        } else {
            result == Err::<LuaLanguage, LuaConfigError>(LuaConfigError::OtherState)
        }
}

/// Loading goes on with the name.
pub open spec fn named(
    lua: Lua,
    table: Table,
    watch: LuaWatch,
    result: Result<LuaLanguage, LuaConfigError>,
) -> bool {
    exists|name: Result<String, mlua::Error>| #[trigger]
        crate::lua_table::may_hold_text(lua, table, "name", name) && match name {
            Ok(name) => rooted(lua, table, watch, name, result),
            Err(error) => result == Err::<LuaLanguage, LuaConfigError>(LuaConfigError::Lua(error)),
        }
}

/// Loading goes on with the root context.
pub open spec fn rooted(
    lua: Lua,
    table: Table,
    watch: LuaWatch,
    name: String,
    result: Result<LuaLanguage, LuaConfigError>,
) -> bool {
    exists|root: Result<Value, mlua::Error>| #[trigger]
        crate::lua_table::may_hold(lua, table, "root_ctx", root) && match root {
            Ok(root) => passed(lua, table, watch, name, LuaCtx(root), result),
            Err(error) => result == Err::<LuaLanguage, LuaConfigError>(LuaConfigError::Lua(error)),
        }
}

/// Loading goes on with the passes.
pub open spec fn passed(
    lua: Lua,
    table: Table,
    watch: LuaWatch,
    name: String,
    root: LuaCtx,
    result: Result<LuaLanguage, LuaConfigError>,
) -> bool {
    exists|passes: Result<Vec<Function>, mlua::Error>| #[trigger]
        may_list(lua, table, passes) && match passes {
            Ok(functions) => if functions@.len() == 0 {
                result == Err::<LuaLanguage, LuaConfigError>(LuaConfigError::NoPasses)
            } else {
                diagnosed(lua, table, watch, name, root, functions@, result)
            },
            Err(error) => result == Err::<LuaLanguage, LuaConfigError>(LuaConfigError::Lua(error)),
        }
}

/// Loading goes on with the diagnostic hook.
pub open spec fn diagnosed(
    lua: Lua,
    table: Table,
    watch: LuaWatch,
    name: String,
    root: LuaCtx,
    functions: Seq<Function>,
    result: Result<LuaLanguage, LuaConfigError>,
) -> bool {
    exists|hook: Result<HookField, mlua::Error>| #[trigger]
        may_hook(lua, table, "diagnostic", hook) && match hook {
            Ok(HookField::Wrong(kind)) => result == Err::<LuaLanguage, LuaConfigError>(
                LuaConfigError::DiagnosticNotAFunction(kind),
            ),
            Ok(HookField::Given(f)) => outlined(
                lua,
                table,
                watch,
                name,
                root,
                functions,
                Some(f),
                result,
            ),
            Ok(HookField::Absent) => outlined(
                lua,
                table,
                watch,
                name,
                root,
                functions,
                None,
                result,
            ),
            Err(error) => result == Err::<LuaLanguage, LuaConfigError>(LuaConfigError::Lua(error)),
        }
}

/// Loading ends with the symbols hook.
pub open spec fn outlined(
    lua: Lua,
    table: Table,
    watch: LuaWatch,
    name: String,
    root: LuaCtx,
    functions: Seq<Function>,
    diagnostic: Option<Function>,
    result: Result<LuaLanguage, LuaConfigError>,
) -> bool {
    exists|hook: Result<HookField, mlua::Error>| #[trigger]
        may_hook(lua, table, "symbols", hook) && match hook {
            Ok(HookField::Wrong(kind)) => result == Err::<LuaLanguage, LuaConfigError>(
                LuaConfigError::SymbolsNotAFunction(kind),
            ),
            Ok(HookField::Given(f)) => made(
                lua,
                watch,
                name,
                root,
                functions,
                diagnostic,
                Some(f),
                result,
            ),
            Ok(HookField::Absent) => made(
                lua,
                watch,
                name,
                root,
                functions,
                diagnostic,
                None,
                result,
            ),
            Err(error) => result == Err::<LuaLanguage, LuaConfigError>(LuaConfigError::Lua(error)),
        }
}

/// The result is a language made of these parts, with the default engine
/// configuration.
pub open spec fn made(
    lua: Lua,
    watch: LuaWatch,
    name: String,
    root: LuaCtx,
    functions: Seq<Function>,
    diagnostic: Option<Function>,
    symbols: Option<Function>,
    result: Result<LuaLanguage, LuaConfigError>,
) -> bool {
    match result {
        Ok(language) => {
            &&& language@.lua == lua
            &&& language@.name == name@
            &&& language@.root_ctx == root
            &&& all_scheduled(language@.passes, lua, functions, watch)
            &&& language@.settings == (EngineConfig { enforce_shrink: false, max_rounds: None })
            &&& language@.diagnostic == diagnostic
            &&& language@.symbols == symbols
            &&& language@.watch == watch
        },
        Err(_) => false,
    }
}

/// The optional function that a field comes to.
pub open spec fn function_in(field: HookField) -> Option<Function> {
    match field {
        HookField::Given(function) => Some(function),
        _ => None,
    }
}

/// A loaded language is what its configuration table says: its state, name,
/// root context, passes in order and hooks are those read from the table, and
/// its engine has the default configuration.
pub proof fn law_loaded_as_configured(
    lua: Lua,
    config: Value,
    watch: LuaWatch,
    language: LuaLanguage,
)
    requires
        LuaLanguage::may_load(lua, config, watch, Ok(language)),
    ensures
        language@.lua == lua,
        language@.watch == watch,
        language@.settings == (EngineConfig { enforce_shrink: false, max_rounds: None }),
        language@.passes.len() > 0,
        exists|
            table: Table,
            name: String,
            functions: Vec<Function>,
            diagnostic: HookField,
            symbols: HookField,
        |
            #![trigger
                crate::lua_table::may_hold_text(lua, table, "name", Ok(name)),
                may_list(lua, table, Ok(functions)),
                may_hook(lua, table, "diagnostic", Ok(diagnostic)),
                may_hook(lua, table, "symbols", Ok(symbols))]
            {
                &&& may_be_table(config, Some(table))
                &&& crate::lua_table::may_own_table(lua, table, true)
                &&& crate::lua_table::may_hold_text(lua, table, "name", Ok(name))
                &&& language@.name == name@
                &&& crate::lua_table::may_hold(lua, table, "root_ctx", Ok(language@.root_ctx.0))
                &&& may_list(lua, table, Ok(functions))
                &&& all_scheduled(language@.passes, lua, functions@, watch)
                &&& may_hook(lua, table, "diagnostic", Ok(diagnostic))
                &&& language@.diagnostic == function_in(diagnostic)
                &&& may_hook(lua, table, "symbols", Ok(symbols))
                &&& language@.symbols == function_in(symbols)
            },
{
    let result = Ok::<LuaLanguage, LuaConfigError>(language);
    let table = choose|table: Option<Table>| #[trigger]
        may_be_table(config, table) && match table {
            Some(table) => placed(lua, table, watch, result),
            None => result == Err::<LuaLanguage, LuaConfigError>(LuaConfigError::NotATable),
        };
    let table = table->0;
    assert(placed(lua, table, watch, result));
    assert(named(lua, table, watch, result));
    let name = choose|name: Result<String, mlua::Error>| #[trigger]
        crate::lua_table::may_hold_text(lua, table, "name", name) && match name {
            Ok(name) => rooted(lua, table, watch, name, result),
            Err(error) => false,
        };
    let name = name->Ok_0;
    assert(rooted(lua, table, watch, name, result));
    let root = choose|root: Result<Value, mlua::Error>| #[trigger]
        crate::lua_table::may_hold(lua, table, "root_ctx", root) && match root {
            Ok(root) => passed(lua, table, watch, name, LuaCtx(root), result),
            Err(error) => false,
        };
    let root = root->Ok_0;
    assert(passed(lua, table, watch, name, LuaCtx(root), result));
    let passes = choose|passes: Result<Vec<Function>, mlua::Error>| #[trigger]
        may_list(lua, table, passes) && match passes {
            Ok(functions) => functions@.len() > 0 && diagnosed(lua, table, watch, name,
                LuaCtx(root),
                functions@,
                result,
            ),
            Err(error) => false,
        };
    let functions = passes->Ok_0;
    assert(diagnosed(lua, table, watch, name, LuaCtx(root), functions@, result));
    let first = choose|hook: Result<HookField, mlua::Error>| #[trigger]
        may_hook(lua, table, "diagnostic", hook) && match hook {
            Ok(HookField::Wrong(kind)) => false,
            Ok(field) => outlined(lua, table, watch, name,
                LuaCtx(root),
                functions@,
                function_in(field),
                result,
            ),
            Err(error) => false,
        };
    let diagnostic = first->Ok_0;
    assert(outlined(lua, table, watch, name,
        LuaCtx(root),
        functions@,
        function_in(diagnostic),
        result,
    ));
    let second = choose|hook: Result<HookField, mlua::Error>| #[trigger]
        may_hook(lua, table, "symbols", hook) && match hook {
            Ok(HookField::Wrong(kind)) => false,
            Ok(field) => made(lua, watch, name,
                LuaCtx(root),
                functions@,
                function_in(diagnostic),
                function_in(field),
                result,
            ),
            Err(error) => false,
        };
    let symbols = second->Ok_0;
    assert(crate::lua_table::may_hold_text(lua, table, "name", Ok(name)));
    assert(may_list(lua, table, Ok(functions)));
    assert(may_hook(lua, table, "diagnostic", Ok(diagnostic)));
    assert(may_hook(lua, table, "symbols", Ok(symbols)));
}

/// What a configuration error says is so: the configuration is no table, or
/// one of another state; no function is listed; a hook is something else; and
/// any other error is one that Lua reported for one of the fields.
pub proof fn law_load_errors_have_causes(
    lua: Lua,
    config: Value,
    watch: LuaWatch,
    error: LuaConfigError,
)
    requires
        LuaLanguage::may_load(lua, config, watch, Err(error)),
    ensures
        match error {
            LuaConfigError::NotATable => may_be_table(config, None),
            LuaConfigError::OtherState => exists|table: Table| #[trigger]
                may_be_table(config, Some(table)) && crate::lua_table::may_own_table(lua, table, false),
            LuaConfigError::NoPasses => exists|table: Table, passes: Vec<Function>|
                may_be_table(config, Some(table)) && #[trigger] may_list(lua, table, Ok(passes))
                    && passes@.len() == 0,
            LuaConfigError::DiagnosticNotAFunction(kind) => exists|table: Table| #[trigger]
                may_be_table(config, Some(table)) && may_hook(lua, table, "diagnostic",
                    Ok(HookField::Wrong(kind)),
                ),
            LuaConfigError::SymbolsNotAFunction(kind) => exists|table: Table| #[trigger]
                may_be_table(config, Some(table)) && may_hook(lua, table, "symbols",
                    Ok(HookField::Wrong(kind)),
                ),
            LuaConfigError::Lua(error) => exists|table: Table| #[trigger]
                may_be_table(config, Some(table)) && {
                    ||| crate::lua_table::may_hold_text(lua, table, "name", Err(error))
                    ||| crate::lua_table::may_hold(lua, table, "root_ctx", Err(error))
                    ||| may_list(lua, table, Err(error))
                    ||| may_hook(lua, table, "diagnostic", Err(error))
                    ||| may_hook(lua, table, "symbols", Err(error))
                },
        },
{
    let result = Err::<LuaLanguage, LuaConfigError>(error);
    let table = choose|table: Option<Table>| #[trigger]
        may_be_table(config, table) && match table {
            Some(table) => placed(lua, table, watch, result),
            None => result == Err::<LuaLanguage, LuaConfigError>(LuaConfigError::NotATable),
        };
    if table is Some {
        let inner = table->0;
        assert(may_be_table(config, Some(inner)));
        assert(placed(lua, inner, watch, result));
    }
}

/// Lua passes take every region.
proof fn lemma_lua_accepts(
    passes: Seq<BoxedPass<LuaCtx>>,
    lua: Lua,
    functions: Seq<Function>,
    watch: LuaWatch,
)
    requires
        all_scheduled(passes, lua, functions, watch),
    ensures
        all_accept(passes),
{
    assert forall|r: int, source: &str, span: Span, ctx: &LuaCtx|
        0 <= r < passes.len() implies #[trigger] passes[r].accepts(source, span, ctx) by {
        assert(scheduled(passes[r], lua, functions[r], r, watch));
        let pass = choose|pass: LuaPass| #[trigger]
            passes[r].holds(&pass) && cloned(lua, pass.state()) && pass.body() == functions[r]
                && pass.round() == r && pass.watcher() == watch;
        assert(crate::pass::Pass::accepts(&pass, source, span, ctx));
    }
}

impl LuaLanguage {
    /// Loads a language definition from Lua code, in a Lua state of its own.
    pub fn from_script(script: &str) -> (result: Result<Self, LuaConfigError>)
        ensures
            exists|watch: LuaWatch|
                watch.is_silent() && #[trigger] Self::may_run(script, watch, result),
    {
        Self::from_script_watched(script, LuaWatch::silent())
    }

    /// Loads a language definition from Lua code, in a Lua state of its own,
    /// with `watch` told of what goes wrong later.
    pub fn from_script_watched(script: &str, watch: LuaWatch) -> (result: Result<
        Self,
        LuaConfigError,
    >)
        ensures
            Self::may_run(script, watch, result),
    {
        let lua = Lua::new();
        let ghost state = lua;
        assert(call_ensures(Lua::new, (), state));
        let value = evaluate(&lua, script);
        assert(Self::may_evaluate(state, script, value));
        match value {
            Ok(config) => Self::from_config_watched(lua, config, watch),
            Err(error) => Err(LuaConfigError::Lua(error)),
        }
    }

    /// Running `script` in the state `lua` may come to `value`.
    pub closed spec fn may_evaluate(
        lua: Lua,
        script: &str,
        value: Result<Value, mlua::Error>,
    ) -> bool {
        call_ensures(evaluate, (&lua, script), value)
    }

    /// Running `script` as a definition, in a fresh state, may come to
    /// `result`.
    pub open spec fn may_run(
        script: &str,
        watch: LuaWatch,
        result: Result<Self, LuaConfigError>,
    ) -> bool {
        exists|lua: Lua, value: Result<Value, mlua::Error>| #[trigger]
            call_ensures(Lua::new, (), lua) && #[trigger] Self::may_evaluate(
                lua,
                script,
                value,
            ) && match value {
                Ok(config) => Self::may_load(lua, config, watch, result),
                Err(error) => result == Err::<Self, LuaConfigError>(LuaConfigError::Lua(error)),
            }
    }

    /// Builds a language from an already-evaluated configuration table.
    ///
    /// `config` must be a table of the state `lua`.
    pub fn from_config(lua: Lua, config: Value) -> (result: Result<Self, LuaConfigError>)
        ensures
            exists|watch: LuaWatch|
                watch.is_silent() && #[trigger] Self::may_load(lua, config, watch, result),
    {
        Self::from_config_watched(lua, config, LuaWatch::silent())
    }

    /// Builds a language from an already-evaluated configuration table, with
    /// `watch` told of what goes wrong later.
    ///
    /// `config` must be a table of the state `lua`.
    pub fn from_config_watched(lua: Lua, config: Value, watch: LuaWatch) -> (result: Result<
        Self,
        LuaConfigError,
    >)
        ensures
            Self::may_load(lua, config, watch, result),
    {
        proof {
            crate::lua_table::lemma_calls();
        }
        let ghost given = config;
        let found = table_of(config);
        assert(may_be_table(given, found));
        let table = match found {
            Some(table) => table,
            None => return Err(LuaConfigError::NotATable),
        };
        let own = owns_table(&lua, &table);
        assert(crate::lua_table::may_own_table(lua, table, own));
        if !own {
            return Err(LuaConfigError::OtherState);
        }
        let read = text_field(&lua, &table, "name");
        assert(crate::lua_table::may_hold_text(lua, table, "name", read));
        let name = match read {
            Ok(name) => name,
            Err(error) => return Err(LuaConfigError::Lua(error)),
        };
        let read = field(&lua, &table, "root_ctx");
        assert(crate::lua_table::may_hold(lua, table, "root_ctx", read));
        let root_ctx = match read {
            Ok(root) => LuaCtx(root),
            Err(error) => return Err(LuaConfigError::Lua(error)),
        };
        let read = read_passes(&lua, &table);
        assert(may_list(lua, table, read));
        let functions = match read {
            Ok(functions) => functions,
            Err(error) => return Err(LuaConfigError::Lua(error)),
        };
        let ghost listed = functions@;
        let schedule = match schedule_of(&lua, functions, &watch) {
            Ok(schedule) => schedule,
            Err(error) => return Err(error),
        };
        let engine = Engine::new(schedule);
        proof {
            lemma_lua_accepts(engine.passes(), lua, listed, watch);
        }
        let read = read_hook(&lua, &table, "diagnostic");
        assert(may_hook(lua, table, "diagnostic", read));
        let diagnostic_fn = match read {
            Ok(field) => match diagnostic_hook(field) {
                Ok(hook) => hook,
                Err(error) => return Err(error),
            },
            Err(error) => return Err(LuaConfigError::Lua(error)),
        };
        let read = read_hook(&lua, &table, "symbols");
        assert(may_hook(lua, table, "symbols", read));
        let symbols_fn = match read {
            Ok(field) => match symbols_hook(field) {
                Ok(hook) => hook,
                Err(error) => return Err(error),
            },
            Err(error) => return Err(LuaConfigError::Lua(error)),
        };
        Ok(Self { lua, engine, root_ctx, name, diagnostic_fn, symbols_fn, watch })
    }

    /// The language's `name` from the config.
    pub fn name(&self) -> (name: &str)
        ensures
            name@ == self@.name,
    {
        self.name.as_str()
    }

    /// The embedded Lua state (contexts live here).
    pub fn lua(&self) -> (lua: &Lua)
        ensures
            *lua == self@.lua,
    {
        &self.lua
    }
}

/// What the Lua function `diagnostic` returned, if it was a table; a field that
/// is missing or of another type is `None`.
#[derive(Debug)]
pub struct DiagnosticReply {
    /// `message`
    pub message: Option<String>,
    /// `severity`
    pub severity: Option<i64>,
    /// `start`
    pub start: Option<usize>,
    /// `end`
    pub end: Option<usize>,
}

/// The table that stands for a failing node in Lua.
pub open spec fn node_fields<'a>(ctx: &'a LuaCtx, status: &'a str, span: Span) -> Seq<Field<'a>> {
    seq![
        Field { key: "ctx", value: FieldValue::Value(&ctx.0) },
        Field { key: "status", value: FieldValue::Text(status) },
        Field { key: "start", value: FieldValue::Integer(span.start as u64) },
        Field { key: "end", value: FieldValue::Integer(span.end as u64) },
    ]
}

/// Asking about a failing node may come to `answer`: the function is called on
/// the source and a fresh table with the node's `ctx`, `status`, `start` and
/// `end`.
pub open spec fn may_answer_diagnostic(
    lua: Lua,
    function: Function,
    source: &str,
    ctx: &LuaCtx,
    status: &str,
    span: Span,
    answer: Result<Value, mlua::Error>,
) -> bool {
    exists|node: Result<Table, mlua::Error>| #[trigger]
        crate::lua_table::makes_table(lua, node_fields(ctx, status, span), node) && match node {
            Ok(node) => crate::lua_table::may_answer_on_node(lua, function, source, node, answer),
            Err(error) => answer == Err::<Value, mlua::Error>(error),
        }
}

/// Asks about a failing node.
fn ask_diagnostic(
    lua: &Lua,
    function: &Function,
    source: &str,
    ctx: &LuaCtx,
    status: &str,
    span: Span,
) -> (answer: Result<Value, mlua::Error>)
    requires
        crate::lua_table::may_own_function(*lua, *function, true),
        crate::lua_table::may_own_value(*lua, ctx.0, true),
    ensures
        may_answer_diagnostic(*lua, *function, source, ctx, status, span, answer),
        answer matches Ok(answer) ==> crate::lua_table::may_own_value(*lua, answer, true),
{
    proof {
        crate::lua_table::lemma_calls();
    }
    let mut fields: Vec<Field<'_>> = Vec::new();
    fields.push(Field { key: "ctx", value: FieldValue::Value(&ctx.0) });
    fields.push(Field { key: "status", value: FieldValue::Text(status) });
    fields.push(Field { key: "start", value: FieldValue::Integer(span.start as u64) });
    fields.push(Field { key: "end", value: FieldValue::Integer(span.end as u64) });
    assert(fields@ =~= node_fields(ctx, status, span));
    let node = table_with(lua, &fields);
    let ghost made = node;
    assert(crate::lua_table::makes_table(*lua, node_fields(ctx, status, span), made));
    match node {
        Ok(node) => call_on_node(lua, function, source, &node),
        Err(error) => Err(error),
    }
}

/// What was read, if it was.
pub open spec fn kept<T>(read: Result<T, mlua::Error>) -> Option<T> {
    match read {
        Ok(value) => Some(value),
        Err(_) => None,
    }
}

/// What was read, if it was.
fn keep<T>(read: Result<T, mlua::Error>) -> (value: Option<T>)
    ensures
        value == kept(read),
{
    match read {
        Ok(value) => Some(value),
        Err(_) => None,
    }
}

/// An answer about a failing node may read as `reply`: the fields `message`,
/// `severity`, `start` and `end` of a table.
pub open spec fn may_read_diagnostic(
    lua: Lua,
    answer: Value,
    reply: Option<DiagnosticReply>,
) -> bool {
    exists|item: LuaItem| #[trigger]
        crate::lua_table::may_be(lua, answer, item) && match item {
            LuaItem::Table(table) => reply matches Some(reply) && may_read_fields(
                lua,
                table,
                reply,
            ),
            _ => reply is None,
        }
}

/// The same, of a table.
pub open spec fn may_read_fields(lua: Lua, table: Table, reply: DiagnosticReply) -> bool {
    &&& exists|read: Result<String, mlua::Error>| #[trigger]
        crate::lua_table::may_hold_text(lua, table, "message", read) && reply.message == kept(read)
    &&& exists|read: Result<i64, mlua::Error>| #[trigger]
        crate::lua_table::may_hold_integer(lua, table, "severity", read) && reply.severity == kept(
            read,
        )
    &&& exists|read: Result<usize, mlua::Error>| #[trigger]
        crate::lua_table::may_hold_offset(lua, table, "start", read) && reply.start == kept(read)
    &&& exists|read: Result<usize, mlua::Error>| #[trigger]
        crate::lua_table::may_hold_offset(lua, table, "end", read) && reply.end == kept(read)
}

/// Reads an answer about a failing node.
fn read_diagnostic(lua: &Lua, answer: Value) -> (reply: Option<DiagnosticReply>)
    requires
        crate::lua_table::may_own_value(*lua, answer, true),
    ensures
        may_read_diagnostic(*lua, answer, reply),
{
    proof {
        crate::lua_table::lemma_calls();
    }
    let item = item_in(lua, answer);
    let ghost found = item;
    assert(crate::lua_table::may_be(*lua, answer, found));
    let table = match item {
        LuaItem::Table(table) => table,
        _ => return None,
    };
    let message = text_field(lua, &table, "message");
    let severity = integer_field(lua, &table, "severity");
    let start = offset_field(lua, &table, "start");
    let end = offset_field(lua, &table, "end");
    assert(crate::lua_table::may_hold_text(*lua, table, "message", message));
    assert(crate::lua_table::may_hold_integer(*lua, table, "severity", severity));
    assert(crate::lua_table::may_hold_offset(*lua, table, "start", start));
    assert(crate::lua_table::may_hold_offset(*lua, table, "end", end));
    Some(
        DiagnosticReply {
            message: keep(message),
            severity: keep(severity),
            start: keep(start),
            end: keep(end),
        },
    )
}

/// The severity that Lua code means by a number; an error unless it says
/// otherwise.
pub open spec fn severity_for(severity: Option<i64>) -> DiagnosticSeverity {
    match severity {
        Some(2) => DiagnosticSeverity::Warning,
        Some(3) => DiagnosticSeverity::Information,
        Some(4) => DiagnosticSeverity::Hint,
        _ => DiagnosticSeverity::Error,
    }
}

/// The range that a reply gives for a node at `span`: the zero range, which
/// stands for the node's own, unless it sets one of its bounds.
pub open spec fn reply_range(
    reply: DiagnosticReply,
    span: Span,
    text: Seq<char>,
    encoding: PositionEncoding,
) -> Range {
    if reply.start is None && reply.end is None {
        Range::zero()
    } else {
        crate::document::range_of(
            text,
            Span {
                start: match reply.start {
                    Some(start) => start,
                    None => span.start,
                },
                end: match reply.end {
                    Some(end) => end,
                    None => span.end,
                },
                rev: span.rev,
            },
            encoding,
        )
    }
}

/// The diagnostic that a reply comes to; none without a message.
pub open spec fn diagnostic_for(
    reply: Option<DiagnosticReply>,
    span: Span,
    text: Seq<char>,
    encoding: PositionEncoding,
) -> Option<Diagnostic> {
    match reply {
        Some(reply) => match reply.message {
            Some(message) => Some(
                Diagnostic::plain(
                    reply_range(reply, span, text, encoding),
                    Some(severity_for(reply.severity)),
                    message,
                ),
            ),
            None => None,
        },
        None => None,
    }
}

/// Turns a reply about the node at `span` into a diagnostic.
pub fn decode_diagnostic(
    doc: &Document<LuaCtx>,
    span: Span,
    reply: Option<DiagnosticReply>,
) -> (diagnostic: Option<Diagnostic>)
    requires
        doc.presentable(),
    ensures
        diagnostic == diagnostic_for(reply, span, doc.content(), doc.units()),
{
    let reply = match reply {
        Some(reply) => reply,
        None => return None,
    };
    let message = match reply.message {
        Some(message) => message,
        None => return None,
    };
    let severity = match reply.severity {
        Some(2) => DiagnosticSeverity::Warning,
        Some(3) => DiagnosticSeverity::Information,
        Some(4) => DiagnosticSeverity::Hint,
        _ => DiagnosticSeverity::Error,
    };
    let range = if reply.start.is_none() && reply.end.is_none() {
        Range::default()
    } else {
        let start: usize = match reply.start {
            Some(start) => start,
            None => span.start,
        };
        let end: usize = match reply.end {
            Some(end) => end,
            None => span.end,
        };
        doc.range(Span { start, end, rev: span.rev })
    };
    Some(Diagnostic { range, severity: Some(severity), message, ..Diagnostic::default() })
}

/// A snapshot of one tree node, as the Lua function `symbols` sees it.
pub struct TreeRow<'a> {
    /// Where the node starts.
    pub start: usize,
    /// Where it ends.
    pub end: usize,
    /// Its status.
    pub status: &'static str,
    /// Its context.
    pub ctx: &'a LuaCtx,
}

/// What the Lua function `symbols` returned for one symbol; a field that is
/// missing or of another type is `None`.
#[derive(Debug)]
pub struct SymbolReply {
    /// `name`
    pub name: Option<String>,
    /// `start`
    pub start: Option<usize>,
    /// `end`
    pub end: Option<usize>,
    /// `detail`
    pub detail: Option<String>,
}

/// The table that stands for a tree node in Lua.
pub open spec fn row_fields<'a>(row: TreeRow<'a>) -> Seq<Field<'a>> {
    seq![
        Field { key: "start", value: FieldValue::Integer(row.start as u64) },
        Field { key: "end", value: FieldValue::Integer(row.end as u64) },
        Field { key: "status", value: FieldValue::Text(row.status) },
        Field { key: "ctx", value: FieldValue::Value(&row.ctx.0) },
    ]
}

/// Appending a table for `row` to `array` may come to `done`.
pub open spec fn may_append(
    lua: Lua,
    array: Table,
    row: TreeRow<'_>,
    done: Result<(), mlua::Error>,
) -> bool {
    exists|entry: Result<Table, mlua::Error>| #[trigger]
        crate::lua_table::makes_table(lua, row_fields(row), entry) && match entry {
            Ok(entry) => crate::lua_table::may_push(lua, array, entry, done),
            Err(error) => done == Err::<(), mlua::Error>(error),
        }
}

/// Appending tables for the first `n` rows to `array`, in order, may come to
/// `done`; the first error ends it.
pub open spec fn may_append_all(
    lua: Lua,
    array: Table,
    rows: Seq<TreeRow<'_>>,
    n: int,
    done: Result<(), mlua::Error>,
) -> bool
    decreases n,
{
    if n <= 0 {
        done is Ok
    } else {
        ||| done is Err && may_append_all(lua, array, rows, n - 1, done)
        ||| may_append_all(lua, array, rows, n - 1, Ok(())) && may_append(
            lua,
            array,
            rows[n - 1],
            done,
        )
    }
}

/// Making an array of tables with the `start`, `end`, `status` and `ctx` of
/// each row may come to `made`.
pub open spec fn may_list_rows(
    lua: Lua,
    rows: Seq<TreeRow<'_>>,
    made: Result<Table, mlua::Error>,
) -> bool {
    exists|fresh: Result<Table, mlua::Error>| #[trigger]
        crate::lua_table::may_make(lua, fresh) && match (fresh, made) {
            (Ok(array), Ok(filled)) => filled == array && may_append_all(
                lua,
                array,
                rows,
                rows.len() as int,
                Ok(()),
            ),
            (Ok(array), Err(error)) => may_append_all(
                lua,
                array,
                rows,
                rows.len() as int,
                Err(error),
            ),
            (Err(error), Err(reported)) => reported == error,
            (Err(_), Ok(_)) => false,
        }
}

/// An error stays the result of appending further rows.
proof fn lemma_appended_short(
    lua: Lua,
    array: Table,
    rows: Seq<TreeRow<'_>>,
    k: int,
    n: int,
    error: mlua::Error,
)
    requires
        0 <= k <= n,
        may_append_all(lua, array, rows, k, Err(error)),
    ensures
        may_append_all(lua, array, rows, n, Err(error)),
    decreases n,
{
    if k < n {
        lemma_appended_short(lua, array, rows, k, n - 1, error);
    }
}

/// Appends a table for `row` to `array`.
fn append_row(lua: &Lua, array: &Table, row: &TreeRow<'_>) -> (done: Result<(), mlua::Error>)
    requires
        crate::lua_table::may_own_table(*lua, *array, true),
        crate::lua_table::may_own_value(*lua, row.ctx.0, true),
    ensures
        may_append(*lua, *array, *row, done),
{
    proof {
        crate::lua_table::lemma_calls();
    }
    let mut fields: Vec<Field<'_>> = Vec::new();
    fields.push(Field { key: "start", value: FieldValue::Integer(row.start as u64) });
    fields.push(Field { key: "end", value: FieldValue::Integer(row.end as u64) });
    fields.push(Field { key: "status", value: FieldValue::Text(row.status) });
    fields.push(Field { key: "ctx", value: FieldValue::Value(&row.ctx.0) });
    assert(fields@ =~= row_fields(*row));
    let entry = table_with(lua, &fields);
    let ghost made = entry;
    assert(crate::lua_table::makes_table(*lua, row_fields(*row), made));
    match entry {
        Ok(entry) => push_table(lua, array, &entry),
        Err(error) => Err(error),
    }
}

/// Makes an array of tables, one for each row.
fn list_rows(lua: &Lua, rows: &Vec<TreeRow<'_>>) -> (made: Result<Table, mlua::Error>)
    requires
        may_own_rows(*lua, rows@, true),
    ensures
        may_list_rows(*lua, rows@, made),
        made matches Ok(array) ==> crate::lua_table::may_own_table(*lua, array, true),
{
    proof {
        crate::lua_table::lemma_calls();
    }
    let fresh = new_table(lua);
    let ghost given = fresh;
    assert(crate::lua_table::may_make(*lua, given));
    let array = match fresh {
        Ok(array) => array,
        Err(error) => return Err(error),
    };
    assert(crate::lua_table::may_own_table(*lua, array, true));
    let mut k: usize = 0;
    while k < rows.len()
        invariant
            k <= rows@.len(),
            may_own_rows(*lua, rows@, true),
            crate::lua_table::may_own_table(*lua, array, true),
            crate::lua_table::may_make(*lua, Ok(array)),
            may_append_all(*lua, array, rows@, k as int, Ok(())),
        decreases rows.len() - k,
    {
        let done = append_row(lua, &array, &rows[k]);
        let ghost end = done;
        assert(may_append_all(*lua, array, rows@, k + 1, end));
        match done {
            Ok(unit) => {
                assert(unit == ());
            },
            Err(error) => {
                proof {
                    lemma_appended_short(
                        *lua,
                        array,
                        rows@,
                        k + 1,
                        rows@.len() as int,
                        error,
                    );
                }
                return Err(error);
            },
        }
        k = k + 1;
    }
    Ok(array)
}

/// An item of an outline may read as `reply`: the fields `name`, `start`, `end`
/// and `detail` of a table.
pub open spec fn may_read_symbol(
    lua: Lua,
    item: Result<Table, mlua::Error>,
    reply: Option<SymbolReply>,
) -> bool {
    match item {
        Ok(row) => reply matches Some(reply) && {
            &&& exists|read: Result<String, mlua::Error>| #[trigger]
                crate::lua_table::may_hold_text(lua, row, "name", read) && reply.name == kept(read)
            &&& exists|read: Result<usize, mlua::Error>| #[trigger]
                crate::lua_table::may_hold_offset(lua, row, "start", read) && reply.start == kept(
                    read,
                )
            &&& exists|read: Result<usize, mlua::Error>| #[trigger]
                crate::lua_table::may_hold_offset(lua, row, "end", read) && reply.end == kept(read)
            &&& exists|read: Result<Option<String>, mlua::Error>| #[trigger]
                crate::lua_table::may_hold_note(lua, row, "detail", read) && reply.detail
                    == match read {
                    Ok(detail) => detail,
                    Err(_) => None,
                }
        },
        Err(_) => reply is None,
    }
}

/// Reads an item of an outline.
fn read_symbol(lua: &Lua, item: Result<Table, mlua::Error>) -> (reply: Option<SymbolReply>)
    requires
        item matches Ok(row) ==> crate::lua_table::may_own_table(*lua, row, true),
    ensures
        may_read_symbol(*lua, item, reply),
{
    proof {
        crate::lua_table::lemma_calls();
    }
    let row = match item {
        Ok(row) => row,
        Err(_) => return None,
    };
    let name = text_field(lua, &row, "name");
    let start = offset_field(lua, &row, "start");
    let end = offset_field(lua, &row, "end");
    let detail = note_field(lua, &row, "detail");
    assert(crate::lua_table::may_hold_text(*lua, row, "name", name));
    assert(crate::lua_table::may_hold_offset(*lua, row, "start", start));
    assert(crate::lua_table::may_hold_offset(*lua, row, "end", end));
    assert(crate::lua_table::may_hold_note(*lua, row, "detail", detail));
    Some(
        SymbolReply {
            name: keep(name),
            start: keep(start),
            end: keep(end),
            detail: match detail {
                Ok(detail) => detail,
                Err(_) => None,
            },
        },
    )
}

/// An answer with symbols may read as `replies`: the items of a table in order,
/// up to the first that is no table.
pub open spec fn may_read_symbols(
    lua: Lua,
    answer: Value,
    replies: Option<Vec<Option<SymbolReply>>>,
) -> bool {
    exists|item: LuaItem| #[trigger]
        crate::lua_table::may_be(lua, answer, item) && match item {
            LuaItem::Table(array) => replies matches Some(replies) && may_read_items(
                lua,
                array,
                replies@,
            ),
            _ => replies is None,
        }
}

/// The same, of a table.
pub open spec fn may_read_items(
    lua: Lua,
    array: Table,
    replies: Seq<Option<SymbolReply>>,
) -> bool {
    exists|items: Vec<Result<Table, mlua::Error>>| #[trigger]
        crate::lua_table::may_list_tables(lua, array, items) && {
            &&& replies.len() <= items@.len()
            &&& forall|k: int|
                0 <= k < replies.len() ==> may_read_symbol(lua, items@[k], #[trigger] replies[k])
            &&& replies.len() < items@.len() ==> replies.len() > 0 && replies.last() is None
        }
}

/// Reads an answer with symbols.
fn read_symbols(lua: &Lua, answer: Value) -> (replies: Option<Vec<Option<SymbolReply>>>)
    requires
        crate::lua_table::may_own_value(*lua, answer, true),
    ensures
        may_read_symbols(*lua, answer, replies),
{
    proof {
        crate::lua_table::lemma_calls();
    }
    let item = item_in(lua, answer);
    let ghost found = item;
    assert(crate::lua_table::may_be(*lua, answer, found));
    let array = match item {
        LuaItem::Table(array) => array,
        _ => return None,
    };
    let items = tables_in(lua, &array);
    let ghost given = items;
    assert(crate::lua_table::may_list_tables(*lua, array, given));
    let mut replies: Vec<Option<SymbolReply>> = Vec::new();
    for item in it: items.into_iter()
        invariant
            it.seq() == given@,
            crate::lua_table::may_list_tables(*lua, array, given),
            crate::lua_table::may_be(*lua, answer, found),
            found == LuaItem::Table(array),
            forall|k: int|
                0 <= k < given@.len() ==> (#[trigger] given@[k] matches Ok(row)
                    ==> crate::lua_table::may_own_table(*lua, row, true)),
            replies@.len() == it.index(),
            forall|k: int|
                0 <= k < replies@.len() ==> may_read_symbol(
                    *lua,
                    given@[k],
                    #[trigger] replies@[k],
                ),
    {
        assert(item == given@[it.index() as int]);
        let reply = read_symbol(lua, item);
        let last = reply.is_none();
        replies.push(reply);
        if last {
            assert(may_read_items(*lua, array, replies@));
            return Some(replies);
        }
    }
    assert(may_read_items(*lua, array, replies@));
    Some(replies)
}

/// The symbol that a reply comes to; none without a name or a bound.
pub open spec fn symbol_of(
    reply: SymbolReply,
    rev: u64,
    text: Seq<char>,
    encoding: PositionEncoding,
) -> Option<DocumentSymbol> {
    match (reply.name, reply.start, reply.end) {
        (Some(name), Some(start), Some(end)) => {
            let range = crate::document::range_of(text, Span { start, end, rev }, encoding);
            Some(
                DocumentSymbol {
                    name,
                    detail: reply.detail,
                    kind: SymbolKind::Function,
                    range,
                    selection_range: range,
                    children: None,
                    tags: None,
                    deprecated: None,
                },
            )
        },
        _ => None,
    }
}

/// The first `n` replies are all tables.
pub open spec fn all_tables(replies: Seq<Option<SymbolReply>>, n: int) -> bool {
    forall|k: int| 0 <= k < n ==> #[trigger] replies[k] is Some
}

/// The outline that the first `n` replies come to: up to the first that is no
/// table, one symbol for each that gives a name and both bounds.
pub open spec fn symbols_of(
    replies: Seq<Option<SymbolReply>>,
    n: int,
    rev: u64,
    text: Seq<char>,
    encoding: PositionEncoding,
) -> Seq<DocumentSymbol>
    decreases n,
{
    if n <= 0 {
        Seq::empty()
    } else {
        let rest = symbols_of(replies, n - 1, rev, text, encoding);
        if all_tables(replies, n) {
            match symbol_of(replies[n - 1]->0, rev, text, encoding) {
                Some(symbol) => rest.push(symbol),
                None => rest,
            }
        } else {
            rest
        }
    }
}

/// Nothing after the first reply that is no table counts.
proof fn lemma_cut_short(
    replies: Seq<Option<SymbolReply>>,
    k: int,
    n: int,
    rev: u64,
    text: Seq<char>,
    encoding: PositionEncoding,
)
    requires
        0 <= k < n <= replies.len(),
        replies[k] is None,
    ensures
        symbols_of(replies, n, rev, text, encoding) == symbols_of(replies, k, rev, text, encoding),
    decreases n,
{
    assert(!all_tables(replies, n));
    if n - 1 > k {
        lemma_cut_short(replies, k, n - 1, rev, text, encoding);
    }
}

/// Turns replies into the outline of `doc`.
pub fn decode_symbols(doc: &Document<LuaCtx>, replies: Vec<Option<SymbolReply>>) -> (symbols: Vec<
    DocumentSymbol,
>)
    requires
        doc.presentable(),
    ensures
        symbols@ == symbols_of(
            replies@,
            replies@.len() as int,
            doc.parsed().rev,
            doc.content(),
            doc.units(),
        ),
{
    let ghost given = replies@;
    let ghost rev = doc.parsed().rev;
    let ghost text = doc.content();
    let ghost encoding = doc.units();
    let mut symbols: Vec<DocumentSymbol> = Vec::new();
    for reply in it: replies.into_iter()
        invariant
            it.seq() == given,
            replies@ == given,
            doc.presentable(),
            rev == doc.parsed().rev,
            text == doc.content(),
            encoding == doc.units(),
            all_tables(given, it.index() as int),
            symbols@ == symbols_of(given, it.index() as int, rev, text, encoding),
    {
        let ghost k = it.index() as int;
        assert(reply == given[k]);
        let reply = match reply {
            Some(reply) => reply,
            None => {
                proof {
                    lemma_cut_short(given, k, given.len() as int, rev, text, encoding);
                }
                return symbols;
            },
        };
        assert(all_tables(given, k + 1));
        if let (Some(name), Some(start), Some(end)) = (reply.name, reply.start, reply.end) {
            let range = doc.range(Span { start, end, rev: doc.revision() });
            symbols.push(
                DocumentSymbol {
                    name,
                    detail: reply.detail,
                    kind: SymbolKind::Function,
                    range,
                    selection_range: range,
                    children: None,
                    tags: None,
                    deprecated: None,
                },
            );
        }
    }
    symbols
}

/// `row` is a snapshot of the node `id`.
pub open spec fn row_shows(row: TreeRow<'_>, t: TreeModel<LuaCtx>, id: NodeId) -> bool {
    &&& row.start == t.at(id).span.start
    &&& row.end == t.at(id).span.end
    &&& row.status@ == t.at(id).status.label()
    &&& *row.ctx == t.at(id).ctx
}

/// `rows` are snapshots of all live nodes of `t`, in creation order.
pub open spec fn rows_show(rows: Seq<TreeRow<'_>>, t: TreeModel<LuaCtx>) -> bool {
    &&& rows.len() == t.live_ids().len()
    &&& forall|k: int| 0 <= k < rows.len() ==> row_shows(#[trigger] rows[k], t, t.live_ids()[k])
}

/// Snapshots of all live nodes of `doc`, in creation order.
pub fn tree_rows(doc: &Document<LuaCtx>) -> (rows: Vec<TreeRow<'_>>)
    requires
        doc.presentable(),
    ensures
        rows_show(rows@, doc.parsed()),
{
    let tree = doc.session().tree();
    let ids = tree.nodes();
    let ghost t = doc.parsed();
    let mut rows: Vec<TreeRow<'_>> = Vec::new();
    let mut i: usize = 0;
    while i < ids.len()
        invariant
            t == tree@,
            t.wf(),
            ids@ == t.live_ids(),
            i <= ids@.len(),
            rows@.len() == i,
            forall|k: int| 0 <= k < i ==> row_shows(#[trigger] rows@[k], t, ids@[k]),
        decreases ids.len() - i,
    {
        let id = ids[i];
        proof {
            crate::model::lemma_ids_where(
                t,
                t.nodes.len() as int,
                |node: crate::model::NodeModel<LuaCtx>| node.alive,
            );
        }
        let span = tree.span(id);
        rows.push(
            TreeRow {
                start: span.start,
                end: span.end,
                status: status_name(tree.status(id)),
                ctx: tree.ctx(id),
            },
        );
        i = i + 1;
    }
    rows
}

/// Whether the contexts of all `rows` are of the state `lua` may be found to be
/// `own`.
pub open spec fn may_own_rows(lua: Lua, rows: Seq<TreeRow<'_>>, own: bool) -> bool {
    if own {
        forall|k: int|
            0 <= k < rows.len() ==> crate::lua_table::may_own_value(
                lua,
                (#[trigger] rows[k]).ctx.0,
                true,
            )
    } else {
        exists|k: int|
            0 <= k < rows.len() && crate::lua_table::may_own_value(
                lua,
                (#[trigger] rows[k]).ctx.0,
                false,
            )
    }
}

impl LuaLanguage {
    /// `diagnostic` may be what the function `function` comes to, for a failing
    /// node of `doc`: what its answer reads as, or nothing if it fails, or if
    /// it or the context is of another Lua state.
    pub open spec fn may_diagnose(
        &self,
        function: Function,
        doc: &Document<LuaCtx>,
        node: FailedNode<'_, LuaCtx>,
        diagnostic: Option<Diagnostic>,
    ) -> bool {
        let span = doc.parsed().at(node.id).span;
        ||| diagnostic is None && crate::lua_table::may_own_function(self@.lua, function, false)
        ||| diagnostic is None && crate::lua_table::may_own_value(self@.lua, node.ctx.0, false)
        ||| exists|source: &str, status: &str, answer: Result<Value, mlua::Error>|
            {
                &&& source@ == doc.content()
                &&& status@ == node.status.label()
                &&& crate::lua_table::may_own_function(self@.lua, function, true)
                &&& crate::lua_table::may_own_value(self@.lua, node.ctx.0, true)
                &&& #[trigger] may_answer_diagnostic(
                    self@.lua,
                    function,
                    source,
                    node.ctx,
                    status,
                    span,
                    answer,
                )
                &&& match answer {
                    Ok(value) => exists|reply: Option<DiagnosticReply>| #[trigger]
                        may_read_diagnostic(self@.lua, value, reply) && diagnostic
                            == diagnostic_for(reply, span, doc.content(), doc.units()),
                    Err(_) => diagnostic is None,
                }
            }
    }

    /// `symbols` may be what the function `function` comes to for `doc`: what
    /// its answer to the snapshots of all nodes reads as, or nothing if it
    /// fails or returns no table, or if it or a context is of another Lua
    /// state. The watcher is told if it fails.
    pub open spec fn may_outline(
        &self,
        function: Function,
        doc: &Document<LuaCtx>,
        symbols: Seq<DocumentSymbol>,
    ) -> bool {
        ||| symbols.len() == 0 && crate::lua_table::may_own_function(self@.lua, function, false)
        ||| exists|rows: Vec<TreeRow<'_>>| #[trigger]
            rows_show(rows@, doc.parsed()) && {
                ||| symbols.len() == 0 && may_own_rows(self@.lua, rows@, false)
                ||| self.may_outline_rows(function, doc, rows@, symbols)
            }
    }

    /// The same, of the snapshots `rows`.
    pub open spec fn may_outline_rows(
        &self,
        function: Function,
        doc: &Document<LuaCtx>,
        rows: Seq<TreeRow<'_>>,
        symbols: Seq<DocumentSymbol>,
    ) -> bool {
        &&& crate::lua_table::may_own_function(self@.lua, function, true)
        &&& may_own_rows(self@.lua, rows, true)
        &&& exists|array: Result<Table, mlua::Error>| #[trigger]
            may_list_rows(self@.lua, rows, array) && match array {
                Ok(array) => self.may_outline_array(function, doc, array, symbols),
                Err(_) => symbols.len() == 0,
            }
    }

    /// The same, of the array of tables made of them.
    pub open spec fn may_outline_array(
        &self,
        function: Function,
        doc: &Document<LuaCtx>,
        array: Table,
        symbols: Seq<DocumentSymbol>,
    ) -> bool {
        exists|answer: Result<Value, mlua::Error>| #[trigger]
            crate::lua_table::may_answer_on_rows(self@.lua, function, array, answer) && match answer {
                Ok(value) => exists|replies: Option<Vec<Option<SymbolReply>>>| #[trigger]
                    may_read_symbols(self@.lua, value, replies) && symbols == match replies {
                        Some(replies) => symbols_of(
                            replies@,
                            replies@.len() as int,
                            doc.parsed().rev,
                            doc.content(),
                            doc.units(),
                        ),
                        None => Seq::empty(),
                    },
                Err(error) => symbols.len() == 0 && self@.watch.told(
                    &LuaNotice::SymbolsFailed { error },
                ),
            }
    }

    /// Whether the contexts of all `rows` are of the language's Lua state.
    fn owns_rows(&self, rows: &Vec<TreeRow<'_>>) -> (own: bool)
        ensures
            may_own_rows(self@.lua, rows@, own),
    {
        proof {
            crate::lua_table::lemma_calls();
        }
        let mut k: usize = 0;
        while k < rows.len()
            invariant
                k <= rows@.len(),
                forall|j: int|
                    0 <= j < k ==> crate::lua_table::may_own_value(
                        self@.lua,
                        (#[trigger] rows@[j]).ctx.0,
                        true,
                    ),
            decreases rows.len() - k,
        {
            proof {
                crate::lua_table::lemma_calls();
            }
            let own = owns_value(&self.lua, &rows[k].ctx.0);
            assert(crate::lua_table::may_own_value(self@.lua, rows@[k as int].ctx.0, own));
            if !own {
                return false;
            }
            k = k + 1;
        }
        true
    }

    /// The outline that `function` draws from an array of tables.
    fn outline(&self, function: &Function, doc: &Document<LuaCtx>, array: &Table) -> (symbols: Vec<
        DocumentSymbol,
    >)
        requires
            doc.presentable(),
            crate::lua_table::may_own_function(self@.lua, *function, true),
            crate::lua_table::may_own_table(self@.lua, *array, true),
        ensures
            self.may_outline_array(*function, doc, *array, symbols@),
    {
        proof {
            crate::lua_table::lemma_calls();
        }
        let answer = call_on_rows(&self.lua, function, array);
        let ghost given = answer;
        assert(crate::lua_table::may_answer_on_rows(self@.lua, *function, *array, given));
        match answer {
            Ok(value) => {
                let replies = read_symbols(&self.lua, value);
                let ghost read = replies;
                assert(may_read_symbols(self@.lua, given->Ok_0, read));
                let symbols = match replies {
                    Some(replies) => decode_symbols(doc, replies),
                    None => Vec::new(),
                };
                assert(symbols@ =~= match read {
                    Some(replies) => symbols_of(
                        replies@,
                        replies@.len() as int,
                        doc.parsed().rev,
                        doc.content(),
                        doc.units(),
                    ),
                    None => Seq::<DocumentSymbol>::empty(),
                });
                symbols
            },
            Err(error) => {
                let notice = LuaNotice::SymbolsFailed { error };
                self.watch.tell(&notice);
                Vec::new()
            },
        }
    }
}

impl Language<LuaCtx> for LuaLanguage {
    fn supports_symbols(&self) -> (supported: bool)
        ensures
            supported == self@.symbols is Some,
    {
        self.symbols_fn.is_some()
    }

    fn engine(&self) -> (engine: &Engine<LuaCtx>)
        ensures
            engine.passes() == self@.passes,
            engine.settings() == self@.settings,
            forall|source: &str, root: Span| #[trigger] engine.takes(source, root),
    {
        proof {
            use_type_invariant(self);
        }
        &self.engine
    }

    fn root_ctx(&self) -> (ctx: LuaCtx)
        ensures
            cloned(self@.root_ctx, ctx),
    {
        self.root_ctx.clone()
    }

    fn diagnostic(&self, doc: &Document<LuaCtx>, node: FailedNode<'_, LuaCtx>) -> (diagnostic:
        Option<Diagnostic>)
        ensures
            match self@.diagnostic {
                Some(function) => if doc.parsed().knows(node.id) {
                    self.may_diagnose(function, doc, node, diagnostic)
                } else {
                    diagnostic is None
                },
                None => diagnostic is None,
            },
    {
        let function = match &self.diagnostic_fn {
            Some(function) => function,
            None => return None,
        };
        let tree = doc.session().tree();
        if !tree.holds(node.id) {
            return None;
        }
        proof {
            crate::lua_table::lemma_calls();
        }
        let span = tree.span(node.id);
        let own = owns_function(&self.lua, function);
        assert(crate::lua_table::may_own_function(self@.lua, *function, own));
        if !own {
            return None;
        }
        let own = owns_value(&self.lua, &node.ctx.0);
        assert(crate::lua_table::may_own_value(self@.lua, node.ctx.0, own));
        if !own {
            return None;
        }
        let source = doc.text();
        let status = status_name(node.status);
        let answer = ask_diagnostic(&self.lua, function, source, node.ctx, status, span);
        let ghost given = answer;
        assert(may_answer_diagnostic(
            self@.lua,
            *function,
            source,
            node.ctx,
            status,
            span,
            given,
        ));
        match answer {
            Ok(value) => {
                let reply = read_diagnostic(&self.lua, value);
                assert(may_read_diagnostic(self@.lua, given->Ok_0, reply));
                decode_diagnostic(doc, span, reply)
            },
            Err(_) => None,
        }
    }

    fn symbols(&self, doc: &Document<LuaCtx>) -> (symbols: Vec<DocumentSymbol>)
        ensures
            match self@.symbols {
                Some(function) => self.may_outline(function, doc, symbols@),
                None => symbols@.len() == 0,
            },
    {
        let function = match &self.symbols_fn {
            Some(function) => function,
            None => return Vec::new(),
        };
        proof {
            crate::lua_table::lemma_calls();
        }
        let own = owns_function(&self.lua, function);
        assert(crate::lua_table::may_own_function(self@.lua, *function, own));
        if !own {
            return Vec::new();
        }
        let rows = tree_rows(doc);
        if !self.owns_rows(&rows) {
            return Vec::new();
        }
        let array = list_rows(&self.lua, &rows);
        let ghost made = array;
        assert(may_list_rows(self@.lua, rows@, made));
        let symbols = match array {
            Ok(array) => self.outline(function, doc, &array),
            Err(_) => Vec::new(),
        };
        assert(self.may_outline_rows(*function, doc, rows@, symbols@));
        symbols
    }
}

/// A Lua language parses anything: a server can run it on every text.
pub proof fn law_lua_parses_anything(language: &LuaLanguage)
    ensures
        crate::language::parses_anything(language),
{
}

/// A reply with a name and both bounds is a symbol of that name, and no other
/// is. It lies between the positions of the bytes `start` and `end`, so that
/// converting its range back gives these bytes, and selecting it selects all of
/// it.
pub proof fn law_symbol_lies_where_lua_says(
    reply: SymbolReply,
    rev: u64,
    text: Seq<char>,
    encoding: PositionEncoding,
)
    requires
        crate::text::bytes_of(text).len() < u32::MAX,
    ensures
        symbol_of(reply, rev, text, encoding) is Some == (reply.name is Some && reply.start is Some
            && reply.end is Some),
        symbol_of(reply, rev, text, encoding) matches Some(symbol) ==> {
            let start = (reply.start->0) as int;
            let end = (reply.end->0) as int;
            &&& symbol.name == reply.name->0
            &&& symbol.detail == reply.detail
            &&& symbol.kind is Function
            &&& symbol.range.start == crate::line_index::position_at(text, start, encoding)
            &&& symbol.range.end == crate::line_index::position_at(text, end, encoding)
            &&& symbol.selection_range.start == symbol.range.start
            &&& symbol.selection_range.end == symbol.range.end
            &&& symbol.children is None && symbol.tags is None && symbol.deprecated is None
            &&& crate::text::on_boundary(text, start) ==> crate::line_index::offset_at(
                text,
                symbol.range.start,
                encoding,
            ) == start
            &&& crate::text::on_boundary(text, end) ==> crate::line_index::offset_at(
                text,
                symbol.range.end,
                encoding,
            ) == end
        },
{
    if let Some(symbol) = symbol_of(reply, rev, text, encoding) {
        let start = (reply.start->0) as int;
        let end = (reply.end->0) as int;
        if crate::text::on_boundary(text, start) {
            crate::line_index::law_offset_round_trip(text, start, encoding);
        }
        if crate::text::on_boundary(text, end) {
            crate::line_index::law_offset_round_trip(text, end, encoding);
        }
    }
}

/// The outline has one symbol, in order, for each complete reply that no item
/// other than a table comes before.
pub proof fn law_outline_is_the_replies(
    replies: Seq<Option<SymbolReply>>,
    n: int,
    rev: u64,
    text: Seq<char>,
    encoding: PositionEncoding,
) -> (from: Seq<int>)
    requires
        0 <= n <= replies.len(),
        crate::text::bytes_of(text).len() < u32::MAX,
    ensures
        from.len() == symbols_of(replies, n, rev, text, encoding).len(),
        forall|i: int, j: int| 0 <= i < j < from.len() ==> from[i] < from[j],
        forall|k: int|
            0 <= k < n ==> #[trigger] from.contains(k) == ((forall|j: int|
                0 <= j <= k ==> #[trigger] replies[j] is Some) && (replies[k]->0).name is Some && (
            replies[k]->0).start is Some && (replies[k]->0).end is Some),
        forall|i: int| 0 <= i < from.len() ==> 0 <= #[trigger] from[i] < n,
        forall|i: int|
            #![trigger from[i]]
            #![trigger symbols_of(replies, n, rev, text, encoding)[i]]
            0 <= i < from.len() ==> {
                let symbol = symbols_of(replies, n, rev, text, encoding)[i];
                let reply = replies[from[i]]->0;
                &&& symbol.name == reply.name->0
                &&& symbol.detail == reply.detail
                &&& symbol.range.start == crate::line_index::position_at(
                    text,
                    (reply.start->0) as int,
                    encoding,
                )
                &&& symbol.range.end == crate::line_index::position_at(
                    text,
                    (reply.end->0) as int,
                    encoding,
                )
            },
    decreases n,
{
    if n == 0 {
        Seq::empty()
    } else {
        let front = law_outline_is_the_replies(replies, n - 1, rev, text, encoding);
        let last = n - 1;
        law_symbol_lies_where_lua_says(replies[last]->0, rev, text, encoding);
        let more = all_tables(replies, n) && symbol_of(replies[last]->0, rev, text, encoding) is Some;
        let from = if more {
            front.push(last)
        } else {
            front
        };
        assert forall|k: int| 0 <= k < n implies #[trigger] from.contains(k) == ((forall|j: int|
            0 <= j <= k ==> #[trigger] replies[j] is Some) && (replies[k]->0).name is Some && (
        replies[k]->0).start is Some && (replies[k]->0).end is Some) by {
            if from.contains(k) {
                let i = choose|i: int| 0 <= i < from.len() && from[i] == k;
                if i < front.len() {
                    assert(front[i] == k);
                    assert(front.contains(k));
                }
            }
            if front.contains(k) {
                let i = choose|i: int| 0 <= i < front.len() && front[i] == k;
                assert(from[i] == k);
            }
            if k == last && more {
                assert(from[from.len() - 1] == k);
            }
        }
        from
    }
}

/// A reply with a message is a diagnostic of that message, and no other is. Its
/// severity is an error unless Lua says two, three or four; its bounds, where
/// Lua sets one, are the bytes that Lua gives, or else those of the node; where
/// it sets none the range is left for the node's own.
pub proof fn law_diagnostic_says_what_lua_says(
    reply: Option<DiagnosticReply>,
    span: Span,
    text: Seq<char>,
    encoding: PositionEncoding,
)
    ensures
        diagnostic_for(reply, span, text, encoding) is Some == (reply is Some
            && (reply->0).message is Some),
        diagnostic_for(reply, span, text, encoding) matches Some(diagnostic) ==> {
            let given = reply->0;
            let start: int = if given.start is Some {
                (given.start->0) as int
            } else {
                span.start as int
            };
            let end: int = if given.end is Some {
                (given.end->0) as int
            } else {
                span.end as int
            };
            &&& diagnostic.message == given.message->0
            &&& diagnostic.severity == Some(DiagnosticSeverity::Warning) <==> given.severity == Some(
                2i64,
            )
            &&& diagnostic.severity == Some(DiagnosticSeverity::Information) <==> given.severity
                == Some(3i64)
            &&& diagnostic.severity == Some(DiagnosticSeverity::Hint) <==> given.severity == Some(
                4i64,
            )
            &&& diagnostic.severity is Some
            &&& diagnostic.code is None && diagnostic.code_description is None
            &&& diagnostic.source is None && diagnostic.related_information is None
            &&& diagnostic.tags is None && diagnostic.data is None
            &&& if given.start is None && given.end is None {
                &&& diagnostic.range.start.line == 0 && diagnostic.range.start.character == 0
                &&& diagnostic.range.end.line == 0 && diagnostic.range.end.character == 0
            } else {
                &&& diagnostic.range.start == crate::line_index::position_at(text, start, encoding)
                &&& diagnostic.range.end == crate::line_index::position_at(text, end, encoding)
            }
        },
{
}

/// The keys `start`, `end`, `status` and `ctx` all differ.
proof fn lemma_keys_differ()
    ensures
        "start"@ != "end"@,
        "start"@ != "status"@,
        "start"@ != "ctx"@,
        "end"@ != "status"@,
        "end"@ != "ctx"@,
        "status"@ != "ctx"@,
{
    reveal_strlit("start");
    reveal_strlit("end");
    reveal_strlit("status");
    reveal_strlit("ctx");
    assert("start"@.len() == 5);
    assert("end"@.len() == 3);
    assert("status"@.len() == 6);
    assert("ctx"@.len() == 3);
    assert("end"@[0] == 'e');
    assert("ctx"@[0] == 'c');
}

/// Lua sees a failing node as a table with its `ctx`, its `status`, and as
/// `start` and `end` the bytes between which it lies; nothing else is set, and
/// nothing twice.
pub proof fn law_lua_sees_the_failing_node(ctx: &LuaCtx, status: &str, span: Span)
    ensures
        ({
            let fields = node_fields(ctx, status, span);
            &&& fields.len() == 4
            &&& fields.contains((Field { key: "ctx", value: FieldValue::Value(&ctx.0) }))
            &&& fields.contains((Field { key: "status", value: FieldValue::Text(status) }))
            &&& fields.contains(
                (Field { key: "start", value: FieldValue::Integer(span.start as u64) }),
            )
            &&& fields.contains((Field { key: "end", value: FieldValue::Integer(span.end as u64) }))
            &&& forall|i: int, j: int|
                0 <= i < j < fields.len() ==> (#[trigger] fields[i]).key@ != (
                #[trigger] fields[j]).key@
        }),
{
    let fields = node_fields(ctx, status, span);
    lemma_keys_differ();
    assert(fields[0] == (Field { key: "ctx", value: FieldValue::Value(&ctx.0) }));
    assert(fields[1] == (Field { key: "status", value: FieldValue::Text(status) }));
    assert(fields[2] == (Field { key: "start", value: FieldValue::Integer(span.start as u64) }));
    assert(fields[3] == (Field { key: "end", value: FieldValue::Integer(span.end as u64) }));
}

/// Lua sees a node of the tree as a table with its `ctx`, its `status`, and as
/// `start` and `end` the bytes between which it lies; nothing else is set, and
/// nothing twice.
pub proof fn law_lua_sees_the_tree_node(row: TreeRow<'_>, t: TreeModel<LuaCtx>, id: NodeId)
    requires
        row_shows(row, t, id),
    ensures
        ({
            let fields = row_fields(row);
            let node = t.nodes[id.0 as int];
            &&& fields.len() == 4
            &&& fields.contains((Field { key: "ctx", value: FieldValue::Value(&node.ctx.0) }))
            &&& exists|status: &'static str|
                fields.contains((Field { key: "status", value: FieldValue::Text(status) }))
                    && status@ == node.status.label()
            &&& fields.contains(
                (Field { key: "start", value: FieldValue::Integer(node.span.start as u64) }),
            )
            &&& fields.contains(
                (Field { key: "end", value: FieldValue::Integer(node.span.end as u64) }),
            )
            &&& forall|i: int, j: int|
                0 <= i < j < fields.len() ==> (#[trigger] fields[i]).key@ != (
                #[trigger] fields[j]).key@
        }),
{
    let fields = row_fields(row);
    lemma_keys_differ();
    assert(fields[0] == (Field { key: "start", value: FieldValue::Integer(row.start as u64) }));
    assert(fields[1] == (Field { key: "end", value: FieldValue::Integer(row.end as u64) }));
    assert(fields[2] == (Field { key: "status", value: FieldValue::Text(row.status) }));
    assert(fields[3] == (Field { key: "ctx", value: FieldValue::Value(&row.ctx.0) }));
    assert(fields.contains((Field { key: "status", value: FieldValue::Text(row.status) })));
}

/// What Lua answers about a failing node is read from the fields `message`,
/// `severity`, `start` and `end`: each is what the field holds, or missing where
/// it cannot be read.
pub proof fn law_diagnostic_fields_are_read(lua: Lua, table: Table, reply: DiagnosticReply)
    requires
        may_read_fields(lua, table, reply),
    ensures
        match reply.message {
            Some(text) => crate::lua_table::may_hold_text(lua, table, "message", Ok(text)),
            None => exists|e: mlua::Error| #[trigger]
                crate::lua_table::may_hold_text(lua, table, "message", Err(e)),
        },
        match reply.severity {
            Some(number) => crate::lua_table::may_hold_integer(lua, table, "severity", Ok(number)),
            None => exists|e: mlua::Error| #[trigger]
                crate::lua_table::may_hold_integer(lua, table, "severity", Err(e)),
        },
        match reply.start {
            Some(offset) => crate::lua_table::may_hold_offset(lua, table, "start", Ok(offset)),
            None => exists|e: mlua::Error| #[trigger]
                crate::lua_table::may_hold_offset(lua, table, "start", Err(e)),
        },
        match reply.end {
            Some(offset) => crate::lua_table::may_hold_offset(lua, table, "end", Ok(offset)),
            None => exists|e: mlua::Error| #[trigger]
                crate::lua_table::may_hold_offset(lua, table, "end", Err(e)),
        },
{
    let read = choose|read: Result<String, mlua::Error>| #[trigger]
        crate::lua_table::may_hold_text(lua, table, "message", read) && reply.message == kept(read);
    match read {
        Ok(value) => {
            assert(reply.message == Some(value));
        },
        Err(e) => {
            assert(crate::lua_table::may_hold_text(lua, table, "message", Err(e)));
        },
    }
    let read = choose|read: Result<i64, mlua::Error>| #[trigger]
        crate::lua_table::may_hold_integer(lua, table, "severity", read) && reply.severity == kept(read);
    match read {
        Ok(value) => {
            assert(reply.severity == Some(value));
        },
        Err(e) => {
            assert(crate::lua_table::may_hold_integer(lua, table, "severity", Err(e)));
        },
    }
    let read = choose|read: Result<usize, mlua::Error>| #[trigger]
        crate::lua_table::may_hold_offset(lua, table, "start", read) && reply.start == kept(read);
    match read {
        Ok(value) => {
            assert(reply.start == Some(value));
        },
        Err(e) => {
            assert(crate::lua_table::may_hold_offset(lua, table, "start", Err(e)));
        },
    }
    let read = choose|read: Result<usize, mlua::Error>| #[trigger]
        crate::lua_table::may_hold_offset(lua, table, "end", read) && reply.end == kept(read);
    match read {
        Ok(value) => {
            assert(reply.end == Some(value));
        },
        Err(e) => {
            assert(crate::lua_table::may_hold_offset(lua, table, "end", Err(e)));
        },
    }
}

/// What Lua answers for one symbol is read from the fields `name`, `start`,
/// `end` and `detail` of a table.
pub proof fn law_symbol_fields_are_read(lua: Lua, row: Table, reply: Option<SymbolReply>)
    requires
        may_read_symbol(lua, Ok(row), reply),
    ensures
        reply is Some,
        match (reply->0).name {
            Some(text) => crate::lua_table::may_hold_text(lua, row, "name", Ok(text)),
            None => exists|e: mlua::Error| #[trigger]
                crate::lua_table::may_hold_text(lua, row, "name", Err(e)),
        },
        match (reply->0).start {
            Some(offset) => crate::lua_table::may_hold_offset(lua, row, "start", Ok(offset)),
            None => exists|e: mlua::Error| #[trigger]
                crate::lua_table::may_hold_offset(lua, row, "start", Err(e)),
        },
        match (reply->0).end {
            Some(offset) => crate::lua_table::may_hold_offset(lua, row, "end", Ok(offset)),
            None => exists|e: mlua::Error| #[trigger]
                crate::lua_table::may_hold_offset(lua, row, "end", Err(e)),
        },
        (reply->0).detail matches Some(text) ==> crate::lua_table::may_hold_note(
            lua,
            row,
            "detail",
            Ok(Some(text)),
        ),
        (reply->0).detail is None ==> crate::lua_table::may_hold_note(lua, row, "detail", Ok(None))
            || exists|e: mlua::Error| #[trigger]
            crate::lua_table::may_hold_note(lua, row, "detail", Err(e)),
{
    let given = reply->0;
    let read = choose|read: Result<String, mlua::Error>| #[trigger]
        crate::lua_table::may_hold_text(lua, row, "name", read) && given.name == kept(read);
    match read {
        Ok(value) => {
            assert(given.name == Some(value));
        },
        Err(e) => {
            assert(crate::lua_table::may_hold_text(lua, row, "name", Err(e)));
        },
    }
    let read = choose|read: Result<usize, mlua::Error>| #[trigger]
        crate::lua_table::may_hold_offset(lua, row, "start", read) && given.start == kept(read);
    match read {
        Ok(value) => {
            assert(given.start == Some(value));
        },
        Err(e) => {
            assert(crate::lua_table::may_hold_offset(lua, row, "start", Err(e)));
        },
    }
    let read = choose|read: Result<usize, mlua::Error>| #[trigger]
        crate::lua_table::may_hold_offset(lua, row, "end", read) && given.end == kept(read);
    match read {
        Ok(value) => {
            assert(given.end == Some(value));
        },
        Err(e) => {
            assert(crate::lua_table::may_hold_offset(lua, row, "end", Err(e)));
        },
    }
    let read = choose|read: Result<Option<String>, mlua::Error>| #[trigger]
        crate::lua_table::may_hold_note(lua, row, "detail", read) && given.detail == match read {
            Ok(detail) => detail,
            Err(_) => None,
        };
    match read {
        Ok(value) => {
            assert(given.detail == value);
        },
        Err(e) => {
            assert(crate::lua_table::may_hold_note(lua, row, "detail", Err(e)));
        },
    }
}

/// An optional function of a configuration is absent where the field is `nil`,
/// given where it is a function, and wrong otherwise, whatever else it is.
pub proof fn law_hooks_are_functions(item: LuaItem)
    ensures
        match item {
            LuaItem::Nil => hook_in(item) is Absent && function_in(hook_in(item)) is None,
            LuaItem::Function(function) => hook_in(item) == HookField::Given(function)
                && function_in(hook_in(item)) == Some(function),
            LuaItem::Text(_) => hook_in(item) matches HookField::Wrong(kind) && kind is Text,
            LuaItem::Table(_) => hook_in(item) matches HookField::Wrong(kind) && kind is Table,
            LuaItem::Other(found) => hook_in(item) matches HookField::Wrong(kind) && kind == found,
        },
{
}

/// The passes of a loaded language are the functions that the array `passes`
/// lists, in its order, each as the pass of the round that is its place there.
pub proof fn law_passes_are_those_listed(
    lua: Lua,
    table: Table,
    functions: Vec<Function>,
    passes: Seq<BoxedPass<LuaCtx>>,
    watch: LuaWatch,
)
    requires
        may_list(lua, table, Ok(functions)),
        all_scheduled(passes, lua, functions@, watch),
    ensures
        exists|array: Table, items: Vec<Result<Function, mlua::Error>>|
            {
                &&& crate::lua_table::may_hold_table(lua, table, "passes", Ok(array))
                &&& #[trigger] crate::lua_table::may_list_functions(lua, array, items)
                &&& passes.len() == items@.len()
                &&& forall|k: int|
                    0 <= k < passes.len() ==> (#[trigger] items@[k] matches Ok(function)
                        && exists|pass: LuaPass| #[trigger]
                        passes[k].holds(&pass) && cloned(lua, pass.state()) && pass.body()
                            == function && pass.round() == k && pass.watcher() == watch)
            },
{
    let listed = Ok::<Vec<Function>, mlua::Error>(functions);
    let array = choose|array: Result<Table, mlua::Error>| #[trigger]
        crate::lua_table::may_hold_table(lua, table, "passes", array) && match array {
            Ok(array) => exists|items: Vec<Result<Function, mlua::Error>>| #[trigger]
                crate::lua_table::may_list_functions(lua, array, items) && collected(
                    items@,
                    listed,
                ),
            Err(error) => false,
        };
    let inner = array->Ok_0;
    let items = choose|items: Vec<Result<Function, mlua::Error>>| #[trigger]
        crate::lua_table::may_list_functions(lua, inner, items) && collected(items@, listed);
    assert forall|k: int| 0 <= k < passes.len() implies (#[trigger] items@[k] matches Ok(function)
        && exists|pass: LuaPass| #[trigger]
        passes[k].holds(&pass) && cloned(lua, pass.state()) && pass.body() == function
            && pass.round() == k && pass.watcher() == watch) by {
        assert(items@[k] == Ok::<Function, mlua::Error>(functions@[k]));
        assert(scheduled(passes[k], lua, functions@[k], k, watch));
    }
    assert(crate::lua_table::may_list_functions(lua, inner, items));
}

/// A diagnostic of a Lua language is what its function says of the node: it is
/// called on the document's text and the node's context, status and region, and
/// a message in what it returns becomes the diagnostic.
pub proof fn law_lua_diagnoses_the_node(
    language: &LuaLanguage,
    function: Function,
    doc: &Document<LuaCtx>,
    node: FailedNode<'_, LuaCtx>,
    diagnostic: Diagnostic,
)
    requires
        language.may_diagnose(function, doc, node, Some(diagnostic)),
    ensures
        exists|source: &str, status: &str, value: Value, reply: DiagnosticReply|
            {
                &&& source@ == doc.content()
                &&& status@ == node.status.label()
                &&& #[trigger] may_answer_diagnostic(
                    language@.lua,
                    function,
                    source,
                    node.ctx,
                    status,
                    doc.parsed().nodes[node.id.0 as int].span,
                    Ok(value),
                )
                &&& #[trigger] may_read_diagnostic(language@.lua, value, Some(reply))
                &&& reply.message == Some(diagnostic.message)
                &&& Some(diagnostic) == diagnostic_for(
                    Some(reply),
                    doc.parsed().nodes[node.id.0 as int].span,
                    doc.content(),
                    doc.units(),
                )
            },
{
    let span = doc.parsed().at(node.id).span;
    let lua = language@.lua;
    let wanted = Some(diagnostic);
    let (source, status, answer) = choose|
        source: &str,
        status: &str,
        answer: Result<Value, mlua::Error>,
    |
        {
            &&& source@ == doc.content()
            &&& status@ == node.status.label()
            &&& #[trigger] may_answer_diagnostic(
                lua,
                function,
                source,
                node.ctx,
                status,
                span,
                answer,
            )
            &&& match answer {
                Ok(value) => exists|reply: Option<DiagnosticReply>| #[trigger]
                    may_read_diagnostic(lua, value, reply) && wanted == diagnostic_for(
                        reply,
                        span,
                        doc.content(),
                        doc.units(),
                    ),
                Err(_) => false,
            }
        };
    let value = answer->Ok_0;
    let reply = choose|reply: Option<DiagnosticReply>| #[trigger]
        may_read_diagnostic(lua, value, reply) && wanted == diagnostic_for(
            reply,
            span,
            doc.content(),
            doc.units(),
        );
    let inner = reply->0;
    assert(may_answer_diagnostic(lua, function, source, node.ctx, status, span, Ok(value)));
    assert(may_read_diagnostic(lua, value, Some(inner)));
}

/// The Lua function that outlines a document sees all nodes of its tree and no
/// others, in the order in which they were made.
pub proof fn law_lua_sees_every_node(rows: Seq<TreeRow<'_>>, t: TreeModel<LuaCtx>) -> (ids: Seq<
    NodeId,
>)
    requires
        t.wf(),
        rows_show(rows, t),
    ensures
        ids.len() == rows.len(),
        forall|d: int|
            #![trigger t.nodes[d]]
            0 <= d < t.nodes.len() ==> ids.contains(NodeId(d as usize)) == t.nodes[d].alive,
        forall|j: int, k: int| 0 <= j < k < ids.len() ==> (#[trigger] ids[j]).0 < (#[trigger] ids[k]).0,
        forall|k: int|
            #![trigger rows[k]]
            #![trigger ids[k]]
            0 <= k < rows.len() ==> {
                let node = t.nodes[ids[k].0 as int];
                &&& ids[k].0 < t.nodes.len()
                &&& rows[k].start == node.span.start
                &&& rows[k].end == node.span.end
                &&& *rows[k].ctx == node.ctx
                &&& rows[k].status@ == node.status.label()
            },
{
    let alive = |node: crate::model::NodeModel<LuaCtx>| node.alive;
    crate::model::lemma_ids_where(t, t.nodes.len() as int, alive);
    let ids = t.live_ids();
    assert forall|d: int| #![trigger t.nodes[d]] 0 <= d < t.nodes.len() implies ids.contains(
        NodeId(d as usize),
    ) == t.nodes[d].alive by {
        if ids.contains(NodeId(d as usize)) {
            let k = choose|k: int| 0 <= k < ids.len() && ids[k] == NodeId(d as usize);
            assert(alive(t.at(ids[k])));
        }
        if alive(t.nodes[d]) {
        }
    }
    assert forall|k: int|
        #![trigger rows[k]]
        #![trigger ids[k]]
        0 <= k < rows.len() implies ({
        let node = t.nodes[ids[k].0 as int];
        &&& ids[k].0 < t.nodes.len()
        &&& rows[k].start == node.span.start
        &&& rows[k].end == node.span.end
        &&& *rows[k].ctx == node.ctx
        &&& rows[k].status@ == node.status.label()
    }) by {
        assert(row_shows(rows[k], t, ids[k]));
    }
    ids
}

/// A failing node is put to Lua as a table that stands for it, with the text of
/// the document.
pub proof fn law_lua_is_asked_about_the_node(
    lua: Lua,
    function: Function,
    source: &str,
    ctx: &LuaCtx,
    status: &str,
    span: Span,
    value: Value,
)
    requires
        may_answer_diagnostic(lua, function, source, ctx, status, span, Ok(value)),
    ensures
        exists|node: Table| #[trigger]
            crate::lua_table::makes_table(lua, node_fields(ctx, status, span), Ok(node))
                && crate::lua_table::may_answer_on_node(lua, function, source, node, Ok(value)),
{
    let answer = Ok::<Value, mlua::Error>(value);
    let node = choose|node: Result<Table, mlua::Error>| #[trigger]
        crate::lua_table::makes_table(lua, node_fields(ctx, status, span), node) && match node {
            Ok(node) => crate::lua_table::may_answer_on_node(lua, function, source, node, answer),
            Err(error) => answer == Err::<Value, mlua::Error>(error),
        };
    let made = node->Ok_0;
    assert(crate::lua_table::makes_table(lua, node_fields(ctx, status, span), Ok(made)));
}

/// Every one of the first `n` rows was appended.
proof fn lemma_all_appended(lua: Lua, array: Table, rows: Seq<TreeRow<'_>>, n: int)
    requires
        0 <= n <= rows.len(),
        may_append_all(lua, array, rows, n, Ok(())),
    ensures
        forall|k: int| 0 <= k < n ==> may_append(lua, array, #[trigger] rows[k], Ok(())),
    decreases n,
{
    if n > 0 {
        lemma_all_appended(lua, array, rows, n - 1);
    }
}

/// The outline of a Lua language is what its function makes of the tree: it is
/// called on an array of tables, one for each node of the tree, and what it
/// returns is read as the symbols.
pub proof fn law_lua_outlines_the_tree(
    language: &LuaLanguage,
    function: Function,
    doc: &Document<LuaCtx>,
    symbols: Seq<DocumentSymbol>,
)
    requires
        language.may_outline(function, doc, symbols),
        symbols.len() > 0,
    ensures
        exists|
            rows: Vec<TreeRow<'_>>,
            array: Table,
            value: Value,
            replies: Vec<Option<SymbolReply>>,
        |
            {
                &&& #[trigger] rows_show(rows@, doc.parsed())
                &&& crate::lua_table::may_make(language@.lua, Ok(array))
                &&& forall|k: int|
                    0 <= k < rows@.len() ==> may_append(
                        language@.lua,
                        array,
                        #[trigger] rows@[k],
                        Ok(()),
                    )
                &&& #[trigger] crate::lua_table::may_answer_on_rows(
                    language@.lua,
                    function,
                    array,
                    Ok(value),
                )
                &&& #[trigger] may_read_symbols(language@.lua, value, Some(replies))
                &&& symbols == symbols_of(
                    replies@,
                    replies@.len() as int,
                    doc.parsed().rev,
                    doc.content(),
                    doc.units(),
                )
            },
{
    let lua = language@.lua;
    let rows = choose|rows: Vec<TreeRow<'_>>| #[trigger]
        rows_show(rows@, doc.parsed()) && language.may_outline_rows(function, doc, rows@, symbols);
    let made = choose|array: Result<Table, mlua::Error>| #[trigger]
        may_list_rows(lua, rows@, array) && match array {
            Ok(array) => language.may_outline_array(function, doc, array, symbols),
            Err(_) => symbols.len() == 0,
        };
    let array = made->Ok_0;
    let fresh = choose|fresh: Result<Table, mlua::Error>| #[trigger]
        crate::lua_table::may_make(lua, fresh) && match (fresh, made) {
            (Ok(array), Ok(filled)) => filled == array && may_append_all(
                lua,
                array,
                rows@,
                rows@.len() as int,
                Ok(()),
            ),
            (Ok(array), Err(error)) => may_append_all(
                lua,
                array,
                rows@,
                rows@.len() as int,
                Err(error),
            ),
            (Err(error), Err(reported)) => reported == error,
            (Err(_), Ok(_)) => false,
        };
    assert(fresh == Ok::<Table, mlua::Error>(array));
    lemma_all_appended(lua, array, rows@, rows@.len() as int);
    let answer = choose|answer: Result<Value, mlua::Error>| #[trigger]
        crate::lua_table::may_answer_on_rows(lua, function, array, answer) && match answer {
            Ok(value) => exists|replies: Option<Vec<Option<SymbolReply>>>| #[trigger]
                may_read_symbols(lua, value, replies) && symbols == match replies {
                    Some(replies) => symbols_of(
                        replies@,
                        replies@.len() as int,
                        doc.parsed().rev,
                        doc.content(),
                        doc.units(),
                    ),
                    None => Seq::empty(),
                },
            Err(error) => symbols.len() == 0,
        };
    let value = answer->Ok_0;
    let read = choose|replies: Option<Vec<Option<SymbolReply>>>| #[trigger]
        may_read_symbols(lua, value, replies) && symbols == match replies {
            Some(replies) => symbols_of(
                replies@,
                replies@.len() as int,
                doc.parsed().rev,
                doc.content(),
                doc.units(),
            ),
            None => Seq::empty(),
        };
    let replies = read->0;
    assert(rows_show(rows@, doc.parsed()));
    assert(crate::lua_table::may_answer_on_rows(lua, function, array, Ok(value)));
    assert(may_read_symbols(lua, value, Some(replies)));
}

/// A Lua language is silent about a failing node for a reason: its function or
/// the context is of another state, the call fails, or what it returns is no
/// table with a message.
pub proof fn law_lua_is_silent_for_a_reason(
    language: &LuaLanguage,
    function: Function,
    doc: &Document<LuaCtx>,
    node: FailedNode<'_, LuaCtx>,
)
    requires
        language.may_diagnose(function, doc, node, None),
        !crate::lua_table::may_own_function(language@.lua, function, false),
        !crate::lua_table::may_own_value(language@.lua, node.ctx.0, false),
    ensures
        exists|source: &str, status: &str, answer: Result<Value, mlua::Error>|
            {
                &&& source@ == doc.content()
                &&& status@ == node.status.label()
                &&& #[trigger] may_answer_diagnostic(
                    language@.lua,
                    function,
                    source,
                    node.ctx,
                    status,
                    doc.parsed().nodes[node.id.0 as int].span,
                    answer,
                )
                &&& match answer {
                    Ok(value) => exists|reply: Option<DiagnosticReply>| #[trigger]
                        may_read_diagnostic(language@.lua, value, reply) && (reply is None
                            || (reply->0).message is None),
                    Err(_) => true,
                }
            },
{
    let span = doc.parsed().at(node.id).span;
    let lua = language@.lua;
    let none = None::<Diagnostic>;
    let (source, status, answer) = choose|
        source: &str,
        status: &str,
        answer: Result<Value, mlua::Error>,
    |
        {
            &&& source@ == doc.content()
            &&& status@ == node.status.label()
            &&& #[trigger] may_answer_diagnostic(
                lua,
                function,
                source,
                node.ctx,
                status,
                span,
                answer,
            )
            &&& match answer {
                Ok(value) => exists|reply: Option<DiagnosticReply>| #[trigger]
                    may_read_diagnostic(lua, value, reply) && none == diagnostic_for(
                        reply,
                        span,
                        doc.content(),
                        doc.units(),
                    ),
                Err(_) => true,
            }
        };
    assert(may_answer_diagnostic(lua, function, source, node.ctx, status, span, answer));
    if let Ok(value) = answer {
        let reply = choose|reply: Option<DiagnosticReply>| #[trigger]
            may_read_diagnostic(lua, value, reply) && none == diagnostic_for(
                reply,
                span,
                doc.content(),
                doc.units(),
            );
        assert(may_read_diagnostic(lua, value, reply));
    }
}

/// An outline of a Lua language is empty for a reason: its function or a context
/// is of another state, a table cannot be made, the call fails, or what it
/// returns is no table or lists no complete symbol.
pub proof fn law_lua_outline_is_empty_for_a_reason(
    language: &LuaLanguage,
    function: Function,
    doc: &Document<LuaCtx>,
    symbols: Seq<DocumentSymbol>,
)
    requires
        language.may_outline(function, doc, symbols),
        symbols.len() == 0,
        !crate::lua_table::may_own_function(language@.lua, function, false),
    ensures
        exists|rows: Vec<TreeRow<'_>>| #[trigger]
            rows_show(rows@, doc.parsed()) && {
                ||| may_own_rows(language@.lua, rows@, false)
                ||| exists|e: mlua::Error| #[trigger] may_list_rows(language@.lua, rows@, Err(e))
                ||| exists|array: Table, e: mlua::Error|
                    may_list_rows(language@.lua, rows@, Ok(array))
                        && #[trigger] crate::lua_table::may_answer_on_rows(
                        language@.lua,
                        function,
                        array,
                        Err(e),
                    )
                ||| exists|array: Table, value: Value, replies: Option<Vec<Option<SymbolReply>>>|
                    {
                        &&& may_list_rows(language@.lua, rows@, Ok(array))
                        &&& #[trigger] crate::lua_table::may_answer_on_rows(
                            language@.lua,
                            function,
                            array,
                            Ok(value),
                        )
                        &&& #[trigger] may_read_symbols(language@.lua, value, replies)
                        &&& replies matches Some(replies) ==> symbols_of(
                            replies@,
                            replies@.len() as int,
                            doc.parsed().rev,
                            doc.content(),
                            doc.units(),
                        ).len() == 0
                    }
            },
{
    let lua = language@.lua;
    let rows = choose|rows: Vec<TreeRow<'_>>| #[trigger]
        rows_show(rows@, doc.parsed()) && {
            ||| symbols.len() == 0 && may_own_rows(lua, rows@, false)
            ||| language.may_outline_rows(function, doc, rows@, symbols)
        };
    if !may_own_rows(lua, rows@, false) {
        let made = choose|array: Result<Table, mlua::Error>| #[trigger]
            may_list_rows(lua, rows@, array) && match array {
                Ok(array) => language.may_outline_array(function, doc, array, symbols),
                Err(_) => symbols.len() == 0,
            };
        match made {
            Err(e) => {
                assert(may_list_rows(lua, rows@, Err(e)));
            },
            Ok(array) => {
                assert(may_list_rows(lua, rows@, Ok(array)));
                let answer = choose|answer: Result<Value, mlua::Error>| #[trigger]
                    crate::lua_table::may_answer_on_rows(lua, function, array, answer)
                        && match answer {
                        Ok(value) => exists|replies: Option<Vec<Option<SymbolReply>>>| #[trigger]
                            may_read_symbols(lua, value, replies) && symbols == match replies {
                                Some(replies) => symbols_of(
                                    replies@,
                                    replies@.len() as int,
                                    doc.parsed().rev,
                                    doc.content(),
                                    doc.units(),
                                ),
                                None => Seq::empty(),
                            },
                        Err(error) => true,
                    };
                match answer {
                    Err(e) => {
                        assert(crate::lua_table::may_answer_on_rows(
                            lua,
                            function,
                            array,
                            Err(e),
                        ));
                    },
                    Ok(value) => {
                        let replies = choose|replies: Option<Vec<Option<SymbolReply>>>| #[trigger]
                            may_read_symbols(lua, value, replies) && symbols == match replies {
                                Some(replies) => symbols_of(
                                    replies@,
                                    replies@.len() as int,
                                    doc.parsed().rev,
                                    doc.content(),
                                    doc.units(),
                                ),
                                None => Seq::empty(),
                            };
                        assert(crate::lua_table::may_answer_on_rows(
                            lua,
                            function,
                            array,
                            Ok(value),
                        ));
                        assert(may_read_symbols(lua, value, replies));
                    },
                }
            },
        }
    }
}

} // verus!
