//! Languages defined in pure Lua.
//!
//! A language is a single Lua chunk returning a table:
//!
//! ```lua
//! -- minilang.lua
//! return {
//!   name = "minilang",
//!   root_ctx = { File = true },
//!   -- round r of a run calls passes[r]
//!   passes = {
//!     function(source, span, ctx)
//!       -- span = { start = , end = , rev = }
//!       -- return { expand = { { start = , end = , ctx = ... }, ... } }
//!       --     or "done" / "failed" / nil
//!       return "done"
//!     end,
//!   },
//!   -- optional: how a failing region becomes a diagnostic
//!   diagnostic = function(source, node) return { message = "oops" } end,
//!   -- optional: outline symbols from a snapshot of the tree
//!   symbols = function(nodes) return {} end,
//! }
//! ```
//!
//! # Semantics
//!
//! * Passes receive `(source, span, ctx)` where child ranges in the outcome
//!   are **absolute** byte ranges into `source` — no rebasing traps.
//! * Outcomes: a table with an `expand` array expands the region; `"done"`
//!   accepts it; `"failed"` or `nil` marks it failed (later passes retry).
//!   A Lua error thrown inside a pass is caught and treated as `Failed` —
//!   a broken pass never takes the server down. What was wrong with it is
//!   told to a [`LuaWatch`](crate::LuaWatch).
//! * Contexts are arbitrary Lua values. Region reuse after an edit matches
//!   contexts by **deep equality** (tables compared recursively), so edits
//!   re-parse only the touched chain.
//! * `diagnostic` receives `(source, node)` with
//!   `node = { ctx, status, start, end }` (`status` is `"failed"` or
//!   `"unparsed"`); returning a table with a `message` publishes a
//!   diagnostic at the node's range (optionally set `start`/`end` there).
//! * `symbols` receives an array of `{ start, end, status, ctx }` snapshots
//!   and returns `{ { name = , detail = , start = , end = } }`; ranges are
//!   byte ranges, converted to editor positions by the skeleton.
//!
//! What a Lua function answers depends on its Lua state, so nothing is
//! claimed of the answers here: the contracts fix what is handed to Lua and
//! what is made of each answer. mlua panics where values of different Lua
//! states are mixed, or where the state of a value is gone; so every value is
//! tested against the state it is to be used in before mlua sees it.

use crate::lua_data::{deep_eq, LuaData};
use mlua::{Function, Lua, Table, Value};
use vstd::prelude::*;

verus! {

/// mlua's `Lua`: a Lua state.
#[verifier::external_type_specification]
#[verifier::external_body]
pub struct ExLua(mlua::Lua);

/// mlua's `Value`: a value in a Lua state.
#[verifier::external_type_specification]
#[verifier::external_body]
pub struct ExValue(mlua::Value);

/// mlua's `Function`: a function in a Lua state.
#[verifier::external_type_specification]
#[verifier::external_body]
pub struct ExFunction(mlua::Function);

/// mlua's `Table`: a table in a Lua state.
#[verifier::external_type_specification]
#[verifier::external_body]
pub struct ExTable(mlua::Table);

/// mlua's `Error`: why a call into a Lua state failed.
#[verifier::external_type_specification]
#[verifier::external_body]
pub struct ExLuaError(mlua::Error);

/// mlua's `Value::clone`: another handle to the same value. The value is
/// opaque here, so nothing is claimed of it; contracts speak of it as what this
/// call returns.
pub assume_specification[ <mlua::Value as Clone>::clone ](value: &mlua::Value) -> (copy:
    mlua::Value);

/// A context value from Lua: any [`Value`], compared by deep equality.
///
/// Deep equality is what lets the incremental tree reuse regions across
/// edits: two contexts match only if they are structurally identical
/// (tables recursively; `1` and `1.0` compare equal; functions and other
/// opaque values never compare equal — contexts should be data).
#[derive(Debug, Clone)]
pub struct LuaCtx(pub Value);

/// Whether `value` can be used with the state `lua`: whether mlua's
/// `Value::weak_lua` is none, as for numbers, or equal to `Lua::weak`. Both
/// are opaque here, so nothing is claimed of the result; contracts speak of
/// it as what this call returns.
#[verifier::external_body]
pub(crate) fn owns_value(lua: &Lua, value: &Value) -> (owned: bool) {
    value.weak_lua().map_or(true, |home| *home == lua.weak())
}

/// Whether `table` is one of the state `lua`: whether mlua's
/// `Table::weak_lua` is equal to `Lua::weak`. Both are opaque here, so nothing
/// is claimed of the result; contracts speak of it as what this call returns.
#[verifier::external_body]
pub(crate) fn owns_table(lua: &Lua, table: &Table) -> (owned: bool) {
    *table.weak_lua() == lua.weak()
}

/// Whether `function` is one of the state `lua`: whether mlua's
/// `Function::weak_lua` is equal to `Lua::weak`. Both are opaque here, so
/// nothing is claimed of the result; contracts speak of it as what this call
/// returns.
#[verifier::external_body]
pub(crate) fn owns_function(lua: &Lua, function: &Function) -> (owned: bool) {
    *function.weak_lua() == lua.weak()
}

/// The state that `value` lives in, by mlua's `Value::weak_lua` and
/// `WeakLua::try_upgrade`: none for a value without one, such as a number, and
/// none if the state is gone. What other handles keep the state alive is not
/// known here, so nothing is claimed of the result.
#[verifier::external_body]
pub(crate) fn home_of(value: &Value) -> (home: Option<Lua>) {
    value.weak_lua()?.try_upgrade()
}

/// The value as data, if it is one of the variants of mlua's `Value` that need
/// no Lua state: nil, a boolean or a number. The value is opaque here, so
/// nothing is claimed of the result; contracts speak of it as what this call
/// returns.
#[verifier::external_body]
pub(crate) fn plain_part(value: &Value) -> (data: Option<LuaData>) {
    match value {
        Value::Nil => Some(LuaData::Nil),
        Value::Boolean(b) => Some(LuaData::Boolean(*b)),
        Value::Integer(i) => Some(LuaData::Integer(*i)),
        Value::Number(n) => Some(LuaData::Number { bits: n.to_bits() }),
        _ => None,
    }
}

/// What a value that lives in a Lua state holds.
pub(crate) enum HeldPart {
    /// The bytes of a string.
    Text(Vec<u8>),
    /// A table.
    Table {
        /// Where Lua keeps the table, by which it is told from others.
        address: usize,
        /// Its pairs, or what went wrong instead.
        pairs: Vec<Result<(Value, Value), mlua::Error>>,
    },
    /// Neither.
    Other,
}

/// Looks into a value, by mlua's `LuaString::as_bytes`, `Table::pairs` and
/// `Value::to_pointer`. What a table holds may change with every call into the
/// state, so nothing is claimed of the result.
#[verifier::external_body]
pub(crate) fn held_part(lua: &Lua, value: &Value) -> (part: HeldPart)
    requires
        call_ensures(owns_value, (lua, value), true),
{
    match value {
        Value::String(s) => HeldPart::Text(s.as_bytes().to_vec()),
        Value::Table(t) => HeldPart::Table {
            address: value.to_pointer() as usize,
            pairs: t.pairs().collect(),
        },
        _ => HeldPart::Other,
    }
}

/// Those of the first `n` pairs that were read.
spec fn pairs_read(pairs: Seq<Result<(Value, Value), mlua::Error>>, n: int) -> Seq<(Value, Value)>
    decreases n,
{
    if n <= 0 {
        Seq::empty()
    } else {
        let rest = pairs_read(pairs, n - 1);
        match pairs[n - 1] {
            Ok(pair) => rest.push(pair),
            Err(_) => rest,
        }
    }
}

/// `data` may be what is taken out of the state `lua` for `value`, within the
/// tables at `path` and at most `depth` tables deep.
///
/// Nil, booleans, numbers and strings are taken out as they are, and tables
/// pair by pair. Anything else is opaque, and so are a value of another state
/// and a table within itself. `depth` counts down from the largest number of
/// tables that memory could hold, so that it never ends a descent by itself.
spec fn pictures(
    lua: Option<Lua>,
    value: Value,
    path: Seq<usize>,
    depth: nat,
    data: LuaData,
) -> bool
    decreases depth, 1int,
{
    exists|plain: Option<LuaData>| #[trigger]
        call_ensures(plain_part, (&value,), plain) && match (plain, lua) {
            (Some(plain), _) => data == plain,
            (None, Some(lua)) => exists|owned: bool| #[trigger]
                call_ensures(owns_value, (&lua, &value), owned) && if owned {
                    pictures_held(lua, value, path, depth, data)
                } else {
                    data is Opaque
                },
            (None, None) => data is Opaque,
        }
}

/// The same of a value that lives in the state `lua`.
spec fn pictures_held(
    lua: Lua,
    value: Value,
    path: Seq<usize>,
    depth: nat,
    data: LuaData,
) -> bool
    decreases depth, 0int,
{
    exists|part: HeldPart| #[trigger]
        call_ensures(held_part, (&lua, &value), part) && match part {
            HeldPart::Text(text) => data == LuaData::Text(text),
            HeldPart::Table { address, pairs } => if depth == 0 || path.contains(address) {
                data is Opaque
            } else {
                let read = pairs_read(pairs@, pairs@.len() as int);
                let rows = (data->Table_0)@;
                &&& data is Table
                &&& rows.len() == read.len()
                &&& forall|k: int|
                    0 <= k < read.len() ==> pictures(
                        Some(lua),
                        (#[trigger] read[k]).0,
                        path.push(address),
                        (depth - 1) as nat,
                        rows[k].0,
                    ) && pictures(
                        Some(lua),
                        read[k].1,
                        path.push(address),
                        (depth - 1) as nat,
                        rows[k].1,
                    )
            },
            HeldPart::Other => data is Opaque,
        }
}

/// Whether `path` leads through the table at `address`.
fn on_path(path: &Vec<usize>, address: usize) -> (found: bool)
    ensures
        found == path@.contains(address),
{
    let mut k: usize = 0;
    while k < path.len()
        invariant
            k <= path@.len(),
            forall|j: int| 0 <= j < k ==> #[trigger] path@[j] != address,
        decreases path.len() - k,
    {
        if path[k] == address {
            return true;
        }
        k = k + 1;
    }
    false
}

/// Takes a value out of the state `lua`, within the tables at `path` and at
/// most `depth` tables deep.
fn picture(lua: Option<&Lua>, value: &Value, path: &mut Vec<usize>, depth: usize) -> (data: LuaData)
    ensures
        final(path)@ == old(path)@,
        pictures(
            match lua {
                Some(lua) => Some(*lua),
                None => None,
            },
            *value,
            old(path)@,
            depth as nat,
            data,
        ),
    decreases depth,
{
    let ghost state = match lua {
        Some(lua) => Some(*lua),
        None => None,
    };
    let plain = plain_part(value);
    let ghost found = plain;
    assert(call_ensures(plain_part, (value,), found));
    if let Some(data) = plain {
        return data;
    }
    let lua = match lua {
        Some(lua) => lua,
        None => return LuaData::Opaque,
    };
    let owned = owns_value(lua, value);
    assert(call_ensures(owns_value, (lua, value), owned));
    if !owned {
        return LuaData::Opaque;
    }
    let part = held_part(lua, value);
    let ghost held = part;
    assert(call_ensures(held_part, (lua, value), held));
    match part {
        HeldPart::Text(text) => LuaData::Text(text),
        HeldPart::Table { address, pairs } => {
            if depth == 0 || on_path(path, address) {
                return LuaData::Opaque;
            }
            let ghost outer = path@;
            let ghost given = pairs@;
            path.push(address);
            let mut rows: Vec<(LuaData, LuaData)> = Vec::new();
            for pair in it: pairs.into_iter()
                invariant
                    it.seq() == given,
                    depth > 0,
                    path@ == outer.push(address),
                    rows@.len() == pairs_read(given, it.index() as int).len(),
                    forall|k: int|
                        0 <= k < rows@.len() ==> pictures(
                            Some(*lua),
                            (#[trigger] pairs_read(given, it.index() as int)[k]).0,
                            outer.push(address),
                            (depth - 1) as nat,
                            rows@[k].0,
                        ) && pictures(
                            Some(*lua),
                            pairs_read(given, it.index() as int)[k].1,
                            outer.push(address),
                            (depth - 1) as nat,
                            rows@[k].1,
                        ),
            {
                assert(pair == given[it.index() as int]);
                if let Ok((key, value)) = pair {
                    let key = picture(Some(lua), &key, path, depth - 1);
                    let value = picture(Some(lua), &value, path, depth - 1);
                    rows.push((key, value));
                }
            }
            let _ = path.pop();
            assert(path@ =~= outer);
            let data = LuaData::Table(rows);
            assert(pictures_held(*lua, *value, outer, depth as nat, data));
            data
        },
        HeldPart::Other => LuaData::Opaque,
    }
}

/// Takes a value out of its Lua state.
pub(crate) fn snapshot(value: &Value) -> (data: LuaData)
    ensures
        taken_out(value, data),
{
    let home = home_of(value);
    assert(call_ensures(home_of, (value,), home));
    let mut path: Vec<usize> = Vec::new();
    let data = match &home {
        Some(lua) => picture(Some(lua), value, &mut path, usize::MAX),
        None => picture(None, value, &mut path, usize::MAX),
    };
    data
}

/// `data` may be what is taken out of its Lua state for `value`.
pub closed spec fn taken_out(value: &Value, data: LuaData) -> bool {
    exists|home: Option<Lua>| #[trigger]
        call_ensures(home_of, (value,), home) && pictures(
            home,
            *value,
            Seq::empty(),
            usize::MAX as nat,
            data,
        )
}

impl LuaCtx {
    /// `same` may be the answer to whether the contexts are equal: deep
    /// equality of what is taken out of the Lua state.
    pub open spec fn may_equal(&self, other: &LuaCtx, same: bool) -> bool {
        exists|a: LuaData, b: LuaData| #[trigger]
            taken_out(&self.0, a) && #[trigger] taken_out(&other.0, b) && same == a.deep_equal(b)
    }
}

/// Whether two contexts match does not depend on which is compared with which.
pub proof fn law_contexts_match_both_ways(a: &LuaCtx, b: &LuaCtx, same: bool)
    ensures
        a.may_equal(b, same) == b.may_equal(a, same),
{
    if a.may_equal(b, same) {
        lemma_match_turned(a, b, same);
    }
    if b.may_equal(a, same) {
        lemma_match_turned(b, a, same);
    }
}

/// An answer to one comparison is one to the comparison turned round.
proof fn lemma_match_turned(a: &LuaCtx, b: &LuaCtx, same: bool)
    requires
        a.may_equal(b, same),
    ensures
        b.may_equal(a, same),
{
    let (x, y) = choose|x: LuaData, y: LuaData| #[trigger]
        taken_out(&a.0, x) && #[trigger] taken_out(&b.0, y) && same == x.deep_equal(y);
    if x.deep_equal(y) {
        crate::lua_data::law_deep_equality_is_symmetric(x, y);
    }
    if y.deep_equal(x) {
        crate::lua_data::law_deep_equality_is_symmetric(y, x);
    }
    assert(taken_out(&b.0, y) && taken_out(&a.0, x) && same == y.deep_equal(x));
}

impl PartialEq for LuaCtx {
    fn eq(&self, other: &Self) -> (same: bool)
        ensures
            self.may_equal(other, same),
    {
        let a = snapshot(&self.0);
        let b = snapshot(&other.0);
        deep_eq(&a, &b)
    }
}

impl vstd::std_specs::cmp::PartialEqSpecImpl for LuaCtx {
    /// What a table holds may change between two comparisons, so `==` is no
    /// function of the two handles; see [`LuaCtx::may_equal`].
    open spec fn obeys_eq_spec() -> bool {
        false
    }

    open spec fn eq_spec(&self, other: &Self) -> bool {
        true
    }
}

impl Eq for LuaCtx {
}

/// How many of the first `n` pairs were read, and that they are in order.
proof fn lemma_pairs_read(pairs: Seq<Result<(Value, Value), mlua::Error>>, n: int)
    requires
        0 <= n <= pairs.len(),
    ensures
        pairs_read(pairs, n).len() == pairs.take(n).filter(
            |pair: Result<(Value, Value), mlua::Error>| pair is Ok,
        ).len(),
        forall|k: int|
            0 <= k < pairs_read(pairs, n).len() ==> pairs.contains(
                Ok(#[trigger] pairs_read(pairs, n)[k]),
            ),
    decreases n,
{
    reveal(Seq::filter);
    if n > 0 {
        lemma_pairs_read(pairs, n - 1);
        assert(pairs.take(n).drop_last() =~= pairs.take(n - 1));
        assert(pairs.take(n).last() == pairs[n - 1]);
    } else {
        assert(pairs.take(0).len() == 0);
    }
}

/// What is taken out of a Lua state is what was there: a value that needs no
/// state as it is, a string by its bytes, and a table as a table with an entry
/// for each of its pairs that could be read, key and value taken out likewise.
pub(crate) proof fn law_values_are_taken_out_as_they_are(value: &Value, data: LuaData)
    requires
        taken_out(value, data),
    ensures
        call_ensures(plain_part, (value,), Some(data)) || data is Opaque || data is Text
            || data is Table,
        !call_ensures(plain_part, (value,), Some(data)) && data is Text ==> exists|lua: Lua| #[trigger]
            call_ensures(held_part, (&lua, value), HeldPart::Text(data->Text_0)) && call_ensures(
                home_of,
                (value,),
                Some(lua),
            ),
        !call_ensures(plain_part, (value,), Some(data)) && data is Table ==> exists|
            lua: Lua,
            address: usize,
            pairs: Vec<Result<(Value, Value), mlua::Error>>,
        |
            {
                &&& call_ensures(home_of, (value,), Some(lua))
                &&& #[trigger] call_ensures(
                    held_part,
                    (&lua, value),
                    HeldPart::Table { address, pairs },
                )
                &&& (data->Table_0)@.len() == pairs@.filter(
                    |pair: Result<(Value, Value), mlua::Error>| pair is Ok,
                ).len()
            },
{
    let home = choose|home: Option<Lua>| #[trigger]
        call_ensures(home_of, (value,), home) && pictures(
            home,
            *value,
            Seq::empty(),
            usize::MAX as nat,
            data,
        );
    let plain = choose|plain: Option<LuaData>| #[trigger]
        call_ensures(plain_part, (value,), plain) && match (plain, home) {
            (Some(plain), _) => data == plain,
            (None, Some(lua)) => exists|owned: bool| #[trigger]
                call_ensures(owns_value, (&lua, value), owned) && if owned {
                    pictures_held(lua, *value, Seq::empty(), usize::MAX as nat, data)
                } else {
                    data is Opaque
                },
            (None, None) => data is Opaque,
        };
    if plain is Some {
        assert(plain == Some(data));
    } else if home is Some && !(data is Opaque) {
        let lua = home->0;
        assert(pictures_held(lua, *value, Seq::empty(), usize::MAX as nat, data));
        let part = choose|part: HeldPart| #[trigger]
            call_ensures(held_part, (&lua, value), part) && match part {
                HeldPart::Text(text) => data == LuaData::Text(text),
                HeldPart::Table { address, pairs } => data is Table && (data->Table_0)@.len()
                    == pairs_read(pairs@, pairs@.len() as int).len(),
                HeldPart::Other => false,
            };
        match part {
            HeldPart::Text(text) => {
                assert(data->Text_0 == text);
                assert(call_ensures(home_of, (value,), Some(lua)));
                assert(call_ensures(held_part, (&lua, value), HeldPart::Text(data->Text_0)));
            },
            HeldPart::Table { address, pairs } => {
                assert(call_ensures(held_part, (&lua, value), HeldPart::Table { address, pairs }));
                lemma_pairs_read(pairs@, pairs@.len() as int);
                assert(pairs@.take(pairs@.len() as int) =~= pairs@);
            },
            HeldPart::Other => {},
        }
    }
}

/// Contexts match where what is taken out of the one is deeply equal to what is
/// taken out of the other.
pub proof fn law_contexts_match_by_deep_equality(a: &LuaCtx, b: &LuaCtx, same: bool)
    requires
        a.may_equal(b, same),
    ensures
        exists|x: LuaData, y: LuaData| #[trigger]
            taken_out(&a.0, x) && #[trigger] taken_out(&b.0, y) && same == x.deep_equal(y),
{
}

} // verus!
