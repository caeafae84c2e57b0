//! The Lua outcome protocol, deep-equality contexts, and
//! incremental reuse with Lua-defined passes.

use increparse::lua_language::LuaConfigError;
use increparse::lua_pass::{decode, LuaChild, LuaPass, LuaPassError, PassReply};
use increparse::server::{
    handle_notification, handle_request, Notification, Publication, Reply, Request,
};
use increparse::{
    CancelToken, DiagnosticSeverity, DocumentSymbol, Documents, FailedNode, Language, LuaCtx,
    LuaLanguage, LuaNotice, LuaWatch, NodeId, Outcome, ParseTree, Pass, Position, SerialExecutor, Span, Status, SymbolKind,
};
use mlua::Lua;
use std::sync::{Arc, Mutex};

/// Functions, their `return` statements, and a checker for these.
const MINILANG: &str = r#"
return {
  name = "minilang",
  root_ctx = { File = true },
  passes = {
    -- Round 0: the file -> one region per `def name(params) { ... }`.
    function(source, span, ctx)
      if ctx.File == nil then return "failed" end
      local children = {}
      local i = span.start + 1
      while i <= span["end"] do
        local name = source:match("^def%s+([%w_]+)", i)
        if not name then
          i = i + 1 -- malformed line: skip one byte, keep scanning
        else
          local p0 = source:find("(", i, true)
          local p1 = source:find(")", p0, true)
          local params = {}
          for p in source:sub(p0 + 1, p1 - 1):gmatch("[%w_]+") do
            params[#params + 1] = p
          end
          children[#children + 1] = {
            start = i - 1,
            ["end"] = source:find("}", p1, true),
            ctx = { Function = { name = name, params = params } },
          }
          i = source:find("}", p1, true) + 1
        end
      end
      return { expand = children }
    end,

    -- Round 1: function bodies -> `return ...;` regions.
    function(source, span, ctx)
      if ctx.Function == nil then return "failed" end
      local children = {}
      local i = span.start + 1
      while i <= span["end"] do
        local s0, e0 = source:find("return", i, true)
        if not s0 or e0 > span["end"] then break end
        local semi = source:find(";", e0 + 1, true)
        if not semi or semi > span["end"] then break end
        children[#children + 1] = {
          start = s0 - 1, ["end"] = semi,
          ctx = { Return = { ["function"] = ctx.Function.name } },
        }
        i = semi + 1
      end
      return { expand = children }
    end,

    -- Round 2: the checker.
    function(source, span, ctx)
      if ctx.Return == nil then return "failed" end
      local expr = source:sub(span.start + 1, span["end"]):match("^return%s*(.-)%s*;$")
      if expr == "" then return "failed" end
      return "done"
    end,
  },

  diagnostic = function(source, node)
    if node.ctx.Return then
      return { message = "empty return in `" .. node.ctx.Return["function"] .. "`" }
    end
  end,

  symbols = function(nodes)
    local out = {}
    for _, n in ipairs(nodes) do
      if n.ctx.Function then
        out[#out + 1] = {
          name = n.ctx.Function.name,
          detail = "(" .. table.concat(n.ctx.Function.params, ", ") .. ")",
          start = n.start, ["end"] = n["end"],
        }
      end
    end
    return out
  end,
}
"#;

fn test_language() -> LuaLanguage {
    LuaLanguage::from_script(MINILANG).expect("fixture config loads")
}

fn eval(lua: &Lua, code: &str) -> mlua::Result<mlua::Value> {
    lua.load(code).eval()
}

#[test]
fn config_from_fixture_loads() {
    let language = test_language();
    assert_eq!(language.name(), "minilang");
    assert!(language.supports_symbols());
}

#[test]
fn config_validation_rejects_bad_definitions() {
    let lua = Lua::new();

    // Not a table.
    assert!(LuaLanguage::from_config(lua.clone(), eval(&lua, "42").unwrap()).is_err());

    // Missing passes.
    assert!(LuaLanguage::from_config(
        lua.clone(),
        eval(&lua, "{ name = 'x', root_ctx = {} }").unwrap()
    )
    .is_err());

    // Empty passes.
    assert!(LuaLanguage::from_config(
        lua.clone(),
        eval(&lua, "{ name = 'x', root_ctx = {}, passes = {} }").unwrap()
    )
    .is_err());

    // Passes containing non-functions.
    assert!(LuaLanguage::from_config(
        lua.clone(),
        eval(
            &lua,
            "{ name = 'x', root_ctx = {}, passes = { function() end, 42 } }"
        )
        .unwrap()
    )
    .is_err());
}

#[test]
fn outcome_protocol_expands() {
    let lua = Lua::new();
    let config = eval(
        &lua,
        r#"
        {
          name = "t",
          root_ctx = {},
          passes = {
            function(source, span, ctx)
              return { expand = { { start = 0, ["end"] = 3, ctx = { A = true } } } }
            end,
          },
        }
        "#,
    )
    .unwrap();
    let language = LuaLanguage::from_config(lua, config).unwrap();

    let engine = language.engine();
    let mut tree: ParseTree<LuaCtx> = ParseTree::new(0, Span::new(0, 10, 0), language.root_ctx());
    engine.run(
        "hello worl",
        &mut tree,
        &SerialExecutor,
        &CancelToken::new(),
    );

    assert_eq!(tree.status(tree.root()), increparse::Status::Expanded);
    let kid = tree.children(tree.root())[0];
    assert_eq!(tree.span(kid).to_range(), 0..3);
    // The child context is a Lua table: deep-equal to { A = true }.
    let expected = eval(language.lua(), "return { A = true }").unwrap();
    assert_eq!(*tree.ctx(kid), LuaCtx(expected));
}

#[test]
fn outcome_sentinels() {
    let lua = Lua::new();

    for (code, expected) in [
        ("return \"done\"", Status::Done),
        ("return { done = true }", Status::Failed), // table without expand: failed
        ("return \"failed\"", Status::Failed),
        ("return nil", Status::Failed),
    ] {
        let config = eval(
            &lua,
            &format!(
                r#"
                {{
                  name = "t",
                  root_ctx = {{}},
                  passes = {{ function(source, span, ctx) {code} end }},
                }}
                "#
            ),
        )
        .unwrap();
        let language = LuaLanguage::from_config(lua.clone(), config).unwrap();
        let engine = language.engine();
        let mut tree: ParseTree<LuaCtx> =
            ParseTree::new(0, Span::new(0, 3, 0), language.root_ctx());
        engine.run("abc", &mut tree, &SerialExecutor, &CancelToken::new());
        assert_eq!(tree.status(tree.root()), expected, "case: {code}");
    }
}

#[test]
fn thrown_errors_become_failed_not_crashes() {
    let lua = Lua::new();
    let config = eval(
        &lua,
        r#"
        {
          name = "t",
          root_ctx = {},
          passes = {
            function(source, span, ctx) error("boom") end,
          },
        }
        "#,
    )
    .unwrap();
    let language = LuaLanguage::from_config(lua, config).unwrap();
    let engine = language.engine();
    let mut tree: ParseTree<LuaCtx> = ParseTree::new(0, Span::new(0, 3, 0), language.root_ctx());
    let report = engine.run("abc", &mut tree, &SerialExecutor, &CancelToken::new());
    assert!(report.reached_fixpoint);
    assert_eq!(tree.status(tree.root()), Status::Failed);
}

#[test]
fn deep_equality_gates_reuse() {
    let language = test_language();
    let engine = language.engine();

    let source = "def add(a, b) { return a + b; }\ndef zed(q) { return q; }";
    let mut tree: ParseTree<LuaCtx> =
        ParseTree::new(0, Span::new(0, source.len(), 0), language.root_ctx());
    let report = engine.run(source, &mut tree, &SerialExecutor, &CancelToken::new());
    assert!(report.reached_fixpoint);

    let root = tree.root();
    let add = tree.children(root)[0];
    let zed = tree.children(root)[1];

    // Same-length edit inside add's return only: both functions must be
    // reused (deep-equal contexts), and only add's chain re-parses.
    let edited = "def add(a, b) { return b + a; }\ndef zed(q) { return q; }";
    tree.edit(increparse::Edit::replace(19, 20, 20));
    let report = engine.run(edited, &mut tree, &SerialExecutor, &CancelToken::new());
    assert!(report.reached_fixpoint);

    let kids = tree.children(root);
    assert_eq!(kids[0], add, "add reused");
    assert_eq!(kids[1], zed, "zed reused");
    assert_eq!(tree.status(kids[1]), Status::Expanded, "zed untouched");
    let zed_return = tree.children(kids[1])[0];
    assert_eq!(
        tree.status(zed_return),
        Status::Done,
        "zed's return healed-to-done state intact"
    );
    assert_eq!(report.nodes_processed, 3, "root + add + its return only");
}

#[test]
fn lua_ctx_deep_equality() {
    let lua = Lua::new();
    let a = LuaCtx(eval(&lua, "return { F = { name = 'x', params = { 'a', 'b' } } }").unwrap());
    let b = LuaCtx(eval(&lua, "return { F = { name = 'x', params = { 'a', 'b' } } }").unwrap());
    let c = LuaCtx(eval(&lua, "return { F = { name = 'x', params = { 'a' } } }").unwrap());
    let d = LuaCtx(eval(&lua, "return { F = { name = 'x' } }").unwrap());

    assert_eq!(a, b);
    assert_ne!(a, c);
    assert_ne!(a, d);
    assert_eq!(LuaCtx(mlua::Value::Nil), LuaCtx(mlua::Value::Nil));
    assert_eq!(
        LuaCtx(eval(&lua, "return 1").unwrap()),
        LuaCtx(eval(&lua, "return 1.0").unwrap())
    );
}

fn same(a: &str, b: &str) -> bool {
    let lua = Lua::new();
    LuaCtx(eval(&lua, a).unwrap()) == LuaCtx(eval(&lua, b).unwrap())
}

#[test]
fn numbers_compare_by_value() {
    assert!(same("return 7", "return 7"));
    assert!(!same("return 7", "return 8"));
    assert!(same("return 0.5", "return 0.5"));
    assert!(!same("return 0.5", "return 0.25"));
    assert!(same("return -3", "return -3.0"));
    assert!(same("return 2.0", "return 2"));
    assert!(!same("return 2.5", "return 2"));
    assert!(same("return 0.0", "return -0.0"));
    assert!(same("return 1/0", "return 1/0"));
    assert!(!same("return 1/0", "return -1/0"));
    assert!(!same("return 0/0", "return 0/0"));
    // Large integers are told from their neighbours.
    assert!(same("return 9007199254740992", "return 9007199254740992.0"));
    assert!(!same("return 9007199254740993", "return 9007199254740992.0"));
    assert!(!same(
        "return 9007199254740993",
        "return 9007199254740992"
    ));
}

#[test]
fn values_of_different_types_differ() {
    assert!(same("return true", "return true"));
    assert!(!same("return true", "return false"));
    assert!(!same("return nil", "return false"));
    assert!(!same("return '1'", "return 1"));
    assert!(same("return 'a\\0b'", "return 'a\\0b'"));
    assert!(!same("return 'a\\0b'", "return 'a\\0c'"));
    assert!(!same("return {}", "return nil"));
}

#[test]
fn tables_compare_pair_by_pair() {
    assert!(same("return {}", "return {}"));
    assert!(same(
        "return { a = 1, b = { 2, 3 } }",
        "return { b = { 2, 3 }, a = 1 }"
    ));
    assert!(!same("return { a = 1 }", "return { a = 1, b = 2 }"));
    assert!(!same("return { a = 1, b = 2 }", "return { a = 1 }"));
    assert!(!same("return { a = 1 }", "return { b = 1 }"));
    assert!(!same("return { a = { 1 } }", "return { a = { 2 } }"));
}

#[test]
fn opaque_values_equal_nothing() {
    let lua = Lua::new();
    let function = LuaCtx(eval(&lua, "return print").unwrap());
    assert_ne!(function, function.clone());
    let holder = LuaCtx(eval(&lua, "return { f = print }").unwrap());
    assert_ne!(holder, holder.clone());
}

#[test]
fn tables_as_keys_are_paired_off() {
    let lua = Lua::new();
    let a = LuaCtx(eval(&lua, "return { [{}] = 1, [{ }] = 1 }").unwrap());
    let b = LuaCtx(eval(&lua, "return { [{}] = 1, [{ }] = 2 }").unwrap());
    let c = LuaCtx(eval(&lua, "return { [{}] = 2, [{ }] = 1 }").unwrap());
    assert_ne!(a, b);
    assert_ne!(b, a);
    assert_eq!(b, c);
    assert_eq!(c, b);
}

#[test]
fn tables_within_themselves_equal_nothing() {
    let lua = Lua::new();
    let round = LuaCtx(eval(&lua, "local t = { 1 }; t.t = t; t.u = t; return t").unwrap());
    assert_ne!(round, round.clone());
    // The same table twice is no circle.
    let twice = LuaCtx(eval(&lua, "local t = { 1 }; return { t, t }").unwrap());
    assert_eq!(twice, LuaCtx(eval(&lua, "return { { 1 }, { 1 } }").unwrap()));
    // Depth alone is no obstacle.
    let nested = |depth: usize| {
        let code = format!("local t = {{}}; for _ = 1, {depth} do t = {{ t }} end; return t");
        LuaCtx(eval(&lua, &code).unwrap())
    };
    assert_eq!(nested(300), nested(300));
    assert_ne!(nested(300), nested(301));
}

#[test]
fn contexts_outlive_their_state() {
    let lua = Lua::new();
    let text = LuaCtx(eval(&lua, "return 'text'").unwrap());
    let table = LuaCtx(eval(&lua, "return { 1 }").unwrap());
    let number = LuaCtx(eval(&lua, "return 1").unwrap());
    // Contexts of two states compare by what they hold.
    let other = Lua::new();
    assert_eq!(table, LuaCtx(eval(&other, "return { 1 }").unwrap()));
    drop(lua);
    assert_ne!(text, text.clone());
    assert_ne!(table, table.clone());
    assert_eq!(number, number.clone());
}

fn load(config: &str) -> Result<LuaLanguage, LuaConfigError> {
    let lua = Lua::new();
    let config = eval(&lua, config).unwrap();
    LuaLanguage::from_config(lua, config)
}

#[test]
fn each_fault_of_a_configuration_is_named() {
    let passes = "passes = { function() end }";
    let cases = [
        ("42".to_string(), "config must be a table"),
        (
            "{ name = 'x', passes = {} }".to_string(),
            "config.passes must list at least one function",
        ),
        (
            format!("{{ name = 'x', {passes}, diagnostic = 1 }}"),
            "config.diagnostic must be a function, got integer",
        ),
        (
            format!("{{ name = 'x', {passes}, diagnostic = 'f' }}"),
            "config.diagnostic must be a function, got string",
        ),
        (
            format!("{{ name = 'x', {passes}, diagnostic = 0.5 }}"),
            "config.diagnostic must be a function, got number",
        ),
        (
            format!("{{ name = 'x', {passes}, symbols = {{}} }}"),
            "config.symbols must be a function, got table",
        ),
        (
            format!("{{ name = 'x', {passes}, symbols = true }}"),
            "config.symbols must be a function, got boolean",
        ),
        (
            format!("{{ name = 'x', {passes}, symbols = coroutine.create(print) }}"),
            "config.symbols must be a function, got thread",
        ),
    ];
    for (config, message) in cases {
        match load(&config) {
            Ok(_) => panic!("loaded: {config}"),
            Err(error) => assert_eq!(error.message(), message, "{config}"),
        }
    }
    // The name comes first, and its fault is Lua's to describe.
    match load("{ passes = {} }") {
        Err(LuaConfigError::Lua(_)) => {}
        _ => panic!("a nameless language was loaded"),
    }
    match LuaLanguage::from_script("this is not Lua") {
        Err(error @ LuaConfigError::Lua(_)) => assert!(!error.message().is_empty()),
        _ => panic!("nonsense was loaded"),
    }
}

#[test]
fn optional_functions_may_be_absent() {
    let language = load("{ name = 'x', root_ctx = 1, passes = { function() end } }").unwrap();
    assert!(!language.supports_symbols());
    assert_eq!(language.engine().schedule().len(), 1);
    assert_eq!(language.engine().schedule().pass_name(0), Some("LuaPass"));
    assert_eq!(
        language.root_ctx(),
        LuaCtx(eval(language.lua(), "1").unwrap())
    );
}

fn pass(body: &str) -> LuaPass {
    let lua = Lua::new();
    let code = format!("function(source, span, ctx) {body} end");
    let function = match eval(&lua, &code).unwrap() {
        mlua::Value::Function(function) => function,
        _ => panic!("not a function"),
    };
    LuaPass::new(lua, function, 3)
}

#[test]
fn passes_see_source_span_and_context() {
    let body = "return { expand = { { start = span.start + 1, ['end'] = span['end'], \
                ctx = source:sub(1, 2) .. span.rev .. tostring(ctx) } } }";
    let pass = pass(body);
    let outcome = pass.parse("abcdef", Span::new(2, 5, 9), &LuaCtx(mlua::Value::Nil));
    match outcome {
        Outcome::Expand(children) => {
            assert_eq!(children.len(), 1);
            assert_eq!(children[0].0, Span::new(3, 5, 9));
            match &children[0].1 .0 {
                mlua::Value::String(text) => assert_eq!(&*text.as_bytes(), b"ab9nil"),
                other => panic!("unexpected context {other:?}"),
            }
        }
        other => panic!("expected Expand, got {other:?}"),
    }
}

#[test]
fn inverted_children_are_an_error() {
    let body = "return { expand = { { start = 0, ['end'] = 1 }, { start = 2, ['end'] = 1 }, \
                { start = 9, ['end'] = 8 } } }";
    let pass = pass(body);
    let ctx = LuaCtx(mlua::Value::Nil);
    match pass.try_parse("abc", Span::new(0, 3, 0), &ctx) {
        Err(LuaPassError::InvertedChild { index, start, end }) => {
            assert_eq!((index, start, end), (3, 2, 1))
        }
        _ => panic!("an inverted child was taken"),
    }
    let outcome = pass.parse("abc", Span::new(0, 3, 0), &ctx);
    assert!(matches!(outcome, Outcome::Failed));
}

#[test]
fn the_first_bad_child_is_reported() {
    let ctx = LuaCtx(mlua::Value::Nil);
    let inverted = "{ start = 2, ['end'] = 1 }";
    let broken = "{ start = 'x', ['end'] = 1 }";
    let first = pass(&format!("return {{ expand = {{ {inverted}, {broken} }} }}"));
    match first.try_parse("abc", Span::new(0, 3, 0), &ctx) {
        Err(LuaPassError::InvertedChild { start, end, .. }) => assert_eq!((start, end), (2, 1)),
        _ => panic!("the inverted child comes first"),
    }
    let first = pass(&format!("return {{ expand = {{ {broken}, {inverted} }} }}"));
    match first.try_parse("abc", Span::new(0, 3, 0), &ctx) {
        Err(LuaPassError::Lua(_)) => {}
        _ => panic!("the broken child comes first"),
    }
    // Given the replies, the same.
    let child = |start, end| Ok(LuaChild { start, end, ctx: LuaCtx(mlua::Value::Nil) });
    match decode(PassReply::Children(vec![child(0, 1), child(1, 3)]), 4, 0) {
        Ok(Outcome::Expand(children)) => {
            let spans: Vec<Span> = children.iter().map(|(span, _)| *span).collect();
            assert_eq!(spans, [Span::new(0, 1, 4), Span::new(1, 3, 4)]);
        }
        _ => panic!("upright children expand the region"),
    }
    let lost = Err(mlua::Error::RuntimeError("lost".into()));
    match decode(PassReply::Children(vec![child(0, 1), lost, child(3, 2)]), 4, 0) {
        Err(LuaPassError::Lua(mlua::Error::RuntimeError(text))) => assert_eq!(text, "lost"),
        _ => panic!("the error comes first"),
    }
}

#[test]
fn values_of_another_state_are_refused() {
    let other = Lua::new();
    let foreign = LuaCtx(eval(&other, "{ 1 }").unwrap());
    let willing = pass("return 'done'");
    match willing.try_parse("abc", Span::new(0, 3, 0), &foreign) {
        Err(LuaPassError::OtherState) => {}
        _ => panic!("a foreign context was taken"),
    }
    assert!(matches!(
        willing.parse("abc", Span::new(0, 3, 0), &foreign),
        Outcome::Failed
    ));
    // Numbers belong to no state.
    let number = LuaCtx(eval(&other, "1").unwrap());
    assert!(matches!(
        willing.parse("abc", Span::new(0, 3, 0), &number),
        Outcome::Done
    ));
    // A function of another state, alive or gone.
    let function = match eval(&other, "function() return 'done' end").unwrap() {
        mlua::Value::Function(function) => function,
        _ => panic!("not a function"),
    };
    let stranger = LuaPass::new(Lua::new(), function, 0);
    match stranger.try_parse("abc", Span::new(0, 3, 0), &number) {
        Err(LuaPassError::OtherState) => {}
        _ => panic!("a foreign function was called"),
    }
    let config = eval(&other, "{ name = 'x', passes = { function() end } }").unwrap();
    match LuaLanguage::from_config(Lua::new(), config.clone()) {
        Err(error @ LuaConfigError::OtherState) => assert_eq!(
            error.message(),
            "config must be a table of the same Lua state"
        ),
        _ => panic!("a foreign configuration was loaded"),
    }
    drop(other);
    match LuaLanguage::from_config(Lua::new(), config) {
        Err(LuaConfigError::OtherState) => {}
        _ => panic!("a configuration without a state was loaded"),
    }
    match stranger.try_parse("abc", Span::new(0, 3, 0), &number) {
        Err(LuaPassError::OtherState) => {}
        _ => panic!("a function without a state was called"),
    }
}

#[test]
fn diagnostics_go_by_the_tree() {
    let (language, documents, _) = failing(
        "diagnostic = function(source, node) return { message = node.start .. '-' .. node['end'], \
         start = node.start } end, symbols = function(nodes) return {} end",
    );
    let doc = documents.get("a").unwrap();
    let tree = doc.session().tree();
    let ctx = tree.ctx(tree.root()).clone();
    let at = |id: NodeId, ctx: &LuaCtx| {
        let node = FailedNode { id, ctx, status: Status::Failed, span: Span::new(1, 2, 0) };
        language.diagnostic(doc, node).map(|found| found.message)
    };
    assert_eq!(at(tree.root(), &ctx).as_deref(), Some("0-6"));
    // A node of another tree, and a context of another state.
    assert_eq!(at(NodeId(7), &ctx), None);
    let other = Lua::new();
    let foreign = LuaCtx(eval(&other, "{}").unwrap());
    assert_eq!(at(tree.root(), &foreign), None);
}

#[test]
fn replies_that_make_no_sense_fail_the_region() {
    let ctx = LuaCtx(mlua::Value::Nil);
    for body in [
        "return 'other'",
        "return true",
        "return 1",
        "return { expand = 1 }",
        "return { expand = { 1 } }",
        "return { expand = { { start = 0 } } }",
        "return { expand = { { start = -1, ['end'] = 1 } } }",
        "error('boom')",
    ] {
        let outcome = pass(body).parse("abc", Span::new(0, 3, 0), &ctx);
        assert!(matches!(outcome, Outcome::Failed), "{body}");
    }
    let outcome = pass("return { expand = {} }").parse("abc", Span::new(0, 3, 0), &ctx);
    assert!(matches!(outcome, Outcome::Expand(children) if children.is_empty()));
    match pass("error('boom')").try_parse("abc", Span::new(0, 3, 0), &ctx) {
        Err(LuaPassError::Lua(_)) => {}
        _ => panic!("a thrown error went unnoticed"),
    }
}

/// A watch that writes down what it is told.
fn notes() -> (LuaWatch, Arc<Mutex<Vec<String>>>) {
    let told = Arc::new(Mutex::new(Vec::new()));
    let kept = told.clone();
    let watch = LuaWatch::new(move |notice: &LuaNotice| {
        kept.lock().unwrap().push(notice.message());
    });
    (watch, told)
}

#[test]
fn the_watch_is_told_what_goes_wrong() {
    let ctx = LuaCtx(mlua::Value::Nil);
    for (body, expected) in [
        ("return nil", None),
        ("return 'done'", None),
        ("return 'failed'", None),
        ("return { expand = {} }", None),
        (
            "return 'other'",
            Some("pass #3 returned string; treating as failed"),
        ),
        (
            "return true",
            Some("pass #3 returned boolean; treating as failed"),
        ),
        (
            "return print",
            Some("pass #3 returned function; treating as failed"),
        ),
        (
            "return {}",
            Some("pass #3 returned a table without `expand`; treating as failed"),
        ),
        (
            "return { expand = { { start = 2, ['end'] = 1 } } }",
            Some("pass #3 error: pass #3 produced a child with start 2 > end 1"),
        ),
    ] {
        let (watch, told) = notes();
        pass(body).watched(watch).parse("abc", Span::new(0, 3, 0), &ctx);
        let told = told.lock().unwrap();
        assert_eq!(told.first().map(|text| text.as_str()), expected, "{body}");
        assert!(told.len() <= 1, "{body}");
    }
    let (watch, told) = notes();
    let other = Lua::new();
    let foreign = LuaCtx(eval(&other, "{}").unwrap());
    let broken = pass("error('boom')").watched(watch.clone());
    broken.parse("abc", Span::new(0, 3, 0), &ctx);
    broken.parse("abc", Span::new(0, 3, 0), &foreign);
    let language = LuaLanguage::from_script_watched(
        "return { name = 'x', passes = { function() error('bang') end }, \
         symbols = function() error('crash') end }",
        watch,
    )
    .unwrap();
    let mut documents = Documents::new();
    let open = Notification::DidOpen {
        uri: "a".into(),
        version: 0,
        text: "abc".into(),
    };
    handle_notification(&language, &mut documents, open);
    handle_request(&language, &documents, &Request::Symbols { uri: "a".into() });
    let told = told.lock().unwrap();
    assert_eq!(told.len(), 4);
    assert!(told[0].starts_with("pass #3 error: ") && told[0].contains("boom"));
    assert_eq!(told[1], "pass #3 error: a value belongs to another Lua state");
    assert!(told[2].starts_with("pass #0 error: ") && told[2].contains("bang"));
    assert!(told[3].starts_with("symbols error: ") && told[3].contains("crash"));
}

/// A language whose only pass fails, with these hooks.
fn failing(hooks: &str) -> (LuaLanguage, Documents<LuaCtx>, Publication) {
    let language = load(&format!(
        "{{ name = 'x', root_ctx = 'top', passes = {{ function() end }}, {hooks} }}"
    ))
    .unwrap();
    let mut documents = Documents::new();
    let open = Notification::DidOpen {
        uri: "a".into(),
        version: 0,
        text: "é\nabc".into(),
    };
    let published = handle_notification(&language, &mut documents, open).unwrap();
    (language, documents, published)
}

#[test]
fn diagnostics_are_rendered_in_lua() {
    let at = |line, character| Position { line, character };
    let (_, _, published) = failing(
        "diagnostic = function(source, node) return { message = source:sub(4) .. ':' .. \
         node.status .. ':' .. node.ctx .. ':' .. node.start .. '-' .. node['end'] } end",
    );
    assert_eq!(published.diagnostics.len(), 1);
    let found = &published.diagnostics[0];
    assert_eq!(found.message, "abc:failed:top:0-6");
    assert_eq!(found.severity, Some(DiagnosticSeverity::Error));
    assert_eq!((found.range.start, found.range.end), (at(0, 0), at(1, 3)));

    for (fields, severity, start, end) in [
        ("severity = 1", DiagnosticSeverity::Error, at(0, 0), at(1, 3)),
        ("severity = 2", DiagnosticSeverity::Warning, at(0, 0), at(1, 3)),
        ("severity = 3", DiagnosticSeverity::Information, at(0, 0), at(1, 3)),
        ("severity = 4", DiagnosticSeverity::Hint, at(0, 0), at(1, 3)),
        ("severity = 5", DiagnosticSeverity::Error, at(0, 0), at(1, 3)),
        ("start = 3, ['end'] = 5", DiagnosticSeverity::Error, at(1, 0), at(1, 2)),
        ("start = 4", DiagnosticSeverity::Error, at(1, 1), at(1, 3)),
        ("['end'] = 2", DiagnosticSeverity::Error, at(0, 0), at(0, 1)),
    ] {
        let (_, _, published) = failing(&format!(
            "diagnostic = function() return {{ message = 'm', {fields} }} end"
        ));
        let found = &published.diagnostics[0];
        assert_eq!(found.severity, Some(severity), "{fields}");
        assert_eq!((found.range.start, found.range.end), (start, end), "{fields}");
    }

    for hook in ["return nil", "return 'text'", "return {}", "error('boom')"] {
        let (_, _, published) = failing(&format!("diagnostic = function() {hook} end"));
        assert!(published.diagnostics.is_empty(), "{hook}");
    }
}

fn outline(hook: &str) -> Vec<DocumentSymbol> {
    let (language, documents, _) = failing(&format!("symbols = function(nodes) {hook} end"));
    match handle_request(&language, &documents, &Request::Symbols { uri: "a".into() }) {
        Reply::Symbols(symbols) => symbols,
        _ => panic!("not an outline"),
    }
}

#[test]
fn outlines_are_drawn_in_lua() {
    // The rows show the tree.
    let drawn = outline(
        "return { { name = #nodes .. nodes[1].status .. nodes[1].ctx, start = nodes[1].start, \
         ['end'] = nodes[1]['end'], detail = 'd' } }",
    );
    assert_eq!(drawn.len(), 1);
    assert_eq!(drawn[0].name, "1failedtop");
    assert_eq!(drawn[0].detail.as_deref(), Some("d"));
    assert_eq!(drawn[0].kind, SymbolKind::Function);
    assert_eq!(drawn[0].range.end, Position { line: 1, character: 3 });
    assert_eq!(drawn[0].range, drawn[0].selection_range);

    // Incomplete symbols are left out; anything but a table ends the list.
    let names = |hook: &str| -> Vec<String> { outline(hook).into_iter().map(|s| s.name).collect() };
    let full = "{ name = 'n', start = 0, ['end'] = 1 }";
    assert_eq!(
        names(&format!(
            "return {{ {full}, {{ name = 'a', start = 0 }}, {{ start = 0, ['end'] = 1 }}, {full}, 1, {full} }}"
        )),
        ["n", "n"]
    );
    for hook in ["return nil", "return 1", "return {}", "error('boom')"] {
        assert!(names(hook).is_empty(), "{hook}");
    }
}
