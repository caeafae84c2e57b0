//! What holds across calls, on concrete values.

use chumsky::prelude::{any, extra, SimpleSpan};
use chumsky::Parser;
use increparse::chumsky_pass::ChumChildren;
use increparse::executor::run_until;
use increparse::executor_rayon::{attempt, run_parallel_until};
use increparse::lua_data::{deep_eq, LuaData};
use increparse::nom_pass::{Located, NomChildren, NomResult};
use increparse::rebase::{rebase, region_text};
use increparse::session::map_span;
use increparse::{
    chumsky_pass, diagnostics, nom_pass, pass_fn, CancelToken, ContentChange, Diagnostic,
    DiagnosticsOptions, Document, Edit, Engine, EngineConfig, Executor, Job, LineIndex, NodeId, Outcome,
    ParseTree, Pass, Position, PositionEncoding, Range, RayonExecutor, SerialExecutor, Session,
    Span, Status, StatusCounts, Violation, ViolationKind,
};
use std::cell::Cell;

fn span(start: usize, end: usize) -> Span {
    Span::new(start, end, 0)
}

/// Splits a region at its middle, down to single bytes.
fn halve(_source: &str, span: Span, _ctx: &usize) -> Outcome<usize> {
    if span.len() <= 1 {
        return Outcome::Done;
    }
    let middle = span.start + span.len() / 2;
    Outcome::Expand(vec![
        (Span::new(span.start, middle, span.rev), 0),
        (Span::new(middle, span.end, span.rev), 1),
    ])
}

/// Fails regions that contain a bang, and accepts the others.
fn no_bang(source: &str, span: Span, _ctx: &usize) -> Outcome<usize> {
    if source[span.to_range()].contains('!') {
        Outcome::Failed
    } else {
        Outcome::Done
    }
}

fn engine() -> Engine<usize> {
    Engine::with((pass_fn(halve), pass_fn(halve), pass_fn(no_bang)))
}

/// The tree as far as its users can see it.
fn shape<C: Clone>(tree: &ParseTree<C>) -> Vec<(NodeId, Span, Status, Option<NodeId>, Vec<NodeId>)> {
    tree.nodes()
        .into_iter()
        .map(|id| {
            (
                id,
                tree.span(id),
                tree.status(id),
                tree.parent(id),
                tree.children(id).to_vec(),
            )
        })
        .collect()
}

fn parsed(source: &str) -> ParseTree<usize> {
    let mut tree = ParseTree::from_source(source, 0, 0);
    let report = engine().run(source, &mut tree, &SerialExecutor, &CancelToken::new());
    assert!(report.reached_fixpoint);
    tree
}

#[test]
fn covering_is_transitive() {
    let (a, b, c) = (span(0, 9), span(2, 8), span(2, 3));
    assert!(a.contains(&b) && b.contains(&c) && a.contains(&c));
    assert!(!c.contains(&b));
}

#[test]
fn spans_know_their_bytes() {
    assert!(span(2, 4).contains_offset(2) && span(2, 4).contains_offset(3));
    assert!(!span(2, 4).contains_offset(4) && !span(2, 4).contains_offset(1));
    assert!(!span(3, 3).contains_offset(3));
    assert!(span(0, 3).overlaps(&span(2, 5)));
    assert!(!span(0, 3).overlaps(&span(3, 5)));
    assert!(!span(0, 3).overlaps(&span(1, 1)));
    assert_eq!(span(2, 7).len(), 5);
    assert!(span(4, 4).is_empty());
    assert_eq!(Span::new(3, 10, 2).to_string(), "3..10@2");
}

#[test]
fn runs_agree_whatever_the_executor() {
    let source = "abcd!efgh";
    let serial = parsed(source);
    let mut parallel = ParseTree::from_source(source, 0, 0);
    engine().run(source, &mut parallel, &RayonExecutor::default(), &CancelToken::new());
    assert_eq!(shape(&serial), shape(&parallel));
}

#[test]
fn a_cancelled_run_can_be_resumed() {
    let source = "abcd!efgh";
    let mut tree = ParseTree::from_source(source, 0, 0);
    let stop = CancelToken::new();
    stop.cancel();
    let report = engine().run(source, &mut tree, &SerialExecutor, &stop);
    assert!(report.cancelled && !report.reached_fixpoint);
    assert_eq!(report.nodes_processed, 0);
    stop.reset();
    let report = engine().run(source, &mut tree, &SerialExecutor, &stop);
    assert!(report.reached_fixpoint && !report.cancelled);
    assert_eq!(shape(&tree), shape(&parsed(source)));
}

#[test]
fn a_settled_run_does_nothing() {
    let source = "abcd!efgh";
    let mut tree = parsed(source);
    let before = shape(&tree);
    let report = engine().run(source, &mut tree, &SerialExecutor, &CancelToken::new());
    assert_eq!(report.nodes_processed, 0);
    assert_eq!(report.rounds_run, 0);
    assert!(report.reached_fixpoint);
    assert_eq!(shape(&tree), before);
}

#[test]
fn a_fixpoint_is_settled_everywhere() {
    let tree = parsed("abcd!efgh");
    for id in tree.nodes() {
        assert!(tree.is_settled(id, 3));
        assert!(!tree.is_pending(id, 3));
    }
    assert!(tree.pending(3).is_empty());
    // With a round to spare, the failed region would be tried again.
    assert!(!tree.is_settled(tree.root(), 4));
    assert_eq!(tree.pending(4).len(), 1);
}

#[test]
fn tuples_run_in_order() {
    let first = pass_fn(|_source: &str, span: Span, _ctx: &usize| Outcome::one(span, 1));
    let second = pass_fn(|_source: &str, span: Span, ctx: &usize| Outcome::one(span, ctx + 10));
    let third = pass_fn(|_source: &str, _span: Span, _ctx: &usize| Outcome::Done);
    let engine = Engine::with((first, second, third));
    assert_eq!(engine.max_rounds(), 3);
    let mut tree = ParseTree::from_source("abc", 0, 0);
    engine.run("abc", &mut tree, &SerialExecutor, &CancelToken::new());
    let contexts: Vec<usize> = tree.nodes().into_iter().map(|id| *tree.ctx(id)).collect();
    assert_eq!(contexts, [0, 1, 11]);
    assert_eq!(engine.schedule().pass_name(2), Some("PassFn"));
    assert_eq!(engine.schedule().pass_name(3), None);
}

#[test]
fn an_empty_schedule_does_nothing() {
    let mut tree: ParseTree<usize> = ParseTree::from_source("abc", 0, 0);
    let before = shape(&tree);
    let engine: Engine<usize> = Engine::with(Vec::new());
    let report = engine.run("abc", &mut tree, &SerialExecutor, &CancelToken::new());
    assert_eq!(report.nodes_processed, 0);
    assert_eq!(shape(&tree), before);
}

#[test]
fn every_node_is_processed_once_per_round() {
    // One region, then two, then four.
    let mut tree = ParseTree::from_source("abcdefgh", 0, 0);
    let report = engine().run("abcdefgh", &mut tree, &SerialExecutor, &CancelToken::new());
    assert_eq!(report.rounds_run, 3);
    assert_eq!(report.nodes_processed, 7);
    assert_eq!(report.nodes_failed, 0);
}

#[test]
fn nodes_stay_within_their_ancestors() {
    let tree = parsed("abcd!efgh");
    let root = tree.span(tree.root());
    for id in tree.nodes() {
        assert!(root.contains(&tree.span(id)));
        let mut above = tree.parent(id);
        while let Some(parent) = above {
            assert!(tree.span(parent).contains(&tree.span(id)));
            above = tree.parent(parent);
        }
    }
}

#[test]
fn failed_and_done_nodes_are_leaves() {
    let tree = parsed("abcd!efgh");
    let counts = tree.status_counts();
    assert_eq!(
        counts,
        StatusCounts { unparsed: 0, expanded: 3, done: 3, failed: 1 }
    );
    assert_eq!(counts.total(), tree.len());
    for id in tree.nodes() {
        let leaf = tree.children(id).is_empty();
        assert_eq!(leaf, tree.status(id) != Status::Expanded);
    }
}

#[test]
fn ids_are_never_used_again() {
    let source = "abcdefgh";
    let mut session = Session::from_source(source, 0, 0);
    let token = CancelToken::new();
    session.run(&engine(), source, &SerialExecutor, &token);
    let before = session.tree().nodes();
    // The insertion moves every boundary, so every child is made anew.
    session.edit(Edit::insert(0, 3));
    session.run(&engine(), "xyzabcdefgh", &SerialExecutor, &token);
    let after = session.tree().nodes();
    assert_eq!(after[0], before[0]);
    for id in &after[1..] {
        assert!(!before.contains(id));
    }
}

#[test]
fn unchanged_children_keep_their_subtrees() {
    let source = "abcdefgh";
    let mut session = Session::from_source(source, 0, 0);
    let token = CancelToken::new();
    session.run(&engine(), source, &SerialExecutor, &token);
    let root = session.tree().root();
    let left = session.tree().children(root)[0];
    let inner = session.tree().children(left).to_vec();
    session.edit(Edit::replace(6, 7, 7));
    let report = session.run(&engine(), "abcdef!h", &SerialExecutor, &token);
    assert_eq!(session.tree().children(root)[0], left);
    assert_eq!(session.tree().children(left), inner.as_slice());
    assert!(inner.iter().all(|id| session.tree().status(*id) == Status::Done));
    // The root, its right half, and the quarter that changed.
    assert_eq!(report.nodes_processed, 3);
    assert_eq!(session.tree().status_counts().failed, 1);
}

#[test]
fn edits_reset_what_they_reach_and_its_ancestors() {
    let mut tree = parsed("abcdefgh");
    let root = tree.root();
    let (left, right) = (tree.children(root)[0], tree.children(root)[1]);
    tree.edit(Edit::replace(1, 2, 2));
    assert_eq!(tree.source_rev(), 1);
    assert_eq!(tree.status(root), Status::Unparsed);
    assert_eq!(tree.status(left), Status::Unparsed);
    assert_eq!(tree.status(tree.children(left)[0]), Status::Unparsed);
    assert_eq!(tree.status(tree.children(left)[1]), Status::Done);
    assert_eq!(tree.status(right), Status::Expanded);
    assert!(tree.nodes().iter().all(|id| tree.span(*id).rev == 1));
}

#[test]
fn regions_out_of_reach_keep_their_text() {
    let (old, new) = ("abcdefgh", "abXYZdefgh");
    let mut tree = parsed(old);
    let right = tree.children(tree.root())[1];
    assert_eq!(tree.text(old, right), "efgh");
    let edit = Edit::replace(2, 3, 5);
    assert!(!edit.touches(&tree.span(right)));
    tree.edit(edit);
    assert_eq!(tree.span(right), Span::new(6, 10, 1));
    assert_eq!(tree.text(new, right), "efgh");
    // The root follows the whole text.
    assert_eq!(tree.span(tree.root()), Span::new(0, new.len(), 1));
}

#[test]
fn edits_keep_regions_nested() {
    let edit = Edit::delete(3, 6);
    let (outer, inner) = (span(2, 9), span(4, 8));
    assert!(outer.contains(&inner));
    let (o, i) = (map_span(outer, &edit, 1), map_span(inner, &edit, 1));
    assert_eq!((o, i), (Span::new(2, 6, 1), Span::new(3, 5, 1)));
    assert!(o.contains(&i));
    // What touches the inner region touches the outer one.
    assert!(edit.touches(&inner) && edit.touches(&outer));
    assert_eq!((edit.map_pos(2), edit.map_pos(5), edit.map_end(9)), (2, 3, 6));
}

#[test]
fn insertions_touch_the_region_they_append_to() {
    let edit = Edit::insert(4, 2);
    assert!(edit.touches(&span(0, 4)));
    assert!(edit.touches(&span(2, 6)));
    assert!(!edit.touches(&span(0, 3)));
    assert!(!edit.touches(&span(5, 6)));
}

#[test]
fn violations_are_explained() {
    let violation = |pass, kind| Violation { node: NodeId(0), round: 2, pass, span: span(7, 120), kind };
    assert_eq!(
        violation(Some("Split"), ViolationKind::OutsideParent).to_string(),
        "Split (round 2) produced child region 7..120, which escapes its parent region — \
         children must be contained in the region they were parsed from"
    );
    assert_eq!(
        violation(None, ViolationKind::WrongRevision).to_string(),
        "pass (round 2) produced child region 7..120, which refers to another source revision — \
         children must be on the revision of the region they were parsed from"
    );
    assert_eq!(
        violation(Some("P"), ViolationKind::NotSmaller).to_string(),
        "P (round 2) produced child region 7..120, which is not smaller than its parent region — \
         children must be strictly smaller than the region they were parsed from"
    );
}

#[test]
fn the_first_fault_of_an_outcome_is_reported() {
    let config = EngineConfig { enforce_shrink: true, ..EngineConfig::default() };
    for (children, kind) in [
        (vec![(0, 4, 0), (0, 9, 0)], Some(ViolationKind::OutsideParent)),
        (vec![(0, 9, 1), (0, 9, 0)], Some(ViolationKind::WrongRevision)),
        (vec![(3, 2, 0)], Some(ViolationKind::OutsideParent)),
        (vec![(0, 8, 0)], Some(ViolationKind::NotSmaller)),
        (vec![(0, 7, 0), (1, 8, 0)], None),
    ] {
        let expand = pass_fn(move |_source: &str, _span, _ctx: &usize| {
            let region = |c: &(usize, usize, u64)| (Span { start: c.0, end: c.1, rev: c.2 }, 0);
            Outcome::Expand(children.iter().map(region).collect())
        });
        let mut tree = ParseTree::from_source("abcdefgh", 0, 0);
        let report = Engine::with_config((expand,), config).run(
            "abcdefgh",
            &mut tree,
            &SerialExecutor,
            &CancelToken::new(),
        );
        assert_eq!(report.violations.first().map(|v| v.kind), kind);
        assert_eq!(report.violations.len(), kind.iter().count());
        assert_eq!(tree.status(tree.root()) == Status::Failed, kind.is_some());
    }
}

#[test]
fn code_units_and_offsets_agree() {
    let text = "aé😀b";
    for encoding in [PositionEncoding::Utf8, PositionEncoding::Utf16, PositionEncoding::Utf32] {
        for (offset, _) in text.char_indices() {
            let units = encoding.units_of(&text[..offset]);
            assert_eq!(encoding.offset_of_units(text, units), offset);
        }
    }
    assert_eq!(PositionEncoding::Utf8.units_of(text) as usize, text.len());
    assert_eq!(PositionEncoding::Utf32.capability(), "utf-32");
}

#[test]
fn positions_and_offsets_round_trip() {
    let text = "héllo\n\nwör😀ld\n";
    let index = LineIndex::new(text);
    for encoding in [PositionEncoding::Utf8, PositionEncoding::Utf16, PositionEncoding::Utf32] {
        let mut last = Position::new(0, 0);
        for (offset, _) in text.char_indices() {
            let position = index.position(text, offset, encoding);
            assert_eq!(index.offset(text, position, encoding), Some(offset));
            assert!((last.line, last.character) <= (position.line, position.character));
            last = position;
        }
    }
}

fn document(text: &str, encoding: PositionEncoding) -> Document<usize> {
    Document::open("file:///d".into(), 0, text.into(), encoding, 0)
}

fn over(start: u32, end: u32, text: &str) -> ContentChange {
    let (start, end) = (Position::new(0, start), Position::new(0, end));
    ContentChange { range: Some(Range { start, end }), text: text.into() }
}

#[test]
fn changes_splice_the_text_one_by_one() {
    let mut doc = document("aé😀b", PositionEncoding::Utf16);
    let changes = [
        over(1, 2, "xyz"),
        over(0, 1, ""),
        // Reversed bounds replace nothing: the text goes in at the start.
        over(5, 0, "-"),
    ];
    assert!(doc.can_apply(&changes));
    let token = CancelToken::new();
    doc.apply_changes(&Engine::with((pass_fn(no_bang),)), 4, &changes, &SerialExecutor, &token);
    assert_eq!(doc.text(), "xyz😀-b");
    assert_eq!((doc.version(), doc.revision()), (4, 3));
    let root = doc.session().tree().root();
    assert_eq!(doc.session().tree().span(root), Span::new(0, doc.text().len(), 3));
    // A change without a range replaces everything.
    let all = [ContentChange { range: None, text: "new".into() }];
    doc.apply_changes(&Engine::with((pass_fn(no_bang),)), 5, &all, &SerialExecutor, &token);
    assert_eq!(doc.text(), "new");
}

#[test]
fn only_byte_positions_can_split_a_character() {
    let inside = [over(2, 2, "x")];
    assert!(!document("aé", PositionEncoding::Utf8).can_apply(&inside));
    assert!(document("aé", PositionEncoding::Utf16).can_apply(&inside));
    assert!(document("aé", PositionEncoding::Utf32).can_apply(&inside));
    // Between the halves of a surrogate pair, a position means its end.
    let doc = document("a😀b", PositionEncoding::Utf16);
    assert_eq!(doc.offset(Position::new(0, 2)), 5);
}

#[test]
fn failures_are_reported_topmost_first_and_once() {
    let text = "ab!d!fgh";
    let mut doc = document(text, PositionEncoding::Utf8);
    doc.apply_changes(&engine(), 1, &[], &SerialExecutor, &CancelToken::new());
    let report = |doc: &Document<usize>, cascades| {
        diagnostics(doc, DiagnosticsOptions { cascades }, |node| {
            Some(Diagnostic {
                message: node.span.to_string(),
                ..Diagnostic::default()
            })
        })
        .into_iter()
        .map(|d| d.message)
        .collect::<Vec<_>>()
    };
    assert_eq!(report(&doc, false), ["2..4@0", "4..6@0"]);
    assert_eq!(report(&doc, true), ["2..4@0", "4..6@0"]);
    // After an edit the root waits to be parsed, and mutes what is below it.
    doc.session_mut().edit(Edit::replace(0, 1, 1));
    assert_eq!(report(&doc, false), ["0..8@1"]);
    assert_eq!(
        report(&doc, true),
        ["0..8@1", "0..4@1", "0..2@1", "2..4@1", "4..6@1"]
    );
}

#[test]
fn rebased_children_cover_the_same_text() {
    let source = "..aé😀b..";
    let region = span(2, source.len());
    let text = region_text(source, region).unwrap();
    match rebase(region, vec![(1..3, 'x'), (3..7, 'y')]) {
        Outcome::Expand(children) => {
            assert_eq!(&source[children[0].0.to_range()], &text[1..3]);
            assert_eq!(&source[children[1].0.to_range()], &text[3..7]);
            assert_eq!((children[0].1, children[1].1), ('x', 'y'));
        }
        other => panic!("expected Expand, got {other:?}"),
    }
    assert_eq!(region_text(source, span(4, 6)), None);
    assert_eq!(region_text(source, span(0, 99)), None);
}

fn escape(i: Located) -> NomResult<usize> {
    let end = i.fragment().len() + 1;
    let children: NomChildren<usize> = vec![(0..end, 0)];
    Ok((i, children))
}

#[test]
fn children_that_escape_their_region_are_refused() {
    let mut tree = ParseTree::from_source("abc", 0, 0);
    let engine = Engine::with((nom_pass(escape),));
    let report = engine.run("abc", &mut tree, &SerialExecutor, &CancelToken::new());
    assert_eq!(report.violations[0].kind, ViolationKind::OutsideParent);
    assert_eq!(report.violations[0].pass, Some("NomPass"));
    assert_eq!(report.violations[0].span, span(0, 4));
    assert_eq!(tree.status(tree.root()), Status::Failed);
}

fn half(slice: &str) -> chumsky::ParseResult<ChumChildren<usize>, chumsky::error::Rich<'_, char>> {
    let parser = any::<&str, extra::Err<chumsky::error::Rich<char>>>().repeated().to_slice();
    parser
        .map(|text: &str| {
            let children: ChumChildren<usize> = vec![(SimpleSpan::from(0..text.len() / 2), 5)];
            children
        })
        .parse(slice)
}

#[test]
fn adapters_refuse_spans_that_are_no_region() {
    let chum = chumsky_pass(half);
    assert!(matches!(chum.parse("aébc", span(2, 5), &0), Outcome::Failed));
    match chum.parse("aébc", span(1, 5), &0) {
        Outcome::Expand(children) => assert_eq!(children, vec![(span(1, 3), 5)]),
        other => panic!("expected Expand, got {other:?}"),
    }
    assert_eq!(chum.name(), "ChumskyPass");
    let nom = nom_pass(escape);
    assert!(matches!(nom.parse("aébc", span(0, 9), &0), Outcome::Failed));
    assert_eq!(nom.name(), "NomPass");
}

#[test]
fn deep_equality_on_plain_data() {
    let text = |s: &str| LuaData::Text(s.as_bytes().to_vec());
    let int = |value: i64| LuaData::Integer(value);
    let num = |value: f64| LuaData::Number { bits: value.to_bits() };
    let table = |x: i64, y: f64| LuaData::Table(vec![(text("x"), int(x)), (text("y"), num(y))]);
    let turned = LuaData::Table(vec![(text("y"), int(2)), (text("x"), num(1.0))]);
    assert!(deep_eq(&table(1, 2.0), &table(1, 2.0)));
    assert!(deep_eq(&table(1, 2.0), &turned) && deep_eq(&turned, &table(1, 2.0)));
    assert!(!deep_eq(&table(1, 2.5), &turned) && !deep_eq(&turned, &table(1, 2.5)));
    assert!(!deep_eq(&LuaData::Opaque, &LuaData::Opaque));
    assert!(!deep_eq(&num(f64::NAN), &num(f64::NAN)));
    assert!(deep_eq(&num(0.0), &num(-0.0)) && deep_eq(&int(0), &num(-0.0)));
    for (value, double, equal) in [
        (1, 1.0, true),
        (1, 1.5, false),
        (-1, 1.0, false),
        (-7, -7.0, true),
        (0, f64::MIN_POSITIVE, false),
        (1, f64::from_bits(1), false),
        (0, f64::from_bits(1), false),
        (1 << 53, 9007199254740992.0, true),
        ((1 << 53) + 1, 9007199254740992.0, false),
        (1 << 62, 4611686018427387904.0, true),
        (i64::MAX, 9223372036854775808.0, false),
        (i64::MIN, -9223372036854775808.0, true),
        (i64::MIN, -18446744073709551616.0, false),
        (i64::MIN, f64::NEG_INFINITY, false),
        (0, f64::NAN, false),
        (123456789, 123456789.0, true),
        (123456789, 123456789.125, false),
    ] {
        assert_eq!(deep_eq(&int(value), &num(double)), equal, "{value} {double}");
        assert_eq!(deep_eq(&num(double), &int(value)), equal, "{double} {value}");
    }
}

#[test]
fn deep_equality_pairs_entries_off() {
    let empty = || LuaData::Table(Vec::new());
    let int = |value: i64| LuaData::Integer(value);
    let two = |x: i64, y: i64| LuaData::Table(vec![(empty(), int(x)), (empty(), int(y))]);
    assert!(deep_eq(&two(1, 1), &two(1, 1)));
    assert!(deep_eq(&two(1, 2), &two(2, 1)) && deep_eq(&two(2, 1), &two(1, 2)));
    assert!(!deep_eq(&two(1, 1), &two(1, 2)) && !deep_eq(&two(1, 2), &two(1, 1)));
    // Equal to one value, equal to each other.
    let float = LuaData::Table(vec![
        (empty(), LuaData::Number { bits: 2.0f64.to_bits() }),
        (empty(), int(1)),
    ]);
    assert!(deep_eq(&two(1, 2), &float) && deep_eq(&float, &two(2, 1)));
    assert!(deep_eq(&two(1, 2), &two(2, 1)));
}

#[test]
fn rounds_never_outnumber_the_passes() {
    for cap in [None, Some(0), Some(1), Some(5)] {
        // Without a pass nothing happens, whatever the cap.
        let config = EngineConfig { enforce_shrink: false, max_rounds: cap };
        let engine: Engine<usize> = Engine::with_config(Vec::new(), config);
        let mut tree: ParseTree<usize> = ParseTree::from_source("abc", 0, 0);
        let before = shape(&tree);
        let report = engine.run("abc", &mut tree, &SerialExecutor, &CancelToken::new());
        assert_eq!((report.rounds_run, report.nodes_processed), (0, 0));
        assert!(!report.reached_fixpoint && !report.cancelled);
        assert_eq!(shape(&tree), before);
        assert_eq!(tree.status(tree.root()), Status::Unparsed);
    }
    // One failing pass makes one attempt, and then the failure is for good.
    let fail = pass_fn(|_source: &str, _span: Span, _ctx: &usize| Outcome::Failed);
    let config = EngineConfig { enforce_shrink: false, max_rounds: Some(5) };
    let engine = Engine::with_config((fail,), config);
    assert_eq!(engine.max_rounds(), 5);
    let mut tree = ParseTree::from_source("abc", 0, 0);
    let report = engine.run("abc", &mut tree, &SerialExecutor, &CancelToken::new());
    assert_eq!((report.rounds_run, report.nodes_processed), (1, 1));
    assert_eq!(tree.attempts(tree.root()), 1);
    assert!(report.reached_fixpoint);
    assert_eq!(tree.status(tree.root()), Status::Failed);
}

fn ran_under<E: Executor>(exec: &E, cancel: &CancelToken) -> usize {
    let tree = ParseTree::from_source("abc", 0, 0);
    let jobs = tree.ready_jobs(0);
    assert_eq!(jobs.len(), 1);
    exec.execute(jobs, |_job: &Job<usize>| Outcome::Done, cancel).len()
}

#[test]
fn executors_run_nothing_under_a_cancelled_token() {
    let token = CancelToken::default();
    assert!(!token.is_cancelled());
    // Clones share one flag.
    let shared = token.clone();
    shared.cancel();
    assert!(token.is_cancelled());
    assert_eq!(ran_under(&SerialExecutor, &token), 0);
    assert_eq!(ran_under(&RayonExecutor, &token), 0);
    token.reset();
    assert!(!shared.is_cancelled());
    assert_eq!(ran_under(&SerialExecutor, &token), 1);
    assert_eq!(ran_under(&RayonExecutor, &token), 1);
}

/// Executes nothing.
struct Idle;

impl Executor for Idle {
    fn execute<C, F>(
        &self,
        _jobs: Vec<Job<C>>,
        _run: F,
        _cancel: &CancelToken,
    ) -> Vec<(Job<C>, Outcome<C>)>
    where
        C: Send + 'static,
        F: Fn(&Job<C>) -> Outcome<C> + Send + Sync,
    {
        Vec::new()
    }
}

#[test]
fn an_idle_executor_cancels_the_run() {
    let done = pass_fn(|_source: &str, _span: Span, _ctx: &()| Outcome::Done);
    let engine = Engine::with((done,));
    let mut tree = ParseTree::new(0, span(0, 3), ());
    let report = engine.run("abc", &mut tree, &Idle, &CancelToken::new());
    assert!(report.cancelled && !report.reached_fixpoint);
    assert_eq!((report.rounds_run, report.nodes_processed, report.nodes_failed), (0, 0, 0));
    assert_eq!(tree.status(tree.root()), Status::Unparsed);
    // A run with another executor takes it from there.
    let report = engine.run("abc", &mut tree, &SerialExecutor, &CancelToken::new());
    assert!(report.reached_fixpoint);
    assert_eq!(report.nodes_processed, 1);
}

#[test]
fn nodes_are_those_reachable_from_the_root() {
    let source = "abcdefgh";
    let mut session = Session::from_source(source, 0, 0);
    let token = CancelToken::new();
    session.run(&engine(), source, &SerialExecutor, &token);
    session.edit(Edit::insert(0, 3));
    session.run(&engine(), "xyzabcdefgh", &SerialExecutor, &token);
    let tree = session.tree();
    let mut reached = vec![tree.root()];
    let mut next = 0;
    while next < reached.len() {
        reached.extend_from_slice(tree.children(reached[next]));
        next += 1;
    }
    reached.sort_by_key(|id| id.0);
    assert_eq!(tree.nodes(), reached);
    assert_eq!(tree.len(), reached.len());
    for id in reached {
        assert_eq!(tree.span(id).rev, tree.source_rev());
        match tree.parent(id) {
            None => assert_eq!(id, tree.root()),
            Some(parent) => {
                let listed = tree.children(parent).iter().filter(|child| **child == id).count();
                assert_eq!(listed, 1);
                assert!(tree.span(parent).contains(&tree.span(id)));
            }
        }
    }
}

#[test]
fn untouched_nodes_keep_their_text() {
    let old = "abcdéfg";
    let new = "xyzbcdéfg";
    let mut tree = parsed(old);
    let missed: Vec<(NodeId, String)> = tree
        .nodes()
        .into_iter()
        .filter(|id| tree.span(*id).start >= 1)
        .map(|id| (id, tree.text(old, id).to_owned()))
        .collect();
    let texts: Vec<&str> = missed.iter().map(|(_, text)| text.as_str()).collect();
    assert_eq!(texts, ["éfg", "cd", "é", "fg"]);
    // The first byte becomes three.
    tree.edit(Edit::replace(0, 1, 3));
    for (id, text) in missed {
        assert_eq!(tree.text(new, id), text);
    }
}

fn numbered(count: usize) -> Vec<Job<usize>> {
    (0..count)
        .map(|k| Job { node: NodeId(k), span: span(k, k + 1), ctx: k, pass_index: 0 })
        .collect()
}

fn contexts(executed: &[(Job<usize>, Outcome<usize>)]) -> Vec<usize> {
    executed.iter().map(|pair| pair.0.ctx).collect()
}

#[test]
fn jobs_run_until_told_to_stop() {
    let done = |_job: &Job<usize>| Outcome::Done;
    let asked = Cell::new(0);
    let executed = run_until(numbered(5), done, |k| {
        assert_eq!(k, asked.get());
        asked.set(k + 1);
        k == 3
    });
    assert_eq!(contexts(&executed), vec![0, 1, 2]);
    assert_eq!(asked.get(), 4);
    assert_eq!(contexts(&run_until(numbered(2), done, |_k| false)), vec![0, 1]);
    assert!(run_until(numbered(2), done, |_k| true).is_empty());
}

#[test]
fn parallel_jobs_count_up_to_the_first_that_is_stopped() {
    let done = |_job: &Job<usize>| Outcome::Done;
    let stop = |job: &Job<usize>| job.ctx == 2;
    let executed = run_parallel_until(numbered(5), done, stop);
    assert_eq!(contexts(&executed), vec![0, 1]);
    let all = run_parallel_until(numbered(5), done, |_job: &Job<usize>| false);
    assert_eq!(contexts(&all), vec![0, 1, 2, 3, 4]);
    let job = numbered(1).remove(0);
    assert!(attempt(job.clone(), &done, &|_job: &Job<usize>| true).is_none());
    assert_eq!(attempt(job.clone(), &done, &stop), Some((job, Outcome::Done)));
}

#[test]
fn runs_ask_before_every_round() {
    let source = "abcdefgh";
    let token = CancelToken::new();
    let mut tree = ParseTree::from_source(source, 0, 0);
    let asked = Cell::new(0);
    let report = engine().run_until(source, &mut tree, &SerialExecutor, &token, |round| {
        assert_eq!(round, asked.get());
        asked.set(round + 1);
        round == 1
    });
    assert!(report.cancelled && !report.reached_fixpoint);
    assert_eq!((report.rounds_run, report.nodes_processed), (1, 1));
    assert_eq!(asked.get(), 2);
    assert_eq!(tree.children(tree.root()).len(), 2);
    // The token is for the executor: a run that is not told to stop ends in
    // the first batch that the executor leaves undone.
    token.cancel();
    let report = engine().run_until(source, &mut tree, &SerialExecutor, &token, |_round| false);
    assert!(report.cancelled);
    assert_eq!(report.nodes_processed, 0);
    token.reset();
    let report = engine().run_until(source, &mut tree, &SerialExecutor, &token, |_round| false);
    assert!(report.reached_fixpoint && !report.cancelled);
    assert_eq!(shape(&tree), shape(&parsed(source)));
}

#[test]
fn positions_keep_the_order_of_offsets() {
    let text = "a\u{e9}\n\u{1F600}b\n\nz";
    let index = LineIndex::new(text);
    for encoding in [PositionEncoding::Utf8, PositionEncoding::Utf16, PositionEncoding::Utf32] {
        let places: Vec<(u32, u32)> = (0..=text.len())
            .filter(|offset| text.is_char_boundary(*offset))
            .map(|offset| index.position(text, offset, encoding))
            .map(|position| (position.line, position.character))
            .collect();
        assert_eq!(places.len(), 9);
        assert!(places.windows(2).all(|pair| pair[0] < pair[1]));
    }
    assert_eq!(index.position(text, 8, PositionEncoding::Utf16), Position { line: 1, character: 2 });
}

/// Expands the root into as many equal regions as the last byte says.
fn copies(source: &str, span: Span, _ctx: &usize) -> Outcome<usize> {
    let count = (source.as_bytes()[span.end - 1] - b'0') as usize;
    Outcome::Expand(vec![(Span::new(0, 1, span.rev), 7); count])
}

#[test]
fn equal_children_are_reused_as_far_as_they_go() {
    let engine = Engine::with((pass_fn(copies), pass_fn(no_bang)));
    let token = CancelToken::new();
    for (next, count, reused) in [("abc3", 3, 2), ("abc2", 2, 2), ("abc1", 1, 1)] {
        let mut session = Session::from_source("abc2", 0, 0);
        session.run(&engine, "abc2", &SerialExecutor, &token);
        let root = session.tree().root();
        let before = session.tree().children(root).to_vec();
        assert_eq!(before.len(), 2);
        session.edit(Edit::replace(3, 4, 4));
        session.run(&engine, next, &SerialExecutor, &token);
        let after = session.tree().children(root).to_vec();
        assert_eq!(after.len(), count);
        assert_eq!(after[..reused], before[..reused]);
        assert_eq!(after.iter().filter(|id| before.contains(id)).count(), reused);
    }
}
