use bracket_highlights::cursor::{selection_step, utf8_len, CursorShape, CursorStep, EnclosingPair, Selection};
use bracket_highlights::fragments::{
    collect_pairs, fragment_queries, remap_pairs, BracketPair, DepthPair, Fragment, FragmentQuery,
    Span,
};
use bracket_highlights::geometry::{visible_rows, visible_window, DocumentShape, Point, VisibleLines};
use bracket_highlights::rainbow::{
    color_for_depth, distinct_depths, hue_for_depth, ranges_at_depth, RainbowSettings,
};
use bracket_highlights::refresh::{apply_refresh, emit_rainbow, plan_refresh, HighlightLayers, RefreshReason};

const SAMPLE: &str = "pub fn test(\"Test argument\") {\n    another_test(1, 2, 3);\n}\n";

fn shape_of(text: &str) -> DocumentShape {
    DocumentShape { line_lens: text.split('\n').map(|l| l.len() as u32).collect() }
}

fn span(start: usize, end: usize) -> Span {
    Span { start, end }
}

/// All matched `()` and `{}` pairs of `text[range]`, with their nesting depth.
fn discover(text: &str, local: Span) -> Vec<BracketPair> {
    let bytes = text.as_bytes();
    let mut stack: Vec<(u8, usize)> = Vec::new();
    let mut out = Vec::new();
    for i in local.start..local.end.min(bytes.len()) {
        match bytes[i] {
            b'(' | b'{' => stack.push((bytes[i], i)),
            b')' | b'}' => {
                let want = if bytes[i] == b')' { b'(' } else { b'{' };
                if let Some(&(c, o)) = stack.last() {
                    if c == want {
                        stack.pop();
                        out.push(BracketPair {
                            open: span(o, o + 1),
                            close: span(i, i + 1),
                            depth: stack.len(),
                        });
                    }
                }
            }
            _ => {}
        }
    }
    out
}

/// The innermost pair of the whole text whose tokens lie around `range`.
fn innermost(text: &str, range: Span) -> Option<EnclosingPair> {
    discover(text, span(0, text.len()))
        .into_iter()
        .filter(|p| p.open.end <= range.start && range.end <= p.close.start)
        .min_by_key(|p| p.close.end - p.open.start)
        .map(|p| EnclosingPair { open: p.open, close: p.close })
}

fn whole(text: &str) -> Vec<Fragment> {
    vec![Fragment { composite_start: 0, local_start: 0, local_end: text.len() }]
}

fn settings(enabled: bool, start_hue: i32, hue_step: i32) -> RainbowSettings {
    RainbowSettings { enabled, start_hue, hue_step }
}

/// Runs one refresh of `SAMPLE` with the cursor at `sel`.
fn refresh(
    layers: &mut HighlightLayers,
    reason: RefreshReason,
    rainbow: &RainbowSettings,
    sel: Selection,
    shape: CursorShape,
) {
    let text = SAMPLE;
    let doc = shape_of(text);
    let fragments = whole(text);
    let next = text.get(sel.head..).and_then(|s| s.chars().next());
    let plan = plan_refresh(
        reason,
        rainbow,
        &doc,
        Point { row: 0, column: 0 },
        None,
        &fragments,
        sel,
        shape,
        next,
    );
    let found: Vec<Vec<BracketPair>> = match &plan.queries {
        Some(qs) => qs.iter().map(|q| discover(text, q.local)).collect(),
        None => Vec::new(),
    };
    let enclosing = match plan.cursor {
        CursorStep::Query(r) => innermost(text, r),
        _ => None,
    };
    apply_refresh(layers, &plan, &fragments, &found, enclosing);
}

fn cursor_at(marker: &str) -> Selection {
    let at = SAMPLE.find(marker).unwrap();
    Selection { anchor: at, head: at }
}

fn enclosing_of(layers: &HighlightLayers) -> Option<(usize, usize)> {
    layers.enclosing.map(|p| (p.open.start, p.close.start))
}

#[test]
fn test_matching_bracket_highlights() {
    let rainbow = settings(false, 0, 0);
    let mut layers = HighlightLayers::new();
    let open_paren = SAMPLE.find('(').unwrap();
    let close_paren = SAMPLE.find(')').unwrap();
    let open_inner = SAMPLE.find("(1").unwrap();
    let close_inner = SAMPLE.find(");").unwrap();
    let open_brace = SAMPLE.find('{').unwrap();
    let close_brace = SAMPLE.rfind('}').unwrap();

    let at_argument = cursor_at("argument");
    refresh(&mut layers, RefreshReason::SelectionsChanged, &rainbow, at_argument, CursorShape::Bar);
    assert_eq!(enclosing_of(&layers), Some((open_paren, close_paren)));

    let at_two = cursor_at("2,");
    refresh(&mut layers, RefreshReason::SelectionsChanged, &rainbow, at_two, CursorShape::Bar);
    assert_eq!(enclosing_of(&layers), Some((open_inner, close_inner)));

    let in_name = cursor_at("_test");
    refresh(&mut layers, RefreshReason::SelectionsChanged, &rainbow, in_name, CursorShape::Bar);
    assert_eq!(enclosing_of(&layers), Some((open_brace, close_brace)));

    let outside = cursor_at("n test");
    refresh(&mut layers, RefreshReason::SelectionsChanged, &rainbow, outside, CursorShape::Bar);
    assert_eq!(enclosing_of(&layers), None);

    refresh(&mut layers, RefreshReason::SelectionsChanged, &rainbow, at_argument, CursorShape::Bar);
    assert!(layers.enclosing.is_some());
    let start = SAMPLE.find("st arg").unwrap();
    let ranged = Selection { anchor: start, head: start + 6 };
    refresh(&mut layers, RefreshReason::SelectionsChanged, &rainbow, ranged, CursorShape::Bar);
    assert_eq!(enclosing_of(&layers), None);
}

#[test]
fn test_rainbow_bracket_colors_differ_by_depth() {
    let s = settings(true, 0, 30_000);
    let color_0 = color_for_depth(&s, 0);
    let color_1 = color_for_depth(&s, 1);
    let color_2 = color_for_depth(&s, 2);
    assert_ne!(color_0, color_1, "Depth 0 and 1 should have different colors");
    assert_ne!(color_1, color_2, "Depth 1 and 2 should have different colors");
    assert_ne!(color_0, color_2, "Depth 0 and 2 should have different colors");
    assert_eq!((color_0.hue, color_1.hue, color_2.hue), (0, 30_000, 60_000));
    assert_eq!((color_1.saturation, color_1.lightness, color_1.alpha), (75, 60, 100));
}

#[test]
fn test_rainbow_bracket_hue_wraps_at_360() {
    let s = settings(true, 350_000, 30_000);
    let color_0 = color_for_depth(&s, 0);
    let color_1 = color_for_depth(&s, 1);
    assert_eq!(color_0.hue as f32 / 360_000.0, 350.0 / 360.0, "Depth 0 hue should be 350 degrees");
    assert_eq!(color_1.hue as f32 / 360_000.0, 20.0 / 360.0, "Depth 1 hue should wrap to 20 degrees");
}

#[test]
fn hue_of_negative_turn_stays_in_circle() {
    assert_eq!(hue_for_depth(-10_000, 0, 5), 350_000);
    assert_eq!(hue_for_depth(0, -30_000, 1), 330_000);
    assert_eq!(hue_for_depth(0, -360_000, 3), 0);
    assert_eq!(hue_for_depth(i32::MAX, i32::MAX, usize::MAX), {
        let x = i32::MAX as i128 + usize::MAX as i128 * i32::MAX as i128;
        x.rem_euclid(360_000) as i32
    });
}

#[test]
fn hue_step_of_full_turn_repeats() {
    assert_eq!(hue_for_depth(12_500, 360_000, 7), 12_500);
    assert_eq!(hue_for_depth(0, 720_500, 2), 1_000);
}

#[test]
fn visible_rows_round_up_and_default() {
    assert_eq!(visible_rows(None), 40);
    assert_eq!(visible_rows(Some(VisibleLines { numer: 0, denom: 1 })), 0);
    assert_eq!(visible_rows(Some(VisibleLines { numer: 25, denom: 2 })), 13);
    assert_eq!(visible_rows(Some(VisibleLines { numer: 24, denom: 2 })), 12);
    assert_eq!(visible_rows(Some(VisibleLines { numer: u32::MAX, denom: 1 })), u32::MAX);
}

#[test]
fn window_is_clipped_to_document() {
    let doc = shape_of(SAMPLE);
    let w = visible_window(&doc, Point { row: 1, column: 4 }, None);
    assert_eq!(w.start, Point { row: 1, column: 4 });
    assert_eq!(w.end, Point { row: 3, column: 0 });
    let w = visible_window(&doc, Point { row: 0, column: 3 }, Some(VisibleLines { numer: 3, denom: 2 }));
    assert_eq!(w.end, Point { row: 2, column: 0 });
    let w = visible_window(&doc, Point { row: 0, column: 3 }, Some(VisibleLines { numer: 0, denom: 4 }));
    assert_eq!(w.end, Point { row: 0, column: 3 });
    let doc = shape_of("abc\nde");
    let w = visible_window(&doc, Point { row: 1, column: 1 }, Some(VisibleLines { numer: u32::MAX, denom: 1 }));
    assert_eq!(w.end, Point { row: 1, column: 2 });
}

#[test]
fn points_map_to_offsets() {
    let doc = shape_of("abc\nde\n");
    assert_eq!(doc.point_to_offset(Point { row: 0, column: 2 }), 2);
    assert_eq!(doc.point_to_offset(Point { row: 1, column: 1 }), 5);
    assert_eq!(doc.point_to_offset(Point { row: 2, column: 0 }), 7);
    assert_eq!(doc.len(), 7);
    assert_eq!(doc.clip_point(0, 9), Point { row: 0, column: 3 });
    assert_eq!(doc.clip_point(9, 0), Point { row: 2, column: 0 });
}

#[test]
fn queries_cover_each_fragment_in_view() {
    let fragments = vec![
        Fragment { composite_start: 0, local_start: 100, local_end: 110 },
        Fragment { composite_start: 11, local_start: 0, local_end: 5 },
        Fragment { composite_start: 20, local_start: 40, local_end: 50 },
    ];
    let qs = fragment_queries(&fragments, span(5, 14));
    assert_eq!(
        qs,
        vec![
            FragmentQuery { fragment: 0, local: span(105, 110) },
            FragmentQuery { fragment: 1, local: span(0, 3) },
        ]
    );
    let qs = fragment_queries(&fragments, span(25, 25));
    assert_eq!(qs, vec![FragmentQuery { fragment: 2, local: span(45, 45) }]);
}

#[test]
fn pairs_crossing_fragment_bounds_are_dropped() {
    let f = Fragment { composite_start: 20, local_start: 10, local_end: 30 };
    let inside = BracketPair { open: span(12, 13), close: span(18, 19), depth: 1 };
    let straddling = BracketPair { open: span(5, 6), close: span(15, 16), depth: 0 };
    let past_end = BracketPair { open: span(25, 26), close: span(30, 31), depth: 0 };
    let r = remap_pairs(f, &vec![straddling, inside, past_end]);
    assert_eq!(r, vec![DepthPair { depth: 1, open: span(22, 23), close: span(28, 29) }]);
}

#[test]
fn pairs_of_missing_fragment_are_dropped() {
    let fragments = vec![Fragment { composite_start: 0, local_start: 0, local_end: 10 }];
    let queries = vec![
        FragmentQuery { fragment: 3, local: span(0, 10) },
        FragmentQuery { fragment: 0, local: span(0, 10) },
    ];
    let pair = BracketPair { open: span(1, 2), close: span(4, 5), depth: 2 };
    let found = vec![vec![pair], vec![pair]];
    let r = collect_pairs(&fragments, &queries, &found);
    assert_eq!(r, vec![DepthPair { depth: 2, open: span(1, 2), close: span(4, 5) }]);
}

#[test]
fn pairs_group_by_depth() {
    let ps = vec![
        DepthPair { depth: 1, open: span(3, 4), close: span(5, 6) },
        DepthPair { depth: 0, open: span(0, 1), close: span(9, 10) },
        DepthPair { depth: 1, open: span(7, 8), close: span(8, 9) },
    ];
    assert_eq!(distinct_depths(&ps), vec![1, 0]);
    assert_eq!(ranges_at_depth(&ps, 1), vec![span(3, 4), span(5, 6), span(7, 8), span(8, 9)]);
    assert_eq!(ranges_at_depth(&ps, 0), vec![span(0, 1), span(9, 10)]);
    assert_eq!(ranges_at_depth(&ps, 4), vec![]);
}

#[test]
fn emitting_replaces_only_present_depths() {
    let mut layers = HighlightLayers::new();
    layers.submit_rainbow(0, vec![span(0, 1)]);
    layers.submit_rainbow(5, vec![span(40, 41)]);
    let ps = vec![DepthPair { depth: 0, open: span(2, 3), close: span(7, 8) }];
    emit_rainbow(&mut layers, &ps);
    assert_eq!(layers.rainbow_layer(0), Some(&vec![span(2, 3), span(7, 8)]));
    assert_eq!(layers.rainbow_layer(5), Some(&vec![span(40, 41)]));
    assert_eq!(layers.rainbow_layer(1), None);
}

#[test]
fn rainbow_layers_follow_sample_depths() {
    let mut layers = HighlightLayers::new();
    let rainbow = settings(true, 0, 30_000);
    refresh(&mut layers, RefreshReason::BufferEdited, &rainbow, cursor_at("pub"), CursorShape::Bar);
    let p0 = SAMPLE.find('(').unwrap();
    let p1 = SAMPLE.find(')').unwrap();
    let b0 = SAMPLE.find('{').unwrap();
    let b1 = SAMPLE.rfind('}').unwrap();
    let i0 = SAMPLE.find("(1").unwrap();
    let i1 = SAMPLE.find(");").unwrap();
    assert_eq!(
        layers.rainbow_layer(0),
        Some(&vec![span(p0, p0 + 1), span(p1, p1 + 1), span(b0, b0 + 1), span(b1, b1 + 1)])
    );
    assert_eq!(layers.rainbow_layer(1), Some(&vec![span(i0, i0 + 1), span(i1, i1 + 1)]));
    assert_eq!(layers.rainbow_layer(2), None);
}

#[test]
fn refresh_twice_gives_same_layers() {
    let rainbow = settings(true, 0, 30_000);
    let mut layers = HighlightLayers::new();
    refresh(&mut layers, RefreshReason::BufferEdited, &rainbow, cursor_at("2,"), CursorShape::Bar);
    let first = (layers.rainbow_layer(0).cloned(), layers.rainbow_layer(1).cloned(), layers.enclosing);
    refresh(&mut layers, RefreshReason::BufferEdited, &rainbow, cursor_at("2,"), CursorShape::Bar);
    let second = (layers.rainbow_layer(0).cloned(), layers.rainbow_layer(1).cloned(), layers.enclosing);
    assert_eq!(first, second);
    assert_eq!(layers.rainbow.len(), 2);
}

#[test]
fn scroll_leaves_enclosing_highlight() {
    let rainbow = settings(true, 0, 30_000);
    let mut layers = HighlightLayers::new();
    refresh(&mut layers, RefreshReason::SelectionsChanged, &rainbow, cursor_at("argument"), CursorShape::Bar);
    let before = layers.enclosing;
    assert!(before.is_some());
    refresh(&mut layers, RefreshReason::ScrollPositionChanged, &rainbow, cursor_at("pub"), CursorShape::Bar);
    assert_eq!(layers.enclosing, before);
}

#[test]
fn disabled_rainbow_submits_no_layer() {
    let rainbow = settings(false, 0, 30_000);
    let mut layers = HighlightLayers::new();
    for reason in [RefreshReason::BufferEdited, RefreshReason::ScrollPositionChanged, RefreshReason::SelectionsChanged] {
        refresh(&mut layers, reason, &rainbow, cursor_at("2,"), CursorShape::Block);
        assert!(layers.rainbow.is_empty());
    }
}

#[test]
fn block_cursor_covers_character_under_it() {
    let text = "a(é)";
    let head = 2;
    let sel = Selection { anchor: head, head };
    let next = text[head..].chars().next();
    assert_eq!(selection_step(sel, text.len(), CursorShape::Block, next), CursorStep::Query(span(2, 4)));
    assert_eq!(selection_step(sel, text.len(), CursorShape::Hollow, next), CursorStep::Query(span(2, 4)));
    assert_eq!(selection_step(sel, text.len(), CursorShape::Bar, next), CursorStep::Query(span(2, 2)));
    assert_eq!(selection_step(sel, text.len(), CursorShape::Underline, next), CursorStep::Query(span(2, 2)));
    let end = Selection { anchor: 5, head: 5 };
    assert_eq!(selection_step(end, text.len(), CursorShape::Block, None), CursorStep::Query(span(5, 5)));
}

#[test]
fn cursor_past_end_or_range_selection_clears() {
    let past = Selection { anchor: 9, head: 9 };
    assert_eq!(selection_step(past, 5, CursorShape::Bar, None), CursorStep::Clear);
    let ranged = Selection { anchor: 1, head: 3 };
    assert_eq!(selection_step(ranged, 5, CursorShape::Bar, Some('x')), CursorStep::Clear);
}

#[test]
fn utf8_lengths() {
    assert_eq!(utf8_len('a'), 1);
    assert_eq!(utf8_len('é'), 2);
    assert_eq!(utf8_len('€'), 3);
    assert_eq!(utf8_len('😀'), 4);
}
