use plotcore::colors::{background_color, color_from_list, label_passes, outline_color, TextPass};
use plotcore::kinds::{
    colormap_by_name, parse_overlay_kind, parse_trace_kind, same_text, Colormap, KindError,
    OverlayKind, TraceKind,
};
use plotcore::label::{render_rotated_label, rotate_quarter_ccw, Glyph};
use plotcore::layout::{image_row_position, plot_margins, Margins};

#[test]
fn rotate_moves_cells_a_quarter_turn_ccw() {
    // 3 wide, 2 high:
    // a b c
    // d e f
    let buf = vec![1, 2, 3, 4, 5, 6];
    let r = rotate_quarter_ccw(&buf, 3, 2);
    // 2 wide, 3 high:
    // c f
    // b e
    // a d
    assert_eq!(r, vec![3, 6, 2, 5, 1, 4]);
}

#[test]
fn rotate_twice_reverses_and_four_times_is_identity() {
    let buf: Vec<u8> = (1..=12).collect();
    let r1 = rotate_quarter_ccw(&buf, 4, 3);
    let r2 = rotate_quarter_ccw(&r1, 3, 4);
    let mut rev = buf.clone();
    rev.reverse();
    assert_eq!(r2, rev);
    let r3 = rotate_quarter_ccw(&r2, 4, 3);
    let r4 = rotate_quarter_ccw(&r3, 3, 4);
    assert_eq!(r4, buf);
}

#[test]
fn rotated_label_of_no_glyphs_is_blank() {
    let out = render_rotated_label(&vec![], 3).unwrap();
    assert_eq!(out.width, 2);
    assert_eq!(out.height, 5);
    assert_eq!(out.coverage, vec![0; 10]);
}

#[test]
fn rotated_label_places_glyphs_on_a_common_baseline() {
    // Glyph A: 1x2 bitmap standing on the baseline; glyph B: 1x1 hanging one below.
    let a = Glyph { left: 1, ymin: 0, width: 1, height: 2, coverage: vec![10, 20] };
    let b = Glyph { left: 2, ymin: -1, width: 1, height: 1, coverage: vec![30] };
    let space = Glyph { left: 3, ymin: 0, width: 0, height: 0, coverage: vec![] };
    let out = render_rotated_label(&vec![a, b, space], 2).unwrap();
    // ascent 2, descent -1: buffer 4 wide, 5 high, baseline between rows 2 and 3.
    // Buffer rows (before the turn):
    // 0: 0 0 0 0
    // 1: 0 10 0 0
    // 2: 0 20 0 0
    // 3: 0 0 30 0
    // 4: 0 0 0 0
    assert_eq!(out.width, 5);
    assert_eq!(out.height, 4);
    assert_eq!(
        out.coverage,
        vec![
            0, 0, 0, 0, 0, //
            0, 0, 0, 30, 0, //
            0, 10, 20, 0, 0, //
            0, 0, 0, 0, 0,
        ]
    );
}

#[test]
fn rotated_label_overlaps_take_the_maximum_in_any_order() {
    let a = Glyph { left: 1, ymin: 0, width: 2, height: 1, coverage: vec![50, 200] };
    let b = Glyph { left: 2, ymin: 0, width: 1, height: 1, coverage: vec![100] };
    let ab = render_rotated_label(&vec![a, b], 3).unwrap();
    let a = Glyph { left: 1, ymin: 0, width: 2, height: 1, coverage: vec![50, 200] };
    let b = Glyph { left: 2, ymin: 0, width: 1, height: 1, coverage: vec![100] };
    let ba = render_rotated_label(&vec![b, a], 3).unwrap();
    assert_eq!(ab.coverage, ba.coverage);
    assert!(ab.coverage.contains(&200));
    assert!(!ab.coverage.contains(&100));
}

#[test]
fn rotated_label_too_large_is_refused() {
    let tall = Glyph { left: 0, ymin: 0, width: 0, height: usize::MAX / 2, coverage: vec![] };
    assert!(render_rotated_label(&vec![tall], u32::MAX).is_none());
}

#[test]
fn colour_lists_fill_in_defaults() {
    assert_eq!(color_from_list(&[]), [0, 0, 0, 255]);
    assert_eq!(color_from_list(&[9]), [9, 0, 0, 255]);
    assert_eq!(color_from_list(&[1, 2, 3]), [1, 2, 3, 255]);
    assert_eq!(color_from_list(&[1, 2, 3, 4]), [1, 2, 3, 4]);
    assert_eq!(color_from_list(&[1, 2, 3, 4, 5]), [1, 2, 3, 4]);
}

#[test]
fn derived_colours() {
    assert_eq!(outline_color([200, 100, 50, 255]), [0, 0, 0, 127]);
    assert_eq!(outline_color([1, 1, 1, 10]), [0, 0, 0, 5]);
    assert_eq!(background_color(true), [0, 0, 0, 255]);
    assert_eq!(background_color(false), [255, 255, 255, 255]);
}

#[test]
fn label_passes_with_and_without_stroke() {
    let c = [10, 20, 30, 200];
    assert_eq!(label_passes(c, false), vec![TextPass { dx: 0, dy: 0, color: c }]);
    let s = [0, 0, 0, 200];
    assert_eq!(
        label_passes(c, true),
        vec![
            TextPass { dx: -1, dy: 0, color: s },
            TextPass { dx: 1, dy: 0, color: s },
            TextPass { dx: 0, dy: -1, color: s },
            TextPass { dx: 0, dy: 1, color: s },
            TextPass { dx: 0, dy: 0, color: c },
        ]
    );
}

#[test]
fn trace_kinds() {
    assert_eq!(parse_trace_kind("line").unwrap(), TraceKind::Line);
    assert_eq!(parse_trace_kind("scatter").unwrap(), TraceKind::Scatter);
    assert_eq!(parse_trace_kind("imshow").unwrap(), TraceKind::Imshow);
    match parse_trace_kind("bar") {
        Err(KindError::UnknownTrace(name)) => assert_eq!(name, "bar"),
        other => panic!("unexpected {:?}", other),
    }
    assert!(matches!(parse_trace_kind("Line"), Err(KindError::UnknownTrace(_))));
}

#[test]
fn overlay_kinds() {
    assert_eq!(parse_overlay_kind("circle").unwrap(), OverlayKind::Circle);
    assert_eq!(parse_overlay_kind("crosshair").unwrap(), OverlayKind::Crosshair);
    assert_eq!(parse_overlay_kind("polyline").unwrap(), OverlayKind::Polyline);
    assert_eq!(parse_overlay_kind("label").unwrap(), OverlayKind::Label);
    assert_eq!(parse_overlay_kind("rect").unwrap(), OverlayKind::Rect);
    assert_eq!(parse_overlay_kind("polygon").unwrap(), OverlayKind::Polygon);
    match parse_overlay_kind("arrow") {
        Err(KindError::UnknownOverlay(name)) => assert_eq!(name, "arrow"),
        other => panic!("unexpected {:?}", other),
    }
}

#[test]
fn colormap_names() {
    assert_eq!(colormap_by_name("gray"), Colormap::Gray);
    assert_eq!(colormap_by_name("grayscale"), Colormap::Gray);
    assert_eq!(colormap_by_name("grey"), Colormap::Gray);
    assert_eq!(colormap_by_name("viridis"), Colormap::Viridis);
    assert_eq!(colormap_by_name("inferno"), Colormap::Inferno);
    assert_eq!(colormap_by_name("RdYlGn"), Colormap::RdYlGn);
    assert_eq!(colormap_by_name("rdylgn"), Colormap::RdYlGn);
    assert_eq!(colormap_by_name("hot"), Colormap::Hot);
    assert_eq!(colormap_by_name("GRAY"), Colormap::Viridis);
    assert_eq!(colormap_by_name(""), Colormap::Viridis);
}

#[test]
fn text_comparison() {
    assert!(same_text("héllo", "héllo"));
    assert!(!same_text("hello", "hell"));
    assert!(!same_text("a", "b"));
    assert!(same_text("", ""));
}

#[test]
fn margins_follow_titles_and_labels() {
    assert_eq!(plot_margins(false, false, false), Margins { left: 60, right: 30, top: 25, bottom: 45 });
    assert_eq!(plot_margins(true, true, true), Margins { left: 80, right: 30, top: 50, bottom: 65 });
    assert_eq!(plot_margins(true, false, false), Margins { left: 60, right: 30, top: 50, bottom: 45 });
    assert_eq!(plot_margins(false, true, false).bottom, 65);
    assert_eq!(plot_margins(false, false, true).left, 80);
}

#[test]
fn image_rows_flip_unless_origin_lower() {
    assert_eq!(image_row_position(0, 5, true), 0);
    assert_eq!(image_row_position(0, 5, false), 4);
    assert_eq!(image_row_position(4, 5, false), 0);
    assert_eq!(image_row_position(image_row_position(1, 5, false), 5, false), 1);
}

#[test]
fn rotated_label_repeated_glyph_is_stamped_once() {
    let g = || Glyph { left: 1, ymin: 0, width: 2, height: 2, coverage: vec![1, 2, 3, 4] };
    let once = render_rotated_label(&vec![g()], 3).unwrap();
    let twice = render_rotated_label(&vec![g(), g()], 3).unwrap();
    assert_eq!(once.coverage, twice.coverage);
    assert_eq!(once.width, twice.width);
    assert_eq!(once.height, twice.height);
}

use plotcore::plan::{draw_plan, DrawStep};

#[test]
fn frameless_plan_draws_traces_then_overlays() {
    assert_eq!(draw_plan(true, true, true, true, true), vec![DrawStep::Traces, DrawStep::Overlays]);
}

#[test]
fn framed_plan_orders_frame_traces_labels_overlays() {
    assert_eq!(
        draw_plan(false, true, true, true, true),
        vec![
            DrawStep::Grid,
            DrawStep::Axes,
            DrawStep::Ticks,
            DrawStep::Traces,
            DrawStep::Title,
            DrawStep::XLabel,
            DrawStep::YLabel,
            DrawStep::Overlays,
        ]
    );
    assert_eq!(
        draw_plan(false, false, false, true, false),
        vec![DrawStep::Axes, DrawStep::Ticks, DrawStep::Traces, DrawStep::XLabel, DrawStep::Overlays]
    );
}
