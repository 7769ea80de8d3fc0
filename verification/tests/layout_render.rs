use text_input_core::actions::TextInputEdit;
use text_input_core::edit::EditorState;
use text_input_core::edit::apply_text_input_edit;
use text_input_core::layout::GlyphAtlas;
use text_input_core::layout::GlyphRect;
use text_input_core::layout::RectPx;
use text_input_core::layout::TextInputGlyph;
use text_input_core::layout::TextInputLayoutInfo;
use text_input_core::render::DrawPrimitive;
use text_input_core::render::Rgba;
use text_input_core::render::TextInputNode;
use text_input_core::render::TextInputPrompt;
use text_input_core::render::TextInputPromptWidget;
use text_input_core::render::TextInputStyle;
use text_input_core::render::TextInputWidget;
use text_input_core::render::extract_text_input_nodes;
use text_input_core::render::extract_text_input_prompts;
use text_input_core::text::Cursor;
use text_input_core::text::TextBuffer;

fn buffer_of(lines: &[&str]) -> TextBuffer {
    TextBuffer { lines: lines.iter().map(|l| l.chars().collect()).collect() }
}

fn state_of(lines: &[&str], cursor: (usize, usize)) -> EditorState {
    EditorState {
        buffer: buffer_of(lines),
        cursor: Cursor { line: cursor.0, index: cursor.1 },
        selection: None,
        scroll_lines: 0,
    }
}

fn glyph(x: i32, width: u32, line: usize, index: usize) -> TextInputGlyph {
    TextInputGlyph {
        x,
        width,
        line,
        index,
        atlas: Some(GlyphAtlas { texture: 1, rect: GlyphRect { x: 0, y: 0, w: 8, h: 16 } }),
    }
}

/// "ab" on line 0 and "c" on line 1, ten pixels per glyph, 16px lines.
fn two_line_layout() -> TextInputLayoutInfo {
    TextInputLayoutInfo {
        glyphs: vec![glyph(0, 10, 0, 0), glyph(10, 10, 0, 1), glyph(0, 10, 1, 0)],
        line_height: 16,
    }
}

const WHITE: Rgba = Rgba { r: 255, g: 255, b: 255, a: 255 };
const BLUE: Rgba = Rgba { r: 0, g: 0, b: 255, a: 255 };
const RED: Rgba = Rgba { r: 255, g: 0, b: 0, a: 255 };

fn style() -> TextInputStyle {
    TextInputStyle {
        selection_color: BLUE,
        selected_text_color: Some(RED),
        cursor_color: WHITE,
        cursor_width: 2,
        cursor_height_percent: 100,
        blink_interval_ms: 500,
    }
}

fn widget(state: EditorState, layout: TextInputLayoutInfo) -> TextInputWidget {
    TextInputWidget {
        entity: 7,
        visible: true,
        camera: Some(1),
        x: 100,
        y: 200,
        width: 300,
        height: 50,
        clip: None,
        stack_index: 4,
        text_color: WHITE,
        style: style(),
        node: TextInputNode { is_enabled: true, clear_on_submit: false },
        state,
        layout,
        selection_rects: Vec::new(),
        cursor_blink_ms: 0,
        scroll_px: 0,
    }
}

#[test]
fn click_at_glyph_corner_resolves_to_its_offset() {
    // P5: resolving a click at a glyph's top-left corner yields a cursor
    // at that glyph's offset.
    let layout = two_line_layout();
    let buf = buffer_of(&["ab", "c"]);
    assert_eq!(layout.resolve_click(&buf, 0, 0), Cursor { line: 0, index: 0 });
    assert_eq!(layout.resolve_click(&buf, 10, 0), Cursor { line: 0, index: 1 });
    assert_eq!(layout.resolve_click(&buf, 0, 16), Cursor { line: 1, index: 0 });
}

#[test]
fn click_past_last_glyph_resolves_to_line_end() {
    // P5, boundary case: clicking past the last glyph on a line yields
    // the end-of-line offset.
    let layout = two_line_layout();
    let buf = buffer_of(&["ab", "c"]);
    assert_eq!(layout.resolve_click(&buf, 500, 0), Cursor { line: 0, index: 2 });
    assert_eq!(layout.resolve_click(&buf, 500, 16), Cursor { line: 1, index: 1 });
}

#[test]
fn click_clamps_to_the_existing_lines() {
    let layout = two_line_layout();
    let buf = buffer_of(&["ab", "c"]);
    assert_eq!(layout.resolve_click(&buf, 0, -50), Cursor { line: 0, index: 0 });
    assert_eq!(layout.resolve_click(&buf, 0, 5000), Cursor { line: 1, index: 0 });
}

#[test]
fn click_edit_places_cursor_and_clears_selection() {
    let layout = two_line_layout();
    let mut state = state_of(&["ab", "c"], (0, 0));
    state.selection = Some(Cursor { line: 0, index: 1 });
    apply_text_input_edit(TextInputEdit::Click { x: 10, y: 0 }, &mut state, &layout, None, &None);
    assert_eq!(state.cursor, Cursor { line: 0, index: 1 });
    assert_eq!(state.selection, None);
}

#[test]
fn double_click_selects_the_word() {
    let layout = TextInputLayoutInfo {
        glyphs: vec![
            glyph(0, 10, 0, 0),
            glyph(10, 10, 0, 1),
            glyph(20, 10, 0, 2),
            glyph(30, 10, 0, 3),
            glyph(40, 10, 0, 4),
            glyph(50, 10, 0, 5),
            glyph(60, 10, 0, 6),
        ],
        line_height: 16,
    };
    let mut state = state_of(&["foo bar"], (0, 0));
    apply_text_input_edit(
        TextInputEdit::DoubleClick { x: 51, y: 0 },
        &mut state,
        &layout,
        None,
        &None,
    );
    assert_eq!(state.selection, Some(Cursor { line: 0, index: 4 }));
    assert_eq!(state.cursor, Cursor { line: 0, index: 7 });
}

#[test]
fn triple_click_selects_the_whole_line() {
    let layout = two_line_layout();
    let mut state = state_of(&["ab", "c"], (1, 1));
    apply_text_input_edit(
        TextInputEdit::TripleClick { x: 10, y: 0 },
        &mut state,
        &layout,
        None,
        &None,
    );
    assert_eq!(state.selection, Some(Cursor { line: 0, index: 0 }));
    assert_eq!(state.cursor, Cursor { line: 0, index: 2 });
}

#[test]
fn drag_extends_from_the_drag_start() {
    let layout = two_line_layout();
    let mut state = state_of(&["ab", "c"], (0, 1));
    apply_text_input_edit(TextInputEdit::Drag { x: 0, y: 16 }, &mut state, &layout, None, &None);
    assert_eq!(state.selection, Some(Cursor { line: 0, index: 1 }));
    assert_eq!(state.cursor, Cursor { line: 1, index: 0 });
    // Further dragging keeps the anchor.
    apply_text_input_edit(TextInputEdit::Drag { x: 500, y: 16 }, &mut state, &layout, None, &None);
    assert_eq!(state.selection, Some(Cursor { line: 0, index: 1 }));
    assert_eq!(state.cursor, Cursor { line: 1, index: 1 });
}

#[test]
fn cursor_pixel_position_tracks_glyph_edges() {
    let layout = two_line_layout();
    assert_eq!(layout.cursor_pixel_position(Cursor { line: 0, index: 0 }), Some((0, 0)));
    assert_eq!(layout.cursor_pixel_position(Cursor { line: 0, index: 1 }), Some((10, 0)));
    assert_eq!(layout.cursor_pixel_position(Cursor { line: 0, index: 2 }), Some((20, 0)));
    assert_eq!(layout.cursor_pixel_position(Cursor { line: 1, index: 0 }), Some((0, 16)));
}

#[test]
fn selection_rects_cover_each_touched_line() {
    let layout = two_line_layout();
    let buf = buffer_of(&["ab", "c"]);
    let rects = layout.compute_selection_rects(
        &buf,
        Cursor { line: 0, index: 1 },
        Cursor { line: 1, index: 1 },
    );
    assert_eq!(rects.len(), 2);
    assert_eq!(rects[0], RectPx { x: 10, y: 0, w: 10, h: 16 });
    assert_eq!(rects[1], RectPx { x: 0, y: 16, w: 10, h: 16 });
}

#[test]
fn extraction_emits_selection_glyphs_and_cursor_in_order() {
    let mut state = state_of(&["ab", "c"], (0, 1));
    state.selection = Some(Cursor { line: 1, index: 1 });
    let mut w = widget(state, two_line_layout());
    w.selection_rects = vec![RectPx { x: 10, y: 0, w: 10, h: 16 }, RectPx {
        x: 0,
        y: 16,
        w: 10,
        h: 16,
    }];
    let mut out: Vec<DrawPrimitive> = Vec::new();
    extract_text_input_nodes(&vec![w], Some(7), &mut out);

    assert_eq!(out.len(), 6);
    // Two selection rectangles: both widened by 2, the second taller by 1.
    match out[0] {
        DrawPrimitive::Rect { x, y, w, h, color, camera, entity, .. } => {
            assert_eq!((x, y, w, h), (110, 200, 12, 16));
            assert_eq!(color, BLUE);
            assert_eq!((camera, entity), (1, 7));
        },
        _ => panic!("expected a selection rectangle"),
    }
    match out[1] {
        DrawPrimitive::Rect { x, y, w, h, .. } => {
            assert_eq!((x, y, w, h), (100, 216, 12, 17));
        },
        _ => panic!("expected a selection rectangle"),
    }
    // Three glyphs; the selected ones (offset 1 of line 0, offset 0 of
    // line 1) take the selection text color.
    match (out[2], out[3], out[4]) {
        (
            DrawPrimitive::Glyph { x: x0, color: c0, .. },
            DrawPrimitive::Glyph { x: x1, color: c1, .. },
            DrawPrimitive::Glyph { y: y2, color: c2, .. },
        ) => {
            assert_eq!(x0, 100);
            assert_eq!(c0, WHITE);
            assert_eq!(x1, 110);
            assert_eq!(c1, RED);
            assert_eq!(y2, 216);
            assert_eq!(c2, RED);
        },
        _ => panic!("expected three glyph quads"),
    }
    // The cursor rectangle comes last, at the cursor's pixel position.
    match out[5] {
        DrawPrimitive::Rect { x, y, w, h, color, .. } => {
            assert_eq!((x, y, w, h), (110, 200, 2, 16));
            assert_eq!(color, WHITE);
        },
        _ => panic!("expected the cursor rectangle"),
    }
}

#[test]
fn cursor_needs_focus_blink_and_color() {
    let base = || widget(state_of(&["ab", "c"], (0, 1)), two_line_layout());

    let mut out: Vec<DrawPrimitive> = Vec::new();
    extract_text_input_nodes(&vec![base()], None, &mut out);
    assert_eq!(out.len(), 3);

    let mut w = base();
    w.cursor_blink_ms = 600;
    out.clear();
    extract_text_input_nodes(&vec![w], Some(7), &mut out);
    assert_eq!(out.len(), 3);

    let mut w = base();
    w.style.cursor_color = Rgba { r: 1, g: 2, b: 3, a: 0 };
    out.clear();
    extract_text_input_nodes(&vec![w], Some(7), &mut out);
    assert_eq!(out.len(), 3);

    let mut w = base();
    w.node.is_enabled = false;
    out.clear();
    extract_text_input_nodes(&vec![w], Some(7), &mut out);
    assert_eq!(out.len(), 3);

    out.clear();
    extract_text_input_nodes(&vec![base()], Some(7), &mut out);
    assert_eq!(out.len(), 4);
}

#[test]
fn invisible_or_unmapped_widgets_are_skipped() {
    let mut hidden = widget(state_of(&["ab", "c"], (0, 0)), two_line_layout());
    hidden.visible = false;
    let mut unmapped = widget(state_of(&["ab", "c"], (0, 0)), two_line_layout());
    unmapped.camera = None;
    let mut empty_box = widget(state_of(&["ab", "c"], (0, 0)), two_line_layout());
    empty_box.width = 0;
    let mut out: Vec<DrawPrimitive> = Vec::new();
    extract_text_input_nodes(&vec![hidden, unmapped, empty_box], Some(7), &mut out);
    assert_eq!(out.len(), 0);
}

#[test]
fn scroll_and_clip_shape_the_output() {
    let mut w = widget(state_of(&["ab", "c"], (0, 0)), two_line_layout());
    w.scroll_px = 5;
    w.clip = Some(RectPx { x: 0, y: 0, w: 150, h: 1000 });
    let mut out: Vec<DrawPrimitive> = Vec::new();
    extract_text_input_nodes(&vec![w], None, &mut out);
    match out[0] {
        DrawPrimitive::Glyph { x, clip, .. } => {
            assert_eq!(x, 95);
            assert_eq!(clip, RectPx { x: 100, y: 200, w: 50, h: 50 });
        },
        _ => panic!("expected a glyph quad"),
    }
}

fn prompt_widget(state: EditorState) -> TextInputPromptWidget {
    TextInputPromptWidget {
        entity: 9,
        visible: true,
        camera: Some(1),
        x: 10,
        y: 20,
        width: 100,
        height: 30,
        clip: None,
        stack_index: 2,
        text_color: WHITE,
        prompt: TextInputPrompt { text: "type here".chars().collect(), color: Some(RED) },
        prompt_layout: TextInputLayoutInfo {
            glyphs: vec![glyph(0, 10, 0, 0), glyph(10, 10, 0, 1)],
            line_height: 16,
        },
        state,
    }
}

#[test]
fn prompt_shows_only_while_the_buffer_is_empty() {
    // P8: an empty buffer with a configured prompt emits prompt glyphs;
    // after a successful insert they stop being emitted.
    let mut out: Vec<DrawPrimitive> = Vec::new();
    extract_text_input_prompts(&vec![prompt_widget(state_of(&[""], (0, 0)))], &mut out);
    assert_eq!(out.len(), 2);
    match out[0] {
        DrawPrimitive::Glyph { x, y, color, .. } => {
            assert_eq!((x, y), (10, 20));
            assert_eq!(color, RED);
        },
        _ => panic!("expected a prompt glyph"),
    }

    // Whitespace-only content still shows as empty.
    out.clear();
    extract_text_input_prompts(&vec![prompt_widget(state_of(&["  "], (0, 0)))], &mut out);
    assert_eq!(out.len(), 2);

    // After an insert the buffer shows content and the prompt goes away.
    let mut state = state_of(&[""], (0, 0));
    let layout = TextInputLayoutInfo { glyphs: Vec::new(), line_height: 16 };
    apply_text_input_edit(TextInputEdit::Insert('x', false), &mut state, &layout, None, &None);
    out.clear();
    extract_text_input_prompts(&vec![prompt_widget(state)], &mut out);
    assert_eq!(out.len(), 0);
}

#[test]
fn click_with_degenerate_line_height_stays_on_the_first_line() {
    let layout = TextInputLayoutInfo { glyphs: vec![glyph(0, 10, 0, 0)], line_height: 0 };
    let buf = buffer_of(&["ab", "c"]);
    assert_eq!(layout.resolve_click(&buf, 3, 40), Cursor { line: 0, index: 0 });
}

#[test]
fn double_click_between_words_selects_the_word_just_before() {
    let layout = TextInputLayoutInfo {
        glyphs: vec![
            glyph(0, 10, 0, 0),
            glyph(10, 10, 0, 1),
            glyph(20, 10, 0, 2),
            glyph(30, 10, 0, 3),
        ],
        line_height: 16,
    };
    // "ab c": a click resolving to offset 2 (the space) selects "ab".
    let mut state = state_of(&["ab c"], (0, 0));
    apply_text_input_edit(
        TextInputEdit::DoubleClick { x: 20, y: 0 },
        &mut state,
        &layout,
        None,
        &None,
    );
    assert_eq!(state.selection, Some(Cursor { line: 0, index: 0 }));
    assert_eq!(state.cursor, Cursor { line: 0, index: 2 });
}

#[test]
fn double_click_on_an_empty_line_leaves_an_empty_selection() {
    let layout = TextInputLayoutInfo { glyphs: Vec::new(), line_height: 16 };
    let mut state = state_of(&[""], (0, 0));
    apply_text_input_edit(
        TextInputEdit::DoubleClick { x: 5, y: 5 },
        &mut state,
        &layout,
        None,
        &None,
    );
    assert_eq!(state.selection, Some(Cursor { line: 0, index: 0 }));
    assert_eq!(state.cursor, Cursor { line: 0, index: 0 });
}
