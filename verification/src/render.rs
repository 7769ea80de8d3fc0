//! Render extraction: turns a widget's settled editing state, its shaped
//! layout and its style into a flat list of drawable primitives — selection
//! rectangles, colored glyph quads, and a blinking cursor rectangle — all
//! translated into screen space and clipped to the widget's rectangle.
//!
//! Extraction never fails: a widget that is invisible, has no camera
//! mapping or an empty rectangle is skipped for the frame, and a glyph
//! whose atlas is missing is omitted.

use vstd::prelude::*;

use crate::edit::EditorState;
use crate::edit::buffer_visually_empty;
use crate::edit::is_buffer_empty;
use crate::edit::sel_bounds;
use crate::layout::GlyphAtlas;
use crate::layout::GlyphRect;
use crate::layout::RectPx;
use crate::layout::TextInputGlyph;
use crate::layout::TextInputLayoutInfo;
use crate::layout::spec_cursor_x;
use crate::text::Cursor;

verus! {

/// An RGBA color with 8-bit channels.
#[derive(Clone, Copy, Debug, PartialEq, Eq, Structural)]
pub struct Rgba {
    pub r: u8,
    pub g: u8,
    pub b: u8,
    pub a: u8,
}

/// Visual styling of a text input widget.
#[derive(Clone, Copy, Debug)]
pub struct TextInputStyle {
    /// Fill of the selection highlight rectangles.
    pub selection_color: Rgba,
    /// Color of glyphs inside the selection; the base text color when not
    /// set.
    pub selected_text_color: Option<Rgba>,
    /// Fill of the cursor rectangle; a fully transparent one hides the
    /// cursor.
    pub cursor_color: Rgba,
    /// Cursor width in pixels.
    pub cursor_width: u32,
    /// Cursor height as a percentage of the line height.
    pub cursor_height_percent: u32,
    /// Blink period half: the cursor shows while the blink timer is under
    /// this.
    pub blink_interval_ms: u32,
}

/// Host-side switches of one widget.
#[derive(Clone, Copy, Debug)]
pub struct TextInputNode {
    /// A disabled widget accepts no edits and shows no cursor.
    pub is_enabled: bool,
    /// Whether a submit clears the buffer.
    pub clear_on_submit: bool,
}

/// Everything the extraction pass reads of one widget in one frame.
pub struct TextInputWidget {
    /// The widget's identity with the host.
    pub entity: u64,
    /// Inherited visibility.
    pub visible: bool,
    /// The camera the widget renders through, when one maps to it.
    pub camera: Option<u64>,
    /// Screen-space left edge of the content box.
    pub x: i32,
    /// Screen-space top edge of the content box.
    pub y: i32,
    /// Content box width; an empty box is skipped.
    pub width: u32,
    /// Content box height; an empty box is skipped.
    pub height: u32,
    /// Inherited clip rectangle, screen space.
    pub clip: Option<RectPx>,
    /// Paint order within the host's UI stack.
    pub stack_index: u32,
    /// Base text color.
    pub text_color: Rgba,
    pub style: TextInputStyle,
    pub node: TextInputNode,
    pub state: EditorState,
    pub layout: TextInputLayoutInfo,
    /// Cached selection highlight rectangles, content space.
    pub selection_rects: Vec<RectPx>,
    /// Time since the blink timer was last reset.
    pub cursor_blink_ms: u32,
    /// Horizontal scroll of the content, in pixels.
    pub scroll_px: i32,
}

/// One drawable primitive, screen space.
#[derive(Clone, Copy, Debug, PartialEq, Eq, Structural)]
pub enum DrawPrimitive {
    /// A solid rectangle: a selection highlight or the cursor.
    Rect {
        x: i64,
        y: i64,
        w: i64,
        h: i64,
        color: Rgba,
        clip: RectPx,
        camera: u64,
        entity: u64,
        stack_index: u32,
    },
    /// One glyph quad, sampled from its atlas.
    Glyph {
        x: i64,
        y: i64,
        texture: u64,
        atlas: GlyphRect,
        color: Rgba,
        clip: RectPx,
        camera: u64,
        entity: u64,
        stack_index: u32,
    },
}

/// Addition clamped to the 64-bit range: screen coordinates saturate at
/// the representable edge instead of wrapping.
pub open spec fn sat_add(a: int, b: int) -> int {
    if a + b > i64::MAX {
        i64::MAX as int
    } else if a + b < i64::MIN {
        i64::MIN as int
    } else {
        a + b
    }
}

/// Addition clamped to the 64-bit range.
pub fn sat_add_px(a: i64, b: i64) -> (r: i64)
    ensures
        r == sat_add(a as int, b as int),
{
    match a.checked_add(b) {
        Option::Some(v) => v,
        Option::None => if b >= 0 {
            i64::MAX
        } else {
            i64::MIN
        },
    }
}

/// A widget the extraction pass skips this frame: invisible, zero-sized,
/// or without a camera mapping.
pub open spec fn widget_skipped(w: &TextInputWidget) -> bool {
    ||| !w.visible
    ||| w.width == 0
    ||| w.height == 0
    ||| w.camera is None
}

/// The widget's content box as a screen-space rectangle.
pub open spec fn node_rect(w: &TextInputWidget) -> RectPx {
    RectPx { x: w.x as i64, y: w.y as i64, w: w.width as i64, h: w.height as i64 }
}

/// The overlap of two rectangles; empty overlaps collapse to zero size.
pub open spec fn rect_intersect(a: RectPx, b: RectPx) -> RectPx {
    let x0 = if a.x >= b.x {
        a.x as int
    } else {
        b.x as int
    };
    let y0 = if a.y >= b.y {
        a.y as int
    } else {
        b.y as int
    };
    let x1 = if a.x + a.w <= b.x + b.w {
        a.x + a.w
    } else {
        b.x + b.w
    };
    let y1 = if a.y + a.h <= b.y + b.h {
        a.y + a.h
    } else {
        b.y + b.h
    };
    RectPx {
        x: x0 as i64,
        y: y0 as i64,
        w: if x1 > x0 {
            (x1 - x0) as i64
        } else {
            0
        },
        h: if y1 > y0 {
            (y1 - y0) as i64
        } else {
            0
        },
    }
}

/// The clip rectangle of a widget's output: the inherited clip cut down to
/// the widget's box, or the box itself.
pub open spec fn clip_of(w: &TextInputWidget) -> RectPx {
    match w.clip {
        Option::Some(c) => rect_intersect(c, node_rect(w)),
        Option::None => node_rect(w),
    }
}

/// Content-space to screen-space: shift by the widget's position, minus
/// the horizontal scroll.
pub open spec fn to_screen_x(w: &TextInputWidget, x: int) -> int {
    sat_add(x, w.x - w.scroll_px)
}

/// Content-space to screen-space, vertical.
pub open spec fn to_screen_y(w: &TextInputWidget, y: int) -> int {
    sat_add(y, w.y as int)
}

/// The highlight rectangle primitive for entry `i` of the selection rect
/// cache: two pixels wider than the cached rectangle, and — for every
/// segment but the first — one pixel taller, so that the segments of a
/// multi-line selection meet without visible seams.
pub open spec fn sel_prim(w: &TextInputWidget, i: int) -> DrawPrimitive {
    let rect = w.selection_rects@[i];
    let extra_h: int = if i >= 1 {
        1
    } else {
        0
    };
    DrawPrimitive::Rect {
        x: to_screen_x(w, rect.x as int) as i64,
        y: to_screen_y(w, rect.y as int) as i64,
        w: sat_add(rect.w as int, 2) as i64,
        h: sat_add(rect.h as int, extra_h) as i64,
        color: w.style.selection_color,
        clip: clip_of(w),
        camera: w.camera->0,
        entity: w.entity,
        stack_index: w.stack_index,
    }
}

/// The first `i` selection highlight primitives of a widget.
pub open spec fn sel_prims(w: &TextInputWidget, i: int) -> Seq<DrawPrimitive>
    decreases i,
{
    if i <= 0 {
        Seq::empty()
    } else {
        sel_prims(w, i - 1).push(sel_prim(w, i - 1))
    }
}

/// Whether a glyph is drawn: its atlas must be available and its line band
/// representable.
pub open spec fn glyph_drawn(g: TextInputGlyph) -> bool {
    g.atlas is Some && g.line <= 0x7fff_ffff
}

/// Whether a glyph's buffer position falls within the canonicalized
/// selection bounds.
pub open spec fn glyph_selected(w: &TextInputWidget, g: TextInputGlyph) -> bool {
    match sel_bounds(w.state@) {
        Option::Some(ab) => {
            let s0 = ab.0;
            let s1 = ab.1;
            &&& (s0.line < g.line || (g.line == s0.line && s0.index <= g.index))
            &&& (g.line < s1.line || (g.line == s1.line && g.index < s1.index))
        },
        Option::None => false,
    }
}

/// A glyph's fill color: the selection text color inside the selection,
/// the base text color outside it.
pub open spec fn glyph_color(w: &TextInputWidget, g: TextInputGlyph) -> Rgba {
    if glyph_selected(w, g) {
        match w.style.selected_text_color {
            Option::Some(c) => c,
            Option::None => w.text_color,
        }
    } else {
        w.text_color
    }
}

/// The quad primitive of one glyph.
pub open spec fn glyph_prim(w: &TextInputWidget, g: TextInputGlyph) -> DrawPrimitive {
    DrawPrimitive::Glyph {
        x: to_screen_x(w, g.x as int) as i64,
        y: to_screen_y(w, g.line * w.layout.line_height) as i64,
        texture: g.atlas->0.texture,
        atlas: g.atlas->0.rect,
        color: glyph_color(w, g),
        clip: clip_of(w),
        camera: w.camera->0,
        entity: w.entity,
        stack_index: w.stack_index,
    }
}

/// The quads of the first `i` glyphs of a widget's layout, in order,
/// omitting glyphs that are not drawn.
pub open spec fn glyph_prims(w: &TextInputWidget, i: int) -> Seq<DrawPrimitive>
    decreases i,
{
    if i <= 0 {
        Seq::empty()
    } else {
        let head = glyph_prims(w, i - 1);
        if glyph_drawn(w.layout.glyphs@[i - 1]) {
            head.push(glyph_prim(w, w.layout.glyphs@[i - 1]))
        } else {
            head
        }
    }
}

/// When the cursor rectangle is emitted: the widget is focused and
/// enabled, the blink phase is in its visible half, the cursor color is
/// not fully transparent, and the cursor has a representable position.
pub open spec fn cursor_shown(w: &TextInputWidget, focus: Option<u64>) -> bool {
    &&& focus == Option::Some(w.entity)
    &&& w.node.is_enabled
    &&& w.cursor_blink_ms < w.style.blink_interval_ms
    &&& w.style.cursor_color.a != 0
    &&& w.state@.cursor.line <= 0x7fff_ffff
}

/// The cursor rectangle primitive: at the cursor's pixel position, as wide
/// as configured and as tall as the configured share of the line height.
pub open spec fn cursor_prim(w: &TextInputWidget) -> DrawPrimitive {
    let cx = spec_cursor_x(w.layout.glyphs@, w.state@.cursor);
    let cy = w.state@.cursor.line * w.layout.line_height;
    DrawPrimitive::Rect {
        x: to_screen_x(w, cx) as i64,
        y: to_screen_y(w, cy) as i64,
        w: w.style.cursor_width as i64,
        h: (w.layout.line_height * w.style.cursor_height_percent / 100) as i64,
        color: w.style.cursor_color,
        clip: clip_of(w),
        camera: w.camera->0,
        entity: w.entity,
        stack_index: w.stack_index,
    }
}

/// The cursor primitives of a widget: one rectangle, or none.
pub open spec fn cursor_prims(w: &TextInputWidget, focus: Option<u64>) -> Seq<DrawPrimitive> {
    if cursor_shown(w, focus) {
        seq![cursor_prim(w)]
    } else {
        Seq::empty()
    }
}

/// Everything one widget contributes to a frame, in draw order: selection
/// highlights, then glyph quads, then the cursor; nothing when the widget
/// is skipped.
pub open spec fn widget_prims(w: &TextInputWidget, focus: Option<u64>) -> Seq<DrawPrimitive> {
    if widget_skipped(w) {
        Seq::empty()
    } else {
        sel_prims(w, w.selection_rects@.len() as int) + glyph_prims(
            w,
            w.layout.glyphs@.len() as int,
        ) + cursor_prims(w, focus)
    }
}

/// The contributions of the first `i` widgets, in order.
pub open spec fn nodes_prims(ws: Seq<TextInputWidget>, focus: Option<u64>, i: int) -> Seq<
    DrawPrimitive,
>
    decreases i,
{
    if i <= 0 {
        Seq::empty()
    } else {
        nodes_prims(ws, focus, i - 1) + widget_prims(&ws[i - 1], focus)
    }
}

/// The prompt (placeholder) configuration of a widget: shown only while
/// the buffer is empty, whitespace-only content included.
pub struct TextInputPrompt {
    /// The placeholder text the host shapes into the prompt layout.
    pub text: Vec<char>,
    /// Prompt color; the widget's text color when not set.
    pub color: Option<Rgba>,
}

/// Everything the prompt extraction pass reads of one widget.
pub struct TextInputPromptWidget {
    pub entity: u64,
    pub visible: bool,
    pub camera: Option<u64>,
    pub x: i32,
    pub y: i32,
    pub width: u32,
    pub height: u32,
    pub clip: Option<RectPx>,
    pub stack_index: u32,
    pub text_color: Rgba,
    pub prompt: TextInputPrompt,
    /// The shaped layout of the prompt text.
    pub prompt_layout: TextInputLayoutInfo,
    pub state: EditorState,
}

/// A prompt the extraction pass skips this frame: the buffer shows
/// content, or the widget is invisible, zero-sized, or unmapped.
pub open spec fn prompt_skipped(w: &TextInputPromptWidget) -> bool {
    ||| !buffer_visually_empty(w.state@.lines)
    ||| !w.visible
    ||| w.width == 0
    ||| w.height == 0
    ||| w.camera is None
}

/// The prompt widget's content box as a screen-space rectangle.
pub open spec fn prompt_node_rect(w: &TextInputPromptWidget) -> RectPx {
    RectPx { x: w.x as i64, y: w.y as i64, w: w.width as i64, h: w.height as i64 }
}

/// The clip rectangle of a prompt's output.
pub open spec fn prompt_clip_of(w: &TextInputPromptWidget) -> RectPx {
    match w.clip {
        Option::Some(c) => rect_intersect(c, prompt_node_rect(w)),
        Option::None => prompt_node_rect(w),
    }
}

/// The quad primitive of one prompt glyph, in the prompt's color.
pub open spec fn prompt_glyph_prim(w: &TextInputPromptWidget, g: TextInputGlyph) -> DrawPrimitive {
    DrawPrimitive::Glyph {
        x: sat_add(g.x as int, w.x as int) as i64,
        y: sat_add(g.line * w.prompt_layout.line_height, w.y as int) as i64,
        texture: g.atlas->0.texture,
        atlas: g.atlas->0.rect,
        color: match w.prompt.color {
            Option::Some(c) => c,
            Option::None => w.text_color,
        },
        clip: prompt_clip_of(w),
        camera: w.camera->0,
        entity: w.entity,
        stack_index: w.stack_index,
    }
}

/// The quads of the first `i` prompt glyphs, omitting glyphs that are not
/// drawn.
pub open spec fn prompt_glyph_prims(w: &TextInputPromptWidget, i: int) -> Seq<DrawPrimitive>
    decreases i,
{
    if i <= 0 {
        Seq::empty()
    } else {
        let head = prompt_glyph_prims(w, i - 1);
        if glyph_drawn(w.prompt_layout.glyphs@[i - 1]) {
            head.push(prompt_glyph_prim(w, w.prompt_layout.glyphs@[i - 1]))
        } else {
            head
        }
    }
}

/// Everything one prompt contributes to a frame: its glyph quads while the
/// buffer is empty, nothing otherwise.
pub open spec fn prompt_prims(w: &TextInputPromptWidget) -> Seq<DrawPrimitive> {
    if prompt_skipped(w) {
        Seq::empty()
    } else {
        prompt_glyph_prims(w, w.prompt_layout.glyphs@.len() as int)
    }
}

/// The contributions of the first `i` prompts, in order.
pub open spec fn prompts_prims(ws: Seq<TextInputPromptWidget>, i: int) -> Seq<DrawPrimitive>
    decreases i,
{
    if i <= 0 {
        Seq::empty()
    } else {
        prompts_prims(ws, i - 1) + prompt_prims(&ws[i - 1])
    }
}

/// Compute the overlap of two rectangles.
fn rect_intersect_px(a: RectPx, b: RectPx) -> (r: RectPx)
    ensures
        r == rect_intersect(a, b),
{
    let x0: i128 = if a.x >= b.x {
        a.x as i128
    } else {
        b.x as i128
    };
    let y0: i128 = if a.y >= b.y {
        a.y as i128
    } else {
        b.y as i128
    };
    let ar: i128 = a.x as i128 + a.w as i128;
    let br: i128 = b.x as i128 + b.w as i128;
    let ab_: i128 = a.y as i128 + a.h as i128;
    let bb: i128 = b.y as i128 + b.h as i128;
    let x1: i128 = if ar <= br {
        ar
    } else {
        br
    };
    let y1: i128 = if ab_ <= bb {
        ab_
    } else {
        bb
    };
    RectPx {
        x: x0 as i64,
        y: y0 as i64,
        w: if x1 > x0 {
            (x1 - x0) as i64
        } else {
            0
        },
        h: if y1 > y0 {
            (y1 - y0) as i64
        } else {
            0
        },
    }
}

/// Extract the drawable primitives of every content widget, in widget
/// order: selection highlight rectangles, then colored glyph quads, then —
/// for the focused, enabled widget in the visible blink phase — one cursor
/// rectangle. Widgets without visibility, a camera mapping or a non-empty
/// box are skipped; extraction never fails.
pub fn extract_text_input_nodes(
    widgets: &Vec<TextInputWidget>,
    focus: Option<u64>,
    out: &mut Vec<DrawPrimitive>,
)
    ensures
        final(out)@ == old(out)@ + nodes_prims(widgets@, focus, widgets@.len() as int),
{
    let n = widgets.len();
    let mut i: usize = 0;
    proof {
        assert(out@ =~= old(out)@ + nodes_prims(widgets@, focus, 0));
    }
    while i < n
        invariant
            i <= n,
            n == widgets@.len(),
            out@ == old(out)@ + nodes_prims(widgets@, focus, i as int),
        decreases n - i,
    {
        let w = &widgets[i];
        let skip = !w.visible || w.width == 0 || w.height == 0 || w.camera.is_none();
        if skip {
            proof {
                assert(widget_prims(w, focus) =~= Seq::<DrawPrimitive>::empty());
                assert(out@ =~= old(out)@ + nodes_prims(widgets@, focus, i + 1));
            }
        } else {
            let ghost base = out@;
            let camera = match w.camera {
                Option::Some(c) => c,
                Option::None => 0,
            };
            let nrect = RectPx { x: w.x as i64, y: w.y as i64, w: w.width as i64, h: w.height as i64 };
            let clip = match w.clip {
                Option::Some(c) => rect_intersect_px(c, nrect),
                Option::None => nrect,
            };
            let shift_x: i64 = w.x as i64 - w.scroll_px as i64;
            let sn = w.selection_rects.len();
            let mut j: usize = 0;
            while j < sn
                invariant
                    j <= sn,
                    i < n,
                    n == widgets@.len(),
                    w == &widgets@[i as int],
                    !widget_skipped(w),
                    sn == w.selection_rects@.len(),
                    camera == w.camera->0,
                    clip == clip_of(w),
                    shift_x == w.x - w.scroll_px,
                    out@ == base + sel_prims(w, j as int),
                decreases sn - j,
            {
                let rect = w.selection_rects[j];
                let eh: i64 = if j >= 1 {
                    1
                } else {
                    0
                };
                let prim = DrawPrimitive::Rect {
                    x: sat_add_px(rect.x, shift_x),
                    y: sat_add_px(rect.y, w.y as i64),
                    w: sat_add_px(rect.w, 2),
                    h: sat_add_px(rect.h, eh),
                    color: w.style.selection_color,
                    clip,
                    camera,
                    entity: w.entity,
                    stack_index: w.stack_index,
                };
                out.push(prim);
                proof {
                    assert(prim == sel_prim(w, j as int));
                    assert(out@ =~= base + sel_prims(w, j + 1));
                }
                j = j + 1;
            }
            let ghost base2 = out@;
            let gn = w.layout.glyphs.len();
            let mut k: usize = 0;
            while k < gn
                invariant
                    k <= gn,
                    i < n,
                    n == widgets@.len(),
                    w == &widgets@[i as int],
                    !widget_skipped(w),
                    gn == w.layout.glyphs@.len(),
                    camera == w.camera->0,
                    clip == clip_of(w),
                    shift_x == w.x - w.scroll_px,
                    out@ == base2 + glyph_prims(w, k as int),
                decreases gn - k,
            {
                let g = w.layout.glyphs[k];
                let drawn = g.atlas.is_some() && g.line <= 0x7fff_ffff;
                if drawn {
                    let atlas = match g.atlas {
                        Option::Some(a) => a,
                        Option::None => GlyphAtlas {
                            texture: 0,
                            rect: GlyphRect { x: 0, y: 0, w: 0, h: 0 },
                        },
                    };
                    let selected = match w.state.selection_bounds() {
                        Option::Some((s0, s1)) => (s0.line < g.line || (g.line == s0.line
                            && s0.index <= g.index)) && (g.line < s1.line || (g.line == s1.line
                            && g.index < s1.index)),
                        Option::None => false,
                    };
                    let color = if selected {
                        match w.style.selected_text_color {
                            Option::Some(c) => c,
                            Option::None => w.text_color,
                        }
                    } else {
                        w.text_color
                    };
                    proof {
                        assert(0 <= (g.line as int) * (w.layout.line_height as int)
                            <= 0x7fff_ffff * 0xffff_ffff) by (nonlinear_arith)
                            requires
                                g.line <= 0x7fff_ffff,
                                w.layout.line_height <= 0xffff_ffff,
                        ;
                    }
                    let gy = (g.line as i64) * (w.layout.line_height as i64);
                    let prim = DrawPrimitive::Glyph {
                        x: sat_add_px(g.x as i64, shift_x),
                        y: sat_add_px(gy, w.y as i64),
                        texture: atlas.texture,
                        atlas: atlas.rect,
                        color,
                        clip,
                        camera,
                        entity: w.entity,
                        stack_index: w.stack_index,
                    };
                    out.push(prim);
                    proof {
                        assert(prim == glyph_prim(w, g));
                        assert(out@ =~= base2 + glyph_prims(w, k + 1));
                    }
                } else {
                    proof {
                        assert(out@ =~= base2 + glyph_prims(w, k + 1));
                    }
                }
                k = k + 1;
            }
            let focused = match focus {
                Option::Some(f) => f == w.entity,
                Option::None => false,
            };
            let show = focused && w.node.is_enabled && w.cursor_blink_ms
                < w.style.blink_interval_ms && w.style.cursor_color.a != 0 && w.state.cursor.line
                <= 0x7fff_ffff;
            if show {
                let cx = w.layout.cursor_x_px(w.state.cursor);
                proof {
                    assert(0 <= (w.state.cursor.line as int) * (w.layout.line_height as int)
                        <= 0x7fff_ffff * 0xffff_ffff) by (nonlinear_arith)
                        requires
                            w.state.cursor.line <= 0x7fff_ffff,
                            w.layout.line_height <= 0xffff_ffff,
                    ;
                    assert((w.layout.line_height as int) * (w.style.cursor_height_percent as int)
                        <= 0xffff_ffff * 0xffff_ffff) by (nonlinear_arith)
                        requires
                            w.layout.line_height <= 0xffff_ffff,
                            w.style.cursor_height_percent <= 0xffff_ffff,
                    ;
                }
                let cy = (w.state.cursor.line as i64) * (w.layout.line_height as i64);
                let ch = ((w.layout.line_height as u64) * (w.style.cursor_height_percent as u64)
                    / 100) as i64;
                let prim = DrawPrimitive::Rect {
                    x: sat_add_px(cx, shift_x),
                    y: sat_add_px(cy, w.y as i64),
                    w: w.style.cursor_width as i64,
                    h: ch,
                    color: w.style.cursor_color,
                    clip,
                    camera,
                    entity: w.entity,
                    stack_index: w.stack_index,
                };
                out.push(prim);
                proof {
                    assert(prim == cursor_prim(w));
                }
            }
            proof {
                assert(out@ =~= base + widget_prims(w, focus));
                assert(out@ =~= old(out)@ + nodes_prims(widgets@, focus, i + 1));
            }
        }
        i = i + 1;
    }
}

/// Extract the prompt glyphs of every widget whose buffer shows as empty,
/// whitespace-only content included: the placeholder is drawn through the
/// same glyph pipeline, in the prompt's color, and stops being emitted as
/// soon as the buffer shows content.
pub fn extract_text_input_prompts(prompts: &Vec<TextInputPromptWidget>, out: &mut Vec<
    DrawPrimitive,
>)
    ensures
        final(out)@ == old(out)@ + prompts_prims(prompts@, prompts@.len() as int),
{
    let n = prompts.len();
    let mut i: usize = 0;
    proof {
        assert(out@ =~= old(out)@ + prompts_prims(prompts@, 0));
    }
    while i < n
        invariant
            i <= n,
            n == prompts@.len(),
            out@ == old(out)@ + prompts_prims(prompts@, i as int),
        decreases n - i,
    {
        let w = &prompts[i];
        let empty = is_buffer_empty(&w.state.buffer);
        let skip = !empty || !w.visible || w.width == 0 || w.height == 0 || w.camera.is_none();
        if skip {
            proof {
                assert(prompt_prims(w) =~= Seq::<DrawPrimitive>::empty());
                assert(out@ =~= old(out)@ + prompts_prims(prompts@, i + 1));
            }
        } else {
            let ghost base = out@;
            let camera = match w.camera {
                Option::Some(c) => c,
                Option::None => 0,
            };
            let nrect = RectPx { x: w.x as i64, y: w.y as i64, w: w.width as i64, h: w.height as i64 };
            let clip = match w.clip {
                Option::Some(c) => rect_intersect_px(c, nrect),
                Option::None => nrect,
            };
            let color = match w.prompt.color {
                Option::Some(c) => c,
                Option::None => w.text_color,
            };
            let gn = w.prompt_layout.glyphs.len();
            let mut k: usize = 0;
            while k < gn
                invariant
                    k <= gn,
                    i < n,
                    n == prompts@.len(),
                    w == &prompts@[i as int],
                    !prompt_skipped(w),
                    gn == w.prompt_layout.glyphs@.len(),
                    camera == w.camera->0,
                    clip == prompt_clip_of(w),
                    color == (match w.prompt.color {
                        Option::Some(c) => c,
                        Option::None => w.text_color,
                    }),
                    out@ == base + prompt_glyph_prims(w, k as int),
                decreases gn - k,
            {
                let g = w.prompt_layout.glyphs[k];
                let drawn = g.atlas.is_some() && g.line <= 0x7fff_ffff;
                if drawn {
                    let atlas = match g.atlas {
                        Option::Some(a) => a,
                        Option::None => GlyphAtlas {
                            texture: 0,
                            rect: GlyphRect { x: 0, y: 0, w: 0, h: 0 },
                        },
                    };
                    proof {
                        assert(0 <= (g.line as int) * (w.prompt_layout.line_height as int)
                            <= 0x7fff_ffff * 0xffff_ffff) by (nonlinear_arith)
                            requires
                                g.line <= 0x7fff_ffff,
                                w.prompt_layout.line_height <= 0xffff_ffff,
                        ;
                    }
                    let gy = (g.line as i64) * (w.prompt_layout.line_height as i64);
                    let prim = DrawPrimitive::Glyph {
                        x: sat_add_px(g.x as i64, w.x as i64),
                        y: sat_add_px(gy, w.y as i64),
                        texture: atlas.texture,
                        atlas: atlas.rect,
                        color,
                        clip,
                        camera,
                        entity: w.entity,
                        stack_index: w.stack_index,
                    };
                    out.push(prim);
                    proof {
                        assert(prim == prompt_glyph_prim(w, g));
                        assert(out@ =~= base + prompt_glyph_prims(w, k + 1));
                    }
                } else {
                    proof {
                        assert(out@ =~= base + prompt_glyph_prims(w, k + 1));
                    }
                }
                k = k + 1;
            }
            proof {
                assert(out@ =~= old(out)@ + prompts_prims(prompts@, i + 1));
            }
        }
        i = i + 1;
    }
}

} // verus!
