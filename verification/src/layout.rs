//! The layout engine: a depth-first, pre-order walk of the node forest with
//! an inherited style and a monotonically advancing vertical cursor,
//! emitting absolutely positioned paint boxes. Consumers paint the boxes in
//! emission order, which encodes z-order.
//!
//! All geometry is measured in tenths of a logical unit, so the line-height
//! factor of 1.4 stays exact in integer arithmetic (the page padding of 16
//! units is `160`, the marker gutter of 24 units is `240`, and so on). The
//! vertical cursor saturates at the huge ceiling `Y_CAP`, which keeps the
//! engine total on any tree.
//!
//! The canonical constant set of this engine: page padding 16, marker
//! gutter 24, line height 1.4 times the font size, heading sizes 32/24/20
//! with margins 24/16, 20/12 and 16/8, paragraph margins 0/16, list gaps 8
//! around and 4 between items, rule geometry 8/1/8, image gap 8. Headings
//! carry no background or border decoration.
//!
//! `spec_layout` is the mathematical description of the walk; the
//! executable `layout` is proved to emit exactly that box sequence, which
//! also makes a layout pass a pure function of its arguments.

use vstd::prelude::*;
use crate::dom::{nodes_view, Node, NodeModel};
use crate::images::{ImageModel, ImageStore};
use crate::parser::{trim_text, trim_ws};
use crate::text::{str_eq, string_from_chars};
use crate::attrs::AttrMap;

verus! {

broadcast use vstd::std_specs::vec::group_vec_axioms;

// ── Geometry constants (tenths of a logical unit) ────────────────────────

/// Page padding: 16 units on all sides.
pub const PAGE_PAD: i64 = 160;

/// Width of the gutter reserved for list markers (bullet / number):
/// 24 units.
pub const MARKER_INDENT: i64 = 240;

/// The ceiling at which the vertical cursor (and the list indent)
/// saturates.
pub const Y_CAP: i64 = 0x1000_0000_0000_0000;

/// The largest accepted viewport width, far beyond any real device; keeps
/// every product in the image scaling arithmetic inside `i64`.
pub const MAX_VIEWPORT: i64 = 100_000_000;

/// The largest font size the engine ever sets (the `h1` size, 32 units).
pub const MAX_FONT: i64 = 320;

/// Color of hyperlink text.
pub const LINK_COLOR: u32 = 0x0000EE;

/// Color of horizontal rules.
pub const RULE_COLOR: u32 = 0xAAAAAA;

/// Muted color of list markers.
pub const MARKER_COLOR: u32 = 0x555555;

// ── Public types ─────────────────────────────────────────────────────────

/// The style a node inherits, derived from its parent's by
/// copy-with-override.
#[derive(Debug, Clone, Copy, PartialEq)]
pub struct Style {
    pub font_size: i64,
    pub bold: bool,
    pub italic: bool,
    /// 24-bit RGB.
    pub color: u32,
    pub underline: bool,
    /// Extra left indent relative to the page margin (for list nesting).
    pub indent: i64,
}

pub open spec fn default_style() -> Style {
    Style { font_size: 160, bold: false, italic: false, color: 0, underline: false, indent: 0 }
}

impl Default for Style {
    fn default() -> (s: Style)
        ensures
            s == default_style(),
    {
        Style { font_size: 160, bold: false, italic: false, color: 0, underline: false, indent: 0 }
    }
}

/// The bounds the engine maintains for every style it passes around.
pub open spec fn style_wf(st: Style) -> bool {
    &&& 0 <= st.font_size <= MAX_FONT
    &&& 0 <= st.indent <= Y_CAP
}

/// An absolutely positioned drawing instruction.
#[derive(Debug, PartialEq)]
pub struct LayoutBox {
    pub x: i64,
    pub y: i64,
    pub width: i64,
    pub height: i64,
    pub cmd: PaintCmd,
}

#[derive(Debug, PartialEq)]
pub enum PaintCmd {
    Text {
        content: String,
        font_size: i64,
        bold: bool,
        italic: bool,
        color: u32,
        underline: bool,
    },
    FillRect {
        color: u32,
    },
    HLine {
        color: u32,
    },
    Image {
        /// Raw RGBA8 pixel data, row-major, `img_width * img_height * 4`
        /// bytes.
        data: Vec<u8>,
        img_width: u32,
        img_height: u32,
    },
}

/// The mathematical shape of a paint box.
#[verifier::ext_equal]
pub ghost struct BoxModel {
    pub x: int,
    pub y: int,
    pub width: int,
    pub height: int,
    pub cmd: CmdModel,
}

#[verifier::ext_equal]
pub ghost enum CmdModel {
    Text {
        content: Seq<char>,
        font_size: int,
        bold: bool,
        italic: bool,
        color: u32,
        underline: bool,
    },
    FillRect {
        color: u32,
    },
    HLine {
        color: u32,
    },
    Image {
        data: Seq<u8>,
        img_width: int,
        img_height: int,
    },
}

impl View for PaintCmd {
    type V = CmdModel;

    open spec fn view(&self) -> CmdModel {
        match self {
            PaintCmd::Text { content, font_size, bold, italic, color, underline } =>
                CmdModel::Text {
                    content: content@,
                    font_size: *font_size as int,
                    bold: *bold,
                    italic: *italic,
                    color: *color,
                    underline: *underline,
                },
            PaintCmd::FillRect { color } => CmdModel::FillRect { color: *color },
            PaintCmd::HLine { color } => CmdModel::HLine { color: *color },
            PaintCmd::Image { data, img_width, img_height } => CmdModel::Image {
                data: data@,
                img_width: *img_width as int,
                img_height: *img_height as int,
            },
        }
    }
}

impl View for LayoutBox {
    type V = BoxModel;

    open spec fn view(&self) -> BoxModel {
        BoxModel {
            x: self.x as int,
            y: self.y as int,
            width: self.width as int,
            height: self.height as int,
            cmd: self.cmd@,
        }
    }
}

pub open spec fn box_views(s: Seq<LayoutBox>) -> Seq<BoxModel> {
    Seq::new(s.len(), |i: int| s[i]@)
}

/// The horizontal page geometry, fixed for a whole pass.
#[derive(Debug, Clone, Copy)]
pub struct Ctx {
    pub pad: i64,
    /// Content width: the viewport minus the padding on both sides.
    pub width: i64,
    /// Full viewport width — used for full-bleed boxes.
    pub viewport_width: i64,
}

pub open spec fn ctx_wf(ctx: Ctx) -> bool {
    &&& ctx.pad == PAGE_PAD
    &&& 0 <= ctx.viewport_width <= MAX_VIEWPORT
    &&& ctx.width == ctx.viewport_width - 2 * PAGE_PAD
}

// ── Cursor arithmetic ────────────────────────────────────────────────────

/// Advance a cursor, saturating at `Y_CAP`.
pub open spec fn spec_cap_add(y: int, d: int) -> int {
    if y + d <= Y_CAP {
        y + d
    } else {
        Y_CAP as int
    }
}

fn cap_add(y: i64, d: i64) -> (r: i64)
    requires
        0 <= y <= Y_CAP,
        0 <= d <= Y_CAP,
    ensures
        r == spec_cap_add(y as int, d as int),
        0 <= r <= Y_CAP,
{
    if y <= Y_CAP - d {
        y + d
    } else {
        Y_CAP
    }
}

/// Line height: 1.4 times the font size.
pub open spec fn spec_line_height(font_size: int) -> int {
    font_size * 14 / 10
}

fn line_height(font_size: i64) -> (h: i64)
    requires
        0 <= font_size <= MAX_FONT,
    ensures
        h == spec_line_height(font_size as int),
        0 <= h <= 448,
{
    font_size * 14 / 10
}

// ── The layout specification ─────────────────────────────────────────────

pub open spec fn spec_text_box(ctx: Ctx, y: int, st: Style, content: Seq<char>) -> BoxModel {
    BoxModel {
        x: ctx.pad + st.indent,
        y: y,
        width: ctx.width - st.indent,
        height: spec_line_height(st.font_size as int),
        cmd: CmdModel::Text {
            content: content,
            font_size: st.font_size as int,
            bold: st.bold,
            italic: st.italic,
            color: st.color,
            underline: st.underline,
        },
    }
}

pub open spec fn spec_layout_node(
    n: NodeModel,
    ctx: Ctx,
    imgs: Map<Seq<char>, ImageModel>,
    y: int,
    st: Style,
) -> (Seq<BoxModel>, int)
    decreases n, 4int,
{
    match n {
        NodeModel::Text(content) => {
            let t = trim_ws(content);
            if t.len() == 0 {
                (Seq::empty(), y)
            } else {
                (
                    seq![spec_text_box(ctx, y, st, t)],
                    spec_cap_add(y, spec_line_height(st.font_size as int)),
                )
            }
        },
        NodeModel::Element { tag, attrs, children } =>
            spec_layout_element(tag, attrs, children, ctx, imgs, y, st),
    }
}

pub open spec fn spec_layout_element(
    tag: Seq<char>,
    attrs: Map<Seq<char>, Seq<char>>,
    children: Seq<NodeModel>,
    ctx: Ctx,
    imgs: Map<Seq<char>, ImageModel>,
    y: int,
    st: Style,
) -> (Seq<BoxModel>, int)
    decreases children, 3int,
{
    if tag == "head"@ || tag == "title"@ || tag == "script"@ || tag == "style"@
        || tag == "meta"@ || tag == "link"@ {
        // Contribute nothing.
        (Seq::empty(), y)
    } else if tag == "h1"@ {
        spec_heading(children, ctx, imgs, y, st, 320, 240, 160)
    } else if tag == "h2"@ {
        spec_heading(children, ctx, imgs, y, st, 240, 200, 120)
    } else if tag == "h3"@ {
        spec_heading(children, ctx, imgs, y, st, 200, 160, 80)
    } else if tag == "p"@ {
        spec_block(children, ctx, imgs, y, st, 0, 160)
    } else if tag == "ul"@ || tag == "ol"@ {
        let inner = Style { indent: spec_cap_add_i64(st.indent as int, MARKER_INDENT as int), ..st };
        let r = spec_layout_list(
            tag == "ol"@,
            children,
            ctx,
            imgs,
            spec_cap_add(y, 80),
            inner,
            1,
        );
        (r.0, spec_cap_add(r.1, 80))
    } else if tag == "strong"@ {
        spec_layout_nodes(children, ctx, imgs, y, Style { bold: true, ..st })
    } else if tag == "em"@ {
        spec_layout_nodes(children, ctx, imgs, y, Style { italic: true, ..st })
    } else if tag == "a"@ {
        spec_layout_nodes(
            children,
            ctx,
            imgs,
            y,
            Style { color: LINK_COLOR, underline: true, ..st },
        )
    } else if tag == "br"@ {
        (Seq::empty(), spec_cap_add(y, spec_line_height(st.font_size as int)))
    } else if tag == "hr"@ {
        let mid = spec_cap_add(y, 80);
        (
            seq![
                BoxModel {
                    x: ctx.pad as int,
                    y: mid,
                    width: ctx.width as int,
                    height: 10,
                    cmd: CmdModel::HLine { color: RULE_COLOR },
                },
            ],
            spec_cap_add(mid, 90),
        )
    } else if tag == "img"@ {
        spec_layout_img(attrs, ctx, imgs, y)
    } else {
        // html, body, div, section, article, main, header, footer, span,
        // and any unrecognized tag: transparent.
        spec_layout_nodes(children, ctx, imgs, y, st)
    }
}

/// The saturating indent advance, kept within `i64`.
pub open spec fn spec_cap_add_i64(a: int, b: int) -> i64 {
    spec_cap_add(a, b) as i64
}

pub open spec fn spec_heading(
    children: Seq<NodeModel>,
    ctx: Ctx,
    imgs: Map<Seq<char>, ImageModel>,
    y: int,
    st: Style,
    font_size: i64,
    mt: int,
    mb: int,
) -> (Seq<BoxModel>, int)
    decreases children, 2int,
{
    spec_block(children, ctx, imgs, y, Style { font_size: font_size, bold: true, ..st }, mt, mb)
}

pub open spec fn spec_block(
    children: Seq<NodeModel>,
    ctx: Ctx,
    imgs: Map<Seq<char>, ImageModel>,
    y: int,
    st: Style,
    mt: int,
    mb: int,
) -> (Seq<BoxModel>, int)
    decreases children, 1int,
{
    let r = spec_layout_nodes(children, ctx, imgs, spec_cap_add(y, mt), st);
    (r.0, spec_cap_add(r.1, mb))
}

pub open spec fn spec_layout_nodes(
    cs: Seq<NodeModel>,
    ctx: Ctx,
    imgs: Map<Seq<char>, ImageModel>,
    y: int,
    st: Style,
) -> (Seq<BoxModel>, int)
    decreases cs, 0int,
{
    if cs.len() == 0 {
        (Seq::empty(), y)
    } else {
        let first = spec_layout_node(cs[0], ctx, imgs, y, st);
        let rest = spec_layout_nodes(cs.drop_first(), ctx, imgs, first.1, st);
        (first.0 + rest.0, rest.1)
    }
}

/// A decimal digit as a character.
pub open spec fn dec_digit(d: int) -> char {
    if d == 0 { '0' }
    else if d == 1 { '1' }
    else if d == 2 { '2' }
    else if d == 3 { '3' }
    else if d == 4 { '4' }
    else if d == 5 { '5' }
    else if d == 6 { '6' }
    else if d == 7 { '7' }
    else if d == 8 { '8' }
    else { '9' }
}

/// The decimal digits of a non-negative number.
pub open spec fn spec_dec_digits(n: int) -> Seq<char>
    decreases n,
{
    if n < 10 {
        seq![dec_digit(n)]
    } else {
        spec_dec_digits(n / 10) + seq![dec_digit(n % 10)]
    }
}

/// The marker text of a list item: `"{counter}."` for ordered lists, a
/// bullet glyph by nesting depth for unordered ones.
pub open spec fn spec_marker_text(is_ol: bool, counter: int, depth: int) -> Seq<char> {
    if is_ol {
        spec_dec_digits(counter) + seq!['.']
    } else if depth == 1 {
        seq!['\u{2022}']
    } else if depth == 2 {
        seq!['\u{25e6}']
    } else {
        seq!['\u{25aa}']
    }
}

/// The marker box a list item gets.
pub open spec fn spec_marker_box(ctx: Ctx, y: int, st: Style, is_ol: bool, counter: int)
    -> BoxModel {
    BoxModel {
        x: ctx.pad + st.indent - MARKER_INDENT,
        y: y,
        width: MARKER_INDENT as int,
        height: spec_line_height(st.font_size as int),
        cmd: CmdModel::Text {
            content: spec_marker_text(is_ol, counter, (st.indent + 120) / 240),
            font_size: st.font_size as int,
            bold: st.bold,
            italic: st.italic,
            color: MARKER_COLOR,
            underline: false,
        },
    }
}

/// Lay out the `li` element children of a list. Non-`li` children are
/// ignored. The 1-based counter saturates at the machine limit, as the
/// executable counter does.
pub open spec fn spec_layout_list(
    is_ol: bool,
    cs: Seq<NodeModel>,
    ctx: Ctx,
    imgs: Map<Seq<char>, ImageModel>,
    y: int,
    st: Style,
    counter: int,
) -> (Seq<BoxModel>, int)
    decreases cs, 1int,
{
    if cs.len() == 0 {
        (Seq::empty(), y)
    } else {
        match cs[0] {
            NodeModel::Element { tag, attrs, children } => {
                if tag == "li"@ {
                    let h = spec_line_height(st.font_size as int);
                    let mbox = spec_marker_box(ctx, y, st, is_ol, counter);
                    let r = spec_layout_nodes(children, ctx, imgs, y, st);
                    let floor = spec_cap_add(y, h);
                    let after = if r.1 >= floor {
                        r.1
                    } else {
                        floor
                    };
                    let next_counter = if counter < usize::MAX {
                        counter + 1
                    } else {
                        counter
                    };
                    let rest = spec_layout_list(
                        is_ol,
                        cs.drop_first(),
                        ctx,
                        imgs,
                        spec_cap_add(after, 40),
                        st,
                        next_counter,
                    );
                    (seq![mbox] + r.0 + rest.0, rest.1)
                } else {
                    spec_layout_list(is_ol, cs.drop_first(), ctx, imgs, y, st, counter)
                }
            },
            NodeModel::Text(_) => spec_layout_list(is_ol, cs.drop_first(), ctx, imgs, y, st, counter),
        }
    }
}

/// Lay out an image element: the decoded pixels come from the store, keyed
/// by the `src` attribute. A missing `src`, or a `src` with no decoded
/// image (unreadable or undecodable), is a no-op. The image is scaled down
/// proportionally if wider than the content area, and never scaled up.
pub open spec fn spec_layout_img(
    attrs: Map<Seq<char>, Seq<char>>,
    ctx: Ctx,
    imgs: Map<Seq<char>, ImageModel>,
    y: int,
) -> (Seq<BoxModel>, int) {
    if !attrs.contains_key("src"@) {
        (Seq::empty(), y)
    } else if !imgs.contains_key(attrs["src"@]) {
        (Seq::empty(), y)
    } else {
        let im = imgs[attrs["src"@]];
        let ecw = if ctx.width >= 0 { ctx.width as int } else { 0 };
        let dw = if 10 * im.width <= ecw { 10 * im.width } else { ecw };
        let dh = if 10 * im.width <= ecw { 10 * im.height } else { im.height * ecw / im.width };
        (
            seq![
                BoxModel {
                    x: ctx.pad as int,
                    y: y,
                    width: dw,
                    height: dh,
                    cmd: CmdModel::Image {
                        data: im.data,
                        img_width: im.width,
                        img_height: im.height,
                    },
                },
            ],
            spec_cap_add(y, dh + 80),
        )
    }
}

/// The boxes of a whole document: the forest is laid out from the top
/// padding down, with the default style.
pub open spec fn spec_layout(
    forest: Seq<NodeModel>,
    viewport_width: i64,
    imgs: Map<Seq<char>, ImageModel>,
) -> Seq<BoxModel> {
    let ctx = Ctx {
        pad: PAGE_PAD,
        width: (viewport_width - 2 * PAGE_PAD) as i64,
        viewport_width: viewport_width,
    };
    spec_layout_nodes(forest, ctx, imgs, PAGE_PAD as int, default_style()).0
}

// ── The executable engine ────────────────────────────────────────────────

fn dec_digit_exec(d: usize) -> (c: char)
    ensures
        c == dec_digit(d as int),
{
    if d == 0 { '0' }
    else if d == 1 { '1' }
    else if d == 2 { '2' }
    else if d == 3 { '3' }
    else if d == 4 { '4' }
    else if d == 5 { '5' }
    else if d == 6 { '6' }
    else if d == 7 { '7' }
    else if d == 8 { '8' }
    else { '9' }
}

fn dec_string(n: usize) -> (r: Vec<char>)
    ensures
        r@ == spec_dec_digits(n as int),
    decreases n,
{
    if n < 10 {
        let mut v: Vec<char> = Vec::new();
        v.push(dec_digit_exec(n));
        proof {
            assert(v@ =~= seq![dec_digit(n as int)]);
        }
        v
    } else {
        let mut v = dec_string(n / 10);
        v.push(dec_digit_exec(n % 10));
        proof {
            assert(v@ =~= spec_dec_digits(n as int / 10) + seq![dec_digit(n as int % 10)]);
        }
        v
    }
}

fn layout_node(
    node: &Node,
    ctx: Ctx,
    imgs: &ImageStore,
    boxes: &mut Vec<LayoutBox>,
    y: i64,
    style: &Style,
) -> (yy: i64)
    requires
        ctx_wf(ctx),
        style_wf(*style),
        0 <= y <= Y_CAP,
    ensures
        box_views(final(boxes)@) == box_views(old(boxes)@)
            + spec_layout_node(node@, ctx, imgs@, y as int, *style).0,
        yy as int == spec_layout_node(node@, ctx, imgs@, y as int, *style).1,
        0 <= yy <= Y_CAP,
    decreases node, 4int,
{
    match node {
        Node::Text(content) => {
            let text = trim_text(content.as_str());
            if text.unicode_len() == 0 {
                proof {
                    assert(box_views(boxes@) =~= box_views(boxes@)
                        + Seq::<BoxModel>::empty());
                }
                y
            } else {
                let h = line_height(style.font_size);
                let ghost pre = boxes@;
                boxes.push(LayoutBox {
                    x: ctx.pad + style.indent,
                    y: y,
                    width: ctx.width - style.indent,
                    height: h,
                    cmd: PaintCmd::Text {
                        content: text,
                        font_size: style.font_size,
                        bold: style.bold,
                        italic: style.italic,
                        color: style.color,
                        underline: style.underline,
                    },
                });
                proof {
                    assert(box_views(boxes@) =~= box_views(pre)
                        + seq![spec_text_box(ctx, y as int, *style, trim_ws(content@))]);
                }
                cap_add(y, h)
            }
        },
        Node::Element { tag, attrs, children } => {
            layout_element(tag, attrs, children, ctx, imgs, boxes, y, style)
        },
    }
}

fn layout_element(
    tag: &String,
    attrs: &AttrMap,
    children: &Vec<Node>,
    ctx: Ctx,
    imgs: &ImageStore,
    boxes: &mut Vec<LayoutBox>,
    y: i64,
    style: &Style,
) -> (yy: i64)
    requires
        ctx_wf(ctx),
        style_wf(*style),
        0 <= y <= Y_CAP,
    ensures
        box_views(final(boxes)@) == box_views(old(boxes)@)
            + spec_layout_element(
                tag@, attrs@, nodes_view(children@), ctx, imgs@, y as int, *style).0,
        yy as int == spec_layout_element(
            tag@, attrs@, nodes_view(children@), ctx, imgs@, y as int, *style).1,
        0 <= yy <= Y_CAP,
    decreases children@, 3int,
{
    if str_eq(tag.as_str(), "head") || str_eq(tag.as_str(), "title")
        || str_eq(tag.as_str(), "script") || str_eq(tag.as_str(), "style")
        || str_eq(tag.as_str(), "meta") || str_eq(tag.as_str(), "link") {
        // Contribute nothing.
        proof {
            assert(box_views(boxes@) =~= box_views(boxes@) + Seq::<BoxModel>::empty());
        }
        y
    } else if str_eq(tag.as_str(), "h1") {
        heading(children, ctx, imgs, boxes, y, style, 320, 240, 160)
    } else if str_eq(tag.as_str(), "h2") {
        heading(children, ctx, imgs, boxes, y, style, 240, 200, 120)
    } else if str_eq(tag.as_str(), "h3") {
        heading(children, ctx, imgs, boxes, y, style, 200, 160, 80)
    } else if str_eq(tag.as_str(), "p") {
        block(children, ctx, imgs, boxes, y, style, 0, 160)
    } else if str_eq(tag.as_str(), "ul") || str_eq(tag.as_str(), "ol") {
        let is_ol = str_eq(tag.as_str(), "ol");
        let inner = Style { indent: cap_add(style.indent, MARKER_INDENT), ..*style };
        let y1 = cap_add(y, 80);
        let y2 = layout_list(is_ol, children, ctx, imgs, boxes, y1, &inner);
        cap_add(y2, 80)
    } else if str_eq(tag.as_str(), "strong") {
        let st = Style { bold: true, ..*style };
        layout_children(children, ctx, imgs, boxes, y, &st)
    } else if str_eq(tag.as_str(), "em") {
        let st = Style { italic: true, ..*style };
        layout_children(children, ctx, imgs, boxes, y, &st)
    } else if str_eq(tag.as_str(), "a") {
        let st = Style { color: LINK_COLOR, underline: true, ..*style };
        layout_children(children, ctx, imgs, boxes, y, &st)
    } else if str_eq(tag.as_str(), "br") {
        proof {
            assert(box_views(boxes@) =~= box_views(boxes@) + Seq::<BoxModel>::empty());
        }
        cap_add(y, line_height(style.font_size))
    } else if str_eq(tag.as_str(), "hr") {
        let mid = cap_add(y, 80);
        let ghost pre = boxes@;
        boxes.push(LayoutBox {
            x: ctx.pad,
            y: mid,
            width: ctx.width,
            height: 10,
            cmd: PaintCmd::HLine { color: RULE_COLOR },
        });
        proof {
            assert(box_views(boxes@) =~= box_views(pre) + seq![
                BoxModel {
                    x: ctx.pad as int,
                    y: mid as int,
                    width: ctx.width as int,
                    height: 10,
                    cmd: CmdModel::HLine { color: RULE_COLOR },
                },
            ]);
        }
        cap_add(mid, 90)
    } else if str_eq(tag.as_str(), "img") {
        layout_img(attrs, ctx, imgs, boxes, y)
    } else {
        // html, body, div, section, article, main, header, footer, span,
        // and any unrecognized tag: transparent.
        layout_children(children, ctx, imgs, boxes, y, style)
    }
}

/// Lay out a block element with top and bottom margins.
fn block(
    children: &Vec<Node>,
    ctx: Ctx,
    imgs: &ImageStore,
    boxes: &mut Vec<LayoutBox>,
    y: i64,
    style: &Style,
    mt: i64,
    mb: i64,
) -> (yy: i64)
    requires
        ctx_wf(ctx),
        style_wf(*style),
        0 <= y <= Y_CAP,
        0 <= mt <= 240,
        0 <= mb <= 160,
    ensures
        box_views(final(boxes)@) == box_views(old(boxes)@)
            + spec_block(
                nodes_view(children@), ctx, imgs@, y as int, *style, mt as int, mb as int).0,
        yy as int == spec_block(
            nodes_view(children@), ctx, imgs@, y as int, *style, mt as int, mb as int).1,
        0 <= yy <= Y_CAP,
    decreases children@, 1int,
{
    let y1 = cap_add(y, mt);
    let y2 = layout_children(children, ctx, imgs, boxes, y1, style);
    cap_add(y2, mb)
}

/// Lay out a heading: bold, a fixed font size per level, fixed margins.
fn heading(
    children: &Vec<Node>,
    ctx: Ctx,
    imgs: &ImageStore,
    boxes: &mut Vec<LayoutBox>,
    y: i64,
    style: &Style,
    font_size: i64,
    mt: i64,
    mb: i64,
) -> (yy: i64)
    requires
        ctx_wf(ctx),
        style_wf(*style),
        0 <= y <= Y_CAP,
        0 <= font_size <= MAX_FONT,
        0 <= mt <= 240,
        0 <= mb <= 160,
    ensures
        box_views(final(boxes)@) == box_views(old(boxes)@)
            + spec_heading(
                nodes_view(children@), ctx, imgs@, y as int, *style, font_size,
                mt as int, mb as int).0,
        yy as int == spec_heading(
            nodes_view(children@), ctx, imgs@, y as int, *style, font_size,
            mt as int, mb as int).1,
        0 <= yy <= Y_CAP,
    decreases children@, 2int,
{
    let st = Style { font_size: font_size, bold: true, ..*style };
    block(children, ctx, imgs, boxes, y, &st, mt, mb)
}

fn layout_children(
    children: &Vec<Node>,
    ctx: Ctx,
    imgs: &ImageStore,
    boxes: &mut Vec<LayoutBox>,
    y: i64,
    style: &Style,
) -> (yy: i64)
    requires
        ctx_wf(ctx),
        style_wf(*style),
        0 <= y <= Y_CAP,
    ensures
        box_views(final(boxes)@) == box_views(old(boxes)@)
            + spec_layout_nodes(nodes_view(children@), ctx, imgs@, y as int, *style).0,
        yy as int == spec_layout_nodes(
            nodes_view(children@), ctx, imgs@, y as int, *style).1,
        0 <= yy <= Y_CAP,
    decreases children@, 0int,
{
    let ghost all = nodes_view(children@);
    let ghost base = boxes@;
    let ghost m = imgs@;
    let ghost y0 = y as int;
    proof {
        assert(all.skip(0) =~= all);
    }
    let mut y_cur = y;
    let mut i: usize = 0;
    while i < children.len()
        invariant
            ctx_wf(ctx),
            style_wf(*style),
            i <= children@.len(),
            0 <= y_cur <= Y_CAP,
            all == nodes_view(children@),
            m == imgs@,
            box_views(base) + spec_layout_nodes(all, ctx, m, y0, *style).0
                == box_views(boxes@)
                    + spec_layout_nodes(all.skip(i as int), ctx, m, y_cur as int, *style).0,
            spec_layout_nodes(all, ctx, m, y0, *style).1
                == spec_layout_nodes(all.skip(i as int), ctx, m, y_cur as int, *style).1,
        decreases children@.len() - i,
    {
        let ghost pre = boxes@;
        let ghost tail = all.skip(i as int);
        proof {
            assert(all.len() == children@.len());
            assert(tail[0] == all[i as int]);
            assert(all[i as int] == children@[i as int]@);
            assert(tail.drop_first() =~= all.skip(i as int + 1));
        }
        let y2 = layout_node(&children[i], ctx, imgs, boxes, y_cur, style);
        proof {
            let first = spec_layout_node(all[i as int], ctx, m, y_cur as int, *style);
            let restb = spec_layout_nodes(
                all.skip(i as int + 1), ctx, m, y2 as int, *style).0;
            assert((box_views(pre) + first.0) + restb
                =~= box_views(pre) + (first.0 + restb));
        }
        y_cur = y2;
        i = i + 1;
    }
    proof {
        assert(all.skip(all.len() as int) =~= Seq::<NodeModel>::empty());
        assert(box_views(boxes@) + Seq::<BoxModel>::empty() =~= box_views(boxes@));
    }
    y_cur
}

fn layout_list(
    is_ol: bool,
    children: &Vec<Node>,
    ctx: Ctx,
    imgs: &ImageStore,
    boxes: &mut Vec<LayoutBox>,
    y: i64,
    style: &Style,
) -> (yy: i64)
    requires
        ctx_wf(ctx),
        style_wf(*style),
        0 <= y <= Y_CAP,
    ensures
        box_views(final(boxes)@) == box_views(old(boxes)@)
            + spec_layout_list(
                is_ol, nodes_view(children@), ctx, imgs@, y as int, *style, 1).0,
        yy as int == spec_layout_list(
            is_ol, nodes_view(children@), ctx, imgs@, y as int, *style, 1).1,
        0 <= yy <= Y_CAP,
    decreases children@, 1int,
{
    let ghost all = nodes_view(children@);
    let ghost base = boxes@;
    let ghost m = imgs@;
    let ghost y0 = y as int;
    proof {
        assert(all.skip(0) =~= all);
    }
    let mut y_cur = y;
    let mut counter: usize = 1;
    let mut i: usize = 0;
    while i < children.len()
        invariant
            ctx_wf(ctx),
            style_wf(*style),
            i <= children@.len(),
            0 <= y_cur <= Y_CAP,
            1 <= counter,
            all == nodes_view(children@),
            m == imgs@,
            box_views(base) + spec_layout_list(is_ol, all, ctx, m, y0, *style, 1).0
                == box_views(boxes@) + spec_layout_list(
                    is_ol, all.skip(i as int), ctx, m, y_cur as int, *style,
                    counter as int).0,
            spec_layout_list(is_ol, all, ctx, m, y0, *style, 1).1
                == spec_layout_list(
                    is_ol, all.skip(i as int), ctx, m, y_cur as int, *style,
                    counter as int).1,
        decreases children@.len() - i,
    {
        let ghost pre = boxes@;
        let ghost tail = all.skip(i as int);
        proof {
            assert(all.len() == children@.len());
            assert(tail[0] == all[i as int]);
            assert(all[i as int] == children@[i as int]@);
            assert(tail.drop_first() =~= all.skip(i as int + 1));
        }
        match &children[i] {
            Node::Element { tag, attrs: _, children: li_children } => {
                if str_eq(tag.as_str(), "li") {
                    // Nesting depth picks the bullet glyph tier.
                    let depth = (style.indent + 120) / 240;
                    let h = line_height(style.font_size);
                    let marker: String = if is_ol {
                        let mut digits = dec_string(counter);
                        digits.push('.');
                        proof {
                            assert(digits@ =~= spec_dec_digits(counter as int)
                                + seq!['.']);
                        }
                        string_from_chars(&digits)
                    } else if depth == 1 {
                        let mut v: Vec<char> = Vec::new();
                        v.push('\u{2022}');
                        proof {
                            assert(v@ =~= seq!['\u{2022}']);
                        }
                        string_from_chars(&v)
                    } else if depth == 2 {
                        let mut v: Vec<char> = Vec::new();
                        v.push('\u{25e6}');
                        proof {
                            assert(v@ =~= seq!['\u{25e6}']);
                        }
                        string_from_chars(&v)
                    } else {
                        let mut v: Vec<char> = Vec::new();
                        v.push('\u{25aa}');
                        proof {
                            assert(v@ =~= seq!['\u{25aa}']);
                        }
                        string_from_chars(&v)
                    };
                    proof {
                        assert(marker@ == spec_marker_text(
                            is_ol, counter as int, depth as int));
                    }
                    // The marker sits in the gutter to the left of content.
                    boxes.push(LayoutBox {
                        x: ctx.pad + style.indent - MARKER_INDENT,
                        y: y_cur,
                        width: MARKER_INDENT,
                        height: h,
                        cmd: PaintCmd::Text {
                            content: marker,
                            font_size: style.font_size,
                            bold: style.bold,
                            italic: style.italic,
                            color: MARKER_COLOR,
                            underline: false,
                        },
                    });
                    let ghost mboxes = boxes@;
                    let after = layout_children(li_children, ctx, imgs, boxes, y_cur, style);
                    // Advance by at least one line height, then the
                    // inter-item gap.
                    let floor = cap_add(y_cur, h);
                    let amax = if after >= floor { after } else { floor };
                    let y2 = cap_add(amax, 40);
                    proof {
                        let r = spec_layout_nodes(
                            nodes_view(li_children@), ctx, m, y_cur as int, *style);
                        let rest0 = spec_layout_list(
                            is_ol, all.skip(i as int + 1), ctx, m, y2 as int, *style,
                            if counter < usize::MAX { counter as int + 1 } else { counter as int }).0;
                        assert(box_views(mboxes) =~= box_views(pre)
                            + seq![spec_marker_box(ctx, y_cur as int, *style, is_ol,
                                counter as int)]);
                        assert(box_views(boxes@) == box_views(pre)
                            + seq![spec_marker_box(ctx, y_cur as int, *style, is_ol,
                                counter as int)] + r.0);
                        assert((box_views(pre)
                            + seq![spec_marker_box(ctx, y_cur as int, *style, is_ol,
                                counter as int)] + r.0) + rest0
                            =~= box_views(pre)
                                + ((seq![spec_marker_box(ctx, y_cur as int, *style, is_ol,
                                    counter as int)] + r.0) + rest0));
                    }
                    y_cur = y2;
                    if counter < usize::MAX {
                        counter = counter + 1;
                    }
                }
            },
            Node::Text(_) => {},
        }
        i = i + 1;
    }
    proof {
        assert(all.skip(all.len() as int) =~= Seq::<NodeModel>::empty());
        assert(box_views(boxes@) + Seq::<BoxModel>::empty() =~= box_views(boxes@));
    }
    y_cur
}

fn layout_img(
    attrs: &AttrMap,
    ctx: Ctx,
    imgs: &ImageStore,
    boxes: &mut Vec<LayoutBox>,
    y: i64,
) -> (yy: i64)
    requires
        ctx_wf(ctx),
        0 <= y <= Y_CAP,
    ensures
        box_views(final(boxes)@) == box_views(old(boxes)@)
            + spec_layout_img(attrs@, ctx, imgs@, y as int).0,
        yy as int == spec_layout_img(attrs@, ctx, imgs@, y as int).1,
        0 <= yy <= Y_CAP,
{
    let src = match attrs.get("src") {
        Some(s) => s,
        None => {
            proof {
                assert(box_views(boxes@) =~= box_views(boxes@)
                    + Seq::<BoxModel>::empty());
            }
            return y;
        },
    };
    let img = match imgs.get(src.as_str()) {
        Some(d) => d,
        None => {
            // Unreadable or undecodable image: skipped, layout continues.
            proof {
                assert(box_views(boxes@) =~= box_views(boxes@)
                    + Seq::<BoxModel>::empty());
            }
            return y;
        },
    };
    let iw = img.width as i64;
    let ih = img.height as i64;
    let ecw = if ctx.width >= 0 { ctx.width } else { 0 };
    // Scale down proportionally if wider than the content area; never
    // scale up.
    let dw: i64;
    let dh: i64;
    if 10 * iw <= ecw {
        dw = 10 * iw;
        dh = 10 * ih;
    } else {
        proof {
            assert(ih * ecw <= 4294967295i64 * 100000000i64) by (nonlinear_arith)
                requires
                    0 <= ih <= 4294967295i64,
                    0 <= ecw <= 100000000i64,
            ;
            assert(ih * ecw >= 0) by (nonlinear_arith)
                requires
                    0 <= ih,
                    0 <= ecw,
            ;
        }
        dw = ecw;
        let num = ih * ecw;
        dh = num / iw;
        proof {
            assert(num / iw <= num) by (nonlinear_arith)
                requires
                    0 <= num,
                    1 <= iw,
            ;
        }
    }
    let data = img.data_clone();
    let ghost pre = boxes@;
    boxes.push(LayoutBox {
        x: ctx.pad,
        y: y,
        width: dw,
        height: dh,
        cmd: PaintCmd::Image { data, img_width: img.width, img_height: img.height },
    });
    proof {
        assert(box_views(boxes@) =~= box_views(pre)
            + spec_layout_img(attrs@, ctx, imgs@, y as int).0);
    }
    cap_add(y, dh + 80)
}

/// Lay out a whole document forest for a viewport width (in tenths of a
/// logical unit), with the decoded images the caller gathered. A pure
/// function of its arguments: the same forest, width and images always
/// yield the same boxes.
pub fn layout(nodes: &Vec<Node>, viewport_width: i64, images: &ImageStore)
    -> (boxes: Vec<LayoutBox>)
    requires
        0 <= viewport_width <= MAX_VIEWPORT,
    ensures
        box_views(boxes@) == spec_layout(nodes_view(nodes@), viewport_width, images@),
{
    let ctx = Ctx {
        pad: PAGE_PAD,
        width: viewport_width - 2 * PAGE_PAD,
        viewport_width: viewport_width,
    };
    let mut boxes: Vec<LayoutBox> = Vec::new();
    let style = Style::default();
    proof {
        assert(box_views(boxes@) =~= Seq::<BoxModel>::empty());
    }
    let _doc_end: i64 = layout_children(nodes, ctx, images, &mut boxes, PAGE_PAD, &style);
    proof {
        assert(Seq::<BoxModel>::empty()
            + spec_layout_nodes(nodes_view(nodes@), ctx, images@, PAGE_PAD as int,
                default_style()).0
            =~= spec_layout(nodes_view(nodes@), viewport_width, images@));
    }
    boxes
}

} // verus!
