//! Laws of the pipeline, proved of its specifications.
//!
//! For the tree builder: an unmatched close tag is a no-op on the whole
//! stream, a matching one collapses the frames above it in LIFO order, and
//! self-closing and void open tags are interchangeable. For the layout
//! engine: the vertical cursor is monotone — for any document, the emitted
//! boxes appear at non-decreasing vertical offsets — and an image is never
//! scaled up.

use vstd::prelude::*;
use crate::dom::{
    build_step, collapse_above, find_match, frame_to_node, init_stack,
    lemma_find_match_range, nest_from, pop_frame, push_child, spec_build_tree,
    spec_is_void, stack_after, FrameModel, NodeModel,
};
use crate::parser::TokenModel;
use crate::images::{imgs_wf, ImageModel};
use crate::layout::{
    default_style, spec_block, spec_cap_add, spec_heading, spec_layout,
    spec_layout_element, spec_layout_img, spec_layout_list, spec_layout_node,
    spec_layout_nodes, spec_line_height, style_wf, BoxModel, Ctx, Style, MARKER_INDENT,
    MAX_FONT, PAGE_PAD, Y_CAP,
};

verus! {

// ── Laws of the tree builder ─────────────────────────────────────────────

/// Tokens folded over a starting stack, first token first.
spec fn fold_steps(stack: Seq<FrameModel>, ts: Seq<TokenModel>) -> Seq<FrameModel>
    decreases ts.len(),
{
    if ts.len() == 0 {
        stack
    } else {
        fold_steps(build_step(stack, ts[0]), ts.drop_first())
    }
}

proof fn lemma_fold_steps_push(stack: Seq<FrameModel>, ts: Seq<TokenModel>, t: TokenModel)
    ensures
        fold_steps(stack, ts.push(t)) == build_step(fold_steps(stack, ts), t),
    decreases ts.len(),
{
    reveal_with_fuel(fold_steps, 3);
    if ts.len() == 0 {
        assert(ts.push(t)[0] == t);
        assert(ts.push(t).drop_first() =~= Seq::<TokenModel>::empty());
    } else {
        assert(ts.push(t)[0] == ts[0]);
        assert(ts.push(t).drop_first() =~= ts.drop_first().push(t));
        lemma_fold_steps_push(build_step(stack, ts[0]), ts.drop_first(), t);
    }
}

proof fn lemma_stack_after_is_fold(ts: Seq<TokenModel>, i: int)
    requires
        0 <= i <= ts.len(),
    ensures
        stack_after(ts, i) == fold_steps(init_stack(), ts.take(i)),
    decreases i,
{
    if i == 0 {
        assert(ts.take(0) =~= Seq::<TokenModel>::empty());
    } else {
        lemma_stack_after_is_fold(ts, i - 1);
        assert(ts.take(i) =~= ts.take(i - 1).push(ts[i - 1]));
        lemma_fold_steps_push(init_stack(), ts.take(i - 1), ts[i - 1]);
    }
}

proof fn lemma_fold_steps_concat(
    stack: Seq<FrameModel>,
    a: Seq<TokenModel>,
    b: Seq<TokenModel>,
)
    ensures
        fold_steps(stack, a + b) == fold_steps(fold_steps(stack, a), b),
    decreases a.len(),
{
    if a.len() == 0 {
        assert(a + b =~= b);
    } else {
        assert((a + b)[0] == a[0]);
        assert((a + b).drop_first() =~= a.drop_first() + b);
        lemma_fold_steps_concat(build_step(stack, a[0]), a.drop_first(), b);
    }
}

/// An unmatched close tag is a no-op: if, after the tokens before it, no
/// open frame bears its name, removing it from the stream leaves the built
/// forest unchanged.
pub proof fn lemma_unmatched_close_is_noop(
    ts1: Seq<TokenModel>,
    name: Seq<char>,
    ts2: Seq<TokenModel>,
)
    requires
        find_match(stack_after(ts1, ts1.len() as int), name) is None,
    ensures
        spec_build_tree(ts1 + seq![TokenModel::CloseTag(name)] + ts2)
            == spec_build_tree(ts1 + ts2),
{
    reveal_with_fuel(fold_steps, 3);
    let c = TokenModel::CloseTag(name);
    let full = ts1 + seq![c] + ts2;
    let without = ts1 + ts2;
    let mid = fold_steps(init_stack(), ts1);

    lemma_stack_after_is_fold(ts1, ts1.len() as int);
    assert(ts1.take(ts1.len() as int) =~= ts1);
    assert(build_step(mid, c) == mid);

    lemma_fold_steps_concat(init_stack(), ts1 + seq![c], ts2);
    lemma_fold_steps_concat(init_stack(), ts1, seq![c]);
    assert(seq![c].drop_first() =~= Seq::<TokenModel>::empty());
    assert(fold_steps(mid, seq![c]) == mid);
    lemma_fold_steps_concat(init_stack(), ts1, ts2);
    assert(fold_steps(init_stack(), full) == fold_steps(init_stack(), without));

    lemma_stack_after_is_fold(full, full.len() as int);
    assert(full.take(full.len() as int) =~= full);
    lemma_stack_after_is_fold(without, without.len() as int);
    assert(without.take(without.len() as int) =~= without);
}

/// A doctype token anywhere in the stream leaves the built forest
/// unchanged.
pub proof fn lemma_doctype_is_noop(ts1: Seq<TokenModel>, ts2: Seq<TokenModel>)
    ensures
        spec_build_tree(ts1 + seq![TokenModel::Doctype] + ts2)
            == spec_build_tree(ts1 + ts2),
{
    reveal_with_fuel(fold_steps, 3);
    let c = TokenModel::Doctype;
    let full = ts1 + seq![c] + ts2;
    let without = ts1 + ts2;
    let mid = fold_steps(init_stack(), ts1);

    assert(build_step(mid, c) == mid);
    lemma_fold_steps_concat(init_stack(), ts1 + seq![c], ts2);
    lemma_fold_steps_concat(init_stack(), ts1, seq![c]);
    assert(seq![c].drop_first() =~= Seq::<TokenModel>::empty());
    assert(fold_steps(mid, seq![c]) == mid);
    lemma_fold_steps_concat(init_stack(), ts1, ts2);
    assert(fold_steps(init_stack(), full) == fold_steps(init_stack(), without));

    lemma_stack_after_is_fold(full, full.len() as int);
    assert(full.take(full.len() as int) =~= full);
    lemma_stack_after_is_fold(without, without.len() as int);
    assert(without.take(without.len() as int) =~= without);
}

proof fn lemma_nest_pop(stack: Seq<FrameModel>, k: int)
    requires
        0 <= k <= stack.len() - 2,
    ensures
        nest_from(pop_frame(stack), k) == nest_from(stack, k),
    decreases stack.len() - k,
{
    let p = pop_frame(stack);
    assert(p.len() == stack.len() - 1);
    if k == stack.len() - 2 {
        assert(p[k] == FrameModel {
            children: stack[k].children.push(frame_to_node(stack[stack.len() - 1])),
            ..stack[k]
        });
        assert(nest_from(stack, k + 1) == stack[stack.len() - 1]);
    } else {
        assert(p[k] == stack[k]);
        lemma_nest_pop(stack, k + 1);
    }
}

proof fn lemma_collapse_nest(stack: Seq<FrameModel>, pos: int)
    requires
        0 <= pos < stack.len(),
    ensures
        collapse_above(stack, pos)
            == stack.take(pos + 1).update(pos, nest_from(stack, pos)),
    decreases stack.len(),
{
    if stack.len() >= 2 && stack.len() > pos + 1 {
        lemma_nest_pop(stack, pos);
        lemma_collapse_nest(pop_frame(stack), pos);
        assert(pop_frame(stack).take(pos + 1).update(pos, nest_from(stack, pos))
            =~= stack.take(pos + 1).update(pos, nest_from(stack, pos)));
    } else {
        assert(stack.take(pos + 1).update(pos, stack[pos]) =~= stack);
    }
}

/// The implicit-closing law: a close tag whose name matches the frame at
/// `pos` (the topmost such frame) folds every frame above `pos` in first,
/// in LIFO order — each later frame becomes the last child of the frame
/// beneath it, so elements opened after `pos` end up nested inside, not
/// after — and the completed element at `pos` is then appended to the
/// children of its parent. Frames below `pos` keep their places.
pub proof fn lemma_close_tag_collapses_lifo(
    stack: Seq<FrameModel>,
    name: Seq<char>,
    pos: int,
)
    requires
        find_match(stack, name) == Some(pos),
    ensures
        1 <= pos < stack.len(),
        nest_from(stack, pos).tag == name,
        build_step(stack, TokenModel::CloseTag(name))
            == push_child(stack.take(pos), frame_to_node(nest_from(stack, pos))),
{
    lemma_find_match_range(stack, name);
    lemma_collapse_nest(stack, pos);
    let c = collapse_above(stack, pos);
    assert(c.drop_last() =~= stack.take(pos));
    assert(c.last() == nest_from(stack, pos));
    if pos < stack.len() - 1 {
        assert(nest_from(stack, pos).tag == stack[pos].tag);
    }
}

// ── Laws of the layout engine ────────────────────────────────────────────

/// Every box sits between the two cursors, and they never go backwards.
pub open spec fn boxes_between(bs: Seq<BoxModel>, y0: int, y1: int) -> bool {
    &&& y0 <= y1
    &&& forall|k: int| 0 <= k < bs.len() ==> y0 <= (#[trigger] bs[k]).y <= y1
    &&& forall|k: int, l: int|
        0 <= k < l < bs.len() ==> (#[trigger] bs[k]).y <= (#[trigger] bs[l]).y
}

proof fn lemma_between_concat(s1: Seq<BoxModel>, s2: Seq<BoxModel>, y0: int, m: int, y1: int)
    requires
        boxes_between(s1, y0, m),
        boxes_between(s2, m, y1),
    ensures
        boxes_between(s1 + s2, y0, y1),
{
    let s = s1 + s2;
    assert forall|k: int| 0 <= k < s.len() implies y0 <= (#[trigger] s[k]).y <= y1 by {
        if k < s1.len() {
            assert(s[k] == s1[k]);
        } else {
            assert(s[k] == s2[k - s1.len()]);
        }
    }
    assert forall|k: int, l: int| 0 <= k < l < s.len()
        implies (#[trigger] s[k]).y <= (#[trigger] s[l]).y by {
        if l < s1.len() {
            assert(s[k] == s1[k] && s[l] == s1[l]);
        } else if k >= s1.len() {
            assert(s[k] == s2[k - s1.len()] && s[l] == s2[l - s1.len()]);
        } else {
            assert(s[k] == s1[k] && s[l] == s2[l - s1.len()]);
        }
    }
}

proof fn lemma_between_widen(bs: Seq<BoxModel>, y0: int, y1: int, z0: int, z1: int)
    requires
        boxes_between(bs, y0, y1),
        z0 <= y0,
        y1 <= z1,
    ensures
        boxes_between(bs, z0, z1),
{
}

proof fn lemma_node_monotone(
    n: NodeModel,
    ctx: Ctx,
    imgs: Map<Seq<char>, ImageModel>,
    y: int,
    st: Style,
)
    requires
        style_wf(st),
        0 <= y <= Y_CAP,
        imgs_wf(imgs),
    ensures
        ({
            let r = spec_layout_node(n, ctx, imgs, y, st);
            boxes_between(r.0, y, r.1) && r.1 <= Y_CAP
        }),
    decreases n, 4int,
{
    match n {
        NodeModel::Text(_) => {
        },
        NodeModel::Element { tag, attrs, children } => {
            lemma_element_monotone(tag, attrs, children, ctx, imgs, y, st);
        },
    }
}

proof fn lemma_element_monotone(
    tag: Seq<char>,
    attrs: Map<Seq<char>, Seq<char>>,
    children: Seq<NodeModel>,
    ctx: Ctx,
    imgs: Map<Seq<char>, ImageModel>,
    y: int,
    st: Style,
)
    requires
        style_wf(st),
        0 <= y <= Y_CAP,
        imgs_wf(imgs),
    ensures
        ({
            let r = spec_layout_element(tag, attrs, children, ctx, imgs, y, st);
            boxes_between(r.0, y, r.1) && r.1 <= Y_CAP
        }),
    decreases children, 3int,
{
    let r = spec_layout_element(tag, attrs, children, ctx, imgs, y, st);
    if tag == "head"@ || tag == "title"@ || tag == "script"@ || tag == "style"@
        || tag == "meta"@ || tag == "link"@ {
    } else if tag == "h1"@ {
        lemma_heading_monotone(children, ctx, imgs, y, st, 320, 240, 160);
    } else if tag == "h2"@ {
        lemma_heading_monotone(children, ctx, imgs, y, st, 240, 200, 120);
    } else if tag == "h3"@ {
        lemma_heading_monotone(children, ctx, imgs, y, st, 200, 160, 80);
    } else if tag == "p"@ {
        lemma_block_monotone(children, ctx, imgs, y, st, 0, 160);
    } else if tag == "ul"@ || tag == "ol"@ {
        let inner = Style {
            indent: crate::layout::spec_cap_add_i64(st.indent as int, MARKER_INDENT as int),
            ..st
        };
        let y1 = spec_cap_add(y, 80);
        lemma_list_monotone(tag == "ol"@, children, ctx, imgs, y1, inner, 1);
        let lr = spec_layout_list(tag == "ol"@, children, ctx, imgs, y1, inner, 1);
        lemma_between_widen(lr.0, y1, lr.1, y, spec_cap_add(lr.1, 80));
    } else if tag == "strong"@ {
        lemma_nodes_monotone(children, ctx, imgs, y, Style { bold: true, ..st });
    } else if tag == "em"@ {
        lemma_nodes_monotone(children, ctx, imgs, y, Style { italic: true, ..st });
    } else if tag == "a"@ {
        lemma_nodes_monotone(
            children,
            ctx,
            imgs,
            y,
            Style { color: crate::layout::LINK_COLOR, underline: true, ..st },
        );
    } else if tag == "br"@ {
    } else if tag == "hr"@ {
    } else if tag == "img"@ {
        lemma_img_monotone(attrs, ctx, imgs, y);
    } else {
        lemma_nodes_monotone(children, ctx, imgs, y, st);
    }
}

proof fn lemma_heading_monotone(
    children: Seq<NodeModel>,
    ctx: Ctx,
    imgs: Map<Seq<char>, ImageModel>,
    y: int,
    st: Style,
    font_size: i64,
    mt: int,
    mb: int,
)
    requires
        style_wf(st),
        0 <= y <= Y_CAP,
        imgs_wf(imgs),
        0 <= font_size <= MAX_FONT,
        0 <= mt,
        0 <= mb,
    ensures
        ({
            let r = spec_heading(children, ctx, imgs, y, st, font_size, mt, mb);
            boxes_between(r.0, y, r.1) && r.1 <= Y_CAP
        }),
    decreases children, 2int,
{
    lemma_block_monotone(
        children,
        ctx,
        imgs,
        y,
        Style { font_size: font_size, bold: true, ..st },
        mt,
        mb,
    );
}

proof fn lemma_block_monotone(
    children: Seq<NodeModel>,
    ctx: Ctx,
    imgs: Map<Seq<char>, ImageModel>,
    y: int,
    st: Style,
    mt: int,
    mb: int,
)
    requires
        style_wf(st),
        0 <= y <= Y_CAP,
        imgs_wf(imgs),
        0 <= mt,
        0 <= mb,
    ensures
        ({
            let r = spec_block(children, ctx, imgs, y, st, mt, mb);
            boxes_between(r.0, y, r.1) && r.1 <= Y_CAP
        }),
    decreases children, 1int,
{
    let y1 = spec_cap_add(y, mt);
    lemma_nodes_monotone(children, ctx, imgs, y1, st);
    let r = spec_layout_nodes(children, ctx, imgs, y1, st);
    lemma_between_widen(r.0, y1, r.1, y, spec_cap_add(r.1, mb));
}

proof fn lemma_nodes_monotone(
    cs: Seq<NodeModel>,
    ctx: Ctx,
    imgs: Map<Seq<char>, ImageModel>,
    y: int,
    st: Style,
)
    requires
        style_wf(st),
        0 <= y <= Y_CAP,
        imgs_wf(imgs),
    ensures
        ({
            let r = spec_layout_nodes(cs, ctx, imgs, y, st);
            boxes_between(r.0, y, r.1) && r.1 <= Y_CAP
        }),
    decreases cs, 0int,
{
    if cs.len() > 0 {
        lemma_node_monotone(cs[0], ctx, imgs, y, st);
        let first = spec_layout_node(cs[0], ctx, imgs, y, st);
        lemma_nodes_monotone(cs.drop_first(), ctx, imgs, first.1, st);
        let rest = spec_layout_nodes(cs.drop_first(), ctx, imgs, first.1, st);
        lemma_between_concat(first.0, rest.0, y, first.1, rest.1);
    }
}

proof fn lemma_list_monotone(
    is_ol: bool,
    cs: Seq<NodeModel>,
    ctx: Ctx,
    imgs: Map<Seq<char>, ImageModel>,
    y: int,
    st: Style,
    counter: int,
)
    requires
        style_wf(st),
        0 <= y <= Y_CAP,
        imgs_wf(imgs),
    ensures
        ({
            let r = spec_layout_list(is_ol, cs, ctx, imgs, y, st, counter);
            boxes_between(r.0, y, r.1) && r.1 <= Y_CAP
        }),
    decreases cs, 1int,
{
    if cs.len() > 0 {
        match cs[0] {
            NodeModel::Element { tag, attrs, children } => {
                if tag == "li"@ {
                    let h = spec_line_height(st.font_size as int);
                    lemma_nodes_monotone(children, ctx, imgs, y, st);
                    let r = spec_layout_nodes(children, ctx, imgs, y, st);
                    let floor = spec_cap_add(y, h);
                    let after = if r.1 >= floor { r.1 } else { floor };
                    let y2 = spec_cap_add(after, 40);
                    let next_counter = if counter < usize::MAX { counter + 1 } else { counter };
                    lemma_list_monotone(
                        is_ol, cs.drop_first(), ctx, imgs, y2, st, next_counter);
                    let rest = spec_layout_list(
                        is_ol, cs.drop_first(), ctx, imgs, y2, st, next_counter);
                    let mb = spec_layout_list(is_ol, cs, ctx, imgs, y, st, counter).0[0];
                    lemma_between_widen(r.0, y, r.1, y, y2);
                    lemma_between_concat(r.0, rest.0, y, y2, rest.1);
                    assert(boxes_between(seq![mb], y, y));
                    lemma_between_concat(seq![mb], r.0 + rest.0, y, y, rest.1);
                    assert(seq![mb] + (r.0 + rest.0) =~= (seq![mb] + r.0) + rest.0);
                } else {
                    lemma_list_monotone(is_ol, cs.drop_first(), ctx, imgs, y, st, counter);
                }
            },
            NodeModel::Text(_) => {
                lemma_list_monotone(is_ol, cs.drop_first(), ctx, imgs, y, st, counter);
            },
        }
    }
}

proof fn lemma_img_monotone(
    attrs: Map<Seq<char>, Seq<char>>,
    ctx: Ctx,
    imgs: Map<Seq<char>, ImageModel>,
    y: int,
)
    requires
        0 <= y <= Y_CAP,
        imgs_wf(imgs),
    ensures
        ({
            let r = spec_layout_img(attrs, ctx, imgs, y);
            boxes_between(r.0, y, r.1) && r.1 <= Y_CAP
        }),
{
    if attrs.contains_key("src"@) && imgs.contains_key(attrs["src"@]) {
        let im = imgs[attrs["src"@]];
        let ecw = if ctx.width >= 0 { ctx.width as int } else { 0 };
        if !(10 * im.width <= ecw) {
            assert(im.height * ecw >= 0) by (nonlinear_arith)
                requires
                    0 <= im.height,
                    0 <= ecw,
            ;
            assert(im.height * ecw / im.width >= 0) by (nonlinear_arith)
                requires
                    0 <= im.height * ecw,
                    1 <= im.width,
            ;
        }
    }
}

/// The monotonic cursor law: for any document forest, viewport width and
/// image set, the emitted boxes sit at non-decreasing vertical offsets, and
/// none sits above the top page padding.
pub proof fn lemma_layout_monotone(
    forest: Seq<NodeModel>,
    viewport_width: i64,
    imgs: Map<Seq<char>, ImageModel>,
)
    requires
        imgs_wf(imgs),
    ensures
        ({
            let bs = spec_layout(forest, viewport_width, imgs);
            &&& forall|k: int, l: int|
                0 <= k < l < bs.len() ==> (#[trigger] bs[k]).y <= (#[trigger] bs[l]).y
            &&& forall|k: int| 0 <= k < bs.len() ==> (#[trigger] bs[k]).y >= PAGE_PAD
        }),
{
    let ctx = Ctx {
        pad: PAGE_PAD,
        width: (viewport_width - 2 * PAGE_PAD) as i64,
        viewport_width: viewport_width,
    };
    lemma_nodes_monotone(forest, ctx, imgs, PAGE_PAD as int, default_style());
}

/// Self-closing and void open tags are interchangeable to the tree
/// builder: for a void tag, the builder appends the same childless element
/// whether or not the token carried the self-closing flag.
pub proof fn lemma_void_self_closing_equiv(
    stack: Seq<FrameModel>,
    name: Seq<char>,
    attrs: Map<Seq<char>, Seq<char>>,
)
    requires
        spec_is_void(name),
    ensures
        build_step(stack, TokenModel::OpenTag { name, attrs, self_closing: true })
            == build_step(stack, TokenModel::OpenTag { name, attrs, self_closing: false }),
{
}

/// Each of the first three nesting tiers of an unordered list paints its
/// own bullet glyph, so a list nested inside another is visibly distinct.
pub proof fn lemma_nested_list_markers_differ(counter: int)
    ensures
        crate::layout::spec_marker_text(false, counter, 1)
            != crate::layout::spec_marker_text(false, counter, 2),
        crate::layout::spec_marker_text(false, counter, 2)
            != crate::layout::spec_marker_text(false, counter, 3),
        crate::layout::spec_marker_text(false, counter, 1)
            != crate::layout::spec_marker_text(false, counter, 3),
{
    assert(crate::layout::spec_marker_text(false, counter, 1)[0] == '\u{2022}');
    assert(crate::layout::spec_marker_text(false, counter, 2)[0] == '\u{25e6}');
    assert(crate::layout::spec_marker_text(false, counter, 3)[0] == '\u{25aa}');
}

/// An image narrower than the content area is never scaled up: the emitted
/// box keeps the intrinsic pixel size.
pub proof fn lemma_image_never_upscaled(
    attrs: Map<Seq<char>, Seq<char>>,
    ctx: Ctx,
    imgs: Map<Seq<char>, ImageModel>,
    y: int,
)
    requires
        attrs.contains_key("src"@),
        imgs.contains_key(attrs["src"@]),
        0 <= imgs[attrs["src"@]].width,
        10 * imgs[attrs["src"@]].width <= ctx.width,
    ensures
        ({
            let r = spec_layout_img(attrs, ctx, imgs, y);
            let im = imgs[attrs["src"@]];
            &&& r.0.len() == 1
            &&& r.0[0].width == 10 * im.width
            &&& r.0[0].height == 10 * im.height
        }),
{
}

} // verus!
