//! The tree builder: reconstructs a forest of element/text nodes from the
//! flat token stream, recovering from malformed nesting with an explicit
//! open-element stack. Total: stray close tags are dropped, unclosed tags
//! are flushed into their parents at end of input.
//!
//! The specification is a step function over a stack of frames
//! (`build_step`), folded over the tokens (`stack_after`) and flushed at
//! the end (`flush_stack`); the executable `build_tree` is proved to
//! produce exactly `spec_build_tree` of its input.

use vstd::prelude::*;
use crate::attrs::AttrMap;
use crate::parser::{token_views, Token, TokenModel};
use crate::text::str_eq;

verus! {

broadcast use vstd::std_specs::vec::group_vec_axioms;

/// A node of the document tree: an element with attributes and children,
/// or a text run.
#[derive(Debug, PartialEq)]
pub enum Node {
    Element { tag: String, attrs: AttrMap, children: Vec<Node> },
    Text(String),
}

/// The mathematical shape of a node.
#[verifier::ext_equal]
pub ghost enum NodeModel {
    Element { tag: Seq<char>, attrs: Map<Seq<char>, Seq<char>>, children: Seq<NodeModel> },
    Text(Seq<char>),
}

/// The views of a sequence of nodes.
pub open spec fn nodes_view(s: Seq<Node>) -> Seq<NodeModel>
    decreases s,
{
    Seq::new(
        s.len(),
        |i: int|
            if 0 <= i < s.len() {
                node_view(s[i])
            } else {
                NodeModel::Text(Seq::empty())
            },
    )
}

pub open spec fn node_view(n: Node) -> NodeModel
    decreases n,
{
    match n {
        Node::Text(content) => NodeModel::Text(content@),
        Node::Element { tag, attrs, children } => NodeModel::Element {
            tag: tag@,
            attrs: attrs@,
            children: nodes_view(children@),
        },
    }
}

impl View for Node {
    type V = NodeModel;

    open spec fn view(&self) -> NodeModel {
        node_view(*self)
    }
}

// ── Void elements ────────────────────────────────────────────────────────

/// Tags that are always void (never have children or a matching close tag).
pub open spec fn spec_is_void(tag: Seq<char>) -> bool {
    ||| tag == "area"@
    ||| tag == "base"@
    ||| tag == "br"@
    ||| tag == "col"@
    ||| tag == "embed"@
    ||| tag == "hr"@
    ||| tag == "img"@
    ||| tag == "input"@
    ||| tag == "link"@
    ||| tag == "meta"@
    ||| tag == "param"@
    ||| tag == "source"@
    ||| tag == "track"@
    ||| tag == "wbr"@
}

fn is_void(tag: &str) -> (r: bool)
    ensures
        r == spec_is_void(tag@),
{
    str_eq(tag, "area") || str_eq(tag, "base") || str_eq(tag, "br") || str_eq(tag, "col")
        || str_eq(tag, "embed") || str_eq(tag, "hr") || str_eq(tag, "img")
        || str_eq(tag, "input") || str_eq(tag, "link") || str_eq(tag, "meta")
        || str_eq(tag, "param") || str_eq(tag, "source") || str_eq(tag, "track")
        || str_eq(tag, "wbr")
}

// ── The open-element stack ───────────────────────────────────────────────

/// Temporary structure used while the tree is being built.
struct Partial {
    tag: String,
    attrs: AttrMap,
    children: Vec<Node>,
}

/// A partially built element on the open-element stack.
#[verifier::ext_equal]
pub ghost struct FrameModel {
    pub tag: Seq<char>,
    pub attrs: Map<Seq<char>, Seq<char>>,
    pub children: Seq<NodeModel>,
}

impl View for Partial {
    type V = FrameModel;

    closed spec fn view(&self) -> FrameModel {
        FrameModel { tag: self.tag@, attrs: self.attrs@, children: nodes_view(self.children@) }
    }
}

spec fn frames_view(s: Seq<Partial>) -> Seq<FrameModel> {
    Seq::new(s.len(), |i: int| s[i]@)
}

/// The completed element a popped frame becomes.
pub open spec fn frame_to_node(f: FrameModel) -> NodeModel {
    NodeModel::Element { tag: f.tag, attrs: f.attrs, children: f.children }
}

/// Append a node to the children of the topmost frame.
pub open spec fn push_child(stack: Seq<FrameModel>, n: NodeModel) -> Seq<FrameModel>
    recommends
        stack.len() > 0,
{
    let top = stack.last();
    stack.update(
        stack.len() - 1,
        FrameModel { children: top.children.push(n), ..top },
    )
}

/// Pop the topmost frame and append it, as a completed element, to the
/// children of the frame below.
pub open spec fn pop_frame(stack: Seq<FrameModel>) -> Seq<FrameModel>
    recommends
        stack.len() >= 2,
{
    push_child(stack.drop_last(), frame_to_node(stack.last()))
}

/// The topmost frame whose tag equals `name`, searching from the top down.
/// The virtual root at the bottom is never matched.
pub open spec fn find_match(stack: Seq<FrameModel>, name: Seq<char>) -> Option<int>
    decreases stack.len(),
{
    if stack.len() <= 1 {
        None
    } else if stack.last().tag == name {
        Some(stack.len() - 1)
    } else {
        find_match(stack.drop_last(), name)
    }
}

/// Pop and materialize every frame above position `pos`.
pub open spec fn collapse_above(stack: Seq<FrameModel>, pos: int) -> Seq<FrameModel>
    decreases stack.len(),
{
    if stack.len() >= 2 && stack.len() > pos + 1 {
        collapse_above(pop_frame(stack), pos)
    } else {
        stack
    }
}

/// One token applied to the open-element stack.
pub open spec fn build_step(stack: Seq<FrameModel>, t: TokenModel) -> Seq<FrameModel> {
    match t {
        TokenModel::Doctype => stack,
        TokenModel::OpenTag { name, attrs, self_closing } => {
            if self_closing || spec_is_void(name) {
                push_child(
                    stack,
                    NodeModel::Element { tag: name, attrs, children: Seq::empty() },
                )
            } else {
                stack.push(FrameModel { tag: name, attrs, children: Seq::empty() })
            }
        },
        TokenModel::CloseTag(name) => match find_match(stack, name) {
            Some(pos) => pop_frame(collapse_above(stack, pos)),
            None => stack,
        },
        TokenModel::Text(content) => push_child(stack, NodeModel::Text(content)),
    }
}

/// The stack that begins a build: one virtual root frame with an empty tag
/// that collects the top-level siblings.
pub open spec fn init_stack() -> Seq<FrameModel> {
    seq![FrameModel { tag: Seq::empty(), attrs: Map::empty(), children: Seq::empty() }]
}

/// The stack after the first `i` tokens.
pub open spec fn stack_after(tokens: Seq<TokenModel>, i: int) -> Seq<FrameModel>
    decreases i,
{
    if i <= 0 {
        init_stack()
    } else {
        build_step(stack_after(tokens, i - 1), tokens[i - 1])
    }
}

/// Flush every frame still open into its parent, in LIFO order.
pub open spec fn flush_stack(stack: Seq<FrameModel>) -> Seq<FrameModel>
    decreases stack.len(),
{
    if stack.len() > 1 {
        flush_stack(pop_frame(stack))
    } else {
        stack
    }
}

/// The forest that a token stream builds.
pub open spec fn spec_build_tree(tokens: Seq<TokenModel>) -> Seq<NodeModel> {
    flush_stack(stack_after(tokens, tokens.len() as int))[0].children
}

/// A match, where there is one, lies strictly above the virtual root.
pub proof fn lemma_find_match_range(stack: Seq<FrameModel>, name: Seq<char>)
    ensures
        match find_match(stack, name) {
            Some(pos) => 1 <= pos < stack.len() && stack[pos].tag == name,
            None => true,
        },
    decreases stack.len(),
{
    if stack.len() > 1 && stack.last().tag != name {
        lemma_find_match_range(stack.drop_last(), name);
    }
}

/// The frame at `k` with every frame above it folded in: each later frame
/// becomes, as a completed element, the last child of the frame beneath
/// it, so the most recently opened frames end up nested innermost.
pub open spec fn nest_from(stack: Seq<FrameModel>, k: int) -> FrameModel
    recommends
        0 <= k < stack.len(),
    decreases stack.len() - k,
{
    if k >= stack.len() - 1 {
        stack[k]
    } else {
        let f = stack[k];
        FrameModel {
            children: f.children.push(frame_to_node(nest_from(stack, k + 1))),
            ..f
        }
    }
}

// ── The executable builder ───────────────────────────────────────────────

/// Append a completed node to the children of the topmost frame.
fn add_child(stack: &mut Vec<Partial>, node: Node)
    requires
        old(stack)@.len() > 0,
    ensures
        frames_view(final(stack)@) == push_child(frames_view(old(stack)@), node@),
        final(stack)@.len() == old(stack)@.len(),
{
    let ghost orig = stack@;
    let mut top = stack.pop().unwrap();
    top.children.push(node);
    stack.push(top);
    proof {
        assert(nodes_view(stack@.last().children@)
            =~= nodes_view(orig.last().children@).push(node@));
        assert(frames_view(stack@) =~= push_child(frames_view(orig), node@));
    }
}

/// Pop the topmost frame, materialize it as an element, and append it to
/// the frame below.
fn pop_and_fold(stack: &mut Vec<Partial>)
    requires
        old(stack)@.len() >= 2,
    ensures
        frames_view(final(stack)@) == pop_frame(frames_view(old(stack)@)),
        final(stack)@.len() == old(stack)@.len() - 1,
{
    let ghost orig = stack@;
    let partial = stack.pop().unwrap();
    let node = Node::Element {
        tag: partial.tag,
        attrs: partial.attrs,
        children: partial.children,
    };
    proof {
        assert(node@ == frame_to_node(frames_view(orig).last()));
        assert(frames_view(stack@) =~= frames_view(orig).drop_last());
    }
    add_child(stack, node);
}

/// Convert a flat token stream into a forest of nodes.
pub fn build_tree(tokens: Vec<Token>) -> (forest: Vec<Node>)
    ensures
        nodes_view(forest@) == spec_build_tree(token_views(tokens@)),
{
    let ghost toks = token_views(tokens@);
    // The bottom of the stack is a virtual root that collects top-level
    // nodes.
    let mut stack: Vec<Partial> = Vec::new();
    stack.push(Partial { tag: String::new(), attrs: AttrMap::new(), children: Vec::new() });
    proof {
        assert(frames_view(stack@) =~~= init_stack());
    }

    let mut rest = tokens;
    let ghost mut i: int = 0;
    while rest.len() > 0
        invariant
            0 <= i,
            i + rest@.len() == toks.len(),
            token_views(rest@) =~= toks.subrange(i, toks.len() as int),
            frames_view(stack@) == stack_after(toks, i),
            stack@.len() >= 1,
        decreases rest@.len(),
    {
        let ghost stack0 = frames_view(stack@);
        let ghost rest0 = rest@;
        let token = rest.remove(0);
        proof {
            assert(token@ == token_views(rest0)[0]);
            assert(token@ == toks[i]);
            assert(token_views(rest@) =~= token_views(rest0).drop_first());
            assert(token_views(rest@) =~= toks.subrange(i + 1, toks.len() as int));
        }
        match token {
            Token::Doctype => {},
            Token::OpenTag { name, attrs, self_closing } => {
                if self_closing || is_void(name.as_str()) {
                    let ghost nm = name@;
                    let ghost am = attrs@;
                    let node = Node::Element { tag: name, attrs, children: Vec::new() };
                    proof {
                        assert(nodes_view(Seq::<Node>::empty()) =~= Seq::<NodeModel>::empty());
                        assert(node@ == NodeModel::Element {
                            tag: nm,
                            attrs: am,
                            children: Seq::empty(),
                        });
                    }
                    add_child(&mut stack, node);
                } else {
                    stack.push(Partial { tag: name, attrs, children: Vec::new() });
                    proof {
                        assert(nodes_view(Seq::<Node>::empty()) =~= Seq::<NodeModel>::empty());
                        assert(frames_view(stack@) =~= build_step(stack0, toks[i]));
                    }
                }
            },
            Token::CloseTag(name) => {
                // Find the matching open tag in the stack; ignore the close
                // tag if there is none.
                let ghost nm = name@;
                proof {
                    assert(stack0.take(stack0.len() as int) =~= stack0);
                }
                let mut j = stack.len();
                let mut pos: usize = 0;
                let mut found = false;
                while j > 1 && !found
                    invariant
                        nm == name@,
                        1 <= j <= stack@.len(),
                        stack@.len() >= 1,
                        frames_view(stack@) == stack0,
                        !found ==> find_match(stack0, nm)
                            == find_match(stack0.take(j as int), nm),
                        found ==> find_match(stack0, nm) == Some(pos as int)
                            && 1 <= pos < stack@.len(),
                    decreases j,
                {
                    proof {
                        assert(stack0.take(j as int).drop_last()
                            =~= stack0.take(j as int - 1));
                        assert(stack0.take(j as int).len() == j as int);
                        assert(stack0.take(j as int).last() == stack0[j as int - 1]);
                    }
                    j = j - 1;
                    let matched = str_eq(stack[j].tag.as_str(), name.as_str());
                    proof {
                        assert(stack0[j as int].tag == stack@[j as int].tag@);
                        if matched {
                            assert(find_match(stack0.take(j as int + 1), nm)
                                == Some(j as int));
                        } else {
                            assert(find_match(stack0.take(j as int + 1), nm)
                                == find_match(stack0.take(j as int), nm));
                        }
                    }
                    if matched {
                        pos = j;
                        found = true;
                    }
                }
                if found {
                    proof {
                        lemma_find_match_range(stack0, nm);
                    }
                    // Collapse everything above the match first.
                    while stack.len() > pos + 1
                        invariant
                            pos >= 1,
                            stack@.len() >= pos + 1,
                            collapse_above(stack0, pos as int)
                                == collapse_above(frames_view(stack@), pos as int),
                        decreases stack@.len(),
                    {
                        pop_and_fold(&mut stack);
                    }
                    // Now pop the matching element itself.
                    pop_and_fold(&mut stack);
                    proof {
                        assert(frames_view(stack@) =~= build_step(stack0, toks[i]));
                    }
                } else {
                    proof {
                        assert(stack0.take(1) =~= stack0.subrange(0, 1));
                        assert(find_match(stack0, nm) is None);
                    }
                }
            },
            Token::Text(content) => {
                add_child(&mut stack, Node::Text(content));
            },
        }
        proof {
            i = i + 1int;
        }
    }
    proof {
        assert(rest@.len() == 0);
        assert(i == toks.len());
    }

    // Flush anything left open on the stack into its parent.
    while stack.len() > 1
        invariant
            stack@.len() >= 1,
            flush_stack(frames_view(stack@)) == flush_stack(stack_after(toks, toks.len() as int)),
        decreases stack@.len(),
    {
        pop_and_fold(&mut stack);
    }
    let root = stack.pop().unwrap();
    proof {
        assert(frames_view(stack@.push(root)).last() == root@);
    }
    root.children
}

} // verus!
