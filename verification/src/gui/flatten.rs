//! The layout as a flattening of the document: its elements are the document's headings,
//! paragraphs and images in document order (containers and sections contributing their
//! contents, comments nothing), each heading of level 1 between two rules, placed from the
//! top of the page downward.
use vstd::prelude::*;
use crate::ast::SpecNode;
use super::layout::{
    SpecElement, SpecImageResult, Flow, flow_node, flow_nodes, page_flow, pool_of, pool_index, element_y,
    heading_scale, paragraph_lines, NAV_H,
};

verus! {

/// What the flattening says of an element: its kind and what it shows.
pub enum Shape {
    Rule,
    Heading { text: Seq<char>, level: u8 },
    Paragraph { text: Seq<char> },
    Image { path: Seq<char> },
    Other,
}

pub open spec fn shape(e: SpecElement) -> Shape {
    match e {
        SpecElement::HRule { .. } => Shape::Rule,
        SpecElement::Heading { text, level, .. } => Shape::Heading { text, level },
        SpecElement::Paragraph { text, .. } => Shape::Paragraph { text },
        SpecElement::Image { path, .. } => Shape::Image { path },
        _ => Shape::Other,
    }
}

pub open spec fn shapes(es: Seq<SpecElement>) -> Seq<Shape> {
    es.map_values(|e: SpecElement| shape(e))
}

/// The shapes of a node in document order.
pub open spec fn node_shapes(n: SpecNode) -> Seq<Shape>
    decreases n,
{
    match n {
        SpecNode::Container { children, .. } => nodes_shapes(children),
        SpecNode::Section { children, .. } => nodes_shapes(children),
        SpecNode::Heading { level, text, .. } => if level == 1 {
            seq![Shape::Rule, Shape::Heading { text, level }, Shape::Rule]
        } else {
            seq![Shape::Heading { text, level }]
        },
        SpecNode::Paragraph { text, .. } => seq![Shape::Paragraph { text }],
        SpecNode::Image { path, .. } => seq![Shape::Image { path }],
        _ => seq![],
    }
}

pub open spec fn nodes_shapes(ns: Seq<SpecNode>) -> Seq<Shape>
    decreases ns,
{
    if ns.len() == 0 {
        seq![]
    } else {
        node_shapes(ns[0]) + nodes_shapes(ns.drop_first())
    }
}

/// Elements placed from y = 48 on, each below the one before, all above `top`.
pub open spec fn placed_in_order(es: Seq<SpecElement>, top: int) -> bool {
    &&& forall|i: int, j: int| 0 <= i < j < es.len() ==> element_y(#[trigger] es[i]) < element_y(#[trigger] es[j])
    &&& forall|i: int| 0 <= i < es.len() ==> NAV_H + 16 <= element_y(#[trigger] es[i]) < top
}

pub open spec fn heights_ok(pool: Seq<SpecImageResult>) -> bool {
    forall|i: int| 0 <= i < pool.len() ==> (#[trigger] pool[i]).h >= 0
}

pub open spec fn flow_ok(f: Flow) -> bool {
    &&& placed_in_order(f.elements, f.y)
    &&& f.y >= NAV_H + 16
    &&& heights_ok(f.pool)
}

proof fn lemma_push(es: Seq<SpecElement>, e: SpecElement, top: int, next: int)
    requires
        placed_in_order(es, top),
        top <= element_y(e) < next,
        top >= NAV_H + 16,
    ensures
        placed_in_order(es.push(e), next),
        shapes(es.push(e)) == shapes(es).push(shape(e)),
{
    let es2 = es.push(e);
    assert forall|i: int, j: int| 0 <= i < j < es2.len() implies element_y(#[trigger] es2[i]) < element_y(
        #[trigger] es2[j],
    ) by {
        if j == es.len() {
            assert(es2[i] == es[i]);
        } else {
            assert(es2[i] == es[i] && es2[j] == es[j]);
        }
    }
    assert forall|i: int| 0 <= i < es2.len() implies NAV_H + 16 <= element_y(#[trigger] es2[i]) < next by {
        if i < es.len() {
            assert(es2[i] == es[i]);
        }
    }
    assert(shapes(es.push(e)) =~= shapes(es).push(shape(e)));
}

proof fn lemma_pool_index_path(pool: Seq<SpecImageResult>, path: Seq<char>)
    ensures
        pool_index(pool, path) >= 0 ==> pool_index(pool, path) < pool.len() && pool[pool_index(pool, path)].path
            == path,
    decreases pool.len(),
{
    if pool.len() > 0 && pool[0].path != path {
        lemma_pool_index_path(pool.drop_first(), path);
        if pool_index(pool.drop_first(), path) >= 0 {
            assert(pool[pool_index(pool, path)] == pool.drop_first()[pool_index(pool.drop_first(), path)]);
        }
    }
}

proof fn lemma_pool_of_heights(rs: Seq<SpecImageResult>)
    requires
        heights_ok(rs),
    ensures
        heights_ok(pool_of(rs)),
    decreases rs.len(),
{
    if rs.len() > 0 {
        assert(heights_ok(rs.drop_first())) by {
            assert forall|i: int| 0 <= i < rs.drop_first().len() implies (#[trigger] rs.drop_first()[i]).h >= 0 by {
                assert(rs.drop_first()[i] == rs[i + 1]);
            }
        }
        lemma_pool_of_heights(rs.drop_first());
        let p = pool_of(rs.drop_first());
        assert(rs[0].h >= 0);
        assert forall|i: int| 0 <= i < p.push(rs[0]).len() implies (#[trigger] p.push(rs[0])[i]).h >= 0 by {
            if i < p.len() {
                assert(p.push(rs[0])[i] == p[i]);
            }
        }
    }
}

proof fn lemma_flow_node(n: SpecNode, f: Flow, vw: int)
    requires
        flow_ok(f),
        flow_node(n, f, vw) is Some,
    ensures
        flow_ok(flow_node(n, f, vw)->Some_0),
        flow_node(n, f, vw)->Some_0.y >= f.y,
        shapes(flow_node(n, f, vw)->Some_0.elements) == shapes(f.elements) + node_shapes(n),
    decreases n,
{
    let g = flow_node(n, f, vw)->Some_0;
    match n {
        SpecNode::Container { children, .. } => {
            lemma_flow_nodes(children, f, vw);
        },
        SpecNode::Section { children, .. } => {
            lemma_flow_nodes(children, f, vw);
        },
        SpecNode::Heading { level, text, .. } => {
            let y1 = f.y + 14;
            assert(heading_scale(level) >= 2);
            if level == 1 {
                let e1 = SpecElement::HRule { y: y1 };
                let e2 = SpecElement::Heading { text, level, y: y1 + 8 };
                let y3 = y1 + 8 + 8 * heading_scale(level) + 14;
                let e3 = SpecElement::HRule { y: y3 };
                lemma_push(f.elements, e1, f.y, y1 + 8);
                lemma_push(f.elements.push(e1), e2, y1 + 8, y3);
                lemma_push(f.elements.push(e1).push(e2), e3, y3, y3 + 8);
                assert(shapes(f.elements) + node_shapes(n) =~= shapes(f.elements).push(Shape::Rule).push(
                    Shape::Heading { text, level },
                ).push(Shape::Rule));
            } else {
                let e2 = SpecElement::Heading { text, level, y: y1 };
                lemma_push(f.elements, e2, f.y, y1 + 8 * heading_scale(level) + 14);
                assert(shapes(f.elements) + node_shapes(n) =~= shapes(f.elements).push(Shape::Heading { text, level }));
            }
        },
        SpecNode::Paragraph { text, .. } => {
            crate::gui::layout::lemma_paragraph_lines_positive(text, vw);
            lemma_push(f.elements, g.elements.last(), f.y, g.y);
            assert(g.elements =~= f.elements.push(g.elements.last()));
            assert(shapes(f.elements) + node_shapes(n) =~= shapes(f.elements).push(Shape::Paragraph { text }));
        },
        SpecNode::Image { path, alt, .. } => {
            lemma_pool_index_path(f.pool, path);
            let i = pool_index(f.pool, path);
            if i >= 0 {
                assert(f.pool[i].h >= 0);
                assert forall|k: int| 0 <= k < g.pool.len() implies (#[trigger] g.pool[k]).h >= 0 by {
                    if k < i {
                        assert(g.pool[k] == f.pool[k]);
                    } else {
                        assert(g.pool[k] == f.pool[k + 1]);
                    }
                }
            }
            lemma_push(f.elements, g.elements.last(), f.y, g.y);
            assert(g.elements =~= f.elements.push(g.elements.last()));
            assert(shapes(f.elements) + node_shapes(n) =~= shapes(f.elements).push(Shape::Image { path }));
        },
        _ => {
            assert(shapes(f.elements) + node_shapes(n) =~= shapes(f.elements));
        },
    }
}

proof fn lemma_flow_nodes(ns: Seq<SpecNode>, f: Flow, vw: int)
    requires
        flow_ok(f),
        flow_nodes(ns, f, vw) is Some,
    ensures
        flow_ok(flow_nodes(ns, f, vw)->Some_0),
        flow_nodes(ns, f, vw)->Some_0.y >= f.y,
        shapes(flow_nodes(ns, f, vw)->Some_0.elements) == shapes(f.elements) + nodes_shapes(ns),
    decreases ns,
{
    if ns.len() == 0 {
        assert(shapes(f.elements) + nodes_shapes(ns) =~= shapes(f.elements));
    } else {
        lemma_flow_node(ns[0], f, vw);
        let g = flow_node(ns[0], f, vw)->Some_0;
        lemma_flow_nodes(ns.drop_first(), g, vw);
        assert(shapes(f.elements) + node_shapes(ns[0]) + nodes_shapes(ns.drop_first()) =~= shapes(f.elements)
            + nodes_shapes(ns));
    }
}

/// The layout of a page is the document flattened in order: one element per heading (a
/// level-1 heading between two rules), paragraph and image, nothing for containers,
/// sections, comments or a nested document, each placed below the one before, from y = 48
/// on, and all above the content's height (the final y plus the 32-pixel margin). The
/// decoded images' heights are taken as at least 0.
pub proof fn law_layout_flattens_the_document(n: SpecNode, vw: int, rs: Seq<SpecImageResult>)
    requires
        page_flow(n, vw, rs) is Some,
        heights_ok(rs),
    ensures
        shapes(page_flow(n, vw, rs)->Some_0.elements) == match n {
            SpecNode::Document { children, .. } => nodes_shapes(children),
            _ => node_shapes(n),
        },
        placed_in_order(page_flow(n, vw, rs)->Some_0.elements, page_flow(n, vw, rs)->Some_0.y + 32),
{
    let f0 = Flow { elements: seq![], y: NAV_H + 16, pool: pool_of(rs) };
    lemma_pool_of_heights(rs);
    assert(shapes(f0.elements) =~= Seq::<Shape>::empty());
    match n {
        SpecNode::Document { children, .. } => {
            lemma_flow_nodes(children, f0, vw);
            assert(Seq::<Shape>::empty() + nodes_shapes(children) =~= nodes_shapes(children));
        },
        _ => {
            lemma_flow_node(n, f0, vw);
            assert(Seq::<Shape>::empty() + node_shapes(n) =~= node_shapes(n));
        },
    }
    let f = page_flow(n, vw, rs)->Some_0;
    assert forall|i: int| 0 <= i < f.elements.len() implies NAV_H + 16 <= element_y(#[trigger] f.elements[i])
        < f.y + 32 by {
    }
}

} // verus!
