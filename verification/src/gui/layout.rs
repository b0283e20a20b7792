//! The layout engine: turns a document into a flat list of elements placed top to bottom.
//!
//! Images are decoded between the two passes: `collect_image_jobs` lists what to load, the
//! caller decodes and scales each image (see `scale_image`) and hands the results to
//! `Layout::build`, which places every element. `flow_node` and `flow_nodes` state the
//! placement; `None` marks a page whose coordinates would leave the `i32` range.
use vstd::prelude::*;
use crate::ast::{Node, SpecNode, nodes_view, lemma_nodes_view};
use crate::image::Image;
use crate::platform::channel;
use crate::text::{
    utf8_len, words, split_whitespace, copy_string, append_str, chars_of, utf8_len_capped, lemma_words_nonempty,
    lemma_utf8_len_bounds, lemma_utf8_len_concat,
};
use crate::gui::paint::{fits_i32, chars_per_line, line_fold, wrapped_lines};

verus! {

pub const MARGIN_X: i32 = 40;

pub const LINE_H: i32 = 20;

pub const PARA_GAP: i32 = 14;

pub const H1_SCALE: u32 = 3;

pub const H2_SCALE: u32 = 2;

pub const H3_SCALE: u32 = 2;

pub const BODY_SCALE: u32 = 1;

pub const NAV_H: i32 = 32;

pub const STATUS_H: i32 = 20;

// ─── Render elements ────────────────────────────────────────

#[derive(Debug, Clone)]
pub enum Element {
    Heading { text: String, level: u8, y: i32 },
    Paragraph { text: String, y: i32, h: i32 },
    Image { path: String, alt: String, y: i32, w: i32, h: i32, image: Option<Image> },
    Link { text: String, target: String, y: i32, x: i32, w: i32 },
    HRule { y: i32 },
    Spacer { y: i32, h: i32 },
}

#[verifier::ext_equal]
pub enum SpecElement {
    Heading { text: Seq<char>, level: u8, y: int },
    Paragraph { text: Seq<char>, y: int, h: int },
    Image { path: Seq<char>, alt: Seq<char>, y: int, w: int, h: int, image: Option<Image> },
    Link { text: Seq<char>, target: Seq<char>, y: int, x: int, w: int },
    HRule { y: int },
    Spacer { y: int, h: int },
}

impl View for Element {
    type V = SpecElement;

    open spec fn view(&self) -> SpecElement {
        match *self {
            Element::Heading { text, level, y } => SpecElement::Heading { text: text@, level, y: y as int },
            Element::Paragraph { text, y, h } => SpecElement::Paragraph {
                text: text@,
                y: y as int,
                h: h as int,
            },
            Element::Image { path, alt, y, w, h, image } => SpecElement::Image {
                path: path@,
                alt: alt@,
                y: y as int,
                w: w as int,
                h: h as int,
                image,
            },
            Element::Link { text, target, y, x, w } => SpecElement::Link {
                text: text@,
                target: target@,
                y: y as int,
                x: x as int,
                w: w as int,
            },
            Element::HRule { y } => SpecElement::HRule { y: y as int },
            Element::Spacer { y, h } => SpecElement::Spacer { y: y as int, h: h as int },
        }
    }
}

pub open spec fn elements_view(es: Seq<Element>) -> Seq<SpecElement> {
    es.map_values(|e: Element| e@)
}

/// The glyph scale of a heading level: 3 for level 1, 2 for the others.
pub open spec fn heading_scale(level: u8) -> int {
    if level == 1 {
        H1_SCALE as int
    } else if level == 2 {
        H2_SCALE as int
    } else {
        H3_SCALE as int
    }
}

/// The height an element takes on the page.
pub open spec fn element_height(e: SpecElement) -> int {
    match e {
        SpecElement::Heading { level, .. } => 8 * heading_scale(level) + PARA_GAP * 2,
        SpecElement::Paragraph { h, .. } => h,
        SpecElement::Image { h, .. } => h + PARA_GAP,
        SpecElement::Link { .. } => LINE_H + 4,
        SpecElement::HRule { .. } => 8,
        SpecElement::Spacer { h, .. } => h,
    }
}

pub open spec fn element_y(e: SpecElement) -> int {
    match e {
        SpecElement::Heading { y, .. } => y,
        SpecElement::Paragraph { y, .. } => y,
        SpecElement::Image { y, .. } => y,
        SpecElement::Link { y, .. } => y,
        SpecElement::HRule { y } => y,
        SpecElement::Spacer { y, .. } => y,
    }
}

impl Element {
    /// The top of the element on the page.
    pub fn y(&self) -> (r: i32)
        ensures
            r == element_y(self@),
    {
        match self {
            Element::Heading { y, .. } => *y,
            Element::Paragraph { y, .. } => *y,
            Element::Image { y, .. } => *y,
            Element::Link { y, .. } => *y,
            Element::HRule { y } => *y,
            Element::Spacer { y, .. } => *y,
        }
    }

    /// The height of the element on the page (the viewport width does not change it).
    pub fn height(&self, _viewport_w: i32) -> (r: i32)
        requires
            fits_i32(element_height(self@)),
        ensures
            r == element_height(self@),
    {
        match self {
            Element::Heading { level, .. } => {
                let scale: u32 = if *level == 1 {
                    H1_SCALE
                } else if *level == 2 {
                    H2_SCALE
                } else {
                    H3_SCALE
                };
                8 * scale as i32 + PARA_GAP * 2
            },
            Element::Paragraph { h, .. } => *h,
            Element::Image { h, .. } => *h + PARA_GAP,
            Element::Link { .. } => LINE_H + 4,
            Element::HRule { .. } => 8,
            Element::Spacer { h, .. } => *h,
        }
    }
}

// ─── Image jobs ─────────────────────────────────────────────

/// An image to load before layout: where the document names it, where it is on disk, and
/// the box it is scaled into.
pub struct ImageJob {
    pub path: String,
    pub alt: String,
    pub full_path: String,
    pub target_w: u32,
    pub target_h_hint: u32,
}

/// A loaded (or failed) image: the decoded pixels, if any, and the size it is shown at.
pub struct ImageResult {
    pub path: String,
    pub alt: String,
    pub image: Option<Image>,
    pub w: i32,
    pub h: i32,
}

#[verifier::ext_equal]
pub struct SpecImageJob {
    pub path: Seq<char>,
    pub alt: Seq<char>,
    pub full_path: Seq<char>,
    pub target_w: int,
    pub target_h_hint: int,
}

#[verifier::ext_equal]
pub struct SpecImageResult {
    pub path: Seq<char>,
    pub alt: Seq<char>,
    pub image: Option<Image>,
    pub w: int,
    pub h: int,
}

impl View for ImageJob {
    type V = SpecImageJob;

    open spec fn view(&self) -> SpecImageJob {
        SpecImageJob {
            path: self.path@,
            alt: self.alt@,
            full_path: self.full_path@,
            target_w: self.target_w as int,
            target_h_hint: self.target_h_hint as int,
        }
    }
}

impl View for ImageResult {
    type V = SpecImageResult;

    open spec fn view(&self) -> SpecImageResult {
        SpecImageResult {
            path: self.path@,
            alt: self.alt@,
            image: self.image,
            w: self.w as int,
            h: self.h as int,
        }
    }
}

pub open spec fn jobs_view(js: Seq<ImageJob>) -> Seq<SpecImageJob> {
    js.map_values(|j: ImageJob| j@)
}

pub open spec fn results_view(rs: Seq<ImageResult>) -> Seq<SpecImageResult> {
    rs.map_values(|r: ImageResult| r@)
}

/// `s` without its trailing '/' characters (`trim_end_matches('/')`).
pub open spec fn strip_slashes(s: Seq<char>) -> Seq<char>
    decreases s.len(),
{
    if s.len() > 0 && s.last() == '/' {
        strip_slashes(s.drop_last())
    } else {
        s
    }
}

/// Where an image is read from: its path, under `base` when there is one.
pub open spec fn asset_path(base: Seq<char>, path: Seq<char>) -> Seq<char> {
    if base.len() == 0 {
        path
    } else {
        strip_slashes(base) + "/"@ + path
    }
}

/// The width images are fitted to: the viewport less both margins, at least one pixel.
pub open spec fn image_target_w(vw: int) -> int {
    if vw - MARGIN_X * 2 > 1 {
        vw - MARGIN_X * 2
    } else {
        1
    }
}

/// The image jobs of a node, in document order.
pub open spec fn jobs_of(n: SpecNode, vw: int, base: Seq<char>) -> Seq<SpecImageJob>
    decreases n,
{
    match n {
        SpecNode::Document { children, .. } => jobs_of_all(children, vw, base),
        SpecNode::Container { children, .. } => jobs_of_all(children, vw, base),
        SpecNode::Section { children, .. } => jobs_of_all(children, vw, base),
        SpecNode::Image { path, alt, .. } => seq![
            SpecImageJob {
                path,
                alt,
                full_path: asset_path(base, path),
                target_w: image_target_w(vw),
                target_h_hint: 800,
            },
        ],
        _ => seq![],
    }
}

pub open spec fn jobs_of_all(ns: Seq<SpecNode>, vw: int, base: Seq<char>) -> Seq<SpecImageJob>
    decreases ns,
{
    if ns.len() == 0 {
        seq![]
    } else {
        jobs_of(ns[0], vw, base) + jobs_of_all(ns.drop_first(), vw, base)
    }
}

/// `s.trim_end_matches('/')`.
pub fn strip_trailing_slashes(s: &str) -> (r: String)
    ensures
        r@ == strip_slashes(s@),
{
    let cs = chars_of(s);
    let mut n = cs.len();
    assert(s@.take(n as int) =~= s@);
    while n > 0 && cs[n - 1] == '/'
        invariant
            cs@ == s@,
            n <= cs.len(),
            strip_slashes(s@) == strip_slashes(s@.take(n as int)),
        decreases n,
    {
        assert(s@.take(n as int).drop_last() =~= s@.take(n - 1));
        n = n - 1;
    }
    assert(cs@.subrange(0, n as int) =~= s@.take(n as int));
    crate::text::string_from(&cs, 0, n)
}

/// Appends to `jobs` one job for each image of `node`, in document order; the full path of
/// each is the image path under `asset_base` (its trailing slashes dropped) when that is not
/// empty, and the target width is the viewport less both margins, at least 1.
pub fn collect_image_jobs(node: &Node, viewport_w: i32, asset_base: &str, jobs: &mut Vec<ImageJob>)
    requires
        fits_i32(viewport_w - MARGIN_X * 2),
    ensures
        jobs_view(final(jobs)@) =~= jobs_view(old(jobs)@) + jobs_of(
            node@,
            viewport_w as int,
            asset_base@,
        ),
    decreases node,
{
    let ghost vw = viewport_w as int;
    match node {
        Node::Document { children, .. } => {
            collect_children_jobs(children, viewport_w, asset_base, jobs);
        },
        Node::Container { children, .. } => {
            collect_children_jobs(children, viewport_w, asset_base, jobs);
        },
        Node::Section { children, .. } => {
            collect_children_jobs(children, viewport_w, asset_base, jobs);
        },
        Node::Image { path, alt, .. } => {
            let full_path = if asset_base.is_empty() {
                copy_string(path)
            } else {
                let mut f = strip_trailing_slashes(asset_base);
                append_str(&mut f, "/");
                append_str(&mut f, path.as_str());
                f
            };
            let d = viewport_w - MARGIN_X * 2;
            let target_w: u32 = if d > 1 {
                d as u32
            } else {
                1
            };
            let ghost before = jobs@;
            proof {
                reveal_strlit("/");
                assert(full_path@ == asset_path(asset_base@, path@));
            }
            jobs.push(
                ImageJob {
                    path: copy_string(path),
                    alt: copy_string(alt),
                    full_path,
                    target_w,
                    target_h_hint: 800,
                },
            );
            proof {
                assert(jobs_view(jobs@) =~= jobs_view(before) + jobs_of(node@, vw, asset_base@));
            }
        },
        _ => {
            proof {
                assert(jobs_view(jobs@) =~= jobs_view(jobs@) + jobs_of(node@, vw, asset_base@));
            }
        },
    }
}

fn collect_children_jobs(children: &Vec<Node>, viewport_w: i32, asset_base: &str, jobs: &mut Vec<ImageJob>)
    requires
        fits_i32(viewport_w - MARGIN_X * 2),
    ensures
        jobs_view(final(jobs)@) == jobs_view(old(jobs)@) + jobs_of_all(
            nodes_view(children@),
            viewport_w as int,
            asset_base@,
        ),
    decreases children,
{
    let ghost cs = nodes_view(children@);
    let ghost vw = viewport_w as int;
    proof {
        lemma_nodes_view(children@);
        assert(cs.skip(0) =~= cs);
    }
    let ghost start = jobs_view(jobs@);
    let mut i: usize = 0;
    while i < children.len()
        invariant
            i <= children.len(),
            cs == nodes_view(children@),
            cs.len() == children.len(),
            vw == viewport_w as int,
            forall|k: int| 0 <= k < children.len() ==> #[trigger] cs[k] == children@[k]@,
            fits_i32(viewport_w - MARGIN_X * 2),
            start + jobs_of_all(cs, vw, asset_base@) =~= jobs_view(jobs@) + jobs_of_all(
                cs.skip(i as int),
                vw,
                asset_base@,
            ),
        decreases children.len() - i,
    {
        let ghost rest = cs.skip(i as int);
        let ghost prev = jobs_view(jobs@);
        let ghost ci = cs[i as int];
        proof {
            assert(ci == children@[i as int]@);
            assert(rest[0] == cs[i as int]);
            assert(rest.drop_first() =~= cs.skip(i + 1));
        }
        collect_image_jobs(&children[i], viewport_w, asset_base, jobs);
        i = i + 1;
        proof {
            assert(jobs_view(jobs@) =~= prev + jobs_of(ci, vw, asset_base@));
            assert(prev + jobs_of_all(rest, vw, asset_base@) =~= jobs_view(jobs@) + jobs_of_all(
                cs.skip(i as int),
                vw,
                asset_base@,
            ));
        }
    }
    assert(cs.skip(i as int) =~= Seq::<SpecNode>::empty());
    assert(jobs_view(jobs@) =~= start + jobs_of_all(cs, vw, asset_base@));
}

// ─── Placing elements ───────────────────────────────────────

/// The layout pass in progress: the elements placed so far, the next free y, and the image
/// results not yet used.
#[verifier::ext_equal]
pub struct Flow {
    pub elements: Seq<SpecElement>,
    pub y: int,
    pub pool: Seq<SpecImageResult>,
}

pub open spec fn flow_of(elements: Seq<Element>, y: i32, pool: Seq<ImageResult>) -> Flow {
    Flow { elements: elements_view(elements), y: y as int, pool: results_view(pool) }
}

/// The index of the first result in `pool` for `path`, or -1 when there is none.
pub open spec fn pool_index(pool: Seq<SpecImageResult>, path: Seq<char>) -> int
    decreases pool.len(),
{
    if pool.len() == 0 {
        -1
    } else if pool[0].path == path {
        0
    } else {
        let r = pool_index(pool.drop_first(), path);
        if r < 0 {
            -1
        } else {
            r + 1
        }
    }
}

/// The results by path: for each path, the last result given for it (a later result for
/// the same path replaces an earlier one).
pub open spec fn pool_of(rs: Seq<SpecImageResult>) -> Seq<SpecImageResult>
    decreases rs.len(),
{
    if rs.len() == 0 {
        seq![]
    } else {
        let p = pool_of(rs.drop_first());
        if pool_index(p, rs[0].path) >= 0 {
            p
        } else {
            p.push(rs[0])
        }
    }
}

/// A heading: a gap above, then (level 1 only) a rule, the text at its scale, and a rule.
pub open spec fn heading_flow(level: u8, text: Seq<char>, f: Flow) -> Option<Flow> {
    let y1 = f.y + PARA_GAP;
    let e1 = if level == 1 {
        f.elements.push(SpecElement::HRule { y: y1 })
    } else {
        f.elements
    };
    let y2 = if level == 1 {
        y1 + 8
    } else {
        y1
    };
    let e2 = e1.push(SpecElement::Heading { text, level, y: y2 });
    let y3 = y2 + 8 * heading_scale(level) + PARA_GAP;
    let e3 = if level == 1 {
        e2.push(SpecElement::HRule { y: y3 })
    } else {
        e2
    };
    let y4 = if level == 1 {
        y3 + 8
    } else {
        y3
    };
    if y4 <= i32::MAX {
        Some(Flow { elements: e3, y: y4, pool: f.pool })
    } else {
        None
    }
}

/// Line count while a paragraph's words are measured: lines so far and the byte length of
/// the open line.
pub struct LineCount {
    pub lines: int,
    pub len: int,
}

pub open spec fn count_step(st: LineCount, wlen: int, per_line: int) -> LineCount {
    if st.len == 0 {
        LineCount { lines: st.lines, len: wlen }
    } else if st.len + 1 + wlen <= per_line {
        LineCount { lines: st.lines, len: st.len + 1 + wlen }
    } else {
        LineCount { lines: st.lines + 1, len: wlen }
    }
}

pub open spec fn count_fold(ws: Seq<Seq<char>>, per_line: int) -> LineCount
    decreases ws.len(),
{
    if ws.len() == 0 {
        LineCount { lines: 1, len: 0 }
    } else {
        count_step(count_fold(ws.drop_last(), per_line), utf8_len(ws.last()) as int, per_line)
    }
}

proof fn lemma_count_fold(ws: Seq<Seq<char>>, per_line: int)
    ensures
        count_fold(ws, per_line).lines >= 1,
        count_fold(ws, per_line).len >= 0,
    decreases ws.len(),
{
    if ws.len() > 0 {
        lemma_count_fold(ws.drop_last(), per_line);
    }
}

/// Lines a paragraph takes in a viewport `vw` pixels wide: its words filled greedily into
/// lines of `(vw - 96) / 8` bytes (at least one), and at least one line.
pub open spec fn paragraph_lines(text: Seq<char>, vw: int) -> int {
    count_fold(words(text), chars_per_line(vw - MARGIN_X * 2 - 16, 8)).lines
}

/// A paragraph takes at least one line.
pub proof fn lemma_paragraph_lines_positive(text: Seq<char>, vw: int)
    ensures
        paragraph_lines(text, vw) >= 1,
{
    lemma_count_fold(words(text), chars_per_line(vw - MARGIN_X * 2 - 16, 8));
}

/// The height of a paragraph: ten pixels a line and a gap.
pub open spec fn paragraph_height(text: Seq<char>, vw: int) -> int {
    paragraph_lines(text, vw) * 10 + PARA_GAP
}

pub open spec fn paragraph_flow(text: Seq<char>, f: Flow, vw: int) -> Option<Flow> {
    let h = paragraph_height(text, vw);
    if fits_i32(vw - MARGIN_X * 2 - 16) && h <= i32::MAX && f.y + h <= i32::MAX {
        Some(
            Flow {
                elements: f.elements.push(SpecElement::Paragraph { text, y: f.y, h }),
                y: f.y + h,
                pool: f.pool,
            },
        )
    } else {
        None
    }
}

/// An image: the decoded result for its path, taken out of the pool, or a 120-pixel
/// placeholder across the viewport when there is none.
pub open spec fn image_flow(path: Seq<char>, alt: Seq<char>, f: Flow, vw: int) -> Option<Flow> {
    let i = pool_index(f.pool, path);
    if i >= 0 {
        let r = f.pool[i];
        let y2 = f.y + (r.h + PARA_GAP);
        if fits_i32(r.h + PARA_GAP) && fits_i32(y2) {
            Some(
                Flow {
                    elements: f.elements.push(
                        SpecElement::Image {
                            path: r.path,
                            alt: r.alt,
                            y: f.y,
                            w: r.w,
                            h: r.h,
                            image: r.image,
                        },
                    ),
                    y: y2,
                    pool: f.pool.remove(i),
                },
            )
        } else {
            None
        }
    } else if fits_i32(vw - MARGIN_X * 2) && f.y + 120 + PARA_GAP <= i32::MAX {
        Some(
            Flow {
                elements: f.elements.push(
                    SpecElement::Image {
                        path,
                        alt,
                        y: f.y,
                        w: vw - MARGIN_X * 2,
                        h: 120,
                        image: None,
                    },
                ),
                y: f.y + 120 + PARA_GAP,
                pool: f.pool,
            },
        )
    } else {
        None
    }
}

/// Places a node; `None` when a coordinate would leave the `i32` range. Nested documents
/// and comments place nothing.
pub open spec fn flow_node(n: SpecNode, f: Flow, vw: int) -> Option<Flow>
    decreases n,
{
    match n {
        SpecNode::Container { children, .. } => flow_nodes(children, f, vw),
        SpecNode::Section { children, .. } => flow_nodes(children, f, vw),
        SpecNode::Heading { level, text, .. } => heading_flow(level, text, f),
        SpecNode::Paragraph { text, .. } => paragraph_flow(text, f, vw),
        SpecNode::Image { path, alt, .. } => image_flow(path, alt, f, vw),
        _ => Some(f),
    }
}

pub open spec fn flow_nodes(ns: Seq<SpecNode>, f: Flow, vw: int) -> Option<Flow>
    decreases ns,
{
    if ns.len() == 0 {
        Some(f)
    } else {
        match flow_node(ns[0], f, vw) {
            Some(g) => flow_nodes(ns.drop_first(), g, vw),
            None => None,
        }
    }
}

/// The layout of a page: from y = 48 (below the navigation bar), the children of a document
/// (or the node itself) in order, with the image results pooled by path.
pub open spec fn page_flow(n: SpecNode, vw: int, rs: Seq<SpecImageResult>) -> Option<Flow> {
    let f0 = Flow { elements: seq![], y: NAV_H + 16, pool: pool_of(rs) };
    match n {
        SpecNode::Document { children, .. } => flow_nodes(children, f0, vw),
        _ => flow_node(n, f0, vw),
    }
}

/// Whether a page can be laid out within the `i32` range, its 32-pixel bottom margin too.
pub open spec fn page_fits(n: SpecNode, vw: int, rs: Seq<SpecImageResult>) -> bool {
    &&& page_flow(n, vw, rs) is Some
    &&& page_flow(n, vw, rs)->Some_0.y + 32 <= i32::MAX
}

proof fn lemma_pool_index(pool: Seq<SpecImageResult>, path: Seq<char>, k: int)
    requires
        0 <= k <= pool.len(),
        forall|j: int| 0 <= j < k ==> pool[j].path != path,
        k < pool.len() ==> pool[k].path == path,
    ensures
        pool_index(pool, path) == if k < pool.len() {
            k
        } else {
            -1
        },
    decreases k,
{
    if k > 0 {
        let rest = pool.drop_first();
        assert forall|j: int| 0 <= j < k - 1 implies rest[j].path != path by {
            assert(rest[j] == pool[j + 1]);
        }
        if k < pool.len() {
            assert(rest[k - 1] == pool[k]);
        }
        lemma_pool_index(rest, path, k - 1);
    }
}

/// Where the first result for `path` sits in `pool`.
fn find_result(pool: &Vec<ImageResult>, path: &str) -> (r: Option<usize>)
    ensures
        match r {
            Some(k) => k < pool.len() && k == pool_index(results_view(pool@), path@),
            None => pool_index(results_view(pool@), path@) == -1,
        },
{
    let ghost pv = results_view(pool@);
    let mut k: usize = 0;
    while k < pool.len()
        invariant
            k <= pool.len(),
            pv == results_view(pool@),
            forall|j: int| 0 <= j < k ==> pv[j].path != path@,
        decreases pool.len() - k,
    {
        if crate::text::str_eq(pool[k].path.as_str(), path) {
            proof {
                lemma_pool_index(pv, path@, k as int);
            }
            return Some(k);
        }
        k = k + 1;
    }
    proof {
        lemma_pool_index(pv, path@, k as int);
    }
    None
}

/// The elements of a page and its height.
pub struct Layout {
    pub elements: Vec<Element>,
    pub content_h: i32,
}

impl Layout {
    /// Lays out a page `viewport_w` pixels wide, given the decoded images (the results of the
    /// jobs `collect_image_jobs` lists); `page_flow` states where each element goes, and the
    /// content height is the y below the last element plus a 32-pixel margin.
    pub fn build(node: &Node, viewport_w: i32, results: Vec<ImageResult>) -> (l: Self)
        requires
            page_fits(node@, viewport_w as int, results_view(results@)),
        ensures
            elements_view(l.elements@) =~= page_flow(
                node@,
                viewport_w as int,
                results_view(results@),
            )->Some_0.elements,
            l.content_h == page_flow(node@, viewport_w as int, results_view(results@))->Some_0.y
                + 32,
    {
        match Self::try_build(node, viewport_w, results) {
            Some(l) => l,
            None => {
                assert(false);
                Layout { elements: Vec::new(), content_h: 0 }
            },
        }
    }

    /// `build`, or `None` where a coordinate of the page would leave the `i32` range.
    pub fn try_build(node: &Node, viewport_w: i32, results: Vec<ImageResult>) -> (r: Option<Self>)
        ensures
            r is Some <==> page_fits(node@, viewport_w as int, results_view(results@)),
            r matches Some(l) ==> {
                &&& elements_view(l.elements@) =~= page_flow(
                    node@,
                    viewport_w as int,
                    results_view(results@),
                )->Some_0.elements
                &&& l.content_h == page_flow(
                    node@,
                    viewport_w as int,
                    results_view(results@),
                )->Some_0.y + 32
            },
    {
        let ghost rs = results_view(results@);
        let mut pool = pool_results(results);
        let mut elements: Vec<Element> = Vec::new();
        let mut y: i32 = NAV_H + 16;
        proof {
            assert(flow_of(elements@, y, pool@) =~= Flow {
                elements: seq![],
                y: NAV_H + 16,
                pool: pool_of(rs),
            });
        }
        let ok = match node {
            Node::Document { children, .. } => layout_children(
                children,
                &mut elements,
                &mut y,
                viewport_w,
                &mut pool,
            ),
            _ => layout_node(node, &mut elements, &mut y, viewport_w, &mut pool),
        };
        if !ok || y > i32::MAX - 32 {
            return None;
        }
        let content_h = y + 32;
        Some(Layout { elements, content_h })
    }
}

/// The results pooled by path, the last one for each path kept.
fn pool_results(results: Vec<ImageResult>) -> (pool: Vec<ImageResult>)
    ensures
        results_view(pool@) =~= pool_of(results_view(results@)),
{
    let ghost rs = results_view(results@);
    let ghost n = results@.len() as int;
    let mut rest = results;
    let mut pool: Vec<ImageResult> = Vec::new();
    assert(rs.subrange(n, n) =~= Seq::<SpecImageResult>::empty());
    while rest.len() > 0
        invariant
            rest@.len() <= n,
            n == rs.len(),
            results_view(rest@) =~= rs.take(rest@.len() as int),
            results_view(pool@) =~= pool_of(rs.subrange(rest@.len() as int, n)),
        decreases rest.len(),
    {
        let ghost k = rest@.len() as int;
        let ghost tail = rs.subrange(k - 1, n);
        proof {
            assert(tail.drop_first() =~= rs.subrange(k, n));
            assert(results_view(rest@)[k - 1] == rs[k - 1]);
        }
        let r = rest.pop().unwrap();
        proof {
            assert(results_view(rest@) =~= rs.take(k - 1));
            assert(r@ == rs[k - 1]);
            assert(tail[0] == r@);
        }
        match find_result(&pool, r.path.as_str()) {
            Some(_) => {},
            None => {
                let ghost before = results_view(pool@);
                pool.push(r);
                assert(results_view(pool@) =~= before.push(tail[0]));
            },
        }
    }
    assert(rs.subrange(0, n) =~= rs);
    pool
}

/// Places `node` after what is placed; false (with the state left unspecified) where a
/// coordinate would leave the `i32` range.
fn layout_node(
    node: &Node,
    elements: &mut Vec<Element>,
    y: &mut i32,
    vw: i32,
    pool: &mut Vec<ImageResult>,
) -> (ok: bool)
    ensures
        ok == flow_node(node@, flow_of(old(elements)@, *old(y), old(pool)@), vw as int) is Some,
        ok ==> flow_of(final(elements)@, *final(y), final(pool)@) =~= flow_node(
            node@,
            flow_of(old(elements)@, *old(y), old(pool)@),
            vw as int,
        )->Some_0,
    decreases node,
{
    let ghost f = flow_of(elements@, *y, pool@);
    match node {
        Node::Container { children, .. } => layout_children(children, elements, y, vw, pool),
        Node::Section { children, .. } => layout_children(children, elements, y, vw, pool),
        Node::Heading { level, text, .. } => {
            let scale: i32 = if *level == 1 {
                3
            } else {
                2
            };
            assert(scale == heading_scale(*level));
            let rules: i64 = if *level == 1 {
                16
            } else {
                0
            };
            if *y as i64 + PARA_GAP as i64 + rules + 8 * scale as i64 + PARA_GAP as i64 > i32::MAX as i64 {
                return false;
            }
            *y = *y + PARA_GAP;
            if *level == 1 {
                elements.push(Element::HRule { y: *y });
                *y = *y + 8;
            }
            elements.push(Element::Heading { text: copy_string(text), level: *level, y: *y });
            *y = *y + 8 * scale + PARA_GAP;
            if *level == 1 {
                elements.push(Element::HRule { y: *y });
                *y = *y + 8;
            }
            proof {
                let g = heading_flow(*level, text@, f);
                assert(elements_view(elements@) =~= g->Some_0.elements);
            }
            true
        },
        Node::Paragraph { text, .. } => {
            proof {
                lemma_count_fold(words(text@), chars_per_line(vw - MARGIN_X * 2 - 16, 8));
            }
            let h = match paragraph_height_of(text.as_str(), vw) {
                Some(h) => h,
                None => {
                    return false;
                },
            };
            if *y as i64 + h as i64 > i32::MAX as i64 {
                return false;
            }
            elements.push(Element::Paragraph { text: copy_string(text), y: *y, h });
            *y = *y + h;
            proof {
                let g = paragraph_flow(text@, f, vw as int);
                assert(elements_view(elements@) =~= g->Some_0.elements);
            }
            true
        },
        Node::Image { path, alt, .. } => {
            match find_result(pool, path.as_str()) {
                Some(k) => {
                    let rh64 = pool[k].h as i64 + PARA_GAP as i64;
                    if rh64 > i32::MAX as i64 || *y as i64 + rh64 > i32::MAX as i64 || *y as i64
                        + rh64 < i32::MIN as i64 {
                        return false;
                    }
                    let r = pool.remove(k);
                    let rh = r.h + PARA_GAP;
                    elements.push(
                        Element::Image {
                            path: r.path,
                            alt: r.alt,
                            y: *y,
                            w: r.w,
                            h: r.h,
                            image: r.image,
                        },
                    );
                    *y = *y + rh;
                    proof {
                        let g = image_flow(path@, alt@, f, vw as int);
                        assert(results_view(pool@) =~= f.pool.remove(k as int));
                        assert(elements_view(elements@) =~= g->Some_0.elements);
                    }
                    true
                },
                None => {
                    if (vw as i64) - 80 < i32::MIN as i64 || *y as i64 + 134 > i32::MAX as i64 {
                        return false;
                    }
                    let w = vw - MARGIN_X * 2;
                    elements.push(
                        Element::Image {
                            path: copy_string(path),
                            alt: copy_string(alt),
                            y: *y,
                            w,
                            h: 120,
                            image: None,
                        },
                    );
                    *y = *y + (120 + PARA_GAP);
                    proof {
                        let g = image_flow(path@, alt@, f, vw as int);
                        assert(elements_view(elements@) =~= g->Some_0.elements);
                    }
                    true
                },
            }
        },
        _ => true,
    }
}

fn layout_children(
    children: &Vec<Node>,
    elements: &mut Vec<Element>,
    y: &mut i32,
    vw: i32,
    pool: &mut Vec<ImageResult>,
) -> (ok: bool)
    ensures
        ok == flow_nodes(nodes_view(children@), flow_of(old(elements)@, *old(y), old(pool)@), vw as int) is Some,
        ok ==> flow_of(final(elements)@, *final(y), final(pool)@) =~= flow_nodes(
            nodes_view(children@),
            flow_of(old(elements)@, *old(y), old(pool)@),
            vw as int,
        )->Some_0,
    decreases children,
{
    let ghost cs = nodes_view(children@);
    proof {
        lemma_nodes_view(children@);
        assert(cs.skip(0) =~= cs);
    }
    let mut i: usize = 0;
    while i < children.len()
        invariant
            i <= children.len(),
            cs == nodes_view(children@),
            cs.len() == children.len(),
            forall|k: int| 0 <= k < children.len() ==> #[trigger] cs[k] == children@[k]@,
            (flow_nodes(cs.skip(i as int), flow_of(elements@, *y, pool@), vw as int) is Some)
                == (flow_nodes(cs, flow_of(old(elements)@, *old(y), old(pool)@), vw as int) is Some),
            flow_nodes(cs, flow_of(old(elements)@, *old(y), old(pool)@), vw as int) is Some
                ==> flow_nodes(cs.skip(i as int), flow_of(elements@, *y, pool@), vw as int)->Some_0
                =~= flow_nodes(cs, flow_of(old(elements)@, *old(y), old(pool)@), vw as int)->Some_0,
        decreases children.len() - i,
    {
        let ghost rest = cs.skip(i as int);
        let ghost cur = flow_of(elements@, *y, pool@);
        proof {
            assert(rest[0] == cs[i as int]);
            assert(rest.drop_first() =~= cs.skip(i + 1));
        }
        if !layout_node(&children[i], elements, y, vw, pool) {
            assert(flow_nodes(rest, cur, vw as int) is None);
            return false;
        }
        i = i + 1;
    }
    assert(cs.skip(i as int) =~= Seq::<SpecNode>::empty());
    true
}

/// The layout's line count follows the painter's lines word by word.
pub proof fn lemma_folds_agree(ws: Seq<Seq<char>>, per_line: int)
    requires
        forall|k: int| 0 <= k < ws.len() ==> #[trigger] ws[k].len() > 0,
    ensures
        count_fold(ws, per_line).lines == line_fold(ws, per_line).lines.len() + 1,
        count_fold(ws, per_line).len == utf8_len(line_fold(ws, per_line).current),
        ws.len() > 0 ==> line_fold(ws, per_line).current.len() > 0,
        ws.len() == 0 ==> line_fold(ws, per_line).lines.len() == 0 && line_fold(ws, per_line).current.len() == 0,
    decreases ws.len(),
{
    if ws.len() > 0 {
        let init = ws.drop_last();
        assert forall|k: int| 0 <= k < init.len() implies #[trigger] init[k].len() > 0 by {
            assert(init[k] == ws[k]);
        }
        lemma_folds_agree(init, per_line);
        let st = line_fold(init, per_line);
        let w = ws.last();
        assert(w.len() > 0);
        lemma_utf8_len_bounds(st.current);
        lemma_utf8_len_bounds(w);
        lemma_utf8_len_concat(st.current, seq![' ']);
        lemma_utf8_len_concat(st.current + seq![' '], w);
        assert(utf8_len(seq![' ']) == 1) by {
            assert(seq![' '].drop_last() =~= Seq::<char>::empty());
            assert(seq![' '].last() == ' ');
            assert((' ' as u32) == 32);
            assert(crate::text::utf8_width(' ') == 1);
            assert(utf8_len(Seq::<char>::empty()) == 0);
            assert(utf8_len(seq![' ']) == utf8_len(seq![' '].drop_last()) + crate::text::utf8_width(' '));
        }
    }
}


/// The lines a paragraph is painted on: none without words, else as many as the layout
/// counts.
pub proof fn lemma_wrapped_count(text: Seq<char>, per_line: int)
    ensures
        wrapped_lines(text, per_line).len() == if words(text).len() == 0 {
            0
        } else {
            count_fold(words(text), per_line).lines
        },
{
    lemma_words_nonempty(text, 0);
    lemma_folds_agree(words(text), per_line);
}

/// The number of lines a paragraph of `text` takes in a viewport `vw` pixels wide.
pub fn paragraph_line_count(text: &str, vw: i32) -> (n: u128)
    requires
        fits_i32(vw - MARGIN_X * 2 - 16),
    ensures
        n == paragraph_lines(text@, vw as int),
        n <= 0x1_0000_0000_0000_0000,
{
    let max_w = vw - MARGIN_X * 2 - 16;
    let per_line: i32 = if max_w >= 8 {
        max_w / 8
    } else {
        1
    };
    let ghost cpl = chars_per_line(vw - MARGIN_X * 2 - 16, 8);
    assert(per_line == cpl);
    let ws = split_whitespace(text);
    let ghost wv = ws@.map_values(|w: String| w@);
    assert(wv =~= words(text@));
    let mut lines: u128 = 1;
    let mut line_len: u64 = 0;
    let mut i: usize = 0;
    assert(wv.take(0) =~= Seq::<Seq<char>>::empty());
    while i < ws.len()
        invariant
            i <= ws.len(),
            wv == ws@.map_values(|w: String| w@),
            per_line == cpl,
            1 <= cpl < 0x1_0000_0000,
            lines == count_fold(wv.take(i as int), cpl).lines,
            lines <= i + 1,
            line_len == if count_fold(wv.take(i as int), cpl).len < 0x1_0000_0000 {
                count_fold(wv.take(i as int), cpl).len
            } else {
                0x1_0000_0000
            },
            count_fold(wv.take(i as int), cpl).len >= 0,
        decreases ws.len() - i,
    {
        proof {
            assert(wv.take(i + 1).drop_last() =~= wv.take(i as int));
            assert(wv.take(i + 1).last() == wv[i as int]);
        }
        let wl = utf8_len_capped(ws[i].as_str());
        if line_len == 0 {
            line_len = wl;
        } else if wl < per_line as u64 && line_len <= per_line as u64 - 1 - wl {
            line_len = line_len + 1 + wl;
        } else {
            lines = lines + 1;
            line_len = wl;
        }
        i = i + 1;
    }
    assert(wv.take(i as int) =~= wv);
    lines
}

/// The height of a paragraph of `text` in a viewport `vw` pixels wide.
fn paragraph_height_of(text: &str, vw: i32) -> (h: Option<i32>)
    ensures
        h is Some <==> fits_i32(vw - MARGIN_X * 2 - 16) && paragraph_height(text@, vw as int)
            <= i32::MAX,
        h matches Some(v) ==> v == paragraph_height(text@, vw as int),
{
    if (vw as i64) - 96 < i32::MIN as i64 {
        return None;
    }
    let lines = paragraph_line_count(text, vw);
    if lines > (i32::MAX as u128 - 14) / 10 {
        return None;
    }
    Some((lines * 10 + 14) as i32)
}

// ─── Image scaling ──────────────────────────────────────────

/// The source pixel a scaled image takes at (dx, dy): nearest neighbour, rounding down.
pub open spec fn scaled_from(src_size: int, dst_size: int, d: int) -> int {
    d * src_size / dst_size
}

/// Scales `src` to `w` by `h` pixels, each taking the pixel of `src` that its position maps
/// to (rounding down).
pub fn scale_image(src: &Image, w: u32, h: u32) -> (dst: Image)
    requires
        src.wf(),
        w * h * 4 <= u32::MAX,
        w > 0 && h > 0 ==> src.width > 0 && src.height > 0,
    ensures
        dst.wf(),
        dst.width == w,
        dst.height == h,
        forall|dx: int, dy: int, c: int|
            0 <= dx < w && 0 <= dy < h && 0 <= c < 4 ==> #[trigger] dst.at(dx, dy, c) == src.at(
                scaled_from(src.width as int, w as int, dx),
                scaled_from(src.height as int, h as int, dy),
                c,
            ),
{
    let mut dst = Image::new(w, h);
    if w == 0 || h == 0 {
        return dst;
    }
    let ghost sw = src.width as int;
    let ghost sh = src.height as int;
    let mut dy: u32 = 0;
    while dy < h
        invariant
            src.wf(),
            dst.wf(),
            dst.width == w,
            dst.height == h,
            w > 0,
            h > 0,
            sw == src.width,
            sh == src.height,
            sw > 0,
            sh > 0,
            w * h * 4 <= u32::MAX,
            dy <= h,
            forall|qx: int, qy: int, c: int|
                0 <= qx < w && 0 <= qy < dy && 0 <= c < 4 ==> #[trigger] channel(dst.pixels@, w as int, qx, qy, c) == src.at(
                    scaled_from(sw, w as int, qx),
                    scaled_from(sh, h as int, qy),
                    c,
                ),
        decreases h - dy,
    {
        proof {
            assert(dy as int * sh <= u64::MAX) by (nonlinear_arith)
                requires
                    0 <= dy < h,
                    0 < sh,
                    w * h * 4 <= u32::MAX,
                    sh <= u32::MAX,
            ;
        }
        let sy = (dy as u64 * src.height as u64 / h as u64) as u32;
        proof {
            assert(dy as int * sh / (h as int) < sh) by (nonlinear_arith)
                requires
                    0 <= dy < h,
                    sh > 0,
            ;
            assert(dy as int * sh <= u64::MAX) by (nonlinear_arith)
                requires
                    0 <= dy < h,
                    0 < sh,
                    w * h * 4 <= u32::MAX,
                    sh <= u32::MAX,
            ;
            assert(sy == scaled_from(sh, h as int, dy as int));
        }
        let mut dx: u32 = 0;
        while dx < w
            invariant
                src.wf(),
                dst.wf(),
                dst.width == w,
                dst.height == h,
                w > 0,
                h > 0,
                sw == src.width,
                sh == src.height,
                sw > 0,
                sh > 0,
                dy < h,
                dx <= w,
                sy == scaled_from(sh, h as int, dy as int),
                sy < sh,
                w * h * 4 <= u32::MAX,
                forall|qx: int, qy: int, c: int|
                    0 <= qx < w && 0 <= qy < h && 0 <= c < 4 && (qy < dy || (qy == dy && qx < dx))
                        ==> #[trigger] channel(dst.pixels@, w as int, qx, qy, c) == src.at(
                        scaled_from(sw, w as int, qx),
                        scaled_from(sh, h as int, qy),
                        c,
                    ),
            decreases w - dx,
        {
            proof {
                assert(dx as int * sw <= u64::MAX) by (nonlinear_arith)
                    requires
                        0 <= dx < w,
                        0 < sw,
                        w <= u32::MAX,
                        sw <= u32::MAX,
                ;
            }
            let sx = (dx as u64 * src.width as u64 / w as u64) as u32;
            proof {
                assert(dx as int * sw / (w as int) < sw) by (nonlinear_arith)
                    requires
                        0 <= dx < w,
                        sw > 0,
                ;
            }
            let (r, g, b, a) = src.get_pixel(sx, sy);
            let ghost before = dst.pixels@;
            dst.set_pixel(dx, dy, r, g, b, a);
            proof {
                assert(sx == scaled_from(sw, w as int, dx as int));
                crate::platform::lemma_with_pixel(before, w as int, h as int, dx as int, dy as int, r, g, b, a);
                assert forall|qx: int, qy: int, c: int|
                    0 <= qx < w && 0 <= qy < h && 0 <= c < 4 && (qy < dy || (qy == dy && qx < dx + 1))
                        implies #[trigger] channel(dst.pixels@, w as int, qx, qy, c) == src.at(
                        scaled_from(sw, w as int, qx),
                        scaled_from(sh, h as int, qy),
                        c,
                    ) by {
                    assert(channel(dst.pixels@, w as int, qx, qy, c) == if qx == dx && qy == dy {
                        crate::platform::rgba_channel(r, g, b, a, c)
                    } else {
                        channel(before, w as int, qx, qy, c)
                    });
                }
            }
            dx = dx + 1;
        }
        dy = dy + 1;
    }
    dst
}

} // verus!
