//! Layout tree: typed boxes built from the style tree, and the block-model
//! dimension solver that sizes and positions them.
//!
//! Lengths and coordinates are whole pixels in a single top-left-origin
//! coordinate space (x grows right, y grows down).

use vstd::prelude::*;
use crate::css::{Value, Unit};
use crate::style::{StyleNode, StyleNodeV, Display, spec_display, spec_lookup, PropertyMap};
use crate::dom::str_eq;

verus! {

/// A rectangle: origin and size, in pixels.
#[derive(Clone, Copy, Debug)]
pub struct Rect {
    pub x: i64,
    pub y: i64,
    pub width: i64,
    pub height: i64,
}

/// Edge sizes of one box layer: left, right, top and bottom, in pixels.
#[derive(Clone, Copy, Debug)]
pub struct EdgeSizes {
    pub left: i64,
    pub right: i64,
    pub top: i64,
    pub bottom: i64,
}

/// A box's dimensions: the content rectangle and the padding, border and
/// margin edge sizes around it.
#[derive(Clone, Copy, Debug)]
pub struct Dimensions {
    pub content: Rect,
    pub padding: EdgeSizes,
    pub border: EdgeSizes,
    pub margin: EdgeSizes,
}

/// A rectangle over unbounded integers.
pub struct RectV {
    pub x: int,
    pub y: int,
    pub width: int,
    pub height: int,
}

/// Edge sizes over unbounded integers.
pub struct EdgeSizesV {
    pub left: int,
    pub right: int,
    pub top: int,
    pub bottom: int,
}

/// Dimensions over unbounded integers.
pub struct DimensionsV {
    pub content: RectV,
    pub padding: EdgeSizesV,
    pub border: EdgeSizesV,
    pub margin: EdgeSizesV,
}

impl View for Rect {
    type V = RectV;

    open spec fn view(&self) -> RectV {
        RectV { x: self.x as int, y: self.y as int, width: self.width as int, height: self.height as int }
    }
}

impl View for EdgeSizes {
    type V = EdgeSizesV;

    open spec fn view(&self) -> EdgeSizesV {
        EdgeSizesV {
            left: self.left as int,
            right: self.right as int,
            top: self.top as int,
            bottom: self.bottom as int,
        }
    }
}

impl View for Dimensions {
    type V = DimensionsV;

    open spec fn view(&self) -> DimensionsV {
        DimensionsV {
            content: self.content@,
            padding: self.padding@,
            border: self.border@,
            margin: self.margin@,
        }
    }
}

/// The all-zero rectangle.
pub open spec fn spec_zero_rect() -> RectV {
    RectV { x: 0, y: 0, width: 0, height: 0 }
}

/// All-zero edge sizes.
pub open spec fn spec_zero_edges() -> EdgeSizesV {
    EdgeSizesV { left: 0, right: 0, top: 0, bottom: 0 }
}

/// All-zero dimensions.
pub open spec fn spec_zero_dimensions() -> DimensionsV {
    DimensionsV {
        content: spec_zero_rect(),
        padding: spec_zero_edges(),
        border: spec_zero_edges(),
        margin: spec_zero_edges(),
    }
}

impl Default for Rect {
    /// The all-zero rectangle.
    fn default() -> (r: Rect)
        ensures
            r@ == spec_zero_rect(),
    {
        Rect { x: 0, y: 0, width: 0, height: 0 }
    }
}

impl Default for EdgeSizes {
    /// All-zero edge sizes.
    fn default() -> (r: EdgeSizes)
        ensures
            r@ == spec_zero_edges(),
    {
        EdgeSizes { left: 0, right: 0, top: 0, bottom: 0 }
    }
}

impl Default for Dimensions {
    /// All-zero dimensions.
    fn default() -> (r: Dimensions)
        ensures
            r@ == spec_zero_dimensions(),
    {
        Dimensions {
            content: Rect::default(),
            padding: EdgeSizes::default(),
            border: EdgeSizes::default(),
            margin: EdgeSizes::default(),
        }
    }
}

/// Whether an integer fits the pixel type.
pub open spec fn in_i64(v: int) -> bool {
    i64::MIN <= v <= i64::MAX
}

/// A rectangle grown outward by edge sizes on all four sides.
pub open spec fn spec_expanded_by(r: RectV, edge: EdgeSizesV) -> RectV {
    RectV {
        x: r.x - edge.left,
        y: r.y - edge.top,
        width: r.width + edge.left + edge.right,
        height: r.height + edge.top + edge.bottom,
    }
}

impl Rect {
    /// This rectangle grown outward by `edge` on all four sides.
    pub fn expanded_by(&self, edge: EdgeSizes) -> (r: Rect)
        requires
            in_i64(self@.x - edge@.left),
            in_i64(self@.y - edge@.top),
            in_i64(self@.width + edge@.left + edge@.right),
            in_i64(self@.height + edge@.top + edge@.bottom),
        ensures
            r@ == spec_expanded_by(self@, edge@),
    {
        Rect {
            x: self.x - edge.left,
            y: self.y - edge.top,
            width: ((self.width as i128 + edge.left as i128 + edge.right as i128) as i64),
            height: ((self.height as i128 + edge.top as i128 + edge.bottom as i128) as i64),
        }
    }
}

impl Dimensions {
    /// The content rectangle plus padding.
    pub fn padding_box(self) -> (r: Rect)
        requires
            in_i64(self@.content.x - self@.padding.left),
            in_i64(self@.content.y - self@.padding.top),
            in_i64(self@.content.width + self@.padding.left + self@.padding.right),
            in_i64(self@.content.height + self@.padding.top + self@.padding.bottom),
        ensures
            r@ == spec_expanded_by(self@.content, self@.padding),
    {
        self.content.expanded_by(self.padding)
    }

    /// The padding box plus borders.
    pub fn border_box(self) -> (r: Rect)
        requires
            in_i64(self@.content.x - self@.padding.left),
            in_i64(self@.content.y - self@.padding.top),
            in_i64(self@.content.width + self@.padding.left + self@.padding.right),
            in_i64(self@.content.height + self@.padding.top + self@.padding.bottom),
            in_i64(self@.content.x - self@.padding.left - self@.border.left),
            in_i64(self@.content.y - self@.padding.top - self@.border.top),
            in_i64(
                self@.content.width + self@.padding.left + self@.padding.right + self@.border.left
                    + self@.border.right,
            ),
            in_i64(
                self@.content.height + self@.padding.top + self@.padding.bottom + self@.border.top
                    + self@.border.bottom,
            ),
        ensures
            r@ == spec_expanded_by(spec_expanded_by(self@.content, self@.padding), self@.border),
    {
        self.padding_box().expanded_by(self.border)
    }

    /// The border box plus margins.
    pub fn margin_box(self) -> (r: Rect)
        requires
            in_i64(self@.content.x - self@.padding.left),
            in_i64(self@.content.y - self@.padding.top),
            in_i64(self@.content.width + self@.padding.left + self@.padding.right),
            in_i64(self@.content.height + self@.padding.top + self@.padding.bottom),
            in_i64(self@.content.x - self@.padding.left - self@.border.left),
            in_i64(self@.content.y - self@.padding.top - self@.border.top),
            in_i64(
                self@.content.width + self@.padding.left + self@.padding.right + self@.border.left
                    + self@.border.right,
            ),
            in_i64(
                self@.content.height + self@.padding.top + self@.padding.bottom + self@.border.top
                    + self@.border.bottom,
            ),
            in_i64(self@.content.x - self@.padding.left - self@.border.left - self@.margin.left),
            in_i64(self@.content.y - self@.padding.top - self@.border.top - self@.margin.top),
            in_i64(
                self@.content.width + self@.padding.left + self@.padding.right + self@.border.left
                    + self@.border.right + self@.margin.left + self@.margin.right,
            ),
            in_i64(
                self@.content.height + self@.padding.top + self@.padding.bottom + self@.border.top
                    + self@.border.bottom + self@.margin.top + self@.margin.bottom,
            ),
        ensures
            r@ == spec_expanded_by(
                spec_expanded_by(spec_expanded_by(self@.content, self@.padding), self@.border),
                self@.margin,
            ),
    {
        self.border_box().expanded_by(self.margin)
    }
}

/// A box's kind: a block-level or inline-level box carrying its style
/// node's resolved properties, or an anonymous block wrapping a run of
/// inline children.
#[derive(Debug)]
pub enum BoxType {
    BlockNode(PropertyMap),
    InlineNode(PropertyMap),
    AnonymousBlock,
}

/// One box of the layout tree with its dimensions and child boxes.
#[derive(Debug)]
pub struct LayoutBox {
    pub dimensions: Dimensions,
    pub box_type: BoxType,
    pub children: Vec<LayoutBox>,
}

/// A box kind over mathematical maps.
pub enum BoxTypeV {
    BlockNode(Map<Seq<char>, Value>),
    InlineNode(Map<Seq<char>, Value>),
    AnonymousBlock,
}

/// The mathematical shape of a layout box.
pub struct LayoutBoxV {
    pub dimensions: DimensionsV,
    pub box_type: BoxTypeV,
    pub children: Seq<LayoutBoxV>,
}

/// The mathematical shape of a box kind.
pub open spec fn bt_view(t: BoxType) -> BoxTypeV {
    match t {
        BoxType::BlockNode(m) => BoxTypeV::BlockNode(m@),
        BoxType::InlineNode(m) => BoxTypeV::InlineNode(m@),
        BoxType::AnonymousBlock => BoxTypeV::AnonymousBlock,
    }
}

/// The mathematical shape of a layout box.
pub open spec fn lb_view(b: LayoutBox) -> LayoutBoxV
    decreases b,
{
    LayoutBoxV {
        dimensions: b.dimensions@,
        box_type: bt_view(b.box_type),
        children: lb_views(b.children@),
    }
}

/// The shapes of a sequence of layout boxes, in order.
pub open spec fn lb_views(cs: Seq<LayoutBox>) -> Seq<LayoutBoxV>
    decreases cs,
{
    if cs.len() == 0 {
        Seq::empty()
    } else {
        seq![lb_view(cs[0])] + lb_views(cs.drop_first())
    }
}

/// `lb_views` maps `lb_view` over the sequence, element by element.
pub proof fn lemma_lb_views_index(cs: Seq<LayoutBox>)
    ensures
        lb_views(cs).len() == cs.len(),
        forall|i: int| 0 <= i < cs.len() ==> lb_views(cs)[i] == lb_view(cs[i]),
    decreases cs.len(),
{
    if cs.len() > 0 {
        lemma_lb_views_index(cs.drop_first());
    }
}

impl View for LayoutBox {
    type V = LayoutBoxV;

    open spec fn view(&self) -> LayoutBoxV {
        lb_view(*self)
    }
}

impl LayoutBox {
    /// A box of the given kind, with zero dimensions and no children.
    pub fn new(box_type: BoxType) -> (r: LayoutBox)
        ensures
            r.box_type == box_type,
            r.dimensions@ == spec_zero_dimensions(),
            r.children@.len() == 0,
    {
        LayoutBox { box_type, dimensions: Dimensions::default(), children: Vec::new() }
    }

    /// The resolved properties of the style node this box was built from;
    /// anonymous blocks carry none.
    pub fn get_style_node<'a>(&'a self) -> (r: &'a PropertyMap)
        requires
            !(self.box_type is AnonymousBlock),
        ensures
            self.box_type is BlockNode ==> bt_view(self.box_type) == BoxTypeV::BlockNode(r@),
            self.box_type is InlineNode ==> bt_view(self.box_type) == BoxTypeV::InlineNode(r@),
    {
        match self.box_type {
            BoxType::BlockNode(ref node) => node,
            BoxType::InlineNode(ref node) => node,
            BoxType::AnonymousBlock => unreached(),
        }
    }

    /// The box that receives this box's inline children: an inline or
    /// anonymous box is its own inline container; a block box delegates
    /// to its last child when that child is already an anonymous block,
    /// else to a newly appended one — so contiguous inline runs share one
    /// wrapper and runs separated by a block child get separate wrappers.
    pub fn get_inline_container<'a>(&'a mut self) -> (ret: &'a mut LayoutBox)
        ensures
            (old(self).box_type is InlineNode || old(self).box_type is AnonymousBlock)
                ==> (*ret == *old(self) && *final(self) == *final(ret)),
            (old(self).box_type is BlockNode && old(self).children@.len() > 0
                && old(self).children@.last().box_type is AnonymousBlock)
                ==> (*ret == old(self).children@.last()
                    && final(self).box_type == old(self).box_type
                    && final(self).dimensions == old(self).dimensions
                    && final(self).children@ == old(self).children@.update(
                        old(self).children@.len() - 1,
                        *final(ret),
                    )),
            (old(self).box_type is BlockNode && !(old(self).children@.len() > 0
                && old(self).children@.last().box_type is AnonymousBlock))
                ==> (ret.box_type is AnonymousBlock
                    && ret.dimensions@ == spec_zero_dimensions()
                    && ret.children@.len() == 0
                    && final(self).box_type == old(self).box_type
                    && final(self).dimensions == old(self).dimensions
                    && final(self).children@ == old(self).children@.push(*final(ret))),
    {
        let is_block = matches!(self.box_type, BoxType::BlockNode(_));
        if !is_block {
            return self;
        }
        let n = self.children.len();
        let has_anon = n > 0 && matches!(self.children[n - 1].box_type, BoxType::AnonymousBlock);
        if !has_anon {
            self.children.push(LayoutBox::new(BoxType::AnonymousBlock));
        }
        let last = self.children.len() - 1;
        let ghost before = self.children@;
        let ret = vstd::std_specs::vec::vec_index_mut(&mut self.children, last);
        proof {
            if !has_anon {
                assert(old(self).children@.push(before.last()).update(
                    before.len() - 1,
                    *final(ret),
                ) =~= old(self).children@.push(*final(ret)));
            }
        }
        ret
    }
}

/// An anonymous block box with the given children.
pub open spec fn spec_anon(children: Seq<LayoutBoxV>) -> LayoutBoxV {
    LayoutBoxV {
        dimensions: spec_zero_dimensions(),
        box_type: BoxTypeV::AnonymousBlock,
        children,
    }
}

/// The unsized box a style node builds: kind from its display value, zero
/// dimensions, children grouped by `spec_build_children`.
pub open spec fn spec_build(s: StyleNodeV) -> LayoutBoxV
    decreases s, 0int,
{
    let parent_block = spec_display(s.specified_values) is Block;
    LayoutBoxV {
        dimensions: spec_zero_dimensions(),
        box_type: if parent_block {
            BoxTypeV::BlockNode(s.specified_values)
        } else {
            BoxTypeV::InlineNode(s.specified_values)
        },
        children: spec_build_children(s.children, Seq::empty(), parent_block),
    }
}

/// Fold the style children into child boxes from the left: block children
/// append directly; under a block parent an inline child goes into the
/// trailing anonymous block, newly appended unless one is already last, so
/// a contiguous inline run shares one wrapper; `display: none` children
/// are skipped.
pub open spec fn spec_build_children(
    cs: Seq<StyleNodeV>,
    acc: Seq<LayoutBoxV>,
    parent_block: bool,
) -> Seq<LayoutBoxV>
    decreases cs, 2int,
{
    if cs.len() == 0 {
        acc
    } else {
        spec_build_children(cs.drop_first(), spec_append_child(acc, cs[0], parent_block), parent_block)
    }
}

/// Append the box of one style child to the accumulated child boxes.
pub open spec fn spec_append_child(
    acc: Seq<LayoutBoxV>,
    c: StyleNodeV,
    parent_block: bool,
) -> Seq<LayoutBoxV>
    decreases c, 1int,
{
    match spec_display(c.specified_values) {
        Display::Block => acc.push(spec_build(c)),
        Display::Inline => if parent_block {
            if acc.len() > 0 && acc.last().box_type is AnonymousBlock {
                acc.drop_last().push(
                    LayoutBoxV {
                        dimensions: acc.last().dimensions,
                        box_type: acc.last().box_type,
                        children: acc.last().children.push(spec_build(c)),
                    },
                )
            } else {
                acc.push(spec_anon(seq![spec_build(c)]))
            }
        } else {
            acc.push(spec_build(c))
        },
        Display::DisplayNone => acc,
    }
}

/// Mapping the box shapes commutes with appending one box.
pub proof fn lemma_lb_views_push(cs: Seq<LayoutBox>, x: LayoutBox)
    ensures
        lb_views(cs.push(x)) == lb_views(cs).push(lb_view(x)),
{
    lemma_lb_views_index(cs.push(x));
    lemma_lb_views_index(cs);
    assert(lb_views(cs.push(x)) =~= lb_views(cs).push(lb_view(x)));
}

/// Folding from the left decomposes over a split of the child list.
pub proof fn lemma_build_children_split(
    pre: Seq<StyleNodeV>,
    post: Seq<StyleNodeV>,
    acc: Seq<LayoutBoxV>,
    parent_block: bool,
)
    ensures
        spec_build_children(pre + post, acc, parent_block) == spec_build_children(
            post,
            spec_build_children(pre, acc, parent_block),
            parent_block,
        ),
    decreases pre.len(),
{
    if pre.len() == 0 {
        assert(pre + post =~= post);
    } else {
        assert((pre + post).drop_first() =~= pre.drop_first() + post);
        assert((pre + post)[0] == pre[0]);
        lemma_build_children_split(
            pre.drop_first(),
            post,
            spec_append_child(acc, pre[0], parent_block),
            parent_block,
        );
    }
}

/// Build the layout tree of a style node: a box per styled node, with
/// contiguous inline runs under a block parent wrapped in one anonymous
/// block each.  The root must not resolve to `display: none`.
pub fn layout_tree(style_node: &StyleNode) -> (r: LayoutBox)
    requires
        !(spec_display(style_node@.specified_values) is DisplayNone),
    ensures
        r@ == spec_build(style_node@),
    decreases *style_node,
{
    let parent_block = match style_node.display() {
        Display::Block => true,
        Display::Inline => false,
        Display::DisplayNone => unreached(),
    };
    let mut root = LayoutBox::new(
        if parent_block {
            BoxType::BlockNode(style_node.specified_values.duplicate())
        } else {
            BoxType::InlineNode(style_node.specified_values.duplicate())
        },
    );
    let ghost all: Seq<StyleNodeV> = style_node@.children;
    proof {
        crate::style::lemma_sn_views_index(style_node.children@);
        assert(all.take(0) =~= Seq::<StyleNodeV>::empty());
    }
    let mut i: usize = 0;
    while i < style_node.children.len()
        invariant
            i <= style_node.children@.len(),
            all == crate::style::sn_views(style_node.children@),
            all.len() == style_node.children@.len(),
            forall|j: int|
                0 <= j < style_node.children@.len() ==> all[j] == crate::style::sn_view(
                    style_node.children@[j],
                ),
            lb_views(root.children@) == spec_build_children(
                all.take(i as int),
                Seq::empty(),
                parent_block,
            ),
            root.dimensions@ == spec_zero_dimensions(),
            bt_view(root.box_type) == (if parent_block {
                BoxTypeV::BlockNode(style_node@.specified_values)
            } else {
                BoxTypeV::InlineNode(style_node@.specified_values)
            }),
        decreases style_node.children@.len() - i,
    {
        let ghost prev = lb_views(root.children@);
        let ghost cv = all[i as int];
        proof {
            assert(all.take(i as int + 1) =~= all.take(i as int) + seq![cv]);
            lemma_build_children_split(all.take(i as int), seq![cv], Seq::empty(), parent_block);
            assert(seq![cv].drop_first() =~= Seq::<StyleNodeV>::empty());
            assert(spec_build_children(seq![cv], prev, parent_block) == spec_build_children(
                seq![cv].drop_first(),
                spec_append_child(prev, cv, parent_block),
                parent_block,
            ));
            assert(spec_build_children(
                Seq::<StyleNodeV>::empty(),
                spec_append_child(prev, cv, parent_block),
                parent_block,
            ) == spec_append_child(prev, cv, parent_block));
            assert(spec_build_children(all.take(i as int + 1), Seq::empty(), parent_block)
                == spec_append_child(prev, cv, parent_block));
        }
        let child = &style_node.children[i];
        match child.display() {
            Display::Block => {
                let b = layout_tree(child);
                let ghost pc = root.children@;
                root.children.push(b);
                proof {
                    lemma_lb_views_push(pc, b);
                }
            },
            Display::Inline => {
                let b = layout_tree(child);
                if parent_block {
                    let n = root.children.len();
                    proof {
                        lemma_lb_views_index(root.children@);
                    }
                    let has_anon = n > 0 && matches!(
                        root.children[n - 1].box_type,
                        BoxType::AnonymousBlock
                    );
                    if has_anon {
                        let ghost pc = root.children@;
                        let mut anon = match root.children.pop() {
                            Some(a) => a,
                            None => unreached(),
                        };
                        let ghost ac = anon.children@;
                        anon.children.push(b);
                        let ghost pc2 = root.children@;
                        root.children.push(anon);
                        proof {
                            assert(pc2 =~= pc.drop_last());
                            lemma_lb_views_push(ac, b);
                            lemma_lb_views_push(pc2, anon);
                            lemma_lb_views_index(pc);
                            lemma_lb_views_index(pc2);
                            assert(lb_views(pc2) =~= prev.drop_last());
                            assert(lb_view(anon) == LayoutBoxV {
                                dimensions: prev.last().dimensions,
                                box_type: prev.last().box_type,
                                children: prev.last().children.push(lb_view(b)),
                            });
                            assert(lb_views(root.children@) == spec_append_child(
                                prev,
                                cv,
                                parent_block,
                            ));
                        }
                    } else {
                        let mut anon = LayoutBox::new(BoxType::AnonymousBlock);
                        anon.children.push(b);
                        let ghost pc = root.children@;
                        root.children.push(anon);
                        proof {
                            assert(lb_views(anon.children@) =~= seq![lb_view(b)]) by {
                                lemma_lb_views_index(anon.children@);
                            }
                            assert(lb_view(anon) == spec_anon(seq![lb_view(b)]));
                            lemma_lb_views_push(pc, anon);
                        }
                    }
                } else {
                    let ghost pc = root.children@;
                    root.children.push(b);
                    proof {
                        lemma_lb_views_push(pc, b);
                    }
                }
            },
            Display::DisplayNone => {},
        }
        i = i + 1;
    }
    proof {
        assert(all.take(i as int) =~= all);
    }
    root
}

/// The pixel count a value contributes: its length, or zero for keywords
/// and colors.
pub open spec fn spec_to_px(v: Value) -> int {
    match v {
        Value::Length(n, _) => n as int,
        _ => 0,
    }
}

/// Whether a value is the keyword `auto`.
pub open spec fn spec_is_auto(v: Value) -> bool {
    match v {
        Value::Keyword(s) => s@ == "auto"@,
        _ => false,
    }
}

/// The zero pixel length, the default for unset edge properties.
pub open spec fn spec_zero_len() -> Value {
    Value::Length(0i64, Unit::Px)
}

/// The pixel count of a value.
fn to_px(v: &Value) -> (r: i64)
    ensures
        r as int == spec_to_px(*v),
{
    match v {
        Value::Length(n, _) => *n,
        _ => 0,
    }
}

/// Whether a value is the keyword `auto`.
fn is_auto(v: &Value) -> (r: bool)
    ensures
        r == spec_is_auto(*v),
{
    match v {
        Value::Keyword(s) => str_eq(s.as_str(), "auto"),
        _ => false,
    }
}

/// The resolved value of `name` in the map, falling back to the shorthand
/// `fallback`, then to `default`.
fn lookup_value<'a>(m: &'a PropertyMap, name: &str, fallback: &str, default: &'a Value) -> (r:
    &'a Value)
    ensures
        *r == spec_lookup(m@, name@, fallback@, *default),
{
    match m.get(name) {
        Some(v) => v,
        None => match m.get(fallback) {
            Some(v) => v,
            None => default,
        },
    }
}

/// The pixel count of `name`, falling back to the shorthand `fallback`,
/// then to zero.
fn lookup_px(m: &PropertyMap, name: &str, fallback: &str) -> (r: i64)
    ensures
        r as int == spec_to_px(spec_lookup(m@, name@, fallback@, spec_zero_len())),
{
    let zero = Value::Length(0, Unit::Px);
    to_px(lookup_value(m, name, fallback, &zero))
}

/// Narrow a wide intermediate to the pixel type, reporting overflow.
fn px_i64(v: i128) -> (r: Option<i64>)
    ensures
        match r {
            Some(x) => in_i64(v as int) && x as int == v as int,
            None => !in_i64(v as int),
        },
{
    if v >= -9223372036854775808i128 && v <= 9223372036854775807i128 {
        Some(v as i64)
    } else {
        None
    }
}

/// The horizontal values width resolution produces for a block box.
pub struct WidthSolution {
    pub width: int,
    pub margin_left: int,
    pub margin_right: int,
    pub border_left: int,
    pub border_right: int,
    pub padding_left: int,
    pub padding_right: int,
}

/// Width resolution of a block box against a containing width: edge values
/// are read specific-then-shorthand-then-zero; the sum of the six edges is
/// `total`; auto margins are clamped to zero when an explicit width
/// overflows; the remaining `underflow` is distributed by the decision
/// table over (width is auto, margin-left is auto, margin-right is auto),
/// the over-constrained case absorbing it into margin-right alone.
pub open spec fn spec_solve_width(m: Map<Seq<char>, Value>, cbw: int) -> WidthSolution {
    let width_auto = if m.contains_key("width"@) {
        spec_is_auto(m["width"@])
    } else {
        true
    };
    let width_px = if m.contains_key("width"@) {
        spec_to_px(m["width"@])
    } else {
        0
    };
    let ml_v = spec_lookup(m, "margin-left"@, "margin"@, spec_zero_len());
    let mr_v = spec_lookup(m, "margin-right"@, "margin"@, spec_zero_len());
    let bl = spec_to_px(spec_lookup(m, "border-left"@, "border"@, spec_zero_len()));
    let br = spec_to_px(spec_lookup(m, "border-right"@, "border"@, spec_zero_len()));
    let pl = spec_to_px(spec_lookup(m, "padding-left"@, "padding"@, spec_zero_len()));
    let pr = spec_to_px(spec_lookup(m, "padding-right"@, "padding"@, spec_zero_len()));
    let ml = spec_to_px(ml_v);
    let mr = spec_to_px(mr_v);
    let total = ml + mr + bl + br + pl + pr;
    let clamp = !width_auto && total > cbw;
    let ml_auto = spec_is_auto(ml_v) && !clamp;
    let mr_auto = spec_is_auto(mr_v) && !clamp;
    let underflow = cbw - total;
    if !width_auto && !ml_auto && !mr_auto {
        WidthSolution {
            width: width_px,
            margin_left: ml,
            margin_right: mr + underflow,
            border_left: bl,
            border_right: br,
            padding_left: pl,
            padding_right: pr,
        }
    } else if !width_auto && ml_auto && !mr_auto {
        WidthSolution {
            width: width_px,
            margin_left: underflow,
            margin_right: mr,
            border_left: bl,
            border_right: br,
            padding_left: pl,
            padding_right: pr,
        }
    } else if !width_auto && !ml_auto && mr_auto {
        WidthSolution {
            width: width_px,
            margin_left: ml,
            margin_right: underflow,
            border_left: bl,
            border_right: br,
            padding_left: pl,
            padding_right: pr,
        }
    } else if !width_auto && ml_auto && mr_auto {
        WidthSolution {
            width: width_px,
            margin_left: underflow / 2,
            margin_right: underflow / 2,
            border_left: bl,
            border_right: br,
            padding_left: pl,
            padding_right: pr,
        }
    } else {
        let ml2 = if spec_is_auto(ml_v) {
            underflow
        } else {
            ml
        };
        let mr2 = if spec_is_auto(mr_v) {
            underflow
        } else {
            mr
        };
        if underflow >= 0 {
            WidthSolution {
                width: underflow,
                margin_left: ml2,
                margin_right: mr2,
                border_left: bl,
                border_right: br,
                padding_left: pl,
                padding_right: pr,
            }
        } else {
            WidthSolution {
                width: 0,
                margin_left: ml2,
                margin_right: mr2 + underflow,
                border_left: bl,
                border_right: br,
                padding_left: pl,
                padding_right: pr,
            }
        }
    }
}

/// Whether every computed horizontal value fits the pixel type; the edge
/// values are read directly from the style and always fit.
pub open spec fn spec_width_fits(w: WidthSolution) -> bool {
    in_i64(w.width) && in_i64(w.margin_left) && in_i64(w.margin_right)
}

/// The vertical edge values and the content origin position resolution
/// produces for a block box.
pub struct PositionSolution {
    pub x: int,
    pub y: int,
    pub margin_top: int,
    pub margin_bottom: int,
    pub border_top: int,
    pub border_bottom: int,
    pub padding_top: int,
    pub padding_bottom: int,
}

/// Position resolution of a block box: vertical edges are read
/// specific-then-shorthand-then-zero (top and bottom margins are never
/// auto-resolved); the content origin is the containing block's origin
/// displaced by the left and top edges, and by the containing block's
/// accumulated content height, which acts as the vertical flow cursor.
pub open spec fn spec_solve_position(
    m: Map<Seq<char>, Value>,
    w: WidthSolution,
    cb: DimensionsV,
) -> PositionSolution {
    let mt = spec_to_px(spec_lookup(m, "margin-top"@, "margin"@, spec_zero_len()));
    let mb = spec_to_px(spec_lookup(m, "margin-bottom"@, "margin"@, spec_zero_len()));
    let bt = spec_to_px(spec_lookup(m, "border-top"@, "border"@, spec_zero_len()));
    let bb = spec_to_px(spec_lookup(m, "border-bottom"@, "border"@, spec_zero_len()));
    let pt = spec_to_px(spec_lookup(m, "padding-top"@, "padding"@, spec_zero_len()));
    let pb = spec_to_px(spec_lookup(m, "padding-bottom"@, "padding"@, spec_zero_len()));
    PositionSolution {
        x: cb.content.x + w.margin_left + w.border_left + w.padding_left,
        y: cb.content.y + cb.content.height + mt + bt + pt,
        margin_top: mt,
        margin_bottom: mb,
        border_top: bt,
        border_bottom: bb,
        padding_top: pt,
        padding_bottom: pb,
    }
}

/// Whether the computed content origin fits the pixel type.
pub open spec fn spec_position_fits(p: PositionSolution) -> bool {
    in_i64(p.x) && in_i64(p.y)
}

/// The dimensions a block box has after width and position resolution,
/// before its children contribute height.
pub open spec fn spec_dims_after(w: WidthSolution, p: PositionSolution) -> DimensionsV {
    DimensionsV {
        content: RectV { x: p.x, y: p.y, width: w.width, height: 0 },
        padding: EdgeSizesV {
            left: w.padding_left,
            right: w.padding_right,
            top: p.padding_top,
            bottom: p.padding_bottom,
        },
        border: EdgeSizesV {
            left: w.border_left,
            right: w.border_right,
            top: p.border_top,
            bottom: p.border_bottom,
        },
        margin: EdgeSizesV {
            left: w.margin_left,
            right: w.margin_right,
            top: p.margin_top,
            bottom: p.margin_bottom,
        },
    }
}

/// Dimensions with the content height replaced.
pub open spec fn spec_with_height(d: DimensionsV, h: int) -> DimensionsV {
    DimensionsV {
        content: RectV { x: d.content.x, y: d.content.y, width: d.content.width, height: h },
        padding: d.padding,
        border: d.border,
        margin: d.margin,
    }
}

/// The height of a box's margin box: content height plus the vertical
/// padding, border and margin edges.
pub open spec fn spec_margin_box_height(d: DimensionsV) -> int {
    d.content.height + d.padding.top + d.padding.bottom + d.border.top + d.border.bottom
        + d.margin.top + d.margin.bottom
}

/// The content height of a block box after its children are laid out: an
/// explicit pixel `height` property overrides the accumulated value.
pub open spec fn spec_final_height(m: Map<Seq<char>, Value>, accumulated: int) -> int {
    if m.contains_key("height"@) && m["height"@] is Length {
        spec_to_px(m["height"@])
    } else {
        accumulated
    }
}

/// Lay out one box within its containing block: inline and anonymous
/// boxes are left unchanged; a block box resolves its width, then its
/// position, then lays out its children while accumulating their
/// margin-box heights, then resolves its height.  The result is `None`
/// exactly when some computed pixel value cannot be represented.
pub open spec fn spec_layout(b: LayoutBoxV, cb: DimensionsV) -> Option<LayoutBoxV>
    decreases b, 1int,
{
    match b.box_type {
        BoxTypeV::BlockNode(m) => spec_layout_block(b, m, cb),
        _ => Some(b),
    }
}

/// Block layout of `b`, whose resolved properties are `m`, within `cb`.
pub open spec fn spec_layout_block(
    b: LayoutBoxV,
    m: Map<Seq<char>, Value>,
    cb: DimensionsV,
) -> Option<LayoutBoxV>
    decreases b, 0int,
{
    let w = spec_solve_width(m, cb.content.width);
    if !spec_width_fits(w) {
        None
    } else {
        let p = spec_solve_position(m, w, cb);
        if !spec_position_fits(p) {
            None
        } else {
            let d0 = spec_dims_after(w, p);
            match spec_layout_children(b.children, d0) {
                None => None,
                Some((kids, h)) => Some(
                    LayoutBoxV {
                        dimensions: spec_with_height(d0, spec_final_height(m, h)),
                        box_type: b.box_type,
                        children: kids,
                    },
                ),
            }
        }
    }
}

/// Lay out child boxes in order against the parent's dimensions `d`: each
/// child sees the parent's content rectangle with the height accumulated
/// so far, and its margin-box height is folded into that accumulator
/// immediately, so the running total is the next child's vertical offset.
/// Yields the laid-out children and the final accumulated height.
pub open spec fn spec_layout_children(cs: Seq<LayoutBoxV>, d: DimensionsV) -> Option<
    (Seq<LayoutBoxV>, int),
>
    decreases cs, 2int,
{
    if cs.len() == 0 {
        Some((Seq::empty(), d.content.height))
    } else {
        match spec_layout(cs[0], d) {
            None => None,
            Some(c2) => {
                let h2 = d.content.height + spec_margin_box_height(c2.dimensions);
                if !in_i64(h2) {
                    None
                } else {
                    match spec_layout_children(cs.drop_first(), spec_with_height(d, h2)) {
                        None => None,
                        Some((rest, hf)) => Some((seq![c2] + rest, hf)),
                    }
                }
            },
        }
    }
}

/// A `display: none` child contributes no box to the fold, and hence no
/// height to its parent's flow.
pub proof fn lemma_none_child_no_box(acc: Seq<LayoutBoxV>, c: StyleNodeV, parent_block: bool)
    requires
        spec_display(c.specified_values) is DisplayNone,
    ensures
        spec_append_child(acc, c, parent_block) == acc,
{
}

/// The sum of the margin-box heights of a run of boxes.
pub open spec fn spec_margin_box_heights(ks: Seq<LayoutBoxV>) -> int
    decreases ks,
{
    if ks.len() == 0 {
        0
    } else {
        spec_margin_box_height(ks[0].dimensions) + spec_margin_box_heights(ks.drop_first())
    }
}

/// Vertical accumulation: when the children of a block box lay out
/// successfully, the accumulated content height is the initial flow
/// cursor plus the sum of the children's margin-box heights, each folded
/// in as soon as that child is laid out.
pub proof fn lemma_children_height_sum(
    cs: Seq<LayoutBoxV>,
    d: DimensionsV,
    kids: Seq<LayoutBoxV>,
    h: int,
)
    requires
        spec_layout_children(cs, d) == Some((kids, h)),
    ensures
        h == d.content.height + spec_margin_box_heights(kids),
    decreases cs.len(),
{
    if cs.len() == 0 {
        assert(kids.len() == 0);
    } else {
        let c2 = spec_layout(cs[0], d)->Some_0;
        let h2 = d.content.height + spec_margin_box_height(c2.dimensions);
        let d2 = spec_with_height(d, h2);
        let rest = spec_layout_children(cs.drop_first(), d2)->Some_0.0;
        assert(kids == seq![c2] + rest);
        lemma_children_height_sum(cs.drop_first(), d2, rest, h);
        assert(kids[0] == c2);
        assert(kids.drop_first() =~= rest);
    }
}

/// Resolved horizontal pixel values of a block box.
struct WidthParts {
    width: i64,
    margin_left: i64,
    margin_right: i64,
    border_left: i64,
    border_right: i64,
    padding_left: i64,
    padding_right: i64,
}

impl View for WidthParts {
    type V = WidthSolution;

    closed spec fn view(&self) -> WidthSolution {
        WidthSolution {
            width: self.width as int,
            margin_left: self.margin_left as int,
            margin_right: self.margin_right as int,
            border_left: self.border_left as int,
            border_right: self.border_right as int,
            padding_left: self.padding_left as int,
            padding_right: self.padding_right as int,
        }
    }
}

/// Resolved vertical pixel values and content origin of a block box.
struct PositionParts {
    x: i64,
    y: i64,
    margin_top: i64,
    margin_bottom: i64,
    border_top: i64,
    border_bottom: i64,
    padding_top: i64,
    padding_bottom: i64,
}

impl View for PositionParts {
    type V = PositionSolution;

    closed spec fn view(&self) -> PositionSolution {
        PositionSolution {
            x: self.x as int,
            y: self.y as int,
            margin_top: self.margin_top as int,
            margin_bottom: self.margin_bottom as int,
            border_top: self.border_top as int,
            border_bottom: self.border_bottom as int,
            padding_top: self.padding_top as int,
            padding_bottom: self.padding_bottom as int,
        }
    }
}

/// Resolve a block box's width and horizontal edges against its
/// containing block, per the auto-margin decision table.
fn calculate_block_width(style: &PropertyMap, containing_block: &Dimensions) -> (r: Option<
    WidthParts,
>)
    ensures
        match r {
            Some(w) => spec_width_fits(spec_solve_width(style@, containing_block@.content.width))
                && w@ == spec_solve_width(style@, containing_block@.content.width),
            None => !spec_width_fits(spec_solve_width(style@, containing_block@.content.width)),
        },
{
    let ghost sol = spec_solve_width(style@, containing_block@.content.width);
    let zero = Value::Length(0, Unit::Px);
    let (width_auto, width_px) = match style.get("width") {
        Some(v) => (is_auto(v), to_px(v)),
        None => (true, 0i64),
    };
    let ml_v = lookup_value(style, "margin-left", "margin", &zero);
    let ml_is_auto = is_auto(ml_v);
    let ml_px = to_px(ml_v);
    let mr_v = lookup_value(style, "margin-right", "margin", &zero);
    let mr_is_auto = is_auto(mr_v);
    let mr_px = to_px(mr_v);
    let bl = lookup_px(style, "border-left", "border");
    let br = lookup_px(style, "border-right", "border");
    let pl = lookup_px(style, "padding-left", "padding");
    let pr = lookup_px(style, "padding-right", "padding");
    let total: i128 = ml_px as i128 + mr_px as i128 + bl as i128 + br as i128 + pl as i128
        + pr as i128;
    let cbw: i128 = containing_block.content.width as i128;
    let clamp = !width_auto && total > cbw;
    let ml_auto = ml_is_auto && !clamp;
    let mr_auto = mr_is_auto && !clamp;
    let underflow: i128 = cbw - total;
    if !width_auto && !ml_auto && !mr_auto {
        let mr_new = match px_i64(mr_px as i128 + underflow) {
            Some(v) => v,
            None => {
                return None;
            },
        };
        Some(
            WidthParts {
                width: width_px,
                margin_left: ml_px,
                margin_right: mr_new,
                border_left: bl,
                border_right: br,
                padding_left: pl,
                padding_right: pr,
            },
        )
    } else if !width_auto && ml_auto && !mr_auto {
        let ml_new = match px_i64(underflow) {
            Some(v) => v,
            None => {
                return None;
            },
        };
        Some(
            WidthParts {
                width: width_px,
                margin_left: ml_new,
                margin_right: mr_px,
                border_left: bl,
                border_right: br,
                padding_left: pl,
                padding_right: pr,
            },
        )
    } else if !width_auto && !ml_auto && mr_auto {
        let mr_new = match px_i64(underflow) {
            Some(v) => v,
            None => {
                return None;
            },
        };
        Some(
            WidthParts {
                width: width_px,
                margin_left: ml_px,
                margin_right: mr_new,
                border_left: bl,
                border_right: br,
                padding_left: pl,
                padding_right: pr,
            },
        )
    } else if !width_auto && ml_auto && mr_auto {
        assert(underflow >= 0);
        let half: i128 = ((underflow as u128) / 2u128) as i128;
        assert(half as int == (containing_block@.content.width - (ml_px + mr_px + bl + br + pl
            + pr)) / 2);
        let m_new = match px_i64(half) {
            Some(v) => v,
            None => {
                return None;
            },
        };
        Some(
            WidthParts {
                width: width_px,
                margin_left: m_new,
                margin_right: m_new,
                border_left: bl,
                border_right: br,
                padding_left: pl,
                padding_right: pr,
            },
        )
    } else {
        let ml2: i128 = if ml_is_auto {
            underflow
        } else {
            ml_px as i128
        };
        let mr2: i128 = if mr_is_auto {
            underflow
        } else {
            mr_px as i128
        };
        let ml_new = match px_i64(ml2) {
            Some(v) => v,
            None => {
                return None;
            },
        };
        if underflow >= 0 {
            let w_new = match px_i64(underflow) {
                Some(v) => v,
                None => {
                    return None;
                },
            };
            let mr_new = match px_i64(mr2) {
                Some(v) => v,
                None => {
                    return None;
                },
            };
            Some(
                WidthParts {
                    width: w_new,
                    margin_left: ml_new,
                    margin_right: mr_new,
                    border_left: bl,
                    border_right: br,
                    padding_left: pl,
                    padding_right: pr,
                },
            )
        } else {
            let mr_new = match px_i64(mr2 + underflow) {
                Some(v) => v,
                None => {
                    return None;
                },
            };
            Some(
                WidthParts {
                    width: 0,
                    margin_left: ml_new,
                    margin_right: mr_new,
                    border_left: bl,
                    border_right: br,
                    padding_left: pl,
                    padding_right: pr,
                },
            )
        }
    }
}

/// Resolve a block box's vertical edges and content origin within its
/// containing block; the containing block's accumulated content height is
/// the vertical flow cursor.
fn calculate_block_position(
    style: &PropertyMap,
    w: &WidthParts,
    containing_block: &Dimensions,
) -> (r: Option<PositionParts>)
    ensures
        match r {
            Some(p) => spec_position_fits(spec_solve_position(style@, w@, containing_block@))
                && p@ == spec_solve_position(style@, w@, containing_block@),
            None => !spec_position_fits(spec_solve_position(style@, w@, containing_block@)),
        },
{
    let mt = lookup_px(style, "margin-top", "margin");
    let mb = lookup_px(style, "margin-bottom", "margin");
    let bt = lookup_px(style, "border-top", "border");
    let bb = lookup_px(style, "border-bottom", "border");
    let pt = lookup_px(style, "padding-top", "padding");
    let pb = lookup_px(style, "padding-bottom", "padding");
    let x_wide: i128 = containing_block.content.x as i128 + w.margin_left as i128
        + w.border_left as i128 + w.padding_left as i128;
    let y_wide: i128 = containing_block.content.y as i128 + containing_block.content.height as i128
        + mt as i128 + bt as i128 + pt as i128;
    let x = match px_i64(x_wide) {
        Some(v) => v,
        None => {
            return None;
        },
    };
    let y = match px_i64(y_wide) {
        Some(v) => v,
        None => {
            return None;
        },
    };
    Some(
        PositionParts {
            x,
            y,
            margin_top: mt,
            margin_bottom: mb,
            border_top: bt,
            border_bottom: bb,
            padding_top: pt,
            padding_bottom: pb,
        },
    )
}

/// The dimensions a block box has after width and position resolution.
fn dims_from_parts(w: &WidthParts, p: &PositionParts) -> (d: Dimensions)
    ensures
        d@ == spec_dims_after(w@, p@),
{
    Dimensions {
        content: Rect { x: p.x, y: p.y, width: w.width, height: 0 },
        padding: EdgeSizes {
            left: w.padding_left,
            right: w.padding_right,
            top: p.padding_top,
            bottom: p.padding_bottom,
        },
        border: EdgeSizes {
            left: w.border_left,
            right: w.border_right,
            top: p.border_top,
            bottom: p.border_bottom,
        },
        margin: EdgeSizes {
            left: w.margin_left,
            right: w.margin_right,
            top: p.margin_top,
            bottom: p.margin_bottom,
        },
    }
}

impl LayoutBox {
    /// Lay out this box and its subtree within the given containing block,
    /// yielding the sized box.  Inline and anonymous boxes are returned
    /// unchanged; for a block box, width comes first (it depends on the
    /// containing width), then position (it depends on the flow cursor),
    /// then the children (each against this box's content rectangle), then
    /// height.  `None` exactly when a computed pixel value cannot be
    /// represented.
    #[verifier::loop_isolation(false)]
    pub fn layout(self, containing_block: Dimensions) -> (r: Option<LayoutBox>)
        ensures
            match r {
                Some(b) => spec_layout(self@, containing_block@) == Some(b@),
                None => spec_layout(self@, containing_block@) is None,
            },
        decreases self,
    {
        let ghost orig = self;
        let LayoutBox { dimensions, box_type, children } = self;
        let style = match box_type {
            BoxType::BlockNode(m) => m,
            other => {
                let rb = LayoutBox { dimensions, box_type: other, children };
                proof {
                    assert(rb == orig);
                }
                return Some(rb);
            },
        };
        proof {
            assert(orig.box_type == BoxType::BlockNode(style));
            assert(orig@.box_type == BoxTypeV::BlockNode(style@));
            assert(spec_layout(orig@, containing_block@) == spec_layout_block(
                orig@,
                style@,
                containing_block@,
            ));
        }
        let w = match calculate_block_width(&style, &containing_block) {
            Some(w) => w,
            None => {
                return None;
            },
        };
        let p = match calculate_block_position(&style, &w, &containing_block) {
            Some(p) => p,
            None => {
                return None;
            },
        };
        let mut d = dims_from_parts(&w, &p);
        let ghost d0v = d@;
        let ghost all_cv = lb_views(orig.children@);
        let mut rest = children;
        let mut done: Vec<LayoutBox> = Vec::new();
        proof {
            assert(lb_views(done@) =~= Seq::<LayoutBoxV>::empty());
            assert(rest@ =~= orig.children@.skip(0));
            assert(spec_with_height(d0v, d0v.content.height) == d0v);
            assert(lb_views(done@) + Seq::<LayoutBoxV>::empty() =~= lb_views(done@));
        }
        while rest.len() > 0
            invariant
                done@.len() + rest@.len() == orig.children@.len(),
                rest@ == orig.children@.skip(done@.len() as int),
                d@ == spec_with_height(d0v, d@.content.height),
                all_cv == lb_views(orig.children@),
                ({
                    match spec_layout_children(lb_views(rest@), d@) {
                        Some((kids, h)) => spec_layout_children(all_cv, d0v) == Some(
                            (lb_views(done@) + kids, h),
                        ),
                        None => spec_layout_children(all_cv, d0v) is None,
                    }
                }),
            decreases rest@.len(),
        {
            let ghost rest_prev = rest@;
            let ghost done_prev = done@;
            let ghost dv_prev = d@;
            let child = rest.remove(0);
            proof {
                assert(rest_prev[0] == child);
                assert(rest_prev.drop_first() =~= rest@);
                lemma_lb_views_index(rest_prev);
                lemma_lb_views_index(rest@);
                assert(lb_views(rest_prev) =~= seq![lb_view(child)] + lb_views(rest@));
                assert(orig.children@[done_prev.len() as int] == child);
                assert(decreases_to!(orig => child));
            }
            let c2 = match child.layout(d) {
                Some(c) => c,
                None => {
                    proof {
                        assert(lb_views(rest_prev)[0] == lb_view(child));
                        assert(spec_layout(lb_views(rest_prev)[0], dv_prev) is None);
                        assert(spec_layout_children(lb_views(rest_prev), dv_prev) is None);
                        assert(spec_layout_children(all_cv, d0v) is None);
                    }
                    return None;
                },
            };
            let mbh: i128 = c2.dimensions.content.height as i128
                + c2.dimensions.padding.top as i128 + c2.dimensions.padding.bottom as i128
                + c2.dimensions.border.top as i128 + c2.dimensions.border.bottom as i128
                + c2.dimensions.margin.top as i128 + c2.dimensions.margin.bottom as i128;
            proof {
                assert(mbh as int == spec_margin_box_height(lb_view(c2).dimensions));
            }
            let h2 = match px_i64(d.content.height as i128 + mbh) {
                Some(h) => h,
                None => {
                    proof {
                        assert(lb_views(rest_prev)[0] == lb_view(child));
                        assert(spec_layout(lb_views(rest_prev)[0], dv_prev) == Some(lb_view(c2)));
                        assert(!in_i64(
                            dv_prev.content.height + spec_margin_box_height(lb_view(c2).dimensions),
                        ));
                        assert(spec_layout_children(lb_views(rest_prev), dv_prev) is None);
                        assert(spec_layout_children(all_cv, d0v) is None);
                    }
                    return None;
                },
            };
            d.content.height = h2;
            done.push(c2);
            proof {
                assert(d@ == spec_with_height(dv_prev, h2 as int));
                assert(spec_with_height(dv_prev, h2 as int) == spec_with_height(d0v, h2 as int));
                lemma_lb_views_push(done_prev, c2);
                assert(rest@ =~= orig.children@.skip(done@.len() as int)) by {
                    assert(rest_prev.drop_first() =~= orig.children@.skip(
                        done_prev.len() as int,
                    ).drop_first());
                }
                assert(lb_views(rest_prev)[0] == lb_view(child));
                assert(spec_layout(lb_views(rest_prev)[0], dv_prev) == Some(lb_view(c2)));
                assert(dv_prev.content.height + spec_margin_box_height(lb_view(c2).dimensions)
                    == h2 as int);
                assert(in_i64(h2 as int));
                assert(lb_views(rest_prev).drop_first() == lb_views(rest@));
                match spec_layout_children(lb_views(rest@), d@) {
                    Some((kids, h)) => {
                        assert(spec_layout_children(lb_views(rest_prev), dv_prev) == Some(
                            (seq![lb_view(c2)] + kids, h),
                        ));
                        assert(lb_views(done_prev) + (seq![lb_view(c2)] + kids) =~= lb_views(done@)
                            + kids);
                    },
                    None => {
                        assert(spec_layout_children(lb_views(rest_prev), dv_prev) is None);
                    },
                }
            }
        }
        let ghost h_loop = d@.content.height;
        proof {
            assert(lb_views(rest@) =~= Seq::<LayoutBoxV>::empty());
            assert(spec_layout_children(lb_views(rest@), d@) == Some(
                (Seq::<LayoutBoxV>::empty(), h_loop),
            ));
            assert(lb_views(done@) + Seq::<LayoutBoxV>::empty() =~= lb_views(done@));
            assert(spec_layout_children(all_cv, d0v) == Some((lb_views(done@), h_loop)));
        }
        match style.get("height") {
            Some(v) => {
                match v {
                    Value::Length(h, Unit::Px) => {
                        d.content.height = *h;
                    },
                    _ => {},
                }
            },
            None => {},
        }
        proof {
            assert(d@ == spec_with_height(d0v, spec_final_height(style@, h_loop)));
        }
        let result = LayoutBox {
            dimensions: d,
            box_type: BoxType::BlockNode(style),
            children: done,
        };
        proof {
            assert(result@.children == lb_views(done@));
            assert(spec_layout(orig@, containing_block@) == Some(result@));
        }
        Some(result)
    }
}

/// The boxes of a sequence of style nodes, one box each, in order.
pub open spec fn spec_builds(cs: Seq<StyleNodeV>) -> Seq<LayoutBoxV>
    decreases cs,
{
    if cs.len() == 0 {
        Seq::empty()
    } else {
        seq![spec_build(cs[0])] + spec_builds(cs.drop_first())
    }
}

/// `spec_builds` maps `spec_build` over the sequence, element by element.
pub proof fn lemma_spec_builds_index(cs: Seq<StyleNodeV>)
    ensures
        spec_builds(cs).len() == cs.len(),
        forall|i: int| 0 <= i < cs.len() ==> spec_builds(cs)[i] == spec_build(cs[i]),
    decreases cs.len(),
{
    if cs.len() > 0 {
        lemma_spec_builds_index(cs.drop_first());
    }
}

/// The fold never looks below the top of a nonempty accumulator suffix:
/// a prefix of already-built boxes passes through unchanged.
proof fn lemma_build_frame(
    cs: Seq<StyleNodeV>,
    a1: Seq<LayoutBoxV>,
    a2: Seq<LayoutBoxV>,
    pb: bool,
)
    requires
        a2.len() > 0,
    ensures
        spec_build_children(cs, a1 + a2, pb) == a1 + spec_build_children(cs, a2, pb),
    decreases cs.len(),
{
    if cs.len() == 0 {
    } else {
        let acc2 = spec_append_child(a2, cs[0], pb);
        assert((a1 + a2).last() == a2.last());
        assert(spec_append_child(a1 + a2, cs[0], pb) == a1 + acc2 && acc2.len() > 0) by {
            match spec_display(cs[0].specified_values) {
                Display::Block => {
                    assert((a1 + a2).push(spec_build(cs[0])) =~= a1 + a2.push(spec_build(cs[0])));
                },
                Display::Inline => {
                    if pb && a2.last().box_type is AnonymousBlock {
                        assert((a1 + a2).drop_last() =~= a1 + a2.drop_last());
                        assert((a1 + a2).drop_last().push(
                            LayoutBoxV {
                                dimensions: a2.last().dimensions,
                                box_type: a2.last().box_type,
                                children: a2.last().children.push(spec_build(cs[0])),
                            },
                        ) =~= a1 + acc2);
                    } else if pb {
                        assert((a1 + a2).push(spec_anon(seq![spec_build(cs[0])])) =~= a1 + acc2);
                    } else {
                        assert((a1 + a2).push(spec_build(cs[0])) =~= a1 + acc2);
                    }
                },
                Display::DisplayNone => {
                    assert(a1 + a2 =~= a1 + acc2);
                },
            }
        }
        lemma_build_frame(cs.drop_first(), a1, acc2, pb);
    }
}

/// When the next child is block-level (or there is none), the accumulated
/// boxes pass through unchanged ahead of the rest of the fold.
proof fn lemma_build_block_start(cs: Seq<StyleNodeV>, acc: Seq<LayoutBoxV>, pb: bool)
    requires
        cs.len() == 0 || spec_display(cs[0].specified_values) is Block,
    ensures
        spec_build_children(cs, acc, pb) == acc + spec_build_children(cs, Seq::empty(), pb),
{
    if cs.len() == 0 {
        assert(acc + Seq::<LayoutBoxV>::empty() =~= acc);
    } else {
        let b = spec_build(cs[0]);
        assert(spec_append_child(acc, cs[0], pb) == acc.push(b));
        assert(acc.push(b) =~= acc + seq![b]);
        assert(spec_append_child(Seq::<LayoutBoxV>::empty(), cs[0], pb) =~= seq![b]);
        lemma_build_frame(cs.drop_first(), acc, seq![b], pb);
    }
}

/// Inline children poured onto a trailing anonymous block are all
/// absorbed into it, in order.
proof fn lemma_build_inline_absorb(run: Seq<StyleNodeV>, acc: Seq<LayoutBoxV>)
    requires
        forall|i: int|
            0 <= i < run.len() ==> spec_display(#[trigger] run[i].specified_values) is Inline,
        acc.len() > 0,
        acc.last().box_type is AnonymousBlock,
    ensures
        spec_build_children(run, acc, true) == acc.drop_last().push(
            LayoutBoxV {
                dimensions: acc.last().dimensions,
                box_type: acc.last().box_type,
                children: acc.last().children + spec_builds(run),
            },
        ),
    decreases run.len(),
{
    if run.len() == 0 {
        assert(acc.last().children + spec_builds(run) =~= acc.last().children);
        assert(acc.drop_last().push(
            LayoutBoxV {
                dimensions: acc.last().dimensions,
                box_type: acc.last().box_type,
                children: acc.last().children,
            },
        ) =~= acc);
    } else {
        let b0 = spec_build(run[0]);
        let top = LayoutBoxV {
            dimensions: acc.last().dimensions,
            box_type: acc.last().box_type,
            children: acc.last().children.push(b0),
        };
        let acc2 = acc.drop_last().push(top);
        assert(spec_append_child(acc, run[0], true) == acc2);
        assert(acc2.last() == top);
        assert(forall|i: int|
            0 <= i < run.drop_first().len() ==> spec_display(
                #[trigger] run.drop_first()[i].specified_values,
            ) is Inline);
        lemma_build_inline_absorb(run.drop_first(), acc2);
        assert(acc2.drop_last() =~= acc.drop_last());
        assert(top.children + spec_builds(run.drop_first()) =~= acc.last().children + spec_builds(
            run,
        ));
    }
}

/// A nonempty inline run poured onto an accumulator whose last box is not
/// anonymous produces exactly one new anonymous block hosting the whole
/// run.
proof fn lemma_build_inline_run(run: Seq<StyleNodeV>, acc: Seq<LayoutBoxV>)
    requires
        run.len() > 0,
        forall|i: int|
            0 <= i < run.len() ==> spec_display(#[trigger] run[i].specified_values) is Inline,
        acc.len() == 0 || !(acc.last().box_type is AnonymousBlock),
    ensures
        spec_build_children(run, acc, true) == acc.push(spec_anon(spec_builds(run))),
{
    let b0 = spec_build(run[0]);
    let acc2 = spec_append_child(acc, run[0], true);
    assert(acc2 == acc.push(spec_anon(seq![b0])));
    assert(forall|i: int|
        0 <= i < run.drop_first().len() ==> spec_display(
            #[trigger] run.drop_first()[i].specified_values,
        ) is Inline);
    lemma_build_inline_absorb(run.drop_first(), acc2);
    assert(acc2.drop_last() =~= acc);
    assert(seq![b0] + spec_builds(run.drop_first()) =~= spec_builds(run));
    assert(acc2.last() == spec_anon(seq![b0]));
    assert(LayoutBoxV {
        dimensions: acc2.last().dimensions,
        box_type: acc2.last().box_type,
        children: acc2.last().children + spec_builds(run.drop_first()),
    } == spec_anon(spec_builds(run)));
}

/// After a child list ending in a block-level child, the last built box is
/// that child's block box.
proof fn lemma_build_ends_block(pre: Seq<StyleNodeV>, acc: Seq<LayoutBoxV>, pb: bool)
    requires
        pre.len() > 0,
        spec_display(pre.last().specified_values) is Block,
    ensures
        spec_build_children(pre, acc, pb).len() > 0,
        spec_build_children(pre, acc, pb).last() == spec_build(pre.last()),
{
    assert(pre.drop_last() + seq![pre.last()] =~= pre);
    lemma_build_children_split(pre.drop_last(), seq![pre.last()], acc, pb);
    let a = spec_build_children(pre.drop_last(), acc, pb);
    assert(seq![pre.last()].drop_first() =~= Seq::<StyleNodeV>::empty());
    assert(spec_build_children(seq![pre.last()], a, pb) == spec_build_children(
        seq![pre.last()].drop_first(),
        spec_append_child(a, pre.last(), pb),
        pb,
    ));
    assert(spec_build_children(
        Seq::<StyleNodeV>::empty(),
        spec_append_child(a, pre.last(), pb),
        pb,
    ) == spec_append_child(a, pre.last(), pb));
    assert(spec_append_child(a, pre.last(), pb) == a.push(spec_build(pre.last())));
}

/// Box-tree shape: under a block parent, a maximal run of K consecutive
/// inline children is hosted by exactly one anonymous block holding
/// exactly those K children's boxes, in order — never one wrapper per
/// child, never split across two wrappers.
pub proof fn lemma_inline_run_one_anonymous_block(
    pre: Seq<StyleNodeV>,
    run: Seq<StyleNodeV>,
    post: Seq<StyleNodeV>,
)
    requires
        run.len() > 0,
        forall|i: int|
            0 <= i < run.len() ==> spec_display(#[trigger] run[i].specified_values) is Inline,
        pre.len() == 0 || spec_display(pre.last().specified_values) is Block,
        post.len() == 0 || spec_display(post[0].specified_values) is Block,
    ensures
        spec_build_children(pre + run + post, Seq::empty(), true) == spec_build_children(
            pre,
            Seq::empty(),
            true,
        ) + seq![spec_anon(spec_builds(run))] + spec_build_children(post, Seq::empty(), true),
        spec_builds(run).len() == run.len(),
        forall|i: int| 0 <= i < run.len() ==> spec_builds(run)[i] == spec_build(run[i]),
{
    let e = Seq::<LayoutBoxV>::empty();
    assert(pre + run + post =~= pre + (run + post));
    lemma_build_children_split(pre, run + post, e, true);
    let a = spec_build_children(pre, e, true);
    lemma_build_children_split(run, post, a, true);
    if pre.len() > 0 {
        lemma_build_ends_block(pre, e, true);
        assert(!(a.last().box_type is AnonymousBlock));
    }
    lemma_build_inline_run(run, a);
    let b = a.push(spec_anon(spec_builds(run)));
    lemma_build_block_start(post, b, true);
    assert(b + spec_build_children(post, e, true) =~= a + seq![spec_anon(spec_builds(run))]
        + spec_build_children(post, e, true));
    lemma_spec_builds_index(run);
}

/// When an explicit width leaves both margins auto, the underflow is
/// split evenly: the two margins come out equal, each half of the
/// containing width minus the border and padding edges.  The explicit
/// width itself is not part of the edge sum, so it does not reduce the
/// split.
pub proof fn lemma_auto_margins_split_evenly(m: Map<Seq<char>, Value>, cbw: int)
    requires
        m.contains_key("width"@),
        !spec_is_auto(m["width"@]),
        spec_is_auto(spec_lookup(m, "margin-left"@, "margin"@, spec_zero_len())),
        spec_is_auto(spec_lookup(m, "margin-right"@, "margin"@, spec_zero_len())),
        spec_to_px(spec_lookup(m, "border-left"@, "border"@, spec_zero_len())) == 0,
        spec_to_px(spec_lookup(m, "border-right"@, "border"@, spec_zero_len())) == 0,
        spec_to_px(spec_lookup(m, "padding-left"@, "padding"@, spec_zero_len())) == 0,
        spec_to_px(spec_lookup(m, "padding-right"@, "padding"@, spec_zero_len())) == 0,
        cbw >= 0,
    ensures
        spec_solve_width(m, cbw).margin_left == spec_solve_width(m, cbw).margin_right,
        spec_solve_width(m, cbw).margin_left == cbw / 2,
        spec_solve_width(m, cbw).width == spec_to_px(m["width"@]),
{
}

/// With `width: auto` and all six edge values zero and not auto, the
/// resolved content width fills the whole non-negative containing width.
pub proof fn lemma_auto_width_fills_containing(m: Map<Seq<char>, Value>, cbw: int)
    requires
        !m.contains_key("width"@) || spec_is_auto(m["width"@]),
        !spec_is_auto(spec_lookup(m, "margin-left"@, "margin"@, spec_zero_len())),
        !spec_is_auto(spec_lookup(m, "margin-right"@, "margin"@, spec_zero_len())),
        spec_to_px(spec_lookup(m, "margin-left"@, "margin"@, spec_zero_len())) == 0,
        spec_to_px(spec_lookup(m, "margin-right"@, "margin"@, spec_zero_len())) == 0,
        spec_to_px(spec_lookup(m, "border-left"@, "border"@, spec_zero_len())) == 0,
        spec_to_px(spec_lookup(m, "border-right"@, "border"@, spec_zero_len())) == 0,
        spec_to_px(spec_lookup(m, "padding-left"@, "padding"@, spec_zero_len())) == 0,
        spec_to_px(spec_lookup(m, "padding-right"@, "padding"@, spec_zero_len())) == 0,
        cbw >= 0,
    ensures
        spec_solve_width(m, cbw).width == cbw,
        spec_solve_width(m, cbw).margin_left == 0,
        spec_solve_width(m, cbw).margin_right == 0,
{
}

} // verus!
