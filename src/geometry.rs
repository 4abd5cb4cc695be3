use vstd::prelude::*;
use crate::binarytree::{BinaryTree, HorizontalOrVertical, RATIO_SCALE};

verus! {

/// Axis-aligned rectangle: origin and extent.
#[derive(Debug, Clone, Copy, PartialEq, Eq, Structural)]
pub struct Rect {
    pub x: i64,
    pub y: i64,
    pub width: i64,
    pub height: i64,
}

/// Space left around each tiled window: `horizontal` on its left and right
/// edges, `vertical` on its top and bottom edges.
#[derive(Debug, Clone, Copy, PartialEq, Eq, Structural)]
pub struct Gaps {
    pub horizontal: i32,
    pub vertical: i32,
}

impl Rect {
    /// Non-negative extent, with both corners in the range of screen
    /// coordinates.
    pub open spec fn wf(self) -> bool {
        &&& 0 <= self.width
        &&& 0 <= self.height
        &&& i32::MIN <= self.x
        &&& i32::MIN <= self.y
        &&& self.x + self.width <= i32::MAX
        &&& self.y + self.height <= i32::MAX
    }

    pub open spec fn area(self) -> int {
        self.width * self.height
    }

    /// `other` lies inside `self`.
    pub open spec fn encloses(self, other: Rect) -> bool {
        &&& self.x <= other.x
        &&& self.y <= other.y
        &&& other.x + other.width <= self.x + self.width
        &&& other.y + other.height <= self.y + self.height
    }

    /// The interiors of `self` and `other` do not meet.
    pub open spec fn disjoint(self, other: Rect) -> bool {
        ||| self.x + self.width <= other.x
        ||| other.x + other.width <= self.x
        ||| self.y + self.height <= other.y
        ||| other.y + other.height <= self.y
    }

    pub open spec fn contains_point_spec(self, px: i64, py: i64) -> bool {
        self.x <= px < self.x + self.width && self.y <= py < self.y + self.height
    }

    /// Whether the point lies inside the rectangle (right and bottom edges
    /// excluded).
    pub fn contains_point(&self, px: i64, py: i64) -> (r: bool)
        ensures
            r == self.contains_point_spec(px, py),
    {
        let (x, y, w, h) = (self.x as i128, self.y as i128, self.width as i128, self.height as i128);
        x <= px as i128 && (px as i128) < x + w && y <= py as i128 && (py as i128) < y + h
    }
}

/// Extent given to the first child: `ratio` thousandths of `len`, rounded
/// down.
pub open spec fn first_extent(len: i64, ratio: u32) -> int {
    (len * ratio) / (RATIO_SCALE as int)
}

/// Part of `r` that goes to the left child of a split.
pub open spec fn first_part(r: Rect, axis: HorizontalOrVertical, ratio: u32) -> Rect {
    match axis {
        HorizontalOrVertical::Horizontal => Rect {
            width: first_extent(r.width, ratio) as i64,
            ..r
        },
        HorizontalOrVertical::Vertical => Rect {
            height: first_extent(r.height, ratio) as i64,
            ..r
        },
    }
}

/// Part of `r` that goes to the right child of a split: the remainder, so
/// that the two parts cover `r` exactly.
pub open spec fn second_part(r: Rect, axis: HorizontalOrVertical, ratio: u32) -> Rect {
    match axis {
        HorizontalOrVertical::Horizontal => {
            let w = first_extent(r.width, ratio);
            Rect { x: (r.x + w) as i64, width: (r.width - w) as i64, ..r }
        },
        HorizontalOrVertical::Vertical => {
            let h = first_extent(r.height, ratio);
            Rect { y: (r.y + h) as i64, height: (r.height - h) as i64, ..r }
        },
    }
}

/// Rectangles of the leaves of `t`, left to right, when `t` is laid out in
/// `r` (before gaps are applied).
pub open spec fn layout(t: BinaryTree, r: Rect) -> Seq<Rect>
    decreases t,
{
    match t {
        BinaryTree::Empty => seq![],
        BinaryTree::Window(_) => seq![r],
        BinaryTree::Split { split, ratio, left, right, .. } => layout(*left, first_part(r, split, ratio))
            + layout(*right, second_part(r, split, ratio)),
    }
}

/// `r` shrunk by the gaps on all four edges.
pub open spec fn inset(r: Rect, g: Gaps) -> Rect {
    Rect {
        x: (r.x + g.horizontal) as i64,
        y: (r.y + g.vertical) as i64,
        width: (r.width - 2 * g.horizontal) as i64,
        height: (r.height - 2 * g.vertical) as i64,
    }
}

/// Sum of the areas of `s`.
pub open spec fn total_area(s: Seq<Rect>) -> int
    decreases s.len(),
{
    if s.len() == 0 {
        0
    } else {
        s[0].area() + total_area(s.drop_first())
    }
}

proof fn lemma_first_extent(len: i64, ratio: u32)
    requires
        0 <= len,
        ratio <= RATIO_SCALE,
    ensures
        0 <= first_extent(len, ratio) <= len,
{
    assert(0 <= len * ratio <= len * 1000) by (nonlinear_arith)
        requires
            0 <= len,
            ratio <= 1000,
    ;
    assert((len * 1000) / 1000 == len) by (nonlinear_arith);
    assert((len * ratio) / 1000 <= (len * 1000) / 1000) by (nonlinear_arith)
        requires
            len * ratio <= len * 1000,
    ;
}

proof fn lemma_parts(r: Rect, axis: HorizontalOrVertical, ratio: u32)
    requires
        r.wf(),
        ratio <= RATIO_SCALE,
    ensures
        first_part(r, axis, ratio).wf(),
        second_part(r, axis, ratio).wf(),
        r.encloses(first_part(r, axis, ratio)),
        r.encloses(second_part(r, axis, ratio)),
        first_part(r, axis, ratio).area() + second_part(r, axis, ratio).area() == r.area(),
{
    lemma_first_extent(r.width, ratio);
    lemma_first_extent(r.height, ratio);
    let a = first_part(r, axis, ratio);
    let b = second_part(r, axis, ratio);
    match axis {
        HorizontalOrVertical::Horizontal => {
            assert(a.width * r.height + b.width * r.height == r.width * r.height) by (nonlinear_arith)
                requires
                    a.width + b.width == r.width,
            ;
        },
        HorizontalOrVertical::Vertical => {
            assert(r.width * a.height + r.width * b.height == r.width * r.height) by (nonlinear_arith)
                requires
                    a.height + b.height == r.height,
            ;
        },
    }
}

proof fn lemma_total_area_concat(a: Seq<Rect>, b: Seq<Rect>)
    ensures
        total_area(a + b) == total_area(a) + total_area(b),
    decreases a.len(),
{
    if a.len() == 0 {
        assert(a + b =~= b);
    } else {
        lemma_total_area_concat(a.drop_first(), b);
        assert((a + b).drop_first() =~= a.drop_first() + b);
    }
}

/// Every leaf rectangle of a layout is well formed and lies inside the
/// rectangle it was laid out in; there is one per leaf.
pub proof fn lemma_layout_inside(t: BinaryTree, r: Rect)
    requires
        t.wf(),
        r.wf(),
    ensures
        layout(t, r).len() == t.leaves().len(),
        forall|i: int|
            0 <= i < layout(t, r).len() ==> (#[trigger] layout(t, r)[i]).wf() && r.encloses(
                layout(t, r)[i],
            ),
    decreases t,
{
    if let BinaryTree::Split { split, ratio, left, right, .. } = t {
        let a = first_part(r, split, ratio);
        let b = second_part(r, split, ratio);
        lemma_parts(r, split, ratio);
        lemma_layout_inside(*left, a);
        lemma_layout_inside(*right, b);
        let la = layout(*left, a);
        let lb = layout(*right, b);
        assert forall|i: int| 0 <= i < layout(t, r).len() implies (#[trigger] layout(t, r)[i]).wf()
            && r.encloses(layout(t, r)[i]) by {
            if i < la.len() {
                assert(layout(t, r)[i] == la[i]);
                assert(la[i].wf() && a.encloses(la[i]));
            } else {
                assert(layout(t, r)[i] == lb[i - la.len()]);
                assert(lb[i - la.len()].wf() && b.encloses(lb[i - la.len()]));
            }
        }
    } else if let BinaryTree::Window(_) = t {
        assert(layout(t, r)[0] == r);
    }
}

proof fn lemma_apart(
    a: Rect,
    b: Rect,
    p: Rect,
    q: Rect,
    axis: HorizontalOrVertical,
    r: Rect,
    ratio: u32,
)
    requires
        r.wf(),
        ratio <= RATIO_SCALE,
        a == first_part(r, axis, ratio),
        b == second_part(r, axis, ratio),
        a.encloses(p),
        b.encloses(q),
    ensures
        p.disjoint(q),
        q.disjoint(p),
{
    lemma_first_extent(r.width, ratio);
    lemma_first_extent(r.height, ratio);
}

/// Leaf rectangles of a layout never overlap.
pub proof fn lemma_layout_disjoint(t: BinaryTree, r: Rect)
    requires
        t.wf(),
        r.wf(),
    ensures
        forall|i: int, j: int|
            0 <= i < layout(t, r).len() && 0 <= j < layout(t, r).len() && i != j ==> (#[trigger] layout(
                t,
                r,
            )[i]).disjoint(#[trigger] layout(t, r)[j]),
    decreases t,
{
    if let BinaryTree::Split { split, ratio, left, right, .. } = t {
        let a = first_part(r, split, ratio);
        let b = second_part(r, split, ratio);
        lemma_parts(r, split, ratio);
        lemma_layout_inside(*left, a);
        lemma_layout_inside(*right, b);
        lemma_layout_disjoint(*left, a);
        lemma_layout_disjoint(*right, b);
        let la = layout(*left, a);
        let lb = layout(*right, b);
        let l = layout(t, r);
        assert forall|i: int, j: int| 0 <= i < l.len() && 0 <= j < l.len() && i != j implies (
        #[trigger] l[i]).disjoint(#[trigger] l[j]) by {
            if i < la.len() && j < la.len() {
                assert(l[i] == la[i] && l[j] == la[j]);
                assert(la[i].disjoint(la[j]));
            } else if i >= la.len() && j >= la.len() {
                let (i2, j2) = (i - la.len(), j - la.len());
                assert(l[i] == lb[i2] && l[j] == lb[j2]);
                assert(lb[i2].disjoint(lb[j2]));
            } else if i < la.len() {
                let j2 = j - la.len();
                assert(l[i] == la[i] && l[j] == lb[j2]);
                assert(a.encloses(la[i]) && b.encloses(lb[j2]));
                lemma_apart(a, b, la[i], lb[j2], split, r, ratio);
            } else {
                let i2 = i - la.len();
                assert(l[j] == la[j] && l[i] == lb[i2]);
                assert(a.encloses(la[j]) && b.encloses(lb[i2]));
                lemma_apart(a, b, la[j], lb[i2], split, r, ratio);
            }
        }
    }
}

/// For any non-empty tree and any rectangle `r`, the leaf rectangles (before
/// gaps) tile `r`: each lies inside `r`, no two overlap, and their areas add
/// up to the area of `r`.
pub proof fn lemma_layout_partition(t: BinaryTree, r: Rect)
    requires
        t.wf(),
        r.wf(),
        !(t is Empty),
    ensures
        total_area(layout(t, r)) == r.area(),
        forall|i: int| 0 <= i < layout(t, r).len() ==> r.encloses(#[trigger] layout(t, r)[i]),
        forall|i: int, j: int|
            0 <= i < layout(t, r).len() && 0 <= j < layout(t, r).len() && i != j ==> (#[trigger] layout(
                t,
                r,
            )[i]).disjoint(#[trigger] layout(t, r)[j]),
    decreases t,
{
    lemma_layout_inside(t, r);
    lemma_layout_disjoint(t, r);
    match t {
        BinaryTree::Window(_) => {
            reveal_with_fuel(total_area, 2);
            assert(layout(t, r).drop_first() =~= Seq::<Rect>::empty());
        },
        BinaryTree::Split { split, ratio, left, right, .. } => {
            let a = first_part(r, split, ratio);
            let b = second_part(r, split, ratio);
            lemma_parts(r, split, ratio);
            lemma_total_area_concat(layout(*left, a), layout(*right, b));
            lemma_layout_partition(*left, a);
            lemma_layout_partition(*right, b);
        },
        BinaryTree::Empty => {},
    }
}

/// Rectangles of the leaves of `tree`, left to right, when it is laid out in
/// `area`: a split gives `ratio` thousandths of its extent along its axis to
/// the left child and the rest to the right child.
pub fn compute_layout(tree: &BinaryTree, area: Rect) -> (r: Vec<Rect>)
    requires
        tree.wf(),
        area.wf(),
    ensures
        r@ == layout(*tree, area),
    decreases tree,
{
    match tree {
        BinaryTree::Empty => Vec::new(),
        BinaryTree::Window(_) => vec![area],
        BinaryTree::Split { split, ratio, left, right, .. } => {
            proof {
                lemma_parts(area, *split, *ratio);
                lemma_first_extent(area.width, *ratio);
                lemma_first_extent(area.height, *ratio);
            }
            let (a, b) = match split {
                HorizontalOrVertical::Horizontal => {
                    let w = area.width * (*ratio as i64) / (RATIO_SCALE as i64);
                    (
                        Rect { width: w, ..area },
                        Rect { x: area.x + w, width: area.width - w, ..area },
                    )
                },
                HorizontalOrVertical::Vertical => {
                    let h = area.height * (*ratio as i64) / (RATIO_SCALE as i64);
                    (
                        Rect { height: h, ..area },
                        Rect { y: area.y + h, height: area.height - h, ..area },
                    )
                },
            };
            let mut v = compute_layout(left, a);
            let mut rest = compute_layout(right, b);
            v.append(&mut rest);
            v
        },
    }
}

/// `r` shrunk by the gaps on all four edges.
pub fn inset_rect(r: Rect, g: Gaps) -> (o: Rect)
    requires
        r.wf(),
    ensures
        o == inset(r, g),
{
    Rect {
        x: r.x + g.horizontal as i64,
        y: r.y + g.vertical as i64,
        width: r.width - 2 * (g.horizontal as i64),
        height: r.height - 2 * (g.vertical as i64),
    }
}

} // verus!
