use vstd::prelude::*;
use crate::seqs::{lemma_concat_absent, lemma_concat_no_duplicates, lemma_filter_absent};

verus! {

/// Ratios are kept in thousandths: `RATIO_SCALE` stands for the whole extent.
pub const RATIO_SCALE: u32 = 1000;

/// Lower bound that a relative ratio adjustment never goes below.
pub const RATIO_MIN: u32 = 300;

/// Upper bound that a relative ratio adjustment never goes above.
pub const RATIO_MAX: u32 = 700;

/// Ratio a split is reset to.
pub const RATIO_RESET: u32 = 500;

/// Axis along which a split divides its rectangle: `Horizontal` places the
/// two children side by side, `Vertical` stacks them.
#[derive(Debug, Clone, Copy, PartialEq, Eq, Structural)]
pub enum HorizontalOrVertical {
    Horizontal,
    Vertical,
}

impl HorizontalOrVertical {
    pub open spec fn flipped(self) -> HorizontalOrVertical {
        match self {
            HorizontalOrVertical::Horizontal => HorizontalOrVertical::Vertical,
            HorizontalOrVertical::Vertical => HorizontalOrVertical::Horizontal,
        }
    }

    /// The other axis.
    pub fn reverse(&self) -> (r: Self)
        ensures
            r == self.flipped(),
            r != *self,
    {
        match self {
            HorizontalOrVertical::Horizontal => HorizontalOrVertical::Vertical,
            HorizontalOrVertical::Vertical => HorizontalOrVertical::Horizontal,
        }
    }
}

/// Axis expected at depth `d` of a right spine whose top carries `a`.
pub open spec fn alternating_axis(a: HorizontalOrVertical, d: nat) -> HorizontalOrVertical {
    if d % 2 == 0 {
        a
    } else {
        a.flipped()
    }
}

/// Layout tree: leaves hold window ids, splits divide space between two
/// subtrees. `ratio` is the share of `left` in thousandths and
/// `counter_ratio` the share of `right`.
pub enum BinaryTree {
    Empty,
    Window(u64),
    Split {
        split: HorizontalOrVertical,
        ratio: u32,
        counter_ratio: u32,
        left: Box<BinaryTree>,
        right: Box<BinaryTree>,
    },
}

impl BinaryTree {
    /// Every split has a ratio strictly inside (0, 1), a counter ratio that
    /// completes it to the whole, and two non-empty children.
    pub open spec fn wf(self) -> bool
        decreases self,
    {
        match self {
            BinaryTree::Split { ratio, counter_ratio, left, right, .. } => {
                &&& 0 < ratio < RATIO_SCALE
                &&& counter_ratio == RATIO_SCALE - ratio
                &&& !(*left is Empty)
                &&& !(*right is Empty)
                &&& left.wf()
                &&& right.wf()
            },
            _ => true,
        }
    }

    /// Window ids of the leaves, left to right.
    pub open spec fn leaves(self) -> Seq<u64>
        decreases self,
    {
        match self {
            BinaryTree::Empty => seq![],
            BinaryTree::Window(w) => seq![w],
            BinaryTree::Split { left, right, .. } => left.leaves() + right.leaves(),
        }
    }

    pub open spec fn is_window_of(self, w: u64) -> bool {
        match self {
            BinaryTree::Window(x) => x == w,
            _ => false,
        }
    }

    pub open spec fn is_split(self) -> bool {
        self is Split
    }

    /// The tree after inserting `w`: it goes to the deepest right-hand
    /// position, pairing up with the window found there.
    pub open spec fn insert_spec(self, w: u64, a: HorizontalOrVertical, ratio: u32) -> BinaryTree
        decreases self,
    {
        match self {
            BinaryTree::Empty => BinaryTree::Window(w),
            BinaryTree::Window(x) => BinaryTree::Split {
                split: a,
                ratio: ratio,
                counter_ratio: (RATIO_SCALE - ratio) as u32,
                left: Box::new(BinaryTree::Window(x)),
                right: Box::new(BinaryTree::Window(w)),
            },
            BinaryTree::Split { split, ratio: r, counter_ratio, left, right } => BinaryTree::Split {
                split,
                ratio: r,
                counter_ratio,
                left,
                right: Box::new(right.insert_spec(w, a, ratio)),
            },
        }
    }

    /// The tree after removing `w`: a split with `w` as a direct child is
    /// replaced by the sibling subtree.
    pub open spec fn remove_spec(self, w: u64) -> BinaryTree
        decreases self,
    {
        match self {
            BinaryTree::Empty => BinaryTree::Empty,
            BinaryTree::Window(x) => if x == w {
                BinaryTree::Empty
            } else {
                BinaryTree::Window(x)
            },
            BinaryTree::Split { split, ratio, counter_ratio, left, right } => {
                if left.is_window_of(w) {
                    *right
                } else if right.is_window_of(w) {
                    *left
                } else {
                    BinaryTree::Split {
                        split,
                        ratio,
                        counter_ratio,
                        left: Box::new(left.remove_spec(w)),
                        right: Box::new(right.remove_spec(w)),
                    }
                }
            },
        }
    }

    /// The tree with the axes of its right spine reassigned, `a` at the top
    /// and alternating downwards; left subtrees keep theirs.
    pub open spec fn realign_spec(self, a: HorizontalOrVertical) -> BinaryTree
        decreases self,
    {
        match self {
            BinaryTree::Split { ratio, counter_ratio, left, right, .. } => BinaryTree::Split {
                split: a,
                ratio,
                counter_ratio,
                left,
                right: Box::new(right.realign_spec(a.flipped())),
            },
            _ => self,
        }
    }

    /// Axis for the next insertion: the opposite of the deepest split on the
    /// right spine, or `Horizontal` when there is no split.
    pub open spec fn next_split_spec(self) -> HorizontalOrVertical
        decreases self,
    {
        match self {
            BinaryTree::Split { split, right, .. } => if right.is_split() {
                right.next_split_spec()
            } else {
                split.flipped()
            },
            _ => HorizontalOrVertical::Horizontal,
        }
    }

    /// Ratio after one adjustment: `Some(true)` grows by `step` up to the
    /// upper bound, `Some(false)` shrinks by `step` down to the lower bound,
    /// `None` resets.
    pub open spec fn adjusted_ratio(ratio: u32, step: u32, increment: Option<bool>) -> u32 {
        match increment {
            Some(true) => if ratio + step > RATIO_MAX {
                RATIO_MAX
            } else {
                (ratio + step) as u32
            },
            Some(false) => if ratio - step < RATIO_MIN {
                RATIO_MIN
            } else {
                (ratio - step) as u32
            },
            None => RATIO_RESET,
        }
    }

    /// The tree after a ratio adjustment of its top split; other trees stay.
    pub open spec fn update_ratio_spec(self, step: u32, increment: Option<bool>) -> BinaryTree {
        match self {
            BinaryTree::Split { split, ratio, left, right, .. } => {
                let r = Self::adjusted_ratio(ratio, step, increment);
                BinaryTree::Split {
                    split,
                    ratio: r,
                    counter_ratio: (RATIO_SCALE - r) as u32,
                    left,
                    right,
                }
            },
            _ => self,
        }
    }

    /// Node at depth `d` of the right spine, `Empty` past its end.
    pub open spec fn spine_node(self, d: nat) -> BinaryTree
        decreases d,
    {
        if d == 0 {
            self
        } else {
            match self {
                BinaryTree::Split { right, .. } => right.spine_node((d - 1) as nat),
                _ => BinaryTree::Empty,
            }
        }
    }

    /// Master-stack shape: a chain of splits down the right side, each with a
    /// single window on its left, ending in a window (or an empty tree).
    pub open spec fn is_spine(self) -> bool
        decreases self,
    {
        match self {
            BinaryTree::Split { left, right, .. } => ((*left) is Window) && right.is_spine(),
            _ => true,
        }
    }

    fn holds_only(&self, w: u64) -> (r: bool)
        ensures
            r == self.is_window_of(w),
    {
        match self {
            BinaryTree::Window(x) => *x == w,
            _ => false,
        }
    }

    fn inserted(self, window: u64, splitnew: HorizontalOrVertical, rationew: u32) -> (r: Self)
        requires
            rationew <= RATIO_SCALE,
        ensures
            r == self.insert_spec(window, splitnew, rationew),
        decreases self,
    {
        match self {
            BinaryTree::Empty => BinaryTree::Window(window),
            BinaryTree::Window(w) => BinaryTree::Split {
                split: splitnew,
                ratio: rationew,
                counter_ratio: RATIO_SCALE - rationew,
                left: Box::new(BinaryTree::Window(w)),
                right: Box::new(BinaryTree::Window(window)),
            },
            BinaryTree::Split { split, ratio, counter_ratio, left, right } => BinaryTree::Split {
                split,
                ratio,
                counter_ratio,
                left,
                right: Box::new((*right).inserted(window, splitnew, rationew)),
            },
        }
    }

    fn removed(self, window: u64) -> (r: Self)
        ensures
            r == self.remove_spec(window),
        decreases self,
    {
        match self {
            BinaryTree::Empty => BinaryTree::Empty,
            BinaryTree::Window(w) => if w == window {
                BinaryTree::Empty
            } else {
                BinaryTree::Window(w)
            },
            BinaryTree::Split { split, ratio, counter_ratio, left, right } => {
                if left.holds_only(window) {
                    *right
                } else if right.holds_only(window) {
                    *left
                } else {
                    BinaryTree::Split {
                        split,
                        ratio,
                        counter_ratio,
                        left: Box::new((*left).removed(window)),
                        right: Box::new((*right).removed(window)),
                    }
                }
            },
        }
    }

    fn realigned(self, a: HorizontalOrVertical) -> (r: Self)
        ensures
            r == self.realign_spec(a),
        decreases self,
    {
        match self {
            BinaryTree::Split { split: _, ratio, counter_ratio, left, right } => BinaryTree::Split {
                split: a,
                ratio,
                counter_ratio,
                left,
                right: Box::new((*right).realigned(a.reverse())),
            },
            other => other,
        }
    }

    /// Inserts `window` at the deepest right-hand position. A lone window
    /// becomes a split with the old window on the left, the new one on the
    /// right, axis `splitnew` and ratio `rationew`.
    pub fn insert(&mut self, window: u64, splitnew: HorizontalOrVertical, rationew: u32)
        requires
            rationew <= RATIO_SCALE,
        ensures
            *final(self) == old(self).insert_spec(window, splitnew, rationew),
            final(self).leaves() == old(self).leaves().push(window),
            old(self).is_spine() ==> final(self).is_spine(),
            old(self).wf() && 0 < rationew < RATIO_SCALE ==> final(self).wf(),
    {
        proof {
            old(self).lemma_insert(window, splitnew, rationew);
        }
        let mut t = BinaryTree::Empty;
        std::mem::swap(self, &mut t);
        *self = t.inserted(window, splitnew, rationew);
    }

    /// Removes the leaf holding `window`; its parent split, if any, is
    /// replaced by the sibling subtree. Absent windows leave the tree as it is.
    pub fn remove(&mut self, window: u64)
        ensures
            *final(self) == old(self).remove_spec(window),
            old(self).leaves().no_duplicates() ==> final(self).leaves() == old(
                self,
            ).leaves().filter(|x: u64| x != window),
            old(self).wf() ==> final(self).wf(),
            !old(self).leaves().contains(window) ==> *final(self) == *old(self),
    {
        proof {
            old(self).lemma_remove(window);
        }
        let mut t = BinaryTree::Empty;
        std::mem::swap(self, &mut t);
        *self = t.removed(window);
    }

    /// Reassigns the axes of the right spine: `splitter` at this node, the
    /// opposite axis one level down, and so on. Left subtrees are untouched.
    pub fn update_after_removal(&mut self, splitter: HorizontalOrVertical)
        ensures
            *final(self) == old(self).realign_spec(splitter),
            final(self).leaves() == old(self).leaves(),
            old(self).wf() ==> final(self).wf(),
            old(self).is_spine() ==> final(self).is_spine(),
    {
        proof {
            old(self).lemma_realign(splitter);
        }
        let mut t = BinaryTree::Empty;
        std::mem::swap(self, &mut t);
        *self = t.realigned(splitter);
    }

    /// Axis that the next insertion should use.
    pub fn next_split(&self) -> (r: HorizontalOrVertical)
        ensures
            r == self.next_split_spec(),
        decreases self,
    {
        match self {
            BinaryTree::Split { split, right, .. } => {
                if let BinaryTree::Split { .. } = &**right {
                    right.next_split()
                } else {
                    split.reverse()
                }
            },
            _ => HorizontalOrVertical::Horizontal,
        }
    }

    /// Adjusts the ratio of this split: `Some(true)` grows it by
    /// `update_interval` up to the upper bound, `Some(false)` shrinks it down
    /// to the lower bound, `None` resets it. The counter ratio follows.
    /// Windows and empty trees are left as they are.
    pub fn update_ratio(&mut self, update_interval: u32, increment: Option<bool>)
        requires
            old(self).wf(),
        ensures
            *final(self) == old(self).update_ratio_spec(update_interval, increment),
            final(self).wf(),
            final(self).leaves() == old(self).leaves(),
    {
        match self {
            BinaryTree::Split { ratio, counter_ratio, .. } => {
                let r: u32 = match increment {
                    Some(true) => {
                        if *ratio as u64 + update_interval as u64 > RATIO_MAX as u64 {
                            RATIO_MAX
                        } else {
                            *ratio + update_interval
                        }
                    },
                    Some(false) => {
                        if (*ratio as u64) < update_interval as u64 + RATIO_MIN as u64 {
                            RATIO_MIN
                        } else {
                            *ratio - update_interval
                        }
                    },
                    None => RATIO_RESET,
                };
                *ratio = r;
                *counter_ratio = RATIO_SCALE - r;
            },
            _ => {},
        }
    }

    /// Insertion appends the window to the leaves and keeps the spine shape
    /// and well-formedness.
    pub proof fn lemma_insert(self, w: u64, a: HorizontalOrVertical, ratio: u32)
        ensures
            self.insert_spec(w, a, ratio).leaves() == self.leaves().push(w),
            self.is_spine() ==> self.insert_spec(w, a, ratio).is_spine(),
            self.wf() && 0 < ratio < RATIO_SCALE ==> self.insert_spec(w, a, ratio).wf(),
        decreases self,
    {
        match self {
            BinaryTree::Split { left, right, .. } => {
                right.lemma_insert(w, a, ratio);
                assert(self.insert_spec(w, a, ratio).leaves() =~= self.leaves().push(w));
            },
            BinaryTree::Window(x) => {
                reveal_with_fuel(BinaryTree::leaves, 2);
                reveal_with_fuel(BinaryTree::is_spine, 2);
                reveal_with_fuel(BinaryTree::wf, 2);
                assert(self.insert_spec(w, a, ratio).leaves() =~= self.leaves().push(w));
            },
            BinaryTree::Empty => {
                assert(self.insert_spec(w, a, ratio).leaves() =~= self.leaves().push(w));
            },
        }
    }

    /// Removal drops the window from duplicate-free leaves, keeps
    /// well-formedness, and leaves a tree without the window unchanged.
    pub proof fn lemma_remove(self, w: u64)
        ensures
            self.leaves().no_duplicates() ==> self.remove_spec(w).leaves() == self.leaves().filter(
                |x: u64| x != w,
            ),
            self.wf() ==> self.remove_spec(w).wf(),
            !self.leaves().contains(w) ==> self.remove_spec(w) == self,
    {
        self.lemma_remove_wf(w);
        self.lemma_remove_absent(w);
        if self.leaves().no_duplicates() {
            self.lemma_remove_leaves(w);
        }
    }

    proof fn lemma_remove_wf(self, w: u64)
        ensures
            self.wf() ==> self.remove_spec(w).wf(),
        decreases self,
    {
        if let BinaryTree::Split { left, right, .. } = self {
            left.lemma_remove_wf(w);
            right.lemma_remove_wf(w);
            if self.wf() && !left.is_window_of(w) && !right.is_window_of(w) {
                left.lemma_remove_keeps_nonempty(w);
                right.lemma_remove_keeps_nonempty(w);
            }
        }
    }

    proof fn lemma_remove_keeps_nonempty(self, w: u64)
        requires
            self.wf(),
            !(self is Empty),
            !self.is_window_of(w),
        ensures
            !(self.remove_spec(w) is Empty),
    {
    }

    proof fn lemma_remove_absent(self, w: u64)
        ensures
            !self.leaves().contains(w) ==> self.remove_spec(w) == self,
        decreases self,
    {
        if !self.leaves().contains(w) {
            match self {
                BinaryTree::Window(x) => {
                    assert(self.leaves()[0] == x);
                },
                BinaryTree::Split { left, right, .. } => {
                    lemma_concat_absent(left.leaves(), right.leaves(), w);
                    left.lemma_remove_absent(w);
                    right.lemma_remove_absent(w);
                    if left.is_window_of(w) {
                        assert(left.leaves()[0] == w);
                    }
                    if right.is_window_of(w) {
                        assert(right.leaves()[0] == w);
                    }
                },
                BinaryTree::Empty => {},
            }
        }
    }

    proof fn lemma_remove_leaves(self, w: u64)
        requires
            self.leaves().no_duplicates(),
        ensures
            self.remove_spec(w).leaves() == self.leaves().filter(|x: u64| x != w),
        decreases self,
    {
        let p = |x: u64| x != w;
        reveal_with_fuel(Seq::filter, 2);
        match self {
            BinaryTree::Empty => {
                assert(self.leaves().filter(p) =~= seq![]);
            },
            BinaryTree::Window(x) => {
                assert(seq![x].drop_last() =~= Seq::<u64>::empty());
                assert(self.leaves().filter(p) =~= (if x == w {
                    seq![]
                } else {
                    seq![x]
                }));
            },
            BinaryTree::Split { left, right, .. } => {
                let ll = left.leaves();
                let rl = right.leaves();
                lemma_concat_no_duplicates(ll, rl);
                Seq::filter_distributes_over_add(ll, rl, p);
                if left.is_window_of(w) {
                    assert(ll =~= seq![w]);
                    assert(ll.drop_last() =~= Seq::<u64>::empty());
                    assert(ll[0] == w);
                    lemma_filter_absent(rl, w);
                    assert(ll.filter(p) =~= seq![]);
                    assert(seq![] + rl =~= rl);
                } else if right.is_window_of(w) {
                    assert(rl =~= seq![w]);
                    assert(rl.drop_last() =~= Seq::<u64>::empty());
                    assert(rl[0] == w);
                    lemma_filter_absent(ll, w);
                    assert(rl.filter(p) =~= seq![]);
                    assert(ll + seq![] =~= ll);
                } else {
                    left.lemma_remove_leaves(w);
                    right.lemma_remove_leaves(w);
                }
            },
        }
    }

    /// Realigning axes changes neither the leaves, nor well-formedness, nor
    /// the spine shape.
    pub proof fn lemma_realign(self, a: HorizontalOrVertical)
        ensures
            self.realign_spec(a).leaves() == self.leaves(),
            self.wf() ==> self.realign_spec(a).wf(),
            self.is_spine() ==> self.realign_spec(a).is_spine(),
        decreases self,
    {
        match self {
            BinaryTree::Split { right, .. } => {
                right.lemma_realign(a.flipped());
            },
            _ => {},
        }
    }

    pub fn new() -> (r: Self)
        ensures
            r == BinaryTree::Empty,
    {
        BinaryTree::Empty
    }
}

/// One insertion request: window, axis hint and ratio hint.
pub type InsertOp = (u64, HorizontalOrVertical, u32);

/// The tree after the insertions of `ops`, in order, starting from `t`.
pub open spec fn insert_all(t: BinaryTree, ops: Seq<InsertOp>) -> BinaryTree
    decreases ops.len(),
{
    if ops.len() == 0 {
        t
    } else {
        let o = ops.last();
        insert_all(t, ops.drop_last()).insert_spec(o.0, o.1, o.2)
    }
}

/// Any sequence of insertions into an empty tree, with no removal, builds a
/// right-leaning spine of splits whose left children are single windows and
/// whose last node is a window; the leaves, left to right, are the inserted
/// windows in insertion order.
pub proof fn lemma_insertions_build_spine(ops: Seq<InsertOp>)
    ensures
        insert_all(BinaryTree::Empty, ops).is_spine(),
        insert_all(BinaryTree::Empty, ops).leaves() == ops.map_values(|o: InsertOp| o.0),
        ops.len() > 0 ==> !(insert_all(BinaryTree::Empty, ops) is Empty),
    decreases ops.len(),
{
    if ops.len() > 0 {
        let o = ops.last();
        lemma_insertions_build_spine(ops.drop_last());
        let t = insert_all(BinaryTree::Empty, ops.drop_last());
        t.lemma_insert(o.0, o.1, o.2);
        assert(ops.drop_last().map_values(|o: InsertOp| o.0).push(o.0) =~= ops.map_values(
            |o: InsertOp| o.0,
        ));
    } else {
        assert(ops.map_values(|o: InsertOp| o.0) =~= Seq::<u64>::empty());
    }
}

/// After the axes are realigned from `a`, every split on the right spine at
/// depth `d` below the starting node carries `a` when `d` is even and the
/// other axis when `d` is odd.
pub proof fn lemma_axis_alternation(t: BinaryTree, a: HorizontalOrVertical)
    ensures
        forall|d: nat| #[trigger]
            t.realign_spec(a).spine_node(d) is Split ==> t.realign_spec(a).spine_node(
                d,
            )->Split_split == alternating_axis(a, d),
    decreases t,
{
    if let BinaryTree::Split { right, .. } = t {
        lemma_axis_alternation(*right, a.flipped());
        assert forall|d: nat| #[trigger]
            t.realign_spec(a).spine_node(d) is Split implies t.realign_spec(a).spine_node(
                d,
            )->Split_split == alternating_axis(a, d) by {
            if d > 0 {
                let e = (d - 1) as nat;
                assert(t.realign_spec(a).spine_node(d) == right.realign_spec(a.flipped()).spine_node(e));
                assert(alternating_axis(a.flipped(), e) == alternating_axis(a, d));
            }
        }
    } else {
        assert forall|d: nat| #[trigger]
            t.realign_spec(a).spine_node(d) is Split implies t.realign_spec(a).spine_node(
                d,
            )->Split_split == alternating_axis(a, d) by {
            if d > 0 {
                assert(t.realign_spec(a).spine_node(d) == BinaryTree::Empty);
            }
        }
    }
}

/// One ratio adjustment: step and direction (`None` resets).
pub type RatioOp = (u32, Option<bool>);

/// The tree after the ratio adjustments of `ops`, in order.
pub open spec fn update_ratio_all(t: BinaryTree, ops: Seq<RatioOp>) -> BinaryTree
    decreases ops.len(),
{
    if ops.len() == 0 {
        t
    } else {
        let o = ops.last();
        update_ratio_all(t, ops.drop_last()).update_ratio_spec(o.0, o.1)
    }
}

/// A split whose ratio lies within the adjustment bounds keeps it there
/// through any sequence of adjustments, and its counter ratio is always the
/// complement of its ratio.
pub proof fn lemma_ratio_stays_clamped(t: BinaryTree, ops: Seq<RatioOp>)
    requires
        t.wf(),
        t is Split,
        RATIO_MIN <= t->Split_ratio <= RATIO_MAX,
    ensures
        update_ratio_all(t, ops) is Split,
        RATIO_MIN <= update_ratio_all(t, ops)->Split_ratio <= RATIO_MAX,
        update_ratio_all(t, ops)->Split_counter_ratio == RATIO_SCALE - update_ratio_all(
            t,
            ops,
        )->Split_ratio,
        update_ratio_all(t, ops).wf(),
    decreases ops.len(),
{
    if ops.len() > 0 {
        lemma_ratio_stays_clamped(t, ops.drop_last());
    }
}

/// Inserting a window into an empty tree and removing it again gives back
/// the empty tree.
pub proof fn lemma_insert_remove_round_trip(w: u64, a: HorizontalOrVertical, ratio: u32)
    ensures
        BinaryTree::Empty.insert_spec(w, a, ratio).remove_spec(w) == BinaryTree::Empty,
{
}

} // verus!
