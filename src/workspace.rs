use vstd::prelude::*;
use crate::binarytree::{BinaryTree, HorizontalOrVertical, RATIO_RESET, RATIO_SCALE};
use crate::seqs::{
    lemma_filter_absent, lemma_filter_drops, lemma_filter_subset, lemma_push_contains,
    lemma_push_no_duplicates, lemma_remove_index_is_filter,
};
use crate::geometry::{Gaps, Rect, compute_layout, inset, inset_rect, layout, lemma_layout_inside};

verus! {

/// A window placed in a workspace, with the rectangle it was last given.
#[derive(Debug, Clone, Copy, PartialEq, Eq, Structural)]
pub struct TiledWindow {
    pub window: u64,
    pub geometry: Rect,
}

/// A display a workspace is shown on: its identity and physical size.
#[derive(Debug, Clone, Copy, PartialEq, Eq, Structural)]
pub struct Output {
    pub id: u64,
    pub width: i32,
    pub height: i32,
}

/// One desktop: a layout tree, the windows placed in it (in the order of the
/// tree's leaves), and the output it is mapped to, if any.
pub struct Workspace {
    tree: BinaryTree,
    windows: Vec<TiledWindow>,
    output: Option<Output>,
    gaps: Gaps,
    ratio: u32,
}

pub open spec fn output_area(o: Option<Output>) -> Rect {
    match o {
        Some(o) => Rect { x: 0, y: 0, width: o.width as i64, height: o.height as i64 },
        None => Rect { x: 0, y: 0, width: 0, height: 0 },
    }
}

pub open spec fn output_valid(o: Option<Output>) -> bool {
    match o {
        Some(o) => o.width >= 0 && o.height >= 0,
        None => true,
    }
}

/// Windows laid out in `tree` over `area`, each with its leaf rectangle
/// shrunk by the gaps.
pub open spec fn placed(windows: Seq<TiledWindow>, tree: BinaryTree, area: Rect, g: Gaps) -> bool {
    &&& layout(tree, area).len() == windows.len()
    &&& forall|i: int|
        0 <= i < windows.len() ==> (#[trigger] windows[i]).geometry == inset(
            layout(tree, area)[i],
            g,
        )
}

/// Index of the first window whose rectangle contains the point.
pub open spec fn first_under(windows: Seq<TiledWindow>, px: i64, py: i64) -> Option<int> {
    if exists|i: int| 0 <= i < windows.len() && windows[i].geometry.contains_point_spec(px, py) {
        let i = choose|i: int|
            0 <= i < windows.len() && windows[i].geometry.contains_point_spec(px, py) && forall|
                j: int,
            |
                0 <= j < i ==> !(#[trigger] windows[j]).geometry.contains_point_spec(px, py);
        Some(i)
    } else {
        None
    }
}

impl Workspace {
    pub closed spec fn tree_spec(self) -> BinaryTree {
        self.tree
    }

    pub closed spec fn windows_spec(self) -> Seq<TiledWindow> {
        self.windows@
    }

    pub closed spec fn output_spec(self) -> Option<Output> {
        self.output
    }

    pub closed spec fn gaps_spec(self) -> Gaps {
        self.gaps
    }

    pub closed spec fn ratio_spec(self) -> u32 {
        self.ratio
    }

    /// Ids of the windows, in list order.
    pub open spec fn ids(self) -> Seq<u64> {
        self.windows_spec().map_values(|t: TiledWindow| t.window)
    }

    pub open spec fn area(self) -> Rect {
        output_area(self.output_spec())
    }

    /// The window list matches the tree's leaves one for one and in order,
    /// no window appears twice, and every window holds the rectangle that
    /// the tree gives it.
    pub open spec fn wf(self) -> bool {
        &&& self.tree_spec().wf()
        &&& self.ids() == self.tree_spec().leaves()
        &&& self.ids().no_duplicates()
        &&& 0 < self.ratio_spec() < RATIO_SCALE
        &&& output_valid(self.output_spec())
        &&& placed(self.windows_spec(), self.tree_spec(), self.area(), self.gaps_spec())
    }

    /// An empty workspace with no output. New splits get `ratio` (in
    /// thousandths); windows are inset by `gaps`.
    pub fn new(gaps: Gaps, ratio: u32) -> (r: Self)
        requires
            0 < ratio < RATIO_SCALE,
        ensures
            r.wf(),
            r.tree_spec() == BinaryTree::Empty,
            r.ids() == Seq::<u64>::empty(),
            r.output_spec() is None,
            r.gaps_spec() == gaps,
            r.ratio_spec() == ratio,
    {
        let r = Workspace { tree: BinaryTree::Empty, windows: Vec::new(), output: None, gaps, ratio };
        assert(r.ids() =~= Seq::<u64>::empty());
        r
    }

    fn area_exec(&self) -> (r: Rect)
        ensures
            r == output_area(self.output),
    {
        match &self.output {
            Some(o) => Rect { x: 0, y: 0, width: o.width as i64, height: o.height as i64 },
            None => Rect { x: 0, y: 0, width: 0, height: 0 },
        }
    }

    /// Gives every window the rectangle of its leaf, shrunk by the gaps.
    fn recompute_geometry(&mut self)
        requires
            old(self).tree.wf(),
            output_valid(old(self).output),
            old(self).windows@.len() == old(self).tree.leaves().len(),
        ensures
            final(self).tree == old(self).tree,
            final(self).output == old(self).output,
            final(self).gaps == old(self).gaps,
            final(self).ratio == old(self).ratio,
            final(self).windows@.len() == old(self).windows@.len(),
            forall|i: int|
                0 <= i < old(self).windows@.len() ==> (#[trigger] final(self).windows@[i]).window
                    == old(self).windows@[i].window,
            placed(final(self).windows@, final(self).tree, output_area(final(self).output), final(self).gaps),
    {
        let area = self.area_exec();
        proof {
            lemma_layout_inside(self.tree, area);
        }
        let rects = compute_layout(&self.tree, area);
        let n = self.windows.len();
        let mut i: usize = 0;
        while i < n
            invariant
                self.tree == old(self).tree,
                self.output == old(self).output,
                self.gaps == old(self).gaps,
                self.ratio == old(self).ratio,
                area == output_area(self.output),
                rects@ == layout(self.tree, area),
                n == self.windows@.len(),
                n == old(self).windows@.len(),
                rects@.len() == n,
                i <= n,
                forall|k: int| 0 <= k < n ==> (#[trigger] rects@[k]).wf(),
                forall|k: int|
                    0 <= k < n ==> (#[trigger] self.windows@[k]).window == old(
                        self,
                    ).windows@[k].window,
                forall|k: int|
                    0 <= k < i ==> (#[trigger] self.windows@[k]).geometry == inset(rects@[k], self.gaps),
            decreases n - i,
        {
            let w = self.windows[i].window;
            let g = inset_rect(rects[i], self.gaps);
            self.windows.set(i, TiledWindow { window: w, geometry: g });
            i = i + 1;
        }
    }

    proof fn lemma_same_ids(a: Seq<TiledWindow>, b: Seq<TiledWindow>)
        requires
            a.len() == b.len(),
            forall|i: int| 0 <= i < a.len() ==> (#[trigger] a[i]).window == b[i].window,
        ensures
            a.map_values(|t: TiledWindow| t.window) == b.map_values(|t: TiledWindow| t.window),
    {
        assert(a.map_values(|t: TiledWindow| t.window) =~= b.map_values(|t: TiledWindow| t.window));
    }

    /// Places `window` in this workspace: it is inserted at the deepest
    /// right-hand position of the tree, with the axis the tree asks for next
    /// and the workspace's ratio, and every window gets its new rectangle.
    /// A window already placed here is left where it is.
    pub fn insert_window(&mut self, window: u64)
        requires
            old(self).wf(),
        ensures
            final(self).wf(),
            final(self).output_spec() == old(self).output_spec(),
            final(self).gaps_spec() == old(self).gaps_spec(),
            final(self).ratio_spec() == old(self).ratio_spec(),
            old(self).ids().contains(window) ==> *final(self) == *old(self),
            !old(self).ids().contains(window) ==> {
                &&& final(self).ids() == old(self).ids().push(window)
                &&& final(self).tree_spec() == old(self).tree_spec().insert_spec(
                    window,
                    old(self).tree_spec().next_split_spec(),
                    old(self).ratio_spec(),
                )
            },
    {
        if self.contains(window) {
            return;
        }
        let axis = self.tree.next_split();
        self.tree.insert(window, axis, self.ratio);
        self.windows.push(TiledWindow { window, geometry: Rect { x: 0, y: 0, width: 0, height: 0 } });
        let ghost pushed = self.windows@;
        proof {
            assert(pushed.map_values(|t: TiledWindow| t.window) =~= old(self).ids().push(window));
            lemma_push_no_duplicates(old(self).ids(), window);
        }
        self.recompute_geometry();
        proof {
            Self::lemma_same_ids(self.windows@, pushed);
        }
    }

    /// Takes `window` out of this workspace: its leaf leaves the tree, the
    /// axes of the right spine are realigned starting from `Horizontal`, and
    /// the remaining windows get their new rectangles. An absent window
    /// changes nothing.
    pub fn remove_window(&mut self, window: u64)
        requires
            old(self).wf(),
        ensures
            final(self).wf(),
            final(self).output_spec() == old(self).output_spec(),
            final(self).gaps_spec() == old(self).gaps_spec(),
            final(self).ratio_spec() == old(self).ratio_spec(),
            !old(self).ids().contains(window) ==> *final(self) == *old(self),
            old(self).ids().contains(window) ==> {
                &&& final(self).ids() == old(self).ids().filter(|x: u64| x != window)
                &&& final(self).tree_spec() == old(self).tree_spec().remove_spec(
                    window,
                ).realign_spec(HorizontalOrVertical::Horizontal)
            },
            !final(self).ids().contains(window),
    {
        let i = match self.index_of(window) {
            Some(i) => i,
            None => {
                return;
            },
        };
        proof {
            assert(self.ids()[i as int] == window);
        }
        self.tree.remove(window);
        self.tree.update_after_removal(HorizontalOrVertical::Horizontal);
        self.windows.remove(i);
        let ghost shrunk = self.windows@;
        proof {
            assert(shrunk.map_values(|t: TiledWindow| t.window) =~= old(self).ids().remove(i as int));
            lemma_remove_index_is_filter(old(self).ids(), i as int, window);
        }
        self.recompute_geometry();
        proof {
            Self::lemma_same_ids(self.windows@, shrunk);
            lemma_filter_drops(old(self).ids(), window);
        }
    }

    /// Adjusts the ratio of the tree's top split (see
    /// `BinaryTree::update_ratio`) and gives every window its new rectangle.
    pub fn update_ratio(&mut self, update_interval: u32, increment: Option<bool>)
        requires
            old(self).wf(),
        ensures
            final(self).wf(),
            final(self).ids() == old(self).ids(),
            final(self).tree_spec() == old(self).tree_spec().update_ratio_spec(
                update_interval,
                increment,
            ),
            final(self).output_spec() == old(self).output_spec(),
            final(self).gaps_spec() == old(self).gaps_spec(),
            final(self).ratio_spec() == old(self).ratio_spec(),
    {
        self.tree.update_ratio(update_interval, increment);
        let ghost before = self.windows@;
        self.recompute_geometry();
        proof {
            Self::lemma_same_ids(self.windows@, before);
        }
    }

    /// Maps this workspace to `output` and lays its windows out on it.
    pub fn add_output(&mut self, output: Output)
        requires
            old(self).wf(),
            output.width >= 0,
            output.height >= 0,
        ensures
            final(self).wf(),
            final(self).output_spec() == Some(output),
            final(self).ids() == old(self).ids(),
            final(self).tree_spec() == old(self).tree_spec(),
            final(self).gaps_spec() == old(self).gaps_spec(),
            final(self).ratio_spec() == old(self).ratio_spec(),
    {
        self.output = Some(output);
        let ghost before = self.windows@;
        self.recompute_geometry();
        proof {
            Self::lemma_same_ids(self.windows@, before);
        }
    }

    /// The output this workspace is mapped to, as a list of at most one.
    pub fn outputs(&self) -> (r: Vec<Output>)
        ensures
            r@ == match self.output_spec() {
                Some(o) => seq![o],
                None => Seq::<Output>::empty(),
            },
    {
        match &self.output {
            Some(o) => vec![*o],
            None => Vec::new(),
        }
    }

    /// Windows of this workspace with their rectangles, in list order.
    pub fn windows(&self) -> (r: &Vec<TiledWindow>)
        ensures
            r@ == self.windows_spec(),
    {
        &self.windows
    }

    /// Ids of the windows of this workspace, in list order.
    pub fn window_ids(&self) -> (r: Vec<u64>)
        ensures
            r@ == self.ids(),
    {
        let mut r: Vec<u64> = Vec::new();
        let mut i: usize = 0;
        while i < self.windows.len()
            invariant
                i <= self.windows@.len(),
                r@ == self.windows@.subrange(0, i as int).map_values(|t: TiledWindow| t.window),
            decreases self.windows@.len() - i,
        {
            r.push(self.windows[i].window);
            proof {
                assert(self.windows@.subrange(0, i + 1).map_values(|t: TiledWindow| t.window)
                    =~= self.windows@.subrange(0, i as int).map_values(|t: TiledWindow| t.window).push(
                    self.windows@[i as int].window,
                ));
            }
            i = i + 1;
        }
        proof {
            assert(self.windows@.subrange(0, i as int) =~= self.windows@);
        }
        r
    }

    /// The layout tree of this workspace.
    pub fn tree(&self) -> (r: &BinaryTree)
        ensures
            *r == self.tree_spec(),
    {
        &self.tree
    }

    /// The first window, in list order, whose rectangle contains the point,
    /// with the origin of that rectangle.
    pub fn window_under(&self, px: i64, py: i64) -> (r: Option<(u64, i64, i64)>)
        ensures
            r == match first_under(self.windows_spec(), px, py) {
                Some(i) => Some(
                    (
                        self.windows_spec()[i].window,
                        self.windows_spec()[i].geometry.x,
                        self.windows_spec()[i].geometry.y,
                    ),
                ),
                None => None::<(u64, i64, i64)>,
            },
    {
        let ghost ws = self.windows@;
        let mut i: usize = 0;
        while i < self.windows.len()
            invariant
                ws == self.windows@,
                i <= ws.len(),
                forall|j: int| 0 <= j < i ==> !(#[trigger] ws[j]).geometry.contains_point_spec(px, py),
            decreases ws.len() - i,
        {
            let t = self.windows[i];
            if t.geometry.contains_point(px, py) {
                proof {
                    let k = choose|k: int|
                        0 <= k < ws.len() && ws[k].geometry.contains_point_spec(px, py) && forall|
                            j: int,
                        |
                            0 <= j < k ==> !(#[trigger] ws[j]).geometry.contains_point_spec(px, py);
                    assert(0 <= i < ws.len() && ws[i as int].geometry.contains_point_spec(px, py));
                    if k < i {
                        assert(!ws[k].geometry.contains_point_spec(px, py));
                    }
                    if k > i {
                        assert(!ws[i as int].geometry.contains_point_spec(px, py));
                    }
                }
                return Some((t.window, t.geometry.x, t.geometry.y));
            }
            i = i + 1;
        }
        None
    }

    fn index_of(&self, window: u64) -> (r: Option<usize>)
        ensures
            match r {
                Some(i) => i < self.windows@.len() && self.windows@[i as int].window == window,
                None => !self.ids().contains(window),
            },
    {
        let mut i: usize = 0;
        while i < self.windows.len()
            invariant
                i <= self.windows@.len(),
                forall|k: int| 0 <= k < i ==> self.windows@[k].window != window,
            decreases self.windows@.len() - i,
        {
            if self.windows[i].window == window {
                return Some(i);
            }
            i = i + 1;
        }
        proof {
            if self.ids().contains(window) {
                let k = choose|k: int| 0 <= k < self.ids().len() && self.ids()[k] == window;
                assert(self.windows@[k].window == window);
            }
        }
        None
    }

    /// Whether `window` is placed in this workspace.
    pub fn contains(&self, window: u64) -> (r: bool)
        ensures
            r == self.ids().contains(window),
    {
        let mut i: usize = 0;
        while i < self.windows.len()
            invariant
                i <= self.windows@.len(),
                forall|k: int| 0 <= k < i ==> self.windows@[k].window != window,
            decreases self.windows@.len() - i,
        {
            if self.windows[i].window == window {
                proof {
                    assert(self.ids()[i as int] == window);
                }
                return true;
            }
            i = i + 1;
        }
        proof {
            if self.ids().contains(window) {
                let k = choose|k: int| 0 <= k < self.ids().len() && self.ids()[k] == window;
                assert(self.windows@[k].window == window);
            }
        }
        false
    }
}

/// Error of the workspace set: the index names no workspace.
#[derive(Debug, Clone, Copy, PartialEq, Eq, Structural)]
pub enum WorkspaceError {
    InvalidWorkspaceIndex,
}

/// A fixed number of workspaces, one of which is current.
pub struct Workspaces {
    workspaces: Vec<Workspace>,
    current: usize,
}

impl Workspaces {
    pub closed spec fn spaces(self) -> Seq<Workspace> {
        self.workspaces@
    }

    pub closed spec fn current_index(self) -> int {
        self.current as int
    }

    /// Whether some workspace holds `w`.
    pub open spec fn holds(self, w: u64) -> bool {
        exists|i: int| 0 <= i < self.spaces().len() && (#[trigger] self.spaces()[i]).ids().contains(w)
    }

    /// Every window of every workspace: workspace order, then list order.
    pub open spec fn all_ids(self) -> Seq<u64> {
        self.spaces().map_values(|ws: Workspace| ws.ids()).flatten()
    }

    /// The current index names a workspace, every workspace is well formed,
    /// and no window is held by two workspaces.
    pub open spec fn wf(self) -> bool {
        &&& 0 <= self.current_index() < self.spaces().len()
        &&& forall|i: int| 0 <= i < self.spaces().len() ==> (#[trigger] self.spaces()[i]).wf()
        &&& forall|i: int, j: int, w: u64|
            0 <= i < self.spaces().len() && 0 <= j < self.spaces().len() && i != j
                && (#[trigger] self.spaces()[i].ids().contains(w)) ==> !(#[trigger] self.spaces()[
                j
            ].ids().contains(w))
    }

    /// `count` empty workspaces, the first one current.
    pub fn new(count: u8, gaps: Gaps, ratio: u32) -> (r: Self)
        requires
            count > 0,
            0 < ratio < RATIO_SCALE,
        ensures
            r.wf(),
            r.spaces().len() == count,
            r.current_index() == 0,
            forall|i: int|
                0 <= i < count ==> (#[trigger] r.spaces()[i]).ids() == Seq::<u64>::empty()
                    && r.spaces()[i].output_spec() is None && r.spaces()[i].gaps_spec() == gaps
                    && r.spaces()[i].ratio_spec() == ratio,
    {
        let mut v: Vec<Workspace> = Vec::new();
        let mut k: u8 = 0;
        while k < count
            invariant
                k <= count,
                0 < ratio < RATIO_SCALE,
                v@.len() == k,
                forall|i: int|
                    0 <= i < k ==> (#[trigger] v@[i]).wf() && v@[i].ids() == Seq::<u64>::empty()
                        && v@[i].output_spec() is None && v@[i].gaps_spec() == gaps
                        && v@[i].ratio_spec() == ratio,
            decreases count - k,
        {
            v.push(Workspace::new(gaps, ratio));
            k = k + 1;
        }
        Workspaces { workspaces: v, current: 0 }
    }

    /// Number of workspaces.
    pub fn len(&self) -> (r: usize)
        ensures
            r == self.spaces().len(),
    {
        self.workspaces.len()
    }

    /// Index of the current workspace.
    pub fn active_index(&self) -> (r: usize)
        ensures
            r == self.current_index(),
    {
        self.current
    }

    /// The current workspace.
    pub fn current(&self) -> (r: &Workspace)
        requires
            self.wf(),
        ensures
            *r == self.spaces()[self.current_index()],
    {
        &self.workspaces[self.current]
    }

    /// The workspace at `index`, if there is one.
    pub fn get(&self, index: usize) -> (r: Option<&Workspace>)
        ensures
            index < self.spaces().len() ==> r == Some(&self.spaces()[index as int]),
            index >= self.spaces().len() ==> r is None,
    {
        if index < self.workspaces.len() {
            Some(&self.workspaces[index])
        } else {
            None
        }
    }

    /// Makes workspace `index` current; an index past the end is refused and
    /// changes nothing.
    pub fn switch_to(&mut self, index: usize) -> (r: Result<(), WorkspaceError>)
        ensures
            r is Ok <==> index < old(self).spaces().len(),
            final(self).spaces() == old(self).spaces(),
            r is Ok ==> final(self).current_index() == index,
            r is Err ==> *final(self) == *old(self),
            r is Err ==> r == Err::<(), WorkspaceError>(WorkspaceError::InvalidWorkspaceIndex),
    {
        if index < self.workspaces.len() {
            self.current = index;
            Ok(())
        } else {
            Err(WorkspaceError::InvalidWorkspaceIndex)
        }
    }

    fn placeholder() -> (r: Workspace) {
        Workspace {
            tree: BinaryTree::Empty,
            windows: Vec::new(),
            output: None,
            gaps: Gaps { horizontal: 0, vertical: 0 },
            ratio: RATIO_RESET,
        }
    }

    /// Places `window` in the current workspace, unless some workspace
    /// already holds it (then nothing changes).
    pub fn insert_window(&mut self, window: u64)
        requires
            old(self).wf(),
        ensures
            final(self).wf(),
            final(self).current_index() == old(self).current_index(),
            final(self).spaces().len() == old(self).spaces().len(),
            old(self).holds(window) ==> *final(self) == *old(self),
            !old(self).holds(window) ==> {
                &&& final(self).spaces()[final(self).current_index()].ids() == old(
                    self,
                ).spaces()[old(self).current_index()].ids().push(window)
                &&& forall|k: int|
                    0 <= k < old(self).spaces().len() && k != old(self).current_index()
                        ==> #[trigger] final(self).spaces()[k] == old(self).spaces()[k]
            },
    {
        if self.find_window(window).is_some() {
            return;
        }
        let c = self.current;
        self.insert_into(c, window);
    }

    fn insert_into(&mut self, t: usize, window: u64)
        requires
            old(self).wf(),
            t < old(self).spaces().len(),
            !old(self).holds(window),
        ensures
            final(self).wf(),
            final(self).current_index() == old(self).current_index(),
            final(self).spaces().len() == old(self).spaces().len(),
            final(self).spaces()[t as int].ids() == old(self).spaces()[t as int].ids().push(window),
            forall|k: int|
                0 <= k < old(self).spaces().len() && k != t ==> #[trigger] final(self).spaces()[k]
                    == old(self).spaces()[k],
            final(self).holds(window),
    {
        let mut ws = Self::placeholder();
        self.workspaces.set_and_swap(t, &mut ws);
        ws.insert_window(window);
        self.workspaces.set(t, ws);
        proof {
            let o = old(self).spaces();
            let n = self.spaces();
            assert(!o[t as int].ids().contains(window));
            assert forall|i: int, j: int, x: u64|
                0 <= i < n.len() && 0 <= j < n.len() && i != j && (#[trigger] n[i].ids().contains(
                    x,
                )) implies !(#[trigger] n[j].ids().contains(x)) by {
                lemma_push_contains(o[t as int].ids(), window, x);
                if i == t {
                    if x != window {
                        assert(o[i].ids().contains(x));
                    } else {
                        assert(!o[j].ids().contains(window));
                    }
                } else if j == t {
                    assert(o[i].ids().contains(x));
                    if x == window {
                        assert(o[i].ids().contains(window));
                    }
                } else {
                    assert(o[i].ids().contains(x));
                }
            }
            lemma_push_contains(o[t as int].ids(), window, window);
            assert(n[t as int].ids().contains(window));
        }
    }

    /// Moves `window` from the workspace that holds it to the end of
    /// workspace `target_index`. An index past the end is refused and
    /// changes nothing; a window that no workspace holds is left alone.
    pub fn move_window(&mut self, window: u64, target_index: usize) -> (r: Result<
        (),
        WorkspaceError,
    >)
        requires
            old(self).wf(),
        ensures
            final(self).wf(),
            r is Ok <==> target_index < old(self).spaces().len(),
            r is Err ==> r == Err::<(), WorkspaceError>(WorkspaceError::InvalidWorkspaceIndex),
            r is Err ==> *final(self) == *old(self),
            !old(self).holds(window) ==> *final(self) == *old(self),
            final(self).current_index() == old(self).current_index(),
            final(self).spaces().len() == old(self).spaces().len(),
            r is Ok && old(self).holds(window) ==> {
                &&& final(self).spaces()[target_index as int].ids() == old(
                    self,
                ).spaces()[target_index as int].ids().filter(|x: u64| x != window).push(window)
                &&& forall|k: int|
                    0 <= k < old(self).spaces().len() && k != target_index && old(
                        self,
                    ).spaces()[k].ids().contains(window) ==> #[trigger] final(self).spaces()[k].ids()
                        == old(self).spaces()[k].ids().filter(|x: u64| x != window)
                &&& forall|k: int|
                    0 <= k < old(self).spaces().len() && k != target_index && !old(
                        self,
                    ).spaces()[k].ids().contains(window) ==> #[trigger] final(self).spaces()[k]
                        == old(self).spaces()[k]
            },
    {
        if target_index >= self.workspaces.len() {
            return Err(WorkspaceError::InvalidWorkspaceIndex);
        }
        let s = match self.find_window(window) {
            Some(s) => s,
            None => {
                return Ok(());
            },
        };
        let ghost o = self.spaces();
        self.remove_from(s, window);
        let ghost m = self.spaces();
        proof {
            if !o[target_index as int].ids().contains(window) {
                lemma_filter_absent(o[target_index as int].ids(), window);
            }
            assert(m[target_index as int].ids() == o[target_index as int].ids().filter(
                |x: u64| x != window,
            ));
        }
        self.insert_into(target_index, window);
        Ok(())
    }

    /// Takes `window` out of the workspace that holds it; nothing changes if
    /// no workspace does.
    pub fn remove_window(&mut self, window: u64)
        requires
            old(self).wf(),
        ensures
            final(self).wf(),
            final(self).current_index() == old(self).current_index(),
            final(self).spaces().len() == old(self).spaces().len(),
            !old(self).holds(window) ==> *final(self) == *old(self),
            forall|k: int|
                0 <= k < old(self).spaces().len() && old(self).spaces()[k].ids().contains(window)
                    ==> #[trigger] final(self).spaces()[k].ids() == old(self).spaces()[k].ids().filter(
                    |x: u64| x != window,
                ),
            forall|k: int|
                0 <= k < old(self).spaces().len() && !old(self).spaces()[k].ids().contains(window)
                    ==> #[trigger] final(self).spaces()[k] == old(self).spaces()[k],
            !final(self).holds(window),
    {
        let s = match self.find_window(window) {
            Some(s) => s,
            None => {
                return;
            },
        };
        self.remove_from(s, window);
    }

    fn remove_from(&mut self, s: usize, window: u64)
        requires
            old(self).wf(),
            s < old(self).spaces().len(),
            old(self).spaces()[s as int].ids().contains(window),
        ensures
            final(self).wf(),
            final(self).current_index() == old(self).current_index(),
            final(self).spaces().len() == old(self).spaces().len(),
            forall|k: int|
                0 <= k < old(self).spaces().len() && old(self).spaces()[k].ids().contains(window)
                    ==> #[trigger] final(self).spaces()[k].ids() == old(self).spaces()[k].ids().filter(
                    |x: u64| x != window,
                ),
            forall|k: int|
                0 <= k < old(self).spaces().len() && !old(self).spaces()[k].ids().contains(window)
                    ==> #[trigger] final(self).spaces()[k] == old(self).spaces()[k],
            final(self).spaces()[s as int].tree_spec() == old(self).spaces()[s as int].tree_spec().remove_spec(
                window,
            ).realign_spec(HorizontalOrVertical::Horizontal),
            !final(self).holds(window),
    {
        let mut ws = Self::placeholder();
        self.workspaces.set_and_swap(s, &mut ws);
        ws.remove_window(window);
        self.workspaces.set(s, ws);
        proof {
            let o = old(self).spaces();
            let n = self.spaces();
            assert forall|k: int|
                0 <= k < o.len() && o[k].ids().contains(window) implies #[trigger] n[k].ids()
                == o[k].ids().filter(|x: u64| x != window) by {
                if k != s {
                    assert(o[s as int].ids().contains(window));
                }
            }
            assert forall|i: int, j: int, x: u64|
                0 <= i < n.len() && 0 <= j < n.len() && i != j && (#[trigger] n[i].ids().contains(
                    x,
                )) implies !(#[trigger] n[j].ids().contains(x)) by {
                if i == s {
                    lemma_filter_subset(o[i].ids(), window, x);
                    assert(o[i].ids().contains(x));
                } else if j == s {
                    assert(o[i].ids().contains(x));
                    if n[j].ids().contains(x) {
                        lemma_filter_subset(o[j].ids(), window, x);
                    }
                } else {
                    assert(o[i].ids().contains(x));
                }
            }
            assert forall|i: int| 0 <= i < n.len() implies !(#[trigger] n[i]).ids().contains(window) by {
                if i != s {
                    if o[i].ids().contains(window) {
                        assert(o[s as int].ids().contains(window));
                    }
                }
            }
        }
    }

    /// Adjusts the ratio of the current workspace's top split.
    pub fn update_ratio(&mut self, update_interval: u32, increment: Option<bool>)
        requires
            old(self).wf(),
        ensures
            final(self).wf(),
            final(self).current_index() == old(self).current_index(),
            final(self).spaces().len() == old(self).spaces().len(),
            final(self).spaces()[final(self).current_index()].tree_spec() == old(self).spaces()[old(
                self,
            ).current_index()].tree_spec().update_ratio_spec(update_interval, increment),
            forall|k: int|
                0 <= k < old(self).spaces().len() ==> #[trigger] final(self).spaces()[k].ids() == old(
                    self,
                ).spaces()[k].ids(),
            forall|k: int|
                0 <= k < old(self).spaces().len() && k != old(self).current_index()
                    ==> #[trigger] final(self).spaces()[k] == old(self).spaces()[k],
    {
        let c = self.current;
        let mut ws = Self::placeholder();
        self.workspaces.set_and_swap(c, &mut ws);
        ws.update_ratio(update_interval, increment);
        self.workspaces.set(c, ws);
        proof {
            let o = old(self).spaces();
            let n = self.spaces();
            assert forall|i: int, j: int, x: u64|
                0 <= i < n.len() && 0 <= j < n.len() && i != j && (#[trigger] n[i].ids().contains(
                    x,
                )) implies !(#[trigger] n[j].ids().contains(x)) by {
                assert(n[i].ids() == o[i].ids());
                assert(n[j].ids() == o[j].ids());
            }
        }
    }

    /// Maps the current workspace to `output`.
    pub fn add_output(&mut self, output: Output)
        requires
            old(self).wf(),
            output.width >= 0,
            output.height >= 0,
        ensures
            final(self).wf(),
            final(self).current_index() == old(self).current_index(),
            final(self).spaces().len() == old(self).spaces().len(),
            final(self).spaces()[final(self).current_index()].output_spec() == Some(output),
            forall|k: int|
                0 <= k < old(self).spaces().len() ==> #[trigger] final(self).spaces()[k].ids() == old(
                    self,
                ).spaces()[k].ids(),
            forall|k: int|
                0 <= k < old(self).spaces().len() && k != old(self).current_index()
                    ==> #[trigger] final(self).spaces()[k] == old(self).spaces()[k],
    {
        let c = self.current;
        let mut ws = Self::placeholder();
        self.workspaces.set_and_swap(c, &mut ws);
        ws.add_output(output);
        self.workspaces.set(c, ws);
        proof {
            let o = old(self).spaces();
            let n = self.spaces();
            assert forall|i: int, j: int, x: u64|
                0 <= i < n.len() && 0 <= j < n.len() && i != j && (#[trigger] n[i].ids().contains(
                    x,
                )) implies !(#[trigger] n[j].ids().contains(x)) by {
                assert(n[i].ids() == o[i].ids());
                assert(n[j].ids() == o[j].ids());
            }
        }
    }

    /// Every window of every workspace, in workspace order and then in list
    /// order.
    pub fn all_windows(&self) -> (r: Vec<u64>)
        ensures
            r@ == self.all_ids(),
    {
        let mut r: Vec<u64> = Vec::new();
        let mut i: usize = 0;
        while i < self.workspaces.len()
            invariant
                i <= self.spaces().len(),
                r@ == self.spaces().subrange(0, i as int).map_values(|ws: Workspace| ws.ids()).flatten(),
            decreases self.spaces().len() - i,
        {
            let mut ids = self.workspaces[i].window_ids();
            proof {
                let pre = self.spaces().subrange(0, i as int).map_values(|ws: Workspace| ws.ids());
                assert(self.spaces().subrange(0, i + 1).map_values(|ws: Workspace| ws.ids()) =~= pre.push(
                    self.spaces()[i as int].ids(),
                ));
                pre.lemma_flatten_push(self.spaces()[i as int].ids());
            }
            r.append(&mut ids);
            i = i + 1;
        }
        proof {
            assert(self.spaces().subrange(0, i as int) =~= self.spaces());
        }
        r
    }

    /// Index of the workspace that holds `window`.
    pub fn find_window(&self, window: u64) -> (r: Option<usize>)
        ensures
            match r {
                Some(i) => i < self.spaces().len() && self.spaces()[i as int].ids().contains(window),
                None => !self.holds(window),
            },
    {
        let mut i: usize = 0;
        while i < self.workspaces.len()
            invariant
                i <= self.spaces().len(),
                forall|k: int| 0 <= k < i ==> !(#[trigger] self.spaces()[k]).ids().contains(window),
            decreases self.spaces().len() - i,
        {
            if self.workspaces[i].contains(window) {
                return Some(i);
            }
            i = i + 1;
        }
        None
    }
}

} // verus!
