use tiler::binarytree::{RATIO_MAX, RATIO_MIN, RATIO_RESET};
use tiler::geometry::compute_layout;
use tiler::{BinaryTree, Gaps, HorizontalOrVertical, Output, Rect, TiledWindow, Workspace};

fn rect(x: i64, y: i64, width: i64, height: i64) -> Rect {
    Rect { x, y, width, height }
}

fn geometry(ws: &Workspace, window: u64) -> Rect {
    ws.windows().iter().find(|t: &&TiledWindow| t.window == window).unwrap().geometry
}

fn workspace_1000x600(gap: i32) -> Workspace {
    let mut ws = Workspace::new(Gaps { horizontal: gap, vertical: gap }, RATIO_RESET);
    ws.add_output(Output { id: 1, width: 1000, height: 600 });
    ws
}

#[test]
fn reverse_flips_axis() {
    assert_eq!(HorizontalOrVertical::Horizontal.reverse(), HorizontalOrVertical::Vertical);
    assert_eq!(HorizontalOrVertical::Vertical.reverse(), HorizontalOrVertical::Horizontal);
}

#[test]
fn scenario_three_windows_then_remove_first() {
    let (a, b, c) = (10u64, 20u64, 30u64);
    let mut ws = workspace_1000x600(0);
    ws.insert_window(a);
    assert_eq!(geometry(&ws, a), rect(0, 0, 1000, 600));
    ws.insert_window(b);
    assert_eq!(geometry(&ws, a), rect(0, 0, 500, 600));
    assert_eq!(geometry(&ws, b), rect(500, 0, 500, 600));
    match ws.tree() {
        BinaryTree::Split { split, ratio, .. } => {
            assert_eq!(*split, HorizontalOrVertical::Horizontal);
            assert_eq!(*ratio, 500);
        }
        _ => panic!("expected a split"),
    }
    ws.insert_window(c);
    assert_eq!(geometry(&ws, a), rect(0, 0, 500, 600));
    assert_eq!(geometry(&ws, b), rect(500, 0, 500, 300));
    assert_eq!(geometry(&ws, c), rect(500, 300, 500, 300));
    match ws.tree() {
        BinaryTree::Split { split, right, .. } => {
            assert_eq!(*split, HorizontalOrVertical::Horizontal);
            match right.as_ref() {
                BinaryTree::Split { split, .. } => assert_eq!(*split, HorizontalOrVertical::Vertical),
                _ => panic!("expected a nested split"),
            }
        }
        _ => panic!("expected a split"),
    }
    ws.remove_window(a);
    assert_eq!(ws.window_ids(), vec![b, c]);
    // The remaining split is re-rooted and realigned starting from Horizontal.
    match ws.tree() {
        BinaryTree::Split { split, left, right, .. } => {
            assert_eq!(*split, HorizontalOrVertical::Horizontal);
            assert!(matches!(left.as_ref(), BinaryTree::Window(w) if *w == b));
            assert!(matches!(right.as_ref(), BinaryTree::Window(w) if *w == c));
        }
        _ => panic!("expected a split"),
    }
    assert_eq!(geometry(&ws, b), rect(0, 0, 500, 600));
    assert_eq!(geometry(&ws, c), rect(500, 0, 500, 600));
}

#[test]
fn gaps_inset_every_edge() {
    let mut ws = workspace_1000x600(5);
    ws.insert_window(1);
    assert_eq!(geometry(&ws, 1), rect(5, 5, 990, 590));
    ws.insert_window(2);
    assert_eq!(geometry(&ws, 1), rect(5, 5, 490, 590));
    assert_eq!(geometry(&ws, 2), rect(505, 5, 490, 590));
}

#[test]
fn insertions_build_right_spine_in_order() {
    let mut t = BinaryTree::new();
    for w in 1..=5u64 {
        let axis = t.next_split();
        t.insert(w, axis, 500);
    }
    let mut node = &t;
    let mut seen = Vec::new();
    loop {
        match node {
            BinaryTree::Split { left, right, .. } => {
                match left.as_ref() {
                    BinaryTree::Window(w) => seen.push(*w),
                    _ => panic!("left child must be a window"),
                }
                node = right.as_ref();
            }
            BinaryTree::Window(w) => {
                seen.push(*w);
                break;
            }
            BinaryTree::Empty => panic!("spine must end in a window"),
        }
    }
    assert_eq!(seen, vec![1, 2, 3, 4, 5]);
}

#[test]
fn realign_alternates_down_right_spine() {
    let mut t = BinaryTree::new();
    for w in 1..=5u64 {
        t.insert(w, HorizontalOrVertical::Vertical, 500);
    }
    t.update_after_removal(HorizontalOrVertical::Horizontal);
    let mut node = &t;
    let mut depth = 0;
    while let BinaryTree::Split { split, right, .. } = node {
        let expected = if depth % 2 == 0 {
            HorizontalOrVertical::Horizontal
        } else {
            HorizontalOrVertical::Vertical
        };
        assert_eq!(*split, expected);
        node = right.as_ref();
        depth += 1;
    }
    assert_eq!(depth, 4);
}

#[test]
fn next_split_alternates() {
    let mut t = BinaryTree::new();
    assert_eq!(t.next_split(), HorizontalOrVertical::Horizontal);
    t.insert(1, HorizontalOrVertical::Horizontal, 500);
    assert_eq!(t.next_split(), HorizontalOrVertical::Horizontal);
    t.insert(2, HorizontalOrVertical::Horizontal, 500);
    assert_eq!(t.next_split(), HorizontalOrVertical::Vertical);
    t.insert(3, HorizontalOrVertical::Vertical, 500);
    assert_eq!(t.next_split(), HorizontalOrVertical::Horizontal);
}

fn split_ratios(t: &BinaryTree) -> (u32, u32) {
    match t {
        BinaryTree::Split { ratio, counter_ratio, .. } => (*ratio, *counter_ratio),
        _ => panic!("expected a split"),
    }
}

#[test]
fn ratio_stays_clamped() {
    let mut t = BinaryTree::new();
    t.insert(1, HorizontalOrVertical::Horizontal, 500);
    t.insert(2, HorizontalOrVertical::Horizontal, 500);
    for _ in 0..10 {
        t.update_ratio(50, Some(true));
        let (r, c) = split_ratios(&t);
        assert!(r >= RATIO_MIN && r <= RATIO_MAX);
        assert_eq!(r + c, 1000);
    }
    assert_eq!(split_ratios(&t), (700, 300));
    t.update_ratio(50, Some(false));
    assert_eq!(split_ratios(&t), (650, 350));
    for _ in 0..20 {
        t.update_ratio(50, Some(false));
        let (r, c) = split_ratios(&t);
        assert!(r >= RATIO_MIN && r <= RATIO_MAX);
        assert_eq!(r + c, 1000);
    }
    assert_eq!(split_ratios(&t), (300, 700));
    t.update_ratio(50, None);
    assert_eq!(split_ratios(&t), (500, 500));
}

#[test]
fn update_ratio_on_window_or_empty_is_noop() {
    let mut t = BinaryTree::new();
    t.update_ratio(50, Some(true));
    assert!(matches!(t, BinaryTree::Empty));
    t.insert(7, HorizontalOrVertical::Horizontal, 500);
    t.update_ratio(50, None);
    assert!(matches!(t, BinaryTree::Window(7)));
}

#[test]
fn layout_partitions_area() {
    let mut t = BinaryTree::new();
    for w in 1..=7u64 {
        let axis = t.next_split();
        t.insert(w, axis, 400);
    }
    let area = rect(3, 7, 1001, 599);
    let rects = compute_layout(&t, area);
    assert_eq!(rects.len(), 7);
    let total: i64 = rects.iter().map(|r| r.width * r.height).sum();
    assert_eq!(total, 1001 * 599);
    for r in &rects {
        assert!(r.x >= 3 && r.y >= 7 && r.x + r.width <= 1004 && r.y + r.height <= 606);
    }
}

#[test]
fn insert_then_remove_gives_empty() {
    let mut t = BinaryTree::new();
    t.insert(42, HorizontalOrVertical::Horizontal, 500);
    t.remove(42);
    assert!(matches!(t, BinaryTree::Empty));
}

#[test]
fn remove_absent_window_is_noop() {
    let mut t = BinaryTree::new();
    t.insert(1, HorizontalOrVertical::Horizontal, 500);
    t.insert(2, HorizontalOrVertical::Horizontal, 500);
    t.remove(99);
    let mut ws = workspace_1000x600(0);
    ws.insert_window(1);
    ws.remove_window(99);
    assert_eq!(ws.window_ids(), vec![1]);
    assert!(matches!(t, BinaryTree::Split { .. }));
}

#[test]
fn remove_middle_window_keeps_order() {
    let mut ws = workspace_1000x600(0);
    for w in [1u64, 2, 3, 4] {
        ws.insert_window(w);
    }
    ws.remove_window(2);
    assert_eq!(ws.window_ids(), vec![1, 3, 4]);
    let total: i64 = ws.windows().iter().map(|t| t.geometry.width * t.geometry.height).sum();
    assert_eq!(total, 1000 * 600);
}

#[test]
fn inserting_same_window_twice_keeps_one() {
    let mut ws = workspace_1000x600(0);
    ws.insert_window(5);
    ws.insert_window(5);
    assert_eq!(ws.window_ids(), vec![5]);
}

#[test]
fn window_under_point() {
    let mut ws = workspace_1000x600(0);
    ws.insert_window(1);
    ws.insert_window(2);
    assert_eq!(ws.window_under(100, 100), Some((1, 0, 0)));
    assert_eq!(ws.window_under(700, 100), Some((2, 500, 0)));
    assert_eq!(ws.window_under(1000, 100), None);
    assert_eq!(ws.window_under(-1, 100), None);
}

#[test]
fn outputs_lists_mapped_output() {
    let mut ws = Workspace::new(Gaps { horizontal: 0, vertical: 0 }, RATIO_RESET);
    assert!(ws.outputs().is_empty());
    ws.insert_window(3);
    assert_eq!(geometry(&ws, 3), rect(0, 0, 0, 0));
    let o = Output { id: 9, width: 800, height: 400 };
    ws.add_output(o);
    assert_eq!(ws.outputs(), vec![o]);
    assert_eq!(geometry(&ws, 3), rect(0, 0, 800, 400));
}

#[test]
fn rect_contains_point_excludes_far_edges() {
    let r = rect(10, 20, 30, 40);
    assert!(r.contains_point(10, 20));
    assert!(r.contains_point(39, 59));
    assert!(!r.contains_point(40, 30));
    assert!(!r.contains_point(20, 60));
}

#[test]
fn layout_with_ratio_exact() {
    let mut t = BinaryTree::new();
    for w in 1..=3u64 {
        let axis = t.next_split();
        t.insert(w, axis, 400);
    }
    let rects = compute_layout(&t, rect(0, 0, 1000, 600));
    assert_eq!(rects, vec![rect(0, 0, 400, 600), rect(400, 0, 600, 240), rect(400, 240, 600, 360)]);
}

#[test]
fn uneven_split_rounds_left_down() {
    let mut t = BinaryTree::new();
    t.insert(1, HorizontalOrVertical::Horizontal, 333);
    t.insert(2, HorizontalOrVertical::Horizontal, 333);
    let rects = compute_layout(&t, rect(10, 0, 101, 50));
    assert_eq!(rects, vec![rect(10, 0, 33, 50), rect(43, 0, 68, 50)]);
}
