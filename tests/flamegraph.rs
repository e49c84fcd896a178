use pid_flamegraph::event::{EbpfData, EventKind, RECORD_SIZE};
use pid_flamegraph::profiler::Profiler;
use pid_flamegraph::reconstruct::PathTracker;
use pid_flamegraph::render::{
    draw_flame_node, generate_flamegraph, hash_name, scaled_width, RenderPrimitive, CELL_HEIGHT,
    MAX_DEPTH,
};
use pid_flamegraph::tree::FlameNode;

fn event(stack_id: u64, timestamp: u64, event_type: u8, name: &str) -> EbpfData {
    let mut data = vec![0u8; 64];
    data[..name.len()].copy_from_slice(name.as_bytes());
    EbpfData {
        pid: 7,
        stack_id,
        timestamp,
        event_type,
        data_len: name.len() as u8,
        data,
    }
}

fn enter(stack_id: u64, name: &str, timestamp: u64) -> EbpfData {
    event(stack_id, timestamp, 0, name)
}

fn exit(stack_id: u64, timestamp: u64) -> EbpfData {
    event(stack_id, timestamp, 1, "")
}

fn names(list: &[&str]) -> Vec<String> {
    list.iter().map(|s| s.to_string()).collect()
}

fn child<'a>(node: &'a FlameNode, name: &str) -> &'a FlameNode {
    node.children
        .iter()
        .find(|c| c.name == name)
        .expect("child present")
}

fn node(name: &str, start: u64, end: u64, children: Vec<FlameNode>) -> FlameNode {
    FlameNode { name: name.to_string(), start, end, children }
}

fn draw(root: &FlameNode, width: u32, max_depth: usize) -> Vec<RenderPrimitive> {
    let mut out = Vec::new();
    draw_flame_node(&mut out, root, 0, 0, width, CELL_HEIGHT, 0, max_depth);
    out
}

#[test]
fn enter_enter_exit_builds_path_with_repeated_first_frame() {
    let mut p = Profiler::new();
    p.handle_event(&enter(1, "a", 0));
    p.handle_event(&enter(1, "b", 1));
    p.handle_event(&exit(1, 10));
    assert_eq!(p.root.children.len(), 1);
    let a = child(&p.root, "a");
    assert_eq!(a.children.len(), 1);
    let a2 = child(a, "a");
    assert_eq!(a2.children.len(), 1);
    let b = child(a2, "b");
    assert_eq!((b.start, b.end), (0, 10));
    assert!(b.children.is_empty());
    assert_eq!((p.root.start, p.root.end), (0, 10));
    assert!(p.tracker.open.is_empty());
}

#[test]
fn disjoint_runs_merge_into_one_node() {
    let mut root = FlameNode::new(String::new(), 0, 0);
    root.add_child(&names(&["x", "y"]), 0, 5);
    root.add_child(&names(&["x", "y"]), 2, 9);
    assert_eq!(root.children.len(), 1);
    let x = child(&root, "x");
    assert_eq!(x.children.len(), 1);
    let y = child(x, "y");
    assert_eq!((y.start, y.end), (0, 9));
}

#[test]
fn disjoint_identifiers_merge_through_events() {
    let mut p = Profiler::new();
    p.handle_event(&enter(1, "x", 0));
    p.handle_event(&enter(2, "x", 2));
    p.handle_event(&enter(1, "y", 1));
    p.handle_event(&enter(2, "y", 3));
    p.handle_event(&exit(1, 5));
    p.handle_event(&exit(2, 9));
    let y = child(child(child(&p.root, "x"), "x"), "y");
    assert_eq!((y.start, y.end), (0, 9));
    assert_eq!(p.root.children.len(), 1);
}

#[test]
fn zero_width_child_draws_nothing_below_it() {
    let grandchild = node("deep", 0, 1, vec![]);
    let tiny = node("tiny", 0, 1, vec![grandchild]);
    let big = node("big", 0, 5000, vec![]);
    let root = node("", 0, 10000, vec![tiny, big]);
    let prims = draw(&root, 1200, MAX_DEPTH);
    assert_eq!(prims.len(), 1);
    assert_eq!(prims[0].x, 0);
    assert_eq!(prims[0].width, 600);
    assert_eq!(prims[0].row, 0);
}

#[test]
fn inserting_twice_equals_inserting_once() {
    let mut once = FlameNode::new(String::new(), 0, 0);
    once.add_child(&names(&["m", "n"]), 3, 8);
    let mut twice = FlameNode::new(String::new(), 0, 0);
    twice.add_child(&names(&["m", "n"]), 3, 8);
    twice.add_child(&names(&["m", "n"]), 3, 8);
    let a = child(child(&once, "m"), "n");
    let b = child(child(&twice, "m"), "n");
    assert_eq!((a.start, a.end), (b.start, b.end));
    assert_eq!((a.start, a.end), (3, 8));
    assert_eq!(twice.children.len(), 1);
    assert_eq!(child(&twice, "m").children.len(), 1);
}

#[test]
fn child_widths_never_exceed_parent_width() {
    let cs = vec![
        node("a", 0, 1, vec![]),
        node("b", 1, 2, vec![]),
        node("c", 2, 3, vec![]),
    ];
    let root = node("", 0, 3, cs);
    let prims = draw(&root, 1000, MAX_DEPTH);
    let total: u32 = prims.iter().filter(|p| p.row == 0).map(|p| p.width).sum();
    assert_eq!(prims.len(), 3);
    assert_eq!(total, 999);
    assert!(total <= 1000);
    assert_eq!(prims[1].x, 333);
    assert_eq!(prims[2].x, 666);
}

#[test]
fn first_row_area_is_sum_of_direct_child_widths() {
    let cs = vec![
        node("a", 0, 4, vec![node("a1", 0, 2, vec![])]),
        node("b", 4, 6, vec![]),
        node("c", 6, 6, vec![]),
    ];
    let root = node("", 0, 8, cs);
    let prims = draw(&root, 1200, MAX_DEPTH);
    let first_row: u32 = prims.iter().filter(|p| p.row == 0).map(|p| p.width).sum();
    assert_eq!(first_row, 600 + 300);
    assert_eq!(prims.len(), 3);
    assert_eq!(prims[1].row, 1);
    assert_eq!(prims[1].y, CELL_HEIGHT);
    assert_eq!(prims[1].width, 300);
}

#[test]
fn deep_path_is_clipped_at_max_depth() {
    let path: Vec<String> = (0..MAX_DEPTH + 5).map(|i| format!("f{}", i)).collect();
    let mut p = Profiler::new();
    p.record(&path, 0, 100);
    let prims = generate_flamegraph(&p.root);
    assert_eq!(prims.len(), MAX_DEPTH);
    for prim in &prims {
        assert!(prim.row < MAX_DEPTH);
        assert!(prim.y + prim.height <= 800);
        assert_eq!(prim.width, 1200);
    }
}

#[test]
fn stray_exit_changes_nothing() {
    let mut p = Profiler::new();
    p.handle_event(&enter(3, "main", 5));
    p.handle_event(&exit(99, 50));
    assert!(p.root.children.is_empty());
    assert!(!p.recorded);
    assert_eq!(p.tracker.open.len(), 1);
    assert_eq!(p.tracker.open[&3].names, names(&["main", "main"]));
}

#[test]
fn unknown_event_kind_is_ignored() {
    let mut p = Profiler::new();
    p.handle_event(&enter(1, "f", 0));
    p.handle_event(&event(1, 10, 7, "g"));
    assert_eq!(p.tracker.open[&1].names, names(&["f", "f"]));
    assert!(p.root.children.is_empty());
}

#[test]
fn tracker_enter_appends_and_exit_completes() {
    let mut t = PathTracker::new();
    t.on_enter(4, "a".to_string(), 11);
    t.on_enter(4, "b".to_string(), 12);
    assert!(t.on_exit(5, 20).is_none());
    let done = t.on_exit(4, 30).expect("open path");
    assert_eq!(done.names, names(&["a", "a", "b"]));
    assert_eq!((done.start, done.end), (11, 30));
    assert!(t.on_exit(4, 31).is_none());
}

#[test]
fn empty_path_is_a_no_op() {
    let mut p = Profiler::new();
    p.record(&[], 1, 2);
    assert!(!p.recorded);
    assert_eq!((p.root.start, p.root.end), (0, 0));
    let mut root = FlameNode::new("r".to_string(), 1, 2);
    root.add_child(&[], 0, 10);
    assert_eq!((root.start, root.end), (1, 2));
    assert!(root.children.is_empty());
}

#[test]
fn root_spans_all_completed_paths() {
    let mut p = Profiler::new();
    p.record(&names(&["a"]), 100, 200);
    p.record(&names(&["b"]), 50, 150);
    assert_eq!((p.root.start, p.root.end), (50, 200));
    let prims = generate_flamegraph(&p.root);
    assert_eq!(prims.len(), 2);
    assert_eq!(prims[0].width, 800);
    assert_eq!(prims[1].x, 800);
    assert_eq!(prims[1].width, 800);
}

#[test]
fn color_comes_from_name_hash() {
    assert_eq!(hash_name(&"a".to_string()), 97);
    assert_eq!(hash_name(&"ab".to_string()), 97 * 31 + 98);
    assert_eq!(hash_name(&String::new()), 0);
    let root = node("", 0, 10, vec![node("ab", 0, 10, vec![])]);
    let prims = draw(&root, 1200, MAX_DEPTH);
    assert_eq!((prims[0].red, prims[0].green, prims[0].blue), (0x00, 0x0c, 0x21));
    let long = "abcdefgh".to_string();
    let expected = long.bytes().fold(0u32, |h, b| h.wrapping_mul(31).wrapping_add(b as u32));
    assert_eq!(hash_name(&long), expected);
}

#[test]
fn label_only_on_wide_rectangles() {
    let root = node("", 0, 100, vec![node("wide", 0, 50, vec![]), node("thin", 50, 54, vec![])]);
    let prims = draw(&root, 1200, MAX_DEPTH);
    assert_eq!(prims.len(), 2);
    let label = prims[0].label.as_ref().expect("label");
    assert_eq!((label.x, label.y, label.text.as_str()), (5, 15, "wide"));
    assert_eq!(prims[1].width, 48);
    assert!(prims[1].label.is_none());
}

#[test]
fn zero_duration_parent_draws_nothing() {
    let root = node("", 5, 5, vec![node("a", 0, 10, vec![])]);
    assert!(draw(&root, 1200, MAX_DEPTH).is_empty());
    let leaf = node("", 0, 10, vec![]);
    assert!(draw(&leaf, 1200, MAX_DEPTH).is_empty());
    let root = node("", 0, 10, vec![node("a", 0, 10, vec![])]);
    assert!(draw(&root, 1200, 0).is_empty());
}

#[test]
fn scaled_width_rounds_down_and_caps() {
    assert_eq!(scaled_width(1, 3, 1200), 400);
    assert_eq!(scaled_width(2, 3, 1000), 666);
    assert_eq!(scaled_width(0, 3, 1000), 0);
    assert_eq!(scaled_width(u64::MAX, 1, u32::MAX), u32::MAX);
}

#[test]
fn duration_of_reversed_span_is_zero() {
    assert_eq!(FlameNode::new("a".to_string(), 10, 4).duration(), 0);
    assert_eq!(FlameNode::new("a".to_string(), 4, 10).duration(), 6);
}

#[test]
fn decode_reads_little_endian_record() {
    let mut bytes = vec![0u8; RECORD_SIZE];
    bytes[0..4].copy_from_slice(&1234u32.to_le_bytes());
    bytes[8..16].copy_from_slice(&0x0102_0304_0506_0708u64.to_le_bytes());
    bytes[16..24].copy_from_slice(&987_654_321u64.to_le_bytes());
    bytes[24] = 1;
    bytes[25] = 3;
    bytes[26..29].copy_from_slice(b"foo");
    let e = EbpfData::decode(&bytes).expect("full record");
    assert_eq!(e.pid, 1234);
    assert_eq!(e.stack_id, 0x0102_0304_0506_0708);
    assert_eq!(e.timestamp, 987_654_321);
    assert_eq!(e.kind(), Some(EventKind::Exit));
    assert_eq!(e.data.len(), 64);
    assert_eq!(e.func_name(), "foo");
    assert!(EbpfData::decode(&bytes[..RECORD_SIZE - 1]).is_none());
}

#[test]
fn func_name_is_decoded_permissively_and_truncated() {
    let mut e = event(1, 0, 0, "");
    e.data[0] = b'a';
    e.data[1] = 0xff;
    e.data[2] = b'b';
    e.data_len = 3;
    assert_eq!(e.func_name(), "a\u{fffd}b");
    let mut full = event(1, 0, 0, "");
    full.data = vec![b'z'; 64];
    full.data_len = 200;
    assert_eq!(full.func_name(), "z".repeat(64));
    assert_eq!(event(1, 0, 9, "q").kind(), None);
    assert_eq!(event(1, 0, 0, "q").kind(), Some(EventKind::Enter));
}
