use crate::tree::{FlameNode, Frame};
use vstd::arithmetic::div_mod::{lemma_fundamental_div_mod, lemma_mod_pos_bound};
use vstd::prelude::*;

verus! {

/// Width of the canvas in drawing units.
pub const CANVAS_WIDTH: u32 = 1200;

/// Height of the canvas in drawing units.
pub const CANVAS_HEIGHT: u32 = 800;

/// Height of one row of frames.
pub const CELL_HEIGHT: u32 = 20;

/// The number of rows that fit the canvas: `CANVAS_HEIGHT / CELL_HEIGHT`.
pub const MAX_DEPTH: usize = 40;

/// A frame narrower than this, or exactly this wide, carries no label.
pub const LABEL_MIN_WIDTH: u32 = 50;

/// Offset of a label from the left and bottom edges of its rectangle.
pub const LABEL_INSET: u32 = 5;

/// Text drawn inside a rectangle.
pub struct Label {
    pub x: u32,
    pub y: u32,
    pub text: String,
}

/// One drawable rectangle with its fill color and optional label. `row` is
/// the depth of the layout step that drew it.
pub struct RenderPrimitive {
    pub x: u32,
    pub y: u32,
    pub width: u32,
    pub height: u32,
    pub row: usize,
    pub red: u8,
    pub green: u8,
    pub blue: u8,
    pub label: Option<Label>,
}

/// Mathematical model of a `RenderPrimitive`; a label is `(x, y, text)`.
pub struct Prim {
    pub x: u32,
    pub y: u32,
    pub width: u32,
    pub height: u32,
    pub row: nat,
    pub red: u8,
    pub green: u8,
    pub blue: u8,
    pub label: Option<(u32, u32, Seq<char>)>,
}

impl RenderPrimitive {
    pub open spec fn view(&self) -> Prim {
        Prim {
            x: self.x,
            y: self.y,
            width: self.width,
            height: self.height,
            row: self.row as nat,
            red: self.red,
            green: self.green,
            blue: self.blue,
            label: match self.label {
                Some(l) => Some((l.x, l.y, l.text@)),
                None => None,
            },
        }
    }
}

pub open spec fn prims_view(v: Seq<RenderPrimitive>) -> Seq<Prim> {
    v.map_values(|p: RenderPrimitive| p@)
}

/// Multiplicative hash of a name's bytes: `h = h * 31 + byte`, modulo 2^32.
pub open spec fn name_hash(bytes: Seq<u8>) -> u32
    decreases bytes.len(),
{
    if bytes.len() == 0 {
        0
    } else {
        name_hash(bytes.drop_last()).wrapping_mul(31).wrapping_add(bytes.last() as u32)
    }
}

/// The width given to a child of duration `d` under a parent of duration
/// `total > 0` drawn `width` wide: `floor(d / total * width)`, capped at `u32::MAX`.
pub open spec fn child_width(d: int, total: int, width: int) -> int {
    let w = d * width / total;
    if w > u32::MAX {
        u32::MAX as int
    } else {
        w
    }
}

/// The rectangle drawn for frame `c` at `(x, y)`, `w` wide and `h` high.
pub open spec fn prim_of(c: Frame, x: u32, y: u32, w: u32, h: u32, row: nat) -> Prim {
    let hash = name_hash(vstd::utf8::encode_utf8(c.name));
    Prim {
        x,
        y,
        width: w,
        height: h,
        row,
        red: ((hash >> 16u32) & 0xffu32) as u8,
        green: ((hash >> 8u32) & 0xffu32) as u8,
        blue: (hash & 0xffu32) as u8,
        label: if w > LABEL_MIN_WIDTH {
            Some((x.saturating_add(LABEL_INSET), y.saturating_add(h).saturating_sub(LABEL_INSET), c.name))
        } else {
            None
        },
    }
}

/// The primitives drawn for the children of `f`, which spans `width` units from
/// `x`, in row `depth`, stopping at `max_depth`. Nothing is drawn for a node
/// without children or with an empty span.
pub open spec fn layout(f: Frame, x: u32, y: u32, width: u32, h: u32, depth: nat, max_depth: nat) -> Seq<Prim>
    decreases max_depth - depth, 1nat, 0nat,
{
    if depth >= max_depth || f.children.len() == 0 || f.duration() == 0 {
        Seq::empty()
    } else {
        layout_children(f, 0, x, y, width, h, depth, max_depth)
    }
}

/// The primitives drawn for the children of `f` from the `k`-th on, the first
/// of them starting at `cx`. A child whose width comes to zero is skipped
/// together with its subtree.
pub open spec fn layout_children(
    f: Frame,
    k: nat,
    cx: u32,
    y: u32,
    width: u32,
    h: u32,
    depth: nat,
    max_depth: nat,
) -> Seq<Prim>
    decreases max_depth - depth, 0nat, f.children.len() - k,
{
    if depth >= max_depth || k >= f.children.len() || f.duration() == 0 {
        Seq::empty()
    } else {
        let c = f.children[k as int];
        let cw = child_width(c.duration(), f.duration(), width as int);
        if cw == 0 {
            layout_children(f, k + 1, cx, y, width, h, depth, max_depth)
        } else {
            seq![prim_of(c, cx, y, cw as u32, h, depth)]
                + layout(c, cx, y.saturating_add(h), cw as u32, h, depth + 1, max_depth)
                + layout_children(f, k + 1, cx.saturating_add(cw as u32), y, width, h, depth, max_depth)
        }
    }
}

/// The sum of the durations of `children` from the `k`-th on.
pub open spec fn durations_from(children: Seq<Frame>, k: nat) -> int
    decreases children.len() - k,
{
    if k >= children.len() {
        0
    } else {
        children[k as int].duration() + durations_from(children, k + 1)
    }
}

/// The sum of the widths that the children of `f` from the `k`-th on get when
/// `f` is drawn `width` wide.
pub open spec fn widths_from(f: Frame, k: nat, width: int) -> int
    decreases f.children.len() - k,
{
    if k >= f.children.len() {
        0
    } else {
        child_width(f.children[k as int].duration(), f.duration(), width) + widths_from(
            f,
            k + 1,
            width,
        )
    }
}

/// The total width of the primitives of `ps` that lie in row `row`.
pub open spec fn row_area(ps: Seq<Prim>, row: nat) -> int
    decreases ps.len(),
{
    if ps.len() == 0 {
        0
    } else {
        row_area(ps.drop_last(), row) + if ps.last().row == row {
            ps.last().width as int
        } else {
            0
        }
    }
}

proof fn lemma_row_area_concat(a: Seq<Prim>, b: Seq<Prim>, row: nat)
    ensures
        row_area(a + b, row) == row_area(a, row) + row_area(b, row),
    decreases b.len(),
{
    if b.len() > 0 {
        assert((a + b).drop_last() =~= a + b.drop_last());
        lemma_row_area_concat(a, b.drop_last(), row);
    } else {
        assert(a + b =~= a);
    }
}

proof fn lemma_row_area_none(ps: Seq<Prim>, row: nat)
    requires
        forall|i: int| 0 <= i < ps.len() ==> ps[i].row != row,
    ensures
        row_area(ps, row) == 0,
    decreases ps.len(),
{
    if ps.len() > 0 {
        lemma_row_area_none(ps.drop_last(), row);
    }
}

/// `floor(a / t) + floor(b / t) <= floor((a + b) / t)`.
proof fn lemma_floor_superadditive(a: int, b: int, t: int)
    requires
        a >= 0,
        b >= 0,
        t > 0,
    ensures
        a / t + b / t <= (a + b) / t,
{
    lemma_fundamental_div_mod(a, t);
    lemma_fundamental_div_mod(b, t);
    lemma_fundamental_div_mod(a + b, t);
    lemma_mod_pos_bound(a, t);
    lemma_mod_pos_bound(b, t);
    lemma_mod_pos_bound(a + b, t);
    let (qa, qb, q) = (a / t, b / t, (a + b) / t);
    let (ra, rb, r) = (a % t, b % t, (a + b) % t);
    assert(qa + qb <= q) by (nonlinear_arith)
        requires
            a == t * qa + ra,
            b == t * qb + rb,
            a + b == t * q + r,
            0 <= ra,
            0 <= rb,
            r < t,
            t > 0,
    ;
}

proof fn lemma_widths_below_scaled(f: Frame, k: nat, width: int)
    requires
        f.duration() > 0,
        width >= 0,
    ensures
        durations_from(f.children, k) >= 0,
        widths_from(f, k, width) <= durations_from(f.children, k) * width / f.duration(),
    decreases f.children.len() - k,
{
    if k < f.children.len() {
        lemma_widths_below_scaled(f, k + 1, width);
        let d = f.children[k as int].duration();
        let rest = durations_from(f.children, k + 1);
        let t = f.duration();
        assert(d * width >= 0 && rest * width >= 0) by (nonlinear_arith)
            requires
                d >= 0,
                rest >= 0,
                width >= 0,
        ;
        lemma_floor_superadditive(d * width, rest * width, t);
        assert((d + rest) * width == d * width + rest * width) by (nonlinear_arith);
    }
}

/// Where the children's durations add up to no more than the parent's, the
/// widths the children are drawn with add up to no more than the parent's
/// width: each width is rounded down, never up.
pub proof fn lemma_child_widths_fit(f: Frame, width: u32)
    requires
        f.duration() > 0,
        durations_from(f.children, 0) <= f.duration(),
    ensures
        widths_from(f, 0, width as int) <= width,
{
    let t = f.duration();
    let w = width as int;
    let d = durations_from(f.children, 0);
    lemma_widths_below_scaled(f, 0, w);
    assert(d * w <= t * w) by (nonlinear_arith)
        requires
            d <= t,
            w >= 0,
    ;
    vstd::arithmetic::div_mod::lemma_div_is_ordered(d * w, t * w, t);
    lemma_fundamental_div_mod(t * w, t);
    lemma_mod_pos_bound(t * w, t);
    let q = (t * w) / t;
    let r = (t * w) % t;
    assert(q == w) by (nonlinear_arith)
        requires
            t * w == t * q + r,
            0 <= r < t,
    ;
}

/// Every primitive of a layout started in row `depth` lies in a row from
/// `depth` up to, not including, `max_depth`. Where the rows up to `max_depth`
/// fit below `u32::MAX`, row `r` is drawn `(r - depth) * h` below `y`.
pub proof fn lemma_layout_rows(f: Frame, x: u32, y: u32, width: u32, h: u32, depth: nat, max_depth: nat)
    ensures
        forall|i: int|
            0 <= i < layout(f, x, y, width, h, depth, max_depth).len() ==> {
                let p = #[trigger] layout(f, x, y, width, h, depth, max_depth)[i];
                &&& depth <= p.row < max_depth
                &&& p.height == h
                &&& y + (max_depth - depth) * h <= u32::MAX ==> p.y == y + (p.row - depth) * h
            },
    decreases max_depth - depth, 1nat, 0nat,
{
    if !(depth >= max_depth || f.children.len() == 0 || f.duration() == 0) {
        lemma_layout_children_rows(f, 0, x, y, width, h, depth, max_depth);
    }
}

proof fn lemma_layout_children_rows(
    f: Frame,
    k: nat,
    cx: u32,
    y: u32,
    width: u32,
    h: u32,
    depth: nat,
    max_depth: nat,
)
    ensures
        forall|i: int|
            0 <= i < layout_children(f, k, cx, y, width, h, depth, max_depth).len() ==> {
                let p = #[trigger] layout_children(f, k, cx, y, width, h, depth, max_depth)[i];
                &&& depth <= p.row < max_depth
                &&& p.height == h
                &&& y + (max_depth - depth) * h <= u32::MAX ==> p.y == y + (p.row - depth) * h
            },
    decreases max_depth - depth, 0nat, f.children.len() - k,
{
    if !(depth >= max_depth || k >= f.children.len() || f.duration() == 0) {
        let c = f.children[k as int];
        let cw = child_width(c.duration(), f.duration(), width as int);
        if cw == 0 {
            lemma_layout_children_rows(f, k + 1, cx, y, width, h, depth, max_depth);
        } else {
            let y2 = y.saturating_add(h);
            let cx2 = cx.saturating_add(cw as u32);
            lemma_layout_rows(c, cx, y2, cw as u32, h, depth + 1, max_depth);
            lemma_layout_children_rows(f, k + 1, cx2, y, width, h, depth, max_depth);
            let head = seq![prim_of(c, cx, y, cw as u32, h, depth)];
            let sub = layout(c, cx, y2, cw as u32, h, depth + 1, max_depth);
            let rest = layout_children(f, k + 1, cx2, y, width, h, depth, max_depth);
            let all = layout_children(f, k, cx, y, width, h, depth, max_depth);
            assert(all == head + sub + rest);
            assert forall|i: int| 0 <= i < all.len() implies {
                let p = #[trigger] all[i];
                &&& depth <= p.row < max_depth
                &&& p.height == h
                &&& y + (max_depth - depth) * h <= u32::MAX ==> p.y == y + (p.row - depth) * h
            } by {
                if i == 0 {
                    assert(all[i] == head[0]);
                    assert(all[i].row == depth);
                    assert((all[i].row - depth) * h == 0) by (nonlinear_arith)
                        requires
                            all[i].row == depth,
                    ;
                } else if head.len() <= i < head.len() + sub.len() {
                    let p = sub[i - 1];
                    assert(depth + 1 <= p.row < max_depth);
                    assert(all[i] == p);
                    if y + (max_depth - depth) * h <= u32::MAX {
                        let m = max_depth - depth;
                        assert(y + h + (m - 1) * h == y + m * h) by (nonlinear_arith);
                        assert(m >= 1);
                        assert(h <= m * h) by (nonlinear_arith)
                            requires
                                m >= 1,
                        ;
                        assert(y2 == y + h);
                        let r = p.row - depth;
                        assert(y + h + (r - 1) * h == y + r * h) by (nonlinear_arith);
                        assert(p.y == y2 + (p.row - (depth + 1)) * h);
                    }
                } else if i >= head.len() + sub.len() {
                    assert(all[i] == rest[i - head.len() - sub.len()]);
                }
            }
        }
    }
}

/// The first row of a layout is made of the rectangles of the node's direct
/// children: its total width is the sum of their widths, children whose width
/// comes to zero adding nothing. Nothing is drawn where the layout stops at once.
pub proof fn lemma_first_row_area(f: Frame, x: u32, y: u32, width: u32, h: u32, depth: nat, max_depth: nat)
    ensures
        row_area(layout(f, x, y, width, h, depth, max_depth), depth) == if depth < max_depth
            && f.duration() > 0 {
            widths_from(f, 0, width as int)
        } else {
            0
        },
{
    if !(depth >= max_depth || f.children.len() == 0 || f.duration() == 0) {
        lemma_children_row_area(f, 0, x, y, width, h, depth, max_depth);
    }
}

proof fn lemma_children_row_area(
    f: Frame,
    k: nat,
    cx: u32,
    y: u32,
    width: u32,
    h: u32,
    depth: nat,
    max_depth: nat,
)
    requires
        depth < max_depth,
        f.duration() > 0,
    ensures
        row_area(layout_children(f, k, cx, y, width, h, depth, max_depth), depth) == widths_from(
            f,
            k,
            width as int,
        ),
    decreases f.children.len() - k,
{
    if k < f.children.len() {
        let c = f.children[k as int];
        let cw = child_width(c.duration(), f.duration(), width as int);
        let cx2 = cx.saturating_add(cw as u32);
        if cw == 0 {
            lemma_children_row_area(f, k + 1, cx, y, width, h, depth, max_depth);
        } else {
            let y2 = y.saturating_add(h);
            lemma_children_row_area(f, k + 1, cx2, y, width, h, depth, max_depth);
            lemma_layout_rows(c, cx, y2, cw as u32, h, depth + 1, max_depth);
            let head = seq![prim_of(c, cx, y, cw as u32, h, depth)];
            let sub = layout(c, cx, y2, cw as u32, h, depth + 1, max_depth);
            let rest = layout_children(f, k + 1, cx2, y, width, h, depth, max_depth);
            assert forall|i: int| 0 <= i < sub.len() implies sub[i].row != depth by {
                assert(depth + 1 <= sub[i].row);
            }
            lemma_row_area_none(sub, depth);
            lemma_row_area_concat(head, sub, depth);
            lemma_row_area_concat(head + sub, rest, depth);
            assert(head.drop_last() =~= Seq::<Prim>::empty());
            assert(row_area(head.drop_last(), depth) == 0);
            assert(0 < cw <= u32::MAX);
            assert(head.last().width as int == cw);
            assert(row_area(head, depth) == cw);
        }
    }
}

/// Lays out a whole tree on the canvas: its top-level frames fill the first
/// row, `CANVAS_WIDTH` wide, and each row is `CELL_HEIGHT` high.
pub fn generate_flamegraph(root: &FlameNode) -> (r: Vec<RenderPrimitive>)
    ensures
        prims_view(r@) == layout(root@, 0, 0, CANVAS_WIDTH, CELL_HEIGHT, 0, MAX_DEPTH as nat),
{
    assert(MAX_DEPTH as u32 == CANVAS_HEIGHT / CELL_HEIGHT);
    let mut out: Vec<RenderPrimitive> = Vec::new();
    assert(prims_view(out@) =~= Seq::<Prim>::empty());
    draw_flame_node(&mut out, root, 0, 0, CANVAS_WIDTH, CELL_HEIGHT, 0, MAX_DEPTH);
    assert(prims_view(out@) =~= Seq::<Prim>::empty() + layout(root@, 0, 0, CANVAS_WIDTH, CELL_HEIGHT, 0, MAX_DEPTH as nat));
    out
}

/// The color hash of a name, over its UTF-8 bytes.
pub fn hash_name(name: &String) -> (r: u32)
    ensures
        r == name_hash(vstd::utf8::encode_utf8(name@)),
{
    let bytes = name.as_str().as_bytes();
    let mut h: u32 = 0;
    let mut i: usize = 0;
    while i < bytes.len()
        invariant
            bytes@ == vstd::utf8::encode_utf8(name@),
            i <= bytes@.len(),
            h == name_hash(bytes@.subrange(0, i as int)),
        decreases bytes@.len() - i,
    {
        assert(bytes@.subrange(0, i + 1).drop_last() =~= bytes@.subrange(0, i as int));
        h = h.wrapping_mul(31).wrapping_add(bytes[i] as u32);
        i = i + 1;
    }
    assert(bytes@.subrange(0, i as int) =~= bytes@);
    h
}

/// `floor(d / total * width)`, capped at `u32::MAX`, in exact integer arithmetic.
pub fn scaled_width(d: u64, total: u64, width: u32) -> (r: u32)
    requires
        total > 0,
    ensures
        r as int == child_width(d as int, total as int, width as int),
{
    assert((d as int) * (width as int) <= (u64::MAX as int) * (u32::MAX as int)) by (nonlinear_arith)
        requires
            d <= u64::MAX,
            width <= u32::MAX,
    ;
    let p: u128 = d as u128 * width as u128;
    let q: u128 = p / total as u128;
    if q > u32::MAX as u128 {
        u32::MAX
    } else {
        q as u32
    }
}

/// The rectangle, color and label drawn for `child` at `(x, y)`.
fn primitive_for(child: &FlameNode, x: u32, y: u32, width: u32, height: u32, row: usize) -> (r:
    RenderPrimitive)
    ensures
        r@ == prim_of(child@, x, y, width, height, row as nat),
{
    let hash = hash_name(&child.name);
    let label = if width > LABEL_MIN_WIDTH {
        Some(
            Label {
                x: x.saturating_add(LABEL_INSET),
                y: y.saturating_add(height).saturating_sub(LABEL_INSET),
                text: child.name.clone(),
            },
        )
    } else {
        None
    };
    RenderPrimitive {
        x,
        y,
        width,
        height,
        row,
        red: ((hash >> 16u32) & 0xffu32) as u8,
        green: ((hash >> 8u32) & 0xffu32) as u8,
        blue: (hash & 0xffu32) as u8,
        label,
    }
}

/// Appends to `out` the primitives that lay out the children of `node` over
/// `width` units from `(x, y)`, row `depth` onward, stopping at `max_depth`.
pub fn draw_flame_node(
    out: &mut Vec<RenderPrimitive>,
    node: &FlameNode,
    x: u32,
    y: u32,
    width: u32,
    cell_height: u32,
    depth: usize,
    max_depth: usize,
)
    ensures
        prims_view(final(out)@) == prims_view(old(out)@) + layout(
            node@,
            x,
            y,
            width,
            cell_height,
            depth as nat,
            max_depth as nat,
        ),
    decreases max_depth - depth,
{
    let ghost f = node@;
    let ghost out0 = prims_view(out@);
    let total = node.duration();
    if depth >= max_depth || node.children.len() == 0 || total == 0 {
        assert(prims_view(out@) + layout(f, x, y, width, cell_height, depth as nat, max_depth as nat) =~= out0);
        return;
    }
    let mut current_x = x;
    let mut k: usize = 0;
    while k < node.children.len()
        invariant
            f == node@,
            depth < max_depth,
            total as int == f.duration(),
            total > 0,
            k <= node.children@.len(),
            prims_view(out@) + layout_children(
                f,
                k as nat,
                current_x,
                y,
                width,
                cell_height,
                depth as nat,
                max_depth as nat,
            ) == out0 + layout(f, x, y, width, cell_height, depth as nat, max_depth as nat),
        decreases node.children@.len() - k,
    {
        let child = &node.children[k];
        assert(child@ == f.children[k as int]);
        let child_width = scaled_width(child.duration(), total, width);
        if child_width > 0 {
            let ghost before = prims_view(out@);
            let prim = primitive_for(child, current_x, y, child_width, cell_height, depth);
            out.push(prim);
            assert(prims_view(out@) =~= before + seq![prim@]);
            let ghost mid = prims_view(out@);
            draw_flame_node(
                out,
                child,
                current_x,
                y.saturating_add(cell_height),
                child_width,
                cell_height,
                depth + 1,
                max_depth,
            );
            let ghost sub = layout(
                child@,
                current_x,
                y.saturating_add(cell_height),
                child_width,
                cell_height,
                depth as nat + 1,
                max_depth as nat,
            );
            let ghost rest = layout_children(
                f,
                k as nat + 1,
                current_x.saturating_add(child_width),
                y,
                width,
                cell_height,
                depth as nat,
                max_depth as nat,
            );
            assert(prims_view(out@) + rest =~= before + (seq![prim@] + sub + rest));
            current_x = current_x.saturating_add(child_width);
        }
        k = k + 1;
    }
}

} // verus!
