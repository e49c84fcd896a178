use vstd::prelude::*;

verus! {

/// Mathematical model of a call-tree node: its name, the union span of all
/// occurrences of its call edge, and its children in insertion order.
pub struct Frame {
    pub name: Seq<char>,
    pub start: int,
    pub end: int,
    pub children: Seq<Frame>,
}

/// One node of the aggregated call tree.
pub struct FlameNode {
    pub name: String,
    pub start: u64,
    pub end: u64,
    pub children: Vec<FlameNode>,
}

/// The length of a span; a span whose end precedes its start counts as empty.
pub open spec fn span_len(start: int, end: int) -> int {
    if end >= start { end - start } else { 0 }
}

/// `i` is the position of the first child named `name`.
pub open spec fn is_first_match(children: Seq<Frame>, name: Seq<char>, i: int) -> bool {
    &&& 0 <= i < children.len()
    &&& children[i].name == name
    &&& forall|j: int| 0 <= j < i ==> children[j].name != name
}

/// The position of the first child named `name`, or -1 where there is none.
pub open spec fn find_child(children: Seq<Frame>, name: Seq<char>) -> int {
    if exists|i: int| is_first_match(children, name, i) {
        choose|i: int| is_first_match(children, name, i)
    } else {
        -1
    }
}

/// The names of a call path, root first.
pub open spec fn names_of(stack: Seq<String>) -> Seq<Seq<char>> {
    stack.map_values(|s: String| s@)
}

/// The tree after one completed call path `names` spanning `[start, end]` is
/// merged in: one child is found or created per name, in order, and the node
/// of the last name has its span widened to cover `[start, end]`.
pub open spec fn insert_path(t: Frame, names: Seq<Seq<char>>, start: int, end: int) -> Frame
    decreases names.len(),
{
    if names.len() == 0 {
        t
    } else {
        let i = find_child(t.children, names[0]);
        let child = if i >= 0 {
            t.children[i]
        } else {
            Frame { name: names[0], start, end, children: Seq::empty() }
        };
        let merged = if names.len() == 1 {
            Frame {
                start: if child.start <= start { child.start } else { start },
                end: if child.end >= end { child.end } else { end },
                ..child
            }
        } else {
            insert_path(child, names.drop_first(), start, end)
        };
        Frame {
            children: if i >= 0 { t.children.update(i, merged) } else { t.children.push(merged) },
            ..t
        }
    }
}

/// Where some child is named `name`, a first such child exists.
proof fn lemma_first_match_exists(children: Seq<Frame>, name: Seq<char>, k: int)
    requires
        0 <= k < children.len(),
        children[k].name == name,
    ensures
        is_first_match(children, name, find_child(children, name)),
    decreases k,
{
    if forall|j: int| 0 <= j < k ==> children[j].name != name {
        assert(is_first_match(children, name, k));
    } else {
        let j = choose|j: int| 0 <= j < k && children[j].name == name;
        lemma_first_match_exists(children, name, j);
    }
}

/// Replacing the first child named `name` by another of that name keeps its position.
proof fn lemma_find_after_update(children: Seq<Frame>, name: Seq<char>, i: int, m: Frame)
    requires
        is_first_match(children, name, i),
        m.name == name,
    ensures
        find_child(children.update(i, m), name) == i,
{
    let u = children.update(i, m);
    assert(is_first_match(u, name, i));
    let c = find_child(u, name);
    assert(is_first_match(u, name, c));
    assert(c == i);
}

/// Appending a child named `name` where none was makes the new child the first match.
proof fn lemma_find_after_push(children: Seq<Frame>, name: Seq<char>, m: Frame)
    requires
        find_child(children, name) == -1,
        m.name == name,
    ensures
        find_child(children.push(m), name) == children.len(),
{
    let u = children.push(m);
    assert forall|j: int| 0 <= j < children.len() implies children[j].name != name by {
        if children[j].name == name {
            lemma_first_match_exists(children, name, j);
        }
    }
    assert(is_first_match(u, name, children.len() as int));
    let c = find_child(u, name);
    assert(is_first_match(u, name, c));
}

/// Merging a call path never renames the node it is merged into.
proof fn lemma_insert_keeps_name(t: Frame, names: Seq<Seq<char>>, start: int, end: int)
    ensures
        insert_path(t, names, start, end).name == t.name,
{
}

/// Merging the same completed call path twice leaves the tree as merging it
/// once does: spans are widened by minimum and maximum, never accumulated.
pub proof fn lemma_insert_idempotent(t: Frame, names: Seq<Seq<char>>, start: int, end: int)
    ensures
        insert_path(insert_path(t, names, start, end), names, start, end) == insert_path(
            t,
            names,
            start,
            end,
        ),
    decreases names.len(),
{
    if names.len() > 0 {
        let t1 = insert_path(t, names, start, end);
        let i = find_child(t.children, names[0]);
        let child = if i >= 0 {
            t.children[i]
        } else {
            Frame { name: names[0], start, end, children: Seq::empty() }
        };
        if i >= 0 {
            assert(is_first_match(t.children, names[0], i));
        }
        let merged = if names.len() == 1 {
            Frame {
                start: if child.start <= start { child.start } else { start },
                end: if child.end >= end { child.end } else { end },
                ..child
            }
        } else {
            lemma_insert_keeps_name(child, names.drop_first(), start, end);
            lemma_insert_idempotent(child, names.drop_first(), start, end);
            insert_path(child, names.drop_first(), start, end)
        };
        let idx = if i >= 0 { i } else { t.children.len() as int };
        if i >= 0 {
            lemma_find_after_update(t.children, names[0], i, merged);
        } else {
            lemma_find_after_push(t.children, names[0], merged);
        }
        assert(t1.children[idx] == merged);
        assert(t1.children.update(idx, merged) =~= t1.children);
    }
}

impl Frame {
    pub open spec fn duration(self) -> int {
        span_len(self.start, self.end)
    }
}

impl FlameNode {
    pub open spec fn view(&self) -> Frame
        decreases self,
    {
        Frame {
            name: self.name@,
            start: self.start as int,
            end: self.end as int,
            children: Seq::new(
                self.children@.len(),
                |i: int|
                    if 0 <= i < self.children@.len() {
                        self.children@[i].view()
                    } else {
                        arbitrary()
                    },
            ),
        }
    }

    /// A node with no children covering `[start, end]`.
    pub fn new(name: String, start: u64, end: u64) -> (r: FlameNode)
        ensures
            r@ == (Frame { name: name@, start: start as int, end: end as int, children: Seq::empty() }),
    {
        let r = FlameNode { name, start, end, children: Vec::new() };
        assert(r@.children =~= Seq::<Frame>::empty());
        r
    }

    /// Merges the completed call path `stack`, spanning `[start, end]`, into the
    /// subtree below this node.
    pub fn add_child(&mut self, stack: &[String], start: u64, end: u64)
        ensures
            final(self)@ == insert_path(old(self)@, names_of(stack@), start as int, end as int),
        decreases stack@.len(),
    {
        if stack.len() == 0 {
            return;
        }
        let ghost t0 = self@;
        let ghost names = names_of(stack@);
        let name = &stack[0];
        let mut i: usize = 0;
        while i < self.children.len()
            invariant
                self@ == t0,
                i <= self.children@.len(),
                forall|j: int| 0 <= j < i ==> self.children@[j].name@ != name@,
            ensures
                self@ == t0,
                i <= self.children@.len(),
                forall|j: int| 0 <= j < i ==> self.children@[j].name@ != name@,
                i < self.children@.len() ==> self.children@[i as int].name@ == name@,
            decreases self.children@.len() - i,
        {
            if self.children[i].name == *name {
                break;
            }
            i = i + 1;
        }
        let ghost found = i < self.children@.len();
        proof {
            assert(names[0] == name@);
            assert forall|j: int| 0 <= j < t0.children.len() implies #[trigger] t0.children[j].name
                == self.children@[j].name@ by {
                assert(t0.children[j] == self.children@[j]@);
            }
            if found {
                assert(is_first_match(t0.children, names[0], i as int));
            } else {
                assert(!exists|j: int| is_first_match(t0.children, names[0], j));
            }
        }
        assert(found ==> find_child(t0.children, names[0]) == i);
        if i == self.children.len() {
            self.children.push(FlameNode::new(name.clone(), start, end));
        }
        let ghost t1 = self@;
        let ghost child0 = t1.children[i as int];
        assert(child0 == (if found {
            t0.children[i as int]
        } else {
            Frame { name: names[0], start: start as int, end: end as int, children: Seq::empty() }
        }));
        let rest = vstd::slice::slice_subrange(stack, 1, stack.len());
        assert(names_of(rest@) =~= names.drop_first());
        let child = &mut self.children[i];
        assert(child@ == child0);
        if rest.len() > 0 {
            child.add_child(rest, start, end);
        } else {
            if start < child.start {
                child.start = start;
            }
            if end > child.end {
                child.end = end;
            }
            assert(child@.children =~= child0.children);
        }
        let ghost merged = self.children@[i as int]@;
        assert(self@.children =~= t1.children.update(i as int, merged));
        proof {
            if !found {
                assert(t1.children.update(i as int, merged) =~= t0.children.push(merged));
            }
        }
    }

    /// The length of the node's span, zero where its end precedes its start.
    pub fn duration(&self) -> (r: u64)
        ensures
            r as int == self@.duration(),
    {
        if self.end >= self.start {
            self.end - self.start
        } else {
            0
        }
    }
}

} // verus!
