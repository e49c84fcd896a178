use crate::event::{kind_of, lossy_utf8, name_bytes, EbpfData, EventKind};
use crate::reconstruct::{entered, PathTracker};
use crate::tree::{insert_path, names_of, FlameNode, Frame};
use vstd::prelude::*;

verus! {

/// The tree after a completed call path is merged in at its root. The root
/// stands for the whole run: its span is that of the first completed path,
/// widened by every later one. An empty path changes nothing.
pub open spec fn record_path(
    t: Frame,
    recorded: bool,
    names: Seq<Seq<char>>,
    start: int,
    end: int,
) -> Frame {
    if names.len() == 0 {
        t
    } else {
        Frame {
            start: if recorded && t.start <= start {
                t.start
            } else {
                start
            },
            end: if recorded && t.end >= end {
                t.end
            } else {
                end
            },
            ..insert_path(t, names, start, end)
        }
    }
}

/// The event-processing state of one sampling run: the open call paths and
/// the call tree of the completed ones.
pub struct Profiler {
    pub tracker: PathTracker,
    pub root: FlameNode,
    /// Whether a completed call path has been merged into the tree yet.
    pub recorded: bool,
}

impl Profiler {
    /// No open path, and a tree holding only its unnamed root.
    pub fn new() -> (r: Profiler)
        ensures
            r.tracker.paths() == Map::<u64, (Seq<Seq<char>>, u64)>::empty(),
            r.root@ == (Frame { name: Seq::empty(), start: 0, end: 0, children: Seq::empty() }),
            !r.recorded,
    {
        Profiler { tracker: PathTracker::new(), root: FlameNode::new(String::new(), 0, 0), recorded: false }
    }

    /// Merges the completed call path `names`, spanning `[start, end]`, into the tree.
    pub fn record(&mut self, names: &[String], start: u64, end: u64)
        ensures
            final(self).root@ == record_path(
                old(self).root@,
                old(self).recorded,
                names_of(names@),
                start as int,
                end as int,
            ),
            final(self).recorded == (old(self).recorded || names@.len() > 0),
            final(self).tracker == old(self).tracker,
    {
        if names.len() == 0 {
            return;
        }
        let recorded = self.recorded;
        self.root.add_child(names, start, end);
        if !recorded || start < self.root.start {
            self.root.start = start;
        }
        if !recorded || end > self.root.end {
            self.root.end = end;
        }
        self.recorded = true;
        assert(self.root@.children =~= insert_path(old(self).root@, names_of(names@), start as int, end as int).children);
    }

    /// Handles one probe event. An entry extends or opens its call path; an
    /// exit closes its path and merges it into the tree; an exit whose path is
    /// not open, and an event of no known kind, change nothing.
    pub fn handle_event(&mut self, ev: &EbpfData)
        ensures
            kind_of(ev.event_type) == Some(EventKind::Enter) ==> {
                let prev = old(self).tracker.paths();
                &&& final(self).tracker.paths() == prev.insert(
                    ev.stack_id,
                    entered(
                        if prev.contains_key(ev.stack_id) {
                            Some(prev[ev.stack_id])
                        } else {
                            None
                        },
                        lossy_utf8(name_bytes(ev.data@, ev.data_len)),
                        ev.timestamp,
                    ),
                )
                &&& final(self).root == old(self).root
                &&& final(self).recorded == old(self).recorded
            },
            kind_of(ev.event_type) == Some(EventKind::Exit) && old(self).tracker.paths().contains_key(
                ev.stack_id,
            ) ==> {
                let path = old(self).tracker.paths()[ev.stack_id];
                &&& final(self).tracker.paths() == old(self).tracker.paths().remove(ev.stack_id)
                &&& final(self).root@ == record_path(
                    old(self).root@,
                    old(self).recorded,
                    path.0,
                    path.1 as int,
                    ev.timestamp as int,
                )
                &&& final(self).recorded == (old(self).recorded || path.0.len() > 0)
            },
            kind_of(ev.event_type) is None || (kind_of(ev.event_type) == Some(EventKind::Exit)
                && !old(self).tracker.paths().contains_key(ev.stack_id)) ==> {
                &&& final(self).tracker.paths() == old(self).tracker.paths()
                &&& final(self).root == old(self).root
                &&& final(self).recorded == old(self).recorded
            },
    {
        match ev.kind() {
            Some(EventKind::Enter) => {
                let name = ev.func_name();
                self.tracker.on_enter(ev.stack_id, name, ev.timestamp);
            },
            Some(EventKind::Exit) => {
                if let Some(done) = self.tracker.on_exit(ev.stack_id, ev.timestamp) {
                    self.record(done.names.as_slice(), done.start, done.end);
                }
            },
            None => {},
        }
    }
}

} // verus!
