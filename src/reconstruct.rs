use crate::tree::names_of;
use std::collections::HashMap;
use vstd::prelude::*;

verus! {

broadcast use vstd::std_specs::hash::group_hash_axioms;

/// The call path observed so far for one identifier, root first, and the
/// timestamp of its first entry.
pub struct OpenPath {
    pub names: Vec<String>,
    pub start: u64,
}

/// A call path whose matching exit has arrived.
pub struct CompletedPath {
    pub names: Vec<String>,
    pub start: u64,
    pub end: u64,
}

/// Mathematical model of an open path: its names and start timestamp.
pub open spec fn path_view(p: OpenPath) -> (Seq<Seq<char>>, u64) {
    (names_of(p.names@), p.start)
}

/// The open path of `(names, start)` after an entry into `name`: a path opened
/// by this entry holds the name twice, once from its creation and once from
/// the entry itself.
pub open spec fn entered(
    prev: Option<(Seq<Seq<char>>, u64)>,
    name: Seq<char>,
    timestamp: u64,
) -> (Seq<Seq<char>>, u64) {
    match prev {
        Some(p) => (p.0.push(name), p.1),
        None => (seq![name, name], timestamp),
    }
}

/// The call paths currently open, keyed by call-path identifier.
pub struct PathTracker {
    pub open: HashMap<u64, OpenPath>,
}

impl PathTracker {
    /// The open paths as a map from identifier to names and start.
    pub open spec fn paths(&self) -> Map<u64, (Seq<Seq<char>>, u64)> {
        self.open@.map_values(|p: OpenPath| path_view(p))
    }

    /// A tracker with no open path.
    pub fn new() -> (r: PathTracker)
        ensures
            r.paths() == Map::<u64, (Seq<Seq<char>>, u64)>::empty(),
    {
        let r = PathTracker { open: HashMap::new() };
        assert(r.paths() =~= Map::<u64, (Seq<Seq<char>>, u64)>::empty());
        r
    }

    /// Records an entry into `name` on the path `stack_id`, opening the path
    /// at `timestamp` where it was not open.
    pub fn on_enter(&mut self, stack_id: u64, name: String, timestamp: u64)
        ensures
            final(self).paths() == old(self).paths().insert(
                stack_id,
                entered(
                    if old(self).paths().contains_key(stack_id) {
                        Some(old(self).paths()[stack_id])
                    } else {
                        None
                    },
                    name@,
                    timestamp,
                ),
            ),
    {
        let ghost before = self.paths();
        let removed = self.open.remove(&stack_id);
        let path = match removed {
            Some(p) => {
                let mut p = p;
                let ghost names0 = p.names@;
                p.names.push(name);
                assert(names_of(p.names@) =~= names_of(names0).push(name@));
                p
            },
            None => {
                let mut names: Vec<String> = Vec::new();
                names.push(name.clone());
                names.push(name);
                assert(names_of(names@) =~= seq![name@, name@]);
                OpenPath { names, start: timestamp }
            },
        };
        self.open.insert(stack_id, path);
        assert(self.paths() =~= before.insert(
            stack_id,
            entered(
                if before.contains_key(stack_id) {
                    Some(before[stack_id])
                } else {
                    None
                },
                name@,
                timestamp,
            ),
        ));
    }

    /// Closes the path `stack_id` at `timestamp` and hands it back; a path
    /// that is not open leaves everything as it was and gives `None`.
    pub fn on_exit(&mut self, stack_id: u64, timestamp: u64) -> (r: Option<CompletedPath>)
        ensures
            old(self).paths().contains_key(stack_id) ==> {
                &&& final(self).paths() == old(self).paths().remove(stack_id)
                &&& r matches Some(c) && names_of(c.names@) == old(self).paths()[stack_id].0
                    && c.start == old(self).paths()[stack_id].1 && c.end == timestamp
            },
            !old(self).paths().contains_key(stack_id) ==> {
                &&& final(self).paths() == old(self).paths()
                &&& r is None
            },
    {
        let ghost before = self.paths();
        let removed = self.open.remove(&stack_id);
        assert(self.paths() =~= if before.contains_key(stack_id) {
            before.remove(stack_id)
        } else {
            before
        });
        match removed {
            Some(p) => Some(CompletedPath { names: p.names, start: p.start, end: timestamp }),
            None => None,
        }
    }
}

} // verus!
