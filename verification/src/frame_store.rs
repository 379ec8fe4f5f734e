//! The last-frame store: a map from monitor identity to the most recent
//! frame its capture session published.  Overwrite semantics, no history:
//! at most one frame per monitor is ever retained.  Capture sessions write
//! through `publish`; the processing loop takes an independent copy through
//! `snapshot` so compositing never holds the store.

use std::collections::HashMap;
use vstd::prelude::*;

verus! {

broadcast use vstd::std_specs::hash::group_hash_axioms;

/// One captured frame: a tightly packed pixel buffer, four bytes per pixel,
/// no row padding; width and height are implicit from the frame's monitor.
#[derive(Debug, Clone)]
pub struct FrameData {
    pub data: Vec<u8>,
}

impl View for FrameData {
    type V = Seq<u8>;

    open spec fn view(&self) -> Seq<u8> {
        self.data@
    }
}

/// The shared last-frame map, keyed by monitor identity.
pub struct FrameStore {
    map: HashMap<i32, FrameData>,
}

impl View for FrameStore {
    type V = Map<i32, Seq<u8>>;

    /// The store is the map from each published monitor id to the bytes of
    /// its latest frame.
    closed spec fn view(&self) -> Map<i32, Seq<u8>> {
        Map::new(|id: i32| self.map@.dom().contains(id), |id: i32| self.map@[id]@)
    }
}

impl FrameStore {
    /// An empty store: no monitor has published yet.
    pub fn new() -> (s: FrameStore)
        ensures
            s@ == Map::<i32, Seq<u8>>::empty(),
    {
        let s = FrameStore { map: HashMap::new() };
        proof {
            assert(s@ =~= Map::<i32, Seq<u8>>::empty());
        }
        s
    }

    /// Publish the latest frame for `id`, replacing any previous entry.
    pub fn publish(&mut self, id: i32, frame: FrameData)
        ensures
            final(self)@ == old(self)@.insert(id, frame@),
    {
        let ghost prev = self@;
        self.map.insert(id, frame);
        proof {
            assert(self@ =~= prev.insert(id, frame@));
        }
    }

    /// An independent copy of the whole store, so the caller can composite
    /// without blocking publishers.
    pub fn snapshot(&self) -> (s: FrameStore)
        ensures
            s@ == self@,
    {
        let s = FrameStore { map: self.map.clone() };
        proof {
            assert(s@ =~= self@);
        }
        s
    }

    /// The latest frame for `id`, if that monitor ever published one.
    pub fn get(&self, id: i32) -> (r: Option<&FrameData>)
        ensures
            match r {
                Some(f) => self@.contains_key(id) && f@ == self@[id],
                None => !self@.contains_key(id),
            },
    {
        self.map.get(&id)
    }
}

} // verus!
