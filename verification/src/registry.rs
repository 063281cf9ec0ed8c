use vstd::prelude::*;

use crate::window::Window;

verus! {

/// No two windows in the sequence share a surface id.
pub open spec fn unique_ids(s: Seq<Window>) -> bool {
    forall|i: int, j: int| 0 <= i < j < s.len() ==> s[i].id != s[j].id
}

/// At most one window in the sequence holds the activation flag.
pub open spec fn at_most_one_activated(s: Seq<Window>) -> bool {
    forall|i: int, j: int|
        0 <= i < s.len() && 0 <= j < s.len() && s[i].activated && s[j].activated ==> i == j
}

/// Some window in the sequence has the given surface id.
pub open spec fn id_present(s: Seq<Window>, id: u64) -> bool {
    exists|i: int| 0 <= i < s.len() && s[i].id == id
}

/// The index of the window with the given surface id.  Meaningful only when
/// `id_present(s, id)`; unique when `unique_ids(s)`.
pub open spec fn id_index(s: Seq<Window>, id: u64) -> int {
    choose|i: int| 0 <= i < s.len() && s[i].id == id
}

pub proof fn lemma_id_index(s: Seq<Window>, id: u64)
    requires
        id_present(s, id),
    ensures
        0 <= id_index(s, id) < s.len(),
        s[id_index(s, id)].id == id,
{
}

/// The ordered set of currently mapped windows; insertion order is the
/// stacking/draw order, the last window being topmost.
pub struct Registry {
    pub windows: Vec<Window>,
}

impl View for Registry {
    type V = Seq<Window>;

    open spec fn view(&self) -> Seq<Window> {
        self.windows@
    }
}

impl Registry {
    /// Registry invariant: ids are unique handles, and at most one window
    /// holds input focus.
    pub open spec fn wf(&self) -> bool {
        unique_ids(self@) && at_most_one_activated(self@)
    }

    /// An empty registry.
    pub fn new() -> (r: Registry)
        ensures
            r@ == Seq::<Window>::empty(),
            r.wf(),
    {
        Registry { windows: Vec::new() }
    }

    pub fn len(&self) -> (r: usize)
        ensures
            r == self@.len(),
    {
        self.windows.len()
    }

    pub fn is_empty(&self) -> (r: bool)
        ensures
            r == (self@.len() == 0),
    {
        self.windows.len() == 0
    }

    /// The window at stacking position `i` (0 = bottom, last = topmost).
    pub fn get(&self, i: usize) -> (w: Window)
        requires
            i < self@.len(),
        ensures
            w == self@[i as int],
    {
        self.windows[i]
    }

    /// The stacking position of the window with surface id `id`, if any.
    pub fn index_of_id(&self, id: u64) -> (r: Option<usize>)
        ensures
            match r {
                Some(i) => 0 <= i < self@.len() && self@[i as int].id == id && id_present(
                    self@,
                    id,
                ),
                None => !id_present(self@, id),
            },
            unique_ids(self@) && r is Some ==> r->Some_0 == id_index(self@, id),
    {
        let n = self.windows.len();
        let mut i: usize = 0;
        while i < n
            invariant
                n == self@.len(),
                0 <= i <= n,
                forall|k: int| 0 <= k < i ==> self@[k].id != id,
            decreases n - i,
        {
            if self.windows[i].id == id {
                proof {
                    if unique_ids(self@) {
                        lemma_id_index(self@, id);
                    }
                }
                return Some(i);
            }
            i = i + 1;
        }
        None
    }

    /// Whether a window with surface id `id` is currently mapped.
    pub fn contains_id(&self, id: u64) -> (r: bool)
        ensures
            r == id_present(self@, id),
    {
        self.index_of_id(id).is_some()
    }
}

} // verus!
