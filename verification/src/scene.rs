//! The scene's object store: slots addressed by [`ObjectId`], with freed slots
//! reused last-freed-first, plus the draw layers and the order picking visits them.
use vstd::prelude::*;

verus! {

/// Draw layer. Layers are drawn in this order; `Overlay` ignores depth.
#[derive(Debug, Clone, Copy, PartialEq, Eq, PartialOrd, Ord, Hash, Structural)]
pub enum Layer {
    /// Drawn first (ground grid, floor decals).
    Ground,
    /// Ordinary depth-tested content.
    Scene,
    /// Drawn last without depth testing (gizmos, selection outlines).
    Overlay,
}

impl Default for Layer {
    fn default() -> (r: Self)
        ensures
            r == Layer::Scene,
    {
        Layer::Scene
    }
}

/// The layers in the order [`pick`](crate::scene) visits them: a hit on an earlier
/// layer wins over any hit on a later one, whatever the distance, because that is
/// what is drawn on top.
pub fn pick_layer_order() -> (r: [Layer; 3])
    ensures
        r@ == seq![Layer::Overlay, Layer::Scene, Layer::Ground],
{
    let r = [Layer::Overlay, Layer::Scene, Layer::Ground];
    assert(r@ =~= seq![Layer::Overlay, Layer::Scene, Layer::Ground]);
    r
}

/// Handle to an object inside a scene.
#[derive(Debug, Clone, Copy, PartialEq, Eq, Hash, PartialOrd, Ord, Structural)]
pub struct ObjectId(u32);

impl ObjectId {
    /// The slot this id addresses.
    pub fn index(&self) -> (r: u32)
        ensures
            r as int == self.slot(),
    {
        self.0
    }

    /// The slot this id addresses.
    pub closed spec fn slot(self) -> int {
        self.0 as int
    }
}

/// Number of occupied slots.
pub open spec fn live_count<T>(slots: Seq<Option<T>>) -> nat
    decreases slots.len(),
{
    if slots.len() == 0 {
        0
    } else {
        live_count(slots.drop_last()) + if slots.last() is Some {
            1nat
        } else {
            0nat
        }
    }
}

/// The store after adding `x`: the most recently freed slot is reused, otherwise a
/// new slot is appended. Returns (slots, free list, id).
pub open spec fn added<T>(slots: Seq<Option<T>>, free: Seq<u32>, x: T) -> (
    Seq<Option<T>>,
    Seq<u32>,
    int,
) {
    if free.len() > 0 {
        (slots.update(free.last() as int, Some(x)), free.drop_last(), free.last() as int)
    } else {
        (slots.push(Some(x)), free, slots.len() as int)
    }
}

/// The store after removing `id` (unchanged when the id is stale).
pub open spec fn removed<T>(slots: Seq<Option<T>>, free: Seq<u32>, id: int) -> (
    Seq<Option<T>>,
    Seq<u32>,
) {
    if 0 <= id < slots.len() && slots[id] is Some {
        (slots.update(id, None), free.push(id as u32))
    } else {
        (slots, free)
    }
}

/// Slots that hold objects, addressed by [`ObjectId`].
#[derive(Debug)]
pub struct ObjectSlots<T> {
    objects: Vec<Option<T>>,
    free: Vec<u32>,
}

impl<T> ObjectSlots<T> {
    /// The slots, occupied or not.
    pub closed spec fn slots(&self) -> Seq<Option<T>> {
        self.objects@
    }

    /// The freed slots, most recently freed last.
    pub closed spec fn free_list(&self) -> Seq<u32> {
        self.free@
    }

    /// The free list names exactly the empty slots, each once.
    pub closed spec fn wf(&self) -> bool {
        &&& self.objects@.len() <= u32::MAX + 1
        &&& self.free@.no_duplicates()
        &&& forall|i: int|
            0 <= i < self.free@.len() ==> (#[trigger] self.free@[i]) < self.objects@.len()
                && self.objects@[self.free@[i] as int] is None
        &&& forall|j: int|
            0 <= j < self.objects@.len() && self.objects@[j] is None ==> self.free@.contains(
                j as u32,
            )
    }

    /// The object in slot `id`, if any.
    pub open spec fn lookup(&self, id: ObjectId) -> Option<T> {
        if id.slot() < self.slots().len() {
            self.slots()[id.slot()]
        } else {
            None
        }
    }

    /// An empty store.
    pub fn new() -> (r: Self)
        ensures
            r.wf(),
            r.slots() == Seq::<Option<T>>::empty(),
            r.free_list() == Seq::<u32>::empty(),
    {
        ObjectSlots { objects: Vec::new(), free: Vec::new() }
    }

    /// Adds an object; a freed slot is reused before the store grows.
    pub fn add(&mut self, object: T) -> (id: ObjectId)
        requires
            old(self).wf(),
            old(self).free_list().len() > 0 || old(self).slots().len() < u32::MAX,
        ensures
            final(self).wf(),
            (final(self).slots(), final(self).free_list(), id.slot()) == added(
                old(self).slots(),
                old(self).free_list(),
                object,
            ),
    {
        let ghost x = object;
        match self.free.pop() {
            Some(i) => {
                let ghost f0 = old(self).free@;
                proof {
                    assert(f0.last() == i);
                    assert(self.free@ =~= f0.drop_last());
                    assert(f0[f0.len() - 1] == i);
                }
                self.objects.set(i as usize, Some(object));
                proof {
                    assert forall|k: int| 0 <= k < self.free@.len() implies (
                    #[trigger] self.free@[k]) < self.objects@.len()
                        && self.objects@[self.free@[k] as int] is None by {
                        assert(self.free@[k] == f0[k]);
                        assert(f0[k] != f0[f0.len() - 1]);
                    }
                    assert forall|j: int|
                        0 <= j < self.objects@.len() && self.objects@[j] is None implies self.free@.contains(
                        j as u32,
                    ) by {
                        assert(j != i);
                        let k = choose|k: int| 0 <= k < f0.len() && f0[k] == j as u32;
                        assert(k != f0.len() - 1);
                        assert(self.free@[k] == j as u32);
                    }
                }
                ObjectId(i)
            },
            None => {
                self.objects.push(Some(object));
                proof {
                    assert forall|j: int|
                        0 <= j < self.objects@.len() && self.objects@[j] is None implies self.free@.contains(
                        j as u32,
                    ) by {
                        assert(j < old(self).objects@.len());
                        assert(self.objects@[j] == old(self).objects@[j]);
                    }
                }
                ObjectId((self.objects.len() - 1) as u32)
            },
        }
    }

    /// Removes an object (a stale id is ignored).
    pub fn remove(&mut self, id: ObjectId) -> (r: Option<T>)
        requires
            old(self).wf(),
        ensures
            final(self).wf(),
            r == old(self).lookup(id),
            (final(self).slots(), final(self).free_list()) == removed(
                old(self).slots(),
                old(self).free_list(),
                id.slot(),
            ),
    {
        let i = id.0 as usize;
        if i >= self.objects.len() {
            return None;
        }
        if self.objects[i].is_none() {
            return None;
        }
        let ghost o0 = self.objects@;
        let ghost f0 = self.free@;
        let obj = self.objects[i].take();
        proof {
            assert(self.objects@ == o0.update(i as int, None));
            assert(!f0.contains(id.0)) by {
                if f0.contains(id.0) {
                    let k = choose|k: int| 0 <= k < f0.len() && f0[k] == id.0;
                    assert(o0[f0[k] as int] is None);
                }
            }
        }
        self.free.push(id.0);
        proof {
            assert forall|k: int| 0 <= k < self.free@.len() implies (#[trigger] self.free@[k])
                < self.objects@.len() && self.objects@[self.free@[k] as int] is None by {
                if k < f0.len() {
                    assert(self.free@[k] == f0[k]);
                }
            }
            assert forall|j: int|
                0 <= j < self.objects@.len() && self.objects@[j] is None implies self.free@.contains(
                j as u32,
            ) by {
                if j == i {
                    assert(self.free@[f0.len() as int] == j as u32);
                } else {
                    assert(o0[j] is None);
                    let k = choose|k: int| 0 <= k < f0.len() && f0[k] == j as u32;
                    assert(self.free@[k] == j as u32);
                }
            }
            assert forall|a: int, b: int|
                0 <= a < self.free@.len() && 0 <= b < self.free@.len() && a != b implies self.free@[a]
                != self.free@[b] by {
                if a < f0.len() && b < f0.len() {
                    assert(self.free@[a] == f0[a] && self.free@[b] == f0[b]);
                } else if a < f0.len() {
                    assert(f0[a] != id.0);
                } else if b < f0.len() {
                    assert(f0[b] != id.0);
                }
            }
        }
        obj
    }

    /// Borrows an object.
    pub fn get(&self, id: ObjectId) -> (r: Option<&T>)
        ensures
            r == match self.lookup(id) {
                Some(x) => Some(&x),
                None => None::<&T>,
            },
    {
        let i = id.0 as usize;
        if i < self.objects.len() {
            match &self.objects[i] {
                Some(x) => Some(x),
                None => None,
            }
        } else {
            None
        }
    }

    /// Mutably borrows an object.
    pub fn get_mut(&mut self, id: ObjectId) -> (r: Option<&mut T>)
        requires
            old(self).wf(),
        ensures
            final(self).free_list() == old(self).free_list(),
            match r {
                None => old(self).lookup(id) is None && final(self).slots() == old(self).slots(),
                Some(x) => old(self).lookup(id) == Some(*x) && final(self).slots() == old(
                    self,
                ).slots().update(id.slot(), Some(*final(x))),
            },
            final(self).wf(),
    {
        let i = id.0 as usize;
        if i < self.objects.len() {
            self.objects[i].as_mut()
        } else {
            None
        }
    }

    /// Ids of the occupied slots, in slot order.
    pub fn ids(&self) -> (r: Vec<ObjectId>)
        requires
            self.wf(),
        ensures
            forall|k: int|
                0 <= k < r@.len() ==> self.lookup(#[trigger] r@[k]) is Some,
            forall|j: int|
                0 <= j < self.slots().len() && self.slots()[j] is Some ==> exists|k: int|
                    0 <= k < r@.len() && (#[trigger] r@[k]).slot() == j,
            forall|a: int, b: int| 0 <= a < b < r@.len() ==> r@[a].slot() < r@[b].slot(),
            r@.len() == live_count(self.slots()),
    {
        let mut r: Vec<ObjectId> = Vec::new();
        let mut i: usize = 0;
        while i < self.objects.len()
            invariant
                0 <= i <= self.objects@.len(),
                self.objects@.len() <= u32::MAX + 1,
                forall|k: int| 0 <= k < r@.len() ==> self.lookup(#[trigger] r@[k]) is Some,
                forall|k: int| 0 <= k < r@.len() ==> (#[trigger] r@[k]).0 < i,
                forall|j: int|
                    0 <= j < i && self.objects@[j] is Some ==> exists|k: int|
                        0 <= k < r@.len() && (#[trigger] r@[k]).slot() == j,
                forall|a: int, b: int| 0 <= a < b < r@.len() ==> r@[a].0 < r@[b].0,
                r@.len() == live_count(self.objects@.take(i as int)),
            decreases self.objects@.len() - i,
        {
            proof {
                assert(self.objects@.take(i + 1).drop_last() =~= self.objects@.take(i as int));
            }
            let ghost r0 = r@;
            if self.objects[i].is_some() {
                r.push(ObjectId(i as u32));
                proof {
                    assert(r@[r@.len() - 1].slot() == i);
                }
            }
            proof {
                assert forall|j: int| 0 <= j < i + 1 && self.objects@[j] is Some implies exists|k: int|
                    0 <= k < r@.len() && (#[trigger] r@[k]).slot() == j by {
                    if j < i {
                        let k = choose|k: int| 0 <= k < r0.len() && (#[trigger] r0[k]).slot() == j;
                        assert(r@[k] == r0[k]);
                    } else {
                        assert(r@[r@.len() - 1].slot() == j);
                    }
                }
            }
            i += 1;
        }
        proof {
            assert(self.objects@.take(i as int) =~= self.objects@);
        }
        r
    }

    /// Number of occupied slots.
    pub fn len(&self) -> (r: usize)
        ensures
            r == live_count(self.slots()),
    {
        let mut n: usize = 0;
        let mut i: usize = 0;
        while i < self.objects.len()
            invariant
                0 <= i <= self.objects@.len(),
                n == live_count(self.objects@.take(i as int)),
                n <= i,
            decreases self.objects@.len() - i,
        {
            proof {
                assert(self.objects@.take(i + 1).drop_last() =~= self.objects@.take(i as int));
            }
            if self.objects[i].is_some() {
                n += 1;
            }
            i += 1;
        }
        proof {
            assert(self.objects@.take(i as int) =~= self.objects@);
        }
        n
    }

    /// Whether no slot holds an object.
    pub fn is_empty(&self) -> (r: bool)
        ensures
            r == (live_count(self.slots()) == 0),
    {
        self.len() == 0
    }

    /// Removes every object and forgets every slot.
    pub fn clear(&mut self)
        ensures
            final(self).wf(),
            final(self).slots() == Seq::<Option<T>>::empty(),
            final(self).free_list() == Seq::<u32>::empty(),
    {
        self.objects.clear();
        self.free.clear();
    }
}


impl<T> ObjectSlots<T> {
    /// Whether [`add`](Self::add) can hand out an id (a freed slot exists, or
    /// another `u32` id is left).
    pub fn can_add(&self) -> (r: bool)
        ensures
            r == (self.free_list().len() > 0 || self.slots().len() < u32::MAX),
    {
        self.free.len() > 0 || self.objects.len() < u32::MAX as usize
    }
}

pub proof fn lemma_live_count_update<T>(s: Seq<Option<T>>, i: int, v: Option<T>)
    requires
        0 <= i < s.len(),
    ensures
        live_count(s.update(i, v)) + (if s[i] is Some {
            1int
        } else {
            0int
        }) == live_count(s) + (if v is Some {
            1int
        } else {
            0int
        }),
    decreases s.len(),
{
    if i < s.len() - 1 {
        lemma_live_count_update(s.drop_last(), i, v);
        assert(s.update(i, v).drop_last() =~= s.drop_last().update(i, v));
    } else {
        assert(s.update(i, v).drop_last() =~= s.drop_last());
    }
}

pub proof fn lemma_live_count_push<T>(s: Seq<Option<T>>, v: Option<T>)
    ensures
        live_count(s.push(v)) == live_count(s) + (if v is Some {
            1int
        } else {
            0int
        }),
{
    assert(s.push(v).drop_last() =~= s);
}

/// Adding an object stores it under the returned id, leaves every other slot as it
/// was, and raises the number of live objects by one.
pub proof fn lemma_add_then_get<T>(store: ObjectSlots<T>, x: T)
    requires
        store.wf(),
        store.free_list().len() > 0 || store.slots().len() < u32::MAX,
    ensures
        ({
            let (s2, f2, id) = added(store.slots(), store.free_list(), x);
            &&& 0 <= id < s2.len()
            &&& s2[id] == Some(x)
            &&& store.slots()[id] is None || id == store.slots().len()
            &&& forall|j: int|
                0 <= j < store.slots().len() && j != id ==> s2[j] == store.slots()[j]
            &&& live_count(s2) == live_count(store.slots()) + 1
        }),
{
    let s = store.slots();
    let f = store.free_list();
    if f.len() > 0 {
        let id = f.last() as int;
        assert(f[f.len() - 1] == f.last());
        lemma_live_count_update(s, id, Some(x));
    } else {
        lemma_live_count_push(s, Some(x));
    }
}

/// Removing a live object empties its slot and lowers the number of live objects
/// by one; removing through a stale id changes nothing.
pub proof fn lemma_remove_then_get<T>(store: ObjectSlots<T>, id: ObjectId)
    requires
        store.wf(),
    ensures
        ({
            let (s2, f2) = removed(store.slots(), store.free_list(), id.slot());
            if store.lookup(id) is Some {
                &&& s2[id.slot()] is None
                &&& live_count(s2) + 1 == live_count(store.slots())
                &&& forall|j: int|
                    0 <= j < s2.len() && j != id.slot() ==> s2[j] == store.slots()[j]
            } else {
                s2 == store.slots() && f2 == store.free_list()
            }
        }),
{
    let s = store.slots();
    if store.lookup(id) is Some {
        lemma_live_count_update(s, id.slot(), None);
    }
}

/// The slot freed last is the one the next [`add`](ObjectSlots::add) fills.
pub proof fn lemma_remove_then_add_reuses<T>(store: ObjectSlots<T>, id: ObjectId, x: T)
    requires
        store.wf(),
        store.lookup(id) is Some,
    ensures
        ({
            let (s1, f1) = removed(store.slots(), store.free_list(), id.slot());
            added(s1, f1, x).2 == id.slot()
        }),
{
    let (s1, f1) = removed(store.slots(), store.free_list(), id.slot());
    assert(f1.last() == id.slot() as u32);
}

} // verus!
