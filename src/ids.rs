use vstd::prelude::*;

verus! {

/// `id` is the smallest natural number that `live` does not hold.
pub open spec fn smallest_free(live: Set<nat>, id: nat) -> bool {
    &&& !live.contains(id)
    &&& forall|j: nat| j < id ==> live.contains(j)
}

/// Hands out small player ids, always the smallest one not in use.
pub struct IdAllocator {
    slots: Vec<bool>,
}

impl IdAllocator {
    /// The ids currently handed out.
    pub closed spec fn live(&self) -> Set<nat> {
        Set::new(|i: nat| i < self.slots@.len() && self.slots@[i as int])
    }

    pub closed spec fn wf(&self) -> bool {
        self.slots@.len() <= 0xFFFF_FFFF
    }

    pub fn new() -> (r: IdAllocator)
        ensures
            r.wf(),
            r.live() == Set::<nat>::empty(),
    {
        let r = IdAllocator { slots: Vec::new() };
        assert(r.live() =~= Set::<nat>::empty());
        r
    }

    /// Whether `id` is currently handed out.
    pub fn is_live(&self, id: u32) -> (r: bool)
        ensures
            r == self.live().contains(id as nat),
    {
        (id as usize) < self.slots.len() && self.slots[id as usize]
    }

    /// Takes the smallest free id. `None` only when every id below `u32::MAX` is in use.
    pub fn allocate(&mut self) -> (r: Option<u32>)
        requires
            old(self).wf(),
        ensures
            final(self).wf(),
            match r {
                Some(id) => smallest_free(old(self).live(), id as nat)
                    && final(self).live() == old(self).live().insert(id as nat),
                None => (forall|j: nat| j < u32::MAX ==> old(self).live().contains(j))
                    && final(self).live() == old(self).live(),
            },
    {
        let n = self.slots.len();
        let mut i: usize = 0;
        while i < n
            invariant
                n == self.slots@.len(),
                n <= 0xFFFF_FFFF,
                self.slots@ == old(self).slots@,
                i <= n,
                forall|j: int| 0 <= j < i ==> self.slots@[j],
            decreases n - i,
        {
            if !self.slots[i] {
                let ghost before = self.live();
                assert forall|j: nat| j < i implies before.contains(j) by {
                    assert(self.slots@[j as int]);
                }
                self.slots.set(i, true);
                assert(self.live() =~= before.insert(i as nat));
                return Some(i as u32);
            }
            i = i + 1;
        }
        if n == 0xFFFF_FFFF {
            assert forall|j: nat| j < u32::MAX implies self.live().contains(j) by {
                assert(self.slots@[j as int]);
            }
            return None;
        }
        let ghost before = self.live();
        assert forall|j: nat| j < n implies before.contains(j) by {
            assert(self.slots@[j as int]);
        }
        self.slots.push(true);
        assert(self.live() =~= before.insert(n as nat));
        Some(n as u32)
    }

    /// Gives `id` back for reuse.
    pub fn free(&mut self, id: u32)
        requires
            old(self).wf(),
            old(self).live().contains(id as nat),
        ensures
            final(self).wf(),
            final(self).live() == old(self).live().remove(id as nat),
    {
        let ghost before = self.live();
        self.slots.set(id as usize, false);
        assert(self.live() =~= before.remove(id as nat));
    }
}

/// Allocation is deterministic: the same live set always yields the same id.
pub proof fn lemma_smallest_free_unique(live: Set<nat>, a: nat, b: nat)
    requires
        smallest_free(live, a),
        smallest_free(live, b),
    ensures
        a == b,
{
    if a < b {
        assert(live.contains(a));
    } else if b < a {
        assert(live.contains(b));
    }
}

/// A freed id is reused: once `id` is given back, and every smaller id is in
/// use, the next allocation returns `id` again.
pub proof fn lemma_freed_id_reused(live: Set<nat>, id: nat)
    requires
        live.contains(id),
        forall|j: nat| j < id ==> live.contains(j),
    ensures
        smallest_free(live.remove(id), id),
{
}

} // verus!
