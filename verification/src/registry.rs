use vstd::prelude::*;

verus! {

/// The packet variants that the library knows how to read and write.
#[derive(Debug, Clone, Copy, PartialEq, Eq, Structural)]
pub enum PacketKind {
    Animate,
    SetDifficulty,
    ResourcePackStackEntry,
}

/// Which packet identifier stands for which packet variant.
///
/// The mapping is one to one: no identifier is held twice, and no variant
/// has two identifiers. It is filled once, before the first packet is
/// handled, and only read after that.
pub struct Registry {
    entries: Vec<(u32, PacketKind)>,
}

/// No identifier and no variant occurs twice in `entries`.
pub open spec fn one_to_one(entries: Seq<(u32, PacketKind)>) -> bool {
    forall|i: int, j: int|
        0 <= i < j < entries.len() ==> (#[trigger] entries[i]).0 != (#[trigger] entries[j]).0
            && entries[i].1 != entries[j].1
}

impl Registry {
    #[verifier::type_invariant]
    spec fn well_formed(self) -> bool {
        one_to_one(self.entries@)
    }

    /// The pairs of identifier and variant that are registered, in the
    /// order of their registration.
    pub closed spec fn entries(&self) -> Seq<(u32, PacketKind)> {
        self.entries@
    }

    /// The variant registered under `id`.
    pub open spec fn kind_of(&self, id: u32) -> Option<PacketKind> {
        if exists|i: int| 0 <= i < self.entries().len() && (#[trigger] self.entries()[i]).0 == id {
            let i = choose|i: int|
                0 <= i < self.entries().len() && (#[trigger] self.entries()[i]).0 == id;
            Some(self.entries()[i].1)
        } else {
            None
        }
    }

    /// The identifier that `kind` is registered under.
    pub open spec fn id_of(&self, kind: PacketKind) -> Option<u32> {
        if exists|i: int|
            0 <= i < self.entries().len() && (#[trigger] self.entries()[i]).1 == kind {
            let i = choose|i: int|
                0 <= i < self.entries().len() && (#[trigger] self.entries()[i]).1 == kind;
            Some(self.entries()[i].0)
        } else {
            None
        }
    }

    /// A registry that holds nothing.
    pub fn new() -> (r: Self)
        ensures
            r.entries().len() == 0,
    {
        Registry { entries: Vec::new() }
    }

    /// The number of registered identifiers.
    pub fn len(&self) -> (n: usize)
        ensures
            n == self.entries().len(),
    {
        self.entries.len()
    }

    /// Registers `kind` under `id`. Where the identifier or the variant is
    /// registered already, nothing changes and the answer is `false`.
    pub fn register(&mut self, id: u32, kind: PacketKind) -> (added: bool)
        ensures
            added == (old(self).kind_of(id) is None && old(self).id_of(kind) is None),
            added ==> final(self).entries() == old(self).entries().push((id, kind)),
            !added ==> final(self).entries() == old(self).entries(),
            one_to_one(final(self).entries()),
    {
        proof {
            use_type_invariant(&*self);
        }
        if self.lookup(id).is_some() || self.identifier(kind).is_some() {
            return false;
        }
        let ghost before = self.entries@;
        let mut taken: Registry = Registry::new();
        std::mem::swap(self, &mut taken);
        let mut entries: Vec<(u32, PacketKind)> = taken.entries;
        entries.push((id, kind));
        proof {
            let after = before.push((id, kind));
            assert forall|i: int, j: int| 0 <= i < j < after.len() implies (#[trigger] after[i]).0
                != (#[trigger] after[j]).0 && after[i].1 != after[j].1 by {
                if j == before.len() {
                    assert(before[i].0 != id);
                    assert(before[i].1 != kind);
                } else {
                    assert(after[i] == before[i] && after[j] == before[j]);
                }
            }
        }
        *self = Registry { entries };
        true
    }

    /// Looks up the variant registered under `id`.
    pub fn lookup(&self, id: u32) -> (r: Option<PacketKind>)
        ensures
            r == self.kind_of(id),
    {
        proof {
            use_type_invariant(self);
        }
        let mut i: usize = 0;
        while i < self.entries.len()
            invariant
                i <= self.entries@.len(),
                one_to_one(self.entries@),
                forall|j: int| 0 <= j < i ==> (#[trigger] self.entries@[j]).0 != id,
            decreases self.entries@.len() - i,
        {
            if self.entries[i].0 == id {
                proof {
                    let w = choose|w: int|
                        0 <= w < self.entries().len() && (#[trigger] self.entries()[w]).0 == id;
                    assert(w == i) by {
                        if w < i {
                            assert(self.entries@[w].0 != self.entries@[i as int].0);
                        } else if w > i {
                            assert(self.entries@[i as int].0 != self.entries@[w].0);
                        }
                    }
                }
                return Some(self.entries[i].1);
            }
            i = i + 1;
        }
        None
    }

    /// Looks up the identifier that `kind` is registered under.
    pub fn identifier(&self, kind: PacketKind) -> (r: Option<u32>)
        ensures
            r == self.id_of(kind),
    {
        proof {
            use_type_invariant(self);
        }
        let mut i: usize = 0;
        while i < self.entries.len()
            invariant
                i <= self.entries@.len(),
                one_to_one(self.entries@),
                forall|j: int| 0 <= j < i ==> (#[trigger] self.entries@[j]).1 != kind,
            decreases self.entries@.len() - i,
        {
            if self.entries[i].1 == kind {
                proof {
                    let w = choose|w: int|
                        0 <= w < self.entries().len() && (#[trigger] self.entries()[w]).1 == kind;
                    assert(w == i) by {
                        if w < i {
                            assert(self.entries@[w].1 != self.entries@[i as int].1);
                        } else if w > i {
                            assert(self.entries@[i as int].1 != self.entries@[w].1);
                        }
                    }
                }
                return Some(self.entries[i].0);
            }
            i = i + 1;
        }
        None
    }

    /// The two directions of the mapping agree: `kind` is what `id`
    /// stands for exactly when `id` is what `kind` is written as.
    pub proof fn lemma_bidirectional(&self, id: u32, kind: PacketKind)
        requires
            one_to_one(self.entries()),
        ensures
            self.kind_of(id) == Some(kind) <==> self.id_of(kind) == Some(id),
    {
        let e = self.entries();
        if self.kind_of(id) == Some(kind) {
            let i = choose|i: int| 0 <= i < e.len() && (#[trigger] e[i]).0 == id;
            assert(e[i].1 == kind);
            let w = choose|w: int| 0 <= w < e.len() && (#[trigger] e[w]).1 == kind;
            if w < i {
                assert(e[w].1 != e[i].1);
            } else if w > i {
                assert(e[i].1 != e[w].1);
            }
        }
        if self.id_of(kind) == Some(id) {
            let i = choose|i: int| 0 <= i < e.len() && (#[trigger] e[i]).1 == kind;
            assert(e[i].0 == id);
            let w = choose|w: int| 0 <= w < e.len() && (#[trigger] e[w]).0 == id;
            if w < i {
                assert(e[w].0 != e[i].0);
            } else if w > i {
                assert(e[i].0 != e[w].0);
            }
        }
    }
}

} // verus!
