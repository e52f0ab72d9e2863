//! Changes to a partition that are staged for a later write to the device.

use vstd::prelude::*;

verus! {

/// A staged change to one partition.
#[derive(Debug, Clone, Copy, PartialEq, Eq, Structural)]
pub enum Modification {
    Delete,
    Create { start: u64, end: u64 },
}

/// The kind of a staged change, without its data.
#[derive(Debug, Clone, Copy, PartialEq, Eq, Structural)]
pub enum ModificationType {
    Delete,
    Create,
}

impl Modification {
    /// The kind of this change.
    pub open spec fn kind(self) -> ModificationType {
        match self {
            Modification::Delete => ModificationType::Delete,
            Modification::Create { .. } => ModificationType::Create,
        }
    }

    /// The kind of this change.
    pub fn modification_type(&self) -> (kind: ModificationType)
        ensures
            kind == self.kind(),
    {
        match self {
            Modification::Delete => ModificationType::Delete,
            Modification::Create { .. } => ModificationType::Create,
        }
    }
}

/// At most one staged change of each kind.
#[derive(Debug)]
pub struct ModificationSet {
    inner: [Option<Modification>; 2],
}

impl ModificationSet {
    /// The slot that holds the change of the given kind.
    pub closed spec fn slot(kind: ModificationType) -> int {
        match kind {
            ModificationType::Delete => 0,
            ModificationType::Create => 1,
        }
    }

    /// Whether each slot holds nothing or a change of the slot's kind.
    #[verifier::type_invariant]
    spec fn sorted_into_slots(&self) -> bool {
        forall|kind: ModificationType| #[trigger]
            self.inner@[Self::slot(kind)] matches Some(change) ==> change.kind() == kind
    }

    /// A set without changes.
    pub fn new() -> (set: Self)
        ensures
            set@ == Map::<ModificationType, Modification>::empty(),
    {
        let set = ModificationSet { inner: [None, None] };
        assert(set@ =~= Map::<ModificationType, Modification>::empty());
        set
    }

    /// Whether a change of the given kind is staged.
    pub fn contains(&self, variant: ModificationType) -> (present: bool)
        ensures
            present == self@.dom().contains(variant),
    {
        match variant {
            ModificationType::Delete => self.inner[0].is_some(),
            ModificationType::Create => self.inner[1].is_some(),
        }
    }

    /// Stages `val`, in place of any change of the same kind.
    pub fn insert(&mut self, val: Modification)
        ensures
            final(self)@ == old(self)@.insert(val.kind(), val),
    {
        proof {
            use_type_invariant(&*self);
        }
        match val {
            Modification::Delete => {
                self.inner[0] = Some(val);
            },
            Modification::Create { .. } => {
                self.inner[1] = Some(val);
            },
        }
        assert(final(self)@ =~= old(self)@.insert(val.kind(), val));
    }

    /// Removes every staged change.
    pub fn clear(&mut self)
        ensures
            final(self)@ == Map::<ModificationType, Modification>::empty(),
    {
        proof {
            use_type_invariant(&*self);
        }
        self.inner[0] = None;
        self.inner[1] = None;
        assert(final(self)@ =~= Map::<ModificationType, Modification>::empty());
    }
}

impl View for ModificationSet {
    type V = Map<ModificationType, Modification>;

    /// The staged changes by kind.
    closed spec fn view(&self) -> Map<ModificationType, Modification> {
        Map::new(
            |kind: ModificationType| self.inner@[Self::slot(kind)] is Some,
            |kind: ModificationType| self.inner@[Self::slot(kind)]->Some_0,
        )
    }
}

impl Default for ModificationSet {
    fn default() -> (set: Self)
        ensures
            set@ == Map::<ModificationType, Modification>::empty(),
    {
        Self::new()
    }
}

} // verus!
