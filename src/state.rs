use crate::principal::{Principal, MAX_PRINCIPAL_LEN};
use vstd::prelude::*;

verus! {

/// Every failure the wallet core reports.
#[derive(Debug, Clone, Copy, PartialEq, Eq, Structural)]
pub enum WalletError {
    /// Initialisation was run without its constructor arguments.
    MissingConstructorArgs,
    /// The owners given would lock every caller out.
    EmptyOwnerSet,
    /// The state could not be written as a snapshot.
    SnapshotEncodeFailure,
    /// The snapshot is absent, truncated or not in this format.
    SnapshotDecodeFailure,
    /// The caller is not one of the owners.
    Unauthorized,
}

/// The owners of a state as plain byte strings.
pub open spec fn views_of(owners: Seq<Principal>) -> Seq<Seq<u8>> {
    owners.map_values(|p: Principal| p@)
}

/// What every state that initialisation or a restore can produce satisfies:
/// at least one owner, and no owner longer than an identity can be.
pub open spec fn reachable(owners: Seq<Seq<u8>>) -> bool {
    &&& owners.len() > 0
    &&& forall|i: int| 0 <= i < owners.len() ==> #[trigger] owners[i].len() <= MAX_PRINCIPAL_LEN
}

/// Whether `caller` is one of `owners`.
pub open spec fn is_owner(caller: Seq<u8>, owners: Seq<Seq<u8>>) -> bool {
    owners.contains(caller)
}

/// The arguments that initialisation consumes.
#[derive(Debug)]
pub struct WalletArgs {
    pub owners: Vec<Principal>,
}

/// The whole mutable memory of the wallet: its owners, in order.
#[derive(Debug)]
pub struct HeapState {
    owners: Vec<Principal>,
}

impl View for HeapState {
    type V = Seq<Seq<u8>>;

    closed spec fn view(&self) -> Seq<Seq<u8>> {
        views_of(self.owners@)
    }
}

impl HeapState {
    #[verifier::type_invariant]
    spec fn well_formed(&self) -> bool {
        reachable(views_of(self.owners@))
    }

    /// A state owned by `owners`; `EmptyOwnerSet` when there are none.
    pub fn new(owners: Vec<Principal>) -> (r: Result<HeapState, WalletError>)
        ensures
            r is Err <==> owners@.len() == 0,
            r matches Err(e) ==> e == WalletError::EmptyOwnerSet,
            r matches Ok(h) ==> h@ == views_of(owners@),
    {
        if owners.len() == 0 {
            return Err(WalletError::EmptyOwnerSet);
        }
        let mut i: usize = 0;
        while i < owners.len()
            invariant
                i <= owners@.len(),
                forall|j: int| 0 <= j < i ==> #[trigger] owners@[j]@.len() <= MAX_PRINCIPAL_LEN,
            decreases owners@.len() - i,
        {
            let _ = owners[i].len();
            i = i + 1;
        }
        Ok(HeapState { owners })
    }

    /// The owners, which satisfy `reachable`.
    pub fn owners(&self) -> (r: &Vec<Principal>)
        ensures
            views_of(r@) == self@,
            reachable(self@),
    {
        proof {
            use_type_invariant(self);
        }
        &self.owners
    }

    /// A copy of the state.
    pub fn duplicate(&self) -> (r: HeapState)
        ensures
            r@ == self@,
    {
        proof {
            use_type_invariant(self);
        }
        let mut v: Vec<Principal> = Vec::new();
        let mut i: usize = 0;
        while i < self.owners.len()
            invariant
                i <= self.owners@.len(),
                v@.len() == i,
                forall|j: int| 0 <= j < i ==> #[trigger] v@[j]@ == self.owners@[j]@,
                reachable(views_of(self.owners@)),
            decreases self.owners@.len() - i,
        {
            v.push(self.owners[i].duplicate());
            i = i + 1;
        }
        assert(views_of(v@) =~= views_of(self.owners@));
        HeapState { owners: v }
    }

    /// Whether two states hold the same owners in the same order.
    pub fn same_as(&self, other: &HeapState) -> (r: bool)
        ensures
            r == (self@ == other@),
    {
        if self.owners.len() != other.owners.len() {
            assert(self@.len() != other@.len());
            return false;
        }
        let mut i: usize = 0;
        while i < self.owners.len()
            invariant
                self.owners@.len() == other.owners@.len(),
                self@ == views_of(self.owners@),
                other@ == views_of(other.owners@),
                i <= self.owners@.len(),
                forall|j: int| 0 <= j < i ==> #[trigger] self.owners@[j]@ == other.owners@[j]@,
            decreases self.owners@.len() - i,
        {
            if !self.owners[i].same_as(&other.owners[i]) {
                assert(self@[i as int] != other@[i as int]);
                return false;
            }
            i = i + 1;
        }
        assert(self@ =~= other@);
        true
    }
}

impl Clone for HeapState {
    fn clone(&self) -> (r: HeapState)
        ensures
            r@ == self@,
    {
        self.duplicate()
    }
}

impl PartialEq for HeapState {
    fn eq(&self, other: &HeapState) -> (r: bool) {
        self.same_as(other)
    }
}

impl vstd::std_specs::cmp::PartialEqSpecImpl for HeapState {
    open spec fn obeys_eq_spec() -> bool {
        true
    }

    open spec fn eq_spec(&self, other: &HeapState) -> bool {
        self@ == other@
    }
}

impl Eq for HeapState {
}

/// The single slot that owns the live state; empty until initialisation or
/// a restore installs one. Access is through `&self` / `&mut self`, so a
/// second borrow while one is active cannot be written.
#[derive(Debug)]
pub struct StateCell {
    heap: Option<HeapState>,
}

impl View for StateCell {
    type V = Option<Seq<Seq<u8>>>;

    closed spec fn view(&self) -> Option<Seq<Seq<u8>>> {
        match self.heap {
            Some(h) => Some(h@),
            None => None,
        }
    }
}

impl StateCell {
    /// An empty cell.
    pub fn new() -> (r: StateCell)
        ensures
            r@ is None,
    {
        StateCell { heap: None }
    }

    /// The live state, if one is installed.
    pub fn read(&self) -> (r: Option<&HeapState>)
        ensures
            r is None <==> self@ is None,
            r matches Some(h) ==> self@ == Some(h@),
            self@ matches Some(o) ==> reachable(o),
    {
        match &self.heap {
            Some(h) => {
                proof {
                    use_type_invariant(h);
                }
                Some(h)
            },
            None => None,
        }
    }

    /// Replaces the live state with `heap`, all at once.
    pub fn write(&mut self, heap: HeapState)
        ensures
            final(self)@ == Some(heap@),
    {
        self.heap = Some(heap);
    }
}

} // verus!
