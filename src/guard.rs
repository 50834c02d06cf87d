use crate::principal::Principal;
use crate::state::{is_owner, views_of, HeapState, StateCell, WalletError};
use vstd::prelude::*;

verus! {

/// Whether `caller` may run privileged operations against `current`: true
/// exactly when it is one of the owners. Nothing is cached, so a change of
/// owners shows in the very next decision.
pub fn authorize(caller: &Principal, current: &HeapState) -> (r: bool)
    ensures
        r == is_owner(caller@, current@),
{
    let owners = current.owners();
    let mut i: usize = 0;
    while i < owners.len()
        invariant
            views_of(owners@) == current@,
            i <= owners@.len(),
            forall|j: int| 0 <= j < i ==> #[trigger] current@[j] != caller@,
        decreases owners@.len() - i,
    {
        if owners[i].same_as(caller) {
            assert(current@[i as int] == caller@);
            return true;
        }
        i = i + 1;
    }
    proof {
        if current@.contains(caller@) {
            let k = choose|k: int| 0 <= k < current@.len() && current@[k] == caller@;
            assert(current@[k] != caller@);
        }
    }
    false
}

/// The check run before a privileged operation: `Ok` when the cell holds a
/// state and `caller` is one of its owners, `Unauthorized` otherwise.
pub fn caller_is_owner(caller: &Principal, cell: &StateCell) -> (r: Result<(), WalletError>)
    ensures
        r is Ok <==> (cell@ matches Some(o) && is_owner(caller@, o)),
        r matches Err(e) ==> e == WalletError::Unauthorized,
{
    match cell.read() {
        Some(h) => if authorize(caller, h) {
            Ok(())
        } else {
            Err(WalletError::Unauthorized)
        },
        None => Err(WalletError::Unauthorized),
    }
}

/// A privileged operation: an owner replaces the owners. A caller that is
/// not an owner gets `Unauthorized`, and a new owner list that is empty gets
/// `EmptyOwnerSet`; in both cases the cell is left as it was.
pub fn set_owners(cell: &mut StateCell, caller: &Principal, owners: Vec<Principal>) -> (r: Result<
    (),
    WalletError,
>)
    ensures
        !(old(cell)@ matches Some(o) && is_owner(caller@, o)) ==> r == Err::<(), WalletError>(
            WalletError::Unauthorized,
        ),
        (old(cell)@ matches Some(o) && is_owner(caller@, o)) && owners@.len() == 0 ==> r == Err::<
            (),
            WalletError,
        >(WalletError::EmptyOwnerSet),
        (old(cell)@ matches Some(o) && is_owner(caller@, o)) && owners@.len() > 0 ==> r is Ok,
        r is Ok ==> final(cell)@ == Some(views_of(owners@)),
        r is Err ==> final(cell)@ == old(cell)@,
{
    caller_is_owner(caller, cell)?;
    let heap = HeapState::new(owners)?;
    cell.write(heap);
    Ok(())
}

} // verus!
