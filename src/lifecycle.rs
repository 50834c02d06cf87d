use crate::codec::{decode, decoding, encode, encoded_len, encoding};
use crate::state::{views_of, HeapState, StateCell, WalletArgs, WalletError};
use vstd::prelude::*;

verus! {

/// First start: installs a state owned by `args.owners`. Fails with
/// `MissingConstructorArgs` when there are no arguments and with
/// `EmptyOwnerSet` when they name no owner; a failure leaves the cell as it
/// was.
pub fn init(cell: &mut StateCell, args: Option<WalletArgs>) -> (r: Result<(), WalletError>)
    ensures
        args is None ==> r == Err::<(), WalletError>(WalletError::MissingConstructorArgs),
        args matches Some(a) ==> {
            if a.owners@.len() == 0 {
                r == Err::<(), WalletError>(WalletError::EmptyOwnerSet)
            } else {
                r is Ok && final(cell)@ == Some(views_of(a.owners@))
            }
        },
        r is Err ==> final(cell)@ == old(cell)@,
{
    let owners = match args {
        Some(a) => a.owners,
        None => {
            return Err(WalletError::MissingConstructorArgs);
        },
    };
    let heap = HeapState::new(owners)?;
    cell.write(heap);
    Ok(())
}

/// Before an upgrade: the snapshot of the live state. Fails with
/// `SnapshotEncodeFailure` when the cell is empty or the snapshot would not
/// fit its length field.
pub fn pre_upgrade(cell: &StateCell) -> (r: Result<Vec<u8>, WalletError>)
    ensures
        match cell@ {
            Some(o) => if encoded_len(o) <= u64::MAX {
                r matches Ok(b) && b@ == encoding(o)
            } else {
                r == Err::<Vec<u8>, WalletError>(WalletError::SnapshotEncodeFailure)
            },
            None => r == Err::<Vec<u8>, WalletError>(WalletError::SnapshotEncodeFailure),
        },
{
    match cell.read() {
        Some(h) => encode(h),
        None => Err(WalletError::SnapshotEncodeFailure),
    }
}

/// After an upgrade: installs the state held by the snapshot `restored`.
/// Fails with `SnapshotDecodeFailure` when there is no snapshot or it is
/// malformed; a failure installs nothing.
pub fn post_upgrade(cell: &mut StateCell, restored: Option<&[u8]>) -> (r: Result<(), WalletError>)
    ensures
        restored is None ==> r == Err::<(), WalletError>(WalletError::SnapshotDecodeFailure),
        restored matches Some(b) ==> match decoding(b@) {
            Some(o) => r is Ok && final(cell)@ == Some(o),
            None => r == Err::<(), WalletError>(WalletError::SnapshotDecodeFailure),
        },
        r is Err ==> final(cell)@ == old(cell)@,
{
    let bytes = match restored {
        Some(b) => b,
        None => {
            return Err(WalletError::SnapshotDecodeFailure);
        },
    };
    let heap = decode(bytes)?;
    cell.write(heap);
    Ok(())
}

} // verus!
