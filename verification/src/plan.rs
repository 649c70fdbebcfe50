//! Transaction planning for a store-backed engine. A relational
//! implementation runs each operation as one transaction: it reads the
//! category's current count inside the transaction, asks these functions
//! what to do, and performs the returned writes before committing. The
//! decisions — what is valid, which range to shift, where to insert — are
//! made here and verified; the surrounding program only executes them.

use vstd::prelude::*;

use crate::repo::{OrderingError, MAX_MEMBERS};

verus! {

/// The writes an `AddMembership` transaction must perform.
#[derive(Clone, Copy, Debug, PartialEq, Eq, Structural)]
pub enum AddAction {
    /// Open a slot first: bump every position at or after `position` up by
    /// one, then insert the membership at `position`.
    ShiftThenInsert { position: i32 },
    /// Append: insert the membership at `position`, touching no other row.
    InsertOnly { position: i32 },
}

/// Decide an `AddMembership` call from the category's membership count,
/// read in the same transaction. Without a requested position the
/// membership is appended at `count + 1`; a requested position must lie in
/// `1..=count + 1`, where `count + 1` appends and anything lower opens a
/// slot; out of that range the call is rejected, never silently clamped.
/// (Whether the photo is already a member is the insert's own check, via
/// the store's unique key.)
pub fn plan_add(count: usize, requested_position: Option<i32>) -> (r: Result<
    AddAction,
    OrderingError,
>)
    requires
        count < MAX_MEMBERS,
    ensures
        match requested_position {
            Option::None => r == Ok::<AddAction, OrderingError>(
                AddAction::InsertOnly { position: (count + 1) as i32 },
            ),
            Option::Some(p) => {
                if 1 <= p <= count {
                    r == Ok::<AddAction, OrderingError>(AddAction::ShiftThenInsert { position: p })
                } else if p == count + 1 {
                    r == Ok::<AddAction, OrderingError>(AddAction::InsertOnly { position: p })
                } else {
                    r == Err::<AddAction, OrderingError>(OrderingError::InvalidPosition)
                }
            },
        },
{
    match requested_position {
        None => Ok(AddAction::InsertOnly { position: (count + 1) as i32 }),
        Some(p) => {
            if p < 1 || p as usize > count + 1 {
                Err(OrderingError::InvalidPosition)
            } else if p as usize == count + 1 {
                Ok(AddAction::InsertOnly { position: p })
            } else {
                Ok(AddAction::ShiftThenInsert { position: p })
            }
        },
    }
}

/// The writes a `RemoveMembership` transaction must perform after its
/// delete reported what it removed: close the gap by pulling every
/// position after the removed one down by one.
#[derive(Clone, Copy, Debug, PartialEq, Eq, Structural)]
pub struct RemoveAction {
    /// Decrement every position at or after this one.
    pub shift_down_from: i32,
}

/// Decide the rest of a `RemoveMembership` call from what the delete
/// returned: the position it removed, or nothing. A removal at position
/// `p` is followed by shifting down from `p + 1`; a missing membership
/// aborts the transaction with `MembershipNotFound`.
pub fn plan_remove(removed_position: Option<i32>) -> (r: Result<RemoveAction, OrderingError>)
    requires
        removed_position matches Some(p) ==> 1 <= p < 0x7fff_ffff,
    ensures
        match removed_position {
            Option::Some(p) => r == Ok::<RemoveAction, OrderingError>(
                RemoveAction { shift_down_from: (p + 1) as i32 },
            ),
            Option::None => r == Err::<RemoveAction, OrderingError>(
                OrderingError::MembershipNotFound,
            ),
        },
{
    match removed_position {
        Some(p) => Ok(RemoveAction { shift_down_from: p + 1 }),
        None => Err(OrderingError::MembershipNotFound),
    }
}

/// The HTTP status each engine failure maps to: bad requests to 400,
/// absent entities to 404, conflicts (duplicates, and serialization
/// failures the client may retry) to 409, and an unreachable store to 503.
pub fn error_status_code(e: &OrderingError) -> (code: u16)
    ensures
        code == match *e {
            OrderingError::InvalidPosition => 400u16,
            OrderingError::CategoryNotFound => 404u16,
            OrderingError::PhotoNotFound => 404u16,
            OrderingError::MembershipNotFound => 404u16,
            OrderingError::DuplicateMembership => 409u16,
            OrderingError::Conflict => 409u16,
            OrderingError::StoreUnavailable => 503u16,
        },
{
    match e {
        OrderingError::InvalidPosition => 400,
        OrderingError::CategoryNotFound => 404,
        OrderingError::PhotoNotFound => 404,
        OrderingError::MembershipNotFound => 404,
        OrderingError::DuplicateMembership => 409,
        OrderingError::Conflict => 409,
        OrderingError::StoreUnavailable => 503,
    }
}

} // verus!
