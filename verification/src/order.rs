//! The ordering engine's abstract model: a category's display state is the
//! sequence of photo ids in display order (the photo at position `p` is
//! element `p - 1`), and each engine operation is a transition on that
//! sequence. The executable operations ensure they follow these transitions
//! exactly; the laws of the engine are proved here, over the model.

use vstd::prelude::*;

use crate::repo::OrderingError;

verus! {

/// A requested position, widened to the mathematical integers.
pub open spec fn req_view(requested: Option<i32>) -> Option<int> {
    match requested {
        Option::None => Option::None,
        Option::Some(p) => Option::Some(p as int),
    }
}

/// The transition of `AddMembership`: without a requested position the photo
/// is appended at `N + 1`; with one, the position must lie in `1..=N + 1`
/// (where `N + 1` means append), every member at or after it moves up by one,
/// and the photo takes the slot. A photo already a member is rejected, and an
/// out-of-range request is rejected rather than silently clamped.
pub open spec fn spec_add(order: Seq<i32>, photo_id: i32, requested: Option<int>) -> Result<
    (Seq<i32>, int),
    OrderingError,
> {
    if order.contains(photo_id) {
        Err(OrderingError::DuplicateMembership)
    } else {
        match requested {
            Option::None => Ok((order.push(photo_id), order.len() + 1 as int)),
            Option::Some(p) => if 1 <= p <= order.len() + 1 {
                Ok((order.insert(p - 1, photo_id), p))
            } else {
                Err(OrderingError::InvalidPosition)
            },
        }
    }
}

/// The transition of `RemoveMembership`: the photo's slot is removed and
/// every member after it moves down by one, closing the gap. The removed
/// position is reported alongside the new state.
pub open spec fn spec_remove(order: Seq<i32>, photo_id: i32) -> Result<
    (Seq<i32>, int),
    OrderingError,
> {
    if order.contains(photo_id) {
        Ok((order.remove(order.index_of(photo_id)), order.index_of(photo_id) + 1))
    } else {
        Err(OrderingError::MembershipNotFound)
    }
}

/// The transition of `MoveMembership`: remove-then-add semantics as one
/// atomic step. The new position must lie in `1..=N` (the count is unchanged
/// by a move).
pub open spec fn spec_move(order: Seq<i32>, photo_id: i32, new_position: int) -> Result<
    Seq<i32>,
    OrderingError,
> {
    if !order.contains(photo_id) {
        Err(OrderingError::MembershipNotFound)
    } else if !(1 <= new_position <= order.len()) {
        Err(OrderingError::InvalidPosition)
    } else {
        Ok(order.remove(order.index_of(photo_id)).insert(new_position - 1, photo_id))
    }
}

/// Law: an append (no requested position) always assigns position `N + 1`,
/// where `N` is the membership count before the call.
pub proof fn lemma_append_assigns_next(order: Seq<i32>, photo_id: i32)
    requires
        !order.contains(photo_id),
    ensures
        spec_add(order, photo_id, Option::None) == Ok::<(Seq<i32>, int), OrderingError>(
            (order.push(photo_id), order.len() + 1 as int),
        ),
{
}

/// Law: adding a membership and then immediately removing the same photo
/// restores the exact prior ordered sequence for all other members, and the
/// removal reports the very position the addition assigned.
pub proof fn lemma_add_remove_round_trip(order: Seq<i32>, photo_id: i32, requested: Option<int>)
    requires
        spec_add(order, photo_id, requested) is Ok,
    ensures
        spec_remove(spec_add(order, photo_id, requested)->Ok_0.0, photo_id) == Ok::<
            (Seq<i32>, int),
            OrderingError,
        >((order, spec_add(order, photo_id, requested)->Ok_0.1)),
{
    let added = spec_add(order, photo_id, requested)->Ok_0;
    let o1 = added.0;
    let p = added.1;
    assert(!order.contains(photo_id));
    assert(forall|j: int| 0 <= j < order.len() ==> order[j] != photo_id);
    if requested is None {
        assert(o1 == order.push(photo_id));
        assert(o1 =~= order.insert(order.len() as int, photo_id));
    }
    order.insert_ensures(p - 1, photo_id);
    assert(o1 == order.insert(p - 1, photo_id));
    assert(o1[p - 1] == photo_id);
    assert(o1.contains(photo_id));
    let i = o1.index_of(photo_id);
    assert(0 <= i < o1.len() && o1[i] == photo_id);
    assert(i == p - 1) by {
        if i < p - 1 {
            assert(o1[i] == order[i]);
        } else if i > p - 1 {
            assert(o1[i] == order[i - 1]);
        }
    }
    o1.remove_ensures(p - 1);
    assert(o1.remove(p - 1) =~= order);
}

/// Law: requesting position `N + 1` on a category of count `N` behaves
/// identically to requesting no position at all, and a requested position of
/// `0` or below, or beyond `N + 1`, is rejected as `InvalidPosition`.
pub proof fn lemma_boundary(order: Seq<i32>, photo_id: i32, p: int)
    ensures
        spec_add(order, photo_id, Option::Some(order.len() + 1 as int)) == spec_add(
            order,
            photo_id,
            Option::None,
        ),
        !order.contains(photo_id) && !(1 <= p <= order.len() + 1) ==> spec_add(
            order,
            photo_id,
            Option::Some(p),
        ) == Err::<(Seq<i32>, int), OrderingError>(OrderingError::InvalidPosition),
{
    if !order.contains(photo_id) {
        assert(order.insert(order.len() as int, photo_id) =~= order.push(photo_id));
    }
}

/// Law: on a category whose members are distinct (as the engine keeps
/// them), a successful `MoveMembership` is exactly remove-then-add: first
/// the photo's slot is closed, then a slot is opened at the new position
/// and the photo re-inserted there.
pub proof fn lemma_move_is_remove_then_add(order: Seq<i32>, photo_id: i32, new_position: int)
    requires
        forall|i: int, j: int|
            0 <= i < order.len() && 0 <= j < order.len() && i != j ==> order[i] != order[j],
        spec_move(order, photo_id, new_position) is Ok,
    ensures
        spec_remove(order, photo_id) is Ok,
        spec_add(spec_remove(order, photo_id)->Ok_0.0, photo_id, Option::Some(new_position))
            is Ok,
        spec_move(order, photo_id, new_position)->Ok_0 == spec_add(
            spec_remove(order, photo_id)->Ok_0.0,
            photo_id,
            Option::Some(new_position),
        )->Ok_0.0,
{
    let k0 = order.index_of(photo_id);
    assert(0 <= k0 < order.len() && order[k0] == photo_id);
    let mid = order.remove(k0);
    order.remove_ensures(k0);
    assert forall|q: int| 0 <= q < mid.len() implies (#[trigger] mid[q]) != photo_id by {
        if q < k0 {
            assert(mid[q] == order[q]);
        } else {
            assert(mid[q] == order[q + 1]);
        }
    }
    assert(!mid.contains(photo_id));
}

/// The cascade of deleting a photo: the category's order with the photo's
/// slot removed when the photo was a member, and unchanged otherwise.
pub open spec fn spec_cascade(order: Seq<i32>, photo_id: i32) -> Seq<i32> {
    if order.contains(photo_id) {
        order.remove(order.index_of(photo_id))
    } else {
        order
    }
}

/// Every photo in the order an `AddMembership` leaves behind was either a
/// member before or is the photo just added.
pub proof fn lemma_add_elements(order: Seq<i32>, photo_id: i32, requested: Option<int>)
    requires
        spec_add(order, photo_id, requested) is Ok,
    ensures
        ({
            let result = spec_add(order, photo_id, requested)->Ok_0.0;
            forall|q: int|
                0 <= q < result.len() ==> (#[trigger] result[q]) == photo_id || order.contains(
                    result[q],
                )
        }),
{
    let result = spec_add(order, photo_id, requested)->Ok_0.0;
    match requested {
        Option::None => {
            assert forall|q: int|
                0 <= q < result.len() implies (#[trigger] result[q]) == photo_id
                || order.contains(result[q]) by {
                if q < order.len() {
                    assert(result[q] == order[q]);
                }
            }
        },
        Option::Some(p) => {
            order.insert_ensures(p - 1, photo_id);
            assert forall|q: int|
                0 <= q < result.len() implies (#[trigger] result[q]) == photo_id
                || order.contains(result[q]) by {
                if q < p - 1 {
                    assert(result[q] == order[q]);
                } else if q > p - 1 {
                    assert(result[q] == order[q - 1]);
                }
            }
        },
    }
}

/// Every photo in the order a `RemoveMembership` leaves behind was a member
/// before.
pub proof fn lemma_remove_elements(order: Seq<i32>, photo_id: i32)
    requires
        order.contains(photo_id),
    ensures
        ({
            let result = order.remove(order.index_of(photo_id));
            forall|q: int| 0 <= q < result.len() ==> order.contains(#[trigger] result[q])
        }),
{
    let k0 = order.index_of(photo_id);
    let result = order.remove(k0);
    order.remove_ensures(k0);
    assert forall|q: int| 0 <= q < result.len() implies order.contains(#[trigger] result[q]) by {
        if q < k0 {
            assert(result[q] == order[q]);
        } else {
            assert(result[q] == order[q + 1]);
        }
    }
}

/// Every photo in the order a `MoveMembership` leaves behind was a member
/// before (the moved photo among them).
pub proof fn lemma_move_elements(order: Seq<i32>, photo_id: i32, new_position: int)
    requires
        spec_move(order, photo_id, new_position) is Ok,
    ensures
        ({
            let result = spec_move(order, photo_id, new_position)->Ok_0;
            forall|q: int|
                0 <= q < result.len() ==> (#[trigger] result[q]) == photo_id || order.contains(
                    result[q],
                )
        }),
{
    let k0 = order.index_of(photo_id);
    let mid = order.remove(k0);
    let result = spec_move(order, photo_id, new_position)->Ok_0;
    lemma_remove_elements(order, photo_id);
    mid.insert_ensures(new_position - 1, photo_id);
    assert forall|q: int|
        0 <= q < result.len() implies (#[trigger] result[q]) == photo_id || order.contains(
            result[q],
        ) by {
        if q < new_position - 1 {
            assert(result[q] == mid[q]);
        } else if q > new_position - 1 {
            assert(result[q] == mid[q - 1]);
        }
    }
}

/// The orders obtained by appending the photos one at a time, each as its own
/// committed `AddMembership` transaction with no requested position, starting
/// from an empty category.
pub open spec fn append_all(photos: Seq<i32>) -> Result<Seq<i32>, OrderingError>
    decreases photos.len(),
{
    if photos.len() == 0 {
        Ok(Seq::empty())
    } else {
        match append_all(photos.drop_last()) {
            Ok(order) => match spec_add(order, photos.last(), Option::None) {
                Ok(r) => Ok(r.0),
                Err(e) => Err(e),
            },
            Err(e) => Err(e),
        }
    }
}

/// Law: `N` serialized `AddMembership` appends of distinct photos against an
/// initially empty category all succeed and assign exactly the positions
/// `1..=N`, bijectively: afterwards photo `k` (0-based) sits at position
/// `k + 1`, with no duplicates and no gaps. This is the guarantee for `N`
/// concurrent appends, whose transactions the store serializes in some order.
pub proof fn lemma_concurrent_appends(photos: Seq<i32>)
    requires
        forall|i: int, j: int|
            0 <= i < photos.len() && 0 <= j < photos.len() && i != j ==> photos[i] != photos[j],
    ensures
        append_all(photos) == Ok::<Seq<i32>, OrderingError>(photos),
    decreases photos.len(),
{
    if photos.len() == 0 {
        assert(append_all(photos)->Ok_0 =~= photos);
    } else {
        let prefix = photos.drop_last();
        lemma_concurrent_appends(prefix);
        assert(!prefix.contains(photos.last())) by {
            if prefix.contains(photos.last()) {
                let i = choose|i: int|
                    0 <= i < prefix.len() && prefix[i] == photos.last();
                assert(photos[i] == photos[photos.len() - 1]);
            }
        }
        assert(prefix.push(photos.last()) =~= photos);
    }
}

} // verus!
