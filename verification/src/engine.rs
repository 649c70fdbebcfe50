//! The ordering engine's per-category operations: `AddMembership`,
//! `RemoveMembership`, `MoveMembership` and `ListOrdered`, composed from the
//! repository primitives and proved to follow the abstract transitions of
//! `crate::order` while keeping the packed invariant.

use vstd::prelude::*;

use crate::order::{req_view, spec_add, spec_move, spec_remove};
use crate::repo::{
    has_photo, has_position, idx_of_photo, idx_of_pos, ordering_of, photo_at, photos_distinct,
    pos_of_photo, positions_complete, positions_distinct, positions_in_range, CategoryMemberships,
    Membership, OrderingError, MAX_MEMBERS,
};

verus! {

/// Law: on a well-formed category of count `N`, the positions held by the
/// memberships are exactly the packed range `1..=N`, with no duplicates:
/// this holds after every committed engine operation, since each ensures
/// `wf` of the category it leaves behind.
pub proof fn lemma_packed_positions(m: CategoryMemberships)
    requires
        m.wf(),
    ensures
        forall|p: int| has_position(m.rows(), p) <==> 1 <= p <= m.rows().len(),
        positions_distinct(m.rows()),
{
    assert forall|p: int| has_position(m.rows(), p) implies 1 <= p <= m.rows().len() by {
        let i = choose|i: int|
            0 <= i < m.rows().len() && (#[trigger] m.rows()[i]).display_order == p;
        assert(1 <= m.rows()[i].display_order <= m.rows().len());
    }
}

/// A category's membership set and its display sequence list the same
/// photos.
pub proof fn lemma_ordering_contains(s: Seq<Membership>, photo_id: i32)
    requires
        positions_in_range(s),
        positions_distinct(s),
        positions_complete(s),
    ensures
        has_photo(s, photo_id) <==> ordering_of(s).contains(photo_id),
{
    if has_photo(s, photo_id) {
        let i = choose|i: int| 0 <= i < s.len() && (#[trigger] s[i]).photo_id == photo_id;
        let p = s[i].display_order as int;
        crate::repo::lemma_row_at_pos(s, i);
        assert(ordering_of(s)[p - 1] == photo_at(s, p));
        assert(ordering_of(s).contains(photo_id));
    }
    if ordering_of(s).contains(photo_id) {
        let k = choose|k: int| 0 <= k < ordering_of(s).len() && ordering_of(s)[k] == photo_id;
        assert(ordering_of(s)[k] == photo_at(s, k + 1));
        assert(has_position(s, k + 1));
        let i = idx_of_pos(s, k + 1);
        assert(s[i].photo_id == photo_id);
        assert(has_photo(s, photo_id));
    }
}

/// The display sequence holds a member photo at exactly one index: the one
/// before its position. `index_of` therefore reports that index.
pub proof fn lemma_ordering_index_of(s: Seq<Membership>, photo_id: i32)
    requires
        positions_in_range(s),
        positions_distinct(s),
        positions_complete(s),
        photos_distinct(s),
        has_photo(s, photo_id),
    ensures
        ordering_of(s).contains(photo_id),
        ordering_of(s).index_of(photo_id) == pos_of_photo(s, photo_id) - 1,
        forall|k: int|
            0 <= k < ordering_of(s).len() && k != pos_of_photo(s, photo_id) - 1 ==> ordering_of(
                s,
            )[k] != photo_id,
{
    lemma_ordering_contains(s, photo_id);
    let i0 = idx_of_photo(s, photo_id);
    assert(0 <= i0 < s.len() && s[i0].photo_id == photo_id);
    let p = s[i0].display_order as int;
    crate::repo::lemma_row_at_pos(s, i0);
    assert(ordering_of(s)[p - 1] == photo_id);
    assert forall|k: int|
        0 <= k < ordering_of(s).len() && ordering_of(s)[k] == photo_id implies k == p - 1 by {
        assert(ordering_of(s)[k] == photo_at(s, k + 1));
        assert(has_position(s, k + 1));
        let j = idx_of_pos(s, k + 1);
        assert(s[j].photo_id == photo_id);
        crate::repo::lemma_row_of_photo(s, j);
        assert(j == i0);
    }
    let k = ordering_of(s).index_of(photo_id);
    assert(0 <= k < ordering_of(s).len() && ordering_of(s)[k] == photo_id);
}

/// A well-formed category's display sequence lists each photo at most
/// once.
pub proof fn lemma_ordering_distinct(s: Seq<Membership>)
    requires
        positions_in_range(s),
        positions_distinct(s),
        positions_complete(s),
        photos_distinct(s),
    ensures
        forall|i: int, j: int|
            0 <= i < ordering_of(s).len() && 0 <= j < ordering_of(s).len() && i != j
                ==> ordering_of(s)[i] != ordering_of(s)[j],
{
    assert forall|i: int, j: int|
        0 <= i < ordering_of(s).len() && 0 <= j < ordering_of(s).len() && i != j implies ordering_of(
        s,
    )[i] != ordering_of(s)[j] by {
        assert(ordering_of(s)[i] == photo_at(s, i + 1));
        assert(ordering_of(s)[j] == photo_at(s, j + 1));
        assert(has_position(s, i + 1));
        assert(has_position(s, j + 1));
        let a = idx_of_pos(s, i + 1);
        let b = idx_of_pos(s, j + 1);
        assert(s[a].display_order == i + 1 && s[b].display_order == j + 1);
        if s[a].photo_id == s[b].photo_id {
            assert(a == b);
        }
    }
}

/// Correctness of the open-slot write path: shifting every position at or
/// after `p` up by one and appending the new row at `p` yields a well-formed
/// category whose display sequence is the old one with the photo inserted
/// before index `p - 1`.
proof fn lemma_insert_at(s_old: Seq<Membership>, s_new: Seq<Membership>, photo_id: i32, p: i32)
    requires
        positions_in_range(s_old),
        positions_distinct(s_old),
        positions_complete(s_old),
        photos_distinct(s_old),
        !has_photo(s_old, photo_id),
        1 <= p <= s_old.len() + 1,
        s_new.len() == s_old.len() + 1,
        forall|i: int|
            0 <= i < s_old.len() ==> (#[trigger] s_new[i]).photo_id == s_old[i].photo_id && s_new[
                i
            ].display_order == (if s_old[i].display_order >= p {
                s_old[i].display_order + 1
            } else {
                s_old[i].display_order as int
            }),
        s_new[s_old.len() as int] == (Membership { photo_id, display_order: p }),
    ensures
        positions_in_range(s_new),
        positions_distinct(s_new),
        positions_complete(s_new),
        photos_distinct(s_new),
        ordering_of(s_new) == ordering_of(s_old).insert(p - 1, photo_id),
{
    let n = s_old.len() as int;
    assert forall|j: int| 0 <= j < n implies (#[trigger] s_old[j]).photo_id != photo_id by {
        if s_old[j].photo_id == photo_id {
            assert(has_photo(s_old, photo_id));
        }
    }
    assert(positions_in_range(s_new));
    assert(positions_distinct(s_new));
    assert(photos_distinct(s_new));
    assert forall|q: int| 1 <= q <= s_new.len() implies #[trigger] has_position(s_new, q) by {
        if q < p {
            assert(has_position(s_old, q));
            let i = idx_of_pos(s_old, q);
            assert(s_new[i].display_order == q);
        } else if q == p {
            assert(s_new[n].display_order == q);
        } else {
            assert(has_position(s_old, q - 1));
            let i = idx_of_pos(s_old, q - 1);
            assert(s_new[i].display_order == q);
        }
    }
    ordering_of(s_old).insert_ensures(p - 1, photo_id);
    assert forall|k: int| 0 <= k < s_new.len() implies ordering_of(s_new)[k] == ordering_of(
        s_old,
    ).insert(p - 1, photo_id)[k] by {
        let q = k + 1;
        assert(ordering_of(s_new)[k] == photo_at(s_new, q));
        if q < p {
            assert(has_position(s_old, q));
            let i = idx_of_pos(s_old, q);
            assert(s_new[i].display_order == q);
            crate::repo::lemma_row_at_pos(s_new, i);
            crate::repo::lemma_row_at_pos(s_old, i);
            assert(photo_at(s_new, q) == s_old[i].photo_id);
            assert(ordering_of(s_old)[k] == photo_at(s_old, q));
        } else if q == p {
            crate::repo::lemma_row_at_pos(s_new, n);
            assert(photo_at(s_new, q) == photo_id);
        } else {
            assert(has_position(s_old, q - 1));
            let i = idx_of_pos(s_old, q - 1);
            assert(s_new[i].display_order == q);
            crate::repo::lemma_row_at_pos(s_new, i);
            crate::repo::lemma_row_at_pos(s_old, i);
            assert(photo_at(s_new, q) == s_old[i].photo_id);
            assert(ordering_of(s_old)[k - 1] == photo_at(s_old, q - 1));
        }
    }
    assert(ordering_of(s_new) =~= ordering_of(s_old).insert(p - 1, photo_id));
}

/// Correctness of the close-slot write path: deleting the row of `photo_id`
/// (which held position `p`) and shifting every position at or after `p + 1`
/// down by one yields a well-formed category whose display sequence is the
/// old one with index `p - 1` removed.
proof fn lemma_remove_close(
    s_old: Seq<Membership>,
    s_mid: Seq<Membership>,
    s_new: Seq<Membership>,
    photo_id: i32,
    p: i32,
)
    requires
        positions_in_range(s_old),
        positions_distinct(s_old),
        positions_complete(s_old),
        photos_distinct(s_old),
        has_photo(s_old, photo_id),
        p as int == pos_of_photo(s_old, photo_id),
        s_mid == s_old.remove(idx_of_photo(s_old, photo_id)),
        s_new.len() == s_mid.len(),
        forall|i: int|
            0 <= i < s_mid.len() ==> (#[trigger] s_new[i]).photo_id == s_mid[i].photo_id && s_new[
                i
            ].display_order == (if s_mid[i].display_order >= p + 1 {
                s_mid[i].display_order - 1
            } else {
                s_mid[i].display_order as int
            }),
    ensures
        positions_in_range(s_new),
        positions_distinct(s_new),
        positions_complete(s_new),
        photos_distinct(s_new),
        ordering_of(s_new) == ordering_of(s_old).remove(p - 1),
{
    let n = s_old.len() as int;
    let i0 = idx_of_photo(s_old, photo_id);
    crate::repo::lemma_row_of_photo(s_old, i0);
    assert(0 <= i0 < n && s_old[i0].photo_id == photo_id && s_old[i0].display_order == p);
    assert(1 <= p <= n);
    s_old.remove_ensures(i0);
    assert(s_mid.len() == n - 1);
    assert forall|i: int| 0 <= i < s_mid.len() implies (#[trigger] s_mid[i]) == s_old[
        (if i < i0 {
            i
        } else {
            i + 1
        })
    ] by {
        if i < i0 {
            assert(s_mid[i] == s_old[i]);
        } else {
            assert(s_mid[i] == s_old[i + 1]);
        }
    }
    assert forall|i: int| 0 <= i < s_mid.len() implies (#[trigger] s_mid[i]).display_order != p
        by {
        let oi = if i < i0 {
            i
        } else {
            i + 1
        };
        assert(s_mid[i] == s_old[oi]);
        assert(oi != i0);
    }
    assert(positions_in_range(s_new));
    assert(positions_distinct(s_new));
    assert(photos_distinct(s_new));
    assert forall|q: int| 1 <= q <= s_new.len() implies #[trigger] has_position(s_new, q) by {
        if q < p {
            assert(has_position(s_old, q));
            let j = idx_of_pos(s_old, q);
            assert(j != i0);
            let mi = if j < i0 {
                j
            } else {
                j - 1
            };
            assert(s_mid[mi] == s_old[j]);
            assert(s_new[mi].display_order == q);
        } else {
            assert(1 <= q + 1 <= n);
            assert(has_position(s_old, q + 1));
            let j = idx_of_pos(s_old, q + 1);
            assert(j != i0);
            let mi = if j < i0 {
                j
            } else {
                j - 1
            };
            assert(s_mid[mi] == s_old[j]);
            assert(s_new[mi].display_order == q);
        }
    }
    ordering_of(s_old).remove_ensures(p - 1);
    assert forall|k: int| 0 <= k < s_new.len() implies ordering_of(s_new)[k] == ordering_of(
        s_old,
    ).remove(p - 1)[k] by {
        let q = k + 1;
        assert(ordering_of(s_new)[k] == photo_at(s_new, q));
        if q < p {
            assert(has_position(s_old, q));
            let j = idx_of_pos(s_old, q);
            assert(j != i0);
            let mi = if j < i0 {
                j
            } else {
                j - 1
            };
            assert(s_mid[mi] == s_old[j]);
            assert(s_new[mi].display_order == q);
            crate::repo::lemma_row_at_pos(s_new, mi);
            crate::repo::lemma_row_at_pos(s_old, j);
            assert(photo_at(s_new, q) == s_old[j].photo_id);
            assert(ordering_of(s_old)[k] == photo_at(s_old, q));
        } else {
            assert(1 <= q + 1 <= n);
            assert(has_position(s_old, q + 1));
            let j = idx_of_pos(s_old, q + 1);
            assert(j != i0);
            let mi = if j < i0 {
                j
            } else {
                j - 1
            };
            assert(s_mid[mi] == s_old[j]);
            assert(s_new[mi].display_order == q);
            crate::repo::lemma_row_at_pos(s_new, mi);
            crate::repo::lemma_row_at_pos(s_old, j);
            assert(photo_at(s_new, q) == s_old[j].photo_id);
            assert(ordering_of(s_old)[k + 1] == photo_at(s_old, q + 1));
        }
    }
    assert(ordering_of(s_new) =~= ordering_of(s_old).remove(p - 1));
}

impl CategoryMemberships {
    /// `AddMembership`: link `photo_id` into the category. Without a
    /// requested position the photo is appended at position `N + 1` with no
    /// shifting; with one, the position must lie in `1..=N + 1`, a slot is
    /// opened by shifting every member at or after it up by one, and the
    /// photo is inserted there. Follows `spec_add` exactly: a duplicate
    /// photo reports `DuplicateMembership`, an out-of-range request
    /// `InvalidPosition`, and a failed call leaves the category unchanged.
    pub fn add_membership(&mut self, photo_id: i32, requested_position: Option<i32>) -> (r: Result<
        i32,
        OrderingError,
    >)
        requires
            old(self).wf(),
            old(self).rows().len() < MAX_MEMBERS,
        ensures
            final(self).wf(),
            match r {
                Ok(p) => spec_add(old(self).ordering(), photo_id, req_view(requested_position))
                    == Ok::<(Seq<i32>, int), OrderingError>((final(self).ordering(), p as int)),
                Err(e) => {
                    &&& spec_add(old(self).ordering(), photo_id, req_view(requested_position))
                        == Err::<(Seq<i32>, int), OrderingError>(e)
                    &&& *final(self) == *old(self)
                },
            },
    {
        proof {
            lemma_ordering_contains(self.rows(), photo_id);
        }
        if self.contains_photo(photo_id) {
            return Err(OrderingError::DuplicateMembership);
        }
        let n = self.count();
        let p: i32 = match requested_position {
            None => {
                match self.max_position() {
                    None => 1,
                    Some(m) => m + 1,
                }
            },
            Some(q) => {
                if q < 1 || q as usize > n + 1 {
                    return Err(OrderingError::InvalidPosition);
                }
                q
            },
        };
        let ghost s_old = self.rows();
        self.shift_up(p);
        proof {
            assert forall|j: int| 0 <= j < self.rows().len() implies (#[trigger] self.rows()[
                j
            ]).photo_id != photo_id by {
                if self.rows()[j].photo_id == photo_id {
                    assert(s_old[j].photo_id == photo_id);
                    assert(has_photo(s_old, photo_id));
                }
            }
        }
        match self.insert(photo_id, p) {
            Ok(()) => {
                proof {
                    lemma_insert_at(s_old, self.rows(), photo_id, p);
                    assert(self.ordering() =~= ordering_of(s_old).insert(p - 1, photo_id));
                    if requested_position is None {
                        assert(ordering_of(s_old).insert(p - 1, photo_id) =~= ordering_of(
                            s_old,
                        ).push(photo_id));
                    }
                }
                Ok(p)
            },
            Err(_) => {
                proof {
                    assert(false);
                }
                Err(OrderingError::Conflict)
            },
        }
    }

    /// `RemoveMembership`: unlink `photo_id` from the category. The removed
    /// slot's gap is closed by shifting every later member down by one, and
    /// the position the photo held is returned. Follows `spec_remove`
    /// exactly: an absent photo reports `MembershipNotFound` and leaves the
    /// category unchanged.
    pub fn remove_membership(&mut self, photo_id: i32) -> (r: Result<i32, OrderingError>)
        requires
            old(self).wf(),
        ensures
            final(self).wf(),
            match r {
                Ok(p) => spec_remove(old(self).ordering(), photo_id) == Ok::<
                    (Seq<i32>, int),
                    OrderingError,
                >((final(self).ordering(), p as int)),
                Err(e) => {
                    &&& spec_remove(old(self).ordering(), photo_id) == Err::<
                        (Seq<i32>, int),
                        OrderingError,
                    >(e)
                    &&& *final(self) == *old(self)
                },
            },
    {
        proof {
            lemma_ordering_contains(self.rows(), photo_id);
        }
        let ghost s_old = self.rows();
        match self.delete(photo_id) {
            Err(e) => Err(e),
            Ok(p) => {
                let ghost s_mid = self.rows();
                proof {
                    lemma_ordering_index_of(s_old, photo_id);
                    crate::repo::lemma_row_of_photo(s_old, idx_of_photo(s_old, photo_id));
                }
                self.shift_down(p + 1);
                proof {
                    lemma_remove_close(s_old, s_mid, self.rows(), photo_id, p);
                    assert(self.ordering() =~= ordering_of(s_old).remove(p - 1));
                }
                Ok(p)
            },
        }
    }

    /// `MoveMembership`: reposition `photo_id` within the category, with
    /// remove-then-add semantics computed as one atomic step: the photo's
    /// old slot is closed, a slot is opened at `new_position` (which must
    /// lie in `1..=N`; the count is unchanged), and the photo takes it.
    /// Follows `spec_move` exactly; a failed call leaves the category
    /// unchanged.
    pub fn move_membership(&mut self, photo_id: i32, new_position: i32) -> (r: Result<
        (),
        OrderingError,
    >)
        requires
            old(self).wf(),
        ensures
            final(self).wf(),
            match r {
                Ok(()) => spec_move(old(self).ordering(), photo_id, new_position as int) == Ok::<
                    Seq<i32>,
                    OrderingError,
                >(final(self).ordering()),
                Err(e) => {
                    &&& spec_move(old(self).ordering(), photo_id, new_position as int) == Err::<
                        Seq<i32>,
                        OrderingError,
                    >(e)
                    &&& *final(self) == *old(self)
                },
            },
    {
        proof {
            lemma_ordering_contains(self.rows(), photo_id);
        }
        if !self.contains_photo(photo_id) {
            return Err(OrderingError::MembershipNotFound);
        }
        let n = self.count();
        if new_position < 1 || new_position as usize > n {
            return Err(OrderingError::InvalidPosition);
        }
        let ghost s_old = self.rows();
        let ghost order_old = self.ordering();
        proof {
            lemma_ordering_index_of(s_old, photo_id);
        }
        match self.remove_membership(photo_id) {
            Err(_) => {
                proof {
                    assert(false);
                }
                Err(OrderingError::Conflict)
            },
            Ok(removed_pos) => {
                let ghost order_mid = self.ordering();
                proof {
                    assert(order_mid == order_old.remove(order_old.index_of(photo_id)));
                    order_old.remove_ensures(order_old.index_of(photo_id));
                    assert forall|k: int|
                        0 <= k < order_mid.len() implies (#[trigger] order_mid[k]) != photo_id by {
                        let k0 = order_old.index_of(photo_id);
                        if k < k0 {
                            assert(order_mid[k] == order_old[k]);
                        } else {
                            assert(order_mid[k] == order_old[k + 1]);
                        }
                    }
                    assert(!order_mid.contains(photo_id));
                }
                match self.add_membership(photo_id, Some(new_position)) {
                    Err(_) => {
                        proof {
                            assert(false);
                        }
                        Err(OrderingError::Conflict)
                    },
                    Ok(_) => {
                        proof {
                            assert(self.ordering() == order_mid.insert(
                                new_position - 1,
                                photo_id,
                            ));
                        }
                        Ok(())
                    },
                }
            },
        }
    }
}

} // verus!
