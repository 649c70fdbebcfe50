//! Membership repository: the primitive, per-category operations the ordering
//! engine composes. A category's memberships are rows carrying an explicit
//! 1-based `display_order`; the repository offers exactly the reads and bulk
//! writes a relational table would (current max position, position lookup,
//! range shift, insert, delete, ordered listing) and the engine keeps the
//! packed invariant over them: positions of a category are exactly `1..=N`.

use vstd::prelude::*;

verus! {

/// Upper bound on the number of memberships one category can hold, chosen so
/// that every position, and every position shifted up by one, fits in `i32`.
pub const MAX_MEMBERS: usize = 0x7fff_fffe;

/// One membership row of a single category: the photo it links and the
/// 1-based rank the photo is displayed at.
#[derive(Clone, Copy, Debug, PartialEq, Eq, Structural)]
pub struct Membership {
    pub photo_id: i32,
    pub display_order: i32,
}

/// All positions lie in `1..=len`.
pub open spec fn positions_in_range(s: Seq<Membership>) -> bool {
    forall|i: int| 0 <= i < s.len() ==> 1 <= (#[trigger] s[i]).display_order <= s.len()
}

/// No two rows share a position.
pub open spec fn positions_distinct(s: Seq<Membership>) -> bool {
    forall|i: int, j: int|
        0 <= i < s.len() && 0 <= j < s.len() && i != j ==> (#[trigger] s[i]).display_order != (
        #[trigger] s[j]).display_order
}

/// Some row holds position `p`.
pub open spec fn has_position(s: Seq<Membership>, p: int) -> bool {
    exists|i: int| 0 <= i < s.len() && (#[trigger] s[i]).display_order == p
}

/// Every position of `1..=len` is held by some row.
pub open spec fn positions_complete(s: Seq<Membership>) -> bool {
    forall|p: int| 1 <= p <= s.len() ==> #[trigger] has_position(s, p)
}

/// No two rows link the same photo.
pub open spec fn photos_distinct(s: Seq<Membership>) -> bool {
    forall|i: int, j: int|
        0 <= i < s.len() && 0 <= j < s.len() && i != j ==> (#[trigger] s[i]).photo_id != (
        #[trigger] s[j]).photo_id
}

/// Some row links `photo_id`.
pub open spec fn has_photo(s: Seq<Membership>, photo_id: i32) -> bool {
    exists|i: int| 0 <= i < s.len() && (#[trigger] s[i]).photo_id == photo_id
}

/// The index of the row holding position `p` (meaningful when such a row
/// exists and positions are distinct).
pub open spec fn idx_of_pos(s: Seq<Membership>, p: int) -> int {
    choose|i: int| 0 <= i < s.len() && (#[trigger] s[i]).display_order == p
}

/// The photo displayed at position `p`.
pub open spec fn photo_at(s: Seq<Membership>, p: int) -> i32 {
    s[idx_of_pos(s, p)].photo_id
}

/// The index of the row linking `photo_id` (meaningful when such a row exists
/// and photos are distinct).
pub open spec fn idx_of_photo(s: Seq<Membership>, photo_id: i32) -> int {
    choose|i: int| 0 <= i < s.len() && (#[trigger] s[i]).photo_id == photo_id
}

/// The position `photo_id` is displayed at.
pub open spec fn pos_of_photo(s: Seq<Membership>, photo_id: i32) -> int {
    s[idx_of_photo(s, photo_id)].display_order as int
}

/// The rows read as the display sequence: element `k` is the photo shown at
/// position `k + 1`.
pub open spec fn ordering_of(s: Seq<Membership>) -> Seq<i32> {
    Seq::new(s.len(), |k: int| photo_at(s, k + 1))
}

/// When positions are distinct, the row holding a given position is unique,
/// so `photo_at` agrees with any witness row.
pub proof fn lemma_row_at_pos(s: Seq<Membership>, i: int)
    requires
        positions_distinct(s),
        0 <= i < s.len(),
    ensures
        idx_of_pos(s, s[i].display_order as int) == i,
        photo_at(s, s[i].display_order as int) == s[i].photo_id,
{
    let p = s[i].display_order as int;
    assert(has_position(s, p));
    let j = idx_of_pos(s, p);
    assert(0 <= j < s.len() && s[j].display_order == p);
    assert(j == i);
}

/// When photos are distinct, the row linking a given photo is unique, so
/// `pos_of_photo` agrees with any witness row.
pub proof fn lemma_row_of_photo(s: Seq<Membership>, i: int)
    requires
        photos_distinct(s),
        0 <= i < s.len(),
    ensures
        idx_of_photo(s, s[i].photo_id) == i,
        pos_of_photo(s, s[i].photo_id) == s[i].display_order as int,
{
    let pid = s[i].photo_id;
    assert(has_photo(s, pid));
    let j = idx_of_photo(s, pid);
    assert(0 <= j < s.len() && s[j].photo_id == pid);
    assert(j == i);
}

/// The memberships of one category, as a repository over rows with explicit
/// positions. The ordering engine's operations keep `wf`: positions are a
/// packed `1..=N` and no photo appears twice.
pub struct CategoryMemberships {
    rows: Vec<Membership>,
}

impl CategoryMemberships {
    /// The raw rows, for specification purposes.
    pub closed spec fn rows(self) -> Seq<Membership> {
        self.rows@
    }

    /// The packed-sequence invariant of one category: every position in
    /// range, no duplicates, no gaps, and each photo linked at most once.
    pub open spec fn wf(self) -> bool {
        &&& self.rows().len() <= MAX_MEMBERS
        &&& positions_in_range(self.rows())
        &&& positions_distinct(self.rows())
        &&& positions_complete(self.rows())
        &&& photos_distinct(self.rows())
    }

    /// The display sequence of the category: element `k` is the photo at
    /// position `k + 1`.
    pub open spec fn ordering(self) -> Seq<i32> {
        ordering_of(self.rows())
    }

    /// An empty category.
    pub fn new() -> (r: Self)
        ensures
            r.wf(),
            r.rows().len() == 0,
            r.ordering() == Seq::<i32>::empty(),
    {
        let r = CategoryMemberships { rows: Vec::new() };
        proof {
            assert(r.ordering() =~= Seq::<i32>::empty());
        }
        r
    }

    /// Number of memberships in the category.
    pub fn count(&self) -> (n: usize)
        ensures
            n == self.rows().len(),
    {
        self.rows.len()
    }

    /// Highest `display_order` in the category, or none when it is empty.
    /// On a packed category this is exactly the membership count.
    pub fn max_position(&self) -> (r: Option<i32>)
        requires
            self.wf(),
        ensures
            self.rows().len() == 0 ==> r is None,
            self.rows().len() > 0 ==> r == Some(self.rows().len() as i32),
    {
        let n = self.rows.len();
        if n == 0 {
            return None;
        }
        let mut m: i32 = 0;
        let mut k: usize = 0;
        while k < n
            invariant
                self.wf(),
                n == self.rows().len(),
                0 < n <= MAX_MEMBERS,
                0 <= k <= n,
                0 <= m <= n,
                forall|j: int| 0 <= j < k ==> (#[trigger] self.rows()[j]).display_order <= m,
                m > 0 ==> exists|j: int|
                    0 <= j < k && (#[trigger] self.rows()[j]).display_order == m,
                k == 0 ==> m == 0,
            decreases n - k,
        {
            if self.rows[k].display_order > m {
                m = self.rows[k].display_order;
            }
            k += 1;
        }
        proof {
            assert(has_position(self.rows(), n as int));
            let i = idx_of_pos(self.rows(), n as int);
            assert(self.rows()[i].display_order <= m);
        }
        Some(m)
    }

    /// Whether some membership of the category holds `position`.
    pub fn position_exists(&self, position: i32) -> (r: bool)
        ensures
            r == has_position(self.rows(), position as int),
    {
        let n = self.rows.len();
        let mut k: usize = 0;
        while k < n
            invariant
                n == self.rows().len(),
                0 <= k <= n,
                forall|j: int| 0 <= j < k ==> (#[trigger] self.rows()[j]).display_order != position,
            decreases n - k,
        {
            if self.rows[k].display_order == position {
                return true;
            }
            k += 1;
        }
        false
    }

    /// Whether the category links `photo_id`.
    pub fn contains_photo(&self, photo_id: i32) -> (r: bool)
        ensures
            r == has_photo(self.rows(), photo_id),
    {
        let n = self.rows.len();
        let mut k: usize = 0;
        while k < n
            invariant
                n == self.rows().len(),
                0 <= k <= n,
                forall|j: int| 0 <= j < k ==> (#[trigger] self.rows()[j]).photo_id != photo_id,
            decreases n - k,
        {
            if self.rows[k].photo_id == photo_id {
                return true;
            }
            k += 1;
        }
        false
    }

    /// Bulk update opening a slot: every membership at or after `from` moves
    /// up by one, as one statement over the whole range.
    pub fn shift_up(&mut self, from: i32)
        requires
            forall|i: int|
                0 <= i < old(self).rows().len() ==> (#[trigger] old(self).rows()[i]).display_order
                    < 0x7fff_ffff,
        ensures
            final(self).rows().len() == old(self).rows().len(),
            forall|i: int|
                0 <= i < old(self).rows().len() ==> {
                    let r0 = old(self).rows()[i];
                    let r1 = (#[trigger] final(self).rows()[i]);
                    r1.photo_id == r0.photo_id && r1.display_order == if r0.display_order >= from {
                        r0.display_order + 1
                    } else {
                        r0.display_order as int
                    }
                },
    {
        let n = self.rows.len();
        let mut k: usize = 0;
        while k < n
            invariant
                n == self.rows().len(),
                n == old(self).rows().len(),
                0 <= k <= n,
                forall|i: int|
                    0 <= i < old(self).rows().len() ==> (#[trigger] old(
                        self,
                    ).rows()[i]).display_order < 0x7fff_ffff,
                forall|i: int|
                    k <= i < n ==> (#[trigger] self.rows()[i]) == old(self).rows()[i],
                forall|i: int|
                    0 <= i < k ==> {
                        let r0 = old(self).rows()[i];
                        let r1 = (#[trigger] self.rows()[i]);
                        r1.photo_id == r0.photo_id && r1.display_order == if r0.display_order
                            >= from {
                            r0.display_order + 1
                        } else {
                            r0.display_order as int
                        }
                    },
            decreases n - k,
        {
            let m = self.rows[k];
            if m.display_order >= from {
                self.rows.set(
                    k,
                    Membership { photo_id: m.photo_id, display_order: m.display_order + 1 },
                );
            }
            k += 1;
        }
    }

    /// Bulk update closing a slot: every membership at or after `from` moves
    /// down by one.
    pub fn shift_down(&mut self, from: i32)
        requires
            from >= 1,
        ensures
            final(self).rows().len() == old(self).rows().len(),
            forall|i: int|
                0 <= i < old(self).rows().len() ==> {
                    let r0 = old(self).rows()[i];
                    let r1 = (#[trigger] final(self).rows()[i]);
                    r1.photo_id == r0.photo_id && r1.display_order == if r0.display_order >= from {
                        r0.display_order - 1
                    } else {
                        r0.display_order as int
                    }
                },
    {
        let n = self.rows.len();
        let mut k: usize = 0;
        while k < n
            invariant
                from >= 1,
                n == self.rows().len(),
                n == old(self).rows().len(),
                0 <= k <= n,
                forall|i: int|
                    k <= i < n ==> (#[trigger] self.rows()[i]) == old(self).rows()[i],
                forall|i: int|
                    0 <= i < k ==> {
                        let r0 = old(self).rows()[i];
                        let r1 = (#[trigger] self.rows()[i]);
                        r1.photo_id == r0.photo_id && r1.display_order == if r0.display_order
                            >= from {
                            r0.display_order - 1
                        } else {
                            r0.display_order as int
                        }
                    },
            decreases n - k,
        {
            let m = self.rows[k];
            if m.display_order >= from {
                self.rows.set(
                    k,
                    Membership { photo_id: m.photo_id, display_order: m.display_order - 1 },
                );
            }
            k += 1;
        }
    }

    /// Insert a membership row at an explicit position. Fails when the photo
    /// is already a member; does not touch other rows.
    pub fn insert(&mut self, photo_id: i32, position: i32) -> (r: Result<(), OrderingError>)
        ensures
            match r {
                Ok(()) => !has_photo(old(self).rows(), photo_id) && final(self).rows() == old(
                    self,
                ).rows().push(Membership { photo_id, display_order: position }),
                Err(e) => e == OrderingError::DuplicateMembership && has_photo(
                    old(self).rows(),
                    photo_id,
                ) && *final(self) == *old(self),
            },
    {
        if self.contains_photo(photo_id) {
            return Err(OrderingError::DuplicateMembership);
        }
        self.rows.push(Membership { photo_id, display_order: position });
        Ok(())
    }

    /// Delete the membership row of `photo_id`, returning the position it
    /// held; fails when the photo is not a member. Does not close the gap.
    pub fn delete(&mut self, photo_id: i32) -> (r: Result<i32, OrderingError>)
        requires
            photos_distinct(old(self).rows()),
        ensures
            match r {
                Ok(p) => {
                    &&& has_photo(old(self).rows(), photo_id)
                    &&& p as int == pos_of_photo(old(self).rows(), photo_id)
                    &&& final(self).rows() == old(self).rows().remove(
                        idx_of_photo(old(self).rows(), photo_id),
                    )
                },
                Err(e) => e == OrderingError::MembershipNotFound && !has_photo(
                    old(self).rows(),
                    photo_id,
                ) && *final(self) == *old(self),
            },
    {
        let n = self.rows.len();
        let mut k: usize = 0;
        while k < n
            invariant
                *self == *old(self),
                photos_distinct(self.rows()),
                n == self.rows().len(),
                0 <= k <= n,
                forall|j: int| 0 <= j < k ==> (#[trigger] self.rows()[j]).photo_id != photo_id,
            decreases n - k,
        {
            if self.rows[k].photo_id == photo_id {
                let p = self.rows[k].display_order;
                proof {
                    lemma_row_of_photo(self.rows(), k as int);
                }
                self.rows.remove(k);
                return Ok(p);
            }
            k += 1;
        }
        Err(OrderingError::MembershipNotFound)
    }

    /// The photo displayed at `position` (which must be held by some row).
    pub fn photo_at_position(&self, position: i32) -> (r: i32)
        requires
            positions_distinct(self.rows()),
            has_position(self.rows(), position as int),
        ensures
            r == photo_at(self.rows(), position as int),
    {
        let n = self.rows.len();
        let mut k: usize = 0;
        while k < n
            invariant
                positions_distinct(self.rows()),
                has_position(self.rows(), position as int),
                n == self.rows().len(),
                0 <= k <= n,
                forall|j: int| 0 <= j < k ==> (#[trigger] self.rows()[j]).display_order != position,
            decreases n - k,
        {
            if self.rows[k].display_order == position {
                proof {
                    lemma_row_at_pos(self.rows(), k as int);
                }
                return self.rows[k].photo_id;
            }
            k += 1;
        }
        proof {
            let i = idx_of_pos(self.rows(), position as int);
            assert(self.rows()[i].display_order == position);
            assert(false);
        }
        0
    }

    /// The packed sequence of the category: `(photo_id, position)` pairs in
    /// ascending position order, positions running `1..=N`.
    pub fn list_ordered(&self) -> (r: Vec<(i32, i32)>)
        requires
            self.wf(),
        ensures
            r@.len() == self.ordering().len(),
            forall|k: int|
                0 <= k < r@.len() ==> (#[trigger] r@[k]).0 == self.ordering()[k] && r@[k].1 == k
                    + 1,
    {
        let n = self.rows.len();
        let mut r: Vec<(i32, i32)> = Vec::new();
        let mut p: usize = 0;
        while p < n
            invariant
                self.wf(),
                n == self.rows().len(),
                0 <= p <= n,
                r@.len() == p,
                forall|k: int|
                    0 <= k < p ==> (#[trigger] r@[k]).0 == self.ordering()[k] && r@[k].1 == k + 1,
            decreases n - p,
        {
            let pos: i32 = (p + 1) as i32;
            proof {
                assert(has_position(self.rows(), pos as int));
            }
            let photo = self.photo_at_position(pos);
            r.push((photo, pos));
            p += 1;
        }
        r
    }
}

/// The failure taxonomy of the ordering engine: absent entities, duplicate
/// or missing memberships, out-of-range positions, write conflicts between
/// concurrent transactions, and an unreachable store.
#[derive(Clone, Copy, Debug, PartialEq, Eq, Structural)]
pub enum OrderingError {
    CategoryNotFound,
    PhotoNotFound,
    DuplicateMembership,
    MembershipNotFound,
    InvalidPosition,
    Conflict,
    StoreUnavailable,
}

} // verus!
