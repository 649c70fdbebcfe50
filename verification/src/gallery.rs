//! The gallery store: photos, categories and per-category memberships under
//! one roof, with the ordering engine's operations exposed per category and
//! the entity operations (create, read, update, delete with cascade) around
//! them. An in-memory, fully verified implementation of the persistence
//! gateway the service is built on.

use vstd::prelude::*;

use crate::engine::lemma_ordering_contains;
use crate::models::{Category, CategoryPhotos, Date, Photo};
use crate::order::{req_view, spec_add, spec_move, spec_remove};
use crate::repo::{has_photo, CategoryMemberships, OrderingError, MAX_MEMBERS};

verus! {

/// A mutable borrow of one category entry of the store's vector.
fn entry_mut(v: &mut Vec<CategoryEntry>, i: usize) -> (r: &mut CategoryEntry)
    requires
        i < old(v).len(),
    ensures
        *r == old(v)@[i as int],
        final(v)@ == old(v)@.update(i as int, *final(r)),
{
    &mut v[i]
}

/// The result of replacing, in `p`, each field a given update carries.
pub open spec fn spec_merged(
    p: Photo,
    title: Option<String>,
    filename: Option<String>,
    location_taken: Option<String>,
    date_taken: Option<Date>,
) -> Photo {
    Photo {
        id: p.id,
        title: match title {
            Option::Some(t) => t,
            Option::None => p.title,
        },
        filename: match filename {
            Option::Some(f) => f,
            Option::None => p.filename,
        },
        location_taken: match location_taken {
            Option::Some(l) => l,
            Option::None => p.location_taken,
        },
        date_taken: match date_taken {
            Option::Some(d) => d,
            Option::None => p.date_taken,
        },
        created_at: p.created_at,
        updated_at: p.updated_at,
    }
}

/// A category with the memberships that order its photos.
pub struct CategoryEntry {
    pub category: Category,
    pub members: CategoryMemberships,
}

/// The in-memory store. Surrogate keys are handed out by monotone counters,
/// and a logical clock stands in for creation/update instants.
pub struct PhotoRepository {
    photos: Vec<Photo>,
    categories: Vec<CategoryEntry>,
    next_photo_id: i32,
    next_category_id: i32,
    clock: i64,
}

impl PhotoRepository {
    /// The stored photos, for specification purposes.
    pub closed spec fn photos_view(self) -> Seq<Photo> {
        self.photos@
    }

    /// The stored categories with their memberships, for specification
    /// purposes.
    pub closed spec fn categories_view(self) -> Seq<CategoryEntry> {
        self.categories@
    }

    /// The next photo surrogate key.
    pub closed spec fn next_photo_id_spec(self) -> int {
        self.next_photo_id as int
    }

    /// The next category surrogate key.
    pub closed spec fn next_category_id_spec(self) -> int {
        self.next_category_id as int
    }

    /// The logical instant of the next write.
    pub closed spec fn clock_spec(self) -> int {
        self.clock as int
    }

    /// Some stored photo has key `id`.
    pub open spec fn has_photo_id(self, id: i32) -> bool {
        exists|i: int| 0 <= i < self.photos_view().len() && (#[trigger] self.photos_view()[i]).id
            == id
    }

    /// The index of the photo with key `id`.
    pub open spec fn photo_idx(self, id: i32) -> int {
        choose|i: int| 0 <= i < self.photos_view().len() && (#[trigger] self.photos_view()[i]).id
            == id
    }

    /// The stored photo with key `id`.
    pub open spec fn spec_photo(self, id: i32) -> Photo {
        self.photos_view()[self.photo_idx(id)]
    }

    /// Some stored category has key `id`.
    pub open spec fn has_category_id(self, id: i32) -> bool {
        exists|c: int|
            0 <= c < self.categories_view().len() && (#[trigger] self.categories_view()[
                c
            ]).category.id == id
    }

    /// The index of the category with key `id`.
    pub open spec fn category_idx(self, id: i32) -> int {
        choose|c: int|
            0 <= c < self.categories_view().len() && (#[trigger] self.categories_view()[
                c
            ]).category.id == id
    }

    /// The stored category with key `id`.
    pub open spec fn spec_category(self, id: i32) -> Category {
        self.categories_view()[self.category_idx(id)].category
    }

    /// The display sequence of the category with key `id` (empty when no
    /// such category is stored).
    pub open spec fn category_order(self, id: i32) -> Seq<i32> {
        if self.has_category_id(id) {
            self.categories_view()[self.category_idx(id)].members.ordering()
        } else {
            Seq::empty()
        }
    }

    /// Invariant of the store: keys are unique and below the counters, each
    /// category's memberships are well formed, every membership references a
    /// stored photo, and the clock is bounded by the writes performed.
    pub open spec fn wf(self) -> bool {
        &&& 1 <= self.next_photo_id_spec() <= 0x7fff_ffff
        &&& 1 <= self.next_category_id_spec() <= 0x7fff_ffff
        &&& 0 <= self.clock_spec() <= self.next_photo_id_spec() - 1 + self.next_category_id_spec()
            - 1
        &&& forall|i: int|
            0 <= i < self.photos_view().len() ==> 1 <= (#[trigger] self.photos_view()[i]).id
                < self.next_photo_id_spec()
        &&& forall|i: int, j: int|
            0 <= i < self.photos_view().len() && 0 <= j < self.photos_view().len() && i != j ==> (
            #[trigger] self.photos_view()[i]).id != (#[trigger] self.photos_view()[j]).id
        &&& forall|c: int|
            0 <= c < self.categories_view().len() ==> 1 <= (#[trigger] self.categories_view()[
                c
            ]).category.id < self.next_category_id_spec()
        &&& forall|c: int, d: int|
            0 <= c < self.categories_view().len() && 0 <= d < self.categories_view().len() && c
                != d ==> (#[trigger] self.categories_view()[c]).category.id != (
            #[trigger] self.categories_view()[d]).category.id
        &&& forall|c: int|
            0 <= c < self.categories_view().len() ==> (#[trigger] self.categories_view()[
                c
            ]).members.wf()
        &&& forall|c: int, k: int|
            0 <= c < self.categories_view().len() && 0 <= k < self.categories_view()[
                c
            ].members.rows().len() ==> self.has_photo_id(
                (#[trigger] self.categories_view()[c].members.rows()[k]).photo_id,
            )
    }

    /// Photo keys are unique, so the index of a stored photo's key is that
    /// photo's index.
    pub proof fn lemma_photo_idx(self, i: int)
        requires
            self.wf(),
            0 <= i < self.photos_view().len(),
        ensures
            self.has_photo_id(self.photos_view()[i].id),
            self.photo_idx(self.photos_view()[i].id) == i,
    {
        let id = self.photos_view()[i].id;
        assert(self.has_photo_id(id));
        let j = self.photo_idx(id);
        assert(0 <= j < self.photos_view().len() && self.photos_view()[j].id == id);
        assert(j == i);
    }

    /// Category keys are unique, so the index of a stored category's key is
    /// that category's index.
    pub proof fn lemma_category_idx(self, c: int)
        requires
            self.wf(),
            0 <= c < self.categories_view().len(),
        ensures
            self.has_category_id(self.categories_view()[c].category.id),
            self.category_idx(self.categories_view()[c].category.id) == c,
    {
        let id = self.categories_view()[c].category.id;
        assert(self.has_category_id(id));
        let d = self.category_idx(id);
        assert(0 <= d < self.categories_view().len() && self.categories_view()[d].category.id
            == id);
        assert(d == c);
    }

    /// The store invariant survives replacing one category's memberships,
    /// provided the new memberships are well formed and link only photos
    /// that were linked before or the one photo the operation concerned
    /// (itself a stored photo).
    proof fn lemma_wf_after_entry_update(s0: Self, s1: Self, ci: int, photo_id: i32)
        requires
            s0.wf(),
            s1.photos_view() == s0.photos_view(),
            s1.next_photo_id_spec() == s0.next_photo_id_spec(),
            s1.next_category_id_spec() == s0.next_category_id_spec(),
            s1.clock_spec() == s0.clock_spec(),
            s1.categories_view().len() == s0.categories_view().len(),
            0 <= ci < s0.categories_view().len(),
            forall|c: int|
                0 <= c < s0.categories_view().len() && c != ci ==> (#[trigger] s1.categories_view()[
                    c
                ]) == s0.categories_view()[c],
            s1.categories_view()[ci].category == s0.categories_view()[ci].category,
            s1.categories_view()[ci].members.wf(),
            forall|q: int|
                0 <= q < s1.categories_view()[ci].members.ordering().len() ==> ((
                #[trigger] s1.categories_view()[ci].members.ordering()[q]) == photo_id
                    && s0.has_photo_id(photo_id)) || s0.categories_view()[
                    ci
                ].members.ordering().contains(s1.categories_view()[ci].members.ordering()[q]),
        ensures
            s1.wf(),
    {
        assert forall|c: int|
            0 <= c < s1.categories_view().len() implies (#[trigger] s1.categories_view()[
            c
        ]).category == s0.categories_view()[c].category by {
            if c != ci {
                assert(s1.categories_view()[c] == s0.categories_view()[c]);
            }
        }
        assert forall|c: int|
            0 <= c < s1.categories_view().len() implies (#[trigger] s1.categories_view()[
            c
        ]).members.wf() by {
            if c != ci {
                assert(s1.categories_view()[c] == s0.categories_view()[c]);
            }
        }
        assert forall|c: int, k: int|
            0 <= c < s1.categories_view().len() && 0 <= k < s1.categories_view()[
                c
            ].members.rows().len() implies s1.has_photo_id(
            (#[trigger] s1.categories_view()[c].members.rows()[k]).photo_id,
        ) by {
            let pid = s1.categories_view()[c].members.rows()[k].photo_id;
            if c != ci {
                assert(s1.categories_view()[c] == s0.categories_view()[c]);
                assert((s0.categories_view()[c].members.rows()[k]).photo_id == pid);
                assert(s0.has_photo_id(pid));
            } else {
                let m = s1.categories_view()[ci].members;
                lemma_ordering_contains(m.rows(), pid);
                assert(m.ordering().contains(pid));
                let q = choose|q: int| 0 <= q < m.ordering().len() && m.ordering()[q] == pid;
                assert(m.ordering()[q] == pid);
                if m.ordering()[q] == photo_id && s0.has_photo_id(photo_id) {
                    assert(s0.has_photo_id(pid));
                } else {
                    let o0 = s0.categories_view()[ci].members.ordering();
                    assert(o0.contains(pid));
                    lemma_ordering_contains(s0.categories_view()[ci].members.rows(), pid);
                    assert(has_photo(s0.categories_view()[ci].members.rows(), pid));
                    let i = choose|i: int|
                        0 <= i < s0.categories_view()[ci].members.rows().len() && (
                        #[trigger] s0.categories_view()[ci].members.rows()[i]).photo_id == pid;
                    assert((s0.categories_view()[ci].members.rows()[i]).photo_id == pid);
                    assert(s0.has_photo_id(pid));
                }
            }
            let j = s0.photo_idx(pid);
            assert(s1.photos_view()[j].id == pid);
        }
    }

    /// Law: in a well-formed store — and every operation leaves the store
    /// well formed — the display positions of every category are exactly
    /// the packed range `1..=N`, `N` its membership count, with no
    /// duplicates and no gaps.
    pub proof fn lemma_all_categories_packed(self)
        requires
            self.wf(),
        ensures
            forall|c: int, p: int|
                0 <= c < self.categories_view().len() ==> (#[trigger] crate::repo::has_position(
                    self.categories_view()[c].members.rows(),
                    p,
                ) <==> 1 <= p <= self.categories_view()[c].members.rows().len()),
    {
        assert forall|c: int, p: int|
            0 <= c < self.categories_view().len() implies (#[trigger] crate::repo::has_position(
            self.categories_view()[c].members.rows(),
            p,
        ) <==> 1 <= p <= self.categories_view()[c].members.rows().len()) by {
            crate::engine::lemma_packed_positions(self.categories_view()[c].members);
        }
    }

    /// An empty store.
    pub fn new() -> (r: Self)
        ensures
            r.wf(),
            r.photos_view() == Seq::<Photo>::empty(),
            r.categories_view() == Seq::<CategoryEntry>::empty(),
            r.next_photo_id_spec() == 1,
            r.next_category_id_spec() == 1,
            r.clock_spec() == 0,
    {
        let r = PhotoRepository {
            photos: Vec::new(),
            categories: Vec::new(),
            next_photo_id: 1,
            next_category_id: 1,
            clock: 0,
        };
        proof {
            assert(r.photos_view() =~= Seq::<Photo>::empty());
            assert(r.categories_view() =~= Seq::<CategoryEntry>::empty());
        }
        r
    }

    /// The index of the stored photo with key `id`, if any.
    fn find_photo(&self, id: i32) -> (r: Option<usize>)
        requires
            self.wf(),
        ensures
            match r {
                Some(i) => self.has_photo_id(id) && i as int == self.photo_idx(id)
                    && self.photos_view()[i as int].id == id,
                None => !self.has_photo_id(id),
            },
    {
        let n = self.photos.len();
        let mut k: usize = 0;
        while k < n
            invariant
                self.wf(),
                n == self.photos_view().len(),
                0 <= k <= n,
                forall|j: int| 0 <= j < k ==> (#[trigger] self.photos_view()[j]).id != id,
            decreases n - k,
        {
            if self.photos[k].id == id {
                proof {
                    self.lemma_photo_idx(k as int);
                }
                return Some(k);
            }
            k += 1;
        }
        None
    }

    /// The index of the stored category with key `id`, if any.
    fn find_category(&self, id: i32) -> (r: Option<usize>)
        requires
            self.wf(),
        ensures
            match r {
                Some(c) => self.has_category_id(id) && c as int == self.category_idx(id)
                    && self.categories_view()[c as int].category.id == id,
                None => !self.has_category_id(id),
            },
    {
        let n = self.categories.len();
        let mut k: usize = 0;
        while k < n
            invariant
                self.wf(),
                n == self.categories_view().len(),
                0 <= k <= n,
                forall|j: int|
                    0 <= j < k ==> (#[trigger] self.categories_view()[j]).category.id != id,
            decreases n - k,
        {
            if self.categories[k].category.id == id {
                proof {
                    self.lemma_category_idx(k as int);
                }
                return Some(k);
            }
            k += 1;
        }
        None
    }

    /// Store a new photo under a fresh surrogate key, stamped with the
    /// current logical instant. Always succeeds.
    pub fn add_photo(
        &mut self,
        title: String,
        filename: String,
        location_taken: String,
        date_taken: Date,
    ) -> (r: Result<Photo, OrderingError>)
        requires
            old(self).wf(),
            old(self).next_photo_id_spec() < 0x7fff_ffff,
        ensures
            final(self).wf(),
            r is Ok,
            ({
                let p = r->Ok_0;
                &&& p.id as int == old(self).next_photo_id_spec()
                &&& p.title == title
                &&& p.filename == filename
                &&& p.location_taken == location_taken
                &&& p.date_taken == date_taken
                &&& p.created_at as int == old(self).clock_spec()
                &&& p.updated_at as int == old(self).clock_spec()
                &&& final(self).photos_view() == old(self).photos_view().push(p)
                &&& final(self).categories_view() == old(self).categories_view()
                &&& final(self).next_photo_id_spec() == old(self).next_photo_id_spec() + 1
                &&& final(self).next_category_id_spec() == old(self).next_category_id_spec()
            }),
    {
        let p = Photo {
            id: self.next_photo_id,
            title,
            filename,
            location_taken,
            date_taken,
            created_at: self.clock,
            updated_at: self.clock,
        };
        let ret = p.duplicate();
        self.photos.push(p);
        self.next_photo_id = self.next_photo_id + 1;
        self.clock = self.clock + 1;
        proof {
            let n0 = old(self).photos_view().len() as int;
            assert forall|i: int|
                0 <= i < self.photos_view().len() implies 1 <= (#[trigger] self.photos_view()[
                i
            ]).id < self.next_photo_id_spec() by {
                if i < n0 {
                    assert(self.photos_view()[i] == old(self).photos_view()[i]);
                }
            }
            assert forall|i: int, j: int|
                0 <= i < self.photos_view().len() && 0 <= j < self.photos_view().len() && i
                    != j implies (#[trigger] self.photos_view()[i]).id != (
            #[trigger] self.photos_view()[j]).id by {
                if i < n0 && j < n0 {
                    assert(self.photos_view()[i] == old(self).photos_view()[i]);
                    assert(self.photos_view()[j] == old(self).photos_view()[j]);
                } else if i < n0 {
                    assert(self.photos_view()[i] == old(self).photos_view()[i]);
                    assert(old(self).photos_view()[i].id < old(self).next_photo_id_spec());
                } else if j < n0 {
                    assert(self.photos_view()[j] == old(self).photos_view()[j]);
                    assert(old(self).photos_view()[j].id < old(self).next_photo_id_spec());
                }
            }
            assert forall|c: int, k: int|
                0 <= c < self.categories_view().len() && 0 <= k < self.categories_view()[
                    c
                ].members.rows().len() implies self.has_photo_id(
                (#[trigger] self.categories_view()[c].members.rows()[k]).photo_id,
            ) by {
                let pid = self.categories_view()[c].members.rows()[k].photo_id;
                assert((old(self).categories_view()[c].members.rows()[k]).photo_id == pid);
                assert(old(self).has_photo_id(pid));
                let i = old(self).photo_idx(pid);
                assert(self.photos_view()[i].id == pid);
            }
        }
        Ok(ret)
    }

    /// Read the photo stored under `id`; `PhotoNotFound` when there is
    /// none.
    pub fn get_photo(&self, id: i32) -> (r: Result<Photo, OrderingError>)
        requires
            self.wf(),
        ensures
            match r {
                Ok(p) => self.has_photo_id(id) && p == self.spec_photo(id),
                Err(e) => e == OrderingError::PhotoNotFound && !self.has_photo_id(id),
            },
    {
        match self.find_photo(id) {
            Some(i) => Ok(self.photos[i].duplicate()),
            None => Err(OrderingError::PhotoNotFound),
        }
    }

    /// Update the photo stored under `id`, replacing exactly the fields the
    /// call carries and keeping the others; `PhotoNotFound` when there is
    /// none.
    pub fn update_photo(
        &mut self,
        id: i32,
        title: Option<String>,
        filename: Option<String>,
        location_taken: Option<String>,
        date_taken: Option<Date>,
    ) -> (r: Result<Photo, OrderingError>)
        requires
            old(self).wf(),
        ensures
            final(self).wf(),
            match r {
                Ok(p) => {
                    &&& old(self).has_photo_id(id)
                    &&& p == spec_merged(
                        old(self).spec_photo(id),
                        title,
                        filename,
                        location_taken,
                        date_taken,
                    )
                    &&& final(self).photos_view() == old(self).photos_view().update(
                        old(self).photo_idx(id),
                        p,
                    )
                    &&& final(self).categories_view() == old(self).categories_view()
                    &&& final(self).next_photo_id_spec() == old(self).next_photo_id_spec()
                    &&& final(self).next_category_id_spec() == old(self).next_category_id_spec()
                    &&& final(self).clock_spec() == old(self).clock_spec()
                },
                Err(e) => {
                    &&& e == OrderingError::PhotoNotFound
                    &&& !old(self).has_photo_id(id)
                    &&& *final(self) == *old(self)
                },
            },
    {
        match self.find_photo(id) {
            None => Err(OrderingError::PhotoNotFound),
            Some(i) => {
                let stored = self.photos[i].duplicate();
                let merged = Photo {
                    id: stored.id,
                    title: match title {
                        Some(t) => t,
                        None => stored.title,
                    },
                    filename: match filename {
                        Some(f) => f,
                        None => stored.filename,
                    },
                    location_taken: match location_taken {
                        Some(l) => l,
                        None => stored.location_taken,
                    },
                    date_taken: match date_taken {
                        Some(d) => d,
                        None => stored.date_taken,
                    },
                    created_at: stored.created_at,
                    updated_at: stored.updated_at,
                };
                let ret = merged.duplicate();
                self.photos.set(i, merged);
                proof {
                    assert forall|c: int, k: int|
                        0 <= c < self.categories_view().len() && 0 <= k < self.categories_view()[
                            c
                        ].members.rows().len() implies self.has_photo_id(
                        (#[trigger] self.categories_view()[c].members.rows()[k]).photo_id,
                    ) by {
                        let pid = self.categories_view()[c].members.rows()[k].photo_id;
                        assert((old(self).categories_view()[c].members.rows()[k]).photo_id
                            == pid);
                        assert(old(self).has_photo_id(pid));
                        let j = old(self).photo_idx(pid);
                        assert(self.photos_view()[j].id == pid);
                    }
                }
                Ok(ret)
            },
        }
    }

    /// Store a new, empty category under a fresh surrogate key, stamped
    /// with the current logical instant. Always succeeds.
    pub fn add_category(&mut self, name: String) -> (r: Result<Category, OrderingError>)
        requires
            old(self).wf(),
            old(self).next_category_id_spec() < 0x7fff_ffff,
        ensures
            final(self).wf(),
            r is Ok,
            ({
                let c = r->Ok_0;
                &&& c.id as int == old(self).next_category_id_spec()
                &&& c.name == name
                &&& c.created_at as int == old(self).clock_spec()
                &&& c.updated_at as int == old(self).clock_spec()
                &&& final(self).photos_view() == old(self).photos_view()
                &&& final(self).categories_view().len() == old(self).categories_view().len() + 1
                &&& forall|d: int|
                    0 <= d < old(self).categories_view().len()
                        ==> (#[trigger] final(self).categories_view()[d]) == old(
                        self,
                    ).categories_view()[d]
                &&& final(self).categories_view().last().category == c
                &&& final(self).categories_view().last().members.ordering() == Seq::<i32>::empty()
                &&& final(self).categories_view().last().members.rows().len() == 0
                &&& final(self).next_photo_id_spec() == old(self).next_photo_id_spec()
                &&& final(self).next_category_id_spec() == old(self).next_category_id_spec() + 1
            }),
    {
        let c = Category {
            id: self.next_category_id,
            name,
            created_at: self.clock,
            updated_at: self.clock,
        };
        let ret = c.duplicate();
        self.categories.push(CategoryEntry { category: c, members: CategoryMemberships::new() });
        self.next_category_id = self.next_category_id + 1;
        self.clock = self.clock + 1;
        proof {
            assert forall|c2: int, k: int|
                0 <= c2 < self.categories_view().len() && 0 <= k < self.categories_view()[
                    c2
                ].members.rows().len() implies self.has_photo_id(
                (#[trigger] self.categories_view()[c2].members.rows()[k]).photo_id,
            ) by {
                assert(c2 < old(self).categories_view().len());
                let pid = self.categories_view()[c2].members.rows()[k].photo_id;
                assert((old(self).categories_view()[c2].members.rows()[k]).photo_id == pid);
                assert(old(self).has_photo_id(pid));
                let j = old(self).photo_idx(pid);
                assert(self.photos_view()[j].id == pid);
            }
        }
        Ok(ret)
    }

    /// All stored categories. Always succeeds.
    pub fn get_categories(&self) -> (r: Result<Vec<Category>, OrderingError>)
        requires
            self.wf(),
        ensures
            r is Ok,
            r->Ok_0@.len() == self.categories_view().len(),
            forall|c: int|
                0 <= c < self.categories_view().len() ==> (#[trigger] r->Ok_0@[c]) == self.categories_view()[
                    c
                ].category,
    {
        let n = self.categories.len();
        let mut v: Vec<Category> = Vec::new();
        let mut k: usize = 0;
        while k < n
            invariant
                self.wf(),
                n == self.categories_view().len(),
                0 <= k <= n,
                v@.len() == k,
                forall|c: int|
                    0 <= c < k ==> (#[trigger] v@[c]) == self.categories_view()[c].category,
            decreases n - k,
        {
            v.push(self.categories[k].category.duplicate());
            k += 1;
        }
        Ok(v)
    }

    /// All stored photos. Always succeeds.
    pub fn get_photos(&self) -> (r: Result<Vec<Photo>, OrderingError>)
        requires
            self.wf(),
        ensures
            r is Ok,
            r->Ok_0@ == self.photos_view(),
    {
        let n = self.photos.len();
        let mut v: Vec<Photo> = Vec::new();
        let mut k: usize = 0;
        while k < n
            invariant
                self.wf(),
                n == self.photos_view().len(),
                0 <= k <= n,
                v@.len() == k,
                forall|j: int| 0 <= j < k ==> (#[trigger] v@[j]) == self.photos_view()[j],
            decreases n - k,
        {
            v.push(self.photos[k].duplicate());
            k += 1;
        }
        proof {
            assert(v@ =~= self.photos_view());
        }
        Ok(v)
    }

    /// Delete the category stored under `id`, its memberships going with
    /// it. Succeeds whether or not the category was stored.
    pub fn delete_category(&mut self, id: i32) -> (r: Result<(), OrderingError>)
        requires
            old(self).wf(),
        ensures
            final(self).wf(),
            r is Ok,
            final(self).photos_view() == old(self).photos_view(),
            final(self).next_photo_id_spec() == old(self).next_photo_id_spec(),
            final(self).next_category_id_spec() == old(self).next_category_id_spec(),
            final(self).clock_spec() == old(self).clock_spec(),
            old(self).has_category_id(id) ==> final(self).categories_view() == old(
                self,
            ).categories_view().remove(old(self).category_idx(id)),
            !old(self).has_category_id(id) ==> *final(self) == *old(self),
    {
        match self.find_category(id) {
            None => Ok(()),
            Some(ci) => {
                proof {
                    old(self).categories_view().remove_ensures(ci as int);
                }
                self.categories.remove(ci);
                proof {
                    assert forall|c2: int, k: int|
                        0 <= c2 < self.categories_view().len() && 0 <= k < self.categories_view()[
                            c2
                        ].members.rows().len() implies self.has_photo_id(
                        (#[trigger] self.categories_view()[c2].members.rows()[k]).photo_id,
                    ) by {
                        let oc = if c2 < ci {
                            c2
                        } else {
                            c2 + 1
                        };
                        assert(self.categories_view()[c2] == old(self).categories_view()[oc]);
                        let pid = self.categories_view()[c2].members.rows()[k].photo_id;
                        assert((old(self).categories_view()[oc].members.rows()[k]).photo_id
                            == pid);
                        assert(old(self).has_photo_id(pid));
                        let j = old(self).photo_idx(pid);
                        assert(self.photos_view()[j].id == pid);
                    }
                }
                Ok(())
            },
        }
    }

    /// Everything but the target category's memberships is unchanged, and
    /// the target category's metadata is kept too.
    pub open spec fn only_order_changed(pre: Self, post: Self, category_id: i32) -> bool {
        &&& post.photos_view() == pre.photos_view()
        &&& post.categories_view().len() == pre.categories_view().len()
        &&& forall|c: int|
            0 <= c < pre.categories_view().len() ==> (#[trigger] post.categories_view()[
                c
            ]).category == pre.categories_view()[c].category
        &&& forall|c: int|
            0 <= c < pre.categories_view().len() && c != pre.category_idx(category_id) ==> (
            #[trigger] post.categories_view()[c]) == pre.categories_view()[c]
        &&& post.next_photo_id_spec() == pre.next_photo_id_spec()
        &&& post.next_category_id_spec() == pre.next_category_id_spec()
        &&& post.clock_spec() == pre.clock_spec()
    }

    /// Nothing in the store changed.
    pub open spec fn same_store(pre: Self, post: Self) -> bool {
        &&& post.photos_view() == pre.photos_view()
        &&& post.categories_view() == pre.categories_view()
        &&& post.next_photo_id_spec() == pre.next_photo_id_spec()
        &&& post.next_category_id_spec() == pre.next_category_id_spec()
        &&& post.clock_spec() == pre.clock_spec()
    }

    /// `AddMembership`: link photo `photo_id` into category `category_id`,
    /// at the requested display position if one is given (opening a slot by
    /// shifting later members up), else appended at the end. The photo and
    /// the category must exist; the category's order changes exactly by
    /// `spec_add`, and nothing else changes. On any failure the store is
    /// left untouched: `PhotoNotFound` and `CategoryNotFound` for absent
    /// entities, `DuplicateMembership` for a photo already a member, and
    /// `InvalidPosition` for a requested position outside `1..=N + 1`.
    pub fn add_photo_to_category(
        &mut self,
        photo_id: i32,
        category_id: i32,
        display_order: Option<i32>,
    ) -> (r: Result<(), OrderingError>)
        requires
            old(self).wf(),
            old(self).category_order(category_id).len() < MAX_MEMBERS,
        ensures
            final(self).wf(),
            match r {
                Ok(()) => {
                    &&& old(self).has_photo_id(photo_id)
                    &&& old(self).has_category_id(category_id)
                    &&& spec_add(
                        old(self).category_order(category_id),
                        photo_id,
                        req_view(display_order),
                    ) is Ok
                    &&& final(self).category_order(category_id) == spec_add(
                        old(self).category_order(category_id),
                        photo_id,
                        req_view(display_order),
                    )->Ok_0.0
                    &&& Self::only_order_changed(*old(self), *final(self), category_id)
                },
                Err(e) => {
                    &&& Self::same_store(*old(self), *final(self))
                    &&& if !old(self).has_photo_id(photo_id) {
                        e == OrderingError::PhotoNotFound
                    } else if !old(self).has_category_id(category_id) {
                        e == OrderingError::CategoryNotFound
                    } else {
                        spec_add(
                            old(self).category_order(category_id),
                            photo_id,
                            req_view(display_order),
                        ) == Err::<(Seq<i32>, int), OrderingError>(e)
                    }
                },
            },
    {
        if self.find_photo(photo_id).is_none() {
            return Err(OrderingError::PhotoNotFound);
        }
        let ci = match self.find_category(category_id) {
            None => {
                return Err(OrderingError::CategoryNotFound);
            },
            Some(c) => c,
        };
        let ghost order0 = old(self).category_order(category_id);
        let e = entry_mut(&mut self.categories, ci);
        let res = e.members.add_membership(photo_id, display_order);
        proof {
            assert(old(self).category_idx(category_id) == ci as int);
            assert(order0 == old(self).categories_view()[ci as int].members.ordering());
        }
        match res {
            Ok(_) => {
                proof {
                    crate::order::lemma_add_elements(order0, photo_id, req_view(display_order));
                    Self::lemma_wf_after_entry_update(
                        *old(self),
                        *self,
                        ci as int,
                        photo_id,
                    );
                    self.lemma_category_idx(ci as int);
                }
                Ok(())
            },
            Err(err) => {
                proof {
                    assert(self.categories_view() =~= old(self).categories_view());
                    Self::lemma_wf_after_entry_update(
                        *old(self),
                        *self,
                        ci as int,
                        photo_id,
                    );
                }
                Err(err)
            },
        }
    }

    /// `RemoveMembership`: unlink photo `photo_id` from category
    /// `category_id`, closing the gap its slot leaves and returning the
    /// display position it held. The category must exist; the category's
    /// order changes exactly by `spec_remove`, and nothing else changes. On
    /// any failure the store is left untouched: `CategoryNotFound` for an
    /// absent category and `MembershipNotFound` for a photo that is not a
    /// member.
    pub fn remove_photo_from_category(&mut self, photo_id: i32, category_id: i32) -> (r: Result<
        i32,
        OrderingError,
    >)
        requires
            old(self).wf(),
        ensures
            final(self).wf(),
            match r {
                Ok(p) => {
                    &&& old(self).has_category_id(category_id)
                    &&& spec_remove(old(self).category_order(category_id), photo_id) == Ok::<
                        (Seq<i32>, int),
                        OrderingError,
                    >((final(self).category_order(category_id), p as int))
                    &&& Self::only_order_changed(*old(self), *final(self), category_id)
                },
                Err(e) => {
                    &&& Self::same_store(*old(self), *final(self))
                    &&& if !old(self).has_category_id(category_id) {
                        e == OrderingError::CategoryNotFound
                    } else {
                        spec_remove(old(self).category_order(category_id), photo_id) == Err::<
                            (Seq<i32>, int),
                            OrderingError,
                        >(e)
                    }
                },
            },
    {
        let ci = match self.find_category(category_id) {
            None => {
                return Err(OrderingError::CategoryNotFound);
            },
            Some(c) => c,
        };
        let ghost order0 = old(self).category_order(category_id);
        let e = entry_mut(&mut self.categories, ci);
        let res = e.members.remove_membership(photo_id);
        proof {
            assert(old(self).category_idx(category_id) == ci as int);
            assert(order0 == old(self).categories_view()[ci as int].members.ordering());
        }
        match res {
            Ok(p) => {
                proof {
                    crate::order::lemma_remove_elements(order0, photo_id);
                    Self::lemma_wf_after_entry_update(
                        *old(self),
                        *self,
                        ci as int,
                        photo_id,
                    );
                    self.lemma_category_idx(ci as int);
                }
                Ok(p)
            },
            Err(err) => {
                proof {
                    assert(self.categories_view() =~= old(self).categories_view());
                    Self::lemma_wf_after_entry_update(
                        *old(self),
                        *self,
                        ci as int,
                        photo_id,
                    );
                }
                Err(err)
            },
        }
    }

    /// `MoveMembership`: reposition photo `photo_id` within category
    /// `category_id` to `new_position`, as one atomic remove-then-add. The
    /// category must exist and the position must lie in `1..=N`; the
    /// category's order changes exactly by `spec_move`, and nothing else
    /// changes. On any failure the store is left untouched.
    pub fn move_photo_in_category(
        &mut self,
        photo_id: i32,
        category_id: i32,
        new_position: i32,
    ) -> (r: Result<(), OrderingError>)
        requires
            old(self).wf(),
        ensures
            final(self).wf(),
            match r {
                Ok(()) => {
                    &&& old(self).has_category_id(category_id)
                    &&& spec_move(
                        old(self).category_order(category_id),
                        photo_id,
                        new_position as int,
                    ) == Ok::<Seq<i32>, OrderingError>(final(self).category_order(category_id))
                    &&& Self::only_order_changed(*old(self), *final(self), category_id)
                },
                Err(e) => {
                    &&& Self::same_store(*old(self), *final(self))
                    &&& if !old(self).has_category_id(category_id) {
                        e == OrderingError::CategoryNotFound
                    } else {
                        spec_move(
                            old(self).category_order(category_id),
                            photo_id,
                            new_position as int,
                        ) == Err::<Seq<i32>, OrderingError>(e)
                    }
                },
            },
    {
        let ci = match self.find_category(category_id) {
            None => {
                return Err(OrderingError::CategoryNotFound);
            },
            Some(c) => c,
        };
        let ghost order0 = old(self).category_order(category_id);
        let e = entry_mut(&mut self.categories, ci);
        let res = e.members.move_membership(photo_id, new_position);
        proof {
            assert(old(self).category_idx(category_id) == ci as int);
            assert(order0 == old(self).categories_view()[ci as int].members.ordering());
        }
        match res {
            Ok(()) => {
                proof {
                    crate::order::lemma_move_elements(order0, photo_id, new_position as int);
                    Self::lemma_wf_after_entry_update(
                        *old(self),
                        *self,
                        ci as int,
                        photo_id,
                    );
                    self.lemma_category_idx(ci as int);
                }
                Ok(())
            },
            Err(err) => {
                proof {
                    assert(self.categories_view() =~= old(self).categories_view());
                    Self::lemma_wf_after_entry_update(
                        *old(self),
                        *self,
                        ci as int,
                        photo_id,
                    );
                }
                Err(err)
            },
        }
    }

    /// `ListOrdered`, composed with the photo lookups: the photos of
    /// category `category_id` in ascending display order.
    /// `CategoryNotFound` when no such category is stored.
    pub fn get_photos_in_category(&self, category_id: i32) -> (r: Result<Vec<Photo>, OrderingError>)
        requires
            self.wf(),
        ensures
            match r {
                Ok(v) => {
                    &&& self.has_category_id(category_id)
                    &&& v@.len() == self.category_order(category_id).len()
                    &&& forall|k: int|
                        0 <= k < v@.len() ==> (#[trigger] v@[k]) == self.spec_photo(
                            self.category_order(category_id)[k],
                        ) && v@[k].id == self.category_order(category_id)[k]
                },
                Err(e) => e == OrderingError::CategoryNotFound && !self.has_category_id(
                    category_id,
                ),
            },
    {
        let ci = match self.find_category(category_id) {
            None => {
                return Err(OrderingError::CategoryNotFound);
            },
            Some(c) => c,
        };
        let list = self.categories[ci].members.list_ordered();
        let ghost order = self.category_order(category_id);
        let n = list.len();
        let mut v: Vec<Photo> = Vec::new();
        let mut k: usize = 0;
        while k < n
            invariant
                self.wf(),
                self.has_category_id(category_id),
                ci as int == self.category_idx(category_id),
                order == self.category_order(category_id),
                n == order.len(),
                list@.len() == n,
                forall|j: int| 0 <= j < n ==> (#[trigger] list@[j]).0 == order[j],
                0 <= k <= n,
                v@.len() == k,
                forall|j: int|
                    0 <= j < k ==> (#[trigger] v@[j]) == self.spec_photo(order[j]) && v@[j].id
                        == order[j],
            decreases n - k,
        {
            let pid = list[k].0;
            proof {
                let m = self.categories_view()[ci as int].members;
                assert(crate::repo::has_position(m.rows(), k + 1));
                let i = crate::repo::idx_of_pos(m.rows(), k + 1);
                assert((m.rows()[i]).photo_id == crate::repo::photo_at(m.rows(), k + 1));
                assert(order[k as int] == crate::repo::photo_at(m.rows(), k + 1));
                assert(self.has_photo_id(pid));
            }
            match self.get_photo(pid) {
                Ok(p) => {
                    v.push(p);
                },
                Err(_) => {
                    proof {
                        assert(false);
                    }
                    return Err(OrderingError::CategoryNotFound);
                },
            }
            k += 1;
        }
        Ok(v)
    }

    /// A category together with its photos in display order: the gallery
    /// view the service renders. `CategoryNotFound` when no such category
    /// is stored.
    pub fn get_category(&self, category_id: i32) -> (r: Result<CategoryPhotos, OrderingError>)
        requires
            self.wf(),
        ensures
            match r {
                Ok(cp) => {
                    &&& self.has_category_id(category_id)
                    &&& cp.0 == self.spec_category(category_id)
                    &&& cp.1@.len() == self.category_order(category_id).len()
                    &&& forall|k: int|
                        0 <= k < cp.1@.len() ==> (#[trigger] cp.1@[k]) == self.spec_photo(
                            self.category_order(category_id)[k],
                        ) && cp.1@[k].id == self.category_order(category_id)[k]
                },
                Err(e) => e == OrderingError::CategoryNotFound && !self.has_category_id(
                    category_id,
                ),
            },
    {
        let ci = match self.find_category(category_id) {
            None => {
                return Err(OrderingError::CategoryNotFound);
            },
            Some(c) => c,
        };
        let photos = match self.get_photos_in_category(category_id) {
            Ok(v) => v,
            Err(_) => {
                proof {
                    assert(false);
                }
                return Err(OrderingError::CategoryNotFound);
            },
        };
        Ok((self.categories[ci].category.duplicate(), photos))
    }

    /// The gallery view of a category: its metadata and the view models of
    /// its photos, in display order. `CategoryNotFound` when no such
    /// category is stored.
    pub fn category_display(&self, category_id: i32) -> (r: Result<
        crate::view_models::CategoryDisplayModel,
        OrderingError,
    >)
        requires
            self.wf(),
        ensures
            match r {
                Ok(display) => {
                    &&& self.has_category_id(category_id)
                    &&& display.id == self.spec_category(category_id).id
                    &&& display.name == self.spec_category(category_id).name
                    &&& display.photos@.len() == self.category_order(category_id).len()
                    &&& forall|k: int|
                        0 <= k < display.photos@.len() ==> (#[trigger] display.photos@[k])
                            == crate::view_models::photo_view_of(
                            self.spec_photo(self.category_order(category_id)[k]),
                        )
                },
                Err(e) => e == OrderingError::CategoryNotFound && !self.has_category_id(
                    category_id,
                ),
            },
    {
        match self.get_category(category_id) {
            Ok(category_photos) => Ok(
                crate::view_models::CategoryDisplayModel::from(category_photos),
            ),
            Err(e) => Err(e),
        }
    }

    /// Delete the photo stored under `id`, cascading: the photo's
    /// membership in every category is removed first, each category's order
    /// closing the gap the photo leaves. Succeeds whether or not the photo
    /// was stored.
    pub fn delete_photo(&mut self, id: i32) -> (r: Result<(), OrderingError>)
        requires
            old(self).wf(),
        ensures
            final(self).wf(),
            r is Ok,
            old(self).has_photo_id(id) ==> final(self).photos_view() == old(
                self,
            ).photos_view().remove(old(self).photo_idx(id)),
            !old(self).has_photo_id(id) ==> final(self).photos_view() == old(self).photos_view(),
            final(self).categories_view().len() == old(self).categories_view().len(),
            forall|c: int|
                0 <= c < old(self).categories_view().len()
                    ==> (#[trigger] final(self).categories_view()[c]).category == old(
                    self,
                ).categories_view()[c].category,
            forall|c: int|
                0 <= c < old(self).categories_view().len()
                    ==> (#[trigger] final(self).categories_view()[c]).members.ordering()
                    == crate::order::spec_cascade(
                    old(self).categories_view()[c].members.ordering(),
                    id,
                ),
            final(self).next_photo_id_spec() == old(self).next_photo_id_spec(),
            final(self).next_category_id_spec() == old(self).next_category_id_spec(),
            final(self).clock_spec() == old(self).clock_spec(),
    {
        let n = self.categories.len();
        let mut c: usize = 0;
        while c < n
            invariant
                self.wf(),
                n == self.categories_view().len(),
                n == old(self).categories_view().len(),
                0 <= c <= n,
                self.photos_view() == old(self).photos_view(),
                self.next_photo_id_spec() == old(self).next_photo_id_spec(),
                self.next_category_id_spec() == old(self).next_category_id_spec(),
                self.clock_spec() == old(self).clock_spec(),
                forall|d: int|
                    c <= d < n ==> (#[trigger] self.categories_view()[d]) == old(
                        self,
                    ).categories_view()[d],
                forall|d: int|
                    0 <= d < c ==> (#[trigger] self.categories_view()[d]).category == old(
                        self,
                    ).categories_view()[d].category,
                forall|d: int|
                    0 <= d < c ==> (#[trigger] self.categories_view()[d]).members.ordering()
                        == crate::order::spec_cascade(
                        old(self).categories_view()[d].members.ordering(),
                        id,
                    ),
                forall|d: int|
                    0 <= d < c ==> !crate::repo::has_photo(
                        (#[trigger] self.categories_view()[d]).members.rows(),
                        id,
                    ),
            decreases n - c,
        {
            let ghost pre = *self;
            let ghost order0 = self.categories_view()[c as int].members.ordering();
            let e = entry_mut(&mut self.categories, c);
            let res = e.members.remove_membership(id);
            proof {
                let m = self.categories_view()[c as int].members;
                lemma_ordering_contains(m.rows(), id);
                match res {
                    Ok(p) => {
                        crate::order::lemma_remove_elements(order0, id);
                        lemma_ordering_contains(pre.categories_view()[c as int].members.rows(), id);
                        crate::engine::lemma_ordering_index_of(
                            pre.categories_view()[c as int].members.rows(),
                            id,
                        );
                        assert(m.ordering() == order0.remove(order0.index_of(id)));
                        order0.remove_ensures(order0.index_of(id));
                        assert forall|q: int|
                            0 <= q < m.ordering().len() implies (#[trigger] m.ordering()[q])
                            != id by {
                            let k0 = order0.index_of(id);
                            let p0 = crate::repo::pos_of_photo(
                                pre.categories_view()[c as int].members.rows(),
                                id,
                            );
                            if q < k0 {
                                assert(m.ordering()[q] == order0[q]);
                            } else {
                                assert(m.ordering()[q] == order0[q + 1]);
                            }
                        }
                        assert(!m.ordering().contains(id));
                        assert(!crate::repo::has_photo(m.rows(), id));
                        Self::lemma_wf_after_entry_update(pre, *self, c as int, id);
                    },
                    Err(_) => {
                        assert(self.categories_view() =~= pre.categories_view());
                        assert(!order0.contains(id));
                        assert(!crate::repo::has_photo(m.rows(), id));
                        Self::lemma_wf_after_entry_update(pre, *self, c as int, id);
                    },
                }
            }
            c += 1;
        }
        match self.find_photo(id) {
            None => {
                proof {
                    assert(!old(self).has_photo_id(id)) by {
                        if old(self).has_photo_id(id) {
                            let i = old(self).photo_idx(id);
                            assert(self.photos_view()[i].id == id);
                            assert(self.has_photo_id(id));
                        }
                    }
                }
                Ok(())
            },
            Some(i) => {
                let ghost pre = *self;
                proof {
                    pre.photos_view().remove_ensures(i as int);
                }
                self.photos.remove(i);
                proof {
                    assert(old(self).has_photo_id(id));
                    assert(old(self).photo_idx(id) == i as int) by {
                        let j = old(self).photo_idx(id);
                        assert(old(self).photos_view()[j].id == id);
                        assert(pre.photos_view()[j].id == id);
                        assert(j == i as int);
                    }
                    assert forall|i2: int, j2: int|
                        0 <= i2 < self.photos_view().len() && 0 <= j2 < self.photos_view().len()
                            && i2 != j2 implies (#[trigger] self.photos_view()[i2]).id != (
                    #[trigger] self.photos_view()[j2]).id by {
                        let oi = if i2 < i as int {
                            i2
                        } else {
                            i2 + 1
                        };
                        let oj = if j2 < i as int {
                            j2
                        } else {
                            j2 + 1
                        };
                        assert(self.photos_view()[i2] == pre.photos_view()[oi]);
                        assert(self.photos_view()[j2] == pre.photos_view()[oj]);
                    }
                    assert forall|i2: int|
                        0 <= i2 < self.photos_view().len() implies 1 <= (
                    #[trigger] self.photos_view()[i2]).id < self.next_photo_id_spec() by {
                        let oi = if i2 < i as int {
                            i2
                        } else {
                            i2 + 1
                        };
                        assert(self.photos_view()[i2] == pre.photos_view()[oi]);
                    }
                    assert forall|c2: int, k: int|
                        0 <= c2 < self.categories_view().len() && 0 <= k < self.categories_view()[
                            c2
                        ].members.rows().len() implies self.has_photo_id(
                        (#[trigger] self.categories_view()[c2].members.rows()[k]).photo_id,
                    ) by {
                        let pid = self.categories_view()[c2].members.rows()[k].photo_id;
                        assert((pre.categories_view()[c2].members.rows()[k]).photo_id == pid);
                        assert(pre.has_photo_id(pid));
                        let j = pre.photo_idx(pid);
                        assert(pre.photos_view()[j].id == pid);
                        assert(pid != id);
                        assert(j != i as int);
                        let nj = if j < i as int {
                            j
                        } else {
                            j - 1
                        };
                        assert(self.photos_view()[nj] == pre.photos_view()[j]);
                        assert(self.photos_view()[nj].id == pid);
                    }
                }
                Ok(())
            },
        }
    }
}

} // verus!
