//! The per-category membership repository and engine, exercised directly:
//! the primitive reads, and the engine operations keeping positions packed.

use enchanted_natures::repo::{CategoryMemberships, OrderingError};

#[test]
fn empty_category_reads() {
    let m = CategoryMemberships::new();
    assert_eq!(m.count(), 0);
    assert_eq!(m.max_position(), None);
    assert!(!m.position_exists(1));
    assert!(!m.contains_photo(7));
    assert_eq!(m.list_ordered(), Vec::<(i32, i32)>::new());
}

#[test]
fn memberships_stay_packed() {
    let mut m = CategoryMemberships::new();
    assert_eq!(m.add_membership(10, None), Ok(1));
    assert_eq!(m.add_membership(20, None), Ok(2));
    assert_eq!(m.add_membership(30, Some(1)), Ok(1));
    assert_eq!(m.count(), 3);
    assert_eq!(m.max_position(), Some(3));
    assert_eq!(m.list_ordered(), vec![(30, 1), (10, 2), (20, 3)]);
    assert!(m.position_exists(1) && m.position_exists(2) && m.position_exists(3));
    assert!(!m.position_exists(0) && !m.position_exists(4));
    assert!(m.contains_photo(10) && m.contains_photo(20) && m.contains_photo(30));

    assert_eq!(m.remove_membership(10), Ok(2));
    assert_eq!(m.list_ordered(), vec![(30, 1), (20, 2)]);
    assert_eq!(m.remove_membership(10), Err(OrderingError::MembershipNotFound));

    assert_eq!(m.move_membership(20, 1), Ok(()));
    assert_eq!(m.list_ordered(), vec![(20, 1), (30, 2)]);
    assert_eq!(m.add_membership(20, None), Err(OrderingError::DuplicateMembership));
    assert_eq!(m.add_membership(40, Some(5)), Err(OrderingError::InvalidPosition));
    assert_eq!(m.list_ordered(), vec![(20, 1), (30, 2)]);
}
