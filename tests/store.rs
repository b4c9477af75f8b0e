use rebos::error::GenError;
use rebos::store::{generation_exists, get_oldest, latest_number, DeleteOutcome, GenStore};

fn store(gens: &[usize], current: Option<usize>, built: Option<usize>) -> GenStore {
    GenStore { gens: gens.to_vec(), current, built }
}

#[test]
fn latest_and_oldest() {
    assert_eq!(latest_number(&vec![3, 9, 4]), 9);
    assert_eq!(latest_number(&Vec::new()), 0);
    assert_eq!(get_oldest(&vec![3, 9, 4]), Ok(3));
    assert_eq!(get_oldest(&Vec::new()), Err(GenError::NoGenerations));
    assert!(generation_exists(&vec![1, 5], 5));
    assert!(!generation_exists(&vec![1, 5], 2));
}

#[test]
fn set_current_checks_range() {
    let mut s = store(&[1, 2, 3], Some(3), None);
    assert_eq!(s.set_current(0), Err(GenError::OutOfRange));
    assert_eq!(s.current, Some(3));
    assert_eq!(s.set_current(4), Err(GenError::OutOfRange));
    assert_eq!(s.current, Some(3));
    for n in 1..=3 {
        assert_eq!(s.set_current(n), Ok(()));
        assert_eq!(s.current, Some(n));
    }
}

#[test]
fn set_built_checks_range() {
    let mut s = store(&[1, 2, 3], Some(3), None);
    assert_eq!(s.set_built(0), Err(GenError::OutOfRange));
    assert_eq!(s.set_built(4), Err(GenError::OutOfRange));
    assert_eq!(s.built, None);
    assert_eq!(s.set_built(2), Ok(()));
    assert_eq!(s.built, Some(2));
    assert!(s.been_built());
    assert!(s.is_built(2));
}

#[test]
fn delete_keeps_current_and_built() {
    let mut s = store(&[1, 2, 3], Some(3), Some(2));
    assert_eq!(s.delete(3), Ok(DeleteOutcome::ProtectedCurrent));
    assert_eq!(s.gens, vec![1, 2, 3]);
    assert_eq!(s.delete(2), Ok(DeleteOutcome::ProtectedBuilt));
    assert_eq!(s.gens, vec![1, 2, 3]);
    assert_eq!(s.delete(7), Err(GenError::DoesNotExist));
    assert_eq!(s.delete(1), Ok(DeleteOutcome::Deleted));
    assert_eq!(s.gens, vec![2, 3]);
}

#[test]
fn delete_without_current_fails() {
    let mut s = store(&[1, 2], None, None);
    assert_eq!(s.delete(1), Err(GenError::NoCurrent));
    assert_eq!(s.gens, vec![1, 2]);
}

#[test]
fn delete_old_window_and_protection() {
    let mut s = store(&[1, 2, 3, 4], Some(4), Some(3));
    let outs = s.delete_old(2).unwrap();
    assert_eq!(outs, vec![(1, DeleteOutcome::Deleted), (2, DeleteOutcome::Deleted)]);
    assert_eq!(s.gens, vec![3, 4]);
    let outs = s.delete_old(3).unwrap();
    assert_eq!(
        outs,
        vec![(3, DeleteOutcome::ProtectedBuilt), (4, DeleteOutcome::ProtectedCurrent)]
    );
    assert_eq!(s.gens, vec![3, 4]);
}

#[test]
fn delete_old_stops_at_a_gap() {
    let mut s = store(&[1, 3, 4], Some(4), None);
    assert_eq!(s.delete_old(3), Err(GenError::DoesNotExist));
    assert_eq!(s.gens, vec![3, 4]);
    let mut empty = store(&[], None, None);
    assert_eq!(empty.delete_old(1), Err(GenError::NoGenerations));
}

#[test]
fn rollback_and_latest() {
    let mut s = store(&[1, 2, 3], Some(3), None);
    assert_eq!(s.rollback(2), Ok(()));
    assert_eq!(s.get_current(), Ok(1));
    assert_eq!(s.rollback(1), Err(GenError::OutOfRange));
    assert_eq!(s.rollback(-1), Ok(()));
    assert_eq!(s.current, Some(2));
    assert_eq!(s.rollback(-5), Err(GenError::OutOfRange));
    assert_eq!(s.latest(), Ok(()));
    assert_eq!(s.current, Some(3));
    let mut none = store(&[], None, None);
    assert_eq!(none.rollback(1), Err(GenError::NoCurrent));
    assert_eq!(none.latest(), Err(GenError::OutOfRange));
}

#[test]
fn commit_numbers_above_latest() {
    let mut s = store(&[1, 5, 2], Some(2), Some(2));
    assert_eq!(s.commit(), Ok(6));
    assert_eq!(s.gens, vec![1, 5, 2, 6]);
    assert_eq!(s.current, Some(6));
    let mut full = store(&[usize::MAX], Some(1), None);
    assert_eq!(full.commit(), Err(GenError::Overflow));
}

#[test]
fn move_gen_follows_pointers() {
    let mut s = store(&[1, 4], Some(4), Some(4));
    assert_eq!(s.move_gen(4, 2), Ok(()));
    assert_eq!(s.gens, vec![1, 2]);
    assert_eq!(s.current, Some(2));
    assert_eq!(s.built, Some(2));
    assert_eq!(s.move_gen(9, 3), Err(GenError::DoesNotExist));
    assert_eq!(s.move_gen(1, 2), Err(GenError::OutOfRange));
    assert_eq!(s.is_current(2), Ok(true));
}
