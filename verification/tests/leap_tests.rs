use art::errors::ArtError;
use art::leap::Leap;

#[test]
fn arena_round_trip_preserves_values() {
    let mut arena: Leap<i32> = Leap::with_capacity(16);
    let run = vec![10, 20, 30];
    let start = arena.allocate(&run).unwrap();
    assert_eq!(arena.iter(start).unwrap(), vec![10, 20, 30]);
    assert_eq!(arena.len(), 4);
    assert_eq!(arena.capacity(), 16);
}

#[test]
fn arena_free_releases_run_and_leaves_others_alone() {
    let mut arena: Leap<i32> = Leap::with_capacity(8);
    let a = arena.allocate(&vec![1, 2, 3]).unwrap();
    let b = arena.allocate(&vec![7, 8]).unwrap();
    arena.free(a).unwrap();
    // The other run is untouched and the slots are reusable.
    assert_eq!(arena.iter(b).unwrap(), vec![7, 8]);
    assert_eq!(arena.len(), 3);
    let c = arena.allocate(&vec![4, 5, 6]).unwrap();
    assert_eq!(arena.iter(c).unwrap(), vec![4, 5, 6]);
    assert_eq!(arena.iter(b).unwrap(), vec![7, 8]);
}

#[test]
fn arena_allocate_fails_closed_when_full() {
    let mut arena: Leap<i32> = Leap::with_capacity(4);
    // Three values need four slots: one marker plus one per value.
    assert!(arena.allocate(&vec![1, 2, 3]).is_ok());
    assert_eq!(arena.allocate(&vec![9]), Err(ArtError::BufferOverflow));
    assert_eq!(arena.len(), 4);
}

#[test]
fn arena_free_of_non_start_is_an_index_error() {
    let mut arena: Leap<i32> = Leap::with_capacity(8);
    let a = arena.allocate(&vec![1, 2]).unwrap();
    assert_eq!(arena.free(a + 100), Err(ArtError::IndexError));
    // A value slot inside the run is not a run start.
    let inside = if a + 1 < arena.capacity() { a + 1 } else { 0 };
    assert_eq!(arena.free(inside), Err(ArtError::IndexError));
    assert_eq!(arena.iter(a).unwrap(), vec![1, 2]);
}

#[test]
fn arena_set_overwrites_one_value() {
    let mut arena: Leap<i32> = Leap::with_capacity(8);
    let a = arena.allocate(&vec![5, 6, 7]).unwrap();
    arena.set(a, 1, 60).unwrap();
    assert_eq!(arena.iter(a).unwrap(), vec![5, 60, 7]);
    assert_eq!(arena.set(a, 3, 0), Err(ArtError::IndexError));
}

#[test]
fn arena_write_run_replaces_whole_run() {
    let mut arena: Leap<i32> = Leap::with_capacity(8);
    let a = arena.allocate(&vec![0, 0]).unwrap();
    arena.write_run(a, &vec![3, 4]).unwrap();
    assert_eq!(arena.iter(a).unwrap(), vec![3, 4]);
    assert_eq!(arena.write_run(a, &vec![1, 2, 3]), Err(ArtError::IndexError));
}

#[test]
fn arena_reuses_slots_across_many_cycles() {
    let mut arena: Leap<i32> = Leap::with_capacity(6);
    for round in 0..50 {
        let v = vec![round, round + 1, round + 2];
        let s = arena.allocate(&v).unwrap();
        assert_eq!(arena.iter(s).unwrap(), v);
        arena.free(s).unwrap();
        assert_eq!(arena.len(), 0);
    }
}
