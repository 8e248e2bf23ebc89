//! The handle table: distinct handles, capacity, stale handles, and
//! table isolation.

use spin_bridge::errors::Error;
use spin_bridge::table::Table;

#[test]
fn distinct_handles_up_to_capacity() {
    let mut t: Table<u64> = Table::new(4);
    let mut handles = Vec::new();
    for v in 0..4u64 {
        handles.push(t.push(v).unwrap());
    }
    for i in 0..handles.len() {
        for j in 0..handles.len() {
            if i != j {
                assert_ne!(handles[i], handles[j]);
            }
        }
    }
    for (i, h) in handles.iter().enumerate() {
        assert_eq!(t.get(*h), Some(&(i as u64)));
    }
}

#[test]
fn insert_beyond_capacity_fails_with_resource_exhausted() {
    let mut t: Table<u64> = Table::new(2);
    t.push(1).unwrap();
    t.push(2).unwrap();
    assert_eq!(t.push(3), Err(Error::ResourceExhausted));
    // the failed insertion changed nothing
    assert_eq!(t.push(3), Err(Error::ResourceExhausted));
}

#[test]
fn get_and_remove_on_unknown_or_removed_handle_fail() {
    let mut t: Table<u64> = Table::new(8);
    let h = t.push(7).unwrap();
    assert_eq!(t.get(99), None);
    assert_eq!(t.remove(99), None);
    assert_eq!(t.remove(h), Some(7));
    assert_eq!(t.get(h), None);
    assert_eq!(t.remove(h), None);
}

#[test]
fn removed_slot_may_be_reused_by_later_insert() {
    let mut t: Table<u64> = Table::new(2);
    let h1 = t.push(1).unwrap();
    let _h2 = t.push(2).unwrap();
    assert_eq!(t.remove(h1), Some(1));
    let h3 = t.push(3).unwrap();
    assert_eq!(t.get(h3), Some(&3));
}

#[test]
fn handles_from_one_table_do_not_resolve_in_another() {
    let mut a: Table<u64> = Table::new(8);
    let b: Table<u64> = Table::new(8);
    let ha = a.push(42).unwrap();
    // table b never issued ha, so it does not resolve there
    assert_eq!(b.get(ha), None);
}
