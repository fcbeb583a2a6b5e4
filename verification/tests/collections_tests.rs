use gunship::collections::array::Array;
use gunship::collections::atomic_array::AtomicArray;

#[test]
fn array_starts_empty_with_requested_capacity() {
    let array: Array<u32> = Array::new(4);
    assert_eq!(array.len(), 0);
    assert_eq!(array.capacity(), 4);
    assert!(array.as_slice().is_empty());
}

#[test]
fn array_push_appends_in_order() {
    let mut array = Array::new(3);
    array.push(10u32);
    array.push(20);
    array.push(30);
    assert_eq!(array.len(), 3);
    assert_eq!(array.as_slice(), &[10, 20, 30]);
    assert_eq!(array.capacity(), 3);
}

#[test]
fn array_get_mut_writes_one_element() {
    let mut array = Array::new(2);
    array.push(1u32);
    array.push(2);
    *array.get_mut(1) = 7;
    assert_eq!(array.as_slice(), &[1, 7]);
}

#[test]
fn atomic_array_push_and_pop_round_trip() {
    let mut array = AtomicArray::new(4);
    array.push(5u32);
    array.push(6);
    assert_eq!(array.len(), 2);
    assert_eq!(array.pop(), Some(6));
    assert_eq!(array.as_slice(), &[5]);
    assert_eq!(array.pop(), Some(5));
    assert_eq!(array.pop(), None);
    assert_eq!(array.len(), 0);
    assert_eq!(array.capacity(), 4);
}

#[test]
fn atomic_array_swap_remove_moves_last_into_place() {
    let mut array = AtomicArray::new(4);
    array.push(1u32);
    array.push(2);
    array.push(3);
    array.push(4);
    assert_eq!(array.swap_remove(1), Some(2));
    assert_eq!(array.as_slice(), &[1, 4, 3]);
    assert_eq!(array.swap_remove(2), Some(3));
    assert_eq!(array.as_slice(), &[1, 4]);
}

#[test]
fn atomic_array_swap_remove_out_of_bounds_changes_nothing() {
    let mut array = AtomicArray::new(2);
    array.push(9u32);
    assert_eq!(array.swap_remove(1), None);
    assert_eq!(array.as_slice(), &[9]);
}

#[test]
fn atomic_array_last_and_index() {
    let mut array = AtomicArray::new(3);
    assert_eq!(array.last(), None);
    array.push(3u32);
    array.push(8);
    assert_eq!(array.last(), Some(&8));
    assert_eq!(*array.index(0), 3);
    assert_eq!(*array.index(1), 8);
}

#[test]
fn atomic_array_mutable_access() {
    let mut array = AtomicArray::new(3);
    assert!(array.last_mut().is_none());
    array.push(1u32);
    array.push(2);
    *array.last_mut().unwrap() = 20;
    assert_eq!(array.as_slice(), &[1, 20]);
    array.as_slice_mut()[0] = 10;
    assert_eq!(array.as_slice(), &[10, 20]);
    assert_eq!(array.len(), 2);
}

#[test]
fn atomic_array_filled_to_capacity_holds_pushes_in_order() {
    let mut array = AtomicArray::new(3);
    array.push(7u32);
    array.push(1);
    array.push(4);
    assert_eq!(array.len(), 3);
    assert_eq!(array.capacity(), 3);
    assert_eq!(array.as_slice(), &[7, 1, 4]);
}
