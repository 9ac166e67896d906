use tiny_kernel::alloc_sys::block::MemoryBlock;
use tiny_kernel::utils::heap_array::HeapArray;
use tiny_kernel::utils::heap_vec::HeapVec;
use tiny_kernel::utils::mutable_option::MutableOption;
use tiny_kernel::utils::non_zero_rem::NonZeroRem;

#[test]
fn heap_array_reads_and_writes_in_bounds() {
    let mut array = HeapArray::new_with_ptr(4096, vec![1u8, 2, 3]);
    assert_eq!(array.ptr(), 4096);
    assert_eq!(array.ptr_mut(), 4096);
    assert_eq!(array.len(), 3);
    assert_eq!(array.get(0), Some(1));
    assert_eq!(array.get(2), Some(3));
    assert_eq!(array.get(3), None);
    assert!(array.set(1, 9));
    assert_eq!(array.get(1), Some(9));
    assert!(!array.set(5, 0));
    assert_eq!(array.len(), 3);
}

#[test]
fn heap_vec_insert_shifts_the_suffix() {
    let mut list: HeapVec<u32> = HeapVec::new(5).unwrap();
    assert_eq!(list.len(), 0);
    assert_eq!(list.cap(), 5);
    list.push(1);
    list.push(2);
    list.push(3);
    list.insert(1, 9);
    assert_eq!(list.len(), 4);
    assert_eq!(list.get(0), Some(1));
    assert_eq!(list.get(1), Some(9));
    assert_eq!(list.get(2), Some(2));
    assert_eq!(list.get(3), Some(3));
}

#[test]
fn heap_vec_remove_reads_out_and_shrinks() {
    let mut list: HeapVec<u32> = HeapVec::new(5).unwrap();
    list.push(1);
    list.push(2);
    list.push(3);
    let removed = list.remove(1);
    assert_eq!(removed, 2);
    assert_eq!(list.len(), 2);
    assert_eq!(list.get(0), Some(1));
    assert_eq!(list.get(1), Some(3));
    assert_eq!(list.get(2), None);
}

#[test]
fn heap_vec_pop_takes_the_last() {
    let mut list: HeapVec<u32> = HeapVec::new_with_ptr(8192, 4);
    assert_eq!(list.cap(), 4);
    list.push(10);
    list.push(20);
    assert_eq!(list.first(), Some(10));
    assert_eq!(list.last(), Some(20));
    assert_eq!(list.pop(), 20);
    assert_eq!(list.len(), 1);
    assert_eq!(list.last(), Some(10));
}

#[test]
fn heap_vec_holds_descriptors() {
    let mut list: HeapVec<MemoryBlock> = HeapVec::new_with_ptr(8192, 4);
    list.push(MemoryBlock::new(0, 10));
    list.push(MemoryBlock::new(20, 5));
    let head = list.first().unwrap();
    assert!(head.is_active);
    assert_eq!(head.start, 0);
    assert_eq!(head.end(), 10);
    let tail = list.last().unwrap();
    assert_eq!(tail.end(), 25);
    let null = MemoryBlock::null();
    assert!(!null.is_active);
    assert_eq!(null.start, 0);
    assert_eq!(null.size, 0);
}

#[test]
fn mutable_option_gets_and_sets() {
    let mut cell: MutableOption<u32> = MutableOption::new(Some(5));
    assert_eq!(cell.get(), Some(&5));
    cell.set(None);
    assert_eq!(cell.get(), None);
    cell.set(Some(7));
    assert_eq!(cell.value, Some(7));
}

#[test]
fn non_zero_rem_maps_zero_to_the_divisor() {
    assert_eq!(10usize.non_zero_rem(5), 5);
    assert_eq!(7usize.non_zero_rem(5), 2);
    assert_eq!(4096usize.non_zero_rem(4096), 4096);
    assert_eq!(12345usize.non_zero_rem(4096), 57);
    assert_eq!(10u64.non_zero_rem(3), 1);
    assert_eq!(9u64.non_zero_rem(3), 3);
}
