use exprkit::byteable::Byteable;
use exprkit::{ByteHeap, ByteHeapError, HeapPtr, I32Kind, Literal, TypeTable, U32Kind, XPtr};

#[test]
fn u32_round_trips_through_its_bytes() {
    let bytes = 0xDEADBEEFu32.to_raw_bytes();
    assert_eq!(bytes, vec![0xEF, 0xBE, 0xAD, 0xDE]);
    assert_eq!(u32::from_raw_bytes(&bytes), Some(0xDEADBEEF));
}

#[test]
fn i32_round_trips_through_its_bytes() {
    let bytes = (-2i32).to_raw_bytes();
    assert_eq!(bytes, vec![0xFE, 0xFF, 0xFF, 0xFF]);
    assert_eq!(i32::from_raw_bytes(&bytes), Some(-2));
}

#[test]
fn wrong_length_is_rejected() {
    assert_eq!(u32::from_raw_bytes(&[1, 2, 3]), None);
    assert_eq!(i32::from_raw_bytes(&[]), None);
    assert_eq!(u8::from_raw_bytes(&[7]), Some(7));
    assert_eq!(u8::from_raw_bytes(&[7, 8]), None);
}

#[test]
fn arena_round_trip_view_of_insert_is_bytes_of_value() {
    let mut heap: ByteHeap<64> = ByteHeap::new();
    let ptr = heap.insert(42u32).unwrap();
    assert_eq!(ptr.raw(), 0);
    assert_eq!(ptr.len(), 4);
    let view = heap.view_bytes(&ptr).unwrap();
    assert_eq!(view, &42u32.to_raw_bytes()[..]);
    assert_eq!(heap.read_as::<u32>(&ptr).unwrap(), 42);
}

#[test]
fn arena_append_only_old_handles_survive_new_inserts() {
    let mut heap: ByteHeap<64> = ByteHeap::new();
    let first = heap.insert(1111u32).unwrap();
    let second = heap.insert(-5i32).unwrap();
    let third = heap.insert(0xFFu8).unwrap();
    assert_eq!(first.raw(), 0);
    assert_eq!(second.raw(), 4);
    assert_eq!(third.raw(), 8);
    assert_eq!(heap.read_as::<u32>(&first).unwrap(), 1111);
    assert_eq!(heap.read_as::<i32>(&second).unwrap(), -5);
    assert_eq!(heap.read_as::<u8>(&third).unwrap(), 0xFF);
    let view = heap.view_bytes(&first).unwrap();
    assert_eq!(view, &1111u32.to_raw_bytes()[..]);
}

#[test]
fn arena_alloc_error_when_capacity_exhausted() {
    let mut heap: ByteHeap<6> = ByteHeap::new();
    assert!(heap.insert(1u32).is_ok());
    let r = heap.insert(2u32);
    assert!(matches!(r, Err(ByteHeapError::AllocError)));
    // the failed insert left the arena unchanged
    let again = heap.insert(3u8).unwrap();
    assert_eq!(again.raw(), 4);
}

#[test]
fn arena_invalid_pointer_is_rejected() {
    let mut heap: ByteHeap<16> = ByteHeap::new();
    let _ = heap.insert(1u32).unwrap();
    let beyond = XPtr::new(2, 4);
    assert!(matches!(heap.view_bytes(&beyond), Err(ByteHeapError::InvalidPointer)));
    assert!(matches!(heap.read_as::<u32>(&beyond), Err(ByteHeapError::InvalidPointer)));
}

#[test]
fn arena_size_mismatch_is_rejected() {
    let mut heap: ByteHeap<16> = ByteHeap::new();
    let ptr = heap.insert(9u8).unwrap();
    assert!(matches!(heap.read_as::<u32>(&ptr), Err(ByteHeapError::SizeMismatch)));
}

#[test]
fn raw_insert_and_raw_retrieve() {
    let mut heap: ByteHeap<8> = ByteHeap::new();
    let start = heap.raw_insert(7u32).unwrap();
    assert_eq!(start, 0);
    let slice = heap.raw_retrieve(0..4);
    assert_eq!(slice, &[7, 0, 0, 0]);
}

#[test]
fn auto_parsed_bytes_land_in_the_arena() {
    let mut table = TypeTable::new();
    table.register::<i32, I32Kind>();
    table.register::<u32, U32Kind>();
    let mut heap: ByteHeap<32> = ByteHeap::new();

    let bytes = table.auto_parse(&Literal::Word("-77".to_string())).unwrap();
    let ptr = heap.insert_raw(&bytes).unwrap();
    assert_eq!(heap.read_as::<i32>(&ptr).unwrap(), -77);
    let value = heap.read_as::<I32Kind>(&ptr).unwrap();
    assert_eq!(value, I32Kind(-77));
}

#[test]
fn accessor_retrieves_typed_value() {
    let mut heap: ByteHeap<16> = ByteHeap::new();
    let ptr = heap.insert(123u32).unwrap();
    let accessor = heap.accessor::<u32>(&ptr).unwrap();
    assert_eq!(accessor.retrieve(), Some(123));
}
