use cordl::format::format_order;
use cordl::generate::layout::{layout_fields, FieldShape, LayoutError};
use cordl::generate::metadata::{LayoutParameters, PointerSize};
use cordl::generate::offsets::get_packing_info;
use cordl::generate::emit::order::dependency_order;

fn shape(size: u32, alignment: u8) -> FieldShape {
    FieldShape { size, alignment, natural_alignment: alignment }
}

#[test]
fn fields_are_aligned_behind_the_base() {
    let fields = vec![shape(1, 1), shape(4, 4), shape(2, 2), shape(8, 8)];
    let l = layout_fields(&fields, 16, 8, 0).unwrap();
    assert_eq!(l.offsets, vec![16, 20, 24, 32]);
    assert_eq!(l.actual_size, 40);
    assert_eq!(l.class_size, 40);
    assert_eq!(l.minimum_alignment, 8);
    assert_eq!(l.natural_alignment, 8);
}

#[test]
fn packing_caps_the_alignment() {
    let fields = vec![shape(1, 1), shape(4, 4), shape(8, 8)];
    let l = layout_fields(&fields, 0, 1, 1).unwrap();
    assert_eq!(l.offsets, vec![0, 1, 5]);
    assert_eq!(l.actual_size, 13);
    assert_eq!(l.class_size, 13);
    assert_eq!(l.minimum_alignment, 1);
    assert_eq!(l.natural_alignment, 8);
    let l = layout_fields(&fields, 0, 1, 2).unwrap();
    assert_eq!(l.offsets, vec![0, 2, 6]);
    assert_eq!(l.class_size, 14);
}

#[test]
fn small_fields_go_by_their_natural_alignment() {
    let packed = FieldShape { size: 8, alignment: 1, natural_alignment: 8 };
    let l = layout_fields(&vec![shape(1, 1), packed], 0, 1, 0).unwrap();
    assert_eq!(l.offsets, vec![0, 8]);
    assert_eq!(l.class_size, 16);
}

#[test]
fn empty_fields_take_one_byte() {
    let l = layout_fields(&vec![shape(0, 1), shape(0, 1)], 0, 1, 0).unwrap();
    assert_eq!(l.offsets, vec![0, 1]);
    assert_eq!(l.actual_size, 2);
}

#[test]
fn no_fields_leave_the_base_size() {
    let l = layout_fields(&vec![], 16, 8, 0).unwrap();
    assert_eq!(l.offsets, Vec::<u32>::new());
    assert_eq!(l.actual_size, 16);
    assert_eq!(l.class_size, 16);
    let l = layout_fields(&vec![], 17, 8, 0).unwrap();
    assert_eq!(l.actual_size, 17);
    assert_eq!(l.class_size, 24);
}

#[test]
fn layout_overflow_is_reported() {
    let fields = vec![shape(u32::MAX, 1), shape(1, 1)];
    assert_eq!(layout_fields(&fields, 0, 1, 0), Err(LayoutError::SizeOverflow));
    assert_eq!(layout_fields(&vec![shape(8, 8)], u32::MAX - 7, 8, 0), Err(LayoutError::SizeOverflow));
    assert_eq!(layout_fields(&vec![], u32::MAX, 8, 0), Err(LayoutError::SizeOverflow));
    assert!(layout_fields(&vec![shape(7, 1)], u32::MAX - 7, 1, 0).is_ok());
}

#[test]
fn layout_is_repeatable() {
    let fields = vec![shape(1, 1), shape(4, 4), shape(2, 2), shape(8, 8), shape(3, 1)];
    let first = layout_fields(&fields, 16, 8, 4);
    for _ in 0..10 {
        assert_eq!(layout_fields(&fields.clone(), 16, 8, 4), first);
    }
}

fn parameters() -> LayoutParameters {
    LayoutParameters {
        pointer_size: PointerSize::Bytes8,
        packing_field_offset: 7,
        size_is_default_offset: 12,
        specified_packing_field_offset: 13,
        packing_is_default_offset: 11,
    }
}

#[test]
fn packing_is_read_from_the_flags() {
    // Code 3 at position 7 stands for a packing of 4.
    let info = get_packing_info(3 << 6, parameters());
    assert_eq!(info.packing, 4);
    assert!(!info.packing_is_default);
    assert!(!info.size_is_default);
    assert_eq!(info.specified_packing, 0);
    // The default flag switches the packing off.
    let info = get_packing_info((3 << 6) | (1 << 10), parameters());
    assert_eq!(info.packing, 0);
    assert!(info.packing_is_default);
    let info = get_packing_info((8 << 6) | (1 << 11) | (5 << 12), parameters());
    assert_eq!(info.packing, 128);
    assert!(info.size_is_default);
    assert_eq!(info.specified_packing, 16);
    // Codes above 8 stand for no packing.
    assert_eq!(get_packing_info(9 << 6, parameters()).packing, 0);
}

#[test]
fn largest_files_are_formatted_first() {
    assert_eq!(format_order(&vec![10, 30, 20]), vec![1, 2, 0]);
    assert_eq!(format_order(&vec![]), Vec::<usize>::new());
    assert_eq!(format_order(&vec![7]), vec![0]);
}

#[test]
fn files_of_one_size_are_formatted_last_first() {
    assert_eq!(format_order(&vec![5, 5, 5]), vec![2, 1, 0]);
    assert_eq!(format_order(&vec![1, 9, 1, 9, 0]), vec![3, 1, 2, 0, 4]);
}

#[test]
fn order_follows_needs() {
    // 0 needs 2, 2 needs 1.
    let deps = vec![vec![2], vec![], vec![1]];
    assert_eq!(dependency_order(&deps, &vec![true, true, true]), vec![1, 2, 0]);
    // Items that take no part are left out, and needing them counts for nothing.
    assert_eq!(dependency_order(&deps, &vec![true, false, true]), vec![2, 0]);
    // Entries that are no items count for nothing, nor does needing oneself.
    assert_eq!(dependency_order(&vec![vec![7, 0], vec![]], &vec![true, true]), vec![0, 1]);
}

#[test]
fn circular_needs_fall_back_to_the_first_item() {
    let deps = vec![vec![1], vec![0], vec![0]];
    assert_eq!(dependency_order(&deps, &vec![true, true, true]), vec![0, 1, 2]);
}
