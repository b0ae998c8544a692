use mmtk::address::Address;
use mmtk::layout::{BYTES_IN_CHUNK, BYTES_IN_PAGE, HEAP_START, LOG_BYTES_IN_WORD};
use mmtk::side_metadata::{
    address_to_meta_address, bzero_metadata, ensure_metadata_is_mapped, fetch_add_atomic,
    fetch_sub_atomic, load_atomic, meta_byte_lshift, meta_byte_mask, metadata_address_range_size,
    MetadataScope, MetadataSpec, SideMetadata, SideMetadataContext, SideMetadataSanity,
    GLOBAL_SIDE_METADATA_BASE_ADDRESS, LOCAL_SIDE_METADATA_BASE_ADDRESS,
};

fn addr(v: usize) -> Address {
    Address::from_usize(v)
}

#[test]
fn test_side_metadata_address_to_meta_address() {
    let mut gspec = MetadataSpec {
        is_on_side: true,
        scope: MetadataScope::Global,
        offset: GLOBAL_SIDE_METADATA_BASE_ADDRESS,
        num_of_bits: 1,
        log_min_obj_size: 0,
    };
    let mut lspec = MetadataSpec {
        is_on_side: true,
        scope: MetadataScope::PolicySpecific,
        offset: LOCAL_SIDE_METADATA_BASE_ADDRESS,
        num_of_bits: 1,
        log_min_obj_size: 0,
    };
    let g = GLOBAL_SIDE_METADATA_BASE_ADDRESS as usize;
    let l = LOCAL_SIDE_METADATA_BASE_ADDRESS as usize;

    assert_eq!(address_to_meta_address(gspec, addr(0)).as_usize(), g);
    assert_eq!(address_to_meta_address(lspec, addr(0)).as_usize(), l);

    assert_eq!(address_to_meta_address(gspec, addr(7)).as_usize(), g);
    assert_eq!(address_to_meta_address(lspec, addr(7)).as_usize(), l);

    assert_eq!(address_to_meta_address(gspec, addr(27)).as_usize(), g + 3);
    assert_eq!(address_to_meta_address(lspec, addr(129)).as_usize(), l + 16);

    gspec.log_min_obj_size = 2;
    lspec.log_min_obj_size = 1;

    assert_eq!(address_to_meta_address(gspec, addr(0)).as_usize(), g);
    assert_eq!(address_to_meta_address(lspec, addr(0)).as_usize(), l);

    assert_eq!(address_to_meta_address(gspec, addr(32)).as_usize(), g + 1);
    assert_eq!(address_to_meta_address(lspec, addr(32)).as_usize(), l + 2);

    assert_eq!(address_to_meta_address(gspec, addr(316)).as_usize(), g + 9);
    assert_eq!(address_to_meta_address(lspec, addr(316)).as_usize(), l + 19);

    gspec.num_of_bits = 2;
    lspec.num_of_bits = 8;

    assert_eq!(address_to_meta_address(gspec, addr(0)).as_usize(), g);
    assert_eq!(address_to_meta_address(lspec, addr(0)).as_usize(), l);

    assert_eq!(address_to_meta_address(gspec, addr(32)).as_usize(), g + 2);
    assert_eq!(address_to_meta_address(lspec, addr(32)).as_usize(), l + 16);

    assert_eq!(address_to_meta_address(gspec, addr(316)).as_usize(), g + 19);
    assert_eq!(address_to_meta_address(lspec, addr(318)).as_usize(), l + 159);
}

#[test]
fn test_side_metadata_meta_byte_mask() {
    let mut spec = MetadataSpec {
        is_on_side: true,
        scope: MetadataScope::Global,
        offset: GLOBAL_SIDE_METADATA_BASE_ADDRESS,
        num_of_bits: 1,
        log_min_obj_size: 0,
    };

    assert_eq!(meta_byte_mask(spec), 1);

    spec.num_of_bits = 2;
    assert_eq!(meta_byte_mask(spec), 3);
    spec.num_of_bits = 4;
    assert_eq!(meta_byte_mask(spec), 15);
    spec.num_of_bits = 8;
    assert_eq!(meta_byte_mask(spec), 255);
}

#[test]
fn test_side_metadata_meta_byte_lshift() {
    let mut spec = MetadataSpec {
        is_on_side: true,
        scope: MetadataScope::Global,
        offset: GLOBAL_SIDE_METADATA_BASE_ADDRESS,
        num_of_bits: 1,
        log_min_obj_size: 0,
    };

    assert_eq!(meta_byte_lshift(spec, addr(0)), 0);
    assert_eq!(meta_byte_lshift(spec, addr(5)), 5);
    assert_eq!(meta_byte_lshift(spec, addr(15)), 7);

    spec.num_of_bits = 4;

    assert_eq!(meta_byte_lshift(spec, addr(0)), 0);
    assert_eq!(meta_byte_lshift(spec, addr(5)), 4);
    assert_eq!(meta_byte_lshift(spec, addr(15)), 4);
    assert_eq!(meta_byte_lshift(spec, addr(0x10010)), 0);
}

#[test]
fn test_side_metadata_try_mmap_metadata() {
    let heap_start = Address::from_u64(HEAP_START);
    let mut gspec = MetadataSpec {
        is_on_side: true,
        scope: MetadataScope::Global,
        offset: GLOBAL_SIDE_METADATA_BASE_ADDRESS,
        num_of_bits: 1,
        log_min_obj_size: 0,
    };
    let mut lspec = MetadataSpec {
        is_on_side: true,
        scope: MetadataScope::PolicySpecific,
        offset: LOCAL_SIDE_METADATA_BASE_ADDRESS,
        num_of_bits: 2,
        log_min_obj_size: 1,
    };

    let mut metadata = SideMetadata::new(SideMetadataContext {
        global: vec![gspec],
        local: vec![lspec],
    });

    let mut metadata_sanity = SideMetadataSanity::new();
    assert!(metadata_sanity.verify_metadata_context("NoPolicy", metadata.get_context()));

    assert!(metadata.try_map_metadata_space(heap_start, BYTES_IN_PAGE).is_ok());

    assert!(ensure_metadata_is_mapped(&metadata, gspec, heap_start));
    assert!(ensure_metadata_is_mapped(&metadata, lspec, heap_start));
    assert!(ensure_metadata_is_mapped(
        &metadata,
        gspec,
        Address::from_u64(HEAP_START + BYTES_IN_PAGE - 1)
    ));
    assert!(ensure_metadata_is_mapped(
        &metadata,
        lspec,
        Address::from_u64(HEAP_START + BYTES_IN_PAGE - 1)
    ));

    metadata.ensure_unmap_metadata_space(heap_start, BYTES_IN_PAGE);

    gspec.log_min_obj_size = 3;
    gspec.num_of_bits = 4;
    lspec.log_min_obj_size = 4;
    lspec.num_of_bits = 4;

    metadata_sanity.reset();

    let mut metadata = SideMetadata::new(SideMetadataContext {
        global: vec![gspec],
        local: vec![lspec],
    });

    assert!(metadata_sanity.verify_metadata_context("NoPolicy", metadata.get_context()));
    metadata_sanity.reset();

    assert!(metadata
        .try_map_metadata_space(Address::from_u64(HEAP_START + BYTES_IN_CHUNK), BYTES_IN_CHUNK)
        .is_ok());

    assert!(ensure_metadata_is_mapped(
        &metadata,
        gspec,
        Address::from_u64(HEAP_START + BYTES_IN_CHUNK)
    ));
    assert!(ensure_metadata_is_mapped(
        &metadata,
        lspec,
        Address::from_u64(HEAP_START + BYTES_IN_CHUNK)
    ));
    assert!(ensure_metadata_is_mapped(
        &metadata,
        gspec,
        Address::from_u64(HEAP_START + BYTES_IN_CHUNK * 2 - 8)
    ));
    assert!(ensure_metadata_is_mapped(
        &metadata,
        lspec,
        Address::from_u64(HEAP_START + BYTES_IN_CHUNK * 2 - 16)
    ));

    metadata.ensure_unmap_metadata_space(
        Address::from_u64(HEAP_START + BYTES_IN_CHUNK),
        BYTES_IN_CHUNK,
    );
    assert!(!ensure_metadata_is_mapped(
        &metadata,
        gspec,
        Address::from_u64(HEAP_START + BYTES_IN_CHUNK)
    ));
}

#[test]
fn test_side_metadata_atomic_fetch_add_sub_ge8bits() {
    let data_addr = Address::from_u64(HEAP_START);

    let metadata_1_spec = MetadataSpec {
        is_on_side: true,
        scope: MetadataScope::Global,
        offset: GLOBAL_SIDE_METADATA_BASE_ADDRESS,
        num_of_bits: 16,
        log_min_obj_size: 6,
    };

    let metadata_2_spec = MetadataSpec {
        is_on_side: true,
        scope: MetadataScope::Global,
        offset: metadata_1_spec.offset + metadata_address_range_size(metadata_1_spec),
        num_of_bits: 8,
        log_min_obj_size: 7,
    };

    let mut metadata = SideMetadata::new(SideMetadataContext {
        global: vec![metadata_1_spec, metadata_2_spec],
        local: vec![],
    });

    let mut metadata_sanity = SideMetadataSanity::new();
    assert!(metadata_sanity.verify_metadata_context("NoPolicy", metadata.get_context()));

    assert!(metadata.try_map_metadata_space(data_addr, BYTES_IN_PAGE).is_ok());

    let zero = fetch_add_atomic(&mut metadata, metadata_1_spec, data_addr, 5);
    assert_eq!(zero, 0);

    let five = load_atomic(&metadata, metadata_1_spec, data_addr);
    assert_eq!(five, 5);

    let zero = fetch_add_atomic(&mut metadata, metadata_2_spec, data_addr, 5);
    assert_eq!(zero, 0);

    let five = load_atomic(&metadata, metadata_2_spec, data_addr);
    assert_eq!(five, 5);

    let another_five = fetch_sub_atomic(&mut metadata, metadata_1_spec, data_addr, 2);
    assert_eq!(another_five, 5);

    let three = load_atomic(&metadata, metadata_1_spec, data_addr);
    assert_eq!(three, 3);

    let another_five = fetch_sub_atomic(&mut metadata, metadata_2_spec, data_addr, 2);
    assert_eq!(another_five, 5);

    let three = load_atomic(&metadata, metadata_2_spec, data_addr);
    assert_eq!(three, 3);

    metadata.ensure_unmap_metadata_space(data_addr, BYTES_IN_PAGE);
    metadata_sanity.reset();
}

#[test]
fn test_side_metadata_atomic_fetch_add_sub_2bits() {
    let data_addr = Address::from_u64(HEAP_START + (BYTES_IN_CHUNK << 1));

    let metadata_1_spec = MetadataSpec {
        is_on_side: true,
        scope: MetadataScope::Global,
        offset: GLOBAL_SIDE_METADATA_BASE_ADDRESS,
        num_of_bits: 2,
        log_min_obj_size: LOG_BYTES_IN_WORD,
    };

    let mut metadata = SideMetadata::new(SideMetadataContext {
        global: vec![metadata_1_spec],
        local: vec![],
    });

    let mut metadata_sanity = SideMetadataSanity::new();
    assert!(metadata_sanity.verify_metadata_context("NoPolicy", metadata.get_context()));

    assert!(metadata.try_map_metadata_space(data_addr, BYTES_IN_PAGE).is_ok());

    let zero = fetch_add_atomic(&mut metadata, metadata_1_spec, data_addr, 2);
    assert_eq!(zero, 0);

    let two = load_atomic(&metadata, metadata_1_spec, data_addr);
    assert_eq!(two, 2);

    let another_two = fetch_sub_atomic(&mut metadata, metadata_1_spec, data_addr, 1);
    assert_eq!(another_two, 2);

    let one = load_atomic(&metadata, metadata_1_spec, data_addr);
    assert_eq!(one, 1);

    metadata.ensure_unmap_metadata_space(data_addr, BYTES_IN_PAGE);
    metadata_sanity.reset();
}

#[test]
fn test_side_metadata_bzero_metadata() {
    let data_addr = Address::from_u64(HEAP_START + (BYTES_IN_CHUNK << 2));

    let metadata_1_spec = MetadataSpec {
        is_on_side: true,
        scope: MetadataScope::PolicySpecific,
        offset: LOCAL_SIDE_METADATA_BASE_ADDRESS,
        num_of_bits: 16,
        log_min_obj_size: 9,
    };
    let metadata_2_spec = MetadataSpec {
        is_on_side: true,
        scope: MetadataScope::PolicySpecific,
        offset: metadata_1_spec.offset + metadata_address_range_size(metadata_1_spec),
        num_of_bits: 8,
        log_min_obj_size: 7,
    };

    let mut metadata = SideMetadata::new(SideMetadataContext {
        global: vec![],
        local: vec![metadata_1_spec, metadata_2_spec],
    });

    let mut metadata_sanity = SideMetadataSanity::new();
    assert!(metadata_sanity.verify_metadata_context("NoPolicy", metadata.get_context()));

    assert!(metadata.try_map_metadata_space(data_addr, BYTES_IN_PAGE).is_ok());

    let zero = fetch_add_atomic(&mut metadata, metadata_1_spec, data_addr, 5);
    assert_eq!(zero, 0);

    let five = load_atomic(&metadata, metadata_1_spec, data_addr);
    assert_eq!(five, 5);

    let zero = fetch_add_atomic(&mut metadata, metadata_2_spec, data_addr, 5);
    assert_eq!(zero, 0);

    let five = load_atomic(&metadata, metadata_2_spec, data_addr);
    assert_eq!(five, 5);

    bzero_metadata(&mut metadata, metadata_2_spec, data_addr, BYTES_IN_PAGE);

    let five = load_atomic(&metadata, metadata_1_spec, data_addr);
    assert_eq!(five, 5);
    let five = load_atomic(&metadata, metadata_2_spec, data_addr);
    assert_eq!(five, 0);

    bzero_metadata(&mut metadata, metadata_1_spec, data_addr, BYTES_IN_PAGE);

    let five = load_atomic(&metadata, metadata_1_spec, data_addr);
    assert_eq!(five, 0);
    let five = load_atomic(&metadata, metadata_2_spec, data_addr);
    assert_eq!(five, 0);

    metadata.ensure_unmap_metadata_space(data_addr, BYTES_IN_PAGE);
    metadata_sanity.reset();
}
