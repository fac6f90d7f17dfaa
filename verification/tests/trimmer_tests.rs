use cuckatoo::bitmap::Bitmap;
use cuckatoo::bitmap_trimming::BitmapTrimmer;
use cuckatoo::exact_siphash::ExactSipHash;
use cuckatoo::exact_trimming::ExactTrimmer;
use cuckatoo::hashing::SipHash;
use cuckatoo::types::Header;

#[test]
fn test_bitmap_trimmer_basic() {
    let header = Header::new(&[0u8; 238]);
    let siphash = SipHash::new_from_header(&header, 0);
    let mut trimmer = BitmapTrimmer::new(10);

    let result = trimmer.trim_edges(&siphash, 1);
    assert!(result.is_ok());

    let edges = result.unwrap();
    assert!(!edges.is_empty());
    assert!(edges.len() < 1024);
}

#[test]
fn bitmap_trimming_test_bitmap_operations() {
    let _trimmer = BitmapTrimmer::new(10);
    let mut bitmap = vec![0u64; 2];

    BitmapTrimmer::set_bit_in_bitmap(&mut bitmap, 0);
    assert!(BitmapTrimmer::is_bit_set_in_bitmap(&bitmap, 0));
    assert!(!BitmapTrimmer::is_bit_set_in_bitmap(&bitmap, 1));

    BitmapTrimmer::set_bit_in_bitmap(&mut bitmap, 65);
    assert!(BitmapTrimmer::is_bit_set_in_bitmap(&bitmap, 65));
}

#[test]
fn test_exact_trimmer_basic() {
    let keys = [0x1234567890abcdef, 0xfedcba0987654321, 0x1111222233334444, 0x5555666677778888];
    let siphash = ExactSipHash::new(keys, 8);
    let mut trimmer = ExactTrimmer::new(8);

    let result = trimmer.trim_edges(&siphash, 1);
    assert!(result.is_ok());

    let edges = result.unwrap();
    assert!(!edges.is_empty());
    assert!(edges.len() < 256);
}

#[test]
fn exact_trimming_test_bitmap_operations() {
    let mut trimmer = ExactTrimmer::new(8);

    trimmer.set_bit_in_nodes_bitmap(0);
    assert!(trimmer.is_bit_set_in_nodes_bitmap(0));
    assert!(!trimmer.is_bit_set_in_nodes_bitmap(1));

    trimmer.set_bit_in_nodes_bitmap(65);
    assert!(trimmer.is_bit_set_in_nodes_bitmap(65));
}

#[test]
fn exact_trimmer_one_round_population() {
    let keys = [0x1234567890abcdef, 0xfedcba0987654321, 0x1111222233334444, 0x5555666677778888];
    let siphash = ExactSipHash::new(keys, 8);
    let mut trimmer = ExactTrimmer::new(8);
    let edges = trimmer.trim_edges(&siphash, 1).unwrap();
    assert_eq!(edges.len(), 62);
}

#[test]
fn bitmap_trimmer_one_round_population() {
    let header = Header::new(&[0u8; 238]);
    let siphash = SipHash::new_from_header(&header, 0);
    let mut trimmer = BitmapTrimmer::new(10);
    let edges = trimmer.trim_edges(&siphash, 1).unwrap();
    assert_eq!(edges.len(), 294);
    assert_eq!(trimmer.surviving_count(), 294);
}

#[test]
fn trim_population_is_monotonic() {
    let header = Header::new(&[0u8; 238]);
    let siphash = SipHash::new_from_header(&header, 0);
    let mut last = 1024u64;
    let mut round = 1u32;
    while round <= 12 {
        let mut trimmer = BitmapTrimmer::new(10);
        let _ = trimmer.trim_edges(&siphash, round).unwrap();
        let count = trimmer.surviving_count();
        assert!(count <= last);
        last = count;
        round += 1;
    }
}

#[test]
fn trim_reaches_fixed_point() {
    // Once a round removes nothing, further rounds change nothing.
    let header = Header::new(&[0u8; 238]);
    let siphash = SipHash::new_from_header(&header, 0);
    let mut t20 = BitmapTrimmer::new(10);
    let e20 = t20.trim_edges(&siphash, 20).unwrap();
    let mut t90 = BitmapTrimmer::new(10);
    let e90 = t90.trim_edges(&siphash, 90).unwrap();
    assert_eq!(e20, e90);
    assert_eq!(t90.surviving_count(), 14);
}

#[test]
fn trim_survivor_anchors() {
    // Reproducibility anchors for three instances, pinned once.
    let header1 = Header::new(&[0u8; 238]);
    let siphash1 = SipHash::new_from_header(&header1, 0);
    let mut t1 = BitmapTrimmer::new(10);
    let _ = t1.trim_edges(&siphash1, 90).unwrap();
    assert_eq!(t1.surviving_count(), 14);

    let siphash2 = SipHash::new_from_header(&header1, 1);
    let mut t2 = BitmapTrimmer::new(10);
    let _ = t2.trim_edges(&siphash2, 90).unwrap();
    assert_eq!(t2.surviving_count(), 19);

    let mut bytes = [0u8; 238];
    bytes[0] = 1;
    bytes[1] = 2;
    let header3 = Header::new(&bytes);
    let siphash3 = SipHash::new_from_header(&header3, 12345);
    let mut t3 = BitmapTrimmer::new(12);
    let _ = t3.trim_edges(&siphash3, 90).unwrap();
    assert_eq!(t3.surviving_count(), 20);
}

#[test]
fn bitmap_set_clear_count() {
    let mut bitmap = Bitmap::new(100);
    assert_eq!(bitmap.size(), 100);
    assert_eq!(bitmap.count_set_bits(), 0);
    bitmap.set_bit(0);
    bitmap.set_bit(63);
    bitmap.set_bit(64);
    bitmap.set_bit(99);
    bitmap.set_bit(100);
    assert_eq!(bitmap.count_set_bits(), 4);
    assert!(bitmap.is_bit_set(0));
    assert!(bitmap.is_bit_set(63));
    assert!(bitmap.is_bit_set(64));
    assert!(bitmap.is_bit_set(99));
    assert!(!bitmap.is_bit_set(1));
    assert!(!bitmap.is_bit_set(100));
    bitmap.clear_bit(63);
    assert_eq!(bitmap.count_set_bits(), 3);
    assert!(!bitmap.is_bit_set(63));
}

#[test]
fn bitmap_set_all_respects_size() {
    // The padding bits past the size never count.
    let mut bitmap = Bitmap::new(70);
    bitmap.set_all_bits();
    assert_eq!(bitmap.count_set_bits(), 70);
    let buffer = bitmap.buffer();
    assert_eq!(buffer.len(), 2);
    assert_eq!(buffer[1], (1u64 << 6) - 1);
    bitmap.clear_all_bits();
    assert_eq!(bitmap.count_set_bits(), 0);
}
