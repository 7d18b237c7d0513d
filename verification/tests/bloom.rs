use tsfile::utils::bloom_filter::BloomFilter;
use tsfile::utils::byte_reader::ByteReader;

#[test]
fn added_paths_are_contained() {
    let mut f = BloomFilter::with_size(256, 5);
    assert!(!f.is_empty());
    assert!(!f.contains("root.sg.d1.s1"));
    f.add("root.sg.d1.s1");
    f.add("root.sg.d2.s7");
    assert!(f.contains("root.sg.d1.s1"));
    assert!(f.contains("root.sg.d2.s7"));
}

#[test]
fn empty_filter_reports_nothing() {
    let mut f = BloomFilter::empty();
    assert!(f.is_empty());
    f.add("a");
    assert!(!f.contains("a"));
}

#[test]
fn serialized_filter_reads_back() {
    let mut f = BloomFilter::with_size(64, 3);
    f.add("root.d.s");
    let mut buf = Vec::new();
    let n = f.serialize(&mut buf).unwrap();
    assert_eq!(n, buf.len());
    let mut r = ByteReader::new(buf);
    let g = BloomFilter::deserialize(&mut r).unwrap();
    assert!(g.contains("root.d.s"));
    assert_eq!(r.remaining(), 0);
}

#[test]
fn self_described_form_always_carries_size_and_hash_count() {
    let f = BloomFilter::with_size(16, 2);
    let mut plain = Vec::new();
    f.serialize(&mut plain).unwrap();
    let mut framed = Vec::new();
    let n = f.serialize_with_self_description_length(&mut framed).unwrap();
    assert_eq!(n, framed.len());
    assert_eq!(framed, plain);
    assert_eq!(plain, vec![2, 0, 0, 16, 2]);
    let e = BloomFilter::empty();
    let mut plain = Vec::new();
    e.serialize(&mut plain).unwrap();
    let mut framed = Vec::new();
    e.serialize_with_self_description_length(&mut framed).unwrap();
    assert_eq!(plain, vec![0]);
    assert_eq!(framed, vec![0, 0, 0]);
}
