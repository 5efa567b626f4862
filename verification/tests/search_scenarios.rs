use memedit::model::{
    Alignment, ByteOrder, Candidate, DataType, ErrorKind, Literal, MemoryRegion, Permissions,
    Predicate, RegionLabel, SearchQuery,
};
use memedit::search::{first_scan, probe, refine, retain_readable};

fn query(predicate: Predicate, data_type: DataType, literal: Option<Literal>) -> SearchQuery {
    SearchQuery {
        predicate,
        data_type,
        literal,
        byte_order: ByteOrder::Little,
        alignment: Alignment::ByteAligned,
    }
}

fn int32_equal(value: i128) -> SearchQuery {
    query(Predicate::Equal, DataType::Int32, Some(Literal::Integer(value)))
}

fn byte(address: u64, value: u8) -> Candidate {
    Candidate { address, last_known_value: vec![value], width: 1 }
}

fn addresses(candidates: &[Candidate]) -> Vec<u64> {
    candidates.iter().map(|c| c.address).collect()
}

#[test]
fn equal_int32_finds_the_one_place() {
    let region = [0x00u8, 0x00, 0x2A, 0x00, 0x00, 0x00];
    let base = 0x7f00_0000_1000u64;
    let found = first_scan(base, &region, &int32_equal(42)).unwrap();
    assert_eq!(
        found,
        vec![Candidate { address: base + 2, last_known_value: vec![0x2A, 0, 0, 0], width: 4 }]
    );
}

#[test]
fn type_aligned_scan_looks_only_at_multiples_of_the_width() {
    let region = [0x00u8, 0x00, 0x2A, 0x00, 0x00, 0x00];
    let mut aligned = int32_equal(42);
    aligned.alignment = Alignment::TypeAligned;
    assert_eq!(first_scan(0x1000, &region, &aligned), Ok(vec![]));

    let words = [0x2Au8, 0, 0, 0, 0x07, 0, 0, 0, 0x2A, 0, 0, 0, 0x2A, 0];
    let found = first_scan(0x1000, &words, &aligned).unwrap();
    assert_eq!(addresses(&found), vec![0x1000, 0x1008]);
}

#[test]
fn byte_aligned_scan_looks_at_every_offset() {
    let region = [1u8, 1, 1, 1];
    let q = query(Predicate::Equal, DataType::UInt16, Some(Literal::Integer(0x0101)));
    let found = first_scan(10, &region, &q).unwrap();
    assert_eq!(addresses(&found), vec![10, 11, 12]);
    for candidate in &found {
        assert_eq!(candidate.last_known_value, vec![1, 1]);
        assert_eq!(candidate.width, 2);
    }
}

#[test]
fn first_scan_judges_by_each_literal_predicate() {
    let region = [5u8, 9, 5, 2];
    let found = |predicate| {
        let q = query(predicate, DataType::UInt8, Some(Literal::Integer(5)));
        addresses(&first_scan(100, &region, &q).unwrap())
    };
    assert_eq!(found(Predicate::Equal), vec![100, 102]);
    assert_eq!(found(Predicate::NotEqual), vec![101, 103]);
    assert_eq!(found(Predicate::Greater), vec![101]);
    assert_eq!(found(Predicate::Less), vec![103]);
}

#[test]
fn first_scan_honours_the_byte_order() {
    let region = [0x00u8, 0x00, 0x00, 0x2A];
    let mut q = int32_equal(42);
    assert_eq!(first_scan(0, &region, &q), Ok(vec![]));
    q.byte_order = ByteOrder::Big;
    assert_eq!(addresses(&first_scan(0, &region, &q).unwrap()), vec![0]);
}

#[test]
fn first_scan_reads_signed_values() {
    let region = [0xFFu8, 0xFF, 0x01, 0x00];
    let q = query(Predicate::Less, DataType::Int16, Some(Literal::Integer(0)));
    assert_eq!(addresses(&first_scan(0, &region, &q).unwrap()), vec![0]);
    let unsigned = query(Predicate::Less, DataType::UInt16, Some(Literal::Integer(0)));
    assert_eq!(first_scan(0, &region, &unsigned), Ok(vec![]));
}

#[test]
fn a_literal_outside_the_type_matches_nothing_as_equal() {
    let region = [0x2Cu8, 0x01];
    let q = query(Predicate::Equal, DataType::UInt8, Some(Literal::Integer(300)));
    assert_eq!(first_scan(0, &region, &q), Ok(vec![]));
    let less = query(Predicate::Less, DataType::UInt8, Some(Literal::Integer(300)));
    assert_eq!(addresses(&first_scan(0, &region, &less).unwrap()), vec![0, 1]);
}

#[test]
fn byte_string_search_is_an_exact_sliding_window() {
    let region = b"xhellohelloh";
    let q = query(Predicate::Equal, DataType::Bytes(5), Some(Literal::Bytes(b"hello".to_vec())));
    let found = first_scan(0x4000, region, &q).unwrap();
    assert_eq!(addresses(&found), vec![0x4001, 0x4006]);
    assert_eq!(found[0].last_known_value, b"hello".to_vec());
    assert_eq!(found[0].width, 5);
}

#[test]
fn float_search_uses_bit_equality_and_never_finds_nan() {
    let mut region = Vec::new();
    region.extend_from_slice(&1.5f32.to_le_bytes());
    region.extend_from_slice(&f32::NAN.to_le_bytes());
    region.extend_from_slice(&(-0.0f32).to_le_bytes());
    region.extend_from_slice(&0.0f32.to_le_bytes());
    let scan = |predicate, value: f32| {
        let mut q = query(predicate, DataType::Float32, Some(Literal::Float32(value.to_bits())));
        q.alignment = Alignment::TypeAligned;
        addresses(&first_scan(0, &region, &q).unwrap())
    };
    assert_eq!(scan(Predicate::Equal, 1.5), vec![0]);
    assert_eq!(scan(Predicate::Equal, f32::NAN), Vec::<u64>::new());
    assert_eq!(scan(Predicate::NotEqual, f32::NAN), vec![0, 4, 8, 12]);
    assert_eq!(scan(Predicate::Equal, 0.0), vec![12]);
    assert_eq!(scan(Predicate::Equal, -0.0), vec![8]);
    assert_eq!(scan(Predicate::Greater, 0.0), vec![0]);
    assert_eq!(scan(Predicate::Less, 1.0), vec![8, 12]);
}

#[test]
fn first_scan_of_a_short_buffer_finds_nothing() {
    assert_eq!(first_scan(0, &[0x2A, 0, 0], &int32_equal(42)), Ok(vec![]));
    assert_eq!(first_scan(0, &[], &int32_equal(42)), Ok(vec![]));
}

#[test]
fn first_scan_rejects_what_has_nothing_to_compare_with() {
    let region = [1u8, 2, 3, 4];
    for predicate in [Predicate::Changed, Predicate::Unchanged] {
        let q = query(predicate, DataType::UInt8, Some(Literal::Integer(1)));
        assert_eq!(first_scan(0, &region, &q), Err(ErrorKind::ProtocolViolation));
        assert_eq!(probe(&region, 0, &q), Err(ErrorKind::ProtocolViolation));
    }
    for predicate in
        [Predicate::Equal, Predicate::NotEqual, Predicate::Greater, Predicate::Less]
    {
        let q = query(predicate, DataType::UInt8, None);
        assert_eq!(first_scan(0, &region, &q), Err(ErrorKind::ProtocolViolation));
    }
}

#[test]
fn first_scan_rejects_a_literal_of_the_wrong_kind() {
    let region = [1u8, 2, 3, 4];
    let cases = [
        query(Predicate::Equal, DataType::Int32, Some(Literal::Float32(0))),
        query(Predicate::Equal, DataType::Float32, Some(Literal::Integer(0))),
        query(Predicate::Equal, DataType::Float32, Some(Literal::Float64(0))),
        query(Predicate::Equal, DataType::Float64, Some(Literal::Float32(0))),
        query(Predicate::Equal, DataType::Bytes(2), Some(Literal::Bytes(vec![1, 2, 3]))),
        query(Predicate::Equal, DataType::Bytes(2), Some(Literal::Integer(1))),
        query(Predicate::Equal, DataType::UInt8, Some(Literal::Bytes(vec![1]))),
        query(Predicate::Equal, DataType::Bytes(0), Some(Literal::Bytes(vec![]))),
    ];
    for q in &cases {
        assert_eq!(first_scan(0, &region, q), Err(ErrorKind::ProtocolViolation), "{:?}", q);
    }
}

#[test]
fn first_scan_rejects_a_buffer_that_runs_past_the_last_address() {
    let region = [0x2Au8, 0, 0, 0];
    assert_eq!(first_scan(u64::MAX - 3, &region, &int32_equal(42)), Err(ErrorKind::OutOfRange));
    let found = first_scan(u64::MAX - 4, &region, &int32_equal(42)).unwrap();
    assert_eq!(addresses(&found), vec![u64::MAX - 4]);
}

#[test]
fn probe_succeeds_at_last_offset_and_fails_one_further() {
    let region = [0x00u8, 0x00, 0x2A, 0x00, 0x00, 0x00];
    let q = int32_equal(42);
    assert_eq!(probe(&region, 6 - 4, &q), Ok(true));
    assert_eq!(probe(&region, 6 - 4 + 1, &q), Err(ErrorKind::OutOfRange));
    assert_eq!(probe(&region, 0, &q), Ok(false));
}

#[test]
fn probe_does_not_wrap_around() {
    let region = [0x2Au8, 0, 0, 0];
    let q = int32_equal(42);
    assert_eq!(probe(&region, usize::MAX, &q), Err(ErrorKind::OutOfRange));
    assert_eq!(probe(&region, usize::MAX - 3, &q), Err(ErrorKind::OutOfRange));
    assert_eq!(probe(&region, usize::MAX - 2, &q), Err(ErrorKind::OutOfRange));
}

#[test]
fn probe_boundary_holds_for_every_width() {
    let region = [0u8; 16];
    let types = [
        DataType::UInt8,
        DataType::Int16,
        DataType::UInt32,
        DataType::Int64,
        DataType::Bytes(16),
    ];
    for data_type in types {
        let literal = match data_type {
            DataType::Bytes(n) => Literal::Bytes(vec![0; n]),
            _ => Literal::Integer(0),
        };
        let q = query(Predicate::Equal, data_type, Some(literal));
        let width = data_type.width();
        assert_eq!(probe(&region, 16 - width, &q), Ok(true));
        assert_eq!(probe(&region, 16 - width + 1, &q), Err(ErrorKind::OutOfRange));
    }
}

#[test]
fn changed_keeps_and_updates_then_unchanged_drops() {
    let mut snapshot1 = vec![0u8; 8];
    snapshot1[5] = 0x10;
    let mut snapshot2 = snapshot1.clone();
    snapshot2[5] = 0x20;
    let changed = query(Predicate::Changed, DataType::UInt8, None);
    let unchanged = query(Predicate::Unchanged, DataType::UInt8, None);

    let mut candidates = vec![byte(5, snapshot1[5])];
    refine(&mut candidates, &[Some(vec![snapshot2[5]])], &changed).unwrap();
    assert_eq!(candidates, vec![byte(5, 0x20)]);

    let mut against_first = vec![byte(5, snapshot1[5])];
    refine(&mut against_first, &[Some(vec![snapshot2[5]])], &unchanged).unwrap();
    assert!(against_first.is_empty());

    let mut moved_on = candidates.clone();
    refine(&mut moved_on, &[Some(vec![0x30])], &unchanged).unwrap();
    assert!(moved_on.is_empty());

    refine(&mut candidates, &[Some(vec![snapshot2[5]])], &unchanged).unwrap();
    assert_eq!(candidates, vec![byte(5, 0x20)]);
}

#[test]
fn repeated_unchanged_is_a_fixed_point() {
    let memory = [7u8, 8, 9, 10, 11];
    let read = |candidates: &[Candidate]| -> Vec<Option<Vec<u8>>> {
        candidates
            .iter()
            .map(|c| memory.get(c.address as usize).map(|b| vec![*b]))
            .collect()
    };
    let unchanged = query(Predicate::Unchanged, DataType::UInt8, None);
    let mut candidates = vec![byte(0, 7), byte(1, 0), byte(2, 9), byte(4, 11), byte(9, 1)];
    let reads = read(&candidates);
    refine(&mut candidates, &reads, &unchanged).unwrap();
    assert_eq!(candidates, vec![byte(0, 7), byte(2, 9), byte(4, 11)]);
    let once = candidates.clone();
    for _ in 0..3 {
        let reads = read(&candidates);
        refine(&mut candidates, &reads, &unchanged).unwrap();
        assert_eq!(candidates, once);
    }
}

#[test]
fn unchanged_drops_a_nan_even_when_the_bits_stay() {
    let nan = f32::NAN.to_le_bytes().to_vec();
    let unchanged = query(Predicate::Unchanged, DataType::Float32, None);
    let mut candidates = vec![Candidate { address: 0, last_known_value: nan.clone(), width: 4 }];
    refine(&mut candidates, &[Some(nan)], &unchanged).unwrap();
    assert!(candidates.is_empty());
}

#[test]
fn refinement_never_grows_the_list() {
    let predicates = [
        Predicate::Equal,
        Predicate::NotEqual,
        Predicate::Greater,
        Predicate::Less,
        Predicate::Changed,
        Predicate::Unchanged,
    ];
    let reads = vec![Some(vec![1u8]), Some(vec![5]), None, Some(vec![9]), Some(vec![5, 5])];
    for predicate in predicates {
        let q = query(predicate, DataType::UInt8, Some(Literal::Integer(5)));
        let before = vec![byte(1, 5), byte(2, 5), byte(3, 5), byte(4, 5), byte(6, 5)];
        let mut after = before.clone();
        refine(&mut after, &reads, &q).unwrap();
        assert!(after.len() <= before.len());
        assert!(after.windows(2).all(|pair| pair[0].address < pair[1].address));
        for candidate in &after {
            assert!(before.iter().any(|old| old.address == candidate.address));
        }
    }
}

#[test]
fn refinement_compares_with_the_literal_or_with_the_last_value() {
    let reads = vec![Some(vec![4u8]), Some(vec![5]), Some(vec![6])];
    let run = |predicate| {
        let q = query(predicate, DataType::UInt8, Some(Literal::Integer(6)));
        let mut candidates = vec![byte(10, 5), byte(11, 5), byte(12, 5)];
        refine(&mut candidates, &reads, &q).unwrap();
        candidates
    };
    assert_eq!(run(Predicate::Equal), vec![byte(12, 6)]);
    assert_eq!(run(Predicate::NotEqual), vec![byte(10, 4), byte(11, 5)]);
    assert_eq!(run(Predicate::Greater), vec![byte(12, 6)]);
    assert_eq!(run(Predicate::Less), vec![byte(10, 4)]);
    assert_eq!(run(Predicate::Changed), vec![byte(10, 4), byte(12, 6)]);
    assert_eq!(run(Predicate::Unchanged), vec![byte(11, 5)]);
}

#[test]
fn refinement_drops_a_candidate_whose_read_failed() {
    let q = query(Predicate::NotEqual, DataType::UInt8, Some(Literal::Integer(0)));
    let mut candidates = vec![byte(1, 1), byte(2, 2), byte(3, 3)];
    refine(&mut candidates, &[Some(vec![1]), None, Some(vec![3])], &q).unwrap();
    assert_eq!(addresses(&candidates), vec![1, 3]);
}

#[test]
fn refinement_counts_a_missing_read_as_failed() {
    let q = query(Predicate::NotEqual, DataType::UInt8, Some(Literal::Integer(0)));
    let mut candidates = vec![byte(1, 1), byte(2, 2), byte(3, 3)];
    refine(&mut candidates, &[Some(vec![1])], &q).unwrap();
    assert_eq!(addresses(&candidates), vec![1]);
    refine(&mut candidates, &[], &q).unwrap();
    assert!(candidates.is_empty());
}

#[test]
fn refinement_drops_a_read_of_the_wrong_length() {
    let q = query(Predicate::NotEqual, DataType::UInt16, Some(Literal::Integer(0)));
    let wide = |address| Candidate { address, last_known_value: vec![1, 1], width: 2 };
    let mut candidates = vec![wide(0), wide(2), byte(4, 1)];
    refine(
        &mut candidates,
        &[Some(vec![1]), Some(vec![2, 2]), Some(vec![3, 3])],
        &q,
    )
    .unwrap();
    assert_eq!(
        candidates,
        vec![Candidate { address: 2, last_known_value: vec![2, 2], width: 2 }]
    );
}

#[test]
fn refinement_needs_a_literal_only_for_equal_and_not_equal() {
    for predicate in [Predicate::Equal, Predicate::NotEqual] {
        let mut candidates = vec![byte(1, 1)];
        let q = query(predicate, DataType::UInt8, None);
        assert_eq!(
            refine(&mut candidates, &[Some(vec![1])], &q),
            Err(ErrorKind::ProtocolViolation)
        );
        assert_eq!(candidates, vec![byte(1, 1)]);
        let wrong = query(predicate, DataType::UInt8, Some(Literal::Float32(1)));
        assert_eq!(
            refine(&mut candidates, &[Some(vec![1])], &wrong),
            Err(ErrorKind::ProtocolViolation)
        );
        assert_eq!(candidates, vec![byte(1, 1)]);
    }
    for predicate in
        [Predicate::Greater, Predicate::Less, Predicate::Changed, Predicate::Unchanged]
    {
        let mut candidates = vec![byte(1, 1)];
        let q = query(predicate, DataType::UInt8, None);
        assert_eq!(refine(&mut candidates, &[Some(vec![1])], &q), Ok(()));
    }
    let mut candidates = vec![byte(1, 1)];
    let empty = query(Predicate::Changed, DataType::Bytes(0), None);
    assert_eq!(refine(&mut candidates, &[Some(vec![])], &empty), Err(ErrorKind::ProtocolViolation));
}

#[test]
fn retain_readable_drops_what_the_regions_do_not_cover() {
    let region = |start, end, read| MemoryRegion {
        start_address: start,
        end_address: end,
        permissions: Permissions { read, write: false, execute: false },
        backing_path: None,
        label: RegionLabel::Anonymous,
    };
    let regions = vec![region(0x100, 0x110, true), region(0x200, 0x210, false)];
    let wide = |address| Candidate { address, last_known_value: vec![0; 4], width: 4 };
    let mut candidates =
        vec![wide(0xFE), wide(0x100), wide(0x10C), wide(0x10D), wide(0x204), wide(0x300)];
    retain_readable(&mut candidates, &regions);
    assert_eq!(addresses(&candidates), vec![0x100, 0x10C]);
}
