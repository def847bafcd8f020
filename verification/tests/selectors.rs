use padz::index::{DisplayIndex, PadSelector};
use padz::selectors::{
    normalize_single_to_deleted, normalize_to_archived_index, normalize_to_deleted_index, parse_selectors,
    parse_selectors_for_deleted,
};

#[test]
fn api_test_parse_selectors_single_index() {
    let inputs = vec!["1"];
    let selectors = parse_selectors(&inputs).unwrap();

    assert_eq!(selectors.len(), 1);
    assert!(matches!(selectors[0], PadSelector::Path(_)));
}

#[test]
fn api_test_parse_selectors_multiple_indexes() {
    let inputs = vec!["1", "3", "5"];
    let selectors = parse_selectors(&inputs).unwrap();

    assert_eq!(selectors.len(), 3);
}

#[test]
fn api_test_parse_selectors_deduplicates() {
    let inputs = vec!["1", "1", "2", "1"];
    let selectors = parse_selectors(&inputs).unwrap();

    // Should deduplicate: [1, 2]
    assert_eq!(selectors.len(), 2);
}

#[test]
fn api_test_parse_selectors_title_fallback() {
    let inputs = vec!["meeting", "notes"];
    let selectors = parse_selectors(&inputs).unwrap();

    assert_eq!(selectors.len(), 1);
    match &selectors[0] {
        PadSelector::Title(term) => assert_eq!(term, "meeting notes"),
        _ => panic!("Expected Title selector"),
    }
}

#[test]
fn api_test_parse_selectors_mixed_input_becomes_title() {
    let inputs = vec!["1", "meeting", "2"];
    let selectors = parse_selectors(&inputs).unwrap();

    assert_eq!(selectors.len(), 1);
    match &selectors[0] {
        PadSelector::Title(term) => assert_eq!(term, "1 meeting 2"),
        _ => panic!("Expected Title selector"),
    }
}

#[test]
fn api_test_parse_selectors_range() {
    let inputs = vec!["1-3"];
    let selectors = parse_selectors(&inputs).unwrap();

    assert_eq!(selectors.len(), 1);
    assert!(matches!(selectors[0], PadSelector::Range(_, _)));
}

#[test]
fn api_test_normalize_single_to_deleted() {
    assert_eq!(normalize_single_to_deleted("1"), "d1");
    assert_eq!(normalize_single_to_deleted("42"), "d42");

    assert_eq!(normalize_single_to_deleted("d1"), "d1");
    assert_eq!(normalize_single_to_deleted("d42"), "d42");

    assert_eq!(normalize_single_to_deleted("p1"), "p1");
    assert_eq!(normalize_single_to_deleted("p99"), "p99");

    assert_eq!(normalize_single_to_deleted(""), "");

    assert_eq!(normalize_single_to_deleted("abc"), "abc");
}

#[test]
fn api_test_normalize_to_deleted_index_ranges() {
    assert_eq!(normalize_to_deleted_index("3-5"), "d3-d5");
    assert_eq!(normalize_to_deleted_index("1-10"), "d1-d10");

    assert_eq!(normalize_to_deleted_index("d3-d5"), "d3-d5");

    assert_eq!(normalize_to_deleted_index("3-d5"), "d3-d5");
    assert_eq!(normalize_to_deleted_index("d3-5"), "d3-d5");

    assert_eq!(normalize_to_deleted_index("3"), "d3");
    assert_eq!(normalize_to_deleted_index("d3"), "d3");

    assert_eq!(normalize_to_deleted_index("1.2"), "1.d2");
    assert_eq!(normalize_to_deleted_index("p1.2"), "p1.d2");
    assert_eq!(normalize_to_deleted_index("d1.2"), "d1.d2");
    assert_eq!(normalize_to_deleted_index("1.p2"), "1.p2");
    assert_eq!(normalize_to_deleted_index("1.d2"), "1.d2");
    assert_eq!(normalize_to_deleted_index("1.2-1.4"), "1.d2-1.d4");
    assert_eq!(normalize_to_deleted_index("d1.2-d1.4"), "d1.d2-d1.d4");
}

#[test]
fn api_test_parse_selectors_for_deleted() {
    let inputs = vec!["1", "3", "d5"];
    let selectors = parse_selectors_for_deleted(&inputs).unwrap();

    assert_eq!(selectors.len(), 3);
    assert!(matches!(selectors[0], PadSelector::Path(_)));
    if let PadSelector::Path(path) = &selectors[0] {
        assert_eq!(path.len(), 1);
        assert!(matches!(path[0], DisplayIndex::Deleted(1)));
    }
    if let PadSelector::Path(path) = &selectors[1] {
        assert_eq!(path.len(), 1);
        assert!(matches!(path[0], DisplayIndex::Deleted(3)));
    }
    if let PadSelector::Path(path) = &selectors[2] {
        assert_eq!(path.len(), 1);
        assert!(matches!(path[0], DisplayIndex::Deleted(5)));
    }
}

#[test]
fn api_test_parse_selectors_for_deleted_with_range() {
    let inputs = vec!["1-3"];
    let selectors = parse_selectors_for_deleted(&inputs).unwrap();

    assert_eq!(selectors.len(), 1);
    match &selectors[0] {
        PadSelector::Range(start, end) => {
            assert_eq!(start.len(), 1);
            assert!(matches!(start[0], DisplayIndex::Deleted(1)));
            assert_eq!(end.len(), 1);
            assert!(matches!(end[0], DisplayIndex::Deleted(3)));
        }
        _ => panic!("Expected Range"),
    }
}

#[test]
fn api_test_parse_selectors_for_deleted_with_hierarchical_range() {
    let inputs = vec!["1.2-1.4"];
    let selectors = parse_selectors_for_deleted(&inputs).unwrap();

    assert_eq!(selectors.len(), 1);
    match &selectors[0] {
        PadSelector::Range(start_path, end_path) => {
            assert_eq!(start_path.len(), 2);
            assert!(matches!(start_path[0], DisplayIndex::Regular(1)));
            assert!(matches!(start_path[1], DisplayIndex::Deleted(2)));

            assert_eq!(end_path.len(), 2);
            assert!(matches!(end_path[0], DisplayIndex::Regular(1)));
            assert!(matches!(end_path[1], DisplayIndex::Deleted(4)));
        }
        _ => panic!("Expected PadSelector::Range"),
    }
}

#[test]
fn selectors_test_parse_selectors_single_index() {
    let inputs = vec!["1"];
    let selectors = parse_selectors(&inputs).unwrap();

    assert_eq!(selectors.len(), 1);
    assert!(matches!(selectors[0], PadSelector::Path(_)));
}

#[test]
fn selectors_test_parse_selectors_multiple_indexes() {
    let inputs = vec!["1", "3", "5"];
    let selectors = parse_selectors(&inputs).unwrap();

    assert_eq!(selectors.len(), 3);
}

#[test]
fn selectors_test_parse_selectors_deduplicates() {
    let inputs = vec!["1", "1", "2", "1"];
    let selectors = parse_selectors(&inputs).unwrap();

    // Should deduplicate: [1, 2]
    assert_eq!(selectors.len(), 2);
}

#[test]
fn selectors_test_parse_selectors_title_fallback() {
    let inputs = vec!["meeting", "notes"];
    let selectors = parse_selectors(&inputs).unwrap();

    assert_eq!(selectors.len(), 1);
    match &selectors[0] {
        PadSelector::Title(term) => assert_eq!(term, "meeting notes"),
        _ => panic!("Expected Title selector"),
    }
}

#[test]
fn selectors_test_parse_selectors_mixed_input_becomes_title() {
    let inputs = vec!["1", "meeting", "2"];
    let selectors = parse_selectors(&inputs).unwrap();

    assert_eq!(selectors.len(), 1);
    match &selectors[0] {
        PadSelector::Title(term) => assert_eq!(term, "1 meeting 2"),
        _ => panic!("Expected Title selector"),
    }
}

#[test]
fn selectors_test_parse_selectors_range() {
    let inputs = vec!["1-3"];
    let selectors = parse_selectors(&inputs).unwrap();

    assert_eq!(selectors.len(), 1);
    assert!(matches!(selectors[0], PadSelector::Range(_, _)));
}

#[test]
fn selectors_test_normalize_single_to_deleted() {
    assert_eq!(normalize_single_to_deleted("1"), "d1");
    assert_eq!(normalize_single_to_deleted("42"), "d42");

    assert_eq!(normalize_single_to_deleted("d1"), "d1");
    assert_eq!(normalize_single_to_deleted("d42"), "d42");

    assert_eq!(normalize_single_to_deleted("p1"), "p1");
    assert_eq!(normalize_single_to_deleted("p99"), "p99");

    assert_eq!(normalize_single_to_deleted(""), "");

    assert_eq!(normalize_single_to_deleted("abc"), "abc");
}

#[test]
fn selectors_test_normalize_to_deleted_index_ranges() {
    assert_eq!(normalize_to_deleted_index("3-5"), "d3-d5");
    assert_eq!(normalize_to_deleted_index("1-10"), "d1-d10");

    assert_eq!(normalize_to_deleted_index("d3-d5"), "d3-d5");

    assert_eq!(normalize_to_deleted_index("3-d5"), "d3-d5");
    assert_eq!(normalize_to_deleted_index("d3-5"), "d3-d5");

    assert_eq!(normalize_to_deleted_index("3"), "d3");
    assert_eq!(normalize_to_deleted_index("d3"), "d3");

    assert_eq!(normalize_to_deleted_index("1.2"), "1.d2");
    assert_eq!(normalize_to_deleted_index("p1.2"), "p1.d2");
    assert_eq!(normalize_to_deleted_index("d1.2"), "d1.d2");
    assert_eq!(normalize_to_deleted_index("1.p2"), "1.p2");
    assert_eq!(normalize_to_deleted_index("1.d2"), "1.d2");
    assert_eq!(normalize_to_deleted_index("1.2-1.4"), "1.d2-1.d4");
    assert_eq!(normalize_to_deleted_index("d1.2-d1.4"), "d1.d2-d1.d4");
}

#[test]
fn selectors_test_parse_selectors_for_deleted() {
    let inputs = vec!["1", "3", "d5"];
    let selectors = parse_selectors_for_deleted(&inputs).unwrap();

    assert_eq!(selectors.len(), 3);
    assert!(matches!(selectors[0], PadSelector::Path(_)));
    if let PadSelector::Path(path) = &selectors[0] {
        assert_eq!(path.len(), 1);
        assert!(matches!(path[0], DisplayIndex::Deleted(1)));
    }
    if let PadSelector::Path(path) = &selectors[1] {
        assert_eq!(path.len(), 1);
        assert!(matches!(path[0], DisplayIndex::Deleted(3)));
    }
    if let PadSelector::Path(path) = &selectors[2] {
        assert_eq!(path.len(), 1);
        assert!(matches!(path[0], DisplayIndex::Deleted(5)));
    }
}

#[test]
fn selectors_test_parse_selectors_for_deleted_with_range() {
    let inputs = vec!["1-3"];
    let selectors = parse_selectors_for_deleted(&inputs).unwrap();

    assert_eq!(selectors.len(), 1);
    match &selectors[0] {
        PadSelector::Range(start, end) => {
            assert_eq!(start.len(), 1);
            assert!(matches!(start[0], DisplayIndex::Deleted(1)));
            assert_eq!(end.len(), 1);
            assert!(matches!(end[0], DisplayIndex::Deleted(3)));
        }
        _ => panic!("Expected Range"),
    }
}

#[test]
fn selectors_test_parse_selectors_for_deleted_with_hierarchical_range() {
    let inputs = vec!["1.2-1.4"];
    let selectors = parse_selectors_for_deleted(&inputs).unwrap();

    assert_eq!(selectors.len(), 1);
    match &selectors[0] {
        PadSelector::Range(start_path, end_path) => {
            assert_eq!(start_path.len(), 2);
            assert!(matches!(start_path[0], DisplayIndex::Regular(1)));
            assert!(matches!(start_path[1], DisplayIndex::Deleted(2)));

            assert_eq!(end_path.len(), 2);
            assert!(matches!(end_path[0], DisplayIndex::Regular(1)));
            assert!(matches!(end_path[1], DisplayIndex::Deleted(4)));
        }
        _ => panic!("Expected PadSelector::Range"),
    }
}

#[test]
fn test_parse_selectors_mixed_di_and_short_uuid() {
    let inputs = vec!["1", "4", "766d5dab"];
    let selectors = parse_selectors(&inputs).unwrap();

    assert_eq!(selectors.len(), 3);
    assert!(matches!(&selectors[0], PadSelector::Path(_)));
    assert!(matches!(&selectors[1], PadSelector::Path(_)));
    assert!(matches!(&selectors[2], PadSelector::ShortUuid(h) if h == "766d5dab"));
}

#[test]
fn test_parse_selectors_short_uuid_only() {
    let inputs = vec!["abcdef01"];
    let selectors = parse_selectors(&inputs).unwrap();

    assert_eq!(selectors.len(), 1);
    assert!(matches!(&selectors[0], PadSelector::ShortUuid(h) if h == "abcdef01"));
}

#[test]
fn test_parse_selectors_full_uuid_still_works() {
    let inputs = vec!["550e8400-e29b-41d4-a716-446655440000"];
    let selectors = parse_selectors(&inputs).unwrap();

    assert_eq!(selectors.len(), 1);
    assert!(matches!(&selectors[0], PadSelector::Uuid(_)));
}

#[test]
fn test_parse_selectors_non_hex_still_becomes_title() {
    let inputs = vec!["meeting"];
    let selectors = parse_selectors(&inputs).unwrap();

    assert_eq!(selectors.len(), 1);
    assert!(matches!(&selectors[0], PadSelector::Title(_)));
}

#[test]
fn test_normalize_to_deleted_preserves_short_uuid() {
    assert_eq!(normalize_to_deleted_index("766d5dab"), "766d5dab");
}

#[test]
fn test_normalize_to_deleted_preserves_full_uuid() {
    assert_eq!(
        normalize_to_deleted_index("550e8400-e29b-41d4-a716-446655440000"),
        "550e8400-e29b-41d4-a716-446655440000"
    );
}

#[test]
fn test_normalize_to_archived_preserves_short_uuid() {
    assert_eq!(normalize_to_archived_index("766d5dab"), "766d5dab");
}

#[test]
fn test_normalize_to_archived_preserves_full_uuid() {
    assert_eq!(
        normalize_to_archived_index("550e8400-e29b-41d4-a716-446655440000"),
        "550e8400-e29b-41d4-a716-446655440000"
    );
}

#[test]
fn archived_normalization_prefixes_bare_numbers() {
    assert_eq!(normalize_to_archived_index("3-5"), "ar3-ar5");
    assert_eq!(normalize_to_archived_index("1.2"), "1.ar2");
    assert_eq!(normalize_to_archived_index("ar3"), "ar3");
}
