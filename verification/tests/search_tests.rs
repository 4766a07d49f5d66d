use boilmaster::data::ColumnDefinition;
use boilmaster::data::ColumnKind;
use boilmaster::data::FieldValue;
use boilmaster::data::Language;
use boilmaster::data::LanguageRows;
use boilmaster::data::RowData;
use boilmaster::data::SheetData;
use boilmaster::data::VersionKey;
use boilmaster::query::pre;
use boilmaster::query::Occur;
use boilmaster::query::Value;
use boilmaster::search::Config;
use boilmaster::search::PaginationConfig;
use boilmaster::search::Search;

fn config(limit_default: u32, limit_max: u32) -> Config {
    Config {
        pagination: PaginationConfig {
            limit_default,
            limit_max,
        },
    }
}

/// A sheet "item" with an unsigned column `x` and a text column `label`,
/// rows (1,0) x=5, (2,0) x=6, (3,0) x=5, plus subrow (3,1) x=5.
fn item_sheet() -> SheetData {
    let columns = vec![
        ColumnDefinition {
            name: "x".to_string(),
            kind: ColumnKind::UInt32,
        },
        ColumnDefinition {
            name: "label".to_string(),
            kind: ColumnKind::Text,
        },
    ];
    let rows = vec![
        RowData {
            row_id: 1,
            subrow_id: 0,
            fields: vec![FieldValue::U32(5), FieldValue::Text("alpha".to_string())],
        },
        RowData {
            row_id: 2,
            subrow_id: 0,
            fields: vec![FieldValue::U32(6), FieldValue::Text("beta".to_string())],
        },
        RowData {
            row_id: 3,
            subrow_id: 0,
            fields: vec![FieldValue::U32(5), FieldValue::Text("gamma".to_string())],
        },
        RowData {
            row_id: 3,
            subrow_id: 1,
            fields: vec![FieldValue::U32(5), FieldValue::Text("gamma2".to_string())],
        },
    ];
    SheetData {
        name: "item".to_string(),
        columns,
        languages: vec![Language::English],
        rows: vec![LanguageRows {
            language: Language::English,
            rows,
        }],
    }
}

fn equal_leaf(field: &str, value: u64) -> pre::Node {
    pre::Node::Leaf(pre::Leaf {
        field: pre::FieldSpecifier {
            name: field.to_string(),
            language: None,
        },
        operation: pre::Operation::Equal(Value::U64(value)),
    })
}

fn ingested_search() -> Search {
    let mut search = Search::new(config(10, 50)).unwrap();
    search
        .ingest(&vec![(VersionKey(1), item_sheet())])
        .unwrap();
    search
}

#[test]
fn equality_matches_only_equal_values() {
    let search = ingested_search();
    let sheets = vec![item_sheet()];

    let hits = search
        .search(
            VersionKey(1),
            &equal_leaf("x", 5),
            Language::English,
            None,
            None,
            &sheets,
        )
        .unwrap();
    let mut keys: Vec<(u32, u16)> = hits.iter().map(|h| (h.row_id, h.subrow_id)).collect();
    keys.sort();
    assert_eq!(keys, vec![(1, 0), (3, 0), (3, 1)]);
    assert!(hits.iter().all(|h| h.sheet == "item"));

    let misses = search
        .search(
            VersionKey(1),
            &equal_leaf("x", 6),
            Language::English,
            None,
            None,
            &sheets,
        )
        .unwrap();
    assert_eq!(misses.len(), 1);
    assert_eq!(misses[0].row_id, 2);
}

#[test]
fn round_trip_returns_one_hit_per_row_key() {
    let search = ingested_search();
    let sheets = vec![item_sheet()];

    // A group of two Should clauses covering every row: x = 5 or x = 6.
    let all = pre::Node::Group(pre::Group {
        clauses: vec![
            (Occur::Should, equal_leaf("x", 5)),
            (Occur::Should, equal_leaf("x", 6)),
        ],
    });
    let hits = search
        .search(VersionKey(1), &all, Language::English, None, None, &sheets)
        .unwrap();
    let mut keys: Vec<(u32, u16)> = hits.iter().map(|h| (h.row_id, h.subrow_id)).collect();
    keys.sort();
    assert_eq!(keys, vec![(1, 0), (2, 0), (3, 0), (3, 1)]);
    for hit in &hits {
        assert_eq!(hit.sheet, "item");
    }
}

#[test]
fn reingesting_same_version_sheet_is_a_no_op() {
    let mut search = ingested_search();
    // Same (version, sheet) again: the tag is already recorded, nothing is added.
    search
        .ingest(&vec![(VersionKey(1), item_sheet())])
        .unwrap();
    let sheets = vec![item_sheet()];
    let hits = search
        .search(
            VersionKey(1),
            &equal_leaf("x", 5),
            Language::English,
            None,
            None,
            &sheets,
        )
        .unwrap();
    assert_eq!(hits.len(), 3);
}

#[test]
fn boolean_must_not_excludes_matches() {
    let search = ingested_search();
    let sheets = vec![item_sheet()];
    let query = pre::Node::Group(pre::Group {
        clauses: vec![
            (Occur::Should, equal_leaf("x", 5)),
            (Occur::Should, equal_leaf("x", 6)),
            (Occur::MustNot, equal_leaf("x", 6)),
        ],
    });
    let hits = search
        .search(VersionKey(1), &query, Language::English, None, None, &sheets)
        .unwrap();
    let mut keys: Vec<(u32, u16)> = hits.iter().map(|h| (h.row_id, h.subrow_id)).collect();
    keys.sort();
    assert_eq!(keys, vec![(1, 0), (3, 0), (3, 1)]);
}

#[test]
fn empty_group_matches_nothing() {
    let search = ingested_search();
    let sheets = vec![item_sheet()];
    let query = pre::Node::Group(pre::Group { clauses: vec![] });
    let hits = search
        .search(VersionKey(1), &query, Language::English, None, None, &sheets)
        .unwrap();
    assert!(hits.is_empty());
}

#[test]
fn pagination_respects_requested_and_maximum_limits() {
    let mut search = Search::new(config(2, 3)).unwrap();
    search
        .ingest(&vec![(VersionKey(1), item_sheet())])
        .unwrap();
    let sheets = vec![item_sheet()];
    let all = pre::Node::Group(pre::Group {
        clauses: vec![
            (Occur::Should, equal_leaf("x", 5)),
            (Occur::Should, equal_leaf("x", 6)),
        ],
    });

    // Requested limit below the ceiling.
    let hits = search
        .search(
            VersionKey(1),
            &all,
            Language::English,
            None,
            Some(1),
            &sheets,
        )
        .unwrap();
    assert_eq!(hits.len(), 1);

    // Omitted limit: the default (2) applies.
    let hits = search
        .search(VersionKey(1), &all, Language::English, None, None, &sheets)
        .unwrap();
    assert_eq!(hits.len(), 2);

    // Oversized request: clamped to the ceiling (3).
    let hits = search
        .search(
            VersionKey(1),
            &all,
            Language::English,
            None,
            Some(100),
            &sheets,
        )
        .unwrap();
    assert_eq!(hits.len(), 3);
}

/// Sheet "weapon" referencing "item" rows through an unsigned column.
fn weapon_sheet() -> SheetData {
    let columns = vec![ColumnDefinition {
        name: "item_ref".to_string(),
        kind: ColumnKind::UInt32,
    }];
    let rows = vec![
        RowData {
            row_id: 10,
            subrow_id: 0,
            fields: vec![FieldValue::U32(1)],
        },
        RowData {
            row_id: 11,
            subrow_id: 0,
            fields: vec![FieldValue::U32(2)],
        },
        RowData {
            row_id: 12,
            subrow_id: 0,
            fields: vec![FieldValue::U32(4)],
        },
    ];
    SheetData {
        name: "weapon".to_string(),
        columns,
        languages: vec![Language::English],
        rows: vec![LanguageRows {
            language: Language::English,
            rows,
        }],
    }
}

#[test]
fn relation_matches_rows_referencing_matching_targets() {
    let mut search = Search::new(config(10, 50)).unwrap();
    search
        .ingest(&vec![
            (VersionKey(1), item_sheet()),
            (VersionKey(1), weapon_sheet()),
        ])
        .unwrap();
    let sheets = vec![item_sheet(), weapon_sheet()];

    // Inner query: item rows with x = 6, i.e. row 2. Weapons reference
    // items {1, 2, 4}; only the weapon referencing 2 matches.
    let relation = pre::Node::Leaf(pre::Leaf {
        field: pre::FieldSpecifier {
            name: "item_ref".to_string(),
            language: None,
        },
        operation: pre::Operation::Relation(pre::Relation {
            target: pre::RelationTarget {
                sheet: "item".to_string(),
                query: Box::new(equal_leaf("x", 6)),
                condition: None,
            },
        }),
    });
    let hits = search
        .search(
            VersionKey(1),
            &relation,
            Language::English,
            Some(vec!["weapon".to_string()]),
            None,
            &sheets,
        )
        .unwrap();
    assert_eq!(hits.len(), 1);
    assert_eq!(hits[0].row_id, 11);
    assert_eq!(hits[0].sheet, "weapon");
}

#[test]
fn relation_condition_is_a_fatal_error() {
    let mut search = Search::new(config(10, 50)).unwrap();
    search
        .ingest(&vec![
            (VersionKey(1), item_sheet()),
            (VersionKey(1), weapon_sheet()),
        ])
        .unwrap();
    let sheets = vec![item_sheet(), weapon_sheet()];
    let relation = pre::Node::Leaf(pre::Leaf {
        field: pre::FieldSpecifier {
            name: "item_ref".to_string(),
            language: None,
        },
        operation: pre::Operation::Relation(pre::Relation {
            target: pre::RelationTarget {
                sheet: "item".to_string(),
                query: Box::new(equal_leaf("x", 6)),
                condition: Some(Box::new(equal_leaf("x", 5))),
            },
        }),
    });
    let result = search.search(
        VersionKey(1),
        &relation,
        Language::English,
        Some(vec!["weapon".to_string()]),
        None,
        &sheets,
    );
    assert!(result.is_err());
    assert!(result.err().unwrap().is_fatal());
}

#[test]
fn absent_field_on_one_sheet_is_isolated() {
    let mut search = Search::new(config(10, 50)).unwrap();
    search
        .ingest(&vec![
            (VersionKey(1), item_sheet()),
            (VersionKey(1), weapon_sheet()),
        ])
        .unwrap();
    let sheets = vec![item_sheet(), weapon_sheet()];

    // `x` exists on "item" only; searching both sheets drops "weapon"
    // non-fatally and still answers from "item".
    let hits = search
        .search(
            VersionKey(1),
            &equal_leaf("x", 5),
            Language::English,
            None,
            None,
            &sheets,
        )
        .unwrap();
    assert_eq!(hits.len(), 3);
    assert!(hits.iter().all(|h| h.sheet == "item"));
}

#[test]
fn equality_on_text_field_is_a_fatal_error() {
    let search = ingested_search();
    let sheets = vec![item_sheet()];
    let result = search.search(
        VersionKey(1),
        &equal_leaf("label", 5),
        Language::English,
        None,
        None,
        &sheets,
    );
    assert!(result.is_err());
    assert!(result.err().unwrap().is_fatal());
}

#[test]
fn versions_are_isolated_by_partition_tag() {
    let mut search = Search::new(config(10, 50)).unwrap();
    search
        .ingest(&vec![(VersionKey(1), item_sheet())])
        .unwrap();
    search
        .ingest(&vec![(VersionKey(2), item_sheet())])
        .unwrap();
    let sheets = vec![item_sheet()];

    // Each version sees exactly its own copies, never both.
    for version in [VersionKey(1), VersionKey(2)] {
        let hits = search
            .search(
                version,
                &equal_leaf("x", 5),
                Language::English,
                None,
                None,
                &sheets,
            )
            .unwrap();
        assert_eq!(hits.len(), 3);
    }
}

#[test]
fn unknown_sheet_filter_yields_no_hits_without_error() {
    let search = ingested_search();
    let sheets = vec![item_sheet()];
    let hits = search
        .search(
            VersionKey(1),
            &equal_leaf("x", 5),
            Language::English,
            Some(vec!["nonexistent".to_string()]),
            None,
            &sheets,
        )
        .unwrap();
    assert!(hits.is_empty());
}

#[test]
fn results_rank_deterministically() {
    let search = ingested_search();
    let sheets = vec![item_sheet()];
    let all = pre::Node::Group(pre::Group {
        clauses: vec![
            (Occur::Should, equal_leaf("x", 5)),
            (Occur::Should, equal_leaf("x", 6)),
        ],
    });
    let first = search
        .search(VersionKey(1), &all, Language::English, None, None, &sheets)
        .unwrap();
    let second = search
        .search(VersionKey(1), &all, Language::English, None, None, &sheets)
        .unwrap();
    let first_keys: Vec<(u64, u32, u16)> = first
        .iter()
        .map(|h| (h.score, h.row_id, h.subrow_id))
        .collect();
    let second_keys: Vec<(u64, u32, u16)> = second
        .iter()
        .map(|h| (h.score, h.row_id, h.subrow_id))
        .collect();
    assert_eq!(first_keys, second_keys);
    // Scores never increase along the ranking.
    for pair in first.windows(2) {
        assert!(pair[0].score >= pair[1].score);
    }
}

/// A second sheet sharing the column name `x`, so both sheets answer the
/// same query with equal scores.
fn armor_sheet() -> SheetData {
    let columns = vec![ColumnDefinition {
        name: "x".to_string(),
        kind: ColumnKind::UInt32,
    }];
    let rows = vec![RowData {
        row_id: 1,
        subrow_id: 0,
        fields: vec![FieldValue::U32(5)],
    }];
    SheetData {
        name: "armor".to_string(),
        columns,
        languages: vec![Language::English],
        rows: vec![LanguageRows {
            language: Language::English,
            rows,
        }],
    }
}

#[test]
fn equal_scores_rank_by_sheet_name() {
    let mut search = Search::new(config(10, 50)).unwrap();
    // Ingest "item" before "armor": the merge must still rank "armor"
    // first, because ties break on the sheet name, not on ingest order.
    search
        .ingest(&vec![
            (VersionKey(1), item_sheet()),
            (VersionKey(1), armor_sheet()),
        ])
        .unwrap();
    let sheets = vec![item_sheet(), armor_sheet()];
    let hits = search
        .search(
            VersionKey(1),
            &equal_leaf("x", 5),
            Language::English,
            None,
            None,
            &sheets,
        )
        .unwrap();
    assert_eq!(hits.len(), 4);
    assert_eq!(hits[0].sheet, "armor");
    assert!(hits[1..].iter().all(|h| h.sheet == "item"));
}
