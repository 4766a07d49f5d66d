use boilmaster::data::ColumnDefinition;
use boilmaster::data::ColumnKind;
use boilmaster::data::FieldValue;
use boilmaster::data::Language;
use boilmaster::data::LanguageRows;
use boilmaster::data::RowData;
use boilmaster::data::SheetData;
use boilmaster::data::VersionKey;
use boilmaster::query::pre;
use boilmaster::query::Value;
use boilmaster::schema::column_field_name;
use boilmaster::search::Config;
use boilmaster::search::PaginationConfig;
use boilmaster::search::Search;
use boilmaster::service::service_step;
use boilmaster::service::ServiceAction;
use boilmaster::service::ServiceEvent;
use boilmaster::service::ServiceState;
use boilmaster::error::Error;
use boilmaster::index::Index;
use boilmaster::normalize::Normalizer;
use boilmaster::thaliak::build_patch_list;
use boilmaster::thaliak::PatchData;
use boilmaster::thaliak::VersionEntry;

#[test]
fn field_names_follow_the_naming_convention() {
    let text = ColumnDefinition {
        name: "name".to_string(),
        kind: ColumnKind::Text,
    };
    let number = ColumnDefinition {
        name: "level".to_string(),
        kind: ColumnKind::UInt16,
    };
    assert_eq!(column_field_name(&text, Language::English), "name@en");
    assert_eq!(column_field_name(&text, Language::Japanese), "name@ja");
    assert_eq!(column_field_name(&number, Language::English), "level");
    assert_eq!(column_field_name(&number, Language::German), "level");
}

#[test]
fn localized_sheet_answers_per_language_queries() {
    let sheet = SheetData {
        name: "town".to_string(),
        columns: vec![
            ColumnDefinition {
                name: "id".to_string(),
                kind: ColumnKind::UInt32,
            },
            ColumnDefinition {
                name: "name".to_string(),
                kind: ColumnKind::Text,
            },
        ],
        languages: vec![Language::English, Language::German],
        rows: vec![
            LanguageRows {
                language: Language::English,
                rows: vec![RowData {
                    row_id: 1,
                    subrow_id: 0,
                    fields: vec![
                        FieldValue::U32(7),
                        FieldValue::Text("harbor".to_string()),
                    ],
                }],
            },
            LanguageRows {
                language: Language::German,
                rows: vec![RowData {
                    row_id: 1,
                    subrow_id: 0,
                    fields: vec![FieldValue::U32(7), FieldValue::Text("Hafen".to_string())],
                }],
            },
        ],
    };
    let mut search = Search::new(Config {
        pagination: PaginationConfig {
            limit_default: 10,
            limit_max: 50,
        },
    })
    .unwrap();
    search.ingest(&vec![(VersionKey(1), sheet)]).unwrap();

    // One document per row key even with two languages ingested.
    let query = pre::Node::Leaf(pre::Leaf {
        field: pre::FieldSpecifier {
            name: "id".to_string(),
            language: None,
        },
        operation: pre::Operation::Equal(Value::U64(7)),
    });
    let sheets = vec![SheetData {
        name: "town".to_string(),
        columns: vec![
            ColumnDefinition {
                name: "id".to_string(),
                kind: ColumnKind::UInt32,
            },
            ColumnDefinition {
                name: "name".to_string(),
                kind: ColumnKind::Text,
            },
        ],
        languages: vec![Language::English, Language::German],
        rows: vec![],
    }];
    let hits = search
        .search(VersionKey(1), &query, Language::English, None, None, &sheets)
        .unwrap();
    assert_eq!(hits.len(), 1);
    assert_eq!(hits[0].row_id, 1);
}

#[test]
fn malformed_sheet_is_skipped_without_error() {
    // A row with too few fields: the sheet is marked ingested but
    // contributes no documents.
    let sheet = SheetData {
        name: "broken".to_string(),
        columns: vec![
            ColumnDefinition {
                name: "a".to_string(),
                kind: ColumnKind::UInt32,
            },
            ColumnDefinition {
                name: "b".to_string(),
                kind: ColumnKind::UInt32,
            },
        ],
        languages: vec![Language::English],
        rows: vec![LanguageRows {
            language: Language::English,
            rows: vec![RowData {
                row_id: 1,
                subrow_id: 0,
                fields: vec![FieldValue::U32(1)],
            }],
        }],
    };
    let mut search = Search::new(Config {
        pagination: PaginationConfig {
            limit_default: 10,
            limit_max: 50,
        },
    })
    .unwrap();
    search.ingest(&vec![(VersionKey(1), sheet)]).unwrap();
    let sheets = vec![SheetData {
        name: "broken".to_string(),
        columns: vec![
            ColumnDefinition {
                name: "a".to_string(),
                kind: ColumnKind::UInt32,
            },
            ColumnDefinition {
                name: "b".to_string(),
                kind: ColumnKind::UInt32,
            },
        ],
        languages: vec![Language::English],
        rows: vec![],
    }];
    let query = pre::Node::Leaf(pre::Leaf {
        field: pre::FieldSpecifier {
            name: "a".to_string(),
            language: None,
        },
        operation: pre::Operation::Equal(Value::U64(1)),
    });
    let hits = search
        .search(VersionKey(1), &query, Language::English, None, None, &sheets)
        .unwrap();
    assert!(hits.is_empty());
}

#[test]
fn service_loop_transitions() {
    // Launch: a change starts an ingest.
    assert_eq!(
        service_step(ServiceState::Idle, ServiceEvent::VersionsChanged),
        (ServiceState::Ingesting, ServiceAction::StartIngest)
    );
    // Success goes back to waiting.
    assert_eq!(
        service_step(ServiceState::Ingesting, ServiceEvent::IngestFinished(true)),
        (ServiceState::Idle, ServiceAction::Wait)
    );
    // A fatal ingest error ends the loop; it is not retried.
    assert_eq!(
        service_step(ServiceState::Ingesting, ServiceEvent::IngestFinished(false)),
        (ServiceState::Stopped, ServiceAction::Stop)
    );
}

#[test]
fn cancellation_stops_the_loop_in_any_state() {
    for state in [
        ServiceState::Idle,
        ServiceState::Ingesting,
        ServiceState::Stopped,
    ] {
        assert_eq!(
            service_step(state, ServiceEvent::Cancelled),
            (ServiceState::Stopped, ServiceAction::Stop)
        );
    }
    // A stopped loop takes no further work.
    assert_eq!(
        service_step(ServiceState::Stopped, ServiceEvent::VersionsChanged),
        (ServiceState::Stopped, ServiceAction::Stop)
    );
}

#[test]
fn cancelled_ingest_leaves_committed_documents_intact() {
    // The loop cancels between batches: the first batch stays committed
    // and the partition still answers queries.
    let mut search = Search::new(Config {
        pagination: PaginationConfig {
            limit_default: 10,
            limit_max: 50,
        },
    })
    .unwrap();
    let sheet = SheetData {
        name: "item".to_string(),
        columns: vec![ColumnDefinition {
            name: "x".to_string(),
            kind: ColumnKind::UInt32,
        }],
        languages: vec![Language::English],
        rows: vec![LanguageRows {
            language: Language::English,
            rows: vec![RowData {
                row_id: 1,
                subrow_id: 0,
                fields: vec![FieldValue::U32(5)],
            }],
        }],
    };
    search.ingest(&vec![(VersionKey(1), sheet)]).unwrap();
    let (state, action) = service_step(ServiceState::Ingesting, ServiceEvent::Cancelled);
    assert_eq!(state, ServiceState::Stopped);
    assert_eq!(action, ServiceAction::Stop);

    let sheets = vec![SheetData {
        name: "item".to_string(),
        columns: vec![ColumnDefinition {
            name: "x".to_string(),
            kind: ColumnKind::UInt32,
        }],
        languages: vec![Language::English],
        rows: vec![],
    }];
    let query = pre::Node::Leaf(pre::Leaf {
        field: pre::FieldSpecifier {
            name: "x".to_string(),
            language: None,
        },
        operation: pre::Operation::Equal(Value::U64(5)),
    });
    let hits = search
        .search(VersionKey(1), &query, Language::English, None, None, &sheets)
        .unwrap();
    assert_eq!(hits.len(), 1);
}

fn version(name: &str, active: bool, url: &str, prereqs: &[&str]) -> VersionEntry {
    VersionEntry {
        version_string: name.to_string(),
        is_active: active,
        patches: vec![PatchData {
            url: url.to_string(),
            size: 100,
        }],
        prerequisite_versions: prereqs.iter().map(|p| p.to_string()).collect(),
    }
}

#[test]
fn patch_chain_walks_oldest_first() {
    let entries = vec![
        version("2024.01.01", true, "http://p/3", &["2023.06.01"]),
        version("2023.06.01", true, "http://p/2", &["2023.01.01"]),
        version("2023.01.01", true, "http://p/1", &[]),
    ];
    let chain = build_patch_list(&entries, &"2024.01.01".to_string()).unwrap();
    let names: Vec<&str> = chain.iter().map(|p| p.name.as_str()).collect();
    assert_eq!(names, vec!["2023.01.01", "2023.06.01", "2024.01.01"]);
    assert_eq!(chain[0].url, "http://p/1");
    assert_eq!(chain[2].size, 100);
}

#[test]
fn patch_chain_prefers_the_newest_active_prerequisite() {
    let entries = vec![
        version(
            "2024.01.01",
            true,
            "http://p/4",
            &["2023.06.01", "2023.09.01"],
        ),
        version("2023.09.01", true, "http://p/3", &["2023.06.01"]),
        version("2023.06.01", true, "http://p/2", &[]),
    ];
    let chain = build_patch_list(&entries, &"2024.01.01".to_string()).unwrap();
    let names: Vec<&str> = chain.iter().map(|p| p.name.as_str()).collect();
    assert_eq!(names, vec!["2023.06.01", "2023.09.01", "2024.01.01"]);
}

#[test]
fn patch_chain_skips_inactive_prerequisites() {
    let entries = vec![
        version(
            "2024.01.01",
            true,
            "http://p/3",
            &["2023.09.01", "2023.06.01"],
        ),
        version("2023.09.01", false, "http://p/2", &["2023.06.01"]),
        version("2023.06.01", true, "http://p/1", &[]),
    ];
    let chain = build_patch_list(&entries, &"2024.01.01".to_string()).unwrap();
    let names: Vec<&str> = chain.iter().map(|p| p.name.as_str()).collect();
    assert_eq!(names, vec!["2023.06.01", "2024.01.01"]);
}

#[test]
fn patch_chain_survives_prerequisite_cycles() {
    let entries = vec![
        version("b", true, "http://p/2", &["a"]),
        version("a", true, "http://p/1", &["b"]),
    ];
    let chain = build_patch_list(&entries, &"b".to_string()).unwrap();
    let names: Vec<&str> = chain.iter().map(|p| p.name.as_str()).collect();
    assert_eq!(names, vec!["a", "b"]);
}

#[test]
fn unknown_latest_version_fails() {
    let entries = vec![version("a", true, "http://p/1", &[])];
    let result = build_patch_list(&entries, &"zzz".to_string());
    assert!(result.is_err());
}

#[test]
fn version_without_patches_fails() {
    let entries = vec![VersionEntry {
        version_string: "a".to_string(),
        is_active: true,
        patches: vec![],
        prerequisite_versions: vec![],
    }];
    let result = build_patch_list(&entries, &"a".to_string());
    assert!(result.is_err());
}

#[test]
fn partition_writer_replaces_on_reingest() {
    let sheet = SheetData {
        name: "item".to_string(),
        columns: vec![ColumnDefinition {
            name: "x".to_string(),
            kind: ColumnKind::UInt32,
        }],
        languages: vec![Language::English],
        rows: vec![LanguageRows {
            language: Language::English,
            rows: vec![
                RowData {
                    row_id: 1,
                    subrow_id: 0,
                    fields: vec![FieldValue::U32(5)],
                },
                RowData {
                    row_id: 2,
                    subrow_id: 0,
                    fields: vec![FieldValue::U32(6)],
                },
            ],
        }],
    };
    let mut index = Index::new(&sheet);
    index.ingest(&vec![(7, sheet)]).unwrap();
    assert_eq!(index.docs.len(), 2);

    // The same (tag, sheet) data again: every document is replaced by its
    // identical copy, never duplicated.
    let again = SheetData {
        name: "item".to_string(),
        columns: vec![ColumnDefinition {
            name: "x".to_string(),
            kind: ColumnKind::UInt32,
        }],
        languages: vec![Language::English],
        rows: vec![LanguageRows {
            language: Language::English,
            rows: vec![
                RowData {
                    row_id: 1,
                    subrow_id: 0,
                    fields: vec![FieldValue::U32(5)],
                },
                RowData {
                    row_id: 2,
                    subrow_id: 0,
                    fields: vec![FieldValue::U32(6)],
                },
            ],
        }],
    };
    index.ingest(&vec![(7, again)]).unwrap();
    assert_eq!(index.docs.len(), 2);
    let mut keys: Vec<(u32, u16)> = index.docs.iter().map(|d| (d.row_id, d.subrow_id)).collect();
    keys.sort();
    assert_eq!(keys, vec![(1, 0), (2, 0)]);
    assert!(index.docs.iter().all(|d| d.sheet_key == 7));
}

#[test]
fn normalization_error_names_the_missing_field() {
    let sheet = SheetData {
        name: "item".to_string(),
        columns: vec![ColumnDefinition {
            name: "x".to_string(),
            kind: ColumnKind::UInt32,
        }],
        languages: vec![Language::English],
        rows: vec![],
    };
    let sheets = vec![sheet];
    let normalizer = Normalizer { sheets: &sheets };
    let query = pre::Node::Leaf(pre::Leaf {
        field: pre::FieldSpecifier {
            name: "missing".to_string(),
            language: None,
        },
        operation: pre::Operation::Equal(Value::U64(1)),
    });
    let error = normalizer
        .normalize(&query, &"item".to_string(), Language::English)
        .err()
        .unwrap();
    match error {
        Error::SchemaMismatch(detail) => assert_eq!(detail.field, "missing"),
        other => panic!("expected a schema mismatch, got {other:?}"),
    }
}

#[test]
fn version_without_patches_names_the_version() {
    let entries = vec![VersionEntry {
        version_string: "2024.05.05".to_string(),
        is_active: true,
        patches: vec![],
        prerequisite_versions: vec![],
    }];
    let error = build_patch_list(&entries, &"2024.05.05".to_string())
        .err()
        .unwrap();
    match error {
        Error::Failure(message) => assert!(message.contains("2024.05.05")),
        other => panic!("expected a fatal failure, got {other:?}"),
    }
}
