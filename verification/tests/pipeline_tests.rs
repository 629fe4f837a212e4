use dmv_pipeline::combine::{filter_nonnull_coords, schema_union, select_columns, CombineError};
use dmv_pipeline::fetch::{
    advance_fetch, collect_region_batches, payload_listings, FetchEvent, FetchPayload, FetchPhase,
    RegionOutcome,
};
use dmv_pipeline::geometry::{normalize_feature, normalize_features, Feature, GeometryShape};
use dmv_pipeline::output::render_json;
use dmv_pipeline::pipeline::combine;
use dmv_pipeline::records::{normalize_record, normalize_records, ListingRecord, RawListing};
use dmv_pipeline::spatial::SpatialIndex;
use dmv_pipeline::table::{records_to_table, CellValue, ColType, Column, Table};
use dmv_pipeline::Coord;

fn raw_listing_empty() -> RawListing {
    RawListing {
        id: None,
        address: None,
        latitude: None,
        longitude: None,
        price: None,
        bedrooms: None,
        bathrooms: None,
        square_footage: None,
        property_type: None,
        status: None,
        zip_code: None,
    }
}

fn listing(id: &str, lat: i64, lon: i64, price: Option<i64>) -> ListingRecord {
    let mut raw = raw_listing_empty();
    raw.id = Some(id.to_string());
    raw.latitude = Some(lat);
    raw.longitude = Some(lon);
    raw.price = price;
    normalize_record(raw)
}

#[test]
fn absent_price_maps_to_null_not_zero() {
    let rec = normalize_record(raw_listing_empty());
    assert_eq!(rec.price, None);
    assert_ne!(rec.price, Some(0));
}

#[test]
fn absent_id_maps_to_empty_string() {
    let rec = normalize_record(raw_listing_empty());
    assert_eq!(rec.id, "");
    assert_eq!(rec.address, "");
}

#[test]
fn absent_coordinates_map_to_zero_sentinel() {
    let rec = normalize_record(raw_listing_empty());
    assert_eq!(rec.latitude, 0);
    assert_eq!(rec.longitude, 0);
}

#[test]
fn normalize_records_preserves_length_and_order() {
    let mut a = raw_listing_empty();
    a.id = Some("a".to_string());
    let mut b = raw_listing_empty();
    b.id = Some("b".to_string());
    let out = normalize_records(vec![a, b]);
    assert_eq!(out.len(), 2);
    assert_eq!(out[0].id, "a");
    assert_eq!(out[1].id, "b");
}

#[test]
fn geometry_normalizer_keeps_one_row_per_feature_in_order() {
    let feats = vec![
        Feature { geometry: Some(GeometryShape::Point(Coord { lon: 7, lat: 9 })) },
        Feature { geometry: Some(GeometryShape::Unsupported("LineString".to_string())) },
        Feature { geometry: None },
        Feature { geometry: Some(GeometryShape::Point(Coord { lon: 1, lat: 2 })) },
    ];
    let rows = normalize_features(feats);
    assert_eq!(rows.len(), 4);
    assert_eq!(rows[0].latitude, Some(9));
    assert_eq!(rows[0].longitude, Some(7));
    assert_eq!(rows[0].geometry_type.as_deref(), Some("Point"));
    assert_eq!(rows[1].latitude, None);
    assert_eq!(rows[1].longitude, None);
    assert_eq!(rows[1].geometry_type.as_deref(), Some("LineString"));
    assert_eq!(rows[2].geometry_type, None);
    assert_eq!(rows[2].latitude, None);
    assert_eq!(rows[3].latitude, Some(2));
}

#[test]
fn polygon_centroid_is_vertex_mean_of_first_ring_only() {
    let square = vec![
        Coord { lon: 0, lat: 0 },
        Coord { lon: 2, lat: 0 },
        Coord { lon: 2, lat: 2 },
        Coord { lon: 0, lat: 2 },
    ];
    let hole = vec![
        Coord { lon: 100, lat: 100 },
        Coord { lon: 300, lat: 100 },
        Coord { lon: 300, lat: 300 },
    ];
    let row = normalize_feature(Feature {
        geometry: Some(GeometryShape::Polygon(vec![square.clone(), hole])),
    });
    assert_eq!(row.latitude, Some(1));
    assert_eq!(row.longitude, Some(1));
    assert_eq!(row.geometry_type.as_deref(), Some("Polygon"));
    let row_no_hole =
        normalize_feature(Feature { geometry: Some(GeometryShape::Polygon(vec![square])) });
    assert_eq!(row_no_hole.latitude, Some(1));
    assert_eq!(row_no_hole.longitude, Some(1));
}

#[test]
fn multipolygon_uses_first_ring_of_first_polygon_only() {
    let first = vec![
        vec![Coord { lon: 10, lat: 20 }, Coord { lon: 30, lat: 40 }],
    ];
    let second = vec![
        vec![Coord { lon: 1000, lat: 1000 }],
    ];
    let row = normalize_feature(Feature {
        geometry: Some(GeometryShape::MultiPolygon(vec![first, second])),
    });
    assert_eq!(row.latitude, Some(30));
    assert_eq!(row.longitude, Some(20));
    assert_eq!(row.geometry_type.as_deref(), Some("MultiPolygon"));
}

#[test]
fn fetch_primary_success_settles_with_batch() {
    let mut raw = raw_listing_empty();
    raw.id = Some("x".to_string());
    let next = advance_fetch(
        FetchPhase::QueryPrimary,
        FetchEvent::Response(FetchPayload::ListingBatch(vec![raw])),
    );
    match next {
        FetchPhase::Settled(RegionOutcome::Batch(v)) => {
            assert_eq!(v.len(), 1);
            assert_eq!(v[0].id.as_deref(), Some("x"));
        },
        _ => panic!("expected a settled batch"),
    }
}

#[test]
fn fetch_falls_back_then_market_summary_contributes_nothing() {
    let next = advance_fetch(FetchPhase::QueryPrimary, FetchEvent::HttpFailure);
    assert!(matches!(next, FetchPhase::QuerySecondary));
    let settled = advance_fetch(next, FetchEvent::Response(FetchPayload::MarketSummary));
    match settled {
        FetchPhase::Settled(RegionOutcome::Batch(v)) => assert_eq!(v.len(), 0),
        _ => panic!("expected an empty settled batch"),
    }
}

#[test]
fn fetch_secondary_http_failure_settles_empty_and_transport_fails() {
    let next = advance_fetch(FetchPhase::QuerySecondary, FetchEvent::HttpFailure);
    match next {
        FetchPhase::Settled(RegionOutcome::Batch(v)) => assert_eq!(v.len(), 0),
        _ => panic!("expected an empty settled batch"),
    }
    let failed = advance_fetch(FetchPhase::QueryPrimary, FetchEvent::TransportFailure);
    assert!(matches!(failed, FetchPhase::Settled(RegionOutcome::Failed)));
}

#[test]
fn payload_listings_is_total() {
    assert_eq!(payload_listings(FetchPayload::MarketSummary).len(), 0);
    assert_eq!(payload_listings(FetchPayload::Empty).len(), 0);
}

#[test]
fn three_failed_regions_of_twenty_contribute_nothing() {
    let mut outcomes = Vec::new();
    let mut expected = Vec::new();
    for r in 0..20u32 {
        if r == 3 || r == 9 || r == 17 {
            outcomes.push(RegionOutcome::Failed);
        } else {
            let mut raw = raw_listing_empty();
            raw.id = Some(format!("region-{}", r));
            expected.push(format!("region-{}", r));
            outcomes.push(RegionOutcome::Batch(vec![raw]));
        }
    }
    let all = collect_region_batches(outcomes);
    assert_eq!(all.len(), 17);
    for (i, raw) in all.iter().enumerate() {
        assert_eq!(raw.id.as_deref(), Some(expected[i].as_str()));
    }
}

#[test]
fn sentinel_record_is_unindexed_but_retained_in_combined_output() {
    let records = vec![
        listing("at-origin", 0, 0, Some(100)),
        listing("real", 389_000_000, -770_000_000, Some(200)),
    ];
    let idx = SpatialIndex::build(&records);
    assert_eq!(idx.len(), 1);
    assert_eq!(idx.locate(0, 0), None);
    assert_eq!(idx.locate(-770_000_000, 389_000_000), Some(1));
    let out = combine(&records, &vec![]);
    assert_eq!(out.rows.len(), 2);
    assert!(matches!(out.rows[0][2], CellValue::Int(0)));
    assert!(matches!(out.rows[0][3], CellValue::Int(0)));
    match &out.rows[0][0] {
        CellValue::Text(s) => assert_eq!(s, "at-origin"),
        _ => panic!("expected an id cell"),
    }
}

#[test]
fn one_zero_coordinate_is_enough_to_exclude_from_index() {
    let records = vec![listing("half", 5, 0, None), listing("other", 0, 7, None)];
    let idx = SpatialIndex::build(&records);
    assert_eq!(idx.len(), 0);
}

#[test]
fn records_table_has_eleven_columns_and_null_unknowns() {
    let records = vec![listing("a", 1, 2, None)];
    let t = records_to_table(&records);
    assert_eq!(t.cols.len(), 11);
    assert_eq!(t.cols[7].name, "square_footage");
    assert_eq!(t.rows.len(), 1);
    assert!(matches!(t.rows[0][4], CellValue::Null));
    assert!(matches!(t.rows[0][7], CellValue::Null));
}

#[test]
fn filter_requires_coordinate_columns() {
    let t = Table {
        cols: vec![Column { name: "other".to_string(), ctype: ColType::IntCol }],
        rows: vec![],
    };
    assert!(matches!(filter_nonnull_coords(t), Err(CombineError::MissingColumn)));
}

#[test]
fn filter_drops_null_coordinate_rows_but_keeps_zero() {
    let t = Table {
        cols: vec![
            Column { name: "latitude".to_string(), ctype: ColType::IntCol },
            Column { name: "longitude".to_string(), ctype: ColType::IntCol },
        ],
        rows: vec![
            vec![CellValue::Null, CellValue::Int(4)],
            vec![CellValue::Int(0), CellValue::Int(0)],
        ],
    };
    let ft = filter_nonnull_coords(t).unwrap();
    assert_eq!(ft.rows.len(), 1);
    assert!(matches!(ft.rows[0][0], CellValue::Int(0)));
}

#[test]
fn select_missing_column_is_an_error() {
    let t = Table {
        cols: vec![Column { name: "a".to_string(), ctype: ColType::IntCol }],
        rows: vec![],
    };
    let names = vec!["a".to_string(), "b".to_string()];
    assert!(matches!(select_columns(&t, &names), Err(CombineError::MissingColumn)));
}

#[test]
fn schema_union_of_disjoint_ten_and_three_columns_yields_thirteen() {
    let mut cols_a = Vec::new();
    for n in ["c0", "c1", "c2", "c3", "c4", "c5", "c6", "c7", "c8", "c9"] {
        cols_a.push(Column { name: n.to_string(), ctype: ColType::IntCol });
    }
    let mk_row = || (0..10i64).map(CellValue::Int).collect::<Vec<CellValue>>();
    let ta = Table { cols: cols_a, rows: vec![mk_row(), mk_row()] };
    let cols_b = vec![
        Column { name: "g0".to_string(), ctype: ColType::TextCol },
        Column { name: "g1".to_string(), ctype: ColType::IntCol },
        Column { name: "g2".to_string(), ctype: ColType::IntCol },
    ];
    let row_b = vec![CellValue::Text("t".to_string()), CellValue::Int(1), CellValue::Int(2)];
    let tb = Table { cols: cols_b, rows: vec![row_b] };
    let u = schema_union(vec![ta, tb]).unwrap();
    assert_eq!(u.cols.len(), 13);
    assert_eq!(u.rows.len(), 3);
    // A listing-side row is null-filled in the geometry-side columns.
    assert!(matches!(u.rows[0][10], CellValue::Null));
    assert!(matches!(u.rows[0][0], CellValue::Int(0)));
    // A geometry-side row is null-filled in the listing-side columns.
    assert!(matches!(u.rows[2][0], CellValue::Null));
    assert!(matches!(u.rows[2][10], CellValue::Text(_)));
    assert!(matches!(u.rows[2][11], CellValue::Int(1)));
}

#[test]
fn schema_union_type_conflict_is_fatal() {
    let ta = Table {
        cols: vec![Column { name: "x".to_string(), ctype: ColType::IntCol }],
        rows: vec![],
    };
    let tb = Table {
        cols: vec![Column { name: "x".to_string(), ctype: ColType::TextCol }],
        rows: vec![],
    };
    assert!(matches!(schema_union(vec![ta, tb]), Err(CombineError::TypeConflict)));
}

#[test]
fn combine_without_geometry_has_ten_columns() {
    let records = vec![listing("a", 1, 2, Some(3))];
    let out = combine(&records, &vec![]);
    assert_eq!(out.cols.len(), 10);
    assert_eq!(out.cols[9].name, "zip_code");
    assert_eq!(out.rows.len(), 1);
    assert!(matches!(out.rows[0][4], CellValue::Int(3)));
}

#[test]
fn combine_with_geometry_appends_geometry_type_column() {
    let records = vec![listing("a", 1, 2, None)];
    let geo = normalize_features(vec![
        Feature { geometry: Some(GeometryShape::Point(Coord { lon: 5, lat: 6 })) },
        Feature { geometry: None },
    ]);
    let out = combine(&records, &vec![geo]);
    assert_eq!(out.cols.len(), 11);
    assert_eq!(out.cols[10].name, "geometry_type");
    assert_eq!(out.rows.len(), 3);
    // Listing row: null geometry type.
    assert!(matches!(out.rows[0][10], CellValue::Null));
    // Geometry point row: coordinates in the shared columns, id null.
    assert!(matches!(out.rows[1][0], CellValue::Null));
    assert!(matches!(out.rows[1][2], CellValue::Int(6)));
    assert!(matches!(out.rows[1][3], CellValue::Int(5)));
    match &out.rows[1][10] {
        CellValue::Text(s) => assert_eq!(s, "Point"),
        _ => panic!("expected a geometry type tag"),
    }
    // Absent-geometry row: everything null.
    assert!(matches!(out.rows[2][2], CellValue::Null));
    assert!(matches!(out.rows[2][10], CellValue::Null));
}

#[test]
fn render_json_exact_wire_form() {
    let t = Table {
        cols: vec![
            Column { name: "a".to_string(), ctype: ColType::IntCol },
            Column { name: "b".to_string(), ctype: ColType::TextCol },
        ],
        rows: vec![
            vec![CellValue::Int(-5), CellValue::Text("x\"y\\z".to_string())],
            vec![CellValue::Null, CellValue::Text("".to_string())],
        ],
    };
    let s = render_json(&t);
    assert_eq!(s, "[{\"a\":-5,\"b\":\"x\\\"y\\\\z\"},{\"a\":null,\"b\":\"\"}]");
}

#[test]
fn render_json_empty_table_is_empty_array() {
    let t = Table { cols: vec![], rows: vec![] };
    assert_eq!(render_json(&t), "[]");
}

#[test]
fn rerun_over_identical_inputs_renders_identical_artifact() {
    let build = || {
        let records = vec![
            listing("a", 389_000_000, -770_000_000, Some(450_000)),
            listing("b", 0, 0, None),
        ];
        let geo = normalize_features(vec![Feature {
            geometry: Some(GeometryShape::Polygon(vec![vec![
                Coord { lon: 0, lat: 0 },
                Coord { lon: 2, lat: 0 },
                Coord { lon: 2, lat: 2 },
                Coord { lon: 0, lat: 2 },
            ]])),
        }]);
        render_json(&combine(&records, &vec![geo]))
    };
    let first = build();
    let second = build();
    assert_eq!(first, second);
}

#[test]
fn large_numbers_render_in_full() {
    let t = Table {
        cols: vec![Column { name: "n".to_string(), ctype: ColType::IntCol }],
        rows: vec![vec![CellValue::Int(1_000_000_000)], vec![CellValue::Int(-1_000_000_000)]],
    };
    assert_eq!(render_json(&t), "[{\"n\":1000000000},{\"n\":-1000000000}]");
}
