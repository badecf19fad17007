use eikon_client::datagrid::datagrid_result;
use eikon_client::datagrid::fetch_headers;
use eikon_client::datagrid::first_headers;
use eikon_client::datagrid::to_table;
use eikon_client::json::JsonVal;
use eikon_client::table::null_column;
use eikon_client::table::vstack_diag;
use eikon_client::table::Table;
use eikon_client::timeseries;
use eikon_client::utils::EkError;
use eikon_client::utils::EkResults;

fn jstr(s: &str) -> JsonVal {
    JsonVal::Str(s.to_string())
}

fn jnum(s: &str) -> JsonVal {
    JsonVal::Num(s.to_string())
}

fn jobj(entries: Vec<(&str, JsonVal)>) -> JsonVal {
    JsonVal::Obj(entries.into_iter().map(|(k, v)| (k.to_string(), v)).collect())
}

fn jarr(items: Vec<JsonVal>) -> JsonVal {
    JsonVal::Arr(items)
}

/// One datagrid response chunk with the given header names and rows.
fn dg_chunk(headers: Vec<&str>, rows: Vec<Vec<JsonVal>>) -> JsonVal {
    let header_row = jarr(
        headers
            .into_iter()
            .map(|h| jobj(vec![("displayName", jstr(h))]))
            .collect(),
    );
    jobj(vec![(
        "responses",
        jarr(vec![jobj(vec![
            ("headers", jarr(vec![header_row])),
            ("data", jarr(rows.into_iter().map(jarr).collect())),
        ])]),
    )])
}

fn cell(t: &Table, col: usize, row: usize) -> Option<String> {
    t.cols[col][row].clone()
}

#[test]
fn datagrid_headers_come_from_display_names() {
    let chunk = dg_chunk(vec!["Instrument", "Close"], vec![]);
    let h = fetch_headers(&chunk).expect("headers");
    assert_eq!(h, vec!["Instrument".to_string(), "Close".to_string()]);
    assert!(fetch_headers(&jobj(vec![])).is_none());
}

#[test]
fn first_headers_take_the_first_chunk_that_has_them() {
    let empty = jobj(vec![("responses", jarr(vec![jobj(vec![])]))]);
    let with = dg_chunk(vec!["A"], vec![]);
    let chunks = vec![empty, with];
    let h = first_headers(&chunks).expect("headers");
    assert_eq!(h, vec!["A".to_string()]);
}

#[test]
fn reassemble_sums_rows_under_the_discovered_header_order() {
    let c1 = dg_chunk(
        vec!["Instrument", "Close"],
        vec![vec![jstr("XOM"), jnum("1.5")]],
    );
    let c2 = dg_chunk(
        vec!["Instrument", "Close"],
        vec![vec![jstr("GME"), jnum("2.5")]],
    );
    let t = to_table(&vec![c1, c2]).expect("table");
    assert_eq!(t.names, vec!["Instrument".to_string(), "Close".to_string()]);
    assert_eq!(t.height(), 2);
    assert_eq!(cell(&t, 0, 0), Some("XOM".to_string()));
    assert_eq!(cell(&t, 0, 1), Some("GME".to_string()));
    assert_eq!(cell(&t, 1, 0), Some("1.5".to_string()));
    assert_eq!(cell(&t, 1, 1), Some("2.5".to_string()));
}

#[test]
fn reassemble_without_headers_is_a_no_headers_error() {
    let c = jobj(vec![("responses", jarr(vec![jobj(vec![])]))]);
    assert!(matches!(
        to_table(&vec![c]),
        Err(EkError::NoHeaders(_))
    ));
}

#[test]
fn reassemble_with_duplicate_headers_is_a_no_dataframe_error() {
    let c = dg_chunk(vec!["A", "A"], vec![]);
    assert!(matches!(
        to_table(&vec![c]),
        Err(EkError::NoDataFrame(_))
    ));
}

#[test]
fn datagrid_result_policies() {
    assert!(matches!(
        datagrid_result(vec![], false),
        EkResults::Error(EkError::NoData(_))
    ));
    let c = dg_chunk(vec!["A"], vec![vec![jstr("x")]]);
    match datagrid_result(vec![c], true) {
        EkResults::Raw(v) => assert_eq!(v.len(), 1),
        _ => panic!("expected the raw chunks back"),
    }
    let c = dg_chunk(vec!["A"], vec![vec![jstr("x")]]);
    match datagrid_result(vec![c], false) {
        EkResults::DF(t) => {
            assert_eq!(t.names, vec!["A".to_string()]);
            assert_eq!(t.height(), 1);
        }
        _ => panic!("expected a table"),
    }
}

#[test]
fn cleaned_cells_strip_quotes_and_render_scalars() {
    let c = dg_chunk(
        vec!["A", "B", "C"],
        vec![vec![jstr("say \"hi\""), JsonVal::Null, JsonVal::Bool(true)]],
    );
    let t = to_table(&vec![c]).expect("table");
    assert_eq!(cell(&t, 0, 0), Some("say hi".to_string()));
    assert_eq!(cell(&t, 1, 0), Some("null".to_string()));
    assert_eq!(cell(&t, 2, 0), Some("true".to_string()));
}

#[test]
fn three_records_stack_with_null_padding() {
    let long = Table {
        names: vec!["A".to_string(), "B".to_string(), "C".to_string()],
        cols: vec![
            vec![Some("a1".to_string()), Some("a2".to_string())],
            vec![Some("b1".to_string()), Some("b2".to_string())],
            vec![Some("c1".to_string()), Some("c2".to_string())],
        ],
    };
    let short = Table {
        names: vec!["A".to_string(), "B".to_string()],
        cols: vec![vec![Some("a3".to_string())], vec![Some("b3".to_string())]],
    };
    let t = vstack_diag(long, short).expect("stacked");
    assert_eq!(
        t.names,
        vec!["A".to_string(), "B".to_string(), "C".to_string()]
    );
    assert_eq!(t.height(), 3);
    assert_eq!(cell(&t, 0, 2), Some("a3".to_string()));
    assert_eq!(cell(&t, 1, 2), Some("b3".to_string()));
    assert_eq!(cell(&t, 2, 0), Some("c1".to_string()));
    assert_eq!(cell(&t, 2, 2), None);
}

#[test]
fn stacking_an_unknown_column_is_rejected() {
    let long = Table {
        names: vec!["A".to_string()],
        cols: vec![vec![Some("a1".to_string())]],
    };
    let short = Table {
        names: vec!["Z".to_string()],
        cols: vec![vec![Some("z1".to_string())]],
    };
    assert!(matches!(
        vstack_diag(long, short),
        Err(EkError::NoDataFrame(_))
    ));
}

#[test]
fn null_column_is_all_nulls() {
    let c = null_column(3);
    assert_eq!(c, vec![None, None, None]);
}

/// One time-series response chunk with one instrument entry.
fn ts_chunk(status: &str, fields: Vec<&str>, points: Vec<Vec<JsonVal>>, ric: &str) -> JsonVal {
    jobj(vec![(
        "timeseriesData",
        jarr(vec![jobj(vec![
            ("statusCode", jstr(status)),
            (
                "fields",
                jarr(fields
                    .into_iter()
                    .map(|f| jobj(vec![("name", jstr(f))]))
                    .collect()),
            ),
            ("dataPoints", jarr(points.into_iter().map(jarr).collect())),
            ("ric", jstr(ric)),
        ])]),
    )])
}

#[test]
fn timeseries_table_carries_the_instrument_column() {
    let c = ts_chunk(
        "Normal",
        vec!["CLOSE", "DATE"],
        vec![
            vec![jnum("1"), jstr("2020-01-01")],
            vec![jnum("2"), jstr("2020-01-02")],
        ],
        "XOM",
    );
    let t = timeseries::to_table(&c).expect("table");
    assert_eq!(
        t.names,
        vec!["CLOSE".to_string(), "DATE".to_string(), "RIC".to_string()]
    );
    assert_eq!(t.height(), 2);
    assert_eq!(cell(&t, 0, 0), Some("1".to_string()));
    assert_eq!(cell(&t, 1, 1), Some("2020-01-02".to_string()));
    assert_eq!(cell(&t, 2, 0), Some("XOM".to_string()));
    assert_eq!(cell(&t, 2, 1), Some("XOM".to_string()));
}

#[test]
fn timeseries_abnormal_status_yields_no_headers() {
    let c = ts_chunk("Error", vec!["CLOSE"], vec![], "XOM");
    assert!(matches!(
        timeseries::to_table(&c),
        Err(EkError::NoHeaders(_))
    ));
    assert!(timeseries::fetch_headers(&c).is_err());
}

#[test]
fn timeseries_result_reconciles_schemas_across_chunks() {
    let c1 = ts_chunk("Normal", vec!["CLOSE"], vec![vec![jnum("1")]], "XOM");
    let c2 = ts_chunk(
        "Normal",
        vec!["CLOSE", "VOLUME"],
        vec![vec![jnum("2"), jnum("900")]],
        "GME",
    );
    match timeseries::timeseries_result(vec![c1, c2]) {
        EkResults::DF(t) => {
            assert_eq!(t.height(), 2);
            assert_eq!(t.names.len(), 3);
            assert!(t.names.contains(&"CLOSE".to_string()));
            assert!(t.names.contains(&"VOLUME".to_string()));
            assert!(t.names.contains(&"RIC".to_string()));
            let vol = t.names.iter().position(|n| n == "VOLUME").unwrap();
            let close = t.names.iter().position(|n| n == "CLOSE").unwrap();
            // one row has a volume, the padded one has none
            let vols: Vec<Option<String>> = t.cols[vol].clone();
            assert!(vols.contains(&Some("900".to_string())));
            assert!(vols.contains(&None));
            let closes: Vec<Option<String>> = t.cols[close].clone();
            assert!(closes.contains(&Some("1".to_string())));
            assert!(closes.contains(&Some("2".to_string())));
        }
        _ => panic!("expected a table"),
    }
}

#[test]
fn timeseries_result_sums_rows_across_equal_schemas() {
    let c1 = ts_chunk("Normal", vec!["CLOSE"], vec![vec![jnum("1")], vec![jnum("2")]], "XOM");
    let c2 = ts_chunk("Normal", vec!["CLOSE"], vec![vec![jnum("3")]], "GME");
    match timeseries::timeseries_result(vec![c1, c2]) {
        EkResults::DF(t) => {
            assert_eq!(t.names, vec!["CLOSE".to_string(), "RIC".to_string()]);
            assert_eq!(t.height(), 3);
        }
        _ => panic!("expected a table"),
    }
}

#[test]
fn timeseries_result_policies() {
    assert!(matches!(
        timeseries::timeseries_result(vec![]),
        EkResults::Error(EkError::NoData(_))
    ));
    let bad = ts_chunk("Error", vec!["CLOSE"], vec![], "XOM");
    assert!(matches!(
        timeseries::timeseries_result(vec![bad]),
        EkResults::Error(EkError::NoHeaders(_))
    ));
}

#[test]
fn strict_vstack_needs_equal_schemas() {
    let a = Table {
        names: vec!["A".to_string()],
        cols: vec![vec![Some("a1".to_string())]],
    };
    let b = Table {
        names: vec!["A".to_string()],
        cols: vec![vec![Some("a2".to_string())]],
    };
    let t = a.vstack(&b).expect("stacked");
    assert_eq!(t.height(), 2);
    assert_eq!(cell(&t, 0, 0), Some("a1".to_string()));
    assert_eq!(cell(&t, 0, 1), Some("a2".to_string()));
    let c = Table {
        names: vec!["B".to_string()],
        cols: vec![vec![Some("b1".to_string())]],
    };
    let a = Table {
        names: vec!["A".to_string()],
        cols: vec![vec![Some("a1".to_string())]],
    };
    assert!(matches!(a.vstack(&c), Err(EkError::NoDataFrame(_))));
}

#[test]
fn empty_header_rows_do_not_count_as_headers() {
    // A chunk whose header row is an empty list names no columns:
    // discovery must skip it and take the next chunk's headers.
    let empty_headers = dg_chunk(vec![], vec![]);
    assert!(fetch_headers(&empty_headers).is_none());
    let with = dg_chunk(vec!["A"], vec![vec![jstr("x")]]);
    let h = first_headers(&vec![dg_chunk(vec![], vec![]), with]).expect("headers");
    assert_eq!(h, vec!["A".to_string()]);
    // With only empty header rows the whole reassembly has no headers.
    assert!(matches!(
        to_table(&vec![dg_chunk(vec![], vec![])]),
        Err(EkError::NoHeaders(_))
    ));
}

#[test]
fn a_later_failing_response_aborts_the_stack() {
    let good = ts_chunk("Normal", vec!["CLOSE"], vec![vec![jnum("1")]], "XOM");
    let bad = ts_chunk("Error", vec!["CLOSE"], vec![], "GME");
    // The second response fails to convert: the whole result is that
    // error, never a table built from the first response alone.
    assert!(matches!(
        timeseries::timeseries_result(vec![good, bad]),
        EkResults::Error(EkError::NoHeaders(_))
    ));
}

#[test]
fn unrelated_schemas_abort_the_stack() {
    let a = ts_chunk("Normal", vec!["CLOSE"], vec![vec![jnum("1")]], "XOM");
    let b = jobj(vec![(
        "timeseriesData",
        jarr(vec![jobj(vec![
            ("statusCode", jstr("Normal")),
            ("fields", jarr(vec![jobj(vec![("name", jstr("VOLUME"))])])),
            ("dataPoints", jarr(vec![jarr(vec![jnum("9")])])),
            ("ric", jstr("GME")),
        ])]),
    )]);
    // Neither schema contains the other ({CLOSE, RIC} vs {VOLUME, RIC}):
    // the stack cannot be reconciled.
    assert!(matches!(
        timeseries::timeseries_result(vec![a, b]),
        EkResults::Error(EkError::NoDataFrame(_))
    ));
}
