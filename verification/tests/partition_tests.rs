use eikon_client::connection::Connection;
use eikon_client::datagrid::chunk_instruments;
use eikon_client::datagrid::group_size_for;
use eikon_client::datagrid::groups;
use eikon_client::datagrid::Datagrid;
use eikon_client::datagrid::FrqClass;
use eikon_client::datagrid::MAX_DATAGRID_INSTRUMENTS;
use eikon_client::json::JsonVal;
use eikon_client::timeseries::create_interval;
use eikon_client::timeseries::Frequency;
use eikon_client::timeseries::TimeSeries;
use eikon_client::utils::EkError;
use eikon_client::utils::Params;

fn get<'a>(v: &'a JsonVal, key: &str) -> &'a JsonVal {
    v.get(&key.to_string()).expect("missing key")
}

fn str_items(v: &JsonVal) -> Vec<String> {
    match v {
        JsonVal::Arr(items) => items
            .iter()
            .map(|x| match x {
                JsonVal::Str(s) => s.clone(),
                _ => panic!("not a string"),
            })
            .collect(),
        _ => panic!("not an array"),
    }
}

#[test]
fn datagrid_without_dates_makes_one_chunk_of_two() {
    let dg = Datagrid::new(Connection::new(
        "key".to_string(),
        "127.0.0.1".to_string(),
        9000,
    ));
    let instruments = vec!["AAA".to_string(), "BBB".to_string()];
    let fields = vec!["TR.CLOSE".to_string()];
    let payloads = dg.payloads(&instruments, &fields, &None).expect("payloads");
    assert_eq!(payloads.len(), 1);
    let req = get(&payloads[0], "requests");
    let first = req.at(0).expect("one request");
    let insts = str_items(get(first, "instruments"));
    assert_eq!(insts, vec!["AAA".to_string(), "BBB".to_string()]);
}

#[test]
fn datagrid_chunks_cover_the_input_in_order() {
    let names: Vec<String> = vec!["a", "b", "c", "d", "e"]
        .into_iter()
        .map(|s| s.to_string())
        .collect();
    let chunks = chunk_instruments(&names, 2);
    assert_eq!(chunks.len(), 3);
    assert_eq!(chunks[0], vec!["a".to_string(), "b".to_string()]);
    assert_eq!(chunks[1], vec!["c".to_string(), "d".to_string()]);
    assert_eq!(chunks[2], vec!["e".to_string()]);
    let flat: Vec<String> = chunks.into_iter().flatten().collect();
    assert_eq!(flat, names);
}

#[test]
fn datagrid_group_size_shrinks_with_the_span() {
    assert_eq!(group_size_for(FrqClass::Daily, 10), 5000);
    assert_eq!(group_size_for(FrqClass::Daily, 100), 500);
    assert!(group_size_for(FrqClass::Daily, 100) <= group_size_for(FrqClass::Daily, 10));
    assert_eq!(group_size_for(FrqClass::Daily, 0), MAX_DATAGRID_INSTRUMENTS);
    assert_eq!(group_size_for(FrqClass::Monthly, 400), 50000 / 12);
    assert_eq!(group_size_for(FrqClass::Yearly, 800), 7000);
    assert_eq!(group_size_for(FrqClass::Daily, 60000), 1);
}

#[test]
fn datagrid_groups_follow_the_parsed_dates() {
    let mut p = Params::new();
    p.push("SDate".to_string(), "2002-01-01".to_string());
    p.push("EDate".to_string(), "2002-02-10".to_string());
    p.push("Frq".to_string(), "D".to_string());
    assert_eq!(groups(&Some(p)), Ok(50000 / 40));
    assert_eq!(groups(&None), Ok(MAX_DATAGRID_INSTRUMENTS));
}

#[test]
fn datagrid_groups_reject_bad_dates() {
    let mut p = Params::new();
    p.push("SDate".to_string(), "not-a-date".to_string());
    assert!(matches!(groups(&Some(p)), Err(EkError::DateError(_))));

    let mut p = Params::new();
    p.push("SDate".to_string(), "2002-01-01".to_string());
    p.push("EDate".to_string(), "02/10/2002".to_string());
    assert!(matches!(groups(&Some(p)), Err(EkError::DateError(_))));

    let mut p = Params::new();
    p.push("Frq".to_string(), "D".to_string());
    assert!(matches!(groups(&Some(p)), Err(EkError::Error(_))));

    let mut p = Params::new();
    p.push("Curn".to_string(), "EUR".to_string());
    assert_eq!(groups(&Some(p)), Ok(MAX_DATAGRID_INSTRUMENTS));
}

#[test]
fn intervals_cover_the_span_exactly() {
    let ivs = create_interval(3, 0, 10);
    assert_eq!(ivs, vec![(0, 3), (3, 6), (6, 10)]);
    let ivs = create_interval(1, 5, 5);
    assert_eq!(ivs, vec![(5, 5)]);
    let ivs = create_interval(4, 0, 100);
    assert_eq!(ivs.len(), 4);
    assert_eq!(ivs[0].0, 0);
    assert_eq!(ivs[3].1, 100);
    for k in 0..3 {
        assert_eq!(ivs[k].1, ivs[k + 1].0);
    }
}

#[test]
fn timeseries_groups_pair_chunks_with_intervals() {
    let _ts = TimeSeries::new(Connection::new(
        "key".to_string(),
        "127.0.0.1".to_string(),
        9000,
    ));
    let rics = vec!["XOM".to_string()];
    let fields = vec!["CLOSE".to_string()];
    let payloads = eikon_client::timeseries::groups(
        rics,
        fields,
        0,
        10 * 86400,
        Frequency::Daily,
    );
    assert_eq!(payloads.len(), 1);
    let p = &payloads[0];
    assert_eq!(str_items(get(p, "rics")), vec!["XOM".to_string()]);
    assert_eq!(str_items(get(p, "fields")), vec!["CLOSE".to_string()]);
    match get(p, "interval") {
        JsonVal::Str(s) => assert_eq!(s, "daily"),
        _ => panic!("interval is not a string"),
    }
    match get(p, "startdate") {
        JsonVal::Str(s) => assert_eq!(s, "1970-01-01T00:00:00"),
        _ => panic!("startdate is not a string"),
    }
    match get(p, "enddate") {
        JsonVal::Str(s) => assert_eq!(s, "1970-01-11T00:00:00"),
        _ => panic!("enddate is not a string"),
    }
}

#[test]
fn timeseries_groups_split_long_minute_spans() {
    let rics = vec!["XOM".to_string(), "GME".to_string()];
    let fields = vec!["CLOSE".to_string()];
    // 40 days of minute data for two instruments splits the span.
    let span: i64 = 40 * 86400;
    let payloads =
        eikon_client::timeseries::groups(rics, fields, 0, span, Frequency::Minute);
    // rows = ceil(ceil(40*1440 / 2)) = 28800; 28800 * 2 / 3000 rounded up = 20.
    assert_eq!(payloads.len(), 20);
    match get(&payloads[0], "startdate") {
        JsonVal::Str(s) => assert_eq!(s, "1970-01-01T00:00:00"),
        _ => panic!("startdate is not a string"),
    }
    match get(&payloads[19], "enddate") {
        JsonVal::Str(s) => assert_eq!(s, "1970-02-10T00:00:00"),
        _ => panic!("enddate is not a string"),
    }
}

#[test]
fn frequency_names_round_trip() {
    assert!(matches!(Frequency::new("minute"), Frequency::Minute));
    assert!(matches!(Frequency::new("hour"), Frequency::Hour));
    assert!(matches!(Frequency::new("weekly"), Frequency::Weekly));
    assert!(matches!(Frequency::new("monthly"), Frequency::Monthly));
    assert!(matches!(Frequency::new("quarterly"), Frequency::Quarterly));
    assert!(matches!(Frequency::new("yearly"), Frequency::Yearly));
    assert!(matches!(Frequency::new("daily"), Frequency::Daily));
    assert!(matches!(Frequency::new("anything"), Frequency::Daily));
    assert_eq!(Frequency::Quarterly.as_str(), "quarterly");
}

#[test]
fn datagrid_payloads_follow_the_computed_group_size() {
    let dg = Datagrid::new(Connection::new(
        "key".to_string(),
        "127.0.0.1".to_string(),
        9000,
    ));
    let instruments = vec!["AAA".to_string(), "BBB".to_string(), "CCC".to_string()];
    let fields = vec!["TR.CLOSE".to_string()];
    let mut p = Params::new();
    p.push("SDate".to_string(), "1950-01-01".to_string());
    p.push("EDate".to_string(), "2000-01-01".to_string());
    p.push("Frq".to_string(), "D".to_string());
    // 18262 days of daily data allow 50000 / 18262 == 2 instruments per
    // chunk, so three instruments make exactly two chunks.
    assert_eq!(groups(&Some(p.clone())), Ok(2));
    let payloads = dg.payloads(&instruments, &fields, &Some(p)).expect("payloads");
    assert_eq!(payloads.len(), 2);
    let first = get(&payloads[0], "requests").at(0).expect("request");
    assert_eq!(
        str_items(get(first, "instruments")),
        vec!["AAA".to_string(), "BBB".to_string()]
    );
    let second = get(&payloads[1], "requests").at(0).expect("request");
    assert_eq!(str_items(get(second, "instruments")), vec!["CCC".to_string()]);
}
