use eikon_client::json::JsonVal;
use eikon_client::utils::clean_string;
use eikon_client::utils::field_builder;
use eikon_client::utils::missing_in_vec;
use eikon_client::utils::vec_contains_string;
use eikon_client::utils::EkError;
use eikon_client::utils::Fields;
use eikon_client::utils::Params;

fn jeq(a: &JsonVal, b: &JsonVal) -> bool {
    match (a, b) {
        (JsonVal::Null, JsonVal::Null) => true,
        (JsonVal::Bool(x), JsonVal::Bool(y)) => x == y,
        (JsonVal::Num(x), JsonVal::Num(y)) => x == y,
        (JsonVal::Str(x), JsonVal::Str(y)) => x == y,
        (JsonVal::Arr(xs), JsonVal::Arr(ys)) => {
            xs.len() == ys.len() && xs.iter().zip(ys.iter()).all(|(x, y)| jeq(x, y))
        }
        (JsonVal::Obj(xs), JsonVal::Obj(ys)) => {
            xs.len() == ys.len()
                && xs
                    .iter()
                    .zip(ys.iter())
                    .all(|(x, y)| x.0 == y.0 && jeq(&x.1, &y.1))
        }
        _ => false,
    }
}

fn jstr(s: &str) -> JsonVal {
    JsonVal::Str(s.to_string())
}

fn jobj(entries: Vec<(&str, JsonVal)>) -> JsonVal {
    JsonVal::Obj(entries.into_iter().map(|(k, v)| (k.to_string(), v)).collect())
}

#[test]
fn test_clean_string() {
    let s = String::from("\"hello\"");
    let res = clean_string(s);
    assert_eq!(res, "hello");
}

#[test]
fn test_field_builder() {
    let field = vec![(
        "TR.GrossProfit".to_string(),
        vec![
            ("Scale".to_string(), "6".to_string()),
            ("Curn".to_string(), "EUR".to_string()),
        ],
    )];
    let answer = JsonVal::Arr(vec![jobj(vec![
        ("name", jstr("TR.GrossProfit")),
        (
            "parameters",
            jobj(vec![("Scale", jstr("6")), ("Curn", jstr("EUR"))]),
        ),
    ])]);
    let res = field_builder(Fields::Params(field));
    assert!(jeq(&res, &answer));

    let field = vec![
        (
            "TR.GrossProfit".to_string(),
            vec![
                ("Scale".to_string(), "6".to_string()),
                ("Curn".to_string(), "EUR".to_string()),
            ],
        ),
        (
            "TR.CLOSE".to_string(),
            vec![("Curn".to_string(), "EUR".to_string())],
        ),
    ];
    let answer = JsonVal::Arr(vec![
        jobj(vec![
            ("name", jstr("TR.GrossProfit")),
            (
                "parameters",
                jobj(vec![("Scale", jstr("6")), ("Curn", jstr("EUR"))]),
            ),
        ]),
        jobj(vec![
            ("name", jstr("TR.CLOSE")),
            ("parameters", jobj(vec![("Curn", jstr("EUR"))])),
        ]),
    ]);
    let res = field_builder(Fields::Params(field));
    assert!(jeq(&res, &answer));

    let fields = vec!["TR.GrossProfit".to_string(), "TR.CLOSE".to_string()];
    let answer = JsonVal::Arr(vec![
        jobj(vec![("name", jstr("TR.GrossProfit"))]),
        jobj(vec![("name", jstr("TR.CLOSE"))]),
    ]);
    let res = field_builder(Fields::NoParams(fields));
    assert!(jeq(&res, &answer));
}

#[test]
fn clean_string_keeps_other_characters() {
    assert_eq!(clean_string("a\"b\"c".to_string()), "abc");
    assert_eq!(clean_string(String::new()), "");
    assert_eq!(clean_string("plain".to_string()), "plain");
}

#[test]
fn error_messages_name_their_kind() {
    assert_eq!(
        EkError::NoData("x".to_string()).message(),
        "No data returned: x"
    );
    assert_eq!(
        EkError::NoHeaders("y".to_string()).message(),
        "No headers returned: y"
    );
    assert_eq!(
        EkError::NoDataFrame("z".to_string()).message(),
        "No dataframe returned: z"
    );
    assert_eq!(
        EkError::AuthError("a".to_string()).message(),
        "Authentication error: a"
    );
    assert_eq!(
        EkError::ConnectionError("c".to_string()).message(),
        "Connection error: c"
    );
    assert_eq!(
        EkError::ThreadError("t".to_string()).message(),
        "Thread error: t"
    );
    assert_eq!(EkError::DateError("d".to_string()).message(), "Date error: d");
    assert_eq!(EkError::Error("e".to_string()).message(), "Error: e");
}

#[test]
fn missing_in_vec_keeps_order() {
    let v1 = vec!["A".to_string(), "B".to_string(), "C".to_string()];
    let v2 = vec!["B".to_string()];
    let missing = missing_in_vec(v1, &v2);
    assert_eq!(missing, vec!["A".to_string(), "C".to_string()]);
}

#[test]
fn vec_contains_string_compares_content() {
    let v = vec!["A".to_string(), "B".to_string()];
    assert!(vec_contains_string(&v, &"B".to_string()));
    assert!(!vec_contains_string(&v, &"C".to_string()));
}

#[test]
fn params_get_takes_first_match() {
    let mut p = Params::new();
    p.push("Frq".to_string(), "D".to_string());
    p.push("SDate".to_string(), "2002-01-01".to_string());
    p.push("Frq".to_string(), "M".to_string());
    assert_eq!(p.get(&"Frq".to_string()), Some(&"D".to_string()));
    assert_eq!(p.get(&"SDate".to_string()), Some(&"2002-01-01".to_string()));
    assert_eq!(p.get(&"EDate".to_string()), None);
}
