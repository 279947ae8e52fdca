use feature_flow::feature_encoders::kbins_discretizer::KBinsDiscretizer;
use feature_flow::feature_encoders::standard_scaler::VarianceAggregate;
use feature_flow::feature_encoders::minmax_scaler::MinMaxScaler;
use feature_flow::feature_encoders::standard_scaler::StandardScaler;
use feature_flow::types::ratio::Ratio;
use feature_flow::types::row_value::RowValue;
use feature_flow::EncodeError;

fn as_f64(q: Ratio) -> f64 {
    q.num as f64 / q.den as f64
}

fn number_of(update: &((usize, RowValue), i64)) -> Ratio {
    match update.0 .1 {
        RowValue::Number(q) => q,
        _ => panic!("expected a numeric output"),
    }
}

fn integers(values: &[i64]) -> Vec<((usize, RowValue), i64)> {
    values
        .iter()
        .enumerate()
        .map(|(i, &v)| ((i, RowValue::Integer(v)), 1i64))
        .collect()
}

#[test]
fn standard_scaler_works() {
    let data = integers(&(0..10).collect::<Vec<i64>>());
    let mut enc = StandardScaler::new();
    enc.fit(&data).unwrap();
    let output: Vec<f64> = enc
        .transform(&data)
        .unwrap()
        .iter()
        .map(|u| as_f64(number_of(u)))
        .collect();
    assert!(!output.is_empty(), "No output was generated");
    let expected_values: Vec<f64> = (0..10).map(|i| (i as f64 - 4.5) / 8.25).collect();
    assert_eq!(&output, &expected_values, "Transformed output is incorrect");
}

#[test]
fn min_max_works() {
    let data = integers(&(0..10).map(|i| i % 5).collect::<Vec<i64>>());
    let mut enc = MinMaxScaler::new();
    enc.fit(&data).unwrap();
    let output: Vec<f64> = enc
        .transform(&data)
        .unwrap()
        .iter()
        .map(|u| as_f64(number_of(u)))
        .collect();
    assert!(!output.is_empty(), "No output was generated");
    let expected_values: Vec<f64> = (0..10).map(|i| (i % 5) as f64 / 4.0).collect();
    assert_eq!(&output, &expected_values, "Transformed output is incorrect");
}

#[test]
fn kbins_works() {
    let data = integers(&(0..10).map(|i| i % 5).collect::<Vec<i64>>());
    let mut enc = KBinsDiscretizer::new(3);
    enc.fit(&data).unwrap();
    let output: Vec<f64> = enc
        .transform(&data)
        .unwrap()
        .iter()
        .map(|u| as_f64(number_of(u)))
        .collect();
    assert!(!output.is_empty(), "No output was generated");
    let expected_values: Vec<f64> = (0..10).map(|i| (((i % 5) as f64) / 1.4).floor()).collect();
    assert_eq!(&output, &expected_values, "Transformed output is incorrect");
}

#[test]
fn standard_scaler_retraction_cancels() {
    // Inserting a batch and then retracting it leaves the aggregate empty:
    // reading it reports exactly that.
    let mut enc = StandardScaler::new();
    let inserts = integers(&[3, 5, 9]);
    let retracts: Vec<((usize, RowValue), i64)> = inserts
        .iter()
        .map(|((i, v), m)| ((*i, v.clone()), -m))
        .collect();
    enc.fit(&inserts).unwrap();
    enc.fit(&retracts).unwrap();
    assert_eq!(enc.transform(&inserts), Err(EncodeError::EmptyAggregate));
}

#[test]
fn min_max_permutation_invariant() {
    // The settled meta cannot depend on insertion order inside an epoch.
    let a = integers(&[4, 1, 7, 1, 9]);
    let b = integers(&[9, 1, 7, 1, 4]);
    let mut ea = MinMaxScaler::new();
    let mut eb = MinMaxScaler::new();
    ea.fit(&a).unwrap();
    eb.fit(&b).unwrap();
    let probe = integers(&[5]);
    let oa = as_f64(number_of(&ea.transform(&probe).unwrap()[0]));
    let ob = as_f64(number_of(&eb.transform(&probe).unwrap()[0]));
    assert_eq!(oa, ob);
    assert_eq!(oa, (5.0 - 1.0) / 8.0);
}

#[test]
fn transform_before_fit_is_refused() {
    let enc = StandardScaler::new();
    assert_eq!(enc.transform(&integers(&[1])), Err(EncodeError::NotFitted));
    let enc2 = MinMaxScaler::new();
    assert_eq!(enc2.transform(&integers(&[1])), Err(EncodeError::NotFitted));
}

#[test]
fn zero_range_is_degenerate() {
    let data = integers(&[7, 7, 7]);
    let mut enc = MinMaxScaler::new();
    enc.fit(&data).unwrap();
    assert_eq!(enc.transform(&data), Err(EncodeError::DegenerateScale));
}

#[test]
fn text_in_numeric_column_is_mismatch() {
    let data = vec![(((0usize), RowValue::Text("oops".to_string())), 1i64)];
    let mut enc = StandardScaler::new();
    assert_eq!(enc.fit(&data), Err(EncodeError::TypeMismatch));
}

#[test]
fn standard_scaler_handles_rational_inputs() {
    // Values 1/2 and 3/2: mean 1, variance 1/4; (1/2 - 1)/(1/4) = -2.
    let data = vec![
        ((0usize, RowValue::Number(Ratio { num: 1, den: 2 })), 1i64),
        ((1usize, RowValue::Number(Ratio { num: 3, den: 2 })), 1i64),
    ];
    let mut enc = StandardScaler::new();
    enc.fit(&data).unwrap();
    let out = enc.transform(&data).unwrap();
    assert_eq!(as_f64(number_of(&out[0])), -2.0);
    assert_eq!(as_f64(number_of(&out[1])), 2.0);
}

#[test]
fn negated_aggregate_still_reads() {
    // Only a zero count means empty: a transiently negated aggregate reads
    // as sum / count, exactly as its moments represent.
    let mut agg = VarianceAggregate::new(Ratio { num: 3, den: 1 }, 1).unwrap();
    let extra = VarianceAggregate::new(Ratio { num: 5, den: 1 }, 1).unwrap();
    agg.plus_equals(&extra).unwrap();
    agg.negate().unwrap();
    assert_eq!(agg.count, -2);
    let (mean, var) = agg.get().unwrap();
    assert_eq!(as_f64(mean), 4.0);
    assert_eq!(as_f64(var), 1.0);
}

#[test]
fn variance_group_law_reaches_zero() {
    let mut agg = VarianceAggregate::new(Ratio { num: 7, den: 2 }, 3).unwrap();
    let mut inv = agg.clone();
    inv.negate().unwrap();
    agg.plus_equals(&inv).unwrap();
    assert!(agg.is_zero());
    assert_eq!(agg.sum.num, 0);
    assert_eq!(agg.sum_sq.num, 0);
}
