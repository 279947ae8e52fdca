use feature_flow::feature_encoders::column_encoder::ColumnEncoder;
use feature_flow::feature_encoders::feature_extraction::utils::default_tokenizer;
use feature_flow::feature_encoders::multi_column_encoder::concat_outputs;
use feature_flow::feature_encoders::multi_column_encoder::multi_column_encoder;
use feature_flow::feature_encoders::one_hot_encoder::OneHotEncoder;
use feature_flow::feature_encoders::passthrough::Passthrough;
use feature_flow::feature_encoders::pipeline::Pipeline;
use feature_flow::feature_encoders::polynomial_features_encoder::PolynomialFeaturesEncoder;
use feature_flow::feature_encoders::standard_scaler::StandardScaler;
use feature_flow::feature_encoders::kbins_discretizer::KBinsDiscretizer;
use feature_flow::feature_encoders::minmax_scaler::MinMaxScaler;
use feature_flow::types::dense_vector::DenseVector;
use feature_flow::types::ratio::Ratio;
use feature_flow::types::row::Row;
use feature_flow::types::row_value::RowValue;
use feature_flow::EncodeError;

fn dense_as_f64(v: &DenseVector) -> Vec<f64> {
    match v {
        DenseVector::Scalar(q) => vec![q.num as f64 / q.den as f64],
        DenseVector::Vector(vs) => vs.iter().map(|q| q.num as f64 / q.den as f64).collect(),
    }
}

#[test]
fn concat_keeps_configuration_order() {
    let parts = vec![
        RowValue::Number(Ratio { num: 7, den: 2 }),
        RowValue::Vector(vec![Ratio { num: 0, den: 1 }, Ratio { num: 1, den: 1 }]),
        RowValue::Integer(5),
    ];
    let joined = concat_outputs(&parts).unwrap();
    assert_eq!(dense_as_f64(&joined), vec![3.5, 0.0, 1.0, 5.0]);
    let text_part = vec![RowValue::Text("nope".to_string())];
    assert_eq!(concat_outputs(&text_part), Err(EncodeError::TypeMismatch));
}

#[test]
fn multi_column_scales_and_one_hots() {
    // Rows (i, i % 2) for i in 0..10: a scaled numeric column, then a
    // two-slot one-hot column, concatenated in that order.
    let rows: Vec<((usize, Row), i64)> = (0..10i64)
        .map(|i| ((i as usize, Row::with_integer_vec(vec![i, i % 2])), 1i64))
        .collect();
    let config = vec![
        (0usize, ColumnEncoder::StandardScaler(StandardScaler::new())),
        (1usize, ColumnEncoder::OneHotEncoder(OneHotEncoder::new())),
    ];
    let out = multi_column_encoder(&rows, config).unwrap();
    assert_eq!(out.len(), 10);
    for (i, ((row_id, vec), mult)) in out.iter().enumerate() {
        assert_eq!(*row_id, i);
        assert_eq!(*mult, 1);
        let xs = dense_as_f64(vec);
        assert_eq!(xs.len(), 3);
        assert_eq!(xs[0], (i as f64 - 4.5) / 8.25);
        let hot: Vec<f64> = if i % 2 == 0 { vec![1.0, 0.0] } else { vec![0.0, 1.0] };
        assert_eq!(&xs[1..], &hot[..]);
    }
}

#[test]
fn multi_column_rejects_empty_config() {
    let rows: Vec<((usize, Row), i64)> = vec![((0, Row::with_integer_vec(vec![1])), 1)];
    assert_eq!(
        multi_column_encoder(&rows, Vec::new()),
        Err(EncodeError::EmptyConfig)
    );
}

#[test]
fn pipeline_chains_scaler_into_bins() {
    // Min-max scale 0..10 into [0, 1], then cut into 4 bins: the pipeline
    // fits each stage on the previous stage's output.
    let data: Vec<((usize, RowValue), i64)> = (0..10i64)
        .map(|i| ((i as usize, RowValue::Integer(i)), 1i64))
        .collect();
    let mut pipe = Pipeline::new(vec![
        ColumnEncoder::MinMaxScaler(MinMaxScaler::new()),
        ColumnEncoder::KBinsDiscretizer(KBinsDiscretizer::new(4)),
    ]);
    pipe.fit(&data).unwrap();
    let out = pipe.transform(&data).unwrap();
    let bins: Vec<i64> = out
        .iter()
        .map(|u| match &u.0 .1 {
            RowValue::Number(q) => {
                assert_eq!(q.den, 1);
                q.num
            }
            _ => panic!("expected a bin id"),
        })
        .collect();
    let expected: Vec<i64> = (0..10)
        .map(|i| {
            let scaled = i as f64 / 9.0;
            let b = (scaled * 4.0).floor() as i64;
            if b > 3 { 3 } else { b }
        })
        .collect();
    assert_eq!(bins, expected);
}

#[test]
fn polynomial_features_are_exact_powers() {
    let data = vec![((0usize, RowValue::Integer(3)), 1i64)];
    let enc = PolynomialFeaturesEncoder::new(1, 4);
    let out = enc.transform(&data).unwrap();
    match &out[0].0 .1 {
        RowValue::Vector(v) => {
            let xs: Vec<i64> = v.iter().map(|q| q.num).collect();
            assert_eq!(xs, vec![3, 9, 27, 81]);
            assert!(v.iter().all(|q| q.den == 1));
        }
        _ => panic!("expected a vector of powers"),
    }
}

#[test]
fn passthrough_hands_records_back() {
    let data = vec![((0usize, RowValue::Text("hi".to_string())), 2i64)];
    let enc = Passthrough::new();
    let out = enc.transform(&data).unwrap();
    assert_eq!(out.len(), 1);
    assert_eq!(out[0].1, 2);
    match &out[0].0 .1 {
        RowValue::Text(s) => assert_eq!(s, "hi"),
        _ => panic!("expected the text back"),
    }
}

#[test]
fn ratio_arithmetic_is_exact() {
    let half = Ratio { num: 1, den: 2 };
    let third = Ratio { num: 1, den: 3 };
    let sum = half.checked_add(third).unwrap();
    assert_eq!((sum.num, sum.den), (5, 6));
    let diff = half.checked_sub(third).unwrap();
    assert_eq!((diff.num, diff.den), (1, 6));
    let prod = half.checked_mul(third).unwrap();
    assert_eq!((prod.num, prod.den), (1, 6));
    let quot = half.checked_div(third).unwrap();
    assert_eq!(quot.num * 2, quot.den * 3);
    assert!(Ratio { num: 2, den: 4 }.eqv(&half));
    assert!(third.lt(&half));
    // Overflow is reported, never wrapped.
    let big = Ratio { num: i64::MAX, den: 1 };
    assert!(big.checked_add(big).is_none());
}

#[test]
fn row_access_and_append() {
    let mut row = Row::new();
    row.append_integer(4);
    let row = row.append_row_value(RowValue::Text("x".to_string()));
    assert_eq!(row.size, 2);
    assert_eq!(row.values.len(), 2);
    let trio = Row::with_values(1, Ratio { num: 1, den: 2 }, "t".to_string());
    assert_eq!(trio.size, 3);
    let found = trio.find_indices(|v| matches!(v, RowValue::Text(_)));
    assert_eq!(found, vec![2]);
}

#[test]
fn pipeline_rejects_empty_config() {
    let data = vec![((0usize, RowValue::Integer(1)), 1i64)];
    let mut pipe = Pipeline::new(Vec::new());
    assert_eq!(pipe.fit(&data), Err(EncodeError::EmptyConfig));
    assert_eq!(pipe.transform(&data), Err(EncodeError::EmptyConfig));
}

#[test]
fn tokenizer_splits_on_unicode_whitespace() {
    assert_eq!(
        default_tokenizer("a\u{00A0}b\u{2003}c"),
        vec!["a".to_string(), "b".to_string(), "c".to_string()]
    );
}
