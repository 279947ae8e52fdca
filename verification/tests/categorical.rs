use feature_flow::feature_encoders::feature_extraction::count_vectorizer::CountVectorizer;
use feature_flow::feature_encoders::feature_extraction::hash_vectorizer::HashVectorizer;
use feature_flow::feature_encoders::feature_extraction::tfidf_transformer::TfidfTransformer;
use feature_flow::feature_encoders::feature_extraction::utils::default_tokenizer;
use feature_flow::feature_encoders::one_hot_encoder::OneHotEncoder;
use feature_flow::feature_encoders::ordinal_encoder::OrdinalEncoder;
use feature_flow::types::integer_assignment_aggregate::PositionAssignmentAggregate;
use feature_flow::types::ratio::Ratio;
use feature_flow::types::row_value::RowValue;
use feature_flow::EncodeError;

fn texts(values: &[&str]) -> Vec<((usize, RowValue), i64)> {
    values
        .iter()
        .enumerate()
        .map(|(i, v)| ((i, RowValue::Text(v.to_string())), 1i64))
        .collect()
}

fn vector_of(update: &((usize, RowValue), i64)) -> Vec<f64> {
    match &update.0 .1 {
        RowValue::Vector(v) => v.iter().map(|q| q.num as f64 / q.den as f64).collect(),
        _ => panic!("expected a vector output"),
    }
}

fn code_of(update: &((usize, RowValue), i64)) -> i64 {
    match &update.0 .1 {
        RowValue::Number(q) => {
            assert_eq!(q.den, 1);
            q.num
        }
        _ => panic!("expected a numeric output"),
    }
}

#[test]
fn tokenizer_splits_on_whitespace() {
    assert_eq!(
        default_tokenizer("the  cat\tsat\n"),
        vec!["the".to_string(), "cat".to_string(), "sat".to_string()]
    );
    assert_eq!(default_tokenizer(""), Vec::<String>::new());
    assert_eq!(default_tokenizer("   "), Vec::<String>::new());
    assert_eq!(default_tokenizer("one"), vec!["one".to_string()]);
}

#[test]
fn ordinal_assigns_stable_codes_and_unknown_is_minus_one() {
    let data = texts(&["a", "b", "a", "c"]);
    let mut enc = OrdinalEncoder::new();
    enc.fit(&data).unwrap();
    let out = enc.transform(&data).unwrap();
    // First occurrences get fresh positions in arrival order.
    assert_eq!(code_of(&out[0]), 0);
    assert_eq!(code_of(&out[1]), 1);
    assert_eq!(code_of(&out[2]), 0);
    assert_eq!(code_of(&out[3]), 2);
    // A value never seen maps to -1.
    let unknown = texts(&["zebra"]);
    assert_eq!(code_of(&enc.transform(&unknown).unwrap()[0]), -1);
}

#[test]
fn one_hot_encodes_positions_and_shrinks_after_retractions() {
    let data = texts(&["a", "b", "a", "c"]);
    let mut enc = OneHotEncoder::new();
    enc.fit(&data).unwrap();
    let out = enc.transform(&data).unwrap();
    // Width grows to cover the three live values.
    assert_eq!(vector_of(&out[0]), vec![1.0, 0.0, 0.0]);
    assert_eq!(vector_of(&out[1]), vec![0.0, 1.0, 0.0]);
    assert_eq!(vector_of(&out[3]), vec![0.0, 0.0, 1.0]);
    // Retract the single "c": its value dies and emits the zero vector.
    let retract_c = vec![((3usize, RowValue::Text("c".to_string())), -1i64)];
    enc.fit(&retract_c).unwrap();
    let again = enc.transform(&texts(&["c", "a"])).unwrap();
    let c_vec = vector_of(&again[0]);
    assert!(c_vec.iter().all(|x| *x == 0.0));
    let a_vec = vector_of(&again[1]);
    assert_eq!(a_vec.iter().filter(|x| **x == 1.0).count(), 1);
    // Retract "b" as well: only "a" stays live and the width compacts to
    // cover just the live values (two thirds policy).
    let retract_b = vec![((1usize, RowValue::Text("b".to_string())), -1i64)];
    enc.fit(&retract_b).unwrap();
    let last = enc.transform(&texts(&["a"])).unwrap();
    assert_eq!(vector_of(&last[0]), vec![1.0, 0.0]);
}

#[test]
fn position_aggregate_group_law() {
    // Folding a value in and folding it back out returns to the zero of the
    // group.
    let v = RowValue::Integer(42);
    let mut agg = PositionAssignmentAggregate::new_with_val(&v, 1).unwrap();
    let mut inv = PositionAssignmentAggregate::new_with_val(&v, 1).unwrap();
    inv.negate().unwrap();
    agg.plus_equals(&inv).unwrap();
    assert!(agg.is_zero());
    assert_eq!(agg.value_count(), 0);
}

#[test]
fn position_aggregate_width_monotone_without_retractions() {
    let mut agg = PositionAssignmentAggregate::zero();
    let mut last_width = 0usize;
    for i in 0..20i64 {
        agg.plus_equals_value_count(&RowValue::Integer(i), 1).unwrap();
        let (_, width) = agg.clone().get_map_and_len();
        assert!(width >= last_width, "width shrank under a growth-only run");
        last_width = width;
    }
}

#[test]
fn position_aggregate_reuses_freed_positions() {
    let mut agg = PositionAssignmentAggregate::zero();
    agg.plus_equals_value_count(&RowValue::Integer(1), 1).unwrap();
    agg.plus_equals_value_count(&RowValue::Integer(2), 1).unwrap();
    agg.plus_equals_value_count(&RowValue::Integer(3), 1).unwrap();
    // Kill value 2, then bring in a new value: it takes the freed position.
    agg.plus_equals_value_count(&RowValue::Integer(2), -1).unwrap();
    agg.plus_equals_value_count(&RowValue::Integer(9), 1).unwrap();
    let (map, _) = agg.get_map_and_len();
    let mut positions: Vec<usize> = map.iter().iter().map(|e| e.1).collect();
    positions.sort();
    assert_eq!(positions, vec![0, 1, 2]);
}

#[test]
fn count_vectorizer_counts_tokens() {
    let data = texts(&["the cat", "the dog"]);
    let mut enc = CountVectorizer::new(false);
    enc.fit(&data).unwrap();
    let out = enc.transform(&data).unwrap();
    let row0 = vector_of(&out[0]);
    let row1 = vector_of(&out[1]);
    // Vocabulary {the, cat, dog}; row 0 uses two of the three positions
    // once each, row 1 shares exactly the position of "the".
    assert_eq!(row0.iter().sum::<f64>(), 2.0);
    assert_eq!(row1.iter().sum::<f64>(), 2.0);
    assert!(row0.iter().all(|x| *x == 0.0 || *x == 1.0));
    // Unknown tokens are dropped.
    let other = enc.transform(&texts(&["unseen words here"])).unwrap();
    assert!(vector_of(&other[0]).iter().all(|x| *x == 0.0));
    // Repeated tokens count, and binary mode saturates at one.
    let repeat = enc.transform(&texts(&["the the"])).unwrap();
    assert_eq!(vector_of(&repeat[0]).iter().sum::<f64>(), 2.0);
    let mut bin = CountVectorizer::new(true);
    bin.fit(&data).unwrap();
    let brow = bin.transform(&texts(&["the the"])).unwrap();
    assert_eq!(vector_of(&brow[0]).iter().sum::<f64>(), 1.0);
}

#[test]
fn hash_vectorizer_is_deterministic() {
    let enc = HashVectorizer::new(8, false);
    let out1 = enc.transform(&texts(&["apples and oranges and pears"])).unwrap();
    let out2 = enc.transform(&texts(&["apples and oranges and pears"])).unwrap();
    assert_eq!(vector_of(&out1[0]), vector_of(&out2[0]));
    assert_eq!(vector_of(&out1[0]).len(), 8);
    assert_eq!(vector_of(&out1[0]).iter().sum::<f64>(), 5.0);
}

#[test]
fn tfidf_zero_where_tf_or_df_is_zero() {
    // Two documents as count vectors over three positions.
    let docs = vec![
        ((0usize, RowValue::Vector(vec![
            Ratio { num: 2, den: 1 },
            Ratio { num: 0, den: 1 },
            Ratio { num: 1, den: 1 },
        ])), 1i64),
        ((1usize, RowValue::Vector(vec![
            Ratio { num: 0, den: 1 },
            Ratio { num: 0, den: 1 },
            Ratio { num: 3, den: 1 },
        ])), 1i64),
    ];
    let mut enc = TfidfTransformer::new();
    enc.fit(&docs).unwrap();
    let out = enc.transform(&docs).unwrap();
    let row0 = &out[0].0 .1;
    // Position 1 has document frequency zero and term count zero: exactly
    // zero weight. Position 0 is used by one of two documents.
    assert!(row0[1].is_none());
    let w0 = row0[0].unwrap();
    assert_eq!(w0.doc_freq, 1);
    assert_eq!(w0.doc_count, 2);
    assert_eq!(w0.tf.num, 2);
    let row1 = &out[1].0 .1;
    assert!(row1[0].is_none());
    let w2 = row1[2].unwrap();
    assert_eq!(w2.doc_freq, 2);
    // The weight a driver computes: tf * ln(N / df) is exactly 0.0 for the
    // empty positions, and finite elsewhere.
    let weight = w2.tf.num as f64 * ((w2.doc_count as f64 / w2.doc_freq as f64).ln());
    assert_eq!(weight, 0.0_f64.max(weight).min(weight));
}

#[test]
fn tfidf_retraction_restores_frequencies() {
    let doc = vec![
        ((0usize, RowValue::Vector(vec![Ratio { num: 1, den: 1 }])), 1i64),
    ];
    let undo = vec![
        ((0usize, RowValue::Vector(vec![Ratio { num: 1, den: 1 }])), -1i64),
    ];
    let mut enc = TfidfTransformer::new();
    enc.fit(&doc).unwrap();
    enc.fit(&undo).unwrap();
    let agg = enc.frequencies.as_ref().unwrap();
    assert_eq!(agg.get_count(), 0);
    assert!(agg.get_frequencies().unwrap().iter().all(|x| *x == 0));
}

#[test]
fn position_stays_stable_while_value_lives() {
    // Once a value is live, its position survives later insertions.
    let mut enc = OrdinalEncoder::new();
    enc.fit(&texts(&["a", "b"])).unwrap();
    let before = code_of(&enc.transform(&texts(&["a"])).unwrap()[0]);
    for round in 0..5 {
        let newcomer = format!("value-{round}");
        let batch = vec![((10 + round as usize, RowValue::Text(newcomer)), 1i64)];
        enc.fit(&batch).unwrap();
        let after = code_of(&enc.transform(&texts(&["a"])).unwrap()[0]);
        assert_eq!(before, after, "a live value changed its position");
    }
}
