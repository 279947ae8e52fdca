//! Feature extraction from text: tokenization, count vectorization, hash
//! vectorization and TF–IDF weighting.

pub mod count_vectorizer;
pub mod hash_vectorizer;
pub mod tfidf_transformer;
pub mod utils;
