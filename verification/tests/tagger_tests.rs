use pos_tagger::model::{Model, ModelError};
use pos_tagger::tagger::{normalize, Tagger};
use pos_tagger::SCALE;

fn s(x: &str) -> String {
    x.to_string()
}

fn classes(names: &[&str]) -> Vec<String> {
    names.iter().map(|n| s(n)).collect()
}

fn weights(rows: &[(&str, &[(&str, i64)])]) -> Vec<(String, Vec<(String, i64)>)> {
    rows.iter()
        .map(|(name, entries)| {
            (s(name), entries.iter().map(|(t, w)| (s(t), *w)).collect())
        })
        .collect()
}

fn exceptions(pairs: &[(&str, &str)]) -> Vec<(String, String)> {
    pairs.iter().map(|(w, t)| (s(w), s(t))).collect()
}

#[test]
fn single_token_bias_prediction() {
    // classes {NN, VB}, bias weights 1.0 and 0.5: "x" gets NN with the
    // softmax share of the larger bias.
    let t = Tagger::new(
        classes(&["NN", "VB"]),
        weights(&[("bias", &[("NN", 1_000_000), ("VB", 500_000)])]),
        exceptions(&[]),
    )
    .unwrap();
    let out = t.tag("x");
    assert_eq!(out.len(), 1);
    assert_eq!(out[0].word, "x");
    assert_eq!(out[0].tag, "NN");
    assert_eq!(out[0].conf, 622_466);
}

#[test]
fn exception_forces_tag() {
    // "was" is forced to VB with full confidence, whatever the model says.
    let t = Tagger::new(
        classes(&["NN", "VB"]),
        weights(&[("bias", &[("NN", 1_000_000)])]),
        exceptions(&[("was", "VB")]),
    )
    .unwrap();
    let out = t.tag("shubham was good");
    assert_eq!(out.len(), 3);
    assert_eq!(out[0].word, "shubham");
    assert_eq!(out[1].word, "was");
    assert_eq!(out[2].word, "good");
    assert_eq!(out[1].tag, "VB");
    assert_eq!(out[1].conf, SCALE);
}

#[test]
fn exception_tag_becomes_context() {
    // The forced VB must appear as the previous tag when "good" is scored:
    // only then does the "i-1 tag VB" feature fire and JJ win.
    let t = Tagger::new(
        classes(&["NN", "JJ"]),
        weights(&[
            ("bias", &[("NN", 1_000_000)]),
            ("i-1 tag VB", &[("JJ", 3_000_000)]),
        ]),
        exceptions(&[("was", "VB")]),
    )
    .unwrap();
    let out = t.tag("shubham was good");
    assert_eq!(out[0].tag, "NN");
    assert_eq!(out[1].tag, "VB");
    assert_eq!(out[2].tag, "JJ");
}

#[test]
fn empty_and_blank_sentences_yield_no_tokens() {
    let t = Tagger::new(
        classes(&["NN"]),
        weights(&[]),
        exceptions(&[]),
    )
    .unwrap();
    assert_eq!(t.tag("").len(), 0);
    assert_eq!(t.tag("   \t  ").len(), 0);
}

#[test]
fn whitespace_tokenization_keeps_words_verbatim() {
    let t = Tagger::new(classes(&["NN"]), weights(&[]), exceptions(&[])).unwrap();
    let out = t.tag("  Hello   brave\tNew world  ");
    let words: Vec<&str> = out.iter().map(|x| x.word.as_str()).collect();
    assert_eq!(words, vec!["Hello", "brave", "New", "world"]);
}

#[test]
fn unknown_features_fall_back_to_first_class() {
    // No feature matches: every score is zero, the first class wins by the
    // deterministic tie-break, and the softmax splits evenly.
    let t = Tagger::new(classes(&["A", "B"]), weights(&[]), exceptions(&[])).unwrap();
    let out = t.tag("z");
    assert_eq!(out[0].tag, "A");
    assert_eq!(out[0].conf, 500_000);
}

#[test]
fn tagging_is_deterministic() {
    let t = Tagger::new(
        classes(&["NN", "VB", "JJ"]),
        weights(&[
            ("bias", &[("NN", 200_000), ("VB", 100_000)]),
            ("i suffix ood", &[("JJ", 900_000)]),
            ("i-1 tag JJ", &[("VB", 800_000)]),
        ]),
        exceptions(&[("was", "VB")]),
    )
    .unwrap();
    let a = t.tag("shubham was good enough");
    let b = t.tag("shubham was good enough");
    assert_eq!(a.len(), b.len());
    for (x, y) in a.iter().zip(b.iter()) {
        assert_eq!(x.word, y.word);
        assert_eq!(x.tag, y.tag);
        assert_eq!(x.conf, y.conf);
    }
}

#[test]
fn confidences_stay_in_unit_interval() {
    let t = Tagger::new(
        classes(&["NN", "VB", "JJ", "DT"]),
        weights(&[
            ("bias", &[("NN", 150_000), ("VB", -400_000)]),
            ("i word the", &[("DT", 2_500_000)]),
            ("i suffix ing", &[("VB", 700_000)]),
        ]),
        exceptions(&[("a", "DT")]),
    )
    .unwrap();
    let out = t.tag("the dog was running around a tall tree in 1984");
    assert_eq!(out.len(), 10);
    for x in &out {
        assert!(x.conf > 0);
        assert!(x.conf <= SCALE);
    }
}

#[test]
fn changing_a_late_token_keeps_early_output() {
    // Left-to-right causality: the feature window looks two tokens ahead,
    // so output j is fixed once tokens up to j + 2 are fixed.
    let t = Tagger::new(
        classes(&["NN", "VB"]),
        weights(&[
            ("bias", &[("NN", 100_000)]),
            ("i word walks", &[("VB", 900_000)]),
            ("i+1 word walks", &[("VB", 300_000)]),
        ]),
        exceptions(&[]),
    )
    .unwrap();
    let a = t.tag("the tall man walks home");
    let b = t.tag("the tall man walks away");
    // tokens 0..4 agree; outputs 0 and 1 lie fully inside the window.
    for j in 0..2 {
        assert_eq!(a[j].word, b[j].word);
        assert_eq!(a[j].tag, b[j].tag);
        assert_eq!(a[j].conf, b[j].conf);
    }
}

#[test]
fn normalize_rules_in_priority_order() {
    assert_eq!(normalize("their-means"), "!HYPHEN");
    assert_eq!(normalize("12-34"), "!HYPHEN");
    assert_eq!(normalize("-foo"), "-foo");
    assert_eq!(normalize("1984"), "!YEAR");
    assert_eq!(normalize("123456"), "!DIGITS");
    assert_eq!(normalize("1st"), "!DIGITS");
    assert_eq!(normalize("Hello"), "hello");
    assert_eq!(normalize("ABC"), "abc");
    assert_eq!(normalize(""), "");
}

#[test]
fn normalize_idempotent_on_plain_words() {
    for w in ["Hello", "world", "ABC", "-foo", "mixedCase", ""] {
        let once = normalize(w);
        let twice = normalize(&once);
        assert_eq!(twice, once);
    }
}

#[test]
fn normalize_marker_forms_fold_on_second_pass() {
    // The marker outputs themselves are lower-cased by a second pass: the
    // idempotence law holds only for tokens normalization merely folds.
    assert_eq!(normalize(&normalize("their-means")), "!hyphen");
    assert_eq!(normalize(&normalize("1984")), "!year");
}

#[test]
fn context_words_are_normalized_before_lookup() {
    // "1984" reaches the model as the marker "!YEAR", and "Hello" as its
    // lower-cased form; weights keyed on those canonical forms must fire.
    let t = Tagger::new(
        classes(&["NN", "CD", "UH"]),
        weights(&[
            ("bias", &[("NN", 100_000)]),
            ("i word !YEAR", &[("CD", 2_000_000)]),
            ("i word hello", &[("UH", 2_000_000)]),
        ]),
        exceptions(&[]),
    )
    .unwrap();
    let out = t.tag("Hello in 1984");
    assert_eq!(out[0].tag, "UH");
    assert_eq!(out[1].tag, "NN");
    assert_eq!(out[2].tag, "CD");
}

#[test]
fn earlier_exception_entry_shadows_later_one() {
    let t = Tagger::new(
        classes(&["NN"]),
        weights(&[]),
        exceptions(&[("was", "VBD"), ("was", "VB")]),
    )
    .unwrap();
    let out = t.tag("was");
    assert_eq!(out[0].tag, "VBD");
    assert_eq!(out[0].conf, SCALE);
}

#[test]
fn model_rejects_empty_class_list() {
    let r = Model::new(classes(&[]), weights(&[]));
    assert!(matches!(r, Err(ModelError::EmptyClasses)));
}

#[test]
fn model_rejects_unknown_tag() {
    let r = Model::new(
        classes(&["NN"]),
        weights(&[("bias", &[("ZZ", 1_000)])]),
    );
    assert!(matches!(r, Err(ModelError::UnknownTag)));
}

#[test]
fn model_rejects_oversized_weight() {
    let r = Model::new(
        classes(&["NN"]),
        weights(&[("bias", &[("NN", 2_000_000_000_000)])]),
    );
    assert!(matches!(r, Err(ModelError::WeightOutOfRange)));
}

#[test]
fn model_rejects_too_many_classes() {
    let many: Vec<String> = (0..100_001).map(|i| format!("C{}", i)).collect();
    let r = Model::new(many, weights(&[]));
    assert!(matches!(r, Err(ModelError::TooManyClasses)));
}

#[test]
fn unknown_tag_reported_before_oversized_weight_in_later_entry() {
    let r = Model::new(
        classes(&["NN"]),
        weights(&[("bias", &[("ZZ", 5), ("NN", 2_000_000_000_000)])]),
    );
    assert!(matches!(r, Err(ModelError::UnknownTag)));
}
