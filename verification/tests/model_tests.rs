use pos_tagger::fixed::exp_neg;
use pos_tagger::model::Model;
use pos_tagger::tagger::get_features;
use pos_tagger::SCALE;

fn s(x: &str) -> String {
    x.to_string()
}

#[test]
fn exponential_fixed_points() {
    assert_eq!(exp_neg(0), SCALE);
    // e^-1 rounded down in fixed point
    assert_eq!(exp_neg(1_000_000), 367_879);
    // far inputs collapse to zero
    assert_eq!(exp_neg(28_000_000), 0);
    assert_eq!(exp_neg(u64::MAX), 0);
}

#[test]
fn exponential_is_antitone_and_bounded() {
    // whole-unit steps: each is the previous multiplied by e^-1 in fixed
    // point, strictly falling until it reaches zero
    let mut last = SCALE + 1;
    for k in 0..20u64 {
        let v = exp_neg(k * 1_000_000);
        assert!(v < last || (v == 0 && last == 0));
        assert!(v <= SCALE);
        last = v;
    }
    assert_eq!(last, 0);
}

#[test]
fn predict_accumulates_weighted_counts() {
    // score(NN) = 3 * 200_000, score(VB) = 3 * 100_000 + 400_000: VB wins.
    let m = Model::new(
        vec![s("NN"), s("VB")],
        vec![
            (s("f"), vec![(s("NN"), 200_000), (s("VB"), 100_000)]),
            (s("g"), vec![(s("VB"), 400_000)]),
        ],
    )
    .unwrap();
    let feats = vec![(s("f"), 3i64), (s("g"), 1i64), (s("missing"), 7i64)];
    let (tag, conf) = m.predict(&feats);
    assert_eq!(tag, "VB");
    assert!(conf > 0 && conf <= SCALE);
}

#[test]
fn predict_breaks_ties_by_class_order() {
    let m = Model::new(vec![s("X"), s("Y"), s("Z")], vec![]).unwrap();
    let (tag, _) = m.predict(&vec![]);
    assert_eq!(tag, "X");
}

#[test]
fn features_fire_once_with_unit_counts() {
    let ctx = vec![
        s("-START-"),
        s("-START2-"),
        s("he"),
        s("walks"),
        s("home"),
        s("-END-"),
        s("-END2-"),
    ];
    let fs = get_features(&s("walks"), &ctx, 1, &s("NN"), &s("-START-"));
    assert!(fs.iter().all(|(_, c)| *c == 1));
    let names: Vec<&str> = fs.iter().map(|(n, _)| n.as_str()).collect();
    assert!(names.contains(&"bias"));
    assert!(names.contains(&"i suffix lks"));
    assert!(names.contains(&"i char2 a"));
    assert!(names.contains(&"i-1 tag NN"));
    assert!(names.contains(&"i word walks"));
    assert!(names.contains(&"i-1 word he"));
    assert!(names.contains(&"i+1 word home"));
    assert!(names.contains(&"i+2 word -END-"));
    assert!(names.contains(&"i-1 tag i-2 tag NN -START-"));
    // each name occurs exactly once
    for n in &names {
        assert_eq!(names.iter().filter(|x| *x == n).count(), 1);
    }
}

#[test]
fn short_word_features_use_whole_token() {
    let ctx = vec![
        s("-START-"),
        s("-START2-"),
        s("a"),
        s("-END-"),
        s("-END2-"),
    ];
    let fs = get_features(&s("a"), &ctx, 0, &s("-START-"), &s("-START2-"));
    let names: Vec<&str> = fs.iter().map(|(n, _)| n.as_str()).collect();
    // suffix of a one-letter word is the word itself, and there is no
    // second-character feature
    assert!(names.contains(&"i suffix a"));
    assert!(!names.iter().any(|n| n.starts_with("i char2 ")));
}
