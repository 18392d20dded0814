//! The linear model: per-feature, per-class fixed-point weights, greedy
//! argmax prediction, and a softmax-style confidence score.

use vstd::prelude::*;
use vstd::arithmetic::div_mod::{
    lemma_div_is_ordered_by_denominator,
    lemma_div_multiples_vanish,
};
use crate::SCALE;
use crate::fixed::{exp_neg, exp_neg_spec, lemma_exp_neg_bounds};
use crate::strutil::str_eq;

verus! {

/// Upper bound on the number of classes, so that the confidence arithmetic
/// stays inside 64 bits.
pub const MAX_CLASSES: usize = 100_000;

/// Largest admitted magnitude of a single weight (one million in real terms).
pub const MAX_WEIGHT: i64 = 1_000_000_000_000;

/// Upper bound on the number of features scored in one prediction.
pub const MAX_FEATURES: usize = 1_000;

/// Largest admitted magnitude of a single feature count.
pub const MAX_COUNT: i64 = 1_000;

/// Largest magnitude a score accumulator can reach.
pub const MAX_SCORE: i64 = 1_000_000_000_000_000_000;

/// Largest magnitude one feature can add to a score: `MAX_WEIGHT * MAX_COUNT`.
pub const SCORE_STEP: i64 = 1_000_000_000_000_000;

/// Why a model could not be built.
#[derive(Clone, Copy, Debug, PartialEq, Eq, Structural)]
pub enum ModelError {
    /// The class list is empty; prediction would have no candidates.
    EmptyClasses,
    /// The class list exceeds `MAX_CLASSES`.
    TooManyClasses,
    /// A weight entry names a tag that is not in the class list.
    UnknownTag,
    /// A weight magnitude exceeds `MAX_WEIGHT`.
    WeightOutOfRange,
}

/// One known feature with its weight per class, indexed by class position.
pub struct FeatureRow {
    pub name: String,
    pub weights: Vec<i64>,
}

/// The immutable linear model.
pub struct Model {
    pub classes: Vec<String>,
    pub rows: Vec<FeatureRow>,
}

/// Mathematical image of a model: class labels in order, and per-feature
/// weight sequences indexed by class position.
pub struct ModelV {
    pub classes: Seq<Seq<char>>,
    pub rows: Seq<(Seq<char>, Seq<int>)>,
}

impl View for Model {
    type V = ModelV;

    open spec fn view(&self) -> ModelV {
        ModelV {
            classes: self.classes.deep_view(),
            rows: self.rows@.map_values(
                |r: FeatureRow| (r.name@, r.weights@.map_values(|w: i64| w as int)),
            ),
        }
    }
}

/// A well-formed model: at least one class, not more than `MAX_CLASSES`, one
/// weight per class in every row, and all weights within `MAX_WEIGHT`.
pub open spec fn wf_model(m: ModelV) -> bool {
    &&& 0 < m.classes.len() <= MAX_CLASSES as int
    &&& forall|i: int|
        0 <= i < m.rows.len() ==> (#[trigger] m.rows[i]).1.len() == m.classes.len()
    &&& forall|i: int, c: int|
        0 <= i < m.rows.len() && 0 <= c < m.rows[i].1.len() ==> -(MAX_WEIGHT as int) <= (
        #[trigger] m.rows[i].1[c]) <= MAX_WEIGHT as int
}

impl Model {
    pub open spec fn wf(&self) -> bool {
        wf_model(self@)
    }
}

/// The index of the first row named `name`, from position `k` on.
pub open spec fn find_row_from(
    rows: Seq<(Seq<char>, Seq<int>)>,
    name: Seq<char>,
    k: int,
) -> Option<int>
    decreases rows.len() - k,
{
    if k < 0 || k >= rows.len() {
        None
    } else if rows[k].0 == name {
        Some(k)
    } else {
        find_row_from(rows, name, k + 1)
    }
}

pub proof fn lemma_mul_bound(a: int, b: int, aa: int, bb: int)
    requires
        -aa <= a <= aa,
        -bb <= b <= bb,
        0 <= aa,
        0 <= bb,
    ensures
        -(aa * bb) <= a * b <= aa * bb,
{
    assert(-(aa * bb) <= a * b <= aa * bb) by (nonlinear_arith)
        requires
            -aa <= a <= aa,
            -bb <= b <= bb,
            0 <= aa,
            0 <= bb,
    ;
}

pub proof fn lemma_find_row_from_props(rows: Seq<(Seq<char>, Seq<int>)>, name: Seq<char>, k: int)
    requires
        0 <= k,
    ensures
        match find_row_from(rows, name, k) {
            Some(i) => k <= i < rows.len() && rows[i].0 == name,
            None => true,
        },
    decreases rows.len() - k,
{
    if k < rows.len() && rows[k].0 != name {
        lemma_find_row_from_props(rows, name, k + 1);
    }
}

/// The weights of the first row named `name`, if the model knows the feature.
pub open spec fn find_row(rows: Seq<(Seq<char>, Seq<int>)>, name: Seq<char>) -> Option<Seq<int>> {
    match find_row_from(rows, name, 0) {
        Some(i) => Some(rows[i].1),
        None => None,
    }
}

/// The index of the first class equal to `tag`, from position `k` on.
pub open spec fn find_class_from(classes: Seq<Seq<char>>, tag: Seq<char>, k: int) -> Option<int>
    decreases classes.len() - k,
{
    if k < 0 || k >= classes.len() {
        None
    } else if classes[k] == tag {
        Some(k)
    } else {
        find_class_from(classes, tag, k + 1)
    }
}

pub proof fn lemma_find_class_from_props(classes: Seq<Seq<char>>, tag: Seq<char>, k: int)
    requires
        0 <= k,
    ensures
        match find_class_from(classes, tag, k) {
            Some(i) => k <= i < classes.len() && classes[i] == tag,
            None => true,
        },
    decreases classes.len() - k,
{
    if k < classes.len() && classes[k] != tag {
        lemma_find_class_from_props(classes, tag, k + 1);
    }
}

/// The sequences of feature names and counts carried by an executable
/// feature vector.
pub open spec fn feats_view(fs: Seq<(String, i64)>) -> Seq<(Seq<char>, int)> {
    fs.map_values(|p: (String, i64)| (p.0@, p.1 as int))
}

pub open spec fn int_view(s: Seq<i64>) -> Seq<int> {
    s.map_values(|x: i64| x as int)
}

pub open spec fn zero_scores(n: nat) -> Seq<int> {
    Seq::new(n, |i: int| 0)
}

/// Accumulates one feature into the per-class scores: an unknown feature
/// contributes nothing, a known one adds `weight * count` per class.
pub open spec fn add_feature_scores(m: ModelV, sc: Seq<int>, feat: (Seq<char>, int)) -> Seq<int> {
    match find_row(m.rows, feat.0) {
        Some(ws) => Seq::new(sc.len(), |c: int| sc[c] + ws[c] * feat.1),
        None => sc,
    }
}

/// The per-class scores after the first `k` features.
pub open spec fn scores_upto(m: ModelV, fs: Seq<(Seq<char>, int)>, k: int) -> Seq<int>
    decreases k,
{
    if k <= 0 {
        zero_scores(m.classes.len())
    } else {
        add_feature_scores(m, scores_upto(m, fs, k - 1), fs[k - 1])
    }
}

/// The per-class scores of a feature vector.
pub open spec fn scores_spec(m: ModelV, fs: Seq<(Seq<char>, int)>) -> Seq<int> {
    scores_upto(m, fs, fs.len() as int)
}

pub proof fn lemma_scores_upto_len(m: ModelV, fs: Seq<(Seq<char>, int)>, k: int)
    ensures
        scores_upto(m, fs, k).len() == m.classes.len(),
    decreases k,
{
    if k > 0 {
        lemma_scores_upto_len(m, fs, k - 1);
    }
}

/// The first index holding the maximum among the first `k` scores.
pub open spec fn best_upto(sc: Seq<int>, k: int) -> int
    decreases k,
{
    if k <= 1 {
        0
    } else {
        let b = best_upto(sc, k - 1);
        if sc[k - 1] > sc[b] {
            k - 1
        } else {
            b
        }
    }
}

/// The first index holding the maximum score: the winning class position.
pub open spec fn best_index(sc: Seq<int>) -> int {
    best_upto(sc, sc.len() as int)
}

pub proof fn lemma_best_upto_props(sc: Seq<int>, k: int)
    requires
        1 <= k <= sc.len(),
    ensures
        0 <= best_upto(sc, k) < k,
        forall|i: int| 0 <= i < k ==> #[trigger] sc[i] <= sc[best_upto(sc, k)],
        forall|i: int| 0 <= i < best_upto(sc, k) ==> #[trigger] sc[i] < sc[best_upto(sc, k)],
    decreases k,
{
    if k > 1 {
        lemma_best_upto_props(sc, k - 1);
    }
}

/// The sum, over the first `k` classes, of the fixed-point exponential of
/// each score's distance below the maximum.
pub open spec fn sum_exp_upto(sc: Seq<int>, smax: int, k: int) -> int
    decreases k,
{
    if k <= 0 {
        0
    } else {
        sum_exp_upto(sc, smax, k - 1) + exp_neg_spec(smax - sc[k - 1])
    }
}

/// The softmax-style confidence of a score vector: the normalized share of
/// the maximal score, in fixed point.
pub open spec fn conf_spec(sc: Seq<int>) -> int {
    let smax = sc[best_index(sc)];
    (SCALE as int * SCALE as int) / sum_exp_upto(sc, smax, sc.len() as int)
}

/// The winning class label and the confidence for a feature vector.
pub open spec fn predict_spec(m: ModelV, fs: Seq<(Seq<char>, int)>) -> (Seq<char>, int) {
    let sc = scores_spec(m, fs);
    (m.classes[best_index(sc)], conf_spec(sc))
}

pub proof fn lemma_sum_exp_bounds(sc: Seq<int>, smax: int, k: int)
    requires
        0 <= k <= sc.len(),
        forall|i: int| 0 <= i < sc.len() ==> sc[i] <= smax,
    ensures
        0 <= sum_exp_upto(sc, smax, k) <= k * (SCALE as int),
        (exists|i: int| 0 <= i < k && sc[i] == smax) ==> sum_exp_upto(sc, smax, k)
            >= SCALE as int,
    decreases k,
{
    if k > 0 {
        lemma_sum_exp_bounds(sc, smax, k - 1);
        lemma_exp_neg_bounds(smax - sc[k - 1]);
    }
}

/// The confidence always lies in the open-closed fixed-point interval
/// `(0, SCALE]`.
pub proof fn lemma_conf_bounds(sc: Seq<int>)
    requires
        0 < sc.len() <= MAX_CLASSES as int,
    ensures
        0 < conf_spec(sc) <= SCALE as int,
{
    let s = SCALE as int;
    let b = best_index(sc);
    lemma_best_upto_props(sc, sc.len() as int);
    let smax = sc[b];
    let total = sum_exp_upto(sc, smax, sc.len() as int);
    lemma_sum_exp_bounds(sc, smax, sc.len() as int);
    assert(total >= s);
    assert(total <= sc.len() * s <= (MAX_CLASSES as int) * s);
    lemma_div_is_ordered_by_denominator(s * s, s, total);
    lemma_div_multiples_vanish(s, s);
    lemma_div_is_ordered_by_denominator(s * s, total, (MAX_CLASSES as int) * s);
    lemma_div_multiples_vanish(10, (MAX_CLASSES as int) * s);
    assert((MAX_CLASSES as int) * s * 10 == s * s);
}

impl Model {
    /// A vector of `n` zero scores.
    fn zeros(n: usize) -> (r: Vec<i64>)
        ensures
            r@.len() == n,
            forall|c: int| 0 <= c < n ==> r@[c] == 0i64,
    {
        let mut r: Vec<i64> = Vec::new();
        let mut j: usize = 0;
        while j < n
            invariant
                j <= n,
                r@.len() == j,
                forall|c: int| 0 <= c < j ==> r@[c] == 0i64,
            decreases n - j,
        {
            r.push(0);
            j = j + 1;
        }
        r
    }

    /// The first row whose name equals `name`, as an index.
    fn find_row_idx(&self, name: &String) -> (r: Option<usize>)
        ensures
            match r {
                Some(i) => find_row_from(self@.rows, name@, 0) == Some(i as int),
                None => find_row_from(self@.rows, name@, 0) is None,
            },
    {
        let mut i: usize = 0;
        while i < self.rows.len()
            invariant
                i <= self.rows@.len(),
                self@.rows.len() == self.rows@.len(),
                find_row_from(self@.rows, name@, 0) == find_row_from(self@.rows, name@, i as int),
            decreases self.rows@.len() - i,
        {
            if str_eq(self.rows[i].name.as_str(), name.as_str()) {
                return Some(i);
            }
            i = i + 1;
        }
        None
    }

    /// The per-class scores of a feature vector.
    fn score_features(&self, features: &Vec<(String, i64)>) -> (sc: Vec<i64>)
        requires
            self.wf(),
            features@.len() <= MAX_FEATURES as int,
            forall|k: int|
                0 <= k < features@.len() ==> -(MAX_COUNT as int) <= (
                #[trigger] features@[k]).1 as int <= MAX_COUNT as int,
        ensures
            int_view(sc@) == scores_spec(self@, feats_view(features@)),
            sc@.len() == self@.classes.len(),
            forall|c: int| 0 <= c < sc@.len() ==> -MAX_SCORE <= #[trigger] sc@[c] <= MAX_SCORE,
    {
        let ghost m = self@;
        let ghost fv = feats_view(features@);
        let n = self.classes.len();
        let mut sc: Vec<i64> = Self::zeros(n);
        let mut k: usize = 0;
        proof {
            assert(int_view(sc@) =~= scores_upto(m, fv, 0));
        }
        while k < features.len()
            invariant
                k <= features@.len() <= MAX_FEATURES as int,
                self.wf(),
                m == self@,
                fv == feats_view(features@),
                n == self@.classes.len(),
                sc@.len() == n,
                forall|j: int|
                    0 <= j < features@.len() ==> -(MAX_COUNT as int) <= (
                    #[trigger] features@[j]).1 as int <= MAX_COUNT as int,
                int_view(sc@) == scores_upto(m, fv, k as int),
                forall|c: int|
                    0 <= c < sc@.len() ==> -(k as int * (SCORE_STEP as int)) <= #[trigger] sc@[c] as int <= k
                        as int * (SCORE_STEP as int),
            decreases features@.len() - k,
        {
            let cnt = features[k].1;
            let row = self.find_row_idx(&features[k].0);
            let ghost old_sc = int_view(sc@);
            match row {
                Some(ri) => {
                    proof {
                        assert(fv[k as int] == (features@[k as int].0@, features@[k as int].1
                            as int));
                        lemma_find_row_from_props(m.rows, features@[k as int].0@, 0);
                        assert(m.rows.len() == self.rows@.len());
                        assert(m.rows[ri as int].1.len() == n);
                    }
                    let ghost ws = m.rows[ri as int].1;
                    proof {
                        assert forall|c2: int| 0 <= c2 < n implies -(SCORE_STEP as int) <= #[trigger] (ws[c2] * (
                        cnt as int)) <= (SCORE_STEP as int) by {
                            assert(-(MAX_WEIGHT as int) <= m.rows[ri as int].1[c2] <= MAX_WEIGHT
                                as int);
                            lemma_mul_bound(ws[c2], cnt as int, MAX_WEIGHT as int, MAX_COUNT
                                as int);
                        }
                    }
                    let mut c: usize = 0;
                    while c < n
                        invariant
                            c <= n,
                            self.wf(),
                            m == self@,
                            n == self@.classes.len(),
                            0 <= ri < self.rows@.len(),
                            ws == m.rows[ri as int].1,
                            ws.len() == n,
                            self.rows@.len() == m.rows.len(),
                            self.rows@[ri as int].weights@.len() == n,
                            sc@.len() == n,
                            old_sc.len() == n,
                                        -(MAX_COUNT as int) <= cnt as int <= MAX_COUNT as int,
                            k < MAX_FEATURES as int,
                            forall|c2: int|
                                0 <= c2 < n ==> -(SCORE_STEP as int) <= #[trigger] (ws[c2] * (cnt as int))
                                    <= (SCORE_STEP as int),
                            forall|j: int|
                                0 <= j < n ==> -(k as int * (SCORE_STEP as int)) <= #[trigger] old_sc[j] <= k
                                    as int * (SCORE_STEP as int),
                            forall|j: int|
                                c <= j < n ==> #[trigger] sc@[j] as int == old_sc[j],
                            forall|j: int|
                                0 <= j < c ==> #[trigger] sc@[j] as int == old_sc[j] + ws[j] * (cnt
                                    as int),
                        decreases n - c,
                    {
                        proof {
                            assert(self.rows@[ri as int].weights@[c as int] as int == ws[c as int]);
                            assert(sc@[c as int] as int == old_sc[c as int]);
                            assert(k as int * (SCORE_STEP as int) + (SCORE_STEP as int) <= MAX_SCORE as int);
                        }
                        let w = self.rows[ri].weights[c];
                        let add = w * cnt;
                        let v = sc[c] + add;
                        sc[c] = v;
                        c = c + 1;
                    }
                    proof {
                        assert(find_row_from(m.rows, fv[k as int].0, 0) == Some(ri as int));
                        assert(int_view(sc@) =~= add_feature_scores(m, old_sc, fv[k as int]));
                        assert forall|c2: int| 0 <= c2 < n implies -((k + 1) as int * (SCORE_STEP as int)) <= (
                        #[trigger] sc@[c2]) as int <= (k + 1) as int * (SCORE_STEP as int) by {
                            assert(sc@[c2] as int == old_sc[c2] + ws[c2] * (cnt as int));
                        }
                    }
                },
                None => {
                    proof {
                        assert(fv[k as int].0 == features@[k as int].0@);
                        assert(int_view(sc@) =~= add_feature_scores(m, old_sc, fv[k as int]));
                    }
                },
            }
            k = k + 1;
        }
        proof {
            assert(k as int * (SCORE_STEP as int) <= MAX_SCORE as int);
            assert(forall|c: int|
                0 <= c < sc@.len() ==> -MAX_SCORE <= #[trigger] sc@[c] <= MAX_SCORE);
        }
        sc
    }

    /// The position of the winning class: the first maximal score.
    fn best_of(sc: &Vec<i64>) -> (b: usize)
        requires
            1 <= sc@.len(),
        ensures
            b as int == best_index(int_view(sc@)),
            b < sc@.len(),
    {
        let ghost sv = int_view(sc@);
        let mut b: usize = 0;
        let mut c: usize = 1;
        while c < sc.len()
            invariant
                1 <= c <= sc@.len(),
                sv == int_view(sc@),
                b as int == best_upto(sv, c as int),
                b < c,
            decreases sc@.len() - c,
        {
            if sc[c] > sc[b] {
                b = c;
            }
            c = c + 1;
        }
        b
    }

    /// The confidence of a score vector whose winning index is `b`.
    fn confidence(sc: &Vec<i64>, b: usize) -> (conf: u64)
        requires
            0 < sc@.len() <= MAX_CLASSES as int,
            b as int == best_index(int_view(sc@)),
            b < sc@.len(),
            forall|c: int| 0 <= c < sc@.len() ==> -MAX_SCORE <= #[trigger] sc@[c] <= MAX_SCORE,
        ensures
            conf as int == conf_spec(int_view(sc@)),
            0 < conf <= SCALE,
    {
        let ghost sv = int_view(sc@);
        proof {
            lemma_best_upto_props(sv, sv.len() as int);
        }
        let smax = sc[b];
        let n = sc.len();
        let mut sum: u64 = 0;
        let mut c: usize = 0;
        while c < n
            invariant
                c <= n,
                n == sc@.len() <= MAX_CLASSES as int,
                sv == int_view(sc@),
                b < n,
                smax == sc@[b as int],
                smax as int == sv[b as int],
                forall|i: int| 0 <= i < n ==> sv[i] <= smax as int,
                forall|i: int| 0 <= i < sc@.len() ==> -MAX_SCORE <= #[trigger] sc@[i] <= MAX_SCORE,
                sum as int == sum_exp_upto(sv, smax as int, c as int),
                sum <= c as int * (SCALE as int),
                c > b ==> sum >= SCALE,
            decreases n - c,
        {
            proof {
                lemma_exp_neg_bounds(smax as int - sv[c as int]);
            }
            let d = smax - sc[c];
            let e = exp_neg(d as u64);
            sum = sum + e;
            c = c + 1;
        }
        proof {
            let s = SCALE as int;
            assert(sum as int <= (MAX_CLASSES as int) * s);
            lemma_div_is_ordered_by_denominator(s * s, s, sum as int);
            lemma_div_multiples_vanish(s, s);
            lemma_div_is_ordered_by_denominator(s * s, sum as int, (MAX_CLASSES as int) * s);
            lemma_div_multiples_vanish(10, (MAX_CLASSES as int) * s);
            assert((MAX_CLASSES as int) * s * 10 == s * s);
        }
        SCALE * SCALE / sum
    }

    /// Scores every feature, picks the first maximal class, and reports the
    /// winning label with its confidence.
    pub fn predict(&self, features: &Vec<(String, i64)>) -> (r: (String, u64))
        requires
            self.wf(),
            features@.len() <= MAX_FEATURES as int,
            forall|k: int|
                0 <= k < features@.len() ==> -(MAX_COUNT as int) <= (
                #[trigger] features@[k]).1 as int <= MAX_COUNT as int,
        ensures
            r.0@ == predict_spec(self@, feats_view(features@)).0,
            r.1 as int == predict_spec(self@, feats_view(features@)).1,
            0 < r.1 <= SCALE,
            exists|c: int| 0 <= c < self@.classes.len() && r.0@ == self@.classes[c],
    {
        let sc = self.score_features(features);
        let b = Self::best_of(&sc);
        proof {
            lemma_best_upto_props(int_view(sc@), sc@.len() as int);
        }
        let conf = Self::confidence(&sc, b);
        let label = self.classes[b].clone();
        proof {
            assert(label@ == self@.classes[b as int]);
        }
        (label, conf)
    }
}

/// The mathematical image of the weight input: per feature, its name and its
/// (tag, weight) entries.
pub open spec fn in_rows_view(rs: Seq<(String, Vec<(String, i64)>)>) -> Seq<
    (Seq<char>, Seq<(Seq<char>, int)>),
> {
    rs.map_values(|r: (String, Vec<(String, i64)>)| (r.0@, feats_view(r.1@)))
}

/// The first problem within one feature's entries, from position `j` on:
/// an unknown tag, then an out-of-range weight, in entry order.
pub open spec fn entries_error(
    classes: Seq<Seq<char>>,
    es: Seq<(Seq<char>, int)>,
    j: int,
) -> Option<ModelError>
    decreases es.len() - j,
{
    if j < 0 || j >= es.len() {
        None
    } else if find_class_from(classes, es[j].0, 0) is None {
        Some(ModelError::UnknownTag)
    } else if es[j].1 < -(MAX_WEIGHT as int) || es[j].1 > MAX_WEIGHT as int {
        Some(ModelError::WeightOutOfRange)
    } else {
        entries_error(classes, es, j + 1)
    }
}

/// The first problem among the weight rows, from row `i` on, in row order.
pub open spec fn rows_error(
    classes: Seq<Seq<char>>,
    rs: Seq<(Seq<char>, Seq<(Seq<char>, int)>)>,
    i: int,
) -> Option<ModelError>
    decreases rs.len() - i,
{
    if i < 0 || i >= rs.len() {
        None
    } else {
        match entries_error(classes, rs[i].1, 0) {
            Some(e) => Some(e),
            None => rows_error(classes, rs, i + 1),
        }
    }
}

/// The first problem of the whole input, in check order: class list shape
/// first, then the rows in order.
pub open spec fn validate(
    classes: Seq<Seq<char>>,
    rs: Seq<(Seq<char>, Seq<(Seq<char>, int)>)>,
) -> Option<ModelError> {
    if classes.len() == 0 {
        Some(ModelError::EmptyClasses)
    } else if classes.len() > MAX_CLASSES as int {
        Some(ModelError::TooManyClasses)
    } else {
        rows_error(classes, rs, 0)
    }
}

/// The class-indexed weight row built from the first `j` entries of one
/// feature: absent classes stay at zero, a repeated tag keeps its last entry.
pub open spec fn built_row_upto(
    classes: Seq<Seq<char>>,
    es: Seq<(Seq<char>, int)>,
    j: int,
) -> Seq<int>
    decreases j,
{
    if j <= 0 {
        zero_scores(classes.len())
    } else {
        let prev = built_row_upto(classes, es, j - 1);
        match find_class_from(classes, es[j - 1].0, 0) {
            Some(c) => prev.update(c, es[j - 1].1),
            None => prev,
        }
    }
}

/// All class-indexed weight rows built from the input.
pub open spec fn built_rows(
    classes: Seq<Seq<char>>,
    rs: Seq<(Seq<char>, Seq<(Seq<char>, int)>)>,
) -> Seq<(Seq<char>, Seq<int>)> {
    rs.map_values(
        |r: (Seq<char>, Seq<(Seq<char>, int)>)| (r.0, built_row_upto(classes, r.1, r.1.len()
            as int)),
    )
}

impl Model {
    /// The index of the first class equal to `tag`.
    fn find_class_idx(classes: &Vec<String>, tag: &String) -> (r: Option<usize>)
        ensures
            match r {
                Some(i) => find_class_from(classes.deep_view(), tag@, 0) == Some(i as int) && i
                    < classes@.len(),
                None => find_class_from(classes.deep_view(), tag@, 0) is None,
            },
    {
        let ghost cv = classes.deep_view();
        let mut k: usize = 0;
        while k < classes.len()
            invariant
                k <= classes@.len(),
                cv == classes.deep_view(),
                cv.len() == classes@.len(),
                find_class_from(cv, tag@, 0) == find_class_from(cv, tag@, k as int),
            decreases classes@.len() - k,
        {
            proof {
                assert(cv[k as int] == classes@[k as int]@);
            }
            if str_eq(classes[k].as_str(), tag.as_str()) {
                return Some(k);
            }
            k = k + 1;
        }
        None
    }

    /// Builds the model from a class list and a per-feature map from tag to
    /// fixed-point weight.  Validation runs in input order: an empty or
    /// oversized class list is refused first, then each row's entries are
    /// checked for unknown tags and oversized weights.
    pub fn new(classes: Vec<String>, feature_weights: Vec<(String, Vec<(String, i64)>)>) -> (r:
        Result<Model, ModelError>)
        ensures
            match r {
                Ok(m) => {
                    &&& validate(classes.deep_view(), in_rows_view(feature_weights@)) is None
                    &&& m@.classes == classes.deep_view()
                    &&& m@.rows == built_rows(classes.deep_view(), in_rows_view(feature_weights@))
                    &&& m.wf()
                },
                Err(e) => validate(classes.deep_view(), in_rows_view(feature_weights@)) == Some(e),
            },
    {
        let ghost cv = classes.deep_view();
        let ghost rv = in_rows_view(feature_weights@);
        if classes.len() == 0 {
            return Err(ModelError::EmptyClasses);
        }
        if classes.len() > MAX_CLASSES {
            return Err(ModelError::TooManyClasses);
        }
        let n = classes.len();
        let mut rows: Vec<FeatureRow> = Vec::new();
        let mut i: usize = 0;
        while i < feature_weights.len()
            invariant
                i <= feature_weights@.len(),
                cv == classes.deep_view(),
                rv == in_rows_view(feature_weights@),
                rv.len() == feature_weights@.len(),
                n == classes@.len(),
                n == cv.len(),
                0 < n <= MAX_CLASSES,
                rows@.len() == i,
                rows_error(cv, rv, 0) == rows_error(cv, rv, i as int),
                forall|t: int|
                    0 <= t < i ==> (#[trigger] rows@[t]).name@ == rv[t].0 && rows@[t].weights@.len()
                        == n,
                forall|t: int|
                    0 <= t < i ==> int_view((#[trigger] rows@[t]).weights@) == built_row_upto(
                        cv,
                        rv[t].1,
                        rv[t].1.len() as int,
                    ),
                forall|t: int, c: int|
                    0 <= t < i && 0 <= c < n ==> -MAX_WEIGHT <= (
                    #[trigger] rows@[t].weights@[c]) <= MAX_WEIGHT,
            decreases feature_weights@.len() - i,
        {
            let ghost es = rv[i as int].1;
            proof {
                assert(rv[i as int] == (feature_weights@[i as int].0@, feats_view(
                    feature_weights@[i as int].1@,
                )));
            }
            let mut w: Vec<i64> = Self::zeros(n);
            let mut j: usize = 0;
            proof {
                assert(int_view(w@) =~= built_row_upto(cv, es, 0));
            }
            while j < feature_weights[i].1.len()
                invariant
                    i < feature_weights@.len(),
                    j <= feature_weights@[i as int].1@.len(),
                    cv == classes.deep_view(),
                    rv == in_rows_view(feature_weights@),
                    rv.len() == feature_weights@.len(),
                    es == rv[i as int].1,
                    es == feats_view(feature_weights@[i as int].1@),
                    es.len() == feature_weights@[i as int].1@.len(),
                    rows_error(cv, rv, 0) == rows_error(cv, rv, i as int),
                    n == classes@.len(),
                    n == cv.len(),
                    0 < n <= MAX_CLASSES,
                    w@.len() == n,
                    entries_error(cv, es, 0) == entries_error(cv, es, j as int),
                    int_view(w@) == built_row_upto(cv, es, j as int),
                    forall|c: int| 0 <= c < n ==> -MAX_WEIGHT <= #[trigger] w@[c] <= MAX_WEIGHT,
                decreases feature_weights@[i as int].1@.len() - j,
            {
                proof {
                    assert(es[j as int] == (feature_weights@[i as int].1@[j as int].0@,
                    feature_weights@[i as int].1@[j as int].1 as int));
                }
                let wt: i64 = feature_weights[i].1[j].1;
                match Self::find_class_idx(&classes, &feature_weights[i].1[j].0) {
                    None => {
                        proof {
                            assert(entries_error(cv, es, j as int) == Some(ModelError::UnknownTag));
                            assert(entries_error(cv, es, 0) == Some(ModelError::UnknownTag));
                            assert(rows_error(cv, rv, i as int) == Some(ModelError::UnknownTag));
                            assert(rows_error(cv, rv, 0) == Some(ModelError::UnknownTag));
                            assert(validate(cv, rv) == Some(ModelError::UnknownTag));
                        }
                        return Err(ModelError::UnknownTag);
                    },
                    Some(ci) => {
                        if wt < -MAX_WEIGHT || wt > MAX_WEIGHT {
                            proof {
                                assert(entries_error(cv, es, j as int) == Some(
                                    ModelError::WeightOutOfRange,
                                ));
                                assert(rows_error(cv, rv, i as int) == Some(
                                    ModelError::WeightOutOfRange,
                                ));
                                assert(rows_error(cv, rv, 0) == Some(ModelError::WeightOutOfRange));
                                assert(validate(cv, rv) == Some(ModelError::WeightOutOfRange));
                            }
                            return Err(ModelError::WeightOutOfRange);
                        }
                        proof {
                            lemma_find_class_from_props(cv, es[j as int].0, 0);
                        }
                        w[ci] = wt;
                        proof {
                            assert(int_view(w@) =~= built_row_upto(cv, es, j + 1));
                        }
                    },
                }
                j = j + 1;
            }
            let name = feature_weights[i].0.clone();
            rows.push(FeatureRow { name, weights: w });
            proof {
                assert(entries_error(cv, es, es.len() as int) is None);
                assert(rows_error(cv, rv, i as int) == rows_error(cv, rv, i + 1));
            }
            i = i + 1;
        }
        let m = Model { classes, rows };
        proof {
            assert(rows_error(cv, rv, rv.len() as int) is None);
            assert(m@.classes == cv);
            assert forall|t: int| 0 <= t < rv.len() implies #[trigger] m@.rows[t] == built_rows(
                cv,
                rv,
            )[t] by {
                assert(m@.rows[t] == (rows@[t].name@, int_view(rows@[t].weights@)));
            }
            assert(m@.rows =~= built_rows(cv, rv));
            assert(wf_model(m@));
        }
        Ok(m)
    }
}

} // verus!
