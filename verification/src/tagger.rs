//! The tagger: token normalization, feature extraction, the exception
//! table, and the greedy left-to-right decoding loop.

use vstd::prelude::*;
use crate::SCALE;
use crate::model::{
    built_rows, feats_view, in_rows_view, lemma_conf_bounds, lemma_scores_upto_len, predict_spec,
    scores_spec, validate, wf_model, Model, ModelError, ModelV, MAX_FEATURES,
};
use crate::strutil::{
    is_digit, lemma_lower_char_props, lower_char, lower_seq, lowercase, str_eq, suffix3, suffix3_of, tokenize, tokens_of,
};

verus! {

/// Whether `w` contains a hyphen anywhere.
pub open spec fn has_hyphen(w: Seq<char>) -> bool {
    exists|k: int| 0 <= k < w.len() && w[k] == '-'
}

/// Whether `w` consists of ASCII decimal digits only.
pub open spec fn all_digits(w: Seq<char>) -> bool {
    forall|k: int| 0 <= k < w.len() ==> is_digit(#[trigger] w[k])
}

/// The canonical form of a token, tried in priority order: an internal
/// hyphen, a four-digit number, a leading digit, and otherwise ASCII
/// lower-casing.
pub open spec fn normalize_spec(w: Seq<char>) -> Seq<char> {
    if w.len() > 0 && w[0] != '-' && has_hyphen(w) {
        "!HYPHEN"@
    } else if w.len() == 4 && all_digits(w) {
        "!YEAR"@
    } else if w.len() > 0 && is_digit(w[0]) {
        "!DIGITS"@
    } else {
        lower_seq(w)
    }
}

fn has_hyphen_exec(w: &str) -> (r: bool)
    ensures
        r == has_hyphen(w@),
{
    let n = w.unicode_len();
    let mut k: usize = 0;
    while k < n
        invariant
            k <= n,
            n == w@.len(),
            forall|j: int| 0 <= j < k ==> w@[j] != '-',
        decreases n - k,
    {
        if w.get_char(k) == '-' {
            return true;
        }
        k = k + 1;
    }
    false
}

fn all_digits_exec(w: &str) -> (r: bool)
    ensures
        r == all_digits(w@),
{
    let n = w.unicode_len();
    let mut k: usize = 0;
    while k < n
        invariant
            k <= n,
            n == w@.len(),
            forall|j: int| 0 <= j < k ==> is_digit(#[trigger] w@[j]),
        decreases n - k,
    {
        let c = w.get_char(k);
        let cu = c as u32;
        if cu < 48 || cu > 57 {
            return false;
        }
        k = k + 1;
    }
    true
}

/// Canonicalizes one token, as `normalize_spec` says.
pub fn normalize(w: &str) -> (r: String)
    ensures
        r@ == normalize_spec(w@),
{
    let n = w.unicode_len();
    if n > 0 && w.get_char(0) != '-' && has_hyphen_exec(w) {
        String::from_str("!HYPHEN")
    } else if n == 4 && all_digits_exec(w) {
        String::from_str("!YEAR")
    } else if n > 0 {
        let c = w.get_char(0);
        let cu = c as u32;
        if 48 <= cu && cu <= 57 {
            String::from_str("!DIGITS")
        } else {
            lowercase(w)
        }
    } else {
        lowercase(w)
    }
}

/// Whether the feature set already holds a feature of this name.
pub open spec fn has_feat(fs: Seq<(Seq<char>, int)>, name: Seq<char>) -> bool {
    exists|k: int| 0 <= k < fs.len() && (#[trigger] fs[k]).0 == name
}

/// Adds a feature with count one; a name already present is left alone, so
/// counts never accumulate.
pub open spec fn add_feat(fs: Seq<(Seq<char>, int)>, name: Seq<char>) -> Seq<(Seq<char>, int)> {
    if has_feat(fs, name) {
        fs
    } else {
        fs.push((name, 1))
    }
}

/// The feature set of the token at context position `p` (its token index
/// plus two), given the two preceding predicted tags.
pub open spec fn features_spec(
    word: Seq<char>,
    ctx: Seq<Seq<char>>,
    p: int,
    prev: Seq<char>,
    prev2: Seq<char>,
) -> Seq<(Seq<char>, int)> {
    let f1 = add_feat(Seq::empty(), "bias"@);
    let f2 = add_feat(f1, "i suffix "@ + suffix3(word));
    let f3 = if word.len() >= 2 {
        add_feat(f2, "i char2 "@ + word.subrange(1, 2))
    } else {
        f2
    };
    let f4 = add_feat(f3, "i-1 tag "@ + prev);
    let f5 = add_feat(f4, "i-2 tag "@ + prev2);
    let f6 = add_feat(f5, "i-1 tag i-2 tag "@ + prev + " "@ + prev2);
    let f7 = add_feat(f6, "i word "@ + ctx[p]);
    let f8 = add_feat(f7, "i-1 word "@ + ctx[p - 1]);
    let f9 = add_feat(f8, "i-2 word "@ + ctx[p - 2]);
    let f10 = add_feat(f9, "i+1 word "@ + ctx[p + 1]);
    let f11 = add_feat(f10, "i+2 word "@ + ctx[p + 2]);
    let f12 = add_feat(f11, "i-1 tag i word "@ + prev + " "@ + ctx[p]);
    let f13 = add_feat(f12, "i-1 suffix "@ + suffix3(ctx[p - 1]));
    add_feat(f13, "i+1 suffix "@ + suffix3(ctx[p + 1]))
}

/// Adds one feature with count one unless its name is already present.
fn add_feature(fs: &mut Vec<(String, i64)>, name: String)
    ensures
        feats_view(final(fs)@) == add_feat(feats_view(old(fs)@), name@),
        final(fs)@ == old(fs)@ || final(fs)@ == old(fs)@.push((name, 1i64)),
{
    let n = fs.len();
    let mut k: usize = 0;
    while k < n
        invariant
            k <= n,
            n == fs@.len(),
            forall|j: int| 0 <= j < k ==> (#[trigger] fs@[j]).0@ != name@,
        decreases n - k,
    {
        if str_eq(fs[k].0.as_str(), name.as_str()) {
            proof {
                assert(feats_view(fs@)[k as int].0 == name@);
                assert(has_feat(feats_view(fs@), name@));
            }
            return;
        }
        k = k + 1;
    }
    proof {
        assert(forall|j: int|
            0 <= j < feats_view(fs@).len() ==> (#[trigger] feats_view(fs@)[j]).0 != name@);
    }
    let ghost pre = fs@;
    fs.push((name, 1));
    proof {
        assert(feats_view(fs@) =~= feats_view(pre).push((name@, 1)));
    }
}

/// Builds the feature set of the token with index `i`, whose context
/// position is `i + 2`.
#[verifier::rlimit(100)]
pub fn get_features(
    word: &String,
    ctx: &Vec<String>,
    i: usize,
    prev: &String,
    prev2: &String,
) -> (fs: Vec<(String, i64)>)
    requires
        i + 4 < ctx@.len(),
    ensures
        feats_view(fs@) == features_spec(word@, ctx.deep_view(), i + 2, prev@, prev2@),
        fs@.len() <= MAX_FEATURES as int,
        forall|k: int| 0 <= k < fs@.len() ==> (#[trigger] fs@[k]).1 == 1i64,
{
    let ghost cv = ctx.deep_view();
    let n = ctx.len();
    proof {
        assert(i + 4 < n);
        assert(forall|j: int| 0 <= j < ctx@.len() ==> cv[j] == (#[trigger] ctx@[j])@);
    }
    let ghost p = i + 2 as int;
    let ghost g1 = add_feat(Seq::empty(), "bias"@);
    let ghost g2 = add_feat(g1, "i suffix "@ + suffix3(word@));
    let ghost g3 = if word@.len() >= 2 {
        add_feat(g2, "i char2 "@ + word@.subrange(1, 2))
    } else {
        g2
    };
    let ghost g4 = add_feat(g3, "i-1 tag "@ + prev@);
    let ghost g5 = add_feat(g4, "i-2 tag "@ + prev2@);
    let ghost g6 = add_feat(g5, "i-1 tag i-2 tag "@ + prev@ + " "@ + prev2@);
    let ghost g7 = add_feat(g6, "i word "@ + cv[p]);
    let ghost g8 = add_feat(g7, "i-1 word "@ + cv[p - 1]);
    let ghost g9 = add_feat(g8, "i-2 word "@ + cv[p - 2]);
    let ghost g10 = add_feat(g9, "i+1 word "@ + cv[p + 1]);
    let ghost g11 = add_feat(g10, "i+2 word "@ + cv[p + 2]);
    let ghost g12 = add_feat(g11, "i-1 tag i word "@ + prev@ + " "@ + cv[p]);
    let ghost g13 = add_feat(g12, "i-1 suffix "@ + suffix3(cv[p - 1]));
    let ghost g14 = add_feat(g13, "i+1 suffix "@ + suffix3(cv[p + 1]));
    let mut fs: Vec<(String, i64)> = Vec::new();
    add_feature(&mut fs, String::from_str("bias"));
    proof {
        assert(feats_view(fs@) == g1);
    }
    let suf = suffix3_of(word.as_str());
    add_feature(&mut fs, String::from_str("i suffix ").concat(suf.as_str()));
    proof {
        assert(feats_view(fs@) == g2);
    }
    if word.as_str().unicode_len() >= 2 {
        let c2 = word.as_str().substring_char(1, 2);
        add_feature(&mut fs, String::from_str("i char2 ").concat(c2));
    }
    proof {
        assert(feats_view(fs@) == g3);
    }
    add_feature(&mut fs, String::from_str("i-1 tag ").concat(prev.as_str()));
    proof {
        assert(feats_view(fs@) == g4);
    }
    add_feature(&mut fs, String::from_str("i-2 tag ").concat(prev2.as_str()));
    proof {
        assert(feats_view(fs@) == g5);
    }
    add_feature(
        &mut fs,
        String::from_str("i-1 tag i-2 tag ").concat(prev.as_str()).concat(" ").concat(
            prev2.as_str(),
        ),
    );
    proof {
        assert(feats_view(fs@) == g6);
    }
    add_feature(&mut fs, String::from_str("i word ").concat(ctx[i + 2].as_str()));
    proof {
        assert(feats_view(fs@) == g7);
    }
    add_feature(&mut fs, String::from_str("i-1 word ").concat(ctx[i + 1].as_str()));
    proof {
        assert(feats_view(fs@) == g8);
    }
    add_feature(&mut fs, String::from_str("i-2 word ").concat(ctx[i].as_str()));
    proof {
        assert(feats_view(fs@) == g9);
    }
    add_feature(&mut fs, String::from_str("i+1 word ").concat(ctx[i + 3].as_str()));
    proof {
        assert(feats_view(fs@) == g10);
    }
    add_feature(&mut fs, String::from_str("i+2 word ").concat(ctx[i + 4].as_str()));
    proof {
        assert(feats_view(fs@) == g11);
    }
    add_feature(
        &mut fs,
        String::from_str("i-1 tag i word ").concat(prev.as_str()).concat(" ").concat(
            ctx[i + 2].as_str(),
        ),
    );
    proof {
        assert(feats_view(fs@) == g12);
    }
    let sufp = suffix3_of(ctx[i + 1].as_str());
    add_feature(&mut fs, String::from_str("i-1 suffix ").concat(sufp.as_str()));
    proof {
        assert(feats_view(fs@) == g13);
    }
    let sufn = suffix3_of(ctx[i + 3].as_str());
    add_feature(&mut fs, String::from_str("i+1 suffix ").concat(sufn.as_str()));
    proof {
        assert(feats_view(fs@) == g14);
        assert(g14 == features_spec(word@, cv, p, prev@, prev2@));
    }
    fs
}

/// The normalized context array: two start sentinels, the normalized
/// tokens, two end sentinels.  Context position `i + 2` holds token `i`.
pub open spec fn context_of(tokens: Seq<Seq<char>>) -> Seq<Seq<char>> {
    seq!["-START-"@, "-START2-"@] + tokens.map_values(|t: Seq<char>| normalize_spec(t)) + seq![
        "-END-"@,
        "-END2-"@,
    ]
}

/// Builds the normalized context array of a token list.
pub fn build_context(tokens: &Vec<String>) -> (ctx: Vec<String>)
    ensures
        ctx.deep_view() == context_of(tokens.deep_view()),
        ctx@.len() == tokens@.len() + 4,
{
    let mut ctx: Vec<String> = Vec::new();
    ctx.push(String::from_str("-START-"));
    ctx.push(String::from_str("-START2-"));
    let n = tokens.len();
    let mut i: usize = 0;
    while i < n
        invariant
            i <= n,
            n == tokens@.len(),
            ctx@.len() == i + 2,
            ctx@[0]@ == "-START-"@,
            ctx@[1]@ == "-START2-"@,
            forall|j: int|
                0 <= j < i ==> (#[trigger] ctx@[j + 2])@ == normalize_spec(tokens@[j]@),
        decreases n - i,
    {
        let w = normalize(tokens[i].as_str());
        ctx.push(w);
        i = i + 1;
    }
    ctx.push(String::from_str("-END-"));
    ctx.push(String::from_str("-END2-"));
    proof {
        let cd = ctx.deep_view();
        let co = context_of(tokens.deep_view());
        assert(cd.len() == co.len());
        assert forall|j: int| 0 <= j < cd.len() implies cd[j] == co[j] by {
            if 2 <= j < n + 2 {
                assert(ctx@[(j - 2) + 2]@ == normalize_spec(tokens@[j - 2]@));
            }
        }
        assert(cd =~= co);
    }
    ctx
}

/// One tagged token: the original word, the assigned tag, and the
/// fixed-point confidence.
pub struct TaggedToken {
    pub word: String,
    pub tag: String,
    pub conf: u64,
}

/// Mathematical image of a tagged token.
pub struct TokV {
    pub word: Seq<char>,
    pub tag: Seq<char>,
    pub conf: int,
}

impl View for TaggedToken {
    type V = TokV;

    open spec fn view(&self) -> TokV {
        TokV { word: self.word@, tag: self.tag@, conf: self.conf as int }
    }
}

impl DeepView for TaggedToken {
    type V = TokV;

    open spec fn deep_view(&self) -> TokV {
        self@
    }
}

/// The tagger: the model plus the word-to-tag exception table.
pub struct Tagger {
    pub model: Model,
    pub exceptions: Vec<(String, String)>,
}

/// Mathematical image of a tagger.
pub struct TaggerV {
    pub model: ModelV,
    pub exceptions: Seq<(Seq<char>, Seq<char>)>,
}

/// The word and tag sequences carried by an executable exception table.
pub open spec fn exc_view(es: Seq<(String, String)>) -> Seq<(Seq<char>, Seq<char>)> {
    es.map_values(|e: (String, String)| (e.0@, e.1@))
}

impl View for Tagger {
    type V = TaggerV;

    open spec fn view(&self) -> TaggerV {
        TaggerV { model: self.model@, exceptions: exc_view(self.exceptions@) }
    }
}

/// The forced tag of the first exception entry for `w`, from position `k` on.
pub open spec fn exc_from(
    exc: Seq<(Seq<char>, Seq<char>)>,
    w: Seq<char>,
    k: int,
) -> Option<Seq<char>>
    decreases exc.len() - k,
{
    if k < 0 || k >= exc.len() {
        None
    } else if exc[k].0 == w {
        Some(exc[k].1)
    } else {
        exc_from(exc, w, k + 1)
    }
}

/// The forced tag for `w`, if the exception table holds one.
pub open spec fn exc_lookup(exc: Seq<(Seq<char>, Seq<char>)>, w: Seq<char>) -> Option<Seq<char>> {
    exc_from(exc, w, 0)
}

/// The tag and confidence assigned to the token at index `i`: the forced
/// tag with full confidence when the word is in the exception table, and
/// the model's prediction otherwise.
pub open spec fn step_spec(
    t: TaggerV,
    tokens: Seq<Seq<char>>,
    ctx: Seq<Seq<char>>,
    i: int,
    prev: Seq<char>,
    prev2: Seq<char>,
) -> (Seq<char>, int) {
    match exc_lookup(t.exceptions, tokens[i]) {
        Some(tag) => (tag, SCALE as int),
        None => predict_spec(t.model, features_spec(tokens[i], ctx, i + 2, prev, prev2)),
    }
}

/// Greedy decoding from token `i` on: each emitted tag becomes `prev` and
/// the old `prev` becomes `prev2` for the next token.
pub open spec fn decode_from(
    t: TaggerV,
    tokens: Seq<Seq<char>>,
    ctx: Seq<Seq<char>>,
    i: int,
    prev: Seq<char>,
    prev2: Seq<char>,
) -> Seq<TokV>
    decreases tokens.len() - i,
{
    if i < 0 || i >= tokens.len() {
        Seq::empty()
    } else {
        let st = step_spec(t, tokens, ctx, i, prev, prev2);
        seq![TokV { word: tokens[i], tag: st.0, conf: st.1 }] + decode_from(
            t,
            tokens,
            ctx,
            i + 1,
            st.0,
            prev,
        )
    }
}

/// The full output of tagging a sentence: whitespace tokens, the context
/// array, and greedy decoding from the two start sentinels.
pub open spec fn tag_spec(t: TaggerV, sentence: Seq<char>) -> Seq<TokV> {
    let tokens = tokens_of(sentence);
    decode_from(t, tokens, context_of(tokens), 0, "-START-"@, "-START2-"@)
}

impl Tagger {
    /// A well-formed tagger: its model is well-formed.
    pub open spec fn wf(&self) -> bool {
        wf_model(self@.model)
    }

    /// Builds a tagger from a class list, a per-feature map from tag to
    /// fixed-point weight, and a word-to-tag exception table.  The model
    /// input is validated as `validate` says; the exception table is kept
    /// verbatim, earlier entries shadowing later ones of the same word.
    pub fn new(
        classes: Vec<String>,
        feature_weights: Vec<(String, Vec<(String, i64)>)>,
        exceptions: Vec<(String, String)>,
    ) -> (r: Result<Tagger, ModelError>)
        ensures
            match r {
                Ok(t) => {
                    &&& validate(classes.deep_view(), in_rows_view(feature_weights@)) is None
                    &&& t@.model.classes == classes.deep_view()
                    &&& t@.model.rows == built_rows(
                        classes.deep_view(),
                        in_rows_view(feature_weights@),
                    )
                    &&& t@.exceptions == exc_view(exceptions@)
                    &&& t.wf()
                },
                Err(e) => validate(classes.deep_view(), in_rows_view(feature_weights@)) == Some(e),
            },
    {
        match Model::new(classes, feature_weights) {
            Ok(m) => Ok(Tagger { model: m, exceptions }),
            Err(e) => Err(e),
        }
    }

    /// The forced tag for `w`, if the exception table holds one.
    fn find_exception(&self, w: &String) -> (r: Option<String>)
        ensures
            match r {
                Some(t) => exc_lookup(self@.exceptions, w@) == Some(t@),
                None => exc_lookup(self@.exceptions, w@) is None,
            },
    {
        let ghost ev = self@.exceptions;
        let n = self.exceptions.len();
        let mut k: usize = 0;
        while k < n
            invariant
                k <= n,
                n == self.exceptions@.len(),
                ev == self@.exceptions,
                ev.len() == n,
                exc_from(ev, w@, 0) == exc_from(ev, w@, k as int),
            decreases n - k,
        {
            proof {
                assert(ev[k as int] == (self.exceptions@[k as int].0@, self.exceptions@[k
                    as int].1@));
            }
            if str_eq(self.exceptions[k].0.as_str(), w.as_str()) {
                return Some(self.exceptions[k].1.clone());
            }
            k = k + 1;
        }
        None
    }

    /// Tags a sentence: whitespace-splits it, then assigns each token a tag
    /// and a confidence, threading the two most recent tags forward.
    ///
    /// The output is exactly `tag_spec`; in particular the token count and
    /// order are kept, every word is reproduced verbatim, a word in the
    /// exception table gets its forced tag with full confidence, and every
    /// confidence lies in `(0, SCALE]`.
    pub fn tag(&self, sentence: &str) -> (out: Vec<TaggedToken>)
        requires
            self.wf(),
        ensures
            out.deep_view() == tag_spec(self@, sentence@),
            out@.len() == tokens_of(sentence@).len(),
            forall|j: int|
                0 <= j < out@.len() ==> (#[trigger] out@[j])@.word == tokens_of(sentence@)[j],
            forall|j: int|
                0 <= j < out@.len() && exc_lookup(self@.exceptions, tokens_of(sentence@)[j])
                    is Some ==> exc_lookup(self@.exceptions, tokens_of(sentence@)[j]) == Some(
                    (#[trigger] out@[j])@.tag,
                ) && out@[j]@.conf == SCALE as int,
            forall|j: int|
                0 <= j < out@.len() ==> 0 < (#[trigger] out@[j])@.conf <= SCALE as int,
    {
        let tokens = tokenize(sentence);
        let ctx = build_context(&tokens);
        let ghost tv = tokens.deep_view();
        let ghost cv = ctx.deep_view();
        let ghost full = decode_from(self@, tv, cv, 0, "-START-"@, "-START2-"@);
        let mut out: Vec<TaggedToken> = Vec::new();
        let mut prev: String = String::from_str("-START-");
        let mut prev2: String = String::from_str("-START2-");
        let mut i: usize = 0;
        while i < tokens.len()
            invariant
                i <= tokens@.len(),
                self.wf(),
                tv == tokens.deep_view(),
                cv == ctx.deep_view(),
                ctx@.len() == tokens@.len() + 4,
                tv.len() == tokens@.len(),
                full == decode_from(self@, tv, cv, 0, "-START-"@, "-START2-"@),
                out@.len() == i,
                full == out.deep_view() + decode_from(
                    self@,
                    tv,
                    cv,
                    i as int,
                    prev@,
                    prev2@,
                ),
            decreases tokens@.len() - i,
        {
            proof {
                assert(tv[i as int] == tokens@[i as int]@);
            }
            let word = &tokens[i];
            let picked: (String, u64) = match self.find_exception(word) {
                Some(t) => (t, SCALE),
                None => {
                    let fs = get_features(word, &ctx, i, &prev, &prev2);
                    self.model.predict(&fs)
                },
            };
            proof {
                assert((picked.0@, picked.1 as int) == step_spec(
                    self@,
                    tv,
                    cv,
                    i as int,
                    prev@,
                    prev2@,
                ));
            }
            let ghost st0 = picked.0@;
            let ghost st1 = picked.1 as int;
            let ghost op = prev@;
            let ghost op2 = prev2@;
            let tok = TaggedToken { word: word.clone(), tag: picked.0.clone(), conf: picked.1 };
            let ghost pre_out = out.deep_view();
            out.push(tok);
            prev2 = prev;
            prev = picked.0;
            proof {
                let tokv = TokV { word: tv[i as int], tag: st0, conf: st1 };
                assert(decode_from(self@, tv, cv, i as int, op, op2) == seq![tokv] + decode_from(
                    self@,
                    tv,
                    cv,
                    i + 1,
                    st0,
                    op,
                ));
                assert(prev@ == st0 && prev2@ == op);
                assert(out.deep_view() =~= pre_out.push(tokv));
                assert(full =~= out.deep_view() + decode_from(
                    self@,
                    tv,
                    cv,
                    i + 1,
                    prev@,
                    prev2@,
                ));
            }
            i = i + 1;
        }
        proof {
            assert(decode_from(self@, tv, cv, i as int, prev@, prev2@) =~= Seq::<TokV>::empty());
            assert(out.deep_view() =~= full);
            lemma_decode_props(self@, tv, cv, 0, "-START-"@, "-START2-"@);
            assert forall|j: int| 0 <= j < out@.len() implies ((#[trigger] out@[j])@.word
                == tokens_of(sentence@)[j] && 0 < out@[j]@.conf <= SCALE as int) by {
                assert(out.deep_view()[j] == out@[j]@);
                assert(decode_from(self@, tv, cv, 0, "-START-"@, "-START2-"@)[j] == out@[j]@);
            }
            assert forall|j: int|
                0 <= j < out@.len() && exc_lookup(self@.exceptions, tokens_of(sentence@)[j])
                    is Some implies (exc_lookup(self@.exceptions, tokens_of(sentence@)[j]) == Some(
                (#[trigger] out@[j])@.tag,
            ) && out@[j]@.conf == SCALE as int) by {
                assert(out.deep_view()[j] == out@[j]@);
                assert(decode_from(self@, tv, cv, 0, "-START-"@, "-START2-"@)[j] == out@[j]@);
                assert(tv[j] == tokens_of(sentence@)[j]);
            }
        }
        out
    }
}

/// Decoding emits exactly one entry per remaining token.
pub proof fn lemma_decode_len(
    t: TaggerV,
    tokens: Seq<Seq<char>>,
    ctx: Seq<Seq<char>>,
    i: int,
    prev: Seq<char>,
    prev2: Seq<char>,
)
    requires
        0 <= i <= tokens.len(),
    ensures
        decode_from(t, tokens, ctx, i, prev, prev2).len() == tokens.len() - i,
    decreases tokens.len() - i,
{
    if i < tokens.len() {
        let st = step_spec(t, tokens, ctx, i, prev, prev2);
        lemma_decode_len(t, tokens, ctx, i + 1, st.0, prev);
    }
}

/// Every decoded entry keeps its token's word, carries a confidence in
/// `(0, SCALE]`, and honours the exception table.
pub proof fn lemma_decode_props(
    t: TaggerV,
    tokens: Seq<Seq<char>>,
    ctx: Seq<Seq<char>>,
    i: int,
    prev: Seq<char>,
    prev2: Seq<char>,
)
    requires
        wf_model(t.model),
        0 <= i <= tokens.len(),
    ensures
        decode_from(t, tokens, ctx, i, prev, prev2).len() == tokens.len() - i,
        forall|j: int|
            0 <= j < tokens.len() - i ==> (#[trigger] decode_from(t, tokens, ctx, i, prev, prev2)[j]).word
                == tokens[i + j],
        forall|j: int|
            0 <= j < tokens.len() - i ==> 0 < (#[trigger] decode_from(
                t,
                tokens,
                ctx,
                i,
                prev,
                prev2,
            )[j]).conf <= SCALE as int,
        forall|j: int|
            0 <= j < tokens.len() - i && exc_lookup(t.exceptions, tokens[i + j]) is Some ==> {
                let e = #[trigger] decode_from(t, tokens, ctx, i, prev, prev2)[j];
                exc_lookup(t.exceptions, tokens[i + j]) == Some(e.tag) && e.conf == SCALE as int
            },
    decreases tokens.len() - i,
{
    if i < tokens.len() {
        let st = step_spec(t, tokens, ctx, i, prev, prev2);
        if exc_lookup(t.exceptions, tokens[i]) is None {
            let fs = features_spec(tokens[i], ctx, i + 2, prev, prev2);
            lemma_scores_upto_len(t.model, fs, fs.len() as int);
            lemma_conf_bounds(scores_spec(t.model, fs));
        }
        lemma_decode_props(t, tokens, ctx, i + 1, st.0, prev);
    }
}

/// Normalization is idempotent on every token that it only lower-cases:
/// one with no internal hyphen, not four digits long, and not starting
/// with a digit.  (The marker forms themselves are excluded: they are
/// lower-cased by a second pass.)
pub proof fn lemma_normalize_idempotent(w: Seq<char>)
    requires
        !(w.len() > 0 && w[0] != '-' && has_hyphen(w)),
        !(w.len() == 4 && all_digits(w)),
        !(w.len() > 0 && is_digit(w[0])),
    ensures
        normalize_spec(w) == lower_seq(w),
        normalize_spec(normalize_spec(w)) == normalize_spec(w),
{
    let l = lower_seq(w);
    assert(forall|k: int| 0 <= k < w.len() ==> l[k] == lower_char(#[trigger] w[k]));
    assert forall|k: int| 0 <= k < w.len() implies ((#[trigger] l[k]) == '-') == (w[k] == '-')
        && is_digit(l[k]) == is_digit(w[k]) by {
        assert(l[k] == lower_char(w[k]));
        lemma_lower_char_props(w[k]);
    }
    if has_hyphen(l) {
        let k = choose|k: int| 0 <= k < l.len() && l[k] == '-';
        assert(w[k] == '-');
        assert(has_hyphen(w));
    }
    if w.len() == 4 && all_digits(l) {
        assert(forall|k: int| 0 <= k < w.len() ==> is_digit(#[trigger] w[k]));
    }
    assert(lower_seq(l) =~= l) by {
        assert(forall|k: int|
            0 <= k < l.len() ==> lower_seq(l)[k] == lower_char(#[trigger] l[k]));
        assert forall|k: int| 0 <= k < l.len() implies lower_char(#[trigger] l[k]) == l[k] by {
            assert(l[k] == lower_char(w[k]));
            lemma_lower_char_props(w[k]);
        }
    }
}

/// Tagging is deterministic: two outputs of the same tagger on the same
/// sentence are identical.
pub proof fn lemma_tag_deterministic(
    t: TaggerV,
    sentence: Seq<char>,
    out1: Seq<TokV>,
    out2: Seq<TokV>,
)
    requires
        out1 == tag_spec(t, sentence),
        out2 == tag_spec(t, sentence),
    ensures
        out1 == out2,
{
}

/// Strict left-to-right causality: two token lists that agree on their
/// first `m` tokens decode identically, from the same threaded tags, at
/// every position whose feature window lies inside the agreed prefix.  The
/// window reaches two tokens ahead, so a change to token `i` can only
/// affect outputs from position `i - 2` on.
pub proof fn lemma_left_to_right(
    t: TaggerV,
    toks1: Seq<Seq<char>>,
    toks2: Seq<Seq<char>>,
    m: int,
    i: int,
    prev: Seq<char>,
    prev2: Seq<char>,
)
    requires
        0 <= i,
        m <= toks1.len(),
        m <= toks2.len(),
        forall|k: int| 0 <= k < m ==> toks1[k] == toks2[k],
    ensures
        forall|j: int|
            0 <= j < m - 2 - i ==> #[trigger] decode_from(
                t,
                toks1,
                context_of(toks1),
                i,
                prev,
                prev2,
            )[j] == decode_from(t, toks2, context_of(toks2), i, prev, prev2)[j],
    decreases m - i,
{
    if i < m - 2 {
        let c1 = context_of(toks1);
        let c2 = context_of(toks2);
        assert forall|q: int| 0 <= q <= i + 4 implies #[trigger] c1[q] == c2[q] by {
            if q >= 2 {
                assert(c1[q] == normalize_spec(toks1[q - 2]));
                assert(c2[q] == normalize_spec(toks2[q - 2]));
                assert(toks1[q - 2] == toks2[q - 2]);
            }
        }
        let st1 = step_spec(t, toks1, c1, i, prev, prev2);
        let st2 = step_spec(t, toks2, c2, i, prev, prev2);
        assert(toks1[i] == toks2[i]);
        assert(features_spec(toks1[i], c1, i + 2, prev, prev2) == features_spec(
            toks2[i],
            c2,
            i + 2,
            prev,
            prev2,
        ));
        assert(st1 == st2);
        let tokv = TokV { word: toks1[i], tag: st1.0, conf: st1.1 };
        let rest1 = decode_from(t, toks1, c1, i + 1, st1.0, prev);
        let rest2 = decode_from(t, toks2, c2, i + 1, st1.0, prev);
        assert(decode_from(t, toks1, c1, i, prev, prev2) == seq![tokv] + rest1);
        assert(decode_from(t, toks2, c2, i, prev, prev2) == seq![tokv] + rest2);
        lemma_decode_len(t, toks1, c1, i + 1, st1.0, prev);
        lemma_decode_len(t, toks2, c2, i + 1, st1.0, prev);
        lemma_left_to_right(t, toks1, toks2, m, i + 1, st1.0, prev);
        assert forall|j: int| 0 <= j < m - 2 - i implies #[trigger] decode_from(
            t,
            toks1,
            c1,
            i,
            prev,
            prev2,
        )[j] == decode_from(t, toks2, c2, i, prev, prev2)[j] by {
            if j > 0 {
                assert((seq![tokv] + rest1)[j] == rest1[j - 1]);
                assert((seq![tokv] + rest2)[j] == rest2[j - 1]);
                assert(rest1[j - 1] == rest2[j - 1]);
            }
        }
    }
}

/// The same causality at the sentence level: while two sentences' token
/// lists agree on their first `m` tokens, the outputs agree at every
/// position more than two tokens before the first difference.
pub proof fn lemma_tag_left_to_right(t: TaggerV, s1: Seq<char>, s2: Seq<char>, m: int)
    requires
        m <= tokens_of(s1).len(),
        m <= tokens_of(s2).len(),
        forall|k: int| 0 <= k < m ==> tokens_of(s1)[k] == tokens_of(s2)[k],
    ensures
        forall|j: int| 0 <= j < m - 2 ==> #[trigger] tag_spec(t, s1)[j] == tag_spec(t, s2)[j],
{
    lemma_left_to_right(t, tokens_of(s1), tokens_of(s2), m, 0, "-START-"@, "-START2-"@);
}

} // verus!
