//! Character-level string helpers: ASCII lower-casing, suffixes, and
//! whitespace tokenization, each with an exact sequence-level specification.

use vstd::prelude::*;

verus! {

/// ASCII lower-casing of a single character; every other character is kept.
pub open spec fn lower_char(c: char) -> char {
    if 65 <= c as u32 && c as u32 <= 90 {
        ((c as u8) + 32) as char
    } else {
        c
    }
}

/// ASCII lower-casing of a whole string.
pub open spec fn lower_seq(s: Seq<char>) -> Seq<char> {
    s.map_values(|c: char| lower_char(c))
}

/// Lower-casing keeps hyphens and digits in place and is idempotent.
pub proof fn lemma_lower_char_props(c: char)
    ensures
        (lower_char(c) == '-') == (c == '-'),
        is_digit(lower_char(c)) == is_digit(c),
        lower_char(lower_char(c)) == lower_char(c),
{
    if 65 <= c as u32 && c as u32 <= 90 {
        assert(c as u8 == c as u32);
        assert(lower_char(c) as u32 == c as u32 + 32);
    }
}

/// An ASCII decimal digit.
pub open spec fn is_digit(c: char) -> bool {
    48 <= c as u32 && c as u32 <= 57
}

/// Whitespace for tokenization: space, tab, line feed, carriage return.
pub open spec fn is_space(c: char) -> bool {
    c == ' ' || c == '\t' || c == '\n' || c == '\r'
}

/// The last three characters of `s`, or all of `s` when it is shorter.
pub open spec fn suffix3(s: Seq<char>) -> Seq<char> {
    if s.len() <= 3 {
        s
    } else {
        s.subrange(s.len() - 3, s.len() as int)
    }
}

/// Appends the lower-cased character `s[i]` to `out`.
fn append_lower(out: &mut String, s: &str, i: usize)
    requires
        i < s@.len(),
        s@.len() <= usize::MAX,
    ensures
        final(out)@ == old(out)@ + seq![lower_char(s@[i as int])],
{
    let c = s.get_char(i);
    match c {
        'A' => {
            proof {
                reveal_strlit("a");
            }
            out.append("a");
        },
        'B' => {
            proof {
                reveal_strlit("b");
            }
            out.append("b");
        },
        'C' => {
            proof {
                reveal_strlit("c");
            }
            out.append("c");
        },
        'D' => {
            proof {
                reveal_strlit("d");
            }
            out.append("d");
        },
        'E' => {
            proof {
                reveal_strlit("e");
            }
            out.append("e");
        },
        'F' => {
            proof {
                reveal_strlit("f");
            }
            out.append("f");
        },
        'G' => {
            proof {
                reveal_strlit("g");
            }
            out.append("g");
        },
        'H' => {
            proof {
                reveal_strlit("h");
            }
            out.append("h");
        },
        'I' => {
            proof {
                reveal_strlit("i");
            }
            out.append("i");
        },
        'J' => {
            proof {
                reveal_strlit("j");
            }
            out.append("j");
        },
        'K' => {
            proof {
                reveal_strlit("k");
            }
            out.append("k");
        },
        'L' => {
            proof {
                reveal_strlit("l");
            }
            out.append("l");
        },
        'M' => {
            proof {
                reveal_strlit("m");
            }
            out.append("m");
        },
        'N' => {
            proof {
                reveal_strlit("n");
            }
            out.append("n");
        },
        'O' => {
            proof {
                reveal_strlit("o");
            }
            out.append("o");
        },
        'P' => {
            proof {
                reveal_strlit("p");
            }
            out.append("p");
        },
        'Q' => {
            proof {
                reveal_strlit("q");
            }
            out.append("q");
        },
        'R' => {
            proof {
                reveal_strlit("r");
            }
            out.append("r");
        },
        'S' => {
            proof {
                reveal_strlit("s");
            }
            out.append("s");
        },
        'T' => {
            proof {
                reveal_strlit("t");
            }
            out.append("t");
        },
        'U' => {
            proof {
                reveal_strlit("u");
            }
            out.append("u");
        },
        'V' => {
            proof {
                reveal_strlit("v");
            }
            out.append("v");
        },
        'W' => {
            proof {
                reveal_strlit("w");
            }
            out.append("w");
        },
        'X' => {
            proof {
                reveal_strlit("x");
            }
            out.append("x");
        },
        'Y' => {
            proof {
                reveal_strlit("y");
            }
            out.append("y");
        },
        'Z' => {
            proof {
                reveal_strlit("z");
            }
            out.append("z");
        },
        _ => {
            let piece = s.substring_char(i, i + 1);
            out.append(piece);
            proof {
                assert(piece@ =~= seq![s@[i as int]]);
            }
        },
    }
    proof {
        assert(final(out)@ =~= old(out)@ + seq![lower_char(s@[i as int])]);
    }
}

/// ASCII lower-casing of a string.
pub fn lowercase(s: &str) -> (r: String)
    ensures
        r@ == lower_seq(s@),
{
    let n = s.unicode_len();
    let mut out = String::new();
    let mut i: usize = 0;
    while i < n
        invariant
            i <= n,
            n == s@.len(),
            out@ == lower_seq(s@.take(i as int)),
        decreases n - i,
    {
        append_lower(&mut out, s, i);
        proof {
            assert(lower_seq(s@.take(i + 1 as int)) =~= lower_seq(s@.take(i as int)) + seq![
                lower_char(s@[i as int]),
            ]);
        }
        i = i + 1;
    }
    proof {
        assert(s@.take(n as int) =~= s@);
    }
    out
}

/// Character-by-character string equality test.
pub fn str_eq(a: &str, b: &str) -> (r: bool)
    ensures
        r == (a@ == b@),
{
    let na = a.unicode_len();
    let nb = b.unicode_len();
    if na != nb {
        proof {
            assert(a@ != b@);
        }
        return false;
    }
    let mut i: usize = 0;
    while i < na
        invariant
            i <= na,
            na == a@.len(),
            na == b@.len(),
            forall|k: int| 0 <= k < i ==> a@[k] == b@[k],
        decreases na - i,
    {
        if a.get_char(i) != b.get_char(i) {
            proof {
                assert(a@[i as int] != b@[i as int]);
            }
            return false;
        }
        i = i + 1;
    }
    proof {
        assert(a@ =~= b@);
    }
    true
}

/// The last three characters of `s` (all of `s` when shorter), as an owned string.
pub fn suffix3_of(s: &str) -> (r: String)
    ensures
        r@ == suffix3(s@),
{
    let n = s.unicode_len();
    if n <= 3 {
        String::from_str(s)
    } else {
        String::from_str(s.substring_char(n - 3, n))
    }
}

/// One step of tokenization: the tokens completed so far and the pending word
/// after reading a prefix of the sentence.
pub open spec fn tok_state(s: Seq<char>) -> (Seq<Seq<char>>, Seq<char>)
    decreases s.len(),
{
    if s.len() == 0 {
        (Seq::empty(), Seq::empty())
    } else {
        let (ts, cur) = tok_state(s.drop_last());
        let c = s.last();
        if is_space(c) {
            if cur.len() > 0 {
                (ts.push(cur), Seq::empty())
            } else {
                (ts, Seq::empty())
            }
        } else {
            (ts, cur.push(c))
        }
    }
}

/// The whitespace-delimited tokens of a sentence, in order.
pub open spec fn tokens_of(s: Seq<char>) -> Seq<Seq<char>> {
    let (ts, cur) = tok_state(s);
    if cur.len() > 0 {
        ts.push(cur)
    } else {
        ts
    }
}

fn is_space_exec(c: char) -> (r: bool)
    ensures
        r == is_space(c),
{
    c == ' ' || c == '\t' || c == '\n' || c == '\r'
}

/// Splits a sentence on whitespace.
pub fn tokenize(s: &str) -> (toks: Vec<String>)
    ensures
        toks.deep_view() == tokens_of(s@),
{
    let n = s.unicode_len();
    let mut toks: Vec<String> = Vec::new();
    let mut start: usize = 0;
    let mut i: usize = 0;
    while i < n
        invariant
            start <= i <= n,
            n == s@.len(),
            tok_state(s@.take(i as int)).0 == toks.deep_view(),
            tok_state(s@.take(i as int)).1 == s@.subrange(start as int, i as int),
        decreases n - i,
    {
        let ghost pre = s@.take(i as int);
        proof {
            assert(s@.take(i + 1 as int).drop_last() =~= pre);
            assert(s@.take(i + 1 as int).last() == s@[i as int]);
        }
        let c = s.get_char(i);
        if is_space_exec(c) {
            if start < i {
                let w = String::from_str(s.substring_char(start, i));
                toks.push(w);
            }
            start = i + 1;
            proof {
                assert(tok_state(s@.take(i + 1 as int)).1 =~= s@.subrange(
                    i + 1 as int,
                    i + 1 as int,
                ));
            }
        } else {
            proof {
                assert(tok_state(s@.take(i + 1 as int)).1 =~= s@.subrange(
                    start as int,
                    i + 1 as int,
                ));
            }
        }
        i = i + 1;
    }
    proof {
        assert(s@.take(n as int) =~= s@);
    }
    if start < n {
        let w = String::from_str(s.substring_char(start, n));
        toks.push(w);
    }
    toks
}

} // verus!
