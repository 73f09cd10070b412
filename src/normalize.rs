//! Turning free-form amount text into a plain decimal literal.
use vstd::prelude::*;
use crate::text::{append_range, chars_of, string_of};

verus! {

/// Longest pattern, in characters, that the normalizer searches for. Its
/// automaton then has fewer than 2^27 states, far below the 2^31 that the
/// search library counts up to.
pub const MAX_TOKEN_LEN: usize = 16_777_216;

/// `s` with each occurrence of `p` replaced by `w`, the occurrences taken
/// leftmost first and without overlap, scanning from the left.
pub open spec fn replaced(s: Seq<char>, p: Seq<char>, w: Seq<char>) -> Seq<char>
    decreases s.len(),
{
    if s.len() == 0 {
        s
    } else if 0 < p.len() <= s.len() && s.subrange(0, p.len() as int) == p {
        w + replaced(s.subrange(p.len() as int, s.len() as int), p, w)
    } else {
        seq![s[0]] + replaced(s.subrange(1, s.len() as int), p, w)
    }
}

/// What is kept of `s` when everything but digits, `-` and occurrences of
/// the token `tok` is dropped; occurrences are taken leftmost first.
pub open spec fn numeric_only(s: Seq<char>, tok: Seq<char>) -> Seq<char>
    decreases s.len(),
{
    if s.len() == 0 {
        s
    } else if 0 < tok.len() <= s.len() && s.subrange(0, tok.len() as int) == tok {
        tok + numeric_only(s.subrange(tok.len() as int, s.len() as int), tok)
    } else if ('0' <= s[0] && s[0] <= '9') || s[0] == '-' {
        seq![s[0]] + numeric_only(s.subrange(1, s.len() as int), tok)
    } else {
        numeric_only(s.subrange(1, s.len() as int), tok)
    }
}

/// Index of the first `)` in `t`, or `t.len()` when there is none.
pub open spec fn close_pos(t: Seq<char>) -> nat
    decreases t.len(),
{
    if t.len() == 0 || t[0] == ')' {
        0
    } else {
        1 + close_pos(t.subrange(1, t.len() as int))
    }
}

/// The accounting form of a negative amount rewritten with a sign: each
/// parenthesized span `(...)` becomes `-` and its content, so `(1.23)` reads
/// `-1.23`. A `(` with no `)` after it is left as it is.
pub open spec fn signed_parens(s: Seq<char>) -> Seq<char>
    decreases s.len(),
{
    if s.len() == 0 {
        s
    } else if s[0] == '(' && 1 + close_pos(s.subrange(1, s.len() as int)) < s.len() {
        let c = 1 + close_pos(s.subrange(1, s.len() as int)) as int;
        seq!['-'] + s.subrange(1, c) + signed_parens(s.subrange(c + 1, s.len() as int))
    } else {
        seq![s[0]] + signed_parens(s.subrange(1, s.len() as int))
    }
}

/// The first `)` of `t` stands at `m` (or there is none when `m == t.len()`).
proof fn lemma_close_pos(t: Seq<char>, m: int)
    requires
        0 <= m <= t.len(),
        forall|j: int| 0 <= j < m ==> t[j] != ')',
        m == t.len() || t[m] == ')',
    ensures
        close_pos(t) == m,
    decreases m,
{
    if m > 0 {
        let u = t.subrange(1, t.len() as int);
        lemma_close_pos(u, m - 1);
    }
}

/// The normal form of amount text: parentheses turned into a sign, then all
/// but digits, `-` and the decimal token dropped, then the token made `.`.
pub open spec fn normalized(raw: Seq<char>, decimal: Seq<char>) -> Seq<char> {
    replaced(numeric_only(signed_parens(raw), decimal), decimal, seq!['.'])
}

/// A pattern the normalizer can search for: non-empty and not too long.
pub open spec fn valid_pattern(p: Seq<char>) -> bool {
    0 < p.len() <= MAX_TOKEN_LEN
}

/// A decimal-point token: a searchable pattern with no digit and no `-`, so
/// that it never overlaps the characters kept beside it.
pub open spec fn valid_token(tok: Seq<char>) -> bool {
    &&& valid_pattern(tok)
    &&& forall|i: int| 0 <= i < tok.len() ==> !('0' <= #[trigger] tok[i] && tok[i] <= '9') && tok[i] != '-'
}

/// `s` with everything dropped but occurrences of `tok` and the characters
/// of `singles`; occurrences of `tok` are taken leftmost first.
pub open spec fn kept_occurrences(s: Seq<char>, singles: Seq<char>, tok: Seq<char>) -> Seq<char>
    decreases s.len(),
{
    if s.len() == 0 {
        s
    } else if 0 < tok.len() <= s.len() && s.subrange(0, tok.len() as int) == tok {
        tok + kept_occurrences(s.subrange(tok.len() as int, s.len() as int), singles, tok)
    } else if singles.contains(s[0]) {
        seq![s[0]] + kept_occurrences(s.subrange(1, s.len() as int), singles, tok)
    } else {
        kept_occurrences(s.subrange(1, s.len() as int), singles, tok)
    }
}

/// The characters kept beside the decimal token: the ten digits and `-`.
pub open spec fn numeric_singles() -> Seq<char> {
    seq!['0', '1', '2', '3', '4', '5', '6', '7', '8', '9', '-']
}

/// The characters of a sequence of strings, one after another.
pub open spec fn joined(pieces: Seq<String>) -> Seq<char>
    decreases pieces.len(),
{
    if pieces.len() == 0 {
        Seq::empty()
    } else {
        joined(pieces.drop_last()) + pieces.last()@
    }
}

/// Relies on aho_corasick's `AhoCorasick::new` and `AhoCorasick::replace_all`:
/// built from the one pattern `pattern` with the default (standard) match
/// semantics, the matches it replaces are those of `find_iter`, the leftmost
/// non-overlapping occurrences of the pattern from left to right; each is
/// replaced by `with` and the text between is kept. A non-empty pattern of at
/// most [`MAX_TOKEN_LEN`] characters stays far below the automaton's size
/// limits, so building does not fail.
#[verifier::external_body]
fn replace_occurrences(text: &str, pattern: &str, with: &str) -> (r: String)
    requires
        valid_pattern(pattern@),
    ensures
        r@ == replaced(text@, pattern@, with@),
{
    aho_corasick::AhoCorasick::new([pattern]).unwrap().replace_all(text, &[with])
}

/// Rewrites accounting parentheses as a minus sign: `(1.23)` becomes `-1.23`.
pub fn allow_negative_values(value: &str) -> (r: String)
    ensures
        r@ == signed_parens(value@),
{
    let s = chars_of(value);
    let n = s.len();
    let mut out: Vec<char> = Vec::new();
    let mut i: usize = 0;
    proof {
        assert(s@.subrange(0, n as int) =~= s@);
        assert(Seq::<char>::empty() + s@ =~= s@);
    }
    while i < n
        invariant
            i <= n == s@.len(),
            s@ == value@,
            signed_parens(s@) == out@ + signed_parens(s@.subrange(i as int, n as int)),
        decreases n - i,
    {
        let ghost rest = s@.subrange(i as int, n as int);
        let ghost tail = rest.subrange(1, rest.len() as int);
        proof {
            assert(tail =~= s@.subrange(i + 1, n as int));
        }
        if s[i] == '(' {
            let mut k: usize = i + 1;
            while k < n && s[k] != ')'
                invariant
                    i + 1 <= k <= n == s@.len(),
                    forall|j: int| i + 1 <= j < k ==> s@[j] != ')',
                decreases n - k,
            {
                k = k + 1;
            }
            proof {
                lemma_close_pos(tail, k - i - 1);
            }
            if k < n {
                out.push('-');
                append_range(&mut out, &s, i + 1, k);
                proof {
                    assert(rest.subrange(1, k - i) =~= s@.subrange(i + 1, k as int));
                    assert(rest.subrange(k - i + 1, rest.len() as int) =~= s@.subrange(
                        k + 1,
                        n as int,
                    ));
                }
                i = k + 1;
            } else {
                out.push('(');
                i = i + 1;
            }
        } else {
            out.push(s[i]);
            i = i + 1;
        }
    }
    proof {
        assert(s@.subrange(n as int, n as int) =~= Seq::<char>::empty());
        assert(out@ + Seq::<char>::empty() =~= out@);
    }
    string_of(&out)
}

/// Relies on aho_corasick's `AhoCorasick::new` and `AhoCorasick::find_iter`:
/// built from one pattern for each character of `singles` and one for
/// `token`, with the default (standard) semantics, `find_iter` reports
/// non-overlapping matches from left to right, each the one that ends first
/// after the previous match. As no character of `singles` occurs in the
/// token, no two matches can overlap, so the match that ends first is also
/// the leftmost: the matches are the leftmost occurrences of the token and
/// every character of `singles` outside them. The text of each match is
/// returned, in order. With at most [`MAX_TOKEN_LEN`] patterns, and characters
/// in the token, the automaton stays far below its size limits, so building
/// does not fail.
#[verifier::external_body]
fn pattern_matches(text: &str, singles: &Vec<char>, token: &str) -> (r: Vec<String>)
    requires
        valid_pattern(token@),
        singles@.len() <= MAX_TOKEN_LEN,
        forall|i: int| 0 <= i < token@.len() ==> !singles@.contains(#[trigger] token@[i]),
    ensures
        joined(r@) == kept_occurrences(text@, singles@, token@),
{
    let mut patterns: Vec<String> = singles.iter().map(|c| c.to_string()).collect();
    patterns.push(token.to_string());
    let ac = aho_corasick::AhoCorasick::new(&patterns).unwrap();
    ac.find_iter(text).map(|m| text[m.range()].to_string()).collect()
}

/// With the digits and `-` as the single characters, keeping occurrences is
/// keeping what is numeric.
proof fn lemma_kept_is_numeric(s: Seq<char>, tok: Seq<char>)
    requires
        valid_token(tok),
    ensures
        kept_occurrences(s, numeric_singles(), tok) == numeric_only(s, tok),
    decreases s.len(),
{
    if s.len() > 0 {
        let c = s[0];
        assert(numeric_singles().contains(c) <==> (('0' <= c && c <= '9') || c == '-')) by {
            let ds = numeric_singles();
            if ('0' <= c && c <= '9') || c == '-' {
                if c == '0' { assert(ds[0] == c); }
                else if c == '1' { assert(ds[1] == c); }
                else if c == '2' { assert(ds[2] == c); }
                else if c == '3' { assert(ds[3] == c); }
                else if c == '4' { assert(ds[4] == c); }
                else if c == '5' { assert(ds[5] == c); }
                else if c == '6' { assert(ds[6] == c); }
                else if c == '7' { assert(ds[7] == c); }
                else if c == '8' { assert(ds[8] == c); }
                else if c == '9' { assert(ds[9] == c); }
                else { assert(ds[10] == c); }
            }
            if ds.contains(c) {
                let k = choose|k: int| 0 <= k < ds.len() && ds[k] == c;
                assert(0 <= k < 11);
                assert(ds[0] == '0' && ds[1] == '1' && ds[2] == '2' && ds[3] == '3' && ds[4] == '4');
                assert(ds[5] == '5' && ds[6] == '6' && ds[7] == '7' && ds[8] == '8' && ds[9] == '9');
                assert(ds[10] == '-');
            }
        }
        if 0 < tok.len() <= s.len() && s.subrange(0, tok.len() as int) == tok {
            lemma_kept_is_numeric(s.subrange(tok.len() as int, s.len() as int), tok);
        } else {
            lemma_kept_is_numeric(s.subrange(1, s.len() as int), tok);
        }
    }
}

/// Keeps the digits, `-` signs and occurrences of the decimal token of
/// `value`, and drops every other character.
pub fn replace_any_non_numeric_values(decimal: String, value: String) -> (r: String)
    requires
        valid_token(decimal@),
    ensures
        r@ == numeric_only(value@, decimal@),
{
    let singles: Vec<char> = vec!['0', '1', '2', '3', '4', '5', '6', '7', '8', '9', '-'];
    proof {
        assert(singles@ =~= numeric_singles());
        assert forall|i: int| 0 <= i < decimal@.len() implies !singles@.contains(
            #[trigger] decimal@[i],
        ) by {
            let c = decimal@[i];
            if singles@.contains(c) {
                let k = choose|k: int| 0 <= k < singles@.len() && singles@[k] == c;
                assert(0 <= k < 11);
            }
        }
        lemma_kept_is_numeric(value@, decimal@);
    }
    let pieces = pattern_matches(value.as_str(), &singles, decimal.as_str());
    let mut out: Vec<char> = Vec::new();
    let mut i: usize = 0;
    while i < pieces.len()
        invariant
            i <= pieces@.len(),
            out@ == joined(pieces@.subrange(0, i as int)),
        decreases pieces@.len() - i,
    {
        let cs = chars_of(pieces[i].as_str());
        let n = cs.len();
        append_range(&mut out, &cs, 0, n);
        proof {
            let pre = pieces@.subrange(0, i + 1);
            assert(pre.drop_last() =~= pieces@.subrange(0, i as int));
            assert(cs@.subrange(0, n as int) =~= cs@);
        }
        i = i + 1;
    }
    proof {
        assert(pieces@.subrange(0, pieces@.len() as int) =~= pieces@);
    }
    string_of(&out)
}

/// Replaces each occurrence of the decimal token in `value` by `.`.
pub fn convert_any_decimal_values(decimal: String, value: String) -> (r: String)
    requires
        valid_pattern(decimal@),
    ensures
        r@ == replaced(value@, decimal@, seq!['.']),
{
    proof {
        reveal_strlit(".");
        assert("."@ =~= seq!['.']);
    }
    replace_occurrences(value.as_str(), decimal.as_str(), ".")
}

/// The plain decimal literal read from amount text, with `decimal` as the
/// decimal-point token.
pub fn normalize(raw: &str, decimal: &str) -> (r: String)
    requires
        valid_token(decimal@),
    ensures
        r@ == normalized(raw@, decimal@),
{
    let signed = allow_negative_values(raw);
    let tok = decimal.to_owned();
    let digits = replace_any_non_numeric_values(tok.clone(), signed);
    convert_any_decimal_values(tok, digits)
}

} // verus!
