//! The citation grammar of the LaTeX import path and its round-trip through
//! the external converter.
//!
//! Before conversion, citation commands (`\cite{key}` and its footnote
//! variants, with up to two optional bracket arguments) are replaced by
//! positional placeholder tokens `vb-cite-N` that survive the converter, and
//! the keys are recorded in order of occurrence.  After conversion, each
//! placeholder is rewritten into a typed citation element carrying the
//! originally captured key.  This file holds the grammar as specification
//! functions plus the verified scanning primitives; `preprocess` and
//! `postprocess` hold the two passes.

use vstd::prelude::*;

verus! {

use crate::text::{dec_digits, dec_value};

/// `p` occurs in `s` starting at `i`.
pub open spec fn starts_with_at(s: Seq<char>, p: Seq<char>, i: int) -> bool {
    0 <= i && i + p.len() <= s.len() && s.subrange(i, i + p.len()) == p
}

/// Index of the first occurrence of `c` at or after `from`.
pub open spec fn find_char_from(s: Seq<char>, c: char, from: int) -> Option<int>
    decreases s.len() - from,
    when 0 <= from <= s.len()
{
    if from >= s.len() {
        None
    } else if s[from] == c {
        Some(from)
    } else {
        find_char_from(s, c, from + 1)
    }
}

/// Index of the first `}` at or after `from`, provided no line break comes
/// first (a citation key never spans lines).
pub open spec fn find_close_from(s: Seq<char>, from: int) -> Option<int>
    decreases s.len() - from,
    when 0 <= from <= s.len()
{
    if from >= s.len() {
        None
    } else if s[from] == '}' {
        Some(from)
    } else if s[from] == '\n' {
        None
    } else {
        find_close_from(s, from + 1)
    }
}

/// Position after an optional bracket argument at `j`: when a `[` stands at
/// `j` and a matching `]` follows, the position after that `]`; otherwise `j`
/// itself.
pub open spec fn skip_opt_bracket(s: Seq<char>, j: int) -> int {
    if 0 <= j < s.len() && s[j] == '[' {
        match find_char_from(s, ']', j + 1) {
            Option::Some(e) => e + 1,
            Option::None => j,
        }
    } else {
        j
    }
}

/// Attempts to read one citation command named `name` whose backslash stands
/// at `i`: the name, up to two optional bracket arguments, then `{key}`.
/// Reports the position after the closing brace and the key.
pub open spec fn match_cmd(s: Seq<char>, i: int, name: Seq<char>) -> Option<(int, Seq<char>)> {
    if starts_with_at(s, name, i + 1) {
        let j1 = skip_opt_bracket(s, i + 1 + name.len());
        let j2 = skip_opt_bracket(s, j1);
        if 0 <= j2 < s.len() && s[j2] == '{' {
            match find_close_from(s, j2 + 1) {
                Option::Some(e) => Some((e + 1, s.subrange(j2 + 1, e))),
                Option::None => None,
            }
        } else {
            None
        }
    } else {
        None
    }
}

/// Attempts to read a citation command at `i`, trying the command names in
/// the fixed order of the grammar.
pub open spec fn cite_match_at(s: Seq<char>, i: int) -> Option<(int, Seq<char>)> {
    if 0 <= i < s.len() && s[i] == '\\' {
        if match_cmd(s, i, "cite"@) is Some {
            match_cmd(s, i, "cite"@)
        } else if match_cmd(s, i, "footcite"@) is Some {
            match_cmd(s, i, "footcite"@)
        } else if match_cmd(s, i, "footcitetext"@) is Some {
            match_cmd(s, i, "footcitetext"@)
        } else if match_cmd(s, i, "fullcite"@) is Some {
            match_cmd(s, i, "fullcite"@)
        } else if match_cmd(s, i, "footfullcite"@) is Some {
            match_cmd(s, i, "footfullcite"@)
        } else {
            None
        }
    } else {
        None
    }
}

/// The scan position after handling position `i`: past the matched citation
/// command, or one character on.  (A well-formed match always moves forward;
/// the bound keeps the definition well-founded on every input.)
pub open spec fn cite_step(s: Seq<char>, i: int) -> int {
    match cite_match_at(s, i) {
        Option::Some((end, key)) => if i < end <= s.len() {
            end
        } else {
            i + 1
        },
        Option::None => i + 1,
    }
}

/// The placeholder token for the `k`-th recorded citation.
pub open spec fn placeholder(k: nat) -> Seq<char> {
    "vb-cite-"@ + dec_digits(k)
}

/// One pass over `s` from `i`: citation commands become placeholder tokens
/// and their keys are appended to `marks`; everything else is copied.
pub open spec fn replace_cites_from(
    s: Seq<char>,
    i: int,
    out: Seq<char>,
    marks: Seq<Seq<char>>,
) -> (Seq<char>, Seq<Seq<char>>)
    decreases s.len() - i,
    when 0 <= i <= s.len()
{
    if i >= s.len() {
        (out, marks)
    } else {
        match cite_match_at(s, i) {
            Option::Some((end, key)) => replace_cites_from(
                s,
                cite_step(s, i),
                out + placeholder(marks.len()),
                marks.push(key),
            ),
            Option::None => replace_cites_from(s, i + 1, out.push(s[i]), marks),
        }
    }
}

/// One pass over `s` from `i`: every `\endnote` becomes `\footnote` (the
/// converter knows no endnotes); everything else is copied.
pub open spec fn replace_endnotes_from(s: Seq<char>, i: int, out: Seq<char>) -> Seq<char>
    decreases s.len() - i,
    when 0 <= i <= s.len()
{
    if i >= s.len() {
        out
    } else if starts_with_at(s, "\\endnote"@, i) && i + 8 <= s.len() {
        replace_endnotes_from(s, i + 8, out + "\\footnote"@)
    } else {
        replace_endnotes_from(s, i + 1, out.push(s[i]))
    }
}

/// What the whole preprocessing pass produces: the text with citation
/// commands replaced by placeholders and endnotes rewritten, and the captured
/// keys in order of occurrence.
pub open spec fn latex_preprocess_spec(s: Seq<char>) -> (Seq<char>, Seq<Seq<char>>) {
    let scanned = replace_cites_from(s, 0, Seq::empty(), Seq::empty());
    (replace_endnotes_from(scanned.0, 0, Seq::empty()), scanned.1)
}

/// The key re-emitted for placeholder index `num`: the recorded key, or the
/// empty key when the index is out of range (a logic error represented in the
/// output rather than aborting the job).
pub open spec fn key_for(marks: Seq<Seq<char>>, num: u64) -> Seq<char> {
    if num < marks.len() {
        marks[num as int]
    } else {
        Seq::empty()
    }
}

/// The citation element emitted for one resolved key.
pub open spec fn citation_elem(key: Seq<char>) -> Seq<char> {
    "<citation data-key=\""@ + key + "\">C</citation>"@
}

/// Index of the first non-digit at or after `from`.
pub open spec fn digit_run_end(s: Seq<char>, from: int) -> int
    decreases s.len() - from,
    when 0 <= from <= s.len()
{
    if from >= s.len() {
        from
    } else if '0' <= s[from] <= '9' {
        digit_run_end(s, from + 1)
    } else {
        from
    }
}

/// One pass over converter output from `i`: every placeholder token
/// `vb-cite-N` becomes a citation element carrying the `N`-th recorded key; a
/// digit run past machine range becomes a marked invalid citation; everything
/// else is copied.
pub open spec fn restore_cites_from(
    s: Seq<char>,
    marks: Seq<Seq<char>>,
    i: int,
    out: Seq<char>,
) -> Seq<char>
    decreases s.len() - i,
    when 0 <= i <= s.len()
{
    if i >= s.len() {
        out
    } else if starts_with_at(s, "vb-cite-"@, i) && i + 8 <= s.len() && digit_run_end(s, i + 8) > i
        + 8 && digit_run_end(s, i + 8) <= s.len() {
        let de = digit_run_end(s, i + 8);
        match dec_value(s.subrange(i + 8, de)) {
            Option::Some(num) => restore_cites_from(s, marks, de, out + citation_elem(
                key_for(marks, num),
            )),
            Option::None => restore_cites_from(s, marks, de, out + "invalid-citation!"@),
        }
    } else {
        restore_cites_from(s, marks, i + 1, out.push(s[i]))
    }
}

/// What the whole postprocessing pass produces.
pub open spec fn latex_postprocess_spec(s: Seq<char>, marks: Seq<Seq<char>>) -> Seq<char> {
    restore_cites_from(s, marks, 0, Seq::empty())
}

proof fn lemma_digit_run_end_all_digits(s: Seq<char>, j: int)
    requires
        0 <= j <= s.len(),
        forall|t: int| j <= t < s.len() ==> '0' <= #[trigger] s[t] <= '9',
    ensures
        digit_run_end(s, j) == s.len(),
    decreases s.len() - j,
{
    if j < s.len() {
        lemma_digit_run_end_all_digits(s, j + 1);
    }
}

/// Citation round-trip, converter side: whenever the converter's output
/// preserves a placeholder token verbatim (here: output that is exactly the
/// token), postprocessing re-emits a citation element carrying the key
/// recorded under the token's index — for every recorded key list and every
/// in-range index.
pub proof fn lemma_placeholder_restores(marks: Seq<Seq<char>>, k: u64)
    requires
        k < marks.len(),
    ensures
        latex_postprocess_spec(placeholder(k as nat), marks) == citation_elem(marks[k as int]),
{
    crate::text::lemma_dec_digits_are_digits(k as nat);
    crate::text::lemma_dec_digits_value(k as nat);
    let s = placeholder(k as nat);
    let ds = crate::text::dec_digits(k as nat);
    reveal_strlit("vb-cite-");
    assert("vb-cite-"@.len() == 8);
    assert(s.len() == 8 + ds.len());
    assert(starts_with_at(s, "vb-cite-"@, 0)) by {
        assert(s.subrange(0, 8) =~= "vb-cite-"@);
    }
    assert(forall|t: int| 8 <= t < s.len() ==> '0' <= #[trigger] s[t] <= '9') by {
        assert(forall|t: int| 8 <= t < s.len() ==> s[t] == ds[t - 8]);
    }
    lemma_digit_run_end_all_digits(s, 8);
    let de = digit_run_end(s, 8);
    assert(de == s.len());
    assert(s.subrange(8, de) =~= ds);
    assert(dec_value(s.subrange(8, de)) == Some(k));
    assert(key_for(marks, k) == marks[k as int]);
    assert(restore_cites_from(s, marks, 0, Seq::empty()) == restore_cites_from(
        s,
        marks,
        de,
        Seq::empty() + citation_elem(marks[k as int]),
    ));
    assert(restore_cites_from(s, marks, de, Seq::empty() + citation_elem(marks[k as int]))
        == Seq::empty() + citation_elem(marks[k as int]));
    assert(Seq::empty() + citation_elem(marks[k as int]) =~= citation_elem(marks[k as int]));
}


/// The scan's output accumulates: what is produced from position `i` on is
/// appended to whatever was produced before.
proof fn lemma_restore_out(s: Seq<char>, marks: Seq<Seq<char>>, i: int, out: Seq<char>)
    requires
        0 <= i <= s.len(),
    ensures
        restore_cites_from(s, marks, i, out) == out + restore_cites_from(
            s,
            marks,
            i,
            Seq::empty(),
        ),
    decreases s.len() - i,
{
    if i >= s.len() {
        assert(out + Seq::<char>::empty() =~= out);
    } else if starts_with_at(s, "vb-cite-"@, i) && i + 8 <= s.len() && digit_run_end(s, i + 8) > i
        + 8 && digit_run_end(s, i + 8) <= s.len() {
        let de = digit_run_end(s, i + 8);
        let piece = match dec_value(s.subrange(i + 8, de)) {
            Option::Some(num) => citation_elem(key_for(marks, num)),
            Option::None => "invalid-citation!"@,
        };
        lemma_restore_out(s, marks, de, out + piece);
        lemma_restore_out(s, marks, de, Seq::empty() + piece);
        assert(Seq::empty() + piece =~= piece);
        assert((out + piece) + restore_cites_from(s, marks, de, Seq::empty()) =~= out + (piece
            + restore_cites_from(s, marks, de, Seq::empty())));
    } else {
        lemma_restore_out(s, marks, i + 1, out.push(s[i]));
        lemma_restore_out(s, marks, i + 1, Seq::empty().push(s[i]));
        assert(Seq::empty().push(s[i]) =~= seq![s[i]]);
        assert(out.push(s[i]) =~= out + seq![s[i]]);
        assert((out + seq![s[i]]) + restore_cites_from(s, marks, i + 1, Seq::empty()) =~= out + (
        seq![s[i]] + restore_cites_from(s, marks, i + 1, Seq::empty())));
    }
}

/// A pattern occurs at a position past `w` in `w + t` exactly when it occurs
/// at the corresponding position of `t`.
proof fn lemma_starts_with_shift(w: Seq<char>, t: Seq<char>, p: Seq<char>, j: int)
    requires
        0 <= j <= t.len(),
    ensures
        starts_with_at(w + t, p, w.len() + j) == starts_with_at(t, p, j),
{
    let s = w + t;
    if j + p.len() <= t.len() {
        assert(s.subrange(w.len() + j, w.len() + j + p.len()) =~= t.subrange(j, j + p.len()));
    }
}

/// The digit run past `w` in `w + t` is the digit run of `t`, shifted.
proof fn lemma_digit_run_shift(w: Seq<char>, t: Seq<char>, j: int)
    requires
        0 <= j <= t.len(),
    ensures
        digit_run_end(w + t, w.len() + j) == w.len() + digit_run_end(t, j),
    decreases t.len() - j,
{
    let s = w + t;
    if j < t.len() {
        assert(s[w.len() + j] == t[j]);
        if '0' <= t[j] <= '9' {
            lemma_digit_run_shift(w, t, j + 1);
        }
    }
}

/// The digit run never leaves the text.
proof fn lemma_digit_run_bounds(s: Seq<char>, j: int)
    requires
        0 <= j <= s.len(),
    ensures
        j <= digit_run_end(s, j) <= s.len(),
    decreases s.len() - j,
{
    if j < s.len() && '0' <= s[j] <= '9' {
        lemma_digit_run_bounds(s, j + 1);
    }
}

/// A run of digits from `a` to `b`, with `b` past the end or a non-digit,
/// ends exactly at `b`.
proof fn lemma_digit_run_stops(s: Seq<char>, a: int, b: int)
    requires
        0 <= a <= b <= s.len(),
        forall|t: int| a <= t < b ==> '0' <= #[trigger] s[t] <= '9',
        b == s.len() || !('0' <= s[b] <= '9'),
    ensures
        digit_run_end(s, a) == b,
    decreases b - a,
{
    if a < b {
        lemma_digit_run_stops(s, a + 1, b);
    }
}

/// Scanning `w + t` from the seam onwards is scanning `t`.
proof fn lemma_restore_shift(w: Seq<char>, t: Seq<char>, marks: Seq<Seq<char>>, j: int)
    requires
        0 <= j <= t.len(),
    ensures
        restore_cites_from(w + t, marks, w.len() + j, Seq::empty()) == restore_cites_from(
            t,
            marks,
            j,
            Seq::empty(),
        ),
    decreases t.len() - j,
{
    let s = w + t;
    let i = w.len() + j;
    reveal_strlit("vb-cite-");
    if j >= t.len() {
    } else {
        lemma_starts_with_shift(w, t, "vb-cite-"@, j);
        lemma_digit_run_bounds(t, if j + 8 <= t.len() { j + 8 } else { t.len() as int });
        if starts_with_at(t, "vb-cite-"@, j) && j + 8 <= t.len() && digit_run_end(t, j + 8) > j + 8
            && digit_run_end(t, j + 8) <= t.len() {
            lemma_digit_run_shift(w, t, j + 8);
            let de_t = digit_run_end(t, j + 8);
            let de_s = digit_run_end(s, i + 8);
            assert(de_s == w.len() + de_t);
            assert(s.subrange(i + 8, de_s) =~= t.subrange(j + 8, de_t));
            let piece = match dec_value(t.subrange(j + 8, de_t)) {
                Option::Some(num) => citation_elem(key_for(marks, num)),
                Option::None => "invalid-citation!"@,
            };
            lemma_restore_out(s, marks, de_s, piece);
            lemma_restore_out(t, marks, de_t, piece);
            lemma_restore_shift(w, t, marks, de_t);
            assert(Seq::empty() + piece =~= piece);
        } else {
            if j + 8 <= t.len() {
                lemma_digit_run_shift(w, t, j + 8);
            }
            assert(!(starts_with_at(s, "vb-cite-"@, i) && i + 8 <= s.len() && digit_run_end(
                s,
                i + 8,
            ) > i + 8 && digit_run_end(s, i + 8) <= s.len()));
            assert(s[i] == t[j]);
            lemma_restore_out(s, marks, i + 1, Seq::empty().push(s[i]));
            lemma_restore_out(t, marks, j + 1, Seq::empty().push(t[j]));
            lemma_restore_shift(w, t, marks, j + 1);
        }
    }
}

/// Text in which no placeholder can begin (it holds no `v` at all) is copied
/// through unchanged, up to `stop`.
proof fn lemma_restore_copies_plain_prefix(
    s: Seq<char>,
    marks: Seq<Seq<char>>,
    i: int,
    stop: int,
)
    requires
        0 <= i <= stop <= s.len(),
        forall|j: int| i <= j < stop ==> #[trigger] s[j] != 'v',
    ensures
        restore_cites_from(s, marks, i, Seq::empty()) == s.subrange(i, stop)
            + restore_cites_from(s, marks, stop, Seq::empty()),
    decreases stop - i,
{
    reveal_strlit("vb-cite-");
    if i >= stop {
        assert(s.subrange(i, stop) =~= Seq::<char>::empty());
        assert(Seq::<char>::empty() + restore_cites_from(s, marks, stop, Seq::empty())
            =~= restore_cites_from(s, marks, stop, Seq::empty()));
    } else {
        assert(!starts_with_at(s, "vb-cite-"@, i)) by {
            if starts_with_at(s, "vb-cite-"@, i) {
                assert(s.subrange(i, i + 8)[0] == 'v');
            }
        }
        lemma_restore_out(s, marks, i + 1, Seq::empty().push(s[i]));
        lemma_restore_copies_plain_prefix(s, marks, i + 1, stop);
        assert(Seq::empty().push(s[i]) =~= seq![s[i]]);
        assert(seq![s[i]] + (s.subrange(i + 1, stop) + restore_cites_from(
            s,
            marks,
            stop,
            Seq::empty(),
        )) =~= s.subrange(i, stop) + restore_cites_from(s, marks, stop, Seq::empty()));
    }
}

/// Citation round-trip for a placeholder preserved verbatim inside converter
/// output: text before it in which no placeholder can begin (it holds no
/// `v`), the token itself, and any text after it that does not start with a
/// digit restore to the same text with the token replaced by the citation
/// element carrying the recorded key, the rest of the output being restored
/// independently — for every recorded key list and every in-range index.
pub proof fn lemma_embedded_placeholder_restores(
    before: Seq<char>,
    after: Seq<char>,
    marks: Seq<Seq<char>>,
    k: u64,
)
    requires
        k < marks.len(),
        forall|i: int| 0 <= i < before.len() ==> #[trigger] before[i] != 'v',
        after.len() > 0 ==> !('0' <= after[0] <= '9'),
    ensures
        latex_postprocess_spec(before + placeholder(k as nat) + after, marks) == before
            + citation_elem(marks[k as int]) + latex_postprocess_spec(after, marks),
{
    crate::text::lemma_dec_digits_are_digits(k as nat);
    crate::text::lemma_dec_digits_value(k as nat);
    reveal_strlit("vb-cite-");
    let tok = placeholder(k as nat);
    let ds = crate::text::dec_digits(k as nat);
    let s = before + tok + after;
    let big = before + tok;
    let lb = before.len() as int;
    let lt = tok.len() as int;
    assert(s =~= big + after);
    assert(forall|j: int| 0 <= j < lt ==> s[lb + j] == tok[j]);
    assert(forall|j: int| 0 <= j < after.len() ==> s[lb + lt + j] == after[j]);
    // The plain prefix is copied through.
    lemma_restore_copies_plain_prefix(s, marks, 0, lb);
    assert(s.subrange(0, lb) =~= before);
    // The token is matched exactly.
    assert(starts_with_at(s, "vb-cite-"@, lb)) by {
        assert(s.subrange(lb, lb + 8) =~= "vb-cite-"@);
    }
    assert(forall|t: int| lb + 8 <= t < lb + lt ==> '0' <= #[trigger] s[t] <= '9') by {
        assert(forall|t: int| lb + 8 <= t < lb + lt ==> s[t] == ds[t - (lb + 8)]);
    }
    lemma_digit_run_stops(s, lb + 8, lb + lt);
    let de = digit_run_end(s, lb + 8);
    assert(de == lb + lt);
    assert(s.subrange(lb + 8, de) =~= ds);
    assert(dec_value(s.subrange(lb + 8, de)) == Some(k));
    assert(key_for(marks, k) == marks[k as int]);
    let piece = citation_elem(marks[k as int]);
    assert(restore_cites_from(s, marks, lb, Seq::empty()) == restore_cites_from(
        s,
        marks,
        de,
        Seq::empty() + piece,
    ));
    lemma_restore_out(s, marks, de, Seq::empty() + piece);
    assert(Seq::empty() + piece =~= piece);
    // The tail is restored independently.
    lemma_restore_shift(big, after, marks, 0);
    assert(big.len() == de);
    assert(before + (piece + restore_cites_from(after, marks, 0, Seq::empty())) =~= before + piece
        + restore_cites_from(after, marks, 0, Seq::empty()));
}

pub(crate) fn starts_with_lit(cs: &Vec<char>, i: usize, p: &str) -> (r: bool)
    requires
        i <= cs@.len(),
    ensures
        r == starts_with_at(cs@, p@, i as int),
{
    let pl = p.unicode_len();
    let n = cs.len();
    if pl > n - i {
        assert(!starts_with_at(cs@, p@, i as int));
        return false;
    }
    let mut t: usize = 0;
    while t < pl
        invariant
            n == cs@.len(),
            i + pl <= n,
            pl == p@.len(),
            t <= pl,
            forall|j: int| 0 <= j < t ==> cs@[i + j] == p@[j],
        decreases pl - t,
    {
        if cs[i + t] != p.get_char(t) {
            assert(!starts_with_at(cs@, p@, i as int)) by {
                if starts_with_at(cs@, p@, i as int) {
                    assert(cs@.subrange(i as int, i + p@.len())[t as int] == p@[t as int]);
                }
            }
            return false;
        }
        t = t + 1;
    }
    proof {
        assert(cs@.subrange(i as int, i + p@.len()) =~= p@);
    }
    true
}

pub(crate) fn find_char_exec(cs: &Vec<char>, c: char, from: usize) -> (r: Option<usize>)
    requires
        from <= cs@.len(),
    ensures
        match r {
            Option::Some(e) => find_char_from(cs@, c, from as int) == Some(e as int) && from <= e
                < cs@.len() && cs@[e as int] == c,
            Option::None => find_char_from(cs@, c, from as int) is None,
        },
{
    let n = cs.len();
    let mut i: usize = from;
    while i < n
        invariant
            from <= i <= n,
            n == cs@.len(),
            find_char_from(cs@, c, from as int) == find_char_from(cs@, c, i as int),
        decreases n - i,
    {
        if cs[i] == c {
            return Some(i);
        }
        i = i + 1;
    }
    None
}

pub(crate) fn find_close_exec(cs: &Vec<char>, from: usize) -> (r: Option<usize>)
    requires
        from <= cs@.len(),
    ensures
        match r {
            Option::Some(e) => find_close_from(cs@, from as int) == Some(e as int) && from <= e
                < cs@.len(),
            Option::None => find_close_from(cs@, from as int) is None,
        },
{
    let n = cs.len();
    let mut i: usize = from;
    while i < n
        invariant
            from <= i <= n,
            n == cs@.len(),
            find_close_from(cs@, from as int) == find_close_from(cs@, i as int),
        decreases n - i,
    {
        if cs[i] == '}' {
            return Some(i);
        }
        if cs[i] == '\n' {
            return None;
        }
        i = i + 1;
    }
    None
}

pub(crate) fn skip_bracket_exec(cs: &Vec<char>, j: usize) -> (r: usize)
    requires
        j <= cs@.len(),
    ensures
        r as int == skip_opt_bracket(cs@, j as int),
        j <= r <= cs@.len(),
{
    if j < cs.len() && cs[j] == '[' {
        match find_char_exec(cs, ']', j + 1) {
            Some(e) => e + 1,
            None => j,
        }
    } else {
        j
    }
}

pub(crate) fn digit_run_exec(cs: &Vec<char>, from: usize) -> (r: usize)
    requires
        from <= cs@.len(),
    ensures
        r as int == digit_run_end(cs@, from as int),
        from <= r <= cs@.len(),
{
    let n = cs.len();
    let mut i: usize = from;
    while i < n && '0' <= cs[i] && cs[i] <= '9'
        invariant
            from <= i <= n,
            n == cs@.len(),
            digit_run_end(cs@, from as int) == digit_run_end(cs@, i as int),
        decreases n - i,
    {
        i = i + 1;
    }
    i
}

/// Attempts to read one citation command named `name` at backslash position
/// `i`; reports the position after the closing brace and the key's span.
pub(crate) fn try_match_cmd(cs: &Vec<char>, i: usize, name: &str) -> (r: Option<
    (usize, usize, usize),
>)
    requires
        i < cs@.len(),
    ensures
        match r {
            Option::Some((end, ks, ke)) => {
                &&& match_cmd(cs@, i as int, name@) == Some(
                    (end as int, cs@.subrange(ks as int, ke as int)),
                )
                &&& i < end <= cs@.len()
                &&& i < ks <= ke < cs@.len()
            },
            Option::None => match_cmd(cs@, i as int, name@) is None,
        },
{
    let n = cs.len();
    if !starts_with_lit(cs, i + 1, name) {
        return None;
    }
    let pl = name.unicode_len();
    assert(i + 1 + pl <= n);
    let j1 = skip_bracket_exec(cs, i + 1 + pl);
    let j2 = skip_bracket_exec(cs, j1);
    if j2 < cs.len() && cs[j2] == '{' {
        match find_close_exec(cs, j2 + 1) {
            Some(e) => Some((e + 1, j2 + 1, e)),
            None => None,
        }
    } else {
        None
    }
}

/// Attempts to read a citation command at `i`, trying the command names in
/// the grammar's order.
pub(crate) fn try_cite_match(cs: &Vec<char>, i: usize) -> (r: Option<(usize, usize, usize)>)
    requires
        i < cs@.len(),
    ensures
        match r {
            Option::Some((end, ks, ke)) => {
                &&& cite_match_at(cs@, i as int) == Some(
                    (end as int, cs@.subrange(ks as int, ke as int)),
                )
                &&& cite_step(cs@, i as int) == end as int
                &&& i < end <= cs@.len()
                &&& i < ks <= ke < cs@.len()
            },
            Option::None => cite_match_at(cs@, i as int) is None,
        },
{
    if cs[i] != '\\' {
        return None;
    }
    if let Some(m) = try_match_cmd(cs, i, "cite") {
        return Some(m);
    }
    if let Some(m) = try_match_cmd(cs, i, "footcite") {
        return Some(m);
    }
    if let Some(m) = try_match_cmd(cs, i, "footcitetext") {
        return Some(m);
    }
    if let Some(m) = try_match_cmd(cs, i, "fullcite") {
        return Some(m);
    }
    if let Some(m) = try_match_cmd(cs, i, "footfullcite") {
        return Some(m);
    }
    None
}

} // verus!
