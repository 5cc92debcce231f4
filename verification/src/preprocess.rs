//! Preprocessing applied to LaTeX input before the external converter runs:
//! citation commands are replaced by positional placeholder tokens that
//! survive conversion (their keys recorded in order of occurrence), and the
//! deprecated `\endnote` command is rewritten to its supported synonym.

use vstd::prelude::*;

verus! {

use crate::citations::{
    latex_preprocess_spec,
    placeholder,
    replace_cites_from,
    replace_endnotes_from,
    try_cite_match,
};
use crate::text::{append_dec, chars_of, string_views};

/// Replaces every citation command by its placeholder token and records the
/// keys in order of occurrence.
fn scan_citations(input: &str) -> (r: (String, Vec<String>))
    ensures
        r.0@ == replace_cites_from(input@, 0, Seq::empty(), Seq::empty()).0,
        string_views(r.1@) == replace_cites_from(input@, 0, Seq::empty(), Seq::empty()).1,
{
    let cs = chars_of(input);
    let n = cs.len();
    let ghost s = input@;
    let ghost goal = replace_cites_from(s, 0, Seq::empty(), Seq::empty());
    let mut out = String::new();
    let mut marks: Vec<String> = Vec::new();
    let mut start: usize = 0;
    let mut i: usize = 0;
    proof {
        assert(out@ + s.subrange(0, 0) =~= Seq::<char>::empty());
        assert(string_views(marks@) =~= Seq::<Seq<char>>::empty());
    }
    while i < n
        invariant
            cs@ == s,
            s == input@,
            n == s.len(),
            start <= i <= n,
            replace_cites_from(s, i as int, out@ + s.subrange(start as int, i as int), string_views(marks@)) == goal,
            goal == replace_cites_from(s, 0, Seq::empty(), Seq::empty()),
        decreases n - i,
    {
        let ghost acc = out@ + s.subrange(start as int, i as int);
        let ghost mviews = string_views(marks@);
        match try_cite_match(&cs, i) {
            Some((end, ks, ke)) => {
                let piece = input.substring_char(start, i);
                out.append(piece);
                out.append("vb-cite-");
                let idx = marks.len() as u64;
                append_dec(&mut out, idx);
                let key_slice = input.substring_char(ks, ke);
                let key = key_slice.to_owned();
                marks.push(key);
                proof {
                    assert(string_views(marks@) =~= mviews.push(s.subrange(ks as int, ke as int)));
                    assert(idx as nat == mviews.len());
                    assert(out@ =~= acc + placeholder(mviews.len()));
                    assert(replace_cites_from(s, i as int, acc, mviews) == replace_cites_from(
                        s,
                        end as int,
                        acc + placeholder(mviews.len()),
                        mviews.push(s.subrange(ks as int, ke as int)),
                    ));
                    assert(s.subrange(end as int, end as int) =~= Seq::<char>::empty());
                    assert(out@ + s.subrange(end as int, end as int) =~= out@);
                }
                start = end;
                i = end;
            },
            None => {
                proof {
                    assert(replace_cites_from(s, i as int, acc, mviews) == replace_cites_from(
                        s,
                        i + 1,
                        acc.push(s[i as int]),
                        mviews,
                    ));
                    assert(out@ + s.subrange(start as int, i + 1) =~= acc.push(s[i as int]));
                }
                i = i + 1;
            },
        }
    }
    let piece = input.substring_char(start, n);
    out.append(piece);
    proof {
        assert(replace_cites_from(s, n as int, out@, string_views(marks@)) == (
            out@,
            string_views(marks@),
        ));
    }
    (out, marks)
}

/// Rewrites every `\endnote` to `\footnote`.
fn rewrite_endnotes(input: &str) -> (r: String)
    ensures
        r@ == replace_endnotes_from(input@, 0, Seq::empty()),
{
    let cs = chars_of(input);
    let n = cs.len();
    let ghost s = input@;
    let ghost goal = replace_endnotes_from(s, 0, Seq::empty());
    let mut out = String::new();
    let mut start: usize = 0;
    let mut i: usize = 0;
    proof {
        reveal_strlit("\\endnote");
        reveal_strlit("\\footnote");
        assert(out@ + s.subrange(0, 0) =~= Seq::<char>::empty());
    }
    while i < n
        invariant
            cs@ == s,
            s == input@,
            n == s.len(),
            start <= i <= n,
            replace_endnotes_from(s, i as int, out@ + s.subrange(start as int, i as int)) == goal,
            goal == replace_endnotes_from(s, 0, Seq::empty()),
        decreases n - i,
    {
        let ghost acc = out@ + s.subrange(start as int, i as int);
        if crate::citations::starts_with_lit(&cs, i, "\\endnote") {
            proof {
                reveal_strlit("\\endnote");
                reveal_strlit("\\footnote");
                assert("\\endnote"@.len() == 8);
            }
            let piece = input.substring_char(start, i);
            out.append(piece);
            out.append("\\footnote");
            proof {
                assert(replace_endnotes_from(s, i as int, acc) == replace_endnotes_from(
                    s,
                    i + 8,
                    acc + "\\footnote"@,
                ));
                assert(out@ =~= acc + "\\footnote"@);
                assert(s.subrange(i + 8, i + 8) =~= Seq::<char>::empty());
                assert(out@ + s.subrange(i + 8, i + 8) =~= out@);
            }
            start = i + 8;
            i = i + 8;
        } else {
            proof {
                reveal_strlit("\\endnote");
                assert(replace_endnotes_from(s, i as int, acc) == replace_endnotes_from(
                    s,
                    i + 1,
                    acc.push(s[i as int]),
                ));
                assert(out@ + s.subrange(start as int, i + 1) =~= acc.push(s[i as int]));
            }
            i = i + 1;
        }
    }
    let piece = input.substring_char(start, n);
    out.append(piece);
    proof {
        assert(replace_endnotes_from(s, n as int, out@) == out@);
    }
    out
}

/// Preprocessing for LaTeX input: finds all citation commands and replaces
/// them with placeholder tokens that survive the converter, recording each
/// key by occurrence index, and replaces endnotes with footnotes, which the
/// converter supports.
pub fn latex(input: String) -> (r: (String, Vec<String>))
    ensures
        r.0@ == latex_preprocess_spec(input@).0,
        string_views(r.1@) == latex_preprocess_spec(input@).1,
{
    let (scanned, marks) = scan_citations(input.as_str());
    let rewritten = rewrite_endnotes(scanned.as_str());
    (rewritten, marks)
}

} // verus!
