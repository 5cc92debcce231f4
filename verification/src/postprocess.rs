//! Postprocessing applied to the converter's output for LaTeX input: every
//! placeholder token left by preprocessing is rewritten into a typed citation
//! element carrying the originally captured key.

use vstd::prelude::*;

verus! {

use crate::citations::{
    citation_elem,
    digit_run_end,
    digit_run_exec,
    key_for,
    latex_postprocess_spec,
    restore_cites_from,
    starts_with_lit,
};
use crate::text::{chars_of, parse_dec, string_views};

/// Postprocessing for LaTeX imports: replaces every placeholder token with a
/// citation element carrying the key recorded under the token's index (an
/// out-of-range index yields an empty key; an index past machine range is
/// marked invalid in place).
pub fn latex(input: String, marks: Vec<String>) -> (r: String)
    ensures
        r@ == latex_postprocess_spec(input@, string_views(marks@)),
{
    let cs = chars_of(input.as_str());
    let n = cs.len();
    let ghost s = input@;
    let ghost mviews = string_views(marks@);
    let ghost goal = restore_cites_from(s, mviews, 0, Seq::empty());
    let mut out = String::new();
    let mut start: usize = 0;
    let mut i: usize = 0;
    proof {
        reveal_strlit("vb-cite-");
        assert(out@ + s.subrange(0, 0) =~= Seq::<char>::empty());
    }
    while i < n
        invariant
            cs@ == s,
            s == input@,
            n == s.len(),
            mviews == string_views(marks@),
            start <= i <= n,
            restore_cites_from(s, mviews, i as int, out@ + s.subrange(start as int, i as int))
                == goal,
            goal == restore_cites_from(s, mviews, 0, Seq::empty()),
        decreases n - i,
    {
        let ghost acc = out@ + s.subrange(start as int, i as int);
        let mut matched = false;
        if starts_with_lit(&cs, i, "vb-cite-") {
            proof {
                reveal_strlit("vb-cite-");
                assert("vb-cite-"@.len() == 8);
            }
            let de = digit_run_exec(&cs, i + 8);
            if de > i + 8 {
                matched = true;
                let piece = input.as_str().substring_char(start, i);
                out.append(piece);
                match parse_dec(&cs, i + 8, de) {
                    Some(num) => {
                        out.append("<citation data-key=\"");
                        if num < marks.len() as u64 {
                            let k = num as usize;
                            out.append(marks[k].as_str());
                            proof {
                                assert(mviews[num as int] == marks@[num as int]@);
                            }
                        }
                        out.append("\">C</citation>");
                        proof {
                            assert(out@ =~= acc + citation_elem(key_for(mviews, num)));
                            assert(restore_cites_from(s, mviews, i as int, acc)
                                == restore_cites_from(s, mviews, de as int, acc + citation_elem(
                                key_for(mviews, num),
                            )));
                        }
                    },
                    None => {
                        out.append("invalid-citation!");
                        proof {
                            assert(out@ =~= acc + "invalid-citation!"@);
                            assert(restore_cites_from(s, mviews, i as int, acc)
                                == restore_cites_from(
                                s,
                                mviews,
                                de as int,
                                acc + "invalid-citation!"@,
                            ));
                        }
                    },
                }
                proof {
                    assert(s.subrange(de as int, de as int) =~= Seq::<char>::empty());
                    assert(out@ + s.subrange(de as int, de as int) =~= out@);
                }
                start = de;
                i = de;
            }
        }
        if !matched {
            proof {
                reveal_strlit("vb-cite-");
                assert(restore_cites_from(s, mviews, i as int, acc) == restore_cites_from(
                    s,
                    mviews,
                    i + 1,
                    acc.push(s[i as int]),
                ));
                assert(out@ + s.subrange(start as int, i + 1) =~= acc.push(s[i as int]));
            }
            i = i + 1;
        }
    }
    let piece = input.as_str().substring_char(start, n);
    out.append(piece);
    proof {
        assert(restore_cites_from(s, mviews, n as int, out@) == out@);
    }
    out
}

} // verus!
