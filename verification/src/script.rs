//! Splitting a batch script into evaluable lines.
//!
//! A script is a sequence of lines separated by line breaks. Each line is
//! trimmed of surrounding blanks; lines that are empty or hold only a
//! comment produce no value and no state change, so they are dropped
//! here, and what remains is handed line by line to the evaluator.

use vstd::prelude::*;
use vstd::string::StrSliceExecFns;

verus! {

/// Whether a character is a blank to trim at a line's edges.
pub open spec fn is_blank(c: char) -> bool {
    c == ' ' || c == '\t' || c == '\r'
}

/// The index of the line break at or after `i`, or the text's length.
pub open spec fn line_end(s: Seq<char>, i: int) -> int
    decreases s.len() - i,
{
    if 0 <= i < s.len() && s[i] != '\n' {
        line_end(s, i + 1)
    } else {
        i
    }
}

/// Bounds and contents of the scan for a line break.
pub proof fn lemma_line_end(s: Seq<char>, i: int)
    ensures
        i <= line_end(s, i),
        i <= s.len() ==> line_end(s, i) <= s.len(),
        forall|m: int| i <= m < line_end(s, i) ==> #[trigger] s[m] != '\n',
        0 <= line_end(s, i) < s.len() ==> s[line_end(s, i)] == '\n',
    decreases s.len() - i,
{
    if 0 <= i < s.len() && s[i] != '\n' {
        lemma_line_end(s, i + 1);
    }
}

/// The end of the run of blanks starting at `i`.
pub open spec fn blank_run(s: Seq<char>, i: int) -> int
    decreases s.len() - i,
{
    if 0 <= i < s.len() && is_blank(s[i]) {
        blank_run(s, i + 1)
    } else {
        i
    }
}

/// Bounds and contents of a blank run.
pub proof fn lemma_blank_run(s: Seq<char>, i: int)
    ensures
        i <= blank_run(s, i),
        i <= s.len() ==> blank_run(s, i) <= s.len(),
        forall|m: int| i <= m < blank_run(s, i) ==> is_blank(#[trigger] s[m]),
        0 <= blank_run(s, i) < s.len() ==> !is_blank(s[blank_run(s, i)]),
    decreases s.len() - i,
{
    if 0 <= i < s.len() && is_blank(s[i]) {
        lemma_blank_run(s, i + 1);
    }
}

/// The start of the run of blanks ending just before `j`.
pub open spec fn blank_run_back(s: Seq<char>, j: int) -> int
    decreases j,
{
    if 0 < j <= s.len() && is_blank(s[j - 1]) {
        blank_run_back(s, j - 1)
    } else {
        j
    }
}

/// Bounds and contents of a backward blank run.
pub proof fn lemma_blank_run_back(s: Seq<char>, j: int)
    ensures
        blank_run_back(s, j) <= j,
        j >= 0 ==> blank_run_back(s, j) >= 0,
        forall|m: int| blank_run_back(s, j) <= m < j ==> is_blank(#[trigger] s[m]),
        0 < blank_run_back(s, j) && blank_run_back(s, j) <= s.len() ==> !is_blank(
            s[blank_run_back(s, j) - 1],
        ),
    decreases j,
{
    if 0 < j <= s.len() && is_blank(s[j - 1]) {
        lemma_blank_run_back(s, j - 1);
    }
}

/// A line with its surrounding blanks removed.
pub open spec fn spec_trim(t: Seq<char>) -> Seq<char> {
    if blank_run(t, 0) >= blank_run_back(t, t.len() as int) {
        Seq::empty()
    } else {
        t.subrange(blank_run(t, 0), blank_run_back(t, t.len() as int))
    }
}

/// Whether a trimmed line is evaluated: it is non-empty and is not a
/// comment.
pub open spec fn keeps(t: Seq<char>) -> bool {
    spec_trim(t).len() > 0 && spec_trim(t)[0] != '#'
}

/// The evaluable lines of the script from position `i` on, each trimmed.
pub open spec fn spec_lines_from(s: Seq<char>, i: int) -> Seq<Seq<char>>
    decreases s.len() - i,
    via spec_lines_from_dec
{
    if i < 0 || i >= s.len() {
        Seq::empty()
    } else {
        let e = line_end(s, i);
        let t = s.subrange(i, e);
        let rest = if e + 1 < s.len() {
            spec_lines_from(s, e + 1)
        } else {
            Seq::empty()
        };
        if keeps(t) {
            seq![spec_trim(t)] + rest
        } else {
            rest
        }
    }
}

#[via_fn]
proof fn spec_lines_from_dec(s: Seq<char>, i: int) {
    lemma_line_end(s, i);
}

/// The evaluable lines of a whole script, in order, each trimmed of
/// surrounding blanks, with empty and comment-only lines dropped.
pub open spec fn spec_script_lines(s: Seq<char>) -> Seq<Seq<char>> {
    spec_lines_from(s, 0)
}

/// The views of a sequence of strings.
pub open spec fn strings_view(v: Seq<String>) -> Seq<Seq<char>> {
    Seq::new(v.len(), |i: int| v[i]@)
}

/// Splits a script into its evaluable lines.
pub fn script_lines(text: &str) -> (r: Vec<String>)
    ensures
        strings_view(r@) == spec_script_lines(text@),
{
    let n = text.unicode_len();
    let mut out: Vec<String> = Vec::new();
    let mut i: usize = 0;
    while i < n
        invariant
            i <= n,
            n == text@.len(),
            spec_script_lines(text@) == strings_view(out@) + spec_lines_from(text@, i as int),
        decreases n - i,
    {
        let ghost s = text@;
        let ghost i0 = i as int;
        // find the end of this line
        let mut e: usize = i;
        loop
            invariant
                i <= e <= n,
                s == text@,
                n == s.len(),
                i0 == i as int,
                line_end(s, i0) == line_end(s, e as int),
            ensures
                i <= e <= n,
                e as int == line_end(s, i0),
            decreases n - e,
        {
            if e >= n {
                proof {
                    assert(line_end(s, e as int) == e as int);
                }
                break ;
            }
            let c = text.get_char(e);
            if c == '\n' {
                proof {
                    assert(line_end(s, e as int) == e as int);
                }
                break ;
            }
            e = e + 1;
        }
        let ghost t = s.subrange(i0, e as int);
        // trim blanks from the front
        let mut a: usize = i;
        loop
            invariant
                i <= a <= e <= n,
                s == text@,
                n == s.len(),
                i0 == i as int,
                t == s.subrange(i0, e as int),
                blank_run(t, 0) == blank_run(t, a - i0),
                a - i0 <= t.len(),
            ensures
                i <= a <= e,
                a - i0 == blank_run(t, 0),
            decreases e - a,
        {
            if a >= e {
                proof {
                    assert(blank_run(t, a - i0) == a - i0);
                }
                break ;
            }
            let c = text.get_char(a);
            let u = c as u32;
            if u == 32 || u == 9 || u == 13 {
                proof {
                    assert(t[a - i0] == s[a as int]);
                    assert(is_blank(t[a - i0]));
                }
                a = a + 1;
            } else {
                proof {
                    assert(t[a - i0] == s[a as int]);
                    assert(!is_blank(t[a - i0]));
                    assert(blank_run(t, a - i0) == a - i0);
                }
                break ;
            }
        }
        // trim blanks from the back
        let mut b: usize = e;
        loop
            invariant
                i <= b <= e <= n,
                s == text@,
                n == s.len(),
                i0 == i as int,
                t == s.subrange(i0, e as int),
                blank_run_back(t, t.len() as int) == blank_run_back(t, b - i0),
                b - i0 >= 0,
            ensures
                i <= b <= e,
                b - i0 == blank_run_back(t, t.len() as int),
            decreases b,
        {
            if b <= i {
                proof {
                    assert(blank_run_back(t, b - i0) == b - i0);
                }
                break ;
            }
            let c = text.get_char(b - 1);
            let u = c as u32;
            if u == 32 || u == 9 || u == 13 {
                proof {
                    assert(t[b - 1 - i0] == s[b - 1]);
                    assert(is_blank(t[b - 1 - i0]));
                }
                b = b - 1;
            } else {
                proof {
                    assert(t[b - 1 - i0] == s[b - 1]);
                    assert(!is_blank(t[b - 1 - i0]));
                    assert(blank_run_back(t, b - i0) == b - i0);
                }
                break ;
            }
        }
        if a < b {
            let c0 = text.get_char(a);
            if c0 != '#' {
                let sub = text.substring_char(a, b);
                let kept = sub.to_owned();
                let ghost before = strings_view(out@);
                out.push(kept);
                proof {
                    assert(spec_trim(t) =~= s.subrange(a as int, b as int));
                    assert(spec_trim(t)[0] == s[a as int]);
                    assert(keeps(t));
                    assert(strings_view(out@) =~= before + seq![spec_trim(t)]);
                    assert((before + seq![spec_trim(t)]) + spec_lines_from(s, e as int + 1)
                        =~= before + (seq![spec_trim(t)] + spec_lines_from(s, e as int + 1)));
                }
            } else {
                proof {
                    assert(spec_trim(t) =~= s.subrange(a as int, b as int));
                    assert(spec_trim(t)[0] == s[a as int]);
                    assert(!keeps(t));
                }
            }
        } else {
            proof {
                assert(spec_trim(t) =~= Seq::<char>::empty());
                assert(!keeps(t));
            }
        }
        if e >= n {
            i = n;
            proof {
                assert(spec_lines_from(s, e as int + 1) == Seq::<Seq<char>>::empty());
                assert(spec_lines_from(s, i as int) == Seq::<Seq<char>>::empty());
            }
        } else {
            i = e + 1;
        }
    }
    proof {
        assert(spec_lines_from(text@, i as int) =~= Seq::<Seq<char>>::empty());
        assert(strings_view(out@) + Seq::<Seq<char>>::empty() =~= strings_view(out@));
    }
    out
}

} // verus!
