use vstd::prelude::*;

verus! {

use crate::manager::CacheManager;
use crate::strutil::all_dec_digits;
use crate::strutil::contains_seq;
use crate::strutil::dec_value;
use crate::strutil::lower_of;
use crate::strutil::parse_usize;
use crate::strutil::split_seq;
use crate::strutil::str_contains;
use crate::strutil::str_eq;
use crate::strutil::str_split;
use crate::strutil::to_lowercase_string;

pub open spec fn min2(a: int, b: int) -> int {
    if a < b {
        a
    } else {
        b
    }
}

/// A string that the decimal parser accepts.
pub open spec fn parses_usize(s: Seq<char>) -> bool {
    s.len() > 0 && all_dec_digits(s) && dec_value(s) <= usize::MAX
}

/// A count parameter: its decimal value when it parses, else the default.
pub open spec fn count_or(param: Option<Seq<char>>, dflt: int) -> int {
    match param {
        Some(p) => if parses_usize(p) {
            dec_value(p)
        } else {
            dflt
        },
        None => dflt,
    }
}

/// The window of lines from `start` for `end - start` lines, clipped to
/// the available range.
pub open spec fn slice_range(lines: Seq<Seq<char>>, start: int, end: int) -> Seq<Seq<char>> {
    let s = min2(start, lines.len() as int);
    let cnt = if end >= start {
        end - start
    } else {
        0
    };
    let c = min2(cnt, lines.len() as int - s);
    lines.subrange(s, s + c)
}

/// A line matches the grep pattern; a fully lowercase pattern matches
/// case-insensitively.
pub open spec fn grep_matches(line: Seq<char>, pattern: Seq<char>) -> bool {
    if lower_of(pattern) == pattern {
        contains_seq(lower_of(line), pattern)
    } else {
        contains_seq(line, pattern)
    }
}

pub open spec fn grep_select(lines: Seq<Seq<char>>, pattern: Seq<char>) -> Seq<Seq<char>>
    decreases lines.len(),
{
    if lines.len() == 0 {
        Seq::empty()
    } else {
        (if grep_matches(lines[0], pattern) {
            seq![lines[0]]
        } else {
            Seq::empty()
        }) + grep_select(lines.drop_first(), pattern)
    }
}

/// A line that reports an error.
pub open spec fn is_error_line(line: Seq<char>) -> bool {
    contains_seq(line, "error["@) || contains_seq(line, "error:"@)
}

/// A line that reports a warning.
pub open spec fn is_warning_line(line: Seq<char>) -> bool {
    contains_seq(line, "warning:"@)
}

pub open spec fn error_select(lines: Seq<Seq<char>>) -> Seq<Seq<char>>
    decreases lines.len(),
{
    if lines.len() == 0 {
        Seq::empty()
    } else {
        (if is_error_line(lines[0]) {
            seq![lines[0]]
        } else {
            Seq::empty()
        }) + error_select(lines.drop_first())
    }
}

pub open spec fn warning_select(lines: Seq<Seq<char>>) -> Seq<Seq<char>>
    decreases lines.len(),
{
    if lines.len() == 0 {
        Seq::empty()
    } else {
        (if is_warning_line(lines[0]) {
            seq![lines[0]]
        } else {
            Seq::empty()
        }) + warning_select(lines.drop_first())
    }
}

/// What each query mode selects from a stored log: a head or tail window,
/// a numbered range, the grep matches, the error or warning lines, or the
/// whole log; an unknown mode selects nothing.
pub open spec fn selected_lines(
    mode: Seq<char>,
    param: Option<Seq<char>>,
    lines: Seq<Seq<char>>,
) -> Seq<Seq<char>> {
    if mode == "head"@ {
        lines.take(min2(count_or(param, 50), lines.len() as int))
    } else if mode == "tail"@ {
        lines.skip(lines.len() as int - min2(count_or(param, 50), lines.len() as int))
    } else if mode == "grep"@ {
        grep_select(
            lines,
            match param {
                Some(p) => p,
                None => Seq::empty(),
            },
        )
    } else if mode == "range"@ {
        range_selection(
            lines,
            match param {
                Some(p) => p,
                None => "0-10"@,
            },
        )
    } else if mode == "errors"@ || mode == "error"@ {
        error_select(lines)
    } else if mode == "warnings"@ || mode == "warning"@ {
        warning_select(lines)
    } else if mode == "all"@ {
        lines
    } else {
        Seq::empty()
    }
}

/// The range mode's selection for a given parameter: the window between
/// the two numbers around the separator, with defaults of zero and the
/// line count.
pub open spec fn range_selection(lines: Seq<Seq<char>>, p: Seq<char>) -> Seq<Seq<char>> {
    let parts = split_seq(p, seq!['-', ':']);
    if parts.len() == 2 {
        let start = if parses_usize(parts[0]) {
            dec_value(parts[0])
        } else {
            0
        };
        let end = if parses_usize(parts[1]) {
            dec_value(parts[1])
        } else {
            lines.len() as int
        };
        slice_range(lines, start, end)
    } else {
        Seq::empty()
    }
}

impl CacheManager {
    /// Selects the queried lines from a stored log, by mode.
    pub fn select_log_lines(&self, mode: &str, param: Option<&str>, lines: &Vec<String>) -> (r: Vec<
        String,
    >)
        ensures
            r.deep_view() == selected_lines(mode@, param.deep_view(), lines.deep_view()),
    {
        let ghost lv = lines.deep_view();
        if str_eq(mode, "head") {
            let n = count_param(param, 50);
            let m = if n < lines.len() {
                n
            } else {
                lines.len()
            };
            let r = clone_range(lines, 0, m);
            proof {
                assert(lv.subrange(0, m as int) =~= lv.take(min2(
                    count_or(param.deep_view(), 50),
                    lv.len() as int,
                )));
            }
            r
        } else if str_eq(mode, "tail") {
            let n = count_param(param, 50);
            let m = if n < lines.len() {
                n
            } else {
                lines.len()
            };
            let r = clone_range(lines, lines.len() - m, lines.len());
            proof {
                assert(lv.subrange(lv.len() - m as int, lv.len() as int) =~= lv.skip(
                    lv.len() as int - min2(count_or(param.deep_view(), 50), lv.len() as int),
                ));
            }
            r
        } else if str_eq(mode, "grep") {
            let pattern = match param {
                Some(p) => p,
                None => "",
            };
            proof {
                reveal_strlit("");
                assert(""@ =~= Seq::<char>::empty());
            }
            self.grep_log_lines(lines, pattern)
        } else if str_eq(mode, "range") {
            let p = match param {
                Some(p) => p,
                None => "0-10",
            };
            self.range_log_lines(lines, p)
        } else if str_eq(mode, "errors") || str_eq(mode, "error") {
            self.error_log_lines(lines)
        } else if str_eq(mode, "warnings") || str_eq(mode, "warning") {
            self.warning_log_lines(lines)
        } else if str_eq(mode, "all") {
            let r = clone_range(lines, 0, lines.len());
            proof {
                assert(lv.subrange(0, lv.len() as int) =~= lv);
            }
            r
        } else {
            let r: Vec<String> = Vec::new();
            proof {
                assert(r.deep_view() =~= Seq::<Seq<char>>::empty());
            }
            r
        }
    }

    fn grep_log_lines(&self, lines: &Vec<String>, pattern: &str) -> (r: Vec<String>)
        ensures
            r.deep_view() == grep_select(lines.deep_view(), pattern@),
    {
        let ghost lv = lines.deep_view();
        let lowered = to_lowercase_string(pattern);
        let case_insensitive = str_eq(lowered.as_str(), pattern);
        let mut out: Vec<String> = Vec::new();
        let mut k: usize = 0;
        proof {
            assert(lv.skip(0) =~= lv);
            assert(out.deep_view() + grep_select(lv, pattern@) =~= grep_select(lv, pattern@));
        }
        while k < lines.len()
            invariant
                lv == lines.deep_view(),
                lv.len() == lines@.len(),
                k <= lines@.len(),
                case_insensitive == (lower_of(pattern@) == pattern@),
                grep_select(lv, pattern@) == out.deep_view() + grep_select(
                    lv.skip(k as int),
                    pattern@,
                ),
            decreases lines@.len() - k,
        {
            let ghost tail = lv.skip(k as int);
            let ghost prev = out.deep_view();
            proof {
                assert(tail.len() > 0);
                assert(tail[0] == lv[k as int]);
                assert(tail.drop_first() =~= lv.skip(k as int + 1));
                assert(lv[k as int] == lines@[k as int]@);
            }
            let hit = if case_insensitive {
                let low = to_lowercase_string(lines[k].as_str());
                str_contains(low.as_str(), pattern)
            } else {
                str_contains(lines[k].as_str(), pattern)
            };
            if hit {
                out.push(lines[k].clone());
                proof {
                    assert(out.deep_view() =~= prev.push(lv[k as int]));
                    assert(prev.push(lv[k as int]) + grep_select(lv.skip(k as int + 1), pattern@)
                        =~= prev + (seq![lv[k as int]] + grep_select(
                        lv.skip(k as int + 1),
                        pattern@,
                    )));
                }
            }
            k = k + 1;
        }
        proof {
            assert(lv.skip(lv.len() as int).len() == 0);
            assert(out.deep_view() + Seq::<Seq<char>>::empty() =~= out.deep_view());
        }
        out
    }

    fn error_log_lines(&self, lines: &Vec<String>) -> (r: Vec<String>)
        ensures
            r.deep_view() == error_select(lines.deep_view()),
    {
        let ghost lv = lines.deep_view();
        let mut out: Vec<String> = Vec::new();
        let mut k: usize = 0;
        proof {
            assert(lv.skip(0) =~= lv);
            assert(out.deep_view() + error_select(lv) =~= error_select(lv));
        }
        while k < lines.len()
            invariant
                lv == lines.deep_view(),
                lv.len() == lines@.len(),
                k <= lines@.len(),
                error_select(lv) == out.deep_view() + error_select(lv.skip(k as int)),
            decreases lines@.len() - k,
        {
            let ghost tail = lv.skip(k as int);
            let ghost prev = out.deep_view();
            proof {
                assert(tail.len() > 0);
                assert(tail[0] == lv[k as int]);
                assert(tail.drop_first() =~= lv.skip(k as int + 1));
                assert(lv[k as int] == lines@[k as int]@);
            }
            if str_contains(lines[k].as_str(), "error[") || str_contains(
                lines[k].as_str(),
                "error:",
            ) {
                out.push(lines[k].clone());
                proof {
                    assert(out.deep_view() =~= prev.push(lv[k as int]));
                    assert(prev.push(lv[k as int]) + error_select(lv.skip(k as int + 1)) =~= prev
                        + (seq![lv[k as int]] + error_select(lv.skip(k as int + 1))));
                }
            }
            k = k + 1;
        }
        proof {
            assert(lv.skip(lv.len() as int).len() == 0);
            assert(out.deep_view() + Seq::<Seq<char>>::empty() =~= out.deep_view());
        }
        out
    }

    fn warning_log_lines(&self, lines: &Vec<String>) -> (r: Vec<String>)
        ensures
            r.deep_view() == warning_select(lines.deep_view()),
    {
        let ghost lv = lines.deep_view();
        let mut out: Vec<String> = Vec::new();
        let mut k: usize = 0;
        proof {
            assert(lv.skip(0) =~= lv);
            assert(out.deep_view() + warning_select(lv) =~= warning_select(lv));
        }
        while k < lines.len()
            invariant
                lv == lines.deep_view(),
                lv.len() == lines@.len(),
                k <= lines@.len(),
                warning_select(lv) == out.deep_view() + warning_select(lv.skip(k as int)),
            decreases lines@.len() - k,
        {
            let ghost tail = lv.skip(k as int);
            let ghost prev = out.deep_view();
            proof {
                assert(tail.len() > 0);
                assert(tail[0] == lv[k as int]);
                assert(tail.drop_first() =~= lv.skip(k as int + 1));
                assert(lv[k as int] == lines@[k as int]@);
            }
            if str_contains(lines[k].as_str(), "warning:") {
                out.push(lines[k].clone());
                proof {
                    assert(out.deep_view() =~= prev.push(lv[k as int]));
                    assert(prev.push(lv[k as int]) + warning_select(lv.skip(k as int + 1)) =~= prev
                        + (seq![lv[k as int]] + warning_select(lv.skip(k as int + 1))));
                }
            }
            k = k + 1;
        }
        proof {
            assert(lv.skip(lv.len() as int).len() == 0);
            assert(out.deep_view() + Seq::<Seq<char>>::empty() =~= out.deep_view());
        }
        out
    }

    fn range_log_lines(&self, lines: &Vec<String>, p: &str) -> (r: Vec<String>)
        ensures
            r.deep_view() == range_selection(lines.deep_view(), p@),
    {
        let ghost lv = lines.deep_view();
        let mut seps: Vec<char> = Vec::new();
        seps.push('-');
        seps.push(':');
        proof {
            assert(seps@ =~= seq!['-', ':']);
        }
        let parts = str_split(p, &seps);
        if parts.len() != 2 {
            let r: Vec<String> = Vec::new();
            proof {
                assert(parts.deep_view().len() == parts@.len());
                assert(r.deep_view() =~= Seq::<Seq<char>>::empty());
            }
            return r;
        }
        proof {
            assert(parts.deep_view().len() == parts@.len());
            assert(parts.deep_view()[0] == parts@[0]@);
            assert(parts.deep_view()[1] == parts@[1]@);
        }
        let start = match parse_usize(parts[0].as_str()) {
            Some(v) => v,
            None => 0,
        };
        let end = match parse_usize(parts[1].as_str()) {
            Some(v) => v,
            None => lines.len(),
        };
        let s = if start < lines.len() {
            start
        } else {
            lines.len()
        };
        let cnt = if end >= start {
            end - start
        } else {
            0
        };
        let c = if cnt < lines.len() - s {
            cnt
        } else {
            lines.len() - s
        };
        let r = clone_range(lines, s, s + c);
        proof {
            assert(lv.subrange(s as int, s as int + c as int) =~= range_selection(lv, p@));
        }
        r
    }

    /// The log that a query reads: an explicitly named build, else the
    /// n-th most recent, else the most recent; with no stored logs at all
    /// there is nothing to read.
    pub fn choose_log_id(
        &self,
        explicit: &Option<String>,
        last: &Option<usize>,
        ids_by_recency: &Vec<String>,
    ) -> (r: Option<String>)
        ensures
            explicit is Some ==> r.deep_view() == Some(explicit->0@),
            explicit is None && last is Some ==> r.deep_view() == (if ids_by_recency@.len() == 0
                || last->0 == 0 {
                None::<Seq<char>>
            } else {
                Some(
                    ids_by_recency.deep_view()[min2(
                        last->0 as int,
                        ids_by_recency@.len() as int,
                    ) - 1],
                )
            }),
            explicit is None && last is None ==> r.deep_view() == (if ids_by_recency@.len() == 0 {
                None::<Seq<char>>
            } else {
                Some(ids_by_recency.deep_view()[0])
            }),
    {
        match explicit {
            Some(id) => Some(id.clone()),
            None => {
                match last {
                    Some(n) => {
                        if ids_by_recency.len() == 0 || *n == 0 {
                            None
                        } else {
                            let idx = if *n < ids_by_recency.len() {
                                *n
                            } else {
                                ids_by_recency.len()
                            };
                            proof {
                                assert(ids_by_recency.deep_view()[idx - 1] == ids_by_recency@[idx
                                    - 1]@);
                            }
                            Some(ids_by_recency[idx - 1].clone())
                        }
                    },
                    None => {
                        if ids_by_recency.len() == 0 {
                            None
                        } else {
                            proof {
                                assert(ids_by_recency.deep_view()[0] == ids_by_recency@[0]@);
                            }
                            Some(ids_by_recency[0].clone())
                        }
                    },
                }
            },
        }
    }
}

/// A count parameter's value: its parsed value, else the default.
fn count_param(param: Option<&str>, dflt: usize) -> (r: usize)
    ensures
        r == count_or(param.deep_view(), dflt as int),
{
    match param {
        Some(p) => match parse_usize(p) {
            Some(v) => v,
            None => dflt,
        },
        None => dflt,
    }
}

/// Clones the lines of a half-open index range.
fn clone_range(lines: &Vec<String>, a: usize, b: usize) -> (r: Vec<String>)
    requires
        a <= b <= lines@.len(),
    ensures
        r.deep_view() == lines.deep_view().subrange(a as int, b as int),
{
    let mut out: Vec<String> = Vec::new();
    let mut k: usize = a;
    proof {
        assert(out.deep_view() =~= lines.deep_view().subrange(a as int, a as int));
    }
    while k < b
        invariant
            a <= k <= b <= lines@.len(),
            lines.deep_view().len() == lines@.len(),
            out.deep_view() =~= lines.deep_view().subrange(a as int, k as int),
        decreases b - k,
    {
        let ghost prev = out.deep_view();
        out.push(lines[k].clone());
        proof {
            assert(lines.deep_view()[k as int] == lines@[k as int]@);
            assert(out.deep_view() =~= prev.push(lines.deep_view()[k as int]));
            assert(out.deep_view() =~= lines.deep_view().subrange(a as int, k as int + 1));
        }
        k = k + 1;
    }
    out
}

} // verus!
