//! Choosing the repository that holds the configuration.
use crate::action::str_views;
use crate::text;
use vstd::prelude::*;

verus! {

/// Whether one of the topics, lower-cased, is `topic`.
pub open spec fn has_topic(topics: Option<Seq<Seq<char>>>, topic: Seq<char>) -> bool {
    match topics {
        Some(ts) => exists|i: int| 0 <= i < ts.len() && #[trigger] text::lowercase(ts[i]) == topic,
        None => false,
    }
}

/// Whether a repository is taken for one that holds a configuration: one
/// of its topics is `hermitgrab` in lower case, or it is named `dotfiles`.
pub open spec fn is_config_repo(name: Seq<char>, topics: Option<Seq<Seq<char>>>) -> bool {
    name == "dotfiles"@ || has_topic(topics, "hermitgrab"@)
}

/// The topics as plain text.
pub open spec fn topic_views(topics: Option<Vec<String>>) -> Option<Seq<Seq<char>>> {
    match topics {
        Some(ts) => Some(str_views(ts@)),
        None => None,
    }
}

/// Whether a repository is taken for one that holds a configuration.
pub fn is_hermitgrab_repo(name: &str, topics: &Option<Vec<String>>) -> (r: bool)
    ensures
        r == is_config_repo(name@, topic_views(*topics)),
{
    match topics {
        Some(ts) => {
            let ghost tv = str_views(ts@);
            let mut i: usize = 0;
            while i < ts.len()
                invariant
                    tv == str_views(ts@),
                    topic_views(*topics) == Some(tv),
                    i <= ts.len(),
                    forall|j: int| 0 <= j < i ==> text::lowercase(#[trigger] tv[j]) != "hermitgrab"@,
                decreases ts.len() - i,
            {
                let l = text::to_lowercase(ts[i].as_str());
                assert(tv[i as int] == ts@[i as int]@);
                if text::str_eq(l.as_str(), "hermitgrab") {
                    assert(has_topic(Some(tv), "hermitgrab"@)) by {
                        let ts_view = Some(tv)->0;
                        assert(ts_view == tv);
                        assert(0 <= i < ts_view.len());
                        assert(text::lowercase(ts_view[i as int]) == "hermitgrab"@);
                    }
                    return true;
                }
                i = i + 1;
            }
        },
        None => {},
    }
    text::str_eq(name, "dotfiles")
}

/// The value of a sequence of decimal digits.
pub open spec fn digits_value(ds: Seq<char>) -> nat
    decreases ds.len(),
{
    if ds.len() == 0 {
        0
    } else {
        digits_value(ds.drop_last()) * 10 + ((ds.last() as u32) - 0x30) as nat
    }
}

/// Whether every character is an ASCII digit.
pub open spec fn all_digits(ds: Seq<char>) -> bool {
    forall|i: int| 0 <= i < ds.len() ==> 0x30 <= (#[trigger] ds[i]) as u32 <= 0x39
}

/// What `str::parse::<usize>` gives: digits after an optional `+`, at
/// least one, of a value that fits.
pub open spec fn parsed_usize(s: Seq<char>) -> Option<nat> {
    let ds = if s.len() > 0 && s[0] == '+' {
        s.drop_first()
    } else {
        s
    };
    if ds.len() > 0 && all_digits(ds) && digits_value(ds) <= usize::MAX {
        Some(digits_value(ds))
    } else {
        None
    }
}

/// A number is parsed; digits only grow it.
proof fn lemma_digits_grow(ds: Seq<char>, i: int)
    requires
        0 <= i <= ds.len(),
        all_digits(ds),
    ensures
        digits_value(ds.take(i)) <= digits_value(ds),
    decreases ds.len() - i,
{
    if i < ds.len() {
        lemma_digits_grow(ds, i + 1);
        assert(ds.take(i + 1).drop_last() =~= ds.take(i));
    } else {
        assert(ds.take(i) =~= ds);
    }
}

/// `str::parse::<usize>` (see `parsed_usize`).
pub fn parse_usize(s: &str) -> (r: Option<usize>)
    ensures
        match r {
            Some(v) => parsed_usize(s@) == Some(v as nat),
            None => parsed_usize(s@) is None,
        },
{
    let cs = text::chars_of(s);
    let start: usize = if cs.len() > 0 && cs[0] == '+' {
        1
    } else {
        0
    };
    let ghost ds = if s@.len() > 0 && s@[0] == '+' {
        s@.drop_first()
    } else {
        s@
    };
    assert(ds =~= cs@.skip(start as int));
    if start >= cs.len() {
        return None;
    }
    let mut v: usize = 0;
    let mut i: usize = start;
    while i < cs.len()
        invariant
            cs@ == s@,
            ds == (if s@.len() > 0 && s@[0] == '+' {
                s@.drop_first()
            } else {
                s@
            }),
            ds.len() > 0,
            start <= i <= cs.len(),
            ds == cs@.skip(start as int),
            all_digits(ds.take(i - start)),
            v as nat == digits_value(ds.take(i - start)),
        decreases cs.len() - i,
    {
        let c = cs[i];
        let k = i - start;
        assert(ds[k as int] == c);
        assert(ds.take(k + 1).drop_last() =~= ds.take(k as int));
        let cu = c as u32;
        if cu < 0x30 || cu > 0x39 {
            assert(!all_digits(ds)) by {
                assert(!(0x30 <= (ds[k as int] as u32) <= 0x39));
            }
            assert(parsed_usize(s@) is None);
            return None;
        }
        let d: usize = (cu - 0x30) as usize;
        assert(ds.take(k + 1).last() == c);
        assert(digits_value(ds.take(k + 1)) == digits_value(ds.take(k as int)) * 10 + d);
        match v.checked_mul(10) {
            Some(m) => match m.checked_add(d) {
                Some(n) => {
                    v = n;
                },
                None => {
                    proof {
                        if all_digits(ds) {
                            lemma_digits_grow(ds, k + 1);
                        }
                    }
                    return None;
                },
            },
            None => {
                proof {
                    if all_digits(ds) {
                        lemma_digits_grow(ds, k + 1);
                    }
                }
                return None;
            },
        }
        assert(all_digits(ds.take(k + 1)));
        i = i + 1;
    }
    assert(ds.take(cs.len() - start) =~= ds);
    Some(v)
}

/// The position (from 1) of the repository picked from `count` offered:
/// the number typed (`1` where it is no number), refused where it is `0` or
/// beyond the last.
pub fn repo_choice(input: &str, count: usize) -> (r: Option<usize>)
    ensures
        ({
            let n = match parsed_usize(text::trim(input@)) {
                Some(v) => v,
                None => 1,
            };
            match r {
                Some(i) => i == n && 1 <= n <= count,
                None => n == 0 || n > count,
            }
        }),
{
    let t = text::trim_str(input);
    let n = match parse_usize(t.as_str()) {
        Some(v) => v,
        None => 1,
    };
    if n == 0 || n > count {
        None
    } else {
        Some(n)
    }
}

} // verus!
