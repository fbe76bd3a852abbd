//! Shortening a path string for display: when the whole path does not fit
//! a character budget, keep as many trailing segments as fit and mark the
//! cut with an ellipsis, so the most identifying part — the file name and
//! its nearest ancestors — survives.

use vstd::prelude::*;
use vstd::string::StrSliceExecFns;
use vstd::string::StringExecFns;

verus! {

/// The path separator the display logic splits on.
pub open spec fn path_separator() -> char {
    '/'
}

/// The marker put where leading segments were cut away.
pub open spec fn ellipsis() -> Seq<char> {
    seq!['.', '.', '.']
}

/// `s` split at every separator: one piece per run between separators,
/// empty pieces included, as `str::split` yields them.
pub open spec fn split_spec(s: Seq<char>) -> Seq<Seq<char>>
    decreases s.len(),
{
    if s.len() == 0 {
        seq![Seq::<char>::empty()]
    } else if s[0] == path_separator() {
        seq![Seq::<char>::empty()] + split_spec(s.skip(1))
    } else {
        let rest = split_spec(s.skip(1));
        seq![seq![s[0]] + rest[0]] + rest.skip(1)
    }
}

proof fn lemma_split_no_sep(t: Seq<char>)
    requires
        forall|m: int| 0 <= m < t.len() ==> t[m] != path_separator(),
    ensures
        split_spec(t) == seq![t],
    decreases t.len(),
{
    if t.len() == 0 {
        assert(t =~= Seq::<char>::empty());
        assert(split_spec(t) =~= seq![t]);
    } else {
        lemma_split_no_sep(t.skip(1));
        let rest = split_spec(t.skip(1));
        assert(rest[0] == t.skip(1));
        assert(seq![t[0]] + t.skip(1) =~= t);
        assert(rest.skip(1) =~= Seq::<Seq<char>>::empty());
        assert(split_spec(t) =~= seq![t]);
    }
}

proof fn lemma_split_head(t: Seq<char>, j: int)
    requires
        0 <= j < t.len(),
        t[j] == path_separator(),
        forall|m: int| 0 <= m < j ==> t[m] != path_separator(),
    ensures
        split_spec(t) == seq![t.take(j)] + split_spec(t.skip(j + 1)),
    decreases j,
{
    if j == 0 {
        assert(t.take(0) =~= Seq::<char>::empty());
        assert(split_spec(t) =~= seq![t.take(j)] + split_spec(t.skip(j + 1)));
    } else {
        lemma_split_head(t.skip(1), j - 1);
        let rest = split_spec(t.skip(1));
        assert(t.skip(1).skip(j - 1 + 1) =~= t.skip(j + 1));
        assert(rest == seq![t.skip(1).take(j - 1)] + split_spec(t.skip(j + 1)));
        assert(rest[0] == t.skip(1).take(j - 1));
        assert(seq![t[0]] + t.skip(1).take(j - 1) =~= t.take(j));
        assert(rest.skip(1) =~= split_spec(t.skip(j + 1)));
        assert(split_spec(t) =~= seq![t.take(j)] + split_spec(t.skip(j + 1)));
    }
}

/// Splits `s` at every separator character.
fn split_on_separator(s: &str) -> (parts: Vec<&str>)
    ensures
        parts.deep_view() == split_spec(s@),
{
    let n = s.unicode_len();
    let mut parts: Vec<&str> = Vec::new();
    let mut start: usize = 0;
    let mut i: usize = 0;
    proof {
        assert(s@.skip(0) =~= s@);
        assert(parts.deep_view() =~= Seq::<Seq<char>>::empty());
        assert(parts.deep_view() + split_spec(s@.skip(0)) =~= split_spec(s@));
    }
    while i < n
        invariant
            start <= i <= n == s@.len(),
            forall|m: int| start <= m < i ==> s@[m] != path_separator(),
            parts.deep_view() + split_spec(s@.skip(start as int)) == split_spec(s@),
        decreases n - i,
    {
        if s.get_char(i) == '/' {
            let piece = s.substring_char(start, i);
            let ghost prev = parts.deep_view();
            parts.push(piece);
            proof {
                assert(parts.deep_view() =~= prev.push(piece@));
                lemma_split_head(s@.skip(start as int), i - start);
                assert(s@.skip(start as int).take(i - start) =~= s@.subrange(
                    start as int,
                    i as int,
                ));
                assert(s@.skip(start as int).skip(i - start + 1) =~= s@.skip(i + 1));
                assert(prev.push(piece@) + split_spec(s@.skip(i + 1)) =~= prev + split_spec(
                    s@.skip(start as int),
                ));
            }
            start = i + 1;
        }
        i = i + 1;
    }
    let piece = s.substring_char(start, n);
    let ghost prev = parts.deep_view();
    parts.push(piece);
    proof {
        assert(parts.deep_view() =~= prev.push(piece@));
        lemma_split_no_sep(s@.skip(start as int));
        assert(piece@ =~= s@.skip(start as int));
        assert(prev.push(piece@) =~= prev + split_spec(s@.skip(start as int)));
    }
    parts
}

/// The display form built from the trailing path segments: working from the
/// last segment towards the first, a segment is taken while the text built
/// so far, a separator where one is needed, and the segment still fit the
/// budget; at the first segment that does not fit, what was built is
/// returned behind an ellipsis and a separator — or, when not even the last
/// segment fits, that segment cut down to the budget less the ellipsis.
pub open spec fn shorten_rec(parts: Seq<Seq<char>>, max_len: int, acc: Seq<char>) -> Seq<char>
    decreases parts.len(),
{
    if parts.len() == 0 {
        acc
    } else {
        let part = parts.last();
        let sep_len: int = if acc.len() > 0 {
            1
        } else {
            0
        };
        if acc.len() + part.len() + sep_len > max_len {
            if acc.len() == 0 {
                let avail: int = if max_len >= 3 {
                    max_len - 3
                } else {
                    0
                };
                ellipsis() + seq![path_separator()] + part.take(
                    if part.len() <= avail {
                        part.len() as int
                    } else {
                        avail
                    },
                )
            } else {
                ellipsis() + seq![path_separator()] + acc
            }
        } else {
            shorten_rec(
                parts.drop_last(),
                max_len,
                if acc.len() > 0 {
                    part + seq![path_separator()] + acc
                } else {
                    part
                },
            )
        }
    }
}

/// What `shorten_path` returns for `s` under the budget `max_len`.
pub open spec fn shorten_spec(s: Seq<char>, max_len: int) -> Seq<char> {
    shorten_rec(split_spec(s), max_len, Seq::empty())
}

/// Shortens a path string to roughly `max_len` characters for display,
/// dropping leading segments first and marking the cut with `...`.
pub fn shorten_path(path: &str, max_len: usize) -> (r: String)
    ensures
        r@ == shorten_spec(path@, max_len as int),
{
    let parts: Vec<&str> = split_on_separator(path);
    let mut result = String::new();
    let mut k: usize = parts.len();
    proof {
        assert(parts.deep_view().take(k as int) =~= parts.deep_view());
    }
    while k > 0
        invariant
            k <= parts@.len(),
            parts.deep_view() == split_spec(path@),
            shorten_rec(parts.deep_view().take(k as int), max_len as int, result@)
                == shorten_spec(path@, max_len as int),
        decreases k,
    {
        let ghost taken = parts.deep_view().take(k as int);
        proof {
            assert(taken.last() == parts.deep_view()[k - 1]);
            assert(taken.drop_last() =~= parts.deep_view().take(k - 1));
        }
        let part: &str = parts[k - 1];
        let cur = result.as_str().unicode_len();
        let plen = part.unicode_len();
        let sep_len: u128 = if cur > 0 {
            1
        } else {
            0
        };
        if (cur as u128) + (plen as u128) + sep_len > (max_len as u128) {
            if cur == 0 {
                let avail: usize = if max_len >= 3 {
                    max_len - 3
                } else {
                    0
                };
                let take_n: usize = if plen <= avail {
                    plen
                } else {
                    avail
                };
                let truncated = part.substring_char(0, take_n);
                let mut out = String::from_str("...");
                out.append("/");
                out.append(truncated);
                proof {
                    reveal_strlit("...");
                    reveal_strlit("/");
                    assert(out@ =~= ellipsis() + seq![path_separator()] + truncated@);
                }
                return out;
            } else {
                let mut out = String::from_str("...");
                out.append("/");
                out.append(result.as_str());
                proof {
                    reveal_strlit("...");
                    reveal_strlit("/");
                    assert(out@ =~= ellipsis() + seq![path_separator()] + result@);
                }
                return out;
            }
        }
        if cur > 0 {
            let mut joined = String::from_str(part);
            joined.append("/");
            joined.append(result.as_str());
            proof {
                reveal_strlit("/");
                assert(joined@ =~= part@ + seq![path_separator()] + result@);
            }
            result = joined;
        } else {
            result = String::from_str(part);
        }
        k = k - 1;
    }
    proof {
        assert(parts.deep_view().take(0) =~= Seq::<Seq<char>>::empty());
    }
    result
}

} // verus!
