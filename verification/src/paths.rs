//! Relative-path model: splitting into `/`-separated segments, lexical
//! resolution of `.` and `..` segments, and the safety check that rejects
//! any path which is rooted or whose normalized form begins with `..`.

use vstd::prelude::*;
use vstd::string::StringExecFns;

verus! {

/// A path is rooted when it begins with a separator.
pub open spec fn path_rooted(p: Seq<char>) -> bool {
    p.len() > 0 && p[0] == '/'
}

/// The `/`-separated segments of a path. Splitting the empty string yields
/// one empty segment, and every separator starts a new segment, so the
/// result is never empty.
pub open spec fn split_path(p: Seq<char>) -> Seq<Seq<char>>
    decreases p.len(),
{
    if p.len() == 0 {
        seq![Seq::<char>::empty()]
    } else {
        let rest = split_path(p.skip(1));
        if p[0] == '/' {
            seq![Seq::<char>::empty()] + rest
        } else {
            seq![seq![p[0]] + rest[0]] + rest.skip(1)
        }
    }
}

/// A segment that lexical resolution drops: empty, or a single dot.
pub open spec fn seg_is_skip(s: Seq<char>) -> bool {
    s.len() == 0 || s == seq!['.']
}

/// A parent-directory segment.
pub open spec fn seg_is_up(s: Seq<char>) -> bool {
    s == seq!['.', '.']
}

/// A segment that lexical resolution keeps as a directory or file name.
pub open spec fn seg_is_normal(s: Seq<char>) -> bool {
    !seg_is_skip(s) && !seg_is_up(s)
}

/// Lexical resolution of `.` and `..`, folded over the segments from the
/// left with accumulator `acc`: a skip segment is dropped, `..` pops the
/// last accumulated segment unless that is itself a `..` (a leading `..`
/// cannot be resolved and stays), and any other segment is kept.
pub open spec fn norm_from(acc: Seq<Seq<char>>, segs: Seq<Seq<char>>) -> Seq<Seq<char>>
    decreases segs.len(),
{
    if segs.len() == 0 {
        acc
    } else {
        let s = segs[0];
        let acc2 = if seg_is_skip(s) {
            acc
        } else if seg_is_up(s) {
            if acc.len() > 0 && !seg_is_up(acc.last()) {
                acc.drop_last()
            } else {
                acc.push(s)
            }
        } else {
            acc.push(s)
        };
        norm_from(acc2, segs.skip(1))
    }
}

/// The lexically normalized segments of a path.
pub open spec fn normalize_path(p: Seq<char>) -> Seq<Seq<char>> {
    norm_from(Seq::empty(), split_path(p))
}

/// A path may be used under a root directory only if it has no root of its
/// own and its normalized form does not begin with `..` (which covers the
/// bare `..` as well).
pub open spec fn path_is_safe(p: Seq<char>) -> bool {
    &&& !path_rooted(p)
    &&& (normalize_path(p).len() == 0 || !seg_is_up(normalize_path(p)[0]))
}

/// View of joining a directory and a relative path with a separator.
pub open spec fn join_view(dir: Seq<char>, rel: Seq<char>) -> Seq<char> {
    dir + seq!['/'] + rel
}

/// A path that lies strictly below the directory: it extends `dir` past a
/// separator.
pub open spec fn under_dir(p: Seq<char>, dir: Seq<char>) -> bool {
    p.len() > dir.len() && p.subrange(0, dir.len() as int + 1) == dir + seq!['/']
}

pub broadcast proof fn lemma_join_under_dir(dir: Seq<char>, rel: Seq<char>)
    ensures
        #[trigger] under_dir(join_view(dir, rel), dir),
{
    assert(join_view(dir, rel).subrange(0, dir.len() as int + 1) =~= dir + seq!['/']);
}

/// Joins a directory and a relative path with a separator.
pub fn join_path(dir: &str, rel: &str) -> (r: String)
    ensures
        r@ == join_view(dir@, rel@),
{
    let mut s = dir.to_owned();
    s.append("/");
    s.append(rel);
    proof {
        reveal_strlit("/");
        assert("/"@ =~= seq!['/']);
        assert(s@ =~= join_view(dir@, rel@));
    }
    s
}

proof fn lemma_split_no_sep(s: Seq<char>)
    requires
        forall|j: int| 0 <= j < s.len() ==> s[j] != '/',
    ensures
        split_path(s) == seq![s],
    decreases s.len(),
{
    if s.len() == 0 {
        assert(s =~= Seq::<char>::empty());
    } else {
        lemma_split_no_sep(s.skip(1));
        assert(seq![s[0]] + s.skip(1) =~= s);
        assert(split_path(s) =~= seq![s]);
    }
}

proof fn lemma_split_at_first_sep(s: Seq<char>, k: int)
    requires
        0 <= k < s.len(),
        s[k] == '/',
        forall|j: int| 0 <= j < k ==> s[j] != '/',
    ensures
        split_path(s) == seq![s.take(k)] + split_path(s.skip(k + 1)),
    decreases k,
{
    if k == 0 {
        assert(s.take(0) =~= Seq::<char>::empty());
        assert(split_path(s) =~= seq![s.take(0)] + split_path(s.skip(1)));
    } else {
        let t = s.skip(1);
        lemma_split_at_first_sep(t, k - 1);
        assert(t.skip(k) =~= s.skip(k + 1));
        assert(seq![s[0]] + t.take(k - 1) =~= s.take(k));
        assert((seq![t.take(k - 1)] + split_path(t.skip(k))).skip(1) =~= split_path(
            s.skip(k + 1),
        ));
        assert(split_path(s) =~= seq![s.take(k)] + split_path(s.skip(k + 1)));
    }
}

/// A leading `..` in the accumulator survives the rest of the fold.
proof fn lemma_norm_leading_up(acc: Seq<Seq<char>>, segs: Seq<Seq<char>>)
    requires
        acc.len() > 0,
        seg_is_up(acc[0]),
    ensures
        norm_from(acc, segs).len() > 0,
        seg_is_up(norm_from(acc, segs)[0]),
    decreases segs.len(),
{
    if segs.len() > 0 {
        let s = segs[0];
        if seg_is_skip(s) {
            lemma_norm_leading_up(acc, segs.skip(1));
        } else if seg_is_up(s) {
            if acc.len() > 0 && !seg_is_up(acc.last()) {
                assert(acc.len() >= 2);
                assert(acc.drop_last()[0] == acc[0]);
                lemma_norm_leading_up(acc.drop_last(), segs.skip(1));
            } else {
                assert(acc.push(s)[0] == acc[0]);
                lemma_norm_leading_up(acc.push(s), segs.skip(1));
            }
        } else {
            assert(acc.push(s)[0] == acc[0]);
            lemma_norm_leading_up(acc.push(s), segs.skip(1));
        }
    }
}

/// True when the segment is empty or a single dot.
fn seg_check_skip(seg: &str) -> (r: bool)
    ensures
        r == seg_is_skip(seg@),
{
    let n = seg.unicode_len();
    if n == 0 {
        true
    } else if n == 1 && seg.get_char(0) == '.' {
        proof {
            assert(seg@ =~= seq!['.']);
        }
        true
    } else {
        proof {
            if seg@ == seq!['.'] {
                assert(seg@.len() == 1 && seg@[0] == '.');
            }
        }
        false
    }
}

/// True when the segment is exactly `..`.
fn seg_check_up(seg: &str) -> (r: bool)
    ensures
        r == seg_is_up(seg@),
{
    let n = seg.unicode_len();
    if n == 2 && seg.get_char(0) == '.' && seg.get_char(1) == '.' {
        proof {
            assert(seg@ =~= seq!['.', '.']);
        }
        true
    } else {
        proof {
            if seg@ == seq!['.', '.'] {
                assert(seg@.len() == 2 && seg@[0] == '.' && seg@[1] == '.');
            }
        }
        false
    }
}

/// Splits a path into its `/`-separated segments.
fn split_segments<'a>(p: &'a str) -> (segs: Vec<&'a str>)
    ensures
        segs@.map_values(|s: &str| s@) == split_path(p@),
{
    let n = p.unicode_len();
    let mut segs: Vec<&'a str> = Vec::new();
    let mut start: usize = 0;
    let mut i: usize = 0;
    proof {
        assert(p@.skip(0) =~= p@);
        assert(segs@.map_values(|s: &str| s@) + split_path(p@) =~= split_path(p@));
    }
    while i < n
        invariant
            n == p@.len(),
            0 <= start <= i <= n,
            forall|j: int| start <= j < i ==> p@[j] != '/',
            split_path(p@) == segs@.map_values(|s: &str| s@) + split_path(
                p@.skip(start as int),
            ),
        decreases n - i,
    {
        let c = p.get_char(i);
        if c == '/' {
            let seg = p.substring_char(start, i);
            proof {
                let suf = p@.skip(start as int);
                assert(forall|j: int|
                    0 <= j < i - start ==> suf[j] == p@[start + j] && suf[j] != '/');
                lemma_split_at_first_sep(suf, i - start);
                assert(suf.take(i - start) =~= p@.subrange(start as int, i as int));
                assert(suf.skip(i - start + 1) =~= p@.skip(i + 1));
                assert(segs@.push(seg).map_values(|s: &str| s@) =~= segs@.map_values(
                    |s: &str| s@,
                ).push(seg@));
                assert(segs@.map_values(|s: &str| s@) + (seq![seg@] + split_path(
                    p@.skip(i + 1),
                )) =~= segs@.map_values(|s: &str| s@).push(seg@) + split_path(p@.skip(i + 1)));
            }
            segs.push(seg);
            start = i + 1;
        }
        i += 1;
    }
    let seg = p.substring_char(start, n);
    proof {
        let suf = p@.skip(start as int);
        assert(forall|j: int| 0 <= j < suf.len() ==> suf[j] == p@[start + j] && suf[j] != '/');
        lemma_split_no_sep(suf);
        assert(suf =~= p@.subrange(start as int, n as int));
        assert(segs@.push(seg).map_values(|s: &str| s@) =~= segs@.map_values(
            |s: &str| s@,
        ).push(seg@));
        assert(segs@.map_values(|s: &str| s@) + seq![seg@] =~= segs@.map_values(
            |s: &str| s@,
        ).push(seg@));
    }
    segs.push(seg);
    segs
}

/// Checks that `p` is not rooted and that its lexically normalized form
/// does not begin with `..`.
pub fn check_path_safety(p: &str) -> (b: bool)
    ensures
        b == path_is_safe(p@),
{
    let n = p.unicode_len();
    if n > 0 && p.get_char(0) == '/' {
        return false;
    }
    let segs = split_segments(p);
    let ghost all = segs@.map_values(|s: &str| s@);
    let mut depth: usize = 0;
    let ghost mut acc = Seq::<Seq<char>>::empty();
    let mut k: usize = 0;
    proof {
        assert(all.skip(0) =~= all);
        assert(normalize_path(p@) == norm_from(Seq::empty(), all));
    }
    while k < segs.len()
        invariant
            0 <= k <= segs.len(),
            all == segs@.map_values(|s: &str| s@),
            normalize_path(p@) == norm_from(Seq::empty(), all),
            norm_from(Seq::empty(), all) == norm_from(acc, all.skip(k as int)),
            forall|j: int| 0 <= j < acc.len() ==> seg_is_normal(#[trigger] acc[j]),
            acc.len() == depth,
            depth <= k,
            !path_rooted(p@),
        decreases segs.len() - k,
    {
        let seg = segs[k];
        let ghost rest = all.skip(k as int);
        proof {
            assert(rest[0] == all[k as int]);
            assert(all[k as int] == seg@);
            assert(rest.skip(1) =~= all.skip(k + 1));
        }
        if seg_check_skip(seg) {
            // dropped by normalization
        } else if seg_check_up(seg) {
            if depth == 0 {
                proof {
                    assert(acc.len() == 0);
                    assert(norm_from(acc, rest) == norm_from(acc.push(seg@), rest.skip(1)));
                    lemma_norm_leading_up(acc.push(seg@), rest.skip(1));
                }
                return false;
            }
            proof {
                assert(seg_is_normal(acc.last()));
                acc = acc.drop_last();
            }
            depth = depth - 1;
        } else {
            proof {
                acc = acc.push(seg@);
            }
            depth = depth + 1;
        }
        k += 1;
    }
    proof {
        assert(all.skip(segs.len() as int) =~= Seq::<Seq<char>>::empty());
        assert(normalize_path(p@) == acc);
    }
    true
}

} // verus!
