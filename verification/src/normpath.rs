//! Slash-separated path normalization: splitting a path into segments,
//! collapsing `.` and `..` components (clamped at the root), and joining
//! segments back into a path string.

use vstd::prelude::*;

verus! {

/// Index of the first `/` in `s`, or `s.len()` if there is none.
pub open spec fn first_slash(s: Seq<char>) -> int
    decreases s.len(),
{
    if s.len() == 0 {
        0
    } else if s[0] == '/' {
        0
    } else {
        1 + first_slash(s.skip(1))
    }
}

/// Splits `s` on `/`. Consecutive separators yield empty segments; a
/// trailing separator yields none.
pub open spec fn split_slash(s: Seq<char>) -> Seq<Seq<char>>
    decreases s.len(),
    via split_slash_decreases
{
    if s.len() == 0 {
        Seq::empty()
    } else {
        let i = first_slash(s);
        if i == s.len() {
            seq![s]
        } else {
            seq![s.take(i)] + split_slash(s.skip(i + 1))
        }
    }
}

#[via_fn]
proof fn split_slash_decreases(s: Seq<char>) {
    lemma_first_slash_bounds(s);
}

/// Splitting yields no segments exactly for the empty string.
pub proof fn lemma_split_slash_empty(s: Seq<char>)
    ensures
        (split_slash(s).len() == 0) <==> (s.len() == 0),
{
    if s.len() > 0 {
        lemma_first_slash_bounds(s);
    }
}

/// Collapses a segment sequence: empty segments and `.` are dropped, `..`
/// removes the previous remaining segment and is dropped itself when there
/// is none (the root clamps traversal).
pub open spec fn clean_segs(segs: Seq<Seq<char>>) -> Seq<Seq<char>>
    decreases segs.len(),
{
    if segs.len() == 0 {
        Seq::empty()
    } else {
        let prev = clean_segs(segs.drop_last());
        let last = segs.last();
        if last.len() == 0 || last == seq!['.'] {
            prev
        } else if last == seq!['.', '.'] {
            if prev.len() == 0 {
                prev
            } else {
                prev.drop_last()
            }
        } else {
            prev.push(last)
        }
    }
}

/// True of a segment that survives cleaning: non-empty and neither `.` nor
/// `..`.
pub open spec fn plain_seg(s: Seq<char>) -> bool {
    s.len() != 0 && s != seq!['.'] && s != seq!['.', '.']
}

/// Joins segments with `/`, without a leading or trailing separator.
pub open spec fn join_slash(segs: Seq<Seq<char>>) -> Seq<char>
    decreases segs.len(),
{
    if segs.len() == 0 {
        Seq::empty()
    } else if segs.len() == 1 {
        segs[0]
    } else {
        segs[0] + seq!['/'] + join_slash(segs.skip(1))
    }
}

/// Every segment of a cleaned sequence is plain.
pub proof fn lemma_clean_segs_plain(segs: Seq<Seq<char>>)
    ensures
        forall|i: int| 0 <= i < clean_segs(segs).len() ==> plain_seg(#[trigger] clean_segs(segs)[i]),
    decreases segs.len(),
{
    if segs.len() > 0 {
        lemma_clean_segs_plain(segs.drop_last());
        let prev = clean_segs(segs.drop_last());
        let last = segs.last();
        if plain_seg(last) {
            assert(clean_segs(segs) == prev.push(last));
            assert forall|i: int| 0 <= i < clean_segs(segs).len() implies plain_seg(
                #[trigger] clean_segs(segs)[i],
            ) by {
                if i < prev.len() {
                    assert(clean_segs(segs)[i] == prev[i]);
                } else {
                    assert(clean_segs(segs)[i] == last);
                }
            }
        } else if last == seq!['.', '.'] && prev.len() > 0 {
            assert forall|i: int| 0 <= i < clean_segs(segs).len() implies plain_seg(
                #[trigger] clean_segs(segs)[i],
            ) by {
                assert(clean_segs(segs)[i] == prev[i]);
            }
        }
    }
}

/// Cleaning a sequence of plain segments leaves it unchanged.
pub proof fn lemma_clean_segs_identity(segs: Seq<Seq<char>>)
    requires
        forall|i: int| 0 <= i < segs.len() ==> plain_seg(#[trigger] segs[i]),
    ensures
        clean_segs(segs) == segs,
    decreases segs.len(),
{
    if segs.len() > 0 {
        lemma_clean_segs_identity(segs.drop_last());
        assert(clean_segs(segs) =~= segs);
    } else {
        assert(clean_segs(segs) =~= segs);
    }
}

/// Cleaning is idempotent.
pub proof fn lemma_clean_segs_idempotent(segs: Seq<Seq<char>>)
    ensures
        clean_segs(clean_segs(segs)) == clean_segs(segs),
{
    lemma_clean_segs_plain(segs);
    lemma_clean_segs_identity(clean_segs(segs));
}

pub proof fn lemma_first_slash_at(s: Seq<char>, k: int)
    requires
        0 <= k <= s.len(),
        forall|j: int| 0 <= j < k ==> s[j] != '/',
        k < s.len() ==> s[k] == '/',
    ensures
        first_slash(s) == k,
    decreases k,
{
    if k > 0 {
        lemma_first_slash_at(s.skip(1), k - 1);
    } else if s.len() > 0 && s[0] != '/' {
        // k == 0 and s[0] == '/' is impossible here, so k < s.len() fails
        assert(false);
    }
}

/// Splitting the join of plain, slash-free segments recovers the segments.
pub proof fn lemma_split_join(segs: Seq<Seq<char>>)
    requires
        forall|i: int| 0 <= i < segs.len() ==> (#[trigger] segs[i]).len() != 0,
        forall|i: int, j: int|
            0 <= i < segs.len() && 0 <= j < segs[i].len() ==> #[trigger] segs[i][j] != '/',
    ensures
        split_slash(join_slash(segs)) == segs,
    decreases segs.len(),
{
    if segs.len() == 0 {
    } else if segs.len() == 1 {
        let s = join_slash(segs);
        lemma_first_slash_at(s, s.len() as int);
        assert(split_slash(s) =~= segs);
    } else {
        let s = join_slash(segs);
        let head = segs[0];
        let rest = join_slash(segs.skip(1));
        assert(s == head + seq!['/'] + rest);
        assert forall|j: int| 0 <= j < head.len() implies s[j] != '/' by {
            assert(s[j] == head[j]);
        }
        assert(s[head.len() as int] == '/');
        lemma_first_slash_at(s, head.len() as int);
        lemma_split_join(segs.skip(1));
        assert(s.take(head.len() as int) =~= head);
        assert(s.skip(head.len() as int + 1) =~= rest);
        assert(split_slash(s) =~= seq![head] + split_slash(rest));
        assert(seq![head] + segs.skip(1) =~= segs);
    }
}

/// The path form of a segment sequence: cleaned, then joined with `/`.
pub open spec fn clean_path(s: Seq<char>) -> Seq<char> {
    join_slash(clean_segs(split_slash(s)))
}

/// Segments produced by splitting never contain `/`.
pub proof fn lemma_split_no_slash(s: Seq<char>)
    ensures
        forall|i: int, j: int|
            0 <= i < split_slash(s).len() && 0 <= j < split_slash(s)[i].len()
                ==> #[trigger] split_slash(s)[i][j] != '/',
    decreases s.len(),
{
    if s.len() > 0 {
        let k = first_slash(s);
        lemma_first_slash_bounds(s);
        if k < s.len() {
            lemma_split_no_slash(s.skip(k + 1));
            let rest = split_slash(s.skip(k + 1));
            assert(split_slash(s) == seq![s.take(k)] + rest);
            assert forall|i: int, j: int|
                0 <= i < split_slash(s).len() && 0 <= j < split_slash(s)[i].len() implies #[trigger] split_slash(
                s,
            )[i][j] != '/' by {
                if i == 0 {
                    assert(split_slash(s)[0] == s.take(k));
                    assert(s.take(k)[j] == s[j]);
                    lemma_first_slash_prefix(s, j);
                } else {
                    assert(split_slash(s)[i] == rest[i - 1]);
                }
            }
        } else {
            assert(split_slash(s) == seq![s]);
            assert forall|i: int, j: int|
                0 <= i < split_slash(s).len() && 0 <= j < split_slash(s)[i].len() implies #[trigger] split_slash(
                s,
            )[i][j] != '/' by {
                assert(split_slash(s)[i] == s);
                lemma_first_slash_prefix(s, j);
            }
        }
    }
}

/// `first_slash` lies between 0 and the length of the sequence, and marks a
/// `/` when it is interior.
pub proof fn lemma_first_slash_bounds(s: Seq<char>)
    ensures
        0 <= first_slash(s) <= s.len(),
        first_slash(s) < s.len() ==> s[first_slash(s)] == '/',
    decreases s.len(),
{
    if s.len() > 0 && s[0] != '/' {
        lemma_first_slash_bounds(s.skip(1));
    }
}

/// Characters before `first_slash` are not `/`.
pub proof fn lemma_first_slash_prefix(s: Seq<char>, j: int)
    requires
        0 <= j < first_slash(s),
    ensures
        j < s.len() && s[j] != '/',
    decreases j,
{
    lemma_first_slash_bounds(s);
    if j > 0 {
        lemma_first_slash_prefix(s.skip(1), j - 1);
    }
}

/// An empty segment at the front of a sequence is cleaned away.
pub proof fn lemma_clean_cons_empty(xs: Seq<Seq<char>>)
    ensures
        clean_segs(seq![Seq::<char>::empty()] + xs) == clean_segs(xs),
    decreases xs.len(),
{
    let whole = seq![Seq::<char>::empty()] + xs;
    if xs.len() == 0 {
        assert(whole.len() == 1);
        assert(whole.drop_last() =~= Seq::<Seq<char>>::empty());
        assert(whole.last() == Seq::<char>::empty());
        assert(clean_segs(Seq::<Seq<char>>::empty()) =~= Seq::<Seq<char>>::empty());
        assert(clean_segs(whole) == clean_segs(whole.drop_last()));
        assert(xs =~= Seq::<Seq<char>>::empty());
    } else {
        lemma_clean_cons_empty(xs.drop_last());
        assert(whole.drop_last() =~= seq![Seq::<char>::empty()] + xs.drop_last());
        assert(whole.last() == xs.last());
    }
}

/// Normalizing the absolute path string of plain, slash-free segments
/// recovers the segments.
pub proof fn lemma_abs_norm(segs: Seq<Seq<char>>)
    requires
        forall|i: int| 0 <= i < segs.len() ==> plain_seg(#[trigger] segs[i]),
        forall|i: int, j: int|
            0 <= i < segs.len() && 0 <= j < segs[i].len() ==> #[trigger] segs[i][j] != '/',
    ensures
        is_abs(seq!['/'] + join_slash(segs)),
        clean_segs(split_slash(seq!['/'] + join_slash(segs))) == segs,
{
    let s = seq!['/'] + join_slash(segs);
    assert(s[0] == '/');
    lemma_first_slash_at(s, 0);
    assert(s.take(0) =~= Seq::<char>::empty());
    assert(s.skip(1) =~= join_slash(segs));
    assert(split_slash(s) == seq![Seq::<char>::empty()] + split_slash(join_slash(segs)));
    lemma_split_join(segs);
    lemma_clean_cons_empty(segs);
    lemma_clean_segs_identity(segs);
}

/// The segments of a cleaned split are slash-free.
pub proof fn lemma_clean_slash_free(s: Seq<char>)
    ensures
        forall|i: int, j: int|
            0 <= i < clean_segs(split_slash(s)).len() && 0 <= j < clean_segs(split_slash(s))[i].len()
                ==> #[trigger] clean_segs(split_slash(s))[i][j] != '/',
{
    let segs = clean_segs(split_slash(s));
    lemma_split_no_slash(s);
    assert forall|i: int, j: int|
        0 <= i < segs.len() && 0 <= j < segs[i].len() implies #[trigger] segs[i][j] != '/' by {
        lemma_clean_segs_subset(split_slash(s), i);
    }
}

/// Cleaned segments of any split are plain and slash-free, so cleaning the
/// joined form changes nothing: normalization is idempotent.
pub proof fn lemma_clean_path_idempotent(s: Seq<char>)
    ensures
        clean_path(clean_path(s)) == clean_path(s),
{
    let segs = clean_segs(split_slash(s));
    lemma_clean_segs_plain(split_slash(s));
    lemma_split_no_slash(s);
    assert forall|i: int, j: int|
        0 <= i < segs.len() && 0 <= j < segs[i].len() implies #[trigger] segs[i][j] != '/' by {
        lemma_clean_segs_subset(split_slash(s), i);
    }
    lemma_split_join(segs);
    lemma_clean_segs_identity(segs);
}

/// Every cleaned segment occurs among the segments being cleaned.
pub proof fn lemma_clean_segs_subset(segs: Seq<Seq<char>>, i: int)
    requires
        0 <= i < clean_segs(segs).len(),
    ensures
        exists|k: int| 0 <= k < segs.len() && segs[k] == clean_segs(segs)[i],
    decreases segs.len(),
{
    if segs.len() > 0 {
        let prev = clean_segs(segs.drop_last());
        let last = segs.last();
        if clean_segs(segs) == prev.push(last) && i == prev.len() {
            assert(segs[segs.len() - 1] == clean_segs(segs)[i]);
        } else {
            lemma_clean_segs_subset(segs.drop_last(), i);
            let k = choose|k: int|
                0 <= k < segs.drop_last().len() && segs.drop_last()[k] == clean_segs(
                    segs.drop_last(),
                )[i];
            assert(segs[k] == segs.drop_last()[k]);
        }
    }
}

/// True of an absolute path string: non-empty and starting with `/`.
pub open spec fn is_abs(s: Seq<char>) -> bool {
    s.len() > 0 && s[0] == '/'
}

/// Whether the path string begins with `/`.
pub fn starts_with_slash(s: &str) -> (r: bool)
    ensures
        r == is_abs(s@),
{
    let n = s.unicode_len();
    n > 0 && s.get_char(0) == '/'
}

/// Splits a path string on `/` into its raw segments, empty ones included,
/// except that a trailing separator yields no trailing empty segment.
pub fn split_path(s: &str) -> (r: Vec<String>)
    ensures
        r.deep_view() == split_slash(s@),
{
    let n = s.unicode_len();
    let mut parts: Vec<String> = Vec::new();
    let mut start: usize = 0;
    let mut i: usize = 0;
    proof {
        assert(s@.skip(0) =~= s@);
        assert(parts.deep_view() + split_slash(s@) =~= split_slash(s@));
    }
    while i < n
        invariant
            start <= i <= n,
            n == s@.len(),
            forall|j: int| start <= j < i ==> s@[j] != '/',
            split_slash(s@) == parts.deep_view() + split_slash(s@.skip(start as int)),
        decreases n - i,
    {
        if s.get_char(i) == '/' {
            let seg = s.substring_char(start, i);
            let seg_string = String::from_str(seg);
            let ghost pre = parts.deep_view();
            proof {
                let t = s@.skip(start as int);
                assert forall|j: int| 0 <= j < i - start implies t[j] != '/' by {
                    assert(t[j] == s@[start + j]);
                }
                assert(t[i - start] == s@[i as int]);
                lemma_first_slash_at(t, i - start);
                assert(t.take(i - start) =~= s@.subrange(start as int, i as int));
                assert(t.skip(i - start + 1) =~= s@.skip(i + 1));
                assert(split_slash(t) == seq![seg_string@] + split_slash(s@.skip(i + 1)));
            }
            parts.push(seg_string);
            proof {
                assert(parts.deep_view() =~= pre.push(seg_string@));
                assert(pre.push(seg_string@) + split_slash(s@.skip(i + 1)) =~= pre + (seq![
                    seg_string@,
                ] + split_slash(s@.skip(i + 1))));
            }
            start = i + 1;
        }
        i += 1;
    }
    if start < n {
        let seg = s.substring_char(start, n);
        let seg_string = String::from_str(seg);
        let ghost pre = parts.deep_view();
        proof {
            let t = s@.skip(start as int);
            assert forall|j: int| 0 <= j < t.len() implies t[j] != '/' by {
                assert(t[j] == s@[start + j]);
            }
            lemma_first_slash_at(t, t.len() as int);
            assert(t =~= s@.subrange(start as int, n as int));
            assert(split_slash(t) == seq![seg_string@]);
        }
        parts.push(seg_string);
        proof {
            assert(parts.deep_view() =~= pre.push(seg_string@));
            assert(pre.push(seg_string@) =~= pre + seq![seg_string@]);
        }
    } else {
        proof {
            assert(s@.skip(start as int) =~= Seq::<char>::empty());
            assert(parts.deep_view() + split_slash(s@.skip(start as int)) =~= parts.deep_view());
        }
    }
    parts
}

/// Whether a segment equals `.`.
pub fn seg_is_dot(s: &String) -> (r: bool)
    ensures
        r == (s@ == seq!['.']),
{
    let n = s.as_str().unicode_len();
    if n == 1 && s.as_str().get_char(0) == '.' {
        proof {
            assert(s@ =~= seq!['.']);
        }
        true
    } else {
        proof {
            if s@ == seq!['.'] {
                assert(s@.len() == 1);
            }
        }
        false
    }
}

/// Whether a segment equals `..`.
pub fn seg_is_dotdot(s: &String) -> (r: bool)
    ensures
        r == (s@ == seq!['.', '.']),
{
    let n = s.as_str().unicode_len();
    if n == 2 && s.as_str().get_char(0) == '.' && s.as_str().get_char(1) == '.' {
        proof {
            assert(s@ =~= seq!['.', '.']);
        }
        true
    } else {
        proof {
            if s@ == seq!['.', '.'] {
                assert(s@.len() == 2);
            }
        }
        false
    }
}

/// Whether a segment is empty.
pub fn seg_is_empty(s: &String) -> (r: bool)
    ensures
        r == (s@.len() == 0),
{
    s.as_str().unicode_len() == 0
}

/// Collapses raw segments exactly as `clean_segs` describes.
pub fn clean_parts(v: &Vec<String>) -> (r: Vec<String>)
    ensures
        r.deep_view() == clean_segs(v.deep_view()),
{
    let mut out: Vec<String> = Vec::new();
    let mut i: usize = 0;
    while i < v.len()
        invariant
            i <= v.len(),
            out.deep_view() == clean_segs(v.deep_view().take(i as int)),
        decreases v.len() - i,
    {
        let p = &v[i];
        proof {
            assert(v.deep_view().take(i + 1).drop_last() =~= v.deep_view().take(i as int));
            assert(v.deep_view().take(i + 1).last() == v@[i as int].deep_view());
        }
        if seg_is_empty(p) || seg_is_dot(p) {
            // dropped
        } else if seg_is_dotdot(p) {
            if out.len() > 0 {
                proof {
                    assert(out.deep_view().drop_last() =~= out.deep_view().take(
                        out.deep_view().len() - 1,
                    ));
                }
                let ghost pre = out.deep_view();
                out.pop();
                proof {
                    assert(out.deep_view() =~= pre.drop_last());
                }
            }
        } else {
            let ghost pre = out.deep_view();
            out.push(p.clone());
            proof {
                assert(out.deep_view() =~= pre.push(v@[i as int].deep_view()));
            }
        }
        i += 1;
    }
    proof {
        assert(v.deep_view().take(v.len() as int) =~= v.deep_view());
    }
    out
}

/// Joins segments with `/`, the inverse of `split_path` on plain segments.
pub fn join_path(v: &Vec<String>) -> (r: String)
    ensures
        r@ == join_slash(v.deep_view()),
{
    let mut s = String::new();
    let mut i: usize = 0;
    while i < v.len()
        invariant
            i <= v.len(),
            s@ == join_slash(v.deep_view().take(i as int)),
        decreases v.len() - i,
    {
        if i > 0 {
            s.append("/");
            proof {
                reveal_strlit("/");
            }
        }
        s.append(v[i].as_str());
        proof {
            lemma_join_push(v.deep_view().take(i as int), v@[i as int].deep_view());
            assert(v.deep_view().take(i as int).push(v@[i as int].deep_view()) =~= v.deep_view()
                .take(i + 1));
        }
        i += 1;
    }
    proof {
        assert(v.deep_view().take(v.len() as int) =~= v.deep_view());
    }
    s
}

/// Joining after appending one segment appends `/` and the segment, except
/// at the front.
pub proof fn lemma_join_push(segs: Seq<Seq<char>>, x: Seq<char>)
    ensures
        segs.len() == 0 ==> join_slash(segs.push(x)) == x,
        segs.len() > 0 ==> join_slash(segs.push(x)) == join_slash(segs) + seq!['/'] + x,
    decreases segs.len(),
{
    if segs.len() == 0 {
        assert(join_slash(segs.push(x)) == segs.push(x)[0]);
    } else if segs.len() == 1 {
        let p = segs.push(x);
        assert(p.skip(1) =~= seq![x]);
        assert(join_slash(p) == p[0] + seq!['/'] + join_slash(p.skip(1)));
        assert(join_slash(seq![x]) == x);
        assert(p[0] == segs[0]);
        assert(join_slash(segs) == segs[0]);
    } else {
        lemma_join_push(segs.skip(1), x);
        assert(segs.push(x).skip(1) =~= segs.skip(1).push(x));
        assert(segs.push(x)[0] == segs[0]);
        assert(segs[0] + seq!['/'] + (join_slash(segs.skip(1)) + seq!['/'] + x) =~= (segs[0]
            + seq!['/'] + join_slash(segs.skip(1))) + seq!['/'] + x);
    }
}

} // verus!
