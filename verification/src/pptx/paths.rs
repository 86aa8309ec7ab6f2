//! Package paths: splitting a part's path into folder and file name, and
//! resolving `..` and `.` segments.
use vstd::prelude::*;
use crate::strings::{chars_of, string_of};

verus! {

/// Appends the characters of `t` to `v`.
pub fn append_chars(v: &mut Vec<char>, t: &[char])
    ensures
        final(v)@ == old(v)@ + t@,
{
    let mut i: usize = 0;
    while i < t.len()
        invariant
            i <= t@.len(),
            v@ == old(v)@ + t@.take(i as int),
        decreases t@.len() - i,
    {
        v.push(t[i]);
        assert(t@.take(i + 1) =~= t@.take(i as int).push(t@[i as int]));
        i = i + 1;
    }
    assert(t@.take(i as int) =~= t@);
}

/// A copy of the characters of `t`.
pub fn copy_chars(t: &[char]) -> (v: Vec<char>)
    ensures
        v@ == t@,
{
    let mut v: Vec<char> = Vec::new();
    append_chars(&mut v, t);
    assert(v@ =~= t@);
    v
}

/// The characters of `t` from position `k` on.
pub fn chars_from(t: &[char], k: usize) -> (v: Vec<char>)
    requires
        k <= t@.len(),
    ensures
        v@ == t@.skip(k as int),
{
    let mut v: Vec<char> = Vec::new();
    let mut i: usize = k;
    while i < t.len()
        invariant
            k <= i <= t@.len(),
            v@ == t@.subrange(k as int, i as int),
        decreases t@.len() - i,
    {
        v.push(t[i]);
        assert(t@.subrange(k as int, i + 1) =~= t@.subrange(k as int, i as int).push(t@[i as int]));
        i = i + 1;
    }
    assert(v@ =~= t@.skip(k as int));
    v
}

/// Whether `s` begins with `p`.
pub open spec fn starts_with(s: Seq<char>, p: Seq<char>) -> bool {
    p.len() <= s.len() && s.take(p.len() as int) == p
}

/// Whether `s` ends with `p`.
pub open spec fn ends_with(s: Seq<char>, p: Seq<char>) -> bool {
    p.len() <= s.len() && s.skip(s.len() - p.len()) == p
}

/// Whether `s` begins with `p`.
pub fn chars_start_with(s: &[char], p: &[char]) -> (r: bool)
    ensures
        r == starts_with(s@, p@),
{
    if p.len() > s.len() {
        return false;
    }
    let mut k: usize = 0;
    while k < p.len()
        invariant
            p@.len() <= s@.len(),
            k <= p@.len(),
            forall|j: int| 0 <= j < k ==> s@[j] == p@[j],
        decreases p@.len() - k,
    {
        if s[k] != p[k] {
            assert(s@.take(p@.len() as int)[k as int] == s@[k as int]);
            return false;
        }
        k = k + 1;
    }
    assert(s@.take(p@.len() as int) =~= p@);
    true
}

/// Whether `s` ends with `p`.
pub fn chars_end_with(s: &[char], p: &[char]) -> (r: bool)
    ensures
        r == ends_with(s@, p@),
{
    if p.len() > s.len() {
        return false;
    }
    let n = s.len();
    let off = n - p.len();
    let mut k: usize = 0;
    while k < p.len()
        invariant
            n == s@.len(),
            p@.len() <= s@.len(),
            off == s@.len() - p@.len(),
            k <= p@.len(),
            forall|j: int| 0 <= j < k ==> s@[off + j] == p@[j],
        decreases p@.len() - k,
    {
        assert(off + k < n);
        if s[off + k] != p[k] {
            assert(s@.skip(off as int)[k as int] == s@[off + k]);
            return false;
        }
        k = k + 1;
    }
    assert(s@.skip(off as int) =~= p@);
    true
}

// ---------------------------------------------------------------------------
// Folder and file name.

/// The position of the last `/` in `s`, if any.
pub open spec fn last_slash(s: Seq<char>) -> Option<nat>
    decreases s.len(),
{
    if s.len() == 0 {
        None
    } else if s.last() == '/' {
        Some((s.len() - 1) as nat)
    } else {
        last_slash(s.drop_last())
    }
}

/// The folder of a path: everything up to and including its last `/`, or
/// nothing where it has none.
pub open spec fn path_dir(s: Seq<char>) -> Seq<char> {
    match last_slash(s) {
        Some(k) => s.take(k + 1int),
        None => Seq::empty(),
    }
}

/// The file name of a path: everything after its last `/`, or the whole path.
pub open spec fn path_file(s: Seq<char>) -> Seq<char> {
    match last_slash(s) {
        Some(k) => s.skip(k + 1int),
        None => s,
    }
}

proof fn lemma_last_slash(s: Seq<char>, n: int)
    requires
        0 <= n <= s.len(),
        forall|k: int| n <= k < s.len() ==> #[trigger] s[k] != '/',
        n == 0 || s[n - 1] == '/',
    ensures
        last_slash(s) == (if n == 0 { None } else { Some((n - 1) as nat) }),
    decreases s.len(),
{
    if s.len() > 0 && n < s.len() {
        assert forall|k: int| n <= k < s.len() - 1 implies #[trigger] s.drop_last()[k] != '/' by {
            assert(s.drop_last()[k] == s[k]);
        }
        if n > 0 {
            assert(s.drop_last()[n - 1] == s[n - 1]);
        }
        lemma_last_slash(s.drop_last(), n);
    }
}

/// Splits a path into its folder and its file name.
pub fn split_dir_file(s: &[char]) -> (r: (Vec<char>, Vec<char>))
    ensures
        r.0@ == path_dir(s@),
        r.1@ == path_file(s@),
{
    let mut n = s.len();
    while n > 0 && s[n - 1] != '/'
        invariant
            n <= s@.len(),
            forall|k: int| n <= k < s@.len() ==> #[trigger] s@[k] != '/',
        decreases n,
    {
        n = n - 1;
    }
    proof {
        lemma_last_slash(s@, n as int);
    }
    let mut dir: Vec<char> = Vec::new();
    let mut file: Vec<char> = Vec::new();
    let mut k: usize = 0;
    while k < s.len()
        invariant
            n <= s@.len(),
            k <= s@.len(),
            dir@ == s@.take(if k < n { k as int } else { n as int }),
            file@ == (if k < n { Seq::<char>::empty() } else { s@.subrange(n as int, k as int) }),
        decreases s@.len() - k,
    {
        if k < n {
            dir.push(s[k]);
            assert(s@.take(k + 1) =~= s@.take(k as int).push(s@[k as int]));
        } else {
            file.push(s[k]);
            assert(s@.subrange(n as int, k + 1) =~= s@.subrange(n as int, k as int).push(s@[k as int]));
        }
        k = k + 1;
    }
    assert(s@.subrange(n as int, s@.len() as int) =~= s@.skip(n as int));
    assert(n == 0 ==> s@.skip(0) =~= s@);
    assert(n == 0 ==> s@.take(0) =~= Seq::<char>::empty());
    (dir, file)
}

// ---------------------------------------------------------------------------
// Segments.

/// Splits at every `/` (as `str::split('/')`): one more segment than there
/// are slashes; segments may be empty.
pub open spec fn split_slash(s: Seq<char>) -> Seq<Seq<char>>
    decreases s.len(),
{
    if s.len() == 0 {
        seq![Seq::<char>::empty()]
    } else {
        let rest = split_slash(s.drop_last());
        if s.last() == '/' {
            rest.push(Seq::empty())
        } else {
            rest.update(rest.len() - 1, rest.last().push(s.last()))
        }
    }
}

/// The segment `..`.
pub open spec fn dot_dot() -> Seq<char> {
    seq!['.', '.']
}

/// The segment `.`.
pub open spec fn dot() -> Seq<char> {
    seq!['.']
}

/// One step of resolving segments: `..` drops the last kept segment (if any),
/// `.` and empty segments are skipped, any other segment is kept.
pub open spec fn norm_step(stack: Seq<Seq<char>>, seg: Seq<char>) -> Seq<Seq<char>> {
    if seg == dot_dot() {
        if stack.len() > 0 {
            stack.drop_last()
        } else {
            stack
        }
    } else if seg == dot() || seg.len() == 0 {
        stack
    } else {
        stack.push(seg)
    }
}

/// The segments kept after resolving `segs` from left to right.
pub open spec fn norm_segments(segs: Seq<Seq<char>>) -> Seq<Seq<char>>
    decreases segs.len(),
{
    if segs.len() == 0 {
        Seq::empty()
    } else {
        norm_step(norm_segments(segs.drop_last()), segs.last())
    }
}

/// The segments joined with `/` between them.
pub open spec fn join_slash(parts: Seq<Seq<char>>) -> Seq<char>
    decreases parts.len(),
{
    if parts.len() == 0 {
        Seq::empty()
    } else if parts.len() == 1 {
        parts[0]
    } else {
        join_slash(parts.drop_last()) + seq!['/'] + parts.last()
    }
}

/// A path with `.`, `..` and empty segments resolved.
pub open spec fn normalized(s: Seq<char>) -> Seq<char> {
    join_slash(norm_segments(split_slash(s)))
}

/// The views of a sequence of character vectors.
pub open spec fn segs_view(v: Seq<Vec<char>>) -> Seq<Seq<char>> {
    v.map_values(|x: Vec<char>| x@)
}

/// Resolves `..` and `.` segments of a path and drops empty ones.
pub fn normalize_path(path: &str) -> (r: String)
    ensures
        r@ == normalized(path@),
{
    let cs = chars_of(path);
    // Split at every '/'.
    let mut done: Vec<Vec<char>> = Vec::new();
    let mut cur: Vec<char> = Vec::new();
    let mut i: usize = 0;
    assert(segs_view(done@).push(cur@) =~= split_slash(cs@.take(0)));
    while i < cs.len()
        invariant
            i <= cs@.len(),
            segs_view(done@).push(cur@) == split_slash(cs@.take(i as int)),
        decreases cs@.len() - i,
    {
        let c = cs[i];
        let ghost prev = cs@.take(i as int);
        assert(cs@.take(i + 1).drop_last() =~= prev);
        assert(cs@.take(i + 1).last() == c);
        if c == '/' {
            let finished = cur;
            done.push(finished);
            cur = Vec::new();
            assert(segs_view(done@).push(cur@) =~= split_slash(prev).push(Seq::empty()));
        } else {
            let ghost old_cur = cur@;
            cur.push(c);
            assert(segs_view(done@).push(cur@) =~= split_slash(prev).update(
                split_slash(prev).len() - 1, old_cur.push(c)));
        }
        i = i + 1;
    }
    assert(cs@.take(cs@.len() as int) =~= cs@);
    done.push(cur);
    let ghost segs = segs_view(done@);
    // Resolve the segments.
    let mut stack: Vec<Vec<char>> = Vec::new();
    let mut k: usize = 0;
    assert(segs.take(0) =~= Seq::<Seq<char>>::empty());
    assert(segs_view(stack@) =~= Seq::<Seq<char>>::empty());
    while k < done.len()
        invariant
            k <= done@.len(),
            segs == segs_view(done@),
            segs == split_slash(path@),
            segs_view(stack@) == norm_segments(segs.take(k as int)),
        decreases done@.len() - k,
    {
        let seg = &done[k];
        assert(segs.take(k + 1).drop_last() =~= segs.take(k as int));
        assert(segs.take(k + 1).last() == seg@);
        let ghost before = segs_view(stack@);
        if seg.len() == 2 && seg[0] == '.' && seg[1] == '.' {
            assert(seg@ =~= dot_dot());
            if stack.len() > 0 {
                let _ = stack.pop();
                assert(segs_view(stack@) =~= before.drop_last());
            }
        } else if (seg.len() == 1 && seg[0] == '.') || seg.len() == 0 {
            assert(seg.len() == 1 ==> seg@ =~= dot());
        } else {
            assert(seg@ != dot_dot() && seg@ != dot());
            let copy = copy_chars(seg.as_slice());
            stack.push(copy);
            assert(segs_view(stack@) =~= before.push(seg@));
        }
        k = k + 1;
    }
    assert(segs.take(done@.len() as int) =~= segs);
    // Join with '/'.
    let mut out: Vec<char> = Vec::new();
    let mut m: usize = 0;
    let ghost parts = segs_view(stack@);
    while m < stack.len()
        invariant
            m <= stack@.len(),
            parts == segs_view(stack@),
            out@ == join_slash(parts.take(m as int)),
        decreases stack@.len() - m,
    {
        assert(parts.take(m + 1).drop_last() =~= parts.take(m as int));
        assert(parts.take(m + 1).last() == stack@[m as int]@);
        if m > 0 {
            out.push('/');
        } else {
            assert(out@ =~= Seq::<char>::empty());
        }
        append_chars(&mut out, stack[m].as_slice());
        m = m + 1;
    }
    assert(parts.take(stack@.len() as int) =~= parts);
    string_of(out.as_slice())
}

// ---------------------------------------------------------------------------
// Resolving a resolved path changes nothing.

/// Whether `seg` holds no `/`.
pub open spec fn slash_free(seg: Seq<char>) -> bool {
    forall|k: int| 0 <= k < seg.len() ==> #[trigger] seg[k] != '/'
}

/// Whether `seg` is kept as it is by resolving: not empty, not `.` or `..`,
/// and without `/`.
pub open spec fn plain_segment(seg: Seq<char>) -> bool {
    seg.len() > 0 && seg != dot() && seg != dot_dot() && slash_free(seg)
}

proof fn lemma_split_segments_slash_free(s: Seq<char>)
    ensures
        split_slash(s).len() >= 1,
        forall|i: int| 0 <= i < split_slash(s).len() ==> #[trigger] slash_free(split_slash(s)[i]),
    decreases s.len(),
{
    if s.len() > 0 {
        lemma_split_segments_slash_free(s.drop_last());
        let rest = split_slash(s.drop_last());
        if s.last() != '/' {
            let w = rest.last().push(s.last());
            assert(slash_free(rest[rest.len() - 1]));
            assert forall|k: int| 0 <= k < w.len() implies #[trigger] w[k] != '/' by {
                if k < w.len() - 1 {
                    assert(w[k] == rest.last()[k]);
                }
            }
            assert forall|i: int| 0 <= i < split_slash(s).len() implies #[trigger] slash_free(split_slash(s)[i]) by {
                if i < rest.len() - 1 {
                    assert(split_slash(s)[i] == rest[i]);
                }
            }
        } else {
            assert forall|i: int| 0 <= i < split_slash(s).len() implies #[trigger] slash_free(split_slash(s)[i]) by {
                if i < rest.len() {
                    assert(split_slash(s)[i] == rest[i]);
                }
            }
        }
    }
}

proof fn lemma_norm_segments_plain(segs: Seq<Seq<char>>)
    requires
        forall|i: int| 0 <= i < segs.len() ==> #[trigger] slash_free(segs[i]),
    ensures
        forall|i: int| 0 <= i < norm_segments(segs).len() ==> #[trigger] plain_segment(norm_segments(segs)[i]),
    decreases segs.len(),
{
    if segs.len() > 0 {
        let u = segs.drop_last();
        assert forall|i: int| 0 <= i < u.len() implies #[trigger] slash_free(u[i]) by {
            assert(u[i] == segs[i]);
        }
        lemma_norm_segments_plain(u);
        assert(slash_free(segs[segs.len() - 1]));
        let stack = norm_segments(u);
        let r = norm_segments(segs);
        assert forall|i: int| 0 <= i < r.len() implies #[trigger] plain_segment(r[i]) by {
            if i < stack.len() {
                assert(r[i] == stack[i]);
            }
        }
    }
}

proof fn lemma_norm_segments_plain_fixed(parts: Seq<Seq<char>>)
    requires
        forall|i: int| 0 <= i < parts.len() ==> #[trigger] plain_segment(parts[i]),
    ensures
        norm_segments(parts) == parts,
    decreases parts.len(),
{
    if parts.len() > 0 {
        let u = parts.drop_last();
        assert forall|i: int| 0 <= i < u.len() implies #[trigger] plain_segment(u[i]) by {
            assert(u[i] == parts[i]);
        }
        lemma_norm_segments_plain_fixed(u);
        assert(plain_segment(parts[parts.len() - 1]));
        assert(u.push(parts.last()) =~= parts);
    }
}

proof fn lemma_split_slash_free(w: Seq<char>)
    requires
        slash_free(w),
    ensures
        split_slash(w) == seq![w],
    decreases w.len(),
{
    if w.len() > 0 {
        let u = w.drop_last();
        assert(slash_free(u)) by {
            assert forall|k: int| 0 <= k < u.len() implies #[trigger] u[k] != '/' by {
                assert(u[k] == w[k]);
            }
        }
        lemma_split_slash_free(u);
        assert(w[w.len() - 1] != '/');
        assert(u.push(w.last()) =~= w);
        assert(seq![u].update(0, u.push(w.last())) =~= seq![w]);
    } else {
        assert(w =~= Seq::<char>::empty());
    }
}

proof fn lemma_split_after_slash(a: Seq<char>, w: Seq<char>)
    requires
        slash_free(w),
    ensures
        split_slash(a + seq!['/'] + w) == split_slash(a).push(w),
    decreases w.len(),
{
    if w.len() == 0 {
        assert(w =~= Seq::<char>::empty());
        assert((a + seq!['/'] + w).drop_last() =~= a);
        assert((a + seq!['/'] + w).last() == '/');
    } else {
        let u = w.drop_last();
        assert(slash_free(u)) by {
            assert forall|k: int| 0 <= k < u.len() implies #[trigger] u[k] != '/' by {
                assert(u[k] == w[k]);
            }
        }
        lemma_split_after_slash(a, u);
        let full = a + seq!['/'] + w;
        assert(full.drop_last() =~= a + seq!['/'] + u);
        assert(full.last() == w.last());
        assert(w[w.len() - 1] != '/');
        assert(u.push(w.last()) =~= w);
        assert(split_slash(a).push(u).update(split_slash(a).len() as int, u.push(w.last()))
            =~= split_slash(a).push(w));
        let rest = split_slash(full.drop_last());
        assert(rest == split_slash(a).push(u));
        assert(split_slash(full) == rest.update(rest.len() - 1, rest.last().push(full.last())));
    }
}

proof fn lemma_split_join(parts: Seq<Seq<char>>)
    requires
        parts.len() >= 1,
        forall|i: int| 0 <= i < parts.len() ==> #[trigger] slash_free(parts[i]),
    ensures
        split_slash(join_slash(parts)) == parts,
    decreases parts.len(),
{
    if parts.len() == 1 {
        lemma_split_slash_free(parts[0]);
        assert(seq![parts[0]] =~= parts);
    } else {
        let u = parts.drop_last();
        assert forall|i: int| 0 <= i < u.len() implies #[trigger] slash_free(u[i]) by {
            assert(u[i] == parts[i]);
        }
        lemma_split_join(u);
        assert(slash_free(parts[parts.len() - 1]));
        lemma_split_after_slash(join_slash(u), parts.last());
        assert(u.push(parts.last()) =~= parts);
    }
}

/// Resolving a path twice gives what resolving it once gave: a resolved path
/// holds no `.`, `..` or empty segment.
pub proof fn lemma_normalize_idempotent(s: Seq<char>)
    ensures
        normalized(normalized(s)) == normalized(s),
{
    lemma_split_segments_slash_free(s);
    let parts = norm_segments(split_slash(s));
    lemma_norm_segments_plain(split_slash(s));
    if parts.len() == 0 {
        assert(normalized(s) == Seq::<char>::empty());
        assert(split_slash(Seq::<char>::empty()) == seq![Seq::<char>::empty()]);
        let one = seq![Seq::<char>::empty()];
        assert(one.drop_last() =~= Seq::<Seq<char>>::empty());
        assert(norm_segments(one.drop_last()) == Seq::<Seq<char>>::empty());
        assert(one.last().len() == 0);
        assert(norm_segments(one) =~= Seq::<Seq<char>>::empty());
    } else {
        assert forall|i: int| 0 <= i < parts.len() implies #[trigger] slash_free(parts[i]) by {
            assert(plain_segment(parts[i]));
        }
        lemma_split_join(parts);
        lemma_norm_segments_plain_fixed(parts);
    }
}

/// A resolved path is empty, or every segment between its slashes is kept as
/// it is by resolving: none is empty (no leading, trailing or doubled `/`),
/// `.` or `..`.
pub proof fn lemma_normalized_segments_plain(s: Seq<char>)
    ensures
        normalized(s).len() == 0 || forall|i: int| 0 <= i < split_slash(normalized(s)).len()
            ==> #[trigger] plain_segment(split_slash(normalized(s))[i]),
{
    lemma_split_segments_slash_free(s);
    let parts = norm_segments(split_slash(s));
    lemma_norm_segments_plain(split_slash(s));
    if parts.len() > 0 {
        assert forall|i: int| 0 <= i < parts.len() implies #[trigger] slash_free(parts[i]) by {
            assert(plain_segment(parts[i]));
        }
        lemma_split_join(parts);
    }
}

} // verus!
