use vstd::prelude::*;

verus! {

/// Whether `n` occurs as a contiguous run of characters inside `h`.
pub open spec fn contains_seq(h: Seq<char>, n: Seq<char>) -> bool {
    exists|i: int| 0 <= i && i + n.len() <= h.len() && #[trigger] h.subrange(i, i + n.len() as int) == n
}

/// `p` with every trailing `'/'` dropped.
pub open spec fn strip_slashes(p: Seq<char>) -> Seq<char>
    decreases p.len(),
{
    if p.len() > 0 && p.last() == '/' {
        strip_slashes(p.drop_last())
    } else {
        p
    }
}

/// The maximal suffix of `p` that contains no `'/'`. It is empty when `p`
/// is empty or ends in `'/'`.
pub open spec fn raw_component(p: Seq<char>) -> Seq<char>
    decreases p.len(),
{
    if p.len() == 0 {
        Seq::empty()
    } else if p.last() == '/' {
        Seq::empty()
    } else {
        raw_component(p.drop_last()).push(p.last())
    }
}

/// The filename component of a `'/'`-separated path, as std's
/// `Path::file_name` has it: trailing separators are ignored, and the
/// result is empty — no component — when nothing remains or when the final
/// component is `.` or `..`.
pub open spec fn basename_of(p: Seq<char>) -> Seq<char> {
    let c = raw_component(strip_slashes(p));
    if c == seq!['.'] || c == seq!['.', '.'] {
        Seq::empty()
    } else {
        c
    }
}

/// `d` and `n` joined with a single `'/'` separator: `n` alone when `d` is
/// empty, and no separator added when `d` already ends in `'/'`.
pub open spec fn spec_join(d: Seq<char>, n: Seq<char>) -> Seq<char> {
    if d.len() == 0 {
        n
    } else if d.last() == '/' {
        d + n
    } else {
        d + seq!['/'] + n
    }
}

/// Character-for-character string equality.
pub fn str_eq(a: &str, b: &str) -> (r: bool)
    ensures
        r == (a@ == b@),
{
    let alen = a.unicode_len();
    let blen = b.unicode_len();
    if alen != blen {
        return false;
    }
    let mut i: usize = 0;
    while i < alen
        invariant
            alen == a@.len(),
            alen == b@.len(),
            0 <= i <= alen,
            forall|j: int| 0 <= j < i ==> a@[j] == b@[j],
        decreases alen - i,
    {
        if a.get_char(i) != b.get_char(i) {
            return false;
        }
        i += 1;
    }
    proof {
        assert(a@ =~= b@);
    }
    true
}

/// Whether the characters of `n` stand in `h` starting at position `i`.
pub(crate) fn matches_at(h: &str, n: &str, i: usize) -> (r: bool)
    requires
        i + n@.len() <= h@.len(),
    ensures
        r == (h@.subrange(i as int, i + n@.len() as int) == n@),
{
    let nlen = n.unicode_len();
    let hlen = h.unicode_len();
    let mut j: usize = 0;
    while j < nlen
        invariant
            nlen == n@.len(),
            hlen == h@.len(),
            i + nlen <= hlen,
            0 <= j <= nlen,
            forall|k: int| 0 <= k < j ==> h@[i + k] == n@[k],
        decreases nlen - j,
    {
        if h.get_char(i + j) != n.get_char(j) {
            proof {
                assert(h@.subrange(i as int, i + n@.len() as int)[j as int] == h@[i + j]);
            }
            return false;
        }
        j += 1;
    }
    proof {
        assert(h@.subrange(i as int, i + n@.len() as int) =~= n@);
    }
    true
}

/// Whether `n` occurs anywhere inside `h`.
pub fn str_contains(h: &str, n: &str) -> (r: bool)
    ensures
        r == contains_seq(h@, n@),
{
    let hlen = h.unicode_len();
    let nlen = n.unicode_len();
    if nlen > hlen {
        return false;
    }
    if nlen == 0 {
        proof {
            assert(h@.subrange(0, 0 + n@.len() as int) =~= n@);
        }
        return true;
    }
    let mut i: usize = 0;
    loop
        invariant
            hlen == h@.len(),
            nlen == n@.len(),
            1 <= nlen <= hlen,
            0 <= i <= hlen - nlen + 1,
            forall|j: int| 0 <= j < i ==> #[trigger] h@.subrange(j, j + n@.len() as int) != n@,
        decreases hlen - nlen - i + 1,
    {
        if i > hlen - nlen {
            return false;
        }
        if matches_at(h, n, i) {
            proof {
                assert(h@.subrange(i as int, i + n@.len() as int) == n@);
            }
            return true;
        }
        i += 1;
    }
}

proof fn lemma_component_suffix(p: Seq<char>, j: int)
    requires
        0 <= j <= p.len(),
        j == 0 || p[j - 1] == '/',
        forall|k: int| j <= k < p.len() ==> p[k] != '/',
    ensures
        raw_component(p) == p.subrange(j, p.len() as int),
    decreases p.len(),
{
    if p.len() == 0 {
        assert(raw_component(p) =~= p.subrange(j, p.len() as int));
    } else if j == p.len() {
        assert(p.last() == '/');
        assert(raw_component(p) =~= p.subrange(j, p.len() as int));
    } else {
        assert(p.last() != '/');
        let q = p.drop_last();
        assert(forall|k: int| j <= k < q.len() ==> q[k] == p[k]);
        lemma_component_suffix(q, j);
        assert(p.subrange(j, p.len() as int) =~= q.subrange(j, q.len() as int).push(p.last()));
    }
}

/// The filename component of `path`, with `Path::file_name`'s semantics:
/// the characters after the last `'/'`, trailing separators ignored.
/// `None` when nothing remains, or when the final component is `.` or
/// `..`.
#[verifier::loop_isolation(false)]
pub fn file_name_of(path: &str) -> (r: Option<String>)
    ensures
        match r {
            Some(s) => basename_of(path@).len() > 0 && s@ == basename_of(path@),
            None => basename_of(path@).len() == 0,
        },
{
    let n = path.unicode_len();
    proof {
        assert(path@.subrange(0, n as int) =~= path@);
    }
    let mut m: usize = n;
    while m > 0 && path.get_char(m - 1) == '/'
        invariant
            0 <= m <= n,
            strip_slashes(path@) == strip_slashes(path@.subrange(0, m as int)),
        decreases m,
    {
        proof {
            let q = path@.subrange(0, m as int);
            assert(q.last() == path@[m - 1]);
            assert(q.drop_last() =~= path@.subrange(0, m - 1));
            assert(strip_slashes(q) == strip_slashes(path@.subrange(0, m - 1)));
        }
        m -= 1;
    }
    let ghost q = path@.subrange(0, m as int);
    proof {
        assert(path@.subrange(0, n as int) =~= path@);
        assert(strip_slashes(q) == q);
        assert(forall|k: int| 0 <= k < m ==> q[k] == path@[k]);
    }
    let mut j: usize = m;
    while j > 0 && path.get_char(j - 1) != '/'
        invariant
            0 <= j <= m,
            forall|k: int| j <= k < m ==> path@[k] != '/',
        decreases j,
    {
        j -= 1;
    }
    proof {
        lemma_component_suffix(q, j as int);
        assert(q.subrange(j as int, m as int) =~= path@.subrange(j as int, m as int));
    }
    let ghost c = raw_component(strip_slashes(path@));
    if j == m {
        proof {
            assert(c =~= Seq::<char>::empty());
        }
        None
    } else if m - j == 1 && path.get_char(j) == '.' {
        proof {
            assert(c =~= seq!['.']);
        }
        None
    } else if m - j == 2 && path.get_char(j) == '.' && path.get_char(j + 1) == '.' {
        proof {
            assert(c =~= seq!['.', '.']);
        }
        None
    } else {
        let name = path.substring_char(j, m).to_owned();
        proof {
            assert(c[0] == path@[j as int]);
            assert(c != seq!['.'] && c != seq!['.', '.']);
        }
        Some(name)
    }
}

/// `dir` and `name` joined with a single `'/'` separator.
pub fn join_path(dir: &str, name: &str) -> (r: String)
    ensures
        r@ == spec_join(dir@, name@),
{
    let dl = dir.unicode_len();
    if dl == 0 {
        name.to_owned()
    } else if dir.get_char(dl - 1) == '/' {
        let mut s = dir.to_owned();
        s.append(name);
        s
    } else {
        let mut s = dir.to_owned();
        s.append("/");
        s.append(name);
        proof {
            reveal_strlit("/");
            assert(s@ =~= spec_join(dir@, name@));
        }
        s
    }
}

} // verus!
