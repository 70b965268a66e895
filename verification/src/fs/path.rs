//! Path normalisation, parent paths and the lexicographic order of names.
use vstd::prelude::*;
use crate::text::{trim_spec, trim_str};

verus! {

/// Left-to-right fold that rebuilds a path from its non-empty `/`-separated components:
/// the first component char of each component is preceded by a `/`. The flag tells whether
/// the fold is inside a component.
pub open spec fn norm_fold(s: Seq<char>) -> (Seq<char>, bool)
    decreases s.len(),
{
    if s.len() == 0 {
        (Seq::empty(), false)
    } else {
        let (o, inside) = norm_fold(s.drop_last());
        let c = s.last();
        if c == '/' {
            (o, false)
        } else if inside {
            (o.push(c), true)
        } else {
            (o.push('/').push(c), true)
        }
    }
}

/// `/` followed by the non-empty components joined by `/`; `/` when there is none.
pub open spec fn norm_components(s: Seq<char>) -> Seq<char> {
    let o = norm_fold(s).0;
    if o.len() == 0 {
        seq!['/']
    } else {
        o
    }
}

/// The normalised form of a user path: trimmed, then rebuilt from its components.
pub open spec fn normalize_spec(s: Seq<char>) -> Seq<char> {
    norm_components(trim_spec(s))
}

/// Normalises the characters `s` (already trimmed).
pub fn norm_chars(s: &[char]) -> (r: Vec<char>)
    ensures
        r@ == norm_components(s@),
{
    let mut o: Vec<char> = Vec::new();
    let mut inside = false;
    let mut i: usize = 0;
    while i < s.len()
        invariant
            i <= s@.len(),
            (o@, inside) == norm_fold(s@.subrange(0, i as int)),
        decreases s@.len() - i,
    {
        let c = s[i];
        proof {
            assert(s@.subrange(0, i as int + 1).drop_last() =~= s@.subrange(0, i as int));
        }
        if c == '/' {
            inside = false;
        } else if inside {
            o.push(c);
        } else {
            o.push('/');
            o.push(c);
            inside = true;
        }
        i += 1;
    }
    proof {
        assert(s@.subrange(0, i as int) =~= s@);
    }
    if o.len() == 0 {
        o.push('/');
        assert(o@ =~= seq!['/']);
    }
    o
}

proof fn lemma_refold(s: Seq<char>)
    ensures
        norm_fold(norm_fold(s).0) == (norm_fold(s).0, norm_fold(s).0.len() > 0),
        norm_fold(s).1 ==> norm_fold(s).0.len() > 0,
    decreases s.len(),
{
    if s.len() > 0 {
        let (o, inside) = norm_fold(s.drop_last());
        let c = s.last();
        lemma_refold(s.drop_last());
        if c != '/' {
            if inside {
                assert(o.push(c).drop_last() =~= o);
                assert(norm_fold(o.push(c)) == (o.push(c), true));
            } else {
                let o1 = o.push('/');
                assert(o1.drop_last() =~= o);
                assert(norm_fold(o1) == (o, false));
                assert(o1.push(c).drop_last() =~= o1);
                assert(norm_fold(o1.push(c)) == (o1.push(c), true));
            }
        }
    }
}

/// Rebuilding a path that was already rebuilt from its components changes nothing.
pub proof fn lemma_norm_idempotent(s: Seq<char>)
    ensures
        norm_components(norm_components(s)) == norm_components(s),
{
    lemma_refold(s);
    if norm_fold(s).0.len() == 0 {
        let root = seq!['/'];
        assert(root.drop_last() =~= Seq::<char>::empty());
    }
}

/// An absolute path without empty components: it starts with `/`, and every `/` is
/// followed by a character other than `/`.
pub open spec fn clean_abs_path(s: Seq<char>) -> bool {
    &&& s.len() >= 2
    &&& s[0] == '/'
    &&& forall|i: int| 0 <= i < s.len() && #[trigger] s[i] == '/' ==> i + 1 < s.len() && s[i + 1] != '/'
}

proof fn lemma_norm_clean_prefix(s: Seq<char>, k: int)
    requires
        clean_abs_path(s),
        1 <= k <= s.len(),
    ensures
        s[k - 1] == '/' ==> norm_fold(s.subrange(0, k)) == (s.subrange(0, k - 1), false),
        s[k - 1] != '/' ==> norm_fold(s.subrange(0, k)) == (s.subrange(0, k), true),
    decreases k,
{
    let sk = s.subrange(0, k);
    if k == 1 {
        assert(sk.drop_last() =~= Seq::<char>::empty());
        assert(s.subrange(0, 0) =~= Seq::<char>::empty());
        assert(sk.last() == s[0]);
        assert(norm_fold(Seq::<char>::empty()) == (Seq::<char>::empty(), false));
    } else {
        lemma_norm_clean_prefix(s, k - 1);
        assert(sk.drop_last() =~= s.subrange(0, k - 1));
        assert(sk.last() == s[k - 1]);
        if s[k - 1] == '/' {
            assert(s[k - 2] != '/');
        } else if s[k - 2] == '/' {
            assert(s.subrange(0, k - 2).push('/').push(s[k - 1]) =~= sk);
        } else {
            assert(s.subrange(0, k - 1).push(s[k - 1]) =~= sk);
        }
    }
}

/// A clean absolute path is already normal: normalising it gives it back unchanged.
pub proof fn lemma_norm_keeps_clean(s: Seq<char>)
    requires
        clean_abs_path(s),
    ensures
        norm_components(s) == s,
{
    lemma_norm_clean_prefix(s, s.len() as int);
    assert(s.subrange(0, s.len() as int) =~= s);
    if s.last() == '/' {
        assert(s[s.len() - 1] == '/');
    }
}

/// Reading the same characters after two paths that fold to the same state leaves them in
/// the same state.
proof fn lemma_norm_congruent(s1: Seq<char>, s2: Seq<char>, t: Seq<char>)
    requires
        norm_fold(s1) == norm_fold(s2),
    ensures
        norm_fold(s1 + t) == norm_fold(s2 + t),
    decreases t.len(),
{
    if t.len() == 0 {
        assert(s1 + t =~= s1);
        assert(s2 + t =~= s2);
    } else {
        let u = t.drop_last();
        lemma_norm_congruent(s1, s2, u);
        assert((s1 + t).drop_last() =~= s1 + u);
        assert((s2 + t).drop_last() =~= s2 + u);
        assert((s1 + t).last() == t.last());
        assert((s2 + t).last() == t.last());
    }
}

/// Repeated slashes count as one, and a trailing slash changes nothing: `p//t` normalises
/// like `p/t`, and `p/` like `p`.
pub proof fn lemma_norm_slashes(p: Seq<char>, t: Seq<char>)
    ensures
        norm_components(p + seq!['/', '/'] + t) == norm_components(p + seq!['/'] + t),
        norm_components(p + seq!['/']) == norm_components(p),
{
    let s1 = p + seq!['/'];
    let s2 = s1.push('/');
    assert(s1.drop_last() =~= p);
    assert(s2.drop_last() =~= s1);
    assert(norm_fold(s2) == norm_fold(s1));
    lemma_norm_congruent(s2, s1, t);
    assert(p + seq!['/', '/'] + t =~= s2 + t);
    assert(p + seq!['/'] + t =~= s1 + t);
}

/// Normalises a user-supplied path.
pub fn normalize(path: &str) -> (r: Vec<char>)
    ensures
        r@ == normalize_spec(path@),
{
    let t = trim_str(path);
    norm_chars(t.as_slice())
}

/// Trailing `/` removed, as `trim_end_matches('/')`.
pub open spec fn trim_end_slash(s: Seq<char>) -> Seq<char>
    decreases s.len(),
{
    if s.len() > 0 && s.last() == '/' {
        trim_end_slash(s.drop_last())
    } else {
        s
    }
}

/// Index of the last `/` in `s`, or -1.
pub open spec fn last_slash(s: Seq<char>) -> int
    decreases s.len(),
{
    if s.len() == 0 {
        -1
    } else if s.last() == '/' {
        s.len() - 1
    } else {
        last_slash(s.drop_last())
    }
}

/// The parent directory of a path: everything before the last `/` (the root for a
/// top-level name), or none when there is no `/` after trailing ones are dropped.
pub open spec fn parent_spec(p: Seq<char>) -> Option<Seq<char>> {
    let t = trim_end_slash(p);
    let i = last_slash(t);
    if i < 0 {
        None
    } else if i == 0 {
        Some(seq!['/'])
    } else {
        Some(t.subrange(0, i))
    }
}

proof fn lemma_last_slash_bounds(s: Seq<char>)
    ensures
        -1 <= last_slash(s) < s.len(),
        last_slash(s) >= 0 ==> s[last_slash(s)] == '/',
    decreases s.len(),
{
    if s.len() > 0 && s.last() != '/' {
        lemma_last_slash_bounds(s.drop_last());
    }
}

pub fn parent_path(p: &[char]) -> (r: Option<Vec<char>>)
    ensures
        match r {
            Some(v) => parent_spec(p@) == Some(v@),
            None => parent_spec(p@).is_none(),
        },
{
    let mut n = p.len();
    proof {
        assert(p@.subrange(0, n as int) =~= p@);
    }
    while n > 0 && p[n - 1] == '/'
        invariant
            n <= p@.len(),
            trim_end_slash(p@) == trim_end_slash(p@.subrange(0, n as int)),
        decreases n,
    {
        proof {
            assert(p@.subrange(0, n as int).drop_last() =~= p@.subrange(0, n as int - 1));
        }
        n -= 1;
    }
    let ghost t = p@.subrange(0, n as int);
    assert(trim_end_slash(t) == t);
    let mut j = n;
    while j > 0 && p[j - 1] != '/'
        invariant
            j <= n <= p@.len(),
            t == p@.subrange(0, n as int),
            last_slash(t) == last_slash(p@.subrange(0, j as int)),
        decreases j,
    {
        proof {
            assert(p@.subrange(0, j as int).drop_last() =~= p@.subrange(0, j as int - 1));
        }
        j -= 1;
    }
    if j == 0 {
        None
    } else {
        let i = j - 1;
        assert(last_slash(t) == i);
        if i == 0 {
            let mut v: Vec<char> = Vec::new();
            v.push('/');
            assert(v@ =~= seq!['/']);
            Some(v)
        } else {
            let v = crate::text::slice_range(p, 0, i);
            assert(v@ =~= t.subrange(0, i as int));
            Some(v)
        }
    }
}

/// Lexicographic order of character sequences by code point (the order of `str` comparison).
pub open spec fn lex_lt(a: Seq<char>, b: Seq<char>) -> bool
    decreases a.len(),
{
    if a.len() == 0 {
        b.len() > 0
    } else if b.len() == 0 {
        false
    } else if (a[0] as u32) < (b[0] as u32) {
        true
    } else if a[0] == b[0] {
        lex_lt(a.drop_first(), b.drop_first())
    } else {
        false
    }
}

pub proof fn lemma_lex_irrefl(a: Seq<char>)
    ensures
        !lex_lt(a, a),
    decreases a.len(),
{
    if a.len() > 0 {
        lemma_lex_irrefl(a.drop_first());
    }
}

pub proof fn lemma_lex_trans(a: Seq<char>, b: Seq<char>, c: Seq<char>)
    requires
        lex_lt(a, b),
        lex_lt(b, c),
    ensures
        lex_lt(a, c),
    decreases a.len(),
{
    if a.len() > 0 && b.len() > 0 && c.len() > 0 && a[0] == b[0] && b[0] == c[0] {
        lemma_lex_trans(a.drop_first(), b.drop_first(), c.drop_first());
    }
}

pub proof fn lemma_lex_total(a: Seq<char>, b: Seq<char>)
    requires
        a != b,
    ensures
        lex_lt(a, b) || lex_lt(b, a),
    decreases a.len(),
{
    if a.len() > 0 && b.len() > 0 && a[0] == b[0] {
        if a.drop_first() =~= b.drop_first() {
            assert(a.len() == b.len());
            assert forall|k: int| 0 <= k < a.len() implies a[k] == b[k] by {
                if k > 0 {
                    assert(a[k] == a.drop_first()[k - 1]);
                    assert(b[k] == b.drop_first()[k - 1]);
                }
            }
            assert(a =~= b);
        }
        lemma_lex_total(a.drop_first(), b.drop_first());
    } else if a.len() == 0 && b.len() == 0 {
        assert(a =~= b);
    } else if a.len() > 0 && b.len() > 0 {
        if (a[0] as u32) == (b[0] as u32) {
            vstd::utf8::char_u32_cast(a[0], a[0] as u32);
            vstd::utf8::char_u32_cast(b[0], b[0] as u32);
        }
    }
}

pub proof fn lemma_lex_asym(a: Seq<char>, b: Seq<char>)
    requires
        lex_lt(a, b),
    ensures
        !lex_lt(b, a),
    decreases a.len(),
{
    if a.len() > 0 && b.len() > 0 && a[0] == b[0] {
        lemma_lex_asym(a.drop_first(), b.drop_first());
    }
}

/// Whether `a` sorts strictly before `b`.
pub fn lex_less(a: &[char], b: &[char]) -> (r: bool)
    ensures
        r == lex_lt(a@, b@),
{
    let mut i: usize = 0;
    proof {
        assert(a@.skip(0) =~= a@);
        assert(b@.skip(0) =~= b@);
    }
    while i < a.len() && i < b.len() && a[i] == b[i]
        invariant
            i <= a@.len(),
            i <= b@.len(),
            lex_lt(a@, b@) == lex_lt(a@.skip(i as int), b@.skip(i as int)),
        decreases a@.len() - i,
    {
        proof {
            assert(a@.skip(i as int).drop_first() =~= a@.skip(i as int + 1));
            assert(b@.skip(i as int).drop_first() =~= b@.skip(i as int + 1));
        }
        i += 1;
    }
    if i == a.len() {
        i < b.len()
    } else if i == b.len() {
        false
    } else {
        (a[i] as u32) < (b[i] as u32)
    }
}

} // verus!
