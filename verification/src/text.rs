//! Character-sequence helpers shared by the text-producing modules: a string's characters,
//! a string built back from characters, decimal digits, slicing and searching, joining,
//! and the lexicographic order strings are sorted by.

use vstd::prelude::*;

verus! {

/// The character for a decimal digit `0..=9`.
pub open spec fn digit_char(d: nat) -> char {
    (('0' as nat) + d) as char
}

/// The decimal representation of `n`, most significant digit first, no leading zeros.
pub open spec fn decimal(n: nat) -> Seq<char>
    decreases n,
{
    if n < 10 {
        seq![digit_char(n)]
    } else {
        decimal(n / 10).push(digit_char(n % 10))
    }
}

/// The decimal digits of `n`.
pub fn decimal_chars(n: u64) -> (r: Vec<char>)
    ensures
        r@ == decimal(n as nat),
    decreases n,
{
    let d = (n % 10) as u8;
    let c = (48u8 + d) as char;
    proof {
        assert(c == digit_char((n % 10) as nat));
    }
    if n < 10 {
        let mut v = Vec::new();
        v.push(c);
        assert(v@ =~= seq![digit_char(n as nat)]);
        v
    } else {
        let mut v = decimal_chars(n / 10);
        v.push(c);
        v
    }
}

/// The characters of `s`, in order.
pub fn chars_of(s: &str) -> (r: Vec<char>)
    ensures
        r@ == s@,
{
    broadcast use vstd::string::group_string_axioms;
    let mut out: Vec<char> = Vec::new();
    for c in it: s.chars()
        invariant
            out@ == it.seq().take(it.index()),
            it.seq() == s@,
    {
        out.push(c);
        assert(out@ =~= it.seq().take(it.index() + 1));
    }
    assert(out@ =~= s@);
    out
}

/// `v[from..to]`.
pub fn sub_chars(v: &Vec<char>, from: usize, to: usize) -> (r: Vec<char>)
    requires
        from <= to <= v.len(),
    ensures
        r@ == v@.subrange(from as int, to as int),
{
    let mut out: Vec<char> = Vec::new();
    let mut i = from;
    while i < to
        invariant
            from <= i <= to,
            to <= v.len(),
            out@ == v@.subrange(from as int, i as int),
        decreases to - i,
    {
        out.push(v[i]);
        assert(out@ =~= v@.subrange(from as int, i + 1));
        i = i + 1;
    }
    out
}

/// Appends `src` to `dst`.
pub fn append_chars(dst: &mut Vec<char>, src: &Vec<char>)
    ensures
        final(dst)@ == old(dst)@ + src@,
{
    let ghost start = dst@;
    let mut i: usize = 0;
    while i < src.len()
        invariant
            i <= src.len(),
            dst@ == start + src@.subrange(0, i as int),
        decreases src.len() - i,
    {
        dst.push(src[i]);
        assert(dst@ =~= start + src@.subrange(0, i + 1));
        i = i + 1;
    }
    assert(src@.subrange(0, src.len() as int) =~= src@);
}

/// Whether `a` and `b` hold the same characters.
pub fn same_chars(a: &Vec<char>, b: &Vec<char>) -> (r: bool)
    ensures
        r == (a@ == b@),
{
    if a.len() != b.len() {
        return false;
    }
    let mut i: usize = 0;
    while i < a.len()
        invariant
            a.len() == b.len(),
            i <= a.len(),
            forall|j: int| 0 <= j < i ==> a@[j] == b@[j],
        decreases a.len() - i,
    {
        if a[i] != b[i] {
            return false;
        }
        i = i + 1;
    }
    assert(a@ =~= b@);
    true
}

/// The position of the last `c` in `s`, if there is one.
pub open spec fn last_index_of(s: Seq<char>, c: char) -> Option<int>
    decreases s.len(),
{
    if s.len() == 0 {
        None
    } else if s.last() == c {
        Some(s.len() - 1)
    } else {
        last_index_of(s.drop_last(), c)
    }
}

proof fn lemma_last_index_of_prefix(s: Seq<char>, c: char, n: int)
    requires
        0 <= n <= s.len(),
        forall|j: int| n <= j < s.len() ==> s[j] != c,
    ensures
        last_index_of(s, c) == last_index_of(s.subrange(0, n), c),
    decreases s.len() - n,
{
    if n < s.len() {
        assert(s.drop_last() =~= s.subrange(0, s.len() - 1));
        lemma_last_index_of_prefix(s.drop_last(), c, n);
        assert(s.drop_last().subrange(0, n) =~= s.subrange(0, n));
    } else {
        assert(s.subrange(0, n) =~= s);
    }
}

/// `str::rfind` for a character: where the last `c` in `s` is.
pub fn rfind_char(s: &Vec<char>, c: char) -> (r: Option<usize>)
    ensures
        match r {
            Some(i) => i < s.len() && last_index_of(s@, c) == Some(i as int),
            None => last_index_of(s@, c) is None,
        },
{
    let mut n = s.len();
    while n > 0
        invariant
            n <= s.len(),
            forall|j: int| n <= j < s.len() ==> s@[j] != c,
        decreases n,
    {
        if s[n - 1] == c {
            proof {
                lemma_last_index_of_prefix(s@, c, n as int);
                assert(s@.subrange(0, n as int).last() == c);
            }
            return Some(n - 1);
        }
        n = n - 1;
    }
    proof {
        lemma_last_index_of_prefix(s@, c, 0);
    }
    None
}

/// Lexicographic order by character (Unicode scalar value), a proper prefix first: the
/// order `str`'s `Ord` sorts by.
pub open spec fn lex_lt(a: Seq<char>, b: Seq<char>) -> bool
    decreases a.len(),
{
    if a.len() == 0 {
        b.len() > 0
    } else if b.len() == 0 {
        false
    } else if a[0] != b[0] {
        a[0] < b[0]
    } else {
        lex_lt(a.drop_first(), b.drop_first())
    }
}

/// No string comes before itself.
pub proof fn lemma_lex_irreflexive(a: Seq<char>)
    ensures
        !lex_lt(a, a),
    decreases a.len(),
{
    if a.len() > 0 {
        lemma_lex_irreflexive(a.drop_first());
    }
}

/// The order is transitive.
pub proof fn lemma_lex_transitive(a: Seq<char>, b: Seq<char>, c: Seq<char>)
    requires
        lex_lt(a, b),
        lex_lt(b, c),
    ensures
        lex_lt(a, c),
    decreases a.len(),
{
    if a.len() > 0 && b.len() > 0 && c.len() > 0 && a[0] == b[0] && b[0] == c[0] {
        lemma_lex_transitive(a.drop_first(), b.drop_first(), c.drop_first());
    }
}

/// Of two different strings, one comes first.
pub proof fn lemma_lex_total(a: Seq<char>, b: Seq<char>)
    requires
        a != b,
    ensures
        lex_lt(a, b) || lex_lt(b, a),
    decreases a.len(),
{
    if a.len() > 0 && b.len() > 0 && a[0] == b[0] {
        if a.drop_first() == b.drop_first() {
            assert(a =~= seq![a[0]] + a.drop_first());
            assert(b =~= seq![b[0]] + b.drop_first());
        }
        lemma_lex_total(a.drop_first(), b.drop_first());
    } else if a.len() == 0 && b.len() == 0 {
        assert(a =~= b);
    }
}

proof fn lemma_lex_skip(a: Seq<char>, b: Seq<char>, i: int)
    requires
        0 <= i <= a.len(),
        i <= b.len(),
        forall|j: int| 0 <= j < i ==> a[j] == b[j],
    ensures
        lex_lt(a, b) == lex_lt(a.skip(i), b.skip(i)),
    decreases i,
{
    if i > 0 {
        lemma_lex_skip(a.drop_first(), b.drop_first(), i - 1);
        assert(a.drop_first().skip(i - 1) =~= a.skip(i));
        assert(b.drop_first().skip(i - 1) =~= b.skip(i));
    } else {
        assert(a.skip(0) =~= a);
        assert(b.skip(0) =~= b);
    }
}

/// Whether `a` sorts before `b`.
pub fn lex_less(a: &Vec<char>, b: &Vec<char>) -> (r: bool)
    ensures
        r == lex_lt(a@, b@),
{
    let mut i: usize = 0;
    while i < a.len() && i < b.len() && a[i] == b[i]
        invariant
            i <= a.len(),
            i <= b.len(),
            forall|j: int| 0 <= j < i ==> a@[j] == b@[j],
        decreases a.len() - i,
    {
        i = i + 1;
    }
    proof {
        lemma_lex_skip(a@, b@, i as int);
    }
    if i == a.len() {
        i < b.len()
    } else if i == b.len() {
        false
    } else {
        proof {
            assert(a@.skip(i as int)[0] == a@[i as int]);
            assert(b@.skip(i as int)[0] == b@[i as int]);
        }
        a[i] < b[i]
    }
}

/// Each string sorts before the next: sorted, with no string twice.
pub open spec fn strictly_sorted(q: Seq<Seq<char>>) -> bool {
    forall|a: int, b: int| 0 <= a < b < q.len() ==> lex_lt(#[trigger] q[a], #[trigger] q[b])
}

/// The strings of `s` in sorted order, each once: what iterating a `BTreeSet<&str>` of
/// them yields.
pub open spec fn sorted_set(s: Set<Seq<char>>) -> Seq<Seq<char>> {
    choose|q: Seq<Seq<char>>| strictly_sorted(q) && q.to_set() == s
}

/// The views of a vector of character vectors.
pub open spec fn views_of(v: Seq<Vec<char>>) -> Seq<Seq<char>> {
    v.map_values(|w: Vec<char>| w@)
}

proof fn lemma_sorted_first_is_least(q: Seq<Seq<char>>, x: Seq<char>)
    requires
        strictly_sorted(q),
        q.len() > 0,
        q.contains(x),
        x != q[0],
    ensures
        lex_lt(q[0], x),
{
    let i = q.index_of(x);
    assert(q[i] == x);
}

proof fn lemma_sorted_unique_rec(p: Seq<Seq<char>>, q: Seq<Seq<char>>)
    requires
        strictly_sorted(p),
        strictly_sorted(q),
        p.to_set() == q.to_set(),
    ensures
        p == q,
    decreases p.len(),
{
    if p.len() == 0 {
        if q.len() > 0 {
            assert(q.to_set().contains(q[0]));
        }
        assert(p =~= q);
    } else {
        assert(p.to_set().contains(p[0]));
        assert(q.len() > 0);
        assert(q.to_set().contains(q[0]));
        if p[0] != q[0] {
            lemma_sorted_first_is_least(q, p[0]);
            lemma_sorted_first_is_least(p, q[0]);
            lemma_lex_transitive(p[0], q[0], p[0]);
            lemma_lex_irreflexive(p[0]);
        }
        let p1 = p.drop_first();
        let q1 = q.drop_first();
        assert forall|x: Seq<char>| p1.to_set().contains(x) <==> q1.to_set().contains(x) by {
            if p1.to_set().contains(x) {
                let i = p1.index_of(x);
                assert(p[i + 1] == x);
                assert(lex_lt(p[0], x));
                lemma_lex_irreflexive(x);
                assert(q.to_set().contains(x));
                let j = q.index_of(x);
                assert(j != 0);
                assert(q1[j - 1] == x);
            }
            if q1.to_set().contains(x) {
                let j = q1.index_of(x);
                assert(q[j + 1] == x);
                assert(lex_lt(q[0], x));
                lemma_lex_irreflexive(x);
                assert(p.to_set().contains(x));
                let i = p.index_of(x);
                assert(i != 0);
                assert(p1[i - 1] == x);
            }
        }
        assert(p1.to_set() =~= q1.to_set());
        lemma_sorted_unique_rec(p1, q1);
        assert(p =~= seq![p[0]] + p1);
        assert(q =~= seq![q[0]] + q1);
    }
}

/// A sorted sequence without repeats is determined by its strings: it is `sorted_set`
/// of them.
pub proof fn lemma_sorted_set_unique(q: Seq<Seq<char>>, s: Set<Seq<char>>)
    requires
        strictly_sorted(q),
        q.to_set() == s,
    ensures
        sorted_set(s) == q,
{
    let r = sorted_set(s);
    assert(strictly_sorted(r) && r.to_set() == s);
    lemma_sorted_unique_rec(r, q);
}

/// Adds `x` to the sorted strings `v`, unless it is already there.
pub fn insert_sorted(v: &mut Vec<Vec<char>>, x: Vec<char>)
    requires
        strictly_sorted(views_of(old(v)@)),
    ensures
        strictly_sorted(views_of(final(v)@)),
        views_of(final(v)@).to_set() == views_of(old(v)@).to_set().insert(x@),
{
    let ghost old_views = views_of(v@);
    let mut p: usize = 0;
    while p < v.len() && lex_less(&v[p], &x)
        invariant
            p <= v.len(),
            old_views == views_of(v@),
            forall|k: int| 0 <= k < p ==> lex_lt(#[trigger] old_views[k], x@),
        decreases v.len() - p,
    {
        p = p + 1;
    }
    if p < v.len() && same_chars(&v[p], &x) {
        assert(old_views[p as int] == x@);
        assert(old_views.to_set() =~= old_views.to_set().insert(x@));
        return;
    }
    let ghost xv = x@;
    proof {
        if p < v.len() {
            lemma_lex_total(old_views[p as int], xv);
        }
    }
    v.insert(p, x);
    let ghost nv = views_of(v@);
    assert(nv =~= old_views.insert(p as int, xv));
    assert forall|a: int, b: int| 0 <= a < b < nv.len() implies lex_lt(#[trigger] nv[a], #[trigger] nv[b]) by {
        if b < p {
            assert(nv[a] == old_views[a] && nv[b] == old_views[b]);
        } else if b == p {
            assert(nv[a] == old_views[a]);
        } else if a == p {
            assert(nv[b] == old_views[b - 1]);
            if b - 1 > p {
                lemma_lex_transitive(xv, old_views[p as int], old_views[b - 1]);
            }
        } else if a < p {
            assert(nv[a] == old_views[a] && nv[b] == old_views[b - 1]);
            lemma_lex_transitive(old_views[a], xv, old_views[p as int]);
            if b - 1 > p {
                lemma_lex_transitive(old_views[a], old_views[p as int], old_views[b - 1]);
            }
        } else {
            assert(nv[a] == old_views[a - 1] && nv[b] == old_views[b - 1]);
        }
    }
    assert forall|y: Seq<char>| nv.to_set().contains(y) <==> old_views.to_set().insert(xv).contains(y) by {
        if nv.to_set().contains(y) {
            let i = nv.index_of(y);
            if i < p {
                assert(old_views[i] == y);
            } else if i > p {
                assert(old_views[i - 1] == y);
            }
        }
        if old_views.to_set().contains(y) {
            let i = old_views.index_of(y);
            if i < p {
                assert(nv[i] == y);
            } else {
                assert(nv[i + 1] == y);
            }
        }
        if y == xv {
            assert(nv[p as int] == y);
        }
    }
    assert(nv.to_set() =~= old_views.to_set().insert(xv));
}

/// `ws` joined with `sep` between neighbours.
pub open spec fn join_with(ws: Seq<Seq<char>>, sep: Seq<char>) -> Seq<char>
    decreases ws.len(),
{
    if ws.len() == 0 {
        Seq::empty()
    } else if ws.len() == 1 {
        ws[0]
    } else {
        join_with(ws.drop_last(), sep) + sep + ws.last()
    }
}

/// Appends `ws` joined with `sep` to `dst`.
pub fn append_joined(dst: &mut Vec<char>, ws: &Vec<Vec<char>>, sep: &Vec<char>)
    ensures
        final(dst)@ == old(dst)@ + join_with(ws@.map_values(|w: Vec<char>| w@), sep@),
{
    let ghost start = dst@;
    let ghost views = ws@.map_values(|w: Vec<char>| w@);
    let mut i: usize = 0;
    while i < ws.len()
        invariant
            i <= ws.len(),
            views == ws@.map_values(|w: Vec<char>| w@),
            dst@ == start + join_with(views.subrange(0, i as int), sep@),
        decreases ws.len() - i,
    {
        if i > 0 {
            append_chars(dst, sep);
        }
        append_chars(dst, &ws[i]);
        proof {
            let next = views.subrange(0, i + 1);
            assert(next.drop_last() =~= views.subrange(0, i as int));
            assert(next.last() == ws@[i as int]@);
            if i == 0 {
                assert(join_with(views.subrange(0, 0), sep@) =~= Seq::<char>::empty());
            }
        }
        i = i + 1;
    }
    assert(views.subrange(0, ws.len() as int) =~= views);
}

/// std's `String: FromIterator<char>` — the string made of `chars`, in order.
#[verifier::external_body]
pub fn string_from_chars(chars: &Vec<char>) -> (s: String)
    ensures
        s@ == chars@,
{
    chars.iter().collect()
}

} // verus!
