//! Character-level string utilities.
//!
//! All text handling in this crate works over `Vec<char>` so that every
//! scan, split and comparison is verified against `Seq<char>` views.
//! The only trusted item here is the single `String::push` call used to
//! rebuild a `String` from characters.

use vstd::prelude::*;

verus! {

/// Relies on String::push: appends exactly one character to the string.
#[verifier::external_body]
pub fn push_char(s: &mut String, c: char)
    ensures
        final(s)@ == old(s)@.push(c),
{
    s.push(c);
}

/// The characters of `s`, in order.
pub fn str_chars(s: &str) -> (r: Vec<char>)
    ensures
        r@ == s@,
{
    let n = s.unicode_len();
    let mut v: Vec<char> = Vec::new();
    let mut i: usize = 0;
    while i < n
        invariant
            i <= n,
            n == s@.len(),
            v@ == s@.take(i as int),
        decreases n - i,
    {
        let c = s.get_char(i);
        v.push(c);
        assert(v@ =~= s@.take(i + 1));
        i = i + 1;
    }
    assert(v@ =~= s@);
    v
}

/// The string holding exactly the characters of `v`.
pub fn chars_string(v: &Vec<char>) -> (r: String)
    ensures
        r@ == v@,
{
    let mut s = String::new();
    let mut i: usize = 0;
    while i < v.len()
        invariant
            i <= v@.len(),
            s@ == v@.take(i as int),
        decreases v@.len() - i,
    {
        push_char(&mut s, v[i]);
        assert(s@ =~= v@.take(i + 1));
        i = i + 1;
    }
    assert(s@ =~= v@);
    s
}

/// ASCII whitespace, the only kind the probed tools emit.
pub open spec fn is_space(c: char) -> bool {
    c == ' ' || c == '\t' || c == '\n' || c == '\r' || c == '\u{b}' || c == '\u{c}'
}

pub fn is_space_exec(c: char) -> (r: bool)
    ensures
        r == is_space(c),
{
    c == ' ' || c == '\t' || c == '\n' || c == '\r' || c == '\u{b}' || c == '\u{c}'
}

/// `n` occurs in `h` at position `i`.
pub open spec fn match_at(h: Seq<char>, n: Seq<char>, i: int) -> bool {
    0 <= i && i + n.len() <= h.len() && h.subrange(i, i + n.len()) == n
}

/// `n` occurs somewhere in `h`.
pub open spec fn contains_seq(h: Seq<char>, n: Seq<char>) -> bool {
    exists|i: int| match_at(h, n, i)
}

pub open spec fn starts_with_seq(h: Seq<char>, n: Seq<char>) -> bool {
    n.len() <= h.len() && h.take(n.len() as int) == n
}

/// Whether `n` occurs in `h` at position `i`.
pub fn chars_match_at(h: &Vec<char>, n: &Vec<char>, i: usize) -> (r: bool)
    requires
        i + n@.len() <= h@.len(),
    ensures
        r == match_at(h@, n@, i as int),
{
    let hn = h.len();
    let mut j: usize = 0;
    while j < n.len()
        invariant
            j <= n@.len(),
            i + n@.len() <= h@.len(),
            hn == h@.len(),
            forall|k: int| 0 <= k < j ==> h@[i + k] == n@[k],
        decreases n@.len() - j,
    {
        if h[i + j] != n[j] {
            assert(h@.subrange(i as int, i + n@.len())[j as int] != n@[j as int]);
            return false;
        }
        j = j + 1;
    }
    assert(h@.subrange(i as int, i + n@.len()) =~= n@);
    true
}

/// Whether `n` occurs anywhere in `h`.
pub fn chars_contains(h: &Vec<char>, n: &Vec<char>) -> (r: bool)
    ensures
        r == contains_seq(h@, n@),
{
    if n.len() > h.len() {
        return false;
    }
    if n.len() == 0 {
        assert(h@.subrange(0, 0) =~= n@);
        assert(match_at(h@, n@, 0));
        return true;
    }
    let last = h.len() - n.len();
    let mut i: usize = 0;
    while i <= last
        invariant
            0 < n@.len() <= h@.len(),
            last == h@.len() - n@.len(),
            i <= last + 1,
            last < usize::MAX,
            forall|k: int| 0 <= k < i ==> !match_at(h@, n@, k),
        decreases last + 1 - i,
    {
        if chars_match_at(h, n, i) {
            return true;
        }
        i = i + 1;
    }
    false
}

/// Whether `h` starts with `n`.
pub fn chars_starts_with(h: &Vec<char>, n: &Vec<char>) -> (r: bool)
    ensures
        r == starts_with_seq(h@, n@),
{
    if n.len() > h.len() {
        return false;
    }
    let r = chars_match_at(h, n, 0);
    assert(h@.subrange(0, n@.len() as int) == h@.take(n@.len() as int));
    r
}

pub fn chars_eq(a: &Vec<char>, b: &Vec<char>) -> (r: bool)
    ensures
        r == (a@ == b@),
{
    if a.len() != b.len() {
        return false;
    }
    let r = chars_match_at(a, b, 0);
    assert(a@.subrange(0, b@.len() as int) == a@);
    r
}

/// The first position `n` occurs at in `h`, if any.
pub open spec fn find_sub(h: Seq<char>, n: Seq<char>) -> Option<int>
    decreases h.len(),
{
    if n.len() == 0 {
        Some(0)
    } else if h.len() < n.len() {
        None
    } else if h.take(n.len() as int) == n {
        Some(0)
    } else {
        match find_sub(h.drop_first(), n) {
            Some(i) => Some(i + 1),
            None => None,
        }
    }
}

/// Finds the first occurrence of `n` in `h`.
pub fn chars_find(h: &Vec<char>, n: &Vec<char>) -> (r: Option<usize>)
    ensures
        match r {
            Some(i) => i + n@.len() <= h@.len() && find_sub(h@, n@) == Some(i as int),
            None => find_sub(h@, n@) is None,
        },
{
    let ghost hs = h@;
    proof {
        assert(hs.skip(0) =~= hs);
    }
    if n.len() == 0 {
        return Some(0);
    }
    if n.len() > h.len() {
        return None;
    }
    let lastp = h.len() - n.len();
    let mut i: usize = 0;
    while i <= lastp
        invariant
            0 < n@.len() <= h@.len(),
            lastp == h@.len() - n@.len(),
            i <= lastp + 1,
            lastp < usize::MAX,
            hs == h@,
            find_sub(hs, n@) == match find_sub(hs.skip(i as int), n@) {
                Some(j) => Some(i + j),
                None => None::<int>,
            },
        decreases lastp + 1 - i,
    {
        proof {
            assert(hs.skip(i as int).take(n@.len() as int) =~= hs.subrange(
                i as int,
                i + n@.len(),
            ));
            assert(hs.skip(i as int).drop_first() =~= hs.skip(i + 1));
        }
        if chars_match_at(h, n, i) {
            return Some(i);
        }
        i = i + 1;
    }
    proof {
        assert(hs.skip(i as int).len() < n@.len());
    }
    None
}

/// `s` ends with `suf`.
pub open spec fn ends_with_seq(s: Seq<char>, suf: Seq<char>) -> bool {
    suf.len() <= s.len() && s.skip(s.len() - suf.len()) == suf
}

/// Whether `h` ends with `n`.
pub fn chars_ends_with(h: &Vec<char>, n: &Vec<char>) -> (r: bool)
    ensures
        r == ends_with_seq(h@, n@),
{
    if n.len() > h.len() {
        return false;
    }
    let r = chars_match_at(h, n, h.len() - n.len());
    assert(h@.subrange(h@.len() - n@.len(), h@.len() as int) == h@.skip(h@.len() - n@.len()));
    r
}

/// `s` with every trailing copy of `suf` removed.
pub open spec fn strip_suffix_rep(s: Seq<char>, suf: Seq<char>) -> Seq<char>
    decreases s.len(),
{
    if suf.len() > 0 && ends_with_seq(s, suf) {
        strip_suffix_rep(s.take(s.len() - suf.len()), suf)
    } else {
        s
    }
}

/// Removes every trailing copy of `suf`.
pub fn chars_strip_suffix_rep(v: &Vec<char>, suf: &Vec<char>) -> (r: Vec<char>)
    ensures
        r@ == strip_suffix_rep(v@, suf@),
    decreases v@.len(),
{
    if suf.len() > 0 && chars_ends_with(v, suf) {
        let cut = chars_slice(v, 0, v.len() - suf.len());
        proof {
            assert(cut@ =~= v@.take(v@.len() - suf@.len()));
        }
        chars_strip_suffix_rep(&cut, suf)
    } else {
        let r = chars_slice(v, 0, v.len());
        proof {
            assert(r@ =~= v@);
        }
        r
    }
}

/// The copy of `v[a..b]`.
pub fn chars_slice(v: &Vec<char>, a: usize, b: usize) -> (r: Vec<char>)
    requires
        a <= b <= v@.len(),
    ensures
        r@ == v@.subrange(a as int, b as int),
{
    let mut r: Vec<char> = Vec::new();
    let mut i: usize = a;
    while i < b
        invariant
            a <= i <= b <= v@.len(),
            r@ == v@.subrange(a as int, i as int),
        decreases b - i,
    {
        r.push(v[i]);
        assert(r@ =~= v@.subrange(a as int, i + 1));
        i = i + 1;
    }
    r
}

pub open spec fn trim_start_rec(s: Seq<char>) -> Seq<char>
    decreases s.len(),
{
    if s.len() > 0 && is_space(s[0]) {
        trim_start_rec(s.drop_first())
    } else {
        s
    }
}

pub open spec fn trim_end_rec(s: Seq<char>) -> Seq<char>
    decreases s.len(),
{
    if s.len() > 0 && is_space(s[s.len() - 1]) {
        trim_end_rec(s.drop_last())
    } else {
        s
    }
}

/// `s` with leading and trailing whitespace removed.
pub open spec fn spec_trim(s: Seq<char>) -> Seq<char> {
    trim_end_rec(trim_start_rec(s))
}

/// Trims ASCII whitespace from both ends.
pub fn chars_trim(v: &Vec<char>) -> (r: Vec<char>)
    ensures
        r@ == spec_trim(v@),
{
    assert(v@.skip(0) =~= v@);
    let mut start: usize = 0;
    while start < v.len() && is_space_exec(v[start])
        invariant
            start <= v@.len(),
            trim_start_rec(v@) == trim_start_rec(v@.skip(start as int)),
        decreases v@.len() - start,
    {
        assert(v@.skip(start as int).drop_first() =~= v@.skip(start + 1));
        start = start + 1;
    }
    let ghost mid = v@.skip(start as int);
    assert(trim_start_rec(v@) == mid);
    let mut end: usize = v.len();
    while end > start && is_space_exec(v[end - 1])
        invariant
            start <= end <= v@.len(),
            mid == v@.skip(start as int),
            trim_end_rec(mid) == trim_end_rec(v@.subrange(start as int, end as int)),
        decreases end,
    {
        assert(v@.subrange(start as int, end as int).drop_last() =~= v@.subrange(
            start as int,
            end - 1,
        ));
        assert(v@.subrange(start as int, end as int).last() == v@[end - 1]);
        end = end - 1;
    }
    let ghost fin = v@.subrange(start as int, end as int);
    assert(trim_end_rec(fin) == fin);
    chars_slice(v, start, end)
}

/// Trimming never grows a string.
pub proof fn lemma_trim_len(s: Seq<char>)
    ensures
        trim_start_rec(s).len() <= s.len(),
        trim_end_rec(s).len() <= s.len(),
        spec_trim(s).len() <= s.len(),
    decreases s.len(),
{
    if s.len() > 0 {
        lemma_trim_len(s.drop_first());
        lemma_trim_len(s.drop_last());
        if is_space(s[0]) {
            lemma_trim_end_of(trim_start_rec(s.drop_first()));
        } else {
            lemma_trim_end_of(s);
        }
    }
}

/// Dropping whitespace from the end never grows a string.
pub proof fn lemma_trim_end_of(s: Seq<char>)
    ensures
        trim_end_rec(s).len() <= s.len(),
    decreases s.len(),
{
    if s.len() > 0 && is_space(s[s.len() - 1]) {
        lemma_trim_end_of(s.drop_last());
    }
}

/// Appends a copy of `add` to `out`.
pub fn append_chars(out: &mut Vec<char>, add: &Vec<char>)
    ensures
        final(out)@ == old(out)@ + add@,
{
    let mut i: usize = 0;
    while i < add.len()
        invariant
            i <= add@.len(),
            out@ == old(out)@ + add@.take(i as int),
        decreases add@.len() - i,
    {
        out.push(add[i]);
        proof {
            assert(old(out)@ + add@.take(i + 1) =~= (old(out)@ + add@.take(i as int)).push(
                add@[i as int],
            ));
        }
        i = i + 1;
    }
    proof {
        assert(add@.take(add@.len() as int) =~= add@);
        assert(out@ =~= old(out)@ + add@);
    }
}

/// No occurrence of `sep` in `s`.
pub open spec fn sep_free(s: Seq<char>, sep: char) -> bool {
    forall|k: int| 0 <= k < s.len() ==> s[k] != sep
}

/// `parts` joined with the separator `sep` between them.
pub open spec fn join_with(parts: Seq<Seq<char>>, sep: char) -> Seq<char>
    decreases parts.len(),
{
    if parts.len() == 0 {
        Seq::<char>::empty()
    } else if parts.len() == 1 {
        parts[0]
    } else {
        parts[0] + seq![sep] + join_with(parts.drop_first(), sep)
    }
}

/// The views of a sequence of character vectors.
pub open spec fn views(r: Seq<Vec<char>>) -> Seq<Seq<char>> {
    r.map_values(|x: Vec<char>| x@)
}

pub proof fn lemma_join_snoc(p: Seq<Seq<char>>, x: Seq<char>, sep: char)
    ensures
        join_with(p.push(x), sep) == if p.len() == 0 {
            x
        } else {
            join_with(p, sep) + seq![sep] + x
        },
    decreases p.len(),
{
    if p.len() == 0 {
        assert(p.push(x)[0] =~= x);
        assert(join_with(p.push(x), sep) == x);
    } else {
        lemma_join_snoc(p.drop_first(), x, sep);
        assert(p.push(x).drop_first() =~= p.drop_first().push(x));
        if p.len() == 1 {
            assert(p.drop_first().len() == 0);
            assert(join_with(p.push(x), sep) == p[0] + seq![sep] + x);
            assert(join_with(p, sep) == p[0]);
        } else {
            assert(join_with(p.push(x), sep) == p[0] + seq![sep] + join_with(
                p.drop_first().push(x),
                sep,
            ));
            assert(join_with(p, sep) + seq![sep] + x =~= p[0] + seq![sep] + (join_with(
                p.drop_first(),
                sep,
            ) + seq![sep] + x));
        }
    }
}

/// Splits `v` at every occurrence of `sep`. The three clauses pin the
/// result down: the parts joined by `sep` give back `v`, and no part
/// holds `sep`.
pub fn chars_split(v: &Vec<char>, sep: char) -> (r: Vec<Vec<char>>)
    ensures
        r@.len() >= 1,
        join_with(views(r@), sep) == v@,
        forall|k: int| 0 <= k < r@.len() ==> sep_free(views(r@)[k], sep),
{
    let mut done: Vec<Vec<char>> = Vec::new();
    let mut cur: Vec<char> = Vec::new();
    let mut i: usize = 0;
    while i < v.len()
        invariant
            i <= v@.len(),
            join_with(views(done@).push(cur@), sep) == v@.take(i as int),
            forall|k: int| 0 <= k < done@.len() ==> sep_free(views(done@)[k], sep),
            sep_free(cur@, sep),
        decreases v@.len() - i,
    {
        let c = v[i];
        proof {
            assert(v@.take(i + 1) =~= v@.take(i as int).push(v@[i as int]));
        }
        if c == sep {
            proof {
                lemma_join_snoc(views(done@), cur@, sep);
                lemma_join_snoc(views(done@).push(cur@), Seq::<char>::empty(), sep);
                assert(views(done@.push(cur)) =~= views(done@).push(cur@));
            }
            let ghost old_done = done@;
            let ghost old_cur = cur@;
            done.push(cur);
            cur = Vec::new();
            proof {
                assert(views(done@).push(cur@) =~= views(old_done).push(old_cur).push(
                    Seq::<char>::empty(),
                ));
                assert(join_with(views(done@).push(cur@), sep) =~= v@.take(i as int).push(sep));
            }
        } else {
            let ghost old_cur = cur@;
            cur.push(c);
            proof {
                lemma_join_snoc(views(done@), old_cur, sep);
                lemma_join_snoc(views(done@), old_cur.push(c), sep);
                assert(views(done@).push(old_cur.push(c)) =~= views(done@).push(cur@));
                if views(done@).len() == 0 {
                    assert(join_with(views(done@).push(cur@), sep) =~= v@.take(i as int).push(c));
                } else {
                    assert(join_with(views(done@), sep) + seq![sep] + old_cur.push(c) =~= (
                    join_with(views(done@), sep) + seq![sep] + old_cur).push(c));
                    assert(join_with(views(done@).push(cur@), sep) =~= v@.take(i as int).push(c));
                }
            }
        }
        i = i + 1;
    }
    proof {
        assert(v@.take(v@.len() as int) =~= v@);
    }
    let ghost old_done = done@;
    done.push(cur);
    proof {
        assert(views(done@) =~= views(old_done).push(cur@));
    }
    done
}

/// The length of the first `sep`-free segment of `s`.
pub open spec fn seg_len(s: Seq<char>, sep: char) -> nat
    decreases s.len(),
{
    if s.len() == 0 || s[0] == sep {
        0
    } else {
        1 + seg_len(s.drop_first(), sep)
    }
}

/// `s` split at every `sep`, as a function.
pub open spec fn spec_split(s: Seq<char>, sep: char) -> Seq<Seq<char>>
    decreases s.len(),
{
    let n = seg_len(s, sep) as int;
    if n >= s.len() {
        seq![s]
    } else {
        seq![s.take(n)] + spec_split(s.skip(n + 1), sep)
    }
}

pub proof fn lemma_seg_len_at(u: Seq<char>, j: int, sep: char)
    requires
        0 <= j <= u.len(),
        forall|k: int| 0 <= k < j ==> u[k] != sep,
        j == u.len() || u[j] == sep,
    ensures
        seg_len(u, sep) == j,
    decreases j,
{
    if j == 0 {
    } else {
        lemma_seg_len_at(u.drop_first(), j - 1, sep);
    }
}

/// Joining sep-free parts and splitting again gives the parts back.
pub proof fn lemma_split_join(parts: Seq<Seq<char>>, sep: char)
    requires
        parts.len() >= 1,
        forall|k: int| 0 <= k < parts.len() ==> sep_free(parts[k], sep),
    ensures
        spec_split(join_with(parts, sep), sep) == parts,
    decreases parts.len(),
{
    let s = join_with(parts, sep);
    if parts.len() == 1 {
        assert(s == parts[0]);
        lemma_seg_len_at(s, s.len() as int, sep);
        assert(spec_split(s, sep) =~= parts);
    } else {
        let p0 = parts[0];
        let rest = join_with(parts.drop_first(), sep);
        assert(s == p0 + seq![sep] + rest);
        assert(forall|k: int| 0 <= k < p0.len() ==> s[k] != sep);
        assert(s[p0.len() as int] == sep);
        lemma_seg_len_at(s, p0.len() as int, sep);
        assert(s.take(p0.len() as int) =~= p0);
        assert(s.skip(p0.len() as int + 1) =~= rest);
        lemma_split_join(parts.drop_first(), sep);
        assert(spec_split(s, sep) =~= seq![p0] + spec_split(rest, sep));
        assert(seq![p0] + parts.drop_first() =~= parts);
    }
}

/// Splits `v` at every `sep`, matching `spec_split`.
pub fn split_exact(v: &Vec<char>, sep: char) -> (r: Vec<Vec<char>>)
    ensures
        views(r@) == spec_split(v@, sep),
        r@.len() >= 1,
{
    let r = chars_split(v, sep);
    proof {
        lemma_split_join(views(r@), sep);
    }
    r
}

pub open spec fn strip_cr(l: Seq<char>) -> Seq<char> {
    if l.len() > 0 && l[l.len() - 1] == '\r' {
        l.drop_last()
    } else {
        l
    }
}

/// The lines of `s`: split at `'\n'`, a final empty segment dropped,
/// a trailing `'\r'` stripped from each line.
pub open spec fn spec_lines(s: Seq<char>) -> Seq<Seq<char>> {
    let p = spec_split(s, '\n');
    let q = if p[p.len() - 1].len() == 0 {
        p.drop_last()
    } else {
        p
    };
    q.map_values(|l: Seq<char>| strip_cr(l))
}

/// The lines of `v`.
pub fn lines_of(v: &Vec<char>) -> (r: Vec<Vec<char>>)
    ensures
        views(r@) == spec_lines(v@),
{
    let mut p = split_exact(v, '\n');
    let ghost fullp = views(p@);
    let lastlen = p[p.len() - 1].len();
    if lastlen == 0 {
        let _ = p.pop();
        proof {
            assert(views(p@) =~= fullp.drop_last());
        }
    }
    let ghost q = views(p@);
    let mut out: Vec<Vec<char>> = Vec::new();
    let mut i: usize = 0;
    while i < p.len()
        invariant
            i <= p@.len(),
            q == views(p@),
            views(out@) == q.take(i as int).map_values(|l: Seq<char>| strip_cr(l)),
        decreases p@.len() - i,
    {
        let line = &p[i];
        let n = line.len();
        let stripped: Vec<char> = if n > 0 && line[n - 1] == '\r' {
            chars_slice(line, 0, n - 1)
        } else {
            chars_slice(line, 0, n)
        };
        proof {
            assert(v@.len() >= 0);
            if n > 0 && line@[n - 1] == '\r' {
                assert(stripped@ =~= line@.drop_last());
            } else {
                assert(stripped@ =~= line@);
            }
            assert(stripped@ == strip_cr(q[i as int]));
        }
        let ghost old_out = views(out@);
        out.push(stripped);
        proof {
            assert(views(out@) =~= old_out.push(strip_cr(q[i as int])));
            assert(q.take(i + 1).map_values(|l: Seq<char>| strip_cr(l)) =~= q.take(
                i as int,
            ).map_values(|l: Seq<char>| strip_cr(l)).push(strip_cr(q[i as int])));
        }
        i = i + 1;
    }
    proof {
        assert(q.take(q.len() as int) =~= q);
    }
    out
}

/// The length of the leading whitespace-free run of `s`.
pub open spec fn token_len(s: Seq<char>) -> nat
    decreases s.len(),
{
    if s.len() == 0 || is_space(s[0]) {
        0
    } else {
        1 + token_len(s.drop_first())
    }
}

/// The whitespace-separated tokens of `s`, in order.
pub open spec fn spec_tokens(s: Seq<char>) -> Seq<Seq<char>>
    decreases s.len(),
{
    if s.len() == 0 {
        Seq::<Seq<char>>::empty()
    } else if is_space(s[0]) {
        spec_tokens(s.drop_first())
    } else {
        let n = token_len(s) as int;
        if n >= s.len() {
            seq![s]
        } else {
            seq![s.take(n)] + spec_tokens(s.skip(n))
        }
    }
}

pub proof fn lemma_token_len_at(u: Seq<char>, j: int)
    requires
        0 <= j <= u.len(),
        forall|k: int| 0 <= k < j ==> !is_space(u[k]),
        j == u.len() || is_space(u[j]),
    ensures
        token_len(u) == j,
    decreases j,
{
    if j == 0 {
    } else {
        lemma_token_len_at(u.drop_first(), j - 1);
    }
}

/// The whitespace-separated tokens of `v`.
pub fn split_ws(v: &Vec<char>) -> (r: Vec<Vec<char>>)
    ensures
        views(r@) == spec_tokens(v@),
{
    let mut out: Vec<Vec<char>> = Vec::new();
    let mut i: usize = 0;
    proof {
        assert(v@.skip(0) =~= v@);
    }
    while i < v.len()
        invariant
            i <= v@.len(),
            spec_tokens(v@) == views(out@) + spec_tokens(v@.skip(i as int)),
        decreases v@.len() - i,
    {
        if is_space_exec(v[i]) {
            proof {
                assert(v@.skip(i as int).drop_first() =~= v@.skip(i + 1));
            }
            i = i + 1;
        } else {
            let start = i;
            let mut j = i;
            while j < v.len() && !is_space_exec(v[j])
                invariant
                    start <= j <= v@.len(),
                    forall|k: int| start <= k < j ==> !is_space(v@[k]),
                decreases v@.len() - j,
            {
                j = j + 1;
            }
            let tok = chars_slice(v, start, j);
            let ghost u = v@.skip(start as int);
            proof {
                assert(forall|k: int| 0 <= k < j - start ==> u[k] == v@[start + k]);
                if j < v@.len() {
                    assert(u[j - start] == v@[j as int]);
                }
                lemma_token_len_at(u, j - start);
                assert(u.take(j - start) =~= v@.subrange(start as int, j as int));
                assert(tok@ == u.take(j - start));
            }
            let ghost old_out = views(out@);
            out.push(tok);
            proof {
                assert(views(out@) =~= old_out.push(tok@));
                if j - start < u.len() {
                    assert(u.skip(j - start) =~= v@.skip(j as int));
                    assert(spec_tokens(u) == seq![u.take(j - start)] + spec_tokens(
                        v@.skip(j as int),
                    ));
                    assert(views(out@) + spec_tokens(v@.skip(j as int)) =~= old_out + (seq![
                        u.take(j - start),
                    ] + spec_tokens(v@.skip(j as int))));
                } else {
                    assert(u.take(j - start) =~= u);
                    assert(spec_tokens(u) == seq![u]);
                    assert(v@.skip(j as int) =~= Seq::<char>::empty());
                    assert(views(out@) + spec_tokens(v@.skip(j as int)) =~= old_out + seq![u]);
                }
            }
            i = j;
        }
    }
    proof {
        assert(v@.skip(v@.len() as int) =~= Seq::<char>::empty());
        assert(views(out@) =~= spec_tokens(v@));
    }
    out
}

/// An ASCII decimal digit.
pub open spec fn is_digit(c: char) -> bool {
    48 <= (c as u32) <= 57
}

pub open spec fn digit_val(c: char) -> nat {
    ((c as u32) - 48) as nat
}

/// `s` is a non-empty run of digits.
pub open spec fn all_digits(s: Seq<char>) -> bool {
    s.len() > 0 && forall|k: int| 0 <= k < s.len() ==> is_digit(s[k])
}

/// The number the digit run `s` denotes.
pub open spec fn digits_val(s: Seq<char>) -> nat
    decreases s.len(),
{
    if s.len() == 0 {
        0
    } else {
        digits_val(s.drop_last()) * 10 + digit_val(s.last())
    }
}

proof fn lemma_digits_val_prefix_grows(s: Seq<char>, i: int)
    requires
        0 <= i < s.len(),
    ensures
        digits_val(s.take(i)) <= digits_val(s.take(i + 1)),
{
    assert(s.take(i + 1).drop_last() =~= s.take(i));
    assert(digits_val(s.take(i + 1)) == digits_val(s.take(i)) * 10 + digit_val(s.take(i + 1).last()));
    assert(digits_val(s.take(i)) * 10 >= digits_val(s.take(i))) by (nonlinear_arith);
}

proof fn lemma_digits_val_monotone(s: Seq<char>, i: int)
    requires
        0 <= i <= s.len(),
    ensures
        digits_val(s.take(i)) <= digits_val(s),
    decreases s.len() - i,
{
    if i == s.len() {
        assert(s.take(i) =~= s);
    } else {
        lemma_digits_val_prefix_grows(s, i);
        lemma_digits_val_monotone(s, i + 1);
    }
}

/// Parses a non-empty run of decimal digits as a `u32`; `None` when the
/// token holds any other character or the value does not fit.
pub fn parse_u32_chars(s: &Vec<char>) -> (r: Option<u32>)
    ensures
        r is Some <==> all_digits(s@) && digits_val(s@) <= u32::MAX,
        r matches Some(n) ==> n as nat == digits_val(s@),
{
    if s.len() == 0 {
        return None;
    }
    let mut acc: u64 = 0;
    let mut i: usize = 0;
    while i < s.len()
        invariant
            i <= s@.len(),
            s@.len() > 0,
            forall|k: int| 0 <= k < i ==> is_digit(s@[k]),
            acc as nat == digits_val(s@.take(i as int)),
            acc <= u32::MAX,
        decreases s@.len() - i,
    {
        let c = s[i];
        let cv = c as u32;
        if !(48 <= cv && cv <= 57) {
            return None;
        }
        let d = (cv - 48) as u64;
        assert(s@.take(i + 1).drop_last() =~= s@.take(i as int));
        acc = acc * 10 + d;
        if acc > 0xffff_ffff {
            proof {
                lemma_digits_val_monotone(s@, i + 1);
            }
            return None;
        }
        i = i + 1;
    }
    assert(s@.take(s@.len() as int) =~= s@);
    Some(acc as u32)
}

/// Every character of `s` is a digit (an empty `s` qualifies).
pub open spec fn digits_opt(s: Seq<char>) -> bool {
    forall|k: int| 0 <= k < s.len() ==> is_digit(s[k])
}

pub open spec fn pow10(k: nat) -> nat
    decreases k,
{
    if k == 0 {
        1
    } else {
        10 * pow10((k - 1) as nat)
    }
}

pub proof fn lemma_pow10_vals()
    ensures
        pow10(12) == 1000000000000,
        pow10(20) == 100000000000000000000,
        pow10(21) == 1000000000000000000000,
{
    reveal_with_fuel(pow10, 22);
}

pub proof fn lemma_pow10_mono(a: nat, b: nat)
    requires
        a <= b,
    ensures
        pow10(a) <= pow10(b),
    decreases b,
{
    if a < b {
        lemma_pow10_mono(a, (b - 1) as nat);
        assert(pow10(b) == 10 * pow10((b - 1) as nat));
        assert(pow10((b - 1) as nat) <= 10 * pow10((b - 1) as nat));
    }
}

pub proof fn lemma_digits_val_bound(s: Seq<char>)
    requires
        digits_opt(s),
    ensures
        digits_val(s) < pow10(s.len()),
    decreases s.len(),
{
    if s.len() > 0 {
        lemma_digits_val_bound(s.drop_last());
        assert(is_digit(s.last()));
        assert(digit_val(s.last()) <= 9);
        assert(pow10(s.len()) == 10 * pow10((s.len() - 1) as nat));
    }
}

/// A digit run that does not start with `'0'` is at least `10^(len-1)`.
pub proof fn lemma_digits_lower_bound(s: Seq<char>)
    requires
        s.len() >= 1,
        digits_opt(s),
        (s[0] as u32) != 48,
    ensures
        digits_val(s) >= pow10((s.len() - 1) as nat),
    decreases s.len(),
{
    if s.len() == 1 {
        assert(is_digit(s[0]));
        assert(digit_val(s[0]) >= 1);
        assert(digits_val(s) == digits_val(s.drop_last()) * 10 + digit_val(s.last()));
        assert(digits_val(s.drop_last()) == 0);
    } else {
        lemma_digits_lower_bound(s.drop_last());
        assert(pow10((s.len() - 1) as nat) == 10 * pow10((s.len() - 2) as nat));
    }
}

/// A leading zero digit does not change the value of a digit run.
pub proof fn lemma_digits_drop_first_zero(s: Seq<char>)
    requires
        s.len() >= 1,
        (s[0] as u32) == 48,
    ensures
        digits_val(s) == digits_val(s.drop_first()),
    decreases s.len(),
{
    if s.len() == 1 {
        assert(s.drop_last() =~= Seq::<char>::empty());
        assert(s.drop_first() =~= Seq::<char>::empty());
        assert(digit_val(s[0]) == 0);
    } else {
        lemma_digits_drop_first_zero(s.drop_last());
        assert(s.drop_last().drop_first() =~= s.drop_first().drop_last());
        assert(s.drop_first().last() == s.last());
        assert(digits_val(s.drop_first()) == digits_val(s.drop_first().drop_last()) * 10
            + digit_val(s.last()));
    }
}

/// Reads up to twenty digits as a number.
pub fn digits_to_u128(v: &Vec<char>, from: usize) -> (r: u128)
    requires
        from <= v@.len(),
        v@.len() - from <= 20,
        digits_opt(v@.skip(from as int)),
    ensures
        r as nat == digits_val(v@.skip(from as int)),
{
    let mut acc: u128 = 0;
    let mut j: usize = from;
    proof {
        assert(v@.subrange(from as int, from as int) =~= Seq::<char>::empty());
    }
    while j < v.len()
        invariant
            from <= j <= v@.len(),
            v@.len() - from <= 20,
            digits_opt(v@.skip(from as int)),
            acc as nat == digits_val(v@.subrange(from as int, j as int)),
            (acc as nat) < pow10((j - from) as nat),
        decreases v@.len() - j,
    {
        let c = v[j];
        proof {
            assert(v@.skip(from as int)[j - from] == v@[j as int]);
            assert(is_digit(v@[j as int]));
            assert(v@.subrange(from as int, j + 1).drop_last() =~= v@.subrange(
                from as int,
                j as int,
            ));
            assert(v@.subrange(from as int, j + 1).last() == v@[j as int]);
            lemma_pow10_mono((j + 1 - from) as nat, 20);
            lemma_pow10_vals();
            assert(pow10((j + 1 - from) as nat) == 10 * pow10((j - from) as nat));
        }
        let d = (c as u32) - 48;
        acc = acc * 10 + (d as u128);
        j = j + 1;
    }
    proof {
        assert(v@.subrange(from as int, v@.len() as int) =~= v@.skip(from as int));
    }
    acc
}

/// `10^k` for small `k`.
pub fn pow10_u64(k: usize) -> (r: u64)
    requires
        k <= 12,
    ensures
        r as nat == pow10(k as nat),
{
    let mut r: u64 = 1;
    let mut j: usize = 0;
    while j < k
        invariant
            j <= k <= 12,
            r as nat == pow10(j as nat),
        decreases k - j,
    {
        proof {
            lemma_pow10_mono((j + 1) as nat, 12);
            lemma_pow10_vals();
        }
        r = r * 10;
        j = j + 1;
    }
    r
}

/// Whether every character of `v` is a decimal digit.
pub fn digits_only(v: &Vec<char>) -> (r: bool)
    ensures
        r == digits_opt(v@),
{
    let mut i: usize = 0;
    while i < v.len()
        invariant
            i <= v@.len(),
            forall|k: int| 0 <= k < i ==> is_digit(v@[k]),
        decreases v@.len() - i,
    {
        let cv = v[i] as u32;
        if !(48 <= cv && cv <= 57) {
            return false;
        }
        i = i + 1;
    }
    true
}

/// Lexicographic order on character sequences, by code point.
pub open spec fn lex_le(a: Seq<char>, b: Seq<char>) -> bool
    decreases a.len(),
{
    if a.len() == 0 {
        true
    } else if b.len() == 0 {
        false
    } else if (a[0] as u32) < (b[0] as u32) {
        true
    } else if (a[0] as u32) > (b[0] as u32) {
        false
    } else {
        lex_le(a.drop_first(), b.drop_first())
    }
}

/// The order is total.
pub proof fn lemma_lex_le_total(a: Seq<char>, b: Seq<char>)
    ensures
        lex_le(a, b) || lex_le(b, a),
    decreases a.len(),
{
    if a.len() > 0 && b.len() > 0 && a[0] == b[0] {
        lemma_lex_le_total(a.drop_first(), b.drop_first());
    } else if a.len() > 0 && b.len() > 0 {
        assert((a[0] as u32) != (b[0] as u32) ==> lex_le(a, b) || lex_le(b, a));
        if a[0] as u32 == b[0] as u32 {
            lemma_lex_le_total(a.drop_first(), b.drop_first());
        }
    }
}

/// Compares two character vectors lexicographically.
pub fn chars_lex_le(a: &Vec<char>, b: &Vec<char>) -> (r: bool)
    ensures
        r == lex_le(a@, b@),
{
    let mut i: usize = 0;
    proof {
        assert(a@.skip(0) =~= a@);
        assert(b@.skip(0) =~= b@);
    }
    loop
        invariant
            i <= a@.len(),
            i <= b@.len(),
            lex_le(a@, b@) == lex_le(a@.skip(i as int), b@.skip(i as int)),
        decreases a@.len() - i,
    {
        if i >= a.len() {
            return true;
        }
        if i >= b.len() {
            return false;
        }
        proof {
            assert(a@.skip(i as int)[0] == a@[i as int]);
            assert(b@.skip(i as int)[0] == b@[i as int]);
            assert(a@.skip(i as int).drop_first() =~= a@.skip(i + 1));
            assert(b@.skip(i as int).drop_first() =~= b@.skip(i + 1));
        }
        let ca = a[i] as u32;
        let cb = b[i] as u32;
        if ca < cb {
            return true;
        }
        if ca > cb {
            return false;
        }
        i = i + 1;
    }
}

/// The ASCII-lowercased form of `c`.
pub open spec fn lower_char(c: char) -> char {
    if 65 <= (c as u32) <= 90 {
        (((c as u32) + 32) as u8) as char
    } else {
        c
    }
}

pub open spec fn lower_seq(s: Seq<char>) -> Seq<char> {
    s.map_values(|c: char| lower_char(c))
}

/// ASCII-lowercases every character.
pub fn chars_lower(v: &Vec<char>) -> (r: Vec<char>)
    ensures
        r@ == lower_seq(v@),
{
    let mut r: Vec<char> = Vec::new();
    let mut i: usize = 0;
    while i < v.len()
        invariant
            i <= v@.len(),
            r@ == lower_seq(v@.take(i as int)),
        decreases v@.len() - i,
    {
        let c = v[i];
        let cv = c as u32;
        let lc: char = if 65 <= cv && cv <= 57 + 33 {
            ((cv + 32) as u8) as char
        } else {
            c
        };
        assert(lc == lower_char(v@[i as int]));
        r.push(lc);
        assert(r@ =~= lower_seq(v@.take(i + 1)));
        i = i + 1;
    }
    assert(v@.take(v@.len() as int) =~= v@);
    r
}

} // verus!
