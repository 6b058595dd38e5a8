//! Character-level string operations used by the parsers of this crate.

use vstd::prelude::*;

verus! {

/// Wraps `String::push`, which appends one character to the string.
#[verifier::external_body]
pub(crate) fn push_char(s: &mut String, c: char)
    ensures
        final(s)@ == old(s)@.push(c),
{
    s.push(c)
}

/// The characters of `s`, in order.
pub fn chars_of(s: &str) -> (res: Vec<char>)
    ensures
        res@ == s@,
{
    let mut res: Vec<char> = Vec::new();
    for c in iter: s.chars()
        invariant
            res@ == iter.seq().take(iter.index() as int),
    {
        res.push(c);
        assert(res@ =~= iter.seq().take(iter.index() + 1));
    }
    assert(res@ =~= s@);
    res
}


/// The string made of the characters `cs[from..to]`.
pub fn string_from(cs: &Vec<char>, from: usize, to: usize) -> (res: String)
    requires
        from <= to <= cs@.len(),
    ensures
        res@ == cs@.subrange(from as int, to as int),
{
    let mut res = String::new();
    let mut i = from;
    while i < to
        invariant
            from <= i <= to <= cs@.len(),
            res@ == cs@.subrange(from as int, i as int),
        decreases to - i,
    {
        push_char(&mut res, cs[i]);
        assert(res@ =~= cs@.subrange(from as int, i + 1));
        i = i + 1;
    }
    res
}

/// The pieces of `s` between the occurrences of `sep`, in order, as
/// `str::split` yields them for a one-character pattern: `n` occurrences give
/// `n + 1` pieces, and an empty string gives one empty piece.
pub open spec fn split_char(s: Seq<char>, sep: char) -> Seq<Seq<char>>
    decreases s.len(),
{
    if s.len() == 0 {
        seq![Seq::<char>::empty()]
    } else {
        let pieces = split_char(s.drop_last(), sep);
        if s.last() == sep {
            pieces.push(Seq::<char>::empty())
        } else {
            pieces.update(pieces.len() - 1, pieces.last().push(s.last()))
        }
    }
}

/// Splitting always yields at least one piece.
pub proof fn lemma_split_char_nonempty(s: Seq<char>, sep: char)
    ensures
        split_char(s, sep).len() >= 1,
    decreases s.len(),
{
    if s.len() > 0 {
        lemma_split_char_nonempty(s.drop_last(), sep);
    }
}

/// The views of a sequence of character vectors.
pub open spec fn views_of(v: Seq<Vec<char>>) -> Seq<Seq<char>> {
    v.map_values(|x: Vec<char>| x@)
}

/// Splits `s` at every occurrence of `sep`.
pub fn split_chars(s: &Vec<char>, sep: char) -> (res: Vec<Vec<char>>)
    ensures
        views_of(res@) == split_char(s@, sep),
{
    let mut done: Vec<Vec<char>> = Vec::new();
    let mut cur: Vec<char> = Vec::new();
    let n = s.len();
    let mut i: usize = 0;
    assert(s@.take(0) =~= Seq::<char>::empty());
    assert(views_of(done@).push(cur@) =~= split_char(s@.take(0), sep));
    while i < n
        invariant
            n == s@.len(),
            i <= n,
            views_of(done@).push(cur@) == split_char(s@.take(i as int), sep),
        decreases n - i,
    {
        let c = s[i];
        let ghost prev = split_char(s@.take(i as int), sep);
        assert(s@.take(i + 1).drop_last() =~= s@.take(i as int));
        assert(s@.take(i + 1).last() == c);
        if c == sep {
            let full = cur;
            done.push(full);
            cur = Vec::new();
            assert(views_of(done@) =~= prev);
            assert(views_of(done@).push(cur@) =~= prev.push(Seq::<char>::empty()));
        } else {
            cur.push(c);
            assert(views_of(done@).push(cur@) =~= prev.update(prev.len() - 1, prev.last().push(c)));
        }
        i = i + 1;
    }
    assert(s@.take(n as int) =~= s@);
    done.push(cur);
    assert(views_of(done@) =~= split_char(s@, sep));
    done
}

/// `s` with every occurrence of the nonempty pattern `pat` replaced by `with`,
/// occurrences found from left to right without overlap, as `str::replace`
/// does.
pub open spec fn replace_all(s: Seq<char>, pat: Seq<char>, with: Seq<char>) -> Seq<char>
    decreases s.len(),
{
    if pat.len() == 0 || s.len() < pat.len() {
        s
    } else if s.take(pat.len() as int) == pat {
        with + replace_all(s.skip(pat.len() as int), pat, with)
    } else {
        seq![s[0]] + replace_all(s.skip(1), pat, with)
    }
}

/// Whether `pat` occurs in `s` at position `at`.
fn occurs_at(s: &Vec<char>, at: usize, pat: &Vec<char>) -> (b: bool)
    requires
        at <= s@.len(),
    ensures
        b == (at + pat@.len() <= s@.len() && s@.subrange(at as int, at + pat@.len()) == pat@),
{
    let m = pat.len();
    if m > s.len() - at {
        return false;
    }
    let mut j: usize = 0;
    while j < m
        invariant
            m == pat@.len(),
            at + m <= s.len(),
            j <= m,
            forall|k: int| 0 <= k < j ==> s@[at + k] == pat@[k],
        decreases m - j,
    {
        if s[at + j] != pat[j] {
            assert(s@.subrange(at as int, at + m)[j as int] != pat@[j as int]);
            return false;
        }
        j = j + 1;
    }
    assert(s@.subrange(at as int, at + m) =~= pat@);
    true
}

/// `s` with every occurrence of the nonempty `pat` replaced by `with`.
pub fn replace(s: &str, pat: &str, with: &str) -> (res: String)
    requires
        pat@.len() > 0,
    ensures
        res@ == replace_all(s@, pat@, with@),
{
    let cs = chars_of(s);
    let pc = chars_of(pat);
    let n = cs.len();
    let m = pc.len();
    let mut res = String::new();
    let mut i: usize = 0;
    assert(cs@.skip(0) =~= cs@);
    while i < n
        invariant
            n == cs@.len(),
            m == pc@.len(),
            m > 0,
            cs@ == s@,
            pc@ == pat@,
            i <= n,
            replace_all(s@, pat@, with@) == res@ + replace_all(cs@.skip(i as int), pat@, with@),
        decreases n - i,
    {
        let ghost rest = cs@.skip(i as int);
        if occurs_at(&cs, i, &pc) {
            assert(rest.take(m as int) =~= cs@.subrange(i as int, i + m));
            assert(rest.skip(m as int) =~= cs@.skip(i + m));
            let ghost before = res@;
            res.append(with);
            assert(before + (with@ + replace_all(rest.skip(m as int), pat@, with@)) =~= res@
                + replace_all(cs@.skip(i + m), pat@, with@));
            i = i + m;
        } else {
            let ghost before = res@;
            if n - i >= m {
                assert(rest.take(m as int) =~= cs@.subrange(i as int, i + m));
            }
            assert(rest.skip(1) =~= cs@.skip(i + 1));
            push_char(&mut res, cs[i]);
            assert(before + (seq![cs@[i as int]] + replace_all(rest.skip(1), pat@, with@)) =~= res@
                + replace_all(cs@.skip(i + 1), pat@, with@));
            i = i + 1;
        }
    }
    assert(cs@.skip(n as int) =~= Seq::<char>::empty());
    assert(res@ + Seq::<char>::empty() =~= res@);
    res
}

/// Whether `pat` occurs in `s`.
pub open spec fn occurs_in(s: Seq<char>, pat: Seq<char>) -> bool {
    exists|i: int| 0 <= i && i + pat.len() <= s.len() && #[trigger] s.subrange(i, i + pat.len()) == pat
}

/// A string in which the pattern does not occur is left unchanged.
pub proof fn lemma_replace_absent(s: Seq<char>, pat: Seq<char>, with: Seq<char>)
    requires
        !occurs_in(s, pat),
    ensures
        replace_all(s, pat, with) == s,
    decreases s.len(),
{
    if pat.len() > 0 && s.len() >= pat.len() {
        assert(s.take(pat.len() as int) =~= s.subrange(0, pat.len() as int));
        assert(s.subrange(0, 0 + pat.len() as int) != pat);
        let rest = s.skip(1);
        assert(!occurs_in(rest, pat)) by {
            if occurs_in(rest, pat) {
                let i = choose|i: int|
                    0 <= i && i + pat.len() <= rest.len() && #[trigger] rest.subrange(i, i + pat.len())
                        == pat;
                assert(s.subrange(i + 1, i + 1 + pat.len()) =~= rest.subrange(i, i + pat.len()));
            }
        }
        lemma_replace_absent(rest, pat, with);
        assert(seq![s[0]] + rest =~= s);
    }
}

/// The pieces joined back together with `sep` between neighbours.
pub open spec fn join_with(pieces: Seq<Seq<char>>, sep: char) -> Seq<char>
    decreases pieces.len(),
{
    if pieces.len() == 0 {
        Seq::<char>::empty()
    } else if pieces.len() == 1 {
        pieces[0]
    } else {
        join_with(pieces.drop_last(), sep) + seq![sep] + pieces.last()
    }
}

/// Splitting loses nothing but the separators: the pieces joined with the
/// separator give the string back, and no piece holds the separator.
pub proof fn lemma_split_join(s: Seq<char>, sep: char)
    ensures
        join_with(split_char(s, sep), sep) == s,
        forall|i: int|
            0 <= i < split_char(s, sep).len() ==> !(#[trigger] split_char(s, sep)[i]).contains(sep),
    decreases s.len(),
{
    if s.len() == 0 {
        assert(join_with(split_char(s, sep), sep) =~= s);
        assert forall|i: int| 0 <= i < split_char(s, sep).len() implies !(
        #[trigger] split_char(s, sep)[i]).contains(sep) by {
            assert(split_char(s, sep)[i].len() == 0);
        }
    } else {
        let init = s.drop_last();
        let c = s.last();
        lemma_split_join(init, sep);
        lemma_split_char_nonempty(init, sep);
        let prev = split_char(init, sep);
        let pieces = split_char(s, sep);
        if c == sep {
            assert(pieces == prev.push(Seq::<char>::empty()));
            assert(pieces.drop_last() =~= prev);
            assert(join_with(pieces, sep) =~= s);
            assert forall|i: int| 0 <= i < pieces.len() implies !(#[trigger] pieces[i]).contains(
                sep,
            ) by {
                if i < prev.len() {
                    assert(pieces[i] == prev[i]);
                } else {
                    assert(pieces[i].len() == 0);
                }
            }
        } else {
            let last = prev.last().push(c);
            assert(pieces == prev.update(prev.len() - 1, last));
            if prev.len() == 1 {
                assert(join_with(prev, sep) == prev[0]);
                assert(join_with(pieces, sep) =~= s);
            } else {
                assert(pieces.drop_last() =~= prev.drop_last());
                assert(pieces.last() == last);
                assert(join_with(prev, sep) == join_with(prev.drop_last(), sep) + seq![sep]
                    + prev.last());
                assert(join_with(pieces, sep) == join_with(prev.drop_last(), sep) + seq![sep]
                    + last);
                assert(s =~= init.push(c));
                assert(join_with(pieces, sep) =~= s);
            }
            assert forall|i: int| 0 <= i < pieces.len() implies !(#[trigger] pieces[i]).contains(
                sep,
            ) by {
                if i < prev.len() - 1 {
                    assert(pieces[i] == prev[i]);
                } else {
                    assert(!prev[i].contains(sep));
                    if last.contains(sep) {
                        let k = choose|k: int| 0 <= k < last.len() && last[k] == sep;
                        if k < prev[i].len() {
                            assert(prev[i][k] == sep);
                        }
                    }
                }
            }
        }
    }
}

/// Splitting `a`, the separator, then `b` gives the pieces of `a` followed
/// by the pieces of `b`.
pub proof fn lemma_split_concat(a: Seq<char>, b: Seq<char>, sep: char)
    ensures
        split_char(a + seq![sep] + b, sep) == split_char(a, sep) + split_char(b, sep),
    decreases b.len(),
{
    let s = a + seq![sep] + b;
    if b.len() == 0 {
        assert(s.drop_last() =~= a);
        assert(split_char(s, sep) =~= split_char(a, sep) + split_char(b, sep));
    } else {
        let init = b.drop_last();
        let c = b.last();
        lemma_split_concat(a, init, sep);
        lemma_split_char_nonempty(a, sep);
        lemma_split_char_nonempty(init, sep);
        assert(s.drop_last() =~= a + seq![sep] + init);
        assert(s.last() == c);
        let pa = split_char(a, sep);
        let pi = split_char(init, sep);
        if c == sep {
            assert(split_char(s, sep) =~= (pa + pi).push(Seq::<char>::empty()));
            assert(split_char(s, sep) =~= pa + split_char(b, sep));
        } else {
            assert(split_char(s, sep) =~= (pa + pi).update(
                (pa + pi).len() - 1,
                (pa + pi).last().push(c),
            ));
            assert(split_char(b, sep) =~= pi.update(pi.len() - 1, pi.last().push(c)));
            assert(split_char(s, sep) =~= pa + split_char(b, sep));
        }
    }
}

/// A string without the separator is one piece.
pub proof fn lemma_split_without_sep(s: Seq<char>, sep: char)
    requires
        !s.contains(sep),
    ensures
        split_char(s, sep) == seq![s],
    decreases s.len(),
{
    if s.len() > 0 {
        let init = s.drop_last();
        assert(!init.contains(sep)) by {
            if init.contains(sep) {
                let k = choose|k: int| 0 <= k < init.len() && init[k] == sep;
                assert(s[k] == sep);
            }
        }
        lemma_split_without_sep(init, sep);
        assert(s.last() != sep) by {
            assert(s[s.len() - 1] == s.last());
        }
        assert(init.push(s.last()) =~= s);
        let pieces = split_char(init, sep);
        assert(pieces.len() - 1 == 0);
        assert(split_char(s, sep) == pieces.update(0, pieces.last().push(s.last())));
        assert(split_char(s, sep) =~= seq![s]);
    } else {
        assert(s =~= Seq::<char>::empty());
        assert(split_char(s, sep) =~= seq![s]);
    }
}

/// An occurrence at the start is replaced, and replacing goes on right after
/// it: `replace_all(pat + s) == with + replace_all(s)`.
pub proof fn lemma_replace_leading_occurrence(pat: Seq<char>, s: Seq<char>, with: Seq<char>)
    requires
        pat.len() > 0,
    ensures
        replace_all(pat + s, pat, with) == with + replace_all(s, pat, with),
{
    let t = pat + s;
    assert(t.take(pat.len() as int) =~= pat);
    assert(t.skip(pat.len() as int) =~= s);
}

/// A first character that does not open an occurrence is kept, and replacing
/// goes on from the next one.
pub proof fn lemma_replace_leading_char(c: char, s: Seq<char>, pat: Seq<char>, with: Seq<char>)
    requires
        pat.len() > 0,
        (seq![c] + s).len() < pat.len() || (seq![c] + s).subrange(0, pat.len() as int) != pat,
    ensures
        replace_all(seq![c] + s, pat, with) == seq![c] + replace_all(s, pat, with),
{
    let t = seq![c] + s;
    assert(t.skip(1) =~= s);
    if t.len() >= pat.len() {
        assert(t.take(pat.len() as int) =~= t.subrange(0, pat.len() as int));
    } else {
        assert(t =~= seq![c] + s);
    }
}

} // verus!
