//! Counting histograms over sequences of strings, kept in first-seen order.
use vstd::prelude::*;

verus! {

/// The distinct values of `s`, each once, ordered by first occurrence.
pub open spec fn first_seen(s: Seq<Seq<char>>) -> Seq<Seq<char>>
    decreases s.len(),
{
    if s.len() == 0 {
        Seq::empty()
    } else {
        let prev = first_seen(s.drop_last());
        if prev.contains(s.last()) {
            prev
        } else {
            prev.push(s.last())
        }
    }
}

/// How many times `x` occurs in `s`.
pub open spec fn occurrences(s: Seq<Seq<char>>, x: Seq<char>) -> nat
    decreases s.len(),
{
    if s.len() == 0 {
        0
    } else {
        occurrences(s.drop_last(), x) + if s.last() == x {
            1nat
        } else {
            0nat
        }
    }
}

/// Each distinct value of `s` with its number of occurrences, in first-seen order.
pub open spec fn histogram(s: Seq<Seq<char>>) -> Seq<(Seq<char>, nat)> {
    first_seen(s).map_values(|x: Seq<char>| (x, occurrences(s, x)))
}

/// The sum of the counts of a histogram.
pub open spec fn total(h: Seq<(Seq<char>, nat)>) -> nat
    decreases h.len(),
{
    if h.len() == 0 {
        0
    } else {
        total(h.drop_last()) + h.last().1
    }
}

/// The mathematical value of a histogram held as a vector.
pub open spec fn hist_view(h: Seq<(String, usize)>) -> Seq<(Seq<char>, nat)> {
    h.map_values(|p: (String, usize)| (p.0@, p.1 as nat))
}

pub proof fn lemma_first_seen_contains(s: Seq<Seq<char>>, x: Seq<char>)
    ensures
        first_seen(s).contains(x) <==> s.contains(x),
        first_seen(s).no_duplicates(),
    decreases s.len(),
{
    if s.len() > 0 {
        let d = s.drop_last();
        lemma_first_seen_contains(d, x);
        lemma_first_seen_contains(d, s.last());
        if s.contains(x) {
            let i = choose|i: int| 0 <= i < s.len() && s[i] == x;
            if i < s.len() - 1 {
                assert(d[i] == x);
            }
        }
        if d.contains(x) {
            let i = choose|i: int| 0 <= i < d.len() && d[i] == x;
            assert(s[i] == x);
        }
        let p = first_seen(d);
        if !p.contains(s.last()) {
            let q = p.push(s.last());
            assert(q[p.len() as int] == s.last());
            if p.contains(x) {
                let i = choose|i: int| 0 <= i < p.len() && p[i] == x;
                assert(q[i] == x);
            }
            if q.contains(x) && x != s.last() {
                let i = choose|i: int| 0 <= i < q.len() && q[i] == x;
                assert(p[i] == x);
            }
            assert forall|i: int, j: int|
                0 <= i < j < p.len() + 1 implies p.push(s.last())[i] != p.push(s.last())[j] by {
                if j == p.len() {
                    assert(p.push(s.last())[i] == p[i]);
                }
            }
        }
    }
}

pub proof fn lemma_occurrences_zero(s: Seq<Seq<char>>, x: Seq<char>)
    ensures
        occurrences(s, x) == 0 <==> !s.contains(x),
        occurrences(s, x) <= s.len(),
    decreases s.len(),
{
    if s.len() > 0 {
        let d = s.drop_last();
        lemma_occurrences_zero(d, x);
        if d.contains(x) {
            let i = choose|i: int| 0 <= i < d.len() && d[i] == x;
            assert(s[i] == x);
        }
        if s.contains(x) {
            let i = choose|i: int| 0 <= i < s.len() && s[i] == x;
            if i < s.len() - 1 {
                assert(d[i] == x);
            }
        }
    }
}

/// The histogram after one more value: an existing key counts one more,
/// a new key goes last with count one.
pub proof fn lemma_histogram_push(s: Seq<Seq<char>>, x: Seq<char>)
    ensures
        s.push(x).drop_last() == s,
        first_seen(s).contains(x) ==> first_seen(s.push(x)) == first_seen(s),
        !first_seen(s).contains(x) ==> first_seen(s.push(x)) == first_seen(s).push(x),
        forall|y: Seq<char>|
            occurrences(#[trigger] s.push(x), y) == occurrences(s, y) + if y == x {
                1nat
            } else {
                0nat
            },
{
    assert(s.push(x).drop_last() =~= s);
}

/// A histogram's counts add up to the length of the sequence it counts.
pub proof fn lemma_histogram_total(s: Seq<Seq<char>>)
    ensures
        total(histogram(s)) == s.len(),
    decreases s.len(),
{
    if s.len() > 0 {
        let d = s.drop_last();
        let x = s.last();
        lemma_histogram_total(d);
        lemma_histogram_push(d, x);
        assert(d.push(x) =~= s);
        lemma_first_seen_contains(d, x);
        lemma_total_bumped(first_seen(d), d, x);
    }
}

proof fn lemma_total_bumped(keys: Seq<Seq<char>>, d: Seq<Seq<char>>, x: Seq<char>)
    requires
        keys.no_duplicates(),
        keys == first_seen(d),
    ensures
        total(histogram(d.push(x))) == total(histogram(d)) + 1,
{
    lemma_histogram_push(d, x);
    lemma_first_seen_contains(d, x);
    let s = d.push(x);
    if keys.contains(x) {
        lemma_total_over(keys, d, x);
    } else {
        lemma_occurrences_zero(d, x);
        lemma_total_over(keys, d, x);
        let h = histogram(s);
        assert(h.drop_last() =~= keys.map_values(|y: Seq<char>| (y, occurrences(s, y))));
    }
}

/// Over keys that hold `x` at most once, adding one `x` adds one to the total
/// exactly when `x` is among the keys.
proof fn lemma_total_over(keys: Seq<Seq<char>>, d: Seq<Seq<char>>, x: Seq<char>)
    requires
        keys.no_duplicates(),
    ensures
        total(keys.map_values(|y: Seq<char>| (y, occurrences(d.push(x), y)))) == total(
            keys.map_values(|y: Seq<char>| (y, occurrences(d, y))),
        ) + if keys.contains(x) {
            1nat
        } else {
            0nat
        },
    decreases keys.len(),
{
    lemma_histogram_push(d, x);
    let s = d.push(x);
    let a = keys.map_values(|y: Seq<char>| (y, occurrences(s, y)));
    let b = keys.map_values(|y: Seq<char>| (y, occurrences(d, y)));
    if keys.len() > 0 {
        let k = keys.drop_last();
        assert(k.no_duplicates());
        lemma_total_over(k, d, x);
        assert(a.drop_last() =~= k.map_values(|y: Seq<char>| (y, occurrences(s, y))));
        assert(b.drop_last() =~= k.map_values(|y: Seq<char>| (y, occurrences(d, y))));
        assert(occurrences(s, keys.last()) == occurrences(d, keys.last()) + if keys.last() == x {
            1nat
        } else {
            0nat
        });
        if keys.last() == x {
            assert(keys.contains(x));
            assert(!k.contains(x)) by {
                if k.contains(x) {
                    let i = choose|i: int| 0 <= i < k.len() && k[i] == x;
                    assert(keys[i] == keys[keys.len() - 1]);
                }
            }
        } else {
            if k.contains(x) {
                let i = choose|i: int| 0 <= i < k.len() && k[i] == x;
                assert(keys[i] == x);
            }
            if keys.contains(x) {
                let i = choose|i: int| 0 <= i < keys.len() && keys[i] == x;
                assert(k[i] == x);
            }
        }
    }
}

/// Whether `x` occurs in `s` before position `q`.
pub open spec fn occurs_before(s: Seq<Seq<char>>, q: int, x: Seq<char>) -> bool {
    exists|p: int| 0 <= p < q && s[p] == x
}

/// The first-seen order of `s` lists every value of `s` once and nothing
/// else, and a value comes before another exactly when its first occurrence
/// in `s` comes first: wherever the later one occurs, the earlier one
/// already occurred.
pub proof fn lemma_first_seen_order(s: Seq<Seq<char>>)
    ensures
        first_seen(s).no_duplicates(),
        forall|x: Seq<char>| #[trigger] first_seen(s).contains(x) <==> s.contains(x),
        forall|i: int, j: int, q: int|
            #![trigger s[q], first_seen(s)[i], first_seen(s)[j]]
            0 <= i < j < first_seen(s).len() && 0 <= q < s.len() && s[q] == first_seen(s)[j]
                ==> occurs_before(s, q, first_seen(s)[i]),
    decreases s.len(),
{
    lemma_first_seen_contains(s, Seq::empty());
    assert forall|x: Seq<char>| #[trigger] first_seen(s).contains(x) <==> s.contains(x) by {
        lemma_first_seen_contains(s, x);
    }
    if s.len() > 0 {
        let d = s.drop_last();
        let x = s.last();
        let fd = first_seen(d);
        let fs = first_seen(s);
        lemma_first_seen_order(d);
        assert forall|i: int, j: int, q: int|
            #![trigger s[q], first_seen(s)[i], first_seen(s)[j]]
            0 <= i < j < first_seen(s).len() && 0 <= q < s.len() && s[q] == first_seen(s)[j] implies occurs_before(s, q, first_seen(s)[i]) by {
            assert(fs[i] == fd[i]);
            assert(fd.contains(fd[i]));
            assert(d.contains(fd[i]));
            let p0 = choose|p: int| 0 <= p < d.len() && d[p] == fd[i];
            assert(s[p0] == fs[i]);
            if q < s.len() - 1 {
                assert(d[q] == s[q]);
                if j < fd.len() {
                    assert(fd[j] == fs[j]);
                    let p = choose|p: int| 0 <= p < q && d[p] == fd[i];
                    assert(s[p] == fs[i]);
                } else {
                    assert(fs[j] == x);
                    assert(!fd.contains(x));
                    assert(d.contains(x));
                }
            } else {
                assert(p0 < q);
            }
        }
    } else {
        assert(first_seen(s).len() == 0);
    }
}

/// Counts one more occurrence of `x` in a histogram of `s`.
pub(crate) fn bump(hist: &mut Vec<(String, usize)>, x: &String, Ghost(s): Ghost<Seq<Seq<char>>>)
    requires
        hist_view(old(hist)@) == histogram(s),
        s.len() < usize::MAX,
    ensures
        hist_view(final(hist)@) == histogram(s.push(x@)),
{
    let n = hist.len();
    let mut i: usize = 0;
    while i < n
        invariant
            n == hist@.len(),
            i <= n,
            hist_view(hist@) == histogram(s),
            s.len() < usize::MAX,
            forall|k: int| 0 <= k < i ==> hist@[k].0@ != x@,
        decreases n - i,
    {
        if hist[i].0 == *x {
            let ghost old_h = hist_view(hist@);
            proof {
                assert(hist@[i as int].0@ == x@);
                assert(old_h.len() == hist@.len());
                assert(old_h[i as int] == (hist@[i as int].0@, hist@[i as int].1 as nat));
                assert(histogram(s).len() == first_seen(s).len());
                assert(old_h[i as int] == histogram(s)[i as int]);
                assert(first_seen(s)[i as int] == x@);
                assert(first_seen(s).contains(x@));
                lemma_occurrences_zero(s, x@);
                lemma_first_seen_contains(s, x@);
                lemma_histogram_push(s, x@);
            }
            let c = hist[i].1;
            assert(c as nat == occurrences(s, x@));
            let ghost before = hist@;
            hist[i].1 = c + 1;
            proof {
                let fs = first_seen(s);
                assert(first_seen(s.push(x@)) == fs);
                assert(hist@.len() == before.len());
                assert forall|k: int| 0 <= k < fs.len() implies hist_view(hist@)[k] == histogram(
                    s.push(x@),
                )[k] by {
                    if k != i {
                        assert(fs[k] != fs[i as int]);
                        assert(hist@[k] == before[k]);
                        assert(old_h[k] == histogram(s)[k]);
                    } else {
                        assert(hist@[k].0 == before[k].0);
                    }
                }
                assert(hist_view(hist@) =~= histogram(s.push(x@)));
            }
            return ;
        }
        i = i + 1;
    }
    proof {
        lemma_histogram_push(s, x@);
        lemma_first_seen_contains(s, x@);
        let fs = first_seen(s);
        assert(!fs.contains(x@)) by {
            if fs.contains(x@) {
                let k = choose|k: int| 0 <= k < fs.len() && fs[k] == x@;
                assert(hist_view(hist@)[k].0 == x@);
            }
        }
        lemma_occurrences_zero(s, x@);
        assert(hist_view(hist@).len() == fs.len());
    }
    let ghost before = hist@;
    hist.push((x.clone(), 1));
    proof {
        let fs = first_seen(s);
        assert forall|k: int| 0 <= k < fs.len() + 1 implies hist_view(hist@)[k] == histogram(
            s.push(x@),
        )[k] by {
            if k < fs.len() {
                assert(fs[k] != x@);
                assert(hist@[k] == before[k]);
                assert(hist_view(before)[k] == histogram(s)[k]);
            }
        }
        assert(hist_view(hist@) =~= histogram(s.push(x@)));
    }
}

/// A histogram of one value.
pub(crate) fn single(x: String) -> (r: Vec<(String, usize)>)
    ensures
        hist_view(r@) == histogram(seq![x@]),
{
    proof {
        lemma_histogram_push(Seq::empty(), x@);
        assert(seq![x@] =~= Seq::<Seq<char>>::empty().push(x@));
        assert(first_seen(Seq::empty()) =~= Seq::<Seq<char>>::empty());
    }
    let r = vec![(x, 1usize)];
    assert(hist_view(r@) =~= histogram(seq![r@[0].0@]));
    r
}

} // verus!
