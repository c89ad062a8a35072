use crate::matcher::{fuzzy_score, has_upper, lemma_smart_case_prefix, occurs_in_order, skim_score};
use vstd::prelude::*;

verus! {

/// The text of each string of `v`.
pub open spec fn texts(v: Seq<String>) -> Seq<Seq<char>> {
    v.map_values(|s: String| s@)
}

/// The entries that two parallel vectors describe: a candidate and its score.
pub open spec fn scored_pairs(names: Seq<String>, scores: Seq<i64>) -> Seq<(Seq<char>, i64)> {
    Seq::new(names.len(), |k: int| (names[k]@, scores[k]))
}

/// The entries that two parallel vectors describe: a candidate and its optional score.
pub open spec fn view_entries(names: Seq<String>, scores: Seq<Option<i64>>) -> Seq<(Seq<char>, Option<i64>)> {
    Seq::new(names.len(), |k: int| (names[k]@, scores[k]))
}

/// For a non-empty query, the matcher scores exactly the candidates of `files` that
/// hold the query's characters in order.
pub open spec fn matcher_agrees(files: Seq<Seq<char>>, query: Seq<char>) -> bool {
    query.len() > 0 ==> forall|i: int|
        0 <= i < files.len() ==> (#[trigger] skim_score(files[i], query) is Some <==> occurs_in_order(
            files[i],
            query,
            has_upper(query),
        ))
}

/// The score of candidate `f` under `query`, paired with it, where the query matches.
pub open spec fn scored_match(query: Seq<char>, f: Seq<char>) -> Option<(Seq<char>, i64)> {
    match skim_score(f, query) {
        Some(s) => Some((f, s)),
        None => None,
    }
}

/// The candidates that `query` matches, in the order they were given in, each with its score.
pub open spec fn matches_of(files: Seq<Seq<char>>, query: Seq<char>) -> Seq<(Seq<char>, i64)> {
    files.filter_map(|f: Seq<char>| scored_match(query, f))
}

/// `v` with `e` placed right after the last entry whose score is at least `e`'s.
pub open spec fn insert_by_score(v: Seq<(Seq<char>, i64)>, e: (Seq<char>, i64)) -> Seq<(Seq<char>, i64)>
    decreases v.len(),
{
    if v.len() == 0 {
        seq![e]
    } else if v.last().1 >= e.1 {
        v.push(e)
    } else {
        insert_by_score(v.drop_last(), e).push(v.last())
    }
}

/// `v` sorted by score, highest first; entries of equal score keep their order.
pub open spec fn sort_by_score(v: Seq<(Seq<char>, i64)>) -> Seq<(Seq<char>, i64)>
    decreases v.len(),
{
    if v.len() == 0 {
        v
    } else {
        insert_by_score(sort_by_score(v.drop_last()), v.last())
    }
}

/// What the ranked view holds for `files` under `query`: with an empty query every
/// candidate, unscored, in order; otherwise the matching candidates by score, highest
/// first, ties in the order they were given in.
pub open spec fn ranked_view(files: Seq<Seq<char>>, query: Seq<char>) -> Seq<(Seq<char>, Option<i64>)> {
    if query.len() == 0 {
        files.map_values(|f: Seq<char>| (f, None::<i64>))
    } else {
        sort_by_score(matches_of(files, query)).map_values(|p: (Seq<char>, i64)| (p.0, Some(p.1)))
    }
}

proof fn lemma_insert_at(v: Seq<(Seq<char>, i64)>, e: (Seq<char>, i64), j: int)
    requires
        0 <= j <= v.len(),
        forall|k: int| j <= k < v.len() ==> v[k].1 < e.1,
        j == 0 || v[j - 1].1 >= e.1,
    ensures
        insert_by_score(v, e) == v.insert(j, e),
    decreases v.len(),
{
    if v.len() == 0 {
        assert(v.insert(j, e) =~= seq![e]);
    } else if v.last().1 >= e.1 {
        assert(v.insert(j, e) =~= v.push(e));
    } else {
        let d = v.drop_last();
        lemma_insert_at(d, e, j);
        assert(v.insert(j, e) =~= d.insert(j, e).push(v.last()));
    }
}

/// The entries of `v` whose score is `s`.
pub open spec fn with_score(v: Seq<(Seq<char>, i64)>, s: i64) -> Seq<(Seq<char>, i64)> {
    v.filter(|p: (Seq<char>, i64)| p.1 == s)
}

/// The scores of `v` never rise from one entry to a later one.
pub open spec fn scores_descending(v: Seq<(Seq<char>, i64)>) -> bool {
    forall|i: int, j: int| 0 <= i < j < v.len() ==> v[i].1 >= v[j].1
}

proof fn lemma_insert_entries(w: Seq<(Seq<char>, i64)>, e: (Seq<char>, i64))
    ensures
        insert_by_score(w, e).to_multiset() == w.to_multiset().insert(e),
    decreases w.len(),
{
    broadcast use vstd::seq_lib::group_to_multiset_ensures;
    if w.len() == 0 {
        assert(seq![e] =~= w.push(e));
    } else if w.last().1 >= e.1 {
    } else {
        let d = w.drop_last();
        lemma_insert_entries(d, e);
        assert(d.push(w.last()) =~= w);
        assert(insert_by_score(w, e).to_multiset() =~= w.to_multiset().insert(e));
    }
}

proof fn lemma_insert_descending(w: Seq<(Seq<char>, i64)>, e: (Seq<char>, i64))
    requires
        scores_descending(w),
    ensures
        scores_descending(insert_by_score(w, e)),
    decreases w.len(),
{
    broadcast use vstd::seq_lib::group_to_multiset_ensures;
    if w.len() == 0 {
    } else if w.last().1 >= e.1 {
    } else {
        let d = w.drop_last();
        let r = insert_by_score(d, e);
        lemma_insert_descending(d, e);
        lemma_insert_entries(d, e);
        assert forall|k: int| 0 <= k < r.len() implies r[k].1 >= w.last().1 by {
            assert(r.to_multiset().count(r[k]) > 0);
            if r[k] != e {
                assert(d.contains(r[k]));
                let t = choose|t: int| 0 <= t < d.len() && d[t] == r[k];
                assert(w[t] == d[t]);
            }
        }
    }
}

proof fn lemma_insert_with_score(w: Seq<(Seq<char>, i64)>, e: (Seq<char>, i64), s: i64)
    ensures
        with_score(insert_by_score(w, e), s) == (if e.1 == s {
            with_score(w, s).push(e)
        } else {
            with_score(w, s)
        }),
    decreases w.len(),
{
    reveal(Seq::filter);
    if w.len() == 0 {
        assert(seq![e].drop_last() =~= w);
    } else if w.last().1 >= e.1 {
        assert(w.push(e).drop_last() =~= w);
    } else {
        let d = w.drop_last();
        lemma_insert_with_score(d, e, s);
        let r = insert_by_score(d, e);
        assert(r.push(w.last()).drop_last() =~= r);
    }
}

/// Ranking by score keeps exactly the entries it was given, each as often.
pub proof fn lemma_sort_keeps_entries(v: Seq<(Seq<char>, i64)>)
    ensures
        sort_by_score(v).to_multiset() == v.to_multiset(),
    decreases v.len(),
{
    broadcast use vstd::seq_lib::group_to_multiset_ensures;
    if v.len() > 0 {
        let d = v.drop_last();
        lemma_sort_keeps_entries(d);
        lemma_insert_entries(sort_by_score(d), v.last());
        assert(d.push(v.last()) =~= v);
    }
}

/// Ranking by score puts higher scores first.
pub proof fn lemma_sort_descending(v: Seq<(Seq<char>, i64)>)
    ensures
        scores_descending(sort_by_score(v)),
    decreases v.len(),
{
    if v.len() > 0 {
        lemma_sort_descending(v.drop_last());
        lemma_insert_descending(sort_by_score(v.drop_last()), v.last());
    }
}

/// Ranking by score is stable: the entries of any one score come out in the order in
/// which they went in.
pub proof fn lemma_sort_stable(v: Seq<(Seq<char>, i64)>, s: i64)
    ensures
        with_score(sort_by_score(v), s) == with_score(v, s),
    decreases v.len(),
{
    reveal(Seq::filter);
    if v.len() > 0 {
        let d = v.drop_last();
        lemma_sort_stable(d, s);
        lemma_insert_with_score(sort_by_score(d), v.last(), s);
    }
}

/// Under a non-empty query, every entry of the ranked view is one of the candidates,
/// shown with the score that the matcher gives it.
pub proof fn lemma_ranked_entries_match(files: Seq<Seq<char>>, query: Seq<char>)
    requires
        query.len() > 0,
    ensures
        forall|i: int| 0 <= i < ranked_view(files, query).len() ==> {
            &&& files.contains(#[trigger] ranked_view(files, query)[i].0)
            &&& ranked_view(files, query)[i].1 == skim_score(ranked_view(files, query)[i].0, query)
        },
{
    broadcast use vstd::seq_lib::group_to_multiset_ensures;
    let m = matches_of(files, query);
    let sorted = sort_by_score(m);
    lemma_sort_keeps_entries(m);
    assert forall|i: int| 0 <= i < ranked_view(files, query).len() implies {
        &&& files.contains(#[trigger] ranked_view(files, query)[i].0)
        &&& ranked_view(files, query)[i].1 == skim_score(ranked_view(files, query)[i].0, query)
    } by {
        assert(sorted.to_multiset().count(sorted[i]) > 0);
        assert(m.contains(sorted[i]));
        files.lemma_filter_map_contains(|f: Seq<char>| scored_match(query, f), sorted[i]);
    }
}

proof fn lemma_shown_with_score(v: Seq<(Seq<char>, i64)>, s: i64)
    ensures
        v.map_values(|p: (Seq<char>, i64)| (p.0, Some(p.1))).filter(
            |e: (Seq<char>, Option<i64>)| e.1 == Some(s),
        ) == with_score(v, s).map_values(|p: (Seq<char>, i64)| (p.0, Some(p.1))),
    decreases v.len(),
{
    reveal(Seq::filter);
    if v.len() > 0 {
        let d = v.drop_last();
        lemma_shown_with_score(d, s);
        assert(v.map_values(|p: (Seq<char>, i64)| (p.0, Some(p.1))).drop_last() =~= d.map_values(
            |p: (Seq<char>, i64)| (p.0, Some(p.1)),
        ));
        assert(with_score(v, s).map_values(|p: (Seq<char>, i64)| (p.0, Some(p.1))) =~= (if v.last().1
            == s {
            with_score(d, s).map_values(|p: (Seq<char>, i64)| (p.0, Some(p.1))).push(
                (v.last().0, Some(v.last().1)),
            )
        } else {
            with_score(d, s).map_values(|p: (Seq<char>, i64)| (p.0, Some(p.1)))
        }));
    }
}

proof fn lemma_matches_with_score(files: Seq<Seq<char>>, query: Seq<char>, s: i64)
    ensures
        with_score(matches_of(files, query), s) == files.filter(
            |f: Seq<char>| skim_score(f, query) == Some(s),
        ).map_values(|f: Seq<char>| (f, s)),
    decreases files.len(),
{
    reveal(Seq::filter);
    if files.len() > 0 {
        let d = files.drop_last();
        lemma_matches_with_score(d, query, s);
        let md = matches_of(d, query);
        let fd = d.filter(|f: Seq<char>| skim_score(f, query) == Some(s));
        match skim_score(files.last(), query) {
            Some(v) => {
                assert((md + seq![(files.last(), v)]).drop_last() =~= md);
                if v == s {
                    assert(fd.push(files.last()).map_values(|f: Seq<char>| (f, s)) =~= fd.map_values(
                        |f: Seq<char>| (f, s),
                    ).push((files.last(), s)));
                }
            },
            None => {},
        }
    }
}

/// Under a non-empty query, the entries of the ranked view that carry score `s` are
/// exactly the candidates that the matcher scores `s`, in the order they were given in.
pub proof fn lemma_ranked_ties_in_given_order(files: Seq<Seq<char>>, query: Seq<char>, s: i64)
    requires
        query.len() > 0,
    ensures
        ranked_view(files, query).filter(|e: (Seq<char>, Option<i64>)| e.1 == Some(s))
            == files.filter(|f: Seq<char>| skim_score(f, query) == Some(s)).map_values(
            |f: Seq<char>| (f, Some(s)),
        ),
{
    let m = matches_of(files, query);
    lemma_shown_with_score(sort_by_score(m), s);
    lemma_sort_stable(m, s);
    lemma_matches_with_score(files, query, s);
    let fl = files.filter(|f: Seq<char>| skim_score(f, query) == Some(s));
    assert(fl.map_values(|f: Seq<char>| (f, s)).map_values(|p: (Seq<char>, i64)| (p.0, Some(p.1)))
        =~= fl.map_values(|f: Seq<char>| (f, Some(s))));
}

proof fn lemma_matches_contains(files: Seq<Seq<char>>, query: Seq<char>, k: int, s: i64)
    requires
        0 <= k < files.len(),
        skim_score(files[k], query) == Some(s),
    ensures
        matches_of(files, query).contains((files[k], s)),
    decreases files.len(),
{
    let d = files.drop_last();
    let m = matches_of(files, query);
    if k == files.len() - 1 {
        assert(m == matches_of(d, query) + seq![(files[k], s)]);
        assert(m[m.len() - 1] == (files[k], s));
    } else {
        assert(d[k] == files[k]);
        lemma_matches_contains(d, query, k, s);
        let md = matches_of(d, query);
        let t = choose|t: int| 0 <= t < md.len() && md[t] == (files[k], s);
        match skim_score(files.last(), query) {
            Some(v) => assert(m[t] == md[t]),
            None => {},
        }
    }
}

proof fn lemma_matches_len(files: Seq<Seq<char>>, query: Seq<char>)
    ensures
        matches_of(files, query).len() <= files.len(),
    decreases files.len(),
{
    if files.len() > 0 {
        lemma_matches_len(files.drop_last(), query);
    }
}

proof fn lemma_matches_shrink(files: Seq<Seq<char>>, query: Seq<char>, x: char)
    requires
        query.len() > 0,
        matcher_agrees(files, query),
        matcher_agrees(files, query.push(x)),
    ensures
        matches_of(files, query.push(x)).len() <= matches_of(files, query).len(),
    decreases files.len(),
{
    if files.len() > 0 {
        let d = files.drop_last();
        let n = files.len() - 1;
        assert forall|i: int| 0 <= i < d.len() implies (#[trigger] skim_score(d[i], query) is Some
            <==> occurs_in_order(d[i], query, has_upper(query))) by {
            assert(d[i] == files[i]);
        }
        assert forall|i: int| 0 <= i < d.len() implies (#[trigger] skim_score(d[i], query.push(x)) is Some
            <==> occurs_in_order(d[i], query.push(x), has_upper(query.push(x)))) by {
            assert(d[i] == files[i]);
        }
        lemma_matches_shrink(d, query, x);
        if skim_score(files[n], query.push(x)) is Some {
            lemma_smart_case_prefix(files[n], query, x);
        }
    }
}

/// Some entry of `view` is candidate `f`.
pub open spec fn shows(view: Seq<(Seq<char>, Option<i64>)>, f: Seq<char>) -> bool {
    exists|j: int| 0 <= j < view.len() && view[j].0 == f
}

/// Typing one more character never widens the ranked view: it holds at most as many
/// entries as before, each a candidate that the view already showed.
pub proof fn lemma_extending_query_narrows(files: Seq<Seq<char>>, query: Seq<char>, x: char)
    requires
        matcher_agrees(files, query),
        matcher_agrees(files, query.push(x)),
    ensures
        ranked_view(files, query.push(x)).len() <= ranked_view(files, query).len(),
        forall|i: int|
            0 <= i < ranked_view(files, query.push(x)).len() ==> shows(
                ranked_view(files, query),
                #[trigger] ranked_view(files, query.push(x))[i].0,
            ),
{
    broadcast use vstd::seq_lib::group_to_multiset_ensures;
    let longer = query.push(x);
    let before = ranked_view(files, query);
    let after = ranked_view(files, longer);
    let m_after = matches_of(files, longer);
    lemma_sort_keeps_entries(m_after);
    lemma_matches_len(files, longer);
    let m = matches_of(files, query);
    lemma_sort_keeps_entries(m);
    if query.len() > 0 {
        lemma_matches_shrink(files, query, x);
    }
    lemma_ranked_entries_match(files, longer);
    assert(sort_by_score(m_after).to_multiset().len() == m_after.to_multiset().len());
    assert(sort_by_score(m).to_multiset().len() == m.to_multiset().len());
    assert(after.len() == m_after.len());
    assert forall|i: int| 0 <= i < after.len() implies shows(before, #[trigger] after[i].0) by {
        let f = after[i].0;
        assert(files.contains(f));
        let k = choose|k: int| 0 <= k < files.len() && files[k] == f;
        assert(skim_score(f, longer) is Some);
        assert(skim_score(files[k], longer) is Some);
        lemma_smart_case_prefix(f, query, x);
        if query.len() == 0 {
            assert(before.len() == files.len());
            assert(0 <= k < before.len() && before[k].0 == after[i].0);
        } else {
            let s = skim_score(files[k], query)->Some_0;
            lemma_matches_contains(files, query, k, s);
            let sorted = sort_by_score(m);
            assert(m.to_multiset().count((f, s)) > 0);
            assert(sorted.contains((f, s)));
            let j = choose|j: int| 0 <= j < sorted.len() && sorted[j] == (f, s);
            assert(before.len() == sorted.len());
            assert(0 <= j < before.len() && before[j].0 == after[i].0);
        }
    }
}

/// Inserts `name` with `score` into the parallel vectors, after every entry whose score
/// is at least `score`.
fn insert_scored(names: &mut Vec<String>, scores: &mut Vec<i64>, name: String, score: i64)
    requires
        old(names).len() == old(scores).len(),
    ensures
        final(names).len() == final(scores).len(),
        final(names).len() == old(names).len() + 1,
        scored_pairs(final(names)@, final(scores)@) == insert_by_score(
            scored_pairs(old(names)@, old(scores)@),
            (name@, score),
        ),
{
    let ghost before = scored_pairs(names@, scores@);
    let mut j: usize = scores.len();
    while j > 0 && scores[j - 1] < score
        invariant
            j <= scores.len(),
            names.len() == scores.len(),
            forall|k: int| j <= k < scores.len() ==> scores[k] < score,
        decreases j,
    {
        j = j - 1;
    }
    proof {
        lemma_insert_at(before, (name@, score), j as int);
    }
    names.insert(j, name);
    scores.insert(j, score);
    assert(scored_pairs(names@, scores@) =~= before.insert(j as int, (name@, score)));
}

/// Ranks `files` against `query`: the ranked view as two parallel vectors, the
/// candidates and their scores.
pub fn rank_candidates(files: &Vec<String>, query: &String) -> (r: (Vec<String>, Vec<Option<i64>>))
    ensures
        r.0.len() == r.1.len(),
        view_entries(r.0@, r.1@) == ranked_view(texts(files@), query@),
        matcher_agrees(texts(files@), query@),
{
    let mut names: Vec<String> = Vec::new();
    let mut opt_scores: Vec<Option<i64>> = Vec::new();
    let ghost fs = texts(files@);
    if query.as_str().unicode_len() == 0 {
        let mut i: usize = 0;
        while i < files.len()
            invariant
                i <= files.len(),
                fs == texts(files@),
                names.len() == i,
                opt_scores.len() == i,
                view_entries(names@, opt_scores@) == fs.take(i as int).map_values(
                    |f: Seq<char>| (f, None::<i64>),
                ),
            decreases files.len() - i,
        {
            let ghost prev = view_entries(names@, opt_scores@);
            let c = files[i].clone();
            assert(c@ == fs[i as int]);
            names.push(c);
            opt_scores.push(None);
            i += 1;
            assert(view_entries(names@, opt_scores@) =~= prev.push((fs[i - 1], None::<i64>)));
            assert(view_entries(names@, opt_scores@) =~= fs.take(i as int).map_values(
                |f: Seq<char>| (f, None::<i64>),
            ));
        }
        assert(fs.take(i as int) =~= fs);
        return (names, opt_scores);
    }
    let mut scores: Vec<i64> = Vec::new();
    let mut i: usize = 0;
    while i < files.len()
        invariant
            i <= files.len(),
            fs == texts(files@),
            names.len() == scores.len(),
            names.len() <= i,
            scored_pairs(names@, scores@) == sort_by_score(matches_of(fs.take(i as int), query@)),
            query@.len() > 0,
            forall|t: int|
                0 <= t < i ==> (#[trigger] skim_score(fs[t], query@) is Some <==> occurs_in_order(
                    fs[t],
                    query@,
                    has_upper(query@),
                )),
        decreases files.len() - i,
    {
        let ghost prev = fs.take(i as int);
        let ghost next = fs.take(i as int + 1);
        assert(next.drop_last() =~= prev);
        assert(next.last() == files[i as int]@);
        match fuzzy_score(files[i].as_str(), query.as_str()) {
            Some(s) => {
                let ghost m = matches_of(prev, query@);
                assert(matches_of(next, query@) =~= m.push((files[i as int]@, s)));
                assert(m.push((files[i as int]@, s)).drop_last() =~= m);
                insert_scored(&mut names, &mut scores, files[i].clone(), s);
            },
            None => {
                assert(matches_of(next, query@) =~= matches_of(prev, query@));
            },
        }
        i += 1;
    }
    assert(fs.take(i as int) =~= fs);
    let ghost sorted = sort_by_score(matches_of(fs, query@));
    let mut k: usize = 0;
    while k < scores.len()
        invariant
            k <= scores.len(),
            names.len() == scores.len(),
            opt_scores.len() == k,
            scored_pairs(names@, scores@) == sorted,
            forall|t: int| 0 <= t < k ==> opt_scores[t] == Some(scores[t]),
        decreases scores.len() - k,
    {
        opt_scores.push(Some(scores[k]));
        k += 1;
    }
    assert(view_entries(names@, opt_scores@) =~= sorted.map_values(
        |p: (Seq<char>, i64)| (p.0, Some(p.1)),
    ));
    (names, opt_scores)
}

} // verus!
