//! The dispatcher: the four execution shapes over one corpus — sequential and
//! parallel counting of a pattern list, the same over a loaded (and therefore
//! whitespace-normalized) corpus, and the combinatorial expansion of pattern
//! templates against candidate words. A call either fully succeeds with a
//! complete table or fails with the pattern or template that triggered it.

use crate::errors::CountError;
use crate::matching::{count_occurrences, pattern_count, pattern_ok};
use crate::normalize::{normalize, normalized};
use crate::results::{NestedMap, ResultMap};
use crate::template::{expand_template, rendered, template_ok};
use rayon::iter::{IntoParallelRefIterator, ParallelIterator};
use vstd::prelude::*;
use vstd::string::*;

verus! {

/// Every pattern in the list compiles once anchored.
pub open spec fn all_patterns_ok(ps: Seq<Seq<char>>) -> bool {
    forall|i: int| 0 <= i < ps.len() ==> pattern_ok(#[trigger] ps[i])
}

/// The result table for a pattern list over a corpus: one entry per pattern,
/// keyed by the pattern's own text, a duplicate pattern overwriting its
/// earlier entry.
pub open spec fn counts_of(ps: Seq<Seq<char>>, text: Seq<char>) -> Map<Seq<char>, nat>
    decreases ps.len(),
{
    if ps.len() == 0 {
        Map::empty()
    } else {
        counts_of(ps.drop_last(), text).insert(ps.last(), pattern_count(ps.last(), text))
    }
}

/// `p` is the first pattern of the list that does not compile.
pub open spec fn first_invalid_pattern(ps: Seq<Seq<char>>, p: Seq<char>) -> bool {
    exists|i: int|
        {
            &&& 0 <= i < ps.len()
            &&& #[trigger] ps[i] == p
            &&& !pattern_ok(p)
            &&& forall|j: int| 0 <= j < i ==> pattern_ok(#[trigger] ps[j])
        }
}

/// What a counting call returns for a pattern list over a corpus: the full
/// table exactly when every pattern compiles, and otherwise the error naming
/// the first pattern that does not.
pub open spec fn count_result_matches(
    r: Result<ResultMap, CountError>,
    ps: Seq<Seq<char>>,
    text: Seq<char>,
) -> bool {
    &&& (r is Ok <==> all_patterns_ok(ps))
    &&& (r matches Ok(m) ==> m@ == counts_of(ps, text))
    &&& (r matches Err(e) ==> e matches CountError::InvalidPattern(p) && first_invalid_pattern(
        ps,
        p@,
    ))
}

proof fn lemma_counts_of_take_step(ps: Seq<Seq<char>>, text: Seq<char>, i: int)
    requires
        0 <= i < ps.len(),
    ensures
        counts_of(ps.take(i + 1), text) == counts_of(ps.take(i), text).insert(
            ps[i],
            pattern_count(ps[i], text),
        ),
{
    assert(ps.take(i + 1).drop_last() =~= ps.take(i));
    assert(ps.take(i + 1).last() == ps[i]);
}

/// Sequential over patterns: for each pattern in input order, compile and
/// count over the corpus as supplied (no normalization), and assemble the
/// table. A failure to compile any pattern aborts the whole call.
pub fn count_in_text(patterns: &Vec<String>, text: &str) -> (r: Result<ResultMap, CountError>)
    ensures
        count_result_matches(r, patterns.deep_view(), text@),
{
    let ghost ps = patterns.deep_view();
    let mut table = ResultMap::new();
    let mut i: usize = 0;
    proof {
        assert(ps.take(0) =~= Seq::<Seq<char>>::empty());
    }
    while i < patterns.len()
        invariant
            i <= patterns@.len(),
            ps == patterns.deep_view(),
            table@ == counts_of(ps.take(i as int), text@),
            forall|j: int| 0 <= j < i ==> pattern_ok(#[trigger] ps[j]),
        decreases patterns@.len() - i,
    {
        let pattern = &patterns[i];
        proof {
            assert(ps[i as int] == pattern@);
        }
        match count_occurrences(pattern.as_str(), text) {
            Some(n) => {
                table.insert(pattern.clone(), n);
                proof {
                    lemma_counts_of_take_step(ps, text@, i as int);
                }
            },
            None => {
                return Err(CountError::InvalidPattern(pattern.clone()));
            },
        }
        i = i + 1;
    }
    proof {
        assert(ps.take(patterns@.len() as int) =~= ps);
    }
    Ok(table)
}

/// Relies on rayon's `par_iter`, `map` and `collect`: the parallel iterator
/// over a vector is indexed, the closure runs once per element, and
/// collecting into a `Vec` places each closure result at its element's index,
/// so the input order is kept. Each element's result is what
/// `count_occurrences` returns for that pattern over the shared corpus.
#[verifier::external_body]
fn par_count_each(patterns: &Vec<String>, text: &str) -> (r: Vec<(String, Option<usize>)>)
    ensures
        r@.len() == patterns@.len(),
        forall|i: int|
            0 <= i < r@.len() ==> {
                &&& (#[trigger] r@[i]).0@ == patterns@[i]@
                &&& (r@[i].1 is Some <==> pattern_ok(patterns@[i]@))
                &&& (r@[i].1 matches Some(n) ==> n as nat == pattern_count(patterns@[i]@, text@))
            },
{
    patterns.par_iter().map(|p| (p.clone(), count_occurrences(p.as_str(), text))).collect()
}

/// Parallel over patterns: each pattern's compile-and-count runs
/// independently over the shared, immutable corpus, and the per-pattern
/// results are merged into the table keyed by pattern string, so the final
/// table is the same as the sequential one whatever the execution order.
pub fn count_in_text_parallel(patterns: &Vec<String>, text: &str) -> (r: Result<
    ResultMap,
    CountError,
>)
    ensures
        count_result_matches(r, patterns.deep_view(), text@),
{
    let ghost ps = patterns.deep_view();
    let pairs = par_count_each(patterns, text);
    let mut table = ResultMap::new();
    let mut i: usize = 0;
    proof {
        assert(ps.take(0) =~= Seq::<Seq<char>>::empty());
    }
    while i < pairs.len()
        invariant
            i <= pairs@.len(),
            pairs@.len() == patterns@.len(),
            ps == patterns.deep_view(),
            forall|k: int|
                0 <= k < pairs@.len() ==> {
                    &&& (#[trigger] pairs@[k]).0@ == patterns@[k]@
                    &&& (pairs@[k].1 is Some <==> pattern_ok(patterns@[k]@))
                    &&& (pairs@[k].1 matches Some(n) ==> n as nat == pattern_count(
                        patterns@[k]@,
                        text@,
                    ))
                },
            table@ == counts_of(ps.take(i as int), text@),
            forall|j: int| 0 <= j < i ==> pattern_ok(#[trigger] ps[j]),
        decreases pairs@.len() - i,
    {
        proof {
            assert(ps[i as int] == patterns@[i as int]@);
        }
        match pairs[i].1 {
            Some(n) => {
                table.insert(pairs[i].0.clone(), n);
                proof {
                    lemma_counts_of_take_step(ps, text@, i as int);
                }
            },
            None => {
                return Err(CountError::InvalidPattern(pairs[i].0.clone()));
            },
        }
        i = i + 1;
    }
    proof {
        assert(ps.take(patterns@.len() as int) =~= ps);
    }
    Ok(table)
}

/// The concrete patterns that expanding every template against one candidate
/// word yields, in template order.
pub open spec fn expanded_patterns(ts: Seq<Seq<char>>, word: Seq<char>) -> Seq<Seq<char>> {
    ts.map_values(|t: Seq<char>| rendered(t, word))
}

/// Every template in the list renders against the given word.
pub open spec fn all_templates_ok(ts: Seq<Seq<char>>, word: Seq<char>) -> bool {
    forall|i: int| 0 <= i < ts.len() ==> template_ok(#[trigger] ts[i], word)
}

/// `t` is the first template of the list that does not render against the
/// given word.
pub open spec fn first_bad_template(ts: Seq<Seq<char>>, word: Seq<char>, t: Seq<char>) -> bool {
    exists|i: int|
        {
            &&& 0 <= i < ts.len()
            &&& #[trigger] ts[i] == t
            &&& !template_ok(t, word)
            &&& forall|j: int| 0 <= j < i ==> template_ok(#[trigger] ts[j], word)
        }
}

/// One candidate word's branch succeeds: every template renders and every
/// expanded pattern compiles.
pub open spec fn word_ok(ts: Seq<Seq<char>>, word: Seq<char>) -> bool {
    all_templates_ok(ts, word) && all_patterns_ok(expanded_patterns(ts, word))
}

/// One candidate word's result table: the counts of the expanded patterns
/// over the corpus.
pub open spec fn word_counts(ts: Seq<Seq<char>>, text: Seq<char>, word: Seq<char>) -> Map<
    Seq<char>,
    nat,
> {
    counts_of(expanded_patterns(ts, word), text)
}

/// The error that one candidate word's branch reports: the first template
/// that does not render, or else the first expanded pattern that does not
/// compile.
pub open spec fn word_error_matches(e: CountError, ts: Seq<Seq<char>>, word: Seq<char>) -> bool {
    match e {
        CountError::TemplateRender(t) => first_bad_template(ts, word, t@),
        CountError::InvalidPattern(p) => all_templates_ok(ts, word) && first_invalid_pattern(
            expanded_patterns(ts, word),
            p@,
        ),
    }
}

/// What one candidate word's branch returns over the templates and corpus.
pub open spec fn word_result_matches(
    r: Result<ResultMap, CountError>,
    ts: Seq<Seq<char>>,
    text: Seq<char>,
    word: Seq<char>,
) -> bool {
    &&& (r is Ok <==> word_ok(ts, word))
    &&& (r matches Ok(m) ==> m@ == word_counts(ts, text, word))
    &&& (r matches Err(e) ==> word_error_matches(e, ts, word))
}

/// One candidate word's branch: expands every template against the word in
/// template order, then counts the concrete patterns in parallel over the
/// shared corpus.
pub fn count_for_word(templates: &Vec<String>, text: &str, word: &str) -> (r: Result<
    ResultMap,
    CountError,
>)
    ensures
        word_result_matches(r, templates.deep_view(), text@, word@),
{
    let ghost ts = templates.deep_view();
    let mut concrete: Vec<String> = Vec::new();
    let mut i: usize = 0;
    while i < templates.len()
        invariant
            i <= templates@.len(),
            ts == templates.deep_view(),
            concrete@.len() == i,
            forall|j: int| 0 <= j < i ==> template_ok(#[trigger] ts[j], word@),
            forall|j: int| 0 <= j < i ==> (#[trigger] concrete@[j])@ == rendered(ts[j], word@),
        decreases templates@.len() - i,
    {
        proof {
            assert(ts[i as int] == templates@[i as int]@);
        }
        match expand_template(templates[i].as_str(), word) {
            Ok(pattern) => {
                concrete.push(pattern);
            },
            Err(e) => {
                return Err(e);
            },
        }
        i = i + 1;
    }
    proof {
        assert(concrete.deep_view() =~= expanded_patterns(ts, word@));
    }
    count_in_text_parallel(&concrete, text)
}

/// Relies on rayon's `par_iter`, `map` and `collect`: the parallel iterator
/// over a vector is indexed, the closure runs once per element, and
/// collecting into a `Vec` places each closure result at its element's index,
/// so the input order is kept. Each element's result is what
/// `count_for_word` returns for that candidate word over the shared corpus.
#[verifier::external_body]
fn par_count_words(words: &Vec<String>, templates: &Vec<String>, text: &str) -> (r: Vec<
    (String, Result<ResultMap, CountError>),
>)
    ensures
        r@.len() == words@.len(),
        forall|i: int|
            0 <= i < r@.len() ==> {
                &&& (#[trigger] r@[i]).0@ == words@[i]@
                &&& word_result_matches(r@[i].1, templates.deep_view(), text@, words@[i]@)
            },
{
    words.par_iter().map(|w| (w.clone(), count_for_word(templates, text, w.as_str()))).collect()
}

/// Every candidate word's branch succeeds.
pub open spec fn all_words_ok(ts: Seq<Seq<char>>, ws: Seq<Seq<char>>) -> bool {
    forall|i: int| 0 <= i < ws.len() ==> word_ok(ts, #[trigger] ws[i])
}

/// The combinatorial result table: one entry per candidate word, keyed by the
/// word's own text, a duplicate word overwriting its earlier entry.
pub open spec fn nested_counts(ts: Seq<Seq<char>>, text: Seq<char>, ws: Seq<Seq<char>>) -> Map<
    Seq<char>,
    Map<Seq<char>, nat>,
>
    decreases ws.len(),
{
    if ws.len() == 0 {
        Map::empty()
    } else {
        nested_counts(ts, text, ws.drop_last()).insert(
            ws.last(),
            word_counts(ts, text, ws.last()),
        )
    }
}

/// What a combinatorial call returns: the full nested table exactly when
/// every word's branch succeeds, and otherwise the error of the first word
/// whose branch fails.
pub open spec fn combinatorial_matches(
    r: Result<NestedMap, CountError>,
    ts: Seq<Seq<char>>,
    text: Seq<char>,
    ws: Seq<Seq<char>>,
) -> bool {
    &&& (r is Ok <==> all_words_ok(ts, ws))
    &&& (r matches Ok(m) ==> m@ == nested_counts(ts, text, ws))
    &&& (r matches Err(e) ==> exists|i: int|
        {
            &&& 0 <= i < ws.len()
            &&& !word_ok(ts, #[trigger] ws[i])
            &&& forall|j: int| 0 <= j < i ==> word_ok(ts, #[trigger] ws[j])
            &&& word_error_matches(e, ts, ws[i])
        })
}

proof fn lemma_nested_counts_take_step(
    ts: Seq<Seq<char>>,
    text: Seq<char>,
    ws: Seq<Seq<char>>,
    i: int,
)
    requires
        0 <= i < ws.len(),
    ensures
        nested_counts(ts, text, ws.take(i + 1)) == nested_counts(ts, text, ws.take(i)).insert(
            ws[i],
            word_counts(ts, text, ws[i]),
        ),
{
    assert(ws.take(i + 1).drop_last() =~= ws.take(i));
    assert(ws.take(i + 1).last() == ws[i]);
}

/// Combinatorial expansion: each candidate word's branch — expand every
/// template against the word, count the concrete patterns — runs in parallel
/// over the shared corpus, and the per-word tables are assembled keyed by
/// word. A failure in any branch aborts the whole call with the first failing
/// word's error.
pub fn count_combinatorial_text(templates: &Vec<String>, text: &str, words: &Vec<String>) -> (r:
    Result<NestedMap, CountError>)
    ensures
        combinatorial_matches(r, templates.deep_view(), text@, words.deep_view()),
{
    let ghost ts = templates.deep_view();
    let ghost ws = words.deep_view();
    let total: usize = words.len();
    let mut pairs = par_count_words(words, templates, text);
    let ghost all = pairs@;
    let mut nested = NestedMap::new();
    let mut i: usize = 0;
    proof {
        assert(ws.take(0) =~= Seq::<Seq<char>>::empty());
        assert(all.skip(0) =~= all);
    }
    while pairs.len() > 0
        invariant
            i + pairs@.len() == total,
            all.len() == words@.len(),
            total == words@.len(),
            ts == templates.deep_view(),
            ws == words.deep_view(),
            pairs@ == all.skip(i as int),
            forall|k: int|
                0 <= k < all.len() ==> {
                    &&& (#[trigger] all[k]).0@ == words@[k]@
                    &&& word_result_matches(all[k].1, ts, text@, words@[k]@)
                },
            nested@ == nested_counts(ts, text@, ws.take(i as int)),
            forall|j: int| 0 <= j < i ==> word_ok(ts, #[trigger] ws[j]),
        decreases pairs@.len(),
    {
        proof {
            assert(pairs@[0] == all[i as int]);
            assert(ws[i as int] == words@[i as int]@);
        }
        let (word, branch) = pairs.remove(0);
        match branch {
            Ok(table) => {
                nested.insert(word, table);
                proof {
                    lemma_nested_counts_take_step(ts, text@, ws, i as int);
                    assert(pairs@ =~= all.skip(i + 1));
                }
            },
            Err(e) => {
                return Err(e);
            },
        }
        i = i + 1;
    }
    proof {
        assert(ws.take(words@.len() as int) =~= ws);
    }
    Ok(nested)
}

/// Sequential counting over a loaded corpus: the raw text is
/// whitespace-normalized first, then counted exactly as a direct corpus.
pub fn count_in_loaded_text(patterns: &Vec<String>, raw: &str) -> (r: Result<
    ResultMap,
    CountError,
>)
    ensures
        count_result_matches(r, patterns.deep_view(), normalized(raw@)),
{
    let text = normalize(raw);
    count_in_text(patterns, text.as_str())
}

/// Parallel counting over a loaded corpus: the raw text is
/// whitespace-normalized once, then counted exactly as a direct corpus.
pub fn count_in_loaded_text_parallel(patterns: &Vec<String>, raw: &str) -> (r: Result<
    ResultMap,
    CountError,
>)
    ensures
        count_result_matches(r, patterns.deep_view(), normalized(raw@)),
{
    let text = normalize(raw);
    count_in_text_parallel(patterns, text.as_str())
}

/// Combinatorial expansion over a loaded corpus: the raw text is
/// whitespace-normalized once and shared, read-only, by every candidate
/// word's branch.
pub fn count_combinatorial_loaded(templates: &Vec<String>, raw: &str, words: &Vec<String>) -> (r:
    Result<NestedMap, CountError>)
    ensures
        combinatorial_matches(r, templates.deep_view(), normalized(raw@), words.deep_view()),
{
    let text = normalize(raw);
    count_combinatorial_text(templates, text.as_str(), words)
}

/// The result table is determined by which patterns occur, never by the order
/// in which per-pattern results are merged: its keys are exactly the
/// patterns, and each key's count is a function of the pattern and the corpus
/// alone, so a duplicate pattern overwrites an entry with the same value.
pub proof fn lemma_counts_of_extensional(ps: Seq<Seq<char>>, text: Seq<char>)
    ensures
        counts_of(ps, text).dom() =~= ps.to_set(),
        forall|p: Seq<char>|
            #[trigger] ps.contains(p) ==> counts_of(ps, text)[p] == pattern_count(p, text),
    decreases ps.len(),
{
    if ps.len() == 0 {
    } else {
        let prefix = ps.drop_last();
        lemma_counts_of_extensional(prefix, text);
        assert forall|p: Seq<char>| ps.contains(p) implies counts_of(ps, text)[p] == pattern_count(
            p,
            text,
        ) by {
            if p != ps.last() {
                let i = choose|i: int| 0 <= i < ps.len() && ps[i] == p;
                assert(prefix[i] == p);
                assert(prefix.contains(p));
            }
        }
        assert forall|p: Seq<char>| #[trigger]
            counts_of(ps, text).dom().contains(p) implies ps.contains(p) by {
            if p != ps.last() {
                let i = choose|i: int| 0 <= i < prefix.len() && prefix[i] == p;
                assert(ps[i] == p);
            }
        }
        assert forall|p: Seq<char>| #[trigger]
            ps.contains(p) implies counts_of(ps, text).dom().contains(p) by {
            if p != ps.last() {
                let i = choose|i: int| 0 <= i < ps.len() && ps[i] == p;
                assert(prefix[i] == p);
                assert(prefix.contains(p));
            }
        }
    }
}

/// Order-independence of aggregation: two pattern lists made of the same
/// patterns — in any order, with any duplication — yield the identical result
/// table over any corpus.
pub proof fn lemma_counts_of_order_independent(
    ps1: Seq<Seq<char>>,
    ps2: Seq<Seq<char>>,
    text: Seq<char>,
)
    requires
        ps1.to_set() == ps2.to_set(),
    ensures
        counts_of(ps1, text) == counts_of(ps2, text),
{
    lemma_counts_of_extensional(ps1, text);
    lemma_counts_of_extensional(ps2, text);
    assert forall|p: Seq<char>| ps1.contains(p) implies ps2.contains(p) by {
        assert(ps1.to_set().contains(p));
    }
    assert forall|p: Seq<char>| ps2.contains(p) implies ps1.contains(p) by {
        assert(ps2.to_set().contains(p));
    }
    assert(counts_of(ps1, text) =~= counts_of(ps2, text));
}

proof fn lemma_first_invalid_unique(ps: Seq<Seq<char>>, p1: Seq<char>, p2: Seq<char>)
    requires
        first_invalid_pattern(ps, p1),
        first_invalid_pattern(ps, p2),
    ensures
        p1 == p2,
{
    let i1 = choose|i: int|
        0 <= i < ps.len() && ps[i] == p1 && !pattern_ok(p1) && (forall|j: int|
            0 <= j < i ==> pattern_ok(#[trigger] ps[j]));
    let i2 = choose|i: int|
        0 <= i < ps.len() && ps[i] == p2 && !pattern_ok(p2) && (forall|j: int|
            0 <= j < i ==> pattern_ok(#[trigger] ps[j]));
    if i1 < i2 {
        assert(pattern_ok(ps[i1]));
    } else if i2 < i1 {
        assert(pattern_ok(ps[i2]));
    }
}

/// Counting is deterministic: any two calls that meet the counting contract
/// for the same pattern list and the same corpus — sequential or parallel, in
/// one process or repeated — agree on success, return identical result
/// tables, and name the identical offending pattern on failure.
pub proof fn lemma_count_result_deterministic(
    r1: Result<ResultMap, CountError>,
    r2: Result<ResultMap, CountError>,
    ps: Seq<Seq<char>>,
    text: Seq<char>,
)
    requires
        count_result_matches(r1, ps, text),
        count_result_matches(r2, ps, text),
    ensures
        r1 is Ok <==> r2 is Ok,
        r1 matches Ok(m1) ==> (r2 matches Ok(m2) ==> m1@ == m2@),
        r1 matches Err(CountError::InvalidPattern(p1)) ==> (r2 matches Err(
            CountError::InvalidPattern(p2),
        ) ==> p1@ == p2@),
{
    if r1 is Err && r2 is Err {
        let e1 = r1->Err_0;
        let e2 = r2->Err_0;
        lemma_first_invalid_unique(ps, e1->InvalidPattern_0@, e2->InvalidPattern_0@);
    }
}

/// The nested result table is determined by which candidate words occur,
/// never by the order in which per-word tables are merged: its keys are
/// exactly the words, and each word's table is a function of the templates,
/// the corpus and the word alone.
pub proof fn lemma_nested_counts_extensional(ts: Seq<Seq<char>>, text: Seq<char>, ws: Seq<Seq<char>>)
    ensures
        nested_counts(ts, text, ws).dom() =~= ws.to_set(),
        forall|w: Seq<char>|
            #[trigger] ws.contains(w) ==> nested_counts(ts, text, ws)[w] == word_counts(
                ts,
                text,
                w,
            ),
    decreases ws.len(),
{
    if ws.len() == 0 {
    } else {
        let prefix = ws.drop_last();
        lemma_nested_counts_extensional(ts, text, prefix);
        assert forall|w: Seq<char>| ws.contains(w) implies nested_counts(ts, text, ws)[w]
            == word_counts(ts, text, w) by {
            if w != ws.last() {
                let i = choose|i: int| 0 <= i < ws.len() && ws[i] == w;
                assert(prefix[i] == w);
                assert(prefix.contains(w));
            }
        }
        assert forall|w: Seq<char>| #[trigger]
            nested_counts(ts, text, ws).dom().contains(w) implies ws.contains(w) by {
            if w != ws.last() {
                let i = choose|i: int| 0 <= i < prefix.len() && prefix[i] == w;
                assert(ws[i] == w);
            }
        }
        assert forall|w: Seq<char>| #[trigger]
            ws.contains(w) implies nested_counts(ts, text, ws).dom().contains(w) by {
            if w != ws.last() {
                let i = choose|i: int| 0 <= i < ws.len() && ws[i] == w;
                assert(prefix[i] == w);
                assert(prefix.contains(w));
            }
        }
    }
}

/// Combinatorial expansion is deterministic on success: any two calls that
/// meet the combinatorial contract for the same templates, corpus and words
/// agree on success and return identical nested tables.
pub proof fn lemma_combinatorial_deterministic(
    r1: Result<NestedMap, CountError>,
    r2: Result<NestedMap, CountError>,
    ts: Seq<Seq<char>>,
    text: Seq<char>,
    ws: Seq<Seq<char>>,
)
    requires
        combinatorial_matches(r1, ts, text, ws),
        combinatorial_matches(r2, ts, text, ws),
    ensures
        r1 is Ok <==> r2 is Ok,
        r1 matches Ok(m1) ==> (r2 matches Ok(m2) ==> m1@ == m2@),
{
}

/// An empty pattern list yields the empty result table, over any corpus.
pub proof fn lemma_empty_patterns(text: Seq<char>)
    ensures
        counts_of(Seq::<Seq<char>>::empty(), text) == Map::<Seq<char>, nat>::empty(),
{
}

/// An empty candidate-word list yields the empty nested result table, over
/// any corpus and any template list.
pub proof fn lemma_empty_words(ts: Seq<Seq<char>>, text: Seq<char>)
    ensures
        nested_counts(ts, text, Seq::<Seq<char>>::empty()) == Map::<
            Seq<char>,
            Map<Seq<char>, nat>,
        >::empty(),
{
}

} // verus!
