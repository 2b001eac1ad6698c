//! Model names as a backend lists them: the `models/` prefix removed, and an
//! ordering that puts the more capable model families first.
use vstd::prelude::*;
use crate::text::{chars_of, contains, contains_exec, replace_all, replace_all_exec, string_of};

verus! {

/// The score of a model name: +100 for "pro", +200 for "ultra", -50 for
/// "flash", +50 for "1.5" and +10 for "latest", for each that it contains.
pub open spec fn model_score(name: Seq<char>) -> int {
    (if contains(name, seq!['p', 'r', 'o']) { 100int } else { 0 }) + (if contains(
        name,
        seq!['u', 'l', 't', 'r', 'a'],
    ) {
        200int
    } else {
        0
    }) + (if contains(name, seq!['f', 'l', 'a', 's', 'h']) { -50int } else { 0 }) + (if contains(
        name,
        seq!['1', '.', '5'],
    ) {
        50int
    } else {
        0
    }) + (if contains(name, seq!['l', 'a', 't', 'e', 's', 't']) { 10int } else { 0 })
}

/// Scores a model name for ordering.
pub fn get_model_score(name: &str) -> (r: i32)
    ensures
        r as int == model_score(name@),
{
    let s = chars_of(name);
    let pro: Vec<char> = vec!['p', 'r', 'o'];
    let ultra: Vec<char> = vec!['u', 'l', 't', 'r', 'a'];
    let flash: Vec<char> = vec!['f', 'l', 'a', 's', 'h'];
    let one_five: Vec<char> = vec!['1', '.', '5'];
    let latest: Vec<char> = vec!['l', 'a', 't', 'e', 's', 't'];
    assert(pro@ =~= seq!['p', 'r', 'o']);
    assert(ultra@ =~= seq!['u', 'l', 't', 'r', 'a']);
    assert(flash@ =~= seq!['f', 'l', 'a', 's', 'h']);
    assert(one_five@ =~= seq!['1', '.', '5']);
    assert(latest@ =~= seq!['l', 'a', 't', 'e', 's', 't']);
    let mut score: i32 = 0;
    if contains_exec(&s, &pro) {
        score = score + 100;
    }
    if contains_exec(&s, &ultra) {
        score = score + 200;
    }
    if contains_exec(&s, &flash) {
        score = score - 50;
    }
    if contains_exec(&s, &one_five) {
        score = score + 50;
    }
    if contains_exec(&s, &latest) {
        score = score + 10;
    }
    score
}

/// The `models/` prefix that a backend puts before each name.
pub open spec fn models_prefix() -> Seq<char> {
    seq!['m', 'o', 'd', 'e', 'l', 's', '/']
}

/// A listed name with every `models/` removed.
pub open spec fn short_name(name: Seq<char>) -> Seq<char> {
    replace_all(name, models_prefix(), Seq::empty())
}

/// Removes every `models/` from a listed model name.
pub fn strip_models_prefix(name: &String) -> (r: String)
    ensures
        r@ == short_name(name@),
{
    let s = chars_of(name.as_str());
    let prefix: Vec<char> = vec!['m', 'o', 'd', 'e', 'l', 's', '/'];
    let empty: Vec<char> = Vec::new();
    assert(prefix@ =~= models_prefix());
    assert(empty@ =~= Seq::<char>::empty());
    string_of(&replace_all_exec(&s, &prefix, &empty))
}

/// The short names of all listed models, in order.
pub fn model_names(names: &Vec<String>) -> (r: Vec<String>)
    ensures
        r@.len() == names@.len(),
        forall|i: int| 0 <= i < names@.len() ==> r@[i]@ == short_name(names@[i]@),
{
    let mut out: Vec<String> = Vec::new();
    let mut i: usize = 0;
    while i < names.len()
        invariant
            i <= names@.len(),
            out@.len() == i,
            forall|k: int| 0 <= k < i ==> out@[k]@ == short_name(names@[k]@),
        decreases names@.len() - i,
    {
        out.push(strip_models_prefix(&names[i]));
        i = i + 1;
    }
    out
}

/// Where a name goes among names ordered by score: after each of higher score.
pub open spec fn score_position(s: Seq<Seq<char>>, name: Seq<char>) -> int
    decreases s.len(),
{
    if s.len() == 0 || model_score(s[0]) <= model_score(name) {
        0
    } else {
        1 + score_position(s.drop_first(), name)
    }
}

/// Names ordered by score, highest first; names of equal score keep their order.
pub open spec fn score_sorted(s: Seq<Seq<char>>) -> Seq<Seq<char>>
    decreases s.len(),
{
    if s.len() == 0 {
        s
    } else {
        let rest = score_sorted(s.drop_first());
        rest.insert(score_position(rest, s[0]), s[0])
    }
}

/// The mark of a generative model's name.
pub open spec fn generative_marker() -> Seq<char> {
    seq!['g', 'e', 'n', 'e', 'r', 'a', 't', 'e', 'C', 'o', 'n', 't', 'e', 'n', 't']
}

/// The short names of the generative models of a listing (those whose name
/// holds `generateContent`), in listing order.
pub open spec fn generative_names(names: Seq<Seq<char>>) -> Seq<Seq<char>>
    decreases names.len(),
{
    if names.len() == 0 {
        Seq::empty()
    } else {
        let rest = generative_names(names.drop_last());
        if contains(names.last(), generative_marker()) {
            rest.push(short_name(names.last()))
        } else {
            rest
        }
    }
}

proof fn lemma_score_position_unique(s: Seq<Seq<char>>, name: Seq<char>, j: int)
    requires
        0 <= j <= s.len(),
        forall|k: int| 0 <= k < j ==> model_score(s[k]) > model_score(name),
        j < s.len() ==> model_score(s[j]) <= model_score(name),
    ensures
        score_position(s, name) == j,
    decreases s.len(),
{
    if j > 0 {
        lemma_score_position_unique(s.drop_first(), name, j - 1);
    }
}

/// The short names of the generative models of a listing, highest score first.
pub fn sorted_model_names(names: &Vec<String>) -> (r: Vec<String>)
    ensures
        r@.map_values(|n: String| n@) == score_sorted(
            generative_names(names@.map_values(|n: String| n@)),
        ),
{
    let marker: Vec<char> = vec![
        'g', 'e', 'n', 'e', 'r', 'a', 't', 'e', 'C', 'o', 'n', 't', 'e', 'n', 't',
    ];
    let ghost views = names@.map_values(|n: String| n@);
    assert(marker@ =~= seq![
        'g', 'e', 'n', 'e', 'r', 'a', 't', 'e', 'C', 'o', 'n', 't', 'e', 'n', 't'
    ]);
    // the short names of the generative models, in listing order
    let mut picked: Vec<String> = Vec::new();
    let mut i: usize = 0;
    while i < names.len()
        invariant
            i <= names@.len(),
            views == names@.map_values(|n: String| n@),
            marker@ == seq![
                'g', 'e', 'n', 'e', 'r', 'a', 't', 'e', 'C', 'o', 'n', 't', 'e', 'n', 't'
            ],
            picked@.map_values(|n: String| n@) == generative_names(views.take(i as int)),
        decreases names@.len() - i,
    {
        assert(views.take(i + 1).drop_last() =~= views.take(i as int));
        assert(views.take(i + 1).last() == names@[i as int]@);
        let s = chars_of(names[i].as_str());
        if contains_exec(&s, &marker) {
            picked.push(strip_models_prefix(&names[i]));
        }
        i = i + 1;
        assert(picked@.map_values(|n: String| n@) =~= generative_names(views.take(i as int)));
    }
    assert(views.take(i as int) =~= views);
    let ghost picked_views = picked@.map_values(|n: String| n@);
    // stable insertion, taking names from the back
    let mut out: Vec<String> = Vec::new();
    let mut out_scores: Vec<i32> = Vec::new();
    assert(picked_views.subrange(picked_views.len() as int, picked_views.len() as int)
        =~= Seq::<Seq<char>>::empty());
    while picked.len() > 0
        invariant
            picked@.map_values(|n: String| n@) == picked_views.take(picked@.len() as int),
            picked@.len() <= picked_views.len(),
            out@.map_values(|n: String| n@) == score_sorted(
                picked_views.subrange(picked@.len() as int, picked_views.len() as int),
            ),
            out_scores@.len() == out@.len(),
            forall|k: int| 0 <= k < out@.len() ==> out_scores@[k] as int == model_score(out@[k]@),
        decreases picked@.len(),
    {
        let ghost n = picked@.len() as int;
        let ghost rest = out@.map_values(|x: String| x@);
        let name = picked.pop().unwrap();
        proof {
            assert(picked_views.subrange(n - 1, picked_views.len() as int).drop_first()
                =~= picked_views.subrange(n, picked_views.len() as int));
            assert(picked_views.take(n)[n - 1] == name@);
            assert(picked@.map_values(|x: String| x@) =~= picked_views.take(n - 1));
        }
        let score = get_model_score(name.as_str());
        let mut j: usize = 0;
        while j < out.len() && out_scores[j] > score
            invariant
                j <= out@.len(),
                out_scores@.len() == out@.len(),
                forall|k: int| 0 <= k < out@.len() ==> out_scores@[k] as int == model_score(out@[k]@),
                forall|k: int| 0 <= k < j ==> model_score(out@[k]@) > model_score(name@),
                score as int == model_score(name@),
            decreases out@.len() - j,
        {
            j = j + 1;
        }
        proof {
            assert(rest.len() == out@.len());
            assert forall|k: int| 0 <= k < j implies model_score(rest[k]) > model_score(name@) by {
                assert(rest[k] == out@[k]@);
            }
            if j < out@.len() {
                assert(rest[j as int] == out@[j as int]@);
            }
            lemma_score_position_unique(rest, name@, j as int);
        }
        let ghost old_out = out@;
        let ghost old_scores = out_scores@;
        out.insert(j, name);
        out_scores.insert(j, score);
        assert(out@.map_values(|x: String| x@) =~= rest.insert(j as int, picked_views.take(n)[n
            - 1]));
        assert forall|k: int| 0 <= k < out@.len() implies out_scores@[k] as int == model_score(
            out@[k]@,
        ) by {
            if k < j {
            } else if k == j {
            } else {
                assert(out@[k] == old_out[k - 1]);
                assert(out_scores@[k] == old_scores[k - 1]);
            }
        }
    }
    assert(picked_views.subrange(0, picked_views.len() as int) =~= picked_views);
    out
}

} // verus!
