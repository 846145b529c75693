use vstd::prelude::*;
use vstd::string::StringExecFns;
use crate::text::{
    spec_lines, spec_split, spec_split_once2, spec_trim, lower_of, lex_lt, dec_str, lines_of,
    split_char, split_label, trim_str, lower, str_lt, usize_to_string,
};

verus! {

/// The position of a key in an association list, or -1.
pub open spec fn assoc_idx<V>(m: Seq<(Seq<char>, V)>, k: Seq<char>) -> int
    decreases m.len(),
{
    if m.len() == 0 {
        -1
    } else if m[0].0 == k {
        0
    } else {
        let r = assoc_idx(m.skip(1), k);
        if r < 0 {
            -1
        } else {
            r + 1
        }
    }
}

/// The value stored under a key, if any.
pub open spec fn assoc_lookup<V>(m: Seq<(Seq<char>, V)>, k: Seq<char>) -> Option<V> {
    if assoc_idx(m, k) >= 0 {
        Some(m[assoc_idx(m, k)].1)
    } else {
        None
    }
}

/// The list with the value under k replaced, or appended when k is new:
/// the insertion of a keyed map.
pub open spec fn assoc_insert<V>(m: Seq<(Seq<char>, V)>, k: Seq<char>, v: V) -> Seq<(Seq<char>, V)> {
    let i = assoc_idx(m, k);
    if i >= 0 {
        m.update(i, (k, v))
    } else {
        m.push((k, v))
    }
}

proof fn lemma_assoc_idx_range<V>(m: Seq<(Seq<char>, V)>, k: Seq<char>)
    ensures
        -1 <= assoc_idx(m, k) < m.len(),
        assoc_idx(m, k) >= 0 ==> m[assoc_idx(m, k)].0 == k,
    decreases m.len(),
{
    if m.len() > 0 && m[0].0 != k {
        lemma_assoc_idx_range(m.skip(1), k);
    }
}

proof fn lemma_assoc_idx_at<V>(m: Seq<(Seq<char>, V)>, k: Seq<char>, i: int)
    requires
        0 <= i < m.len(),
        m[i].0 == k,
        forall|j: int| 0 <= j < i ==> (#[trigger] m[j]).0 != k,
    ensures
        assoc_idx(m, k) == i,
    decreases i,
{
    if i > 0 {
        lemma_assoc_idx_at(m.skip(1), k, i - 1);
    }
}

proof fn lemma_assoc_idx_none<V>(m: Seq<(Seq<char>, V)>, k: Seq<char>)
    requires
        forall|j: int| 0 <= j < m.len() ==> (#[trigger] m[j]).0 != k,
    ensures
        assoc_idx(m, k) == -1,
    decreases m.len(),
{
    if m.len() > 0 {
        lemma_assoc_idx_none(m.skip(1), k);
    }
}

/// The categories named on one line body: split at commas, each piece
/// trimmed and lowercased.
pub open spec fn cats_of(body: Seq<char>) -> Seq<Seq<char>> {
    spec_split(body, ',').map_values(|x: Seq<char>| lower_of(spec_trim(x)))
}

/// The person map the first n lines build: each "name: categories" line
/// stores the lowercased name with its category list; later lines win.
pub open spec fn build_people(ls: Seq<Seq<char>>, n: int) -> Seq<(Seq<char>, Seq<Seq<char>>)>
    decreases n,
{
    if n <= 0 {
        Seq::empty()
    } else {
        let prev = build_people(ls, n - 1);
        match spec_split_once2(ls[n - 1], ':', ' ') {
            Some(pr) => assoc_insert(prev, lower_of(pr.0), cats_of(pr.1)),
            None => prev,
        }
    }
}

/// The recipe map the first n lines build, in the same shape: recipe
/// name to its ingredient list, duplicates kept.
pub open spec fn build_recipes(ls: Seq<Seq<char>>, n: int) -> Seq<(Seq<char>, Seq<Seq<char>>)>
    decreases n,
{
    build_people(ls, n)
}

/// One categories line folded into the ingredient-to-category map: every
/// listed ingredient now points at this line's category.
pub open spec fn insert_ings(
    m: Seq<(Seq<char>, Seq<char>)>,
    ings: Seq<Seq<char>>,
    cat: Seq<char>,
    j: int,
) -> Seq<(Seq<char>, Seq<char>)>
    decreases j,
{
    if j <= 0 {
        m
    } else {
        assoc_insert(insert_ings(m, ings, cat, j - 1), ings[j - 1], cat)
    }
}

/// The ingredient-to-category map the first n lines build; an ingredient
/// listed under several categories keeps the last one.
pub open spec fn build_ing_to_cat(ls: Seq<Seq<char>>, n: int) -> Seq<(Seq<char>, Seq<char>)>
    decreases n,
{
    if n <= 0 {
        Seq::empty()
    } else {
        let prev = build_ing_to_cat(ls, n - 1);
        match spec_split_once2(ls[n - 1], ':', ' ') {
            Some(pr) => insert_ings(prev, cats_of(pr.1), lower_of(pr.0), cats_of(pr.1).len() as int),
            None => prev,
        }
    }
}

/// Replaces the value under a key, or appends the pair when the key is new.
fn map_insert(m: &mut Vec<(String, Vec<String>)>, k: String, v: Vec<String>)
    ensures
        final(m).deep_view() == assoc_insert(old(m).deep_view(), k@, v.deep_view()),
{
    proof {
        lemma_assoc_idx_range(m.deep_view(), k@);
    }
    let mut i: usize = 0;
    while i < m.len()
        invariant
            *m == *old(m),
            forall|j: int| 0 <= j < i ==> (#[trigger] m.deep_view()[j]).0 != k@,
            i <= m@.len(),
            m.deep_view().len() == m@.len(),
        decreases m@.len() - i,
    {
        if m[i].0 == k {
            proof {
                lemma_assoc_idx_at(m.deep_view(), k@, i as int);
            }
            let ghost kv = k@;
            let ghost vv = v.deep_view();
            m.set(i, (k, v));
            proof {
                assert(m.deep_view() =~~= assoc_insert(old(m).deep_view(), kv, vv));
            }
            return ;
        }
        i = i + 1;
    }
    proof {
        lemma_assoc_idx_none(m.deep_view(), k@);
    }
    m.push((k, v));
    proof {
        assert(m.deep_view() =~~= assoc_insert(old(m).deep_view(), k@, v.deep_view()));
    }
}

/// Replaces the category under an ingredient, or appends the pair.
fn cat_insert(m: &mut Vec<(String, String)>, k: String, v: String)
    ensures
        final(m).deep_view() == assoc_insert(old(m).deep_view(), k@, v@),
{
    proof {
        lemma_assoc_idx_range(m.deep_view(), k@);
    }
    let mut i: usize = 0;
    while i < m.len()
        invariant
            *m == *old(m),
            forall|j: int| 0 <= j < i ==> (#[trigger] m.deep_view()[j]).0 != k@,
            i <= m@.len(),
            m.deep_view().len() == m@.len(),
        decreases m@.len() - i,
    {
        if m[i].0 == k {
            proof {
                lemma_assoc_idx_at(m.deep_view(), k@, i as int);
            }
            let ghost kv = k@;
            let ghost vv = v@;
            m.set(i, (k, v));
            proof {
                assert(m.deep_view() =~~= assoc_insert(old(m).deep_view(), kv, vv));
            }
            return ;
        }
        i = i + 1;
    }
    proof {
        lemma_assoc_idx_none(m.deep_view(), k@);
    }
    m.push((k, v));
    proof {
        assert(m.deep_view() =~~= assoc_insert(old(m).deep_view(), k@, v@));
    }
}

/// The pieces of a comma-separated body, trimmed and lowercased.
fn cats_list(body: &str) -> (r: Vec<String>)
    ensures
        r.deep_view() == cats_of(body@),
{
    let raw = split_char(body, ',');
    let mut r: Vec<String> = Vec::new();
    let mut k: usize = 0;
    while k < raw.len()
        invariant
            raw@.len() == spec_split(body@, ',').len(),
            forall|i: int| 0 <= i < raw@.len() ==> raw@[i]@ == spec_split(body@, ',')[i],
            k <= raw@.len(),
            r.deep_view().len() == k,
            forall|i: int| 0 <= i < k ==> r.deep_view()[i] == cats_of(body@)[i],
        decreases raw@.len() - k,
    {
        let t = trim_str(raw[k].as_str());
        let l = lower(t.as_str());
        proof {
            assert(cats_of(body@)[k as int] == lower_of(spec_trim(spec_split(body@, ',')[k as int])));
            assert(l@ == cats_of(body@)[k as int]);
        }
        let ghost lv = l@;
        let ghost dv0 = r.deep_view();
        r.push(l);
        proof {
            assert forall|i: int| 0 <= i < k + 1 implies r.deep_view()[i] == cats_of(body@)[i] by {
                if i < k {
                    assert(r.deep_view()[i] == dv0[i]);
                } else {
                    assert(r.deep_view()[i] == lv);
                }
            }
        }
        k = k + 1;
    }
    proof {
        assert(r.deep_view() =~~= cats_of(body@));
    }
    r
}

/// Builds the person map (or the recipe map, which has the same shape)
/// from a text of "name: parts" lines.
fn build_name_map(data: &str) -> (m: Vec<(String, Vec<String>)>)
    ensures
        m.deep_view() == build_people(spec_lines(data@), spec_lines(data@).len() as int),
{
    let ghost ls = spec_lines(data@);
    let lines = lines_of(data);
    let mut m: Vec<(String, Vec<String>)> = Vec::new();
    let mut k: usize = 0;
    while k < lines.len()
        invariant
            ls == spec_lines(data@),
            lines@.len() == ls.len(),
            forall|i: int| 0 <= i < ls.len() ==> lines@[i]@ == ls[i],
            k <= ls.len(),
            m.deep_view() == build_people(ls, k as int),
        decreases lines@.len() - k,
    {
        match split_label(lines[k].as_str()) {
            Some(pr) => {
                let key = lower(pr.0.as_str());
                let vals = cats_list(pr.1.as_str());
                map_insert(&mut m, key, vals);
            },
            None => {},
        }
        k = k + 1;
    }
    m
}

/// Builds the ingredient-to-category map from a text of
/// "category: ingredients" lines.
fn build_cat_map(data: &str) -> (m: Vec<(String, String)>)
    ensures
        m.deep_view() == build_ing_to_cat(spec_lines(data@), spec_lines(data@).len() as int),
{
    let ghost ls = spec_lines(data@);
    let lines = lines_of(data);
    let mut m: Vec<(String, String)> = Vec::new();
    let mut k: usize = 0;
    while k < lines.len()
        invariant
            ls == spec_lines(data@),
            lines@.len() == ls.len(),
            forall|i: int| 0 <= i < ls.len() ==> lines@[i]@ == ls[i],
            k <= ls.len(),
            m.deep_view() == build_ing_to_cat(ls, k as int),
        decreases lines@.len() - k,
    {
        match split_label(lines[k].as_str()) {
            Some(pr) => {
                let cat = lower(pr.0.as_str());
                let ings = cats_list(pr.1.as_str());
                let mut j: usize = 0;
                while j < ings.len()
                    invariant
                        ings.deep_view() == cats_of(pr.1@),
                        cat@ == lower_of(pr.0@),
                        j <= ings@.len(),
                        ings.deep_view().len() == ings@.len(),
                        m.deep_view() == insert_ings(
                            build_ing_to_cat(ls, k as int),
                            cats_of(pr.1@),
                            lower_of(pr.0@),
                            j as int,
                        ),
                    decreases ings@.len() - j,
                {
                    cat_insert(&mut m, ings[j].clone(), cat.clone());
                    j = j + 1;
                }
            },
            None => {},
        }
        k = k + 1;
    }
    m
}

} // verus!

verus! {

/// Whether one ingredient counts as liked: the category it maps to is
/// one of the person's liked categories.
pub open spec fn ing_liked(
    ing: Seq<char>,
    cats: Seq<Seq<char>>,
    i2c: Seq<(Seq<char>, Seq<char>)>,
) -> bool {
    match assoc_lookup(i2c, ing) {
        Some(c) => cats.contains(c),
        None => false,
    }
}

/// How many of the first j ingredients count as liked, with multiplicity.
pub open spec fn liked_count(
    ings: Seq<Seq<char>>,
    cats: Seq<Seq<char>>,
    i2c: Seq<(Seq<char>, Seq<char>)>,
    j: int,
) -> int
    decreases j,
{
    if j <= 0 {
        0
    } else {
        liked_count(ings, cats, i2c, j - 1) + if ing_liked(ings[j - 1], cats, i2c) {
            1int
        } else {
            0int
        }
    }
}

/// The least number of liked ingredients that makes a recipe liked: six
/// tenths of the ingredient count, rounded up.
pub open spec fn threshold(n: int) -> int {
    (3 * n + 4) / 5
}

/// Whether a person with these liked categories likes a recipe.
pub open spec fn likes(
    ings: Seq<Seq<char>>,
    cats: Seq<Seq<char>>,
    i2c: Seq<(Seq<char>, Seq<char>)>,
) -> bool {
    liked_count(ings, cats, i2c, ings.len() as int) >= threshold(ings.len() as int)
}

/// How many of the first j people like the recipe.
pub open spec fn popularity(
    ings: Seq<Seq<char>>,
    people: Seq<(Seq<char>, Seq<Seq<char>>)>,
    i2c: Seq<(Seq<char>, Seq<char>)>,
    j: int,
) -> int
    decreases j,
{
    if j <= 0 {
        0
    } else {
        popularity(ings, people, i2c, j - 1) + if likes(ings, people[j - 1].1, i2c) {
            1int
        } else {
            0int
        }
    }
}

/// Whether a list of strings holds this one.
fn contains_str(v: &Vec<String>, x: &String) -> (r: bool)
    ensures
        r == v.deep_view().contains(x@),
{
    let mut i: usize = 0;
    while i < v.len()
        invariant
            i <= v@.len(),
            forall|j: int| 0 <= j < i ==> v.deep_view()[j] != x@,
        decreases v@.len() - i,
    {
        if v[i] == *x {
            proof {
                assert(v.deep_view()[i as int] == x@);
            }
            return true;
        }
        i = i + 1;
    }
    proof {
        assert forall|j: int| 0 <= j < v.deep_view().len() implies v.deep_view()[j] != x@ by {}
    }
    false
}

/// The position of a key in the ingredient map, if any.
fn cat_find(m: &Vec<(String, String)>, k: &String) -> (r: Option<usize>)
    ensures
        match r {
            Some(i) => assoc_idx(m.deep_view(), k@) == i && i < m@.len(),
            None => assoc_idx(m.deep_view(), k@) == -1,
        },
{
    let mut i: usize = 0;
    while i < m.len()
        invariant
            i <= m@.len(),
            forall|j: int| 0 <= j < i ==> (#[trigger] m.deep_view()[j]).0 != k@,
        decreases m@.len() - i,
    {
        if m[i].0 == *k {
            proof {
                lemma_assoc_idx_at(m.deep_view(), k@, i as int);
            }
            return Some(i);
        }
        i = i + 1;
    }
    proof {
        lemma_assoc_idx_none(m.deep_view(), k@);
    }
    None
}

/// The position of a key in the person or recipe map, if any.
fn map_find(m: &Vec<(String, Vec<String>)>, k: &String) -> (r: Option<usize>)
    ensures
        match r {
            Some(i) => assoc_idx(m.deep_view(), k@) == i && i < m@.len(),
            None => assoc_idx(m.deep_view(), k@) == -1,
        },
{
    let mut i: usize = 0;
    while i < m.len()
        invariant
            i <= m@.len(),
            forall|j: int| 0 <= j < i ==> (#[trigger] m.deep_view()[j]).0 != k@,
        decreases m@.len() - i,
    {
        if m[i].0 == *k {
            proof {
                lemma_assoc_idx_at(m.deep_view(), k@, i as int);
            }
            return Some(i);
        }
        i = i + 1;
    }
    proof {
        lemma_assoc_idx_none(m.deep_view(), k@);
    }
    None
}

/// Counts the liked ingredients of a recipe for one person.
fn count_liked(ings: &Vec<String>, cats: &Vec<String>, i2c: &Vec<(String, String)>) -> (n: usize)
    ensures
        n == liked_count(ings.deep_view(), cats.deep_view(), i2c.deep_view(), ings@.len() as int),
        n <= ings@.len(),
{
    let mut n: usize = 0;
    let mut j: usize = 0;
    while j < ings.len()
        invariant
            j <= ings@.len(),
            n <= j,
            n == liked_count(ings.deep_view(), cats.deep_view(), i2c.deep_view(), j as int),
        decreases ings@.len() - j,
    {
        match cat_find(i2c, &ings[j]) {
            Some(ci) => {
                proof {
                    assert(assoc_lookup(i2c.deep_view(), ings.deep_view()[j as int]) == Some(
                        i2c.deep_view()[ci as int].1,
                    ));
                    assert(i2c.deep_view()[ci as int].1 == i2c@[ci as int].1@);
                }
                if contains_str(cats, &i2c[ci].1) {
                    n = n + 1;
                }
            },
            None => {
                proof {
                    assert(!ing_liked(ings.deep_view()[j as int], cats.deep_view(), i2c.deep_view()));
                }
            },
        }
        j = j + 1;
    }
    n
}

/// Decides whether enough of a recipe's ingredients are liked.
fn recipe_liked(ings: &Vec<String>, cats: &Vec<String>, i2c: &Vec<(String, String)>) -> (r: bool)
    ensures
        r == likes(ings.deep_view(), cats.deep_view(), i2c.deep_view()),
{
    let n = count_liked(ings, cats, i2c);
    let total = ings.len();
    let thr = (3 * (total as u128) + 4) / 5;
    proof {
        assert(ings.deep_view().len() == total);
        assert(thr == threshold(total as int));
    }
    (n as u128) >= thr
}

/// Counts the people who like a recipe.
fn popularity_count(
    ings: &Vec<String>,
    people: &Vec<(String, Vec<String>)>,
    i2c: &Vec<(String, String)>,
) -> (n: usize)
    ensures
        n == popularity(
            ings.deep_view(),
            people.deep_view(),
            i2c.deep_view(),
            people@.len() as int,
        ),
        n <= people@.len(),
{
    let mut n: usize = 0;
    let mut j: usize = 0;
    while j < people.len()
        invariant
            j <= people@.len(),
            n <= j,
            n == popularity(ings.deep_view(), people.deep_view(), i2c.deep_view(), j as int),
        decreases people@.len() - j,
    {
        proof {
            assert(people.deep_view()[j as int].1 == people@[j as int].1.deep_view());
        }
        if recipe_liked(ings, &people[j].1, i2c) {
            n = n + 1;
        }
        j = j + 1;
    }
    n
}

} // verus!

verus! {

/// The scored pairs as mathematical values.
pub open spec fn scores_view(v: Seq<(String, usize)>) -> Seq<(Seq<char>, int)> {
    Seq::new(v.len(), |i: int| (v[i].0@, v[i].1 as int))
}

/// The sort order of the popularity list: higher count first, ties by
/// the lowercased name in code-point order.
pub open spec fn score_lt(a: (Seq<char>, int), b: (Seq<char>, int)) -> bool {
    a.1 > b.1 || (a.1 == b.1 && lex_lt(lower_of(a.0), lower_of(b.0)))
}

/// x inserted before the first entry it precedes.
pub open spec fn sorted_insert(x: (Seq<char>, int), s: Seq<(Seq<char>, int)>) -> Seq<(Seq<char>, int)>
    decreases s.len(),
{
    if s.len() == 0 {
        seq![x]
    } else if score_lt(x, s[0]) {
        seq![x] + s
    } else {
        seq![s[0]] + sorted_insert(x, s.skip(1))
    }
}

/// The first n entries inserted one by one: insertion sort.
pub open spec fn sort_upto(s: Seq<(Seq<char>, int)>, n: int) -> Seq<(Seq<char>, int)>
    decreases n,
{
    if n <= 0 {
        Seq::empty()
    } else {
        sorted_insert(s[n - 1], sort_upto(s, n - 1))
    }
}

/// One line of the popularity report.
pub open spec fn render_entry(e: (Seq<char>, int)) -> Seq<char> {
    e.0 + " (liked by "@ + dec_str(e.1) + " people)\n"@
}

/// The first n report lines, concatenated.
pub open spec fn render_upto(s: Seq<(Seq<char>, int)>, n: int) -> Seq<char>
    decreases n,
{
    if n <= 0 {
        Seq::empty()
    } else {
        render_upto(s, n - 1) + render_entry(s[n - 1])
    }
}

/// The whole popularity report: a header, then the three best recipes
/// (or all of them, when there are fewer).
pub open spec fn popular_output(
    recipes: Seq<(Seq<char>, Seq<Seq<char>>)>,
    people: Seq<(Seq<char>, Seq<Seq<char>>)>,
    i2c: Seq<(Seq<char>, Seq<char>)>,
) -> Seq<char> {
    let scores = Seq::new(
        recipes.len(),
        |i: int| (recipes[i].0, popularity(recipes[i].1, people, i2c, people.len() as int)),
    );
    let sorted = sort_upto(scores, scores.len() as int);
    let n = if sorted.len() < 3 {
        sorted.len() as int
    } else {
        3int
    };
    "Top 3 popular recipes:\n"@ + render_upto(sorted, n)
}

/// The answer when the person is unknown.
pub open spec fn person_not_found(name: Seq<char>) -> Seq<char> {
    "Person '"@ + name + "' not found."@
}

/// The answer when the recipe is unknown.
pub open spec fn recipe_not_found(recipe: Seq<char>) -> Seq<char> {
    "Recipe '"@ + recipe + "' not found."@
}

/// The two verdict lines for a known person and recipe.
pub open spec fn verdict_line(name: Seq<char>, recipe: Seq<char>, liked: bool) -> Seq<char> {
    if liked {
        name + " likes the recipe '"@ + recipe + "'."@
    } else {
        name + " does NOT like the recipe '"@ + recipe + "'."@
    }
}

/// Everything the query answers, as a function of the raw inputs: the
/// popularity report for the fixed report query, a not-found line for an
/// unknown person or recipe, and otherwise the verdict of the
/// six-tenths rule on the recipe's ingredients.
pub open spec fn strings_output(
    name: Seq<char>,
    recipe: Seq<char>,
    people_data: Seq<char>,
    categories_data: Seq<char>,
    recipes_data: Seq<char>,
) -> Seq<char> {
    let people = build_people(spec_lines(people_data), spec_lines(people_data).len() as int);
    let i2c = build_ing_to_cat(spec_lines(categories_data), spec_lines(categories_data).len() as int);
    let recipes = build_recipes(spec_lines(recipes_data), spec_lines(recipes_data).len() as int);
    if name == "popular recipes"@ {
        popular_output(recipes, people, i2c)
    } else if assoc_lookup(people, name) is None {
        person_not_found(name)
    } else if assoc_lookup(recipes, recipe) is None {
        recipe_not_found(recipe)
    } else {
        verdict_line(
            name,
            recipe,
            likes(
                assoc_lookup(recipes, recipe)->Some_0,
                assoc_lookup(people, name)->Some_0,
                i2c,
            ),
        )
    }
}

/// Decides the sort order on two scored entries.
fn score_less(a: &(String, usize), b: &(String, usize)) -> (r: bool)
    ensures
        r == score_lt((a.0@, a.1 as int), (b.0@, b.1 as int)),
{
    if a.1 > b.1 {
        true
    } else if a.1 == b.1 {
        let la = lower(a.0.as_str());
        let lb = lower(b.0.as_str());
        str_lt(la.as_str(), lb.as_str())
    } else {
        false
    }
}

proof fn lemma_sorted_insert_len(x: (Seq<char>, int), s: Seq<(Seq<char>, int)>)
    ensures
        sorted_insert(x, s).len() == s.len() + 1,
    decreases s.len(),
{
    if s.len() > 0 && !score_lt(x, s[0]) {
        lemma_sorted_insert_len(x, s.skip(1));
    }
}

proof fn lemma_sort_upto_len(s: Seq<(Seq<char>, int)>, n: int)
    requires
        0 <= n <= s.len(),
    ensures
        sort_upto(s, n).len() == n,
    decreases n,
{
    if n > 0 {
        lemma_sort_upto_len(s, n - 1);
        lemma_sorted_insert_len(s[n - 1], sort_upto(s, n - 1));
    }
}

proof fn lemma_sorted_insert_at(x: (Seq<char>, int), s: Seq<(Seq<char>, int)>, pos: int)
    requires
        0 <= pos <= s.len(),
        forall|j: int| 0 <= j < pos ==> !score_lt(x, #[trigger] s[j]),
        pos < s.len() ==> score_lt(x, s[pos]),
    ensures
        sorted_insert(x, s) == s.take(pos) + seq![x] + s.skip(pos),
    decreases pos,
{
    if pos == 0 {
        if s.len() == 0 {
            assert(sorted_insert(x, s) =~= s.take(0) + seq![x] + s.skip(0));
        } else {
            assert(sorted_insert(x, s) =~= s.take(0) + seq![x] + s.skip(0));
        }
    } else {
        lemma_sorted_insert_at(x, s.skip(1), pos - 1);
        assert(s.skip(1).take(pos - 1) =~= s.subrange(1, pos));
        assert(s.skip(1).skip(pos - 1) =~= s.skip(pos));
        assert(sorted_insert(x, s) == seq![s[0]] + sorted_insert(x, s.skip(1)));
        assert(sorted_insert(x, s) =~= s.take(pos) + seq![x] + s.skip(pos));
    }
}

/// The position of the first entry that x precedes, or the length.
fn find_insert_pos(acc: &Vec<(String, usize)>, x: &(String, usize)) -> (pos: usize)
    ensures
        pos <= acc@.len(),
        forall|j: int| 0 <= j < pos ==> !score_lt((x.0@, x.1 as int), #[trigger] scores_view(acc@)[j]),
        pos < acc@.len() ==> score_lt((x.0@, x.1 as int), scores_view(acc@)[pos as int]),
{
    let mut pos: usize = 0;
    while pos < acc.len()
        invariant
            pos <= acc@.len(),
            forall|j: int| 0 <= j < pos ==> !score_lt((x.0@, x.1 as int), #[trigger] scores_view(acc@)[j]),
        decreases acc@.len() - pos,
    {
        if score_less(x, &acc[pos]) {
            return pos;
        }
        pos = pos + 1;
    }
    pos
}

/// Inserts one scored entry before the first entry it precedes.
fn insert_sorted(acc: &mut Vec<(String, usize)>, x: (String, usize))
    ensures
        scores_view(final(acc)@) == sorted_insert(
            (x.0@, x.1 as int),
            scores_view(old(acc)@),
        ),
{
    let ghost xv = (x.0@, x.1 as int);
    let pos = find_insert_pos(acc, &x);
    proof {
        lemma_sorted_insert_at(xv, scores_view(acc@), pos as int);
    }
    acc.insert(pos, x);
    proof {
        assert(scores_view(acc@) =~= scores_view(old(acc)@).take(pos as int) + seq![xv]
            + scores_view(old(acc)@).skip(pos as int));
    }
}

/// Builds, sorts and renders the popularity report.
fn popular_report(
    recipes: &Vec<(String, Vec<String>)>,
    people: &Vec<(String, Vec<String>)>,
    i2c: &Vec<(String, String)>,
) -> (out: String)
    ensures
        out@ == popular_output(recipes.deep_view(), people.deep_view(), i2c.deep_view()),
{
    let ghost pdv = people.deep_view();
    let ghost cdv = i2c.deep_view();
    let ghost rdv = recipes.deep_view();
    let ghost spec_scores = Seq::new(
        rdv.len(),
        |i: int| (rdv[i].0, popularity(rdv[i].1, pdv, cdv, pdv.len() as int)),
    );
    proof {
        assert(pdv.len() == people@.len());
        assert(rdv.len() == recipes@.len());
    }
    let mut scores: Vec<(String, usize)> = Vec::new();
    let mut k: usize = 0;
    while k < recipes.len()
        invariant
            k <= recipes@.len(),
            spec_scores.len() == recipes@.len(),
            pdv == people.deep_view(),
            cdv == i2c.deep_view(),
            rdv == recipes.deep_view(),
            pdv.len() == people@.len(),
            forall|i: int|
                0 <= i < recipes@.len() ==> #[trigger] spec_scores[i] == (
                    rdv[i].0,
                    popularity(rdv[i].1, pdv, cdv, pdv.len() as int),
                ),
            scores@.len() == k,
            forall|i: int| 0 <= i < k ==> #[trigger] scores_view(scores@)[i] == spec_scores[i],
        decreases recipes@.len() - k,
    {
        let cnt = popularity_count(&recipes[k].1, people, i2c);
        proof {
            assert(rdv[k as int].1 == recipes@[k as int].1.deep_view());
            assert(rdv[k as int].0 == recipes@[k as int].0@);
        }
        let ghost sv0 = scores_view(scores@);
        scores.push((recipes[k].0.clone(), cnt));
        proof {
            assert forall|i: int|
                0 <= i < k + 1 implies #[trigger] scores_view(scores@)[i] == spec_scores[i] by {
                assert(scores_view(scores@)[i] == (scores@[i].0@, scores@[i].1 as int));
                if i < k {
                    assert(sv0[i] == (scores@[i].0@, scores@[i].1 as int));
                }
            }
        }
        k = k + 1;
    }
    let mut sorted: Vec<(String, usize)> = Vec::new();
    let mut k2: usize = 0;
    while k2 < scores.len()
        invariant
            k2 <= scores@.len(),
            spec_scores.len() == scores@.len(),
            forall|i: int| 0 <= i < scores@.len() ==> #[trigger] scores_view(scores@)[i] == spec_scores[i],
            scores_view(sorted@) == sort_upto(spec_scores, k2 as int),
        decreases scores@.len() - k2,
    {
        let entry = (scores[k2].0.clone(), scores[k2].1);
        proof {
            assert(scores_view(scores@)[k2 as int] == spec_scores[k2 as int]);
            assert((entry.0@, entry.1 as int) == spec_scores[k2 as int]);
        }
        insert_sorted(&mut sorted, entry);
        k2 = k2 + 1;
    }
    let ghost sspec = sort_upto(spec_scores, spec_scores.len() as int);
    proof {
        lemma_sort_upto_len(spec_scores, spec_scores.len() as int);
    }
    let mut out = String::from_str("Top 3 popular recipes:\n");
    let mut k3: usize = 0;
    while k3 < 3 && k3 < sorted.len()
        invariant
            scores_view(sorted@) == sspec,
            sspec.len() == sorted@.len(),
            k3 <= 3,
            k3 <= sorted@.len(),
            out@ == "Top 3 popular recipes:\n"@ + render_upto(sspec, k3 as int),
        decreases sorted@.len() - k3,
    {
        proof {
            assert(scores_view(sorted@)[k3 as int] == sspec[k3 as int]);
        }
        out.append(sorted[k3].0.as_str());
        out.append(" (liked by ");
        let num = usize_to_string(sorted[k3].1);
        out.append(num.as_str());
        out.append(" people)\n");
        proof {
            assert(out@ =~= "Top 3 popular recipes:\n"@ + render_upto(sspec, k3 + 1));
        }
        k3 = k3 + 1;
    }
    proof {
        let inner = Seq::new(
            rdv.len(),
            |i: int| (rdv[i].0, popularity(rdv[i].1, pdv, cdv, pdv.len() as int)),
        );
        assert(spec_scores =~= inner);
        assert(out@ == popular_output(rdv, pdv, cdv));
    }
    out
}

/// Answers a recipe query over the three data files' contents: the
/// popularity report, a not-found line, or the verdict for one person
/// and one recipe.
pub fn strings_from_data(
    name: &str,
    recipe: &str,
    people_categories_data: &str,
    categories_ingredients_data: &str,
    recipes_data: &str,
) -> (output: String)
    ensures
        output@ == strings_output(
            name@,
            recipe@,
            people_categories_data@,
            categories_ingredients_data@,
            recipes_data@,
        ),
{
    let people = build_name_map(people_categories_data);
    let i2c = build_cat_map(categories_ingredients_data);
    let recipes = build_name_map(recipes_data);
    let name_string = name.to_owned();
    let popular_key = String::from_str("popular recipes");
    proof {
        reveal_strlit("popular recipes");
    }
    if name_string == popular_key {
        return popular_report(&recipes, &people, &i2c);
    }
    let person_idx = map_find(&people, &name_string);
    if person_idx.is_none() {
        let mut out = String::from_str("Person '");
        out.append(name);
        out.append("' not found.");
        return out;
    }
    let recipe_string = recipe.to_owned();
    let recipe_idx = map_find(&recipes, &recipe_string);
    if recipe_idx.is_none() {
        let mut out = String::from_str("Recipe '");
        out.append(recipe);
        out.append("' not found.");
        return out;
    }
    let pi = person_idx.unwrap();
    let ri = recipe_idx.unwrap();
    proof {
        assert(assoc_lookup(people.deep_view(), name@) == Some(people.deep_view()[pi as int].1));
        assert(assoc_lookup(recipes.deep_view(), recipe@) == Some(
            recipes.deep_view()[ri as int].1,
        ));
        assert(people.deep_view()[pi as int].1 == people@[pi as int].1.deep_view());
        assert(recipes.deep_view()[ri as int].1 == recipes@[ri as int].1.deep_view());
    }
    let liked = recipe_liked(&recipes[ri].1, &people[pi].1, &i2c);
    let mut out = String::from_str("");
    out.append(name);
    if liked {
        out.append(" likes the recipe '");
    } else {
        out.append(" does NOT like the recipe '");
    }
    out.append(recipe);
    out.append("'.");
    proof {
        reveal_strlit("");
        assert(out@ =~= verdict_line(name@, recipe@, liked));
    }
    out
}

} // verus!
