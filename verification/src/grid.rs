//! The trivia grid: three row queries and three column queries, drawn at
//! random by their odds and filled in with chosen values, and the answers
//! of the nine cells.

use vstd::prelude::*;
use rand::rngs::ThreadRng;
use rand::Rng;
use crate::remote::copy_texts;
use crate::text::{replace_all, replaced, same_text};

verus! {

/// A query template. Its label and its statement hold each variable's name
/// in square brackets. `options` lists complete sets of values for the
/// variables; without it each variable takes one of its candidates.
#[derive(Debug, Clone, PartialEq, Eq)]
pub struct Query {
    pub label: String,
    pub query: String,
    pub odds: i32,
    pub vars: Option<Vec<String>>,
    pub options: Option<Vec<Vec<String>>>,
}

/// A value for a variable: the text that the label shows and, where it
/// differs, the text that the statement takes.
#[derive(Debug, Clone, PartialEq, Eq)]
pub struct Choice {
    pub label: String,
    pub value: Option<String>,
}

/// A choice with its texts as character sequences.
pub struct ChoiceView {
    pub label: Seq<char>,
    pub value: Option<Seq<char>>,
}

impl ChoiceView {
    /// The text that the statement takes.
    pub open spec fn statement_text(self) -> Seq<char> {
        match self.value {
            Some(v) => v,
            None => self.label,
        }
    }
}

impl View for Choice {
    type V = ChoiceView;

    open spec fn view(&self) -> ChoiceView {
        ChoiceView {
            label: self.label@,
            value: match self.value {
                Some(v) => Some(v@),
                None => None,
            },
        }
    }
}

/// The views of a sequence of choices.
pub open spec fn choice_views(choices: Seq<Choice>) -> Seq<ChoiceView> {
    Seq::new(choices.len(), |i: int| choices[i]@)
}

/// One choice for each text, the same for label and statement.
pub open spec fn plain_choices(texts: Seq<String>) -> Seq<ChoiceView> {
    Seq::new(texts.len(), |i: int| ChoiceView { label: texts[i]@, value: None })
}

/// The values that a variable can take. Years and games are those that
/// the store holds; the other variables have fixed values; an unknown
/// variable has none.
pub open spec fn candidates(var: Seq<char>, years: Seq<String>, games: Seq<String>) -> Seq<
    ChoiceView,
> {
    if var == "year"@ {
        plain_choices(years)
    } else if var == "above/below"@ {
        seq![
            ChoiceView { label: "above"@, value: Some(">"@) },
            ChoiceView { label: "below"@, value: Some("<"@) },
        ]
    } else if var == "placement"@ {
        seq![
            ChoiceView { label: "Top 3"@, value: Some("3"@) },
            ChoiceView { label: "Top 8"@, value: Some("8"@) },
        ]
    } else if var == "game"@ {
        plain_choices(games)
    } else if var == "miscdata"@ {
        seq![
            ChoiceView { label: "TRULY Esports"@, value: None },
            ChoiceView { label: "SCUM Esports"@, value: None },
            ChoiceView { label: "Quiznos Esports"@, value: None },
            ChoiceView { label: "Has Had A Trials Named After Them"@, value: None },
        ]
    } else {
        Seq::empty()
    }
}

/// A variable's name in square brackets.
pub open spec fn bracketed(var: Seq<char>) -> Seq<char> {
    seq!['['] + var + seq![']']
}

/// The text after the first `n` variables are replaced, in order, each by
/// its text.
pub open spec fn filled(text: Seq<char>, vars: Seq<String>, texts: Seq<Seq<char>>, n: int) -> Seq<
    char,
>
    decreases n,
{
    if n <= 0 {
        text
    } else {
        replaced(filled(text, vars, texts, n - 1), bracketed(vars[n - 1]@), texts[n - 1])
    }
}

/// The texts that the label shows for the choices.
pub open spec fn label_texts(choices: Seq<ChoiceView>) -> Seq<Seq<char>> {
    Seq::new(choices.len(), |i: int| choices[i].label)
}

/// The texts that the statement takes for the choices.
pub open spec fn statement_texts(choices: Seq<ChoiceView>) -> Seq<Seq<char>> {
    Seq::new(choices.len(), |i: int| choices[i].statement_text())
}

/// The strings of an optional list.
pub open spec fn texts_of(list: Option<Vec<String>>) -> Option<Seq<String>> {
    match list {
        Some(v) => Some(v@),
        None => None,
    }
}

/// The rows of an optional table.
pub open spec fn rows_of(table: Option<Vec<Vec<String>>>) -> Option<Seq<Seq<String>>> {
    match table {
        Some(t) => Some(Seq::new(t@.len(), |i: int| t@[i]@)),
        None => None,
    }
}

/// The sum of the odds of the first `n` queries.
pub open spec fn odds_before(queries: Seq<Query>, n: int) -> int
    decreases n,
{
    if n <= 0 {
        0
    } else {
        odds_before(queries, n - 1) + queries[n - 1].odds
    }
}

/// The sum of the odds of all queries.
pub open spec fn odds_total(queries: Seq<Query>) -> int {
    odds_before(queries, queries.len() as int)
}

/// Whether the target falls to the query at index `i`: it is the first
/// query whose odds, added to those before it, exceed the target.
pub open spec fn picks(queries: Seq<Query>, target: int, i: int) -> bool {
    &&& 0 <= i < queries.len()
    &&& odds_before(queries, i + 1) > target
    &&& forall|j: int| 0 <= j < i ==> #[trigger] odds_before(queries, j + 1) <= target
}

impl Query {
    /// The names of the variables; none where the query has no list.
    pub open spec fn var_names(&self) -> Seq<String> {
        match self.vars {
            Some(v) => v@,
            None => Seq::empty(),
        }
    }

    /// Whether the query names the variable.
    pub open spec fn names_variable(&self, var: Seq<char>) -> bool {
        exists|v: int| 0 <= v < self.var_names().len() && (#[trigger] self.var_names()[v])@ == var
    }

    /// Whether the query has a variable for each of `count` choices.
    pub open spec fn takes(&self, count: int) -> bool {
        count <= self.var_names().len()
    }

    /// Whether `out` is this query with the choices filled in, in the
    /// order of the variables: in the label the text to show, in the
    /// statement the text it takes. All else is unchanged.
    pub open spec fn filled_by(&self, choices: Seq<ChoiceView>, out: Query) -> bool {
        &&& out.label@ == filled(
            self.label@,
            self.var_names(),
            label_texts(choices),
            choices.len() as int,
        )
        &&& out.query@ == filled(
            self.query@,
            self.var_names(),
            statement_texts(choices),
            choices.len() as int,
        )
        &&& out.odds == self.odds
        &&& texts_of(out.vars) == texts_of(self.vars)
        &&& rows_of(out.options) == rows_of(self.options)
    }

    /// Whether the choices may be drawn for this query: the values of one
    /// of its options, or else one candidate for each variable.
    pub open spec fn admits(
        &self,
        choices: Seq<ChoiceView>,
        years: Seq<String>,
        games: Seq<String>,
    ) -> bool {
        match self.options {
            Some(options) => exists|r: int|
                0 <= r < options@.len() && choices == plain_choices(#[trigger] options@[r]@),
            None => {
                &&& choices.len() == self.var_names().len()
                &&& forall|v: int|
                    0 <= v < choices.len() ==> candidates(
                        self.var_names()[v]@,
                        years,
                        games,
                    ).contains(#[trigger] choices[v])
            },
        }
    }

    /// Whether values can be drawn for this query: it has at least one
    /// option and a variable for each value of each option; or, without
    /// options, each variable has a candidate.
    pub open spec fn drawable(&self, years: Seq<String>, games: Seq<String>) -> bool {
        match self.options {
            Some(options) => {
                &&& options@.len() > 0
                &&& forall|r: int|
                    0 <= r < options@.len() ==> self.takes((#[trigger] options@[r])@.len() as int)
            },
            None => forall|v: int|
                0 <= v < self.var_names().len() ==> candidates(
                    (#[trigger] self.var_names()[v])@,
                    years,
                    games,
                ).len() > 0,
        }
    }
}

/// Whether some target below the total of the odds falls to the query at
/// index `i`.
pub open spec fn can_pick(queries: Seq<Query>, i: int) -> bool {
    exists|target: int| 0 <= target < odds_total(queries) && picks(queries, target, i)
}

/// Whether a draw that falls to the query at index `i` asks for the
/// candidates of the variable: a target can fall to the query, and it has
/// no options and names the variable.
pub open spec fn asks_candidates(queries: Seq<Query>, i: int, var: Seq<char>) -> bool {
    &&& 0 <= i < queries.len()
    &&& can_pick(queries, i)
    &&& queries[i].options is None
    &&& queries[i].names_variable(var)
}

/// Whether a draw can ask for the candidates of the variable: the years
/// and the games of the store need to be read only where one can.
pub open spec fn draws_candidates(queries: Seq<Query>, var: Seq<char>) -> bool {
    exists|i: int| asks_candidates(queries, i, var)
}

/// Whether queries can be drawn: the odds add up to a positive number
/// within the range of the integer type, and values can be drawn for each
/// query that a target can fall to.
pub open spec fn drawable(queries: Seq<Query>, years: Seq<String>, games: Seq<String>) -> bool {
    &&& 0 < odds_total(queries) <= i32::MAX
    &&& forall|i: int|
        0 <= i < queries.len() && can_pick(queries, i) ==> (#[trigger] queries[i]).drawable(
            years,
            games,
        )
}

/// The largest of zero and the sums of the odds of the first `m` queries,
/// for `m` from 1 to `n`.
pub open spec fn highest_before(queries: Seq<Query>, n: int) -> int
    decreases n,
{
    if n <= 0 {
        0
    } else if highest_before(queries, n - 1) >= odds_before(queries, n) {
        highest_before(queries, n - 1)
    } else {
        odds_before(queries, n)
    }
}

/// The largest sum is not negative and not below any of the sums.
proof fn lemma_highest_bounds(queries: Seq<Query>, n: int, m: int)
    requires
        1 <= m <= n,
    ensures
        odds_before(queries, m) <= highest_before(queries, n),
        0 <= highest_before(queries, n),
    decreases n,
{
    if m < n {
        lemma_highest_bounds(queries, n - 1, m);
    } else if n > 1 {
        lemma_highest_bounds(queries, n - 1, n - 1);
    } else {
        assert(highest_before(queries, 0) == 0);
    }
}

/// The largest sum does not exceed a bound of all the sums.
proof fn lemma_highest_is_least(queries: Seq<Query>, n: int, target: int)
    requires
        0 <= target,
        forall|j: int| 0 <= j < n ==> #[trigger] odds_before(queries, j + 1) <= target,
    ensures
        highest_before(queries, n) <= target,
    decreases n,
{
    if n > 0 {
        lemma_highest_is_least(queries, n - 1, target);
        assert(odds_before(queries, (n - 1) + 1) <= target);
    }
}

/// A target can fall to the query at index `i` exactly where the largest
/// of zero and the sums up to the queries before it lies below both the
/// sum up to it and the total.
pub proof fn lemma_can_pick(queries: Seq<Query>, i: int)
    requires
        0 <= i < queries.len(),
    ensures
        can_pick(queries, i) <==> highest_before(queries, i) < odds_before(queries, i + 1)
            && highest_before(queries, i) < odds_total(queries),
{
    let low = highest_before(queries, i);
    if low < odds_before(queries, i + 1) && low < odds_total(queries) {
        assert forall|j: int| 0 <= j < i implies #[trigger] odds_before(queries, j + 1) <= low by {
            lemma_highest_bounds(queries, i, j + 1);
        }
        if i > 0 {
            lemma_highest_bounds(queries, i, 1);
        }
        assert(picks(queries, low, i));
    }
    if can_pick(queries, i) {
        let target = choose|target: int|
            0 <= target < odds_total(queries) && picks(queries, target, i);
        lemma_highest_is_least(queries, i, target);
    }
}

/// Whether `out` can come of a draw: some target below the total of the
/// odds falls to a query, and `out` is that query filled in with choices
/// that it admits.
pub open spec fn drawn_from(
    queries: Seq<Query>,
    years: Seq<String>,
    games: Seq<String>,
    out: Query,
) -> bool {
    exists|i: int, target: int, choices: Seq<ChoiceView>|
        0 <= target < odds_total(queries) && #[trigger] picks(queries, target, i)
            && queries[i].admits(choices, years, games) && #[trigger] queries[i].filled_by(
            choices,
            out,
        )
}

/// Copies an optional list of strings.
fn copy_opt_texts(list: &Option<Vec<String>>) -> (copy: Option<Vec<String>>)
    ensures
        texts_of(copy) == texts_of(*list),
{
    match list {
        Some(v) => Some(copy_texts(v)),
        None => None,
    }
}

/// Copies an optional table of strings.
fn copy_opt_rows(table: &Option<Vec<Vec<String>>>) -> (copy: Option<Vec<Vec<String>>>)
    ensures
        rows_of(copy) == rows_of(*table),
{
    match table {
        Some(t) => {
            let mut rows: Vec<Vec<String>> = Vec::new();
            let count = t.len();
            let mut i: usize = 0;
            while i < count
                invariant
                    i <= count,
                    count == t@.len(),
                    rows@.len() == i,
                    forall|k: int| 0 <= k < i ==> (#[trigger] rows@[k])@ == t@[k]@,
                decreases count - i,
            {
                rows.push(copy_texts(&t[i]));
                i += 1;
            }
            let copy = Some(rows);
            assert(rows_of(copy)->Some_0 =~= rows_of(*table)->Some_0);
            copy
        },
        None => None,
    }
}

/// One choice for each text, the same for label and statement.
pub fn plain_choices_of(texts: &Vec<String>) -> (choices: Vec<Choice>)
    ensures
        choice_views(choices@) == plain_choices(texts@),
{
    let mut choices: Vec<Choice> = Vec::new();
    let count = texts.len();
    let mut i: usize = 0;
    while i < count
        invariant
            i <= count,
            count == texts@.len(),
            choices@.len() == i,
            forall|k: int|
                0 <= k < i ==> (#[trigger] choices@[k])@ == (ChoiceView {
                    label: texts@[k]@,
                    value: None,
                }),
        decreases count - i,
    {
        choices.push(Choice { label: texts[i].clone(), value: None });
        i += 1;
    }
    assert(choice_views(choices@) =~= plain_choices(texts@));
    choices
}

/// A choice whose statement text differs from its label.
fn valued(label: &str, value: &str) -> (choice: Choice)
    ensures
        choice@ == (ChoiceView { label: label@, value: Some(value@) }),
{
    Choice { label: label.to_owned(), value: Some(value.to_owned()) }
}

/// A choice whose statement text is its label.
fn plain(label: &str) -> (choice: Choice)
    ensures
        choice@ == (ChoiceView { label: label@, value: None }),
{
    Choice { label: label.to_owned(), value: None }
}

/// The values that a variable can take, given the years and the games
/// that the store holds.
pub fn candidates_for(var: &str, years: &Vec<String>, games: &Vec<String>) -> (choices: Vec<Choice>)
    ensures
        choice_views(choices@) == candidates(var@, years@, games@),
{
    if same_text(var, "year") {
        plain_choices_of(years)
    } else if same_text(var, "above/below") {
        let mut choices: Vec<Choice> = Vec::new();
        choices.push(valued("above", ">"));
        choices.push(valued("below", "<"));
        assert(choice_views(choices@) =~= candidates(var@, years@, games@));
        choices
    } else if same_text(var, "placement") {
        let mut choices: Vec<Choice> = Vec::new();
        choices.push(valued("Top 3", "3"));
        choices.push(valued("Top 8", "8"));
        assert(choice_views(choices@) =~= candidates(var@, years@, games@));
        choices
    } else if same_text(var, "game") {
        plain_choices_of(games)
    } else if same_text(var, "miscdata") {
        let mut choices: Vec<Choice> = Vec::new();
        choices.push(plain("TRULY Esports"));
        choices.push(plain("SCUM Esports"));
        choices.push(plain("Quiznos Esports"));
        choices.push(plain("Has Had A Trials Named After Them"));
        assert(choice_views(choices@) =~= candidates(var@, years@, games@));
        choices
    } else {
        let choices: Vec<Choice> = Vec::new();
        assert(choice_views(choices@) =~= candidates(var@, years@, games@));
        choices
    }
}

/// The sum of the odds of all queries.
pub fn total_odds(queries: &Vec<Query>) -> (total: i128)
    ensures
        total == odds_total(queries@),
{
    let count = queries.len();
    let mut total: i128 = 0;
    let mut i: usize = 0;
    while i < count
        invariant
            i <= count,
            count == queries@.len(),
            total == odds_before(queries@, i as int),
            -0x8000_0000 * i <= total <= 0x8000_0000 * i,
        decreases count - i,
    {
        total = total + queries[i].odds as i128;
        i += 1;
    }
    total
}

/// The index of the query that the target falls to: the first query whose
/// odds, added to those before it, exceed the target. None where the
/// target is not below the sum up to any query.
pub fn pick_weighted(queries: &Vec<Query>, target: i32) -> (picked: Option<usize>)
    ensures
        match picked {
            Some(i) => picks(queries@, target as int, i as int),
            None => forall|j: int|
                0 <= j < queries@.len() ==> #[trigger] odds_before(queries@, j + 1) <= target,
        },
{
    let count = queries.len();
    let mut sum: i128 = 0;
    let mut i: usize = 0;
    while i < count
        invariant
            i <= count,
            count == queries@.len(),
            sum == odds_before(queries@, i as int),
            -0x8000_0000 * i <= sum <= 0x8000_0000 * i,
            forall|j: int| 0 <= j < i ==> #[trigger] odds_before(queries@, j + 1) <= target,
        decreases count - i,
    {
        sum = sum + queries[i].odds as i128;
        if sum > target as i128 {
            return Some(i);
        }
        i += 1;
    }
    None
}

impl Query {
    /// Tests whether the query names the variable.
    pub fn names(&self, var: &str) -> (yes: bool)
        ensures
            yes == self.names_variable(var@),
    {
        match &self.vars {
            Some(vars) => {
                let count = vars.len();
                let mut v: usize = 0;
                while v < count
                    invariant
                        v <= count,
                        count == vars@.len(),
                        self.vars == Some(*vars),
                        forall|k: int| 0 <= k < v ==> (#[trigger] self.var_names()[k])@ != var@,
                    decreases count - v,
                {
                    if same_text(vars[v].as_str(), var) {
                        assert(self.var_names()[v as int]@ == var@);
                        return true;
                    }
                    v += 1;
                }
                false
            },
            None => false,
        }
    }

    /// The query with the choices filled in: the variable at index `i`,
    /// in square brackets, is replaced by the choice at index `i`, first
    /// to last.
    pub fn instantiate(&self, choices: &Vec<Choice>) -> (out: Query)
        requires
            self.takes(choices@.len() as int),
        ensures
            self.filled_by(choice_views(choices@), out),
    {
        let mut label = self.label.clone();
        let mut query = self.query.clone();
        let count = choices.len();
        let ghost picked = choice_views(choices@);
        match &self.vars {
            Some(vars) => {
                let mut i: usize = 0;
                while i < count
                    invariant
                        i <= count,
                        count == choices@.len(),
                        count <= vars@.len(),
                        picked == choice_views(choices@),
                        label@ == filled(self.label@, vars@, label_texts(picked), i as int),
                        query@ == filled(self.query@, vars@, statement_texts(picked), i as int),
                    decreases count - i,
                {
                    proof {
                        reveal_strlit("[");
                        reveal_strlit("]");
                    }
                    let mut pattern = "[".to_owned();
                    pattern.append(vars[i].as_str());
                    pattern.append("]");
                    assert(pattern@ =~= bracketed(vars@[i as int]@));
                    let choice = &choices[i];
                    assert(picked[i as int] == choice@);
                    label = replace_all(label.as_str(), pattern.as_str(), choice.label.as_str());
                    let taken = match &choice.value {
                        Some(value) => value.as_str(),
                        None => choice.label.as_str(),
                    };
                    assert(taken@ == statement_texts(picked)[i as int]);
                    query = replace_all(query.as_str(), pattern.as_str(), taken);
                    i += 1;
                }
            },
            None => {},
        }
        Query {
            label,
            query,
            odds: self.odds,
            vars: copy_opt_texts(&self.vars),
            options: copy_opt_rows(&self.options),
        }
    }

    /// Tests whether values can be drawn for this query.
    pub fn is_drawable(&self, years: &Vec<String>, games: &Vec<String>) -> (yes: bool)
        ensures
            yes == self.drawable(years@, games@),
    {
        let names = match &self.vars {
            Some(vars) => vars.len(),
            None => 0,
        };
        match &self.options {
            Some(options) => {
                let count = options.len();
                if count == 0 {
                    return false;
                }
                let mut r: usize = 0;
                while r < count
                    invariant
                        r <= count,
                        count == options@.len(),
                        names == self.var_names().len(),
                        self.options == Some(*options),
                        forall|k: int|
                            0 <= k < r ==> self.takes((#[trigger] options@[k])@.len() as int),
                    decreases count - r,
                {
                    if options[r].len() > names {
                        assert(!self.takes(options@[r as int]@.len() as int));
                        return false;
                    }
                    r += 1;
                }
                true
            },
            None => match &self.vars {
                Some(vars) => {
                    let mut v: usize = 0;
                    while v < names
                        invariant
                            v <= names,
                            names == vars@.len(),
                            self.vars == Some(*vars),
                            self.options is None,
                            forall|k: int|
                                0 <= k < v ==> candidates(
                                    (#[trigger] self.var_names()[k])@,
                                    years@,
                                    games@,
                                ).len() > 0,
                        decreases names - v,
                    {
                        let found = candidates_for(vars[v].as_str(), years, games);
                        assert(choice_views(found@).len() == found@.len());
                        if found.len() == 0 {
                            assert(candidates(self.var_names()[v as int]@, years@, games@).len()
                                == 0);
                            return false;
                        }
                        v += 1;
                    }
                    true
                },
                None => true,
            },
        }
    }
}

/// Tests whether a draw can ask for the candidates of the variable.
pub fn draws_candidates_of(queries: &Vec<Query>, var: &str) -> (yes: bool)
    ensures
        yes == draws_candidates(queries@, var@),
{
    let total = total_odds(queries);
    let count = queries.len();
    let mut before: i128 = 0;
    let mut highest: i128 = 0;
    let mut i: usize = 0;
    while i < count
        invariant
            i <= count,
            count == queries@.len(),
            total == odds_total(queries@),
            before == odds_before(queries@, i as int),
            highest == highest_before(queries@, i as int),
            -0x8000_0000 * i <= before <= 0x8000_0000 * i,
            0 <= highest <= 0x8000_0000 * i,
            forall|k: int| 0 <= k < i ==> !asks_candidates(queries@, k, var@),
        decreases count - i,
    {
        let upto = before + queries[i].odds as i128;
        proof {
            lemma_can_pick(queries@, i as int);
        }
        if highest < upto && highest < total && queries[i].options.is_none()
            && queries[i].names(var) {
            assert(asks_candidates(queries@, i as int, var@));
            return true;
        }
        before = upto;
        if upto > highest {
            highest = upto;
        }
        i += 1;
    }
    false
}

/// Tests whether queries can be drawn.
pub fn can_draw(queries: &Vec<Query>, years: &Vec<String>, games: &Vec<String>) -> (yes: bool)
    ensures
        yes == drawable(queries@, years@, games@),
{
    let total = total_odds(queries);
    if total <= 0 || total > 0x7fff_ffff {
        return false;
    }
    let count = queries.len();
    let mut before: i128 = 0;
    let mut highest: i128 = 0;
    let mut i: usize = 0;
    while i < count
        invariant
            i <= count,
            count == queries@.len(),
            total == odds_total(queries@),
            before == odds_before(queries@, i as int),
            highest == highest_before(queries@, i as int),
            -0x8000_0000 * i <= before <= 0x8000_0000 * i,
            0 <= highest <= 0x8000_0000 * i,
            forall|k: int|
                0 <= k < i && can_pick(queries@, k) ==> (#[trigger] queries@[k]).drawable(
                    years@,
                    games@,
                ),
        decreases count - i,
    {
        let upto = before + queries[i].odds as i128;
        proof {
            lemma_can_pick(queries@, i as int);
        }
        if highest < upto && highest < total && !queries[i].is_drawable(years, games) {
            return false;
        }
        before = upto;
        if upto > highest {
            highest = upto;
        }
        i += 1;
    }
    true
}

/// The thread-local random number generator of the crate `rand`. Nothing
/// is said of what it holds.
#[verifier::external_type_specification]
#[verifier::external_body]
pub struct ExThreadRng(ThreadRng);

/// A random index below `bound`, from `Rng::random_range` of the crate
/// `rand` on the range from 0 up to `bound`, which excludes `bound`. That
/// function panics on an empty range, so `bound` is positive. Of the
/// result this claims only that it lies in the range; which number comes is
/// left open.
#[verifier::external_body]
fn draw_below(rng: &mut ThreadRng, bound: usize) -> (drawn: usize)
    requires
        bound > 0,
    ensures
        drawn < bound,
{
    rng.random_range(0..bound)
}

/// Moves the choice at index `k` out of the list.
fn take_choice(choices: Vec<Choice>, k: usize) -> (choice: Choice)
    requires
        k < choices@.len(),
    ensures
        choice == choices@[k as int],
{
    let mut choices = choices;
    choices.swap_remove(k)
}

/// Draws one query: a random target below the total of the odds picks
/// the query; a random one of its options, or else a random candidate for
/// each of its variables, fills it in.
pub fn draw_query(
    queries: &Vec<Query>,
    years: &Vec<String>,
    games: &Vec<String>,
    rng: &mut ThreadRng,
) -> (out: Query)
    requires
        drawable(queries@, years@, games@),
    ensures
        drawn_from(queries@, years@, games@, out),
{
    let total = total_odds(queries);
    let target = draw_below(rng, total as usize) as i32;
    let picked = pick_weighted(queries, target);
    assert(picked is Some) by {
        if picked is None {
            assert(queries@.len() > 0);
            assert(odds_before(queries@, (queries@.len() - 1) + 1) <= target);
        }
    }
    let i = picked.unwrap();
    let query = &queries[i];
    assert(can_pick(queries@, i as int));
    assert(query.drawable(years@, games@));
    let choices: Vec<Choice> = match &query.options {
        Some(options) => {
            let r = draw_below(rng, options.len());
            assert(query.takes(options@[r as int]@.len() as int));
            let choices = plain_choices_of(&options[r]);
            assert(choice_views(choices@).len() == choices@.len());
            assert(query.admits(choice_views(choices@), years@, games@));
            choices
        },
        None => match &query.vars {
            Some(vars) => {
                let mut choices: Vec<Choice> = Vec::new();
                let names = vars.len();
                let mut v: usize = 0;
                while v < names
                    invariant
                        v <= names,
                        names == vars@.len(),
                        query.vars == Some(*vars),
                        query.options is None,
                        query.drawable(years@, games@),
                        choices@.len() == v,
                        forall|k: int|
                            0 <= k < v ==> candidates(vars@[k]@, years@, games@).contains(
                                (#[trigger] choices@[k])@,
                            ),
                    decreases names - v,
                {
                    let found = candidates_for(vars[v].as_str(), years, games);
                    assert(choice_views(found@).len() == found@.len());
                    assert(candidates(query.var_names()[v as int]@, years@, games@).len() > 0);
                    let k = draw_below(rng, found.len());
                    assert(choice_views(found@)[k as int] == found@[k as int]@);
                    let choice = take_choice(found, k);
                    choices.push(choice);
                    v += 1;
                }
                assert(query.admits(choice_views(choices@), years@, games@));
                choices
            },
            None => {
                let choices: Vec<Choice> = Vec::new();
                assert(query.admits(choice_views(choices@), years@, games@));
                choices
            },
        },
    };
    assert(choice_views(choices@).len() == choices@.len());
    let out = query.instantiate(&choices);
    assert(picks(queries@, target as int, i as int));
    out
}

/// Draws `count` queries, each independently of the others; none where
/// `count` is not positive, whatever the queries are.
pub fn get_random_queries(
    queries: &Vec<Query>,
    years: &Vec<String>,
    games: &Vec<String>,
    rng: &mut ThreadRng,
    count: i32,
) -> (drawn: Vec<Query>)
    requires
        count > 0 ==> drawable(queries@, years@, games@),
    ensures
        drawn@.len() == if count > 0 {
            count as int
        } else {
            0
        },
        forall|k: int|
            0 <= k < drawn@.len() ==> drawn_from(queries@, years@, games@, #[trigger] drawn@[k]),
{
    let mut drawn: Vec<Query> = Vec::new();
    let mut made: i32 = 0;
    while made < count
        invariant
            0 <= made,
            made <= count || made == 0,
            drawn@.len() == made,
            count > 0 ==> drawable(queries@, years@, games@),
            forall|k: int|
                0 <= k < drawn@.len() ==> drawn_from(
                    queries@,
                    years@,
                    games@,
                    #[trigger] drawn@[k],
                ),
        decreases count - made,
    {
        let query = draw_query(queries, years, games, rng);
        drawn.push(query);
        made += 1;
    }
    drawn
}

/// A grid of three row queries and three column queries with the answers
/// of its nine cells. Cell `i` stands in row `i % 3` and column `i / 3`.
#[derive(Debug)]
pub struct Grid {
    rows: [Query; 3],
    columns: [Query; 3],
    answers: [Vec<String>; 9],
}

/// The three queries of a list of three, in order.
fn three(queries: Vec<Query>) -> (triple: [Query; 3])
    requires
        queries@.len() == 3,
    ensures
        triple@ == queries@,
{
    let mut rest = queries;
    let third = rest.pop().unwrap();
    let second = rest.pop().unwrap();
    let first = rest.pop().unwrap();
    let triple = [first, second, third];
    assert(triple@ =~= queries@);
    triple
}

/// The statement that finds a cell's answers: those that both the row's
/// and the column's statement find.
pub open spec fn cell_statement(row: Query, column: Query) -> Seq<char> {
    row.query@ + " INTERSECT "@ + column.query@
}

impl Grid {
    /// The row queries.
    pub closed spec fn row_queries(&self) -> Seq<Query> {
        self.rows@
    }

    /// The column queries.
    pub closed spec fn column_queries(&self) -> Seq<Query> {
        self.columns@
    }

    /// The answers of the cells, by cell.
    pub closed spec fn cell_answers(&self) -> Seq<Seq<String>> {
        Seq::new(9, |i: int| self.answers@[i]@)
    }

    /// Whether every cell has an answer.
    pub open spec fn complete(&self) -> bool {
        forall|i: int| 0 <= i < 9 ==> (#[trigger] self.cell_answers()[i]).len() > 0
    }

    /// A grid without answers, where there are three rows and three
    /// columns; none otherwise.
    pub fn new(rows: Vec<Query>, columns: Vec<Query>) -> (grid: Option<Grid>)
        ensures
            match grid {
                Some(g) => {
                    &&& rows@.len() == 3
                    &&& columns@.len() == 3
                    &&& g.row_queries() == rows@
                    &&& g.column_queries() == columns@
                    &&& g.cell_answers().len() == 9
                    &&& forall|i: int| 0 <= i < 9 ==> (#[trigger] g.cell_answers()[i]).len() == 0
                },
                None => rows@.len() != 3 || columns@.len() != 3,
            },
    {
        if rows.len() != 3 || columns.len() != 3 {
            return None;
        }
        Some(
            Grid {
                rows: three(rows),
                columns: three(columns),
                answers: [
                    Vec::new(),
                    Vec::new(),
                    Vec::new(),
                    Vec::new(),
                    Vec::new(),
                    Vec::new(),
                    Vec::new(),
                    Vec::new(),
                    Vec::new(),
                ],
            },
        )
    }

    /// The row queries.
    pub fn rows(&self) -> (rows: &[Query; 3])
        ensures
            rows@ == self.row_queries(),
    {
        &self.rows
    }

    /// The column queries.
    pub fn columns(&self) -> (columns: &[Query; 3])
        ensures
            columns@ == self.column_queries(),
    {
        &self.columns
    }

    /// The answers of a cell.
    pub fn answers(&self, cell: usize) -> (answers: &Vec<String>)
        requires
            cell < 9,
        ensures
            answers@ == self.cell_answers()[cell as int],
    {
        &self.answers[cell]
    }

    /// The statements that find the answers of the nine cells, by cell.
    pub fn statements(&self) -> (statements: Vec<String>)
        ensures
            statements@.len() == 9,
            forall|i: int|
                0 <= i < 9 ==> (#[trigger] statements@[i])@ == cell_statement(
                    self.row_queries()[i % 3],
                    self.column_queries()[i / 3],
                ),
    {
        let mut statements: Vec<String> = Vec::new();
        let mut cell: usize = 0;
        while cell < 9
            invariant
                cell <= 9,
                statements@.len() == cell,
                forall|i: int|
                    0 <= i < cell ==> (#[trigger] statements@[i])@ == cell_statement(
                        self.rows@[i % 3],
                        self.columns@[i / 3],
                    ),
            decreases 9 - cell,
        {
            let mut statement = self.rows[cell % 3].query.clone();
            statement.append(" INTERSECT ");
            statement.append(self.columns[cell / 3].query.as_str());
            statements.push(statement);
            cell += 1;
        }
        statements
    }

    /// Tests whether every cell has an answer.
    pub fn is_complete(&self) -> (complete: bool)
        ensures
            complete == self.complete(),
    {
        let mut cell: usize = 0;
        while cell < 9
            invariant
                cell <= 9,
                forall|i: int| 0 <= i < cell ==> (#[trigger] self.cell_answers()[i]).len() > 0,
            decreases 9 - cell,
        {
            if self.answers[cell].len() == 0 {
                assert(self.cell_answers()[cell as int].len() == 0);
                return false;
            }
            cell += 1;
        }
        true
    }
}

/// What was found for a cell, or nothing where the list ends before it.
pub open spec fn found_for(found: Seq<Vec<String>>, cell: int) -> Seq<String> {
    if 0 <= cell < found.len() {
        found[cell]@
    } else {
        Seq::empty()
    }
}

/// Adds to each cell's answers what was found for it: `found` lists the
/// results of the grid's statements, by cell.
pub fn init_answers(grid: &mut Grid, found: Vec<Vec<String>>)
    ensures
        final(grid).row_queries() == old(grid).row_queries(),
        final(grid).column_queries() == old(grid).column_queries(),
        final(grid).cell_answers().len() == 9,
        forall|i: int|
            0 <= i < 9 ==> #[trigger] final(grid).cell_answers()[i] == old(grid).cell_answers()[i]
                + found_for(found@, i),
{
    let total = found.len();
    let mut cell: usize = 0;
    for list in it: found
        invariant
            it.seq() == found@,
            cell == it.index(),
            total == found@.len(),
            grid.rows == old(grid).rows,
            grid.columns == old(grid).columns,
            forall|i: int|
                0 <= i < 9 && i < cell ==> (#[trigger] grid.answers@[i])@ == old(
                    grid,
                ).answers@[i]@ + found@[i]@,
            forall|i: int|
                0 <= i < 9 && i >= cell ==> (#[trigger] grid.answers@[i]) == old(
                    grid,
                ).answers@[i],
    {
        if cell < 9 {
            let mut list = list;
            grid.answers[cell].append(&mut list);
        }
        cell += 1;
    }
    assert forall|i: int| 0 <= i < 9 implies #[trigger] grid.cell_answers()[i] == old(
        grid,
    ).cell_answers()[i] + found_for(found@, i) by {
        if i >= found@.len() {
            assert(grid.answers@[i]@ + Seq::<String>::empty() =~= grid.answers@[i]@);
        }
    }
}

} // verus!
