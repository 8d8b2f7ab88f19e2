use tourney_ingest::grid::{
    can_draw, candidates_for, draw_query, draws_candidates_of, get_random_queries, init_answers,
    pick_weighted, plain_choices_of, total_odds, Choice, Grid, Query,
};

fn text(s: &str) -> String {
    s.to_string()
}

fn texts(list: &[&str]) -> Vec<String> {
    list.iter().map(|s| s.to_string()).collect()
}

fn query(label: &str, statement: &str, odds: i32) -> Query {
    Query { label: text(label), query: text(statement), odds, vars: None, options: None }
}

fn with_vars(mut q: Query, vars: &[&str]) -> Query {
    q.vars = Some(texts(vars));
    q
}

fn with_options(mut q: Query, options: &[&[&str]]) -> Query {
    q.options = Some(options.iter().map(|row| texts(row)).collect());
    q
}

fn choice(label: &str, value: Option<&str>) -> Choice {
    Choice { label: text(label), value: value.map(text) }
}

#[test]
fn odds_add_up() {
    assert_eq!(total_odds(&vec![query("a", "A", 3), query("b", "B", 1), query("c", "C", 6)]), 10);
    assert_eq!(total_odds(&Vec::new()), 0);
    assert_eq!(total_odds(&vec![query("a", "A", i32::MAX), query("b", "B", i32::MAX)]), 4294967294);
    assert_eq!(total_odds(&vec![query("a", "A", -5), query("b", "B", 2)]), -3);
}

#[test]
fn target_falls_to_the_first_query_whose_sum_exceeds_it() {
    let queries = vec![query("a", "A", 3), query("b", "B", 1), query("c", "C", 6)];
    assert_eq!(pick_weighted(&queries, 0), Some(0));
    assert_eq!(pick_weighted(&queries, 2), Some(0));
    assert_eq!(pick_weighted(&queries, 3), Some(1));
    assert_eq!(pick_weighted(&queries, 4), Some(2));
    assert_eq!(pick_weighted(&queries, 9), Some(2));
    assert_eq!(pick_weighted(&queries, 10), None);
    assert_eq!(pick_weighted(&queries, -1), Some(0));
    assert_eq!(pick_weighted(&Vec::new(), 0), None);
}

#[test]
fn query_without_odds_is_never_picked() {
    let queries = vec![query("a", "A", 0), query("b", "B", 2), query("c", "C", 0)];
    assert_eq!(pick_weighted(&queries, 0), Some(1));
    assert_eq!(pick_weighted(&queries, 1), Some(1));
    assert_eq!(pick_weighted(&queries, 2), None);
}

#[test]
fn large_odds_do_not_overflow() {
    let queries = vec![query("a", "A", i32::MAX), query("b", "B", i32::MAX)];
    assert_eq!(pick_weighted(&queries, i32::MAX - 1), Some(0));
    assert_eq!(pick_weighted(&queries, i32::MAX), Some(1));
}

#[test]
fn candidates_of_each_variable() {
    let years = texts(&["2022", "2023"]);
    let games = texts(&["Melee"]);
    assert_eq!(
        candidates_for("year", &years, &games),
        vec![choice("2022", None), choice("2023", None)]
    );
    assert_eq!(candidates_for("game", &years, &games), vec![choice("Melee", None)]);
    assert_eq!(
        candidates_for("above/below", &years, &games),
        vec![choice("above", Some(">")), choice("below", Some("<"))]
    );
    assert_eq!(
        candidates_for("placement", &years, &games),
        vec![choice("Top 3", Some("3")), choice("Top 8", Some("8"))]
    );
    assert_eq!(
        candidates_for("miscdata", &years, &games),
        vec![
            choice("TRULY Esports", None),
            choice("SCUM Esports", None),
            choice("Quiznos Esports", None),
            choice("Has Had A Trials Named After Them", None),
        ]
    );
    assert_eq!(candidates_for("unknown", &years, &games), Vec::new());
    assert_eq!(candidates_for("year", &Vec::new(), &games), Vec::new());
}

#[test]
fn plain_choices_show_what_they_put() {
    assert_eq!(
        plain_choices_of(&texts(&["Melee", "Ultimate"])),
        vec![choice("Melee", None), choice("Ultimate", None)]
    );
}

#[test]
fn choices_fill_label_and_statement() {
    let q = with_vars(
        query(
            "[above/below] [placement] in [year]",
            "SELECT 1 WHERE p [above/below] [placement] AND y = '[year]'",
            2,
        ),
        &["above/below", "placement", "year"],
    );
    let out = q.instantiate(&vec![
        choice("above", Some(">")),
        choice("Top 8", Some("8")),
        choice("2023", None),
    ]);
    assert_eq!(out.label, "above Top 8 in 2023");
    assert_eq!(out.query, "SELECT 1 WHERE p > 8 AND y = '2023'");
    assert_eq!(out.odds, 2);
    assert_eq!(out.vars, q.vars);
    assert_eq!(out.options, None);
}

#[test]
fn fewer_choices_than_variables_leave_the_rest() {
    let q = with_vars(query("[a] and [b]", "[a],[b]", 1), &["a", "b"]);
    let out = q.instantiate(&vec![choice("x", None)]);
    assert_eq!(out.label, "x and [b]");
    assert_eq!(out.query, "x,[b]");
    assert_eq!(q.instantiate(&Vec::new()), q);
    assert_eq!(query("[a]", "[a]", 1).instantiate(&Vec::new()), query("[a]", "[a]", 1));
}

#[test]
fn earlier_choice_may_bring_a_later_variable() {
    let q = with_vars(query("[a]", "[a]", 1), &["a", "b"]);
    let out = q.instantiate(&vec![choice("[b]", Some("[b][b]")), choice("z", None)]);
    assert_eq!(out.label, "z");
    assert_eq!(out.query, "zz");
}

#[test]
fn drawable_queries() {
    let years = texts(&["2023"]);
    let games = texts(&["Melee"]);
    let plain = query("a", "A", 1);
    assert!(plain.is_drawable(&years, &games));
    assert!(can_draw(&vec![plain.clone()], &years, &games));
    assert!(!can_draw(&Vec::new(), &years, &games));
    assert!(!can_draw(&vec![query("a", "A", 0)], &years, &games));
    assert!(!can_draw(&vec![query("a", "A", -1)], &years, &games));
    assert!(!can_draw(&vec![query("a", "A", i32::MAX), query("b", "B", 1)], &years, &games));
    assert!(can_draw(&vec![query("a", "A", i32::MAX - 1), query("b", "B", 1)], &years, &games));

    let by_year = with_vars(query("[year]", "[year]", 1), &["year"]);
    assert!(by_year.is_drawable(&years, &games));
    assert!(!by_year.is_drawable(&Vec::new(), &games));
    assert!(!with_vars(query("[x]", "[x]", 1), &["year", "x"]).is_drawable(&years, &games));
    assert!(!can_draw(&vec![plain.clone(), by_year.clone()], &Vec::new(), &games));

    let mut unused = by_year.clone();
    unused.odds = 0;
    assert!(can_draw(&vec![plain.clone(), unused.clone()], &Vec::new(), &games));
    assert!(can_draw(&vec![unused.clone(), plain.clone()], &Vec::new(), &games));
    let mut shadowed = by_year.clone();
    shadowed.odds = 1;
    let mut taking_back = plain.clone();
    taking_back.odds = -1;
    let mut first = plain.clone();
    first.odds = 2;
    assert!(can_draw(
        &vec![first.clone(), taking_back.clone(), shadowed.clone()],
        &Vec::new(),
        &games
    ));
    assert!(!can_draw(&vec![first, taking_back, shadowed, by_year.clone()], &Vec::new(), &games));

    let no_options = with_options(with_vars(query("[x]", "[x]", 1), &["x"]), &[]);
    assert!(!no_options.is_drawable(&years, &games));
    let fitting = with_options(with_vars(query("[x]", "[x]", 1), &["x"]), &[&["1"], &[]]);
    assert!(fitting.is_drawable(&years, &games));
    let too_wide = with_options(with_vars(query("[x]", "[x]", 1), &["x"]), &[&["1"], &["1", "2"]]);
    assert!(!too_wide.is_drawable(&years, &games));
    let unnamed = with_options(query("[x]", "[x]", 1), &[&["1"]]);
    assert!(!unnamed.is_drawable(&years, &games));
    assert!(with_options(query("[x]", "[x]", 1), &[&[]]).is_drawable(&years, &games));
}

#[test]
fn only_choice_is_drawn() {
    let years = texts(&["2023"]);
    let games = texts(&["Melee"]);
    let mut rng = rand::rng();
    let by_option = with_options(
        with_vars(query("Plays [game] as [char]", "g='[game]' AND c='[char]'", 5), &["game", "char"]),
        &[&["Melee", "Fox"]],
    );
    let out = draw_query(&vec![by_option.clone()], &years, &games, &mut rng);
    assert_eq!(out.label, "Plays Melee as Fox");
    assert_eq!(out.query, "g='Melee' AND c='Fox'");
    assert_eq!(out.odds, 5);
    assert_eq!(out.vars, by_option.vars);
    assert_eq!(out.options, by_option.options);

    let by_candidates = with_vars(query("[game] in [year]", "g='[game]' AND y=[year]", 1), &["game", "year"]);
    let out = draw_query(&vec![query("never", "never", 0), by_candidates], &years, &games, &mut rng);
    assert_eq!(out.label, "Melee in 2023");
    assert_eq!(out.query, "g='Melee' AND y=2023");
}

#[test]
fn drawn_queries_come_of_the_given_ones() {
    let years = texts(&["2022", "2023"]);
    let games = texts(&["Melee", "Ultimate"]);
    let queries = vec![
        query("plain", "SELECT 1", 3),
        with_vars(query("[placement] at [game]", "p <= [placement] AND g = '[game]'", 4), &["placement", "game"]),
        with_options(with_vars(query("from [x]", "x = '[x]'", 2), &["x"]), &[&["east"], &["west"]]),
        query("never", "SELECT 0", 0),
    ];
    assert!(can_draw(&queries, &years, &games));
    let mut rng = rand::rng();
    let drawn = get_random_queries(&queries, &years, &games, &mut rng, 200);
    assert_eq!(drawn.len(), 200);
    let placements = [("Top 3", "3"), ("Top 8", "8")];
    for q in &drawn {
        let fits = match q.odds {
            3 => *q == queries[0],
            4 => placements.iter().any(|(shown, put)| {
                games.iter().any(|g| {
                    q.label == format!("{shown} at {g}")
                        && q.query == format!("p <= {put} AND g = '{g}'")
                })
            }),
            2 => ["east", "west"]
                .iter()
                .any(|x| q.label == format!("from {x}") && q.query == format!("x = '{x}'")),
            _ => false,
        };
        assert!(fits);
    }
}

#[test]
fn no_queries_for_a_count_that_is_not_positive() {
    let queries = vec![query("plain", "SELECT 1", 1)];
    let mut rng = rand::rng();
    assert!(get_random_queries(&queries, &Vec::new(), &Vec::new(), &mut rng, 0).is_empty());
    assert!(get_random_queries(&queries, &Vec::new(), &Vec::new(), &mut rng, -3).is_empty());
    assert_eq!(
        get_random_queries(&queries, &Vec::new(), &Vec::new(), &mut rng, 3),
        vec![queries[0].clone(), queries[0].clone(), queries[0].clone()]
    );
}

#[test]
fn nothing_is_drawn_from_queries_that_cannot_be_drawn() {
    let mut rng = rand::rng();
    assert!(get_random_queries(&Vec::new(), &Vec::new(), &Vec::new(), &mut rng, 0).is_empty());
    assert!(get_random_queries(&Vec::new(), &Vec::new(), &Vec::new(), &mut rng, -1).is_empty());
    let undrawable = vec![with_vars(query("[year]", "[year]", 0), &["year"])];
    assert!(!can_draw(&undrawable, &Vec::new(), &Vec::new()));
    assert!(get_random_queries(&undrawable, &Vec::new(), &Vec::new(), &mut rng, 0).is_empty());
}

#[test]
fn variables_that_a_query_names() {
    let q = with_vars(query("[game] in [year]", "x", 1), &["game", "year"]);
    assert!(q.names("game"));
    assert!(q.names("year"));
    assert!(!q.names("years"));
    assert!(!q.names(""));
    assert!(!query("[year]", "[year]", 1).names("year"));
}

#[test]
fn candidates_are_asked_for_by_queries_without_options_that_can_be_picked() {
    let by_year = with_vars(query("[year]", "[year]", 2), &["year"]);
    let plain = query("plain", "SELECT 1", 1);
    assert!(draws_candidates_of(&vec![plain.clone(), by_year.clone()], "year"));
    assert!(!draws_candidates_of(&vec![plain.clone(), by_year.clone()], "game"));
    assert!(!draws_candidates_of(&vec![plain.clone()], "year"));
    assert!(!draws_candidates_of(&Vec::new(), "year"));

    let mut unused = by_year.clone();
    unused.odds = 0;
    assert!(!draws_candidates_of(&vec![plain.clone(), unused.clone()], "year"));
    assert!(!draws_candidates_of(&vec![unused], "year"));

    let with_rows = with_options(by_year.clone(), &[&["2020"]]);
    assert!(!draws_candidates_of(&vec![plain.clone(), with_rows], "year"));

    let mut first = plain.clone();
    first.odds = 2;
    let mut taking_back = plain.clone();
    taking_back.odds = -1;
    let mut shadowed = by_year.clone();
    shadowed.odds = 1;
    assert!(!draws_candidates_of(&vec![first.clone(), taking_back.clone(), shadowed.clone()], "year"));
    assert!(draws_candidates_of(&vec![first, taking_back, shadowed, by_year], "year"));
}

fn three(prefix: &str) -> Vec<Query> {
    (0..3).map(|i| query(&format!("{prefix}{i}"), &format!("SELECT {prefix}{i}"), 1)).collect()
}

#[test]
fn grid_needs_three_rows_and_three_columns() {
    assert!(Grid::new(three("r"), three("c")).is_some());
    assert!(Grid::new(three("r"), Vec::new()).is_none());
    let mut four = three("r");
    four.push(query("r3", "SELECT r3", 1));
    assert!(Grid::new(four, three("c")).is_none());
    let mut two = three("c");
    two.pop();
    assert!(Grid::new(three("r"), two).is_none());
}

#[test]
fn new_grid_has_no_answers() {
    let grid = Grid::new(three("r"), three("c")).expect("a grid");
    assert_eq!(grid.rows().to_vec(), three("r"));
    assert_eq!(grid.columns().to_vec(), three("c"));
    for cell in 0..9 {
        assert!(grid.answers(cell).is_empty());
    }
    assert!(!grid.is_complete());
}

#[test]
fn cell_statements_intersect_row_and_column() {
    let grid = Grid::new(three("r"), three("c")).expect("a grid");
    assert_eq!(
        grid.statements(),
        vec![
            "SELECT r0 INTERSECT SELECT c0",
            "SELECT r1 INTERSECT SELECT c0",
            "SELECT r2 INTERSECT SELECT c0",
            "SELECT r0 INTERSECT SELECT c1",
            "SELECT r1 INTERSECT SELECT c1",
            "SELECT r2 INTERSECT SELECT c1",
            "SELECT r0 INTERSECT SELECT c2",
            "SELECT r1 INTERSECT SELECT c2",
            "SELECT r2 INTERSECT SELECT c2",
        ]
    );
}

#[test]
fn answers_are_added_by_cell() {
    let mut grid = Grid::new(three("r"), three("c")).expect("a grid");
    let mut found: Vec<Vec<String>> = (0..9).map(|i| vec![format!("player{i}")]).collect();
    found[4] = Vec::new();
    init_answers(&mut grid, found);
    assert_eq!(grid.answers(0), &texts(&["player0"]));
    assert_eq!(grid.answers(8), &texts(&["player8"]));
    assert!(grid.answers(4).is_empty());
    assert!(!grid.is_complete());

    init_answers(&mut grid, vec![texts(&["again"]), Vec::new(), Vec::new(), Vec::new(), texts(&["late", "later"])]);
    assert_eq!(grid.answers(0), &texts(&["player0", "again"]));
    assert_eq!(grid.answers(4), &texts(&["late", "later"]));
    assert_eq!(grid.answers(5), &texts(&["player5"]));
    assert!(grid.is_complete());
    assert_eq!(grid.rows().to_vec(), three("r"));
}

#[test]
fn lists_beyond_the_ninth_are_left_out() {
    let mut grid = Grid::new(three("r"), three("c")).expect("a grid");
    let found: Vec<Vec<String>> = (0..12).map(|i| vec![format!("name{i}")]).collect();
    init_answers(&mut grid, found);
    assert!(grid.is_complete());
    assert_eq!(grid.answers(8), &texts(&["name8"]));
}
