use frey::ids::ToolName;
use frey::json::Json;
use frey::search::{
    find_with_dots, pattern_occurs, rank, tokenise, Bm25Search, RegexSearch, Scored, SearchError, MAX_QUERY_LEN,
    MAX_REGEX_LEN,
};
use frey::tool::{SearchKind, SearchQuery};
use frey::tool_def::{JsonSchema, ToolDefinition};

/// Scores every entry and ranks the scores. The bits of a float that is not negative order as the
/// float does.
fn lexical(search: &Bm25Search, query: &SearchQuery) -> Result<Vec<Scored>, SearchError> {
    let counts = search.counts(query)?;
    let total = search.entries() as f64;
    let average = match search.length() {
        Some(all) if search.entries() > 0 => all as f64 / total,
        _ => 0.0,
    };
    let mut scores: Vec<u64> = vec![0; search.entries()];
    for (i, entry) in counts.iter().enumerate() {
        let mut score = 0.0f64;
        for term in &entry.terms {
            let tf = term.in_entry as f64;
            if term.in_entry > 0 {
                let df = term.in_catalog as f64;
                let idf = ((total - df + 0.5) / (df + 0.5) + 1.0).ln();
                let norm = 1.0 - 0.75 + 0.75 * (entry.length as f64 / average.max(1.0));
                score += idf * (tf * 2.2) / (tf + 1.2 * norm);
            }
        }
        scores[i] = score.to_bits();
    }
    search.search(query, &scores)
}


fn tool(name: &str, description: &str) -> ToolDefinition {
    ToolDefinition::new(name, description, JsonSchema::empty_object())
}

fn documented(name: &str, description: &str, param: &str, param_doc: &str) -> ToolDefinition {
    ToolDefinition::new(
        name,
        description,
        JsonSchema::new(Json::empty().with("type", Json::text("object")).with(
            "properties",
            Json::empty().with(
                param,
                Json::empty().with("type", Json::text("string")).with("description", Json::text(param_doc)),
            ),
        ))
        .unwrap(),
    )
}

fn catalog() -> Vec<ToolDefinition> {
    vec![
        tool("fs_read", "Read a file from the workspace and return its contents"),
        tool("fs_write", "Write text to a file in the workspace, replacing what was there"),
        tool("github_list_issues", "List open issues on a GitHub repository, newest first"),
        tool("github_create_issue", "Open a new issue on a GitHub repository"),
        tool("weather_now", "Get the current weather for a location"),
        documented(
            "db_query",
            "Run a statement against the analytics database",
            "sql",
            "The SQL statement to execute, in Postgres dialect",
        ),
    ]
}

fn query(text: &str) -> SearchQuery {
    SearchQuery::new(text)
}

#[test]
fn a_literal_pattern_finds_the_obvious_tool() {
    let search = RegexSearch::new(&catalog());
    let hits = search.search(&query("weather")).unwrap();
    assert_eq!(hits.len(), 1);
    assert_eq!(hits[0].name.as_str(), "weather_now");
}

#[test]
fn the_documented_regex_examples_all_work() {
    // A query must behave the same whether it runs here or at the provider.
    let search = RegexSearch::new(&catalog());

    let wildcards = search.search(&query("github_.*_issue")).unwrap();
    assert!(wildcards.iter().any(|h| h.name.as_str() == "github_create_issue"));

    let alternation = search.search(&query("database.*statement|statement.*database")).unwrap();
    assert_eq!(alternation[0].name.as_str(), "db_query");
}

#[test]
fn matching_is_case_insensitive_like_the_provider_implementation() {
    let search = RegexSearch::new(&catalog());
    assert_eq!(search.search(&query("WEATHER")).unwrap().len(), 1);
}

#[test]
fn an_over_long_pattern_is_rejected_here_rather_than_upstream() {
    let search = RegexSearch::new(&catalog());
    let err = search.search(&query(&"a".repeat(MAX_REGEX_LEN + 1))).unwrap_err();
    assert!(matches!(err, SearchError::TooLong { max: MAX_REGEX_LEN, .. }));
}

#[test]
fn natural_language_finds_the_right_tool_without_naming_it() {
    // The job: retrieve the right tool from a description of the task, not from its name.
    let search = Bm25Search::new(&catalog());
    let hits = lexical(&search, &query("read the contents of a file")).unwrap();
    assert_eq!(hits[0].name.as_str(), "fs_read", "got {hits:?}");
}

#[test]
fn argument_descriptions_are_searchable_which_is_why_they_must_exist() {
    // `db_query` is findable by "postgres" only because its parameter is documented. This is
    // the concrete reason an undocumented parameter is a defect rather than a style choice.
    let search = Bm25Search::new(&catalog());
    let hits = lexical(&search, &query("postgres dialect")).unwrap();
    assert_eq!(hits[0].name.as_str(), "db_query");
}

#[test]
fn results_are_capped_at_the_requested_limit() {
    let search = Bm25Search::new(&catalog());
    let mut q = query("file workspace github issue weather database");
    q.limit = 2;
    assert!(lexical(&search, &q).unwrap().len() <= 2);
}

#[test]
fn ranking_is_stable_across_runs() {
    // Equal scores must not reorder between runs; an unstable order churns any cache built on
    // the result.
    let search = Bm25Search::new(&catalog());
    let first = lexical(&search, &query("github repository issue")).unwrap();
    let second = lexical(&search, &query("github repository issue")).unwrap();
    assert_eq!(first, second);
}

#[test]
fn a_query_matching_nothing_returns_nothing_rather_than_erroring() {
    // The model needs to learn that nothing matched; an error would just be retried.
    let search = Bm25Search::new(&catalog());
    assert!(lexical(&search, &query("quantum chromodynamics")).unwrap().is_empty());
    let regex = RegexSearch::new(&catalog());
    assert!(regex.search(&query("zzzz")).unwrap().is_empty());
}

#[test]
fn searching_an_empty_catalog_is_not_an_error() {
    let search = Bm25Search::new(&[]);
    assert!(lexical(&search, &query("anything")).unwrap().is_empty());
}

#[test]
fn both_strategies_report_which_they_are() {
    assert_eq!(RegexSearch::default().kind(), SearchKind::Regex);
    assert_eq!(Bm25Search::default().kind(), SearchKind::Bm25);
}

#[test]
fn an_over_long_query_is_rejected_here_too() {
    let search = Bm25Search::new(&catalog());
    let err = lexical(&search, &query(&"a".repeat(MAX_QUERY_LEN + 1))).unwrap_err();
    assert!(matches!(err, SearchError::TooLong { max: MAX_QUERY_LEN, len: 501, .. }));
}

#[test]
fn terms_are_lowered_runs_of_letters_and_digits() {
    assert_eq!(tokenise("Read a FILE, fs_read: 2nd \u{e9}t\u{e9}!"), ["read", "file", "fs", "read", "2nd", "\u{e9}t\u{e9}"]);
}

#[test]
fn patterns_match_anywhere_in_order() {
    assert!(pattern_occurs("get_.*_data", "call get_weather_data now"));
    assert!(!pattern_occurs("data.*get", "get the data"));
    assert!(pattern_occurs("w.ather", "weather"));
    assert!(!pattern_occurs("w.ather", "wather"));
    assert!(pattern_occurs("", "anything"));
    assert!(pattern_occurs("\u{e9}.*b", "\u{e9}\u{e9}b"));
}

#[test]
fn the_first_place_is_found() {
    let h: Vec<char> = "abcabc".chars().collect();
    let p: Vec<char> = "b.".chars().collect();
    assert_eq!(find_with_dots(&h, 0, &p), Some(1));
    assert_eq!(find_with_dots(&h, 2, &p), Some(4));
    assert_eq!(find_with_dots(&h, 5, &p), None);
}

#[test]
fn equal_scores_are_ranked_by_name() {
    let one = |score: u64, name: &str| Scored { score, name: ToolName::new(name) };
    let ranked = rank(vec![one(1, "b"), one(0, "z"), one(2, "c"), one(1, "a")], 3);
    let names: Vec<&str> = ranked.iter().map(|s| s.name.as_str()).collect();
    assert_eq!(names, ["c", "a", "b"]);
}

#[test]
fn an_entry_without_a_wanted_term_is_no_match_whatever_its_score() {
    let definitions = vec![tool("a_tool", "Reads weather"), tool("b_tool", "Writes mail")];
    let search = Bm25Search::new(&definitions);
    let hits = search.search(&query("weather"), &vec![1, 9]).unwrap();
    assert_eq!(hits.len(), 1);
    assert_eq!(hits[0].name.as_str(), "a_tool");
    assert_eq!(hits[0].score, 1);
}
