use bangs::resolve::{search_outcome, url_for, SearchOutcome};
use bangs::table::{load_commands, Command};
use bangs::tokenize::bisect_ws;

fn example_table() -> Vec<Command> {
    load_commands(
        "g|google query = https://example.com/search?q=query\n\
         m|map from to = https://example.net/dir?a=from&b=to\n\
         home = https://example.com/\n",
    )
    .unwrap()
}

fn resolve_query(commands: &Vec<Command>, q: &str) -> String {
    let (cmd, args) = bisect_ws(q);
    url_for(commands, &cmd, &args)
}

#[test]
fn last_placeholder_absorbs_trailing_words() {
    let cmds = example_table();
    assert_eq!(
        resolve_query(&cmds, "g hello world"),
        "https://example.com/search?q=hello world"
    );
}

#[test]
fn alias_resolves_like_the_name() {
    let cmds = example_table();
    assert_eq!(
        resolve_query(&cmds, "google foo"),
        "https://example.com/search?q=foo"
    );
    assert_eq!(resolve_query(&cmds, "google foo"), resolve_query(&cmds, "g foo"));
}

#[test]
fn unknown_command_falls_back() {
    let cmds = example_table();
    assert_eq!(resolve_query(&cmds, "xyz foo"), "/?invalid=true&q=xyz");
}

#[test]
fn each_placeholder_takes_its_word() {
    let cmds = example_table();
    assert_eq!(
        resolve_query(&cmds, "m berlin paris lyon"),
        "https://example.net/dir?a=berlin&b=paris lyon"
    );
}

#[test]
fn too_few_words_fall_back() {
    let cmds = example_table();
    assert_eq!(resolve_query(&cmds, "m berlin"), "/?invalid=true&q=m");
    assert_eq!(resolve_query(&cmds, "m"), "/?invalid=true&q=m");
}

#[test]
fn no_placeholders_returns_dest_unchanged() {
    let cmds = example_table();
    assert_eq!(resolve_query(&cmds, "home"), "https://example.com/");
    assert_eq!(resolve_query(&cmds, "home ignored words"), "https://example.com/");
}

#[test]
fn every_occurrence_of_a_placeholder_is_replaced() {
    let cmds = load_commands("d q = https://example.com/q?term=q\n").unwrap();
    assert_eq!(
        resolve_query(&cmds, "d rust"),
        "https://example.com/rust?term=rust"
    );
}

#[test]
fn first_matching_command_wins() {
    let cmds = load_commands(
        "x term = https://example.com/first?q=term\n\
         x term = https://example.com/second?q=term\n",
    )
    .unwrap();
    assert_eq!(resolve_query(&cmds, "x a"), "https://example.com/first?q=a");
}

#[test]
fn empty_table_always_falls_back() {
    let cmds: Vec<Command> = Vec::new();
    assert_eq!(resolve_query(&cmds, "g hello"), "/?invalid=true&q=g");
}

#[test]
fn an_empty_alias_never_matches() {
    let cmds = example_table();
    assert_eq!(resolve_query(&cmds, ""), "/?invalid=true&q=");
}

#[test]
fn absent_query_gets_no_redirect() {
    let cmds = example_table();
    assert_eq!(search_outcome(&cmds, None), SearchOutcome::NoQuery);
}

#[test]
fn empty_query_gets_no_redirect() {
    let cmds = example_table();
    assert_eq!(search_outcome(&cmds, Some("")), SearchOutcome::NoQuery);
}

#[test]
fn present_query_gets_a_redirect() {
    let cmds = example_table();
    assert_eq!(
        search_outcome(&cmds, Some("g hello world")),
        SearchOutcome::Redirect("https://example.com/search?q=hello world".to_string())
    );
}

#[test]
fn whitespace_only_query_falls_back_on_the_empty_token() {
    let cmds = example_table();
    assert_eq!(
        search_outcome(&cmds, Some("   ")),
        SearchOutcome::Redirect("/?invalid=true&q=".to_string())
    );
}
