use bangs::table::{load_commands, parse_command, Command, LoadError};

#[test]
fn parses_name_alias_args_and_dest() {
    let c = parse_command("g|google query = https://example.com/search?q=query").unwrap();
    assert_eq!(c.name, "g");
    assert_eq!(c.alias, "google");
    assert_eq!(c.args, "query");
    assert_eq!(c.dest, "https://example.com/search?q=query");
}

#[test]
fn parses_without_alias() {
    let c = parse_command("w page = https://example.org/wiki/page").unwrap();
    assert_eq!(c.name, "w");
    assert_eq!(c.alias, "");
    assert_eq!(c.args, "page");
    assert_eq!(c.dest, "https://example.org/wiki/page");
}

#[test]
fn parses_several_placeholders() {
    let c = parse_command("m|map  from   to = https://example.net/dir?a=from&b=to").unwrap();
    assert_eq!(c.args, "from to");
    assert_eq!(c.dest, "https://example.net/dir?a=from&b=to");
}

#[test]
fn parses_without_placeholders() {
    let c = parse_command("home = https://example.com/").unwrap();
    assert_eq!(c.name, "home");
    assert_eq!(c.alias, "");
    assert_eq!(c.args, "");
    assert_eq!(c.dest, "https://example.com/");
}

#[test]
fn splits_dest_at_first_equals_sign() {
    let c = parse_command("s q = https://example.com/?q=q&lang=en").unwrap();
    assert_eq!(c.dest, "https://example.com/?q=q&lang=en");
}

#[test]
fn line_without_equals_sign_is_malformed() {
    assert_eq!(
        parse_command("g|google query"),
        Err(LoadError::MalformedLine)
    );
}

#[test]
fn line_without_token_before_equals_is_malformed() {
    assert_eq!(parse_command(" = https://example.com/"), Err(LoadError::MalformedLine));
    assert_eq!(parse_command("= https://example.com/"), Err(LoadError::MalformedLine));
}

#[test]
fn loads_commands_in_definition_order() {
    let text = "g|google query = https://example.com/search?q=query\n\
                w page = https://example.org/wiki/page\n";
    let cmds = load_commands(text).unwrap();
    assert_eq!(cmds.len(), 2);
    assert_eq!(cmds[0].name, "g");
    assert_eq!(cmds[1].name, "w");
}

#[test]
fn trailing_and_interior_empty_lines_add_nothing() {
    let text = "a x = https://example.com/a?x=x\n\n\nb y = https://example.com/b?y=y\n\n";
    let cmds = load_commands(text).unwrap();
    assert_eq!(cmds.len(), 2);
    assert_eq!(cmds[0].name, "a");
    assert_eq!(cmds[1].name, "b");
}

#[test]
fn empty_text_loads_an_empty_table() {
    let cmds = load_commands("").unwrap();
    assert!(cmds.is_empty());
}

#[test]
fn a_malformed_line_fails_the_whole_load() {
    let text = "a x = https://example.com/a?x=x\nbroken line without equals\n";
    assert_eq!(load_commands(text), Err(LoadError::MalformedLine));
}

#[test]
fn loading_twice_yields_identical_tables() {
    let text = "g|google query = https://example.com/search?q=query\n\
                w page = https://example.org/wiki/page\n";
    let first: Vec<Command> = load_commands(text).unwrap();
    let second: Vec<Command> = load_commands(text).unwrap();
    assert_eq!(first, second);
}
