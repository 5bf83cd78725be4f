//! Tokenizer, command grammar, and numeric parsing behaviour.

use minidb::error::DbError;
use minidb::num::parse_i32;
use minidb::parser::parse;
use minidb::parser::Command;
use minidb::tokenizer::tokenize;

fn toks(line: &str) -> Vec<String> {
    tokenize(line)
}

#[test]
fn tokenize_splits_on_whitespace_runs() {
    assert_eq!(toks("  CREATE   TABLE\tusers  "), vec!["CREATE", "TABLE", "users"]);
}

#[test]
fn tokenize_empty_and_blank_lines() {
    assert_eq!(toks(""), Vec::<String>::new());
    assert_eq!(toks("   \t  \n"), Vec::<String>::new());
}

#[test]
fn tokenize_single_token() {
    assert_eq!(toks("EXIT"), vec!["EXIT"]);
}

#[test]
fn tokenize_splits_on_unicode_whitespace() {
    assert_eq!(toks("SHOW\u{00A0}TABLES"), vec!["SHOW", "TABLES"]);
    assert_eq!(toks("\u{00A0}"), Vec::<String>::new());
    assert_eq!(toks("\u{2003}\u{2028}a\u{3000}b\u{85}"), vec!["a", "b"]);
}

#[test]
fn tokenize_agrees_with_std_whitespace_splitting() {
    for line in [
        "CREATE TABLE users id:int",
        "  a\u{00A0}b\tc\u{1680}d\u{200A}e\u{202F}f\u{205F}g\u{2029}h ",
        "\u{0B}\u{0C}\r\n",
        "",
        "one",
    ] {
        let expected: Vec<&str> = line.split_whitespace().collect();
        assert_eq!(toks(line), expected, "disagreement on {line:?}");
    }
}

#[test]
fn parse_create_table() {
    let cmd = parse(&toks("CREATE TABLE users id:int name:text age:int")).unwrap();
    assert_eq!(
        cmd,
        Command::CreateTable {
            name: "users".to_string(),
            cols: vec![
                ("id".to_string(), "int".to_string()),
                ("name".to_string(), "text".to_string()),
                ("age".to_string(), "int".to_string()),
            ],
        }
    );
}

#[test]
fn parse_create_with_malformed_colspec_is_syntax_error() {
    let r = parse(&toks("CREATE TABLE users id:int name age:int"));
    assert_eq!(r, Err(DbError::Syntax("name".to_string())));
    let r = parse(&toks("CREATE TABLE users id:int:extra"));
    assert_eq!(r, Err(DbError::Syntax("id:int:extra".to_string())));
    let r = parse(&toks("CREATE TABLE users id:"));
    assert_eq!(r, Err(DbError::Syntax("id:".to_string())));
    let r = parse(&toks("CREATE TABLE users :int"));
    assert_eq!(r, Err(DbError::Syntax(":int".to_string())));
}

#[test]
fn parse_show_tables() {
    assert_eq!(parse(&toks("SHOW TABLES")).unwrap(), Command::ShowTables);
}

#[test]
fn parse_drop_table() {
    assert_eq!(
        parse(&toks("DROP TABLE users")).unwrap(),
        Command::DropTable { name: "users".to_string() }
    );
}

#[test]
fn parse_insert() {
    assert_eq!(
        parse(&toks("INSERT users 1 Alice 30")).unwrap(),
        Command::Insert {
            table: "users".to_string(),
            values: vec!["1".to_string(), "Alice".to_string(), "30".to_string()],
        }
    );
}

#[test]
fn parse_select_all() {
    assert_eq!(
        parse(&toks("SELECT * FROM users")).unwrap(),
        Command::SelectAll { table: "users".to_string() }
    );
}

#[test]
fn parse_select_where() {
    assert_eq!(
        parse(&toks("SELECT * FROM users WHERE id = 2")).unwrap(),
        Command::SelectWhere {
            table: "users".to_string(),
            column: "id".to_string(),
            target: 2,
        }
    );
}

#[test]
fn parse_select_where_non_integer_filter() {
    assert_eq!(
        parse(&toks("SELECT * FROM users WHERE name = Alice")),
        Err(DbError::NonIntegerFilter)
    );
    assert_eq!(
        parse(&toks("SELECT * FROM users WHERE age = 1.5")),
        Err(DbError::NonIntegerFilter)
    );
}

#[test]
fn parse_help_and_exit() {
    assert_eq!(parse(&toks("HELP")).unwrap(), Command::Help);
    assert_eq!(parse(&toks("EXIT")).unwrap(), Command::Exit);
}

#[test]
fn parse_invalid_commands() {
    assert_eq!(parse(&toks("")), Err(DbError::InvalidCommand));
    assert_eq!(parse(&toks("create table users")), Err(DbError::InvalidCommand));
    assert_eq!(parse(&toks("CREATE users")), Err(DbError::InvalidCommand));
    assert_eq!(parse(&toks("SELECT * FROM")), Err(DbError::InvalidCommand));
    assert_eq!(parse(&toks("SELECT * FROM users WHERE id = 2 x")), Err(DbError::InvalidCommand));
    assert_eq!(parse(&toks("SHOW TABLES please")), Err(DbError::InvalidCommand));
}

#[test]
fn parse_i32_accepts_signed_decimals() {
    assert_eq!(parse_i32("0"), Some(0));
    assert_eq!(parse_i32("42"), Some(42));
    assert_eq!(parse_i32("+42"), Some(42));
    assert_eq!(parse_i32("-42"), Some(-42));
    assert_eq!(parse_i32("2147483647"), Some(i32::MAX));
    assert_eq!(parse_i32("-2147483648"), Some(i32::MIN));
    assert_eq!(parse_i32("007"), Some(7));
}

#[test]
fn parse_i32_rejects_bad_tokens() {
    assert_eq!(parse_i32(""), None);
    assert_eq!(parse_i32("-"), None);
    assert_eq!(parse_i32("+"), None);
    assert_eq!(parse_i32("1.5"), None);
    assert_eq!(parse_i32("12a"), None);
    assert_eq!(parse_i32("2147483648"), None);
    assert_eq!(parse_i32("-2147483649"), None);
    assert_eq!(parse_i32("999999999999999999999"), None);
}
