use atom::command::parse_command;
use atom::command::word_is;
use atom::command::Command;
use atom::lexer::first_word_of;
use atom::lexer::is_mark_char;
use atom::lexer::is_space_char;
use atom::lexer::tokenize;
use atom::lexer::Token;
use atom::DatabaseError;

fn word(text: &str) -> Token {
    Token::Word(text.to_string())
}

fn syntax(reason: &str) -> Result<Command, DatabaseError> {
    Err(DatabaseError::InvalidSyntax(reason.to_string()))
}

fn strings(items: &[&str]) -> Vec<String> {
    items.iter().map(|s| s.to_string()).collect()
}

#[test]
fn tokenize_splits_words_and_marks() {
    assert_eq!(
        tokenize("CREATE TABLE users (id, name)"),
        vec![
            word("CREATE"),
            word("TABLE"),
            word("users"),
            Token::Open,
            word("id"),
            Token::Comma,
            word("name"),
            Token::Close
        ]
    );
    assert_eq!(
        tokenize("a=b"),
        vec![word("a"), Token::Equals, word("b")]
    );
}

#[test]
fn tokenize_drops_white_space() {
    assert_eq!(tokenize(""), Vec::<Token>::new());
    assert_eq!(tokenize(" \t\r\n"), Vec::<Token>::new());
    assert_eq!(tokenize("  show\u{a0}tables\u{3000}"), vec![word("show"), word("tables")]);
    assert_eq!(tokenize("((,"), vec![Token::Open, Token::Open, Token::Comma]);
}

#[test]
fn tokenize_keeps_other_characters_in_words() {
    assert_eq!(
        tokenize("SELECT * FROM caf\u{e9}"),
        vec![word("SELECT"), word("*"), word("FROM"), word("caf\u{e9}")]
    );
    assert_eq!(tokenize("a@b.c"), vec![word("a@b.c")]);
}

#[test]
fn space_and_mark_characters() {
    for c in [' ', '\t', '\n', '\u{b}', '\u{c}', '\r', '\u{85}', '\u{a0}', '\u{1680}', '\u{2000}', '\u{200a}', '\u{2028}', '\u{2029}', '\u{202f}', '\u{205f}', '\u{3000}'] {
        assert!(is_space_char(c), "{:?}", c);
        assert_eq!(is_space_char(c), c.is_whitespace());
    }
    for c in ['a', '0', '(', '\u{200b}', '\u{8}', '\u{e}', '\u{feff}'] {
        assert!(!is_space_char(c), "{:?}", c);
        assert_eq!(is_space_char(c), c.is_whitespace());
    }
    for c in ['(', ')', ',', '='] {
        assert!(is_mark_char(c));
    }
    for c in ['*', ' ', ';', '\''] {
        assert!(!is_mark_char(c));
    }
}

#[test]
fn space_characters_agree_with_std_everywhere() {
    let mut n: u32 = 0;
    while n <= 0x10ffff {
        if let Some(c) = char::from_u32(n) {
            assert_eq!(is_space_char(c), c.is_whitespace(), "{:#x}", n);
        }
        n += 1;
    }
}

#[test]
fn keywords_ignore_ascii_case() {
    assert!(word_is("create", "create"));
    assert!(word_is("CREATE", "create"));
    assert!(word_is("CrEaTe", "create"));
    assert!(!word_is("creat", "create"));
    assert!(!word_is("created", "create"));
    assert!(!word_is("", "create"));
    assert!(!word_is("cre\u{e4}te", "create"));
}

#[test]
fn parse_create_table() {
    assert_eq!(
        parse_command("CREATE TABLE users (id, name)"),
        Ok(Command::CreateTable {
            name: "users".to_string(),
            columns: strings(&["id", "name"])
        })
    );
    assert_eq!(
        parse_command("create table T ( One )"),
        Ok(Command::CreateTable {
            name: "T".to_string(),
            columns: strings(&["One"])
        })
    );
    assert_eq!(
        parse_command("CREATE TABLE d (a, a)"),
        Ok(Command::CreateTable {
            name: "d".to_string(),
            columns: strings(&["a", "a"])
        })
    );
}

#[test]
fn parse_create_missing_table_keyword() {
    assert_eq!(parse_command("CREATE foo"), syntax("Invalid CREATE TABLE syntax"));
    assert_eq!(parse_command("CREATE"), syntax("Invalid CREATE TABLE syntax"));
    assert_eq!(parse_command("CREATE TABLE"), syntax("Invalid CREATE TABLE syntax"));
    assert_eq!(parse_command("CREATE TABLE (a)"), syntax("Invalid CREATE TABLE syntax"));
    assert_eq!(parse_command("CREATE INDEX users (id)"), syntax("Invalid CREATE TABLE syntax"));
}

#[test]
fn parse_create_without_parentheses() {
    assert_eq!(parse_command("CREATE TABLE users"), syntax("Columns must be in parentheses"));
    assert_eq!(parse_command("CREATE TABLE users id, name"), syntax("Columns must be in parentheses"));
    assert_eq!(parse_command("CREATE TABLE users (id, name"), syntax("Columns must be in parentheses"));
    assert_eq!(parse_command("CREATE TABLE users (id) extra"), syntax("Columns must be in parentheses"));
    assert_eq!(parse_command("CREATE TABLE users ("), syntax("Columns must be in parentheses"));
}

#[test]
fn parse_create_bad_column_list() {
    assert_eq!(parse_command("CREATE TABLE users (id name)"), syntax("Invalid column list"));
    assert_eq!(parse_command("CREATE TABLE users (id=1)"), syntax("Invalid column list"));
    assert_eq!(parse_command("CREATE TABLE users (a, (b))"), syntax("Invalid column list"));
    assert_eq!(parse_command("CREATE TABLE users (a, b c)"), syntax("Invalid column list"));
    assert_eq!(parse_command("CREATE TABLE users (=)"), syntax("Invalid column list"));
}

#[test]
fn parse_create_with_empty_places() {
    let columns = |text: &str| match parse_command(text) {
        Ok(Command::CreateTable { columns, .. }) => columns,
        other => panic!("{:?}", other),
    };
    assert_eq!(columns("CREATE TABLE t ()"), strings(&[""]));
    assert_eq!(columns("CREATE TABLE t ( )"), strings(&[""]));
    assert_eq!(columns("CREATE TABLE t (a,,b)"), strings(&["a", "", "b"]));
    assert_eq!(columns("CREATE TABLE t (a,, b)"), strings(&["a", "", "b"]));
    assert_eq!(columns("CREATE TABLE t (id,)"), strings(&["id", ""]));
    assert_eq!(columns("CREATE TABLE t (,id)"), strings(&["", "id"]));
    assert_eq!(columns("CREATE TABLE t (,)"), strings(&["", ""]));
}

#[test]
fn parse_insert() {
    assert_eq!(
        parse_command("INSERT INTO users (id=1, name=Zoe)"),
        Ok(Command::Insert {
            table: "users".to_string(),
            fields: vec![
                ("id".to_string(), "1".to_string()),
                ("name".to_string(), "Zoe".to_string())
            ]
        })
    );
    assert_eq!(
        parse_command("insert into t ( a = x , a = y )"),
        Ok(Command::Insert {
            table: "t".to_string(),
            fields: vec![
                ("a".to_string(), "x".to_string()),
                ("a".to_string(), "y".to_string())
            ]
        })
    );
}

#[test]
fn parse_insert_errors() {
    assert_eq!(parse_command("INSERT users (id=1)"), syntax("Invalid INSERT syntax"));
    assert_eq!(parse_command("INSERT INTO"), syntax("Invalid INSERT syntax"));
    assert_eq!(parse_command("INSERT INTO users"), syntax("Values must be in parentheses"));
    assert_eq!(parse_command("INSERT INTO users id=1"), syntax("Values must be in parentheses"));
    assert_eq!(parse_command("INSERT INTO users (id=1"), syntax("Values must be in parentheses"));
    assert_eq!(parse_command("INSERT INTO users ()"), syntax("Invalid key=value format"));
    assert_eq!(parse_command("INSERT INTO users (id)"), syntax("Invalid key=value format"));
    assert_eq!(parse_command("INSERT INTO users (id=1=2)"), syntax("Invalid key=value format"));
    assert_eq!(parse_command("INSERT INTO users (id=1,)"), syntax("Invalid key=value format"));
    assert_eq!(parse_command("INSERT INTO users (,id=1)"), syntax("Invalid key=value format"));
    assert_eq!(parse_command("INSERT INTO users (id=1,,a=2)"), syntax("Invalid key=value format"));
    assert_eq!(parse_command("INSERT INTO users (id=1 name=Zoe)"), syntax("Invalid key=value format"));
    assert_eq!(parse_command("INSERT INTO users (name=Ann Lee)"), syntax("Invalid key=value format"));
    assert_eq!(parse_command("INSERT INTO users (first name=Ann)"), syntax("Invalid key=value format"));
    assert_eq!(parse_command("INSERT INTO users (a=(b))"), syntax("Invalid key=value format"));
}

#[test]
fn parse_insert_with_empty_key_or_value() {
    let fields = |text: &str| match parse_command(text) {
        Ok(Command::Insert { fields, .. }) => fields,
        other => panic!("{:?}", other),
    };
    let pair = |k: &str, v: &str| (k.to_string(), v.to_string());
    assert_eq!(fields("insert into t (a=)"), vec![pair("a", "")]);
    assert_eq!(fields("insert into t (=1)"), vec![pair("", "1")]);
    assert_eq!(fields("insert into t (=)"), vec![pair("", "")]);
    assert_eq!(fields("insert into t (a=, b=2)"), vec![pair("a", ""), pair("b", "2")]);
    assert_eq!(fields("insert into t (a=1, =, c=)"), vec![pair("a", "1"), pair("", ""), pair("c", "")]);
    assert_eq!(fields("insert into t ( a = , b = 2 )"), vec![pair("a", ""), pair("b", "2")]);
}

#[test]
fn parse_select() {
    assert_eq!(
        parse_command("SELECT * FROM users"),
        Ok(Command::SelectAll { table: "users".to_string() })
    );
    assert_eq!(
        parse_command("select * from users where name=Bob"),
        Ok(Command::SelectWhere {
            table: "users".to_string(),
            column: "name".to_string(),
            value: "Bob".to_string()
        })
    );
    assert_eq!(
        parse_command("SELECT * FROM users WHERE name = Bob"),
        Ok(Command::SelectWhere {
            table: "users".to_string(),
            column: "name".to_string(),
            value: "Bob".to_string()
        })
    );
}

#[test]
fn parse_select_with_empty_column_or_value() {
    let condition = |text: &str| match parse_command(text) {
        Ok(Command::SelectWhere { column, value, .. }) => (column, value),
        other => panic!("{:?}", other),
    };
    assert_eq!(
        condition("SELECT * FROM users WHERE name="),
        ("name".to_string(), "".to_string())
    );
    assert_eq!(
        condition("SELECT * FROM users WHERE =Bob"),
        ("".to_string(), "Bob".to_string())
    );
    assert_eq!(
        condition("SELECT * FROM users WHERE ="),
        ("".to_string(), "".to_string())
    );
}

#[test]
fn parse_select_errors() {
    assert_eq!(parse_command("SELECT"), syntax("Invalid SELECT syntax"));
    assert_eq!(parse_command("SELECT id FROM users"), syntax("Invalid SELECT syntax"));
    assert_eq!(parse_command("SELECT * users"), syntax("Invalid SELECT syntax"));
    assert_eq!(parse_command("SELECT * FROM"), syntax("Invalid SELECT syntax"));
    assert_eq!(parse_command("SELECT * FROM users extra"), syntax("Invalid SELECT syntax"));
    assert_eq!(parse_command("SELECT * FROM users WHERE"), syntax("Invalid WHERE clause"));
    assert_eq!(parse_command("SELECT * FROM users WHERE name"), syntax("Invalid WHERE condition"));
    assert_eq!(parse_command("SELECT * FROM users WHERE a=1, b=2"), syntax("Invalid WHERE condition"));
    assert_eq!(parse_command("SELECT * FROM users WHERE a=1,"), syntax("Invalid WHERE condition"));
    assert_eq!(parse_command("SELECT * FROM users WHERE (a=1)"), syntax("Invalid WHERE condition"));
    assert_eq!(parse_command("SELECT * FROM users WHERE name=a=b"), syntax("Invalid WHERE condition"));
    assert_eq!(parse_command("SELECT * FROM users WHERE a=1 b=2"), syntax("Invalid WHERE condition"));
    assert_eq!(parse_command("SELECT * FROM users WHERE a,1"), syntax("Invalid WHERE condition"));
}

#[test]
fn parse_describe_show_drop() {
    assert_eq!(
        parse_command("DESCRIBE users"),
        Ok(Command::Describe { table: "users".to_string() })
    );
    assert_eq!(parse_command("describe"), syntax("Table name required"));
    assert_eq!(parse_command("DESCRIBE a b"), syntax("Invalid DESCRIBE syntax"));
    assert_eq!(parse_command("DESCRIBE ("), syntax("Invalid DESCRIBE syntax"));
    assert_eq!(parse_command("SHOW TABLES"), Ok(Command::ShowTables));
    assert_eq!(parse_command("  show   tables  "), Ok(Command::ShowTables));
    assert_eq!(parse_command("SHOW"), syntax("Only 'SHOW TABLES' is supported"));
    assert_eq!(parse_command("SHOW COLUMNS"), syntax("Only 'SHOW TABLES' is supported"));
    assert_eq!(parse_command("SHOW TABLES now"), syntax("Only 'SHOW TABLES' is supported"));
    assert_eq!(
        parse_command("DROP TABLE ghost"),
        Ok(Command::DropTable { table: "ghost".to_string() })
    );
    assert_eq!(parse_command("DROP ghost"), syntax("Invalid DROP TABLE syntax"));
    assert_eq!(parse_command("DROP TABLE"), syntax("Invalid DROP TABLE syntax"));
    assert_eq!(parse_command("DROP TABLE a b"), syntax("Invalid DROP TABLE syntax"));
}

#[test]
fn parse_unknown_command() {
    assert_eq!(parse_command(""), Err(DatabaseError::UnknownCommand));
    assert_eq!(parse_command("   "), Err(DatabaseError::UnknownCommand));
    assert_eq!(parse_command("UPDATE users"), Err(DatabaseError::UnknownCommand));
    assert_eq!(parse_command("(create table t (a))"), Err(DatabaseError::UnknownCommand));
    assert_eq!(parse_command("creates table t (a)"), Err(DatabaseError::UnknownCommand));
}

#[test]
fn keyword_glued_to_a_mark_is_no_keyword() {
    assert_eq!(parse_command("create("), Err(DatabaseError::UnknownCommand));
    assert_eq!(parse_command("create(a)"), Err(DatabaseError::UnknownCommand));
    assert_eq!(parse_command("drop,x"), Err(DatabaseError::UnknownCommand));
    assert_eq!(parse_command("select=1"), Err(DatabaseError::UnknownCommand));
    assert_eq!(parse_command("  SHOW, tables"), Err(DatabaseError::UnknownCommand));
    assert_eq!(parse_command("describe) t"), Err(DatabaseError::UnknownCommand));
    assert_eq!(parse_command("=insert into t (a=1)"), Err(DatabaseError::UnknownCommand));
    assert_eq!(parse_command("create\u{a0}("), syntax("Invalid CREATE TABLE syntax"));
    assert_eq!(
        parse_command("\tDROP\ttable\tt"),
        Ok(Command::DropTable { table: "t".to_string() })
    );
}

#[test]
fn first_word_is_delimited_by_white_space_alone() {
    assert_eq!(first_word_of("create( x"), "create(");
    assert_eq!(first_word_of("  drop,x y"), "drop,x");
    assert_eq!(first_word_of("\u{3000}SELECT\u{2003}* FROM t"), "SELECT");
    assert_eq!(first_word_of("show"), "show");
    assert_eq!(first_word_of(""), "");
    assert_eq!(first_word_of(" \n "), "");
    for text in ["a b", "  a=b  c", "", " ", "x", "\u{a0}yz\u{a0}"] {
        assert_eq!(first_word_of(text), text.split_whitespace().next().unwrap_or(""));
    }
}
