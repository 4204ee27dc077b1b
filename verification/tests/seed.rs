use rust_web_demo::seed::{append_sql_escaped, insert_statement};

#[test]
fn insert_statement_doubles_quotes_in_names() {
    assert_eq!(
        insert_statement("abc123", "D'Arcy", "O'Brien"),
        "insert into people (id, first_name, last_name) values ('abc123','D''Arcy','O''Brien');\n"
    );
}

#[test]
fn insert_statement_plain_names() {
    assert_eq!(
        insert_statement("x", "Ann", "Lee"),
        "insert into people (id, first_name, last_name) values ('x','Ann','Lee');\n"
    );
}

#[test]
fn escaping_appends_to_existing_text() {
    let mut s = String::from("'");
    append_sql_escaped(&mut s, "it's ''ok''");
    assert_eq!(s, "'it''s ''''ok''''");
}
