use serde_json::Value;
use simple_db::config::DatabaseConfig;
use simple_db::connection::DatabaseConnection;
use simple_db::database::Database;
use simple_db::error::DatabaseError;
use simple_db::row::Row;
use simple_db::table::Table;

#[test]
fn config_keeps_its_settings() {
    let config = DatabaseConfig::new(32, true);
    assert_eq!(config.max_tables, 32);
    assert!(config.read_only);
}

#[test]
fn connection_starts_with_one_open() {
    let connection = DatabaseConnection::new(4);
    assert_eq!(connection.check_connection(), Ok(()));
}

#[test]
fn connection_fails_when_none_is_open() {
    let mut connection = DatabaseConnection::new(4);
    connection.end_connection();
    assert_eq!(connection.check_connection(), Err(DatabaseError::NoConnection));
    connection.end_connection();
    assert_eq!(connection.check_connection(), Err(DatabaseError::NoConnection));
    connection.add_connection();
    assert_eq!(connection.check_connection(), Ok(()));
}

#[test]
fn connection_pool_of_zero_cannot_reopen() {
    let mut connection = DatabaseConnection::new(0);
    assert_eq!(connection.check_connection(), Ok(()));
    connection.end_connection();
    connection.add_connection();
    assert_eq!(connection.check_connection(), Err(DatabaseError::NoConnection));
}

#[test]
fn end_connection_undoes_add_connection() {
    let mut connection = DatabaseConnection::new(2);
    connection.end_connection();
    connection.add_connection();
    connection.add_connection();
    connection.add_connection();
    connection.end_connection();
    connection.end_connection();
    assert_eq!(connection.check_connection(), Err(DatabaseError::NoConnection));
}

#[test]
fn row_stores_and_replaces_values() {
    let mut row = Row::new(7);
    assert_eq!(row.get_value("name"), None);
    assert_eq!(row.insert_value("name".to_string(), Value::from("Ann")), Ok(()));
    assert_eq!(row.insert_value("age".to_string(), Value::from(30)), Ok(()));
    assert_eq!(row.get_value("name"), Some(&Value::from("Ann")));
    assert_eq!(row.insert_value("name".to_string(), Value::from("Bea")), Ok(()));
    assert_eq!(row.get_value("name"), Some(&Value::from("Bea")));
    assert_eq!(row.field_names(), vec!["age", "name"]);
}

#[test]
fn table_numbers_rows_from_zero() {
    let mut table = Table::new();
    assert_eq!(table.row_count(), 0);
    assert_eq!(table.insert_row(), 0);
    assert_eq!(table.insert_row(), 1);
    assert_eq!(table.insert_row(), 2);
    assert_eq!(table.row_count(), 3);
    assert!(table.get_row(2).is_some());
    assert!(table.get_row(3).is_none());
}

#[test]
fn table_reads_back_what_was_written() {
    let mut table = Table::new();
    let id = table.insert_row();
    assert_eq!(table.set_value(id, "status".to_string(), Value::from("paid")), Ok(()));
    assert_eq!(table.get_value(id, "status"), Ok(Value::from("paid")));
    assert_eq!(table.set_value(id, "status".to_string(), Value::from("open")), Ok(()));
    assert_eq!(table.get_value(id, "status"), Ok(Value::from("open")));
}

#[test]
fn table_write_leaves_other_fields_and_rows() {
    let mut table = Table::new();
    let a = table.insert_row();
    let b = table.insert_row();
    table.set_value(a, "x".to_string(), Value::from(1)).unwrap();
    table.set_value(b, "x".to_string(), Value::from(2)).unwrap();
    table.set_value(a, "y".to_string(), Value::from(3)).unwrap();
    assert_eq!(table.get_value(a, "x"), Ok(Value::from(1)));
    assert_eq!(table.get_value(b, "x"), Ok(Value::from(2)));
    assert_eq!(table.get_value(b, "y"), Err(DatabaseError::NotFound));
}

#[test]
fn table_reports_missing_rows_and_fields() {
    let mut table = Table::new();
    assert_eq!(table.get_value(0, "x"), Err(DatabaseError::NotFound));
    assert_eq!(
        table.set_value(0, "x".to_string(), Value::from(1)),
        Err(DatabaseError::NotFound)
    );
    assert_eq!(table.row_count(), 0);
    table.insert_row();
    assert_eq!(table.get_value(0, "x"), Err(DatabaseError::NotFound));
}

#[test]
fn table_field_names_are_sorted_union() {
    let mut table = Table::new();
    assert!(table.field_names().is_empty());
    let a = table.insert_row();
    let b = table.insert_row();
    table.set_value(a, "role".to_string(), Value::from("x")).unwrap();
    table.set_value(a, "email".to_string(), Value::from("x")).unwrap();
    table.set_value(b, "name".to_string(), Value::from("x")).unwrap();
    table.set_value(b, "email".to_string(), Value::from("y")).unwrap();
    assert_eq!(table.field_names(), vec!["email", "name", "role"]);
    table.insert_row();
    assert_eq!(table.field_names(), vec!["email", "name", "role"]);
}

#[test]
fn database_creates_and_lists_tables() {
    let mut database = Database::new("app", 32, false, 4);
    assert_eq!(database.name(), "app");
    assert!(database.table_names().is_empty());
    assert_eq!(database.create_table("users".to_string()), Ok(()));
    assert_eq!(database.create_table("orders".to_string()), Ok(()));
    assert_eq!(database.create_table("audit".to_string()), Ok(()));
    assert_eq!(database.table_names(), vec!["audit", "orders", "users"]);
    let table = database.get_table("users").expect("created");
    assert_eq!(table.row_count(), 0);
    assert!(database.get_table("missing").is_none());
}

#[test]
fn database_refuses_a_taken_name() {
    let mut database = Database::new("app", 32, false, 4);
    assert_eq!(database.create_table("users".to_string()), Ok(()));
    assert_eq!(
        database.create_table("users".to_string()),
        Err(DatabaseError::InvalidData)
    );
    assert_eq!(database.table_names(), vec!["users"]);
}

#[test]
fn database_refuses_when_read_only() {
    let mut database = Database::new("app", 32, true, 4);
    assert_eq!(
        database.create_table("users".to_string()),
        Err(DatabaseError::DatabaseConfigError)
    );
    assert!(database.table_names().is_empty());
}

#[test]
fn database_keeps_its_table_limit() {
    let mut database = Database::new("app", 2, false, 4);
    assert_eq!(database.create_table("a".to_string()), Ok(()));
    assert_eq!(database.create_table("b".to_string()), Ok(()));
    assert_eq!(
        database.create_table("c".to_string()),
        Err(DatabaseError::DatabaseConfigError)
    );
    assert_eq!(
        database.create_table("a".to_string()),
        Err(DatabaseError::DatabaseConfigError)
    );
    assert_eq!(database.table_names().len(), 2);
}

#[test]
fn database_remove_undoes_create() {
    let mut database = Database::new("app", 32, false, 4);
    database.create_table("keep".to_string()).unwrap();
    assert_eq!(database.create_table("temp".to_string()), Ok(()));
    assert_eq!(database.remove_table("temp"), Ok(()));
    assert_eq!(database.table_names(), vec!["keep"]);
    assert_eq!(database.remove_table("temp"), Err(DatabaseError::NotFound));
    assert_eq!(database.create_table("temp".to_string()), Ok(()));
}

#[test]
fn database_changes_a_table_in_place() {
    let mut database = Database::new("app", 32, false, 4);
    database.create_table("users".to_string()).unwrap();
    {
        let table = database.get_table_mut("users").expect("created");
        let id = table.insert_row();
        table.set_value(id, "name".to_string(), Value::from("Cy")).unwrap();
    }
    assert!(database.get_table_mut("nope").is_none());
    let table = database.get_table("users").unwrap();
    assert_eq!(table.row_count(), 1);
    assert_eq!(table.get_value(0, "name"), Ok(Value::from("Cy")));
}

#[test]
fn error_names_match_debug() {
    for e in [
        DatabaseError::DatabaseConfigError,
        DatabaseError::NotFound,
        DatabaseError::NoConnection,
        DatabaseError::InvalidData,
    ] {
        assert_eq!(e.name(), format!("{e:?}"));
    }
}
