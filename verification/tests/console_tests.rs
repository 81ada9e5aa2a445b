use serde_json::Value;
use simple_db::database::Database;
use simple_db::error::DatabaseError;
use simple_db::printer::Printer;
use simple_db::process::{
    handle_table_selection, parse_command, parse_menu_command, resolve_table_name,
    seed_demo_data, selection_title, show_table_selector, Command, Console, Reply,
    TableSelectionAction,
};
use simple_db::text::decimal_string;

fn seeded() -> Database {
    let mut database = Database::new("app", 32, false, 4);
    assert_eq!(seed_demo_data(&mut database), Ok(()));
    database
}

fn lines(v: &[&str]) -> Vec<String> {
    v.iter().map(|s| s.to_string()).collect()
}

fn options_none() -> Vec<String> {
    lines(&[
        "Menu:",
        "  1. Show all tables",
        "  2. Show fields of a table",
        "  3. Select a table",
        "  4. Help",
        "  5. Exit",
        "Commands: tables | fields <table> | use <table> | help | exit",
        "",
    ])
}

fn options_for(table: &str) -> Vec<String> {
    let mut v = lines(&[
        "Menu:",
        "  1. Show fields of current table",
        "  2. Show all tables",
        "  3. Select another table",
        "  4. Back",
        "  5. Exit",
    ]);
    v.push(format!("Current table: {table}"));
    v.push("Commands: fields | tables | use <table> | back | exit".to_string());
    v.push(String::new());
    v
}

fn shown(reply: Reply) -> (Vec<String>, bool) {
    match reply {
        Reply::Show { lines, exit } => (lines, exit),
        Reply::Ignore => panic!("expected a screen"),
    }
}

#[test]
fn seed_fills_demo_tables() {
    let database = seeded();
    assert_eq!(database.table_names(), vec!["orders", "users"]);
    let users = database.get_table("users").unwrap();
    assert_eq!(users.row_count(), 2);
    assert_eq!(users.get_value(0, "name"), Ok(Value::from("Alice")));
    assert_eq!(users.get_value(0, "email"), Ok(Value::from("alice@example.com")));
    assert_eq!(users.get_value(1, "role"), Ok(Value::from("editor")));
    assert_eq!(users.field_names(), vec!["email", "name", "role"]);
    let orders = database.get_table("orders").unwrap();
    assert_eq!(orders.row_count(), 1);
    assert_eq!(orders.get_value(0, "amount"), Ok(Value::from(1250)));
    assert_eq!(orders.get_value(0, "status"), Ok(Value::String("paid".to_string())));
    assert_eq!(orders.get_value(0, "number"), Ok(Value::from("ORD-001")));
}

#[test]
fn seed_fails_on_read_only_database() {
    let mut database = Database::new("app", 32, true, 4);
    assert_eq!(seed_demo_data(&mut database), Err(DatabaseError::DatabaseConfigError));
    assert!(database.table_names().is_empty());
}

#[test]
fn seed_stops_at_the_table_limit() {
    let mut database = Database::new("app", 1, false, 4);
    assert_eq!(seed_demo_data(&mut database), Err(DatabaseError::DatabaseConfigError));
    assert_eq!(database.table_names(), vec!["users"]);
    assert_eq!(database.get_table("users").unwrap().row_count(), 0);
}

#[test]
fn seed_twice_finds_names_taken() {
    let mut database = seeded();
    assert_eq!(seed_demo_data(&mut database), Err(DatabaseError::InvalidData));
}

#[test]
fn prompts_show_database_and_table() {
    assert_eq!(Printer::prompt("app", None), "app> ");
    assert_eq!(Printer::prompt("app", Some("users")), "app[users]> ");
    assert_eq!(Printer::selection_prompt("app"), "app[select-table]> ");
}

#[test]
fn menu_numbers_depend_on_current_table() {
    assert_eq!(parse_menu_command("1", None), Some(Command::Tables));
    assert_eq!(parse_menu_command("2", None), Some(Command::Fields(None)));
    assert_eq!(parse_menu_command("3", None), Some(Command::Use(None)));
    assert_eq!(parse_menu_command("4", None), Some(Command::Help));
    assert_eq!(parse_menu_command("5", None), Some(Command::Exit));
    assert_eq!(parse_menu_command("1", Some("t")), Some(Command::Fields(None)));
    assert_eq!(parse_menu_command("2", Some("t")), Some(Command::Tables));
    assert_eq!(parse_menu_command("3", Some("t")), Some(Command::Use(None)));
    assert_eq!(parse_menu_command("4", Some("t")), Some(Command::Back));
    assert_eq!(parse_menu_command("5", Some("t")), Some(Command::Exit));
    assert_eq!(parse_menu_command("6", None), None);
    assert_eq!(parse_menu_command("01", None), None);
}

#[test]
fn commands_are_parsed_in_any_case() {
    assert_eq!(parse_command("", None), Command::Empty);
    assert_eq!(parse_command("help", None), Command::Help);
    assert_eq!(parse_command("HELP", None), Command::Help);
    assert_eq!(parse_command("Tables", None), Command::Tables);
    assert_eq!(parse_command("fields", None), Command::Fields(None));
    assert_eq!(
        parse_command("fields users", None),
        Command::Fields(Some("users".to_string()))
    );
    assert_eq!(
        parse_command("FIELDS  my   table", None),
        Command::Fields(Some("my table".to_string()))
    );
    assert_eq!(parse_command("use", None), Command::Use(None));
    assert_eq!(parse_command("use orders", None), Command::Use(Some("orders".to_string())));
    assert_eq!(parse_command("back", None), Command::Back);
    assert_eq!(parse_command("exit", None), Command::Exit);
    assert_eq!(parse_command(".exit", None), Command::Exit);
    assert_eq!(parse_command("Exit now", None), Command::Exit);
    assert_eq!(parse_command("4", Some("users")), Command::Back);
    assert_eq!(
        parse_command("drop users", None),
        Command::Unknown("drop users".to_string())
    );
    assert_eq!(parse_command("   ", None), Command::Unknown("   ".to_string()));
}

#[test]
fn selection_titles() {
    assert_eq!(
        selection_title(TableSelectionAction::ShowFields),
        "Select a table to print its fields:"
    );
    assert_eq!(
        selection_title(TableSelectionAction::UseTable),
        "Select a table to make it current:"
    );
}

#[test]
fn table_names_resolve_by_number_or_name() {
    let names = ["orders", "users"];
    assert_eq!(resolve_table_name(&names, "1"), Some("orders".to_string()));
    assert_eq!(resolve_table_name(&names, "2"), Some("users".to_string()));
    assert_eq!(resolve_table_name(&names, "+2"), Some("users".to_string()));
    assert_eq!(resolve_table_name(&names, "0"), None);
    assert_eq!(resolve_table_name(&names, "3"), None);
    assert_eq!(resolve_table_name(&names, "users"), Some("users".to_string()));
    assert_eq!(resolve_table_name(&names, "Users"), None);
    assert_eq!(resolve_table_name(&[], "1"), None);
}

#[test]
fn listed_numbers_choose_listed_tables() {
    let names = ["a", "b", "c", "d", "e", "f", "g", "h", "i", "j", "k", "l"];
    for (index, name) in names.iter().enumerate() {
        let number = decimal_string(index + 1);
        assert_eq!(resolve_table_name(&names, &number), Some(name.to_string()));
    }
}

#[test]
fn numbers_win_over_names() {
    let names = ["2", "x"];
    assert_eq!(resolve_table_name(&names, "2"), Some("x".to_string()));
}

#[test]
fn tables_screen_lists_every_table() {
    let database = seeded();
    let mut expected = lines(&[
        "----------------------------------------",
        "Tables in `app`:",
        "----------------------------------------",
        "1. orders | rows: 1 | fields: amount, number, status",
        "2. users | rows: 2 | fields: email, name, role",
        "",
    ]);
    expected.extend(options_none());
    assert_eq!(Printer::tables(&database, None), expected);
}

#[test]
fn tables_screen_for_empty_database() {
    let database = Database::new("empty", 4, false, 1);
    let mut expected = lines(&[
        "----------------------------------------",
        "Tables in `empty`:",
        "----------------------------------------",
        "No tables created yet.",
        "",
    ]);
    expected.extend(options_for("t"));
    assert_eq!(Printer::tables(&database, Some("t")), expected);
}

#[test]
fn fields_screen_counts_fields_and_rows() {
    let database = seeded();
    let users = database.get_table("users").unwrap();
    let expected = lines(&[
        "----------------------------------------",
        "Fields in table `users`:",
        "----------------------------------------",
        "1. email",
        "2. name",
        "3. role",
        "",
        "Total fields: 3",
        "Rows in table: 2",
        "",
    ]);
    assert_eq!(Printer::fields("users", users), expected);
}

#[test]
fn fields_screen_for_table_without_fields() {
    let mut database = Database::new("app", 4, false, 1);
    database.create_table("blank".to_string()).unwrap();
    let expected = lines(&[
        "----------------------------------------",
        "Fields in table `blank`:",
        "----------------------------------------",
        "No fields found. Add rows or values to define schema.",
        "",
    ]);
    assert_eq!(
        Printer::fields("blank", database.get_table("blank").unwrap()),
        expected
    );
}

#[test]
fn help_and_simple_screens() {
    let mut expected = lines(&[
        "Available commands:",
        "  help            - show commands",
        "  tables          - print all tables",
        "  fields <table>  - print fields for table",
        "  use <table>     - select table for quick access",
        "  back            - clear selected table",
        "  exit | .exit    - close console",
        "  1..5            - run menu actions by number",
        "",
    ]);
    expected.extend(options_none());
    assert_eq!(Printer::help(None), expected);
    assert_eq!(
        Printer::welcome("app"),
        lines(&[
            "========================================",
            " Simple DB Console",
            " Database: app",
            "========================================",
            "Use menu numbers or type commands manually.",
            "",
        ])
    );
    assert_eq!(
        Printer::selected_table("users"),
        lines(&[
            "Selected table: users",
            "Tip: now you can call `fields` without a table name.",
            "",
        ])
    );
    assert_eq!(
        Printer::table_not_found("nope"),
        lines(&["Table `nope` not found.", "Use `tables` to inspect available names.", ""])
    );
    assert_eq!(
        Printer::invalid_table_selection("9"),
        lines(&[
            "Invalid table selection: `9`",
            "Choose a number from the list or enter `0` to cancel.",
            "",
        ])
    );
    assert_eq!(
        Printer::unknown_command("drop"),
        lines(&["Unknown command: `drop`", "Use `help` to inspect supported commands.", ""])
    );
    assert_eq!(Printer::exit(), lines(&["Console stopped."]));
}

#[test]
fn error_screens_name_the_error() {
    assert_eq!(
        Printer::error(&DatabaseError::NotFound),
        lines(&["Operation failed: NotFound", ""])
    );
    assert_eq!(
        Printer::error(&DatabaseError::DatabaseConfigError),
        lines(&["Operation failed: DatabaseConfigError", ""])
    );
    assert_eq!(
        Printer::error(&DatabaseError::NoConnection),
        lines(&["Operation failed: NoConnection", ""])
    );
    assert_eq!(
        Printer::error(&DatabaseError::InvalidData),
        lines(&["Operation failed: InvalidData", ""])
    );
}

#[test]
fn selector_lists_tables_with_numbers() {
    let database = seeded();
    let expected = lines(&[
        "----------------------------------------",
        "Select a table to make it current:",
        "----------------------------------------",
        "  1. orders",
        "  2. users",
        "  0. Cancel",
        "",
        "Enter a table number.",
        "",
    ]);
    assert_eq!(
        show_table_selector(&database, TableSelectionAction::UseTable, None),
        expected
    );
    let empty = Database::new("app", 4, false, 1);
    let mut expected_empty = lines(&[
        "----------------------------------------",
        "Select a table to print its fields:",
        "----------------------------------------",
        "No tables available.",
        "",
    ]);
    expected_empty.extend(options_none());
    assert_eq!(
        show_table_selector(&empty, TableSelectionAction::ShowFields, None),
        expected_empty
    );
}

#[test]
fn selection_can_be_cancelled() {
    let database = seeded();
    for input in ["0", "back", "cancel"] {
        let mut current = Some("users".to_string());
        let screen = handle_table_selection(
            &database,
            input,
            TableSelectionAction::UseTable,
            &mut current,
        );
        assert_eq!(screen, options_for("users"));
        assert_eq!(current, Some("users".to_string()));
    }
}

#[test]
fn selection_by_number_makes_table_current() {
    let database = seeded();
    let mut current = None;
    let screen =
        handle_table_selection(&database, "2", TableSelectionAction::UseTable, &mut current);
    assert_eq!(current, Some("users".to_string()));
    let mut expected = Printer::selected_table("users");
    expected.extend(Printer::fields("users", database.get_table("users").unwrap()));
    expected.extend(options_for("users"));
    assert_eq!(screen, expected);
}

#[test]
fn selection_for_fields_keeps_current_table() {
    let database = seeded();
    let mut current = None;
    let screen =
        handle_table_selection(&database, "orders", TableSelectionAction::ShowFields, &mut current);
    assert_eq!(current, None);
    let mut expected = Printer::fields("orders", database.get_table("orders").unwrap());
    expected.extend(options_none());
    assert_eq!(screen, expected);
}

#[test]
fn invalid_selection_shows_the_list_again() {
    let database = seeded();
    let mut current = None;
    let screen =
        handle_table_selection(&database, "7", TableSelectionAction::ShowFields, &mut current);
    let mut expected = Printer::invalid_table_selection("7");
    expected.extend(show_table_selector(&database, TableSelectionAction::ShowFields, None));
    assert_eq!(screen, expected);
    assert_eq!(current, None);
}

#[test]
fn console_session() {
    let database = seeded();
    let mut console = Console::new();
    assert_eq!(console.prompt(&database), "app> ");

    assert!(matches!(console.step(&database, "   \n"), Reply::Ignore));

    let (screen, exit) = shown(console.step(&database, "use users\n"));
    assert!(!exit);
    assert_eq!(screen[0], "Selected table: users");
    assert_eq!(console.prompt(&database), "app[users]> ");

    let (screen, _) = shown(console.step(&database, "fields\n"));
    let mut expected = Printer::fields("users", database.get_table("users").unwrap());
    expected.extend(options_for("users"));
    assert_eq!(screen, expected);

    let (screen, _) = shown(console.step(&database, "back\n"));
    assert_eq!(screen, options_none());
    assert_eq!(console.prompt(&database), "app> ");

    let (screen, _) = shown(console.step(&database, "2\n"));
    assert_eq!(screen, show_table_selector(&database, TableSelectionAction::ShowFields, None));
    assert_eq!(console.prompt(&database), "app[select-table]> ");

    assert!(matches!(console.step(&database, "\n"), Reply::Ignore));
    assert_eq!(console.prompt(&database), "app[select-table]> ");

    let (screen, _) = shown(console.step(&database, " 1 \n"));
    let mut expected = Printer::fields("orders", database.get_table("orders").unwrap());
    expected.extend(options_none());
    assert_eq!(screen, expected);
    assert_eq!(console.prompt(&database), "app> ");

    let (screen, _) = shown(console.step(&database, "use nope\n"));
    let mut expected = Printer::table_not_found("nope");
    expected.extend(options_none());
    assert_eq!(screen, expected);

    let (screen, _) = shown(console.step(&database, "whatever\n"));
    let mut expected = Printer::unknown_command("whatever");
    expected.extend(options_none());
    assert_eq!(screen, expected);

    let (screen, exit) = shown(console.step(&database, "EXIT\n"));
    assert!(exit);
    assert_eq!(screen, lines(&["Console stopped."]));
}

#[test]
fn console_use_by_list_and_menu_back() {
    let database = seeded();
    let mut console = Console::new();
    let (screen, _) = shown(console.step(&database, "3"));
    assert_eq!(screen, show_table_selector(&database, TableSelectionAction::UseTable, None));
    let (_, _) = shown(console.step(&database, "orders"));
    assert_eq!(console.prompt(&database), "app[orders]> ");
    let (screen, _) = shown(console.step(&database, "1"));
    let mut expected = Printer::fields("orders", database.get_table("orders").unwrap());
    expected.extend(options_for("orders"));
    assert_eq!(screen, expected);
    let (screen, _) = shown(console.step(&database, "4"));
    assert_eq!(screen, options_none());
    let (screen, exit) = shown(console.step(&database, "5"));
    assert!(exit);
    assert_eq!(screen, Printer::exit());
}

#[test]
fn console_help_and_tables_commands() {
    let database = seeded();
    let mut console = Console::new();
    let (screen, _) = shown(console.step(&database, "help"));
    assert_eq!(screen, Printer::help(None));
    let (screen, _) = shown(console.step(&database, "1"));
    assert_eq!(screen, Printer::tables(&database, None));
    let (screen, _) = shown(console.step(&database, "fields missing"));
    let mut expected = Printer::table_not_found("missing");
    expected.extend(options_none());
    assert_eq!(screen, expected);
}

fn label(command: &Command, has_table: bool) -> &'static str {
    match command {
        Command::Tables => "Show all tables",
        Command::Fields(_) if has_table => "Show fields of current table",
        Command::Fields(_) => "Show fields of a table",
        Command::Use(_) if has_table => "Select another table",
        Command::Use(_) => "Select a table",
        Command::Back => "Back",
        Command::Help => "Help",
        Command::Exit => "Exit",
        _ => "",
    }
}

#[test]
fn menu_labels_match_menu_commands() {
    for current in [None, Some("users")] {
        let screen = Printer::options(current);
        assert_eq!(screen[0], "Menu:");
        for k in 1..=5usize {
            let number = decimal_string(k);
            let command = parse_menu_command(&number, current).expect("menu number");
            assert_eq!(
                screen[k],
                format!("  {k}. {}", label(&command, current.is_some()))
            );
        }
        assert_eq!(screen.last().unwrap(), "");
    }
    assert_eq!(Printer::options(Some("users"))[6], "Current table: users");
}
