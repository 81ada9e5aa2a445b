use vstd::prelude::*;

use crate::database::{Database, DatabaseModel, TableModel};
use crate::error::{error_name, DatabaseError};
use crate::table::{fields_of_rows, Table};
use crate::text::{
    decimal, decimal_string, join, join_from, lemma_sorted_texts_of_finite, sorted_texts,
};

verus! {

// ---------------------------------------------------------------------------
// The screens, as sequences of lines
// ---------------------------------------------------------------------------

/// The texts of a sequence of strings.
pub open spec fn texts(v: Seq<String>) -> Seq<Seq<char>> {
    v.map_values(|s: String| s@)
}

/// The texts of a sequence of string slices.
pub open spec fn str_texts(v: Seq<&str>) -> Seq<Seq<char>> {
    v.map_values(|s: &str| s@)
}

/// The text of an optional string slice.
pub open spec fn opt_text(o: Option<&str>) -> Option<Seq<char>> {
    match o {
        Some(t) => Some(t@),
        None => None,
    }
}

/// The line that frames a listing.
pub open spec fn rule_line() -> Seq<char> {
    "----------------------------------------"@
}

/// The prompt: the database name, then the current table in brackets.
pub open spec fn prompt_text(database_name: Seq<char>, current_table: Option<Seq<char>>) -> Seq<
    char,
> {
    match current_table {
        Some(t) => database_name + "["@ + t + "]> "@,
        None => database_name + "> "@,
    }
}

/// The prompt while a table is being chosen from a list.
pub open spec fn selection_prompt_text(database_name: Seq<char>) -> Seq<char> {
    database_name + "[select-table]> "@
}

/// The greeting.
pub open spec fn welcome_screen(database_name: Seq<char>) -> Seq<Seq<char>> {
    seq![
        "========================================"@,
        " Simple DB Console"@,
        " Database: "@ + database_name,
        "========================================"@,
        "Use menu numbers or type commands manually."@,
        Seq::empty(),
    ]
}

/// The menu, which depends on whether a table is current.
pub open spec fn options_screen(current_table: Option<Seq<char>>) -> Seq<Seq<char>> {
    match current_table {
        Some(t) => seq![
            "Menu:"@,
            "  1. Show fields of current table"@,
            "  2. Show all tables"@,
            "  3. Select another table"@,
            "  4. Back"@,
            "  5. Exit"@,
            "Current table: "@ + t,
            "Commands: fields | tables | use <table> | back | exit"@,
            Seq::empty(),
        ],
        None => seq![
            "Menu:"@,
            "  1. Show all tables"@,
            "  2. Show fields of a table"@,
            "  3. Select a table"@,
            "  4. Help"@,
            "  5. Exit"@,
            "Commands: tables | fields <table> | use <table> | help | exit"@,
            Seq::empty(),
        ],
    }
}

/// The list of commands, then the menu.
pub open spec fn help_screen(current_table: Option<Seq<char>>) -> Seq<Seq<char>> {
    seq![
        "Available commands:"@,
        "  help            - show commands"@,
        "  tables          - print all tables"@,
        "  fields <table>  - print fields for table"@,
        "  use <table>     - select table for quick access"@,
        "  back            - clear selected table"@,
        "  exit | .exit    - close console"@,
        "  1..5            - run menu actions by number"@,
        Seq::empty(),
    ] + options_screen(current_table)
}

/// The items numbered from 1, each line starting with `indent`.
pub open spec fn numbered(items: Seq<Seq<char>>, indent: Seq<char>) -> Seq<Seq<char>> {
    Seq::new(items.len(), |i: int| indent + decimal((i + 1) as nat) + ". "@ + items[i])
}

/// The fields of a table joined by commas, or a note that it has none.
pub open spec fn field_summary(table: TableModel) -> Seq<char> {
    let fields = sorted_texts(fields_of_rows(table));
    if fields.len() == 0 {
        "no fields yet"@
    } else {
        join(fields, ", "@)
    }
}

/// The line that describes one table in the listing of all tables.
pub open spec fn table_line(index: int, name: Seq<char>, table: TableModel) -> Seq<char> {
    decimal((index + 1) as nat) + ". "@ + name + " | rows: "@ + decimal(table.len()) + " | fields: "@
        + field_summary(table)
}

/// The listing of all tables, then the menu.
pub open spec fn tables_screen(db: DatabaseModel, current_table: Option<Seq<char>>) -> Seq<
    Seq<char>,
> {
    let names = sorted_texts(db.tables.dom());
    let head = seq![rule_line(), "Tables in `"@ + db.name + "`:"@, rule_line()];
    if names.len() == 0 {
        head + seq!["No tables created yet."@, Seq::empty()] + options_screen(current_table)
    } else {
        head + Seq::new(names.len(), |i: int| table_line(i, names[i], db.tables[names[i]]))
            + seq![Seq::empty()] + options_screen(current_table)
    }
}

/// The listing of the fields of a table.
pub open spec fn fields_screen(table_name: Seq<char>, table: TableModel) -> Seq<Seq<char>> {
    let fields = sorted_texts(fields_of_rows(table));
    let head = seq![rule_line(), "Fields in table `"@ + table_name + "`:"@, rule_line()];
    if fields.len() == 0 {
        head + seq!["No fields found. Add rows or values to define schema."@, Seq::empty()]
    } else {
        head + numbered(fields, Seq::empty()) + seq![
            Seq::empty(),
            "Total fields: "@ + decimal(fields.len()),
            "Rows in table: "@ + decimal(table.len()),
            Seq::empty(),
        ]
    }
}

/// The note that a table became current.
pub open spec fn selected_table_screen(table_name: Seq<char>) -> Seq<Seq<char>> {
    seq![
        "Selected table: "@ + table_name,
        "Tip: now you can call `fields` without a table name."@,
        Seq::empty(),
    ]
}

/// The note that no table has the name.
pub open spec fn table_not_found_screen(table_name: Seq<char>) -> Seq<Seq<char>> {
    seq![
        "Table `"@ + table_name + "` not found."@,
        "Use `tables` to inspect available names."@,
        Seq::empty(),
    ]
}

/// The numbered list of tables to choose from; the menu where there is none.
pub open spec fn table_selector_screen(
    title: Seq<char>,
    table_names: Seq<Seq<char>>,
    current_table: Option<Seq<char>>,
) -> Seq<Seq<char>> {
    let head = seq![rule_line(), title, rule_line()];
    if table_names.len() == 0 {
        head + seq!["No tables available."@, Seq::empty()] + options_screen(current_table)
    } else {
        head + numbered(table_names, "  "@) + seq![
            "  0. Cancel"@,
            Seq::empty(),
            "Enter a table number."@,
            Seq::empty(),
        ]
    }
}

/// The note that a choice from the list was not understood.
pub open spec fn invalid_table_selection_screen(input: Seq<char>) -> Seq<Seq<char>> {
    seq![
        "Invalid table selection: `"@ + input + "`"@,
        "Choose a number from the list or enter `0` to cancel."@,
        Seq::empty(),
    ]
}

/// The note that a command was not understood.
pub open spec fn unknown_command_screen(input: Seq<char>) -> Seq<Seq<char>> {
    seq![
        "Unknown command: `"@ + input + "`"@,
        "Use `help` to inspect supported commands."@,
        Seq::empty(),
    ]
}

/// The report of a failed operation.
pub open spec fn error_screen(error: DatabaseError) -> Seq<Seq<char>> {
    seq!["Operation failed: "@ + error_name(error), Seq::empty()]
}

/// The farewell.
pub open spec fn exit_screen() -> Seq<Seq<char>> {
    seq!["Console stopped."@]
}

/// Line `k` of a list under a three-line heading names `item` under number `k + 1`.
pub open spec fn field_listed_at(screen: Seq<Seq<char>>, k: int, item: Seq<char>) -> bool {
    list_line(screen, k) == decimal((k + 1) as nat) + ". "@ + item
}

/// The text after the number on line `k` of a list under a three-line heading.
pub open spec fn listed_item(screen: Seq<Seq<char>>, k: int) -> Seq<char> {
    list_line(screen, k).skip(decimal((k + 1) as nat).len() + 2int)
}

/// Line `k` of a list under a three-line heading.
pub open spec fn list_line(screen: Seq<Seq<char>>, k: int) -> Seq<char> {
    screen[3 + k]
}

/// The fields screen lists every field that any row of the table has, each
/// under its number and each only if some row has it, then counts them and
/// the rows; a table whose rows have no fields gets the note instead.
pub proof fn law_fields_screen_lists_every_field(table_name: Seq<char>, table: &Table)
    requires
        table.wf(),
    ensures
        fields_screen(table_name, table@)[1] == "Fields in table `"@ + table_name + "`:"@,
        forall|r: int, f: Seq<char>|
            0 <= r < table@.len() && #[trigger] table@[r].contains_key(f) ==> exists|k: int|
                0 <= k < fields_of_rows(table@).len() && #[trigger] field_listed_at(
                    fields_screen(table_name, table@),
                    k,
                    f,
                ),
        fields_of_rows(table@).len() == 0 ==> fields_screen(table_name, table@).len() == 5
            && fields_screen(table_name, table@)[3]
            == "No fields found. Add rows or values to define schema."@,
        fields_of_rows(table@).len() > 0 ==> fields_screen(table_name, table@).len()
            == fields_of_rows(table@).len() + 7,
        forall|k: int|
            0 <= k < fields_of_rows(table@).len() ==> {
                let item = #[trigger] listed_item(fields_screen(table_name, table@), k);
                &&& field_listed_at(fields_screen(table_name, table@), k, item)
                &&& exists|r: int| 0 <= r < table@.len() && #[trigger] table@[r].contains_key(item)
            },
        fields_of_rows(table@).len() > 0 ==> fields_screen(table_name, table@)[fields_of_rows(
            table@,
        ).len() + 4int] == "Total fields: "@ + decimal(fields_of_rows(table@).len()),
        fields_of_rows(table@).len() > 0 ==> fields_screen(table_name, table@)[fields_of_rows(
            table@,
        ).len() + 5int] == "Rows in table: "@ + decimal(table@.len()),
{
    let fields = fields_of_rows(table@);
    let screen = fields_screen(table_name, table@);
    table.lemma_fields_of_table_finite();
    lemma_sorted_texts_of_finite(fields);
    let sorted = sorted_texts(fields);
    let head = seq![rule_line(), "Fields in table `"@ + table_name + "`:"@, rule_line()];
    assert forall|r: int, f: Seq<char>|
        0 <= r < table@.len() && #[trigger] table@[r].contains_key(f) implies exists|k: int|
        0 <= k < fields.len() && #[trigger] field_listed_at(screen, k, f) by {
        assert(fields.contains(f));
        assert(sorted.to_set().contains(f));
        let k = choose|k: int| 0 <= k < sorted.len() && sorted[k] == f;
        assert(screen[3 + k] == numbered(sorted, Seq::empty())[k]);
        assert(Seq::<char>::empty() + decimal((k + 1) as nat) =~= decimal((k + 1) as nat));
        assert(field_listed_at(screen, k, f));
    }
    assert(sorted.len() == fields.len());
    assert(screen[1] == "Fields in table `"@ + table_name + "`:"@);
    if fields.len() == 0 {
        assert(screen.len() == 5);
        assert(screen[3] == "No fields found. Add rows or values to define schema."@);
    }
    if fields.len() > 0 {
        let n = fields.len() as int;
        assert(numbered(sorted, Seq::empty()).len() == n);
        assert(screen.len() == n + 7);
        assert(screen[n + 4] == "Total fields: "@ + decimal(fields.len()));
        assert(screen[n + 5] == "Rows in table: "@ + decimal(table@.len()));
    }
    assert forall|k: int| 0 <= k < fields_of_rows(table@).len() implies {
        let item = #[trigger] listed_item(fields_screen(table_name, table@), k);
        &&& field_listed_at(fields_screen(table_name, table@), k, item)
        &&& exists|r: int| 0 <= r < table@.len() && #[trigger] table@[r].contains_key(item)
    } by {
        reveal_strlit(". ");
        let f = sorted[k];
        assert(sorted.to_set().contains(f));
        assert(fields.contains(f));
        let r = choose|r: int| 0 <= r < table@.len() && #[trigger] table@[r].contains_key(f);
        assert(screen[3 + k] == numbered(sorted, Seq::empty())[k]);
        assert(Seq::<char>::empty() + decimal((k + 1) as nat) =~= decimal((k + 1) as nat));
        assert(field_listed_at(screen, k, f));
        assert(listed_item(screen, k) =~= f);
        assert(table@[r].contains_key(listed_item(screen, k)));
    }
}

// ---------------------------------------------------------------------------
// Building lines
// ---------------------------------------------------------------------------

/// Appends a line.
pub fn push_line(lines: &mut Vec<String>, line: String)
    ensures
        texts(final(lines)@) == texts(old(lines)@).push(line@),
{
    lines.push(line);
    assert(texts(lines@) =~= texts(old(lines)@).push(line@));
}

/// Appends a copy of a text as a line.
pub fn push_text(lines: &mut Vec<String>, line: &str)
    ensures
        texts(final(lines)@) == texts(old(lines)@).push(line@),
{
    push_line(lines, String::from_str(line));
}

/// Appends an empty line.
pub fn push_blank(lines: &mut Vec<String>)
    ensures
        texts(final(lines)@) == texts(old(lines)@).push(Seq::empty()),
{
    push_line(lines, String::new());
}

/// Appends lines.
pub fn push_all(lines: &mut Vec<String>, more: Vec<String>)
    ensures
        texts(final(lines)@) == texts(old(lines)@) + texts(more@),
{
    let mut more = more;
    let ghost added = more@;
    lines.append(&mut more);
    assert(texts(lines@) =~= texts(old(lines)@) + texts(added));
}

/// Two texts, one after the other.
pub fn concat2(a: &str, b: &str) -> (r: String)
    ensures
        r@ == a@ + b@,
{
    let mut r = String::from_str(a);
    r.append(b);
    r
}

/// Three texts, one after the other.
pub fn concat3(a: &str, b: &str, c: &str) -> (r: String)
    ensures
        r@ == a@ + b@ + c@,
{
    let mut r = String::from_str(a);
    r.append(b);
    r.append(c);
    r
}

/// Appends the items numbered from 1, each line starting with `indent`.
pub fn push_numbered(lines: &mut Vec<String>, items: &Vec<&str>, indent: &str)
    ensures
        texts(final(lines)@) == texts(old(lines)@) + numbered(str_texts(items@), indent@),
{
    let ghost start = texts(lines@);
    let n = items.len();
    for i in 0..n
        invariant
            n == items@.len(),
            texts(lines@) == start + numbered(str_texts(items@), indent@).take(i as int),
    {
        let number = decimal_string(i + 1);
        let mut line = String::from_str(indent);
        line.append(number.as_str());
        line.append(". ");
        line.append(items[i]);
        push_line(lines, line);
        assert(numbered(str_texts(items@), indent@).take(i + 1) =~= numbered(
            str_texts(items@),
            indent@,
        ).take(i as int).push(line@));
    }
    assert(numbered(str_texts(items@), indent@).take(n as int) =~= numbered(
        str_texts(items@),
        indent@,
    ));
}

/// Slices of the given strings.
pub fn as_strs(v: &Vec<String>) -> (r: Vec<&str>)
    ensures
        str_texts(r@) == texts(v@),
{
    let mut r: Vec<&str> = Vec::new();
    let n = v.len();
    for i in 0..n
        invariant
            n == v@.len(),
            r@.len() == i,
            str_texts(r@) == texts(v@).take(i as int),
    {
        let ghost before = r@;
        let item: &String = &v[i];
        let text: &str = item.as_str();
        r.push(text);
        assert(r@[i as int]@ == v@[i as int]@);
        assert(str_texts(r@) =~= texts(v@).take(i + 1)) by {
            assert(str_texts(before) =~= texts(v@).take(i as int));
        }
    }
    assert(texts(v@).take(n as int) =~= texts(v@));
    r
}

// ---------------------------------------------------------------------------
// The printer
// ---------------------------------------------------------------------------

/// What the console shows, as text.
pub struct Printer;

impl Printer {
    /// The prompt for a command.
    pub fn prompt(database_name: &str, current_table: Option<&str>) -> (r: String)
        ensures
            r@ == prompt_text(database_name@, opt_text(current_table)),
    {
        match current_table {
            Some(table_name) => {
                let mut r = concat3(database_name, "[", table_name);
                r.append("]> ");
                r
            },
            None => {
                let mut r = String::from_str(database_name);
                r.append("> ");
                r
            },
        }
    }

    /// The prompt while a table is being chosen.
    pub fn selection_prompt(database_name: &str) -> (r: String)
        ensures
            r@ == selection_prompt_text(database_name@),
    {
        let mut r = String::from_str(database_name);
        r.append("[select-table]> ");
        r
    }

    /// The greeting.
    pub fn welcome(database_name: &str) -> (r: Vec<String>)
        ensures
            texts(r@) == welcome_screen(database_name@),
    {
        let mut r: Vec<String> = Vec::new();
        push_text(&mut r, "========================================");
        push_text(&mut r, " Simple DB Console");
        push_line(&mut r, concat2(" Database: ", database_name));
        push_text(&mut r, "========================================");
        push_text(&mut r, "Use menu numbers or type commands manually.");
        push_blank(&mut r);
        assert(texts(r@) =~= welcome_screen(database_name@));
        r
    }

    /// The menu.
    pub fn options(current_table: Option<&str>) -> (r: Vec<String>)
        ensures
            texts(r@) == options_screen(opt_text(current_table)),
    {
        let mut r: Vec<String> = Vec::new();
        match current_table {
            Some(table_name) => {
                push_text(&mut r, "Menu:");
                push_text(&mut r, "  1. Show fields of current table");
                push_text(&mut r, "  2. Show all tables");
                push_text(&mut r, "  3. Select another table");
                push_text(&mut r, "  4. Back");
                push_text(&mut r, "  5. Exit");
                push_line(&mut r, concat2("Current table: ", table_name));
                push_text(&mut r, "Commands: fields | tables | use <table> | back | exit");
            },
            None => {
                push_text(&mut r, "Menu:");
                push_text(&mut r, "  1. Show all tables");
                push_text(&mut r, "  2. Show fields of a table");
                push_text(&mut r, "  3. Select a table");
                push_text(&mut r, "  4. Help");
                push_text(&mut r, "  5. Exit");
                push_text(&mut r, "Commands: tables | fields <table> | use <table> | help | exit");
            },
        }
        push_blank(&mut r);
        assert(texts(r@) =~= options_screen(opt_text(current_table)));
        r
    }

    /// The list of commands, then the menu.
    pub fn help(current_table: Option<&str>) -> (r: Vec<String>)
        ensures
            texts(r@) == help_screen(opt_text(current_table)),
    {
        let mut r: Vec<String> = Vec::new();
        push_text(&mut r, "Available commands:");
        push_text(&mut r, "  help            - show commands");
        push_text(&mut r, "  tables          - print all tables");
        push_text(&mut r, "  fields <table>  - print fields for table");
        push_text(&mut r, "  use <table>     - select table for quick access");
        push_text(&mut r, "  back            - clear selected table");
        push_text(&mut r, "  exit | .exit    - close console");
        push_text(&mut r, "  1..5            - run menu actions by number");
        push_blank(&mut r);
        push_all(&mut r, Self::options(current_table));
        assert(texts(r@) =~= help_screen(opt_text(current_table)));
        r
    }

    /// The listing of all tables with their row counts and fields, then the menu.
    pub fn tables(database: &Database, current_table: Option<&str>) -> (r: Vec<String>)
        requires
            database.wf(),
        ensures
            texts(r@) == tables_screen(database@, opt_text(current_table)),
    {
        let table_names = database.table_names();
        let ghost names = str_texts(table_names@);
        let mut r: Vec<String> = Vec::new();
        push_text(&mut r, "----------------------------------------");
        push_line(&mut r, concat3("Tables in `", database.name(), "`:"));
        push_text(&mut r, "----------------------------------------");
        let ghost head = texts(r@);
        if table_names.len() == 0 {
            push_text(&mut r, "No tables created yet.");
            push_blank(&mut r);
            push_all(&mut r, Self::options(current_table));
            assert(texts(r@) =~= tables_screen(database@, opt_text(current_table)));
            return r;
        }
        let n = table_names.len();
        for index in 0..n
            invariant
                n == table_names@.len(),
                database.wf(),
                names == str_texts(table_names@),
                names == sorted_texts(database@.tables.dom()),
                names.to_set() == database@.tables.dom(),
                texts(r@) == head + Seq::new(
                    index as nat,
                    |i: int| table_line(i, names[i], database@.tables[names[i]]),
                ),
        {
            let table_name = table_names[index];
            assert(names[index as int] == table_name@);
            assert(database@.tables.dom().contains(table_name@)) by {
                assert(names.to_set().contains(names[index as int]));
            }
            match database.get_table(table_name) {
                Some(table) => {
                    let field_names = table.field_names();
                    let field_summary = if field_names.len() == 0 {
                        String::from_str("no fields yet")
                    } else {
                        let refs = as_strs(&field_names);
                        proof {
                            assert(str_texts(refs@).skip(0) =~= texts(field_names@));
                        }
                        join_from(&refs, 0, ", ")
                    };
                    let number = decimal_string(index + 1);
                    let rows = decimal_string(table.row_count());
                    let mut line = concat3(number.as_str(), ". ", table_name);
                    line.append(" | rows: ");
                    line.append(rows.as_str());
                    line.append(" | fields: ");
                    line.append(field_summary.as_str());
                    push_line(&mut r, line);
                    assert(line@ == table_line(
                        index as int,
                        names[index as int],
                        database@.tables[names[index as int]],
                    ));
                },
                None => {},
            }
            assert(Seq::new(
                (index + 1) as nat,
                |i: int| table_line(i, names[i], database@.tables[names[i]]),
            ) =~= Seq::new(
                index as nat,
                |i: int| table_line(i, names[i], database@.tables[names[i]]),
            ).push(table_line(index as int, names[index as int], database@.tables[names[index as int]])));
        }
        push_blank(&mut r);
        push_all(&mut r, Self::options(current_table));
        assert(texts(r@) =~= tables_screen(database@, opt_text(current_table)));
        r
    }

    /// The listing of the fields of a table, with the counts of fields and rows.
    pub fn fields(table_name: &str, table: &Table) -> (r: Vec<String>)
        requires
            table.wf(),
        ensures
            texts(r@) == fields_screen(table_name@, table@),
    {
        let field_names = table.field_names();
        let mut r: Vec<String> = Vec::new();
        push_text(&mut r, "----------------------------------------");
        push_line(&mut r, concat3("Fields in table `", table_name, "`:"));
        push_text(&mut r, "----------------------------------------");
        if field_names.len() == 0 {
            push_text(&mut r, "No fields found. Add rows or values to define schema.");
            push_blank(&mut r);
            assert(texts(r@) =~= fields_screen(table_name@, table@));
            return r;
        }
        let refs = as_strs(&field_names);
        push_numbered(&mut r, &refs, "");
        proof {
            reveal_strlit("");
            assert(""@ =~= Seq::<char>::empty());
        }
        push_blank(&mut r);
        let total = decimal_string(field_names.len());
        push_line(&mut r, concat2("Total fields: ", total.as_str()));
        let rows = decimal_string(table.row_count());
        push_line(&mut r, concat2("Rows in table: ", rows.as_str()));
        push_blank(&mut r);
        assert(texts(r@) =~= fields_screen(table_name@, table@));
        r
    }

    /// The note that a table became current.
    pub fn selected_table(table_name: &str) -> (r: Vec<String>)
        ensures
            texts(r@) == selected_table_screen(table_name@),
    {
        let mut r: Vec<String> = Vec::new();
        push_line(&mut r, concat2("Selected table: ", table_name));
        push_text(&mut r, "Tip: now you can call `fields` without a table name.");
        push_blank(&mut r);
        assert(texts(r@) =~= selected_table_screen(table_name@));
        r
    }

    /// The note that no table has the name.
    pub fn table_not_found(table_name: &str) -> (r: Vec<String>)
        ensures
            texts(r@) == table_not_found_screen(table_name@),
    {
        let mut r: Vec<String> = Vec::new();
        push_line(&mut r, concat3("Table `", table_name, "` not found."));
        push_text(&mut r, "Use `tables` to inspect available names.");
        push_blank(&mut r);
        assert(texts(r@) =~= table_not_found_screen(table_name@));
        r
    }

    /// The numbered list of tables to choose from.
    pub fn table_selector(title: &str, table_names: &Vec<&str>, current_table: Option<&str>) -> (r:
        Vec<String>)
        ensures
            texts(r@) == table_selector_screen(
                title@,
                str_texts(table_names@),
                opt_text(current_table),
            ),
    {
        let mut r: Vec<String> = Vec::new();
        push_text(&mut r, "----------------------------------------");
        push_text(&mut r, title);
        push_text(&mut r, "----------------------------------------");
        if table_names.len() == 0 {
            push_text(&mut r, "No tables available.");
            push_blank(&mut r);
            push_all(&mut r, Self::options(current_table));
            assert(texts(r@) =~= table_selector_screen(
                title@,
                str_texts(table_names@),
                opt_text(current_table),
            ));
            return r;
        }
        push_numbered(&mut r, table_names, "  ");
        push_text(&mut r, "  0. Cancel");
        push_blank(&mut r);
        push_text(&mut r, "Enter a table number.");
        push_blank(&mut r);
        assert(texts(r@) =~= table_selector_screen(
            title@,
            str_texts(table_names@),
            opt_text(current_table),
        ));
        r
    }

    /// The note that a choice from the list was not understood.
    pub fn invalid_table_selection(input: &str) -> (r: Vec<String>)
        ensures
            texts(r@) == invalid_table_selection_screen(input@),
    {
        let mut r: Vec<String> = Vec::new();
        push_line(&mut r, concat3("Invalid table selection: `", input, "`"));
        push_text(&mut r, "Choose a number from the list or enter `0` to cancel.");
        push_blank(&mut r);
        assert(texts(r@) =~= invalid_table_selection_screen(input@));
        r
    }

    /// The note that a command was not understood.
    pub fn unknown_command(input: &str) -> (r: Vec<String>)
        ensures
            texts(r@) == unknown_command_screen(input@),
    {
        let mut r: Vec<String> = Vec::new();
        push_line(&mut r, concat3("Unknown command: `", input, "`"));
        push_text(&mut r, "Use `help` to inspect supported commands.");
        push_blank(&mut r);
        assert(texts(r@) =~= unknown_command_screen(input@));
        r
    }

    /// The report of a failed operation.
    pub fn error(error: &DatabaseError) -> (r: Vec<String>)
        ensures
            texts(r@) == error_screen(*error),
    {
        let mut r: Vec<String> = Vec::new();
        push_line(&mut r, concat2("Operation failed: ", error.name()));
        push_blank(&mut r);
        assert(texts(r@) =~= error_screen(*error));
        r
    }

    /// The farewell.
    pub fn exit() -> (r: Vec<String>)
        ensures
            texts(r@) == exit_screen(),
    {
        let mut r: Vec<String> = Vec::new();
        push_text(&mut r, "Console stopped.");
        assert(texts(r@) =~= exit_screen());
        r
    }
}

} // verus!
