use vstd::prelude::*;

use serde_json::Value;

use crate::database::{lemma_sorted_table_names, Database, DatabaseModel, TableModel};
use crate::error::DatabaseError;
use crate::json::{json_integer, json_string, value_from_i32, value_from_text};
use crate::printer::{
    exit_screen, fields_screen, help_screen, invalid_table_selection_screen, opt_text,
    options_screen, prompt_text, push_all, selected_table_screen, selection_prompt_text,
    table_not_found_screen, table_selector_screen, tables_screen, texts, unknown_command_screen,
    Printer,
};
use crate::text::{
    ascii_lower, decimal, is_whitespace, join, join_from, law_parse_reads_decimal,
    law_trim_idempotent, lemma_lowercase_equals_by_codes, lemma_trimmed_clean, lemma_words_pair,
    lowercase_codes, lowercase_eq, lowercase_equals,
    parse_usize, parsed_usize, sorted_texts, split_whitespace, text_eq, trim, trimmed, words,
};

verus! {

// ---------------------------------------------------------------------------
// Commands
// ---------------------------------------------------------------------------

/// A command typed at the console.
#[derive(Debug, PartialEq, Eq)]
pub enum Command {
    Help,
    Tables,
    Fields(Option<String>),
    Use(Option<String>),
    Back,
    Exit,
    Empty,
    Unknown(String),
}

/// A command as a mathematical value.
pub enum CommandModel {
    Help,
    Tables,
    Fields(Option<Seq<char>>),
    Use(Option<Seq<char>>),
    Back,
    Exit,
    Empty,
    Unknown(Seq<char>),
}

/// The text of an optional string.
pub open spec fn opt_string(o: Option<String>) -> Option<Seq<char>> {
    match o {
        Some(s) => Some(s@),
        None => None,
    }
}

impl Command {
    /// The command as a mathematical value.
    pub open spec fn model(&self) -> CommandModel {
        match self {
            Command::Help => CommandModel::Help,
            Command::Tables => CommandModel::Tables,
            Command::Fields(t) => CommandModel::Fields(opt_string(*t)),
            Command::Use(t) => CommandModel::Use(opt_string(*t)),
            Command::Back => CommandModel::Back,
            Command::Exit => CommandModel::Exit,
            Command::Empty => CommandModel::Empty,
            Command::Unknown(s) => CommandModel::Unknown(s@),
        }
    }
}

/// What a table chosen from the list is wanted for.
#[derive(Debug, Clone, Copy, PartialEq, Eq, Structural)]
pub enum TableSelectionAction {
    ShowFields,
    UseTable,
}

/// The command that a menu number stands for, which depends on whether a
/// table is current.
pub open spec fn menu_command(input: Seq<char>, has_table: bool) -> Option<CommandModel> {
    if input == "1"@ {
        Some(
            if has_table {
                CommandModel::Fields(None)
            } else {
                CommandModel::Tables
            },
        )
    } else if input == "2"@ {
        Some(
            if has_table {
                CommandModel::Tables
            } else {
                CommandModel::Fields(None)
            },
        )
    } else if input == "3"@ {
        Some(CommandModel::Use(None))
    } else if input == "4"@ {
        Some(
            if has_table {
                CommandModel::Back
            } else {
                CommandModel::Help
            },
        )
    } else if input == "5"@ {
        Some(CommandModel::Exit)
    } else {
        None
    }
}

/// The first word of the input, or nothing.
pub open spec fn command_word(input: Seq<char>) -> Seq<char> {
    let ws = words(input);
    if ws.len() > 0 {
        ws[0]
    } else {
        Seq::empty()
    }
}

/// The words after the first, joined by single spaces.
pub open spec fn command_argument(input: Seq<char>) -> Seq<char> {
    let ws = words(input);
    if ws.len() > 0 {
        join(ws.drop_first(), " "@)
    } else {
        Seq::empty()
    }
}

/// An argument, where it is not empty.
pub open spec fn optional_argument(a: Seq<char>) -> Option<Seq<char>> {
    if a.len() == 0 {
        None
    } else {
        Some(a)
    }
}

/// The command that the input stands for: nothing for empty input, then a
/// menu number, then a command word in any ASCII case with its argument.
pub open spec fn parsed_command(input: Seq<char>, has_table: bool) -> CommandModel {
    if input.len() == 0 {
        CommandModel::Empty
    } else {
        match menu_command(input, has_table) {
            Some(c) => c,
            None => {
                let w = command_word(input);
                let a = command_argument(input);
                if lowercase_equals(w, "help"@) {
                    CommandModel::Help
                } else if lowercase_equals(w, "tables"@) {
                    CommandModel::Tables
                } else if lowercase_equals(w, "fields"@) {
                    CommandModel::Fields(optional_argument(a))
                } else if lowercase_equals(w, "use"@) {
                    CommandModel::Use(optional_argument(a))
                } else if lowercase_equals(w, "back"@) {
                    CommandModel::Back
                } else if lowercase_equals(w, "exit"@) || lowercase_equals(w, ".exit"@) {
                    CommandModel::Exit
                } else {
                    CommandModel::Unknown(input)
                }
            },
        }
    }
}

/// The command that a menu number stands for, if the input is one.
pub fn parse_menu_command(input: &str, current_table: Option<&str>) -> (r: Option<Command>)
    ensures
        match r {
            Some(c) => menu_command(input@, current_table is Some) == Some(c.model()),
            None => menu_command(input@, current_table is Some) is None,
        },
{
    let has_table = current_table.is_some();
    if text_eq(input, "1") {
        Some(
            if has_table {
                Command::Fields(None)
            } else {
                Command::Tables
            },
        )
    } else if text_eq(input, "2") {
        Some(
            if has_table {
                Command::Tables
            } else {
                Command::Fields(None)
            },
        )
    } else if text_eq(input, "3") {
        Some(Command::Use(None))
    } else if text_eq(input, "4") {
        Some(
            if has_table {
                Command::Back
            } else {
                Command::Help
            },
        )
    } else if text_eq(input, "5") {
        Some(Command::Exit)
    } else {
        None
    }
}

/// The command that the input stands for.
pub fn parse_command(input: &str, current_table: Option<&str>) -> (r: Command)
    ensures
        r.model() == parsed_command(input@, current_table is Some),
{
    if input.unicode_len() == 0 {
        return Command::Empty;
    }
    match parse_menu_command(input, current_table) {
        Some(command) => {
            return command;
        },
        None => {},
    }
    let parts = split_whitespace(input);
    let ghost ws = words(input@);
    let argument = if parts.len() > 0 {
        proof {
            assert(parts@.map_values(|w: &str| w@).skip(1) =~= ws.drop_first());
        }
        join_from(&parts, 1, " ")
    } else {
        String::new()
    };
    let command: &str = if parts.len() > 0 {
        parts[0]
    } else {
        ""
    };
    proof {
        reveal_strlit("");
        if parts.len() > 0 {
            assert(command@ == ws[0]);
        }
        assert(command@ =~= command_word(input@));
        assert(argument@ =~= command_argument(input@));
    }
    let empty_argument = argument.as_str().unicode_len() == 0;
    if lowercase_eq(command, "help") {
        Command::Help
    } else if lowercase_eq(command, "tables") {
        Command::Tables
    } else if lowercase_eq(command, "fields") {
        if empty_argument {
            Command::Fields(None)
        } else {
            Command::Fields(Some(argument))
        }
    } else if lowercase_eq(command, "use") {
        if empty_argument {
            Command::Use(None)
        } else {
            Command::Use(Some(argument))
        }
    } else if lowercase_eq(command, "back") {
        Command::Back
    } else if lowercase_eq(command, "exit") || lowercase_eq(command, ".exit") {
        Command::Exit
    } else {
        Command::Unknown(String::from_str(input))
    }
}

// ---------------------------------------------------------------------------
// Choosing a table from a list
// ---------------------------------------------------------------------------

/// The title of the list of tables to choose from.
pub open spec fn selection_title_text(action: TableSelectionAction) -> Seq<char> {
    match action {
        TableSelectionAction::ShowFields => "Select a table to print its fields:"@,
        TableSelectionAction::UseTable => "Select a table to make it current:"@,
    }
}

/// The title of the list of tables to choose from.
pub fn selection_title(action: TableSelectionAction) -> (r: &'static str)
    ensures
        r@ == selection_title_text(action),
{
    match action {
        TableSelectionAction::ShowFields => "Select a table to print its fields:",
        TableSelectionAction::UseTable => "Select a table to make it current:",
    }
}

/// The table that the input chooses from the list: a number counts from 1
/// into the list, and any other input must be a name in the list.
pub open spec fn resolved_table(table_names: Seq<Seq<char>>, input: Seq<char>) -> Option<
    Seq<char>,
> {
    match parsed_usize(input) {
        Some(n) => if 1 <= n <= table_names.len() {
            Some(table_names[n - 1])
        } else {
            None
        },
        None => if table_names.contains(input) {
            Some(input)
        } else {
            None
        },
    }
}

/// The table that the input chooses from the list, if any.
pub fn resolve_table_name(table_names: &[&str], input: &str) -> (r: Option<String>)
    ensures
        opt_string(r) == resolved_table(table_names@.map_values(|s: &str| s@), input@),
{
    let ghost names = table_names@.map_values(|s: &str| s@);
    match parse_usize(input) {
        Some(index) => {
            match index.checked_sub(1) {
                Some(i) => {
                    if i < table_names.len() {
                        assert(names[i as int] == table_names@[i as int]@);
                        Some(String::from_str(table_names[i]))
                    } else {
                        None
                    }
                },
                None => None,
            }
        },
        None => {
            let n = table_names.len();
            for i in 0..n
                invariant
                    n == table_names@.len(),
                    names == table_names@.map_values(|s: &str| s@),
                    parsed_usize(input@) is None,
                    forall|j: int| 0 <= j < i ==> names[j] != input@,
            {
                assert(names[i as int] == table_names@[i as int]@);
                if text_eq(table_names[i], input) {
                    assert(names[i as int] == input@);
                    assert(names.contains(input@));
                    return Some(String::from_str(table_names[i]));
                }
            }
            assert(!names.contains(input@));
            None
        },
    }
}

/// The screen for fields of a table, or the note that it does not exist;
/// then the menu.
pub open spec fn fields_or_not_found_screen(
    db: DatabaseModel,
    table_name: Seq<char>,
    current_table: Option<Seq<char>>,
) -> Seq<Seq<char>> {
    if db.tables.contains_key(table_name) {
        fields_screen(table_name, db.tables[table_name]) + options_screen(current_table)
    } else {
        table_not_found_screen(table_name) + options_screen(current_table)
    }
}

/// The screen after a table became current.
pub open spec fn table_chosen_screen(db: DatabaseModel, table_name: Seq<char>) -> Seq<Seq<char>> {
    selected_table_screen(table_name) + (if db.tables.contains_key(table_name) {
        fields_screen(table_name, db.tables[table_name])
    } else {
        Seq::empty()
    }) + options_screen(Some(table_name))
}

/// The list of tables to choose from for an action.
pub open spec fn selector_screen(
    db: DatabaseModel,
    action: TableSelectionAction,
    current_table: Option<Seq<char>>,
) -> Seq<Seq<char>> {
    table_selector_screen(
        selection_title_text(action),
        sorted_texts(db.tables.dom()),
        current_table,
    )
}

/// Input that cancels the choice of a table.
pub open spec fn cancels_selection(input: Seq<char>) -> bool {
    input == "0"@ || input == "back"@ || input == "cancel"@
}

/// The current table and the screen after the input answered a list of
/// tables to choose from.
pub open spec fn selection_result(
    db: DatabaseModel,
    input: Seq<char>,
    action: TableSelectionAction,
    current_table: Option<Seq<char>>,
) -> (Option<Seq<char>>, Seq<Seq<char>>) {
    if cancels_selection(input) {
        (current_table, options_screen(current_table))
    } else {
        match resolved_table(sorted_texts(db.tables.dom()), input) {
            None => (
                current_table,
                invalid_table_selection_screen(input) + selector_screen(db, action, current_table),
            ),
            Some(t) => match action {
                TableSelectionAction::ShowFields => (
                    current_table,
                    fields_or_not_found_screen(db, t, current_table),
                ),
                TableSelectionAction::UseTable => (Some(t), table_chosen_screen(db, t)),
            },
        }
    }
}

/// A slice of the current table's name.
fn as_opt_str(o: &Option<String>) -> (r: Option<&str>)
    ensures
        opt_text(r) == opt_string(*o),
{
    match o {
        Some(s) => Some(s.as_str()),
        None => None,
    }
}

/// The list of tables to choose from for an action.
pub fn show_table_selector(
    database: &Database,
    action: TableSelectionAction,
    current_table: Option<&str>,
) -> (r: Vec<String>)
    requires
        database.wf(),
    ensures
        texts(r@) == selector_screen(database@, action, opt_text(current_table)),
{
    let title = match action {
        TableSelectionAction::ShowFields => "Select a table to print its fields:",
        TableSelectionAction::UseTable => "Select a table to make it current:",
    };
    let table_names = database.table_names();
    Printer::table_selector(title, &table_names, current_table)
}

/// The screen for fields of a table, or the note that it does not exist;
/// then the menu.
fn fields_or_not_found(database: &Database, table_name: &str, current_table: Option<&str>) -> (r:
    Vec<String>)
    requires
        database.wf(),
    ensures
        texts(r@) == fields_or_not_found_screen(database@, table_name@, opt_text(current_table)),
{
    let mut lines = match database.get_table(table_name) {
        Some(table) => Printer::fields(table_name, table),
        None => Printer::table_not_found(table_name),
    };
    push_all(&mut lines, Printer::options(current_table));
    lines
}

/// Makes a table current and returns the screen for it.
fn choose_table(database: &Database, table_name: String, current_table: &mut Option<String>) -> (r:
    Vec<String>)
    requires
        database.wf(),
    ensures
        opt_string(*final(current_table)) == Some(table_name@),
        texts(r@) == table_chosen_screen(database@, table_name@),
{
    let mut lines = Printer::selected_table(table_name.as_str());
    match database.get_table(table_name.as_str()) {
        Some(table) => {
            push_all(&mut lines, Printer::fields(table_name.as_str(), table));
        },
        None => {},
    }
    push_all(&mut lines, Printer::options(Some(table_name.as_str())));
    *current_table = Some(table_name);
    lines
}

/// Answers the input given to a list of tables to choose from: cancels,
/// shows the list again, shows the chosen table's fields, or makes the
/// chosen table current.
pub fn handle_table_selection(
    database: &Database,
    input: &str,
    action: TableSelectionAction,
    current_table: &mut Option<String>,
) -> (r: Vec<String>)
    requires
        database.wf(),
    ensures
        (opt_string(*final(current_table)), texts(r@)) == selection_result(
            database@,
            input@,
            action,
            opt_string(*old(current_table)),
        ),
{
    if text_eq(input, "0") || text_eq(input, "back") || text_eq(input, "cancel") {
        return Printer::options(as_opt_str(current_table));
    }
    let table_names = database.table_names();
    match resolve_table_name(table_names.as_slice(), input) {
        None => {
            let mut lines = Printer::invalid_table_selection(input);
            push_all(
                &mut lines,
                Printer::table_selector(
                    selection_title(action),
                    &table_names,
                    as_opt_str(current_table),
                ),
            );
            lines
        },
        Some(table_name) => match action {
            TableSelectionAction::ShowFields => {
                fields_or_not_found(database, table_name.as_str(), as_opt_str(current_table))
            },
            TableSelectionAction::UseTable => choose_table(database, table_name, current_table),
        },
    }
}

// ---------------------------------------------------------------------------
// The console
// ---------------------------------------------------------------------------

/// The state of the console between two lines of input: the current table,
/// and whether a list of tables to choose from is waiting for an answer.
pub struct Console {
    current_table: Option<String>,
    table_selection: Option<TableSelectionAction>,
}

/// The state of the console as a mathematical value.
pub struct ConsoleModel {
    pub current_table: Option<Seq<char>>,
    pub table_selection: Option<TableSelectionAction>,
}

/// What the console does with one line of input: its next state, the screen
/// it then shows (none for an empty line, which leaves everything as it
/// was), and whether it stops.
pub struct StepModel {
    pub state: ConsoleModel,
    pub screen: Option<Seq<Seq<char>>>,
    pub exit: bool,
}

/// What the console does with a command, no list of tables waiting.
pub open spec fn command_step(db: DatabaseModel, command: CommandModel, current: Option<Seq<char>>) -> StepModel {
    let keep = ConsoleModel { current_table: current, table_selection: None };
    match command {
        CommandModel::Help => StepModel { state: keep, screen: Some(help_screen(current)), exit: false },
        CommandModel::Tables => StepModel {
            state: keep,
            screen: Some(tables_screen(db, current)),
            exit: false,
        },
        CommandModel::Fields(name) => {
            let requested = match name {
                Some(t) => Some(t),
                None => current,
            };
            match requested {
                Some(t) => StepModel {
                    state: keep,
                    screen: Some(fields_or_not_found_screen(db, t, current)),
                    exit: false,
                },
                None => StepModel {
                    state: ConsoleModel {
                        current_table: current,
                        table_selection: Some(TableSelectionAction::ShowFields),
                    },
                    screen: Some(selector_screen(db, TableSelectionAction::ShowFields, current)),
                    exit: false,
                },
            }
        },
        CommandModel::Use(name) => match name {
            Some(t) => if db.tables.contains_key(t) {
                StepModel {
                    state: ConsoleModel { current_table: Some(t), table_selection: None },
                    screen: Some(table_chosen_screen(db, t)),
                    exit: false,
                }
            } else {
                StepModel {
                    state: keep,
                    screen: Some(table_not_found_screen(t) + options_screen(current)),
                    exit: false,
                }
            },
            None => StepModel {
                state: ConsoleModel {
                    current_table: current,
                    table_selection: Some(TableSelectionAction::UseTable),
                },
                screen: Some(selector_screen(db, TableSelectionAction::UseTable, current)),
                exit: false,
            },
        },
        CommandModel::Back => StepModel {
            state: ConsoleModel { current_table: None, table_selection: None },
            screen: Some(options_screen(None)),
            exit: false,
        },
        CommandModel::Exit => StepModel { state: keep, screen: Some(exit_screen()), exit: true },
        CommandModel::Empty => StepModel { state: keep, screen: Some(Seq::empty()), exit: false },
        CommandModel::Unknown(input) => StepModel {
            state: keep,
            screen: Some(unknown_command_screen(input) + options_screen(current)),
            exit: false,
        },
    }
}

/// What the console does with one line of input.
pub open spec fn console_step(state: ConsoleModel, db: DatabaseModel, line: Seq<char>) -> StepModel {
    let input = trimmed(line);
    let command = parsed_command(input, state.current_table is Some);
    if command is Empty {
        StepModel { state, screen: None, exit: false }
    } else {
        match state.table_selection {
            Some(action) => {
                let (current, screen) = selection_result(db, input, action, state.current_table);
                StepModel {
                    state: ConsoleModel { current_table: current, table_selection: None },
                    screen: Some(screen),
                    exit: false,
                }
            },
            None => command_step(db, command, state.current_table),
        }
    }
}

/// What the console answers to a line of input.
pub enum Reply {
    /// The line was empty: nothing changes and the prompt comes again.
    Ignore,
    /// The screen is cleared and these lines are shown; the console stops
    /// after them if `exit` holds.
    Show { lines: Vec<String>, exit: bool },
}

impl Console {
    /// The state as a mathematical value.
    pub closed spec fn view(&self) -> ConsoleModel {
        ConsoleModel {
            current_table: opt_string(self.current_table),
            table_selection: self.table_selection,
        }
    }

    /// A console with no current table and no list waiting.
    pub fn new() -> (r: Self)
        ensures
            r@ == (ConsoleModel { current_table: None, table_selection: None }),
    {
        Console { current_table: None, table_selection: None }
    }

    /// The prompt for the next line.
    pub fn prompt(&self, database: &Database) -> (r: String)
        ensures
            r@ == match self@.table_selection {
                Some(_) => selection_prompt_text(database@.name),
                None => prompt_text(database@.name, self@.current_table),
            },
    {
        match self.table_selection {
            Some(_) => Printer::selection_prompt(database.name()),
            None => Printer::prompt(database.name(), as_opt_str(&self.current_table)),
        }
    }

    /// Reads one line of input and answers it, as `console_step` says.
    pub fn step(&mut self, database: &Database, line: &str) -> (r: Reply)
        requires
            database.wf(),
        ensures
            ({
                let s = console_step(old(self)@, database@, line@);
                &&& final(self)@ == s.state
                &&& match r {
                    Reply::Ignore => s.screen is None,
                    Reply::Show { lines, exit } => s.screen == Some(texts(lines@)) && exit
                        == s.exit,
                }
            }),
    {
        let input = trim(line);
        let command = parse_command(input, as_opt_str(&self.current_table));
        if let Command::Empty = command {
            return Reply::Ignore;
        }
        match self.table_selection {
            Some(action) => {
                self.table_selection = None;
                let lines = handle_table_selection(database, input, action, &mut self.current_table);
                return Reply::Show { lines, exit: false };
            },
            None => {},
        }
        let current = as_opt_str(&self.current_table);
        match command {
            Command::Help => Reply::Show { lines: Printer::help(current), exit: false },
            Command::Tables => Reply::Show { lines: Printer::tables(database, current), exit: false },
            Command::Fields(table_name) => {
                let requested = match table_name {
                    Some(t) => Some(t),
                    None => match current {
                        Some(t) => Some(String::from_str(t)),
                        None => None,
                    },
                };
                match requested {
                    Some(t) => Reply::Show {
                        lines: fields_or_not_found(database, t.as_str(), current),
                        exit: false,
                    },
                    None => {
                        let lines = show_table_selector(
                            database,
                            TableSelectionAction::ShowFields,
                            current,
                        );
                        self.table_selection = Some(TableSelectionAction::ShowFields);
                        Reply::Show { lines, exit: false }
                    },
                }
            },
            Command::Use(table_name) => match table_name {
                Some(t) => {
                    if database.get_table(t.as_str()).is_some() {
                        let lines = choose_table(database, t, &mut self.current_table);
                        Reply::Show { lines, exit: false }
                    } else {
                        let mut lines = Printer::table_not_found(t.as_str());
                        push_all(&mut lines, Printer::options(current));
                        Reply::Show { lines, exit: false }
                    }
                },
                None => {
                    let lines = show_table_selector(database, TableSelectionAction::UseTable, current);
                    self.table_selection = Some(TableSelectionAction::UseTable);
                    Reply::Show { lines, exit: false }
                },
            },
            Command::Back => {
                self.current_table = None;
                Reply::Show { lines: Printer::options(None), exit: false }
            },
            Command::Exit => Reply::Show { lines: Printer::exit(), exit: true },
            Command::Empty => Reply::Show { lines: Vec::new(), exit: false },
            Command::Unknown(input) => {
                let mut lines = Printer::unknown_command(input.as_str());
                push_all(&mut lines, Printer::options(current));
                Reply::Show { lines, exit: false }
            },
        }
    }
}

// ---------------------------------------------------------------------------
// Laws of the console
// ---------------------------------------------------------------------------

/// The label that the menu gives to a command.
pub open spec fn menu_label(command: CommandModel, has_table: bool) -> Seq<char> {
    match command {
        CommandModel::Tables => "Show all tables"@,
        CommandModel::Fields(_) => if has_table {
            "Show fields of current table"@
        } else {
            "Show fields of a table"@
        },
        CommandModel::Use(_) => if has_table {
            "Select another table"@
        } else {
            "Select a table"@
        },
        CommandModel::Back => "Back"@,
        CommandModel::Help => "Help"@,
        CommandModel::Exit => "Exit"@,
        _ => Seq::empty(),
    }
}

proof fn lemma_menu_line(current_table: Option<Seq<char>>, k: nat)
    requires
        1 <= k <= 5,
    ensures
        menu_command(decimal(k), current_table is Some) is Some,
        options_screen(current_table)[k as int] == "  "@ + decimal(k) + ". "@ + menu_label(
            menu_command(decimal(k), current_table is Some)->0,
            current_table is Some,
        ),
{
    reveal_strlit("1");
    reveal_strlit("2");
    reveal_strlit("3");
    reveal_strlit("4");
    reveal_strlit("5");
    reveal_strlit("  ");
    reveal_strlit(". ");
    assert(decimal(1) =~= "1"@);
    assert(decimal(2) =~= "2"@);
    assert(decimal(3) =~= "3"@);
    assert(decimal(4) =~= "4"@);
    assert(decimal(5) =~= "5"@);
    assert forall|a: nat, b: nat| 1 <= a <= 5 && 1 <= b <= 5 && a != b implies #[trigger] decimal(
        a,
    ) != #[trigger] decimal(b) by {
        assert(decimal(a)[0] != decimal(b)[0]);
    }
    let has = current_table is Some;
    let line = "  "@ + decimal(k) + ". "@ + menu_label(menu_command(decimal(k), has)->0, has);
    if has {
        if k == 1 {
            reveal_strlit("  1. Show fields of current table");
            reveal_strlit("Show fields of current table");
            assert(options_screen(current_table)[1] =~= line);
        } else if k == 2 {
            reveal_strlit("  2. Show all tables");
            reveal_strlit("Show all tables");
            assert(options_screen(current_table)[2] =~= line);
        } else if k == 3 {
            reveal_strlit("  3. Select another table");
            reveal_strlit("Select another table");
            assert(options_screen(current_table)[3] =~= line);
        } else if k == 4 {
            reveal_strlit("  4. Back");
            reveal_strlit("Back");
            assert(options_screen(current_table)[4] =~= line);
        } else {
            reveal_strlit("  5. Exit");
            reveal_strlit("Exit");
            assert(options_screen(current_table)[5] =~= line);
        }
    } else {
        if k == 1 {
            reveal_strlit("  1. Show all tables");
            reveal_strlit("Show all tables");
            assert(options_screen(current_table)[1] =~= line);
        } else if k == 2 {
            reveal_strlit("  2. Show fields of a table");
            reveal_strlit("Show fields of a table");
            assert(options_screen(current_table)[2] =~= line);
        } else if k == 3 {
            reveal_strlit("  3. Select a table");
            reveal_strlit("Select a table");
            assert(options_screen(current_table)[3] =~= line);
        } else if k == 4 {
            reveal_strlit("  4. Help");
            reveal_strlit("Help");
            assert(options_screen(current_table)[4] =~= line);
        } else {
            reveal_strlit("  5. Exit");
            reveal_strlit("Exit");
            assert(options_screen(current_table)[5] =~= line);
        }
    }
}

/// The menu lists what each number does: under "Menu:", line k reads
/// "  k. " and the label of the command that the input k runs, for k from 1
/// to 5; the current table, where there is one, is named on the line after;
/// the menu ends with a line of commands and a blank line.
pub proof fn law_menu_labels_match_commands(current_table: Option<Seq<char>>)
    ensures
        options_screen(current_table)[0] == "Menu:"@,
        forall|k: nat|
            1 <= k <= 5 ==> {
                &&& menu_command(#[trigger] decimal(k), current_table is Some) is Some
                &&& options_screen(current_table)[k as int] == "  "@ + decimal(k) + ". "@
                    + menu_label(
                    menu_command(decimal(k), current_table is Some)->0,
                    current_table is Some,
                )
            },
        match current_table {
            Some(t) => {
                &&& options_screen(current_table).len() == 9
                &&& options_screen(current_table)[6] == "Current table: "@ + t
                &&& options_screen(current_table)[7]
                    == "Commands: fields | tables | use <table> | back | exit"@
            },
            None => {
                &&& options_screen(current_table).len() == 8
                &&& options_screen(current_table)[6]
                    == "Commands: tables | fields <table> | use <table> | help | exit"@
            },
        },
        options_screen(current_table).last() == Seq::<char>::empty(),
{
    assert forall|k: nat| 1 <= k <= 5 implies {
        &&& menu_command(#[trigger] decimal(k), current_table is Some) is Some
        &&& options_screen(current_table)[k as int] == "  "@ + decimal(k) + ". "@ + menu_label(
            menu_command(decimal(k), current_table is Some)->0,
            current_table is Some,
        )
    } by {
        lemma_menu_line(current_table, k);
    }
}

/// Whether a screen ends with the given lines.
pub open spec fn ends_with(screen: Seq<Seq<char>>, tail: Seq<Seq<char>>) -> bool {
    &&& screen.len() >= tail.len()
    &&& screen.subrange(screen.len() - tail.len(), screen.len() as int) == tail
}

/// Listing the tables or the commands leaves the current table as it was:
/// with no list waiting, a line whose command is `tables` or `help` keeps
/// the state, and its screen ends with the menu for the same current table.
pub proof fn law_tables_and_help_keep_current(state: ConsoleModel, db: DatabaseModel, line: Seq<char>)
    requires
        state.table_selection is None,
        parsed_command(trimmed(line), state.current_table is Some) is Tables || parsed_command(
            trimmed(line),
            state.current_table is Some,
        ) is Help,
    ensures
        console_step(state, db, line).state == state,
        !console_step(state, db, line).exit,
        console_step(state, db, line).screen matches Some(screen) && ends_with(
            screen,
            options_screen(state.current_table),
        ),
{
    let cur = state.current_table;
    let opts = options_screen(cur);
    let screen = console_step(state, db, line).screen->0;
    if parsed_command(trimmed(line), cur is Some) is Help {
        assert(screen.subrange(screen.len() - opts.len(), screen.len() as int) =~= opts);
    } else {
        assert(screen == tables_screen(db, cur));
        assert(screen.subrange(screen.len() - opts.len(), screen.len() as int) =~= opts);
    }
}

/// The current table changes only by the `back` command, by `use` with a
/// name, or by choosing from the list that `use` showed; with no list
/// waiting, only `back` clears it.
pub proof fn law_current_table_changes_only_by_back_or_use(
    state: ConsoleModel,
    db: DatabaseModel,
    line: Seq<char>,
)
    ensures
        ({
            let command = parsed_command(trimmed(line), state.current_table is Some);
            let next = console_step(state, db, line).state.current_table;
            next != state.current_table ==> {
                ||| state.table_selection == Some(TableSelectionAction::UseTable)
                ||| state.table_selection is None && command is Back
                ||| state.table_selection is None && command is Use
            }
        }),
        state.table_selection is None && console_step(state, db, line).state.current_table is None
            ==> state.current_table is None || parsed_command(
            trimmed(line),
            state.current_table is Some,
        ) is Back,
{
}

/// The command word counts in any ASCII case: when the input is not a menu
/// number, a first word that is `help`, `tables`, `fields`, `use`, `back`,
/// `exit` or `.exit` in any mix of upper and lower case gives that command,
/// with the rest of the line as its argument.
pub proof fn law_command_word_any_case(input: Seq<char>, has_table: bool)
    requires
        input.len() > 0,
        menu_command(input, has_table) is None,
    ensures
        ({
            let w = command_word(input);
            let arg = optional_argument(command_argument(input));
            let c = parsed_command(input, has_table);
            &&& lowercase_equals(w, "help"@) ==> c == CommandModel::Help
            &&& lowercase_equals(w, "tables"@) ==> c == CommandModel::Tables
            &&& lowercase_equals(w, "fields"@) ==> c == CommandModel::Fields(arg)
            &&& lowercase_equals(w, "use"@) ==> c == CommandModel::Use(arg)
            &&& lowercase_equals(w, "back"@) ==> c == CommandModel::Back
            &&& lowercase_equals(w, "exit"@) ==> c == CommandModel::Exit
            &&& lowercase_equals(w, ".exit"@) ==> c == CommandModel::Exit
        }),
{
    reveal_strlit("help");
    reveal_strlit("tables");
    reveal_strlit("fields");
    reveal_strlit("use");
    reveal_strlit("back");
    reveal_strlit("exit");
    reveal_strlit(".exit");
    let w = command_word(input);
    assert(lowercase_equals(w, "tables"@) ==> !lowercase_equals(w, "help"@));
    assert(lowercase_equals(w, "fields"@) ==> !lowercase_equals(w, "help"@));
    assert(lowercase_equals(w, "fields"@) ==> !lowercase_equals(w, "tables"@)) by {
        if lowercase_equals(w, "fields"@) && lowercase_equals(w, "tables"@) {
            assert(ascii_lower(w[0]) == ("fields"@[0] as int));
            assert(ascii_lower(w[0]) == ("tables"@[0] as int));
        }
    }
    assert(lowercase_equals(w, "use"@) ==> !lowercase_equals(w, "help"@));
    assert(lowercase_equals(w, "use"@) ==> !lowercase_equals(w, "tables"@));
    assert(lowercase_equals(w, "use"@) ==> !lowercase_equals(w, "fields"@));
    assert(lowercase_equals(w, "back"@) ==> !lowercase_equals(w, "help"@)) by {
        if lowercase_equals(w, "back"@) && lowercase_equals(w, "help"@) {
            assert(ascii_lower(w[0]) == ("back"@[0] as int));
            assert(ascii_lower(w[0]) == ("help"@[0] as int));
        }
    }
    assert(lowercase_equals(w, "back"@) ==> !lowercase_equals(w, "tables"@));
    assert(lowercase_equals(w, "back"@) ==> !lowercase_equals(w, "fields"@));
    assert(lowercase_equals(w, "back"@) ==> !lowercase_equals(w, "use"@));
    assert(lowercase_equals(w, "exit"@) ==> !lowercase_equals(w, "help"@)) by {
        if lowercase_equals(w, "exit"@) && lowercase_equals(w, "help"@) {
            assert(ascii_lower(w[0]) == ("exit"@[0] as int));
            assert(ascii_lower(w[0]) == ("help"@[0] as int));
        }
    }
    assert(lowercase_equals(w, "exit"@) ==> !lowercase_equals(w, "tables"@));
    assert(lowercase_equals(w, "exit"@) ==> !lowercase_equals(w, "fields"@));
    assert(lowercase_equals(w, "exit"@) ==> !lowercase_equals(w, "use"@));
    assert(lowercase_equals(w, "exit"@) ==> !lowercase_equals(w, "back"@)) by {
        if lowercase_equals(w, "exit"@) && lowercase_equals(w, "back"@) {
            assert(ascii_lower(w[0]) == ("exit"@[0] as int));
            assert(ascii_lower(w[0]) == ("back"@[0] as int));
        }
    }
    assert(lowercase_equals(w, ".exit"@) ==> !lowercase_equals(w, "help"@));
    assert(lowercase_equals(w, ".exit"@) ==> !lowercase_equals(w, "tables"@));
    assert(lowercase_equals(w, ".exit"@) ==> !lowercase_equals(w, "fields"@));
    assert(lowercase_equals(w, ".exit"@) ==> !lowercase_equals(w, "use"@));
    assert(lowercase_equals(w, ".exit"@) ==> !lowercase_equals(w, "back"@));
}

/// Two inputs that differ only in the ASCII case of the command word, and
/// are not menu numbers, give the same command (or both are not understood).
pub proof fn law_command_case_does_not_matter(a: Seq<char>, b: Seq<char>, has_table: bool)
    requires
        a.len() > 0,
        b.len() > 0,
        menu_command(a, has_table) is None,
        menu_command(b, has_table) is None,
        lowercase_codes(command_word(a)) == lowercase_codes(command_word(b)),
        command_argument(a) == command_argument(b),
    ensures
        parsed_command(a, has_table) is Unknown <==> parsed_command(b, has_table) is Unknown,
        !(parsed_command(a, has_table) is Unknown) ==> parsed_command(a, has_table)
            == parsed_command(b, has_table),
{
    let wa = command_word(a);
    let wb = command_word(b);
    lemma_lowercase_equals_by_codes(wa, wb, "help"@);
    lemma_lowercase_equals_by_codes(wa, wb, "tables"@);
    lemma_lowercase_equals_by_codes(wa, wb, "fields"@);
    lemma_lowercase_equals_by_codes(wa, wb, "use"@);
    lemma_lowercase_equals_by_codes(wa, wb, "back"@);
    lemma_lowercase_equals_by_codes(wa, wb, "exit"@);
    lemma_lowercase_equals_by_codes(wa, wb, ".exit"@);
}

/// `0`, `back` and `cancel` cancel a list of tables to choose from, for
/// either purpose of the list: the current table stays, and the screen is
/// the menu for it.
pub proof fn law_cancel_keeps_current(
    db: DatabaseModel,
    input: Seq<char>,
    action: TableSelectionAction,
    current_table: Option<Seq<char>>,
)
    requires
        cancels_selection(input),
    ensures
        selection_result(db, input, action, current_table) == (
            current_table,
            options_screen(current_table),
        ),
{
}

/// With a list waiting, a line that cancels closes the list, keeps the
/// current table and shows its menu.
pub proof fn law_cancel_closes_list(state: ConsoleModel, db: DatabaseModel, line: Seq<char>)
    requires
        state.table_selection is Some,
        cancels_selection(trimmed(line)),
    ensures
        console_step(state, db, line) == (StepModel {
            state: ConsoleModel { current_table: state.current_table, table_selection: None },
            screen: Some(options_screen(state.current_table)),
            exit: false,
        }),
{
    reveal_strlit("0");
    reveal_strlit("back");
    reveal_strlit("cancel");
    law_only_empty_input_is_empty(trimmed(line), state.current_table is Some);
    law_cancel_keeps_current(db, trimmed(line), state.table_selection->0, state.current_table);
}

/// The number shown next to a table in the list chooses that table.
pub proof fn law_listed_number_chooses_table(table_names: Seq<Seq<char>>, index: int)
    requires
        0 <= index < table_names.len(),
        index + 1 <= usize::MAX,
    ensures
        resolved_table(table_names, decimal((index + 1) as nat)) == Some(table_names[index]),
{
    law_parse_reads_decimal((index + 1) as usize);
}

/// A listed name that is not a number chooses that table.
pub proof fn law_listed_name_chooses_table(table_names: Seq<Seq<char>>, name: Seq<char>)
    requires
        table_names.contains(name),
        parsed_usize(name) is None,
    ensures
        resolved_table(table_names, name) == Some(name),
{
}

/// Only non-empty input makes a command, and every non-empty input does.
pub proof fn law_only_empty_input_is_empty(input: Seq<char>, has_table: bool)
    ensures
        parsed_command(input, has_table) is Empty <==> input.len() == 0,
{
}

/// Whitespace around a line does not matter, and a blank line changes
/// nothing and shows nothing.
pub proof fn law_blank_and_padding(state: ConsoleModel, db: DatabaseModel, line: Seq<char>)
    ensures
        console_step(state, db, trimmed(line)) == console_step(state, db, line),
        trimmed(line).len() == 0 ==> console_step(state, db, line) == (StepModel {
            state,
            screen: None,
            exit: false,
        }),
{
    law_trim_idempotent(line);
    law_only_empty_input_is_empty(trimmed(line), state.current_table is Some);
}

/// A list of tables to choose from waits for exactly one non-blank line:
/// after it no list is waiting, and the console goes on.
pub proof fn law_selection_answered_once(state: ConsoleModel, db: DatabaseModel, line: Seq<char>)
    requires
        state.table_selection is Some,
        trimmed(line).len() > 0,
    ensures
        console_step(state, db, line).state.table_selection is None,
        console_step(state, db, line).screen is Some,
        !console_step(state, db, line).exit,
{
    law_only_empty_input_is_empty(trimmed(line), state.current_table is Some);
}

/// The console stops only on the exit command, given when no list of tables
/// is waiting, and it then keeps its state.
pub proof fn law_stops_only_on_exit(state: ConsoleModel, db: DatabaseModel, line: Seq<char>)
    ensures
        console_step(state, db, line).exit <==> (state.table_selection is None && parsed_command(
            trimmed(line),
            state.current_table is Some,
        ) is Exit),
        console_step(state, db, line).exit ==> console_step(state, db, line).state == state,
{
}

/// A table only becomes current if it exists (or already was current).
pub proof fn law_current_table_exists(state: ConsoleModel, database: &Database, line: Seq<char>)
    requires
        database.wf(),
    ensures
        ({
            let next = console_step(state, database@, line).state.current_table;
            next is None || next == state.current_table || database@.tables.contains_key(next->0)
        }),
{
    let db = database@;
    let input = trimmed(line);
    match state.table_selection {
        Some(action) => {
            let names = sorted_texts(db.tables.dom());
            match resolved_table(names, input) {
                Some(t) => {
                    assert(names.contains(t)) by {
                        match parsed_usize(input) {
                            Some(n) => {
                                assert(names[n - 1] == t);
                            },
                            None => {},
                        }
                    }
                    lemma_sorted_table_names(database);
                    assert(names.to_set().contains(t));
                },
                None => {},
            }
        },
        None => {},
    }
}

// ---------------------------------------------------------------------------
// Demo data
// ---------------------------------------------------------------------------

/// A user row of the demo data.
pub open spec fn demo_user(name: Seq<char>, email: Seq<char>, role: Seq<char>) -> Map<
    Seq<char>,
    Value,
> {
    Map::empty().insert("name"@, json_string(name)).insert("email"@, json_string(email)).insert(
        "role"@,
        json_string(role),
    )
}

/// The rows of the demo table `users`.
pub open spec fn demo_users() -> TableModel {
    seq![
        demo_user("Alice"@, "alice@example.com"@, "admin"@),
        demo_user("Bob"@, "bob@example.com"@, "editor"@),
    ]
}

/// The rows of the demo table `orders`.
pub open spec fn demo_orders() -> TableModel {
    seq![
        Map::empty().insert("number"@, json_string("ORD-001"@)).insert(
            "amount"@,
            json_integer(1250),
        ).insert("status"@, json_string("paid"@)),
    ]
}

/// The database after the demo data was added, and whether that worked: the
/// tables `users` and `orders` are created in turn, stopping at the first
/// error, and then filled.
pub open spec fn seed_result(db: DatabaseModel) -> (DatabaseModel, Result<(), DatabaseError>) {
    match db.create_table("users"@) {
        Err(e) => (db, Err(e)),
        Ok(with_users) => match with_users.create_table("orders"@) {
            Err(e) => (with_users, Err(e)),
            Ok(with_both) => (
                with_both.with_table("users"@, demo_users()).with_table("orders"@, demo_orders()),
                Ok(()),
            ),
        },
    }
}

/// Adds the demo tables `users` and `orders` with their rows.
pub fn seed_demo_data(database: &mut Database) -> (r: Result<(), DatabaseError>)
    requires
        old(database).wf(),
    ensures
        final(database).wf(),
        (final(database)@, r) == seed_result(old(database)@),
{
    database.create_table(String::from_str("users"))?;
    database.create_table(String::from_str("orders"))?;

    let users = match database.get_table_mut("users") {
        Some(t) => t,
        None => {
            return Err(DatabaseError::NotFound);
        },
    };
    let first_user = users.insert_row();
    users.set_value(first_user, String::from_str("name"), value_from_text("Alice"))?;
    users.set_value(first_user, String::from_str("email"), value_from_text("alice@example.com"))?;
    users.set_value(first_user, String::from_str("role"), value_from_text("admin"))?;

    let second_user = users.insert_row();
    users.set_value(second_user, String::from_str("name"), value_from_text("Bob"))?;
    users.set_value(second_user, String::from_str("email"), value_from_text("bob@example.com"))?;
    users.set_value(second_user, String::from_str("role"), value_from_text("editor"))?;
    assert(users@ =~= demo_users());

    let orders = match database.get_table_mut("orders") {
        Some(t) => t,
        None => {
            return Err(DatabaseError::NotFound);
        },
    };
    let first_order = orders.insert_row();
    orders.set_value(first_order, String::from_str("number"), value_from_text("ORD-001"))?;
    orders.set_value(first_order, String::from_str("amount"), value_from_i32(1250))?;
    orders.set_value(first_order, String::from_str("status"), value_from_text("paid"))?;
    assert(orders@ =~= demo_orders());

    Ok(())
}

/// A name with the command word before it, as one line of input.
pub open spec fn command_line(word: Seq<char>, name: Seq<char>) -> Seq<char> {
    word + seq![' '] + name
}

proof fn lemma_command_with_name(word: Seq<char>, name: Seq<char>, has_table: bool)
    requires
        word == "use"@ || word == "fields"@,
        name.len() > 0,
        forall|i: int| 0 <= i < name.len() ==> !is_whitespace(#[trigger] name[i]),
    ensures
        trimmed(command_line(word, name)) == command_line(word, name),
        parsed_command(command_line(word, name), has_table) == if word == "use"@ {
            CommandModel::Use(Some(name))
        } else {
            CommandModel::Fields(Some(name))
        },
{
    reveal_strlit("use");
    reveal_strlit("fields");
    reveal_strlit("help");
    reveal_strlit("tables");
    reveal_strlit("1");
    reveal_strlit("2");
    reveal_strlit("3");
    reveal_strlit("4");
    reveal_strlit("5");
    let line = command_line(word, name);
    assert(line.len() >= 5);
    assert(line[0] == word[0]);
    assert(line.last() == name.last());
    lemma_trimmed_clean(line);
    lemma_words_pair(word, name);
    assert(command_word(line) == word);
    assert(command_argument(line) == name);
    assert(!lowercase_equals(word, "help"@)) by {
        if word == "fields"@ {
            assert(word.len() != "help"@.len());
        }
    }
    assert(!lowercase_equals(word, "tables"@)) by {
        if word == "fields"@ {
            assert(ascii_lower(word[0]) != ("tables"@[0] as int));
        }
    }
    if word == "use"@ {
        assert(!lowercase_equals(word, "fields"@));
        assert(lowercase_equals(word, "use"@));
    } else {
        assert(lowercase_equals(word, "fields"@));
    }
}

/// `use` and the name of an existing table make that table current and show
/// its fields.
pub proof fn law_use_makes_table_current(state: ConsoleModel, db: DatabaseModel, name: Seq<char>)
    requires
        state.table_selection is None,
        name.len() > 0,
        forall|i: int| 0 <= i < name.len() ==> !is_whitespace(#[trigger] name[i]),
        db.tables.contains_key(name),
    ensures
        console_step(state, db, command_line("use"@, name)) == (StepModel {
            state: ConsoleModel { current_table: Some(name), table_selection: None },
            screen: Some(table_chosen_screen(db, name)),
            exit: false,
        }),
{
    lemma_command_with_name("use"@, name, state.current_table is Some);
}

/// `fields` and a name show the fields of that table, or that it does not
/// exist, and change nothing.
pub proof fn law_fields_shows_table(state: ConsoleModel, db: DatabaseModel, name: Seq<char>)
    requires
        state.table_selection is None,
        name.len() > 0,
        forall|i: int| 0 <= i < name.len() ==> !is_whitespace(#[trigger] name[i]),
    ensures
        console_step(state, db, command_line("fields"@, name)) == (StepModel {
            state,
            screen: Some(fields_or_not_found_screen(db, name, state.current_table)),
            exit: false,
        }),
{
    lemma_command_with_name("fields"@, name, state.current_table is Some);
}

/// On a database without tables that may take two, with a connection open
/// and writes allowed, the demo data goes in: exactly the tables `users` and
/// `orders`, with their rows.
pub proof fn law_seed_fresh_database(db: DatabaseModel)
    requires
        db.tables == Map::<Seq<char>, TableModel>::empty(),
        db.active_connections > 0,
        !db.read_only,
        db.max_tables >= 2,
    ensures
        seed_result(db) == (
            DatabaseModel {
                tables: Map::<Seq<char>, TableModel>::empty().insert("users"@, demo_users()).insert(
                    "orders"@,
                    demo_orders(),
                ),
                ..db
            },
            Ok::<(), DatabaseError>(()),
        ),
{
    reveal_strlit("users");
    reveal_strlit("orders");
    assert("users"@ != "orders"@) by {
        assert("users"@.len() != "orders"@.len());
    }
    let with_users = db.create_table("users"@)->Ok_0;
    assert(with_users.tables.dom() =~= set!["users"@]);
    assert(with_users.tables.len() == 1);
    let with_both = with_users.create_table("orders"@)->Ok_0;
    assert(with_both.with_table("users"@, demo_users()).with_table("orders"@, demo_orders()).tables
        =~= Map::<Seq<char>, TableModel>::empty().insert("users"@, demo_users()).insert(
        "orders"@,
        demo_orders(),
    ));
}

} // verus!
