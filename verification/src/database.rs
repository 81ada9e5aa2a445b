use vstd::prelude::*;

use serde_json::Value;

use crate::config::DatabaseConfig;
use crate::connection::DatabaseConnection;
use crate::error::DatabaseError;
use crate::strmap::NameMap;
use crate::table::Table;
use crate::text::{lemma_sorted_texts, sorted_texts, strictly_sorted};

verus! {

/// What a table holds: its rows in order, each as its fields and values.
pub type TableModel = Seq<Map<Seq<char>, Value>>;

/// The state of a database as a mathematical value.
pub struct DatabaseModel {
    pub name: Seq<char>,
    pub tables: Map<Seq<char>, TableModel>,
    pub max_tables: nat,
    pub read_only: bool,
    pub active_connections: nat,
    pub pool_size: nat,
}

impl DatabaseModel {
    /// The error with which creating a table of this name fails, if any:
    /// first the connection is checked, then the configuration (read-only,
    /// table limit), then whether the name is taken.
    pub open spec fn create_table_error(self, name: Seq<char>) -> Option<DatabaseError> {
        if self.active_connections == 0 {
            Some(DatabaseError::NoConnection)
        } else if self.read_only || self.tables.len() >= self.max_tables {
            Some(DatabaseError::DatabaseConfigError)
        } else if self.tables.contains_key(name) {
            Some(DatabaseError::InvalidData)
        } else {
            None
        }
    }

    /// The database after creating an empty table, or the error.
    pub open spec fn create_table(self, name: Seq<char>) -> Result<DatabaseModel, DatabaseError> {
        match self.create_table_error(name) {
            Some(e) => Err(e),
            None => Ok(DatabaseModel { tables: self.tables.insert(name, Seq::empty()), ..self }),
        }
    }

    /// The database after removing a table, or `NotFound`.
    pub open spec fn remove_table(self, name: Seq<char>) -> Result<DatabaseModel, DatabaseError> {
        if self.tables.contains_key(name) {
            Ok(DatabaseModel { tables: self.tables.remove(name), ..self })
        } else {
            Err(DatabaseError::NotFound)
        }
    }

    /// The database with the table of this name holding `table`.
    pub open spec fn with_table(self, name: Seq<char>, table: TableModel) -> DatabaseModel {
        DatabaseModel { tables: self.tables.insert(name, table), ..self }
    }
}

/// A table that was just created is there, and empty; no other table changed.
pub proof fn law_create_then_lookup(db: DatabaseModel, name: Seq<char>, other: Seq<char>)
    requires
        db.create_table(name) is Ok,
    ensures
        ({
            let after = db.create_table(name)->Ok_0;
            &&& after.tables.contains_key(name)
            &&& after.tables[name] == Seq::<Map<Seq<char>, Value>>::empty()
            &&& other != name ==> after.tables.contains_key(other) == db.tables.contains_key(
                other,
            ) && after.tables[other] == db.tables[other]
        }),
{
}

/// Removing a table that was just created gives back the database as it
/// was before.
pub proof fn law_remove_undoes_create(db: DatabaseModel, name: Seq<char>)
    requires
        db.create_table(name) is Ok,
    ensures
        db.create_table(name)->Ok_0.remove_table(name) == Ok::<DatabaseModel, DatabaseError>(db),
{
    let after = db.create_table(name)->Ok_0;
    assert(after.tables.remove(name) =~= db.tables);
}

/// Removing a table that exists always succeeds, whatever it holds: the
/// table is gone, every other table is as it was, there is one table fewer,
/// and nothing else about the database changes. Removing a name that is not
/// there fails with `NotFound`.
pub proof fn law_remove_existing_table(db: DatabaseModel, name: Seq<char>)
    ensures
        db.tables.contains_key(name) ==> db.remove_table(name) is Ok,
        !db.tables.contains_key(name) ==> db.remove_table(name) == Err::<
            DatabaseModel,
            DatabaseError,
        >(DatabaseError::NotFound),
        db.remove_table(name) matches Ok(after) ==> {
            &&& !after.tables.contains_key(name)
            &&& forall|other: Seq<char>|
                other != name ==> (#[trigger] after.tables.contains_key(other)
                    == db.tables.contains_key(other) && after.tables[other] == db.tables[other])
            &&& db.tables.dom().finite() ==> after.tables.len() + 1 == db.tables.len()
            &&& after.name == db.name
            &&& after.max_tables == db.max_tables
            &&& after.read_only == db.read_only
            &&& after.active_connections == db.active_connections
            &&& after.pool_size == db.pool_size
        },
{
    if db.tables.contains_key(name) {
        assert(db.tables.remove(name).dom() =~= db.tables.dom().remove(name));
    }
}

/// A name that is taken is never given to a second table: creating it again
/// fails and leaves the database as it was.
pub proof fn law_name_taken(db: DatabaseModel, name: Seq<char>)
    requires
        db.tables.contains_key(name),
    ensures
        db.create_table(name) is Err,
        db.active_connections > 0 && !db.read_only && db.tables.len() < db.max_tables
            ==> db.create_table(name) == Err::<DatabaseModel, DatabaseError>(
            DatabaseError::InvalidData,
        ),
{
}

/// A read-only database never gains a table.
pub proof fn law_read_only_creates_nothing(db: DatabaseModel, name: Seq<char>)
    requires
        db.read_only,
    ensures
        db.create_table(name) is Err,
{
}

/// Creating tables never takes a database past its table limit.
pub proof fn law_table_limit_kept(db: DatabaseModel, name: Seq<char>)
    requires
        db.tables.dom().finite(),
        db.tables.len() <= db.max_tables,
    ensures
        db.create_table(name) matches Ok(after) ==> after.tables.len() <= db.max_tables
            && after.max_tables == db.max_tables,
{
    if db.create_table(name) is Ok {
        assert(db.tables.insert(name, Seq::empty()).dom() =~= db.tables.dom().insert(name));
    }
}

/// Every database holds no more tables than its limit.
pub proof fn law_tables_within_limit(database: &Database)
    requires
        database.wf(),
    ensures
        database@.tables.len() <= database@.max_tables,
        database@.tables.dom().finite(),
{
    database.lemma_view_tables();
    database.tables.lemma_sorted_names();
}

/// The names of the tables of a database, sorted, are the names of its tables.
pub proof fn lemma_sorted_table_names(database: &Database)
    requires
        database.wf(),
    ensures
        strictly_sorted(sorted_texts(database@.tables.dom())),
        sorted_texts(database@.tables.dom()).to_set() == database@.tables.dom(),
{
    database.lemma_view_tables();
    database.tables.lemma_sorted_names();
    lemma_sorted_texts(database.tables.sorted_names());
}

/// The tables of a map are each well formed.
pub closed spec fn tables_wf(m: Map<Seq<char>, Table>) -> bool {
    forall|k: Seq<char>| #[trigger] m.contains_key(k) ==> m[k].wf()
}

/// A database: named tables, a configuration and a connection pool.
pub struct Database {
    name: String,
    tables: NameMap<Table>,
    config: DatabaseConfig,
    connection: DatabaseConnection,
}

impl Database {
    /// The tables are well formed, and there are no more of them than the
    /// configuration allows.
    pub closed spec fn wf(&self) -> bool {
        &&& self.tables.wf()
        &&& tables_wf(self.tables@)
        &&& self.tables@.len() <= self.config.max_tables
    }

    /// The database as a mathematical value.
    pub closed spec fn view(&self) -> DatabaseModel {
        DatabaseModel {
            name: self.name@,
            tables: self.tables@.map_values(|t: Table| t@),
            max_tables: self.config.max_tables as nat,
            read_only: self.config.read_only,
            active_connections: self.connection.active(),
            pool_size: self.connection.pool_size(),
        }
    }

    proof fn lemma_view_tables(&self)
        requires
            self.wf(),
        ensures
            self@.tables.dom() == self.tables@.dom(),
            self@.tables.len() == self.tables@.len(),
            self@.tables.len() <= self@.max_tables,
            forall|k: Seq<char>| #[trigger]
                self.tables@.contains_key(k) ==> self@.tables[k] == self.tables@[k]@,
    {
        assert(self@.tables.dom() =~= self.tables@.dom());
    }

    /// A new database without tables, one connection open.
    pub fn new(name: &str, max_tables: usize, read_only: bool, pool_size: usize) -> (r: Self)
        ensures
            r.wf(),
            r@ == (DatabaseModel {
                name: name@,
                tables: Map::empty(),
                max_tables: max_tables as nat,
                read_only,
                active_connections: 1,
                pool_size: pool_size as nat,
            }),
    {
        let r = Self {
            name: String::from_str(name),
            tables: NameMap::new(),
            config: DatabaseConfig::new(max_tables, read_only),
            connection: DatabaseConnection::new(pool_size),
        };
        assert(r.tables@.map_values(|t: Table| t@) =~= Map::empty());
        r
    }

    /// The name of the database.
    pub fn name(&self) -> (r: &str)
        ensures
            r@ == self@.name,
    {
        self.name.as_str()
    }

    /// Creates an empty table under `name`; fails as `create_table_error` says.
    pub fn create_table(&mut self, name: String) -> (r: Result<(), DatabaseError>)
        requires
            old(self).wf(),
        ensures
            final(self).wf(),
            match (r, old(self)@.create_table(name@)) {
                (Ok(()), Ok(m)) => final(self)@ == m,
                (Err(e), Err(e2)) => e == e2 && final(self)@ == old(self)@,
                _ => false,
            },
    {
        proof {
            self.lemma_view_tables();
        }
        match self.connection.check_connection() {
            Err(e) => {
                return Err(e);
            },
            Ok(()) => {},
        }
        if self.config.read_only || self.tables.len() >= self.config.max_tables {
            return Err(DatabaseError::DatabaseConfigError);
        }
        if self.tables.contains_key(name.as_str()) {
            return Err(DatabaseError::InvalidData);
        }
        let ghost old_tables = self.tables@;
        let ghost k = name@;
        proof {
            self.tables.lemma_sorted_names();
        }
        self.tables.insert(name, Table::new());
        proof {
            assert(self.tables@.dom() =~= old_tables.dom().insert(k));
            assert(!old_tables.dom().contains(k));
            assert(self.tables@.dom().len() == old_tables.dom().len() + 1);
            assert forall|q: Seq<char>| #[trigger] self.tables@.contains_key(q) implies self.tables@[q].wf() by {
                if q != k {
                    assert(old_tables.contains_key(q));
                }
            }
            assert(self@.tables =~= old(self)@.tables.insert(k, Seq::empty()));
        }
        Ok(())
    }

    /// Removes the table under `table_key`; `NotFound` if there is none.
    pub fn remove_table(&mut self, table_key: &str) -> (r: Result<(), DatabaseError>)
        requires
            old(self).wf(),
        ensures
            final(self).wf(),
            match (r, old(self)@.remove_table(table_key@)) {
                (Ok(()), Ok(m)) => final(self)@ == m,
                (Err(e), Err(e2)) => e == e2 && final(self)@ == old(self)@,
                _ => false,
            },
    {
        proof {
            self.lemma_view_tables();
        }
        let ghost old_tables = self.tables@;
        proof {
            self.tables.lemma_sorted_names();
        }
        match self.tables.remove(table_key) {
            Some(_) => {
                proof {
                    assert(self.tables@.dom() =~= old_tables.dom().remove(table_key@));
                    assert(self.tables@.dom().len() < old_tables.dom().len() + 1);
                    assert forall|q: Seq<char>| #[trigger] self.tables@.contains_key(q) implies self.tables@[q].wf() by {
                        assert(old_tables.contains_key(q));
                    }
                    assert(self@.tables =~= old(self)@.tables.remove(table_key@));
                }
                Ok(())
            },
            None => {
                assert(self@.tables =~= old(self)@.tables);
                Err(DatabaseError::NotFound)
            },
        }
    }

    /// The table under `table_name`, if any.
    pub fn get_table(&self, table_name: &str) -> (r: Option<&Table>)
        requires
            self.wf(),
        ensures
            match r {
                Some(t) => self@.tables.contains_key(table_name@) && t@ == self@.tables[table_name@]
                    && t.wf(),
                None => !self@.tables.contains_key(table_name@),
            },
    {
        proof {
            self.lemma_view_tables();
        }
        self.tables.get(table_name)
    }

    /// The table under `table_name`, to change it in place, if any.
    pub fn get_table_mut(&mut self, table_name: &str) -> (r: Option<&mut Table>)
        requires
            old(self).wf(),
        ensures
            match r {
                Some(t) => {
                    &&& old(self)@.tables.contains_key(table_name@)
                    &&& t@ == old(self)@.tables[table_name@]
                    &&& t.wf()
                    &&& final(t).wf() ==> final(self).wf()
                    &&& final(self)@ == old(self)@.with_table(table_name@, final(t)@)
                },
                None => {
                    &&& !old(self)@.tables.contains_key(table_name@)
                    &&& final(self)@ == old(self)@
                    &&& final(self).wf()
                },
            },
    {
        proof {
            self.lemma_view_tables();
        }
        let ghost old_tables = self.tables@;
        let ghost k = table_name@;
        proof {
            assert forall|t2: Table|
                old_tables.contains_key(k) implies (#[trigger] old_tables.insert(k, t2)).dom()
                == old_tables.dom() && (t2.wf() ==> tables_wf(old_tables.insert(k, t2)))
                && old_tables.insert(k, t2).map_values(|t: Table| t@) == old_tables.map_values(
                |t: Table| t@,
            ).insert(k, t2@) by {
                assert(old_tables.insert(k, t2).dom() =~= old_tables.dom());
                assert(old_tables.insert(k, t2).map_values(|t: Table| t@) =~= old_tables.map_values(
                    |t: Table| t@,
                ).insert(k, t2@));
            }
        }
        self.tables.get_mut(table_name)
    }

    /// The names of the tables, in increasing order.
    pub fn table_names(&self) -> (r: Vec<&str>)
        requires
            self.wf(),
        ensures
            r@.map_values(|s: &str| s@) == sorted_texts(self@.tables.dom()),
            r@.map_values(|s: &str| s@).to_set() == self@.tables.dom(),
            strictly_sorted(r@.map_values(|s: &str| s@)),
            r@.len() == self@.tables.len(),
    {
        proof {
            self.lemma_view_tables();
            self.tables.lemma_sorted_names();
            lemma_sorted_texts(self.tables.sorted_names());
        }
        self.tables.keys()
    }
}

} // verus!
