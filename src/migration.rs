use vstd::prelude::*;
use crate::ledger::{Ledger, LedgerError};
use crate::schema::{Column, ColumnDefault, ColumnType, OpError, Schema, SchemaOp, TableView, apply_spec, columns_distinct};

verus! {

/// One versioned, irreversible schema change.
#[derive(Clone, Debug)]
pub struct MigrationStep {
    pub version: u64,
    pub description: String,
    pub operation: SchemaOp,
}

/// Versions strictly increase along the catalog, so each is unique.
pub open spec fn catalog_wf(c: Seq<MigrationStep>) -> bool {
    forall|i: int, j: int| 0 <= i < j < c.len() ==> (#[trigger] c[i]).version < (#[trigger] c[j]).version
}

/// The newest version the catalog knows, 0 for an empty one.
pub open spec fn catalog_max(c: Seq<MigrationStep>) -> nat {
    if c.len() == 0 {
        0
    } else {
        c.last().version as nat
    }
}

/// Whether a catalog's versions strictly increase.
pub fn catalog_is_ordered(c: &Vec<MigrationStep>) -> (r: bool)
    ensures
        r == catalog_wf(c@),
{
    if c.len() == 0 {
        return true;
    }
    let mut k: usize = 1;
    while k < c.len()
        invariant
            1 <= k <= c.len(),
            forall|i: int, j: int| 0 <= i < j < k ==> (#[trigger] c@[i]).version < (#[trigger] c@[j]).version,
        decreases c.len() - k,
    {
        if c[k - 1].version >= c[k].version {
            return false;
        }
        assert forall|i: int, j: int| 0 <= i < j < k + 1 implies (#[trigger] c@[i]).version < (#[trigger] c@[j]).version by {
            if j == k && i < k - 1 {
                assert(c@[i].version < c@[k - 1].version);
            }
        }
        k = k + 1;
    }
    true
}

/// Why the startup sequence stopped. Each is fatal to opening the store.
#[derive(Clone, Copy, Debug, PartialEq, Eq, Structural)]
pub enum MigrationError {
    /// The store was written by a build that knows newer migrations.
    SchemaTooNew { store_version: u64, latest: u64 },
    /// A step's action failed; it was rolled back and later steps were not tried.
    Failed { version: u64, cause: OpError },
    /// The next pending step is not exactly one past the ledger.
    VersionOrder { current: u64, offered: u64 },
}

/// The persisted state that migrations act on: the ledger and the schema.
pub struct Database {
    pub ledger: Ledger,
    pub schema: Schema,
}

/// Where a startup sequence leaves a store: its tables, its ledger version, and
/// the error that stopped it, if one did.
pub struct MigrationRun {
    pub tables: Seq<TableView>,
    pub version: nat,
    pub error: Option<MigrationError>,
}

/// The steps of `c` from index `i` on, applied to a store at `version`.
pub open spec fn migrate_from(tables: Seq<TableView>, version: nat, c: Seq<MigrationStep>, i: nat) -> MigrationRun
    decreases c.len() - i,
{
    if i >= c.len() {
        MigrationRun { tables, version, error: None }
    } else if c[i as int].version <= version {
        migrate_from(tables, version, c, i + 1)
    } else if c[i as int].version != version + 1 {
        MigrationRun {
            tables,
            version,
            error: Some(MigrationError::VersionOrder { current: version as u64, offered: c[i as int].version }),
        }
    } else {
        match apply_spec(tables, c[i as int].operation) {
            Err(cause) => MigrationRun {
                tables,
                version,
                error: Some(MigrationError::Failed { version: c[i as int].version, cause }),
            },
            Ok(next) => migrate_from(next, version + 1, c, i + 1),
        }
    }
}

/// The whole startup sequence: refuse a store newer than the catalog, else apply
/// every pending step in order.
pub open spec fn migrate(tables: Seq<TableView>, version: nat, c: Seq<MigrationStep>) -> MigrationRun {
    if catalog_max(c) < version {
        MigrationRun {
            tables,
            version,
            error: Some(MigrationError::SchemaTooNew { store_version: version as u64, latest: catalog_max(c) as u64 }),
        }
    } else {
        migrate_from(tables, version, c, 0)
    }
}

pub open spec fn run_result(run: MigrationRun) -> Result<(), MigrationError> {
    match run.error {
        None => Ok(()),
        Some(e) => Err(e),
    }
}

proof fn lemma_run_ends_at_max(tables: Seq<TableView>, version: nat, c: Seq<MigrationStep>, i: nat)
    requires
        catalog_wf(c),
        i <= c.len(),
        migrate_from(tables, version, c, i).error is None,
    ensures
        i < c.len() ==> migrate_from(tables, version, c, i).version == (if version >= c.last().version {
            version
        } else {
            c.last().version as nat
        }),
        i == c.len() ==> migrate_from(tables, version, c, i).version == version,
    decreases c.len() - i,
{
    if i < c.len() {
        if c[i as int].version <= version {
            lemma_run_ends_at_max(tables, version, c, i + 1);
        } else if c[i as int].version == version + 1 {
            if let Ok(next) = apply_spec(tables, c[i as int].operation) {
                lemma_run_ends_at_max(next, version + 1, c, i + 1);
                if i + 1 < c.len() {
                    assert(c[i as int].version < c[c.len() - 1].version);
                }
            }
        }
    }
}

proof fn lemma_run_settled(tables: Seq<TableView>, version: nat, c: Seq<MigrationStep>, i: nat)
    requires
        i <= c.len(),
        forall|j: int| i <= j < c.len() ==> (#[trigger] c[j]).version <= version,
    ensures
        migrate_from(tables, version, c, i) == (MigrationRun { tables, version, error: None }),
    decreases c.len() - i,
{
    if i < c.len() {
        lemma_run_settled(tables, version, c, i + 1);
    }
}

/// A startup sequence that completes leaves the ledger at the catalog's newest
/// version, and running the whole sequence again on the result changes nothing.
pub proof fn lemma_startup_reaches_latest_and_is_idempotent(tables: Seq<TableView>, version: nat, c: Seq<MigrationStep>)
    requires
        catalog_wf(c),
        migrate(tables, version, c).error is None,
    ensures
        migrate(tables, version, c).version == catalog_max(c),
        migrate(migrate(tables, version, c).tables, migrate(tables, version, c).version, c) == (MigrationRun {
            tables: migrate(tables, version, c).tables,
            version: migrate(tables, version, c).version,
            error: None,
        }),
{
    let run = migrate(tables, version, c);
    if c.len() > 0 {
        lemma_run_ends_at_max(tables, version, c, 0);
        assert forall|j: int| 0 <= j < c.len() implies (#[trigger] c[j]).version <= run.version by {
            if j < c.len() - 1 {
                assert(c[j].version < c[c.len() - 1].version);
            }
        }
    }
    lemma_run_settled(run.tables, run.version, c, 0);
}

impl Database {
    /// A store that was never opened: ledger at 0, no tables.
    pub fn fresh() -> (r: Database)
        ensures
            r.ledger@ == 0,
            r.schema@ == Seq::<TableView>::empty(),
    {
        Database { ledger: Ledger::new(), schema: Schema::empty() }
    }

    /// Brings the store up to the catalog's newest version, one step at a time.
    /// Each step's action and its ledger entry commit together; a failed step is
    /// rolled back and stops the sequence, so the ledger never passes the last
    /// step that fully committed.
    pub fn run_migrations(&mut self, catalog: &Vec<MigrationStep>) -> (r: Result<(), MigrationError>)
        requires
            catalog_wf(catalog@),
        ensures
            final(self).schema@ == migrate(old(self).schema@, old(self).ledger@, catalog@).tables,
            final(self).ledger@ == migrate(old(self).schema@, old(self).ledger@, catalog@).version,
            r == run_result(migrate(old(self).schema@, old(self).ledger@, catalog@)),
    {
        let n = catalog.len();
        if n == 0 && self.ledger.current_version() > 0 {
            return Err(MigrationError::SchemaTooNew { store_version: self.ledger.current_version(), latest: 0 });
        }
        if n > 0 && catalog[n - 1].version < self.ledger.current_version() {
            return Err(MigrationError::SchemaTooNew {
                store_version: self.ledger.current_version(),
                latest: catalog[n - 1].version,
            });
        }
        let ghost goal = migrate(self.schema@, self.ledger@, catalog@);
        let mut i: usize = 0;
        while i < n
            invariant
                n == catalog@.len(),
                i <= n,
                catalog_wf(catalog@),
                migrate_from(self.schema@, self.ledger@, catalog@, i as nat) == goal,
                goal == migrate(old(self).schema@, old(self).ledger@, catalog@),
            decreases n - i,
        {
            let step = &catalog[i];
            let current = self.ledger.current_version();
            if step.version > current {
                if step.version - 1 != current {
                    return Err(MigrationError::VersionOrder { current, offered: step.version });
                }
                match self.schema.apply(&step.operation) {
                    Err(cause) => {
                        return Err(MigrationError::Failed { version: step.version, cause });
                    },
                    Ok(()) => {},
                }
                match self.ledger.record_applied(step.version) {
                    Ok(()) => {},
                    Err(LedgerError::VersionOrder { current, offered }) => {
                        return Err(MigrationError::VersionOrder { current, offered });
                    },
                }
            }
            i = i + 1;
        }
        Ok(())
    }
}

/// The names of the task table's columns, in order.
pub open spec fn task_column_names() -> Seq<Seq<char>> {
    seq!["id"@, "title"@, "completed"@, "time"@, "created_at"@, "updated_at"@]
}

/// The schema of the task table, as the first migration creates it.
pub fn task_table_columns() -> (r: Vec<Column>)
    ensures
        r@.len() == 6,
        forall|i: int| 0 <= i < 6 ==> (#[trigger] r@[i]).name@ == task_column_names()[i],
        columns_distinct(r@),
{
    let mut cols: Vec<Column> = Vec::new();
    cols.push(Column { name: "id".to_owned(), sql_type: ColumnType::Text, primary_key: true, default: ColumnDefault::Null });
    cols.push(Column { name: "title".to_owned(), sql_type: ColumnType::Text, primary_key: false, default: ColumnDefault::Null });
    cols.push(Column { name: "completed".to_owned(), sql_type: ColumnType::Integer, primary_key: false, default: ColumnDefault::Zero });
    cols.push(Column { name: "time".to_owned(), sql_type: ColumnType::Text, primary_key: false, default: ColumnDefault::Null });
    cols.push(Column { name: "created_at".to_owned(), sql_type: ColumnType::Text, primary_key: false, default: ColumnDefault::Now });
    cols.push(Column { name: "updated_at".to_owned(), sql_type: ColumnType::Text, primary_key: false, default: ColumnDefault::Now });
    proof {
        reveal_strlit("id");
        reveal_strlit("title");
        reveal_strlit("completed");
        reveal_strlit("time");
        reveal_strlit("created_at");
        reveal_strlit("updated_at");
        let r = cols@;
        assert(r[0].name@[0] == 'i' && r[1].name@[0] == 't' && r[2].name@[0] == 'c');
        assert(r[3].name@[0] == 't' && r[4].name@[0] == 'c' && r[5].name@[0] == 'u');
        assert(r[1].name@[1] == 'i' && r[3].name@[1] == 'i' && r[1].name@.len() != r[3].name@.len());
        assert(r[2].name@[1] == 'o' && r[4].name@[1] == 'r');
    }
    cols
}

/// The application's migration catalog: version 1 creates the task table.
pub fn default_catalog() -> (r: Vec<MigrationStep>)
    ensures
        catalog_wf(r@),
        catalog_max(r@) == 1,
        r@.len() == 1,
        r@[0].operation matches SchemaOp::CreateTable { name, columns, if_not_exists }
            && if_not_exists && name@ == "task"@ && columns_distinct(columns@) && columns@.len() == 6
            && forall|i: int| 0 <= i < 6 ==> (#[trigger] columns@[i]).name@ == task_column_names()[i],
{
    let mut c: Vec<MigrationStep> = Vec::new();
    c.push(MigrationStep {
        version: 1,
        description: "Create task table".to_owned(),
        operation: SchemaOp::CreateTable {
            name: "task".to_owned(),
            columns: task_table_columns(),
            if_not_exists: true,
        },
    });
    c
}

} // verus!
