use task_tracker::ledger::{Ledger, LedgerError};
use task_tracker::migration::{catalog_is_ordered, default_catalog, Database, MigrationError, MigrationStep};
use task_tracker::schema::{Column, ColumnDefault, ColumnType, OpError, Schema, SchemaOp};
use task_tracker::store::TaskStore;

fn col(name: &str) -> Column {
    Column { name: name.to_string(), sql_type: ColumnType::Text, primary_key: false, default: ColumnDefault::Null }
}

fn create(version: u64, table: &str, if_not_exists: bool) -> MigrationStep {
    MigrationStep {
        version,
        description: format!("create {}", table),
        operation: SchemaOp::CreateTable { name: table.to_string(), columns: vec![col("id")], if_not_exists },
    }
}

fn add_column(version: u64, table: &str, column: &str) -> MigrationStep {
    MigrationStep {
        version,
        description: format!("add {}", column),
        operation: SchemaOp::AddColumn { table: table.to_string(), column: col(column) },
    }
}

fn table_names(s: &Schema) -> Vec<String> {
    s.tables.iter().map(|t| t.name.clone()).collect()
}

#[test]
fn ledger_accepts_only_the_next_version() {
    let mut l = Ledger::new();
    assert_eq!(l.current_version(), 0);
    assert!(matches!(l.record_applied(2), Err(LedgerError::VersionOrder { current: 0, offered: 2 })));
    assert!(l.record_applied(1).is_ok());
    assert_eq!(l.current_version(), 1);
    assert!(matches!(l.record_applied(1), Err(LedgerError::VersionOrder { current: 1, offered: 1 })));
    assert!(matches!(l.record_applied(0), Err(LedgerError::VersionOrder { current: 1, offered: 0 })));
    assert_eq!(l.current_version(), 1);
}

#[test]
fn fresh_store_open_creates_task_table() {
    let db = Database::fresh();
    assert_eq!(db.ledger.current_version(), 0);
    let store = TaskStore::open(db, &default_catalog()).ok().unwrap();
    assert_eq!(store.schema_version(), 1);
    assert!(store.list_all().is_empty());
    let names = table_names(store.schema());
    assert_eq!(names, vec!["task".to_string()]);
    let cols: Vec<String> = store.schema().tables[0].columns.iter().map(|c| c.name.clone()).collect();
    assert_eq!(cols, vec!["id", "title", "completed", "time", "created_at", "updated_at"]);
    assert!(store.schema().tables[0].columns[0].primary_key);
    assert_eq!(store.schema().tables[0].columns[2].default, ColumnDefault::Zero);
    assert_eq!(store.schema().tables[0].columns[4].default, ColumnDefault::Now);
}

#[test]
fn migrations_reach_latest_and_rerun_is_noop() {
    let catalog = vec![create(1, "task", false), add_column(2, "task", "note"), create(3, "tag", false)];
    let mut db = Database::fresh();
    assert!(db.run_migrations(&catalog).is_ok());
    assert_eq!(db.ledger.current_version(), 3);
    assert_eq!(table_names(&db.schema), vec!["task".to_string(), "tag".to_string()]);
    assert_eq!(db.schema.tables[0].columns.len(), 2);
    assert!(db.run_migrations(&catalog).is_ok());
    assert_eq!(db.ledger.current_version(), 3);
    assert_eq!(table_names(&db.schema), vec!["task".to_string(), "tag".to_string()]);
    assert_eq!(db.schema.tables[0].columns.len(), 2);
}

#[test]
fn migrations_resume_from_stored_version() {
    let catalog = vec![create(1, "task", false), add_column(2, "task", "note")];
    let mut db = Database::fresh();
    assert!(db.run_migrations(&catalog[..1].to_vec()).is_ok());
    assert_eq!(db.ledger.current_version(), 1);
    assert!(db.run_migrations(&catalog).is_ok());
    assert_eq!(db.ledger.current_version(), 2);
    assert_eq!(db.schema.tables[0].columns.len(), 2);
}

#[test]
fn store_newer_than_catalog_is_refused() {
    let catalog = vec![create(1, "task", false), add_column(2, "task", "note")];
    let mut db = Database::fresh();
    assert!(db.run_migrations(&catalog).is_ok());
    let older = vec![create(1, "task", false)];
    assert_eq!(
        db.run_migrations(&older),
        Err(MigrationError::SchemaTooNew { store_version: 2, latest: 1 })
    );
    assert_eq!(db.run_migrations(&vec![]), Err(MigrationError::SchemaTooNew { store_version: 2, latest: 0 }));
    assert_eq!(db.ledger.current_version(), 2);
}

#[test]
fn failed_step_is_rolled_back_and_stops_the_sequence() {
    let catalog = vec![create(1, "task", false), create(2, "task", false), create(3, "tag", false)];
    let mut db = Database::fresh();
    assert_eq!(
        db.run_migrations(&catalog),
        Err(MigrationError::Failed { version: 2, cause: OpError::TableExists })
    );
    assert_eq!(db.ledger.current_version(), 1);
    assert_eq!(table_names(&db.schema), vec!["task".to_string()]);
}

#[test]
fn gap_in_catalog_is_a_version_order_error() {
    let catalog = vec![create(1, "task", false), create(3, "tag", false)];
    let mut db = Database::fresh();
    assert_eq!(db.run_migrations(&catalog), Err(MigrationError::VersionOrder { current: 1, offered: 3 }));
    assert_eq!(db.ledger.current_version(), 1);
}

#[test]
fn open_fails_on_a_failing_catalog() {
    let catalog = vec![add_column(1, "task", "note")];
    let r = TaskStore::open(Database::fresh(), &catalog);
    assert!(matches!(r, Err(MigrationError::Failed { version: 1, cause: OpError::NoSuchTable })));
}

#[test]
fn schema_actions_report_their_errors() {
    let mut s = Schema::empty();
    let create_task = SchemaOp::CreateTable { name: "task".to_string(), columns: vec![col("id")], if_not_exists: false };
    assert_eq!(s.apply(&create_task), Ok(()));
    assert_eq!(s.apply(&create_task), Err(OpError::TableExists));
    let again = SchemaOp::CreateTable { name: "task".to_string(), columns: vec![col("x")], if_not_exists: true };
    assert_eq!(s.apply(&again), Ok(()));
    assert_eq!(s.tables.len(), 1);
    assert_eq!(s.tables[0].columns[0].name, "id");
    let dup = SchemaOp::CreateTable { name: "tag".to_string(), columns: vec![col("a"), col("a")], if_not_exists: false };
    assert_eq!(s.apply(&dup), Err(OpError::DuplicateColumn));
    let add_id = SchemaOp::AddColumn { table: "task".to_string(), column: col("id") };
    assert_eq!(s.apply(&add_id), Err(OpError::ColumnExists));
    let add_missing = SchemaOp::AddColumn { table: "tag".to_string(), column: col("id") };
    assert_eq!(s.apply(&add_missing), Err(OpError::NoSuchTable));
    let drop_missing = SchemaOp::DropTable { name: "tag".to_string() };
    assert_eq!(s.apply(&drop_missing), Err(OpError::NoSuchTable));
    assert_eq!(s.tables.len(), 1);
    let drop_task = SchemaOp::DropTable { name: "task".to_string() };
    assert_eq!(s.apply(&drop_task), Ok(()));
    assert!(s.tables.is_empty());
}

#[test]
fn catalog_order_is_checked() {
    assert!(catalog_is_ordered(&default_catalog()));
    assert!(catalog_is_ordered(&vec![]));
    assert!(catalog_is_ordered(&vec![create(1, "a", false), create(2, "b", false), create(5, "c", false)]));
    assert!(!catalog_is_ordered(&vec![create(1, "a", false), create(3, "b", false), create(2, "c", false)]));
    assert!(!catalog_is_ordered(&vec![create(2, "a", false), create(2, "b", false)]));
}
