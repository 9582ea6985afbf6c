use vstd::prelude::*;

verus! {

#[derive(Clone, Copy, Debug, PartialEq, Eq, Structural)]
pub enum ColumnType {
    Text,
    Integer,
}

/// The value a column takes when an insert leaves it out.
#[derive(Clone, Copy, Debug, PartialEq, Eq, Structural)]
pub enum ColumnDefault {
    Null,
    Zero,
    Now,
}

#[derive(Clone, Debug)]
pub struct Column {
    pub name: String,
    pub sql_type: ColumnType,
    pub primary_key: bool,
    pub default: ColumnDefault,
}

impl Column {
    pub fn duplicate(&self) -> (r: Column)
        ensures
            r == *self,
    {
        Column {
            name: self.name.clone(),
            sql_type: self.sql_type,
            primary_key: self.primary_key,
            default: self.default,
        }
    }
}

/// Copies a column list element by element.
pub fn duplicate_columns(cols: &Vec<Column>) -> (r: Vec<Column>)
    ensures
        r@ == cols@,
{
    let mut r: Vec<Column> = Vec::new();
    let mut i: usize = 0;
    while i < cols.len()
        invariant
            i <= cols.len(),
            r@ == cols@.subrange(0, i as int),
        decreases cols.len() - i,
    {
        r.push(cols[i].duplicate());
        i = i + 1;
        assert(r@ =~= cols@.subrange(0, i as int));
    }
    assert(r@ =~= cols@);
    r
}

#[derive(Clone, Debug)]
pub struct Table {
    pub name: String,
    pub columns: Vec<Column>,
}

/// A table as the contracts see it.
pub struct TableView {
    pub name: Seq<char>,
    pub columns: Seq<Column>,
}

impl View for Table {
    type V = TableView;

    open spec fn view(&self) -> TableView {
        TableView { name: self.name@, columns: self.columns@ }
    }
}

/// One schema-changing action of a migration step.
#[derive(Clone, Debug)]
pub enum SchemaOp {
    CreateTable { name: String, columns: Vec<Column>, if_not_exists: bool },
    DropTable { name: String },
    AddColumn { table: String, column: Column },
}

/// Why a schema action could not be applied.
#[derive(Clone, Copy, Debug, PartialEq, Eq, Structural)]
pub enum OpError {
    TableExists,
    NoSuchTable,
    ColumnExists,
    DuplicateColumn,
}

/// The tables of a store, in the order they were created.
#[derive(Clone, Debug)]
pub struct Schema {
    pub tables: Vec<Table>,
}

pub open spec fn tables_view(tables: Seq<Table>) -> Seq<TableView> {
    tables.map_values(|t: Table| t@)
}

impl View for Schema {
    type V = Seq<TableView>;

    open spec fn view(&self) -> Seq<TableView> {
        tables_view(self.tables@)
    }
}

pub open spec fn has_column(cols: Seq<Column>, name: Seq<char>) -> bool {
    exists|j: int| 0 <= j < cols.len() && (#[trigger] cols[j]).name@ == name
}

pub open spec fn columns_distinct(cols: Seq<Column>) -> bool {
    forall|i: int, j: int|
        0 <= i < j < cols.len() ==> (#[trigger] cols[i]).name@ != (#[trigger] cols[j]).name@
}

/// Index of the last table with this name, or -1.
pub open spec fn table_index(s: Seq<TableView>, name: Seq<char>) -> int
    decreases s.len(),
{
    if s.len() == 0 {
        -1
    } else if s.last().name == name {
        s.len() - 1
    } else {
        table_index(s.drop_last(), name)
    }
}

/// What a schema action does to the tables, or why it fails.
pub open spec fn apply_spec(s: Seq<TableView>, op: SchemaOp) -> Result<Seq<TableView>, OpError> {
    match op {
        SchemaOp::CreateTable { name, columns, if_not_exists } => {
            if table_index(s, name@) >= 0 {
                if if_not_exists {
                    Ok(s)
                } else {
                    Err(OpError::TableExists)
                }
            } else if !columns_distinct(columns@) {
                Err(OpError::DuplicateColumn)
            } else {
                Ok(s.push(TableView { name: name@, columns: columns@ }))
            }
        },
        SchemaOp::DropTable { name } => {
            let i = table_index(s, name@);
            if i < 0 {
                Err(OpError::NoSuchTable)
            } else {
                Ok(s.remove(i))
            }
        },
        SchemaOp::AddColumn { table, column } => {
            let i = table_index(s, table@);
            if i < 0 {
                Err(OpError::NoSuchTable)
            } else if has_column(s[i].columns, column.name@) {
                Err(OpError::ColumnExists)
            } else {
                Ok(s.update(i, TableView { name: s[i].name, columns: s[i].columns.push(column) }))
            }
        },
    }
}

proof fn lemma_table_index(s: Seq<TableView>, name: Seq<char>)
    ensures
        -1 <= table_index(s, name) < s.len(),
        table_index(s, name) >= 0 ==> s[table_index(s, name)].name == name,
        table_index(s, name) < 0 ==> forall|k: int| 0 <= k < s.len() ==> (#[trigger] s[k]).name != name,
    decreases s.len(),
{
    if s.len() > 0 && s.last().name != name {
        lemma_table_index(s.drop_last(), name);
        if table_index(s, name) < 0 {
            assert forall|k: int| 0 <= k < s.len() implies (#[trigger] s[k]).name != name by {
                if k < s.len() - 1 {
                    assert(s[k] == s.drop_last()[k]);
                }
            }
        }
    }
}

impl Schema {
    /// The schema of a store that has never been migrated: no tables.
    pub fn empty() -> (r: Schema)
        ensures
            r@ == Seq::<TableView>::empty(),
    {
        let r = Schema { tables: Vec::new() };
        assert(r@ =~= Seq::<TableView>::empty());
        r
    }

    /// Position of the table with this name, searching from the end.
    pub fn find_table(&self, name: &String) -> (r: Option<usize>)
        ensures
            r is None <==> table_index(self@, name@) < 0,
            r matches Some(i) ==> i as int == table_index(self@, name@),
    {
        let mut j: usize = self.tables.len();
        assert(self@.subrange(0, j as int) =~= self@);
        while j > 0
            invariant
                j <= self.tables.len(),
                table_index(self@, name@) == table_index(self@.subrange(0, j as int), name@),
            decreases j,
        {
            let ghost pre = self@.subrange(0, j as int);
            if self.tables[j - 1].name == *name {
                return Some(j - 1);
            }
            assert(pre.drop_last() =~= self@.subrange(0, j - 1));
            j = j - 1;
        }
        assert(self@.subrange(0, 0) =~= Seq::<TableView>::empty());
        None
    }

    /// Applies one action, all or nothing: on failure the schema is left as it was.
    pub fn apply(&mut self, op: &SchemaOp) -> (r: Result<(), OpError>)
        ensures
            r matches Err(e) ==> apply_spec(old(self)@, *op) == Err::<Seq<TableView>, OpError>(e)
                && *final(self) == *old(self),
            r is Ok ==> apply_spec(old(self)@, *op) == Ok::<Seq<TableView>, OpError>(final(self)@),
    {
        proof {
            let n = match op {
                SchemaOp::CreateTable { name, .. } => name@,
                SchemaOp::DropTable { name } => name@,
                SchemaOp::AddColumn { table, .. } => table@,
            };
            lemma_table_index(self@, n);
        }
        match op {
            SchemaOp::CreateTable { name, columns, if_not_exists } => {
                if self.find_table(name).is_some() {
                    if *if_not_exists {
                        Ok(())
                    } else {
                        Err(OpError::TableExists)
                    }
                } else if !distinct_names(columns) {
                    Err(OpError::DuplicateColumn)
                } else {
                    let t = Table { name: name.clone(), columns: duplicate_columns(columns) };
                    self.tables.push(t);
                    assert(self@ =~= old(self)@.push(TableView { name: name@, columns: columns@ }));
                    Ok(())
                }
            },
            SchemaOp::DropTable { name } => {
                match self.find_table(name) {
                    None => Err(OpError::NoSuchTable),
                    Some(i) => {
                        self.tables.remove(i);
                        assert(self@ =~= old(self)@.remove(i as int));
                        Ok(())
                    },
                }
            },
            SchemaOp::AddColumn { table, column } => {
                match self.find_table(table) {
                    None => Err(OpError::NoSuchTable),
                    Some(i) => {
                        if column_position(&self.tables[i].columns, &column.name).is_some() {
                            Err(OpError::ColumnExists)
                        } else {
                            let mut t = self.tables.remove(i);
                            t.columns.push(column.duplicate());
                            self.tables.insert(i, t);
                            assert(self@ =~= old(self)@.update(
                                i as int,
                                TableView { name: old(self)@[i as int].name, columns: old(self)@[i as int].columns.push(*column) },
                            ));
                            Ok(())
                        }
                    },
                }
            },
        }
    }
}

/// Position of a column with this name, if there is one.
pub fn column_position(cols: &Vec<Column>, name: &String) -> (r: Option<usize>)
    ensures
        r is None <==> !has_column(cols@, name@),
        r matches Some(j) ==> j < cols@.len() && cols@[j as int].name@ == name@,
{
    let mut j: usize = 0;
    while j < cols.len()
        invariant
            j <= cols.len(),
            forall|k: int| 0 <= k < j ==> (#[trigger] cols@[k]).name@ != name@,
        decreases cols.len() - j,
    {
        if cols[j].name == *name {
            return Some(j);
        }
        j = j + 1;
    }
    None
}

/// Whether no two columns of the list share a name.
pub fn distinct_names(cols: &Vec<Column>) -> (r: bool)
    ensures
        r == columns_distinct(cols@),
{
    let mut i: usize = 0;
    while i < cols.len()
        invariant
            i <= cols.len(),
            forall|a: int, b: int|
                0 <= a < b < cols@.len() && a < i ==> (#[trigger] cols@[a]).name@ != (#[trigger] cols@[b]).name@,
        decreases cols.len() - i,
    {
        let mut j: usize = i + 1;
        while j < cols.len()
            invariant
                i < j <= cols.len(),
                forall|a: int, b: int|
                    0 <= a < b < cols@.len() && a < i ==> (#[trigger] cols@[a]).name@ != (#[trigger] cols@[b]).name@,
                forall|b: int| i < b < j ==> cols@[i as int].name@ != (#[trigger] cols@[b]).name@,
            decreases cols.len() - j,
        {
            if cols[i].name == cols[j].name {
                return false;
            }
            j = j + 1;
        }
        i = i + 1;
    }
    true
}

} // verus!
