use vstd::prelude::*;
use crate::migration::{Database, MigrationError, MigrationStep, catalog_wf, migrate, run_result};
use crate::schema::{Schema, TableView};
use crate::task::{Task, TaskPatch, apply_patch, patched};

verus! {

#[derive(Clone, Copy, Debug, PartialEq, Eq, Structural)]
pub enum StoreError {
    DuplicateId(u64),
    NotFound(u64),
}

/// Index of the last task with this id, or -1.
pub open spec fn task_index(s: Seq<Task>, id: u64) -> int
    decreases s.len(),
{
    if s.len() == 0 {
        -1
    } else if s.last().id == id {
        s.len() - 1
    } else {
        task_index(s.drop_last(), id)
    }
}

/// Where a task created at `c` goes in a list ordered by creation time: after
/// every task created at or before `c`.
pub open spec fn insert_pos(s: Seq<Task>, c: u64) -> int
    decreases s.len(),
{
    if s.len() == 0 {
        0
    } else if s.last().created_at <= c {
        s.len() as int
    } else {
        insert_pos(s.drop_last(), c)
    }
}

pub open spec fn ids_unique(s: Seq<Task>) -> bool {
    forall|i: int, j: int| 0 <= i < j < s.len() ==> (#[trigger] s[i]).id != (#[trigger] s[j]).id
}

pub open spec fn by_creation(s: Seq<Task>) -> bool {
    forall|i: int, j: int| 0 <= i < j < s.len() ==> (#[trigger] s[i]).created_at <= (#[trigger] s[j]).created_at
}

/// Ids are unique, the list is ordered by creation time, every task is well formed.
pub open spec fn tasks_wf(s: Seq<Task>) -> bool {
    &&& ids_unique(s)
    &&& by_creation(s)
    &&& forall|i: int| 0 <= i < s.len() ==> (#[trigger] s[i]).wf()
}

pub proof fn lemma_task_index(s: Seq<Task>, id: u64)
    ensures
        -1 <= task_index(s, id) < s.len(),
        task_index(s, id) >= 0 ==> s[task_index(s, id)].id == id,
        task_index(s, id) < 0 ==> forall|k: int| 0 <= k < s.len() ==> (#[trigger] s[k]).id != id,
    decreases s.len(),
{
    if s.len() > 0 && s.last().id != id {
        lemma_task_index(s.drop_last(), id);
        if task_index(s, id) < 0 {
            assert forall|k: int| 0 <= k < s.len() implies (#[trigger] s[k]).id != id by {
                if k < s.len() - 1 {
                    assert(s[k] == s.drop_last()[k]);
                }
            }
        }
    }
}

pub proof fn lemma_insert_pos(s: Seq<Task>, c: u64)
    requires
        by_creation(s),
    ensures
        0 <= insert_pos(s, c) <= s.len(),
        forall|k: int| 0 <= k < insert_pos(s, c) ==> (#[trigger] s[k]).created_at <= c,
        forall|k: int| insert_pos(s, c) <= k < s.len() ==> (#[trigger] s[k]).created_at > c,
    decreases s.len(),
{
    if s.len() > 0 {
        if s.last().created_at <= c {
            assert forall|k: int| 0 <= k < s.len() implies (#[trigger] s[k]).created_at <= c by {
                if k < s.len() - 1 {
                    assert(s[k].created_at <= s[s.len() - 1].created_at);
                }
            }
        } else {
            let d = s.drop_last();
            assert(by_creation(d)) by {
                assert forall|i: int, j: int| 0 <= i < j < d.len() implies (#[trigger] d[i]).created_at <= (#[trigger] d[j]).created_at by {
                    assert(d[i] == s[i] && d[j] == s[j]);
                }
            }
            lemma_insert_pos(d, c);
            let p = insert_pos(s, c);
            assert forall|k: int| 0 <= k < p implies (#[trigger] s[k]).created_at <= c by {
                assert(s[k] == d[k]);
            }
            assert forall|k: int| p <= k < s.len() implies (#[trigger] s[k]).created_at > c by {
                if k < s.len() - 1 {
                    assert(s[k] == d[k]);
                }
            }
        }
    }
}

/// The task table of a store whose migrations have all been applied.
pub struct TaskStore {
    db: Database,
    tasks: Vec<Task>,
}

impl View for TaskStore {
    type V = Seq<Task>;

    closed spec fn view(&self) -> Seq<Task> {
        self.tasks@
    }
}

impl TaskStore {
    pub closed spec fn wf(&self) -> bool {
        tasks_wf(self.tasks@)
    }

    pub closed spec fn ledger_version(&self) -> nat {
        self.db.ledger@
    }

    pub closed spec fn tables(&self) -> Seq<TableView> {
        self.db.schema@
    }

    pub proof fn lemma_view_wf(&self)
        requires
            self.wf(),
        ensures
            tasks_wf(self@),
    {
    }

    /// Opens a store: runs the startup migrations and, only if they all
    /// succeed, hands out the task table (empty until rows are inserted).
    pub fn open(db: Database, catalog: &Vec<MigrationStep>) -> (r: Result<TaskStore, MigrationError>)
        requires
            catalog_wf(catalog@),
        ensures
            r is Err <==> migrate(db.schema@, db.ledger@, catalog@).error is Some,
            r matches Err(e) ==> run_result(migrate(db.schema@, db.ledger@, catalog@)) == Err::<(), MigrationError>(e),
            r matches Ok(s) ==> s.wf() && s@ == Seq::<Task>::empty()
                && s.ledger_version() == migrate(db.schema@, db.ledger@, catalog@).version
                && s.tables() == migrate(db.schema@, db.ledger@, catalog@).tables,
    {
        let mut db = db;
        match db.run_migrations(catalog) {
            Err(e) => Err(e),
            Ok(()) => {
                let s = TaskStore { db, tasks: Vec::new() };
                assert(s.tasks@ =~= Seq::<Task>::empty());
                Ok(s)
            },
        }
    }

    pub fn schema_version(&self) -> (r: u64)
        ensures
            r == self.ledger_version(),
    {
        self.db.ledger.current_version()
    }

    pub fn schema(&self) -> (r: &Schema)
        ensures
            r@ == self.tables(),
    {
        &self.db.schema
    }

    /// Position of the task with this id, searching from the end.
    fn position(&self, id: u64) -> (r: Option<usize>)
        ensures
            r is None <==> task_index(self@, id) < 0,
            r matches Some(i) ==> i as int == task_index(self@, id) && i < self@.len(),
    {
        proof {
            lemma_task_index(self@, id);
        }
        let mut j: usize = self.tasks.len();
        assert(self@.subrange(0, j as int) =~= self@);
        while j > 0
            invariant
                j <= self.tasks.len(),
                task_index(self@, id) == task_index(self@.subrange(0, j as int), id),
            decreases j,
        {
            let ghost pre = self@.subrange(0, j as int);
            if self.tasks[j - 1].id == id {
                return Some(j - 1);
            }
            assert(pre.drop_last() =~= self@.subrange(0, j - 1));
            j = j - 1;
        }
        assert(self@.subrange(0, 0) =~= Seq::<Task>::empty());
        None
    }

    /// Adds a task in creation-time order, after any task created at the same time.
    pub fn insert(&mut self, task: Task) -> (r: Result<Task, StoreError>)
        requires
            old(self).wf(),
            task.wf(),
        ensures
            final(self).wf(),
            final(self).ledger_version() == old(self).ledger_version(),
            final(self).tables() == old(self).tables(),
            r is Err <==> task_index(old(self)@, task.id) >= 0,
            r is Err ==> r == Err::<Task, StoreError>(StoreError::DuplicateId(task.id)) && *final(self) == *old(self),
            r is Ok ==> r == Ok::<Task, StoreError>(task)
                && final(self)@ == old(self)@.insert(insert_pos(old(self)@, task.created_at), task),
    {
        if self.position(task.id).is_some() {
            return Err(StoreError::DuplicateId(task.id));
        }
        proof {
            lemma_task_index(self@, task.id);
            lemma_insert_pos(self@, task.created_at);
        }
        let mut j: usize = self.tasks.len();
        assert(self@.subrange(0, j as int) =~= self@);
        while j > 0 && self.tasks[j - 1].created_at > task.created_at
            invariant
                j <= self.tasks.len(),
                insert_pos(self@, task.created_at) == insert_pos(self@.subrange(0, j as int), task.created_at),
            decreases j,
        {
            let ghost pre = self@.subrange(0, j as int);
            assert(pre.drop_last() =~= self@.subrange(0, j - 1));
            j = j - 1;
        }
        assert(j > 0 ==> self@.subrange(0, j as int).last() == self@[j - 1]);
        assert(j == 0 ==> self@.subrange(0, 0) =~= Seq::<Task>::empty());
        let ghost s0 = self@;
        let stored = task.duplicate();
        self.tasks.insert(j, stored);
        assert(self@ == s0.insert(j as int, task));
        assert(tasks_wf(self@)) by {
            let s1 = self@;
            assert forall|a: int, b: int| 0 <= a < b < s1.len() implies (#[trigger] s1[a]).id != (#[trigger] s1[b]).id
                && s1[a].created_at <= s1[b].created_at by {
                if a < j && b > j {
                    assert(s1[a] == s0[a] && s1[b] == s0[b - 1]);
                } else if a < j && b == j {
                    assert(s1[a] == s0[a]);
                } else if a == j {
                    assert(s1[b] == s0[b - 1]);
                } else if a > j {
                    assert(s1[a] == s0[a - 1] && s1[b] == s0[b - 1]);
                } else {
                    assert(s1[a] == s0[a] && s1[b] == s0[b]);
                }
            }
        }
        Ok(task)
    }

    pub fn get(&self, id: u64) -> (r: Result<Task, StoreError>)
        ensures
            r is Err <==> task_index(self@, id) < 0,
            r is Err ==> r == Err::<Task, StoreError>(StoreError::NotFound(id)),
            r matches Ok(t) ==> t == self@[task_index(self@, id)],
    {
        match self.position(id) {
            None => Err(StoreError::NotFound(id)),
            Some(i) => Ok(self.tasks[i].duplicate()),
        }
    }

    /// Changes the patched fields of a task and refreshes its modification time.
    pub fn update(&mut self, id: u64, patch: TaskPatch, now: u64) -> (r: Result<Task, StoreError>)
        requires
            old(self).wf(),
        ensures
            final(self).wf(),
            final(self).ledger_version() == old(self).ledger_version(),
            final(self).tables() == old(self).tables(),
            r is Err <==> task_index(old(self)@, id) < 0,
            r is Err ==> r == Err::<Task, StoreError>(StoreError::NotFound(id)) && *final(self) == *old(self),
            r matches Ok(t) ==> t == patched(old(self)@[task_index(old(self)@, id)], patch, now)
                && final(self)@ == old(self)@.update(task_index(old(self)@, id), t),
    {
        match self.position(id) {
            None => Err(StoreError::NotFound(id)),
            Some(i) => {
                let ghost s0 = self@;
                let t = apply_patch(self.tasks[i].duplicate(), patch, now);
                self.tasks.set(i, t.duplicate());
                assert(self@ == s0.update(i as int, t));
                assert(tasks_wf(self@)) by {
                    let s1 = self@;
                    assert forall|a: int, b: int| 0 <= a < b < s1.len() implies (#[trigger] s1[a]).id != (#[trigger] s1[b]).id
                        && s1[a].created_at <= s1[b].created_at by {
                        assert(s1[a].id == s0[a].id && s1[a].created_at == s0[a].created_at);
                        assert(s1[b].id == s0[b].id && s1[b].created_at == s0[b].created_at);
                    }
                    assert forall|a: int| 0 <= a < s1.len() implies (#[trigger] s1[a]).wf() by {
                        if a != i {
                            assert(s1[a] == s0[a]);
                        }
                    }
                }
                Ok(t)
            },
        }
    }

    /// Removes a task. A second delete of the same id is an error.
    pub fn delete(&mut self, id: u64) -> (r: Result<(), StoreError>)
        requires
            old(self).wf(),
        ensures
            final(self).wf(),
            final(self).ledger_version() == old(self).ledger_version(),
            final(self).tables() == old(self).tables(),
            r is Err <==> task_index(old(self)@, id) < 0,
            r is Err ==> r == Err::<(), StoreError>(StoreError::NotFound(id)) && *final(self) == *old(self),
            r is Ok ==> final(self)@ == old(self)@.remove(task_index(old(self)@, id)),
    {
        match self.position(id) {
            None => Err(StoreError::NotFound(id)),
            Some(i) => {
                let ghost s0 = self@;
                self.tasks.remove(i);
                assert(self@ == s0.remove(i as int));
                assert(tasks_wf(self@)) by {
                    let s1 = self@;
                    assert forall|a: int, b: int| 0 <= a < b < s1.len() implies (#[trigger] s1[a]).id != (#[trigger] s1[b]).id
                        && s1[a].created_at <= s1[b].created_at by {
                        if b < i {
                            assert(s1[a] == s0[a] && s1[b] == s0[b]);
                        } else if a < i {
                            assert(s1[a] == s0[a] && s1[b] == s0[b + 1]);
                        } else {
                            assert(s1[a] == s0[a + 1] && s1[b] == s0[b + 1]);
                        }
                    }
                    assert forall|a: int| 0 <= a < s1.len() implies (#[trigger] s1[a]).wf() by {
                        if a < i {
                            assert(s1[a] == s0[a]);
                        } else {
                            assert(s1[a] == s0[a + 1]);
                        }
                    }
                }
                Ok(())
            },
        }
    }

    /// Every task, ordered by creation time. Each call reads the current state.
    pub fn list_all(&self) -> (r: Vec<Task>)
        ensures
            r@ == self@,
    {
        let mut r: Vec<Task> = Vec::new();
        let mut i: usize = 0;
        while i < self.tasks.len()
            invariant
                i <= self.tasks.len(),
                r@ == self@.subrange(0, i as int),
            decreases self.tasks.len() - i,
        {
            r.push(self.tasks[i].duplicate());
            i = i + 1;
            assert(r@ =~= self@.subrange(0, i as int));
        }
        assert(r@ =~= self@);
        r
    }
}

} // verus!
