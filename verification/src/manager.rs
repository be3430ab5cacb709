use vstd::prelude::*;
use crate::database::{
    at_most_one_primary, has_at_most_one_primary, image_has_view, Database, DatabaseDescription,
    DuplicatedDatabase,
};
use crate::field::field_views;
use crate::editor::DatabaseEditor;
use crate::error::DatabaseError;
use crate::select_option::str_views;

verus! {

/// The database id that owns the view with this id, searching a list of
/// databases front to back.
pub open spec fn view_owner_in(dbs: Seq<Database>, view_id: Seq<char>) -> Option<Seq<char>>
    decreases dbs.len(),
{
    if dbs.len() == 0 {
        None
    } else if image_has_view(dbs[0]@, view_id) {
        Some(dbs[0].id@)
    } else {
        view_owner_in(dbs.drop_first(), view_id)
    }
}

/// The index of the first database with this id, or -1.
pub open spec fn db_index(dbs: Seq<Database>, id: Seq<char>) -> int
    decreases dbs.len(),
{
    if dbs.len() == 0 {
        -1
    } else if dbs[0].id@ == id {
        0
    } else {
        let t = db_index(dbs.drop_first(), id);
        if t == -1 {
            -1
        } else {
            t + 1
        }
    }
}

proof fn lemma_db_index_bounds(dbs: Seq<Database>, id: Seq<char>)
    ensures
        -1 <= db_index(dbs, id) < dbs.len(),
        db_index(dbs, id) >= 0 ==> dbs[db_index(dbs, id)].id@ == id,
    decreases dbs.len(),
{
    if dbs.len() == 0 {
    } else if dbs[0].id@ == id {
    } else {
        lemma_db_index_bounds(dbs.drop_first(), id);
    }
}

proof fn lemma_db_index_present(dbs: Seq<Database>, id: Seq<char>)
    ensures
        db_index(dbs, id) >= 0 <==> exists|k: int| 0 <= k < dbs.len() && dbs[k].id@ == id,
    decreases dbs.len(),
{
    lemma_db_index_bounds(dbs, id);
    if dbs.len() == 0 {
    } else if dbs[0].id@ == id {
    } else {
        lemma_db_index_present(dbs.drop_first(), id);
        if exists|k: int| 0 <= k < dbs.len() && dbs[k].id@ == id {
            let k = choose|k: int| 0 <= k < dbs.len() && dbs[k].id@ == id;
            assert(dbs.drop_first()[k - 1] == dbs[k]);
        }
        if exists|k: int| 0 <= k < dbs.drop_first().len() && dbs.drop_first()[k].id@ == id {
            let k = choose|k: int|
                0 <= k < dbs.drop_first().len() && dbs.drop_first()[k].id@ == id;
            assert(dbs[k + 1] == dbs.drop_first()[k]);
        }
    }
}

/// The session-scoped storage handle: the databases of one user.  The
/// manager reads it only after session initialization.
#[derive(Debug)]
pub struct UserDatabaseStore {
    pub user_id: i64,
    pub databases: Vec<Database>,
}

impl UserDatabaseStore {
    pub fn new(user_id: i64) -> (r: Self)
        ensures
            r.user_id == user_id,
            r.databases@.len() == 0,
    {
        UserDatabaseStore { user_id, databases: Vec::new() }
    }
}

/// Searches a database list for the owner of a view.
fn view_owner_exec(dbs: &Vec<Database>, view_id: &String) -> (r: Option<String>)
    ensures
        match r {
            Some(id) => view_owner_in(dbs@, view_id@) == Some(id@),
            None => view_owner_in(dbs@, view_id@) == None::<Seq<char>>,
        },
{
    let mut i: usize = 0;
    proof {
        assert(dbs@.skip(0) =~= dbs@);
    }
    while i < dbs.len()
        invariant
            i <= dbs@.len(),
            view_owner_in(dbs@, view_id@) == view_owner_in(dbs@.skip(i as int), view_id@),
        decreases dbs@.len() - i,
    {
        proof {
            assert(dbs@.skip(i as int)[0] == dbs@[i as int]);
            assert(dbs@.skip(i as int).drop_first() =~= dbs@.skip(i as int + 1));
        }
        if dbs[i].has_view(view_id) {
            return Some(dbs[i].id.clone());
        }
        i += 1;
    }
    proof {
        assert(dbs@.skip(dbs@.len() as int) =~= Seq::<Database>::empty());
    }
    None
}

/// Finds the index of the first database with this id.
fn find_db_index(dbs: &Vec<Database>, id: &String) -> (r: Option<usize>)
    ensures
        match r {
            Some(i) => i < dbs@.len() && db_index(dbs@, id@) == i as int,
            None => db_index(dbs@, id@) == -1,
        },
{
    let mut i: usize = 0;
    proof {
        assert(dbs@.skip(0) =~= dbs@);
    }
    while i < dbs.len()
        invariant
            i <= dbs@.len(),
            db_index(dbs@, id@) == if db_index(dbs@.skip(i as int), id@) == -1 {
                -1
            } else {
                i + db_index(dbs@.skip(i as int), id@)
            },
        decreases dbs@.len() - i,
    {
        proof {
            assert(dbs@.skip(i as int)[0] == dbs@[i as int]);
            assert(dbs@.skip(i as int).drop_first() =~= dbs@.skip(i as int + 1));
            lemma_db_index_bounds(dbs@.skip(i as int + 1), id@);
        }
        if dbs[i].id.eq(id) {
            return Some(i);
        }
        i += 1;
    }
    proof {
        assert(dbs@.skip(dbs@.len() as int) =~= Seq::<Database>::empty());
    }
    None
}

/// The databases owned by the editors of a registry, in registry order.
pub open spec fn editor_databases(eds: Seq<DatabaseEditor>) -> Seq<Database> {
    eds.map_values(|e: DatabaseEditor| e.database)
}

/// The index of the first editor owning this database id, or -1.
pub open spec fn editor_index(eds: Seq<DatabaseEditor>, id: Seq<char>) -> int {
    db_index(editor_databases(eds), id)
}

/// Finds the index of the editor owning this database id.
fn find_editor_index(eds: &Vec<DatabaseEditor>, id: &String) -> (r: Option<usize>)
    ensures
        match r {
            Some(i) => i < eds@.len() && editor_index(eds@, id@) == i as int,
            None => editor_index(eds@, id@) == -1,
        },
{
    let ghost dbs = editor_databases(eds@);
    let mut i: usize = 0;
    proof {
        assert(dbs.skip(0) =~= dbs);
    }
    while i < eds.len()
        invariant
            i <= eds@.len(),
            dbs == editor_databases(eds@),
            dbs.len() == eds@.len(),
            db_index(dbs, id@) == if db_index(dbs.skip(i as int), id@) == -1 {
                -1
            } else {
                i + db_index(dbs.skip(i as int), id@)
            },
        decreases eds@.len() - i,
    {
        proof {
            assert(dbs.skip(i as int)[0] == dbs[i as int]);
            assert(dbs[i as int] == eds@[i as int].database);
            assert(dbs.skip(i as int).drop_first() =~= dbs.skip(i as int + 1));
            lemma_db_index_bounds(dbs.skip(i as int + 1), id@);
        }
        if eds[i].database.id.eq(id) {
            return Some(i);
        }
        i += 1;
    }
    proof {
        assert(dbs.skip(eds@.len() as int) =~= Seq::<Database>::empty());
    }
    None
}

/// The top-level entry point: resolves views to databases and keeps at most
/// one live editor per database id.  Callers serialize access to it; every
/// entry point is a single atomic step of the registry, so a lookup that
/// finds a cached editor changes nothing and a miss constructs exactly one.
#[derive(Debug)]
pub struct DatabaseManager2 {
    pub user_database: Option<UserDatabaseStore>,
    pub editors: Vec<DatabaseEditor>,
}

impl DatabaseManager2 {
    /// Every database lives in exactly one place (the store or one editor),
    /// at most one editor exists per database id, and no registered editor
    /// is closed.  Before initialization the registry is empty.
    pub open spec fn wf(&self) -> bool {
        &&& (self.user_database is None ==> self.editors@.len() == 0)
        &&& (forall|i: int, j: int|
            0 <= i < self.editors@.len() && 0 <= j < self.editors@.len() && i != j
                ==> self.editors@[i].database.id@ != self.editors@[j].database.id@)
        &&& (forall|i: int| 0 <= i < self.editors@.len() ==> !self.editors@[i].closed)
        &&& match self.user_database {
            Some(s) => {
                &&& (forall|i: int, j: int|
                    0 <= i < s.databases@.len() && 0 <= j < s.databases@.len() && i != j
                        ==> s.databases@[i].id@ != s.databases@[j].id@)
                &&& (forall|i: int, j: int|
                    0 <= i < s.databases@.len() && 0 <= j < self.editors@.len()
                        ==> s.databases@[i].id@ != self.editors@[j].database.id@)
            },
            None => true,
        }
    }

    /// Every database this session knows, wherever it lives: the store's,
    /// then the ones checked out by editors.
    pub open spec fn all_databases(&self) -> Seq<Database> {
        (match self.user_database {
            Some(s) => s.databases@,
            None => Seq::empty(),
        }) + editor_databases(self.editors@)
    }

    /// A fresh, uninitialized manager.
    pub fn new() -> (r: Self)
        ensures
            r.user_database is None,
            r.editors@.len() == 0,
            r.wf(),
    {
        DatabaseManager2 { user_database: None, editors: Vec::new() }
    }

    /// Starts a session for one user with an empty store; editors of an
    /// earlier session are discarded.
    pub fn initialize(&mut self, user_id: i64) -> (r: Result<(), DatabaseError>)
        ensures
            r is Ok,
            final(self).user_database matches Some(s) && s.user_id == user_id
                && s.databases@.len() == 0,
            final(self).editors@.len() == 0,
            final(self).wf(),
    {
        self.user_database = Some(UserDatabaseStore::new(user_id));
        self.editors = Vec::new();
        Ok(())
    }

    /// Resolves the database id that owns a view, searching the store and
    /// the checked-out databases.
    pub fn get_database_id_with_view_id(&self, view_id: &String) -> (r: Option<String>)
        ensures
            match r {
                Some(id) => view_owner_in(self.all_databases(), view_id@) == Some(id@),
                None => view_owner_in(self.all_databases(), view_id@) == None::<Seq<char>>,
            },
    {
        let ghost all = self.all_databases();
        match &self.user_database {
            None => {
                proof {
                    assert(all =~= editor_databases(self.editors@));
                }
                self.view_owner_in_editors(view_id)
            },
            Some(s) => {
                match view_owner_exec(&s.databases, view_id) {
                    Some(id) => {
                        proof {
                            lemma_view_owner_concat(
                                s.databases@,
                                editor_databases(self.editors@),
                                view_id@,
                            );
                        }
                        Some(id)
                    },
                    None => {
                        proof {
                            lemma_view_owner_concat(
                                s.databases@,
                                editor_databases(self.editors@),
                                view_id@,
                            );
                        }
                        self.view_owner_in_editors(view_id)
                    },
                }
            },
        }
    }

    /// Searches the checked-out databases for the owner of a view.
    fn view_owner_in_editors(&self, view_id: &String) -> (r: Option<String>)
        ensures
            match r {
                Some(id) => view_owner_in(editor_databases(self.editors@), view_id@) == Some(
                    id@,
                ),
                None => view_owner_in(editor_databases(self.editors@), view_id@) == None::<
                    Seq<char>,
                >,
            },
    {
        let ghost dbs = editor_databases(self.editors@);
        let mut i: usize = 0;
        proof {
            assert(dbs.skip(0) =~= dbs);
        }
        while i < self.editors.len()
            invariant
                i <= self.editors@.len(),
                dbs == editor_databases(self.editors@),
                dbs.len() == self.editors@.len(),
                view_owner_in(dbs, view_id@) == view_owner_in(dbs.skip(i as int), view_id@),
            decreases self.editors@.len() - i,
        {
            proof {
                assert(dbs.skip(i as int)[0] == dbs[i as int]);
                assert(dbs[i as int] == self.editors@[i as int].database);
                assert(dbs.skip(i as int).drop_first() =~= dbs.skip(i as int + 1));
            }
            if self.editors[i].database.has_view(view_id) {
                return Some(self.editors[i].database.id.clone());
            }
            i += 1;
        }
        proof {
            assert(dbs.skip(self.editors@.len() as int) =~= Seq::<Database>::empty());
        }
        None
    }

    /// Returns the id under which an editor for the view's database is
    /// registered, constructing the editor on first access.  A lookup that
    /// finds a cached editor changes nothing, so repeated calls construct
    /// exactly one editor per database id.
    pub fn get_database(&mut self, view_id: &String) -> (r: Result<String, DatabaseError>)
        requires
            old(self).wf(),
        ensures
            final(self).wf(),
            final(self).user_database is Some <==> old(self).user_database is Some,
            old(self).user_database is None ==> r == Err::<String, DatabaseError>(
                DatabaseError::Internal,
            ) && *final(self) == *old(self),
            old(self).user_database is Some ==> match view_owner_in(
                old(self).all_databases(),
                view_id@,
            ) {
                None => r == Err::<String, DatabaseError>(DatabaseError::NotFound)
                    && *final(self) == *old(self),
                Some(db_id) => {
                    &&& r is Ok
                    &&& r->Ok_0@ == db_id
                    &&& editor_index(final(self).editors@, db_id) >= 0
                    &&& editor_index(old(self).editors@, db_id) >= 0 ==> *final(self) == *old(self)
                    &&& editor_index(old(self).editors@, db_id) == -1 ==> {
                        let si = db_index(old(self).user_database->Some_0.databases@, db_id);
                        &&& si >= 0
                        &&& final(self).editors@.len() == old(self).editors@.len() + 1
                        &&& final(self).editors@.subrange(0, old(self).editors@.len() as int)
                            == old(self).editors@
                        &&& final(self).editors@.last().database == old(
                            self,
                        ).user_database->Some_0.databases@[si]
                        &&& final(self).editors@.last().attached().len() == 0
                        &&& final(self).editors@.last().closed == false
                        &&& final(self).user_database->Some_0.databases@ == old(
                            self,
                        ).user_database->Some_0.databases@.remove(si)
                        &&& final(self).user_database->Some_0.user_id == old(
                            self,
                        ).user_database->Some_0.user_id
                    }
                },
            },
    {
        match &self.user_database {
            None => {
                return Err(DatabaseError::Internal);
            },
            Some(_) => {},
        }
        let db_id = match self.get_database_id_with_view_id(view_id) {
            Some(id) => id,
            None => {
                return Err(DatabaseError::NotFound);
            },
        };
        match find_editor_index(&self.editors, &db_id) {
            Some(_) => {
                return Ok(db_id);
            },
            None => {},
        }
        let ghost all = self.all_databases();
        let ghost eds0 = self.editors@;
        match &mut self.user_database {
            Some(s) => {
                let si = match find_db_index(&s.databases, &db_id) {
                    Some(i) => i,
                    None => {
                        proof {
                            lemma_view_owner_found(all, view_id@);
                            lemma_db_index_concat(
                                s.databases@,
                                editor_databases(eds0),
                                db_id@,
                            );
                            lemma_db_index_bounds(s.databases@, db_id@);
                            assert(false);
                        }
                        return Err(DatabaseError::Internal);
                    },
                };
                let ghost store0 = s.databases@;
                let db = s.databases.remove(si);
                let editor = DatabaseEditor::new(db);
                proof {
                    assert(editor_databases(eds0.push(editor)) =~= editor_databases(eds0).push(
                        editor.database,
                    ));
                    lemma_db_index_bounds(store0, db_id@);
                }
                self.editors.push(editor);
                proof {
                    assert(self.editors@.subrange(0, eds0.len() as int) =~= eds0);
                    let neweds = editor_databases(self.editors@);
                    assert(neweds[eds0.len() as int].id@ == db_id@);
                    lemma_db_index_present(neweds, db_id@);
                    lemma_db_index_present(editor_databases(eds0), db_id@);
                    assert(forall|j: int|
                        0 <= j < eds0.len() ==> #[trigger] self.editors@[j].database.id@ == eds0[j].database.id@);
                    assert(forall|i: int, j: int|
                        0 <= i < store0.remove(si as int).len() && 0 <= j < store0.remove(
                            si as int,
                        ).len() && i != j ==> #[trigger] store0.remove(si as int)[i].id@
                            != #[trigger] store0.remove(si as int)[j].id@) by {
                        assert(forall|i: int|
                            0 <= i < store0.remove(si as int).len()
                                ==> #[trigger] store0.remove(si as int)[i] == (if i < si {
                                store0[i]
                            } else {
                                store0[i + 1]
                            }));
                    }
                    assert(forall|i: int|
                        0 <= i < store0.remove(si as int).len()
                            ==> #[trigger] store0.remove(si as int)[i].id@ != db_id@) by {
                        assert(forall|i: int|
                            0 <= i < store0.remove(si as int).len()
                                ==> #[trigger] store0.remove(si as int)[i] == (if i < si {
                                store0[i]
                            } else {
                                store0[i + 1]
                            }));
                    }
                }
                Ok(db_id)
            },
            None => {
                proof {
                    assert(false);
                }
                Err(DatabaseError::Internal)
            },
        }
    }

    /// Detaches a view from its database's editor; when it was the last
    /// attached view the editor is closed, evicted from the registry, and
    /// its database returns to the store.  Unknown views are a no-op.
    pub fn close_database_view(&mut self, view_id: &String) -> (r: Result<(), DatabaseError>)
        requires
            old(self).wf(),
        ensures
            r is Ok,
            final(self).wf(),
            final(self).user_database is Some <==> old(self).user_database is Some,
            match view_owner_in(old(self).all_databases(), view_id@) {
                None => *final(self) == *old(self),
                Some(db_id) => {
                    let ei = editor_index(old(self).editors@, db_id);
                    if ei == -1 {
                        *final(self) == *old(self)
                    } else {
                        let left = crate::select_shared::remove_id(
                            old(self).editors@[ei].attached(),
                            view_id@,
                        );
                        if left.len() > 0 {
                            &&& final(self).user_database == old(self).user_database
                            &&& final(self).editors@.len() == old(self).editors@.len()
                            &&& (forall|j: int|
                                0 <= j < old(self).editors@.len() && j != ei
                                    ==> final(self).editors@[j] == old(self).editors@[j])
                            &&& final(self).editors@[ei].database == old(
                                self,
                            ).editors@[ei].database
                            &&& final(self).editors@[ei].closed == old(self).editors@[ei].closed
                            &&& final(self).editors@[ei].attached() == left
                        } else {
                            &&& final(self).editors@ == old(self).editors@.remove(ei)
                            &&& final(self).user_database->Some_0.databases@ == old(
                                self,
                            ).user_database->Some_0.databases@.push(
                                old(self).editors@[ei].database,
                            )
                            &&& final(self).user_database->Some_0.user_id == old(
                                self,
                            ).user_database->Some_0.user_id
                        }
                    }
                },
            },
    {
        let db_id = match self.get_database_id_with_view_id(view_id) {
            Some(id) => id,
            None => {
                return Ok(());
            },
        };
        let ei = match find_editor_index(&self.editors, &db_id) {
            Some(i) => i,
            None => {
                return Ok(());
            },
        };
        let ghost eds0 = self.editors@;
        let mut ed = self.editors.remove(ei);
        let last = ed.detach_view(view_id);
        if last {
            ed.close();
            let db = ed.database;
            match &mut self.user_database {
                Some(s) => {
                    s.databases.push(db);
                },
                None => {
                    proof {
                        assert(false);
                    }
                },
            }
            proof {
                assert(forall|i: int|
                    0 <= i < eds0.remove(ei as int).len() ==> #[trigger] eds0.remove(
                        ei as int,
                    )[i] == (if i < ei {
                        eds0[i]
                    } else {
                        eds0[i + 1]
                    }));
            }
        } else {
            let ghost removed = self.editors@;
            self.editors.insert(ei, ed);
            proof {
                assert(forall|i: int|
                    0 <= i < removed.len() ==> #[trigger] removed[i] == (if i < ei {
                        eds0[i]
                    } else {
                        eds0[i + 1]
                    }));
                assert(forall|j: int|
                    0 <= j < eds0.len() && j != ei ==> #[trigger] self.editors@[j] == eds0[j]);
            }
        }
        Ok(())
    }

    /// A lightweight summary of every known database, without touching or
    /// constructing editors; an uninitialized session yields an empty list.
    #[verifier::rlimit(100)]
    #[verifier::spinoff_prover]
    pub fn get_all_databases_description(&self) -> (r: Vec<DatabaseDescription>)
        ensures
            self.user_database is None ==> r@.len() == 0,
            self.user_database is Some ==> {
                let all = self.all_databases();
                &&& r@.len() == all.len()
                &&& (forall|k: int|
                    0 <= k < all.len() ==> #[trigger] r@[k].database_id@ == all[k].id@
                        && r@[k].name@ == all[k].name@ && str_views(r@[k].view_ids@)
                        == crate::database::view_id_list(all[k]@))
            },
    {
        let ghost all = self.all_databases();
        match &self.user_database {
            None => Vec::new(),
            Some(s) => {
                let mut out: Vec<DatabaseDescription> = Vec::new();
                let mut i: usize = 0;
                while i < s.databases.len()
                    invariant
                        i <= s.databases@.len(),
                        out@.len() == i,
                        forall|k: int|
                            0 <= k < i ==> #[trigger] out@[k].database_id@ == s.databases@[k].id@
                                && out@[k].name@ == s.databases@[k].name@ && str_views(
                                out@[k].view_ids@,
                            ) == crate::database::view_id_list(s.databases@[k]@),
                    decreases s.databases@.len() - i,
                {
                    let d = &s.databases[i];
                    out.push(
                        DatabaseDescription {
                            database_id: d.id.clone(),
                            name: d.name.clone(),
                            view_ids: d.view_ids(),
                        },
                    );
                    i += 1;
                }
                let n = s.databases.len();
                let mut j: usize = 0;
                while j < self.editors.len()
                    invariant
                        j <= self.editors@.len(),
                        n == s.databases@.len(),
                        out@.len() == n + j,
                        forall|k: int|
                            0 <= k < n ==> #[trigger] out@[k].database_id@ == s.databases@[k].id@
                                && out@[k].name@ == s.databases@[k].name@ && str_views(
                                out@[k].view_ids@,
                            ) == crate::database::view_id_list(s.databases@[k]@),
                        forall|k: int|
                            0 <= k < j ==> #[trigger] out@[n + k].database_id@
                                == self.editors@[k].database.id@ && out@[n + k].name@
                                == self.editors@[k].database.name@ && str_views(
                                out@[n + k].view_ids@,
                            ) == crate::database::view_id_list(self.editors@[k].database@),
                    decreases self.editors@.len() - j,
                {
                    let d = &self.editors[j].database;
                    out.push(
                        DatabaseDescription {
                            database_id: d.id.clone(),
                            name: d.name.clone(),
                            view_ids: d.view_ids(),
                        },
                    );
                    j += 1;
                }
                proof {
                    let n2 = s.databases@.len() as int;
                    assert(all.len() == s.databases@.len() + self.editors@.len());
                    assert(forall|k: int|
                        0 <= k < s.databases@.len() ==> #[trigger] all[k] == s.databases@[k]);
                    assert(forall|k: int|
                        0 <= k < self.editors@.len()
                            ==> #[trigger] editor_databases(self.editors@)[k]
                            == self.editors@[k].database);
                    assert(forall|k: int|
                        s.databases@.len() <= k < all.len() ==> #[trigger] all[k]
                            == self.editors@[k - s.databases@.len()].database);
                    assert forall|k: int| 0 <= k < all.len() implies #[trigger] out@[
                        k
                    ].database_id@ == all[k].id@ && out@[k].name@ == all[k].name@ && str_views(
                        out@[k].view_ids@,
                    ) == crate::database::view_id_list(all[k]@) by {
                        if k >= n2 {
                            let k2 = k - n2;
                            assert(out@[n2 + k2].database_id@
                                == self.editors@[k2].database.id@);
                            assert(out@[n2 + k2].name@ == self.editors@[k2].database.name@);
                            assert(str_views(out@[n2 + k2].view_ids@)
                                == crate::database::view_id_list(
                                self.editors@[k2].database@,
                            ));
                            assert(all[k] == self.editors@[k2].database);
                        } else {
                            assert(out@[k].database_id@ == s.databases@[k].id@);
                            assert(str_views(out@[k].view_ids@)
                                == crate::database::view_id_list(s.databases@[k]@));
                            assert(all[k] == s.databases@[k]);
                        }
                    }
                }
                out
            },
        }
    }

    /// Creates a brand-new database in the store from explicit parameters;
    /// an id already in use is rejected as a validation error.
    pub fn create_database_with_params(&mut self, params: crate::database::CreateDatabaseParams) -> (r: Result<
        (),
        DatabaseError,
    >)
        requires
            old(self).wf(),
        ensures
            final(self).wf(),
            final(self).user_database is Some <==> old(self).user_database is Some,
            old(self).user_database is None ==> r == Err::<(), DatabaseError>(
                DatabaseError::Internal,
            ) && *final(self) == *old(self),
            old(self).user_database is Some ==> {
                let all = old(self).all_databases();
                if db_index(all, params.database_id@) >= 0 || view_owner_in(all, params.view_id@)
                    is Some || !at_most_one_primary(field_views(params.fields@)) {
                    r == Err::<(), DatabaseError>(DatabaseError::Validation) && *final(self)
                        == *old(self)
                } else {
                    &&& r is Ok
                    &&& final(self).user_database->Some_0.databases@.last().wf()
                    &&& final(self).editors@ == old(self).editors@
                    &&& final(self).user_database->Some_0.user_id == old(
                        self,
                    ).user_database->Some_0.user_id
                    &&& final(self).user_database->Some_0.databases@.len() == old(
                        self,
                    ).user_database->Some_0.databases@.len() + 1
                    &&& final(self).user_database->Some_0.databases@.subrange(
                        0,
                        old(self).user_database->Some_0.databases@.len() as int,
                    ) == old(self).user_database->Some_0.databases@
                    &&& final(self).user_database->Some_0.databases@.last()@.id
                        == params.database_id@
                    &&& final(self).user_database->Some_0.databases@.last()@.fields
                        == crate::field::field_views(params.fields@)
                    &&& final(self).user_database->Some_0.databases@.last()@.rows.len()
                        == params.created_rows@.len()
                    &&& final(self).user_database->Some_0.databases@.last()@.views.len() == 1
                    &&& final(self).user_database->Some_0.databases@.last()@.views[0].id
                        == params.view_id@
                }
            },
    {
        match &self.user_database {
            None => {
                return Err(DatabaseError::Internal);
            },
            Some(_) => {},
        }
        if !has_at_most_one_primary(&params.fields) {
            return Err(DatabaseError::Validation);
        }
        let ghost all = self.all_databases();
        let ghost eds0 = self.editors@;
        match self.get_database_id_with_view_id(&params.view_id) {
            Some(_) => {
                return Err(DatabaseError::Validation);
            },
            None => {},
        }
        let dup_in_editors = match find_editor_index(&self.editors, &params.database_id) {
            Some(_) => true,
            None => false,
        };
        match &mut self.user_database {
            Some(s) => {
                let ghost store0 = s.databases@;
                let dup_in_store = match find_db_index(&s.databases, &params.database_id) {
                    Some(_) => true,
                    None => false,
                };
                proof {
                    lemma_db_index_concat(store0, editor_databases(eds0), params.database_id@);
                }
                if dup_in_store || dup_in_editors {
                    proof {
                        lemma_db_index_bounds(all, params.database_id@);
                    }
                    return Err(DatabaseError::Validation);
                }
                let ghost pid = params.database_id@;
                let db = crate::database::Database::from_params(params);
                proof {
                    lemma_db_index_present(store0, pid);
                    lemma_db_index_present(editor_databases(eds0), pid);
                }
                s.databases.push(db);
                proof {
                    assert(s.databases@.subrange(0, store0.len() as int) =~= store0);
                    assert(forall|j: int|
                        0 <= j < store0.len() ==> #[trigger] s.databases@[j] == store0[j]);
                    assert(s.databases@.last().id@ == pid);
                    assert(forall|k: int|
                        0 <= k < store0.len() ==> #[trigger] store0[k].id@ != pid);
                    assert(forall|k: int|
                        0 <= k < eds0.len() ==> #[trigger] editor_databases(eds0)[k]
                            == eds0[k].database);
                    assert forall|k: int| 0 <= k < eds0.len() implies #[trigger] eds0[
                        k
                    ].database.id@ != pid by {
                        assert(editor_databases(eds0)[k] == eds0[k].database);
                        if editor_databases(eds0)[k].id@ == pid {
                            lemma_db_index_present(editor_databases(eds0), pid);
                        }
                    }
                    assert(forall|i: int, j: int|
                        0 <= i < s.databases@.len() && 0 <= j < s.databases@.len() && i != j
                            ==> #[trigger] s.databases@[i].id@ != #[trigger] s.databases@[j].id@);
                }
                Ok(())
            },
            None => {
                proof {
                    assert(false);
                }
                Err(DatabaseError::Internal)
            },
        }
    }

    /// Snapshots the database a view belongs to into a transferable value.
    pub fn make_duplicate_database_data(&self, view_id: &String) -> (r: Result<
        DuplicatedDatabase,
        DatabaseError,
    >)
        requires
            self.wf(),
        ensures
            self.user_database is None ==> r == Err::<DuplicatedDatabase, DatabaseError>(
                DatabaseError::Internal,
            ),
            self.user_database is Some ==> match view_owner_in(self.all_databases(), view_id@) {
                None => r == Err::<DuplicatedDatabase, DatabaseError>(DatabaseError::NotFound),
                Some(db_id) => {
                    let di = db_index(self.all_databases(), db_id);
                    &&& r is Ok
                    &&& di >= 0
                    &&& r->Ok_0@.name == self.all_databases()[di]@.name
                    &&& r->Ok_0@.fields == self.all_databases()[di]@.fields
                    &&& r->Ok_0@.rows == self.all_databases()[di]@.rows
                    &&& r->Ok_0@.view.id == view_id@
                },
            },
    {
        match &self.user_database {
            None => {
                return Err(DatabaseError::Internal);
            },
            Some(_) => {},
        }
        let ghost all = self.all_databases();
        let db_id = match self.get_database_id_with_view_id(view_id) {
            Some(id) => id,
            None => {
                return Err(DatabaseError::NotFound);
            },
        };
        proof {
            lemma_wf_unique(self);
            lemma_view_owner_found(all, view_id@);
            lemma_db_index_bounds(all, db_id@);
            lemma_view_owner_names_view(all, view_id@);
        }
        match &self.user_database {
            Some(s) => {
                proof {
                    lemma_db_index_concat(s.databases@, editor_databases(self.editors@), db_id@);
                }
                match find_db_index(&s.databases, &db_id) {
                    Some(si) => {
                        proof {
                            lemma_db_index_bounds(s.databases@, db_id@);
                            lemma_db_index_split_left(
                                s.databases@,
                                editor_databases(self.editors@),
                                db_id@,
                            );
                        }
                        match s.databases[si].duplicate_for_view(view_id) {
                            Some(d) => Ok(d),
                            None => {
                                proof {
                                    assert(false);
                                }
                                Err(DatabaseError::Internal)
                            },
                        }
                    },
                    None => {
                        match find_editor_index(&self.editors, &db_id) {
                            Some(ei) => {
                                proof {
                                    lemma_db_index_bounds(
                                        editor_databases(self.editors@),
                                        db_id@,
                                    );
                                    lemma_db_index_split_right(
                                        s.databases@,
                                        editor_databases(self.editors@),
                                        db_id@,
                                    );
                                    assert(editor_databases(self.editors@)[ei as int]
                                        == self.editors@[ei as int].database);
                                }
                                match self.editors[ei].database.duplicate_for_view(view_id) {
                                    Some(d) => Ok(d),
                                    None => {
                                        proof {
                                            assert(false);
                                        }
                                        Err(DatabaseError::Internal)
                                    },
                                }
                            },
                            None => {
                                proof {
                                    assert(false);
                                }
                                Err(DatabaseError::Internal)
                            },
                        }
                    },
                }
            },
            None => {
                proof {
                    assert(false);
                }
                Err(DatabaseError::Internal)
            },
        }
    }

    /// Snapshots the database a view belongs to into a self-contained byte
    /// representation; the bytes decode back to exactly the snapshot image.
    pub fn duplicate_database(&self, view_id: &String) -> (r: Result<Vec<u8>, DatabaseError>)
        requires
            self.wf(),
        ensures
            self.user_database is None ==> r == Err::<Vec<u8>, DatabaseError>(
                DatabaseError::Internal,
            ),
            self.user_database is Some ==> match view_owner_in(self.all_databases(), view_id@) {
                None => r == Err::<Vec<u8>, DatabaseError>(DatabaseError::NotFound),
                Some(db_id) => {
                    let di = db_index(self.all_databases(), db_id);
                    &&& r is Ok
                    &&& di >= 0
                    &&& match crate::snapshot::dec_dup(r->Ok_0@) {
                        Some(q) => {
                            &&& q.1.len() == 0
                            &&& q.0.name == self.all_databases()[di]@.name
                            &&& q.0.fields == self.all_databases()[di]@.fields
                            &&& q.0.rows == self.all_databases()[di]@.rows
                            &&& q.0.view.id == view_id@
                        },
                        None => false,
                    }
                },
            },
    {
        let d = match self.make_duplicate_database_data(view_id) {
            Ok(d) => d,
            Err(e) => {
                return Err(e);
            },
        };
        let bytes = crate::snapshot::to_snapshot_bytes(&d);
        proof {
            crate::snapshot::lemma_dup_round_trip(d, Seq::<u8>::empty());
            assert(crate::snapshot::enc_dup(d) + Seq::<u8>::empty() =~= crate::snapshot::enc_dup(
                d,
            ));
        }
        Ok(bytes)
    }

    /// Materializes a brand-new database from transferable snapshot bytes
    /// under the given fresh ids; malformed bytes and ids already in use are
    /// rejected as validation errors.
    pub fn create_database_with_data(
        &mut self,
        data: Vec<u8>,
        database_id: String,
        view_id: String,
    ) -> (r: Result<(), DatabaseError>)
        requires
            old(self).wf(),
        ensures
            final(self).wf(),
            final(self).user_database is Some <==> old(self).user_database is Some,
            old(self).user_database is None ==> r == Err::<(), DatabaseError>(
                DatabaseError::Internal,
            ) && *final(self) == *old(self),
            old(self).user_database is Some ==> match crate::snapshot::dec_dup(data@) {
                None => r == Err::<(), DatabaseError>(DatabaseError::Validation) && *final(self)
                    == *old(self),
                Some(q) => {
                    if q.1.len() != 0 {
                        r == Err::<(), DatabaseError>(DatabaseError::Validation) && *final(self)
                            == *old(self)
                    } else if db_index(old(self).all_databases(), database_id@) >= 0
                        || view_owner_in(old(self).all_databases(), view_id@) is Some
                        || !at_most_one_primary(q.0.fields) {
                        r == Err::<(), DatabaseError>(DatabaseError::Validation) && *final(self)
                            == *old(self)
                    } else {
                        &&& r is Ok
                        &&& final(self).user_database->Some_0.databases@.last().wf()
                        &&& final(self).editors@ == old(self).editors@
                        &&& final(self).user_database->Some_0.databases@.len() == old(
                            self,
                        ).user_database->Some_0.databases@.len() + 1
                        &&& final(self).user_database->Some_0.databases@.subrange(
                            0,
                            old(self).user_database->Some_0.databases@.len() as int,
                        ) == old(self).user_database->Some_0.databases@
                        &&& final(self).user_database->Some_0.databases@.last()@.id
                            == database_id@
                        &&& final(self).user_database->Some_0.databases@.last()@.name == q.0.name
                        &&& final(self).user_database->Some_0.databases@.last()@.fields
                            == q.0.fields
                        &&& final(self).user_database->Some_0.databases@.last()@.rows == q.0.rows
                        &&& final(self).user_database->Some_0.databases@.last()@.views.len() == 1
                        &&& final(self).user_database->Some_0.databases@.last()@.views[0].id
                            == view_id@
                    }
                },
            },
    {
        match &self.user_database {
            None => {
                return Err(DatabaseError::Internal);
            },
            Some(_) => {},
        }
        let d = match crate::snapshot::from_snapshot_bytes(&data) {
            Some(d) => d,
            None => {
                return Err(DatabaseError::Validation);
            },
        };
        if !has_at_most_one_primary(&d.fields) {
            return Err(DatabaseError::Validation);
        }
        let ghost all = self.all_databases();
        let ghost eds0 = self.editors@;
        match self.get_database_id_with_view_id(&view_id) {
            Some(_) => {
                return Err(DatabaseError::Validation);
            },
            None => {},
        }
        let dup_in_editors = match find_editor_index(&self.editors, &database_id) {
            Some(_) => true,
            None => false,
        };
        match &mut self.user_database {
            Some(s) => {
                let ghost store0 = s.databases@;
                let dup_in_store = match find_db_index(&s.databases, &database_id) {
                    Some(_) => true,
                    None => false,
                };
                proof {
                    lemma_db_index_concat(store0, editor_databases(eds0), database_id@);
                }
                if dup_in_store || dup_in_editors {
                    proof {
                        lemma_db_index_bounds(all, database_id@);
                    }
                    return Err(DatabaseError::Validation);
                }
                let ghost pid = database_id@;
                let db = crate::database::Database::from_duplicated(d, database_id, view_id);
                proof {
                    lemma_db_index_present(store0, pid);
                    lemma_db_index_present(editor_databases(eds0), pid);
                }
                s.databases.push(db);
                proof {
                    assert(s.databases@.subrange(0, store0.len() as int) =~= store0);
                    assert(forall|j: int|
                        0 <= j < store0.len() ==> #[trigger] s.databases@[j] == store0[j]);
                    assert(s.databases@.last().id@ == pid);
                    assert(forall|k: int|
                        0 <= k < store0.len() ==> #[trigger] store0[k].id@ != pid);
                    assert forall|k: int| 0 <= k < eds0.len() implies #[trigger] eds0[
                        k
                    ].database.id@ != pid by {
                        assert(editor_databases(eds0)[k] == eds0[k].database);
                        if editor_databases(eds0)[k].id@ == pid {
                            lemma_db_index_present(editor_databases(eds0), pid);
                        }
                    }
                    assert(forall|i: int, j: int|
                        0 <= i < s.databases@.len() && 0 <= j < s.databases@.len() && i != j
                            ==> #[trigger] s.databases@[i].id@ != #[trigger] s.databases@[j].id@);
                }
                Ok(())
            },
            None => {
                proof {
                    assert(false);
                }
                Err(DatabaseError::Internal)
            },
        }
    }
}


/// The single-editor invariant: a well-formed registry holds at most one
/// live editor per database id, so concurrent first accesses serialized
/// through the registry converge on one construction.
pub proof fn lemma_single_editor_per_database(m: &DatabaseManager2, i: int, j: int)
    requires
        m.wf(),
        0 <= i < m.editors@.len(),
        0 <= j < m.editors@.len(),
        m.editors@[i].database.id@ == m.editors@[j].database.id@,
    ensures
        i == j,
{
}

/// A view found in a concatenation is found in one of the halves.
proof fn lemma_view_owner_concat(a: Seq<Database>, b: Seq<Database>, view_id: Seq<char>)
    ensures
        view_owner_in(a + b, view_id) == match view_owner_in(a, view_id) {
            Some(id) => Some(id),
            None => view_owner_in(b, view_id),
        },
    decreases a.len(),
{
    if a.len() == 0 {
        assert(a + b =~= b);
    } else {
        assert((a + b)[0] == a[0]);
        assert((a + b).drop_first() =~= a.drop_first() + b);
        lemma_view_owner_concat(a.drop_first(), b, view_id);
    }
}

/// An id found in a concatenation splits by halves.
proof fn lemma_db_index_concat(a: Seq<Database>, b: Seq<Database>, id: Seq<char>)
    ensures
        db_index(a + b, id) == -1 <==> db_index(a, id) == -1 && db_index(b, id) == -1,
    decreases a.len(),
{
    lemma_db_index_bounds(a, id);
    lemma_db_index_bounds(b, id);
    lemma_db_index_bounds(a + b, id);
    if a.len() == 0 {
        assert(a + b =~= b);
    } else {
        assert((a + b)[0] == a[0]);
        assert((a + b).drop_first() =~= a.drop_first() + b);
        lemma_db_index_concat(a.drop_first(), b, id);
        lemma_db_index_bounds(a.drop_first(), id);
        lemma_db_index_bounds(a.drop_first() + b, id);
    }
}

/// The owner a view resolves to is a database id present in the list.
proof fn lemma_view_owner_found(dbs: Seq<Database>, view_id: Seq<char>)
    ensures
        match view_owner_in(dbs, view_id) {
            Some(id) => db_index(dbs, id) >= 0,
            None => true,
        },
    decreases dbs.len(),
{
    if dbs.len() == 0 {
    } else if image_has_view(dbs[0]@, view_id) {
    } else {
        lemma_view_owner_found(dbs.drop_first(), view_id);
        match view_owner_in(dbs, view_id) {
            Some(id) => {
                lemma_db_index_bounds(dbs.drop_first(), id);
            },
            None => {},
        }
    }
}



/// An id found on the left keeps its index in a concatenation; the owning
/// database of a resolved view carries that view.
proof fn lemma_db_index_split_left(a: Seq<Database>, b: Seq<Database>, id: Seq<char>)
    requires
        db_index(a, id) >= 0,
    ensures
        db_index(a + b, id) == db_index(a, id),
        (a + b)[db_index(a, id)] == a[db_index(a, id)],
    decreases a.len(),
{
    lemma_db_index_bounds(a, id);
    if a.len() == 0 {
    } else {
        assert((a + b)[0] == a[0]);
        assert((a + b).drop_first() =~= a.drop_first() + b);
        if a[0].id@ == id {
        } else {
            lemma_db_index_split_left(a.drop_first(), b, id);
            lemma_db_index_bounds(a.drop_first(), id);
            lemma_db_index_bounds(a.drop_first() + b, id);
        }
    }
}

proof fn lemma_db_index_split_right(a: Seq<Database>, b: Seq<Database>, id: Seq<char>)
    requires
        db_index(a, id) == -1,
        db_index(b, id) >= 0,
    ensures
        db_index(a + b, id) == a.len() + db_index(b, id),
        (a + b)[a.len() + db_index(b, id)] == b[db_index(b, id)],
    decreases a.len(),
{
    lemma_db_index_bounds(b, id);
    if a.len() == 0 {
        assert(a + b =~= b);
    } else {
        assert((a + b)[0] == a[0]);
        assert((a + b).drop_first() =~= a.drop_first() + b);
        lemma_db_index_bounds(a.drop_first(), id);
        lemma_db_index_split_right(a.drop_first(), b, id);
        lemma_db_index_bounds(a.drop_first() + b, id);
    }
}

/// Distinct positions hold distinct database ids.
pub open spec fn unique_db_ids(dbs: Seq<Database>) -> bool {
    forall|i: int, j: int|
        0 <= i < dbs.len() && 0 <= j < dbs.len() && i != j ==> dbs[i].id@ != dbs[j].id@
}

/// The database a view resolves to carries that view.
proof fn lemma_view_owner_names_view(dbs: Seq<Database>, view_id: Seq<char>)
    requires
        unique_db_ids(dbs),
    ensures
        match view_owner_in(dbs, view_id) {
            Some(id) => {
                let di = db_index(dbs, id);
                di >= 0 && image_has_view(dbs[di]@, view_id)
            },
            None => true,
        },
    decreases dbs.len(),
{
    if dbs.len() == 0 {
    } else if image_has_view(dbs[0]@, view_id) {
        lemma_db_index_bounds(dbs, dbs[0].id@);
    } else {
        assert(forall|i: int, j: int|
            0 <= i < dbs.drop_first().len() && 0 <= j < dbs.drop_first().len() && i != j
                ==> #[trigger] dbs.drop_first()[i].id@ != #[trigger] dbs.drop_first()[j].id@) by {
            assert(forall|i: int|
                0 <= i < dbs.drop_first().len() ==> #[trigger] dbs.drop_first()[i] == dbs[i + 1]);
        }
        lemma_view_owner_names_view(dbs.drop_first(), view_id);
        match view_owner_in(dbs, view_id) {
            Some(id) => {
                lemma_db_index_bounds(dbs.drop_first(), id);
                lemma_db_index_bounds(dbs, id);
                let dt = db_index(dbs.drop_first(), id);
                assert(dbs.drop_first()[dt] == dbs[dt + 1]);
                assert(dbs[dt + 1].id@ == id);
                assert(dbs[0].id@ != id);
            },
            None => {},
        }
    }
}

/// A well-formed manager knows each database id exactly once.
proof fn lemma_wf_unique(m: &DatabaseManager2)
    requires
        m.wf(),
    ensures
        unique_db_ids(m.all_databases()),
{
    let all = m.all_databases();
    match m.user_database {
        Some(s) => {
            let n = s.databases@.len() as int;
            assert(forall|k: int| 0 <= k < n ==> #[trigger] all[k] == s.databases@[k]);
            assert(forall|k: int|
                n <= k < all.len() ==> #[trigger] all[k] == m.editors@[k - n].database);
        },
        None => {
            assert(all.len() == 0);
        },
    }
}

} // verus!
