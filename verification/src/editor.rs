use vstd::prelude::*;
use crate::cell::Cell;
use crate::database::Database;
use crate::error::DatabaseError;
use crate::field::Field;
use crate::row::{
    cell_data_for, cell_views, find_cell_data, insert_cell_entry, row_views, upsert_cell,
    CellEntryView, CellView, Row, RowView,
};
use crate::select_option::str_views;
use crate::select_shared::remove_id;
use crate::type_option::{
    apply_changeset_to_payload, changeset_applies, changeset_result, CellChangeset,
};

verus! {

/// The first field with this id, if any.
pub open spec fn resolve_field(fields: Seq<Field>, id: Seq<char>) -> Option<Field>
    decreases fields.len(),
{
    if fields.len() == 0 {
        None
    } else if fields[0].id@ == id {
        Some(fields[0])
    } else {
        resolve_field(fields.drop_first(), id)
    }
}

/// The index of the first row with this id, or -1.
pub open spec fn row_index(rows: Seq<Row>, id: Seq<char>) -> int
    decreases rows.len(),
{
    if rows.len() == 0 {
        -1
    } else if rows[0].id@ == id {
        0
    } else {
        let t = row_index(rows.drop_first(), id);
        if t == -1 {
            -1
        } else {
            t + 1
        }
    }
}

/// The raw data a row holds for a field; an absent entry reads empty.
pub open spec fn prior_data(cells: Seq<CellEntryView>, field_id: Seq<char>) -> Seq<char> {
    match cell_data_for(cells, field_id) {
        Some(s) => s,
        None => Seq::empty(),
    }
}

/// Finds the index of the first field with this id.
fn find_field_index(fields: &Vec<Field>, field_id: &String) -> (r: Option<usize>)
    ensures
        match r {
            Some(i) => i < fields@.len() && resolve_field(fields@, field_id@) == Some(
                fields@[i as int],
            ),
            None => resolve_field(fields@, field_id@) == None::<Field>,
        },
{
    let mut i: usize = 0;
    proof {
        assert(fields@.skip(0) =~= fields@);
    }
    while i < fields.len()
        invariant
            i <= fields@.len(),
            resolve_field(fields@, field_id@) == resolve_field(
                fields@.skip(i as int),
                field_id@,
            ),
        decreases fields@.len() - i,
    {
        proof {
            assert(fields@.skip(i as int)[0] == fields@[i as int]);
            assert(fields@.skip(i as int).drop_first() =~= fields@.skip(i as int + 1));
        }
        if fields[i].id.eq(field_id) {
            return Some(i);
        }
        i += 1;
    }
    proof {
        assert(fields@.skip(fields@.len() as int) =~= Seq::<Field>::empty());
    }
    None
}

proof fn lemma_row_index_bounds(rows: Seq<Row>, id: Seq<char>)
    ensures
        -1 <= row_index(rows, id) < rows.len(),
    decreases rows.len(),
{
    if rows.len() == 0 {
    } else if rows[0].id@ == id {
    } else {
        lemma_row_index_bounds(rows.drop_first(), id);
    }
}

/// Finds the index of the first row with this id.
fn find_row_index(rows: &Vec<Row>, row_id: &String) -> (r: Option<usize>)
    ensures
        match r {
            Some(i) => i < rows@.len() && row_index(rows@, row_id@) == i as int,
            None => row_index(rows@, row_id@) == -1,
        },
{
    let mut i: usize = 0;
    proof {
        assert(rows@.skip(0) =~= rows@);
    }
    while i < rows.len()
        invariant
            i <= rows@.len(),
            row_index(rows@, row_id@) == if row_index(rows@.skip(i as int), row_id@) == -1 {
                -1
            } else {
                i + row_index(rows@.skip(i as int), row_id@)
            },
        decreases rows@.len() - i,
    {
        proof {
            assert(rows@.skip(i as int)[0] == rows@[i as int]);
            assert(rows@.skip(i as int).drop_first() =~= rows@.skip(i as int + 1));
            lemma_row_index_bounds(rows@.skip(i as int + 1), row_id@);
        }
        if rows[i].id.eq(row_id) {
            return Some(i);
        }
        i += 1;
    }
    proof {
        assert(rows@.skip(rows@.len() as int) =~= Seq::<Row>::empty());
    }
    None
}

/// The runtime session object owning one database's mutable in-memory
/// state.  Its lifecycle runs from creation, through the views that attach
/// and detach, to an explicit close; a closed editor rejects every data
/// operation with an internal error instead of panicking.
#[derive(Debug)]
pub struct DatabaseEditor {
    pub database: Database,
    pub attached_views: Vec<String>,
    pub closed: bool,
}

impl DatabaseEditor {
    /// The views currently attached, as character sequences.
    pub open spec fn attached(&self) -> Seq<Seq<char>> {
        str_views(self.attached_views@)
    }

    /// Wraps a database in a fresh editor with no views attached.
    pub fn new(database: Database) -> (r: Self)
        ensures
            r.database == database,
            r.attached().len() == 0,
            r.closed == false,
    {
        let r = DatabaseEditor { database, attached_views: Vec::new(), closed: false };
        proof {
            assert(r.attached() =~= Seq::<Seq<char>>::empty());
        }
        r
    }

    /// Attaches a view; attaching one already attached changes nothing.
    pub fn attach_view(&mut self, view_id: String)
        ensures
            final(self).database == old(self).database,
            final(self).closed == old(self).closed,
            old(self).attached().contains(view_id@) ==> final(self).attached() == old(self).attached(),
            !old(self).attached().contains(view_id@) ==> final(self).attached() == old(self).attached().push(view_id@),
    {
        if !crate::select_option::contains_str(&self.attached_views, &view_id) {
            let ghost before = self.attached_views@;
            proof {
                assert(str_views(before.push(view_id)) =~= str_views(before).push(view_id@));
            }
            self.attached_views.push(view_id);
        }
    }

    /// Detaches a view; the result says whether this was the last attached
    /// view, signaling the caller that the editor can be discarded.
    pub fn detach_view(&mut self, view_id: &String) -> (r: bool)
        ensures
            final(self).database == old(self).database,
            final(self).closed == old(self).closed,
            final(self).attached() == remove_id(old(self).attached(), view_id@),
            r == (final(self).attached().len() == 0),
    {
        self.attached_views = crate::select_shared::remove_matching(
            &self.attached_views,
            view_id,
        );
        self.attached_views.len() == 0
    }

    /// Releases the editor; no further data operation is valid.
    pub fn close(&mut self)
        ensures
            final(self).database == old(self).database,
            final(self).attached() == old(self).attached(),
            final(self).closed == true,
    {
        self.closed = true;
    }

    pub fn is_closed(&self) -> (r: bool)
        ensures
            r == self.closed,
    {
        self.closed
    }

    /// Finds the first field with this id.
    pub fn get_field<'a>(&'a self, field_id: &String) -> (r: Option<&'a Field>)
        ensures
            match r {
                Some(f) => resolve_field(self.database.fields@, field_id@) == Some(*f),
                None => resolve_field(self.database.fields@, field_id@) == None::<Field>,
            },
    {
        match find_field_index(&self.database.fields, field_id) {
            Some(i) => Some(&self.database.fields[i]),
            None => None,
        }
    }

    /// Applies a cell changeset through the owning field's type option and
    /// stores the produced raw string in the row.  The editor itself holds
    /// no field-type-specific logic.  The write happens exactly when the
    /// editor is open, field and row resolve, and the changeset belongs to
    /// the field's family; every failure leaves the editor unchanged.
    pub fn update_cell(
        &mut self,
        row_id: &String,
        field_id: &String,
        changeset: &CellChangeset,
    ) -> (r: Result<(), DatabaseError>)
        ensures
            final(self).attached() == old(self).attached(),
            final(self).closed == old(self).closed,
            final(self).database.id@ == old(self).database.id@,
            final(self).database.name@ == old(self).database.name@,
            final(self).database.fields@ == old(self).database.fields@,
            final(self).database.views@ == old(self).database.views@,
            old(self).closed ==> r == Err::<(), DatabaseError>(DatabaseError::Internal) && final(self).database == old(self).database,
            !old(self).closed ==> match resolve_field(old(self).database.fields@, field_id@) {
                None => r == Err::<(), DatabaseError>(DatabaseError::NotFound) && final(self).database == old(self).database,
                Some(f) => {
                    let rows0 = old(self).database.rows@;
                    let ri = row_index(rows0, row_id@);
                    if ri < 0 {
                        r == Err::<(), DatabaseError>(DatabaseError::NotFound) && final(self).database == old(self).database
                    } else if !changeset_applies(f.type_option, changeset@) {
                        r == Err::<(), DatabaseError>(DatabaseError::Validation) && final(self).database == old(self).database
                    } else {
                        &&& r == Ok::<(), DatabaseError>(())
                        &&& row_views(final(self).database.rows@) == row_views(rows0).update(
                            ri,
                            RowView {
                                id: rows0[ri].id@,
                                cells: upsert_cell(
                                    cell_views(rows0[ri].cells@),
                                    CellEntryView {
                                        field_id: field_id@,
                                        cell: CellView {
                                            field_type: f.field_type,
                                            data: changeset_result(
                                                f.type_option,
                                                changeset@,
                                                prior_data(
                                                    cell_views(rows0[ri].cells@),
                                                    field_id@,
                                                ),
                                            ),
                                        },
                                    },
                                ),
                            },
                        )
                    }
                },
            },
    {
        if self.closed {
            return Err(DatabaseError::Internal);
        }
        let fi = match find_field_index(&self.database.fields, field_id) {
            Some(i) => i,
            None => {
                return Err(DatabaseError::NotFound);
            },
        };
        let ri = match find_row_index(&self.database.rows, row_id) {
            Some(i) => i,
            None => {
                return Err(DatabaseError::NotFound);
            },
        };
        let prior = find_cell_data(&self.database.rows[ri].cells, field_id);
        let raw = match apply_changeset_to_payload(
            &self.database.fields[fi].type_option,
            prior,
            changeset,
        ) {
            Ok(s) => s,
            Err(e) => {
                return Err(e);
            },
        };
        let field_type = self.database.fields[fi].field_type;
        let mut row = self.database.rows[ri].clone();
        insert_cell_entry(&mut row.cells, field_id.clone(), Cell::new(field_type, raw));
        let ghost rows0 = old(self).database.rows@;
        proof {
            assert(row_views(rows0.update(ri as int, row)) =~= row_views(rows0).update(
                ri as int,
                row@,
            ));
        }
        self.database.rows.set(ri, row);
        Ok(())
    }
}

} // verus!
