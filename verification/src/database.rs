use vstd::prelude::*;
use crate::field::{clone_fields, field_views, Field, FieldView};
use crate::filter::SelectOptionFilter;
use crate::row::{clone_rows, row_views, CreateRowParams, Row, RowView};
use crate::select_option::str_views;

verus! {

/// The layouts a view can present a database in.
#[derive(Clone, Copy, Debug, PartialEq, Eq, Structural)]
pub enum DatabaseLayout {
    Grid,
    Board,
    Calendar,
}

/// The calendar layout's per-view configuration.
#[derive(Debug, PartialEq, Eq)]
pub struct CalendarLayoutSetting {
    pub field_id: String,
    pub first_day_of_week: u8,
    pub show_weekends: bool,
    pub show_week_numbers: bool,
}

/// The mathematical image of a calendar layout setting.
pub struct CalendarSettingView {
    pub field_id: Seq<char>,
    pub first_day_of_week: u8,
    pub show_weekends: bool,
    pub show_week_numbers: bool,
}

impl View for CalendarLayoutSetting {
    type V = CalendarSettingView;

    open spec fn view(&self) -> CalendarSettingView {
        CalendarSettingView {
            field_id: self.field_id@,
            first_day_of_week: self.first_day_of_week,
            show_weekends: self.show_weekends,
            show_week_numbers: self.show_week_numbers,
        }
    }
}

impl Clone for CalendarLayoutSetting {
    fn clone(&self) -> (r: Self)
        ensures
            r@ == self@,
    {
        CalendarLayoutSetting {
            field_id: self.field_id.clone(),
            first_day_of_week: self.first_day_of_week,
            show_weekends: self.show_weekends,
            show_week_numbers: self.show_week_numbers,
        }
    }
}

impl CalendarLayoutSetting {
    /// The default configuration around a date field.
    pub fn new(field_id: String) -> (r: Self)
        ensures
            r.field_id@ == field_id@,
            r.first_day_of_week == 0u8,
            r.show_weekends == true,
            r.show_week_numbers == false,
    {
        CalendarLayoutSetting {
            field_id,
            first_day_of_week: 0,
            show_weekends: true,
            show_week_numbers: false,
        }
    }
}

/// Per-layout settings of a view; only the calendar layout carries one.
#[derive(Debug, PartialEq, Eq)]
pub struct LayoutSettings {
    pub calendar: Option<CalendarLayoutSetting>,
}

impl Clone for LayoutSettings {
    fn clone(&self) -> (r: Self)
        ensures
            r@ == self@,
    {
        LayoutSettings {
            calendar: match &self.calendar {
                Some(c) => Some(c.clone()),
                None => None,
            },
        }
    }
}

impl View for LayoutSettings {
    type V = Option<CalendarSettingView>;

    open spec fn view(&self) -> Option<CalendarSettingView> {
        match self.calendar {
            Some(c) => Some(c@),
            None => None,
        }
    }
}

impl Default for LayoutSettings {
    fn default() -> (r: Self)
        ensures
            r@ == None::<CalendarSettingView>,
    {
        LayoutSettings { calendar: None }
    }
}

impl LayoutSettings {
    /// Stores a layout's setting; only the calendar layout holds one here.
    pub fn insert(&mut self, layout: DatabaseLayout, setting: CalendarLayoutSetting)
        ensures
            layout == DatabaseLayout::Calendar ==> final(self)@ == Some(setting@),
            layout != DatabaseLayout::Calendar ==> final(self)@ == old(self)@,
    {
        if layout == DatabaseLayout::Calendar {
            self.calendar = Some(setting);
        }
    }
}

/// A column-sort directive of a view.
#[derive(Debug, PartialEq, Eq)]
pub struct SortCondition {
    pub field_id: String,
    pub ascending: bool,
}

impl Clone for SortCondition {
    fn clone(&self) -> (r: Self)
        ensures
            r.field_id@ == self.field_id@,
            r.ascending == self.ascending,
    {
        SortCondition { field_id: self.field_id.clone(), ascending: self.ascending }
    }
}

/// A grouping directive of a view.
#[derive(Debug, PartialEq, Eq)]
pub struct GroupSetting {
    pub field_id: String,
}

impl Clone for GroupSetting {
    fn clone(&self) -> (r: Self)
        ensures
            r.field_id@ == self.field_id@,
    {
        GroupSetting { field_id: self.field_id.clone() }
    }
}

/// A saved presentation of a database: layout, layout settings, and its
/// filter, sort and group configuration.  Views reference rows and fields,
/// they never own them.
#[derive(Debug, PartialEq, Eq)]
pub struct DatabaseView {
    pub id: String,
    pub name: String,
    pub layout: DatabaseLayout,
    pub layout_settings: LayoutSettings,
    pub filters: Vec<SelectOptionFilter>,
    pub sorts: Vec<SortCondition>,
    pub groups: Vec<GroupSetting>,
}

/// The mathematical image of a view's identity and layout configuration.
pub struct ViewConfigView {
    pub id: Seq<char>,
    pub name: Seq<char>,
    pub layout: DatabaseLayout,
    pub calendar: Option<CalendarSettingView>,
}

impl View for DatabaseView {
    type V = ViewConfigView;

    open spec fn view(&self) -> ViewConfigView {
        ViewConfigView {
            id: self.id@,
            name: self.name@,
            layout: self.layout,
            calendar: self.layout_settings@,
        }
    }
}

impl Clone for DatabaseView {
    fn clone(&self) -> (r: Self)
        ensures
            r@ == self@,
    {
        let mut filters: Vec<SelectOptionFilter> = Vec::new();
        let mut i: usize = 0;
        while i < self.filters.len()
            decreases self.filters@.len() - i,
        {
            filters.push(self.filters[i].clone());
            i += 1;
        }
        let mut sorts: Vec<SortCondition> = Vec::new();
        let mut j: usize = 0;
        while j < self.sorts.len()
            decreases self.sorts@.len() - j,
        {
            sorts.push(self.sorts[j].clone());
            j += 1;
        }
        let mut groups: Vec<GroupSetting> = Vec::new();
        let mut k: usize = 0;
        while k < self.groups.len()
            decreases self.groups@.len() - k,
        {
            groups.push(self.groups[k].clone());
            k += 1;
        }
        DatabaseView {
            id: self.id.clone(),
            name: self.name.clone(),
            layout: self.layout,
            layout_settings: self.layout_settings.clone(),
            filters,
            sorts,
            groups,
        }
    }
}

/// The views of a view list.
pub open spec fn view_configs(v: Seq<DatabaseView>) -> Seq<ViewConfigView> {
    v.map_values(|w: DatabaseView| w@)
}

/// One database: identity, ordered field list, row collection, and the
/// views that present it.
#[derive(Debug, PartialEq, Eq)]
pub struct Database {
    pub id: String,
    pub name: String,
    pub fields: Vec<Field>,
    pub rows: Vec<Row>,
    pub views: Vec<DatabaseView>,
}

/// The mathematical image of a database.
pub struct DatabaseImage {
    pub id: Seq<char>,
    pub name: Seq<char>,
    pub fields: Seq<FieldView>,
    pub rows: Seq<RowView>,
    pub views: Seq<ViewConfigView>,
}

impl View for Database {
    type V = DatabaseImage;

    open spec fn view(&self) -> DatabaseImage {
        DatabaseImage {
            id: self.id@,
            name: self.name@,
            fields: field_views(self.fields@),
            rows: row_views(self.rows@),
            views: view_configs(self.views@),
        }
    }
}

/// The ids of an image's views, in order.
pub open spec fn view_id_list(d: DatabaseImage) -> Seq<Seq<char>> {
    d.views.map_values(|w: ViewConfigView| w.id)
}

/// Whether a database image carries a view with this id.
pub open spec fn image_has_view(d: DatabaseImage, view_id: Seq<char>) -> bool {
    exists|j: int| 0 <= j < d.views.len() && d.views[j].id == view_id
}

/// At most one field of a list is primary.
pub open spec fn at_most_one_primary(fields: Seq<FieldView>) -> bool {
    forall|i: int, j: int|
        0 <= i < fields.len() && 0 <= j < fields.len() && fields[i].is_primary
            && fields[j].is_primary ==> i == j
}

/// Checks that at most one field of a list is primary.
pub fn has_at_most_one_primary(fields: &Vec<Field>) -> (r: bool)
    ensures
        r == at_most_one_primary(field_views(fields@)),
{
    let ghost v = field_views(fields@);
    let mut found: bool = false;
    let ghost mut fi: int = 0;
    let mut i: usize = 0;
    while i < fields.len()
        invariant
            i <= fields@.len(),
            v == field_views(fields@),
            v.len() == fields@.len(),
            !found ==> forall|k: int| 0 <= k < i ==> !v[k].is_primary,
            found ==> 0 <= fi < i && v[fi].is_primary && (forall|k: int|
                0 <= k < i && #[trigger] v[k].is_primary ==> k == fi),
        decreases fields@.len() - i,
    {
        proof {
            assert(v[i as int] == fields@[i as int]@);
        }
        if fields[i].is_primary {
            if found {
                proof {
                    assert(v[fi].is_primary && v[i as int].is_primary && fi != i as int);
                }
                return false;
            }
            found = true;
            proof {
                fi = i as int;
            }
        }
        i += 1;
    }
    true
}

impl Database {
    /// A database is well formed when at most one field is primary.
    pub open spec fn wf(&self) -> bool {
        at_most_one_primary(self@.fields)
    }

    /// Whether some view of this database has the given id.
    pub fn has_view(&self, view_id: &String) -> (r: bool)
        ensures
            r == image_has_view(self@, view_id@),
    {
        let mut i: usize = 0;
        while i < self.views.len()
            invariant
                i <= self.views@.len(),
                forall|k: int| 0 <= k < i ==> view_configs(self.views@)[k].id != view_id@,
            decreases self.views@.len() - i,
        {
            proof {
                assert(view_configs(self.views@)[i as int] == self.views@[i as int]@);
            }
            if self.views[i].id.eq(view_id) {
                proof {
                    assert(self@.views[i as int].id == view_id@);
                }
                return true;
            }
            i += 1;
        }
        false
    }

    /// The ids of this database's views.
    pub fn view_ids(&self) -> (r: Vec<String>)
        ensures
            str_views(r@) == view_id_list(self@),
    {
        let mut out: Vec<String> = Vec::new();
        let mut i: usize = 0;
        while i < self.views.len()
            invariant
                i <= self.views@.len(),
                out@.len() == i,
                forall|k: int| 0 <= k < i ==> out@[k]@ == view_configs(self.views@)[k].id,
            decreases self.views@.len() - i,
        {
            proof {
                assert(view_configs(self.views@)[i as int] == self.views@[i as int]@);
            }
            out.push(self.views[i].id.clone());
            i += 1;
        }
        proof {
            assert(str_views(out@) =~= view_id_list(self@));
        }
        out
    }

    /// Materializes a database from creation parameters: the fields and
    /// rows as given, and one view carrying the requested presentation.
    pub fn from_params(params: CreateDatabaseParams) -> (r: Database)
        requires
            at_most_one_primary(field_views(params.fields@)),
        ensures
            r.wf(),
            r@.id == params.database_id@,
            r@.name == params.name@,
            r@.fields == field_views(params.fields@),
            r@.rows.len() == params.created_rows@.len(),
            forall|k: int|
                0 <= k < params.created_rows@.len() ==> r@.rows[k].id
                    == params.created_rows@[k].id@ && r@.rows[k].cells
                    == crate::row::cell_views(params.created_rows@[k].cells@),
            r@.views.len() == 1,
            r@.views[0].id == params.view_id@,
            r@.views[0].name == params.name@,
            r@.views[0].layout == params.layout,
            r@.views[0].calendar == params.layout_settings@,
    {
        let CreateDatabaseParams {
            database_id,
            view_id,
            name,
            layout,
            layout_settings,
            filters,
            groups,
            sorts,
            created_rows,
            fields,
        } = params;
        let view_name = name.clone();
        let the_view = DatabaseView {
            id: view_id,
            name: view_name,
            layout,
            layout_settings,
            filters,
            sorts,
            groups,
        };
        let mut views: Vec<DatabaseView> = Vec::new();
        views.push(the_view);
        let mut rows: Vec<Row> = Vec::new();
        let ghost created = created_rows@;
        let remaining = created_rows;
        // consume the creation list front to back
        while rows.len() < remaining.len()
            invariant
                remaining@ == created,
                rows@.len() <= created.len(),
                forall|k: int|
                    0 <= k < rows@.len() ==> rows@[k].id@ == created[k].id@ && crate::row::cell_views(
                        rows@[k].cells@,
                    ) == crate::row::cell_views(created[k].cells@),
            decreases remaining@.len() - rows@.len(),
        {
            let idx = rows.len();
            let row_id = remaining[idx].id.clone();
            let cells = crate::row::clone_cells(&remaining[idx].cells);
            rows.push(Row { id: row_id, cells });
        }
        let r = Database { id: database_id, name, fields, rows, views };
        proof {
            assert(view_configs(r.views@)[0] == r.views@[0]@);
            assert(forall|k: int|
                0 <= k < r.rows@.len() ==> row_views(r.rows@)[k] == r.rows@[k]@);
            assert(forall|k: int|
                0 <= k < created.len() ==> #[trigger] row_views(r.rows@)[k].cells
                    == crate::row::cell_views(created[k].cells@));
        }
        r
    }
}

/// The views of a database list.
pub open spec fn database_images(v: Seq<Database>) -> Seq<DatabaseImage> {
    v.map_values(|d: Database| d@)
}

/// The index of the first view with this id, or -1.
pub open spec fn view_index(views: Seq<DatabaseView>, id: Seq<char>) -> int
    decreases views.len(),
{
    if views.len() == 0 {
        -1
    } else if views[0].id@ == id {
        0
    } else {
        let t = view_index(views.drop_first(), id);
        if t == -1 {
            -1
        } else {
            t + 1
        }
    }
}

proof fn lemma_view_index_bounds(views: Seq<DatabaseView>, id: Seq<char>)
    ensures
        -1 <= view_index(views, id) < views.len(),
        view_index(views, id) >= 0 ==> views[view_index(views, id)].id@ == id,
    decreases views.len(),
{
    if views.len() == 0 {
    } else if views[0].id@ == id {
    } else {
        lemma_view_index_bounds(views.drop_first(), id);
    }
}

proof fn lemma_view_index_present(views: Seq<DatabaseView>, id: Seq<char>)
    ensures
        view_index(views, id) >= 0 <==> exists|k: int|
            0 <= k < views.len() && views[k].id@ == id,
    decreases views.len(),
{
    lemma_view_index_bounds(views, id);
    if views.len() == 0 {
    } else if views[0].id@ == id {
    } else {
        lemma_view_index_present(views.drop_first(), id);
        if exists|k: int| 0 <= k < views.len() && views[k].id@ == id {
            let k = choose|k: int| 0 <= k < views.len() && views[k].id@ == id;
            assert(views.drop_first()[k - 1] == views[k]);
        }
        if exists|k: int| 0 <= k < views.drop_first().len() && views.drop_first()[k].id@ == id {
            let k = choose|k: int|
                0 <= k < views.drop_first().len() && views.drop_first()[k].id@ == id;
            assert(views[k + 1] == views.drop_first()[k]);
        }
    }
}

/// What a new database is created from.
#[derive(Debug, PartialEq, Eq)]
pub struct CreateDatabaseParams {
    pub database_id: String,
    pub view_id: String,
    pub name: String,
    pub layout: DatabaseLayout,
    pub layout_settings: LayoutSettings,
    pub filters: Vec<SelectOptionFilter>,
    pub groups: Vec<GroupSetting>,
    pub sorts: Vec<SortCondition>,
    pub created_rows: Vec<CreateRowParams>,
    pub fields: Vec<Field>,
}

/// A lightweight summary of one database: its identity and the ids of the
/// views that reference it.
#[derive(Debug, PartialEq, Eq)]
pub struct DatabaseDescription {
    pub database_id: String,
    pub name: String,
    pub view_ids: Vec<String>,
}

/// A self-contained transferable snapshot of one database: its name, the
/// presented view's configuration, and the full field and row data.
#[derive(Debug, PartialEq, Eq)]
pub struct DuplicatedDatabase {
    pub name: String,
    pub view: DatabaseView,
    pub fields: Vec<Field>,
    pub rows: Vec<Row>,
}

/// The mathematical image of a transferable snapshot.
pub struct DuplicatedImage {
    pub name: Seq<char>,
    pub view: ViewConfigView,
    pub fields: Seq<FieldView>,
    pub rows: Seq<RowView>,
}

impl View for DuplicatedDatabase {
    type V = DuplicatedImage;

    open spec fn view(&self) -> DuplicatedImage {
        DuplicatedImage {
            name: self.name@,
            view: self.view@,
            fields: field_views(self.fields@),
            rows: row_views(self.rows@),
        }
    }
}

impl Database {
    /// Snapshots this database around the view with the given id.
    pub fn duplicate_for_view(&self, view_id: &String) -> (r: Option<DuplicatedDatabase>)
        ensures
            match r {
                Some(d) => {
                    let vi = view_index(self.views@, view_id@);
                    &&& image_has_view(self@, view_id@)
                    &&& vi >= 0
                    &&& d@.name == self@.name
                    &&& d@.view == self@.views[vi]
                    &&& d@.view.id == view_id@
                    &&& d@.fields == self@.fields
                    &&& d@.rows == self@.rows
                },
                None => !image_has_view(self@, view_id@),
            },
    {
        let ghost views = self.views@;
        let mut i: usize = 0;
        proof {
            assert(views.skip(0) =~= views);
        }
        while i < self.views.len()
            invariant
                i <= views.len(),
                views == self.views@,
                view_index(views, view_id@) == if view_index(views.skip(i as int), view_id@)
                    == -1 {
                    -1
                } else {
                    i + view_index(views.skip(i as int), view_id@)
                },
            decreases views.len() - i,
        {
            proof {
                assert(views.skip(i as int)[0] == views[i as int]);
                assert(views.skip(i as int).drop_first() =~= views.skip(i as int + 1));
                lemma_view_index_bounds(views.skip(i as int + 1), view_id@);
            }
            if self.views[i].id.eq(view_id) {
                let r = DuplicatedDatabase {
                    name: self.name.clone(),
                    view: self.views[i].clone(),
                    fields: clone_fields(&self.fields),
                    rows: clone_rows(&self.rows),
                };
                proof {
                    assert(view_configs(self.views@)[i as int] == self.views@[i as int]@);
                    assert(self@.views[i as int].id == view_id@);
                }
                return Some(r);
            }
            i += 1;
        }
        proof {
            assert(views.skip(views.len() as int) =~= Seq::<DatabaseView>::empty());
            lemma_view_index_present(views, view_id@);
            assert(forall|k: int|
                0 <= k < views.len() ==> #[trigger] self@.views[k].id == views[k].id@);
        }
        None
    }

    /// Materializes a brand-new database from a snapshot under fresh ids;
    /// the imported view starts with an empty filter, sort and group
    /// configuration.
    pub fn from_duplicated(data: DuplicatedDatabase, database_id: String, view_id: String) -> (r:
        Database)
        requires
            at_most_one_primary(field_views(data.fields@)),
        ensures
            r.wf(),
            r@.id == database_id@,
            r@.name == data@.name,
            r@.fields == data@.fields,
            r@.rows == data@.rows,
            r@.views.len() == 1,
            r@.views[0].id == view_id@,
            r@.views[0].name == data@.view.name,
            r@.views[0].layout == data@.view.layout,
            r@.views[0].calendar == data@.view.calendar,
    {
        let DuplicatedDatabase { name, view, fields, rows } = data;
        let DatabaseView { id: _, name: view_name, layout, layout_settings, filters: _, sorts: _, groups: _ } = view;
        let fresh_view = DatabaseView {
            id: view_id,
            name: view_name,
            layout,
            layout_settings,
            filters: Vec::new(),
            sorts: Vec::new(),
            groups: Vec::new(),
        };
        let mut views: Vec<DatabaseView> = Vec::new();
        views.push(fresh_view);
        let r = Database { id: database_id, name, fields, rows, views };
        proof {
            assert(view_configs(r.views@)[0] == r.views@[0]@);
        }
        r
    }
}

} // verus!
