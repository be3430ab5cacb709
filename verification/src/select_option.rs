use vstd::prelude::*;

verus! {

/// The separator used by the raw (persisted) representation of a list of
/// selected option ids.
pub open spec fn id_separator() -> char {
    ','
}

/// The views of a sequence of strings, as sequences of characters.
pub open spec fn str_views(v: Seq<String>) -> Seq<Seq<char>> {
    v.map_values(|s: String| s@)
}

/// An option id is storable when it is non-empty and free of the separator;
/// only such ids survive a round trip through the raw cell representation.
pub open spec fn storable_id(id: Seq<char>) -> bool {
    &&& id.len() > 0
    &&& forall|k: int| 0 <= k < id.len() ==> id[k] != id_separator()
}

/// Splits a raw cell string into id segments: `cur` is the segment being
/// read, `acc` the segments already read.  Empty segments are dropped, so
/// decoding is total and malformed input degrades to fewer ids.
pub open spec fn split_ids_from(s: Seq<char>, cur: Seq<char>, acc: Seq<Seq<char>>) -> Seq<Seq<char>>
    decreases s.len(),
{
    if s.len() == 0 {
        if cur.len() == 0 {
            acc
        } else {
            acc.push(cur)
        }
    } else if s[0] == id_separator() {
        if cur.len() == 0 {
            split_ids_from(s.drop_first(), Seq::empty(), acc)
        } else {
            split_ids_from(s.drop_first(), Seq::empty(), acc.push(cur))
        }
    } else {
        split_ids_from(s.drop_first(), cur.push(s[0]), acc)
    }
}

/// What a raw cell string decodes to: its non-empty comma-separated segments.
pub open spec fn decode_ids(s: Seq<char>) -> Seq<Seq<char>> {
    split_ids_from(s, Seq::empty(), Seq::empty())
}

/// The separator-prefixed encoding of every id after the first.
pub open spec fn join_tail(ids: Seq<Seq<char>>) -> Seq<char>
    decreases ids.len(),
{
    if ids.len() == 0 {
        Seq::empty()
    } else {
        seq![id_separator()] + ids[0] + join_tail(ids.drop_first())
    }
}

/// What a list of ids encodes to: the ids joined by the separator.
pub open spec fn join_ids(ids: Seq<Seq<char>>) -> Seq<char> {
    if ids.len() == 0 {
        Seq::empty()
    } else {
        ids[0] + join_tail(ids.drop_first())
    }
}

proof fn lemma_join_tail_push(ids: Seq<Seq<char>>, x: Seq<char>)
    ensures
        join_tail(ids.push(x)) == join_tail(ids) + seq![id_separator()] + x,
    decreases ids.len(),
{
    if ids.len() == 0 {
        assert(ids.push(x)[0] == x);
        assert(ids.push(x).drop_first() =~= Seq::<Seq<char>>::empty());
        assert(join_tail(Seq::<Seq<char>>::empty()) == Seq::<char>::empty());
        assert(join_tail(ids.push(x)) == seq![id_separator()] + x + Seq::<char>::empty());
        assert(join_tail(ids.push(x)) =~= join_tail(ids) + seq![id_separator()] + x);
    } else {
        assert(ids.push(x)[0] == ids[0]);
        assert(ids.push(x).drop_first() =~= ids.drop_first().push(x));
        lemma_join_tail_push(ids.drop_first(), x);
        assert(join_tail(ids.push(x)) == seq![id_separator()] + ids[0] + (join_tail(
            ids.drop_first(),
        ) + seq![id_separator()] + x));
        assert(join_tail(ids.push(x)) =~= join_tail(ids) + seq![id_separator()] + x);
    }
}

/// Appending one more id to a non-empty list appends a separator and the id.
pub proof fn lemma_join_ids_push(ids: Seq<Seq<char>>, x: Seq<char>)
    ensures
        ids.len() == 0 ==> join_ids(ids.push(x)) == x,
        ids.len() > 0 ==> join_ids(ids.push(x)) == join_ids(ids) + seq![id_separator()] + x,
{
    if ids.len() == 0 {
        assert(join_ids(ids.push(x)) =~= x);
    } else {
        assert(ids.push(x)[0] == ids[0]);
        assert(ids.push(x).drop_first() =~= ids.drop_first().push(x));
        lemma_join_tail_push(ids.drop_first(), x);
        assert(join_ids(ids.push(x)) =~= join_ids(ids) + seq![id_separator()] + x);
    }
}

/// Splitting absorbs a separator-free chunk into the current segment.
proof fn lemma_split_absorb(x: Seq<char>, t: Seq<char>, cur: Seq<char>, acc: Seq<Seq<char>>)
    requires
        forall|k: int| 0 <= k < x.len() ==> x[k] != id_separator(),
    ensures
        split_ids_from(x + t, cur, acc) == split_ids_from(t, cur + x, acc),
    decreases x.len(),
{
    if x.len() == 0 {
        assert(x + t =~= t);
        assert(cur + x =~= cur);
    } else {
        assert((x + t)[0] == x[0]);
        assert((x + t).drop_first() =~= x.drop_first() + t);
        lemma_split_absorb(x.drop_first(), t, cur.push(x[0]), acc);
        assert(cur.push(x[0]) =~= cur + seq![x[0]]);
        assert((cur + seq![x[0]]) + x.drop_first() =~= cur + x);
    }
}

proof fn lemma_split_join_tail(ids: Seq<Seq<char>>, cur: Seq<char>, acc: Seq<Seq<char>>)
    requires
        cur.len() > 0,
        forall|i: int| 0 <= i < ids.len() ==> storable_id(#[trigger] ids[i]),
    ensures
        split_ids_from(join_tail(ids), cur, acc) == acc.push(cur) + ids,
    decreases ids.len(),
{
    if ids.len() == 0 {
        assert(split_ids_from(join_tail(ids), cur, acc) =~= acc.push(cur) + ids);
    } else {
        let t = join_tail(ids);
        assert(t[0] == id_separator());
        assert(t.drop_first() =~= ids[0] + join_tail(ids.drop_first()));
        lemma_split_absorb(ids[0], join_tail(ids.drop_first()), Seq::empty(), acc.push(cur));
        assert(Seq::<char>::empty() + ids[0] =~= ids[0]);
        lemma_split_join_tail(ids.drop_first(), ids[0], acc.push(cur));
        assert(acc.push(cur).push(ids[0]) + ids.drop_first() =~= acc.push(cur) + ids);
    }
}

/// The cell codec round trip: a list of storable ids decodes back from its
/// raw comma-joined representation unchanged.
pub proof fn lemma_ids_round_trip(ids: Seq<Seq<char>>)
    requires
        forall|i: int| 0 <= i < ids.len() ==> storable_id(#[trigger] ids[i]),
    ensures
        decode_ids(join_ids(ids)) == ids,
{
    if ids.len() == 0 {
        assert(decode_ids(join_ids(ids)) =~= ids);
    } else {
        lemma_split_absorb(ids[0], join_tail(ids.drop_first()), Seq::empty(), Seq::empty());
        assert(Seq::<char>::empty() + ids[0] =~= ids[0]);
        assert(ids[0] + join_tail(ids.drop_first()) =~= join_ids(ids));
        lemma_split_join_tail(ids.drop_first(), ids[0], Seq::empty());
        assert(Seq::<Seq<char>>::empty().push(ids[0]) + ids.drop_first() =~= ids);
    }
}

/// Every id produced by decoding is non-empty and separator-free.
pub proof fn lemma_decode_ids_storable(s: Seq<char>)
    ensures
        forall|i: int|
            0 <= i < decode_ids(s).len() ==> storable_id(#[trigger] decode_ids(s)[i]),
{
    lemma_split_storable(s, Seq::empty(), Seq::empty());
}

proof fn lemma_split_storable(s: Seq<char>, cur: Seq<char>, acc: Seq<Seq<char>>)
    requires
        forall|k: int| 0 <= k < cur.len() ==> cur[k] != id_separator(),
        forall|i: int| 0 <= i < acc.len() ==> storable_id(#[trigger] acc[i]),
    ensures
        forall|i: int|
            0 <= i < split_ids_from(s, cur, acc).len() ==> storable_id(
                #[trigger] split_ids_from(s, cur, acc)[i],
            ),
    decreases s.len(),
{
    if s.len() == 0 {
        if cur.len() == 0 {
            assert(split_ids_from(s, cur, acc) == acc);
        } else {
            assert(storable_id(cur));
            assert(split_ids_from(s, cur, acc) == acc.push(cur));
            assert(forall|i: int|
                0 <= i < acc.push(cur).len() ==> storable_id(#[trigger] acc.push(cur)[i]));
        }
    } else if s[0] == id_separator() {
        if cur.len() == 0 {
            lemma_split_storable(s.drop_first(), Seq::empty(), acc);
            assert(split_ids_from(s, cur, acc) == split_ids_from(s.drop_first(), Seq::empty(), acc));
        } else {
            assert(storable_id(cur));
            lemma_split_storable(s.drop_first(), Seq::empty(), acc.push(cur));
            assert(split_ids_from(s, cur, acc) == split_ids_from(
                s.drop_first(),
                Seq::empty(),
                acc.push(cur),
            ));
        }
    } else {
        lemma_split_storable(s.drop_first(), cur.push(s[0]), acc);
        assert(split_ids_from(s, cur, acc) == split_ids_from(s.drop_first(), cur.push(s[0]), acc));
    }
}

/// The color tag carried by a select option.
#[derive(Clone, Copy, Debug, PartialEq, Eq, Structural)]
pub enum SelectOptionColor {
    Purple,
    Pink,
    LightPink,
    Orange,
    Yellow,
    Lime,
    Green,
    Aqua,
    Blue,
}

/// The mathematical image of a select option: its id and display text as
/// character sequences, plus its color.
pub struct OptionView {
    pub id: Seq<char>,
    pub name: Seq<char>,
    pub color: SelectOptionColor,
}

/// A selectable option of a single- or multi-select field.
#[derive(Debug, PartialEq, Eq)]
pub struct SelectOption {
    pub id: String,
    pub name: String,
    pub color: SelectOptionColor,
}

impl View for SelectOption {
    type V = OptionView;

    open spec fn view(&self) -> OptionView {
        OptionView { id: self.id@, name: self.name@, color: self.color }
    }
}

/// The views of a sequence of select options.
pub open spec fn option_views(v: Seq<SelectOption>) -> Seq<OptionView> {
    v.map_values(|o: SelectOption| o@)
}

impl Clone for SelectOption {
    fn clone(&self) -> (r: Self)
        ensures
            r == *self,
    {
        SelectOption { id: self.id.clone(), name: self.name.clone(), color: self.color }
    }
}

impl SelectOption {
    /// A new option whose id is derived from its display text.  Ids are
    /// minted deterministically; callers that need distinct ids for equal
    /// names pick them explicitly through `with_id`.
    pub fn new(name: &str) -> (r: SelectOption)
        ensures
            r.id@ == name@,
            r.name@ == name@,
            r.color == SelectOptionColor::Purple,
    {
        SelectOption {
            id: name.to_owned(),
            name: name.to_owned(),
            color: SelectOptionColor::Purple,
        }
    }

    /// A new option with an explicit color.
    pub fn with_color(name: &str, color: SelectOptionColor) -> (r: SelectOption)
        ensures
            r.id@ == name@,
            r.name@ == name@,
            r.color == color,
    {
        SelectOption { id: name.to_owned(), name: name.to_owned(), color }
    }

    /// A new option with an explicit id.
    pub fn with_id(id: &str, name: &str, color: SelectOptionColor) -> (r: SelectOption)
        ensures
            r.id@ == id@,
            r.name@ == name@,
            r.color == color,
    {
        SelectOption { id: id.to_owned(), name: name.to_owned(), color }
    }
}

/// The typed cell value of a select field: the ordered ids of the selected
/// options.
#[derive(Debug, PartialEq, Eq)]
pub struct SelectOptionIds {
    pub ids: Vec<String>,
}

impl Clone for SelectOptionIds {
    fn clone(&self) -> (r: Self)
        ensures
            r@ == self@,
    {
        SelectOptionIds { ids: clone_string_vec(&self.ids) }
    }
}

impl View for SelectOptionIds {
    type V = Seq<Seq<char>>;

    open spec fn view(&self) -> Seq<Seq<char>> {
        str_views(self.ids@)
    }
}

impl SelectOptionIds {
    /// The empty selection.
    pub fn new() -> (r: Self)
        ensures
            r@ == Seq::<Seq<char>>::empty(),
    {
        let r = SelectOptionIds { ids: Vec::new() };
        proof {
            assert(r@ =~= Seq::<Seq<char>>::empty());
        }
        r
    }

    /// Wraps an explicit id list.
    pub fn from_vec(ids: Vec<String>) -> (r: Self)
        ensures
            r@ == str_views(ids@),
    {
        SelectOptionIds { ids }
    }

    /// Decodes a raw cell string.  Decoding is total: malformed input
    /// degrades to the ids that can be read, never to an error.
    pub fn from_cell_str(s: &str) -> (r: Self)
        ensures
            r@ == decode_ids(s@),
    {
        SelectOptionIds { ids: split_ids(s) }
    }

    /// Encodes the selection back into its raw cell string.
    pub fn to_string(&self) -> (r: String)
        ensures
            r@ == join_ids(self@),
    {
        join_strings(&self.ids)
    }

    pub fn is_empty(&self) -> (r: bool)
        ensures
            r == (self@.len() == 0),
    {
        self.ids.len() == 0
    }

    pub fn len(&self) -> (r: usize)
        ensures
            r == self@.len(),
    {
        self.ids.len()
    }
}

/// Clones a vector of strings, keeping its view.
pub fn clone_string_vec(v: &Vec<String>) -> (r: Vec<String>)
    ensures
        str_views(r@) == str_views(v@),
        r@.len() == v@.len(),
{
    let mut out: Vec<String> = Vec::new();
    let mut i: usize = 0;
    while i < v.len()
        invariant
            i <= v@.len(),
            out@.len() == i,
            forall|k: int| 0 <= k < i ==> out@[k]@ == v@[k]@,
        decreases v@.len() - i,
    {
        out.push(v[i].clone());
        i += 1;
    }
    proof {
        assert(str_views(out@) =~= str_views(v@));
    }
    out
}

/// Whether some string of `v` has the view of `s`.
pub fn contains_str(v: &Vec<String>, s: &String) -> (r: bool)
    ensures
        r == str_views(v@).contains(s@),
{
    let mut i: usize = 0;
    while i < v.len()
        invariant
            i <= v@.len(),
            forall|k: int| 0 <= k < i ==> str_views(v@)[k] != s@,
        decreases v@.len() - i,
    {
        if v[i].eq(s) {
            proof {
                assert(str_views(v@)[i as int] == s@);
            }
            return true;
        }
        proof {
            assert(str_views(v@)[i as int] == v@[i as int]@);
        }
        i += 1;
    }
    false
}

/// Splits a raw cell string on the separator, dropping empty segments.
pub fn split_ids(s: &str) -> (r: Vec<String>)
    ensures
        str_views(r@) == decode_ids(s@),
{
    let n = s.unicode_len();
    let mut out: Vec<String> = Vec::new();
    let mut start: usize = 0;
    let mut i: usize = 0;
    proof {
        assert(s@.skip(0) =~= s@);
        assert(s@.subrange(0, 0) =~= Seq::<char>::empty());
        assert(str_views(out@) =~= Seq::<Seq<char>>::empty());
    }
    while i < n
        invariant
            start <= i <= n,
            n == s@.len(),
            forall|k: int| start <= k < i ==> s@[k] != id_separator(),
            decode_ids(s@) == split_ids_from(
                s@.skip(i as int),
                s@.subrange(start as int, i as int),
                str_views(out@),
            ),
        decreases n - i,
    {
        let c = s.get_char(i);
        proof {
            assert(s@.skip(i as int)[0] == s@[i as int]);
            assert(s@.skip(i as int).drop_first() =~= s@.skip(i as int + 1));
        }
        if c == ',' {
            if start < i {
                let piece = s.substring_char(start, i);
                let owned = piece.to_owned();
                proof {
                    let old_out = out@;
                    assert(str_views(old_out.push(owned)) =~= str_views(old_out).push(owned@));
                }
                out.push(owned);
            }
            i += 1;
            start = i;
            proof {
                assert(s@.subrange(start as int, i as int) =~= Seq::<char>::empty());
            }
        } else {
            i += 1;
            proof {
                assert(s@.subrange(start as int, i as int) =~= s@.subrange(
                    start as int,
                    i as int - 1,
                ).push(s@[i as int - 1]));
            }
        }
    }
    proof {
        assert(s@.skip(n as int) =~= Seq::<char>::empty());
    }
    if start < n {
        let piece = s.substring_char(start, n);
        let owned = piece.to_owned();
        proof {
            let old_out = out@;
            assert(str_views(old_out.push(owned)) =~= str_views(old_out).push(owned@));
        }
        out.push(owned);
    }
    out
}

/// Joins strings with the separator.
pub fn join_strings(v: &Vec<String>) -> (r: String)
    ensures
        r@ == join_ids(str_views(v@)),
{
    let mut out = String::new();
    let mut i: usize = 0;
    proof {
        assert(str_views(v@).subrange(0, 0) =~= Seq::<Seq<char>>::empty());
    }
    while i < v.len()
        invariant
            i <= v@.len(),
            out@ == join_ids(str_views(v@).subrange(0, i as int)),
        decreases v@.len() - i,
    {
        proof {
            reveal_strlit(",");
            assert(","@ =~= seq![id_separator()]);
            assert(str_views(v@).subrange(0, i as int).push(v@[i as int]@) =~= str_views(
                v@,
            ).subrange(0, i as int + 1));
            lemma_join_ids_push(str_views(v@).subrange(0, i as int), v@[i as int]@);
        }
        if i > 0 {
            out.append(",");
        }
        out.append(v[i].as_str());
        i += 1;
    }
    proof {
        assert(str_views(v@).subrange(0, v@.len() as int) =~= str_views(v@));
    }
    out
}

/// A requested mutation of a select cell: ids to insert and ids to delete.
#[derive(Debug, PartialEq, Eq)]
pub struct SelectOptionCellChangeset {
    pub insert_option_ids: Vec<String>,
    pub delete_option_ids: Vec<String>,
}

impl Clone for SelectOptionCellChangeset {
    fn clone(&self) -> (r: Self)
        ensures
            str_views(r.insert_option_ids@) == str_views(self.insert_option_ids@),
            str_views(r.delete_option_ids@) == str_views(self.delete_option_ids@),
    {
        SelectOptionCellChangeset {
            insert_option_ids: clone_string_vec(&self.insert_option_ids),
            delete_option_ids: clone_string_vec(&self.delete_option_ids),
        }
    }
}

impl SelectOptionCellChangeset {
    pub fn from_insert_options(ids: Vec<String>) -> (r: Self)
        ensures
            str_views(r.insert_option_ids@) == str_views(ids@),
            r.delete_option_ids@.len() == 0,
    {
        SelectOptionCellChangeset { insert_option_ids: ids, delete_option_ids: Vec::new() }
    }

    pub fn from_delete_options(ids: Vec<String>) -> (r: Self)
        ensures
            r.insert_option_ids@.len() == 0,
            str_views(r.delete_option_ids@) == str_views(ids@),
    {
        SelectOptionCellChangeset { insert_option_ids: Vec::new(), delete_option_ids: ids }
    }

    pub fn from_insert_option_id(id: &str) -> (r: Self)
        ensures
            str_views(r.insert_option_ids@) == seq![id@],
            r.delete_option_ids@.len() == 0,
    {
        let mut ids: Vec<String> = Vec::new();
        ids.push(id.to_owned());
        proof {
            assert(str_views(ids@) =~= seq![id@]);
        }
        SelectOptionCellChangeset { insert_option_ids: ids, delete_option_ids: Vec::new() }
    }

    pub fn from_delete_option_id(id: &str) -> (r: Self)
        ensures
            r.insert_option_ids@.len() == 0,
            str_views(r.delete_option_ids@) == seq![id@],
    {
        let mut ids: Vec<String> = Vec::new();
        ids.push(id.to_owned());
        proof {
            assert(str_views(ids@) =~= seq![id@]);
        }
        SelectOptionCellChangeset { insert_option_ids: Vec::new(), delete_option_ids: ids }
    }
}

} // verus!
