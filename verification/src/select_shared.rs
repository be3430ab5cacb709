use vstd::prelude::*;
use core::cmp::Ordering;
use crate::select_option::{
    contains_str, option_views, str_views, OptionView, SelectOption, SelectOptionCellChangeset,
    SelectOptionIds,
};
use crate::order::{cmp_chars, default_order, flip_order, str_cmp};
use crate::order::{lemma_cmp_chars_equal_iff, lemma_cmp_chars_flip, lemma_cmp_chars_trans_less};

verus! {

// ---------------------------------------------------------------------------
// Option lookup
// ---------------------------------------------------------------------------

/// Whether an option with this id exists.
pub open spec fn has_option(opts: Seq<OptionView>, id: Seq<char>) -> bool {
    exists|j: int| 0 <= j < opts.len() && opts[j].id == id
}

/// Whether an option with this display text exists.
pub open spec fn has_option_named(opts: Seq<OptionView>, name: Seq<char>) -> bool {
    exists|j: int| 0 <= j < opts.len() && opts[j].name == name
}

/// The first option with this id, if any.
pub open spec fn resolve_option(opts: Seq<OptionView>, id: Seq<char>) -> Option<OptionView>
    decreases opts.len(),
{
    if opts.len() == 0 {
        None
    } else if opts[0].id == id {
        Some(opts[0])
    } else {
        resolve_option(opts.drop_first(), id)
    }
}

pub proof fn lemma_resolve_has_option(opts: Seq<OptionView>, id: Seq<char>)
    ensures
        resolve_option(opts, id).is_some() <==> has_option(opts, id),
    decreases opts.len(),
{
    if opts.len() == 0 {
    } else if opts[0].id == id {
    } else {
        lemma_resolve_has_option(opts.drop_first(), id);
        if has_option(opts, id) {
            let j = choose|j: int| 0 <= j < opts.len() && opts[j].id == id;
            assert(opts.drop_first()[j - 1] == opts[j]);
        }
        if has_option(opts.drop_first(), id) {
            let j = choose|j: int| 0 <= j < opts.drop_first().len() && opts.drop_first()[j].id
                == id;
            assert(opts[j + 1] == opts.drop_first()[j]);
        }
    }
}

/// The options a selection resolves to, in selection order, stale ids
/// silently dropped.
pub open spec fn selected_options(opts: Seq<OptionView>, ids: Seq<Seq<char>>) -> Seq<OptionView>
    decreases ids.len(),
{
    if ids.len() == 0 {
        Seq::empty()
    } else {
        match resolve_option(opts, ids[0]) {
            Some(o) => seq![o] + selected_options(opts, ids.drop_first()),
            None => selected_options(opts, ids.drop_first()),
        }
    }
}

/// Finds the first option with the given id.
pub fn find_option<'a>(options: &'a Vec<SelectOption>, id: &String) -> (r: Option<
    &'a SelectOption,
>)
    ensures
        match r {
            Some(o) => resolve_option(option_views(options@), id@) == Some(o@),
            None => resolve_option(option_views(options@), id@) == None::<OptionView>,
        },
{
    let ghost v = option_views(options@);
    let mut i: usize = 0;
    proof {
        assert(v.skip(0) =~= v);
    }
    while i < options.len()
        invariant
            i <= options@.len(),
            v == option_views(options@),
            v.len() == options@.len(),
            resolve_option(v, id@) == resolve_option(v.skip(i as int), id@),
        decreases options@.len() - i,
    {
        proof {
            assert(v.skip(i as int)[0] == v[i as int]);
            assert(v[i as int] == options@[i as int]@);
            assert(v.skip(i as int).drop_first() =~= v.skip(i as int + 1));
        }
        if options[i].id.eq(id) {
            return Some(&options[i]);
        }
        i += 1;
    }
    proof {
        assert(v.skip(options@.len() as int) =~= Seq::<OptionView>::empty());
    }
    None
}

/// Whether the option list holds the given id.
pub fn has_option_exec(options: &Vec<SelectOption>, id: &String) -> (r: bool)
    ensures
        r == has_option(option_views(options@), id@),
{
    let found = find_option(options, id);
    proof {
        lemma_resolve_has_option(option_views(options@), id@);
    }
    match found {
        Some(_) => true,
        None => false,
    }
}

/// Resolves a selection to its options, dropping stale ids.
pub fn get_selected_options_from(options: &Vec<SelectOption>, ids: &SelectOptionIds) -> (r: Vec<
    SelectOption,
>)
    ensures
        option_views(r@) == selected_options(option_views(options@), ids@),
{
    let ghost v = option_views(options@);
    let mut out: Vec<SelectOption> = Vec::new();
    let mut i: usize = 0;
    proof {
        assert(ids@.skip(0) =~= ids@);
        assert(option_views(out@) =~= Seq::<OptionView>::empty());
    }
    while i < ids.ids.len()
        invariant
            i <= ids.ids@.len(),
            v == option_views(options@),
            ids@.len() == ids.ids@.len(),
            selected_options(v, ids@) == option_views(out@) + selected_options(
                v,
                ids@.skip(i as int),
            ),
        decreases ids.ids@.len() - i,
    {
        proof {
            assert(ids@.skip(i as int)[0] == ids@[i as int]);
            assert(ids@[i as int] == ids.ids@[i as int]@);
            assert(ids@.skip(i as int).drop_first() =~= ids@.skip(i as int + 1));
        }
        match find_option(options, &ids.ids[i]) {
            Some(o) => {
                let c = o.clone();
                proof {
                    let old_out = out@;
                    assert(option_views(old_out.push(c)) =~= option_views(old_out).push(c@));
                    assert(option_views(old_out) + (seq![c@] + selected_options(
                        v,
                        ids@.skip(i as int + 1),
                    )) =~= option_views(old_out.push(c)) + selected_options(
                        v,
                        ids@.skip(i as int + 1),
                    ));
                }
                out.push(c);
            },
            None => {},
        }
        i += 1;
    }
    proof {
        assert(ids@.skip(ids@.len() as int) =~= Seq::<Seq<char>>::empty());
        assert(selected_options(v, Seq::<Seq<char>>::empty()) =~= Seq::<OptionView>::empty());
        assert(option_views(out@) + Seq::<OptionView>::empty() =~= option_views(out@));
    }
    out
}

// ---------------------------------------------------------------------------
// Changeset application
// ---------------------------------------------------------------------------

/// One insertion: ids unknown to the option list are dropped, ids already
/// selected are not duplicated, valid new ids append in document order.
pub open spec fn insert_id_step(
    sel: Seq<Seq<char>>,
    id: Seq<char>,
    opts: Seq<OptionView>,
) -> Seq<Seq<char>> {
    if has_option(opts, id) && !sel.contains(id) {
        sel.push(id)
    } else {
        sel
    }
}

pub open spec fn insert_ids(
    sel: Seq<Seq<char>>,
    ins: Seq<Seq<char>>,
    opts: Seq<OptionView>,
) -> Seq<Seq<char>>
    decreases ins.len(),
{
    if ins.len() == 0 {
        sel
    } else {
        insert_ids(insert_id_step(sel, ins[0], opts), ins.drop_first(), opts)
    }
}

/// Removes every occurrence of one id, keeping order.
pub open spec fn remove_id(sel: Seq<Seq<char>>, id: Seq<char>) -> Seq<Seq<char>>
    decreases sel.len(),
{
    if sel.len() == 0 {
        Seq::empty()
    } else if sel[0] == id {
        remove_id(sel.drop_first(), id)
    } else {
        seq![sel[0]] + remove_id(sel.drop_first(), id)
    }
}

pub open spec fn remove_ids(sel: Seq<Seq<char>>, dels: Seq<Seq<char>>) -> Seq<Seq<char>>
    decreases dels.len(),
{
    if dels.len() == 0 {
        sel
    } else {
        remove_ids(remove_id(sel, dels[0]), dels.drop_first())
    }
}

/// The full effect of a select changeset on a prior selection: valid inserts
/// are unioned in document order without duplication, then deletions are
/// applied by exact id match.
pub open spec fn apply_select_changeset(
    opts: Seq<OptionView>,
    prior: Seq<Seq<char>>,
    ins: Seq<Seq<char>>,
    dels: Seq<Seq<char>>,
) -> Seq<Seq<char>> {
    remove_ids(insert_ids(prior, ins, opts), dels)
}

pub proof fn lemma_insert_ids_membership(
    sel: Seq<Seq<char>>,
    ins: Seq<Seq<char>>,
    opts: Seq<OptionView>,
    id: Seq<char>,
)
    ensures
        insert_ids(sel, ins, opts).contains(id) <==> sel.contains(id) || (ins.contains(id)
            && has_option(opts, id)),
    decreases ins.len(),
{
    if ins.len() == 0 {
    } else {
        let sel1 = insert_id_step(sel, ins[0], opts);
        lemma_insert_ids_membership(sel1, ins.drop_first(), opts, id);
        assert(sel1.contains(id) <==> sel.contains(id) || (id == ins[0] && has_option(
            opts,
            id,
        ))) by {
            if has_option(opts, ins[0]) && !sel.contains(ins[0]) {
                assert(sel1 == sel.push(ins[0]));
                assert(sel1[sel.len() as int] == ins[0]);
                if sel.contains(id) {
                    let j = choose|j: int| 0 <= j < sel.len() && sel[j] == id;
                    assert(sel1[j] == id);
                }
                if sel1.contains(id) {
                    let j = choose|j: int| 0 <= j < sel1.len() && sel1[j] == id;
                    if j < sel.len() {
                        assert(sel[j] == id);
                    } else {
                        assert(id == ins[0]);
                    }
                }
            } else {
                assert(sel1 == sel);
            }
        }
        assert(ins.contains(id) <==> id == ins[0] || ins.drop_first().contains(id)) by {
            if ins.contains(id) {
                let j = choose|j: int| 0 <= j < ins.len() && ins[j] == id;
                if j > 0 {
                    assert(ins.drop_first()[j - 1] == id);
                }
            }
            if ins.drop_first().contains(id) {
                let j = choose|j: int|
                    0 <= j < ins.drop_first().len() && ins.drop_first()[j] == id;
                assert(ins[j + 1] == id);
            }
        }
    }
}

pub proof fn lemma_remove_id_membership(sel: Seq<Seq<char>>, x: Seq<char>, id: Seq<char>)
    ensures
        remove_id(sel, x).contains(id) <==> sel.contains(id) && id != x,
    decreases sel.len(),
{
    if sel.len() == 0 {
    } else {
        lemma_remove_id_membership(sel.drop_first(), x, id);
        assert(sel.contains(id) <==> id == sel[0] || sel.drop_first().contains(id)) by {
            if sel.contains(id) {
                let j = choose|j: int| 0 <= j < sel.len() && sel[j] == id;
                if j > 0 {
                    assert(sel.drop_first()[j - 1] == id);
                }
            }
            if sel.drop_first().contains(id) {
                let j = choose|j: int|
                    0 <= j < sel.drop_first().len() && sel.drop_first()[j] == id;
                assert(sel[j + 1] == id);
            }
        }
        if sel[0] != x {
            let rest = remove_id(sel.drop_first(), x);
            assert(remove_id(sel, x) == seq![sel[0]] + rest);
            assert((seq![sel[0]] + rest).contains(id) <==> id == sel[0] || rest.contains(id)) by {
                assert((seq![sel[0]] + rest)[0] == sel[0]);
                if (seq![sel[0]] + rest).contains(id) {
                    let j = choose|j: int|
                        0 <= j < (seq![sel[0]] + rest).len() && (seq![sel[0]] + rest)[j] == id;
                    if j > 0 {
                        assert(rest[j - 1] == id);
                    }
                }
                if rest.contains(id) {
                    let j = choose|j: int| 0 <= j < rest.len() && rest[j] == id;
                    assert((seq![sel[0]] + rest)[j + 1] == id);
                }
            }
        }
    }
}

pub proof fn lemma_remove_ids_membership(
    sel: Seq<Seq<char>>,
    dels: Seq<Seq<char>>,
    id: Seq<char>,
)
    ensures
        remove_ids(sel, dels).contains(id) <==> sel.contains(id) && !dels.contains(id),
    decreases dels.len(),
{
    if dels.len() == 0 {
    } else {
        lemma_remove_id_membership(sel, dels[0], id);
        lemma_remove_ids_membership(remove_id(sel, dels[0]), dels.drop_first(), id);
        assert(dels.contains(id) <==> id == dels[0] || dels.drop_first().contains(id)) by {
            if dels.contains(id) {
                let j = choose|j: int| 0 <= j < dels.len() && dels[j] == id;
                if j > 0 {
                    assert(dels.drop_first()[j - 1] == id);
                }
            }
            if dels.drop_first().contains(id) {
                let j = choose|j: int|
                    0 <= j < dels.drop_first().len() && dels.drop_first()[j] == id;
                assert(dels[j + 1] == id);
            }
        }
    }
}

/// Exactly which ids a changeset result holds: an id survives iff it is not
/// deleted and either was selected before or is a valid insertion.
pub proof fn lemma_changeset_membership(
    opts: Seq<OptionView>,
    prior: Seq<Seq<char>>,
    ins: Seq<Seq<char>>,
    dels: Seq<Seq<char>>,
    id: Seq<char>,
)
    ensures
        apply_select_changeset(opts, prior, ins, dels).contains(id) <==> (prior.contains(id) || (
        ins.contains(id) && has_option(opts, id))) && !dels.contains(id),
{
    lemma_insert_ids_membership(prior, ins, opts, id);
    lemma_remove_ids_membership(insert_ids(prior, ins, opts), dels, id);
}

/// The changeset validity filter: an id that the option list does not hold
/// and that was not already selected never appears in the result, whatever
/// the changeset asks for.
pub proof fn lemma_changeset_validity(
    opts: Seq<OptionView>,
    prior: Seq<Seq<char>>,
    ins: Seq<Seq<char>>,
    dels: Seq<Seq<char>>,
    id: Seq<char>,
)
    requires
        !has_option(opts, id),
        !prior.contains(id),
    ensures
        !apply_select_changeset(opts, prior, ins, dels).contains(id),
{
    lemma_changeset_membership(opts, prior, ins, dels, id);
}

/// Removes every string whose view equals the given id.
pub(crate) fn remove_matching(v: &Vec<String>, id: &String) -> (r: Vec<String>)
    ensures
        str_views(r@) == remove_id(str_views(v@), id@),
{
    let ghost full = str_views(v@);
    let mut out: Vec<String> = Vec::new();
    let mut i: usize = 0;
    proof {
        assert(full.skip(0) =~= full);
        assert(str_views(out@) =~= Seq::<Seq<char>>::empty());
    }
    while i < v.len()
        invariant
            i <= v@.len(),
            full == str_views(v@),
            full.len() == v@.len(),
            remove_id(full, id@) == str_views(out@) + remove_id(full.skip(i as int), id@),
        decreases v@.len() - i,
    {
        proof {
            assert(full.skip(i as int)[0] == full[i as int]);
            assert(full[i as int] == v@[i as int]@);
            assert(full.skip(i as int).drop_first() =~= full.skip(i as int + 1));
        }
        if !v[i].eq(id) {
            let c = v[i].clone();
            proof {
                let old_out = out@;
                assert(str_views(old_out.push(c)) =~= str_views(old_out).push(c@));
                assert(str_views(old_out) + (seq![c@] + remove_id(full.skip(i as int + 1), id@))
                    =~= str_views(old_out.push(c)) + remove_id(full.skip(i as int + 1), id@));
            }
            out.push(c);
        }
        i += 1;
    }
    proof {
        assert(full.skip(v@.len() as int) =~= Seq::<Seq<char>>::empty());
        assert(str_views(out@) + Seq::<Seq<char>>::empty() =~= str_views(out@));
    }
    out
}

/// Applies a changeset to a prior selection against an option list.
pub fn select_ids_after_changeset(
    options: &Vec<SelectOption>,
    prior: SelectOptionIds,
    changeset: &SelectOptionCellChangeset,
) -> (r: SelectOptionIds)
    ensures
        r@ == apply_select_changeset(
            option_views(options@),
            prior@,
            str_views(changeset.insert_option_ids@),
            str_views(changeset.delete_option_ids@),
        ),
{
    let ghost opts = option_views(options@);
    let ghost prior0 = prior@;
    let ghost ins = str_views(changeset.insert_option_ids@);
    let ghost dels = str_views(changeset.delete_option_ids@);
    let mut sel = prior;
    let mut i: usize = 0;
    proof {
        assert(ins.skip(0) =~= ins);
    }
    while i < changeset.insert_option_ids.len()
        invariant
            i <= changeset.insert_option_ids@.len(),
            opts == option_views(options@),
            ins == str_views(changeset.insert_option_ids@),
            ins.len() == changeset.insert_option_ids@.len(),
            insert_ids(sel@, ins.skip(i as int), opts) == insert_ids(prior0, ins, opts),
        decreases changeset.insert_option_ids@.len() - i,
    {
        proof {
            assert(ins.skip(i as int)[0] == ins[i as int]);
            assert(ins[i as int] == changeset.insert_option_ids@[i as int]@);
            assert(ins.skip(i as int).drop_first() =~= ins.skip(i as int + 1));
        }
        let id = &changeset.insert_option_ids[i];
        let valid = has_option_exec(options, id);
        let present = contains_str(&sel.ids, id);
        if valid && !present {
            let c = id.clone();
            proof {
                let old_ids = sel.ids@;
                assert(str_views(old_ids.push(c)) =~= str_views(old_ids).push(c@));
            }
            sel.ids.push(c);
        }
        i += 1;
    }
    proof {
        assert(ins.skip(ins.len() as int) =~= Seq::<Seq<char>>::empty());
        assert(sel@ == insert_ids(prior0, ins, opts));
        assert(dels.skip(0) =~= dels);
    }
    let ghost inserted = sel@;
    let mut j: usize = 0;
    while j < changeset.delete_option_ids.len()
        invariant
            j <= changeset.delete_option_ids@.len(),
            dels == str_views(changeset.delete_option_ids@),
            dels.len() == changeset.delete_option_ids@.len(),
            remove_ids(sel@, dels.skip(j as int)) == remove_ids(inserted, dels),
        decreases changeset.delete_option_ids@.len() - j,
    {
        proof {
            assert(dels.skip(j as int)[0] == dels[j as int]);
            assert(dels[j as int] == changeset.delete_option_ids@[j as int]@);
            assert(dels.skip(j as int).drop_first() =~= dels.skip(j as int + 1));
        }
        let id = &changeset.delete_option_ids[j];
        sel.ids = remove_matching(&sel.ids, id);
        j += 1;
    }
    proof {
        assert(dels.skip(dels.len() as int) =~= Seq::<Seq<char>>::empty());
    }
    sel
}

// ---------------------------------------------------------------------------
// Option list maintenance
// ---------------------------------------------------------------------------

/// What inserting an option yields: the first same-id option is replaced in
/// place, otherwise the option appends.
pub open spec fn upsert_option(opts: Seq<OptionView>, o: OptionView) -> Seq<OptionView>
    decreases opts.len(),
{
    if opts.len() == 0 {
        seq![o]
    } else if opts[0].id == o.id {
        seq![o] + opts.drop_first()
    } else {
        seq![opts[0]] + upsert_option(opts.drop_first(), o)
    }
}

proof fn lemma_upsert_at(opts: Seq<OptionView>, o: OptionView, i: int)
    requires
        0 <= i < opts.len(),
        opts[i].id == o.id,
        forall|k: int| 0 <= k < i ==> opts[k].id != o.id,
    ensures
        upsert_option(opts, o) == opts.update(i, o),
    decreases i,
{
    if i == 0 {
        assert(upsert_option(opts, o) == seq![o] + opts.drop_first());
        assert(seq![o] + opts.drop_first() =~= opts.update(0, o));
    } else {
        assert(opts.drop_first()[i - 1] == opts[i]);
        assert(forall|k: int| 0 <= k < i - 1 ==> opts.drop_first()[k] == opts[k + 1]);
        lemma_upsert_at(opts.drop_first(), o, i - 1);
        assert(seq![opts[0]] + opts.drop_first().update(i - 1, o) =~= opts.update(i, o));
    }
}

proof fn lemma_upsert_missing(opts: Seq<OptionView>, o: OptionView)
    requires
        forall|k: int| 0 <= k < opts.len() ==> opts[k].id != o.id,
    ensures
        upsert_option(opts, o) == opts.push(o),
    decreases opts.len(),
{
    if opts.len() == 0 {
        assert(upsert_option(opts, o) =~= opts.push(o));
    } else {
        assert(forall|k: int|
            0 <= k < opts.drop_first().len() ==> opts.drop_first()[k] == opts[k + 1]);
        lemma_upsert_missing(opts.drop_first(), o);
        assert(seq![opts[0]] + opts.drop_first().push(o) =~= opts.push(o));
    }
}

/// Inserts an option, replacing the first option that already has its id.
pub fn insert_option(options: &mut Vec<SelectOption>, option: SelectOption)
    ensures
        option_views(final(options)@) == upsert_option(option_views(old(options)@), option@),
        has_option(option_views(final(options)@), option@.id),
{
    let ghost opts0 = option_views(old(options)@);
    let mut i: usize = 0;
    while i < options.len()
        invariant
            i <= options@.len(),
            options@ == old(options)@,
            opts0 == option_views(options@),
            opts0.len() == options@.len(),
            forall|k: int| 0 <= k < i ==> opts0[k].id != option@.id,
        decreases options@.len() - i,
    {
        proof {
            assert(opts0[i as int] == options@[i as int]@);
        }
        if options[i].id.eq(&option.id) {
            proof {
                assert(opts0[i as int].id == option@.id);
                lemma_upsert_at(opts0, option@, i as int);
                assert(option_views(old(options)@.update(i as int, option)) =~= opts0.update(
                    i as int,
                    option@,
                ));
                assert(opts0.update(i as int, option@)[i as int] == option@);
            }
            options.set(i, option);
            return ;
        }
        i += 1;
    }
    proof {
        lemma_upsert_missing(opts0, option@);
        assert(option_views(old(options)@.push(option)) =~= opts0.push(option@));
        assert(opts0.push(option@)[opts0.len() as int] == option@);
    }
    options.push(option);
}

/// Deletes every option with the given id.
pub fn delete_option(options: &mut Vec<SelectOption>, id: &String)
    ensures
        option_views(final(options)@) == option_views(old(options)@).filter(
            |o: OptionView| o.id != id@,
        ),
{
    let ghost opts0 = option_views(old(options)@);
    let mut out: Vec<SelectOption> = Vec::new();
    let mut i: usize = 0;
    proof {
        assert(opts0.take(0) =~= Seq::<OptionView>::empty());
        assert(option_views(out@) =~= Seq::<OptionView>::empty());
        assert(Seq::<OptionView>::empty().filter(|o: OptionView| o.id != id@)
            =~= Seq::<OptionView>::empty());
    }
    while i < options.len()
        invariant
            i <= options@.len(),
            options@ == old(options)@,
            opts0 == option_views(options@),
            opts0.len() == options@.len(),
            option_views(out@) == opts0.take(i as int).filter(|o: OptionView| o.id != id@),
        decreases options@.len() - i,
    {
        proof {
            assert(opts0[i as int] == options@[i as int]@);
            assert(opts0.take(i as int + 1).drop_last() =~= opts0.take(i as int));
            assert(opts0.take(i as int + 1).last() == opts0[i as int]);
            reveal(Seq::filter);
        }
        if !options[i].id.eq(id) {
            let c = options[i].clone();
            proof {
                let old_out = out@;
                assert(option_views(old_out.push(c)) =~= option_views(old_out).push(c@));
            }
            out.push(c);
        }
        i += 1;
    }
    proof {
        assert(opts0.take(opts0.len() as int) =~= opts0);
    }
    *options = out;
}

// ---------------------------------------------------------------------------
// Comparison (column sort)
// ---------------------------------------------------------------------------

/// Compares two stored ids through the option list: resolvable ids compare
/// by display text; a stale id sorts greater than a resolvable one; two
/// stale ids are tied.
pub open spec fn cmp_entry(opts: Seq<OptionView>, a: Seq<char>, b: Seq<char>) -> Ordering {
    match (resolve_option(opts, a), resolve_option(opts, b)) {
        (Some(x), Some(y)) => cmp_chars(x.name, y.name),
        (Some(_), None) => Ordering::Less,
        (None, Some(_)) => Ordering::Greater,
        (None, None) => Ordering::Equal,
    }
}

/// Position-by-position comparison of two selections; exhaustion without a
/// resolvable difference yields the fixed default ordering.
pub open spec fn cmp_ids(opts: Seq<OptionView>, a: Seq<Seq<char>>, b: Seq<Seq<char>>) -> Ordering
    decreases a.len(),
{
    if a.len() == 0 || b.len() == 0 {
        Ordering::Equal
    } else {
        let o = cmp_entry(opts, a[0], b[0]);
        if o == Ordering::Equal {
            cmp_ids(opts, a.drop_first(), b.drop_first())
        } else {
            o
        }
    }
}

proof fn lemma_cmp_entry_flip(opts: Seq<OptionView>, a: Seq<char>, b: Seq<char>)
    ensures
        cmp_entry(opts, b, a) == flip_order(cmp_entry(opts, a, b)),
{
    match (resolve_option(opts, a), resolve_option(opts, b)) {
        (Some(x), Some(y)) => {
            lemma_cmp_chars_flip(x.name, y.name);
        },
        _ => {},
    }
}

proof fn lemma_cmp_entry_trans(opts: Seq<OptionView>, a: Seq<char>, b: Seq<char>, c: Seq<char>)
    requires
        cmp_entry(opts, a, b) != Ordering::Greater,
        cmp_entry(opts, b, c) != Ordering::Greater,
    ensures
        (cmp_entry(opts, a, b) == Ordering::Less || cmp_entry(opts, b, c) == Ordering::Less)
            ==> cmp_entry(opts, a, c) == Ordering::Less,
        (cmp_entry(opts, a, b) == Ordering::Equal && cmp_entry(opts, b, c) == Ordering::Equal)
            ==> cmp_entry(opts, a, c) == Ordering::Equal,
{
    match (resolve_option(opts, a), resolve_option(opts, b), resolve_option(opts, c)) {
        (Some(x), Some(y), Some(z)) => {
            lemma_cmp_chars_equal_iff(x.name, y.name);
            lemma_cmp_chars_equal_iff(y.name, z.name);
            lemma_cmp_chars_equal_iff(x.name, z.name);
            if cmp_chars(x.name, y.name) == Ordering::Less && cmp_chars(y.name, z.name)
                == Ordering::Less {
                lemma_cmp_chars_trans_less(x.name, y.name, z.name);
            }
        },
        _ => {},
    }
}

/// Sort antisymmetry: comparing in the other direction mirrors the result.
pub proof fn lemma_select_cmp_antisymmetric(
    opts: Seq<OptionView>,
    a: Seq<Seq<char>>,
    b: Seq<Seq<char>>,
)
    ensures
        cmp_ids(opts, b, a) == flip_order(cmp_ids(opts, a, b)),
    decreases a.len(),
{
    if a.len() == 0 || b.len() == 0 {
    } else {
        lemma_cmp_entry_flip(opts, a[0], b[0]);
        lemma_select_cmp_antisymmetric(opts, a.drop_first(), b.drop_first());
    }
}

/// Sort transitivity of the strict order, with any mix of resolvable and
/// stale ids.
pub proof fn lemma_select_cmp_transitive(
    opts: Seq<OptionView>,
    a: Seq<Seq<char>>,
    b: Seq<Seq<char>>,
    c: Seq<Seq<char>>,
)
    requires
        cmp_ids(opts, a, b) == Ordering::Less,
        cmp_ids(opts, b, c) == Ordering::Less,
    ensures
        cmp_ids(opts, a, c) == Ordering::Less,
    decreases a.len(),
{
    assert(a.len() > 0 && b.len() > 0 && c.len() > 0);
    lemma_cmp_entry_trans(opts, a[0], b[0], c[0]);
    let e1 = cmp_entry(opts, a[0], b[0]);
    let e2 = cmp_entry(opts, b[0], c[0]);
    if e1 == Ordering::Equal && e2 == Ordering::Equal {
        lemma_select_cmp_transitive(opts, a.drop_first(), b.drop_first(), c.drop_first());
    }
}

/// Ties are transitive across selections of one length.
pub proof fn lemma_select_cmp_equal_transitive(
    opts: Seq<OptionView>,
    a: Seq<Seq<char>>,
    b: Seq<Seq<char>>,
    c: Seq<Seq<char>>,
)
    requires
        a.len() == b.len(),
        b.len() == c.len(),
        cmp_ids(opts, a, b) == Ordering::Equal,
        cmp_ids(opts, b, c) == Ordering::Equal,
    ensures
        cmp_ids(opts, a, c) == Ordering::Equal,
    decreases a.len(),
{
    if a.len() == 0 || c.len() == 0 {
    } else {
        lemma_cmp_entry_trans(opts, a[0], b[0], c[0]);
        lemma_select_cmp_equal_transitive(opts, a.drop_first(), b.drop_first(), c.drop_first());
    }
}

/// Compares two selections against an option list, position by position.
pub fn cmp_select_ids(
    options: &Vec<SelectOption>,
    a: &SelectOptionIds,
    b: &SelectOptionIds,
) -> (r: Ordering)
    ensures
        r == cmp_ids(option_views(options@), a@, b@),
{
    let ghost opts = option_views(options@);
    let an = a.ids.len();
    let bn = b.ids.len();
    let mut i: usize = 0;
    proof {
        assert(a@.skip(0) =~= a@);
        assert(b@.skip(0) =~= b@);
    }
    while i < an && i < bn
        invariant
            i <= an,
            i <= bn,
            an == a@.len(),
            bn == b@.len(),
            an == a.ids@.len(),
            bn == b.ids@.len(),
            opts == option_views(options@),
            cmp_ids(opts, a@, b@) == cmp_ids(opts, a@.skip(i as int), b@.skip(i as int)),
        decreases an - i,
    {
        proof {
            assert(a@.skip(i as int)[0] == a@[i as int]);
            assert(b@.skip(i as int)[0] == b@[i as int]);
            assert(a@[i as int] == a.ids@[i as int]@);
            assert(b@[i as int] == b.ids@[i as int]@);
            assert(a@.skip(i as int).drop_first() =~= a@.skip(i as int + 1));
            assert(b@.skip(i as int).drop_first() =~= b@.skip(i as int + 1));
        }
        let left = find_option(options, &a.ids[i]);
        let right = find_option(options, &b.ids[i]);
        let order = match (left, right) {
            (Some(x), Some(y)) => str_cmp(x.name.as_str(), y.name.as_str()),
            (Some(_), None) => Ordering::Less,
            (None, Some(_)) => Ordering::Greater,
            (None, None) => default_order(),
        };
        match order {
            Ordering::Equal => {},
            _ => {
                return order;
            },
        }
        i += 1;
    }
    proof {
        if an <= bn {
            assert(a@.skip(i as int) =~= Seq::<Seq<char>>::empty());
        }
        if bn <= an {
            assert(b@.skip(i as int) =~= Seq::<Seq<char>>::empty());
        }
    }
    default_order()
}

} // verus!
