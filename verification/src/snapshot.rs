use vstd::prelude::*;
use vstd::utf8::is_scalar;
use crate::database::{
    CalendarSettingView, DatabaseLayout, DatabaseView, DuplicatedDatabase, DuplicatedImage,
    ViewConfigView,
};
use crate::field::{field_views, Field, FieldView};
use crate::field_type::FieldType;
use crate::row::{cell_views, row_views, CellEntry, CellEntryView, CellView, Row, RowView};
use crate::select_option::{option_views, OptionView, SelectOption, SelectOptionColor};
use crate::type_option::{PayloadView, TypeOptionPayload};
use crate::checkbox_type_option::CheckboxTypeOption;
use crate::multi_select_type_option::MultiSelectTypeOption;
use crate::single_select_type_option::SingleSelectTypeOption;

verus! {

// ---------------------------------------------------------------------------
// Byte primitives: every quantity of the snapshot wire format is a 64-bit
// little-endian word, characters included, so one primitive carries the
// whole format.
// ---------------------------------------------------------------------------

/// The eight little-endian bytes of a word.
pub open spec fn enc_u64(n: u64) -> Seq<u8> {
    seq![
        (n & 0xff) as u8,
        ((n >> 8) & 0xff) as u8,
        ((n >> 16) & 0xff) as u8,
        ((n >> 24) & 0xff) as u8,
        ((n >> 32) & 0xff) as u8,
        ((n >> 40) & 0xff) as u8,
        ((n >> 48) & 0xff) as u8,
        ((n >> 56) & 0xff) as u8,
    ]
}

/// The word read from eight little-endian bytes.
pub open spec fn dec_u64_val(b: Seq<u8>) -> u64 {
    ((b[0] as u64) | ((b[1] as u64) << 8) | ((b[2] as u64) << 16) | ((b[3] as u64) << 24) | ((
    b[4] as u64) << 32) | ((b[5] as u64) << 40) | ((b[6] as u64) << 48) | ((b[7] as u64) << 56))
}

/// Reads one word, returning it and the leftover bytes.
pub open spec fn dec_u64(b: Seq<u8>) -> Option<(u64, Seq<u8>)> {
    if b.len() < 8 {
        None
    } else {
        Some((dec_u64_val(b), b.skip(8)))
    }
}

pub proof fn lemma_u64_round_trip(n: u64, rest: Seq<u8>)
    ensures
        dec_u64(enc_u64(n) + rest) == Some((n, rest)),
{
    let b = enc_u64(n) + rest;
    assert(b.len() == 8 + rest.len());
    assert(b[0] == (n & 0xff) as u8);
    assert(b[1] == ((n >> 8) & 0xff) as u8);
    assert(b[2] == ((n >> 16) & 0xff) as u8);
    assert(b[3] == ((n >> 24) & 0xff) as u8);
    assert(b[4] == ((n >> 32) & 0xff) as u8);
    assert(b[5] == ((n >> 40) & 0xff) as u8);
    assert(b[6] == ((n >> 48) & 0xff) as u8);
    assert(b[7] == ((n >> 56) & 0xff) as u8);
    assert((((n & 0xff) as u8) as u64) | ((((n >> 8) & 0xff) as u8) as u64) << 8 | ((((n >> 16)
        & 0xff) as u8) as u64) << 16 | ((((n >> 24) & 0xff) as u8) as u64) << 24 | ((((n >> 32)
        & 0xff) as u8) as u64) << 32 | ((((n >> 40) & 0xff) as u8) as u64) << 40 | ((((n >> 48)
        & 0xff) as u8) as u64) << 48 | ((((n >> 56) & 0xff) as u8) as u64) << 56 == n)
        by (bit_vector);
    assert(dec_u64_val(b) == n);
    assert(b.skip(8) =~= rest);
}

/// Appends one word to the output.
pub fn push_u64(out: &mut Vec<u8>, n: u64)
    ensures
        final(out)@ == old(out)@ + enc_u64(n),
{
    out.push((n & 0xff) as u8);
    out.push(((n >> 8) & 0xff) as u8);
    out.push(((n >> 16) & 0xff) as u8);
    out.push(((n >> 24) & 0xff) as u8);
    out.push(((n >> 32) & 0xff) as u8);
    out.push(((n >> 40) & 0xff) as u8);
    out.push(((n >> 48) & 0xff) as u8);
    out.push(((n >> 56) & 0xff) as u8);
    proof {
        assert(out@ =~= old(out)@ + enc_u64(n));
    }
}

/// Reads one word at a position.
pub fn read_u64(buf: &Vec<u8>, pos: usize) -> (r: Option<(u64, usize)>)
    requires
        pos <= buf@.len(),
    ensures
        match r {
            Some(p) => p.1 == pos + 8 && p.1 <= buf@.len() && dec_u64(buf@.skip(pos as int))
                == Some((p.0, buf@.skip(p.1 as int))),
            None => dec_u64(buf@.skip(pos as int)) == None::<(u64, Seq<u8>)>,
        },
{
    if buf.len() - pos < 8 {
        return None;
    }
    let n = (buf[pos] as u64) | ((buf[pos + 1] as u64) << 8) | ((buf[pos + 2] as u64) << 16) | ((
    buf[pos + 3] as u64) << 24) | ((buf[pos + 4] as u64) << 32) | ((buf[pos + 5] as u64) << 40)
        | ((buf[pos + 6] as u64) << 48) | ((buf[pos + 7] as u64) << 56);
    proof {
        let s = buf@.skip(pos as int);
        assert(s[0] == buf@[pos as int]);
        assert(s[1] == buf@[pos as int + 1]);
        assert(s[2] == buf@[pos as int + 2]);
        assert(s[3] == buf@[pos as int + 3]);
        assert(s[4] == buf@[pos as int + 4]);
        assert(s[5] == buf@[pos as int + 5]);
        assert(s[6] == buf@[pos as int + 6]);
        assert(s[7] == buf@[pos as int + 7]);
        assert(s.skip(8) =~= buf@.skip(pos as int + 8));
    }
    Some((n, pos + 8))
}

// ---------------------------------------------------------------------------
// Strings: a length word followed by one word per character.
// ---------------------------------------------------------------------------

/// One word per character.
pub open spec fn enc_chars(s: Seq<char>) -> Seq<u8>
    decreases s.len(),
{
    if s.len() == 0 {
        Seq::empty()
    } else {
        enc_u64((s[0] as u32) as u64) + enc_chars(s.drop_first())
    }
}

/// A string: its length, then its characters.
pub open spec fn enc_str(s: Seq<char>) -> Seq<u8> {
    enc_u64(s.len() as u64) + enc_chars(s)
}

/// Reads `n` characters; a word that is no Unicode scalar value fails.
pub open spec fn dec_chars(b: Seq<u8>, n: nat) -> Option<(Seq<char>, Seq<u8>)>
    decreases n,
{
    if n == 0 {
        Some((Seq::empty(), b))
    } else {
        match dec_u64(b) {
            None => None,
            Some((u, b1)) => if u <= 0x10ffff && is_scalar(u as u32) {
                match dec_chars(b1, (n - 1) as nat) {
                    None => None,
                    Some((cs, b2)) => Some((seq![(u as u32) as char] + cs, b2)),
                }
            } else {
                None
            },
        }
    }
}

/// Reads a string.
pub open spec fn dec_str(b: Seq<u8>) -> Option<(Seq<char>, Seq<u8>)> {
    match dec_u64(b) {
        None => None,
        Some((n, b1)) => dec_chars(b1, n as nat),
    }
}

pub proof fn lemma_enc_chars_push(s: Seq<char>, c: char)
    ensures
        enc_chars(s.push(c)) == enc_chars(s) + enc_u64((c as u32) as u64),
    decreases s.len(),
{
    if s.len() == 0 {
        assert(s.push(c)[0] == c);
        assert(s.push(c).drop_first() =~= Seq::<char>::empty());
        assert(enc_chars(Seq::<char>::empty()) == Seq::<u8>::empty());
        assert(enc_chars(s.push(c)) == enc_u64((c as u32) as u64) + Seq::<u8>::empty());
        assert(enc_chars(s.push(c)) =~= enc_chars(s) + enc_u64((c as u32) as u64));
    } else {
        assert(s.push(c)[0] == s[0]);
        assert(s.push(c).drop_first() =~= s.drop_first().push(c));
        lemma_enc_chars_push(s.drop_first(), c);
        assert(enc_chars(s.push(c)) == enc_u64((s[0] as u32) as u64) + enc_chars(
            s.drop_first().push(c),
        ));
        assert(enc_chars(s.push(c)) =~= enc_chars(s) + enc_u64((c as u32) as u64));
    }
}

pub proof fn lemma_chars_round_trip(s: Seq<char>, rest: Seq<u8>)
    ensures
        dec_chars(enc_chars(s) + rest, s.len()) == Some((s, rest)),
    decreases s.len(),
{
    if s.len() == 0 {
        assert(enc_chars(s) + rest =~= rest);
    } else {
        let c = s[0];
        let u = (c as u32) as u64;
        assert(enc_chars(s) + rest =~= enc_u64(u) + (enc_chars(s.drop_first()) + rest));
        lemma_u64_round_trip(u, enc_chars(s.drop_first()) + rest);
        vstd::utf8::char_is_scalar(c);
        assert(u <= 0x10ffff && is_scalar(u as u32)) by {
            vstd::utf8::char_is_scalar(c);
            assert(is_scalar(c as u32));
            assert(c as u32 <= 0x10ffff);
            assert(u as u32 == c as u32);
        }
        lemma_chars_round_trip(s.drop_first(), rest);
        vstd::utf8::char_u32_cast(c, c as u32);
        assert((u as u32) as char == c);
        assert(seq![c] + s.drop_first() =~= s);
    }
}

pub proof fn lemma_str_round_trip(s: Seq<char>, rest: Seq<u8>)
    requires
        s.len() <= 0xffff_ffff_ffff_ffff,
    ensures
        dec_str(enc_str(s) + rest) == Some((s, rest)),
{
    assert(enc_str(s) + rest =~= enc_u64(s.len() as u64) + (enc_chars(s) + rest));
    lemma_u64_round_trip(s.len() as u64, enc_chars(s) + rest);
    lemma_chars_round_trip(s, rest);
}

/// Relies on char::from_u32: yields the character with this scalar value,
/// and nothing for a surrogate or out-of-range word.
#[verifier::external_body]
fn char_from_u32(u: u32) -> (r: Option<char>)
    ensures
        is_scalar(u) ==> r == Some(u as char),
        !is_scalar(u) ==> r == None::<char>,
{
    char::from_u32(u)
}

/// Relies on String::push: appends one character.
#[verifier::external_body]
fn string_push_char(s: &mut String, c: char)
    ensures
        final(s)@ == old(s)@.push(c),
{
    s.push(c)
}

/// Appends a string's encoding to the output.
pub fn push_str_enc(out: &mut Vec<u8>, s: &str)
    ensures
        final(out)@ == old(out)@ + enc_str(s@),
        bounded_str(s@),
{
    let n = s.unicode_len();
    push_u64(out, n as u64);
    let ghost mid = out@;
    let mut i: usize = 0;
    proof {
        assert(enc_chars(s@.take(0)) =~= Seq::<u8>::empty());
        assert(out@ =~= mid + enc_chars(s@.take(0)));
    }
    while i < n
        invariant
            i <= n,
            n == s@.len(),
            out@ == mid + enc_chars(s@.take(i as int)),
        decreases n - i,
    {
        let c = s.get_char(i);
        proof {
            assert(s@.take(i as int).push(s@[i as int]) =~= s@.take(i as int + 1));
            lemma_enc_chars_push(s@.take(i as int), s@[i as int]);
        }
        push_u64(out, (c as u32) as u64);
        proof {
            assert(out@ =~= mid + enc_chars(s@.take(i as int + 1)));
        }
        i += 1;
    }
    proof {
        assert(s@.take(n as int) =~= s@);
        assert(mid =~= old(out)@ + enc_u64(s@.len() as u64));
        assert(old(out)@ + enc_u64(s@.len() as u64) + enc_chars(s@) =~= old(out)@ + enc_str(s@));
    }
}

/// Reads a string at a position.
pub fn read_str(buf: &Vec<u8>, pos: usize) -> (r: Option<(String, usize)>)
    requires
        pos <= buf@.len(),
    ensures
        match r {
            Some(p) => pos <= p.1 <= buf@.len() && dec_str(buf@.skip(pos as int)) == Some(
                (p.0@, buf@.skip(p.1 as int)),
            ),
            None => dec_str(buf@.skip(pos as int)) == None::<(Seq<char>, Seq<u8>)>,
        },
{
    let (n, mut p) = match read_u64(buf, pos) {
        Some(x) => x,
        None => {
            return None;
        },
    };
    let ghost start = buf@.skip(p as int);
    let mut out = String::new();
    let mut i: u64 = 0;
    proof {
        assert(out@ =~= Seq::<char>::empty());
        if dec_chars(start, n as nat) is Some {
            let q = dec_chars(start, n as nat)->Some_0;
            assert(out@ + q.0 =~= q.0);
        }
    }
    while i < n
        invariant
            i <= n,
            pos <= buf@.len(),
            pos <= p <= buf@.len(),
            dec_u64(buf@.skip(pos as int)) == Some((n, start)),
            dec_chars(start, n as nat) == match dec_chars(
                buf@.skip(p as int),
                (n - i) as nat,
            ) {
                None => None::<(Seq<char>, Seq<u8>)>,
                Some(q) => Some((out@ + q.0, q.1)),
            },
        decreases n - i,
    {
        let (u, p2) = match read_u64(buf, p) {
            Some(x) => x,
            None => {
                return None;
            },
        };
        if u > 0x10ffff {
            return None;
        }
        let c = match char_from_u32(u as u32) {
            Some(c) => c,
            None => {
                proof {
                    assert(!is_scalar(u as u32));
                }
                return None;
            },
        };
        let ghost prev = out@;
        proof {
            assert(u <= 0x10ffff && is_scalar(u as u32));
            assert((u as u32) as char == c);
            if dec_chars(buf@.skip(p2 as int), (n - i - 1) as nat) is Some {
                let q = dec_chars(buf@.skip(p2 as int), (n - i - 1) as nat)->Some_0;
                assert(prev + (seq![c] + q.0) =~= prev.push(c) + q.0);
            }
        }
        string_push_char(&mut out, c);
        p = p2;
        i = i + 1;
    }
    proof {
        assert(dec_chars(buf@.skip(p as int), 0) == Some(
            (Seq::<char>::empty(), buf@.skip(p as int)),
        ));
        assert(out@ + Seq::<char>::empty() =~= out@);
    }
    Some((out, p))
}


// ---------------------------------------------------------------------------
// Tags for the closed enums of the format.
// ---------------------------------------------------------------------------

pub open spec fn color_tag(c: SelectOptionColor) -> u64 {
    match c {
        SelectOptionColor::Purple => 0,
        SelectOptionColor::Pink => 1,
        SelectOptionColor::LightPink => 2,
        SelectOptionColor::Orange => 3,
        SelectOptionColor::Yellow => 4,
        SelectOptionColor::Lime => 5,
        SelectOptionColor::Green => 6,
        SelectOptionColor::Aqua => 7,
        SelectOptionColor::Blue => 8,
    }
}

pub open spec fn color_from_tag(t: u64) -> Option<SelectOptionColor> {
    if t == 0 { Some(SelectOptionColor::Purple) }
    else if t == 1 { Some(SelectOptionColor::Pink) }
    else if t == 2 { Some(SelectOptionColor::LightPink) }
    else if t == 3 { Some(SelectOptionColor::Orange) }
    else if t == 4 { Some(SelectOptionColor::Yellow) }
    else if t == 5 { Some(SelectOptionColor::Lime) }
    else if t == 6 { Some(SelectOptionColor::Green) }
    else if t == 7 { Some(SelectOptionColor::Aqua) }
    else if t == 8 { Some(SelectOptionColor::Blue) }
    else { None }
}

pub open spec fn field_type_tag(t: FieldType) -> u64 {
    match t {
        FieldType::RichText => 0,
        FieldType::Number => 1,
        FieldType::DateTime => 2,
        FieldType::SingleSelect => 3,
        FieldType::MultiSelect => 4,
        FieldType::Checkbox => 5,
    }
}

pub open spec fn field_type_from_tag(t: u64) -> Option<FieldType> {
    if t == 0 { Some(FieldType::RichText) }
    else if t == 1 { Some(FieldType::Number) }
    else if t == 2 { Some(FieldType::DateTime) }
    else if t == 3 { Some(FieldType::SingleSelect) }
    else if t == 4 { Some(FieldType::MultiSelect) }
    else if t == 5 { Some(FieldType::Checkbox) }
    else { None }
}

pub open spec fn layout_tag(l: DatabaseLayout) -> u64 {
    match l {
        DatabaseLayout::Grid => 0,
        DatabaseLayout::Board => 1,
        DatabaseLayout::Calendar => 2,
    }
}

pub open spec fn layout_from_tag(t: u64) -> Option<DatabaseLayout> {
    if t == 0 { Some(DatabaseLayout::Grid) }
    else if t == 1 { Some(DatabaseLayout::Board) }
    else if t == 2 { Some(DatabaseLayout::Calendar) }
    else { None }
}

pub open spec fn bool_word(b: bool) -> u64 {
    if b { 1 } else { 0 }
}

pub open spec fn bool_from_word(t: u64) -> Option<bool> {
    if t == 0 { Some(false) } else if t == 1 { Some(true) } else { None }
}

// ---------------------------------------------------------------------------
// Bounded values: every string and list of the snapshot fits the length
// words of the format; real values always do, the bounds only make the
// machine limit explicit.
// ---------------------------------------------------------------------------

pub open spec fn bounded_str(s: Seq<char>) -> bool {
    s.len() <= 0xffff_ffff_ffff_ffff
}

pub open spec fn bounded_option(o: SelectOption) -> bool {
    bounded_str(o.id@) && bounded_str(o.name@)
}

pub open spec fn bounded_options(v: Seq<SelectOption>) -> bool {
    &&& v.len() <= 0xffff_ffff_ffff_ffff
    &&& forall|k: int| 0 <= k < v.len() ==> bounded_option(#[trigger] v[k])
}

pub open spec fn bounded_payload(p: TypeOptionPayload) -> bool {
    match p {
        TypeOptionPayload::SingleSelect(s) => bounded_options(s.options@),
        TypeOptionPayload::MultiSelect(m) => bounded_options(m.options@),
        _ => true,
    }
}

pub open spec fn bounded_field(f: Field) -> bool {
    bounded_str(f.id@) && bounded_str(f.name@) && bounded_payload(f.type_option)
}

pub open spec fn bounded_fields(v: Seq<Field>) -> bool {
    &&& v.len() <= 0xffff_ffff_ffff_ffff
    &&& forall|k: int| 0 <= k < v.len() ==> bounded_field(#[trigger] v[k])
}

pub open spec fn bounded_cell(e: CellEntry) -> bool {
    bounded_str(e.field_id@) && bounded_str(e.cell.data@)
}

pub open spec fn bounded_row(r: Row) -> bool {
    &&& bounded_str(r.id@)
    &&& r.cells@.len() <= 0xffff_ffff_ffff_ffff
    &&& forall|k: int| 0 <= k < r.cells@.len() ==> bounded_cell(#[trigger] r.cells@[k])
}

pub open spec fn bounded_rows(v: Seq<Row>) -> bool {
    &&& v.len() <= 0xffff_ffff_ffff_ffff
    &&& forall|k: int| 0 <= k < v.len() ==> bounded_row(#[trigger] v[k])
}

pub open spec fn bounded_view(v: DatabaseView) -> bool {
    &&& bounded_str(v.id@)
    &&& bounded_str(v.name@)
    &&& match v.layout_settings.calendar {
        Some(c) => bounded_str(c.field_id@),
        None => true,
    }
}

pub open spec fn bounded_dup(d: DuplicatedDatabase) -> bool {
    &&& bounded_str(d.name@)
    &&& bounded_view(d.view)
    &&& bounded_fields(d.fields@)
    &&& bounded_rows(d.rows@)
}

// ---------------------------------------------------------------------------
// Composite encoders and decoders.  Encoding reads the executable values;
// decoding yields their mathematical images.
// ---------------------------------------------------------------------------


/// Concatenation is associative; stated once so the composite lemmas can
/// reshape encodings without walking their bytes.
proof fn lemma_assoc(a: Seq<u8>, b: Seq<u8>, c: Seq<u8>)
    ensures
        (a + b) + c == a + (b + c),
{
    assert((a + b) + c =~= a + (b + c));
}

pub open spec fn enc_option(o: SelectOption) -> Seq<u8> {
    enc_str(o.id@) + enc_str(o.name@) + enc_u64(color_tag(o.color))
}

pub open spec fn dec_option(b: Seq<u8>) -> Option<(OptionView, Seq<u8>)> {
    match dec_str(b) {
        None => None,
        Some((id, b1)) => match dec_str(b1) {
            None => None,
            Some((name, b2)) => match dec_u64(b2) {
                None => None,
                Some((t, b3)) => match color_from_tag(t) {
                    None => None,
                    Some(color) => Some((OptionView { id, name, color }, b3)),
                },
            },
        },
    }
}

pub proof fn lemma_option_round_trip(o: SelectOption, rest: Seq<u8>)
    requires
        bounded_option(o),
    ensures
        dec_option(enc_option(o) + rest) == Some((o@, rest)),
{
    lemma_assoc(enc_str(o.id@) + enc_str(o.name@), enc_u64(color_tag(o.color)), rest);
    lemma_assoc(enc_str(o.id@), enc_str(o.name@), enc_u64(color_tag(o.color)) + rest);
    lemma_str_round_trip(o.id@, enc_str(o.name@) + (enc_u64(color_tag(o.color)) + rest));
    lemma_str_round_trip(o.name@, enc_u64(color_tag(o.color)) + rest);
    lemma_u64_round_trip(color_tag(o.color), rest);
}

pub open spec fn enc_options(v: Seq<SelectOption>) -> Seq<u8>
    decreases v.len(),
{
    if v.len() == 0 {
        Seq::empty()
    } else {
        enc_option(v[0]) + enc_options(v.drop_first())
    }
}

pub open spec fn dec_options(b: Seq<u8>, n: nat) -> Option<(Seq<OptionView>, Seq<u8>)>
    decreases n,
{
    if n == 0 {
        Some((Seq::empty(), b))
    } else {
        match dec_option(b) {
            None => None,
            Some((o, b1)) => match dec_options(b1, (n - 1) as nat) {
                None => None,
                Some((os, b2)) => Some((seq![o] + os, b2)),
            },
        }
    }
}

pub proof fn lemma_options_round_trip(v: Seq<SelectOption>, rest: Seq<u8>)
    requires
        forall|k: int| 0 <= k < v.len() ==> bounded_option(#[trigger] v[k]),
    ensures
        dec_options(enc_options(v) + rest, v.len()) == Some((option_views(v), rest)),
    decreases v.len(),
{
    if v.len() == 0 {
        assert(enc_options(v) + rest =~= rest);
        assert(option_views(v) =~= Seq::<OptionView>::empty());
    } else {
        lemma_assoc(
            enc_option(v[0]),
            enc_options(v.drop_first()),
            rest,
        );
        lemma_option_round_trip(v[0], enc_options(v.drop_first()) + rest);
        assert(forall|k: int|
            0 <= k < v.drop_first().len() ==> #[trigger] v.drop_first()[k] == v[k + 1]);
        lemma_options_round_trip(v.drop_first(), rest);
        assert(seq![v[0]@] + option_views(v.drop_first()) =~= option_views(v));
    }
}

pub open spec fn enc_payload(p: TypeOptionPayload) -> Seq<u8> {
    match p {
        TypeOptionPayload::RichText => enc_u64(0),
        TypeOptionPayload::Number => enc_u64(1),
        TypeOptionPayload::DateTime => enc_u64(2),
        TypeOptionPayload::Checkbox(c) => enc_u64(3) + enc_u64(bool_word(c.is_selected)),
        TypeOptionPayload::SingleSelect(s) => enc_u64(4) + enc_u64(bool_word(s.disable_color))
            + enc_u64(s.options@.len() as u64) + enc_options(s.options@),
        TypeOptionPayload::MultiSelect(m) => enc_u64(5) + enc_u64(bool_word(m.disable_color))
            + enc_u64(m.options@.len() as u64) + enc_options(m.options@),
    }
}

/// The decoded image of a payload plus which select family it was, so the
/// executable decoder can rebuild the same variant.
pub open spec fn dec_payload(b: Seq<u8>) -> Option<(PayloadView, u64, Seq<u8>)> {
    match dec_u64(b) {
        None => None,
        Some((t, b1)) => if t == 0 || t == 1 || t == 2 {
            Some((PayloadView::Plain, t, b1))
        } else if t == 3 {
            match dec_u64(b1) {
                None => None,
                Some((w, b2)) => match bool_from_word(w) {
                    None => None,
                    Some(sel) => Some((PayloadView::Checkbox(sel), t, b2)),
                },
            }
        } else if t == 4 || t == 5 {
            match dec_u64(b1) {
                None => None,
                Some((w, b2)) => match bool_from_word(w) {
                    None => None,
                    Some(dc) => match dec_u64(b2) {
                        None => None,
                        Some((n, b3)) => match dec_options(b3, n as nat) {
                            None => None,
                            Some((os, b4)) => Some((PayloadView::SelectOptions(os, dc), t, b4)),
                        },
                    },
                },
            }
        } else {
            None
        },
    }
}

#[verifier::rlimit(100)]
pub proof fn lemma_payload_round_trip(p: TypeOptionPayload, rest: Seq<u8>)
    requires
        bounded_payload(p),
    ensures
        dec_payload(enc_payload(p) + rest) == Some((p@, payload_family(p), rest)),
{
    match p {
        TypeOptionPayload::RichText => {
            lemma_u64_round_trip(0, rest);
        },
        TypeOptionPayload::Number => {
            lemma_u64_round_trip(1, rest);
        },
        TypeOptionPayload::DateTime => {
            lemma_u64_round_trip(2, rest);
        },
        TypeOptionPayload::Checkbox(c) => {
            lemma_assoc(enc_u64(3), enc_u64(bool_word(c.is_selected)), rest);
            lemma_u64_round_trip(3, enc_u64(bool_word(c.is_selected)) + rest);
            lemma_u64_round_trip(bool_word(c.is_selected), rest);
        },
        TypeOptionPayload::SingleSelect(s) => {
            lemma_assoc(
                enc_u64(4) + enc_u64(bool_word(s.disable_color)),
                enc_u64(s.options@.len() as u64),
                enc_options(s.options@) + rest,
            );
            lemma_assoc(
                enc_u64(4),
                enc_u64(bool_word(s.disable_color)),
                enc_u64(s.options@.len() as u64) + (enc_options(s.options@) + rest),
            );
            lemma_assoc(
                enc_u64(4) + enc_u64(bool_word(s.disable_color)) + enc_u64(
                    s.options@.len() as u64,
                ),
                enc_options(s.options@),
                rest,
            );
            lemma_u64_round_trip(4, enc_u64(bool_word(s.disable_color)) + (enc_u64(
                s.options@.len() as u64,
            ) + (enc_options(s.options@) + rest)));
            lemma_u64_round_trip(bool_word(s.disable_color), enc_u64(s.options@.len() as u64) + (
            enc_options(s.options@) + rest));
            lemma_u64_round_trip(s.options@.len() as u64, enc_options(s.options@) + rest);
            lemma_options_round_trip(s.options@, rest);
        },
        TypeOptionPayload::MultiSelect(m) => {
            lemma_assoc(
                enc_u64(5) + enc_u64(bool_word(m.disable_color)),
                enc_u64(m.options@.len() as u64),
                enc_options(m.options@) + rest,
            );
            lemma_assoc(
                enc_u64(5),
                enc_u64(bool_word(m.disable_color)),
                enc_u64(m.options@.len() as u64) + (enc_options(m.options@) + rest),
            );
            lemma_assoc(
                enc_u64(5) + enc_u64(bool_word(m.disable_color)) + enc_u64(
                    m.options@.len() as u64,
                ),
                enc_options(m.options@),
                rest,
            );
            lemma_u64_round_trip(5, enc_u64(bool_word(m.disable_color)) + (enc_u64(
                m.options@.len() as u64,
            ) + (enc_options(m.options@) + rest)));
            lemma_u64_round_trip(bool_word(m.disable_color), enc_u64(m.options@.len() as u64) + (
            enc_options(m.options@) + rest));
            lemma_u64_round_trip(m.options@.len() as u64, enc_options(m.options@) + rest);
            lemma_options_round_trip(m.options@, rest);
        },
    }
}

/// The wire tag of a payload variant.
pub open spec fn payload_family(p: TypeOptionPayload) -> u64 {
    match p {
        TypeOptionPayload::RichText => 0,
        TypeOptionPayload::Number => 1,
        TypeOptionPayload::DateTime => 2,
        TypeOptionPayload::Checkbox(_) => 3,
        TypeOptionPayload::SingleSelect(_) => 4,
        TypeOptionPayload::MultiSelect(_) => 5,
    }
}

pub open spec fn enc_field(f: Field) -> Seq<u8> {
    enc_str(f.id@) + enc_str(f.name@) + enc_u64(field_type_tag(f.field_type)) + enc_u64(
        bool_word(f.visibility),
    ) + enc_u64(bool_word(f.is_primary)) + enc_payload(f.type_option)
}

pub open spec fn dec_field(b: Seq<u8>) -> Option<(FieldView, u64, Seq<u8>)> {
    match dec_str(b) {
        None => None,
        Some((id, b1)) => match dec_str(b1) {
            None => None,
            Some((name, b2)) => match dec_u64(b2) {
                None => None,
                Some((t, b3)) => match field_type_from_tag(t) {
                    None => None,
                    Some(ft) => match dec_u64(b3) {
                        None => None,
                        Some((vw, b4)) => match bool_from_word(vw) {
                            None => None,
                            Some(vis) => match dec_u64(b4) {
                                None => None,
                                Some((pw, b5)) => match bool_from_word(pw) {
                                    None => None,
                                    Some(prim) => match dec_payload(b5) {
                                        None => None,
                                        Some((pv, fam, b6)) => Some(
                                            (
                                                FieldView {
                                                    id,
                                                    name,
                                                    field_type: ft,
                                                    visibility: vis,
                                                    is_primary: prim,
                                                    type_option: pv,
                                                },
                                                fam,
                                                b6,
                                            ),
                                        ),
                                    },
                                },
                            },
                        },
                    },
                },
            },
        },
    }
}

#[verifier::rlimit(100)]
pub proof fn lemma_field_round_trip(f: Field, rest: Seq<u8>)
    requires
        bounded_field(f),
    ensures
        dec_field(enc_field(f) + rest) == Some((f@, payload_family(f.type_option), rest)),
{
    let e1 = enc_str(f.id@);
    let e2 = enc_str(f.name@);
    let e3 = enc_u64(field_type_tag(f.field_type));
    let e4 = enc_u64(bool_word(f.visibility));
    let e5 = enc_u64(bool_word(f.is_primary));
    let e6 = enc_payload(f.type_option);
    let r5 = e6 + rest;
    let r4 = e5 + r5;
    let r3 = e4 + r4;
    let r2 = e3 + r3;
    let r1 = e2 + r2;
    lemma_assoc(e1 + e2 + e3 + e4 + e5, e6, rest);
    lemma_assoc(e1 + e2 + e3 + e4, e5, r5);
    lemma_assoc(e1 + e2 + e3, e4, r4);
    lemma_assoc(e1 + e2, e3, r3);
    lemma_assoc(e1, e2, r2);
    lemma_str_round_trip(f.id@, r1);
    lemma_str_round_trip(f.name@, r2);
    lemma_u64_round_trip(field_type_tag(f.field_type), r3);
    lemma_u64_round_trip(bool_word(f.visibility), r4);
    lemma_u64_round_trip(bool_word(f.is_primary), r5);
    lemma_payload_round_trip(f.type_option, rest);
}

pub open spec fn enc_fields(v: Seq<Field>) -> Seq<u8>
    decreases v.len(),
{
    if v.len() == 0 {
        Seq::empty()
    } else {
        enc_field(v[0]) + enc_fields(v.drop_first())
    }
}

pub open spec fn dec_fields(b: Seq<u8>, n: nat) -> Option<(Seq<FieldView>, Seq<u8>)>
    decreases n,
{
    if n == 0 {
        Some((Seq::empty(), b))
    } else {
        match dec_field(b) {
            None => None,
            Some((f, _, b1)) => match dec_fields(b1, (n - 1) as nat) {
                None => None,
                Some((fs, b2)) => Some((seq![f] + fs, b2)),
            },
        }
    }
}

#[verifier::rlimit(100)]
pub proof fn lemma_fields_round_trip(v: Seq<Field>, rest: Seq<u8>)
    requires
        forall|k: int| 0 <= k < v.len() ==> bounded_field(#[trigger] v[k]),
    ensures
        dec_fields(enc_fields(v) + rest, v.len()) == Some((field_views(v), rest)),
    decreases v.len(),
{
    if v.len() == 0 {
        assert(enc_fields(v) + rest =~= rest);
        assert(field_views(v) =~= Seq::<FieldView>::empty());
    } else {
        assert(enc_fields(v) + rest =~= enc_field(v[0]) + (enc_fields(v.drop_first()) + rest));
        lemma_field_round_trip(v[0], enc_fields(v.drop_first()) + rest);
        assert(forall|k: int|
            0 <= k < v.drop_first().len() ==> #[trigger] v.drop_first()[k] == v[k + 1]);
        lemma_fields_round_trip(v.drop_first(), rest);
        assert(seq![v[0]@] + field_views(v.drop_first()) =~= field_views(v));
    }
}

pub open spec fn enc_cell(e: CellEntry) -> Seq<u8> {
    enc_str(e.field_id@) + enc_u64(field_type_tag(e.cell.field_type)) + enc_str(e.cell.data@)
}

pub open spec fn dec_cell(b: Seq<u8>) -> Option<(CellEntryView, Seq<u8>)> {
    match dec_str(b) {
        None => None,
        Some((fid, b1)) => match dec_u64(b1) {
            None => None,
            Some((t, b2)) => match field_type_from_tag(t) {
                None => None,
                Some(ft) => match dec_str(b2) {
                    None => None,
                    Some((data, b3)) => Some(
                        (
                            CellEntryView {
                                field_id: fid,
                                cell: CellView { field_type: ft, data },
                            },
                            b3,
                        ),
                    ),
                },
            },
        },
    }
}

pub proof fn lemma_cell_round_trip(e: CellEntry, rest: Seq<u8>)
    requires
        bounded_cell(e),
    ensures
        dec_cell(enc_cell(e) + rest) == Some((e@, rest)),
{
    let r2 = enc_str(e.cell.data@) + rest;
    let r1 = enc_u64(field_type_tag(e.cell.field_type)) + r2;
    assert(enc_cell(e) + rest =~= enc_str(e.field_id@) + r1);
    lemma_str_round_trip(e.field_id@, r1);
    lemma_u64_round_trip(field_type_tag(e.cell.field_type), r2);
    lemma_str_round_trip(e.cell.data@, rest);
}

pub open spec fn enc_cells(v: Seq<CellEntry>) -> Seq<u8>
    decreases v.len(),
{
    if v.len() == 0 {
        Seq::empty()
    } else {
        enc_cell(v[0]) + enc_cells(v.drop_first())
    }
}

pub open spec fn dec_cells(b: Seq<u8>, n: nat) -> Option<(Seq<CellEntryView>, Seq<u8>)>
    decreases n,
{
    if n == 0 {
        Some((Seq::empty(), b))
    } else {
        match dec_cell(b) {
            None => None,
            Some((e, b1)) => match dec_cells(b1, (n - 1) as nat) {
                None => None,
                Some((es, b2)) => Some((seq![e] + es, b2)),
            },
        }
    }
}

pub proof fn lemma_cells_round_trip(v: Seq<CellEntry>, rest: Seq<u8>)
    requires
        forall|k: int| 0 <= k < v.len() ==> bounded_cell(#[trigger] v[k]),
    ensures
        dec_cells(enc_cells(v) + rest, v.len()) == Some((cell_views(v), rest)),
    decreases v.len(),
{
    if v.len() == 0 {
        assert(enc_cells(v) + rest =~= rest);
        assert(cell_views(v) =~= Seq::<CellEntryView>::empty());
    } else {
        lemma_assoc(enc_cell(v[0]), enc_cells(v.drop_first()), rest);
        lemma_cell_round_trip(v[0], enc_cells(v.drop_first()) + rest);
        assert(forall|k: int|
            0 <= k < v.drop_first().len() ==> #[trigger] v.drop_first()[k] == v[k + 1]);
        lemma_cells_round_trip(v.drop_first(), rest);
        assert(seq![v[0]@] + cell_views(v.drop_first()) =~= cell_views(v));
    }
}

pub open spec fn enc_row(r: Row) -> Seq<u8> {
    enc_str(r.id@) + enc_u64(r.cells@.len() as u64) + enc_cells(r.cells@)
}

pub open spec fn dec_row(b: Seq<u8>) -> Option<(RowView, Seq<u8>)> {
    match dec_str(b) {
        None => None,
        Some((id, b1)) => match dec_u64(b1) {
            None => None,
            Some((n, b2)) => match dec_cells(b2, n as nat) {
                None => None,
                Some((cs, b3)) => Some((RowView { id, cells: cs }, b3)),
            },
        },
    }
}

pub proof fn lemma_row_round_trip(r: Row, rest: Seq<u8>)
    requires
        bounded_row(r),
    ensures
        dec_row(enc_row(r) + rest) == Some((r@, rest)),
{
    let r2 = enc_cells(r.cells@) + rest;
    let r1 = enc_u64(r.cells@.len() as u64) + r2;
    assert(enc_row(r) + rest =~= enc_str(r.id@) + r1);
    lemma_str_round_trip(r.id@, r1);
    lemma_u64_round_trip(r.cells@.len() as u64, r2);
    lemma_cells_round_trip(r.cells@, rest);
}

pub open spec fn enc_rows(v: Seq<Row>) -> Seq<u8>
    decreases v.len(),
{
    if v.len() == 0 {
        Seq::empty()
    } else {
        enc_row(v[0]) + enc_rows(v.drop_first())
    }
}

pub open spec fn dec_rows(b: Seq<u8>, n: nat) -> Option<(Seq<RowView>, Seq<u8>)>
    decreases n,
{
    if n == 0 {
        Some((Seq::empty(), b))
    } else {
        match dec_row(b) {
            None => None,
            Some((r, b1)) => match dec_rows(b1, (n - 1) as nat) {
                None => None,
                Some((rs, b2)) => Some((seq![r] + rs, b2)),
            },
        }
    }
}

pub proof fn lemma_rows_round_trip(v: Seq<Row>, rest: Seq<u8>)
    requires
        forall|k: int| 0 <= k < v.len() ==> bounded_row(#[trigger] v[k]),
    ensures
        dec_rows(enc_rows(v) + rest, v.len()) == Some((row_views(v), rest)),
    decreases v.len(),
{
    if v.len() == 0 {
        assert(enc_rows(v) + rest =~= rest);
        assert(row_views(v) =~= Seq::<RowView>::empty());
    } else {
        lemma_assoc(enc_row(v[0]), enc_rows(v.drop_first()), rest);
        lemma_row_round_trip(v[0], enc_rows(v.drop_first()) + rest);
        assert(forall|k: int|
            0 <= k < v.drop_first().len() ==> #[trigger] v.drop_first()[k] == v[k + 1]);
        lemma_rows_round_trip(v.drop_first(), rest);
        assert(seq![v[0]@] + row_views(v.drop_first()) =~= row_views(v));
    }
}

pub open spec fn enc_view(v: DatabaseView) -> Seq<u8> {
    enc_str(v.id@) + enc_str(v.name@) + enc_u64(layout_tag(v.layout)) + (match v.layout_settings.calendar {
        None => enc_u64(0),
        Some(c) => enc_u64(1) + enc_str(c.field_id@) + enc_u64(c.first_day_of_week as u64)
            + enc_u64(bool_word(c.show_weekends)) + enc_u64(bool_word(c.show_week_numbers)),
    })
}

pub open spec fn dec_view(b: Seq<u8>) -> Option<(ViewConfigView, Seq<u8>)> {
    match dec_str(b) {
        None => None,
        Some((id, b1)) => match dec_str(b1) {
            None => None,
            Some((name, b2)) => match dec_u64(b2) {
                None => None,
                Some((lt, b3)) => match layout_from_tag(lt) {
                    None => None,
                    Some(layout) => match dec_u64(b3) {
                        None => None,
                        Some((hasc, b4)) => if hasc == 0 {
                            Some(
                                (
                                    ViewConfigView { id, name, layout, calendar: None },
                                    b4,
                                ),
                            )
                        } else if hasc == 1 {
                            match dec_str(b4) {
                                None => None,
                                Some((fid, b5)) => match dec_u64(b5) {
                                    None => None,
                                    Some((fd, b6)) => if fd <= 255 {
                                        match dec_u64(b6) {
                                            None => None,
                                            Some((we, b7)) => match bool_from_word(we) {
                                                None => None,
                                                Some(weekends) => match dec_u64(b7) {
                                                    None => None,
                                                    Some((wn, b8)) => match bool_from_word(wn) {
                                                        None => None,
                                                        Some(numbers) => Some(
                                                            (
                                                                ViewConfigView {
                                                                    id,
                                                                    name,
                                                                    layout,
                                                                    calendar: Some(
                                                                        CalendarSettingView {
                                                                            field_id: fid,
                                                                            first_day_of_week: fd as u8,
                                                                            show_weekends: weekends,
                                                                            show_week_numbers: numbers,
                                                                        },
                                                                    ),
                                                                },
                                                                b8,
                                                            ),
                                                        ),
                                                    },
                                                },
                                            },
                                        }
                                    } else {
                                        None
                                    },
                                },
                            }
                        } else {
                            None
                        },
                    },
                },
            },
        },
    }
}

#[verifier::rlimit(100)]
pub proof fn lemma_view_round_trip(v: DatabaseView, rest: Seq<u8>)
    requires
        bounded_view(v),
    ensures
        dec_view(enc_view(v) + rest) == Some((v@, rest)),
{
    match v.layout_settings.calendar {
        None => {
            let e1 = enc_str(v.id@);
            let e2 = enc_str(v.name@);
            let e3 = enc_u64(layout_tag(v.layout));
            let e4 = enc_u64(0);
            let r3 = e4 + rest;
            let r2 = e3 + r3;
            let r1 = e2 + r2;
            lemma_assoc(e1 + e2 + e3, e4, rest);
            lemma_assoc(e1 + e2, e3, r3);
            lemma_assoc(e1, e2, r2);
            lemma_str_round_trip(v.id@, r1);
            lemma_str_round_trip(v.name@, r2);
            lemma_u64_round_trip(layout_tag(v.layout), r3);
            lemma_u64_round_trip(0, rest);
        },
        Some(c) => {
            let e1 = enc_str(v.id@);
            let e2 = enc_str(v.name@);
            let e3 = enc_u64(layout_tag(v.layout));
            let e4 = enc_u64(1);
            let e5 = enc_str(c.field_id@);
            let e6 = enc_u64(c.first_day_of_week as u64);
            let e7 = enc_u64(bool_word(c.show_weekends));
            let e8 = enc_u64(bool_word(c.show_week_numbers));
            let r7 = e8 + rest;
            let r6 = e7 + r7;
            let r5 = e6 + r6;
            let r4 = e5 + r5;
            let r3 = e4 + r4;
            let r2 = e3 + r3;
            let r1 = e2 + r2;
            assert(enc_view(v) == e1 + e2 + e3 + (e4 + e5 + e6 + e7 + e8));
            lemma_assoc(e1 + e2 + e3, e4 + e5 + e6 + e7 + e8, rest);
            lemma_assoc(e4 + e5 + e6 + e7, e8, rest);
            lemma_assoc(e4 + e5 + e6, e7, r7);
            lemma_assoc(e4 + e5, e6, r6);
            lemma_assoc(e4, e5, r5);
            lemma_assoc(e1 + e2 + e3, e4, r4);
            lemma_assoc(e1 + e2, e3, r3);
            lemma_assoc(e1, e2, r2);
            lemma_str_round_trip(v.id@, r1);
            lemma_str_round_trip(v.name@, r2);
            lemma_u64_round_trip(layout_tag(v.layout), r3);
            lemma_u64_round_trip(1, r4);
            lemma_str_round_trip(c.field_id@, r5);
            lemma_u64_round_trip(c.first_day_of_week as u64, r6);
            lemma_u64_round_trip(bool_word(c.show_weekends), r7);
            lemma_u64_round_trip(bool_word(c.show_week_numbers), rest);
        },
    }
}

/// A snapshot on the wire: name, view, fields, rows.
pub open spec fn enc_dup(d: DuplicatedDatabase) -> Seq<u8> {
    enc_str(d.name@) + enc_view(d.view) + enc_u64(d.fields@.len() as u64) + enc_fields(d.fields@)
        + enc_u64(d.rows@.len() as u64) + enc_rows(d.rows@)
}

pub open spec fn dec_dup(b: Seq<u8>) -> Option<(DuplicatedImage, Seq<u8>)> {
    match dec_str(b) {
        None => None,
        Some((name, b1)) => match dec_view(b1) {
            None => None,
            Some((vw, b2)) => match dec_u64(b2) {
                None => None,
                Some((nf, b3)) => match dec_fields(b3, nf as nat) {
                    None => None,
                    Some((fs, b4)) => match dec_u64(b4) {
                        None => None,
                        Some((nr, b5)) => match dec_rows(b5, nr as nat) {
                            None => None,
                            Some((rs, b6)) => Some(
                                (DuplicatedImage { name, view: vw, fields: fs, rows: rs }, b6),
                            ),
                        },
                    },
                },
            },
        },
    }
}

/// The duplication round trip: a snapshot's byte serialization decodes back
/// to exactly the snapshot's image, so a database created from the bytes
/// carries the same fields, options, rows and layout settings.
#[verifier::rlimit(100)]
pub proof fn lemma_dup_round_trip(d: DuplicatedDatabase, rest: Seq<u8>)
    requires
        bounded_dup(d),
    ensures
        dec_dup(enc_dup(d) + rest) == Some((d@, rest)),
{
    let e1 = enc_str(d.name@);
    let e2 = enc_view(d.view);
    let e3 = enc_u64(d.fields@.len() as u64);
    let e4 = enc_fields(d.fields@);
    let e5 = enc_u64(d.rows@.len() as u64);
    let e6 = enc_rows(d.rows@);
    let r5 = e6 + rest;
    let r4 = e5 + r5;
    let r3 = e4 + r4;
    let r2 = e3 + r3;
    let r1 = e2 + r2;
    lemma_assoc(e1 + e2 + e3 + e4 + e5, e6, rest);
    lemma_assoc(e1 + e2 + e3 + e4, e5, r5);
    lemma_assoc(e1 + e2 + e3, e4, r4);
    lemma_assoc(e1 + e2, e3, r3);
    lemma_assoc(e1, e2, r2);
    lemma_str_round_trip(d.name@, r1);
    lemma_view_round_trip(d.view, r2);
    lemma_u64_round_trip(d.fields@.len() as u64, r3);
    lemma_fields_round_trip(d.fields@, r4);
    lemma_u64_round_trip(d.rows@.len() as u64, r5);
    lemma_rows_round_trip(d.rows@, rest);
}


// ---------------------------------------------------------------------------
// Executable encoder.
// ---------------------------------------------------------------------------

proof fn lemma_enc_options_push(v: Seq<SelectOption>, o: SelectOption)
    ensures
        enc_options(v.push(o)) == enc_options(v) + enc_option(o),
    decreases v.len(),
{
    if v.len() == 0 {
        assert(v.push(o)[0] == o);
        assert(v.push(o).drop_first() =~= Seq::<SelectOption>::empty());
        assert(enc_options(Seq::<SelectOption>::empty()) == Seq::<u8>::empty());
        assert(enc_options(v.push(o)) == enc_option(o) + Seq::<u8>::empty());
        assert(enc_options(v.push(o)) =~= enc_options(v) + enc_option(o));
    } else {
        assert(v.push(o)[0] == v[0]);
        assert(v.push(o).drop_first() =~= v.drop_first().push(o));
        lemma_enc_options_push(v.drop_first(), o);
        assert(enc_options(v.push(o)) == enc_option(v[0]) + enc_options(v.drop_first().push(o)));
        lemma_assoc(enc_option(v[0]), enc_options(v.drop_first()), enc_option(o));
        assert(enc_options(v.push(o)) =~= enc_options(v) + enc_option(o));
    }
}

proof fn lemma_enc_fields_push(v: Seq<Field>, o: Field)
    ensures
        enc_fields(v.push(o)) == enc_fields(v) + enc_field(o),
    decreases v.len(),
{
    if v.len() == 0 {
        assert(v.push(o)[0] == o);
        assert(v.push(o).drop_first() =~= Seq::<Field>::empty());
        assert(enc_fields(Seq::<Field>::empty()) == Seq::<u8>::empty());
        assert(enc_fields(v.push(o)) == enc_field(o) + Seq::<u8>::empty());
        assert(enc_fields(v.push(o)) =~= enc_fields(v) + enc_field(o));
    } else {
        assert(v.push(o)[0] == v[0]);
        assert(v.push(o).drop_first() =~= v.drop_first().push(o));
        lemma_enc_fields_push(v.drop_first(), o);
        assert(enc_fields(v.push(o)) == enc_field(v[0]) + enc_fields(v.drop_first().push(o)));
        lemma_assoc(enc_field(v[0]), enc_fields(v.drop_first()), enc_field(o));
        assert(enc_fields(v.push(o)) =~= enc_fields(v) + enc_field(o));
    }
}

proof fn lemma_enc_cells_push(v: Seq<CellEntry>, o: CellEntry)
    ensures
        enc_cells(v.push(o)) == enc_cells(v) + enc_cell(o),
    decreases v.len(),
{
    if v.len() == 0 {
        assert(v.push(o)[0] == o);
        assert(v.push(o).drop_first() =~= Seq::<CellEntry>::empty());
        assert(enc_cells(Seq::<CellEntry>::empty()) == Seq::<u8>::empty());
        assert(enc_cells(v.push(o)) == enc_cell(o) + Seq::<u8>::empty());
        assert(enc_cells(v.push(o)) =~= enc_cells(v) + enc_cell(o));
    } else {
        assert(v.push(o)[0] == v[0]);
        assert(v.push(o).drop_first() =~= v.drop_first().push(o));
        lemma_enc_cells_push(v.drop_first(), o);
        assert(enc_cells(v.push(o)) == enc_cell(v[0]) + enc_cells(v.drop_first().push(o)));
        lemma_assoc(enc_cell(v[0]), enc_cells(v.drop_first()), enc_cell(o));
        assert(enc_cells(v.push(o)) =~= enc_cells(v) + enc_cell(o));
    }
}

proof fn lemma_enc_rows_push(v: Seq<Row>, o: Row)
    ensures
        enc_rows(v.push(o)) == enc_rows(v) + enc_row(o),
    decreases v.len(),
{
    if v.len() == 0 {
        assert(v.push(o)[0] == o);
        assert(v.push(o).drop_first() =~= Seq::<Row>::empty());
        assert(enc_rows(Seq::<Row>::empty()) == Seq::<u8>::empty());
        assert(enc_rows(v.push(o)) == enc_row(o) + Seq::<u8>::empty());
        assert(enc_rows(v.push(o)) =~= enc_rows(v) + enc_row(o));
    } else {
        assert(v.push(o)[0] == v[0]);
        assert(v.push(o).drop_first() =~= v.drop_first().push(o));
        lemma_enc_rows_push(v.drop_first(), o);
        assert(enc_rows(v.push(o)) == enc_row(v[0]) + enc_rows(v.drop_first().push(o)));
        lemma_assoc(enc_row(v[0]), enc_rows(v.drop_first()), enc_row(o));
        assert(enc_rows(v.push(o)) =~= enc_rows(v) + enc_row(o));
    }
}

fn write_option(out: &mut Vec<u8>, o: &SelectOption)
    ensures
        final(out)@ == old(out)@ + enc_option(*o),
        bounded_option(*o),
{
    push_str_enc(out, o.id.as_str());
    push_str_enc(out, o.name.as_str());
    let tag: u64 = match o.color {
        SelectOptionColor::Purple => 0,
        SelectOptionColor::Pink => 1,
        SelectOptionColor::LightPink => 2,
        SelectOptionColor::Orange => 3,
        SelectOptionColor::Yellow => 4,
        SelectOptionColor::Lime => 5,
        SelectOptionColor::Green => 6,
        SelectOptionColor::Aqua => 7,
        SelectOptionColor::Blue => 8,
    };
    push_u64(out, tag);
    proof {
        assert(out@ =~= old(out)@ + enc_option(*o));
    }
}

fn write_options(out: &mut Vec<u8>, v: &Vec<SelectOption>)
    ensures
        final(out)@ == old(out)@ + enc_options(v@),
        bounded_options(v@),
{
    let ghost base = out@;
    let mut i: usize = 0;
    proof {
        assert(enc_options(v@.take(0)) == Seq::<u8>::empty());
        assert(out@ =~= base + enc_options(v@.take(0)));
    }
    while i < v.len()
        invariant
            i <= v@.len(),
            out@ == base + enc_options(v@.take(i as int)),
            forall|k: int| 0 <= k < i ==> bounded_option(#[trigger] v@[k]),
        decreases v@.len() - i,
    {
        write_option(out, &v[i]);
        proof {
            assert(v@.take(i as int).push(v@[i as int]) =~= v@.take(i as int + 1));
            lemma_enc_options_push(v@.take(i as int), v@[i as int]);
            lemma_assoc(base, enc_options(v@.take(i as int)), enc_option(v@[i as int]));
        }
        i += 1;
    }
    proof {
        assert(v@.take(v@.len() as int) =~= v@);
    }
}

fn write_payload(out: &mut Vec<u8>, p: &TypeOptionPayload)
    ensures
        final(out)@ == old(out)@ + enc_payload(*p),
        bounded_payload(*p),
{
    match p {
        TypeOptionPayload::RichText => push_u64(out, 0),
        TypeOptionPayload::Number => push_u64(out, 1),
        TypeOptionPayload::DateTime => push_u64(out, 2),
        TypeOptionPayload::Checkbox(c) => {
            push_u64(out, 3);
            push_u64(out, if c.is_selected { 1 } else { 0 });
            proof {
                assert(out@ =~= old(out)@ + enc_payload(*p));
            }
        },
        TypeOptionPayload::SingleSelect(s) => {
            push_u64(out, 4);
            push_u64(out, if s.disable_color { 1 } else { 0 });
            push_u64(out, s.options.len() as u64);
            write_options(out, &s.options);
            proof {
                assert(out@ =~= old(out)@ + enc_payload(*p));
            }
        },
        TypeOptionPayload::MultiSelect(m) => {
            push_u64(out, 5);
            push_u64(out, if m.disable_color { 1 } else { 0 });
            push_u64(out, m.options.len() as u64);
            write_options(out, &m.options);
            proof {
                assert(out@ =~= old(out)@ + enc_payload(*p));
            }
        },
    }
}

fn field_type_word(t: FieldType) -> (r: u64)
    ensures
        r == field_type_tag(t),
{
    match t {
        FieldType::RichText => 0,
        FieldType::Number => 1,
        FieldType::DateTime => 2,
        FieldType::SingleSelect => 3,
        FieldType::MultiSelect => 4,
        FieldType::Checkbox => 5,
    }
}

fn write_field(out: &mut Vec<u8>, f: &Field)
    ensures
        final(out)@ == old(out)@ + enc_field(*f),
        bounded_field(*f),
{
    push_str_enc(out, f.id.as_str());
    push_str_enc(out, f.name.as_str());
    let t = field_type_word(f.field_type);
    push_u64(out, t);
    push_u64(out, if f.visibility { 1 } else { 0 });
    push_u64(out, if f.is_primary { 1 } else { 0 });
    write_payload(out, &f.type_option);
    proof {
        assert(out@ =~= old(out)@ + enc_field(*f));
    }
}

fn write_fields(out: &mut Vec<u8>, v: &Vec<Field>)
    ensures
        final(out)@ == old(out)@ + enc_fields(v@),
        bounded_fields(v@),
{
    let ghost base = out@;
    let mut i: usize = 0;
    proof {
        assert(enc_fields(v@.take(0)) == Seq::<u8>::empty());
        assert(out@ =~= base + enc_fields(v@.take(0)));
    }
    while i < v.len()
        invariant
            i <= v@.len(),
            out@ == base + enc_fields(v@.take(i as int)),
            forall|k: int| 0 <= k < i ==> bounded_field(#[trigger] v@[k]),
        decreases v@.len() - i,
    {
        write_field(out, &v[i]);
        proof {
            assert(v@.take(i as int).push(v@[i as int]) =~= v@.take(i as int + 1));
            lemma_enc_fields_push(v@.take(i as int), v@[i as int]);
            lemma_assoc(base, enc_fields(v@.take(i as int)), enc_field(v@[i as int]));
        }
        i += 1;
    }
    proof {
        assert(v@.take(v@.len() as int) =~= v@);
    }
}

fn write_cell(out: &mut Vec<u8>, e: &CellEntry)
    ensures
        final(out)@ == old(out)@ + enc_cell(*e),
        bounded_cell(*e),
{
    push_str_enc(out, e.field_id.as_str());
    let t = field_type_word(e.cell.field_type);
    push_u64(out, t);
    push_str_enc(out, e.cell.data.as_str());
    proof {
        assert(out@ =~= old(out)@ + enc_cell(*e));
    }
}

fn write_row(out: &mut Vec<u8>, r: &Row)
    ensures
        final(out)@ == old(out)@ + enc_row(*r),
        bounded_row(*r),
{
    push_str_enc(out, r.id.as_str());
    push_u64(out, r.cells.len() as u64);
    let ghost base = out@;
    let mut i: usize = 0;
    proof {
        assert(enc_cells(r.cells@.take(0)) == Seq::<u8>::empty());
        assert(out@ =~= base + enc_cells(r.cells@.take(0)));
    }
    while i < r.cells.len()
        invariant
            i <= r.cells@.len(),
            out@ == base + enc_cells(r.cells@.take(i as int)),
            forall|k: int| 0 <= k < i ==> bounded_cell(#[trigger] r.cells@[k]),
        decreases r.cells@.len() - i,
    {
        write_cell(out, &r.cells[i]);
        proof {
            assert(r.cells@.take(i as int).push(r.cells@[i as int]) =~= r.cells@.take(
                i as int + 1,
            ));
            lemma_enc_cells_push(r.cells@.take(i as int), r.cells@[i as int]);
            lemma_assoc(base, enc_cells(r.cells@.take(i as int)), enc_cell(r.cells@[i as int]));
        }
        i += 1;
    }
    proof {
        assert(r.cells@.take(r.cells@.len() as int) =~= r.cells@);
        assert(out@ =~= old(out)@ + enc_row(*r));
    }
}

fn write_rows(out: &mut Vec<u8>, v: &Vec<Row>)
    ensures
        final(out)@ == old(out)@ + enc_rows(v@),
        bounded_rows(v@),
{
    let ghost base = out@;
    let mut i: usize = 0;
    proof {
        assert(enc_rows(v@.take(0)) == Seq::<u8>::empty());
        assert(out@ =~= base + enc_rows(v@.take(0)));
    }
    while i < v.len()
        invariant
            i <= v@.len(),
            out@ == base + enc_rows(v@.take(i as int)),
            forall|k: int| 0 <= k < i ==> bounded_row(#[trigger] v@[k]),
        decreases v@.len() - i,
    {
        write_row(out, &v[i]);
        proof {
            assert(v@.take(i as int).push(v@[i as int]) =~= v@.take(i as int + 1));
            lemma_enc_rows_push(v@.take(i as int), v@[i as int]);
            lemma_assoc(base, enc_rows(v@.take(i as int)), enc_row(v@[i as int]));
        }
        i += 1;
    }
    proof {
        assert(v@.take(v@.len() as int) =~= v@);
    }
}

#[verifier::rlimit(100)]
fn write_view(out: &mut Vec<u8>, v: &DatabaseView)
    ensures
        final(out)@ == old(out)@ + enc_view(*v),
        bounded_view(*v),
{
    push_str_enc(out, v.id.as_str());
    push_str_enc(out, v.name.as_str());
    let lt: u64 = match v.layout {
        DatabaseLayout::Grid => 0,
        DatabaseLayout::Board => 1,
        DatabaseLayout::Calendar => 2,
    };
    push_u64(out, lt);
    match &v.layout_settings.calendar {
        None => {
            push_u64(out, 0);
        },
        Some(c) => {
            push_u64(out, 1);
            push_str_enc(out, c.field_id.as_str());
            push_u64(out, c.first_day_of_week as u64);
            push_u64(out, if c.show_weekends { 1 } else { 0 });
            push_u64(out, if c.show_week_numbers { 1 } else { 0 });
        },
    }
    proof {
        assert(out@ =~= old(out)@ + enc_view(*v));
    }
}

/// Serializes a snapshot into its self-contained byte representation.
pub fn to_snapshot_bytes(d: &DuplicatedDatabase) -> (r: Vec<u8>)
    ensures
        r@ == enc_dup(*d),
        bounded_dup(*d),
{
    let mut out: Vec<u8> = Vec::new();
    push_str_enc(&mut out, d.name.as_str());
    write_view(&mut out, &d.view);
    push_u64(&mut out, d.fields.len() as u64);
    write_fields(&mut out, &d.fields);
    push_u64(&mut out, d.rows.len() as u64);
    write_rows(&mut out, &d.rows);
    proof {
        assert(out@ =~= enc_dup(*d));
    }
    out
}


// ---------------------------------------------------------------------------
// Executable decoder.
// ---------------------------------------------------------------------------

fn read_option_at(buf: &Vec<u8>, pos: usize) -> (r: Option<(SelectOption, usize)>)
    requires
        pos <= buf@.len(),
    ensures
        match r {
            Some(p) => pos <= p.1 <= buf@.len() && dec_option(buf@.skip(pos as int)) == Some(
                (p.0@, buf@.skip(p.1 as int)),
            ),
            None => dec_option(buf@.skip(pos as int)) == None::<(OptionView, Seq<u8>)>,
        },
{
    let (id, p1) = match read_str(buf, pos) {
        Some(x) => x,
        None => { return None; },
    };
    let (name, p2) = match read_str(buf, p1) {
        Some(x) => x,
        None => { return None; },
    };
    let (t, p3) = match read_u64(buf, p2) {
        Some(x) => x,
        None => { return None; },
    };
    let color = if t == 0 { SelectOptionColor::Purple }
    else if t == 1 { SelectOptionColor::Pink }
    else if t == 2 { SelectOptionColor::LightPink }
    else if t == 3 { SelectOptionColor::Orange }
    else if t == 4 { SelectOptionColor::Yellow }
    else if t == 5 { SelectOptionColor::Lime }
    else if t == 6 { SelectOptionColor::Green }
    else if t == 7 { SelectOptionColor::Aqua }
    else if t == 8 { SelectOptionColor::Blue }
    else {
        return None;
    };
    Some((SelectOption { id, name, color }, p3))
}

fn read_options_at(buf: &Vec<u8>, pos: usize, n: u64) -> (r: Option<(Vec<SelectOption>, usize)>)
    requires
        pos <= buf@.len(),
    ensures
        match r {
            Some(p) => pos <= p.1 <= buf@.len() && dec_options(buf@.skip(pos as int), n as nat)
                == Some((option_views(p.0@), buf@.skip(p.1 as int))),
            None => dec_options(buf@.skip(pos as int), n as nat) == None::<(
                Seq<OptionView>,
                Seq<u8>,
            )>,
        },
{
    let ghost start = buf@.skip(pos as int);
    let mut out: Vec<SelectOption> = Vec::new();
    let mut p = pos;
    let mut i: u64 = 0;
    proof {
        assert(option_views(out@) =~= Seq::<OptionView>::empty());
        if dec_options(start, n as nat) is Some {
            let q = dec_options(start, n as nat)->Some_0;
            assert(option_views(out@) + q.0 =~= q.0);
        }
    }
    while i < n
        invariant
            i <= n,
            pos <= p <= buf@.len(),
            start == buf@.skip(pos as int),
            dec_options(start, n as nat) == match dec_options(
                buf@.skip(p as int),
                (n - i) as nat,
            ) {
                None => None::<(Seq<OptionView>, Seq<u8>)>,
                Some(q) => Some((option_views(out@) + q.0, q.1)),
            },
        decreases n - i,
    {
        let (o, p2) = match read_option_at(buf, p) {
            Some(x) => x,
            None => { return None; },
        };
        proof {
            let prev = option_views(out@);
            assert(option_views(out@.push(o)) =~= prev.push(o@));
            if dec_options(buf@.skip(p2 as int), (n - i - 1) as nat) is Some {
                let q = dec_options(buf@.skip(p2 as int), (n - i - 1) as nat)->Some_0;
                assert(prev + (seq![o@] + q.0) =~= prev.push(o@) + q.0);
            }
        }
        out.push(o);
        p = p2;
        i = i + 1;
    }
    proof {
        assert(option_views(out@) + Seq::<OptionView>::empty() =~= option_views(out@));
    }
    Some((out, p))
}

fn read_payload_at(buf: &Vec<u8>, pos: usize) -> (r: Option<(TypeOptionPayload, usize)>)
    requires
        pos <= buf@.len(),
    ensures
        match r {
            Some(p) => pos <= p.1 <= buf@.len() && dec_payload(buf@.skip(pos as int)) == Some(
                (p.0@, payload_family(p.0), buf@.skip(p.1 as int)),
            ),
            None => dec_payload(buf@.skip(pos as int)) == None::<(PayloadView, u64, Seq<u8>)>,
        },
{
    let (t, p1) = match read_u64(buf, pos) {
        Some(x) => x,
        None => { return None; },
    };
    if t == 0 {
        return Some((TypeOptionPayload::RichText, p1));
    }
    if t == 1 {
        return Some((TypeOptionPayload::Number, p1));
    }
    if t == 2 {
        return Some((TypeOptionPayload::DateTime, p1));
    }
    if t == 3 {
        let (w, p2) = match read_u64(buf, p1) {
            Some(x) => x,
            None => { return None; },
        };
        if w > 1 {
            return None;
        }
        return Some((
            TypeOptionPayload::Checkbox(CheckboxTypeOption { is_selected: w == 1 }),
            p2,
        ));
    }
    if t == 4 || t == 5 {
        let (w, p2) = match read_u64(buf, p1) {
            Some(x) => x,
            None => { return None; },
        };
        if w > 1 {
            return None;
        }
        let (n, p3) = match read_u64(buf, p2) {
            Some(x) => x,
            None => { return None; },
        };
        let (options, p4) = match read_options_at(buf, p3, n) {
            Some(x) => x,
            None => { return None; },
        };
        if t == 4 {
            return Some((
                TypeOptionPayload::SingleSelect(
                    SingleSelectTypeOption { options, disable_color: w == 1 },
                ),
                p4,
            ));
        }
        return Some((
            TypeOptionPayload::MultiSelect(
                MultiSelectTypeOption { options, disable_color: w == 1 },
            ),
            p4,
        ));
    }
    None
}

fn field_type_from_word(t: u64) -> (r: Option<FieldType>)
    ensures
        r == field_type_from_tag(t),
{
    if t == 0 { Some(FieldType::RichText) }
    else if t == 1 { Some(FieldType::Number) }
    else if t == 2 { Some(FieldType::DateTime) }
    else if t == 3 { Some(FieldType::SingleSelect) }
    else if t == 4 { Some(FieldType::MultiSelect) }
    else if t == 5 { Some(FieldType::Checkbox) }
    else { None }
}

fn read_field_at(buf: &Vec<u8>, pos: usize) -> (r: Option<(Field, usize)>)
    requires
        pos <= buf@.len(),
    ensures
        match r {
            Some(p) => pos <= p.1 <= buf@.len() && dec_field(buf@.skip(pos as int)) == Some(
                (p.0@, payload_family(p.0.type_option), buf@.skip(p.1 as int)),
            ),
            None => dec_field(buf@.skip(pos as int)) == None::<(FieldView, u64, Seq<u8>)>,
        },
{
    let (id, p1) = match read_str(buf, pos) {
        Some(x) => x,
        None => { return None; },
    };
    let (name, p2) = match read_str(buf, p1) {
        Some(x) => x,
        None => { return None; },
    };
    let (tw, p3) = match read_u64(buf, p2) {
        Some(x) => x,
        None => { return None; },
    };
    let field_type = match field_type_from_word(tw) {
        Some(t) => t,
        None => { return None; },
    };
    let (vw, p4) = match read_u64(buf, p3) {
        Some(x) => x,
        None => { return None; },
    };
    if vw > 1 {
        return None;
    }
    let (pw, p5) = match read_u64(buf, p4) {
        Some(x) => x,
        None => { return None; },
    };
    if pw > 1 {
        return None;
    }
    let (type_option, p6) = match read_payload_at(buf, p5) {
        Some(x) => x,
        None => { return None; },
    };
    Some((
        Field {
            id,
            name,
            field_type,
            visibility: vw == 1,
            is_primary: pw == 1,
            type_option,
        },
        p6,
    ))
}

fn read_fields_at(buf: &Vec<u8>, pos: usize, n: u64) -> (r: Option<(Vec<Field>, usize)>)
    requires
        pos <= buf@.len(),
    ensures
        match r {
            Some(p) => pos <= p.1 <= buf@.len() && dec_fields(buf@.skip(pos as int), n as nat)
                == Some((field_views(p.0@), buf@.skip(p.1 as int))),
            None => dec_fields(buf@.skip(pos as int), n as nat) == None::<(
                Seq<FieldView>,
                Seq<u8>,
            )>,
        },
{
    let ghost start = buf@.skip(pos as int);
    let mut out: Vec<Field> = Vec::new();
    let mut p = pos;
    let mut i: u64 = 0;
    proof {
        assert(field_views(out@) =~= Seq::<FieldView>::empty());
        if dec_fields(start, n as nat) is Some {
            let q = dec_fields(start, n as nat)->Some_0;
            assert(field_views(out@) + q.0 =~= q.0);
        }
    }
    while i < n
        invariant
            i <= n,
            pos <= p <= buf@.len(),
            start == buf@.skip(pos as int),
            dec_fields(start, n as nat) == match dec_fields(
                buf@.skip(p as int),
                (n - i) as nat,
            ) {
                None => None::<(Seq<FieldView>, Seq<u8>)>,
                Some(q) => Some((field_views(out@) + q.0, q.1)),
            },
        decreases n - i,
    {
        let (f, p2) = match read_field_at(buf, p) {
            Some(x) => x,
            None => { return None; },
        };
        proof {
            let prev = field_views(out@);
            assert(field_views(out@.push(f)) =~= prev.push(f@));
            if dec_fields(buf@.skip(p2 as int), (n - i - 1) as nat) is Some {
                let q = dec_fields(buf@.skip(p2 as int), (n - i - 1) as nat)->Some_0;
                assert(prev + (seq![f@] + q.0) =~= prev.push(f@) + q.0);
            }
        }
        out.push(f);
        p = p2;
        i = i + 1;
    }
    proof {
        assert(field_views(out@) + Seq::<FieldView>::empty() =~= field_views(out@));
    }
    Some((out, p))
}

fn read_cell_at(buf: &Vec<u8>, pos: usize) -> (r: Option<(CellEntry, usize)>)
    requires
        pos <= buf@.len(),
    ensures
        match r {
            Some(p) => pos <= p.1 <= buf@.len() && dec_cell(buf@.skip(pos as int)) == Some(
                (p.0@, buf@.skip(p.1 as int)),
            ),
            None => dec_cell(buf@.skip(pos as int)) == None::<(CellEntryView, Seq<u8>)>,
        },
{
    let (field_id, p1) = match read_str(buf, pos) {
        Some(x) => x,
        None => { return None; },
    };
    let (tw, p2) = match read_u64(buf, p1) {
        Some(x) => x,
        None => { return None; },
    };
    let field_type = match field_type_from_word(tw) {
        Some(t) => t,
        None => { return None; },
    };
    let (data, p3) = match read_str(buf, p2) {
        Some(x) => x,
        None => { return None; },
    };
    Some((CellEntry { field_id, cell: crate::cell::Cell { field_type, data } }, p3))
}

fn read_row_at(buf: &Vec<u8>, pos: usize) -> (r: Option<(Row, usize)>)
    requires
        pos <= buf@.len(),
    ensures
        match r {
            Some(p) => pos <= p.1 <= buf@.len() && dec_row(buf@.skip(pos as int)) == Some(
                (p.0@, buf@.skip(p.1 as int)),
            ),
            None => dec_row(buf@.skip(pos as int)) == None::<(RowView, Seq<u8>)>,
        },
{
    let (id, p1) = match read_str(buf, pos) {
        Some(x) => x,
        None => { return None; },
    };
    let (n, p2) = match read_u64(buf, p1) {
        Some(x) => x,
        None => { return None; },
    };
    let ghost start = buf@.skip(p2 as int);
    let mut cells: Vec<CellEntry> = Vec::new();
    let mut p = p2;
    let mut i: u64 = 0;
    proof {
        assert(cell_views(cells@) =~= Seq::<CellEntryView>::empty());
        if dec_cells(start, n as nat) is Some {
            let q = dec_cells(start, n as nat)->Some_0;
            assert(cell_views(cells@) + q.0 =~= q.0);
        }
    }
    while i < n
        invariant
            i <= n,
            pos <= buf@.len(),
            p1 <= buf@.len(),
            p2 <= p <= buf@.len(),
            start == buf@.skip(p2 as int),
            dec_str(buf@.skip(pos as int)) == Some((id@, buf@.skip(p1 as int))),
            dec_u64(buf@.skip(p1 as int)) == Some((n, start)),
            dec_cells(start, n as nat) == match dec_cells(
                buf@.skip(p as int),
                (n - i) as nat,
            ) {
                None => None::<(Seq<CellEntryView>, Seq<u8>)>,
                Some(q) => Some((cell_views(cells@) + q.0, q.1)),
            },
        decreases n - i,
    {
        let (e, pn) = match read_cell_at(buf, p) {
            Some(x) => x,
            None => { return None; },
        };
        proof {
            let prev = cell_views(cells@);
            assert(cell_views(cells@.push(e)) =~= prev.push(e@));
            if dec_cells(buf@.skip(pn as int), (n - i - 1) as nat) is Some {
                let q = dec_cells(buf@.skip(pn as int), (n - i - 1) as nat)->Some_0;
                assert(prev + (seq![e@] + q.0) =~= prev.push(e@) + q.0);
            }
        }
        cells.push(e);
        p = pn;
        i = i + 1;
    }
    proof {
        assert(cell_views(cells@) + Seq::<CellEntryView>::empty() =~= cell_views(cells@));
    }
    Some((Row { id, cells }, p))
}

fn read_rows_at(buf: &Vec<u8>, pos: usize, n: u64) -> (r: Option<(Vec<Row>, usize)>)
    requires
        pos <= buf@.len(),
    ensures
        match r {
            Some(p) => pos <= p.1 <= buf@.len() && dec_rows(buf@.skip(pos as int), n as nat)
                == Some((row_views(p.0@), buf@.skip(p.1 as int))),
            None => dec_rows(buf@.skip(pos as int), n as nat) == None::<(Seq<RowView>, Seq<u8>)>,
        },
{
    let ghost start = buf@.skip(pos as int);
    let mut out: Vec<Row> = Vec::new();
    let mut p = pos;
    let mut i: u64 = 0;
    proof {
        assert(row_views(out@) =~= Seq::<RowView>::empty());
        if dec_rows(start, n as nat) is Some {
            let q = dec_rows(start, n as nat)->Some_0;
            assert(row_views(out@) + q.0 =~= q.0);
        }
    }
    while i < n
        invariant
            i <= n,
            pos <= p <= buf@.len(),
            start == buf@.skip(pos as int),
            dec_rows(start, n as nat) == match dec_rows(buf@.skip(p as int), (n - i) as nat) {
                None => None::<(Seq<RowView>, Seq<u8>)>,
                Some(q) => Some((row_views(out@) + q.0, q.1)),
            },
        decreases n - i,
    {
        let (rw, p2) = match read_row_at(buf, p) {
            Some(x) => x,
            None => { return None; },
        };
        proof {
            let prev = row_views(out@);
            assert(row_views(out@.push(rw)) =~= prev.push(rw@));
            if dec_rows(buf@.skip(p2 as int), (n - i - 1) as nat) is Some {
                let q = dec_rows(buf@.skip(p2 as int), (n - i - 1) as nat)->Some_0;
                assert(prev + (seq![rw@] + q.0) =~= prev.push(rw@) + q.0);
            }
        }
        out.push(rw);
        p = p2;
        i = i + 1;
    }
    proof {
        assert(row_views(out@) + Seq::<RowView>::empty() =~= row_views(out@));
    }
    Some((out, p))
}

fn read_view_at(buf: &Vec<u8>, pos: usize) -> (r: Option<(DatabaseView, usize)>)
    requires
        pos <= buf@.len(),
    ensures
        match r {
            Some(p) => pos <= p.1 <= buf@.len() && dec_view(buf@.skip(pos as int)) == Some(
                (p.0@, buf@.skip(p.1 as int)),
            ) && p.0.filters@.len() == 0 && p.0.sorts@.len() == 0 && p.0.groups@.len() == 0,
            None => dec_view(buf@.skip(pos as int)) == None::<(ViewConfigView, Seq<u8>)>,
        },
{
    let (id, p1) = match read_str(buf, pos) {
        Some(x) => x,
        None => { return None; },
    };
    let (name, p2) = match read_str(buf, p1) {
        Some(x) => x,
        None => { return None; },
    };
    let (lw, p3) = match read_u64(buf, p2) {
        Some(x) => x,
        None => { return None; },
    };
    let layout = if lw == 0 { DatabaseLayout::Grid }
    else if lw == 1 { DatabaseLayout::Board }
    else if lw == 2 { DatabaseLayout::Calendar }
    else {
        return None;
    };
    let (hasc, p4) = match read_u64(buf, p3) {
        Some(x) => x,
        None => { return None; },
    };
    if hasc == 0 {
        return Some((
            DatabaseView {
                id,
                name,
                layout,
                layout_settings: crate::database::LayoutSettings { calendar: None },
                filters: Vec::new(),
                sorts: Vec::new(),
                groups: Vec::new(),
            },
            p4,
        ));
    }
    if hasc != 1 {
        return None;
    }
    let (fid, p5) = match read_str(buf, p4) {
        Some(x) => x,
        None => { return None; },
    };
    let (fd, p6) = match read_u64(buf, p5) {
        Some(x) => x,
        None => { return None; },
    };
    if fd > 255 {
        return None;
    }
    let (we, p7) = match read_u64(buf, p6) {
        Some(x) => x,
        None => { return None; },
    };
    if we > 1 {
        return None;
    }
    let (wn, p8) = match read_u64(buf, p7) {
        Some(x) => x,
        None => { return None; },
    };
    if wn > 1 {
        return None;
    }
    Some((
        DatabaseView {
            id,
            name,
            layout,
            layout_settings: crate::database::LayoutSettings {
                calendar: Some(
                    crate::database::CalendarLayoutSetting {
                        field_id: fid,
                        first_day_of_week: fd as u8,
                        show_weekends: we == 1,
                        show_week_numbers: wn == 1,
                    },
                ),
            },
            filters: Vec::new(),
            sorts: Vec::new(),
            groups: Vec::new(),
        },
        p8,
    ))
}

/// Materializes a snapshot from its byte representation; the bytes must be
/// exactly one well-formed snapshot.
pub fn from_snapshot_bytes(buf: &Vec<u8>) -> (r: Option<DuplicatedDatabase>)
    ensures
        match r {
            Some(d) => dec_dup(buf@) == Some((d@, buf@.skip(buf@.len() as int))),
            None => dec_dup(buf@) is Some ==> dec_dup(buf@)->Some_0.1.len() != 0,
        },
{
    proof {
        assert(buf@.skip(0) =~= buf@);
    }
    let (name, p1) = match read_str(buf, 0) {
        Some(x) => x,
        None => { return None; },
    };
    let (view, p2) = match read_view_at(buf, p1) {
        Some(x) => x,
        None => { return None; },
    };
    let (nf, p3) = match read_u64(buf, p2) {
        Some(x) => x,
        None => { return None; },
    };
    let (fields, p4) = match read_fields_at(buf, p3, nf) {
        Some(x) => x,
        None => { return None; },
    };
    let (nr, p5) = match read_u64(buf, p4) {
        Some(x) => x,
        None => { return None; },
    };
    let (rows, p6) = match read_rows_at(buf, p5, nr) {
        Some(x) => x,
        None => { return None; },
    };
    if p6 != buf.len() {
        proof {
            assert(buf@.skip(p6 as int).len() == buf@.len() - p6);
        }
        return None;
    }
    Some((DuplicatedDatabase { name, view, fields, rows }))
}

} // verus!
