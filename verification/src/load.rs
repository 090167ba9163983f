//! From the bytes of a catalog file to its stars.

use vstd::prelude::*;
use vstd::string::StringSliceAdditionalSpecFns;
use crate::bytes::same_bytes;
use crate::decimal::{fixed_value, parse_fixed};
use crate::number::{id_value, parse_id};
use crate::seqs::{first_index_of, lemma_first_index_of};
use crate::star::{all_in_range, coord_ok, is_coord, Star};
use crate::table::{after_first_line, csv_rows, read_rows, skip_first_line};

verus! {

/// A field of a star, in the order in which a row is checked.
#[derive(Clone, Copy, Debug, PartialEq, Eq, Structural)]
pub enum Field {
    ObjId,
    Ra,
    Dec,
    U,
    G,
    R,
    I,
    Z,
}

impl Field {
    /// The column name of the field, as the header row spells it.
    pub open spec fn spec_name(self) -> Seq<u8> {
        match self {
            Field::ObjId => "obj_id".spec_bytes(),
            Field::Ra => "ra".spec_bytes(),
            Field::Dec => "dec".spec_bytes(),
            Field::U => "u".spec_bytes(),
            Field::G => "g".spec_bytes(),
            Field::R => "r".spec_bytes(),
            Field::I => "i".spec_bytes(),
            Field::Z => "z".spec_bytes(),
        }
    }

    /// The column name of the field, as the header row spells it.
    pub fn name(self) -> (r: &'static [u8])
        ensures
            r@ == self.spec_name(),
    {
        match self {
            Field::ObjId => "obj_id".as_bytes(),
            Field::Ra => "ra".as_bytes(),
            Field::Dec => "dec".as_bytes(),
            Field::U => "u".as_bytes(),
            Field::G => "g".as_bytes(),
            Field::R => "r".as_bytes(),
            Field::I => "i".as_bytes(),
            Field::Z => "z".as_bytes(),
        }
    }

    /// Whether every star must have the field.
    pub open spec fn spec_required(self) -> bool {
        self == Field::ObjId || self == Field::Ra || self == Field::Dec
    }

    /// Whether every star must have the field.
    pub fn required(self) -> (r: bool)
        ensures
            r == self.spec_required(),
    {
        match self {
            Field::ObjId | Field::Ra | Field::Dec => true,
            _ => false,
        }
    }
}

/// What is wrong with a value.
#[derive(Clone, Copy, Debug, PartialEq, Eq, Structural)]
pub enum Fault {
    /// A field that every star must have is empty.
    Empty,
    /// The text is not a number of the field's kind, or the number is too
    /// large to hold.
    Malformed,
    /// A coordinate lies more than `COORD_MAX` from zero.
    OutOfRange,
}

/// Why a catalog could not be loaded.
#[derive(Clone, Copy, Debug, PartialEq, Eq, Structural)]
pub enum LoadError {
    /// The rows are not well-formed CSV: a row has not as many fields as the
    /// header, or a field is not UTF-8.
    Csv,
    /// Nothing follows the first line.
    NoHeader,
    /// The header names no column for a field that every star must have.
    MissingColumn { field: Field },
    /// The header names two columns for one field.
    DuplicateColumn { field: Field },
    /// A value cannot be read. Rows are counted from zero, after the header.
    BadValue { row: usize, field: Field, fault: Fault },
}

/// The first column that `header` names for `field`, or the length of
/// `header` where it names none.
pub open spec fn column_of(header: Seq<Seq<u8>>, field: Field) -> int {
    first_index_of(header, field.spec_name())
}

/// `header` names no column for `field`.
pub open spec fn is_absent(header: Seq<Seq<u8>>, field: Field) -> bool {
    column_of(header, field) >= header.len()
}

/// `header` names more than one column for `field`.
pub open spec fn is_repeated(header: Seq<Seq<u8>>, field: Field) -> bool {
    let first = column_of(header, field);
    first < header.len() && first_index_of(header.skip(first + 1), field.spec_name())
        < header.len() - first - 1
}

/// What is wrong with the way `header` names `field`, if anything.
pub open spec fn field_fault(header: Seq<Seq<u8>>, field: Field) -> Option<LoadError> {
    if is_repeated(header, field) {
        Some(LoadError::DuplicateColumn { field })
    } else if is_absent(header, field) && field.spec_required() {
        Some(LoadError::MissingColumn { field })
    } else {
        None
    }
}

/// What is wrong with `header`, if anything: the fault of the first field, in
/// the order of `Field`, that it names wrongly.
pub open spec fn header_fault(header: Seq<Seq<u8>>) -> Option<LoadError> {
    if field_fault(header, Field::ObjId).is_some() {
        field_fault(header, Field::ObjId)
    } else if field_fault(header, Field::Ra).is_some() {
        field_fault(header, Field::Ra)
    } else if field_fault(header, Field::Dec).is_some() {
        field_fault(header, Field::Dec)
    } else if field_fault(header, Field::U).is_some() {
        field_fault(header, Field::U)
    } else if field_fault(header, Field::G).is_some() {
        field_fault(header, Field::G)
    } else if field_fault(header, Field::R).is_some() {
        field_fault(header, Field::R)
    } else if field_fault(header, Field::I).is_some() {
        field_fault(header, Field::I)
    } else {
        field_fault(header, Field::Z)
    }
}

/// Where each field stands in a row.
#[derive(Clone, Copy, Debug, PartialEq, Eq, Structural)]
pub struct Layout {
    pub obj_id: usize,
    pub ra: usize,
    pub dec: usize,
    pub u: Option<usize>,
    pub g: Option<usize>,
    pub r: Option<usize>,
    pub i: Option<usize>,
    pub z: Option<usize>,
}

/// The column of a field that a star may lack.
pub open spec fn optional_column(header: Seq<Seq<u8>>, field: Field) -> Option<usize> {
    if is_absent(header, field) {
        None
    } else {
        Some(column_of(header, field) as usize)
    }
}

/// The layout that `header` lays down.
pub open spec fn layout_of(header: Seq<Seq<u8>>) -> Layout {
    Layout {
        obj_id: column_of(header, Field::ObjId) as usize,
        ra: column_of(header, Field::Ra) as usize,
        dec: column_of(header, Field::Dec) as usize,
        u: optional_column(header, Field::U),
        g: optional_column(header, Field::G),
        r: optional_column(header, Field::R),
        i: optional_column(header, Field::I),
        z: optional_column(header, Field::Z),
    }
}

/// The text of a row at a column: empty where the layout has no such column
/// or the row ends before it.
pub open spec fn text_at(row: Seq<Seq<u8>>, column: Option<usize>) -> Seq<u8> {
    match column {
        Some(c) if c < row.len() => row[c as int],
        _ => Seq::empty(),
    }
}

/// What an identifier field holds.
pub open spec fn id_field(text: Seq<u8>) -> Result<u64, Fault> {
    if text.len() == 0 {
        Err(Fault::Empty)
    } else {
        match id_value(text) {
            Some(v) => Ok(v),
            None => Err(Fault::Malformed),
        }
    }
}

/// What a coordinate field holds.
pub open spec fn coord_field(text: Seq<u8>) -> Result<i64, Fault> {
    if text.len() == 0 {
        Err(Fault::Empty)
    } else {
        match fixed_value(text) {
            Some(v) => if coord_ok(v as int) {
                Ok(v)
            } else {
                Err(Fault::OutOfRange)
            },
            None => Err(Fault::Malformed),
        }
    }
}

/// What a magnitude field holds: nothing where it is empty.
pub open spec fn magnitude_field(text: Seq<u8>) -> Result<Option<i64>, Fault> {
    if text.len() == 0 {
        Ok(None)
    } else {
        match fixed_value(text) {
            Some(v) => Ok(Some(v)),
            None => Err(Fault::Malformed),
        }
    }
}

/// The star that a row holds. The fields are read in the order of `Field`;
/// the first that cannot be read gives the fault.
#[verifier::opaque]
pub open spec fn row_star(layout: Layout, row: Seq<Seq<u8>>) -> Result<Star, (Field, Fault)> {
    match id_field(text_at(row, Some(layout.obj_id))) {
        Err(fault) => Err((Field::ObjId, fault)),
        Ok(obj_id) => match coord_field(text_at(row, Some(layout.ra))) {
            Err(fault) => Err((Field::Ra, fault)),
            Ok(ra) => match coord_field(text_at(row, Some(layout.dec))) {
                Err(fault) => Err((Field::Dec, fault)),
                Ok(dec) => match magnitude_field(text_at(row, layout.u)) {
                    Err(fault) => Err((Field::U, fault)),
                    Ok(u) => match magnitude_field(text_at(row, layout.g)) {
                        Err(fault) => Err((Field::G, fault)),
                        Ok(g) => match magnitude_field(text_at(row, layout.r)) {
                            Err(fault) => Err((Field::R, fault)),
                            Ok(r) => match magnitude_field(text_at(row, layout.i)) {
                                Err(fault) => Err((Field::I, fault)),
                                Ok(i) => match magnitude_field(text_at(row, layout.z)) {
                                    Err(fault) => Err((Field::Z, fault)),
                                    Ok(z) => Ok(Star { obj_id, ra, dec, u, g, r, i, z }),
                                },
                            },
                        },
                    },
                },
            },
        },
    }
}

/// The position of the first of `rows` that holds no star, or the number of
/// rows where each holds one.
pub open spec fn first_bad_row(layout: Layout, rows: Seq<Seq<Seq<u8>>>) -> int
    decreases rows.len(),
{
    if rows.len() == 0 {
        0
    } else if row_star(layout, rows[0]).is_err() {
        0
    } else {
        1 + first_bad_row(layout, rows.skip(1))
    }
}

/// The stars of a table, whose first row is the header. Loading is all or
/// nothing: a header fault, else the first row that holds no star, fails the
/// whole table.
pub open spec fn table_stars(table: Seq<Seq<Seq<u8>>>) -> Result<Seq<Star>, LoadError> {
    if table.len() == 0 {
        Err(LoadError::NoHeader)
    } else {
        let layout = layout_of(table[0]);
        let rows = table.skip(1);
        let bad = first_bad_row(layout, rows);
        if header_fault(table[0]).is_some() {
            Err(header_fault(table[0]).unwrap())
        } else if bad < rows.len() {
            Err(
                LoadError::BadValue {
                    row: bad as usize,
                    field: row_star(layout, rows[bad]).unwrap_err().0,
                    fault: row_star(layout, rows[bad]).unwrap_err().1,
                },
            )
        } else {
            Ok(Seq::new(rows.len(), |i: int| row_star(layout, rows[i]).unwrap()))
        }
    }
}

/// The stars of a catalog file: those of the table that the CSV reader finds
/// after the first line.
pub open spec fn catalog(data: Seq<u8>) -> Result<Seq<Star>, LoadError> {
    match csv_rows(after_first_line(data)) {
        None => Err(LoadError::Csv),
        Some(table) => table_stars(table),
    }
}

/// The deep view of a byte string is the byte string.
pub proof fn lemma_bytes_view(text: Vec<u8>)
    ensures
        text.deep_view() == text@,
{
}

/// Finds the first column at or after `from` that `header` names `name`;
/// gives the length of `header` where there is none.
pub fn find_column(header: &Vec<Vec<u8>>, name: &[u8], from: usize) -> (at: usize)
    requires
        from <= header@.len(),
    ensures
        from <= at <= header@.len(),
        at - from == first_index_of(header.deep_view().skip(from as int), name@),
{
    let ghost names = header.deep_view();
    let mut at: usize = from;
    while at < header.len() && !same_bytes(header[at].as_slice(), name)
        invariant
            from <= at <= header@.len(),
            names == header.deep_view(),
            forall|j: int| from <= j < at ==> names[j] != name@,
        decreases header@.len() - at,
    {
        proof {
            lemma_bytes_view(header@[at as int]);
        }
        at += 1;
    }
    proof {
        if at < header@.len() {
            lemma_bytes_view(header@[at as int]);
        }
        lemma_first_index_of(names.skip(from as int), name@, at - from);
    }
    at
}

/// Finds the column of `field`.
pub fn locate(header: &Vec<Vec<u8>>, field: Field) -> (r: Result<Option<usize>, LoadError>)
    ensures
        match r {
            Ok(column) => field_fault(header.deep_view(), field).is_none() && column
                == optional_column(header.deep_view(), field),
            Err(e) => field_fault(header.deep_view(), field) == Some(e),
        },
{
    let name = field.name();
    let first: usize = find_column(header, name, 0);
    assert(header.deep_view().skip(0) =~= header.deep_view());
    if first == header.len() {
        if field.required() {
            Err(LoadError::MissingColumn { field })
        } else {
            Ok(None)
        }
    } else {
        let second: usize = find_column(header, name, first + 1);
        if second < header.len() {
            Err(LoadError::DuplicateColumn { field })
        } else {
            Ok(Some(first))
        }
    }
}

/// Reads the header row.
pub fn read_header(header: &Vec<Vec<u8>>) -> (r: Result<Layout, LoadError>)
    ensures
        match r {
            Ok(layout) => header_fault(header.deep_view()).is_none() && layout == layout_of(
                header.deep_view(),
            ),
            Err(e) => header_fault(header.deep_view()) == Some(e),
        },
{
    let obj_id = match locate(header, Field::ObjId) {
        Ok(column) => column.unwrap(),
        Err(e) => { return Err(e); },
    };
    let ra = match locate(header, Field::Ra) {
        Ok(column) => column.unwrap(),
        Err(e) => { return Err(e); },
    };
    let dec = match locate(header, Field::Dec) {
        Ok(column) => column.unwrap(),
        Err(e) => { return Err(e); },
    };
    let u = match locate(header, Field::U) {
        Ok(column) => column,
        Err(e) => { return Err(e); },
    };
    let g = match locate(header, Field::G) {
        Ok(column) => column,
        Err(e) => { return Err(e); },
    };
    let r = match locate(header, Field::R) {
        Ok(column) => column,
        Err(e) => { return Err(e); },
    };
    let i = match locate(header, Field::I) {
        Ok(column) => column,
        Err(e) => { return Err(e); },
    };
    let z = match locate(header, Field::Z) {
        Ok(column) => column,
        Err(e) => { return Err(e); },
    };
    Ok(Layout { obj_id, ra, dec, u, g, r, i, z })
}

/// Reads an identifier field.
pub fn read_id(text: &[u8]) -> (r: Result<u64, Fault>)
    ensures
        r == id_field(text@),
{
    if text.len() == 0 {
        Err(Fault::Empty)
    } else {
        match parse_id(text) {
            Some(v) => Ok(v),
            None => Err(Fault::Malformed),
        }
    }
}

/// Reads a coordinate field.
pub fn read_coord(text: &[u8]) -> (r: Result<i64, Fault>)
    ensures
        r == coord_field(text@),
{
    if text.len() == 0 {
        Err(Fault::Empty)
    } else {
        match parse_fixed(text) {
            Some(v) => if is_coord(v) {
                Ok(v)
            } else {
                Err(Fault::OutOfRange)
            },
            None => Err(Fault::Malformed),
        }
    }
}

/// Reads a magnitude field.
pub fn read_magnitude(text: &[u8]) -> (r: Result<Option<i64>, Fault>)
    ensures
        r == magnitude_field(text@),
{
    if text.len() == 0 {
        Ok(None)
    } else {
        match parse_fixed(text) {
            Some(v) => Ok(Some(v)),
            None => Err(Fault::Malformed),
        }
    }
}

/// The text of `row` at `column`, or `empty` where the row has no such
/// column.
fn cell<'a>(row: &'a Vec<Vec<u8>>, column: Option<usize>, empty: &'a Vec<u8>) -> (text: &'a [u8])
    requires
        empty@.len() == 0,
    ensures
        text@ == text_at(row.deep_view(), column),
{
    match column {
        Some(c) => {
            if c < row.len() {
                proof {
                    lemma_bytes_view(row@[c as int]);
                }
                row[c].as_slice()
            } else {
                empty.as_slice()
            }
        },
        None => {
            empty.as_slice()
        },
    }
}

/// Reads the star of a row.
pub fn read_star(row: &Vec<Vec<u8>>, layout: &Layout) -> (r: Result<Star, (Field, Fault)>)
    ensures
        r == row_star(*layout, row.deep_view()),
        r.is_ok() ==> r.unwrap().in_range(),
{
    reveal(row_star);
    let empty: Vec<u8> = Vec::new();
    let obj_id = match read_id(cell(row, Some(layout.obj_id), &empty)) {
        Ok(v) => v,
        Err(fault) => { return Err((Field::ObjId, fault)); },
    };
    let ra = match read_coord(cell(row, Some(layout.ra), &empty)) {
        Ok(v) => v,
        Err(fault) => { return Err((Field::Ra, fault)); },
    };
    let dec = match read_coord(cell(row, Some(layout.dec), &empty)) {
        Ok(v) => v,
        Err(fault) => { return Err((Field::Dec, fault)); },
    };
    let u = match read_magnitude(cell(row, layout.u, &empty)) {
        Ok(v) => v,
        Err(fault) => { return Err((Field::U, fault)); },
    };
    let g = match read_magnitude(cell(row, layout.g, &empty)) {
        Ok(v) => v,
        Err(fault) => { return Err((Field::G, fault)); },
    };
    let r = match read_magnitude(cell(row, layout.r, &empty)) {
        Ok(v) => v,
        Err(fault) => { return Err((Field::R, fault)); },
    };
    let i = match read_magnitude(cell(row, layout.i, &empty)) {
        Ok(v) => v,
        Err(fault) => { return Err((Field::I, fault)); },
    };
    let z = match read_magnitude(cell(row, layout.z, &empty)) {
        Ok(v) => v,
        Err(fault) => { return Err((Field::Z, fault)); },
    };
    Ok(Star { obj_id, ra, dec, u, g, r, i, z })
}

/// A position before which every row holds a star, and which holds none or is
/// the end of the rows, is the first bad row.
pub proof fn lemma_first_bad_row(layout: Layout, rows: Seq<Seq<Seq<u8>>>, i: int)
    requires
        0 <= i <= rows.len(),
        forall|j: int| 0 <= j < i ==> row_star(layout, #[trigger] rows[j]).is_ok(),
        i < rows.len() ==> row_star(layout, rows[i]).is_err(),
    ensures
        first_bad_row(layout, rows) == i,
    decreases rows.len(),
{
    if rows.len() > 0 && i > 0 {
        let rest = rows.skip(1);
        assert forall|j: int| 0 <= j < i - 1 implies row_star(
            layout,
            #[trigger] rest[j],
        ).is_ok() by {
            assert(rest[j] == rows[j + 1]);
        }
        lemma_first_bad_row(layout, rest, i - 1);
    }
}

/// Every row before the first bad row holds a star, and the first bad row,
/// where there is one, holds none.
pub proof fn lemma_first_bad_row_is_first(layout: Layout, rows: Seq<Seq<Seq<u8>>>)
    ensures
        0 <= first_bad_row(layout, rows) <= rows.len(),
        forall|j: int|
            0 <= j < first_bad_row(layout, rows) ==> row_star(layout, #[trigger] rows[j]).is_ok(),
        first_bad_row(layout, rows) < rows.len() ==> row_star(
            layout,
            rows[first_bad_row(layout, rows)],
        ).is_err(),
    decreases rows.len(),
{
    if rows.len() > 0 && row_star(layout, rows[0]).is_ok() {
        let rest = rows.skip(1);
        lemma_first_bad_row_is_first(layout, rest);
        assert forall|j: int| 0 <= j < first_bad_row(layout, rows) implies row_star(
            layout,
            #[trigger] rows[j],
        ).is_ok() by {
            if j > 0 {
                assert(rest[j - 1] == rows[j]);
            }
        }
    }
}

/// Loading is all or nothing: a table gives stars where it has a header
/// without fault and every row after it holds a star, and only there; it then
/// gives one star for each row, in the order of the rows, each in range.
pub proof fn lemma_all_or_nothing(table: Seq<Seq<Seq<u8>>>)
    ensures
        table_stars(table).is_ok() <==> table.len() > 0 && header_fault(table[0]).is_none()
            && forall|i: int|
            1 <= i < table.len() ==> row_star(layout_of(table[0]), #[trigger] table[i]).is_ok(),
        table_stars(table).is_ok() ==> {
            let stars = table_stars(table).unwrap();
            &&& stars.len() == table.len() - 1
            &&& all_in_range(stars)
            &&& forall|i: int|
                0 <= i < stars.len() ==> row_star(layout_of(table[0]), table[i + 1]) == Ok::<
                    Star,
                    (Field, Fault),
                >(#[trigger] stars[i])
        },
{
    if table.len() > 0 {
        let layout = layout_of(table[0]);
        let rows = table.skip(1);
        lemma_first_bad_row_is_first(layout, rows);
        let bad = first_bad_row(layout, rows);
        if bad >= rows.len() {
            assert forall|i: int| 1 <= i < table.len() implies row_star(
                layout,
                #[trigger] table[i],
            ).is_ok() by {
                assert(rows[i - 1] == table[i]);
            }
        }
        if table_stars(table).is_ok() {
            let stars = table_stars(table).unwrap();
            assert forall|i: int| 0 <= i < stars.len() implies row_star(layout, table[i + 1])
                == Ok::<Star, (Field, Fault)>(#[trigger] stars[i]) && stars[i].in_range() by {
                lemma_row_star_in_range(layout, rows[i]);
            }
        }
    }
}

/// A star that a row holds has its coordinates in range.
pub proof fn lemma_row_star_in_range(layout: Layout, row: Seq<Seq<u8>>)
    requires
        row_star(layout, row).is_ok(),
    ensures
        row_star(layout, row).unwrap().in_range(),
{
    reveal(row_star);
}

/// Reads the stars of a table whose first row is the header.
pub fn stars_from_table(table: &Vec<Vec<Vec<u8>>>) -> (r: Result<Vec<Star>, LoadError>)
    ensures
        match r {
            Ok(stars) => table_stars(table.deep_view()) == Ok::<Seq<Star>, LoadError>(stars@)
                && all_in_range(stars@),
            Err(e) => table_stars(table.deep_view()) == Err::<Seq<Star>, LoadError>(e),
        },
{
    if table.len() == 0 {
        return Err(LoadError::NoHeader);
    }
    let ghost rows = table.deep_view().skip(1);
    let layout = match read_header(&table[0]) {
        Ok(layout) => layout,
        Err(e) => { return Err(e); },
    };
    let mut stars: Vec<Star> = Vec::new();
    let mut i: usize = 1;
    while i < table.len()
        invariant
            1 <= i <= table@.len(),
            rows == table.deep_view().skip(1),
            layout == layout_of(table.deep_view()[0]),
            header_fault(table.deep_view()[0]).is_none(),
            stars@.len() == i - 1,
            all_in_range(stars@),
            forall|j: int|
                0 <= j < i - 1 ==> row_star(layout, #[trigger] rows[j]) == Ok::<
                    Star,
                    (Field, Fault),
                >(stars@[j]),
        decreases table@.len() - i,
    {
        match read_star(&table[i], &layout) {
            Ok(star) => {
                stars.push(star);
            },
            Err((field, fault)) => {
                proof {
                    lemma_first_bad_row(layout, rows, i - 1);
                }
                return Err(LoadError::BadValue { row: i - 1, field, fault });
            },
        }
        i += 1;
    }
    proof {
        lemma_first_bad_row(layout, rows, rows.len() as int);
        assert(stars@ =~= Seq::new(rows.len(), |i: int| row_star(layout, rows[i]).unwrap()));
    }
    Ok(stars)
}

/// Loads the stars of a catalog file. The first line is dropped unread, the
/// first row after it is the header, and every further row is one star.
pub fn load_stars(data: &[u8]) -> (r: Result<Vec<Star>, LoadError>)
    ensures
        match r {
            Ok(stars) => catalog(data@) == Ok::<Seq<Star>, LoadError>(stars@) && all_in_range(
                stars@,
            ),
            Err(e) => catalog(data@) == Err::<Seq<Star>, LoadError>(e),
        },
{
    match read_rows(skip_first_line(data)) {
        Ok(table) => stars_from_table(&table),
        Err(_) => Err(LoadError::Csv),
    }
}

} // verus!
