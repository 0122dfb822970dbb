//! Building an act from a validated sheet: header fields found by offsets from the
//! anchors, and the totals block gathered into records by label.
use vstd::prelude::*;
use crate::error::{Error, Fault};
use crate::grid::{value_at, CellValue, Grid, UsedCell};
use crate::sheet::Sheet;
use crate::tags::{TagAddressMap, TagID};
use crate::text::{clean_text, cleaned};

verus! {

/// A header field's address as offsets from two anchors: its row from the first,
/// its column from the second.
#[derive(Clone, Copy, Debug)]
pub struct CellCoords {
    pub row: (TagID, i8),
    pub col: (TagID, i8),
}

/// A header field: its name in the report and, when it is found by offsets, how.
/// Fields without offsets have rules of their own.
#[derive(Clone, Copy, Debug)]
pub struct DesiredCell {
    pub name: &'static str,
    pub cell_coords: Option<CellCoords>,
}

/// The number of header fields.
pub const HEADER_FIELD_COUNT: usize = 16;

/// The offsets of header field `k`, for the fields that are found by offsets.
pub open spec fn header_coords(k: int) -> Option<CellCoords> {
    let c = |r: TagID, dr: int, cl: TagID, dc: int| Some(CellCoords { row: (r, dr as i8), col: (cl, dc as i8) });
    if k == 3 {
        c(TagID::Object, 0, TagID::WorkName, 0)
    } else if k == 4 {
        c(TagID::Contract, 0, TagID::Contract, 2)
    } else if k == 5 {
        c(TagID::Contract, 1, TagID::Contract, 2)
    } else if k == 6 {
        c(TagID::Contract, 0, TagID::Construction, 0)
    } else if k == 7 {
        c(TagID::Contract, 1, TagID::Construction, 0)
    } else if k == 8 {
        c(TagID::SupplementaryAgreement, 0, TagID::DocumentNumber, 0)
    } else if k == 9 {
        c(TagID::SupplementaryAgreement, 1, TagID::DocumentNumber, 0)
    } else if k == 10 {
        c(TagID::DocumentNumber, 2, TagID::DocumentNumber, 0)
    } else if k == 11 {
        c(TagID::DocumentNumber, 2, TagID::DocumentNumber, 4)
    } else if k == 12 {
        c(TagID::DocumentNumber, 2, TagID::DocumentNumber, 5)
    } else if k == 13 {
        c(TagID::DocumentNumber, 2, TagID::DocumentNumber, 6)
    } else if k == 14 {
        c(TagID::WorkName, -1, TagID::Construction, 0)
    } else {
        None
    }
}

/// The header fields in report order.
pub fn desired_cells() -> (r: Vec<DesiredCell>)
    ensures
        r@.len() == HEADER_FIELD_COUNT,
        forall|k: int| 0 <= k < HEADER_FIELD_COUNT ==> #[trigger] r@[k].cell_coords == header_coords(k),
{
    let c = |r: TagID, dr: i8, cl: TagID, dc: i8| -> (x: Option<CellCoords>)
        ensures
            x == Some(CellCoords { row: (r, dr), col: (cl, dc) }),
        { Some(CellCoords { row: (r, dr), col: (cl, dc) }) };
    let v = vec![
        DesiredCell { name: "Исполнитель", cell_coords: None },
        DesiredCell { name: "Глава", cell_coords: None },
        DesiredCell { name: "Глава наименование", cell_coords: None },
        DesiredCell { name: "Объект", cell_coords: c(TagID::Object, 0, TagID::WorkName, 0) },
        DesiredCell { name: "Договор №", cell_coords: c(TagID::Contract, 0, TagID::Contract, 2) },
        DesiredCell { name: "Договор дата", cell_coords: c(TagID::Contract, 1, TagID::Contract, 2) },
        DesiredCell { name: "Смета №", cell_coords: c(TagID::Contract, 0, TagID::Construction, 0) },
        DesiredCell { name: "Смета наименование", cell_coords: c(TagID::Contract, 1, TagID::Construction, 0) },
        DesiredCell { name: "По смете в ц.2000г.", cell_coords: c(TagID::SupplementaryAgreement, 0, TagID::DocumentNumber, 0) },
        DesiredCell { name: "Выполнение работ в ц.2000г.", cell_coords: c(TagID::SupplementaryAgreement, 1, TagID::DocumentNumber, 0) },
        DesiredCell { name: "Акт №", cell_coords: c(TagID::DocumentNumber, 2, TagID::DocumentNumber, 0) },
        DesiredCell { name: "Акт дата", cell_coords: c(TagID::DocumentNumber, 2, TagID::DocumentNumber, 4) },
        DesiredCell { name: "Отчетный период начало", cell_coords: c(TagID::DocumentNumber, 2, TagID::DocumentNumber, 5) },
        DesiredCell { name: "Отчетный период окончание", cell_coords: c(TagID::DocumentNumber, 2, TagID::DocumentNumber, 6) },
        DesiredCell { name: "Метод расчета", cell_coords: c(TagID::WorkName, -1, TagID::Construction, 0) },
        DesiredCell { name: "Затраты труда, чел.-час", cell_coords: None },
    ];
    assert forall|k: int| 0 <= k < HEADER_FIELD_COUNT implies #[trigger] v@[k].cell_coords == header_coords(k) by {
        if k == 0 {} else if k == 1 {} else if k == 2 {} else if k == 3 {} else if k == 4 {} else if k == 5 {}
        else if k == 6 {} else if k == 7 {} else if k == 8 {} else if k == 9 {} else if k == 10 {}
        else if k == 11 {} else if k == 12 {} else if k == 13 {} else if k == 14 {} else {}
    };
    v
}

/// `base` moved by `ofs`: an error where `base` is past the signed range, or the
/// result would be negative or past it.
pub open spec fn shift(base: usize, ofs: i8) -> Result<usize, Error> {
    if base > isize::MAX {
        Err(Error::NumericConversion { value: base })
    } else if base + ofs < 0 || base + ofs > isize::MAX {
        Err(Error::NumericOverflow { value: base, offset: ofs })
    } else {
        Ok((base + ofs) as usize)
    }
}

/// The address that `c` gives on the anchor map `m`: the row is computed first.
pub open spec fn coords_address(m: Map<TagID, (usize, usize)>, c: CellCoords) -> Result<(usize, usize), Error> {
    if !m.contains_key(c.row.0) {
        Err(Error::InternalLogic(Fault::MissingTag(c.row.0)))
    } else if !m.contains_key(c.col.0) {
        Err(Error::InternalLogic(Fault::MissingTag(c.col.0)))
    } else {
        match shift(m[c.row.0].0, c.row.1) {
            Err(e) => Err(e),
            Ok(row) => match shift(m[c.col.0].1, c.col.1) {
                Err(e) => Err(e),
                Ok(col) => Ok((row, col)),
            },
        }
    }
}

fn shift_by(base: usize, ofs: i8) -> (r: Result<usize, Error>)
    ensures
        r == shift(base, ofs),
{
    if base > isize::MAX as usize {
        return Err(Error::NumericConversion { value: base });
    }
    if ofs >= 0 {
        let d = ofs as usize;
        if base > isize::MAX as usize - d {
            Err(Error::NumericOverflow { value: base, offset: ofs })
        } else {
            Ok(base + d)
        }
    } else {
        let d = (0 - (ofs as i16)) as usize;
        if base < d {
            Err(Error::NumericOverflow { value: base, offset: ofs })
        } else {
            Ok(base - d)
        }
    }
}

/// The address that `cell_coords` gives: each anchor's coordinate moved by its offset.
pub fn calculate_cell_adr_by_coords(tag_address_map: &TagAddressMap, cell_coords: CellCoords) -> (r: Result<(usize, usize), Error>)
    ensures
        r == coords_address(tag_address_map@, cell_coords),
{
    let row_tag_adr = *tag_address_map.get(&cell_coords.row.0)?;
    let col_tag_adr = *tag_address_map.get(&cell_coords.col.0)?;
    let row = shift_by(row_tag_adr.0, cell_coords.row.1)?;
    let col = shift_by(col_tag_adr.1, cell_coords.col.1)?;
    Ok((row, col))
}

/// The chapter fields exist only where exactly one row separates the construction
/// and object anchors.
pub open spec fn chapter_valid(m: Map<TagID, (usize, usize)>) -> bool {
    m[TagID::Construction].0 + 2 == m[TagID::Object].0
}

/// The address of header field `k`, for the anchor map `m`.
pub open spec fn header_address(m: Map<TagID, (usize, usize)>, k: int) -> Result<Option<(usize, usize)>, Error> {
    match header_coords(k) {
        Some(c) => match coords_address(m, c) {
            Ok(a) => Ok(Some(a)),
            Err(e) => Err(e),
        },
        None => Ok(
            if k == 0 {
                if m.contains_key(TagID::Executor) {
                    Some((m[TagID::Executor].0, m[TagID::WorkName].1))
                } else {
                    None
                }
            } else if k == 1 {
                if chapter_valid(m) {
                    Some(((m[TagID::Construction].0 + 1) as usize, m[TagID::Construction].1))
                } else {
                    None
                }
            } else if k == 2 {
                if chapter_valid(m) {
                    Some(((m[TagID::Construction].0 + 1) as usize, m[TagID::WorkName].1))
                } else {
                    None
                }
            } else if m.contains_key(TagID::ActTotal) && m.contains_key(TagID::LaborTotal) {
                Some((m[TagID::ActTotal].0, m[TagID::LaborTotal].1))
            } else {
                None
            },
        ),
    }
}

/// The addresses of the header fields from `k` on, or the first error among them.
pub open spec fn addresses_from(m: Map<TagID, (usize, usize)>, k: nat) -> Result<Seq<Option<(usize, usize)>>, Error>
    decreases HEADER_FIELD_COUNT - k,
{
    if k >= HEADER_FIELD_COUNT {
        Ok(Seq::empty())
    } else {
        match header_address(m, k as int) {
            Err(e) => Err(e),
            Ok(a) => match addresses_from(m, k + 1) {
                Err(e) => Err(e),
                Ok(rest) => Ok(seq![a] + rest),
            },
        }
    }
}

/// The addresses of all header fields, in report order.
pub open spec fn header_addresses(m: Map<TagID, (usize, usize)>) -> Result<Seq<Option<(usize, usize)>>, Error> {
    if !m.contains_key(TagID::Construction) {
        Err(Error::InternalLogic(Fault::MissingTag(TagID::Construction)))
    } else if !m.contains_key(TagID::Object) {
        Err(Error::InternalLogic(Fault::MissingTag(TagID::Object)))
    } else if !m.contains_key(TagID::WorkName) {
        Err(Error::InternalLogic(Fault::MissingTag(TagID::WorkName)))
    } else {
        addresses_from(m, 0)
    }
}

/// A list with `p` put before it, or the error it is.
pub open spec fn prepend_all<T>(p: Seq<T>, r: Result<Seq<T>, Error>) -> Result<Seq<T>, Error> {
    match r {
        Ok(rest) => Ok(p + rest),
        Err(e) => Err(e),
    }
}

/// The addresses of all header fields, in report order.
pub fn calculate_header_cell_addresses(tag_address_map: &TagAddressMap) -> (r: Result<Vec<Option<(usize, usize)>>, Error>)
    ensures
        match header_addresses(tag_address_map@) {
            Ok(s) => r matches Ok(v) && v@ == s,
            Err(e) => r == Err::<Vec<Option<(usize, usize)>>, Error>(e),
        },
{
    let ghost m = tag_address_map@;
    let stroika_adr = *tag_address_map.get(&TagID::Construction)?;
    let object_adr = *tag_address_map.get(&TagID::Object)?;
    let naimenov_adr = *tag_address_map.get(&TagID::WorkName)?;
    let is_valid_glava = object_adr.0 >= 2 && object_adr.0 - 2 == stroika_adr.0;
    let cells = desired_cells();
    let mut vec: Vec<Option<(usize, usize)>> = Vec::new();
    let mut k: usize = 0;
    while k < HEADER_FIELD_COUNT
        invariant
            m == tag_address_map@,
            m.contains_key(TagID::Construction) && m.contains_key(TagID::Object) && m.contains_key(TagID::WorkName),
            stroika_adr == m[TagID::Construction],
            object_adr == m[TagID::Object],
            naimenov_adr == m[TagID::WorkName],
            is_valid_glava == chapter_valid(m),
            cells@.len() == HEADER_FIELD_COUNT,
            forall|j: int| 0 <= j < HEADER_FIELD_COUNT ==> #[trigger] cells@[j].cell_coords == header_coords(j),
            k <= HEADER_FIELD_COUNT,
            addresses_from(m, 0) == prepend_all(vec@, addresses_from(m, k as nat)),
        decreases HEADER_FIELD_COUNT - k,
    {
        let a: Option<(usize, usize)> = match cells[k].cell_coords {
            Some(cc) => Some(calculate_cell_adr_by_coords(tag_address_map, cc)?),
            None => if k == 0 {
                match tag_address_map.lookup(TagID::Executor) {
                    Some(e) => Some((e.0, naimenov_adr.1)),
                    None => None,
                }
            } else if k == 1 {
                if is_valid_glava {
                    Some((object_adr.0 - 1, stroika_adr.1))
                } else {
                    None
                }
            } else if k == 2 {
                if is_valid_glava {
                    Some((object_adr.0 - 1, naimenov_adr.1))
                } else {
                    None
                }
            } else {
                match (tag_address_map.lookup(TagID::ActTotal), tag_address_map.lookup(TagID::LaborTotal)) {
                    (Some(t), Some(z)) => Some((t.0, z.1)),
                    _ => None,
                }
            },
        };
        assert(header_address(m, k as int) == Ok::<Option<(usize, usize)>, Error>(a));
        let ghost before = vec@;
        vec.push(a);
        proof {
            match addresses_from(m, (k + 1) as nat) {
                Ok(rest) => {
                    assert(before + (seq![a] + rest) =~= vec@ + rest);
                },
                Err(_) => {},
            }
        }
        k += 1;
    }
    assert(vec@ + Seq::<Option<(usize, usize)>>::empty() =~= vec@);
    Ok(vec)
}

/// A header value: text, or a number (a date counts as its serial number) carried as
/// the bit pattern of its `f64` value.
#[derive(Debug, PartialEq)]
pub enum DataVariant {
    String(String),
    Float(u64),
}

/// What a header field keeps of a cell: numbers and dates as numbers, text cleaned,
/// anything else nothing.
pub open spec fn coerced(v: CellValue, d: Option<DataVariant>) -> bool {
    match v {
        CellValue::Number(x) => d == Some(DataVariant::Float(x)),
        CellValue::DateTime(x) => d == Some(DataVariant::Float(x)),
        CellValue::Text(s) => d matches Some(DataVariant::String(t)) && t@ == cleaned(s@),
        _ => d is None,
    }
}

/// One line of the totals block, keyed by its label. Every physical row with that
/// label adds one entry to each of the three parallel lists.
#[derive(Debug)]
pub struct TotalsRow {
    pub name: String,
    pub base_price: Vec<Option<u64>>,
    pub curr_price: Vec<Option<u64>>,
    pub row_number: Vec<usize>,
}

/// The mathematical content of a `TotalsRow`.
pub struct TotalsRowView {
    pub name: Seq<char>,
    pub base_price: Seq<Option<u64>>,
    pub curr_price: Seq<Option<u64>>,
    pub row_number: Seq<usize>,
}

impl View for TotalsRow {
    type V = TotalsRowView;

    open spec fn view(&self) -> TotalsRowView {
        TotalsRowView {
            name: self.name@,
            base_price: self.base_price@,
            curr_price: self.curr_price@,
            row_number: self.row_number@,
        }
    }
}

/// The views of a list of totals rows.
pub open spec fn rows_view(rows: Seq<TotalsRow>) -> Seq<TotalsRowView> {
    Seq::new(rows.len(), |i: int| rows[i]@)
}

/// The first row at `k` or later labelled `name`.
pub open spec fn find_name(rows: Seq<TotalsRowView>, name: Seq<char>, k: nat) -> Option<nat>
    decreases rows.len() - k,
{
    if k >= rows.len() {
        None
    } else if rows[k as int].name == name {
        Some(k)
    } else {
        find_name(rows, name, k + 1)
    }
}

/// One physical row taken into the records: appended to the record with its label,
/// or a new record at the end.
pub open spec fn merge_row(
    rows: Seq<TotalsRowView>,
    name: Seq<char>,
    b: Option<u64>,
    c: Option<u64>,
    rn: usize,
) -> Seq<TotalsRowView> {
    match find_name(rows, name, 0) {
        Some(i) => rows.update(
            i as int,
            TotalsRowView {
                name: rows[i as int].name,
                base_price: rows[i as int].base_price.push(b),
                curr_price: rows[i as int].curr_price.push(c),
                row_number: rows[i as int].row_number.push(rn),
            },
        ),
        None => rows.push(TotalsRowView { name, base_price: seq![b], curr_price: seq![c], row_number: seq![rn] }),
    }
}

/// The number a cell holds, if any (a date does not count).
pub open spec fn number_of(v: CellValue) -> Option<u64> {
    match v {
        CellValue::Number(x) => Some(x),
        _ => None,
    }
}

/// One row of the totals scan. The state is whether a row without a text label has
/// been seen, and the records so far. Until such a row is seen every labelled row is
/// taken; after it, only a labelled row with a number in one of the price columns.
pub open spec fn scan_row(
    state: (bool, Seq<TotalsRowView>),
    label: CellValue,
    b: Option<u64>,
    c: Option<u64>,
    rn: usize,
) -> (bool, Seq<TotalsRowView>) {
    match label {
        CellValue::Text(s) => if !state.0 || b is Some || c is Some {
            (state.0, merge_row(state.1, cleaned(s@), b, c, rn))
        } else {
            state
        },
        _ => (true, state.1),
    }
}

/// Where the totals block is and where its values are read.
pub struct TotalsPlace {
    pub start_row: usize,
    pub label_col: usize,
    pub base_col: usize,
    pub curr_col: usize,
    pub range_row: usize,
}

/// The scan state after the first `n` rows of the totals block.
pub open spec fn totals_from(cells: Seq<UsedCell>, p: TotalsPlace, n: nat) -> (bool, Seq<TotalsRowView>)
    decreases n,
{
    if n == 0 {
        (false, Seq::empty())
    } else {
        let row = (p.start_row + n - 1) as usize;
        scan_row(
            totals_from(cells, p, (n - 1) as nat),
            value_at(cells, row, p.label_col),
            number_of(value_at(cells, row, p.base_col)),
            number_of(value_at(cells, row, p.curr_col)),
            (p.range_row + row + 1) as usize,
        )
    }
}

/// The place of the totals block of a sheet whose anchors are all found.
pub open spec fn totals_place(sheet: &Sheet, start: (usize, usize)) -> TotalsPlace {
    let m = sheet.tag_address_map@;
    TotalsPlace {
        start_row: start.0,
        label_col: start.1,
        base_col: m[TagID::BasePrice2001].1,
        curr_col: m[TagID::CurrentPrice].1,
        range_row: sheet.range_start.0,
    }
}

/// The records of the totals block that starts at `start`.
pub open spec fn totals_of(sheet: &Sheet, start: (usize, usize)) -> Seq<TotalsRowView> {
    totals_from(sheet.data.cells@, totals_place(sheet, start), (sheet.data.height - start.0) as nat).1
}

/// Records are well formed: their lists have one entry per physical row, and the
/// row numbers are at least `min_row`.
pub open spec fn rows_wf(rows: Seq<TotalsRowView>, min_row: int) -> bool {
    forall|i: int| 0 <= i < rows.len() ==> {
        &&& (#[trigger] rows[i]).row_number.len() >= 1
        &&& rows[i].base_price.len() == rows[i].row_number.len()
        &&& rows[i].curr_price.len() == rows[i].row_number.len()
        &&& forall|j: int| 0 <= j < rows[i].row_number.len() ==> rows[i].row_number[j] >= min_row
    }
}

proof fn lemma_find_name(rows: Seq<TotalsRowView>, name: Seq<char>, k: nat)
    ensures
        find_name(rows, name, k) matches Some(i) ==> k <= i < rows.len() && rows[i as int].name == name,
        find_name(rows, name, k) is None ==> forall|j: int| k <= j < rows.len() ==> rows[j].name != name,
    decreases rows.len() - k,
{
    if k < rows.len() && rows[k as int].name != name {
        lemma_find_name(rows, name, k + 1);
    }
}

proof fn lemma_merge_wf(rows: Seq<TotalsRowView>, name: Seq<char>, b: Option<u64>, c: Option<u64>, rn: usize, min_row: int)
    requires
        rows_wf(rows, min_row),
        rn >= min_row,
    ensures
        rows_wf(merge_row(rows, name, b, c, rn), min_row),
{
    lemma_find_name(rows, name, 0);
    let r = merge_row(rows, name, b, c, rn);
    assert forall|i: int| 0 <= i < r.len() implies {
        &&& (#[trigger] r[i]).row_number.len() >= 1
        &&& r[i].base_price.len() == r[i].row_number.len()
        &&& r[i].curr_price.len() == r[i].row_number.len()
        &&& forall|j: int| 0 <= j < r[i].row_number.len() ==> r[i].row_number[j] >= min_row
    } by {
        if i < rows.len() {
            assert(rows[i].row_number.len() >= 1);
        }
    };
}

/// Appends one physical row to the records.
fn merge_into(rows: &mut Vec<TotalsRow>, name: String, b: Option<u64>, c: Option<u64>, rn: usize)
    ensures
        rows_view(final(rows)@) == merge_row(rows_view(old(rows)@), name@, b, c, rn),
{
    let ghost v = rows_view(rows@);
    let mut i: usize = 0;
    while i < rows.len()
        invariant
            v == rows_view(rows@),
            v == rows_view(old(rows)@),
            i <= rows@.len(),
            find_name(v, name@, 0) == find_name(v, name@, i as nat),
        decreases rows@.len() - i,
    {
        if rows[i].name == name {
            let ghost old_rows = rows@;
            let mut row = rows.remove(i);
            row.base_price.push(b);
            row.curr_price.push(c);
            row.row_number.push(rn);
            let ghost new_row = row@;
            rows.insert(i, row);
            proof {
                assert(find_name(v, name@, i as nat) == Some(i as nat));
                let w = merge_row(v, name@, b, c, rn);
                assert(rows@ =~= old_rows.update(i as int, rows@[i as int]));
                assert(new_row == w[i as int]);
                assert forall|j: int| 0 <= j < w.len() implies #[trigger] rows_view(rows@)[j] == w[j] by {
                    if j != i {
                        assert(rows@[j] == old_rows[j]);
                    }
                };
                assert(rows_view(rows@) =~= w);
            }
            return;
        }
        i += 1;
    }
    let row = TotalsRow { name, base_price: vec![b], curr_price: vec![c], row_number: vec![rn] };
    let ghost new_row = row@;
    assert(new_row.base_price =~= seq![b]);
    assert(new_row.curr_price =~= seq![c]);
    assert(new_row.row_number =~= seq![rn]);
    let ghost old_rows = rows@;
    rows.push(row);
    proof {
        let w = merge_row(v, name@, b, c, rn);
        assert(w =~= v.push(new_row));
        assert forall|j: int| 0 <= j < w.len() implies #[trigger] rows_view(rows@)[j] == w[j] by {
            if j < old_rows.len() {
                assert(rows@[j] == old_rows[j]);
            }
        };
        assert(rows_view(rows@) =~= w);
    }
}

/// Reads the totals block that starts at `totals_start_adr`: every row from there to
/// the end of the range, merged by label.
fn get_totals(sheet: &Sheet, totals_start_adr: (usize, usize)) -> (r: Result<Vec<TotalsRow>, Error>)
    requires
        sheet.wf(),
        totals_start_adr.0 < sheet.data.height,
    ensures
        !sheet.tag_address_map@.contains_key(TagID::BasePrice2001) ==> r == Err::<Vec<TotalsRow>, Error>(
            Error::InternalLogic(Fault::MissingTag(TagID::BasePrice2001)),
        ),
        sheet.tag_address_map@.contains_key(TagID::BasePrice2001) && !sheet.tag_address_map@.contains_key(
            TagID::CurrentPrice,
        ) ==> r == Err::<Vec<TotalsRow>, Error>(Error::InternalLogic(Fault::MissingTag(TagID::CurrentPrice))),
        sheet.tag_address_map@.contains_key(TagID::BasePrice2001) && sheet.tag_address_map@.contains_key(
            TagID::CurrentPrice,
        ) ==> (r matches Ok(v) && rows_view(v@) == totals_of(sheet, totals_start_adr) && rows_wf(
            rows_view(v@),
            sheet.range_start.0 + totals_start_adr.0 + 1,
        )),
{
    let (totals_start_row, totals_start_col) = totals_start_adr;
    let total_row = sheet.data.height;
    let base_col = sheet.tag_address_map.get(&TagID::BasePrice2001)?.1;
    let current_col = sheet.tag_address_map.get(&TagID::CurrentPrice)?.1;
    let ghost p = totals_place(sheet, totals_start_adr);
    let ghost min_row = sheet.range_start.0 + totals_start_row + 1;
    let mut blank_row_flag = false;
    let mut totals_row_vec: Vec<TotalsRow> = Vec::new();
    let mut row = totals_start_row;
    assert(rows_view(totals_row_vec@) =~= Seq::<TotalsRowView>::empty());
    while row < total_row
        invariant
            sheet.wf(),
            total_row == sheet.data.height,
            totals_start_row <= row <= total_row,
            p == totals_place(sheet, totals_start_adr),
            p.start_row == totals_start_row,
            p.label_col == totals_start_col,
            p.base_col == base_col,
            p.curr_col == current_col,
            p.range_row == sheet.range_start.0,
            min_row == sheet.range_start.0 + totals_start_row + 1,
            totals_from(sheet.data.cells@, p, (row - totals_start_row) as nat) == (
                blank_row_flag,
                rows_view(totals_row_vec@),
            ),
            rows_wf(rows_view(totals_row_vec@), min_row),
        decreases total_row - row,
    {
        let ghost n = (row - totals_start_row) as nat;
        assert((p.start_row + (n + 1) - 1) as usize == row);
        if sheet.data.is_text_at(row, totals_start_col) {
            let base_price = sheet.data.number_at(row, base_col);
            let current_price = sheet.data.number_at(row, current_col);
            if !blank_row_flag || base_price.is_some() || current_price.is_some() {
                let i = sheet.data.find(row, totals_start_col).unwrap();
                let row_name = match &sheet.data.cells[i].value {
                    CellValue::Text(s) => clean_text(s.as_str()),
                    _ => String::new(),
                };
                let rn = sheet.range_start.0 + row + 1;
                proof {
                    lemma_merge_wf(rows_view(totals_row_vec@), row_name@, base_price, current_price, rn, min_row);
                }
                merge_into(&mut totals_row_vec, row_name, base_price, current_price, rn);
            }
        } else if !blank_row_flag {
            blank_row_flag = true;
        }
        row += 1;
    }
    Ok(totals_row_vec)
}

/// What header field `k` holds, for its address `a`.
pub open spec fn header_value(cells: Seq<UsedCell>, a: Option<(usize, usize)>, d: Option<DataVariant>) -> bool {
    match a {
        None => d is None,
        Some(adr) => coerced(value_at(cells, adr.0, adr.1), d),
    }
}

/// The value kept of the cell at `address`.
fn header_cell_value(grid: &Grid, address: Option<(usize, usize)>) -> (r: Option<DataVariant>)
    ensures
        header_value(grid.cells@, address, r),
{
    let adr = match address {
        Some(adr) => adr,
        None => return None,
    };
    let i = match grid.find(adr.0, adr.1) {
        Some(i) => i,
        None => return None,
    };
    match &grid.cells[i].value {
        CellValue::DateTime(x) => Some(DataVariant::Float(*x)),
        CellValue::Number(x) => Some(DataVariant::Float(*x)),
        CellValue::Text(s) => Some(DataVariant::String(clean_text(s.as_str()))),
        _ => None,
    }
}

/// One extracted document.
#[derive(Debug)]
pub struct Act {
    pub path: String,
    pub sheetname: String,
    pub names_of_header: Vec<DesiredCell>,
    pub data_of_header: Vec<Option<DataVariant>>,
    pub data_of_totals: Vec<TotalsRow>,
    /// The 1-based sheet row where the totals block begins.
    pub start_row_of_totals: usize,
}

/// The act that a sheet yields, once every anchor that it needs is found.
pub open spec fn act_of_sheet(sheet: &Sheet, act: &Act) -> bool {
    let m = sheet.tag_address_map@;
    let addrs = header_addresses(m)->Ok_0;
    &&& act.path == sheet.path
    &&& act.sheetname == sheet.sheet_name
    &&& act.names_of_header@.len() == HEADER_FIELD_COUNT
    &&& forall|k: int| 0 <= k < HEADER_FIELD_COUNT ==> #[trigger] act.names_of_header@[k].cell_coords == header_coords(k)
    &&& act.data_of_header@.len() == addrs.len()
    &&& forall|k: int| 0 <= k < addrs.len() ==> header_value(sheet.data.cells@, addrs[k], #[trigger] act.data_of_header@[k])
    &&& rows_view(act.data_of_totals@) == totals_of(sheet, m[TagID::MaterialsTotal])
    &&& act.start_row_of_totals == m[TagID::MaterialsTotal].0 + sheet.range_start.0 + 1
}

impl Act {
    /// Every record has at least one physical row, lists of equal length, and row
    /// numbers inside the totals block.
    pub open spec fn wf(&self) -> bool {
        rows_wf(rows_view(self.data_of_totals@), self.start_row_of_totals as int)
    }

    /// Extracts the act of a validated sheet. Every error here means an anchor that
    /// validation should have found is missing, or an offset leaves the sheet.
    pub fn new(sheet: Sheet) -> (r: Result<Act, Error>)
        requires
            sheet.wf(),
        ensures
            header_addresses(sheet.tag_address_map@) matches Err(e) ==> r == Err::<Act, Error>(e),
            header_addresses(sheet.tag_address_map@) is Ok && !sheet.tag_address_map@.contains_key(
                TagID::MaterialsTotal,
            ) ==> r == Err::<Act, Error>(Error::InternalLogic(Fault::MissingTag(TagID::MaterialsTotal))),
            header_addresses(sheet.tag_address_map@) is Ok && sheet.tag_address_map@.contains_key(TagID::MaterialsTotal)
                && !sheet.tag_address_map@.contains_key(TagID::BasePrice2001) ==> r == Err::<Act, Error>(
                Error::InternalLogic(Fault::MissingTag(TagID::BasePrice2001)),
            ),
            header_addresses(sheet.tag_address_map@) is Ok && sheet.tag_address_map@.contains_key(TagID::MaterialsTotal)
                && sheet.tag_address_map@.contains_key(TagID::BasePrice2001) && !sheet.tag_address_map@.contains_key(
                TagID::CurrentPrice,
            ) ==> r == Err::<Act, Error>(Error::InternalLogic(Fault::MissingTag(TagID::CurrentPrice))),
            header_addresses(sheet.tag_address_map@) is Ok && sheet.tag_address_map@.contains_key(TagID::MaterialsTotal)
                && sheet.tag_address_map@.contains_key(TagID::BasePrice2001) && sheet.tag_address_map@.contains_key(
                TagID::CurrentPrice,
            ) ==> (r matches Ok(act) && act_of_sheet(&sheet, &act) && act.wf()),
    {
        let header_addresses = calculate_header_cell_addresses(&sheet.tag_address_map)?;
        let mut data_of_header: Vec<Option<DataVariant>> = Vec::new();
        let mut k: usize = 0;
        while k < header_addresses.len()
            invariant
                k <= header_addresses@.len(),
                data_of_header@.len() == k,
                forall|j: int| 0 <= j < k ==> header_value(sheet.data.cells@, header_addresses@[j], #[trigger] data_of_header@[j]),
            decreases header_addresses@.len() - k,
        {
            data_of_header.push(header_cell_value(&sheet.data, header_addresses[k]));
            k += 1;
        }
        let (start_row_in_range, start_col_in_range) = *sheet.tag_address_map.get(&TagID::MaterialsTotal)?;
        let data_of_totals = get_totals(&sheet, (start_row_in_range, start_col_in_range))?;
        let start_row_of_totals = start_row_in_range + sheet.range_start.0 + 1;
        Ok(Act {
            path: sheet.path,
            sheetname: sheet.sheet_name,
            names_of_header: desired_cells(),
            data_of_header,
            data_of_totals,
            start_row_of_totals,
        })
    }
}

/// Physical rows that all carry the label `name`, merged one after another.
pub open spec fn merge_all(
    rows: Seq<TotalsRowView>,
    name: Seq<char>,
    bs: Seq<Option<u64>>,
    cs: Seq<Option<u64>>,
    rns: Seq<usize>,
) -> Seq<TotalsRowView>
    decreases bs.len(),
{
    if bs.len() == 0 || cs.len() == 0 || rns.len() == 0 {
        rows
    } else {
        merge_row(merge_all(rows, name, bs.drop_last(), cs.drop_last(), rns.drop_last()), name, bs.last(), cs.last(), rns.last())
    }
}

/// Merging `n` physical rows of one new label gives one record holding all `n`
/// values in the order they were met; none is overwritten.
pub proof fn lemma_repeated_label_keeps_every_value(
    rows: Seq<TotalsRowView>,
    name: Seq<char>,
    bs: Seq<Option<u64>>,
    cs: Seq<Option<u64>>,
    rns: Seq<usize>,
)
    requires
        bs.len() >= 1,
        cs.len() == bs.len(),
        rns.len() == bs.len(),
        find_name(rows, name, 0) is None,
    ensures
        merge_all(rows, name, bs, cs, rns) == rows.push(
            TotalsRowView { name, base_price: bs, curr_price: cs, row_number: rns },
        ),
    decreases bs.len(),
{
    lemma_find_name(rows, name, 0);
    if bs.len() == 1 {
        assert(merge_all(rows, name, bs.drop_last(), cs.drop_last(), rns.drop_last()) == rows);
        assert(bs =~= seq![bs.last()]);
        assert(cs =~= seq![cs.last()]);
        assert(rns =~= seq![rns.last()]);
    } else {
        lemma_repeated_label_keeps_every_value(rows, name, bs.drop_last(), cs.drop_last(), rns.drop_last());
        let prev = rows.push(
            TotalsRowView { name, base_price: bs.drop_last(), curr_price: cs.drop_last(), row_number: rns.drop_last() },
        );
        lemma_find_name(prev, name, 0);
        assert(find_name(prev, name, 0) == Some(rows.len())) by {
            lemma_find_name_last(rows, prev, name, 0);
        };
        assert(bs.drop_last().push(bs.last()) =~= bs);
        assert(cs.drop_last().push(cs.last()) =~= cs);
        assert(rns.drop_last().push(rns.last()) =~= rns);
        assert(merge_all(rows, name, bs, cs, rns) =~= rows.push(
            TotalsRowView { name, base_price: bs, curr_price: cs, row_number: rns },
        ));
    }
}

proof fn lemma_find_name_last(rows: Seq<TotalsRowView>, prev: Seq<TotalsRowView>, name: Seq<char>, k: nat)
    requires
        prev.len() == rows.len() + 1,
        forall|j: int| 0 <= j < rows.len() ==> prev[j] == rows[j] && rows[j].name != name,
        prev[rows.len() as int].name == name,
        k <= rows.len(),
    ensures
        find_name(prev, name, k) == Some(rows.len()),
    decreases rows.len() - k,
{
    if k < rows.len() {
        lemma_find_name_last(rows, prev, name, k + 1);
    }
}

/// After a row without a text label, a labelled row with no number in either price
/// column is dropped, and a labelled row with a number in one of them is kept.
pub proof fn lemma_rows_after_blank(
    state: (bool, Seq<TotalsRowView>),
    blank: CellValue,
    label: String,
    b: Option<u64>,
    c: Option<u64>,
    rn: usize,
    rn2: usize,
    b2: Option<u64>,
    c2: Option<u64>,
)
    requires
        !(blank is Text),
    ensures
        scan_row(state, blank, b2, c2, rn2).0,
        b is None && c is None ==> scan_row(scan_row(state, blank, b2, c2, rn2), CellValue::Text(label), b, c, rn)
            == scan_row(state, blank, b2, c2, rn2),
        b is Some || c is Some ==> scan_row(scan_row(state, blank, b2, c2, rn2), CellValue::Text(label), b, c, rn).1
            == merge_row(state.1, cleaned(label@), b, c, rn),
{
}

} // verus!
