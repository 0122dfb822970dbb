//! Locating the anchor tags on a sheet and checking the sheet's geometry.
use vstd::prelude::*;
use crate::error::{Error, Fault};
use crate::grid::{cells_inside, CellValue, Grid, UsedCell};
use crate::tags::{catalog, tag_catalog, tag_text, Column, TagAddressMap, TagID, TagInfo, TextCmp, TAG_COUNT};
use crate::text::{
    chars_of, lower_of, lowercase, seq_contains, seq_ends_with, seq_starts_with, str_eq, vec_contains,
    vec_ends_with, vec_starts_with,
};
use crate::utils::{column_letters, decimal, decimal_of, get_xl_column_letter};

verus! {

/// Whether a cell text relates to a search text as `look_at` asks.
pub open spec fn text_cmp_holds(cell: Seq<char>, search: Seq<char>, look_at: TextCmp) -> bool {
    match look_at {
        TextCmp::Whole => cell == search,
        TextCmp::Part => seq_contains(cell, search),
        TextCmp::StartsWith => seq_starts_with(cell, search),
        TextCmp::EndsWith => seq_ends_with(cell, search),
    }
}

/// Whether a cell text is an occurrence of the tag: compared as the tag's entry asks,
/// with both sides lowercased where case does not matter.
pub open spec fn tag_matches(cell: Seq<char>, info: TagInfo) -> bool {
    if info.match_case {
        text_cmp_holds(cell, tag_text(info.id), info.look_at)
    } else {
        text_cmp_holds(lower_of(cell), lower_of(tag_text(info.id)), info.look_at)
    }
}

/// Whether a cell holds an occurrence of the tag.
pub open spec fn cell_matches(v: CellValue, info: TagInfo) -> bool {
    match v {
        CellValue::Text(s) => tag_matches(s@, info),
        _ => false,
    }
}

/// The first cell at or after `k` that holds the tag; the number of cells if none does.
pub open spec fn first_match_from(cells: Seq<UsedCell>, k: nat, info: TagInfo) -> nat
    decreases cells.len() - k,
{
    if k >= cells.len() {
        cells.len()
    } else if cell_matches(cells[k as int].value, info) {
        k
    } else {
        first_match_from(cells, k + 1, info)
    }
}

/// The search after the first `n` tags of the catalog: the shared cursor of the
/// required tags, and the addresses found so far. A required tag is searched from the
/// cursor on, which then moves past the cell found (or to the end); an optional tag is
/// searched over the whole range and leaves the cursor alone.
pub open spec fn locate_step(cells: Seq<UsedCell>, n: nat) -> (nat, Map<TagID, (usize, usize)>)
    decreases n,
{
    if n == 0 {
        (0, Map::empty())
    } else {
        let prev = locate_step(cells, (n - 1) as nat);
        let info = catalog()[n - 1];
        let from = if info.is_required { prev.0 } else { 0 };
        let f = first_match_from(cells, from, info);
        let cursor = if !info.is_required {
            prev.0
        } else if f < cells.len() {
            f + 1
        } else {
            cells.len()
        };
        let m = if f < cells.len() {
            prev.1.insert(info.id, (cells[f as int].row, cells[f as int].col))
        } else {
            prev.1
        };
        (cursor, m)
    }
}

/// The anchor map of a range: where each tag of the catalog was found.
pub open spec fn located(cells: Seq<UsedCell>) -> Map<TagID, (usize, usize)> {
    locate_step(cells, TAG_COUNT as nat).1
}

/// Whether `cell` relates to `search` as `look_at` asks.
pub fn compare_text(cell: &str, search: &str, look_at: TextCmp) -> (r: bool)
    ensures
        r == text_cmp_holds(cell@, search@, look_at),
{
    if let TextCmp::Whole = look_at {
        return str_eq(cell, search);
    }
    let h = chars_of(cell);
    let n = chars_of(search);
    match look_at {
        TextCmp::Part => vec_contains(&h, &n),
        TextCmp::StartsWith => vec_starts_with(&h, &n),
        _ => vec_ends_with(&h, &n),
    }
}

/// Whether `text` is an occurrence of the tag described by `info`.
pub fn cell_matches_tag(text: &str, info: &TagInfo) -> (r: bool)
    ensures
        r == tag_matches(text@, *info),
{
    if info.match_case {
        compare_text(text, info.id.as_str(), info.look_at)
    } else {
        let a = lowercase(text);
        let b = lowercase(info.id.as_str());
        compare_text(a.as_str(), b.as_str(), info.look_at)
    }
}

/// The index of the first cell at or after `from` that holds the tag, or the number
/// of cells.
fn find_tag_from(grid: &Grid, from: usize, info: &TagInfo) -> (r: usize)
    requires
        from <= grid.cells@.len(),
    ensures
        r == first_match_from(grid.cells@, from as nat, *info),
        r <= grid.cells@.len(),
{
    let mut k = from;
    while k < grid.cells.len()
        invariant
            from <= k <= grid.cells@.len(),
            first_match_from(grid.cells@, from as nat, *info) == first_match_from(grid.cells@, k as nat, *info),
        decreases grid.cells@.len() - k,
    {
        let hit = match &grid.cells[k].value {
            CellValue::Text(s) => cell_matches_tag(s.as_str(), info),
            _ => false,
        };
        if hit {
            return k;
        }
        k += 1;
    }
    k
}

/// Searches the range for every tag of the catalog, in catalog order.
pub fn locate_tags(grid: &Grid) -> (r: TagAddressMap)
    ensures
        r@ == located(grid.cells@),
{
    let tags = tag_catalog();
    let n = grid.cells.len();
    let mut map = TagAddressMap::new();
    let mut cursor: usize = 0;
    let mut k: usize = 0;
    while k < tags.len()
        invariant
            tags@ == catalog(),
            n == grid.cells@.len(),
            k <= tags@.len(),
            cursor <= n,
            locate_step(grid.cells@, k as nat) == (cursor as nat, map@),
        decreases tags@.len() - k,
    {
        let info = tags[k];
        let from = if info.is_required { cursor } else { 0 };
        let f = find_tag_from(grid, from, &info);
        if f < n {
            map.insert(info.id, (grid.cells[f].row, grid.cells[f].col));
        }
        if info.is_required {
            cursor = if f < n { f + 1 } else { n };
        }
        k += 1;
    }
    map
}

/// The alignment group of a tag: row groups when `by_row`, column groups otherwise.
pub open spec fn group_key(info: TagInfo, by_row: bool) -> Option<int> {
    if by_row {
        match info.group_by_row {
            Some(_) => Some(0),
            None => None,
        }
    } else {
        match info.group_by_col {
            Some(Column::Initial) => Some(0),
            Some(Column::Contract) => Some(1),
            None => None,
        }
    }
}

/// The coordinate that a group constrains: the row for row groups, else the column.
pub open spec fn coord(a: (usize, usize), by_row: bool) -> usize {
    if by_row {
        a.0
    } else {
        a.1
    }
}

/// Whether the tag at catalog place `k` is a found member of group `g`.
pub open spec fn present_member(m: Map<TagID, (usize, usize)>, by_row: bool, g: int, k: int) -> bool {
    group_key(catalog()[k], by_row) == Some(g) && m.contains_key(catalog()[k].id)
}

/// The first found member of group `g` at catalog place `k` or later: the member
/// that the rest of the group is held to.
pub open spec fn anchor_from(m: Map<TagID, (usize, usize)>, by_row: bool, g: int, k: nat) -> Option<nat>
    decreases TAG_COUNT - k,
{
    if k >= TAG_COUNT {
        None
    } else if present_member(m, by_row, g, k as int) {
        Some(k)
    } else {
        anchor_from(m, by_row, g, k + 1)
    }
}

/// The anchor of a group is one of its found members.
pub proof fn lemma_anchor_is_member(m: Map<TagID, (usize, usize)>, by_row: bool, g: int, k: nat)
    ensures
        anchor_from(m, by_row, g, k) matches Some(a) ==> k <= a < TAG_COUNT && present_member(
            m,
            by_row,
            g,
            a as int,
        ),
    decreases TAG_COUNT - k,
{
    if k < TAG_COUNT && !present_member(m, by_row, g, k as int) {
        lemma_anchor_is_member(m, by_row, g, k + 1);
    }
}

/// Whether the tag at catalog place `k` breaks its group: it is required and was not
/// found, or it stands off the row or column of its group's first found member.
pub open spec fn misfit(m: Map<TagID, (usize, usize)>, by_row: bool, k: nat) -> bool {
    let t = catalog()[k as int];
    match group_key(t, by_row) {
        None => false,
        Some(g) => if !m.contains_key(t.id) {
            t.is_required
        } else {
            match anchor_from(m, by_row, g, 0) {
                Some(a) => coord(m[catalog()[a as int].id], by_row) != coord(m[t.id], by_row),
                None => false,
            }
        },
    }
}

/// The first catalog place at `k` or later whose tag breaks its group.
pub open spec fn first_misfit_from(m: Map<TagID, (usize, usize)>, by_row: bool, k: nat) -> Option<nat>
    decreases TAG_COUNT - k,
{
    if k >= TAG_COUNT {
        None
    } else if misfit(m, by_row, k) {
        Some(k)
    } else {
        first_misfit_from(m, by_row, k + 1)
    }
}

/// How a tag's place is shown to a user: its 1-based row number for a row group,
/// its column letters for a column group; `None` where a column lies past the
/// last one that letters are made for.
pub open spec fn index_on_sheet(
    range_start: (usize, usize),
    adr: (usize, usize),
    by_row: bool,
) -> Option<Seq<char>> {
    if by_row {
        Some(decimal_of((adr.0 + range_start.0 + 1) as nat))
    } else if adr.1 + range_start.1 <= u16::MAX {
        Some(column_letters((adr.1 + range_start.1) as nat))
    } else {
        None
    }
}

/// The 0-based place of a tag on the sheet, along the checked axis.
pub open spec fn place_on_sheet(range_start: (usize, usize), adr: (usize, usize), by_row: bool) -> int {
    if by_row {
        adr.0 + range_start.0
    } else {
        adr.1 + range_start.1
    }
}

/// The error that reports tags `fst` and `snd` of one group standing apart.
pub open spec fn is_misalignment_error(
    e: Error,
    m: Map<TagID, (usize, usize)>,
    range_start: (usize, usize),
    path: Seq<char>,
    fst: TagID,
    snd: TagID,
    by_row: bool,
) -> bool {
    let i1 = index_on_sheet(range_start, m[fst], by_row);
    let i2 = index_on_sheet(range_start, m[snd], by_row);
    if i1 is None {
        e == Error::NumericConversion { value: place_on_sheet(range_start, m[fst], by_row) as usize }
    } else if i2 is None {
        e == Error::NumericConversion { value: place_on_sheet(range_start, m[snd], by_row) as usize }
    } else {
        match e {
            Error::SheetMisalignment {
                is_row_algmnt_check,
                fst_tag,
                fst_tag_index_on_sheet,
                snd_tag,
                snd_tag_index_on_sheet,
                file_path,
            } => is_row_algmnt_check == by_row && fst_tag == fst && snd_tag == snd
                && fst_tag_index_on_sheet@ == i1->0 && snd_tag_index_on_sheet@ == i2->0
                && file_path@ == path,
            _ => false,
        }
    }
}

/// The outcome of checking one kind of alignment of the anchor map `m`: success when
/// no tag breaks its group, else the error for the first tag in catalog order that does.
pub open spec fn alignment_outcome(
    m: Map<TagID, (usize, usize)>,
    range_start: (usize, usize),
    path: Seq<char>,
    by_row: bool,
    r: Result<(), Error>,
) -> bool {
    match first_misfit_from(m, by_row, 0) {
        None => r is Ok,
        Some(k) => {
            let t = catalog()[k as int];
            if !m.contains_key(t.id) {
                r == Err::<(), Error>(Error::InternalLogic(Fault::MissingTag(t.id)))
            } else {
                let a = anchor_from(m, by_row, group_key(t, by_row)->0, 0)->0;
                r matches Err(e) && is_misalignment_error(e, m, range_start, path, catalog()[a as int].id, t.id, by_row)
            }
        },
    }
}

/// A located sheet: where it came from, its used range, the anchor map of that
/// range, and the range's top-left cell on the sheet (0-based row and column).
#[derive(Debug)]
pub struct Sheet {
    pub path: String,
    pub sheet_name: String,
    pub data: Grid,
    pub tag_address_map: TagAddressMap,
    pub range_start: (usize, usize),
}

/// Positions inside the range can be shown 1-based on the sheet without overflow.
pub open spec fn range_fits(data: &Grid, range_start: (usize, usize)) -> bool {
    range_start.0 + data.height < usize::MAX && range_start.1 + data.width < usize::MAX
}

impl Sheet {
    /// The grid is well formed, its positions can be shown 1-based, and every
    /// address of the anchor map lies inside the range.
    pub open spec fn wf(&self) -> bool {
        &&& self.data.wf()
        &&& range_fits(&self.data, self.range_start)
        &&& forall|t: TagID| #[trigger] self.tag_address_map@.contains_key(t)
            ==> self.tag_address_map@[t].0 < self.data.height && self.tag_address_map@[t].1 < self.data.width
    }
}

/// How the place of `tag` is shown to a user along the checked axis.
fn get_xl_column_letter_or_row_idx(sheet: &Sheet, tag: TagID, is_row: bool) -> (r: Result<String, Error>)
    requires
        sheet.wf(),
        sheet.tag_address_map@.contains_key(tag),
    ensures
        match index_on_sheet(sheet.range_start, sheet.tag_address_map@[tag], is_row) {
            Some(x) => r matches Ok(y) && y@ == x,
            None => r == Err::<String, Error>(Error::NumericConversion {
                value: place_on_sheet(sheet.range_start, sheet.tag_address_map@[tag], is_row) as usize,
            }),
        },
{
    let adr = *sheet.tag_address_map.get(&tag)?;
    if is_row {
        Ok(decimal(adr.0 + sheet.range_start.0 + 1))
    } else {
        let idx = adr.1 + sheet.range_start.1;
        if idx > 65535 {
            Err(Error::NumericConversion { value: idx })
        } else {
            Ok(get_xl_column_letter(idx as u16))
        }
    }
}

/// The error that reports `first_tag` and `second_tag` standing apart.
fn pack_into_error(sheet: &Sheet, first_tag: TagID, second_tag: TagID, is_row: bool) -> (r: Error)
    requires
        sheet.wf(),
        sheet.tag_address_map@.contains_key(first_tag),
        sheet.tag_address_map@.contains_key(second_tag),
    ensures
        is_misalignment_error(
            r,
            sheet.tag_address_map@,
            sheet.range_start,
            sheet.path@,
            first_tag,
            second_tag,
            is_row,
        ),
{
    let fst_tag_index_on_sheet = match get_xl_column_letter_or_row_idx(sheet, first_tag, is_row) {
        Ok(idx) => idx,
        Err(err) => return err,
    };
    let snd_tag_index_on_sheet = match get_xl_column_letter_or_row_idx(sheet, second_tag, is_row) {
        Ok(idx) => idx,
        Err(err) => return err,
    };
    Error::SheetMisalignment {
        is_row_algmnt_check: is_row,
        fst_tag: first_tag,
        fst_tag_index_on_sheet,
        snd_tag: second_tag,
        snd_tag_index_on_sheet,
        file_path: sheet.path.clone(),
    }
}

/// The alignment group of `info` along the checked axis.
fn group_of(info: &TagInfo, by_row: bool) -> (r: Option<usize>)
    ensures
        r matches Some(g) ==> group_key(*info, by_row) == Some(g as int),
        r is None ==> group_key(*info, by_row) is None,
{
    if by_row {
        match info.group_by_row {
            Some(_) => Some(0),
            None => None,
        }
    } else {
        match info.group_by_col {
            Some(Column::Initial) => Some(0),
            Some(Column::Contract) => Some(1),
            None => None,
        }
    }
}

/// Holds every tag of a group to the row (`by_row`) or the column of the group's
/// first found member.
fn check_alignment(sheet: &Sheet, by_row: bool) -> (r: Result<(), Error>)
    requires
        sheet.wf(),
    ensures
        alignment_outcome(sheet.tag_address_map@, sheet.range_start, sheet.path@, by_row, r),
{
    let ghost m = sheet.tag_address_map@;
    let tags = tag_catalog();
    let mut seeds: [Option<usize>; 2] = [None, None];
    let mut k: usize = 0;
    while k < tags.len()
        invariant
            tags@ == catalog(),
            k <= TAG_COUNT,
            m == sheet.tag_address_map@,
            sheet.wf(),
            first_misfit_from(m, by_row, 0) == first_misfit_from(m, by_row, k as nat),
            forall|g: int| 0 <= g < 2 ==> match #[trigger] seeds@[g] {
                Some(a) => a < k && anchor_from(m, by_row, g, 0) == Some(a as nat),
                None => anchor_from(m, by_row, g, 0) == anchor_from(m, by_row, g, k as nat),
            },
        decreases TAG_COUNT - k,
    {
        proof {
            broadcast use vstd::array::group_array_axioms;
        }
        let info = tags[k];
        let g = match group_of(&info, by_row) {
            Some(g) => g,
            None => {
                k += 1;
                continue;
            },
        };
        let adr = match sheet.tag_address_map.lookup(info.id) {
            Some(adr) => adr,
            None => {
                if info.is_required {
                    return Err(Error::InternalLogic(Fault::MissingTag(info.id)));
                }
                assert(!present_member(m, by_row, 0, k as int));
                assert(!present_member(m, by_row, 1, k as int));
                k += 1;
                continue;
            },
        };
        assert(present_member(m, by_row, g as int, k as int));
        match seeds[g] {
            None => {
                seeds[g] = Some(k);
                assert(!present_member(m, by_row, 1 - g, k as int));
            },
            Some(a) => {
                proof {
                    broadcast use vstd::array::group_array_axioms;
                    assert(seeds@[g as int] == Some(a));
                    assert(anchor_from(m, by_row, g as int, 0) == Some(a as nat));
                    lemma_anchor_is_member(m, by_row, g as int, 0);
                    assert(m.contains_key(catalog()[a as int].id));
                }
                let seed_adr = *sheet.tag_address_map.get(&tags[a].id)?;
                let differs = if by_row { seed_adr.0 != adr.0 } else { seed_adr.1 != adr.1 };
                if differs {
                    return Err(pack_into_error(sheet, tags[a].id, info.id, by_row));
                }
                assert(!present_member(m, by_row, 1 - g, k as int));
            },
        }
        k += 1;
    }
    Ok(())
}

/// Checks that the tags of each row group stand in one row.
pub fn check_row_type_alignment(sheet: &Sheet) -> (r: Result<(), Error>)
    requires
        sheet.wf(),
    ensures
        alignment_outcome(sheet.tag_address_map@, sheet.range_start, sheet.path@, true, r),
{
    check_alignment(sheet, true)
}

/// Checks that the tags of each column group stand in one column.
pub fn check_col_type_alignment(sheet: &Sheet) -> (r: Result<(), Error>)
    requires
        sheet.wf(),
    ensures
        alignment_outcome(sheet.tag_address_map@, sheet.range_start, sheet.path@, false, r),
{
    check_alignment(sheet, false)
}

/// Every address of the anchor map is the position of a used cell.
proof fn lemma_located_inside(cells: Seq<UsedCell>, height: usize, width: usize, n: nat)
    requires
        cells_inside(cells, height, width),
    ensures
        locate_step(cells, n).0 <= cells.len(),
        forall|t: TagID| #[trigger] locate_step(cells, n).1.contains_key(t) ==> locate_step(cells, n).1[t].0
            < height && locate_step(cells, n).1[t].1 < width,
    decreases n,
{
    if n > 0 {
        lemma_located_inside(cells, height, width, (n - 1) as nat);
        let prev = locate_step(cells, (n - 1) as nat);
        let info = catalog()[n - 1];
        let from = if info.is_required { prev.0 } else { 0 };
        lemma_first_match_bound(cells, from, info);
    }
}

proof fn lemma_first_match_bound(cells: Seq<UsedCell>, k: nat, info: TagInfo)
    ensures
        first_match_from(cells, k, info) <= cells.len(),
        first_match_from(cells, k, info) < cells.len() ==> k <= first_match_from(cells, k, info),
    decreases cells.len() - k,
{
    if k < cells.len() && !cell_matches(cells[k as int].value, info) {
        lemma_first_match_bound(cells, k + 1, info);
    }
}

/// The error part of a result, with the value dropped.
pub open spec fn unit_of<T>(r: Result<T, Error>) -> Result<(), Error> {
    match r {
        Ok(_) => Ok(()),
        Err(e) => Err(e),
    }
}

/// The tag whose absence shows that the search of required tags failed: the last
/// required tag of the catalog. The search cursor is shared by required tags, so any
/// earlier miss leaves it unfound too.
pub fn validation_tag() -> (r: TagID)
    ensures
        r == catalog()[TAG_COUNT - 1].id,
        catalog()[TAG_COUNT - 1].is_required,
{
    TagID::MaterialsTotal
}

impl Sheet {
    /// Locates the tags in `data` and validates the result: the range must not be
    /// empty (`range_start` is where it begins on the sheet), the last required tag
    /// must be found, then the row groups and the column groups must be aligned.
    pub fn new(
        path: String,
        sheet_name: String,
        data: Grid,
        range_start: Option<(usize, usize)>,
    ) -> (r: Result<Sheet, Error>)
        requires
            data.wf(),
            range_start matches Some(start) ==> range_fits(&data, start),
        ensures
            range_start is None ==> (r matches Err(Error::EmptySheetRange { file_path, sh_name }) && file_path@
                == path@ && sh_name@ == sheet_name@),
            range_start is Some && !located(data.cells@).contains_key(TagID::MaterialsTotal) ==> (r matches Err(
                Error::SheetNotContainAllNecessaryData { file_path },
            ) && file_path@ == path@),
            range_start is Some && located(data.cells@).contains_key(TagID::MaterialsTotal) && first_misfit_from(
                located(data.cells@),
                true,
                0,
            ) is Some ==> alignment_outcome(located(data.cells@), range_start->0, path@, true, unit_of(r)),
            range_start is Some && located(data.cells@).contains_key(TagID::MaterialsTotal) && first_misfit_from(
                located(data.cells@),
                true,
                0,
            ) is None ==> alignment_outcome(located(data.cells@), range_start->0, path@, false, unit_of(r)),
            r matches Ok(s) ==> (s.path == path && s.sheet_name == sheet_name && s.data == data && Some(s.range_start)
                == range_start && s.tag_address_map@ == located(data.cells@) && s.wf()),
    {
        let range_start = match range_start {
            Some(start) => start,
            None => return Err(Error::EmptySheetRange { file_path: path, sh_name: sheet_name }),
        };
        let tag_address_map = locate_tags(&data);
        proof {
            lemma_located_inside(data.cells@, data.height, data.width, TAG_COUNT as nat);
        }
        if tag_address_map.lookup(validation_tag()).is_none() {
            return Err(Error::SheetNotContainAllNecessaryData { file_path: path });
        }
        let result = Sheet { path, sheet_name, data, tag_address_map, range_start };
        check_row_type_alignment(&result)?;
        check_col_type_alignment(&result)?;
        Ok(result)
    }
}

/// The first name at `k` or later that lowercases to `target`.
pub open spec fn first_name_match(names: Seq<String>, target: Seq<char>, k: nat) -> Option<nat>
    decreases names.len() - k,
{
    if k >= names.len() {
        None
    } else if lower_of(names[k as int]@) == target {
        Some(k)
    } else {
        first_name_match(names, target, k + 1)
    }
}

/// A copy of a list of texts.
pub fn clone_strings(v: &Vec<String>) -> (r: Vec<String>)
    ensures
        r@ == v@,
{
    let mut r: Vec<String> = Vec::new();
    let mut i: usize = 0;
    while i < v.len()
        invariant
            i <= v@.len(),
            r@ == v@.subrange(0, i as int),
        decreases v@.len() - i,
    {
        r.push(v[i].clone());
        i += 1;
    }
    assert(r@ =~= v@);
    r
}

/// The sheet of the workbook that the user asked for: the first of `sh_names` that
/// equals `user_entered_sh_name` once both are lowercased, with its own case kept.
pub fn resolve_sheet_name(file_path: &str, sh_names: &Vec<String>, user_entered_sh_name: &str) -> (r: Result<String, Error>)
    ensures
        match first_name_match(sh_names@, lower_of(user_entered_sh_name@), 0) {
            Some(i) => r matches Ok(n) && n@ == sh_names@[i as int]@,
            None => r matches Err(Error::SheetUndetectable { file_path: f, sh_name_for_search: s, sh_names: ns })
                && f@ == file_path@ && s@ == user_entered_sh_name@ && ns@ == sh_names@,
        },
{
    let wanted = lowercase(user_entered_sh_name);
    let mut i: usize = 0;
    while i < sh_names.len()
        invariant
            i <= sh_names@.len(),
            wanted@ == lower_of(user_entered_sh_name@),
            first_name_match(sh_names@, wanted@, 0) == first_name_match(sh_names@, wanted@, i as nat),
        decreases sh_names@.len() - i,
    {
        let name = lowercase(sh_names[i].as_str());
        if name == wanted {
            return Ok(sh_names[i].clone());
        }
        i += 1;
    }
    Err(Error::SheetUndetectable {
        file_path: file_path.to_owned(),
        sh_name_for_search: user_entered_sh_name.to_owned(),
        sh_names: clone_strings(sh_names),
    })
}

proof fn lemma_first_match(cells: Seq<UsedCell>, k: nat, info: TagInfo)
    requires
        k <= cells.len(),
    ensures
        k <= first_match_from(cells, k, info) <= cells.len(),
        first_match_from(cells, k, info) < cells.len() ==> cell_matches(
            cells[first_match_from(cells, k, info) as int].value,
            info,
        ),
        forall|j: int| k <= j < first_match_from(cells, k, info) ==> !cell_matches(#[trigger] cells[j].value, info),
    decreases cells.len() - k,
{
    if k < cells.len() && !cell_matches(cells[k as int].value, info) {
        lemma_first_match(cells, k + 1, info);
    }
}

proof fn lemma_cursor_bound(cells: Seq<UsedCell>, n: nat)
    ensures
        locate_step(cells, n).0 <= cells.len(),
    decreases n,
{
    if n > 0 {
        lemma_cursor_bound(cells, (n - 1) as nat);
        let prev = locate_step(cells, (n - 1) as nat);
        let info = catalog()[n - 1];
        let from = if info.is_required { prev.0 } else { 0 };
        lemma_first_match(cells, from, info);
    }
}

/// The cell index at which the search binds the tag at catalog place `n`, or the
/// number of cells if it finds none.
pub open spec fn bound_index(cells: Seq<UsedCell>, n: nat) -> nat {
    let info = catalog()[n as int];
    let from = if info.is_required { locate_step(cells, n).0 } else { 0 };
    first_match_from(cells, from, info)
}

/// Once the search has passed a tag, later tags leave its entry alone.
proof fn lemma_entry_kept(cells: Seq<UsedCell>, n: nat, m: nat)
    requires
        n < m <= TAG_COUNT,
    ensures
        locate_step(cells, m).1.contains_key(catalog()[n as int].id) == locate_step(cells, n + 1).1.contains_key(
            catalog()[n as int].id,
        ),
        locate_step(cells, n + 1).1.contains_key(catalog()[n as int].id) ==> locate_step(cells, m).1[catalog()[n as int].id]
            == locate_step(cells, n + 1).1[catalog()[n as int].id],
    decreases m,
{
    if m > n + 1 {
        lemma_entry_kept(cells, n, (m - 1) as nat);
        assert(catalog()[m - 1].id != catalog()[n as int].id);
    }
}

/// Optional tags leave the cursor where it is.
proof fn lemma_cursor_through_optional(cells: Seq<UsedCell>, p: nat, n: nat)
    requires
        p < n <= TAG_COUNT,
        forall|q: int| p < q < n ==> !(#[trigger] catalog()[q]).is_required,
    ensures
        locate_step(cells, n).0 == locate_step(cells, p + 1).0,
    decreases n,
{
    if n > p + 1 {
        lemma_cursor_through_optional(cells, p, (n - 1) as nat);
    }
}

/// Every tag found is bound to the position of a cell that holds it: the first such
/// cell from where its search started.
pub proof fn lemma_located_binding(cells: Seq<UsedCell>, n: nat)
    requires
        n < TAG_COUNT,
    ensures
        located(cells).contains_key(catalog()[n as int].id) <==> bound_index(cells, n) < cells.len(),
        bound_index(cells, n) < cells.len() ==> located(cells)[catalog()[n as int].id] == (
            cells[bound_index(cells, n) as int].row,
            cells[bound_index(cells, n) as int].col,
        ) && cell_matches(cells[bound_index(cells, n) as int].value, catalog()[n as int]),
{
    lemma_cursor_bound(cells, n);
    let info = catalog()[n as int];
    let from = if info.is_required { locate_step(cells, n).0 } else { 0 };
    lemma_first_match(cells, from, info);
    let prev = locate_step(cells, n);
    assert(!prev.1.contains_key(info.id)) by {
        lemma_not_yet_found(cells, n, n);
    };
    if n + 1 < TAG_COUNT {
        lemma_entry_kept(cells, n, TAG_COUNT as nat);
    }
}

proof fn lemma_not_yet_found(cells: Seq<UsedCell>, n: nat, m: nat)
    requires
        m <= n < TAG_COUNT,
    ensures
        !locate_step(cells, m).1.contains_key(catalog()[n as int].id),
    decreases m,
{
    if m > 0 {
        lemma_not_yet_found(cells, n, (m - 1) as nat);
        assert(catalog()[m - 1].id != catalog()[n as int].id);
    }
}

/// Required tags are bound in catalog order: a required tag is found only if the
/// required tag before it was, and then it is bound to the first cell holding it
/// after that tag's cell. An occurrence before that cell is never bound.
pub proof fn lemma_required_tags_in_order(cells: Seq<UsedCell>, p: nat, n: nat)
    requires
        p < n < TAG_COUNT,
        catalog()[p as int].is_required,
        catalog()[n as int].is_required,
        forall|q: int| p < q < n ==> !(#[trigger] catalog()[q]).is_required,
    ensures
        located(cells).contains_key(catalog()[n as int].id) ==> located(cells).contains_key(catalog()[p as int].id),
        located(cells).contains_key(catalog()[n as int].id) ==> bound_index(cells, p) < bound_index(cells, n)
            < cells.len(),
        forall|j: int| bound_index(cells, p) < j < bound_index(cells, n) ==> !cell_matches(
            #[trigger] cells[j].value,
            catalog()[n as int],
        ),
{
    lemma_located_binding(cells, p);
    lemma_located_binding(cells, n);
    lemma_cursor_through_optional(cells, p, n);
    lemma_cursor_bound(cells, p);
    lemma_cursor_bound(cells, n);
    lemma_first_match(cells, locate_step(cells, p).0, catalog()[p as int]);
    lemma_first_match(cells, locate_step(cells, n).0, catalog()[n as int]);
}

/// A present member breaks its group exactly when it stands off the group's anchor.
proof fn lemma_misfit_exists(m: Map<TagID, (usize, usize)>, by_row: bool, k: nat, a: nat)
    requires
        k < TAG_COUNT,
        misfit(m, by_row, a),
        k <= a < TAG_COUNT,
    ensures
        first_misfit_from(m, by_row, k) is Some,
    decreases a - k,
{
    if !misfit(m, by_row, k) {
        lemma_misfit_exists(m, by_row, k + 1, a);
    }
}

proof fn lemma_no_misfit(m: Map<TagID, (usize, usize)>, by_row: bool, k: nat)
    requires
        forall|a: nat| k <= a < TAG_COUNT ==> !#[trigger] misfit(m, by_row, a),
    ensures
        first_misfit_from(m, by_row, k) is None,
    decreases TAG_COUNT - k,
{
    if k < TAG_COUNT {
        lemma_no_misfit(m, by_row, k + 1);
    }
}

/// Two found tags of one row group on different rows make the row check fail.
pub proof fn lemma_split_row_group_fails(m: Map<TagID, (usize, usize)>, a: nat, b: nat)
    requires
        a < TAG_COUNT,
        b < TAG_COUNT,
        catalog()[a as int].group_by_row is Some,
        catalog()[b as int].group_by_row is Some,
        m.contains_key(catalog()[a as int].id),
        m.contains_key(catalog()[b as int].id),
        m[catalog()[a as int].id].0 != m[catalog()[b as int].id].0,
    ensures
        first_misfit_from(m, true, 0) is Some,
{
    lemma_anchor_is_member(m, true, 0, 0);
    assert(present_member(m, true, 0, a as int));
    lemma_anchor_some(m, true, 0, 0, a);
    let z = anchor_from(m, true, 0, 0)->0;
    if m[catalog()[z as int].id].0 != m[catalog()[a as int].id].0 {
        assert(misfit(m, true, a));
        lemma_misfit_exists(m, true, 0, a);
    } else {
        assert(misfit(m, true, b));
        lemma_misfit_exists(m, true, 0, b);
    }
}

proof fn lemma_anchor_some(m: Map<TagID, (usize, usize)>, by_row: bool, g: int, k: nat, a: nat)
    requires
        k <= a < TAG_COUNT,
        present_member(m, by_row, g, a as int),
    ensures
        anchor_from(m, by_row, g, k) is Some,
    decreases a - k,
{
    if k < a && !present_member(m, by_row, g, k as int) {
        lemma_anchor_some(m, by_row, g, k + 1, a);
    }
}

/// The row check passes when every required member of the row group is found and
/// all found members stand on one row.
pub proof fn lemma_aligned_row_group_passes(m: Map<TagID, (usize, usize)>, row: usize)
    requires
        forall|k: int| 0 <= k < TAG_COUNT && (#[trigger] catalog()[k]).group_by_row is Some && catalog()[k].is_required
            ==> m.contains_key(catalog()[k].id),
        forall|k: int| 0 <= k < TAG_COUNT && (#[trigger] catalog()[k]).group_by_row is Some && m.contains_key(catalog()[k].id)
            ==> m[catalog()[k].id].0 == row,
    ensures
        first_misfit_from(m, true, 0) is None,
{
    lemma_anchor_is_member(m, true, 0, 0);
    assert forall|a: nat| 0 <= a < TAG_COUNT implies !#[trigger] misfit(m, true, a) by {
        let t = catalog()[a as int];
        if t.group_by_row is Some && m.contains_key(t.id) {
            if let Some(z) = anchor_from(m, true, 0, 0) {
                assert(present_member(m, true, 0, z as int));
            }
        }
    };
    lemma_no_misfit(m, true, 0);
}

} // verus!
