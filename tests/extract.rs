use ks2_etl::act::{calculate_cell_adr_by_coords, Act, CellCoords, DataVariant, TotalsRow};
use ks2_etl::error::{Error, Fault};
use ks2_etl::files::{is_candidate_file_name, is_excluded_path};
use ks2_etl::grid::{CellValue, Grid, UsedCell};
use ks2_etl::sheet::{
    cell_matches_tag, check_col_type_alignment, check_row_type_alignment, compare_text, locate_tags,
    resolve_sheet_name, Sheet,
};
use ks2_etl::tags::{tag_catalog, TagAddressMap, TagArrayTools, TagID, TextCmp, TAG_COUNT};
use ks2_etl::text::clean_text;

fn text(row: usize, col: usize, s: &str) -> UsedCell {
    UsedCell { row, col, value: CellValue::Text(s.to_string()) }
}

fn num(row: usize, col: usize, x: f64) -> UsedCell {
    UsedCell { row, col, value: CellValue::Number(x.to_bits()) }
}

fn bits(x: f64) -> Option<u64> {
    Some(x.to_bits())
}

fn sorted(mut cells: Vec<UsedCell>) -> Vec<UsedCell> {
    cells.sort_by_key(|c| (c.row, c.col));
    cells
}

/// A KS-2 sheet with every tag in place and a totals block of six rows.
fn act_cells() -> Vec<UsedCell> {
    vec![
        text(0, 0, "исполнитель"),
        text(0, 3, "ООО Подрядчик"),
        text(1, 0, "Стройка"),
        text(2, 0, "Глава 1"),
        text(2, 3, "Земляные работы"),
        text(3, 0, "Объект"),
        text(3, 3, "  Жилой дом\r\n №1 "),
        text(4, 0, "Смета № 12"),
        text(4, 9, "Договор подряда"),
        text(4, 11, "Д-15"),
        text(5, 9, "Доп. соглашение"),
        num(5, 11, 45000.0),
        text(6, 5, "Номер документа"),
        text(8, 5, "7"),
        UsedCell { row: 8, col: 9, value: CellValue::DateTime(45000.0f64.to_bits()) },
        text(9, 0, "Базисно-индексный"),
        text(10, 3, "Наименование работ и затрат"),
        text(10, 6, "Стоимость в ценах 2001 г."),
        text(10, 8, "Стоимость в текущих ценах"),
        text(12, 0, "Стоимость материальных ресурсов (всего)"),
        num(12, 6, 100.0),
        num(12, 8, 110.0),
        text(13, 0, "Накладные расходы"),
        num(13, 6, 20.0),
        num(13, 8, 22.0),
        text(14, 0, "Накладные расходы"),
        num(14, 6, 5.0),
        text(16, 0, "Подписи"),
        text(17, 0, "  Итого\r\n"),
        num(17, 6, 7.0),
    ]
}

fn sheet_of(cells: Vec<UsedCell>) -> Result<Sheet, Error> {
    let grid = Grid::new(18, 12, sorted(cells)).unwrap();
    Sheet::new("book.xlsm".to_string(), "Лист1".to_string(), grid, Some((0, 0)))
}

#[test]
fn located_tags_sit_at_their_cells() {
    let grid = Grid::new(18, 12, sorted(act_cells())).unwrap();
    let map = locate_tags(&grid);
    assert_eq!(map.lookup(TagID::Executor), Some((0, 0)));
    assert_eq!(map.lookup(TagID::Construction), Some((1, 0)));
    assert_eq!(map.lookup(TagID::Object), Some((3, 0)));
    assert_eq!(map.lookup(TagID::Contract), Some((4, 9)));
    assert_eq!(map.lookup(TagID::SupplementaryAgreement), Some((5, 9)));
    assert_eq!(map.lookup(TagID::DocumentNumber), Some((6, 5)));
    assert_eq!(map.lookup(TagID::WorkName), Some((10, 3)));
    assert_eq!(map.lookup(TagID::BasePrice2001), Some((10, 6)));
    assert_eq!(map.lookup(TagID::CurrentPrice), Some((10, 8)));
    assert_eq!(map.lookup(TagID::MaterialsTotal), Some((12, 0)));
    assert_eq!(map.lookup(TagID::LaborTotal), None);
    assert_eq!(map.lookup(TagID::ActTotal), None);
}

#[test]
fn earlier_duplicate_of_required_tag_is_not_bound() {
    let mut cells = act_cells();
    cells.push(text(0, 1, "Объект"));
    let grid = Grid::new(18, 12, sorted(cells)).unwrap();
    let map = locate_tags(&grid);
    assert_eq!(map.lookup(TagID::Object), Some((3, 0)));
}

#[test]
fn required_tags_out_of_order_make_the_sheet_incomplete() {
    let mut cells: Vec<UsedCell> = act_cells().into_iter().filter(|c| !(c.row == 1 && c.col == 0)).collect();
    cells.push(text(4, 1, "Стройка"));
    match sheet_of(cells) {
        Err(Error::SheetNotContainAllNecessaryData { file_path }) => assert_eq!(file_path, "book.xlsm"),
        other => panic!("unexpected {:?}", other),
    }
}

#[test]
fn missing_last_required_tag_fails() {
    let cells: Vec<UsedCell> = act_cells().into_iter().filter(|c| !(c.row == 12 && c.col == 0)).collect();
    assert!(matches!(sheet_of(cells), Err(Error::SheetNotContainAllNecessaryData { .. })));
}

#[test]
fn row_group_on_two_rows_is_misaligned() {
    let mut cells: Vec<UsedCell> = act_cells().into_iter().filter(|c| !(c.row == 10 && c.col == 8)).collect();
    cells.push(text(11, 8, "Стоимость в текущих ценах"));
    match sheet_of(cells) {
        Err(Error::SheetMisalignment {
            is_row_algmnt_check,
            fst_tag,
            fst_tag_index_on_sheet,
            snd_tag,
            snd_tag_index_on_sheet,
            file_path,
        }) => {
            assert!(is_row_algmnt_check);
            assert_eq!(fst_tag.as_str(), "Наименование работ и затрат");
            assert_eq!(snd_tag.as_str(), "Стоимость в текущих ценах");
            assert_eq!(fst_tag_index_on_sheet, "11");
            assert_eq!(snd_tag_index_on_sheet, "12");
            assert_eq!(file_path, "book.xlsm");
        }
        other => panic!("unexpected {:?}", other),
    }
}

#[test]
fn row_group_on_one_row_passes() {
    let sheet = sheet_of(act_cells()).unwrap();
    assert!(check_row_type_alignment(&sheet).is_ok());
    assert!(check_col_type_alignment(&sheet).is_ok());
}

#[test]
fn column_group_off_column_is_misaligned_with_letters() {
    let mut cells: Vec<UsedCell> = act_cells().into_iter().filter(|c| !(c.row == 5 && c.col == 9)).collect();
    cells.push(text(5, 10, "Доп. соглашение"));
    let grid = Grid::new(18, 12, sorted(cells)).unwrap();
    let result = Sheet::new("b.xlsm".to_string(), "Лист1".to_string(), grid, Some((2, 1)));
    match result {
        Err(Error::SheetMisalignment { is_row_algmnt_check, fst_tag, fst_tag_index_on_sheet, snd_tag, snd_tag_index_on_sheet, .. }) => {
            assert!(!is_row_algmnt_check);
            assert_eq!(fst_tag, TagID::Contract);
            assert_eq!(snd_tag, TagID::SupplementaryAgreement);
            assert_eq!(fst_tag_index_on_sheet, "K");
            assert_eq!(snd_tag_index_on_sheet, "L");
        }
        other => panic!("unexpected {:?}", other),
    }
}

#[test]
fn act_header_fields_by_offset() {
    let sheet = sheet_of(act_cells()).unwrap();
    let act = Act::new(sheet).unwrap();
    assert_eq!(act.path, "book.xlsm");
    assert_eq!(act.sheetname, "Лист1");
    assert_eq!(act.names_of_header.len(), 16);
    assert_eq!(act.names_of_header[3].name, "Объект");
    let h = &act.data_of_header;
    assert_eq!(h[0], Some(DataVariant::String("ООО Подрядчик".to_string())));
    assert_eq!(h[1], Some(DataVariant::String("Глава 1".to_string())));
    assert_eq!(h[2], Some(DataVariant::String("Земляные работы".to_string())));
    assert_eq!(h[3], Some(DataVariant::String("Жилой дом №1".to_string())));
    assert_eq!(h[4], Some(DataVariant::String("Д-15".to_string())));
    assert_eq!(h[5], Some(DataVariant::Float(45000.0f64.to_bits())));
    assert_eq!(h[6], Some(DataVariant::String("Смета № 12".to_string())));
    assert_eq!(h[10], Some(DataVariant::String("7".to_string())));
    assert_eq!(h[11], Some(DataVariant::Float(45000.0f64.to_bits())));
    assert_eq!(h[12], None);
    assert_eq!(h[14], Some(DataVariant::String("Базисно-индексный".to_string())));
    assert_eq!(h[15], None);
    assert_eq!(act.start_row_of_totals, 13);
}

#[test]
fn chapter_needs_exactly_one_row_between_anchors() {
    let mut cells: Vec<UsedCell> = act_cells().into_iter().filter(|c| c.row != 0 && !(c.row == 1 && c.col == 0)).collect();
    cells.push(text(0, 0, "Стройка"));
    let sheet = sheet_of(cells).unwrap();
    let act = Act::new(sheet).unwrap();
    assert_eq!(act.data_of_header[1], None);
    assert_eq!(act.data_of_header[2], None);
}

#[test]
fn totals_merge_duplicates_and_skip_noise() {
    let sheet = sheet_of(act_cells()).unwrap();
    let act = Act::new(sheet).unwrap();
    let t = &act.data_of_totals;
    assert_eq!(t.len(), 3);
    assert_eq!(t[0].name, "Стоимость материальных ресурсов (всего)");
    assert_eq!(t[0].base_price, vec![bits(100.0)]);
    assert_eq!(t[0].curr_price, vec![bits(110.0)]);
    assert_eq!(t[0].row_number, vec![13]);
    assert_eq!(t[1].name, "Накладные расходы");
    assert_eq!(t[1].base_price, vec![bits(20.0), bits(5.0)]);
    assert_eq!(t[1].curr_price, vec![bits(22.0), None]);
    assert_eq!(t[1].row_number, vec![14, 15]);
    assert_eq!(t[2].name, "Итого");
    assert_eq!(t[2].base_price, vec![bits(7.0)]);
    assert_eq!(t[2].row_number, vec![18]);
}

#[test]
fn same_label_many_times_keeps_every_value_in_order() {
    let mut cells: Vec<UsedCell> = act_cells().into_iter().filter(|c| c.row < 13).collect();
    for (k, v) in [1.0, 2.0, 3.0, 4.0].iter().enumerate() {
        cells.push(text(13 + k, 0, "Материалы"));
        cells.push(num(13 + k, 6, *v));
    }
    let act = Act::new(sheet_of(cells).unwrap()).unwrap();
    let rows: Vec<&TotalsRow> = act.data_of_totals.iter().filter(|r| r.name == "Материалы").collect();
    assert_eq!(rows.len(), 1);
    assert_eq!(rows[0].base_price, vec![bits(1.0), bits(2.0), bits(3.0), bits(4.0)]);
    assert_eq!(rows[0].curr_price, vec![None, None, None, None]);
}

#[test]
fn labelled_row_after_blank_needs_a_price() {
    let mut cells: Vec<UsedCell> = act_cells().into_iter().filter(|c| c.row < 13).collect();
    cells.push(text(14, 0, "Без цены"));
    cells.push(text(15, 0, "С ценой"));
    cells.push(num(15, 8, 3.0));
    let act = Act::new(sheet_of(cells).unwrap()).unwrap();
    let names: Vec<&str> = act.data_of_totals.iter().map(|r| r.name.as_str()).collect();
    assert_eq!(names, vec!["Стоимость материальных ресурсов (всего)", "С ценой"]);
}

#[test]
fn labelled_row_before_any_blank_needs_no_price() {
    let mut cells: Vec<UsedCell> = act_cells().into_iter().filter(|c| c.row < 13).collect();
    cells.push(text(13, 0, "Без цены"));
    let act = Act::new(sheet_of(cells).unwrap()).unwrap();
    assert_eq!(act.data_of_totals.len(), 2);
    assert_eq!(act.data_of_totals[1].base_price, vec![None]);
}

#[test]
fn offset_before_first_row_overflows() {
    let mut map = TagAddressMap::new();
    map.insert(TagID::Object, (0, 4));
    map.insert(TagID::Construction, (2, 3));
    let up = CellCoords { row: (TagID::Object, -1), col: (TagID::Construction, 0) };
    match calculate_cell_adr_by_coords(&map, up) {
        Err(Error::NumericOverflow { value, offset }) => {
            assert_eq!(value, 0);
            assert_eq!(offset, -1);
        }
        other => panic!("unexpected {:?}", other),
    }
    let ok = CellCoords { row: (TagID::Construction, 2), col: (TagID::Object, -4) };
    assert_eq!(calculate_cell_adr_by_coords(&map, ok).unwrap(), (4, 0));
}

#[test]
fn offset_past_signed_range_is_a_conversion_error() {
    let mut map = TagAddressMap::new();
    map.insert(TagID::Object, (usize::MAX, 0));
    let c = CellCoords { row: (TagID::Object, 0), col: (TagID::Object, 0) };
    assert!(matches!(calculate_cell_adr_by_coords(&map, c), Err(Error::NumericConversion { value }) if value == usize::MAX));
    map.insert(TagID::Object, (isize::MAX as usize, 0));
    let c = CellCoords { row: (TagID::Object, 1), col: (TagID::Object, 0) };
    assert!(matches!(calculate_cell_adr_by_coords(&map, c), Err(Error::NumericOverflow { .. })));
}

#[test]
fn missing_anchor_is_an_internal_fault() {
    let map = TagAddressMap::new();
    let c = CellCoords { row: (TagID::Object, 0), col: (TagID::Object, 0) };
    assert!(matches!(
        calculate_cell_adr_by_coords(&map, c),
        Err(Error::InternalLogic(Fault::MissingTag(TagID::Object)))
    ));
    assert!(matches!(map.get(&TagID::WorkName), Err(Error::InternalLogic(Fault::MissingTag(TagID::WorkName)))));
}

#[test]
fn address_map_insert_and_get() {
    let mut map = TagAddressMap::new();
    map.insert(TagID::ActTotal, (3, 4));
    map.insert(TagID::ActTotal, (5, 6));
    assert_eq!(*map.get(&TagID::ActTotal).unwrap(), (5, 6));
    assert_eq!(map.lookup(TagID::Executor), None);
}

#[test]
fn tag_catalog_lookup() {
    let info = TagArrayTools::get_tag_info_by_id(TagID::BasePrice2001).unwrap();
    assert!(info.is_required);
    assert!(info.match_case);
    assert_eq!(info.look_at, TextCmp::Part);
    let cat = tag_catalog();
    assert_eq!(cat.len(), TAG_COUNT);
    assert_eq!(cat[0].id, TagID::Executor);
    assert!(!cat[0].is_required);
    assert_eq!(cat[11].id, TagID::MaterialsTotal);
    assert_eq!(TagID::Contract.as_str(), "Договор подряда");
}

#[test]
fn text_comparison_modes() {
    assert!(compare_text("abc", "abc", TextCmp::Whole));
    assert!(!compare_text("abcd", "abc", TextCmp::Whole));
    assert!(compare_text("xabcx", "abc", TextCmp::Part));
    assert!(!compare_text("xabx", "abc", TextCmp::Part));
    assert!(compare_text("abcx", "abc", TextCmp::StartsWith));
    assert!(!compare_text("xabc", "abc", TextCmp::StartsWith));
    assert!(compare_text("xabc", "abc", TextCmp::EndsWith));
    assert!(!compare_text("abcx", "abc", TextCmp::EndsWith));
    assert!(compare_text("", "", TextCmp::Part));
}

#[test]
fn tag_match_ignores_case_only_where_asked() {
    let object = TagArrayTools::get_tag_info_by_id(TagID::Object).unwrap();
    assert!(cell_matches_tag("ОБЪЕКТ", &object));
    let base = TagArrayTools::get_tag_info_by_id(TagID::BasePrice2001).unwrap();
    assert!(cell_matches_tag("Стоимость в ценах 2001 г., руб.", &base));
    assert!(!cell_matches_tag("СТОИМОСТЬ В ЦЕНАХ 2001", &base));
}

#[test]
fn clean_text_trims_and_drops_line_breaks() {
    assert_eq!(clean_text("  a\r\nb \t"), "ab");
    assert_eq!(clean_text("a\rb\nc"), "a\rb\nc");
    assert_eq!(clean_text(""), "");
}

#[test]
fn sheet_name_is_found_ignoring_case() {
    let names = vec!["Титул".to_string(), "ЛИСТ1".to_string(), "лист1".to_string()];
    assert_eq!(resolve_sheet_name("a.xlsm", &names, "Лист1").unwrap(), "ЛИСТ1");
}

#[test]
fn unknown_sheet_name_lists_the_sheets() {
    let names = vec!["Титул".to_string(), "Акт".to_string()];
    match resolve_sheet_name("a.xlsm", &names, "\"Лист1\"") {
        Err(Error::SheetUndetectable { file_path, sh_name_for_search, sh_names }) => {
            assert_eq!(file_path, "a.xlsm");
            assert_eq!(sh_name_for_search, "\"Лист1\"");
            assert_eq!(sh_names, names);
        }
        other => panic!("unexpected {:?}", other),
    }
}

#[test]
fn grid_rejects_cells_outside_the_range() {
    assert!(Grid::new(2, 2, vec![text(2, 0, "x")]).is_none());
    assert!(Grid::new(2, 2, vec![text(1, 1, "x")]).is_some());
}

#[test]
fn file_filters() {
    assert!(is_candidate_file_name("акт.xlsm"));
    assert!(!is_candidate_file_name("~$акт.xlsm"));
    assert!(!is_candidate_file_name("акт.xlsx"));
    assert!(is_excluded_path("2023/@старое/акт.xlsm"));
    assert!(!is_excluded_path("2023/акт.xlsm"));
}

#[test]
fn empty_range_is_reported_with_the_sheet_name() {
    let grid = Grid::new(0, 0, Vec::new()).unwrap();
    match Sheet::new("e.xlsm".to_string(), "Акт".to_string(), grid, None) {
        Err(Error::EmptySheetRange { file_path, sh_name }) => {
            assert_eq!(file_path, "e.xlsm");
            assert_eq!(sh_name, "Акт");
        }
        other => panic!("unexpected {:?}", other),
    }
}
