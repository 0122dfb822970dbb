use ks2_etl::act::{desired_cells, Act, DataVariant};
use ks2_etl::emit::{date_parts, parse_i16_of, HeaderCell};
use ks2_etl::load::WritingConfigs;
use ks2_etl::console::{is_info_request, prepend_spaces_to_non_empty_lines};
use ks2_etl::text::{clean_text, last_segment_of, replace_all, split_chars, strip_prefixes, trim};

fn text(s: &str) -> Option<DataVariant> {
    Some(DataVariant::String(s.to_string()))
}

fn act_with_header(path: &str, header: Vec<Option<DataVariant>>) -> Act {
    Act {
        path: path.to_string(),
        sheetname: "Лист1".to_string(),
        names_of_header: desired_cells(),
        data_of_header: header,
        data_of_totals: Vec::new(),
        start_row_of_totals: 1,
    }
}

#[test]
fn header_cells_follow_the_pinned_columns() {
    let mut header: Vec<Option<DataVariant>> = (0..16).map(|_| None).collect();
    header[0] = text("ООО Подрядчик");
    header[1] = text("Глава 2");
    header[2] = text("Монтаж");
    header[3] = text("Жилой дом");
    header[5] = Some(DataVariant::Float(44000.0f64.to_bits()));
    header[6] = text("Смета № Смета № 7-1");
    header[8] = text("1 234,5 тыс. руб.");
    header[10] = text("15");
    header[11] = text("31.01.2023");
    header[12] = text("01/02/2023");
    let a = act_with_header("C:\\acts\\2023\\act.xlsm", header);
    let w = WritingConfigs::new(&[]).unwrap();
    let cells = w.header_cells(&a);
    let at = |col: u16| cells.iter().find(|c| c.0 == col).map(|c| &c.1);
    assert_eq!(at(0), Some(&HeaderCell::Url("C:\\acts\\2023\\".to_string())));
    assert_eq!(
        at(1),
        Some(&HeaderCell::Formula("=HYPERLINK(\"C:\\acts\\2023\\act.xlsm\", \"act.xlsm\")".to_string()))
    );
    assert_eq!(at(2), Some(&HeaderCell::Text("15".to_string())));
    assert_eq!(at(3), Some(&HeaderCell::Date { day: 31, month: 1, year: 2023 }));
    assert_eq!(at(4), Some(&HeaderCell::Text("ООО Подрядчик".to_string())));
    assert_eq!(at(5), Some(&HeaderCell::Text("Глава 2 «Монтаж»".to_string())));
    assert_eq!(at(6), Some(&HeaderCell::Text("Жилой дом".to_string())));
    assert_eq!(at(7), None);
    assert_eq!(at(8), Some(&HeaderCell::Number { bits: 44000.0f64.to_bits(), as_date: true }));
    assert_eq!(at(9), Some(&HeaderCell::Text("7-1".to_string())));
    assert_eq!(at(11), Some(&HeaderCell::Amount("1234.5".to_string())));
    assert_eq!(at(12), None);
    assert_eq!(at(13), None);
}

#[test]
fn chapter_needs_both_parts() {
    let mut header: Vec<Option<DataVariant>> = (0..16).map(|_| None).collect();
    header[1] = text("Глава 2");
    header[2] = text("");
    let a = act_with_header("act.xlsm", header);
    let w = WritingConfigs::new(&[]).unwrap();
    let cells = w.header_cells(&a);
    assert!(cells.iter().all(|c| c.0 != 5));
    assert_eq!(cells[0], (0, HeaderCell::Url("".to_string())));
}

#[test]
fn dates_need_the_pattern_and_three_numbers() {
    assert_eq!(date_parts("05.11.2022"), Some((5, 11, 2022)));
    assert_eq!(date_parts("5.11.2022"), None);
    assert_eq!(date_parts("05-11-2022"), None);
    assert_eq!(date_parts("05.11.20222"), None);
}

#[test]
fn parse_small_integers() {
    let p = |s: &str| parse_i16_of(&s.chars().collect());
    assert_eq!(p("0"), Some(0));
    assert_eq!(p("-12"), Some(-12));
    assert_eq!(p("+7"), Some(7));
    assert_eq!(p("32767"), Some(32767));
    assert_eq!(p("-32768"), Some(-32768));
    assert_eq!(p("32768"), None);
    assert_eq!(p("0000000000001"), Some(1));
    assert_eq!(p(""), None);
    assert_eq!(p("-"), None);
    assert_eq!(p("1a"), None);
}

#[test]
fn replace_strip_and_split() {
    assert_eq!(replace_all("a,b,,c", ",", "."), "a.b..c");
    assert_eq!(replace_all("aaa", "aa", "b"), "ba");
    assert_eq!(strip_prefixes("ab ab x", "ab "), "x");
    assert_eq!(strip_prefixes("x", ""), "x");
    assert_eq!(last_segment_of("a\\b\\c.xlsm", '\\'), "c.xlsm");
    assert_eq!(last_segment_of("c.xlsm", '\\'), "c.xlsm");
    let parts = split_chars("1..2", '.');
    assert_eq!(parts, vec![vec!['1'], vec![], vec!['2']]);
}

#[test]
fn margin_goes_before_non_blank_lines() {
    assert_eq!(prepend_spaces_to_non_empty_lines("a\n\n  \nb"), "       a\n\n  \n       b");
    assert_eq!(prepend_spaces_to_non_empty_lines("a\r\nb\n"), "       a\n       b");
    assert_eq!(prepend_spaces_to_non_empty_lines(""), "");
    assert_eq!(prepend_spaces_to_non_empty_lines("\n"), "");
    assert_eq!(prepend_spaces_to_non_empty_lines("\nx"), "\n       x");
}

#[test]
fn trim_removes_unicode_white_space_only_at_the_ends() {
    assert_eq!(trim("\u{3000} a b\u{a0}\t"), "a b");
    assert_eq!(trim(" \n "), "");
    assert_eq!(clean_text("\u{2003}Итого\r\n\u{2003}"), "Итого");
}

#[test]
fn info_keyword_in_either_layout() {
    assert!(is_info_request("info"));
    assert!(is_info_request("\"INFO\""));
    assert!(is_info_request("шта@щ"));
    assert!(!is_info_request("inf"));
    assert!(!is_info_request("C:\\acts"));
}
