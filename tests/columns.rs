use ks2_etl::load::column_written_with_letters;
use ks2_etl::utils::{decimal, get_xl_column_letter};

#[test]
fn utils_column_in_excel_with_letters_01() {
    let result = get_xl_column_letter(886);
    assert_eq!(result, "AHC".to_string());
}

#[test]
fn utils_column_in_excel_with_letters_02() {
    let result = get_xl_column_letter(1465);
    assert_eq!(result, "BDJ".to_string());
}

#[test]
fn load_column_in_excel_with_letters_01() {
    let result = column_written_with_letters(886);
    assert_eq!(result, "AHC".to_string());
}

#[test]
fn load_column_in_excel_with_letters_02() {
    let result = column_written_with_letters(1465);
    assert_eq!(result, "BDJ".to_string());
}

#[test]
fn column_letters_single_and_double() {
    assert_eq!(get_xl_column_letter(0), "A");
    assert_eq!(get_xl_column_letter(25), "Z");
    assert_eq!(get_xl_column_letter(26), "AA");
    assert_eq!(get_xl_column_letter(51), "AZ");
    assert_eq!(get_xl_column_letter(52), "BA");
    assert_eq!(get_xl_column_letter(701), "ZZ");
    assert_eq!(get_xl_column_letter(702), "AAA");
}

#[test]
fn column_letters_largest_index() {
    assert_eq!(get_xl_column_letter(u16::MAX), "CRXP");
}

#[test]
fn decimal_notation() {
    assert_eq!(decimal(0), "0");
    assert_eq!(decimal(7), "7");
    assert_eq!(decimal(10), "10");
    assert_eq!(decimal(1048576), "1048576");
}
