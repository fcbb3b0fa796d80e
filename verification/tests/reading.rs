use contour_trace::grid::cell_at;
use contour_trace::window_info::{parse_id, parse_info, parse_pair};

const REPORT: &[u8] = b"Window 62914565\n  Position: 184,63 (screen: 0)\n  Geometry: 634x575\n";

#[test]
fn position_and_size_are_read_after_their_names() {
    assert_eq!(parse_info(REPORT, b"Position: "), Some((184, 63)));
    assert_eq!(parse_info(REPORT, b"Geometry: "), Some((634, 575)));
    assert_eq!(parse_info(REPORT, b"Window "), None);
    assert_eq!(parse_info(REPORT, b""), None);
}

#[test]
fn a_name_that_is_not_there_gives_nothing() {
    assert_eq!(parse_info(REPORT, b"Depth: "), None);
    assert_eq!(parse_info(b"", b"Position: "), None);
    assert_eq!(parse_info(b"Pos", b"Position: "), None);
    assert_eq!(parse_info(b"Position:", b"Position: "), None);
}

#[test]
fn the_first_place_of_the_name_counts() {
    assert_eq!(parse_info(b"at 1,2 at 3,4", b"at "), Some((1, 2)));
    assert_eq!(parse_info(b"aab 5x6", b"ab "), Some((5, 6)));
    assert_eq!(parse_info(b"7,8", b""), Some((7, 8)));
}

#[test]
fn blanks_are_passed_over_and_dividers_turn_to_the_second() {
    assert_eq!(parse_pair(b" 1 2 , 3 4", 0), Some((12, 34)));
    assert_eq!(parse_pair(b"12,34x56", 0), Some((12, 3456)));
    assert_eq!(parse_pair(b"12x,34", 0), Some((12, 34)));
    assert_eq!(parse_pair(b"007,08", 0), Some((7, 8)));
    assert_eq!(parse_pair(b"ab1,2", 2), Some((1, 2)));
    assert_eq!(parse_pair(b"12,34 (screen: 0)", 0), Some((12, 34)));
}

#[test]
fn a_number_without_digits_is_none() {
    assert_eq!(parse_pair(b"", 0), None);
    assert_eq!(parse_pair(b"12", 0), None);
    assert_eq!(parse_pair(b",5", 0), None);
    assert_eq!(parse_pair(b"5,", 0), None);
    assert_eq!(parse_pair(b"12a,34", 0), None);
    assert_eq!(parse_pair(b"-1,2", 0), None);
    assert_eq!(parse_pair(b"1,2", 3), None);
    assert_eq!(parse_pair(b"1,\n2", 0), None);
    assert_eq!(parse_pair("1,\u{663}".as_bytes(), 0), None);
}

#[test]
fn a_number_too_great_for_its_type_is_none() {
    assert_eq!(parse_pair(b"18446744073709551615,1", 0), Some((u64::MAX, 1)));
    assert_eq!(parse_pair(b"18446744073709551616,1", 0), None);
    assert_eq!(parse_pair(b"1,18446744073709551616", 0), None);
    assert_eq!(parse_pair(b"1,99999999999999999999999", 0), None);
    assert_eq!(parse_pair(b"1,00000000000000000000000000000002", 0), Some((1, 2)));
}

#[test]
fn cells_are_found_in_row_major_order() {
    assert_eq!(cell_at(0, 0, 3, 2), Some(0));
    assert_eq!(cell_at(2, 1, 3, 2), Some(5));
    assert_eq!(cell_at(3, 1, 3, 2), None);
    assert_eq!(cell_at(0, 2, 3, 2), None);
    assert_eq!(cell_at(-1, 0, 3, 2), None);
    assert_eq!(cell_at(0, -1, 3, 2), None);
    assert_eq!(cell_at(0, 0, 0, 5), None);
    assert_eq!(cell_at(i64::MAX, 0, 3, 2), None);
}

#[test]
fn an_id_stands_alone_on_its_line() {
    assert_eq!(parse_id(b"62914565"), Some(62914565));
    assert_eq!(parse_id(b"  62914565\t\r"), Some(62914565));
    assert_eq!(parse_id(b"+7"), Some(7));
    assert_eq!(parse_id(b" +007 "), Some(7));
    assert_eq!(parse_id(b"0"), Some(0));
    assert_eq!(parse_id(b"18446744073709551615"), Some(u64::MAX));
}

#[test]
fn a_line_that_is_no_number_holds_no_id() {
    assert_eq!(parse_id(b""), None);
    assert_eq!(parse_id(b"   "), None);
    assert_eq!(parse_id(b"+"), None);
    assert_eq!(parse_id(b"++7"), None);
    assert_eq!(parse_id(b"-7"), None);
    assert_eq!(parse_id(b"7 8"), None);
    assert_eq!(parse_id(b"+ 7"), None);
    assert_eq!(parse_id(b"0x10"), None);
    assert_eq!(parse_id(b"Defaulting to search window name"), None);
    assert_eq!(parse_id(b"18446744073709551616"), None);
}
