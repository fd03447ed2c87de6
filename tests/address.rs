use sheet_client::address::{get_addr_int, get_cell_address, get_column_letter, get_column_number};
use sheet_client::error::SheetError;

#[test]
fn test_get_addr_int() {
    let cell_addr = String::from("AB123");
    let expected_row_num: i32 = 123;
    let expected_col_num: i32 = 28;

    let (row_num, col_num) = get_addr_int(&cell_addr).unwrap();

    assert_eq!(row_num, expected_row_num);
    assert_eq!(col_num, expected_col_num);
}

#[test]
fn test_get_column_() {
    let column_letters = [
        "A", "B", "C", "X", "Y", "Z", "AA", "AB", "AC", "ZY", "ZZ", "AAA", "AAB", "AAC", "ABC",
        "ABA",
    ];

    let column_numbers = [
        1, 2, 3, 24, 25, 26, 27, 28, 29, 701, 702, 703, 704, 705, 731, 729,
    ];

    for i in 0..column_letters.len() {
        let column_letter = column_letters[i];
        let expected_column_number = column_numbers[i];
        let actual_column_number = get_column_number(column_letter).unwrap();
        assert_eq!(actual_column_number, expected_column_number);

        let expected_column_letter = column_letter.to_string();
        let actual_column_letter = get_column_letter(expected_column_number);
        assert_eq!(actual_column_letter, expected_column_letter);
    }
}

#[test]
fn test_get_cell_address() {
    assert_eq!(get_cell_address(1, 1).unwrap(), "A1");
    assert_eq!(get_cell_address(3, 26).unwrap(), "Z3");
    assert_eq!(get_cell_address(27, 27).unwrap(), "AA27");
    assert_eq!(get_cell_address(703, 137).unwrap(), "EG703");
}

#[test]
fn column_round_trip_up_to_ten_thousand() {
    for n in 1..=10000 {
        let letters = get_column_letter(n);
        assert_eq!(get_column_number(&letters), Ok(n), "column {}", n);
    }
}

#[test]
fn column_letters_literal_cases() {
    let cases = [
        (1, "A"),
        (26, "Z"),
        (27, "AA"),
        (28, "AB"),
        (701, "ZY"),
        (702, "ZZ"),
        (703, "AAA"),
        (731, "ABC"),
    ];
    for (n, letters) in cases {
        assert_eq!(get_column_letter(n), letters);
    }
}

#[test]
fn column_letter_of_non_positive_is_empty() {
    assert_eq!(get_column_letter(0), "");
    assert_eq!(get_column_letter(-5), "");
}

#[test]
fn column_letter_of_largest_i32() {
    assert_eq!(get_column_letter(i32::MAX), "FXSHRXW");
    assert_eq!(get_column_number("FXSHRXW"), Ok(i32::MAX));
}

#[test]
fn column_numbers_of_letters() {
    assert_eq!(get_column_number("AB"), Ok(28));
    assert_eq!(get_column_number("ZZ"), Ok(702));
    assert_eq!(get_column_number("AAA"), Ok(703));
}

#[test]
fn column_number_rejects_bad_letters() {
    assert_eq!(get_column_number(""), Err(SheetError::InvalidInput));
    assert_eq!(get_column_number("a"), Err(SheetError::InvalidInput));
    assert_eq!(get_column_number("A1"), Err(SheetError::InvalidInput));
    assert_eq!(get_column_number("ÄB"), Err(SheetError::InvalidInput));
}

#[test]
fn column_number_overflow() {
    assert_eq!(get_column_number("FXSHRXX"), Err(SheetError::NumericOverflow));
    assert_eq!(get_column_number("ZZZZZZZZZZZZZZZZ"), Err(SheetError::NumericOverflow));
}

#[test]
fn cell_address_literal_cases() {
    assert_eq!(get_cell_address(1, 1), Ok(String::from("A1")));
    assert_eq!(get_cell_address(3, 26), Ok(String::from("Z3")));
    assert_eq!(get_cell_address(703, 137), Ok(String::from("EG703")));
    assert_eq!(get_cell_address(i32::MAX, 1), Ok(String::from("A2147483647")));
    assert_eq!(get_cell_address(10, 2), Ok(String::from("B10")));
}

#[test]
fn cell_address_rejects_non_positive() {
    assert_eq!(get_cell_address(0, 5), Err(SheetError::PreconditionViolation));
    assert_eq!(get_cell_address(5, 0), Err(SheetError::PreconditionViolation));
    assert_eq!(get_cell_address(-1, -1), Err(SheetError::PreconditionViolation));
}

#[test]
fn parse_address_literal_case() {
    assert_eq!(get_addr_int("AB123"), Ok((123, 28)));
    assert_eq!(get_addr_int("A1"), Ok((1, 1)));
    assert_eq!(get_addr_int("A0"), Ok((0, 1)));
}

#[test]
fn parse_address_rejects_malformed() {
    assert_eq!(get_addr_int(""), Err(SheetError::InvalidInput));
    assert_eq!(get_addr_int("123"), Err(SheetError::InvalidInput));
    assert_eq!(get_addr_int("AB"), Err(SheetError::InvalidInput));
    assert_eq!(get_addr_int("ab12"), Err(SheetError::InvalidInput));
    assert_eq!(get_addr_int("A1B"), Err(SheetError::InvalidInput));
    assert_eq!(get_addr_int("A 1"), Err(SheetError::InvalidInput));
    assert_eq!(get_addr_int("A١"), Err(SheetError::InvalidInput));
}

#[test]
fn parse_address_overflow() {
    assert_eq!(get_addr_int("A2147483648"), Err(SheetError::NumericOverflow));
    assert_eq!(get_addr_int("FXSHRXX1"), Err(SheetError::NumericOverflow));
    assert_eq!(get_addr_int("A2147483647"), Ok((i32::MAX, 1)));
}

#[test]
fn address_round_trip_samples() {
    for s in ["A1", "Z3", "AA27", "EG703", "AB123", "ZZ702", "XFD1048576", "FXSHRXW2147483647"] {
        let (row, col) = get_addr_int(s).unwrap();
        assert_eq!(get_cell_address(row, col), Ok(s.to_string()));
    }
}
