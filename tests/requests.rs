use sheet_client::error::SheetError;
use sheet_client::requests::{
    created_sheet_id, format_cell_request, sheet_id_for_title, sheet_title_for_id,
    write_column_request, write_row_request, CellRange, MajorDimension, SheetEntry, SheetRequest,
    WriteMode,
};

fn strings(values: &[&str]) -> Vec<String> {
    values.iter().map(|v| v.to_string()).collect()
}

fn sample_sheets() -> Vec<SheetEntry> {
    vec![
        SheetEntry { sheet_id: Some(0), title: Some(String::from("Sheet1")) },
        SheetEntry { sheet_id: None, title: Some(String::from("Orphan")) },
        SheetEntry { sheet_id: Some(42), title: None },
        SheetEntry { sheet_id: Some(7), title: Some(String::from("Data")) },
        SheetEntry { sheet_id: Some(8), title: Some(String::from("Data")) },
    ]
}

#[test]
fn write_row_addresses_span() {
    let w = write_row_request(2, 1, strings(&["x", "y", "z"])).unwrap();
    assert_eq!(w.range, "A2:C2");
    assert_eq!(w.values, vec![strings(&["x", "y", "z"])]);
    assert_eq!(w.major_dimension, Some(MajorDimension::Rows));
    assert_eq!(w.mode, WriteMode::Overwrite);
}

#[test]
fn write_row_across_letter_boundary() {
    let w = write_row_request(10, 26, strings(&["a", "b"])).unwrap();
    assert_eq!(w.range, "Z10:AA10");
}

#[test]
fn write_row_errors() {
    assert_eq!(
        write_row_request(0, 1, strings(&["x"])).unwrap_err(),
        SheetError::PreconditionViolation
    );
    assert_eq!(
        write_row_request(1, 0, strings(&["x"])).unwrap_err(),
        SheetError::PreconditionViolation
    );
    assert_eq!(
        write_row_request(1, 1, Vec::new()).unwrap_err(),
        SheetError::PreconditionViolation
    );
    assert_eq!(
        write_row_request(1, i32::MAX, strings(&["x", "y"])).unwrap_err(),
        SheetError::NumericOverflow
    );
    let w = write_row_request(1, i32::MAX, strings(&["x"])).unwrap();
    assert_eq!(w.range, "FXSHRXW1:FXSHRXW1");
}

#[test]
fn write_column_addresses_first_cell() {
    let w = write_column_request(2, 1, strings(&["x", "y"])).unwrap();
    assert_eq!(w.range, "B1");
    assert_eq!(w.values, vec![strings(&["x"]), strings(&["y"])]);
    assert_eq!(w.major_dimension, Some(MajorDimension::Columns));
    assert_eq!(w.mode, WriteMode::Overwrite);
}

#[test]
fn write_column_empty_and_errors() {
    let w = write_column_request(28, 5, Vec::new()).unwrap();
    assert_eq!(w.range, "AB5");
    assert!(w.values.is_empty());
    assert_eq!(
        write_column_request(0, 1, strings(&["x"])).unwrap_err(),
        SheetError::PreconditionViolation
    );
    assert_eq!(
        write_column_request(1, 0, strings(&["x"])).unwrap_err(),
        SheetError::PreconditionViolation
    );
}

#[test]
fn format_cell_unknown_sheet_is_not_found() {
    let sheets = sample_sheets();
    let id = sheet_id_for_title(&sheets, "Missing");
    assert_eq!(id, None);
    assert_eq!(format_cell_request(id, "A1").unwrap_err(), SheetError::NotFound);
    assert_eq!(format_cell_request(None, "not an address").unwrap_err(), SheetError::NotFound);
}

#[test]
fn format_cell_single_cell_range() {
    let sheets = sample_sheets();
    let id = sheet_id_for_title(&sheets, "Data");
    assert_eq!(id, Some(7));
    match format_cell_request(id, "AB123").unwrap() {
        SheetRequest::SetBackground { range } => assert_eq!(
            range,
            CellRange {
                sheet_id: 7,
                start_row_index: 122,
                end_row_index: 123,
                start_column_index: 27,
                end_column_index: 28,
            }
        ),
        other => panic!("unexpected request {:?}", other),
    }
}

#[test]
fn format_cell_bad_address() {
    assert_eq!(format_cell_request(Some(1), "1A").unwrap_err(), SheetError::InvalidInput);
    assert_eq!(format_cell_request(Some(1), "A0").unwrap_err(), SheetError::InvalidInput);
    assert_eq!(
        format_cell_request(Some(1), "A99999999999").unwrap_err(),
        SheetError::NumericOverflow
    );
}

#[test]
fn sheet_lookups() {
    let sheets = sample_sheets();
    assert_eq!(sheet_title_for_id(&sheets, 0), Some(String::from("Sheet1")));
    assert_eq!(sheet_title_for_id(&sheets, 7), Some(String::from("Data")));
    assert_eq!(sheet_title_for_id(&sheets, 42), None);
    assert_eq!(sheet_title_for_id(&sheets, 99), None);
    assert_eq!(sheet_id_for_title(&sheets, "Sheet1"), Some(0));
    assert_eq!(sheet_id_for_title(&sheets, "Orphan"), None);
    assert_eq!(sheet_id_for_title(&sheets, "sheet1"), None);
    assert_eq!(sheet_id_for_title(&Vec::new(), "Sheet1"), None);
}

#[test]
fn created_sheet_id_from_replies() {
    assert_eq!(created_sheet_id(Some(vec![Some(12), Some(13)])), Some(12));
    assert_eq!(created_sheet_id(Some(vec![None, Some(13)])), None);
    assert_eq!(created_sheet_id(Some(Vec::new())), None);
    assert_eq!(created_sheet_id(None), None);
}

#[test]
fn error_descriptions() {
    assert_eq!(SheetError::NotFound.describe(), "worksheet not found");
    assert_eq!(SheetError::TransportFailure(String::from("get: timeout")).describe(), "get: timeout");
}
