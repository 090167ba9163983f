use star_index::load::{load_stars, stars_from_table, Fault, Field, LoadError};
use star_index::star::Star;

fn degrees(v: i64) -> f64 {
    v as f64 / 1e6
}

fn magnitude(v: Option<i64>) -> Option<f64> {
    v.map(degrees)
}

fn file(content: &str) -> Vec<u8> {
    format!("{}\n", content).into_bytes()
}

fn row(fields: &[&str]) -> Vec<Vec<u8>> {
    fields.iter().map(|f| f.as_bytes().to_vec()).collect()
}

#[test]
fn test_load_stars_ok() {
    let csv_content = "\u{FEFF}#Table1\n\
obj_id,ra,dec,u,g,r,i,z\n\
1,150.0,2.0,18.0,17.5,17.0,16.8,16.5\n\
2,150.1,2.1,19.0,18.5,18.0,17.8,17.5\n\
3,150.2,2.2,,,,,\n";

    let result = load_stars(&file(csv_content));

    assert!(result.is_ok(), "load_stars returned an error: {:?}", result.err());
    let stars = result.unwrap();

    assert_eq!(stars.len(), 3);
    assert_eq!(
        stars[0],
        Star {
            obj_id: 1,
            ra: 150_000_000,
            dec: 2_000_000,
            u: Some(18_000_000),
            g: Some(17_500_000),
            r: Some(17_000_000),
            i: Some(16_800_000),
            z: Some(16_500_000),
        }
    );
    assert_eq!(
        stars[1],
        Star {
            obj_id: 2,
            ra: 150_100_000,
            dec: 2_100_000,
            u: Some(19_000_000),
            g: Some(18_500_000),
            r: Some(18_000_000),
            i: Some(17_800_000),
            z: Some(17_500_000),
        }
    );
    assert_eq!(
        stars[2],
        Star {
            obj_id: 3,
            ra: 150_200_000,
            dec: 2_200_000,
            u: None,
            g: None,
            r: None,
            i: None,
            z: None,
        }
    );

    let expected: [(u64, f64, f64, [Option<f64>; 5]); 3] = [
        (1, 150.0, 2.0, [Some(18.0), Some(17.5), Some(17.0), Some(16.8), Some(16.5)]),
        (2, 150.1, 2.1, [Some(19.0), Some(18.5), Some(18.0), Some(17.8), Some(17.5)]),
        (3, 150.2, 2.2, [None, None, None, None, None]),
    ];
    for (star, want) in stars.iter().zip(expected.iter()) {
        assert_eq!(star.obj_id, want.0);
        assert_eq!(degrees(star.ra), want.1);
        assert_eq!(degrees(star.dec), want.2);
        let got = [
            magnitude(star.u),
            magnitude(star.g),
            magnitude(star.r),
            magnitude(star.i),
            magnitude(star.z),
        ];
        assert_eq!(got, want.3);
    }
}

#[test]
fn test_load_stars_malformed_data() {
    let csv_content = "\u{FEFF}#Table1\n\
obj_id,ra,dec,u,g,r,i,z\n\
1,not_a_float,2.0,18.0,17.5,17.0,16.8,16.5\n\
2,150.1,2.1,19.0,18.5,18.0,17.8,17.5\n";

    let result = load_stars(&file(csv_content));

    assert!(result.is_err(), "Expected an error for malformed data, but got Ok");
    assert_eq!(
        result,
        Err(LoadError::BadValue { row: 0, field: Field::Ra, fault: Fault::Malformed })
    );
}

#[test]
fn test_load_stars_missing_required_field() {
    let csv_content = "\u{FEFF}#Table1\n\
obj_id,ra,dec,u,g,r,i,z\n\
1,,2.0,18.0,17.5,17.0,16.8,16.5\n";

    let result = load_stars(&file(csv_content));

    assert!(result.is_err(), "Expected an error for missing required field 'ra', but got Ok");
    assert_eq!(result, Err(LoadError::BadValue { row: 0, field: Field::Ra, fault: Fault::Empty }));
}

#[test]
fn test_load_empty_data() {
    let csv_content = "\u{FEFF}#Table1\n\
obj_id,ra,dec,u,g,r,i,z\n";

    let result = load_stars(&file(csv_content));

    assert!(result.is_ok(), "load_stars returned an error: {:?}", result.err());
    let stars = result.unwrap();
    assert!(stars.is_empty(), "Expected an empty vector of stars, but got {} stars", stars.len());
}

#[test]
fn first_line_is_dropped_whatever_it_holds() {
    let with_commas = b"a,b,c,d,e,f,g,h,i,j\nobj_id,ra,dec\n7,1.5,-2.25\n";
    let stars = load_stars(with_commas).unwrap();
    assert_eq!(stars.len(), 1);
    assert_eq!(stars[0].obj_id, 7);
    assert_eq!(stars[0].ra, 1_500_000);
    assert_eq!(stars[0].dec, -2_250_000);

    let not_text = b"\xff\xfe\x00\nobj_id,ra,dec\n7,1.5,-2.25\n";
    assert_eq!(load_stars(not_text).unwrap().len(), 1);

    let empty_first = b"\nobj_id,ra,dec\n7,1.5,-2.25\n";
    assert_eq!(load_stars(empty_first).unwrap().len(), 1);
}

#[test]
fn header_is_not_a_star() {
    // Were the header read as a row, or the first line kept, loading would fail.
    let data = b"#comment\nobj_id,ra,dec\n1,0,0\n2,1,1\n";
    let stars = load_stars(data).unwrap();
    assert_eq!(stars.iter().map(|s| s.obj_id).collect::<Vec<u64>>(), vec![1, 2]);
}

#[test]
fn columns_may_come_in_any_order() {
    let data = b"#t\nz,dec,name,ra,obj_id\n21.5,-5.0,Vega,10.25,42\n";
    let stars = load_stars(data).unwrap();
    assert_eq!(
        stars,
        vec![Star {
            obj_id: 42,
            ra: 10_250_000,
            dec: -5_000_000,
            u: None,
            g: None,
            r: None,
            i: None,
            z: Some(21_500_000),
        }]
    );
}

#[test]
fn column_names_are_case_sensitive() {
    let data = b"#t\nobj_id,RA,dec\n1,2,3\n";
    assert_eq!(load_stars(data), Err(LoadError::MissingColumn { field: Field::Ra }));
}

#[test]
fn missing_required_column_fails_even_without_rows() {
    assert_eq!(
        load_stars(b"#t\nra,dec,u\n"),
        Err(LoadError::MissingColumn { field: Field::ObjId })
    );
    assert_eq!(
        load_stars(b"#t\nobj_id,ra\n"),
        Err(LoadError::MissingColumn { field: Field::Dec })
    );
}

#[test]
fn repeated_column_fails() {
    assert_eq!(
        load_stars(b"#t\nobj_id,ra,dec,ra\n1,2,3,4\n"),
        Err(LoadError::DuplicateColumn { field: Field::Ra })
    );
    assert_eq!(
        load_stars(b"#t\nobj_id,ra,dec,g,g\n"),
        Err(LoadError::DuplicateColumn { field: Field::G })
    );
    // A column that names no field may repeat.
    assert!(load_stars(b"#t\nobj_id,ra,dec,note,note\n1,2,3,a,b\n").is_ok());
}

#[test]
fn nothing_after_first_line_is_no_header() {
    assert_eq!(load_stars(b""), Err(LoadError::NoHeader));
    assert_eq!(load_stars(b"only one line"), Err(LoadError::NoHeader));
    assert_eq!(load_stars(b"only one line\n"), Err(LoadError::NoHeader));
}

#[test]
fn uneven_row_is_a_csv_error() {
    assert_eq!(load_stars(b"#t\nobj_id,ra,dec\n1,2\n"), Err(LoadError::Csv));
    assert_eq!(load_stars(b"#t\nobj_id,ra,dec\n1,2,3,4\n"), Err(LoadError::Csv));
}

#[test]
fn field_that_is_not_utf8_is_a_csv_error() {
    assert_eq!(load_stars(b"#t\nobj_id,ra,dec,note\n1,2,3,\xff\n"), Err(LoadError::Csv));
}

#[test]
fn quoted_fields_are_unquoted() {
    let data = b"#t\nobj_id,\"ra\",dec,note\n\"5\",\"1.0\",2.0,\"a,b\"\n";
    let stars = load_stars(data).unwrap();
    assert_eq!(stars.len(), 1);
    assert_eq!(stars[0].obj_id, 5);
    assert_eq!(stars[0].ra, 1_000_000);
}

#[test]
fn malformed_optional_value_fails_the_load() {
    let data = b"#t\nobj_id,ra,dec,u,g\n1,2,3,,\n2,3,4,18.0,bright\n";
    assert_eq!(
        load_stars(data),
        Err(LoadError::BadValue { row: 1, field: Field::G, fault: Fault::Malformed })
    );
}

#[test]
fn first_bad_row_and_field_are_reported() {
    let data = b"#t\nobj_id,ra,dec,u\n1,2,3,x\n,y,,\n";
    assert_eq!(
        load_stars(data),
        Err(LoadError::BadValue { row: 0, field: Field::U, fault: Fault::Malformed })
    );
    let data = b"#t\nu,dec,ra,obj_id\nx,,y,1\n";
    assert_eq!(
        load_stars(data),
        Err(LoadError::BadValue { row: 0, field: Field::Ra, fault: Fault::Malformed })
    );
}

#[test]
fn empty_id_fails() {
    let data = b"#t\nobj_id,ra,dec\n,2,3\n";
    assert_eq!(
        load_stars(data),
        Err(LoadError::BadValue { row: 0, field: Field::ObjId, fault: Fault::Empty })
    );
}

#[test]
fn coordinate_out_of_range_fails() {
    let data = b"#t\nobj_id,ra,dec\n1,1000.000001,3\n";
    assert_eq!(
        load_stars(data),
        Err(LoadError::BadValue { row: 0, field: Field::Ra, fault: Fault::OutOfRange })
    );
    let data = b"#t\nobj_id,ra,dec\n1,1000,-1000.0000005\n";
    assert_eq!(
        load_stars(data),
        Err(LoadError::BadValue { row: 0, field: Field::Dec, fault: Fault::OutOfRange })
    );
    let data = b"#t\nobj_id,ra,dec\n1,1000,-1000.0000004\n";
    let stars = load_stars(data).unwrap();
    assert_eq!(stars[0].ra, 1_000_000_000);
    assert_eq!(stars[0].dec, -1_000_000_000);
    // Magnitudes are not bounded like coordinates.
    let data = b"#t\nobj_id,ra,dec,u\n1,0,0,-9999\n";
    assert_eq!(load_stars(data).unwrap()[0].u, Some(-9_999_000_000));
}

#[test]
fn table_without_rows_has_no_header() {
    assert_eq!(stars_from_table(&Vec::new()), Err(LoadError::NoHeader));
}

#[test]
fn short_row_reads_as_empty_fields() {
    let table = vec![row(&["obj_id", "ra", "dec", "u"]), row(&["1", "2", "3"])];
    let stars = stars_from_table(&table).unwrap();
    assert_eq!(stars[0].u, None);
    let table = vec![row(&["obj_id", "ra", "dec", "u"]), row(&["1", "2"])];
    assert_eq!(
        stars_from_table(&table),
        Err(LoadError::BadValue { row: 0, field: Field::Dec, fault: Fault::Empty })
    );
}

#[test]
fn table_rows_become_stars_in_order() {
    let table = vec![
        row(&["dec", "ra", "obj_id"]),
        row(&["1", "2", "0x10"]),
        row(&["-1", "-2", "17"]),
    ];
    let stars = stars_from_table(&table).unwrap();
    assert_eq!(stars.len(), 2);
    assert_eq!((stars[0].obj_id, stars[0].ra, stars[0].dec), (16, 2_000_000, 1_000_000));
    assert_eq!((stars[1].obj_id, stars[1].ra, stars[1].dec), (17, -2_000_000, -1_000_000));
}

#[test]
fn lines_may_end_in_carriage_return_and_newline() {
    let stars = load_stars(b"#t\r\nobj_id,ra,dec,u\r\n1,2,3,\r\n4,5,6,7\r\n").unwrap();
    assert_eq!(stars.len(), 2);
    assert_eq!(stars[0].u, None);
    assert_eq!(stars[1].u, Some(7_000_000));
}

#[test]
fn last_row_needs_no_newline() {
    let stars = load_stars(b"#t\nobj_id,ra,dec\n1,2,3").unwrap();
    assert_eq!(stars.len(), 1);
    assert_eq!(stars[0].dec, 3_000_000);
}

#[test]
fn blank_lines_are_not_rows() {
    let stars = load_stars(b"#t\n\nobj_id,ra,dec\n\n1,2,3\n\n\n4,5,6\n\n").unwrap();
    assert_eq!(stars.iter().map(|s| s.obj_id).collect::<Vec<u64>>(), vec![1, 4]);
}

#[test]
fn values_are_not_trimmed() {
    assert_eq!(
        load_stars(b"#t\nobj_id,ra,dec\n1, 2,3\n"),
        Err(LoadError::BadValue { row: 0, field: Field::Ra, fault: Fault::Malformed })
    );
    assert_eq!(
        load_stars(b"#t\nobj_id, ra,dec\n1,2,3\n"),
        Err(LoadError::MissingColumn { field: Field::Ra })
    );
}

#[test]
fn loaded_stars_are_in_range() {
    let stars = load_stars(b"#t\nobj_id,ra,dec\n1,-1000,1000\n2,359.999999,-89.5\n").unwrap();
    assert!(stars.iter().all(|s| s.is_in_range()));
    assert_eq!(stars[1].ra, 359_999_999);
}
