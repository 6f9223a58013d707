use cica::header::detect_header;
use cica::literal::reads_as_number;

#[test]
fn reads_as_number_agrees_with_the_standard_parser() {
    let cases = [
        "", "0", "1", "-1", "+1", "3.14", "-3.14", "2.5E10", "2.5e-10", "2.5e+10", "5.", ".5",
        ".", "+", "-", "+.", "e5", "1e", "1e+", "1e-", "1e5", "1E5", "1.e5", ".5e5", ".e5",
        "1.2.3", "1e5.0", "1e5e5", "inf", "-inf", "+infinity", "Infinity", "INF", "iNf",
        "infinit", "infinityy", "nan", "NaN", "-nan", "+NAN", "nana", "na", " 1", "1 ", "1 2",
        "x", "0x10", "1_000", "1,5", "--1", "+-1", "1f", "1.0f32", "١", "1e٥", "００", "é",
        "00012", "0.000000000000000000000000000000000000000000000001", "1e400", "-1e-400",
        "123456789012345678901234567890", "i", "in", "n", "infinitY", "NAN ", "e", "E5", "5e5e",
    ];
    for s in cases {
        assert_eq!(reads_as_number(s), s.parse::<f32>().is_ok(), "{:?}", s);
    }
}

#[test]
fn a_table_that_starts_with_names_has_a_header() {
    assert!(detect_header("x,y,z,w\n1,2,3,4\n"));
    assert!(detect_header("x,y,z\n"));
    assert!(detect_header("  name , 1, 2\n"));
    assert!(detect_header(",1,2\n"));
}

#[test]
fn a_table_that_starts_with_numbers_has_no_header() {
    assert!(!detect_header("1,2,3,4\n5,6,7,8\n"));
    assert!(!detect_header("1.5"));
    assert!(!detect_header("  -0.25 ,b,c"));
    assert!(!detect_header("1e3,x,y,z\r\n"));
    assert!(!detect_header("inf,0,0"));
    assert!(!detect_header("nan"));
}

#[test]
fn empty_lines_and_comments_are_passed_over() {
    assert!(detect_header("# points\n\n   \nx,y,z\n1,2,3\n"));
    assert!(!detect_header("# x,y,z\n\r\n  # more\n 1,2,3\nx,y,z\n"));
    assert!(!detect_header("#x\n#y\n0"));
    assert!(detect_header("\n\n\nx"));
}

#[test]
fn a_table_without_a_record_has_no_header() {
    assert!(!detect_header(""));
    assert!(!detect_header("\n"));
    assert!(!detect_header("   \n\t\n"));
    assert!(!detect_header("# only a comment"));
    assert!(!detect_header("# a\n# b\n"));
}
