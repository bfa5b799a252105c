use rt::input::objparser::{err, get_elements, parse_face, parse_u32};

#[test]
fn parse_face_reads_three_triples() {
    let line = vec!["1/2/3", "4/5/6", "7/8/9"];
    let (v, t, n) = parse_face(line).unwrap();
    assert_eq!(v, (1, 4, 7));
    assert_eq!(t, (2, 5, 8));
    assert_eq!(n, (3, 6, 9));
}

#[test]
fn parse_face_empty_texture_defaults_to_zero() {
    let line = vec!["1//3", "4//6", "7//9"];
    let (v, t, n) = parse_face(line).unwrap();
    assert_eq!(v, (1, 4, 7));
    assert_eq!(t, (0, 0, 0));
    assert_eq!(n, (3, 6, 9));
}

#[test]
fn parse_face_wrong_element_count() {
    let msg = parse_face(vec!["1/1/1", "2/2/2"]).unwrap_err();
    assert_eq!(msg, "Expected 3 elements but got 2");
}

#[test]
fn parse_face_too_many_parts() {
    let msg = parse_face(vec!["1/1/1/1", "2/2/2", "3/3/3"]).unwrap_err();
    assert_eq!(msg, "Face data contains more than 3 elements");
}

#[test]
fn parse_face_missing_parts() {
    let msg = parse_face(vec!["1", "2/2/2", "3/3/3"]).unwrap_err();
    assert_eq!(msg, "Expected texture coordinate data");

    let msg = parse_face(vec!["1/1", "2/2/2", "3/3/3"]).unwrap_err();
    assert_eq!(msg, "Expected normal data");
}

#[test]
fn parse_face_bad_numbers() {
    let msg = parse_face(vec!["x/1/1", "2/2/2", "3/3/3"]).unwrap_err();
    assert_eq!(msg, "invalid digit found in string");

    let msg = parse_face(vec!["99999999999/1/1", "2/2/2", "3/3/3"]).unwrap_err();
    assert_eq!(msg, "number too large to fit in target type");
}

#[test]
fn parse_u32_matches_std() {
    for s in ["0", "42", "+17", "4294967295", "4294967296", "-0", "-5", "", "+", "1x"] {
        let ours = parse_u32(s);
        let std_result = s.parse::<u32>();
        match (ours, std_result) {
            (Ok(a), Ok(b)) => assert_eq!(a, b, "value for {:?}", s),
            (Err(m), Err(e)) => assert_eq!(m, e.to_string(), "message for {:?}", s),
            (a, b) => panic!("mismatch for {:?}: {:?} vs {:?}", s, a, b),
        }
    }
}

#[test]
fn get_elements_picks_by_one_based_index() {
    let data = [10u32, 20, 30];
    let got = get_elements(&data, (1, 3, 2)).unwrap();
    assert_eq!(got, [10, 30, 20]);
}

#[test]
fn get_elements_rejects_bad_indices() {
    let data = [10u32, 20, 30];
    let msg = get_elements(&data, (0, 1, 2)).unwrap_err();
    assert_eq!(msg, "Invalid index 0 for face data");

    let msg = get_elements(&data, (1, 4, 2)).unwrap_err();
    assert_eq!(msg, "Invalid index 4 for face data");
}

#[test]
fn err_counts_lines_from_one() {
    let e = err(4, "boom");
    assert_eq!(e.title(), "Error on line 5");
    assert_eq!(e.message(), "boom");
}

#[test]
fn parse_face_accepts_plus_signs() {
    let line = vec!["+1/+2/+3", "4/5/6", "7/8/9"];
    let (v, t, n) = parse_face(line).unwrap();
    assert_eq!(v, (1, 4, 7));
    assert_eq!(t, (2, 5, 8));
    assert_eq!(n, (3, 6, 9));
}
