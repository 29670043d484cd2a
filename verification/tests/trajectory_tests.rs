use double_pendulum::trajectory::{
    contains_chars, frame_indices, is_header_line, parsed_field_positions, record_columns,
    split_fields, trajectory_columns, RECORD_FIELDS,
};

#[test]
fn splits_on_commas() {
    assert_eq!(split_fields("a,b,,c"), vec!["a", "b", "", "c"]);
    assert_eq!(split_fields(""), vec![""]);
    assert_eq!(split_fields(","), vec!["", ""]);
    assert_eq!(split_fields("0.5, 1.25 ,x"), vec!["0.5", " 1.25 ", "x"]);
}

#[test]
fn splitting_agrees_with_str_split() {
    for line in ["t,theta1,omega1,theta2,omega2,energy", "1,2,3", ",,", "é,ü", "no commas"] {
        let expected: Vec<String> = line.split(',').map(|s| s.to_string()).collect();
        assert_eq!(split_fields(line), expected);
    }
}

#[test]
fn split_fields_join_back() {
    let line = "0.001,1.5707963267948966,-0.0098,1.5807963267948966,0.0,-29.43";
    let fields = split_fields(line);
    assert_eq!(fields.join(","), line);
    assert!(fields.iter().all(|f| !f.contains(',')));
}

#[test]
fn finds_text() {
    let s: Vec<char> = "t,theta1,omega1".chars().collect();
    let p: Vec<char> = "theta1".chars().collect();
    let q: Vec<char> = "theta2".chars().collect();
    let e: Vec<char> = Vec::new();
    assert!(contains_chars(&s, &p));
    assert!(!contains_chars(&s, &q));
    assert!(contains_chars(&s, &e));
    assert!(!contains_chars(&e, &p));
}

#[test]
fn recognises_the_header() {
    let header = trajectory_columns().join(",");
    assert_eq!(header, "t,theta1,omega1,theta2,omega2,energy");
    assert!(is_header_line(0, &header));
    assert!(!is_header_line(1, &header));
    assert!(!is_header_line(0, "0.0,1.5707963267948966,0,1.5807963267948966,0,-29.43"));
    assert!(!is_header_line(0, "theta"));
}

#[test]
fn positions_of_parsed_fields() {
    assert_eq!(parsed_field_positions(&vec![true, false, true, true]), vec![0, 2, 3]);
    assert_eq!(parsed_field_positions(&vec![false, false]), Vec::<usize>::new());
    assert_eq!(parsed_field_positions(&vec![]), Vec::<usize>::new());
}

#[test]
fn a_record_needs_six_numbers() {
    assert_eq!(RECORD_FIELDS, 6);
    assert_eq!(record_columns(&vec![true; 6]), Some(vec![0, 1, 2, 3, 4, 5]));
    assert_eq!(record_columns(&vec![true; 5]), None);
    assert_eq!(
        record_columns(&vec![false, true, true, false, true, true, true, true, true]),
        Some(vec![1, 2, 4, 5, 6, 7])
    );
    assert_eq!(record_columns(&vec![false; 6]), None);
}

#[test]
fn header_line_is_no_record() {
    let ok: Vec<bool> = split_fields("t,theta1,omega1,theta2,omega2,energy")
        .iter()
        .map(|f| f.trim().parse::<f64>().is_ok())
        .collect();
    assert_eq!(record_columns(&ok), None);
}

#[test]
fn draws_every_tenth_record() {
    assert_eq!(frame_indices(25, 10), vec![0, 10, 20]);
    assert_eq!(frame_indices(20, 10), vec![0, 10]);
    assert_eq!(frame_indices(21, 10), vec![0, 10, 20]);
    assert_eq!(frame_indices(0, 10), Vec::<usize>::new());
    assert_eq!(frame_indices(3, 1), vec![0, 1, 2]);
    let expected: Vec<usize> = (0..57).step_by(10).collect();
    assert_eq!(frame_indices(57, 10), expected);
}
