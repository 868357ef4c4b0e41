use vcflib::body::DataLine;

#[test]
fn test_valid() {
    // single sample
    let column_names = vec!["Sample01".to_string()];
    let line_str =
        "1\t10177\t.\tA\tAC\t.\tLOWCONF\t.\tGT:RC:AC:GP:DS\t0/1:0:0:0.199096,0.522516,0.278389:1.07929";
    let actual_line = DataLine::new(line_str, &column_names);
    assert!(actual_line.is_ok());

    // two samples
    let column_names = vec!["Sample01".to_string(), "Sample02".to_string()];
    let line_str =
        "1\t10177\t.\tA\tAC\t.\tLOWCONF\t.\tGT:RC:AC:GP:DS\t0/1:0:0:0.199096,0.522516,0.278389:1.07929\t0/0:0:0:1,1e-10,1e-10:3e-10";
    let actual_line = DataLine::new(line_str, &column_names);
    println!("{:?}", actual_line);
    assert!(actual_line.is_ok());
}

#[test]
fn test_invalid() {
    // missing column
    let column_names = vec!["Sample01".to_string()];
    let line_str = "1\t10177\t.\tA\tAC\t.\tLOWCONF\t.\tGT:RC:AC:GP:DS";
    let actual_line = DataLine::new(line_str, &column_names);
    println!("{:?}", actual_line);
    assert!(actual_line.is_err());
}
