use linked_hash_map::LinkedHashMap;
use vcflib::body::{DataLine, FilterType, FormatType, IdType, QualType, SampleType};
use vcflib::error::ErrorKind;
use vcflib::header::{parse_column_names, parse_header_payload, HeaderLine};
use vcflib::parser::{HeaderBuilder, LineEvent, VCFReader, VCFWriter};

fn pairs(m: &LinkedHashMap<String, String>) -> Vec<(String, String)> {
    m.iter().map(|(k, v)| (k.clone(), v.clone())).collect()
}

fn owned(v: &[(&str, &str)]) -> Vec<(String, String)> {
    v.iter().map(|(k, v)| (k.to_string(), v.to_string())).collect()
}

#[test]
fn payload_with_two_pairs() {
    let m = parse_header_payload("<ID=TumourSample,Original=GermlineID>").unwrap();
    assert_eq!(pairs(&m), owned(&[("ID", "TumourSample"), ("Original", "GermlineID")]));
}

#[test]
fn payload_keeps_escaped_quotes() {
    let m = parse_header_payload("<ID=SVTYPE,Description=\"Type of \\\"structural\\\" variant\">")
        .unwrap();
    assert_eq!(m.get("Description").unwrap(), "Type of \\\"structural\\\" variant");
    assert_eq!(m.len(), 2);
}

#[test]
fn payload_later_key_replaces_and_moves_last() {
    let m = parse_header_payload("<A=1,B=2,A=3>").unwrap();
    assert_eq!(pairs(&m), owned(&[("B", "2"), ("A", "3")]));
}

#[test]
fn payload_bracketed_and_trailing_text() {
    let m = parse_header_payload("<Values=[a, b],X=\"q\",end>").unwrap();
    assert_eq!(pairs(&m), owned(&[("Values", "a, b"), ("X", "q")]));
    let m = parse_header_payload("<A=1,>").unwrap();
    assert_eq!(pairs(&m), owned(&[("A", "1")]));
}

#[test]
fn payload_errors() {
    let e = parse_header_payload("<A=1").unwrap_err();
    assert_eq!(e.kind, ErrorKind::UnbalancedBrackets);
    assert_eq!(e.to_string(), "invalid header payload `<A=1`, (unbalanced triangle brackets)");
    let e = parse_header_payload("<A=\"x\"y>").unwrap_err();
    assert_eq!(e.kind, ErrorKind::TextAfterQuote);
    let e = parse_header_payload("<A=[x>").unwrap_err();
    assert_eq!(e.kind, ErrorKind::UnbalancedQuote);
    let e = parse_header_payload("<>").unwrap_err();
    assert_eq!(e.kind, ErrorKind::EmptyPayload);
}

#[test]
fn header_lines_write_back() {
    let lines = [
        "##FILTER=<ID=q10,Description=\"Quality below 10\">",
        "##FORMAT=<ID=GT,Number=1,Type=String,Description=\"Genotype\">",
        "##INFO=<ID=DP,Number=1,Type=Integer,Description=\"Total Depth\",Source=\"dbsnp\",Version=\"138\">",
        "##INFO=<ID=AF,Number=A,Type=Float,Description=\"Allele \\\"Frequency\\\"\">",
        "##fileDate=20090805",
        "##reference=file:///seq/references/1000GenomesPilot-NCBI36.fasta",
        "##PEDIGREE=<ID=ChildID,Father=FatherID,Mother=MotherID>",
        "##PEDIGREE=<ID=TumourSample,Original=GermlineID>",
        "##ALT=<ID=DEL:ME:ALU,Description=\"Deletion of ALU element\">",
        "##contig=<ID=20,species=\"Homo sapiens\",length=62435964,assembly=B36>",
        "##SAMPLE=<ID=S1,Genomes=Germline;Tumor,Description=\"Patient\",DOI=url>",
    ];
    for line in lines.iter() {
        let h = HeaderLine::from_str(line).unwrap();
        let text = h.to_string();
        assert_eq!(&text, line);
        assert_eq!(HeaderLine::from_str(&text).unwrap(), h);
    }
}

#[test]
fn meta_line_is_written_without_its_values() {
    let h = HeaderLine::from_str("##META=<ID=Assay,Type=String,Number=.,Values=[WholeGenome, Exome]>")
        .unwrap();
    assert_eq!(h.to_string(), "##META=<ID=Assay,Type=String,Number=.>");
    let e = HeaderLine::from_str(&h.to_string()).unwrap_err();
    assert_eq!(e.kind, ErrorKind::ValueNotFound);
    assert_eq!(e.subject, "Values");
}

#[test]
fn ancestors_line_is_written_without_separators() {
    let h = HeaderLine::from_str("##PEDIGREE=<ID=S,Name_2=B,Name_1=A>").unwrap();
    assert_eq!(h.to_string(), "##PEDIGREE=<ID=S,Name_0=AName_1=B>");
}

#[test]
fn header_line_errors() {
    assert_eq!(HeaderLine::from_str("##foo").unwrap_err().kind, ErrorKind::MissingEquals);
    assert_eq!(HeaderLine::from_str("#foo=bar").unwrap_err().kind, ErrorKind::MissingHashes);
    let e = HeaderLine::from_str("##FILTER=<ID=x>").unwrap_err();
    assert_eq!(e.kind, ErrorKind::ValueNotFound);
    assert_eq!(e.subject, "Description");
    let e = HeaderLine::from_str("##INFO=<ID=x,Number=many,Description=\"d\">").unwrap_err();
    assert_eq!(e.kind, ErrorKind::InvalidNumber);
    assert_eq!(e.to_string(), "invalid Number value `many`");
    let e = HeaderLine::from_str("##INFO=<ID=x,Type=Text,Description=\"d\">").unwrap_err();
    assert_eq!(e.kind, ErrorKind::InvalidInfoType);
    let e = HeaderLine::from_str("##FORMAT=<ID=x,Type=Flag,Description=\"d\">").unwrap_err();
    assert_eq!(e.kind, ErrorKind::InvalidFormatType);
    let e = HeaderLine::from_str("##ALT=<ID=INS::ME,Description=\"d\">").unwrap_err();
    assert_eq!(e.kind, ErrorKind::EmptyAltId);
    let e = HeaderLine::from_str("##PEDIGREE=<ID=x,Name_1=a,Other=b>").unwrap_err();
    assert_eq!(e.kind, ErrorKind::InvalidPedigreeName);
    assert_eq!(e.subject, "Other");
    let e = HeaderLine::from_str("##PEDIGREE=<ID=x,Foo=a>").unwrap_err();
    assert_eq!(e.kind, ErrorKind::InvalidPedigree);
    let e = HeaderLine::from_str("##PEDIGREE=<ID=x,Father=a>").unwrap_err();
    assert_eq!(e.kind, ErrorKind::ValueNotFound);
    let e = HeaderLine::from_str("##META=<ID=x,Type=String,Number=.>").unwrap_err();
    assert_eq!(e.kind, ErrorKind::ValueNotFound);
}

#[test]
fn header_line_values() {
    let h = HeaderLine::from_str("##INFO=<ID=X,Number=+7,Description=\"d\">").unwrap();
    assert_eq!(h.to_string(), "##INFO=<ID=X,Number=7,Type=String,Description=\"d\">");
    let h = HeaderLine::from_str("##META=<ID=A,Type=String,Number=2,Values=[ a ,b,\tc ]>").unwrap();
    match h {
        HeaderLine::Meta { values, .. } => assert_eq!(values, vec!["a", "b", "c"]),
        _ => panic!("not a META line"),
    }
    let h = HeaderLine::from_str("##PEDIGREE=<ID=S,Name_10=J,Name_1=A,Name_2=B>").unwrap();
    match h {
        HeaderLine::Pedigree { relation, .. } => assert_eq!(
            relation,
            vcflib::header::PedigreeType::Ancestors(vec!["A".to_string(), "J".to_string(), "B".to_string()])
        ),
        _ => panic!("not a PEDIGREE line"),
    }
}

#[test]
fn column_line_with_two_samples() {
    let names = parse_column_names(
        "#CHROM\tPOS\tID\tREF\tALT\tQUAL\tFILTER\tINFO\tFORMAT\tNA00001\tNA00002",
    )
    .unwrap();
    assert_eq!(names, vec!["NA00001", "NA00002"]);
    let e = parse_column_names(
        "#CHROM\tPOS\tID\tREF\tALT\tQUAL\tFILTER\tINFO\tFORMAT\tNA00001\tNA00002\tNA00002",
    )
    .unwrap_err();
    assert_eq!(e.kind, ErrorKind::DuplicateSampleName);
    assert_eq!(e.subject, "NA00002");
}

#[test]
fn column_line_without_samples_and_errors() {
    let names = parse_column_names("#CHROM\tPOS\tID\tREF\tALT\tQUAL\tFILTER\tINFO").unwrap();
    assert!(names.is_empty());
    let e = parse_column_names("#CHROM\tPOS\tID\tREF\tALT\tQUAL\tFILTER\tINFO\r").unwrap_err();
    assert_eq!(e.kind, ErrorKind::UnexpectedColumn);
    let e = parse_column_names("#CHROM\tPOS").unwrap_err();
    assert_eq!(e.kind, ErrorKind::InvalidColumnsLine);
    let e = parse_column_names("#CHROM\tPOS\tID\tREF\tALT\tQUAL\tFILTER\tINFO\tNA1").unwrap_err();
    assert_eq!(e.kind, ErrorKind::UnexpectedColumn);
    assert_eq!(vcflib::header::parse_version("#fileformat=VCFv4.3").unwrap_err().kind,
        ErrorKind::InvalidVersionLine);
}

#[test]
fn column_line_format_must_be_exact() {
    let e = parse_column_names("#CHROM\tPOS\tID\tREF\tALT\tQUAL\tFILTER\tINFO\tFORMAT").unwrap_err();
    assert_eq!(e.kind, ErrorKind::EmptyField);
    assert_eq!(e.to_string(), "sample name cannot be empty");
    let e = parse_column_names("#CHROM\tPOS\tID\tREF\tALT\tQUAL\tFILTER\tINFO\tFORMAT\t").unwrap_err();
    assert_eq!(e.kind, ErrorKind::EmptyField);
    let e = parse_column_names("#CHROM\tPOS\tID\tREF\tALT\tQUAL\tFILTER\tINFO\tFORMATxyz\tA").unwrap_err();
    assert_eq!(e.kind, ErrorKind::UnexpectedColumn);
    let names =
        parse_column_names("#CHROM\tPOS\tID\tREF\tALT\tQUAL\tFILTER\tINFO\tFORMAT\t a").unwrap();
    assert_eq!(names, vec![" a"]);
}

#[test]
fn empty_id_token_is_an_error() {
    let none: Vec<String> = vec![];
    let e = DataLine::new("1\t1\ta;;b\tA\tC\t.\tPASS\t.", &none).unwrap_err();
    assert_eq!(e.kind, ErrorKind::EmptyField);
    assert_eq!(e.to_string(), "id cannot be empty");
    assert!(IdType::from_str("a;").is_err());
    assert_eq!(IdType::from_str("a;b").unwrap(), IdType::Entries(vec!["a".to_string(), "b".to_string()]));
}

#[test]
fn column_count_mismatch_names_both_counts() {
    let one = vec!["S1".to_string()];
    let e = DataLine::new("1\t10177\t.\tA\tAC\t.\tLOWCONF\t.\tGT:RC:AC:GP:DS", &one).unwrap_err();
    assert_eq!(e.kind, ErrorKind::ColumnCount { expected: 10, found: 9 });
    assert_eq!(e.to_string(), "invalid number of columns found, expected 10, found 9");

    let none: Vec<String> = vec![];
    let e = DataLine::new("1\t1\t.\tA\tC\t.\tPASS\t.\tGT", &none).unwrap_err();
    assert_eq!(e.kind, ErrorKind::ColumnCount { expected: 8, found: 9 });

    let three = vec!["A".to_string(), "B".to_string(), "C".to_string()];
    let e = DataLine::new("1\t1\t.\tA\tC\t.\tPASS\t.\tGT\t0\t1", &three).unwrap_err();
    assert_eq!(e.kind, ErrorKind::ColumnCount { expected: 12, found: 11 });
}

#[test]
fn data_line_fields() {
    let names = vec!["S1".to_string(), "S2".to_string()];
    let d = DataLine::new("20\t14370\trs6054257;x\tG\tA,T\t29\tq10;s50\tNS=3;DP=14\tGT:GQ\t0|0:48\t.", &names)
        .unwrap();
    assert_eq!(d.position, 14370);
    assert_eq!(d.id, IdType::Entries(vec!["rs6054257".to_string(), "x".to_string()]));
    assert_eq!(d.quality, QualType::Integer(29));
    assert_eq!(d.filter, FilterType::Entries(vec!["q10".to_string(), "s50".to_string()]));
    assert_eq!(d.format, Some(FormatType::Entries(vec!["GT".to_string(), "GQ".to_string()])));
    assert_eq!(d.samples[1], SampleType::Missing);
    assert_eq!(d.to_string(), "20\t14370\trs6054257;x\tG\tA,T\t29\tq10;s50\tNS=3;DP=14\tGT:GQ\t0|0:48\t.");
    let none: Vec<String> = vec![];
    let d = DataLine::new("1\t+5\t.\tA\t.\t.\tPASS\t.", &none).unwrap();
    assert_eq!(d.position, 5);
    assert_eq!(d.filter, FilterType::Pass);
    assert_eq!(d.format, None);
    assert_eq!(d.to_string(), "1\t5\t.\tA\t.\t.\tPASS\t.");
}

#[test]
fn data_line_errors() {
    let none: Vec<String> = vec![];
    let e = DataLine::new("1\tabc\t.\tA\tC\t.\tPASS\t.", &none).unwrap_err();
    assert_eq!(e.kind, ErrorKind::InvalidInteger);
    assert_eq!(e.subject, "abc");
    let e = DataLine::new("1\t1\t\tA\tC\t.\tPASS\t.", &none).unwrap_err();
    assert_eq!(e.kind, ErrorKind::EmptyField);
    assert_eq!(e.to_string(), "id cannot be empty");
    let e = DataLine::new("1\t1\t.\tA\tC\t4294967296\tPASS\t.", &none).unwrap_err();
    assert_eq!(e.kind, ErrorKind::InvalidInteger);
    let one = vec!["S".to_string()];
    let e = DataLine::new("1\t1\t.\tA\tC\t.\tPASS\t.\tGT\t", &one).unwrap_err();
    assert_eq!(e.to_string(), "sample cannot be empty");
}

#[test]
fn format_index_of_parsed_line() {
    let names = vec!["S1".to_string()];
    let d = DataLine::new("1\t1\t.\tA\tC\t.\tPASS\t.\tGT:RC:AC\t0/1:0:0", &names).unwrap();
    assert_eq!(d.format_index("GT"), Some(0));
    assert_eq!(d.format_index("AC"), Some(2));
    assert_eq!(d.format_index("DP"), None);
    let d = DataLine::new("1\t1\t.\tA\tC\t.\tPASS\t.\t.\t.", &names).unwrap();
    assert_eq!(d.format_index("GT"), None);
    let none: Vec<String> = vec![];
    let d = DataLine::new("1\t1\t.\tA\tC\t.\tPASS\t.", &none).unwrap();
    assert_eq!(d.format_index("GT"), None);
}

fn read_all(text: &str) -> (vcflib::header::Header, Vec<DataLine>) {
    let mut lines = text.split_inclusive('\n');
    let mut builder = HeaderBuilder::new();
    while !builder.complete {
        match lines.next() {
            Some(l) => builder.read_line(l).unwrap(),
            None => break,
        }
    }
    let header = builder.into_header();
    let reader = VCFReader::new(header.column_names.clone());
    let mut data = vec![];
    loop {
        let event = match lines.next() {
            Some(l) => LineEvent::Line(l.to_string()),
            None => LineEvent::End,
        };
        match reader.next_item(event) {
            Some(r) => data.push(r.unwrap()),
            None => break,
        }
    }
    (header, data)
}

#[test]
fn minimal_file_round_trip() {
    let text = "##fileformat=VCFv4.3\n\
##INFO=<ID=DP,Number=1,Type=Integer,Description=\"Total Depth\">\n\
##FILTER=<ID=q10,Description=\"Quality below 10\">\n\
#CHROM\tPOS\tID\tREF\tALT\tQUAL\tFILTER\tINFO\tFORMAT\tNA00001\n\
20\t14370\trs6054257\tG\tA\t29\tPASS\tDP=14\tGT\t0|0\n";
    let (header, data) = read_all(text);
    assert_eq!(header.version.value, "VCFv4.3");
    assert_eq!(header.header_lines.len(), 2);
    assert_eq!(header.column_names, vec!["NA00001"]);
    assert_eq!(data.len(), 1);

    let mut writer = VCFWriter::new(&header);
    for d in data.iter() {
        writer.write_data_line(d);
    }
    let written = writer.take_pending();
    assert_eq!(written, text.trim_end_matches('\n'));
    assert!(writer.pending.is_empty());

    let (header2, data2) = read_all(&written);
    assert_eq!(header2.version.value, header.version.value);
    assert_eq!(header2.header_lines, header.header_lines);
    assert_eq!(header2.column_names, header.column_names);
    assert_eq!(data2, data);
}

#[test]
fn header_block_errors_and_events() {
    let mut b = HeaderBuilder::new();
    let e = b.read_line("20\t1\t.\tA\tC\t.\tPASS\t.\n").unwrap_err();
    assert_eq!(e.kind, ErrorKind::InvalidHeaderLine);
    assert!(b.header_lines.is_empty());
    let reader = VCFReader::new(vec![]);
    assert!(reader.next_item(LineEvent::End).is_none());
    let e = reader.next_item(LineEvent::Failed("disk".to_string())).unwrap().unwrap_err();
    assert_eq!(e.kind, ErrorKind::Io);
    assert_eq!(e.to_string(), "Could not read: `disk`");
}

#[test]
fn writer_without_samples() {
    let header = vcflib::header::Header::new("VCFv4.2".to_string(), vec![], vec![]);
    let w = VCFWriter::new(&header);
    assert_eq!(w.pending, "##fileformat=VCFv4.2\n#CHROM\tPOS\tID\tREF\tALT\tQUAL\tFILTER\tINFO");
}
