use linked_hash_map::LinkedHashMap;
use vcflib::header::{
    parse_column_names, parse_header_payload, parse_version, AltId, FormatType, HeaderLine,
    InfoType, Number, PedigreeType, OTHER_KEY,
};

fn text_map(pairs: &[(&str, &str)]) -> LinkedHashMap<String, String> {
    let mut m = LinkedHashMap::new();
    for (k, v) in pairs {
        m.insert(k.to_string(), v.to_string());
    }
    m
}

#[test]
fn test_payload_valid() {
    let line = "20100501";
    let expected = text_map(&[(OTHER_KEY, "20100501")]);
    let actual = parse_header_payload(line).unwrap();
    assert_eq!(actual, expected);

    let line = "<ID=TumourSample,Original=GermlineID>";
    let expected = text_map(&[("ID", "TumourSample"), ("Original", "GermlineID")]);
    let actual = parse_header_payload(line).unwrap();
    assert_eq!(actual, expected);

    let line = "<ID=SVTYPE,Description=\"Type of structural variant\">";
    let expected = text_map(&[("ID", "SVTYPE"), ("Description", "Type of structural variant")]);
    let actual = parse_header_payload(line).unwrap();
    assert_eq!(actual, expected);

    let line = "<ID=SVTYPE,Description=\"Type of \\\"structural\\\" variant\">";
    let expected = text_map(&[
        ("ID", "SVTYPE"),
        ("Description", "Type of \\\"structural\\\" variant"),
    ]);
    let actual = parse_header_payload(line).unwrap();
    assert_eq!(actual, expected);
}

#[test]
fn test_payload_invalid() {
    let line = "";
    let expected = "invalid header payload, (empty)";
    let actual = parse_header_payload(line).err().unwrap().to_string();
    assert_eq!(actual, expected);

    let line = "<ID=Tumour\"Sample>";
    let expected = "invalid header payload `ID=Tumour\"Sample`, (invalid character `\"` found)";
    let actual = parse_header_payload(line).err().unwrap().to_string();
    assert_eq!(actual, expected);

    let line = "<=TumourSample>";
    let expected = "invalid header payload `=TumourSample`, (empty key)";
    let actual = parse_header_payload(line).err().unwrap().to_string();
    assert_eq!(actual, expected);

    let line = "<ID=,Original=GermlineID>";
    let expected = "invalid header payload `ID=,Original=GermlineID`, (empty value)";
    let actual = parse_header_payload(line).err().unwrap().to_string();
    assert_eq!(actual, expected);

    let line = "<ID=>";
    let expected = "invalid header payload `ID=`, (empty value)";
    let actual = parse_header_payload(line).err().unwrap().to_string();
    assert_eq!(actual, expected);

    let line = "<ID=SVTYPE,Description=\"Type of structural variant>";
    let expected = "invalid header payload `ID=SVTYPE,Description=\"Type of structural variant`, (unbalanced quote)";
    let actual = parse_header_payload(line).err().unwrap().to_string();
    assert_eq!(actual, expected);
}

#[test]
fn test_version() {
    let line_str = "##fileformat=VCFv4.3";
    let actual_version = parse_version(line_str).unwrap();
    let expected_version = "VCFv4.3";
    assert_eq!(actual_version, expected_version);
}

#[test]
fn test_header_line_valid() {
    let line_str = "##INFO=<ID=BKPTID,Number=.,Type=String,Description=\"ID of the assembled alternate allele in the assembly file\">";
    let actual_header_line = HeaderLine::from_str(line_str).unwrap();
    let expected_header_line = HeaderLine::Info {
        id: "BKPTID".to_string(),
        number: Number::Unknown,
        typ: InfoType::String,
        description: "ID of the assembled alternate allele in the assembly file".to_string(),
        source: None,
        version: None,
    };
    assert_eq!(actual_header_line, expected_header_line);

    let line_str = "##FORMAT=<ID=CNQ,Number=1,Type=Float,Description=\"Copy number genotype quality for imprecise events\">";
    let actual_header_line = HeaderLine::from_str(line_str).unwrap();
    let expected_header_line = HeaderLine::Format {
        id: "CNQ".to_string(),
        number: Number::Integer(1),
        typ: FormatType::Float,
        description: "Copy number genotype quality for imprecise events".to_string(),
    };
    assert_eq!(actual_header_line, expected_header_line);

    let line_str = "##FILTER=<ID=s50,Description=\"Less than 50% of samples have data\">";
    let actual_header_line = HeaderLine::from_str(line_str).unwrap();
    let expected_header_line = HeaderLine::Filter {
        id: "s50".to_string(),
        description: "Less than 50% of samples have data".to_string(),
    };
    assert_eq!(actual_header_line, expected_header_line);

    let line_str = "##ALT=<ID=INS,Description=\"Insertion of novel sequence\">";
    let actual_header_line = HeaderLine::from_str(line_str).unwrap();
    let expected_header_line = HeaderLine::Alt {
        id: vec![AltId::INS],
        description: "Insertion of novel sequence".to_string(),
    };
    assert_eq!(actual_header_line, expected_header_line);

    let line_str = "##ALT=<ID=INS:ME:ALU,Description=\"Insertion of ALU element\">";
    let actual_header_line = HeaderLine::from_str(line_str).unwrap();
    let expected_header_line = HeaderLine::Alt {
        id: vec![
            AltId::INS,
            AltId::Other("ME".to_string()),
            AltId::Other("ALU".to_string()),
        ],
        description: "Insertion of ALU element".to_string(),
    };
    assert_eq!(actual_header_line, expected_header_line);

    let line_str = "##assembly=ftp://ftp-trace.ncbi.nih.gov/1000genomes";
    let actual_header_line = HeaderLine::from_str(line_str).unwrap();
    let expected_header_line =
        HeaderLine::Assembly("ftp://ftp-trace.ncbi.nih.gov/1000genomes".to_string());
    assert_eq!(actual_header_line, expected_header_line);

    let line_str = "##contig=<ID=20,length=62435964,assembly=B36,md5=f126cdf8a6e0c7f379d618ff66beb2da,species=\"Homo sapiens\",taxonomy=x>";
    let actual_header_line = HeaderLine::from_str(line_str).unwrap();
    let expected_header_line = HeaderLine::Contig {
        id: "20".to_string(),
        species: Some("Homo sapiens".to_string()),
        other: text_map(&[
            ("length", "62435964"),
            ("assembly", "B36"),
            ("md5", "f126cdf8a6e0c7f379d618ff66beb2da"),
            ("taxonomy", "x"),
        ]),
    };
    assert_eq!(actual_header_line, expected_header_line);

    let line_str = "##META=<ID=Assay,Type=String,Number=.,Values=[WholeGenome, Exome]>";
    let actual_header_line = HeaderLine::from_str(line_str).unwrap();
    let expected_header_line = HeaderLine::Meta {
        id: "Assay".to_string(),
        typ: "String".to_string(),
        number: Number::Unknown,
        values: vec!["WholeGenome".to_string(), "Exome".to_string()],
    };
    assert_eq!(actual_header_line, expected_header_line);

    let line_str = "##SAMPLE=<ID=Sample1,Description=\"Patient germline\">";
    let actual_header_line = HeaderLine::from_str(line_str).unwrap();
    let expected_header_line = HeaderLine::Sample {
        id: "Sample1".to_string(),
        meta: LinkedHashMap::default(),
        description: "Patient germline".to_string(),
        doi: None,
    };
    assert_eq!(actual_header_line, expected_header_line);

    let line_str = "##SAMPLE=<ID=TissueSample,Genomes=Germline;Tumor,Mixture=.3;.7,Description=\"Patient germline genome;Patient tumor genome\",DOI=url>";
    let actual_header_line = HeaderLine::from_str(line_str).unwrap();
    let mut meta = LinkedHashMap::new();
    meta.insert(
        "Genomes".to_string(),
        vec!["Germline".to_string(), "Tumor".to_string()],
    );
    meta.insert("Mixture".to_string(), vec![".3".to_string(), ".7".to_string()]);
    let expected_header_line = HeaderLine::Sample {
        id: "TissueSample".to_string(),
        meta,
        description: "Patient germline genome;Patient tumor genome".to_string(),
        doi: Some("url".to_string()),
    };
    assert_eq!(actual_header_line, expected_header_line);

    let line_str = "##PEDIGREE=<ID=TumourSample,Original=GermlineID>";
    let actual_header_line = HeaderLine::from_str(line_str).unwrap();
    let expected_header_line = HeaderLine::Pedigree {
        id: "TumourSample".to_string(),
        relation: PedigreeType::Original("GermlineID".to_string()),
    };
    assert_eq!(actual_header_line, expected_header_line);

    let line_str = "##PEDIGREE=<ID=ChildID,Father=FatherID,Mother=MotherID>";
    let actual_header_line = HeaderLine::from_str(line_str).unwrap();
    let expected_header_line = HeaderLine::Pedigree {
        id: "ChildID".to_string(),
        relation: PedigreeType::Parents {
            father_id: "FatherID".to_string(),
            mother_id: "MotherID".to_string(),
        },
    };
    assert_eq!(actual_header_line, expected_header_line);

    let line_str =
        "##PEDIGREE=<ID=SampleID,Name_1=Ancestor_1,Name_2=Ancestor_2,Name_3=Ancestor_3>";
    let actual_header_line = HeaderLine::from_str(line_str).unwrap();
    let expected_header_line = HeaderLine::Pedigree {
        id: "SampleID".to_string(),
        relation: PedigreeType::Ancestors(vec![
            "Ancestor_1".to_string(),
            "Ancestor_2".to_string(),
            "Ancestor_3".to_string(),
        ]),
    };
    assert_eq!(actual_header_line, expected_header_line);

    let line_str = "##pedigreeDB=URL";
    let actual_header_line = HeaderLine::from_str(line_str).unwrap();
    let expected_header_line = HeaderLine::PedigreeDB("URL".to_string());
    assert_eq!(actual_header_line, expected_header_line);

    let line_str = "##fileDate=20100501";
    let actual_header_line = HeaderLine::from_str(line_str).unwrap();
    let expected_header_line = HeaderLine::FileDate("20100501".to_string());
    assert_eq!(actual_header_line, expected_header_line);
}

#[test]
fn test_column_names() {
    let line_str = "#CHROM\tPOS\tID\tREF\tALT\tQUAL\tFILTER\tINFO\tFORMAT\tNA00001\tNA00002\tNA00003";
    let actual_version = parse_column_names(line_str).unwrap();
    let expected_version = vec![
        "NA00001".to_string(),
        "NA00002".to_string(),
        "NA00003".to_string(),
    ];
    assert_eq!(actual_version, expected_version);

    // missing format column
    let line_str = "#CHROM\tPOS\tID\tREF\tALT\tQUAL\tFILTER\tINFO\tNA00001\tNA00002\tNA00001";
    let actual_version = parse_column_names(line_str);
    assert!(actual_version.is_err());

    // repeated sample name
    let line_str = "#CHROM\tPOS\tID\tREF\tALT\tQUAL\tFILTER\tINFO\tFORMAT\tNA00001\tNA00002\tNA00001";
    let actual_version = parse_column_names(line_str);
    assert!(actual_version.is_err());
}
