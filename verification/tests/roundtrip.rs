use csv2json::csv_codec::decode_records;
use csv2json::csv_codec::encode_fields;
use csv2json::csv_codec::encode_record;
use csv2json::csv_codec::parse_csv;
use csv2json::record::Record;

fn tricky_values() -> Vec<String> {
    vec![
        "0001".to_string(),
        "City, Prefecture".to_string(),
        "12".to_string(),
        "Hall \"Main\"".to_string(),
        "1-2-3 Somewhere".to_string(),
        "".to_string(),
        "yes".to_string(),
        "no".to_string(),
        "multi\nline".to_string(),
        "crlf\r\nvalue".to_string(),
        "quote\"comma,mix".to_string(),
        "  padded  ".to_string(),
        "○".to_string(),
        "同上".to_string(),
        "35.6895".to_string(),
        "139.6917".to_string(),
        "end".to_string(),
    ]
}

#[test]
fn csv_round_trip_preserves_values() {
    let values = tricky_values();
    let row = encode_fields(&values);
    let rows = parse_csv(&row).expect("encoded row must parse");
    assert_eq!(rows.len(), 1);
    assert_eq!(rows[0], values);
}

#[test]
fn record_round_trip_through_document() {
    let values = tricky_values();
    let rec = Record::from_fields(&values);
    let mut doc = String::from("header line is discarded whatever it holds\n");
    doc.push_str(&encode_record(&rec));
    doc.push('\n');
    let recs = decode_records(&doc).expect("document must decode");
    assert_eq!(recs.len(), 1);
    assert_eq!(recs[0].to_fields(), values);
}

#[test]
fn encoder_agrees_with_reference_csv_writer() {
    let values = tricky_values();
    let ours = encode_fields(&values);

    let mut writer = csv::WriterBuilder::new()
        .has_headers(false)
        .terminator(csv::Terminator::Any(b'\n'))
        .from_writer(Vec::new());
    writer.write_record(&values).unwrap();
    let bytes = writer.into_inner().unwrap();
    let mut theirs = String::from_utf8(bytes).unwrap();
    // The reference writer ends the row with a terminator; the library
    // encodes the bare row.
    assert_eq!(theirs.pop(), Some('\n'));
    assert_eq!(ours, theirs);
}

#[test]
fn reference_csv_reader_reads_encoded_row() {
    let values = tricky_values();
    let row = encode_fields(&values);
    let mut reader = csv::ReaderBuilder::new()
        .has_headers(false)
        .from_reader(row.as_bytes());
    let mut theirs: Vec<Vec<String>> = Vec::new();
    for rec in reader.records() {
        let rec = rec.unwrap();
        theirs.push(rec.iter().map(|f| f.to_string()).collect());
    }
    assert_eq!(theirs, vec![values]);
}

#[test]
fn document_round_trip_preserves_rows() {
    let rows: Vec<Vec<String>> = vec![
        tricky_values(),
        (0..17).map(|i| format!("x{}", i)).collect(),
        vec!["".to_string(), "only two".to_string()],
    ];
    let mut doc = String::new();
    for row in &rows {
        doc.push_str(&encode_fields(row));
        doc.push('\n');
    }
    assert_eq!(parse_csv(&doc).expect("document must parse"), rows);
}

#[test]
fn plain_values_stay_unquoted() {
    let values: Vec<String> = (0..17).map(|i| format!("v{}", i)).collect();
    let row = encode_fields(&values);
    assert_eq!(
        row,
        "v0,v1,v2,v3,v4,v5,v6,v7,v8,v9,v10,v11,v12,v13,v14,v15,v16"
    );
}
