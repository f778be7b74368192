use csv2json::convert::convert_csv_to_json;
use csv2json::csv_codec::decode_records;
use csv2json::csv_codec::parse_csv;
use csv2json::csv_codec::CsvError;
use csv2json::json::records_to_json;
use csv2json::record::Record;
use csv2json::record::FIELD_COUNT;

// The source table's literal column labels: they are both the JSON member
// names and the header cells of a well-formed input.
const KEYS: [&str; 17] = [
    "市町村コード",
    "都道府県名及び市町村名",
    "市町村内の番号",
    "施設・場所名",
    "住所",
    "洪水",
    "崖崩れ、土石流及び地滑り",
    "高潮",
    "地震",
    "津波",
    "大規模火事",
    "内水氾濫",
    "火山現象",
    "指定避難所との住所同一",
    "緯度",
    "経度",
    "備考",
];

fn header_row() -> String {
    KEYS.join(",")
}

fn data_row(tag: &str) -> String {
    let mut cells = Vec::new();
    for k in KEYS.iter() {
        cells.push(format!("{}-{}", tag, k));
    }
    cells.join(",")
}

#[test]
fn three_records() {
    let text = format!(
        "{}\n{}\n{}\n{}\n",
        header_row(),
        data_row("r1"),
        data_row("r2"),
        data_row("r3")
    );
    let recs = decode_records(&text).expect("three well-formed rows must decode");
    assert_eq!(recs.len(), 3);
    let json = records_to_json(&recs);
    let value: serde_json::Value = serde_json::from_str(&json).expect("output must be valid JSON");
    let arr = value.as_array().expect("output must be a JSON array");
    assert_eq!(arr.len(), 3);
    for (i, obj) in arr.iter().enumerate() {
        let map = obj.as_object().expect("each element must be an object");
        assert_eq!(map.len(), FIELD_COUNT);
        let tag = format!("r{}", i + 1);
        for (k, v) in map.iter() {
            assert_eq!(v.as_str().unwrap(), format!("{}-{}", tag, k));
        }
    }
}

#[test]
fn element_count_matches_retained_rows() {
    for n in 0..5 {
        let mut text = header_row();
        text.push('\n');
        for i in 0..n {
            text.push_str(&data_row(&format!("row{}", i)));
            text.push('\n');
        }
        let recs = decode_records(&text).unwrap();
        assert_eq!(recs.len(), n);
        let json = records_to_json(&recs);
        let value: serde_json::Value = serde_json::from_str(&json).unwrap();
        assert_eq!(value.as_array().unwrap().len(), n);
    }
}

#[test]
fn field_order_follows_schema() {
    let text = format!("{}\n{}\n", header_row(), data_row("x"));
    let json = convert_csv_to_json(&text).unwrap();
    let value: serde_json::Value = serde_json::from_str(&json).unwrap();
    let obj = value.as_array().unwrap()[0].as_object().unwrap();
    let seen: Vec<&str> = obj.keys().map(|k| k.as_str()).collect();
    assert_eq!(seen, KEYS.to_vec());
}

#[test]
fn field_order_ignores_header_text() {
    // A header with arbitrary labels changes nothing: columns map by
    // position, and the output keys come from the schema.
    let mut odd_header = Vec::new();
    for i in 0..17 {
        odd_header.push(format!("column{}", i));
    }
    let text = format!("{}\n{}\n", odd_header.join(","), data_row("y"));
    let json = convert_csv_to_json(&text).unwrap();
    let value: serde_json::Value = serde_json::from_str(&json).unwrap();
    let obj = value.as_array().unwrap()[0].as_object().unwrap();
    let seen: Vec<&str> = obj.keys().map(|k| k.as_str()).collect();
    assert_eq!(seen, KEYS.to_vec());
}

#[test]
fn empty_input_gives_empty_array() {
    assert_eq!(convert_csv_to_json("").unwrap(), "[]");
}

#[test]
fn header_only_gives_empty_array() {
    let text = format!("{}\n", header_row());
    assert_eq!(convert_csv_to_json(&text).unwrap(), "[]");
}

#[test]
fn blank_lines_are_skipped() {
    let text = format!("{}\n\n{}\n\r\n\n", header_row(), data_row("z"));
    let recs = decode_records(&text).unwrap();
    assert_eq!(recs.len(), 1);
    assert_eq!(recs[0].code, format!("z-{}", KEYS[0]));
}

#[test]
fn short_row_fails_whole_conversion() {
    let text = format!("{}\n{}\nonly,three,cells\n", header_row(), data_row("a"));
    assert_eq!(convert_csv_to_json(&text), Err(CsvError::FieldCount));
}

#[test]
fn long_row_fails_whole_conversion() {
    let text = format!("{}\n{},extra\n", header_row(), data_row("a"));
    assert_eq!(convert_csv_to_json(&text), Err(CsvError::FieldCount));
}

#[test]
fn unterminated_quote_fails() {
    let text = format!("{}\n\"unterminated,b,c\n", header_row());
    assert_eq!(convert_csv_to_json(&text), Err(CsvError::Syntax));
}

#[test]
fn stray_quote_fails() {
    let text = format!("{}\nab\"cd,e,f\n", header_row());
    assert_eq!(convert_csv_to_json(&text), Err(CsvError::Syntax));
}

#[test]
fn malformed_header_field_count_is_ignored() {
    // The header row is discarded whatever it holds, so its field count
    // does not matter.
    let text = format!("just,two\n{}\n", data_row("b"));
    let recs = decode_records(&text).unwrap();
    assert_eq!(recs.len(), 1);
    assert_eq!(recs[0].remarks, format!("b-{}", KEYS[16]));
}

#[test]
fn pretty_format_matches_reference_serializer() {
    let text = format!(
        "{}\n{}\n{}\n",
        header_row(),
        data_row("p"),
        "a,\"b,c\",\"say \"\"hi\"\"\",d,e,f,g,h,i,j,k,l,\"multi\nline\",m,n,o,p"
    );
    let recs = decode_records(&text).unwrap();
    let ours = records_to_json(&recs);

    let mut arr = Vec::new();
    for rec in recs.iter() {
        let mut map = serde_json::Map::new();
        for (i, key) in KEYS.iter().enumerate() {
            let fields = rec.to_fields();
            map.insert(
                key.to_string(),
                serde_json::Value::String(fields[i].clone()),
            );
        }
        arr.push(serde_json::Value::Object(map));
    }
    let reference = serde_json::to_string_pretty(&serde_json::Value::Array(arr)).unwrap();
    assert_eq!(ours, reference);
}

#[test]
fn empty_array_matches_reference_serializer() {
    let empty: Vec<Record> = Vec::new();
    let ours = records_to_json(&empty);
    let reference =
        serde_json::to_string_pretty(&serde_json::Value::Array(Vec::new())).unwrap();
    assert_eq!(ours, reference);
}

#[test]
fn json_escaping_survives_json_round_trip() {
    let tricky = vec![
        "plain".to_string(),
        "with \"quotes\"".to_string(),
        "back\\slash".to_string(),
        "new\nline".to_string(),
        "tab\there".to_string(),
        "carriage\rreturn".to_string(),
        "bell\u{7}and\u{1f}controls".to_string(),
        "\u{8}backspace\u{c}formfeed".to_string(),
        "日本語テキスト".to_string(),
        "emoji 🏠".to_string(),
        "".to_string(),
        "trailing space ".to_string(),
        " leading".to_string(),
        "comma, inside".to_string(),
        "35.6895".to_string(),
        "139.6917".to_string(),
        "remark".to_string(),
    ];
    let rec = Record::from_fields(&tricky);
    let json = records_to_json(&vec![rec]);
    let value: serde_json::Value = serde_json::from_str(&json).unwrap();
    let obj = value.as_array().unwrap()[0].as_object().unwrap();
    for (i, key) in KEYS.iter().enumerate() {
        assert_eq!(obj[*key].as_str().unwrap(), tricky[i]);
    }
}

#[test]
fn parser_agrees_with_reference_csv_reader() {
    let text = "a,\"b,c\",\"with \"\"quotes\"\"\",\"multi\nline\",e\nf,g,,i,\"j\"\n";
    let ours = parse_csv(text).expect("document must parse");
    let mut reader = csv::ReaderBuilder::new()
        .has_headers(false)
        .from_reader(text.as_bytes());
    let mut theirs: Vec<Vec<String>> = Vec::new();
    for rec in reader.records() {
        let rec = rec.unwrap();
        theirs.push(rec.iter().map(|f| f.to_string()).collect());
    }
    assert_eq!(ours, theirs);
}

#[test]
fn crlf_and_lf_terminators_agree_with_reference_csv_reader() {
    let text = "a,b\r\nc,d\ne,f\r\n";
    let ours = parse_csv(text).expect("document must parse");
    let mut reader = csv::ReaderBuilder::new()
        .has_headers(false)
        .from_reader(text.as_bytes());
    let mut theirs: Vec<Vec<String>> = Vec::new();
    for rec in reader.records() {
        let rec = rec.unwrap();
        theirs.push(rec.iter().map(|f| f.to_string()).collect());
    }
    assert_eq!(ours, theirs);
}

#[test]
fn earlier_field_count_fault_wins() {
    // A wrong-field-count row stands before a quoting fault: decoding stops
    // at the first faulty row, so the field count is reported.
    let text = format!("{}\nonly,three,cells\n\"unterminated\n", header_row());
    assert_eq!(convert_csv_to_json(&text), Err(CsvError::FieldCount));
}

#[test]
fn earlier_syntax_fault_wins() {
    // A quoting fault stands before a wrong-field-count row: the quoting
    // fault is reported.
    let text = format!("{}\nab\"cd,e,f\nonly,three,cells\n", header_row());
    assert_eq!(convert_csv_to_json(&text), Err(CsvError::Syntax));
}

#[test]
fn error_messages_name_the_fault() {
    assert!(CsvError::Syntax.message().contains("quoting"));
    assert!(CsvError::FieldCount.message().contains("field count"));
}
