use chunkmeter::config::SessionConfig;
use chunkmeter::receiver::ReceiverSession;
use chunkmeter::record::ChunkRecord;
use chunkmeter::table::{header_vec, parse_table, render_table};

const HEADER: &str = "chunk_index,download_time_seconds,effective_data_rate_bps\n";

fn session_records(durations_nanos: &[u64]) -> Vec<ChunkRecord> {
    let config = SessionConfig::reference();
    let mut session = ReceiverSession::new(config);
    for &d in durations_nanos {
        session.record_chunk(d);
    }
    session.records
}

#[test]
fn header_row_names_the_columns() {
    assert_eq!(header_vec(), HEADER.as_bytes().to_vec());
}

#[test]
fn rendered_table_has_expected_shape() {
    let records = session_records(&[100_000_000]);
    let bytes = render_table(&records);
    let expected = format!("{}1,0.100000000,80000000\n", HEADER);
    assert_eq!(bytes, expected.as_bytes().to_vec());
}

#[test]
fn rendered_table_pads_and_splits_seconds() {
    // 1.5 s and 999999999 ns rows keep nine fractional digits.
    let records = session_records(&[1_500_000_000, 999_999_999]);
    let bytes = render_table(&records);
    let text = String::from_utf8(bytes).unwrap();
    let mut lines = text.lines();
    assert_eq!(lines.next().unwrap(), HEADER.trim_end());
    let row1 = lines.next().unwrap();
    assert!(row1.starts_with("1,1.500000000,"));
    let row2 = lines.next().unwrap();
    assert!(row2.starts_with("2,0.999999999,"));
    assert!(lines.next().is_none());
}

#[test]
fn round_trip_reproduces_all_records() {
    let records = session_records(&[123_456_789, 1_500_000_000, 999_999_999, 1, 100_000_000]);
    let bytes = render_table(&records);
    let parsed = parse_table(&bytes).unwrap();
    assert_eq!(parsed, records);
}

#[test]
fn round_trip_of_empty_table() {
    let records: Vec<ChunkRecord> = Vec::new();
    let bytes = render_table(&records);
    assert_eq!(parse_table(&bytes), Some(Vec::new()));
}

#[test]
fn parse_rejects_wrong_header() {
    let bytes = b"index,time,rate\n1,0.100000000,80000000\n".to_vec();
    assert_eq!(parse_table(&bytes), None);
    assert_eq!(parse_table(&Vec::new()), None);
}

#[test]
fn parse_rejects_truncated_row() {
    let records = session_records(&[100_000_000]);
    let mut bytes = render_table(&records);
    bytes.pop();
    assert_eq!(parse_table(&bytes), None);
}

#[test]
fn parse_rejects_malformed_fields() {
    let bad_index = format!("{}x,0.100000000,80000000\n", HEADER);
    assert_eq!(parse_table(&bad_index.as_bytes().to_vec()), None);
    let short_fraction = format!("{}1,0.1,80000000\n", HEADER);
    assert_eq!(parse_table(&short_fraction.as_bytes().to_vec()), None);
    let missing_rate = format!("{}1,0.100000000,\n", HEADER);
    assert_eq!(parse_table(&missing_rate.as_bytes().to_vec()), None);
    let oversized_field = format!(
        "{}1,0.100000000,{}\n",
        HEADER,
        "9".repeat(39)
    );
    assert_eq!(parse_table(&oversized_field.as_bytes().to_vec()), None);
}

#[test]
fn parse_accepts_each_rendered_row_alone() {
    let records = session_records(&[250_000_000, 750_000_000]);
    let bytes = render_table(&records);
    let parsed = parse_table(&bytes).unwrap();
    assert_eq!(parsed.len(), 2);
    assert_eq!(parsed[0].index, 1);
    assert_eq!(parsed[0].duration_nanos, 250_000_000);
    assert_eq!(parsed[0].effective_rate_bps, records[0].effective_rate_bps);
    assert_eq!(parsed[1].index, 2);
    assert_eq!(parsed[1].duration_nanos, 750_000_000);
    assert_eq!(parsed[1].effective_rate_bps, records[1].effective_rate_bps);
}
