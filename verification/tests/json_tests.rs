use agent_handles::Agent;
use agent_handles::Timestamp;
use agent_handles::parse_agent_json;
use agent_handles::render_agent;

fn ts(year: u16, month: u8, day: u8, hour: u8, minute: u8, second: u8) -> Timestamp {
    Timestamp::from_parts(year, month, day, hour, minute, second).unwrap()
}

fn sample_agent() -> Agent {
    Agent::new(42, ts(2024, 1, 2, 3, 4, 5), ts(2024, 1, 2, 3, 4, 6))
}

const SAMPLE_TEXT: &str = "{\"id\":42,\"transactions_closed\":0,\"transactions_open\":0,\
\"transaction_queue\":[{\"id\":1,\"transaction_date\":\"2024-01-02T03:04:05Z\"},\
{\"id\":2,\"transaction_date\":\"2024-01-02T03:04:06Z\"}]}";

#[test]
fn rendering_matches_the_expected_text_exactly() {
    assert_eq!(render_agent(&sample_agent()), SAMPLE_TEXT);
}

#[test]
fn rendering_pads_timestamp_components() {
    let a = Agent::new(0, ts(987, 12, 31, 23, 59, 59), ts(1, 1, 1, 0, 0, 0));
    let text = render_agent(&a);
    assert!(text.contains("\"0987-12-31T23:59:59Z\""));
    assert!(text.contains("\"0001-01-01T00:00:00Z\""));
}

#[test]
fn round_trip_reproduces_every_field() {
    let a = sample_agent();
    let text = render_agent(&a);
    let b = parse_agent_json(&text).expect("a rendered projection must parse");
    assert_eq!(b.id, a.id);
    assert_eq!(b.transactions_closed, a.transactions_closed);
    assert_eq!(b.transactions_open, a.transactions_open);
    assert_eq!(b.transaction_queue.len(), a.transaction_queue.len());
    for (x, y) in a.transaction_queue.iter().zip(b.transaction_queue.iter()) {
        assert_eq!(x.id, y.id);
        assert_eq!(x.transaction_date, y.transaction_date);
    }
    assert_eq!(render_agent(&b), text);
}

#[test]
fn round_trip_holds_for_boundary_values() {
    let a = Agent::new(1000, ts(9999, 12, 31, 23, 59, 59), ts(1, 1, 1, 0, 0, 0));
    let text = render_agent(&a);
    let b = parse_agent_json(&text).expect("a rendered projection must parse");
    assert_eq!(b.id, 1000);
    assert_eq!(b.transaction_queue[0].transaction_date, ts(9999, 12, 31, 23, 59, 59));
    assert_eq!(b.transaction_queue[1].transaction_date, ts(1, 1, 1, 0, 0, 0));
}

#[test]
fn parsing_a_handles_projection_reproduces_its_record() {
    let original = agent_handles::SharedHandle::wrap(sample_agent());
    let clone = original.clone_handle();
    let parsed = parse_agent_json(&clone.render_json()).unwrap();
    assert_eq!(parsed.id, 42);
    assert_eq!(parsed.transaction_queue.len(), 2);
}

#[test]
fn malformed_documents_are_rejected() {
    assert!(parse_agent_json("").is_none());
    assert!(parse_agent_json("{}").is_none());
    assert!(parse_agent_json("{\"id\":42}").is_none());
    assert!(parse_agent_json("not a document").is_none());
    // Truncated.
    assert!(parse_agent_json(&SAMPLE_TEXT[..SAMPLE_TEXT.len() - 1]).is_none());
    // Trailing garbage.
    let mut text = String::from(SAMPLE_TEXT);
    text.push(' ');
    assert!(parse_agent_json(&text).is_none());
}

#[test]
fn out_of_range_fields_are_rejected() {
    // An id above 1000.
    assert!(parse_agent_json(&SAMPLE_TEXT.replace("\"id\":42", "\"id\":1001")).is_none());
    // A month above 12.
    assert!(parse_agent_json(&SAMPLE_TEXT.replace("2024-01", "2024-13")).is_none());
    // An hour above 23.
    assert!(parse_agent_json(&SAMPLE_TEXT.replace("T03", "T24")).is_none());
    // A stray separator.
    assert!(parse_agent_json(&SAMPLE_TEXT.replace("T03", "X03")).is_none());
}

#[test]
fn empty_queue_documents_parse() {
    let text = "{\"id\":5,\"transactions_closed\":0,\"transactions_open\":0,\
\"transaction_queue\":[]}";
    let a = parse_agent_json(text).unwrap();
    assert_eq!(a.id, 5);
    assert_eq!(a.transaction_queue.len(), 0);
    assert_eq!(render_agent(&a), text);
}

#[test]
fn projection_is_valid_json_with_the_expected_keys() {
    let text = render_agent(&sample_agent());
    let value: serde_json::Value = serde_json::from_str(&text).expect("valid");
    assert_eq!(value.get("id").unwrap().as_u64(), Some(42));
    assert_eq!(value.get("transactions_closed").unwrap().as_i64(), Some(0));
    assert_eq!(value.get("transactions_open").unwrap().as_i64(), Some(0));
    let queue = value.get("transaction_queue").unwrap().as_array().unwrap();
    assert_eq!(queue.len(), 2);
    assert_eq!(queue[0].get("id").unwrap().as_u64(), Some(1));
    assert_eq!(
        queue[0].get("transaction_date").unwrap().as_str(),
        Some("2024-01-02T03:04:05Z")
    );
    assert_eq!(queue[1].get("id").unwrap().as_u64(), Some(2));
    assert_eq!(
        queue[1].get("transaction_date").unwrap().as_str(),
        Some("2024-01-02T03:04:06Z")
    );
}

#[test]
fn fresh_records_always_round_trip() {
    for _ in 0..50 {
        let a = Agent::fresh();
        let text = render_agent(&a);
        let b = parse_agent_json(&text).expect("a rendered projection must parse");
        assert_eq!(b.id, a.id);
        assert_eq!(render_agent(&b), text);
    }
}
