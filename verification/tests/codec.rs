use openpagerank::{from_json, to_json, PageRank, RankError, Response};

fn entry(
    status: u16,
    error: &str,
    position: u32,
    decimal: &str,
    rank: Option<&str>,
    domain: &str,
) -> Response {
    Response {
        status_code: status,
        error: error.to_string(),
        page_rank_integer: position,
        page_rank_decimal: decimal.to_string(),
        rank: rank.map(|r| r.to_string()),
        domain: domain.to_string(),
    }
}

#[test]
fn to_json_writes_the_wire_shape() {
    let batch = PageRank {
        status_code: 200,
        response: vec![entry(200, "", 52310, "4.48", Some("52310"), "monitorapp.com")],
        last_updated: "2024-06-30".to_string(),
    };
    assert_eq!(
        to_json(&batch),
        "{\"status_code\":200,\"response\":[{\"status_code\":200,\"error\":\"\",\
         \"page_rank_integer\":52310,\"page_rank_decimal\":4.48,\"rank\":\"52310\",\
         \"domain\":\"monitorapp.com\"}],\"last_updated\":\"2024-06-30\"}"
    );
}

#[test]
fn to_json_of_empty_batch() {
    let batch = PageRank {
        status_code: 200,
        response: Vec::new(),
        last_updated: "x".to_string(),
    };
    assert_eq!(
        to_json(&batch),
        "{\"status_code\":200,\"response\":[],\"last_updated\":\"x\"}"
    );
}

#[test]
fn json_round_trip_preserves_batch() {
    let batch = PageRank {
        status_code: 200,
        response: vec![
            entry(200, "", 52310, "4.48", Some("52310"), "monitorapp.com"),
            entry(404, "domain not found", 0, "0", None, "invalid-monitorapp.com"),
        ],
        last_updated: "2024-06-30".to_string(),
    };
    let text = to_json(&batch);
    let back = from_json(&text).expect("the encoder's output must decode");
    assert_eq!(back, batch);
}

#[test]
fn json_round_trip_empty_batch() {
    let batch = PageRank {
        status_code: 200,
        response: Vec::new(),
        last_updated: "2024-06-30".to_string(),
    };
    let back = from_json(&to_json(&batch)).unwrap();
    assert_eq!(back, batch);
    assert_eq!(back.try_into_first(), Err(RankError::NoResponse));
}

#[test]
fn from_json_reads_a_service_body() {
    let body = "{\"status_code\":200,\"response\":[{\"status_code\":404,\
                 \"error\":\"domain not found\",\"page_rank_integer\":0,\
                 \"page_rank_decimal\":0,\"rank\":null,\
                 \"domain\":\"invalid-monitorapp.com\"}],\
                 \"last_updated\":\"2024-06-30\"}";
    let batch = from_json(body).unwrap();
    assert_eq!(batch.status_code(), 200);
    assert_eq!(batch.last_updated(), "2024-06-30");
    let entries = batch.response();
    assert_eq!(entries.len(), 1);
    assert_eq!(entries[0].rank, None);
    assert_eq!(entries[0].error, "domain not found");
    assert_eq!(entries[0].page_rank_decimal, "0");
    assert_eq!(entries[0].domain, "invalid-monitorapp.com");
}

#[test]
fn from_json_rejects_malformed_text() {
    assert!(from_json("").is_none());
    assert!(from_json("{\"status_code\":200}").is_none());
    assert!(from_json("{\"status_code\":abc,\"response\":[],\"last_updated\":\"x\"}").is_none());
    // A status code too large for its field.
    assert!(from_json("{\"status_code\":999999,\"response\":[],\"last_updated\":\"x\"}").is_none());
    // Truncated before the closing brace.
    assert!(from_json("{\"status_code\":200,\"response\":[],\"last_updated\":\"x\"").is_none());
    // Trailing garbage after the batch object.
    assert!(from_json("{\"status_code\":200,\"response\":[],\"last_updated\":\"x\"}z").is_none());
}
