use openpagerank::{
    api_header_name, api_root, build_query, remove_trailing_slash, PageRank, PageRankFirst,
    RankError, Response,
};

fn ranked_entry(domain: &str, position: u32, score: f32, rank: &str) -> Response {
    Response {
        status_code: 200,
        error: String::new(),
        page_rank_integer: position,
        page_rank_decimal: score.to_string(),
        rank: Some(rank.to_string()),
        domain: domain.to_string(),
    }
}

fn unranked_entry(domain: &str, error: &str) -> Response {
    Response {
        status_code: 404,
        error: error.to_string(),
        page_rank_integer: 0,
        page_rank_decimal: "0".to_string(),
        rank: None,
        domain: domain.to_string(),
    }
}

#[test]
fn normalize_strips_all_trailing_slashes() {
    assert_eq!(remove_trailing_slash("example.com///"), "example.com");
    assert_eq!(remove_trailing_slash("example.com/"), "example.com");
    assert_eq!(remove_trailing_slash("https://monitorapp.com/"), "https://monitorapp.com");
}

#[test]
fn normalize_leaves_clean_input_alone() {
    assert_eq!(remove_trailing_slash("example.com"), "example.com");
    assert_eq!(remove_trailing_slash(""), "");
    assert_eq!(remove_trailing_slash("a/b"), "a/b");
}

#[test]
fn normalize_only_slashes_gives_empty() {
    assert_eq!(remove_trailing_slash("///"), "");
    assert_eq!(remove_trailing_slash("/"), "");
}

#[test]
fn normalize_is_idempotent() {
    let once = remove_trailing_slash("monitorapp.com//");
    let twice = remove_trailing_slash(&once);
    assert_eq!(once, twice);
    assert_eq!(once, "monitorapp.com");
}

#[test]
fn query_uses_fixed_endpoint_and_header() {
    assert_eq!(api_root(), "https://openpagerank.com/api/v1.0/getPageRank");
    assert_eq!(api_header_name(), "API-OPR");
}

#[test]
fn build_query_pairs_each_domain_in_order() {
    let domains = vec![
        "monitorapp.com".to_string(),
        "example.com///".to_string(),
        "a.org/".to_string(),
    ];
    let q = build_query(&domains);
    assert_eq!(q.len(), 3);
    assert_eq!(q[0], ("domains[]".to_string(), "monitorapp.com".to_string()));
    assert_eq!(q[1], ("domains[]".to_string(), "example.com".to_string()));
    assert_eq!(q[2], ("domains[]".to_string(), "a.org".to_string()));
}

#[test]
fn build_query_of_nothing_is_empty() {
    let q = build_query(&Vec::new());
    assert!(q.is_empty());
}

#[test]
fn first_of_empty_batch_is_no_response() {
    let batch = PageRank {
        status_code: 200,
        response: Vec::new(),
        last_updated: "2024-01-01".to_string(),
    };
    let converted = batch.try_into_first();
    assert_eq!(converted, Err(RankError::NoResponse));
    assert_eq!(RankError::NoResponse.message(), "no response found");
}

#[test]
fn first_of_nonempty_batch_copies_first_entry() {
    let first = ranked_entry("monitorapp.com", 52310, 4.48, "52310");
    let second = unranked_entry("invalid-monitorapp.com", "domain not found");
    let batch = PageRank {
        status_code: 200,
        response: vec![first.clone(), second],
        last_updated: "2024-01-01".to_string(),
    };
    let converted = batch.try_into_first().unwrap();
    let expected = PageRankFirst {
        status_code: 200,
        response: first,
        last_updated: "2024-01-01".to_string(),
    };
    assert_eq!(converted, expected);
}

#[test]
fn accessors_expose_fields_verbatim() {
    let entry = ranked_entry("monitorapp.com", 52310, 4.48, "52310");
    let batch = PageRank {
        status_code: 200,
        response: vec![entry.clone()],
        last_updated: "2024-06-30".to_string(),
    };
    assert_eq!(batch.status_code(), 200);
    assert_eq!(batch.last_updated(), "2024-06-30");
    let entries = batch.response();
    assert_eq!(entries.len(), 1);
    assert_eq!(entries[0], entry);
}

#[test]
fn ranked_batch_first_entry_has_rank() {
    let batch = PageRank {
        status_code: 200,
        response: vec![ranked_entry("monitorapp.com", 52310, 4.48, "52310")],
        last_updated: "2024-06-30".to_string(),
    };
    let entries = batch.response();
    assert!(entries[0].rank.is_some());
    assert_eq!(entries[0].domain, "monitorapp.com");
    assert_eq!(entries[0].page_rank_decimal.parse::<f32>().unwrap(), 4.48);
}

#[test]
fn unranked_entry_has_no_rank_and_zero_scores() {
    let batch = PageRank {
        status_code: 200,
        response: vec![unranked_entry("https://invalid-monitorapp.com", "domain not found")],
        last_updated: "2024-06-30".to_string(),
    };
    let entries = batch.response();
    assert_eq!(entries[0].rank, None);
    assert_eq!(entries[0].page_rank_integer, 0);
    assert_eq!(entries[0].page_rank_decimal.parse::<f32>().unwrap(), 0.0);
}

#[test]
fn entry_equality_notices_every_field() {
    let a = ranked_entry("monitorapp.com", 52310, 4.48, "52310");
    assert_eq!(a, a.clone());
    let mut b = a.clone();
    b.domain = "other.com".to_string();
    assert_ne!(a, b);
    let mut c = a.clone();
    c.rank = None;
    assert_ne!(a, c);
}

#[test]
fn error_messages_describe_each_failure() {
    assert_eq!(RankError::InvalidKey.message(), "invalid API key");
    assert_eq!(RankError::Timeout.message(), "request timed out");
    assert_eq!(RankError::Transport.message(), "transport failure");
    assert_eq!(RankError::Decode.message(), "malformed response body");
    assert_eq!(RankError::NoResponse.message(), "no response found");
}
