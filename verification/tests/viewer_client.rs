use pixel_dna::task::{
    Envelope, HttpMethod, Param, ParamValue, Request, StackElem, Task, UpstreamReason,
};
use pixel_dna::viewer::{
    finish, handle_viewer_result, Attempt, HttpAnswer, Reply, Step, UpstreamError, Viewer, ViewerError,
    ViewerFailure, MAX_RETRIES, QUEUE_CAPACITY, RETRY_WAIT_SECS,
};

fn new_viewer() -> Viewer<u32> {
    Viewer::new("https://viewer.example/api".to_string(), Some("SECRET-REDACTED".to_string()))
}

fn envelope(code: Option<u32>) -> Envelope {
    Envelope {
        code,
        exit_code: Some(0),
        stack: Some(vec![StackElem { type_: "cell".to_string(), value: Some("te6c".to_string()) }]),
    }
}

fn rate_limited() -> Attempt {
    Attempt::Replied(Reply { envelope: envelope(Some(429)), response: "{\"code\":429}".to_string() })
}

fn answered() -> Attempt {
    Attempt::Replied(Reply { envelope: envelope(None), response: "{\"stack\":[]}".to_string() })
}

fn failed() -> Attempt {
    Attempt::Failed(UpstreamError {
        reason: UpstreamReason::InvalidJson,
        response: "<html>".to_string(),
    })
}

fn text_of(param: &Param) -> Option<&str> {
    match &param.value {
        ParamValue::Text(text) => Some(text.as_str()),
        _ => None,
    }
}

fn number_of(param: &Param) -> Option<u64> {
    match &param.value {
        ParamValue::Number(number) => Some(*number),
        _ => None,
    }
}

fn names(request: &Request) -> Vec<&str> {
    request.params.iter().map(|param| param.name.as_str()).collect()
}

#[test]
fn eleventh_job_is_refused_without_a_request() {
    let mut viewer = new_viewer();
    for ticket in 0..10u32 {
        assert_eq!(viewer.get_dna(format!("address-{}", ticket), ticket), Ok(()));
    }
    assert_eq!(viewer.outstanding(), QUEUE_CAPACITY);
    assert_eq!(viewer.get_dna("address-10".to_string(), 10), Err(ViewerError::OverCapacity));
    assert_eq!(viewer.outstanding(), 10);
    assert!(!viewer.busy());
    assert!(viewer.current_request().is_none());
}

#[test]
fn job_in_flight_counts_towards_the_capacity() {
    let mut viewer = new_viewer();
    for ticket in 0..10u32 {
        assert!(viewer.get_item_price("store".to_string(), ticket).is_ok());
    }
    assert!(viewer.next_request().is_some());
    assert!(viewer.busy());
    assert_eq!(viewer.outstanding(), 10);
    assert_eq!(viewer.get_item_price("store".to_string(), 10), Err(ViewerError::OverCapacity));
    match viewer.on_attempt(answered()) {
        Step::Deliver { callback, result } => {
            assert_eq!(callback, 0);
            assert!(result.is_ok());
        }
        other => panic!("unexpected step {:?}", other),
    }
    assert_eq!(viewer.outstanding(), 9);
    assert_eq!(viewer.get_item_price("store".to_string(), 10), Ok(()));
    assert_eq!(viewer.outstanding(), 10);
}

#[test]
fn two_rate_limited_replies_then_an_answer() {
    let mut viewer = new_viewer();
    viewer.get_dna("item".to_string(), 7).unwrap();
    assert!(viewer.next_request().is_some());
    let mut waited = 0;
    for _ in 0..2 {
        match viewer.on_attempt(rate_limited()) {
            Step::Retry { wait_secs } => waited += wait_secs,
            other => panic!("unexpected step {:?}", other),
        }
        assert!(viewer.busy());
        assert!(viewer.current_request().is_some());
    }
    assert_eq!(waited, 2 * RETRY_WAIT_SECS);
    match viewer.on_attempt(answered()) {
        Step::Deliver { callback, result } => {
            assert_eq!(callback, 7);
            let reply = result.expect("the answer is delivered");
            assert_eq!(reply.response, "{\"stack\":[]}");
            assert_eq!(reply.envelope.code, None);
        }
        other => panic!("unexpected step {:?}", other),
    }
    assert!(!viewer.busy());
    assert_eq!(viewer.outstanding(), 0);
}

#[test]
fn four_rate_limited_replies_are_over_capacity() {
    let mut viewer = new_viewer();
    viewer.get_dna("item".to_string(), 3).unwrap();
    viewer.next_request().unwrap();
    let mut retries = 0;
    for _ in 0..3 {
        match viewer.on_attempt(rate_limited()) {
            Step::Retry { wait_secs } => {
                assert_eq!(wait_secs, 1);
                retries += 1;
            }
            other => panic!("unexpected step {:?}", other),
        }
    }
    assert_eq!(retries, MAX_RETRIES);
    match viewer.on_attempt(rate_limited()) {
        Step::Deliver { callback, result } => {
            assert_eq!(callback, 3);
            assert!(matches!(result, Err(ViewerFailure::Viewer(ViewerError::OverCapacity))));
        }
        other => panic!("unexpected step {:?}", other),
    }
    assert!(!viewer.busy());
}

#[test]
fn retries_are_counted_for_each_job_anew() {
    let mut viewer = new_viewer();
    viewer.get_dna("first".to_string(), 1).unwrap();
    viewer.get_dna("second".to_string(), 2).unwrap();
    viewer.next_request().unwrap();
    for _ in 0..3 {
        assert!(matches!(viewer.on_attempt(rate_limited()), Step::Retry { .. }));
    }
    assert!(matches!(viewer.on_attempt(answered()), Step::Deliver { callback: 1, .. }));
    viewer.next_request().unwrap();
    for _ in 0..3 {
        assert!(matches!(viewer.on_attempt(rate_limited()), Step::Retry { .. }));
    }
    assert!(matches!(viewer.on_attempt(rate_limited()), Step::Deliver { callback: 2, result: Err(_) }));
}

#[test]
fn a_failure_is_delivered_without_a_retry() {
    let mut viewer = new_viewer();
    viewer.get_dna("item".to_string(), 5).unwrap();
    viewer.next_request().unwrap();
    match viewer.on_attempt(failed()) {
        Step::Deliver { callback, result } => {
            assert_eq!(callback, 5);
            match result {
                Err(ViewerFailure::Upstream(error)) => {
                    assert_eq!(error.reason, UpstreamReason::InvalidJson);
                    assert_eq!(error.response, "<html>");
                }
                other => panic!("unexpected result {:?}", other),
            }
        }
        other => panic!("unexpected step {:?}", other),
    }
}

#[test]
fn jobs_are_served_in_the_order_in_which_they_came() {
    let mut viewer = new_viewer();
    viewer.get_dna("first".to_string(), 1).unwrap();
    viewer.get_item_price("second".to_string(), 2).unwrap();
    let request = viewer.next_request().unwrap();
    assert_eq!(text_of(&request.params[0]), Some("first"));
    assert!(viewer.next_request().is_none());
    assert!(matches!(viewer.on_attempt(answered()), Step::Deliver { callback: 1, .. }));
    let request = viewer.next_request().unwrap();
    assert_eq!(text_of(&request.params[0]), Some("second"));
    assert_eq!(text_of(&request.params[1]), Some("item_price"));
    assert!(matches!(viewer.on_attempt(answered()), Step::Deliver { callback: 2, .. }));
    assert!(viewer.next_request().is_none());
}

#[test]
fn an_idle_client_has_nothing_to_send() {
    let mut viewer = new_viewer();
    assert!(viewer.next_request().is_none());
    assert!(viewer.current_request().is_none());
    assert_eq!(viewer.outstanding(), 0);
    assert_eq!(viewer.api_key().as_deref(), Some("SECRET-REDACTED"));
}

#[test]
fn the_key_is_the_one_that_the_client_was_made_with() {
    let mut viewer: Viewer<u32> = Viewer::new("https://viewer.example".to_string(), None);
    assert_eq!(viewer.api_key(), &None);
    let mut keyed = new_viewer();
    keyed.get_dna("item".to_string(), 1).unwrap();
    keyed.next_request().unwrap();
    keyed.on_attempt(rate_limited());
    assert_eq!(keyed.api_key(), &Some("SECRET-REDACTED".to_string()));
    viewer.get_dna("item".to_string(), 1).unwrap();
    assert_eq!(viewer.api_key(), &None);
}

#[test]
fn request_address_joins_the_service_and_the_path() {
    let mut viewer = new_viewer();
    viewer.get_dna("item".to_string(), 1).unwrap();
    let request = viewer.next_request().unwrap();
    assert_eq!(viewer.request_url(&request), "https://viewer.example/api/runGetMethod");
    let listing = Task::GetItems {
        collection_address: "c".to_string(),
        owner_address: "o".to_string(),
        page: None,
    }
    .job_payload();
    assert_eq!(viewer.request_url(&listing), "https://viewer.example/api/nft/items");
}

#[test]
fn dna_query_calls_the_dna_method() {
    let request = Task::GetDna { item_address: "EQitem".to_string() }.job_payload();
    assert_eq!(request.http_method, HttpMethod::Post);
    assert_eq!(request.api_method, "runGetMethod");
    assert_eq!(names(&request), vec!["address", "method", "stack"]);
    assert_eq!(text_of(&request.params[0]), Some("EQitem"));
    assert_eq!(text_of(&request.params[1]), Some("dna"));
    assert!(matches!(request.params[2].value, ParamValue::EmptyList));
}

#[test]
fn store_queries_call_their_methods() {
    let request = Task::GetExclusivesOffered { store_address: "EQstore".to_string() }.job_payload();
    assert_eq!(request.http_method, HttpMethod::Post);
    assert_eq!(request.api_method, "runGetMethod");
    assert_eq!(text_of(&request.params[0]), Some("EQstore"));
    assert_eq!(text_of(&request.params[1]), Some("exclusives_offered"));
    let request = Task::GetItemPrice { store_address: "EQstore".to_string() }.job_payload();
    assert_eq!(text_of(&request.params[1]), Some("item_price"));
    assert!(matches!(request.params[2].value, ParamValue::EmptyList));
}

#[test]
fn listing_query_asks_for_one_item_more_than_a_page() {
    let request = Task::GetItems {
        collection_address: "EQcoll".to_string(),
        owner_address: "EQowner".to_string(),
        page: Some(3),
    }
    .job_payload();
    assert_eq!(request.http_method, HttpMethod::Get);
    assert_eq!(request.api_method, "nft/items");
    assert_eq!(names(&request), vec!["collection_address", "owner_address", "limit", "offset"]);
    assert_eq!(text_of(&request.params[0]), Some("EQcoll"));
    assert_eq!(text_of(&request.params[1]), Some("EQowner"));
    assert_eq!(number_of(&request.params[2]), Some(5));
    assert_eq!(number_of(&request.params[3]), Some(12));
}

#[test]
fn listing_query_without_a_page_asks_for_everything() {
    let request = Task::GetItems {
        collection_address: "EQcoll".to_string(),
        owner_address: "EQowner".to_string(),
        page: None,
    }
    .job_payload();
    assert_eq!(names(&request), vec!["collection_address", "owner_address"]);
    let first = Task::GetItems {
        collection_address: "EQcoll".to_string(),
        owner_address: "EQowner".to_string(),
        page: Some(0),
    }
    .job_payload();
    assert_eq!(number_of(&first.params[3]), Some(0));
}

#[test]
fn answers_to_a_caller() {
    let ok: Result<u32, ViewerFailure> = Ok(1);
    assert_eq!(handle_viewer_result(&ok), HttpAnswer::Success);
    assert_eq!(handle_viewer_result(&ok).status_code(), 200);
    let busy: Result<u32, ViewerFailure> = Err(ViewerFailure::Viewer(ViewerError::OverCapacity));
    assert_eq!(handle_viewer_result(&busy), HttpAnswer::TooManyRequests);
    assert_eq!(handle_viewer_result(&busy).status_code(), 429);
    let broken: Result<u32, ViewerFailure> = Err(ViewerFailure::Upstream(UpstreamError {
        reason: UpstreamReason::RequestFailed,
        response: String::new(),
    }));
    assert_eq!(handle_viewer_result(&broken), HttpAnswer::InternalError);
    assert_eq!(handle_viewer_result(&broken).status_code(), 500);
}

#[test]
fn a_job_ends_with_what_was_read_or_with_the_reply() {
    let reply = Reply { envelope: envelope(None), response: "{\"stack\":[]}".to_string() };
    assert!(matches!(finish(&reply, Ok(5u32)), Ok(5)));
    match finish::<u32>(&reply, Err(UpstreamReason::InvalidResponse)) {
        Err(ViewerFailure::Upstream(error)) => {
            assert_eq!(error.reason, UpstreamReason::InvalidResponse);
            assert_eq!(error.response, "{\"stack\":[]}");
        }
        other => panic!("unexpected result {:?}", other),
    }
}
