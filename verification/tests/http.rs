use testkit::http_match::Header;
use testkit::http_match::HttpRequest;
use testkit::http_match::MatchFault;
use testkit::http_match::WellFormedJson;

fn header(name: &str, value: &[u8]) -> Header {
    Header { name: name.to_string(), value: value.to_vec() }
}

fn json_post(body: &[u8]) -> HttpRequest {
    HttpRequest {
        method: "POST".to_string(),
        headers: vec![
            header("content-type", b"application/json"),
            header("content-length", body.len().to_string().as_bytes()),
        ],
        body: body.to_vec(),
    }
}

#[test]
fn happy_path() {
    let request = json_post(b"{\"hi\": 2}");
    assert_eq!(WellFormedJson.try_matches(&request), Ok(true));
    assert!(WellFormedJson.matches(&request));
}

#[test]
fn any_json_document_matches() {
    assert_eq!(WellFormedJson.try_matches(&json_post(b"2")), Ok(true));
    assert_eq!(WellFormedJson.try_matches(&json_post(b"[1, 2]")), Ok(true));
}

#[test]
fn errors_on_invalid_json() {
    // A trailing comma is not valid JSON.
    let request = json_post(b"{\"hi\": 2,");
    assert_eq!(WellFormedJson.try_matches(&request), Ok(false));
}

#[test]
fn errors_on_non_post() {
    let mut request = json_post(b"{\"hi\": 2}");
    request.method = "PATCH".to_string();
    assert_eq!(WellFormedJson.try_matches(&request), Ok(false));
}

#[test]
fn errors_on_missing_content_type() {
    let mut request = json_post(b"{\"hi\": 2}");
    request.headers.remove(0);
    assert_eq!(WellFormedJson.try_matches(&request), Ok(false));
}

#[test]
fn errors_on_wrong_content_type() {
    let mut request = json_post(b"{\"hi\": 2}");
    request.headers[0] = header("content-type", b"text/plain");
    assert_eq!(WellFormedJson.try_matches(&request), Ok(false));
}

#[test]
fn faults_on_missing_content_length() {
    let mut request = json_post(b"{\"hi\": 2}");
    request.headers.remove(1);
    assert_eq!(
        WellFormedJson.try_matches(&request),
        Err(MatchFault::MissingContentLength)
    );
}

#[test]
fn errors_on_invalid_content_length() {
    let mut request = json_post(b"{\"hi\": 2}");
    request.headers[1] = header("content-length", b"over 9000");
    assert_eq!(
        WellFormedJson.try_matches(&request),
        Err(MatchFault::InvalidContentLength)
    );
    request.headers[1] = header("content-length", b"");
    assert_eq!(
        WellFormedJson.try_matches(&request),
        Err(MatchFault::InvalidContentLength)
    );
    // A value too large for usize does not parse either.
    request.headers[1] = header("content-length", b"99999999999999999999999999999999");
    assert_eq!(
        WellFormedJson.try_matches(&request),
        Err(MatchFault::InvalidContentLength)
    );
}

#[test]
fn faults_on_content_length_mismatch() {
    let mut request = json_post(b"{\"hi\": 2}");
    request.headers[1] = header("content-length", b"3");
    assert_eq!(
        WellFormedJson.try_matches(&request),
        Err(MatchFault::ContentLengthMismatch)
    );
}

#[test]
fn content_length_may_carry_a_plus_sign() {
    let body = b"{\"hi\": 2}";
    let mut request = json_post(body);
    request.headers[1] = header("content-length", format!("+{}", body.len()).as_bytes());
    assert_eq!(WellFormedJson.try_matches(&request), Ok(true));
}

#[test]
fn faults_on_non_ascii_header_values() {
    let mut request = json_post(b"{\"hi\": 2}");
    request.headers[0] = header("content-type", &[0xFF]);
    assert_eq!(
        WellFormedJson.try_matches(&request),
        Err(MatchFault::NonAsciiContentType)
    );

    let mut request = json_post(b"{\"hi\": 2}");
    request.headers[1] = header("content-length", &[0xFF]);
    assert_eq!(
        WellFormedJson.try_matches(&request),
        Err(MatchFault::NonAsciiContentLength)
    );
}

#[test]
fn faults_on_invalid_utf8_body() {
    let body = [0xFF, 0xFE];
    let request = HttpRequest {
        method: "POST".to_string(),
        headers: vec![
            header("content-type", b"application/json"),
            header("content-length", b"2"),
        ],
        body: body.to_vec(),
    };
    assert_eq!(WellFormedJson.try_matches(&request), Err(MatchFault::BodyNotUtf8));
}

#[test]
fn first_header_of_a_name_wins() {
    let mut request = json_post(b"{\"hi\": 2}");
    request.headers.push(header("content-type", b"text/plain"));
    assert_eq!(WellFormedJson.try_matches(&request), Ok(true));
}
