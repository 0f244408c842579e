use http_server::handlers::{
    echo, file_read_answer, file_write_answer, hello, user_agent, FileRead,
};
use http_server::options::Options;
use http_server::request::Request;
use http_server::response::{HttpCode, Response};

fn request(text: &str) -> Request {
    let options =
        Options { host: "localhost".to_string(), port: 4221, files_directory: "/tmp".to_string() };
    Request::new(text.to_string(), options).unwrap()
}

fn with_param(text: &str, name: &str, value: &str) -> Request {
    let mut request = request(text);
    request.params.insert(name.to_string(), value.to_string());
    request
}

/// Status, headers in order, and body as text.
fn shape(response: &Response) -> (HttpCode, Vec<(String, String)>, String) {
    let mut headers = Vec::new();
    for i in 0..response.headers.len() {
        headers.push((response.headers.key_at(i).clone(), response.headers.value_at(i).clone()));
    }
    (response.status, headers, String::from_utf8(response.body.clone()).unwrap())
}

fn headers(length: &str, media: &str) -> Vec<(String, String)> {
    vec![
        ("Content-Length".to_string(), length.to_string()),
        ("Content-Type".to_string(), media.to_string()),
    ]
}

#[test]
fn hello_says_hello_world() {
    let response = hello(&request("GET / HTTP/1.1\r\n\r\n")).unwrap();
    assert_eq!(
        shape(&response),
        (HttpCode::OK, headers("13", "text/plain"), "Hello, World!".to_string())
    );
    assert_eq!(response.protocol, "HTTP");
    assert_eq!(response.protocol_version, "1.1");
}

#[test]
fn hello_speaks_the_protocol_of_the_request() {
    let response = hello(&request("GET / HTTP/1.0\r\n\r\n")).unwrap();
    assert_eq!(response.protocol_version, "1.0");
}

#[test]
fn user_agent_sends_the_header_back() {
    let response =
        user_agent(&request("GET /user-agent HTTP/1.1\r\nUser-Agent: foobar/1.2.3\r\n\r\n"))
            .unwrap();
    assert_eq!(
        shape(&response),
        (HttpCode::OK, headers("12", "text/plain"), "foobar/1.2.3".to_string())
    );
}

#[test]
fn user_agent_without_the_header_is_empty() {
    let response = user_agent(&request("GET /user-agent HTTP/1.1\r\nHost: x\r\n\r\n")).unwrap();
    assert_eq!(shape(&response), (HttpCode::OK, headers("0", "text/plain"), String::new()));
}

#[test]
fn echo_sends_the_parameter_back() {
    let response =
        echo(&with_param("GET /echo/gr\u{fc}n HTTP/1.1\r\n\r\n", "content", "gr\u{fc}n")).unwrap();
    assert_eq!(
        shape(&response),
        (HttpCode::OK, headers("5", "text/plain"), "gr\u{fc}n".to_string())
    );
}

#[test]
fn echo_without_the_parameter_is_400() {
    let response = echo(&request("GET /echo HTTP/1.1\r\n\r\n")).unwrap();
    assert_eq!(
        shape(&response),
        (
            HttpCode::BadRequest,
            headers("42", "text/plain"),
            "{ \"message\": \"Param content is required\" }".to_string()
        )
    );
}

#[test]
fn found_file_is_200_octet_stream() {
    let request = with_param("GET /files/a.txt HTTP/1.1\r\n\r\n", "filename", "a.txt");
    let response = file_read_answer(&request, FileRead::Found("line one\nline two".to_string()));
    assert_eq!(
        shape(&response),
        (
            HttpCode::OK,
            headers("17", "application/octet-stream"),
            "line one\nline two".to_string()
        )
    );
}

#[test]
fn missing_file_is_404_and_names_the_file() {
    let request =
        with_param("GET /files/missing.txt HTTP/1.1\r\n\r\n", "filename", "missing.txt");
    let response = file_read_answer(&request, FileRead::Missing);
    assert_eq!(
        shape(&response),
        (
            HttpCode::NotFound,
            headers("44", "application/json"),
            "{ \"message\": \"File not found: missing.txt\" }".to_string()
        )
    );
}

#[test]
fn failed_read_is_500() {
    let request = with_param("GET /files/a.txt HTTP/1.1\r\n\r\n", "filename", "a.txt");
    let response = file_read_answer(&request, FileRead::Failed);
    assert_eq!(
        shape(&response),
        (
            HttpCode::InternalServerError,
            headers("38", "application/json"),
            "{ \"message\": \"Internal Server Error\" }".to_string()
        )
    );
}

#[test]
fn read_without_the_parameter_is_400_whatever_was_read() {
    let request = request("GET /files HTTP/1.1\r\n\r\n");
    let expected = (
        HttpCode::BadRequest,
        headers("43", "text/plain"),
        "{ \"message\": \"Param filename is required\" }".to_string(),
    );
    assert_eq!(shape(&file_read_answer(&request, FileRead::Missing)), expected);
    assert_eq!(shape(&file_read_answer(&request, FileRead::Failed)), expected);
    assert_eq!(shape(&file_read_answer(&request, FileRead::Found("x".to_string()))), expected);
}

#[test]
fn written_file_is_201_created() {
    let request = with_param("POST /files/a.txt HTTP/1.1\r\n\r\ndata", "filename", "a.txt");
    let response = file_write_answer(&request, true);
    assert_eq!(shape(&response), (HttpCode::Created, headers("0", "text/plain"), String::new()));
}

#[test]
fn failed_write_is_500() {
    let request = with_param("POST /files/a.txt HTTP/1.1\r\n\r\ndata", "filename", "a.txt");
    let response = file_write_answer(&request, false);
    assert_eq!(
        shape(&response),
        (
            HttpCode::InternalServerError,
            headers("38", "application/json"),
            "{ \"message\": \"Internal Server Error\" }".to_string()
        )
    );
}

#[test]
fn write_without_the_parameter_is_400_whatever_was_written() {
    let request = request("POST /files HTTP/1.1\r\n\r\ndata");
    let expected = (
        HttpCode::BadRequest,
        headers("43", "text/plain"),
        "{ \"message\": \"Param filename is required\" }".to_string(),
    );
    assert_eq!(shape(&file_write_answer(&request, true)), expected);
    assert_eq!(shape(&file_write_answer(&request, false)), expected);
}
