use silverbullet::proxy::{
    adjust_scheme, filter_proxy_headers, is_private_ip, u16_decimal, wrap_upstream, Client, Error,
    NoProxy, Proxy, ProxyRequest, ProxyResponse,
};

fn header<'a>(headers: &'a [(String, String)], name: &str) -> Option<&'a str> {
    headers.iter().find(|h| h.0 == name).map(|h| h.1.as_str())
}

#[test]
fn test_filter_proxy_headers() {
    let headers = vec![
        ("x-proxy-header-authorization".to_string(), "Bearer token".to_string()),
        ("x-proxy-header-content-type".to_string(), "application/json".to_string()),
        ("regular-header".to_string(), "should-be-filtered".to_string()),
        ("X-Proxy-Header-Custom".to_string(), "custom-value".to_string()),
    ];

    let filtered = filter_proxy_headers(&headers);

    assert_eq!(filtered.len(), 3);
    assert_eq!(header(&filtered, "authorization").unwrap(), "Bearer token");
    assert_eq!(header(&filtered, "content-type").unwrap(), "application/json");
    assert_eq!(header(&filtered, "custom").unwrap(), "custom-value");
    assert!(header(&filtered, "regular-header").is_none());
}

#[test]
fn test_adjust_scheme_localhost() {
    assert_eq!(adjust_scheme("localhost:3000/path"), "http://localhost:3000/path");
    assert_eq!(adjust_scheme("127.0.0.1:8080"), "http://127.0.0.1:8080");
    assert_eq!(adjust_scheme("::1/path"), "http://::1/path");
    assert_eq!(adjust_scheme("host.docker.internal"), "http://host.docker.internal");
}

#[test]
fn test_adjust_scheme_private_ips() {
    assert_eq!(adjust_scheme("192.168.1.1"), "http://192.168.1.1");
    assert_eq!(adjust_scheme("10.0.0.1"), "http://10.0.0.1");
    assert_eq!(adjust_scheme("172.16.0.1"), "http://172.16.0.1");
    assert_eq!(adjust_scheme("172.31.255.255"), "http://172.31.255.255");
}

#[test]
fn test_adjust_scheme_public() {
    assert_eq!(adjust_scheme("example.com"), "https://example.com");
    assert_eq!(adjust_scheme("api.github.com/repos"), "https://api.github.com/repos");
    assert_eq!(adjust_scheme("1.1.1.1"), "https://1.1.1.1");
}

#[test]
fn test_is_private_ip() {
    // Private ranges
    assert!(is_private_ip("192.168.0.1"));
    assert!(is_private_ip("192.168.255.255"));
    assert!(is_private_ip("10.0.0.0"));
    assert!(is_private_ip("10.255.255.255"));
    assert!(is_private_ip("172.16.0.0"));
    assert!(is_private_ip("172.31.255.255"));

    // Public IPs
    assert!(!is_private_ip("8.8.8.8"));
    assert!(!is_private_ip("1.1.1.1"));
    assert!(!is_private_ip("172.15.0.0"));
    assert!(!is_private_ip("172.32.0.0"));
    assert!(!is_private_ip("192.167.0.0"));
}

fn empty_request(path: &str, query: Option<&str>) -> ProxyRequest {
    ProxyRequest {
        method: "GET".to_string(),
        path: path.to_string(),
        query: query.map(|q| q.to_string()),
        headers: Vec::new(),
        body: Vec::new(),
    }
}

#[test]
fn test_no_proxy_returns_not_supported() {
    let client = NoProxy;
    let request = empty_request("http://example.com", None);

    let result = client.send(request);

    assert!(result.is_err());
    match result.unwrap_err() {
        Error::NotSupported(msg) => {
            assert_eq!(msg, "Proxy feature not available");
        }
        _ => panic!("Expected NotSupported error"),
    }
}

// Mock client for testing Proxy
struct MockClient {
    status: u16,
    headers: Vec<(String, String)>,
    body: Vec<u8>,
}

impl Client for MockClient {
    fn send(&self, _request: ProxyRequest) -> Result<ProxyResponse, Error> {
        Ok(ProxyResponse {
            status: self.status,
            headers: self.headers.clone(),
            body: self.body.clone(),
        })
    }
}

#[test]
fn test_proxy_url_extraction() {
    let client = MockClient {
        status: 200,
        headers: Vec::new(),
        body: b"response body".to_vec(),
    };
    let proxy = Proxy::new(client);

    let request = empty_request("/.proxy/example.com/api/endpoint", Some("foo=bar"));

    let result = proxy.proxy(request);
    assert!(result.is_ok());
}

#[test]
fn test_proxy_header_filtering() {
    let client = MockClient {
        status: 200,
        headers: vec![
            ("content-type".to_string(), "application/json".to_string()),
            ("x-custom".to_string(), "value".to_string()),
        ],
        body: b"{}".to_vec(),
    };
    let proxy = Proxy::new(client);

    let mut request = empty_request("/.proxy/example.com", None);
    request.headers = vec![
        ("x-proxy-header-authorization".to_string(), "Bearer token".to_string()),
        ("regular-header".to_string(), "filtered".to_string()),
    ];

    let response = proxy.proxy(request).unwrap();

    // Check response has x-proxy-status-code
    assert_eq!(header(&response.headers, "x-proxy-status-code").unwrap(), "200");

    // Check response has prefixed headers
    assert_eq!(header(&response.headers, "x-proxy-header-x-custom").unwrap(), "value");

    // Check content-type is unprefixed
    assert_eq!(header(&response.headers, "content-type").unwrap(), "application/json");

    // Response should always be 200
    assert_eq!(response.status, 200);
}

#[test]
fn test_proxy_wraps_upstream_status() {
    let client = MockClient {
        status: 404,
        headers: Vec::new(),
        body: b"Not found".to_vec(),
    };
    let proxy = Proxy::new(client);

    let request = empty_request("/.proxy/example.com/missing", None);

    let response = proxy.proxy(request).unwrap();

    // Proxy always returns 200
    assert_eq!(response.status, 200);

    // Actual status is in header
    assert_eq!(header(&response.headers, "x-proxy-status-code").unwrap(), "404");
}

#[test]
fn wrap_keeps_body_and_marks_status() {
    let upstream = ProxyResponse {
        status: 503,
        headers: vec![("Retry-After".to_string(), "3".to_string())],
        body: b"busy".to_vec(),
    };

    let wrapped = wrap_upstream(upstream);

    assert_eq!(wrapped.status, 200);
    assert_eq!(wrapped.body, b"busy");
    assert_eq!(header(&wrapped.headers, "x-proxy-status-code").unwrap(), "503");
    assert_eq!(header(&wrapped.headers, "x-proxy-header-retry-after").unwrap(), "3");
    assert!(header(&wrapped.headers, "content-type").is_none());
}

#[test]
fn decimal_status_codes() {
    assert_eq!(u16_decimal(0), "0");
    assert_eq!(u16_decimal(7), "7");
    assert_eq!(u16_decimal(404), "404");
    assert_eq!(u16_decimal(65535), "65535");
}
