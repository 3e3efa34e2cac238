use static_files::request::Method;
use static_files::response::Body;
use static_files::standard_response::{
    error_response, page_text, redirect_response, redirect_response_with_cookie, response_text,
};

const NOT_FOUND: &str = "<!DOCTYPE html><html><head><title>404 Not Found</title></head>\
<body><center><h1>404 Not Found</h1></center></body></html>";

#[test]
fn text_of_known_status() {
    assert_eq!(response_text(404), NOT_FOUND);
    assert_eq!(
        response_text(308),
        "<!DOCTYPE html><html><head><title>308 Permanent Redirect</title></head>\
<body><center><h1>308 Permanent Redirect</h1></center></body></html>"
    );
}

#[test]
fn text_of_status_without_reason() {
    assert_eq!(
        response_text(599),
        "<!DOCTYPE html><html><head><title>599 </title></head>\
<body><center><h1>599 </h1></center></body></html>"
    );
    assert_eq!(
        response_text(42),
        "<!DOCTYPE html><html><head><title>42 </title></head>\
<body><center><h1>42 </h1></center></body></html>"
    );
}

#[test]
fn text_is_escaped() {
    assert_eq!(
        page_text(400, Some("a<b> & \"c\" 'd'")),
        "<!DOCTYPE html><html><head><title>400 a&lt;b&gt; &amp; &quot;c&quot; 'd'</title></head>\
<body><center><h1>400 a&lt;b&gt; &amp; &quot;c&quot; 'd'</h1></center></body></html>"
    );
}

#[test]
fn error_page() {
    let response = error_response(Method::Get, 404);
    assert_eq!(response.header.status, 404);
    let fields: Vec<(&str, &str)> =
        response.header.headers.iter().map(|h| (h.name.as_str(), h.value.as_str())).collect();
    let length = NOT_FOUND.len().to_string();
    assert_eq!(
        fields,
        vec![("Content-Length", length.as_str()), ("Content-Type", "text/html;charset=utf-8")]
    );
    assert_eq!(response.body, Body::Text(NOT_FOUND.to_string()));
}

#[test]
fn error_page_for_head_has_no_body() {
    let response = error_response(Method::Head, 404);
    assert_eq!(response.header.status, 404);
    assert_eq!(response.header.headers.len(), 2);
    assert_eq!(response.header.headers[0].value, NOT_FOUND.len().to_string());
    assert_eq!(response.body, Body::Empty);
}

#[test]
fn redirect_pages() {
    let response = redirect_response(Method::Get, 308, "/dir/?a=b");
    assert_eq!(response.header.status, 308);
    let fields: Vec<(&str, &str)> =
        response.header.headers.iter().map(|h| (h.name.as_str(), h.value.as_str())).collect();
    assert_eq!(fields.len(), 3);
    assert_eq!(fields[1], ("Content-Type", "text/html;charset=utf-8"));
    assert_eq!(fields[2], ("Location", "/dir/?a=b"));
    assert_eq!(response.body, Body::Text(response_text(308)));

    let response = redirect_response_with_cookie(Method::Other, 302, "/login", "token=abc");
    let fields: Vec<(&str, &str)> =
        response.header.headers.iter().map(|h| (h.name.as_str(), h.value.as_str())).collect();
    assert_eq!(fields.len(), 4);
    assert_eq!(fields[2], ("Location", "/login"));
    assert_eq!(fields[3], ("Set-Cookie", "token=abc"));
    assert_eq!(response.body, Body::Text(response_text(302)));
}
