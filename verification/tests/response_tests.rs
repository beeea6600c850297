use http_file_server::http::{
    construct_invalid_password_response, construct_not_found_response,
    construct_simple_response, STATUS_NOT_FOUND, STATUS_OK, STATUS_UNAUTHORIZED,
};
use http_file_server::listing::construct_html_directory_listing_response;

fn segs(items: &[&str]) -> Vec<String> {
    items.iter().map(|s| s.to_string()).collect()
}

#[test]
fn simple_response_is_plain_text_with_length() {
    let r = construct_simple_response("héllo".to_string(), STATUS_OK);
    assert_eq!(r.status, 200);
    assert_eq!(r.content_type, "text/plain");
    assert_eq!(r.body, "héllo".as_bytes().to_vec());
    assert_eq!(r.content_length, Some(6));
}

#[test]
fn invalid_password_response_names_endpoint() {
    let r = construct_invalid_password_response("/secret");
    assert_eq!(r.status, STATUS_UNAUTHORIZED);
    assert_eq!(r.body, b"You are not authorized to access /secret".to_vec());
}

#[test]
fn not_found_response_names_endpoint() {
    let r = construct_not_found_response("/missing");
    assert_eq!(r.status, STATUS_NOT_FOUND);
    assert_eq!(r.body, b"/missing Not Found".to_vec());
    assert_eq!(r.content_length, Some(18));
}

#[test]
fn listing_of_a_subdirectory_links_parent_and_entries() {
    let r = construct_html_directory_listing_response(
        &segs(&["docs"]),
        &segs(&["a.txt", "sub/"]),
    );
    assert_eq!(r.status, 200);
    assert_eq!(r.content_type, "text/html");
    assert_eq!(r.content_length, None);
    let expected = "<!DOCTYPE html><html><head><title>HTTP File Server - docs/</title></head>\
<body><h1>docs/</h1><ul><li><a href=\"/\">..</a></li>\
<li><a href=\"/docs/a.txt\">a.txt</a></li><li><a href=\"/docs/sub/\">sub/</a></li>\
</ul></body></html>";
    assert_eq!(String::from_utf8(r.body).unwrap(), expected);
}

#[test]
fn listing_of_the_root_has_no_parent_and_escapes_names() {
    let r = construct_html_directory_listing_response(&segs(&[]), &segs(&["a&b<c>\"d\""]));
    let expected = "<!DOCTYPE html><html><head><title>HTTP File Server - /</title></head>\
<body><h1>/</h1><ul><li><a href=\"/a&amp;b&lt;c&gt;&quot;d&quot;\">a&amp;b&lt;c&gt;&quot;d&quot;</a></li>\
</ul></body></html>";
    assert_eq!(String::from_utf8(r.body).unwrap(), expected);
}

#[test]
fn listing_of_a_nested_directory_links_its_parent() {
    let r = construct_html_directory_listing_response(&segs(&["a", "b"]), &segs(&["f"]));
    let expected = "<!DOCTYPE html><html><head><title>HTTP File Server - a/b/</title></head>\
<body><h1>a/b/</h1><ul><li><a href=\"/a\">..</a></li>\
<li><a href=\"/a/b/f\">f</a></li></ul></body></html>";
    assert_eq!(String::from_utf8(r.body).unwrap(), expected);
}
