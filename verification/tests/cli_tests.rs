use http_file_server::cli::{
    parse_absolute_path, parse_directory_pathbuf, parse_ip_address,
    parse_usize_bigger_than_zero, Arguments,
};

#[test]
fn ip_address_is_parsed_into_octets() {
    assert_eq!(parse_ip_address("127.0.0.1"), Ok([127, 0, 0, 1]));
    assert_eq!(parse_ip_address("192.168.1.254"), Ok([192, 168, 1, 254]));
}

#[test]
fn invalid_ip_address_is_refused() {
    assert!(parse_ip_address("localhost").is_err());
    assert!(parse_ip_address("256.0.0.1").is_err());
    assert!(parse_ip_address("1.2.3").is_err());
    assert!(parse_ip_address("01.2.3.4").is_err());
    assert!(parse_ip_address("1.2.3.4.5").is_err());
    assert!(parse_ip_address("1..3.4").is_err());
    assert_eq!(
        parse_ip_address("1.2.3.x"),
        Err("invalid IPv4 address syntax".to_string())
    );
}

#[test]
fn zero_octets_are_accepted() {
    assert_eq!(parse_ip_address("0.0.0.0"), Ok([0, 0, 0, 0]));
    assert_eq!(parse_ip_address("10.0.255.0"), Ok([10, 0, 255, 0]));
}

#[test]
fn positive_size_is_accepted() {
    assert_eq!(parse_usize_bigger_than_zero("50000"), Ok(50000));
    assert_eq!(parse_usize_bigger_than_zero("+7"), Ok(7));
    assert_eq!(parse_usize_bigger_than_zero("1"), Ok(1));
}

#[test]
fn zero_size_is_refused_with_message() {
    assert_eq!(
        parse_usize_bigger_than_zero("0"),
        Err("0 must be greater than zero".to_string())
    );
}

#[test]
fn non_numeric_size_is_refused() {
    assert!(parse_usize_bigger_than_zero("abc").is_err());
    assert!(parse_usize_bigger_than_zero("").is_err());
    assert_eq!(
        parse_usize_bigger_than_zero("-1"),
        Err("invalid digit found in string".to_string())
    );
    assert!(parse_usize_bigger_than_zero("99999999999999999999999").is_err());
}

#[test]
fn absolute_endpoint_is_accepted() {
    assert_eq!(parse_absolute_path("/upload"), Ok("/upload".to_string()));
    assert_eq!(parse_absolute_path("/a/..b/c"), Ok("/a/..b/c".to_string()));
}

#[test]
fn relative_or_parent_endpoint_is_refused() {
    assert_eq!(
        parse_absolute_path("upload"),
        Err("upload is not a valid endpoint".to_string())
    );
    assert_eq!(
        parse_absolute_path("/a/../b"),
        Err("/a/../b is not a valid endpoint".to_string())
    );
    assert_eq!(
        parse_absolute_path("/.."),
        Err("/.. is not a valid endpoint".to_string())
    );
    assert!(parse_absolute_path("").is_err());
}

#[test]
fn directory_is_accepted_when_the_file_system_says_so() {
    assert_eq!(parse_directory_pathbuf("/srv", true), Ok("/srv".to_string()));
}

#[test]
fn non_directory_is_refused() {
    assert_eq!(
        parse_directory_pathbuf("/no/such/directory/here", false),
        Err("/no/such/directory/here is not a directory".to_string())
    );
}

#[test]
fn arguments_hold_their_values() {
    let args = Arguments {
        host: [127, 0, 0, 1],
        port: 8080,
        directory: ".".to_string(),
        password: None,
        upload: false,
        upload_endpoint: "/upload".to_string(),
        max_upload_size: 50000,
    };
    let copy = args.clone();
    assert_eq!(copy.port, 8080);
    assert_eq!(copy.upload_endpoint, "/upload");
}

#[test]
fn dotted_octets_parse_back() {
    for (a, b, c, d) in [(0u8, 0u8, 0u8, 0u8), (255, 255, 255, 255), (10, 9, 100, 1), (172, 16, 0, 254)] {
        assert_eq!(parse_ip_address(&format!("{a}.{b}.{c}.{d}")), Ok([a, b, c, d]));
    }
}
