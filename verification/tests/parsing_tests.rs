use cps::forms::form_value;
use cps::forms::login_token_from_cookie;
use cps::forms::parse_body;
use cps::forms::trim_ascii_str;
use cps::id::GenericId;
use cps::multipart::boundary_from_content_type;
use cps::multipart::join_bytes;
use cps::multipart::split_bytes_by_bytes;
use cps::sites::compiled_output_name;
use cps::sites::resolve_config;
use cps::sites::Config;
use cps::store::Store;

#[test]
fn form_bodies_parse_into_pairs() {
    let pairs = parse_body("username=ada&password=pw");
    assert_eq!(
        pairs,
        vec![
            ("username".to_string(), "ada".to_string()),
            ("password".to_string(), "pw".to_string()),
        ]
    );
    // a piece without exactly one equals sign is skipped
    let pairs2 = parse_body("a=1&junk&b=2&c=3=4");
    assert_eq!(
        pairs2,
        vec![("a".to_string(), "1".to_string()), ("b".to_string(), "2".to_string())]
    );
    assert_eq!(parse_body(""), Vec::<(String, String)>::new());
}

#[test]
fn form_lookup_takes_the_last_occurrence() {
    let pairs = parse_body("k=1&k=2&other=x");
    assert_eq!(form_value(&pairs, "k"), Some("2".to_string()));
    assert_eq!(form_value(&pairs, "other"), Some("x".to_string()));
    assert_eq!(form_value(&pairs, "missing"), None);
}

#[test]
fn login_token_read_from_cookie_header() {
    assert_eq!(
        login_token_from_cookie("login_token=abc123"),
        Some("abc123".to_string())
    );
    assert_eq!(
        login_token_from_cookie("theme=dark; login_token=abc123; lang=en"),
        Some("abc123".to_string())
    );
    assert_eq!(login_token_from_cookie("theme=dark"), None);
    assert_eq!(login_token_from_cookie(""), None);
}

#[test]
fn trimming_strips_ascii_whitespace() {
    assert_eq!(trim_ascii_str("  abc \t"), "abc");
    assert_eq!(trim_ascii_str("abc"), "abc");
    assert_eq!(trim_ascii_str("   "), "");
}

#[test]
fn byte_splitting_and_joining() {
    let parts = split_bytes_by_bytes(b"a--b--c".to_vec(), b"--".to_vec());
    assert_eq!(parts, vec![b"a".to_vec(), b"b".to_vec(), b"c".to_vec()]);
    let parts2 = split_bytes_by_bytes(b"--x--".to_vec(), b"--".to_vec());
    assert_eq!(parts2, vec![b"".to_vec(), b"x".to_vec(), b"".to_vec()]);
    let joined = join_bytes(vec![b"a".to_vec(), b"b".to_vec(), b"c".to_vec()], b"--".to_vec());
    assert_eq!(joined, b"a--b--c".to_vec());
    assert_eq!(join_bytes(vec![], b"--".to_vec()), Vec::<u8>::new());
}

#[test]
fn boundary_read_from_content_type() {
    let b = boundary_from_content_type(b"multipart/form-data; boundary=XyZ");
    assert_eq!(b, b"--XyZ".to_vec());
    let fallback = boundary_from_content_type(b"text/plain");
    assert_eq!(fallback, b"--no-boundary".to_vec());
}

#[test]
fn generic_ids_round_trip() {
    let id = GenericId::from_int(123456789012345678901234567890u128);
    assert_eq!(id.to_int(), 123456789012345678901234567890u128);
    let fresh = GenericId::new();
    let copy = GenericId::from_int(fresh.to_int());
    assert_eq!(fresh, copy);
}

#[test]
fn configuration_defaults_fill_the_gaps() {
    let c: Config = resolve_config(None, None, None, None, None, None);
    assert_eq!(c.db_host, "127.0.0.1");
    assert_eq!(c.db_username, "postgres");
    assert_eq!(c.db_password, "postgres");
    assert_eq!(c.db_name, "cps");
    assert_eq!(c.port, 443);
    assert_eq!(c.num_workers, 8);
    let c2 = resolve_config(
        Some("db.example".to_string()),
        None,
        None,
        None,
        Some(8080),
        Some(4),
    );
    assert_eq!(c2.db_host, "db.example");
    assert_eq!(c2.port, 8080);
    assert_eq!(c2.num_workers, 4);
}

#[test]
fn compiled_names_are_fresh_and_well_formed() {
    let a = compiled_output_name();
    let b = compiled_output_name();
    assert_eq!(a.len(), "temp/compiled_".len() + 10);
    assert!(a.starts_with("temp/compiled_"));
    assert!(a.chars().skip(14).all(|c| c.is_ascii_lowercase()));
    // two draws collide with negligible probability
    assert_ne!(a, b);
}

#[test]
fn free_problem_names_count_upward() {
    let mut store = Store::new();
    assert_eq!(store.next_free_problem_name().unwrap(), "Problem 1");
    store.add_problem("Problem 1", "d", 1000).unwrap();
    assert_eq!(store.next_free_problem_name().unwrap(), "Problem 2");
}

#[test]
fn multipart_file_extraction() {
    let boundary = b"--XYZ".to_vec();
    let body: Vec<u8> = [
        b"--XYZ\r\n".as_slice(),
        b"Content-Disposition: form-data; name=\"file\"; filename=\"a.cpp\"\r\n".as_slice(),
        b"Content-Type: text/plain\r\n".as_slice(),
        b"\r\n".as_slice(),
        b"int main() {}\r\nmore\r\n".as_slice(),
        b"--XYZ--\r\n".as_slice(),
    ]
    .concat();
    let file = cps::multipart::extract_file_from_body(body, &boundary).unwrap();
    assert_eq!(file, b"int main() {}\r\nmore".to_vec());
    // a body without any usable part is refused
    assert!(cps::multipart::extract_file_from_body(b"nothing here".to_vec(), &boundary).is_err());
}

#[test]
fn boundary_bodies_parse_into_named_parts() {
    let body = "BOUND\nheader name=\"description\"\nA very hard problem.\n\nBOUND\nheader name=\"name\"\nProblem 7\nBOUND";
    let pairs = cps::forms::parse_body_with_boundaries(body).unwrap();
    assert_eq!(
        pairs,
        vec![
            ("description".to_string(), "\nA very hard problem.".to_string()),
            ("name".to_string(), "\nProblem 7".to_string()),
        ]
    );
    // an empty body has no boundary line
    assert!(cps::forms::parse_body_with_boundaries("").is_err());
    // a name quote that never closes poisons the body
    assert!(cps::forms::parse_body_with_boundaries("B\nheader name=\"oops\nB").is_err());
}
