use poke_http::{Method, Parser};

#[test]
fn test_parse_simple_get() {
    let content = "GET https://api.example.com/users";
    let (requests, _) = Parser::parse_content(content).unwrap();

    assert_eq!(requests.len(), 1);
    assert_eq!(requests[0].method, Method::Get);
    assert_eq!(requests[0].url, "https://api.example.com/users");
}

#[test]
fn test_parse_with_headers() {
    let content = r#"
GET https://api.example.com/users
Authorization: Bearer token123
Content-Type: application/json
"#;
    let (requests, _) = Parser::parse_content(content).unwrap();

    assert_eq!(requests.len(), 1);
    assert_eq!(
        requests[0].headers.get("Authorization"),
        Some(&"Bearer token123".to_string())
    );
    assert_eq!(
        requests[0].headers.get("Content-Type"),
        Some(&"application/json".to_string())
    );
}

#[test]
fn test_parse_with_body() {
    let content = r#"
POST https://api.example.com/users
Content-Type: application/json

{
    "name": "John",
    "email": "john@example.com"
}
"#;
    let (requests, _) = Parser::parse_content(content).unwrap();

    assert_eq!(requests.len(), 1);
    assert_eq!(requests[0].method, Method::Post);
    assert!(requests[0].body.is_some());
    assert!(requests[0].body.as_ref().unwrap().contains("John"));
}

#[test]
fn test_parse_multiple_requests() {
    let content = r#"
### Get all users
GET https://api.example.com/users

### Create user
POST https://api.example.com/users
Content-Type: application/json

{"name": "John"}
"#;
    let (requests, _) = Parser::parse_content(content).unwrap();

    assert_eq!(requests.len(), 2);
    assert_eq!(requests[0].name, Some("Get all users".to_string()));
    assert_eq!(requests[1].name, Some("Create user".to_string()));
}

#[test]
fn test_parse_variables() {
    let content = r#"
@baseUrl = https://api.example.com
@token = secret123

GET https://api.example.com/users
"#;
    let (requests, variables) = Parser::parse_content(content).unwrap();

    assert_eq!(requests.len(), 1);
    assert_eq!(variables.len(), 2);
    assert_eq!(
        variables.get("baseUrl"),
        Some(&"https://api.example.com".to_string())
    );
    assert_eq!(variables.get("token"), Some(&"secret123".to_string()));
}

#[test]
fn test_parse_variable_without_spaces() {
    let content = "@key=value";
    let (_, variables) = Parser::parse_content(content).unwrap();

    assert_eq!(variables.get("key"), Some(&"value".to_string()));
}

#[test]
fn test_parse_variable_with_spaces_in_value() {
    let content = "@message = hello world";
    let (_, variables) = Parser::parse_content(content).unwrap();

    assert_eq!(variables.get("message"), Some(&"hello world".to_string()));
}
