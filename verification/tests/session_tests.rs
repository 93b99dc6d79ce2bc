use poke_http::{
    error_response, handle_key_event, resolve_request, App, Error, EventResult, Focus, HttpError,
    HttpFile, Key, Method, ParseError, Parser, Request, Response,
};

fn load(content: &str) -> HttpFile {
    let (requests, variables) = Parser::parse_content(content).unwrap();
    let mut file = HttpFile::new("test.http".to_string());
    file.requests = requests;
    file.variables = variables;
    file
}

fn ok_response(status: u16, body: &str) -> Response {
    Response {
        status,
        status_text: "OK".to_string(),
        headers: vec![],
        body: body.to_string(),
        duration_ms: 7,
    }
}

#[test]
fn test_single_request_line_yields_one_request() {
    let content = "DELETE https://x/z ignored tokens";
    let (requests, variables) = Parser::parse_content(content).unwrap();
    assert_eq!(requests.len(), 1);
    assert_eq!(requests[0].method, Method::Delete);
    assert_eq!(requests[0].url, "https://x/z");
    assert_eq!(requests[0].name, None);
    assert_eq!(requests[0].headers.len(), 0);
    assert_eq!(requests[0].body, None);
    assert_eq!(variables.len(), 0);
}

#[test]
fn test_three_separators_three_named_requests() {
    let content = "### One\nGET https://a/1\n### Two\nPOST https://a/2\n### Three\nHEAD https://a/3";
    let (requests, _) = Parser::parse_content(content).unwrap();
    assert_eq!(requests.len(), 3);
    assert_eq!(requests[0].name, Some("One".to_string()));
    assert_eq!(requests[0].method, Method::Get);
    assert_eq!(requests[1].name, Some("Two".to_string()));
    assert_eq!(requests[1].method, Method::Post);
    assert_eq!(requests[2].name, Some("Three".to_string()));
    assert_eq!(requests[2].url, "https://a/3");
}

#[test]
fn test_repeated_header_key_last_value_wins() {
    let content = "GET https://a/b\nX-Key: v1\nX-Key: v2";
    let (requests, _) = Parser::parse_content(content).unwrap();
    assert_eq!(requests[0].headers.get("X-Key"), Some(&"v2".to_string()));
    assert_eq!(requests[0].headers.len(), 1);
}

#[test]
fn test_body_is_trimmed_and_blank_body_is_none() {
    let with_body = "POST https://a/b\nX: y\n\n\n  hello  \n\n";
    let (requests, _) = Parser::parse_content(with_body).unwrap();
    assert_eq!(requests[0].body, Some("hello".to_string()));

    let blank_body = "POST https://a/b\nX: y\n\n\n\n";
    let (requests, _) = Parser::parse_content(blank_body).unwrap();
    assert_eq!(requests[0].body, None);
}

#[test]
fn test_variable_last_assignment_wins() {
    let content = "@x = 1\n@x = 2";
    let (_, variables) = Parser::parse_content(content).unwrap();
    assert_eq!(variables.get("x"), Some(&"2".to_string()));
    assert_eq!(variables.len(), 1);
}

#[test]
fn test_junk_and_comment_lines_are_dropped() {
    let content = "# a comment\n// another\nnot a request line\nGET https://a/b\n";
    let (requests, variables) = Parser::parse_content(content).unwrap();
    assert_eq!(requests.len(), 1);
    assert_eq!(requests[0].url, "https://a/b");
    assert_eq!(variables.len(), 0);
}

#[test]
fn test_junk_line_drops_pending_separator_name() {
    // A line that fails to parse as a request line consumes the pending
    // name, so the request that follows is unnamed.
    let content = "### Lost\njunk\nGET https://a/b";
    let (requests, _) = Parser::parse_content(content).unwrap();
    assert_eq!(requests.len(), 1);
    assert_eq!(requests[0].name, None);
}

#[test]
fn test_variable_line_wins_inside_body_region() {
    // The variable rule is checked everywhere, so a body line shaped like
    // an assignment becomes a variable instead of body text.
    let content = "POST https://a/b\n\nbody line\n@x = y\nmore";
    let (requests, variables) = Parser::parse_content(content).unwrap();
    assert_eq!(requests[0].body, Some("body line\nmore".to_string()));
    assert_eq!(variables.get("x"), Some(&"y".to_string()));
}

#[test]
fn test_end_to_end_variable_defined_after_request() {
    let content = "GET https://x/y\nAuthorization: Bearer {{tok}}\n\n@tok=abc";
    let (requests, variables) = Parser::parse_content(content).unwrap();
    assert_eq!(variables.get("tok"), Some(&"abc".to_string()));
    let resolved = resolve_request(&requests[0], &variables).unwrap();
    assert_eq!(
        resolved.headers.get("Authorization"),
        Some(&"Bearer abc".to_string())
    );
    assert_eq!(resolved.url, "https://x/y");
    assert_eq!(resolved.method, Method::Get);
}

#[test]
fn test_resolve_fails_naming_first_unresolved() {
    let content = "GET https://{{host}}/y\nAuthorization: {{tok}}";
    let (requests, variables) = Parser::parse_content(content).unwrap();
    let err = resolve_request(&requests[0], &variables).unwrap_err();
    assert!(err.message().contains("Undefined variable: host"));
}

#[test]
fn test_selection_never_leaves_visible_range() {
    let file = load("GET https://a/1\n###\nGET https://a/2\n###\nGET https://a/3");
    let mut app = App::new(file);
    app.select_previous();
    assert_eq!(app.selected, 0);
    app.select_next();
    app.select_next();
    app.select_next();
    app.select_next();
    assert_eq!(app.selected, 2);
    app.select_previous();
    assert_eq!(app.selected, 1);
    assert_eq!(app.selected_request().unwrap().url, "https://a/2");
}

#[test]
fn test_filter_resets_selection_and_narrows_view() {
    let file = load("GET https://alpha/x\n###\nGET https://beta/y");
    let mut app = App::new(file);
    app.select_next();
    assert_eq!(app.selected, 1);
    assert_eq!(handle_key_event(&mut app, Key::Char('/')), EventResult::Continue);
    assert!(app.filter_active);
    assert_eq!(app.selected, 0);
    app.select_next();
    assert_eq!(app.selected, 1);
    handle_key_event(&mut app, Key::Char('B'));
    assert_eq!(app.selected, 0);
    assert_eq!(app.visible_count(), 1);
    assert_eq!(app.selected_request().unwrap().url, "https://beta/y");
    // backspace on empty text leaves filter mode
    handle_key_event(&mut app, Key::Backspace);
    assert!(app.filter_active);
    handle_key_event(&mut app, Key::Backspace);
    assert!(!app.filter_active);
    assert_eq!(app.visible_count(), 2);
}

#[test]
fn test_focus_cycle_returns_after_ring_size() {
    let file = load("GET https://a/1");
    let mut app = App::new(file);
    assert_eq!(app.focus, Focus::RequestList);
    for _ in 0..4 {
        app.toggle_focus();
    }
    assert_eq!(app.focus, Focus::RequestList);
    app.toggle_history_view();
    assert_eq!(app.focus, Focus::HistoryList);
    app.toggle_focus();
    app.toggle_focus();
    assert_eq!(app.focus, Focus::HistoryList);
    app.toggle_history_view();
    assert_eq!(app.focus, Focus::RequestList);
}

#[test]
fn test_history_grows_one_entry_per_execution() {
    let file = load("GET https://a/1");
    let mut app = App::new(file);
    let req = Request::new(Method::Get, "https://a/1".to_string());

    app.start_execution();
    assert!(app.loading);
    app.finish_execution(req.clone(), ok_response(200, "first"), 1000);
    assert!(!app.loading);

    app.start_execution();
    app.finish_execution(req.clone(), error_response("boom".to_string()), 2000);

    assert_eq!(app.history.len(), 2);
    assert_eq!(app.history[0].response.body, "first");
    assert_eq!(app.history[0].timestamp_ms, 1000);
    assert_eq!(app.history[1].response.status, 0);
    assert_eq!(app.history[1].timestamp_ms, 2000);
    let last = app.last_response.as_ref().unwrap();
    assert_eq!(last.status, 0);
    assert_eq!(last.body, "boom");
}

#[test]
fn test_error_response_shape() {
    let r = error_response("went wrong".to_string());
    assert_eq!(r.status, 0);
    assert_eq!(r.status_text, "Error");
    assert!(r.headers.is_empty());
    assert_eq!(r.body, "went wrong");
    assert_eq!(r.duration_ms, 0);
}

#[test]
fn test_method_parsing_is_case_insensitive() {
    assert_eq!(Method::from_str("get").unwrap(), Method::Get);
    assert_eq!(Method::from_str("PoSt").unwrap(), Method::Post);
    assert_eq!(Method::from_str("OPTIONS").unwrap(), Method::Options);
    let err = Method::from_str("FOO").unwrap_err();
    assert!(err.message().contains("Invalid HTTP method: FOO"));
}

#[test]
fn test_dispatcher_commands() {
    let file = load("GET https://a/1");
    let mut app = App::new(file);
    assert_eq!(handle_key_event(&mut app, Key::Char('q')), EventResult::Quit);
    assert_eq!(handle_key_event(&mut app, Key::CtrlC), EventResult::Quit);
    assert_eq!(handle_key_event(&mut app, Key::Enter), EventResult::ExecuteRequest);
    assert_eq!(handle_key_event(&mut app, Key::Char('y')), EventResult::Continue);
    assert_eq!(app.focus, Focus::HistoryList);
    assert_eq!(
        handle_key_event(&mut app, Key::Enter),
        EventResult::ExecuteHistoryEntry
    );
}

#[test]
fn test_used_variables_dedup_and_table_filter() {
    let content = "@base = https://api\n@tok = t1\nGET {{base}}/{{base}}/{{id}}\nAuthorization: {{tok}}";
    let file = load(content);
    let app = App::new(file);
    let used = app.get_used_variables();
    assert_eq!(used.len(), 2);
    assert_eq!(used[0], ("base".to_string(), "https://api".to_string()));
    assert_eq!(used[1], ("tok".to_string(), "t1".to_string()));
}

#[test]
fn test_variable_selection_stays_in_used_range() {
    let content = "@a = 1\n@b = 2\nGET {{a}}/{{b}}";
    let file = load(content);
    let mut app = App::new(file);
    app.select_previous_variable();
    assert_eq!(app.selected_variable, 0);
    app.select_next_variable();
    app.select_next_variable();
    app.select_next_variable();
    assert_eq!(app.selected_variable, 1);
}

#[test]
fn test_request_details_content_lines() {
    let content = "POST https://a/b\nX: 1\nY: 2\n\nline one\nline two";
    let file = load(content);
    let app = App::new(file);
    // request line + two headers + separator + two body lines
    assert_eq!(app.request_details_content_lines(), 6);
}

#[test]
fn test_display_name_falls_back_to_method_and_url() {
    let named = Request::new(Method::Get, "https://a".to_string()).with_name("Hi".to_string());
    assert_eq!(named.display_name(), "Hi");
    let bare = Request::new(Method::Put, "https://a".to_string());
    assert_eq!(bare.display_name(), "PUT https://a");
}

#[test]
fn test_response_scrolls_saturate_at_zero() {
    let file = load("GET https://a/1");
    let mut app = App::new(file);
    app.scroll_up();
    assert_eq!(app.response_scroll, 0);
    app.scroll_down();
    app.scroll_down();
    assert_eq!(app.response_scroll, 2);
    handle_key_event(&mut app, Key::Tab); // focus: response body
    assert_eq!(app.focus, Focus::ResponseBody);
    handle_key_event(&mut app, Key::Char('h'));
    handle_key_event(&mut app, Key::Down);
    assert_eq!(app.response_headers_scroll, 1);
    assert_eq!(app.response_scroll, 2);
    handle_key_event(&mut app, Key::PageUp);
    assert_eq!(app.response_headers_scroll, 0);
}

#[test]
fn test_history_selection_clamped() {
    let file = load("GET https://a/1");
    let mut app = App::new(file);
    let req = Request::new(Method::Get, "https://a/1".to_string());
    app.finish_execution(req.clone(), ok_response(200, "a"), 1);
    app.finish_execution(req.clone(), ok_response(201, "b"), 2);
    app.toggle_history_view();
    assert_eq!(app.selected_history, 1);
    app.select_next_history();
    assert_eq!(app.selected_history, 1);
    app.select_previous_history();
    assert_eq!(app.selected_history, 0);
    app.select_previous_history();
    assert_eq!(app.selected_history, 0);
}

#[test]
fn test_error_messages() {
    assert_eq!(
        ParseError::IoError("no file".to_string()).message(),
        "IO error: no file"
    );
    assert_eq!(HttpError::Timeout.message(), "Timeout");
    assert_eq!(
        HttpError::RequestFailed("refused".to_string()).message(),
        "Request failed: refused"
    );
    assert_eq!(Error::Io("denied".to_string()).message(), "IO error: denied");
}

#[test]
fn test_empty_file_has_no_requests() {
    let (requests, variables) = Parser::parse_content("").unwrap();
    assert_eq!(requests.len(), 0);
    assert_eq!(variables.len(), 0);
}
