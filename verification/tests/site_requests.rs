use request_router::exchange::{
    ACCEPTED, BAD_REQUEST, NOT_FOUND, OK, UNAUTHORIZED, UNPROCESSABLE_ENTITY,
};
use request_router::{file_response, site, CookieJar, Method, Outcome, Request, Response};

fn respond_to(request: Request) -> Response {
    match site().dispatch(&request) {
        Outcome::Respond(response) => response,
        Outcome::ServeFile(file) => panic!("a file was named: {}", file),
    }
}

fn get(target: &str) -> Response {
    respond_to(Request::new(Method::Get, target))
}

fn post(target: &str, body: &str) -> Response {
    respond_to(Request::new(Method::Post, target).with_body(body.to_string()))
}

fn file_named(target: &str) -> String {
    match site().dispatch(&Request::new(Method::Get, target)) {
        Outcome::ServeFile(file) => file,
        Outcome::Respond(response) => panic!("a response was given: {}", response.status),
    }
}

#[test]
fn root_greets_the_world() {
    let response = get("/");
    assert_eq!(response.status, OK);
    assert_eq!(response.body, "Hello World");
    assert_eq!(response.cookies.len(), 0);
}

#[test]
fn empty_target_is_the_root() {
    assert_eq!(get("").body, "Hello World");
}

#[test]
fn earth_greets_the_earth() {
    let response = get("/earth");
    assert_eq!(response.status, OK);
    assert_eq!(response.body, "Hello Earth");
}

#[test]
fn slashes_in_a_row_count_once() {
    assert_eq!(get("//earth//").body, "Hello Earth");
}

#[test]
fn continent_is_named() {
    let response = get("/earth/asia");
    assert_eq!(response.status, OK);
    assert_eq!(response.body, "Continent: asia");
}

#[test]
fn continent_is_named_as_written() {
    let response = get("/earth/north%20america");
    assert_eq!(response.status, OK);
    assert!(response.body.contains("north%20america"));
    assert_eq!(response.body, "Continent: north%20america");
}

#[test]
fn continent_takes_one_segment_only() {
    assert_eq!(get("/earth/asia/japan").status, NOT_FOUND);
}

#[test]
fn page_names_the_path() {
    let response = get("/page/a/b/c");
    assert_eq!(response.status, OK);
    assert_eq!(response.body, "Page: a/b/c");
    assert!(response.body.contains("a/b/c"));
}

#[test]
fn page_takes_an_empty_path() {
    assert_eq!(get("/page").body, "Page: ");
    assert_eq!(get("/page/").body, "Page: ");
    assert_eq!(get("/page").status, OK);
}

#[test]
fn page_decodes_its_segments() {
    assert_eq!(get("/page/a%20b/c%2Fd").body, "Page: a b/c/d");
}

#[test]
fn page_with_bad_encoding_is_not_found() {
    assert_eq!(get("/page/%FF").status, NOT_FOUND);
    assert_eq!(get("/page/ok/%C3").status, NOT_FOUND);
}

#[test]
fn page_keeps_a_broken_escape() {
    assert_eq!(get("/page/100%").body, "Page: 100%");
    assert_eq!(get("/page/%zz").body, "Page: %zz");
}

#[test]
fn secured_names_the_file() {
    assert_eq!(file_named("/secured/css/site.css"), "css/site.css");
    assert_eq!(file_named("/secured/a%20b.txt"), "a b.txt");
}

#[test]
fn secured_traversal_stays_below_the_root() {
    let file = file_named("/secured/../../etc/passwd");
    assert_eq!(file, "etc/passwd");
    assert!(!file.starts_with('/'));
    assert!(file.split('/').all(|name| name != ".."));
    let response = file_response(None);
    assert_eq!(response.status, NOT_FOUND);
}

#[test]
fn secured_encoded_traversal_stays_below_the_root() {
    assert_eq!(file_named("/secured/%2e%2e/%2E%2E/etc/passwd"), "etc/passwd");
    assert_eq!(file_named("/secured/a/../b"), "b");
    assert_eq!(file_named("/secured/a/./b"), "a/b");
}

#[test]
fn secured_refuses_a_hidden_separator() {
    assert_eq!(get("/secured/a%2Fb").status, NOT_FOUND);
    assert_eq!(get("/secured/a%5Cb").status, NOT_FOUND);
    assert_eq!(get("/secured/%2Fetc%2Fpasswd").status, NOT_FOUND);
}

#[test]
fn secured_root_is_no_file() {
    assert_eq!(get("/secured").status, NOT_FOUND);
    assert_eq!(get("/secured/").status, NOT_FOUND);
    assert_eq!(get("/secured/..").status, NOT_FOUND);
    assert_eq!(get("/secured/a/..").status, NOT_FOUND);
}

#[test]
fn missing_file_is_not_found() {
    let response = file_response(None);
    assert_eq!(response.status, NOT_FOUND);
    assert_eq!(response.body, "");
}

#[test]
fn found_file_is_sent() {
    let response = file_response(Some("<form></form>".to_string()));
    assert_eq!(response.status, OK);
    assert_eq!(response.body, "<form></form>");
}

#[test]
fn form_names_its_file() {
    assert_eq!(file_named("/form"), "index.html");
}

#[test]
fn cookie_is_set_and_read_back() {
    let first = get("/resource/42");
    assert_eq!(first.status, OK);
    assert_eq!(first.body, "Cookie set");
    assert_eq!(first.cookies.len(), 1);
    assert_eq!(first.cookies.entries()[0].name, "user_id");
    assert_eq!(first.cookies.entries()[0].value, "42");
    assert!(first.cookies.entries()[0].private);
    let later = respond_to(Request::new(Method::Get, "/resource").with_cookies(first.cookies));
    assert_eq!(later.status, OK);
    assert_eq!(later.body, "User id is 42");
    assert!(later.body.contains("42"));
}

#[test]
fn cookie_holds_the_decoded_id() {
    let first = get("/resource/ann%20lee");
    assert_eq!(first.cookies.entries()[0].value, "ann lee");
    let later = respond_to(Request::new(Method::Get, "/resource").with_cookies(first.cookies));
    assert_eq!(later.body, "User id is ann lee");
}

#[test]
fn missing_cookie_is_unauthorized() {
    let response = get("/resource");
    assert_eq!(response.status, UNAUTHORIZED);
    assert_eq!(response.body, "");
}

#[test]
fn plain_cookie_is_no_private_cookie() {
    let mut cookies = CookieJar::new();
    cookies.add("user_id".to_string(), "42".to_string());
    let response = respond_to(Request::new(Method::Get, "/resource").with_cookies(cookies));
    assert_eq!(response.status, UNAUTHORIZED);
}

#[test]
fn resource_id_with_bad_encoding_is_not_found() {
    assert_eq!(get("/resource/%FF").status, NOT_FOUND);
}

#[test]
fn form_is_said_back() {
    let response = post(
        "/doSomething",
        "name=Ann&age=30&email=ann%40example.com&password=open+sesame",
    );
    assert_eq!(response.status, OK);
    assert_eq!(
        response.body,
        "Name: Ann, Age: 30, Email: ann@example.com, Password: open sesame"
    );
    let name = response.body.find("Ann").unwrap();
    let age = response.body.find("30").unwrap();
    let email = response.body.find("ann@example.com").unwrap();
    let password = response.body.find("open sesame").unwrap();
    assert!(name < age && age < email && email < password);
}

#[test]
fn form_without_password_is_unprocessable() {
    let response = post("/doSomething", "name=Ann&age=30&email=ann%40example.com");
    assert_eq!(response.status, UNPROCESSABLE_ENTITY);
    assert_eq!(response.body, "");
}

#[test]
fn form_passes_over_other_fields() {
    let response = post("/doSomething", "x=1&name=A&age=2&email=e&y=&password=p&z");
    assert_eq!(response.body, "Name: A, Age: 2, Email: e, Password: p");
}

#[test]
fn form_takes_the_first_of_two_values() {
    let response = post("/doSomething", "name=A&name=B&age=2&email=e&password=p");
    assert_eq!(response.body, "Name: A, Age: 2, Email: e, Password: p");
}

#[test]
fn form_field_may_be_empty() {
    let response = post("/doSomething", "name=&age&email=e&password=p=q");
    assert_eq!(response.body, "Name: , Age: , Email: e, Password: p=q");
}

#[test]
fn form_with_bad_encoding_is_unprocessable() {
    assert_eq!(post("/doSomething", "name=%FF&age=2&email=e&password=p").status, UNPROCESSABLE_ENTITY);
}

#[test]
fn empty_form_is_unprocessable() {
    assert_eq!(post("/doSomething", "").status, UNPROCESSABLE_ENTITY);
}

#[test]
fn json_is_said_back() {
    let response = post("/json", "{\"name\":\"Alice\",\"age\":30}");
    assert_eq!(response.status, OK);
    assert_eq!(response.body, "Name: Alice, Age: 30");
    assert!(response.body.contains("Name: Alice, Age: 30"));
}

#[test]
fn json_age_out_of_range_is_unprocessable() {
    let response = post("/json", "{\"name\":\"Alice\",\"age\":999}");
    assert_eq!(response.status, UNPROCESSABLE_ENTITY);
    assert_eq!(post("/json", "{\"name\":\"Alice\",\"age\":256}").status, UNPROCESSABLE_ENTITY);
    assert_eq!(post("/json", "{\"name\":\"Alice\",\"age\":-1}").status, UNPROCESSABLE_ENTITY);
    assert_eq!(post("/json", "{\"name\":\"Alice\",\"age\":30.5}").status, UNPROCESSABLE_ENTITY);
}

#[test]
fn json_age_at_the_edges() {
    assert_eq!(post("/json", "{\"name\":\"A\",\"age\":0}").body, "Name: A, Age: 0");
    assert_eq!(post("/json", "{\"name\":\"A\",\"age\":255}").body, "Name: A, Age: 255");
}

#[test]
fn json_without_a_field_is_unprocessable() {
    assert_eq!(post("/json", "{\"name\":\"Alice\"}").status, UNPROCESSABLE_ENTITY);
    assert_eq!(post("/json", "{\"age\":30}").status, UNPROCESSABLE_ENTITY);
    assert_eq!(post("/json", "{}").status, UNPROCESSABLE_ENTITY);
}

#[test]
fn json_with_a_mistyped_field_is_unprocessable() {
    assert_eq!(post("/json", "{\"name\":\"Alice\",\"age\":\"30\"}").status, UNPROCESSABLE_ENTITY);
    assert_eq!(post("/json", "{\"name\":7,\"age\":30}").status, UNPROCESSABLE_ENTITY);
    assert_eq!(post("/json", "{\"name\":null,\"age\":30}").status, UNPROCESSABLE_ENTITY);
}

#[test]
fn json_that_is_no_object_is_unprocessable() {
    assert_eq!(post("/json", "[\"Alice\",30]").status, UNPROCESSABLE_ENTITY);
    assert_eq!(post("/json", "30").status, UNPROCESSABLE_ENTITY);
}

#[test]
fn malformed_json_is_a_bad_request() {
    assert_eq!(post("/json", "{\"name\":\"Alice\",").status, BAD_REQUEST);
    assert_eq!(post("/json", "").status, BAD_REQUEST);
    assert_eq!(post("/json", "{\"name\":\"Alice\",\"age\":30} x").status, BAD_REQUEST);
}

#[test]
fn json_passes_over_other_members() {
    let response = post("/json", " { \"id\": [1, 2], \"age\": 7, \"name\": \"Bo\\u0062\" } ");
    assert_eq!(response.body, "Name: Bob, Age: 7");
}

#[test]
fn credentials_are_said_back() {
    let response = get("/auth?username=ann&password=s%20ecret");
    assert_eq!(response.status, OK);
    assert_eq!(response.body, "Username: ann, Password: s ecret");
}

#[test]
fn credentials_come_in_any_order() {
    let response = get("/auth?password=p&x=1&username=u");
    assert_eq!(response.body, "Username: u, Password: p");
}

#[test]
fn plus_in_a_query_is_a_plus() {
    assert_eq!(get("/auth?username=a+b&password=p").body, "Username: a+b, Password: p");
}

#[test]
fn query_ends_the_path_at_the_first_mark() {
    assert_eq!(get("/auth?username=a?b&password=p").body, "Username: a?b, Password: p");
    assert_eq!(get("/earth?x=1").body, "Hello Earth");
}

#[test]
fn missing_query_parameter_is_not_found() {
    assert_eq!(get("/auth?username=ann").status, NOT_FOUND);
    assert_eq!(get("/auth").status, NOT_FOUND);
    assert_eq!(get("/auth?").status, NOT_FOUND);
}

#[test]
fn query_parameter_with_bad_encoding_is_not_found() {
    assert_eq!(get("/auth?username=%FF&password=p").status, NOT_FOUND);
}

#[test]
fn number_is_accepted() {
    let response = post("/7", "");
    assert_eq!(response.status, ACCEPTED);
    assert_eq!(response.status, 202);
    assert_eq!(response.body, "Hello 7");
    assert!(response.body.contains("Hello 7"));
}

#[test]
fn numbers_at_the_edges() {
    assert_eq!(post("/0", "").body, "Hello 0");
    assert_eq!(post("/007", "").body, "Hello 7");
    assert_eq!(post("/+12", "").body, "Hello 12");
    let largest = usize::MAX.to_string();
    assert_eq!(post(&format!("/{}", largest), "").body, format!("Hello {}", largest));
}

#[test]
fn text_is_no_number() {
    let response = post("/abc", "");
    assert_eq!(response.status, NOT_FOUND);
    assert!(400 <= response.status && response.status <= 499);
    assert_ne!(response.status, ACCEPTED);
}

#[test]
fn more_texts_that_are_no_numbers() {
    assert_eq!(post("/-7", "").status, NOT_FOUND);
    assert_eq!(post("/7a", "").status, NOT_FOUND);
    assert_eq!(post("/+", "").status, NOT_FOUND);
    assert_eq!(post("/++7", "").status, NOT_FOUND);
    assert_eq!(post("/%37", "").status, NOT_FOUND);
    assert_eq!(post("/340282366920938463463374607431768211456", "").status, NOT_FOUND);
}

#[test]
fn literal_route_goes_before_the_number() {
    assert_eq!(post("/json", "{\"name\":\"A\",\"age\":1}").status, OK);
    assert_eq!(post("/doSomething", "name=A&age=1&email=e&password=p").status, OK);
}

#[test]
fn no_route_is_not_found() {
    assert_eq!(get("/nowhere").status, NOT_FOUND);
    assert_eq!(get("/nowhere").body, "");
    assert_eq!(get("/resource/1/2").status, NOT_FOUND);
    assert_eq!(post("/", "").status, NOT_FOUND);
    assert_eq!(post("/7/8", "").status, NOT_FOUND);
}

#[test]
fn method_is_part_of_the_route() {
    assert_eq!(get("/json").status, NOT_FOUND);
    assert_eq!(get("/doSomething").status, NOT_FOUND);
    assert_eq!(get("/7").status, NOT_FOUND);
    assert_eq!(post("/earth", "").status, NOT_FOUND);
}
