//! The handlers: what each route answers, from values that are already
//! decoded.

use vstd::prelude::*;
use vstd::string::StringExecFns;
use crate::cookie::{CookieJar, CookieView, private_value};
use crate::form::{UserData, UserDataView};
use crate::json::{SomeJSON, SomeJSONView};
use crate::number::{decimal, decimal_text};
use crate::path::{relative_path, resolve, resolved};
use crate::text::{join, join_text, texts};

verus! {

/// The name of the private cookie that remembers a visitor.
pub open spec fn user_cookie() -> Seq<char> {
    "user_id"@
}

/// What `GET /earth/<continent>` says of a continent.
pub open spec fn continent_text(continent: Seq<char>) -> Seq<char> {
    "Continent: "@ + continent
}

/// What `GET /page/<path..>` says of a path.
pub open spec fn page_text(path: Seq<Seq<char>>) -> Seq<char> {
    "Page: "@ + join(path, '/')
}

/// What `GET /resource` says of a visitor.
pub open spec fn user_text(id: Seq<char>) -> Seq<char> {
    "User id is "@ + id
}

/// What `POST /doSomething` says of a form.
pub open spec fn form_text(form: UserDataView) -> Seq<char> {
    "Name: "@ + form.name + ", Age: "@ + form.age + ", Email: "@ + form.email + ", Password: "@
        + form.password
}

/// What `POST /json` says of a record.
pub open spec fn json_text_of(record: SomeJSONView) -> Seq<char> {
    "Name: "@ + record.name + ", Age: "@ + decimal(record.age as nat)
}

/// What `GET /auth` says of a visitor's credentials.
pub open spec fn auth_text(username: Seq<char>, password: Seq<char>) -> Seq<char> {
    "Username: "@ + username + ", Password: "@ + password
}

/// What `POST /<id>` says of a number.
pub open spec fn few_text(id: nat) -> Seq<char> {
    "Hello "@ + decimal(id)
}

/// The file below the static root that a captured path names, if it names
/// one: the names it resolves to, joined by slashes. A path that resolves to
/// the root itself names no file.
pub open spec fn secured_file(path: Seq<Seq<char>>) -> Option<Seq<char>> {
    match resolved(path) {
        Some(location) => if location.len() > 0 {
            Some(relative_path(location))
        } else {
            None
        },
        None => None,
    }
}

/// `GET /`: a fixed greeting.
pub fn index() -> (text: &'static str)
    ensures
        text@ == "Hello World"@,
{
    "Hello World"
}

/// `GET /earth`: a fixed greeting.
pub fn earth() -> (text: &'static str)
    ensures
        text@ == "Hello Earth"@,
{
    "Hello Earth"
}

/// `GET /earth/<continent>`: names the continent as the request wrote it,
/// escapes and all.
pub fn continent(segment: &str) -> (text: String)
    ensures
        text@ == continent_text(segment@),
{
    String::from_str("Continent: ").concat(segment)
}

/// `GET /page/<path..>`: names the path, its segments joined by slashes.
pub fn page(path: &Vec<String>) -> (text: String)
    ensures
        text@ == page_text(texts(path@)),
{
    let joined = join_text(path, '/');
    String::from_str("Page: ").concat(joined.as_str())
}

/// `GET /secured/<path..>`: the file below the static root to answer with, as
/// a relative path, or `None` where the captured path names none.
pub fn secured(path: &Vec<String>) -> (file: Option<String>)
    ensures
        file is Some <==> secured_file(texts(path@)) is Some,
        file matches Some(name) ==> secured_file(texts(path@)) == Some(name@),
{
    match resolve(path) {
        Some(location) => if location.len() > 0 {
            Some(join_text(&location, '/'))
        } else {
            None
        },
        None => None,
    }
}

/// `GET /resource/<id>`: remembers the visitor in a private cookie.
pub fn set_cookie(id: String, cookies: &mut CookieJar) -> (text: String)
    ensures
        text@ == "Cookie set"@,
        final(cookies)@ == old(cookies)@.push(
            (CookieView { name: user_cookie(), value: id@, private: true }),
        ),
{
    cookies.add_private(String::from_str("user_id"), id);
    String::from_str("Cookie set")
}

/// `GET /resource`: names the visitor that the private cookie remembers, or
/// `None` where the request brought no such cookie.
pub fn get_cookie(cookies: &CookieJar) -> (text: Option<String>)
    ensures
        match private_value(cookies@, user_cookie()) {
            Some(id) => text matches Some(t) && t@ == user_text(id),
            None => text is None,
        },
{
    match cookies.get_private("user_id") {
        Some(id) => Some(String::from_str("User id is ").concat(id.as_str())),
        None => None,
    }
}

/// `GET /form`: the file below the static root that holds the form.
pub fn form() -> (file: &'static str)
    ensures
        file@ == "index.html"@,
{
    "index.html"
}

/// `POST /doSomething`: says the form back, field by field.
pub fn do_something(param: &UserData) -> (text: String)
    ensures
        text@ == form_text(param@),
{
    let mut text = String::from_str("Name: ");
    text.append(param.name.as_str());
    text.append(", Age: ");
    text.append(param.age.as_str());
    text.append(", Email: ");
    text.append(param.email.as_str());
    text.append(", Password: ");
    text.append(param.password.as_str());
    text
}

/// `POST /json`: says the record back.
pub fn pass_json(json: &SomeJSON) -> (text: String)
    ensures
        text@ == json_text_of(json@),
{
    let mut text = String::from_str("Name: ");
    text.append(json.name.as_str());
    text.append(", Age: ");
    text.append(decimal_text(json.age as usize).as_str());
    text
}

/// `GET /auth?<username>&<password>`: says the credentials back.
pub fn authenticate(username: &str, password: &str) -> (text: String)
    ensures
        text@ == auth_text(username@, password@),
{
    let mut text = String::from_str("Username: ");
    text.append(username);
    text.append(", Password: ");
    text.append(password);
    text
}

/// `POST /<id>`: greets the number. The answer goes out as accepted.
pub fn few(id: usize) -> (text: String)
    ensures
        text@ == few_text(id as nat),
{
    String::from_str("Hello ").concat(decimal_text(id).as_str())
}

} // verus!
