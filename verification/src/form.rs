//! The form that `POST /doSomething` takes.

use vstd::prelude::*;
use crate::pairs::{find_value, pair_texts, pairs_of, parse_pairs, value_of};
use crate::percent::{form_decode, form_decoded};

verus! {

/// What a visitor fills in.
#[derive(Debug)]
pub struct UserData {
    pub name: String,
    pub age: String,
    pub email: String,
    pub password: String,
}

/// The form's fields as plain values.
pub struct UserDataView {
    pub name: Seq<char>,
    pub age: Seq<char>,
    pub email: Seq<char>,
    pub password: Seq<char>,
}

impl View for UserData {
    type V = UserDataView;

    open spec fn view(&self) -> UserDataView {
        UserDataView {
            name: self.name@,
            age: self.age@,
            email: self.email@,
            password: self.password@,
        }
    }
}

/// The decoded value of a form field: that of the first pair with this key.
/// `None` where no pair has the key, or where its value does not decode.
pub open spec fn form_field(pairs: Seq<(Seq<char>, Seq<char>)>, key: Seq<char>) -> Option<
    Seq<char>,
> {
    match value_of(pairs, key) {
        Some(raw) => form_decoded(raw),
        None => None,
    }
}

/// The form that a body holds, if it has all four fields and each decodes.
/// Fields of other names are passed over.
pub open spec fn user_data_of(body: Seq<char>) -> Option<UserDataView> {
    let pairs = pairs_of(body);
    match (
        form_field(pairs, "name"@),
        form_field(pairs, "age"@),
        form_field(pairs, "email"@),
        form_field(pairs, "password"@),
    ) {
        (Some(name), Some(age), Some(email), Some(password)) => Some(
            UserDataView { name, age, email, password },
        ),
        _ => None,
    }
}

fn decode_field(pairs: &Vec<(String, String)>, key: &str) -> (r: Option<String>)
    ensures
        r is Some <==> form_field(pair_texts(pairs@), key@) is Some,
        r matches Some(value) ==> form_field(pair_texts(pairs@), key@) == Some(value@),
{
    match find_value(pairs, key) {
        Some(raw) => form_decode(raw.as_str()),
        None => None,
    }
}

/// Reads the form from a form-encoded body.
pub fn decode_user_data(body: &str) -> (r: Option<UserData>)
    ensures
        r is Some <==> user_data_of(body@) is Some,
        r matches Some(form) ==> user_data_of(body@) == Some(form@),
{
    let pairs = parse_pairs(body);
    let name = decode_field(&pairs, "name");
    let age = decode_field(&pairs, "age");
    let email = decode_field(&pairs, "email");
    let password = decode_field(&pairs, "password");
    match (name, age, email, password) {
        (Some(name), Some(age), Some(email), Some(password)) => Some(
            UserData { name, age, email, password },
        ),
        _ => None,
    }
}

} // verus!
