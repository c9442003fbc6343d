//! The cookie jar of one exchange. Private cookies are those that travel
//! sealed, so that the client can neither read nor forge them; the jar keeps
//! them apart from plain ones and hands a private value out only for a cookie
//! that was stored as private.

use vstd::prelude::*;
use crate::text::same_text;

verus! {

/// One cookie.
#[derive(Debug)]
pub struct Cookie {
    pub name: String,
    pub value: String,
    pub private: bool,
}

/// A cookie as plain values.
pub struct CookieView {
    pub name: Seq<char>,
    pub value: Seq<char>,
    pub private: bool,
}

impl View for Cookie {
    type V = CookieView;

    open spec fn view(&self) -> CookieView {
        CookieView { name: self.name@, value: self.value@, private: self.private }
    }
}

/// The cookies of one request, or those that one response sets, oldest first.
#[derive(Debug)]
pub struct CookieJar {
    cookies: Vec<Cookie>,
}

impl View for CookieJar {
    type V = Seq<CookieView>;

    closed spec fn view(&self) -> Seq<CookieView> {
        Seq::new(self.cookies@.len(), |i: int| self.cookies@[i]@)
    }
}

/// The cookie of that name that was stored last.
pub open spec fn latest(jar: Seq<CookieView>, name: Seq<char>) -> Option<CookieView>
    decreases jar.len(),
{
    if jar.len() == 0 {
        None
    } else if jar.last().name == name {
        Some(jar.last())
    } else {
        latest(jar.drop_last(), name)
    }
}

/// The value of the private cookie of that name. A plain cookie stored over it
/// hides it.
pub open spec fn private_value(jar: Seq<CookieView>, name: Seq<char>) -> Option<Seq<char>> {
    match latest(jar, name) {
        Some(cookie) => if cookie.private {
            Some(cookie.value)
        } else {
            None
        },
        None => None,
    }
}

/// The value of the plain cookie of that name. A private cookie stored over it
/// hides it.
pub open spec fn plain_value(jar: Seq<CookieView>, name: Seq<char>) -> Option<Seq<char>> {
    match latest(jar, name) {
        Some(cookie) => if cookie.private {
            None
        } else {
            Some(cookie.value)
        },
        None => None,
    }
}

/// A cookie that was just stored is the one found under its name, and the
/// cookies of every other name are found as before.
pub proof fn lemma_latest_after_store(jar: Seq<CookieView>, cookie: CookieView, name: Seq<char>)
    ensures
        latest(jar.push(cookie), cookie.name) == Some(cookie),
        name != cookie.name ==> latest(jar.push(cookie), name) == latest(jar, name),
{
    assert(jar.push(cookie).drop_last() == jar);
}

impl CookieJar {
    /// A jar without cookies.
    pub fn new() -> (jar: CookieJar)
        ensures
            jar@ == Seq::<CookieView>::empty(),
    {
        CookieJar { cookies: Vec::new() }
    }

    /// How many cookies were stored.
    pub fn len(&self) -> (n: usize)
        ensures
            n == self@.len(),
    {
        self.cookies.len()
    }

    /// The cookies in the order in which they were stored.
    pub fn entries(&self) -> (all: &Vec<Cookie>)
        ensures
            all@.len() == self@.len(),
            forall|i: int| 0 <= i < all@.len() ==> (#[trigger] all@[i])@ == self@[i],
    {
        &self.cookies
    }

    fn store(&mut self, cookie: Cookie)
        ensures
            final(self)@ == old(self)@.push(cookie@),
    {
        self.cookies.push(cookie);
    }

    /// Stores a plain cookie.
    pub fn add(&mut self, name: String, value: String)
        ensures
            final(self)@ == old(self)@.push(
                (CookieView { name: name@, value: value@, private: false }),
            ),
    {
        self.store(Cookie { name, value, private: false });
    }

    /// Stores a private cookie.
    pub fn add_private(&mut self, name: String, value: String)
        ensures
            final(self)@ == old(self)@.push(
                (CookieView { name: name@, value: value@, private: true }),
            ),
    {
        self.store(Cookie { name, value, private: true });
    }

    fn find(&self, name: &str) -> (r: Option<&Cookie>)
        ensures
            r is Some <==> latest(self@, name@) is Some,
            r matches Some(cookie) ==> latest(self@, name@) == Some(cookie@),
    {
        let mut i: usize = self.cookies.len();
        assert(self@.take(i as int) == self@);
        while i > 0
            invariant
                i <= self.cookies.len(),
                latest(self@, name@) == latest(self@.take(i as int), name@),
            decreases i,
        {
            let ghost upto = self@.take(i as int);
            assert(upto.last() == self.cookies[i - 1]@);
            assert(upto.drop_last() == self@.take(i - 1));
            if same_text(self.cookies[i - 1].name.as_str(), name) {
                return Some(&self.cookies[i - 1]);
            }
            i = i - 1;
        }
        None
    }

    /// The value of the plain cookie of that name, if the jar has one.
    pub fn get(&self, name: &str) -> (r: Option<&String>)
        ensures
            r is Some <==> plain_value(self@, name@) is Some,
            r matches Some(value) ==> plain_value(self@, name@) == Some(value@),
    {
        match self.find(name) {
            Some(cookie) => if cookie.private {
                None
            } else {
                Some(&cookie.value)
            },
            None => None,
        }
    }

    /// The value of the private cookie of that name, if the jar has one.
    pub fn get_private(&self, name: &str) -> (r: Option<&String>)
        ensures
            r is Some <==> private_value(self@, name@) is Some,
            r matches Some(value) ==> private_value(self@, name@) == Some(value@),
    {
        match self.find(name) {
            Some(cookie) => if cookie.private {
                Some(&cookie.value)
            } else {
                None
            },
            None => None,
        }
    }
}

} // verus!
