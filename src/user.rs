use vstd::prelude::*;
use vstd::string::*;

use crate::fetch::{FetchView, SavedFetch};

verus! {

/// Host that serves every request authenticated with a bearer token.
pub open spec fn oauth_base() -> Seq<char> {
    "https://oauth.reddit.com"@
}

/// `<base>/user/{name}/{endpoint}`.
pub open spec fn user_endpoint(name: Seq<char>, endpoint: Seq<char>) -> Seq<char> {
    oauth_base() + "/user/"@ + name + "/"@ + endpoint
}

/// `<base>/api/unsave`.
pub open spec fn unsave_endpoint() -> Seq<char> {
    oauth_base() + "/api/unsave"@
}

/// Credentials of an authorized session.
pub struct Auth {
    /// Bearer token presented on every request.
    pub access_token: String,
}

impl Auth {
    pub fn new(access_token: String) -> (r: Self)
        ensures
            r.access_token@ == access_token@,
    {
        Auth { access_token }
    }
}

/// What a `User` stands for: the account name and the bearer token used for it.
pub struct UserView {
    pub name: Seq<char>,
    pub token: Seq<char>,
}

/// The account whose saved items are listed, with the session that may list them.
pub struct User<'a> {
    auth: &'a Auth,
    name: &'a str,
}

impl<'a> View for User<'a> {
    type V = UserView;

    closed spec fn view(&self) -> UserView {
        UserView { name: self.name@, token: self.auth.access_token@ }
    }
}

fn user_url(name: &str, endpoint: &str) -> (r: String)
    ensures
        r@ == user_endpoint(name@, endpoint@),
{
    let mut url = String::from_str("https://oauth.reddit.com");
    url.append("/user/");
    url.append(name);
    url.append("/");
    url.append(endpoint);
    url
}

impl<'a> User<'a> {
    pub fn new(auth: &'a Auth, name: &'a str) -> (r: Self)
        ensures
            r@.name == name@,
            r@.token == auth.access_token@,
    {
        User { auth, name }
    }

    pub fn name(&self) -> (r: &'a str)
        ensures
            r@ == self@.name,
    {
        self.name
    }

    /// The bearer token to present on every request for this account.
    pub fn access_token(&self) -> (r: &'a str)
        ensures
            r@ == self@.token,
    {
        self.auth.access_token.as_str()
    }

    /// Profile endpoint of the account.
    pub fn about_url(&self) -> (r: String)
        ensures
            r@ == user_endpoint(self@.name, "about"@),
    {
        user_url(self.name, "about")
    }

    /// Listing endpoint of the account's saved items.
    pub fn saved_url(&self) -> (r: String)
        ensures
            r@ == user_endpoint(self@.name, "saved"@),
    {
        user_url(self.name, "saved")
    }

    /// A fresh retrieval of every page of the account's saved items, handing out
    /// at most `max_pages` requests.
    pub fn saved_fetch<P>(&self, max_pages: u64) -> (r: SavedFetch<P>)
        ensures
            r.inv(),
            r@ == FetchView::<P>::start(user_endpoint(self@.name, "saved"@), max_pages as nat),
    {
        SavedFetch::new(self.saved_url(), max_pages)
    }

    /// Endpoint that removes an item from the saved list.
    pub fn unsave_url() -> (r: String)
        ensures
            r@ == unsave_endpoint(),
    {
        let mut url = String::from_str("https://oauth.reddit.com");
        url.append("/api/unsave");
        url
    }

    /// The one form field of an unsave request: the item's full name under `id`.
    pub fn unsave_form(item: &str) -> (r: (String, String))
        ensures
            r.0@ == "id"@,
            r.1@ == item@,
    {
        (String::from_str("id"), String::from_str(item))
    }
}

} // verus!
