use reddsaver::fetch::Phase;
use reddsaver::user::{Auth, User};

#[test]
fn user_keeps_name_and_token() {
    let auth = Auth::new("tok".to_string());
    let user = User::new(&auth, "bob");
    assert_eq!(user.name(), "bob");
    assert_eq!(user.access_token(), "tok");
}

#[test]
fn endpoints_go_to_the_oauth_host() {
    let auth = Auth::new("tok".to_string());
    let user = User::new(&auth, "bob");
    assert_eq!(user.about_url(), "https://oauth.reddit.com/user/bob/about");
    assert_eq!(user.saved_url(), "https://oauth.reddit.com/user/bob/saved");
    assert_eq!(User::unsave_url(), "https://oauth.reddit.com/api/unsave");
}

#[test]
fn unsave_form_names_the_item() {
    assert_eq!(User::unsave_form("t3_abc"), ("id".to_string(), "t3_abc".to_string()));
}

#[test]
fn saved_fetch_starts_at_the_listing_without_cursor() {
    let auth = Auth::new("tok".to_string());
    let user = User::new(&auth, "alice");
    let mut fetch = user.saved_fetch::<u8>(10);
    assert_eq!(fetch.phase(), Phase::Fetching);
    let req = fetch.next_request().unwrap();
    assert_eq!(req.url, "https://oauth.reddit.com/user/alice/saved");
    assert_eq!(req.after, None);
    assert_eq!(req.limit, 100);
}
