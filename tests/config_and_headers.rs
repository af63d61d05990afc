use supernova::client::{request_headers, ClientBuilder};
use supernova::config::Config;

fn args(v: &[&str]) -> Vec<String> {
    v.iter().map(|s| s.to_string()).collect()
}

fn pairs(hs: &[supernova::link::HeaderField]) -> Vec<(String, String)> {
    hs.iter().map(|f| (f.name.clone(), f.value.clone())).collect()
}

#[test]
fn missing_username_is_an_error() {
    assert_eq!(Config::new(args(&["prog"])).err(), Some("No username provided"));
    assert_eq!(Config::new(Vec::new()).err(), Some("No username provided"));
}

#[test]
fn username_and_token_are_read() {
    let c = Config::new(args(&["prog", "octocat", "abc"])).unwrap();
    assert_eq!(c.token(), Some(&"abc".to_string()));
    assert_eq!(c.url(), Some("https://api.github.com/users/octocat/starred".to_string()));
    let c = Config::new(args(&["prog", "octocat"])).unwrap();
    assert_eq!(c.token(), None);
}

#[test]
fn own_stars_endpoint() {
    let c = Config::with_credentials("octocat".to_string(), Some("t".to_string())).with_own_stars(true);
    assert_eq!(c.url(), Some("https://api.github.com/user/starred".to_string()));
    let c = Config::with_credentials("octocat".to_string(), None).with_own_stars(false);
    assert_eq!(c.url(), Some("https://api.github.com/users/octocat/starred".to_string()));
}

#[test]
fn token_gives_bearer_authorization() {
    let c = Config::with_credentials("octocat".to_string(), Some("s3cr3t".to_string()));
    let hs = pairs(&request_headers(&c));
    assert_eq!(
        hs,
        vec![
            ("Accept".to_string(), "application/vnd.github.v3.star+json".to_string()),
            ("User-Agent".to_string(), "supernova/0.1.0".to_string()),
            ("Authorization".to_string(), "Bearer s3cr3t".to_string()),
        ]
    );
}

#[test]
fn no_token_no_authorization_field() {
    let c = Config::with_credentials("octocat".to_string(), None);
    let hs = pairs(&request_headers(&c));
    assert_eq!(hs.len(), 2);
    assert!(hs.iter().all(|(n, _)| n != "Authorization"));
}

#[test]
fn builder_replaces_token_and_empties_on_build() {
    let mut b = ClientBuilder::new();
    b.set_authorization_token("one".to_string());
    b.set_authorization_token("two".to_string());
    let hs = pairs(&b.build());
    assert_eq!(hs.len(), 3);
    assert_eq!(hs[2], ("Authorization".to_string(), "Bearer two".to_string()));
    assert!(b.build().is_empty());
}
