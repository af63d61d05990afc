use supernova::collect::{Action, CollectError, Collector, Page};
use supernova::config::Config;
use supernova::link::HeaderField;
use supernova::model::{Repository, Star, Timestamp};

fn star(id: i32, name: &str) -> Star {
    Star {
        starred_at: Timestamp { seconds: 1_500_000_000, nanos: 0 },
        repo: Repository {
            id,
            html_url: format!("https://github.com/{}", name),
            full_name: name.to_string(),
            description: None,
            stargazers_count: 1,
        },
    }
}

fn page(status: u16, next: Option<&str>, stars: Option<Vec<Star>>) -> Page {
    let headers = match next {
        Some(u) => vec![HeaderField { name: "link".to_string(), value: format!("<{}>; rel=\"next\"", u) }],
        None => Vec::new(),
    };
    Page { status, headers, stars }
}

fn octocat() -> Collector {
    Collector::new(Config::new(vec!["prog".to_string(), "octocat".to_string()]).unwrap())
}

const FIRST: &str = "https://api.github.com/users/octocat/starred";
const SECOND: &str = "https://api.github.com/user/583231/starred?page=2";

#[test]
fn two_pages_give_three_stars_in_two_requests() {
    let mut c = octocat();
    let mut fetched = Vec::new();
    let mut pages = vec![
        page(200, Some(SECOND), Some(vec![star(1, "a/a"), star(2, "b/b")])),
        page(200, None, Some(vec![star(3, "c/c")])),
    ]
    .into_iter();
    let mut action = c.start();
    let count = loop {
        match action {
            Action::Fetch(url) => {
                fetched.push(url);
                action = c.receive(pages.next().unwrap());
            }
            Action::Finish(n) => break n,
            Action::Abort(e) => panic!("unexpected {:?}", e),
        }
    };
    assert_eq!(count, 3);
    assert_eq!(fetched, vec![FIRST.to_string(), SECOND.to_string()]);
    let ids: Vec<i32> = c.stars().iter().map(|s| s.repo.id).collect();
    assert_eq!(ids, vec![1, 2, 3]);
}

#[test]
fn not_found_on_second_page_aborts() {
    let mut c = octocat();
    assert!(matches!(c.start(), Action::Fetch(u) if u == FIRST));
    let a = c.receive(page(200, Some(SECOND), Some(vec![star(1, "a/a")])));
    assert!(matches!(a, Action::Fetch(u) if u == SECOND));
    let a = c.receive(page(404, None, None));
    assert!(matches!(a, Action::Abort(CollectError::Status(404))));
    assert!(c.stars().is_empty());
    assert!(matches!(c.start(), Action::Abort(CollectError::Status(404))));
    let a = c.receive(page(200, None, Some(vec![star(2, "b/b")])));
    assert!(matches!(a, Action::Abort(CollectError::Status(404))));
    assert!(c.stars().is_empty());
}

#[test]
fn malformed_body_aborts() {
    let mut c = octocat();
    let a = c.receive(page(200, Some(SECOND), None));
    assert!(matches!(a, Action::Abort(CollectError::Malformed)));
    assert!(c.stars().is_empty());
}

#[test]
fn transport_failure_aborts() {
    let mut c = octocat();
    c.receive(page(200, Some(SECOND), Some(vec![star(1, "a/a")])));
    assert!(matches!(c.transport_failed(), Action::Abort(CollectError::Transport)));
    assert!(c.stars().is_empty());
    assert!(matches!(c.start(), Action::Abort(CollectError::Transport)));
}

#[test]
fn empty_last_page_finishes_with_count_so_far() {
    let mut c = octocat();
    c.receive(page(200, Some(SECOND), Some(vec![star(1, "a/a"), star(2, "b/b")])));
    assert!(matches!(c.receive(page(204, None, Some(Vec::new()))), Action::Finish(2)));
}

#[test]
fn redirect_status_is_not_success() {
    let mut c = octocat();
    assert!(matches!(c.receive(page(301, None, Some(Vec::new()))), Action::Abort(CollectError::Status(301))));
}

#[test]
fn stops_after_last_page_even_if_more_exist() {
    let mut c = octocat();
    let mut pages = vec![
        page(200, Some(SECOND), Some(vec![star(1, "a/a")])),
        page(200, Some("https://x.test/third"), Some(vec![star(2, "b/b")])),
        page(200, None, Some(vec![star(3, "c/c"), star(4, "d/d")])),
        page(200, None, Some(vec![star(5, "e/e")])),
    ]
    .into_iter();
    let mut fetches = 0;
    let mut action = c.start();
    let count = loop {
        match action {
            Action::Fetch(_) => {
                fetches += 1;
                action = c.receive(pages.next().unwrap());
            }
            Action::Finish(n) => break n,
            Action::Abort(e) => panic!("unexpected {:?}", e),
        }
    };
    assert_eq!(fetches, 3);
    assert_eq!(count, 4);
    assert_eq!(pages.len(), 1);
    let ids: Vec<i32> = c.stars().iter().map(|s| s.repo.id).collect();
    assert_eq!(ids, vec![1, 2, 3, 4]);
}
