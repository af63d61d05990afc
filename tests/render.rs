use supernova::model::{Repository, Star, Timestamp};

fn repo(description: Option<&str>) -> Repository {
    Repository {
        id: 7,
        html_url: "https://github.com/rust-lang/rust".to_string(),
        full_name: "rust-lang/rust".to_string(),
        description: description.map(|d| d.to_string()),
        stargazers_count: 90000,
    }
}

#[test]
fn repository_with_description() {
    assert_eq!(
        repo(Some("Empowering everyone")).render(),
        "[rust-lang/rust](https://github.com/rust-lang/rust) - Empowering everyone"
    );
}

#[test]
fn repository_without_description() {
    assert_eq!(repo(None).render(), "[rust-lang/rust](https://github.com/rust-lang/rust)");
}

#[test]
fn star_renders_its_repository() {
    let s = Star { starred_at: Timestamp { seconds: 0, nanos: 0 }, repo: repo(None) };
    assert_eq!(s.render(), "[rust-lang/rust](https://github.com/rust-lang/rust)");
}

#[test]
fn timestamp_nanoseconds_are_bounded() {
    assert_eq!(Timestamp::new(5, 1_999_999_999), Some(Timestamp { seconds: 5, nanos: 1_999_999_999 }));
    assert_eq!(Timestamp::new(5, 2_000_000_000), None);
}
