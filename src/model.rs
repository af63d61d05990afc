//! Starred entries and the repositories they point at.
use vstd::prelude::*;

verus! {

/// An instant in UTC: whole seconds since the Unix epoch and the
/// nanoseconds past that second.
#[derive(Debug, Clone, Copy, PartialEq, Eq)]
pub struct Timestamp {
    pub seconds: i64,
    pub nanos: u32,
}

impl Timestamp {
    /// The nanoseconds stay below two seconds' worth: one second, and a
    /// second more where a leap second is being counted.
    pub open spec fn wf(&self) -> bool {
        self.nanos < 2_000_000_000
    }

    /// The instant `seconds` and `nanos` past it, where `nanos` is in range.
    pub fn new(seconds: i64, nanos: u32) -> (r: Option<Timestamp>)
        ensures
            r is Some <==> nanos < 2_000_000_000,
            r matches Some(t) ==> t.wf() && t.seconds == seconds && t.nanos == nanos,
    {
        if nanos < 2_000_000_000 {
            Some(Timestamp { seconds, nanos })
        } else {
            None
        }
    }
}

#[derive(Debug)]
pub struct Repository {
    pub id: i32,
    pub html_url: String,
    pub full_name: String,
    pub description: Option<String>,
    pub stargazers_count: i32,
}

/// One repository that the account starred, and when.
#[derive(Debug)]
pub struct Star {
    pub starred_at: Timestamp,
    pub repo: Repository,
}

/// `[full name](url)`, then ` - description` where there is one.
pub open spec fn repository_text(r: Repository) -> Seq<char> {
    let head = "["@ + r.full_name@ + "]("@ + r.html_url@ + ")"@;
    match r.description {
        Some(d) => head + " - "@ + d@,
        None => head,
    }
}

impl Repository {
    /// The repository as one line of text.
    pub fn render(&self) -> (r: String)
        ensures
            r@ == repository_text(*self),
    {
        let mut s = String::from_str("[");
        s.append(self.full_name.as_str());
        s.append("](");
        s.append(self.html_url.as_str());
        s.append(")");
        match &self.description {
            Some(d) => {
                s.append(" - ");
                s.append(d.as_str());
            },
            None => {},
        }
        s
    }
}

impl Star {
    pub open spec fn wf(&self) -> bool {
        self.starred_at.wf()
    }

    /// The starred repository as one line of text.
    pub fn render(&self) -> (r: String)
        ensures
            r@ == repository_text(self.repo),
    {
        self.repo.render()
    }
}

} // verus!
