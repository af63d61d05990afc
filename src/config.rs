use vstd::prelude::*;

verus! {

/// Host and path prefix of the starring endpoints.
pub open spec fn api_base() -> Seq<char> {
    "https://api.github.com"@
}

/// The public list of repositories starred by `user`.
pub open spec fn user_starred_url(user: Seq<char>) -> Seq<char> {
    api_base() + "/users/"@ + user + "/starred"@
}

/// The list of repositories starred by the authenticated caller,
/// private ones included.
pub open spec fn own_starred_url() -> Seq<char> {
    api_base() + "/user/starred"@
}

/// The account whose starred repositories are collected, the optional
/// bearer token presented with each request, and which endpoint lists them.
#[derive(Debug)]
pub struct Config {
    username: String,
    token: Option<String>,
    own_stars: bool,
}

impl Config {
    pub closed spec fn spec_username(&self) -> Seq<char> {
        self.username@
    }

    pub closed spec fn spec_token(&self) -> Option<Seq<char>> {
        match self.token {
            Some(t) => Some(t@),
            None => None,
        }
    }

    pub closed spec fn spec_own_stars(&self) -> bool {
        self.own_stars
    }

    /// The first page to fetch: the account's public list, or, when the
    /// caller asked for its own stars, the authenticated list.
    pub open spec fn spec_url(&self) -> Seq<char> {
        if self.spec_own_stars() {
            own_starred_url()
        } else {
            user_starred_url(self.spec_username())
        }
    }

    /// Reads the program's arguments: the first is the program itself, the
    /// second the account name (required), the third an optional token.
    pub fn new(args: Vec<String>) -> (r: Result<Config, &'static str>)
        ensures
            args@.len() < 2 <==> r is Err,
            args@.len() < 2 ==> r == Err::<Config, &'static str>("No username provided"),
            r is Ok ==> r->Ok_0.spec_username() == args@[1]@,
            r is Ok ==> r->Ok_0.spec_token() == (if args@.len() > 2 {
                Some(args@[2]@)
            } else {
                None
            }),
            r is Ok ==> !r->Ok_0.spec_own_stars(),
    {
        let mut args = args;
        if args.len() < 2 {
            return Err("No username provided");
        }
        let token = if args.len() > 2 {
            Some(args.remove(2))
        } else {
            None
        };
        let username = args.remove(1);
        Ok(Config { username, token, own_stars: false })
    }

    /// A configuration for `username`, with an optional token.
    pub fn with_credentials(username: String, token: Option<String>) -> (r: Config)
        ensures
            r.spec_username() == username@,
            r.spec_token() == (match token {
                Some(t) => Some(t@),
                None => None,
            }),
            !r.spec_own_stars(),
    {
        Config { username, token, own_stars: false }
    }

    /// Lists the authenticated caller's own stars instead of the public list
    /// of the named account.
    pub fn with_own_stars(self, own_stars: bool) -> (r: Config)
        ensures
            r.spec_username() == self.spec_username(),
            r.spec_token() == self.spec_token(),
            r.spec_own_stars() == own_stars,
    {
        Config { own_stars, ..self }
    }

    pub fn token(&self) -> (r: Option<&String>)
        ensures
            match r {
                Some(t) => self.spec_token() == Some(t@),
                None => self.spec_token() is None,
            },
    {
        self.token.as_ref()
    }

    /// The URL of the first page.
    pub fn url(self) -> (r: Option<String>)
        ensures
            r is Some,
            r->Some_0@ == self.spec_url(),
    {
        if self.own_stars {
            let mut u = String::from_str("https://api.github.com");
            u.append("/user/starred");
            Some(u)
        } else {
            let mut u = String::from_str("https://api.github.com");
            u.append("/users/");
            u.append(self.username.as_str());
            u.append("/starred");
            Some(u)
        }
    }
}

} // verus!
