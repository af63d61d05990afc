//! The header fields that every request carries: the API's versioned media
//! type, the tool's user agent and, only when a token is given, a bearer
//! authorization.
use vstd::prelude::*;
use crate::config::Config;
use crate::link::HeaderField;

verus! {

pub open spec fn accept_value() -> Seq<char> {
    "application/vnd.github.v3.star+json"@
}

pub open spec fn user_agent_value() -> Seq<char> {
    "supernova/0.1.0"@
}

/// The value of the authorization field for `token`.
pub open spec fn bearer_value(token: Seq<char>) -> Seq<char> {
    "Bearer "@ + token
}

/// A header field as a name and a value.
pub open spec fn field_view(f: HeaderField) -> (Seq<char>, Seq<char>) {
    (f.name@, f.value@)
}

pub open spec fn fields_view(hs: Seq<HeaderField>) -> Seq<(Seq<char>, Seq<char>)> {
    hs.map_values(|f: HeaderField| field_view(f))
}

/// The first index from `i` on whose field is named `name`, or the length.
pub open spec fn index_named(hs: Seq<(Seq<char>, Seq<char>)>, name: Seq<char>, i: int) -> int
    decreases hs.len() - i,
{
    if 0 <= i < hs.len() {
        if hs[i].0 == name {
            i
        } else {
            index_named(hs, name, i + 1)
        }
    } else {
        hs.len() as int
    }
}

/// `hs` with the field `name` set to `value`: the first field of that name
/// takes the new value in place, or the field is added at the end.
pub open spec fn set_field(hs: Seq<(Seq<char>, Seq<char>)>, name: Seq<char>, value: Seq<char>) -> Seq<
    (Seq<char>, Seq<char>),
> {
    let k = index_named(hs, name, 0);
    if k < hs.len() {
        hs.update(k, (name, value))
    } else {
        hs.push((name, value))
    }
}

/// The fields every request carries before any token is set.
pub open spec fn base_fields() -> Seq<(Seq<char>, Seq<char>)> {
    seq![("Accept"@, accept_value()), ("User-Agent"@, user_agent_value())]
}

/// The fields of a request made with the optional `token`.
pub open spec fn request_fields(token: Option<Seq<char>>) -> Seq<(Seq<char>, Seq<char>)> {
    match token {
        Some(t) => base_fields().push(("Authorization"@, bearer_value(t))),
        None => base_fields(),
    }
}

/// Gathers the default header fields of a client; `build` hands them out
/// once and leaves the builder empty.
pub struct ClientBuilder {
    headers: Vec<HeaderField>,
}

impl ClientBuilder {
    pub closed spec fn fields(&self) -> Seq<(Seq<char>, Seq<char>)> {
        fields_view(self.headers@)
    }

    pub fn new() -> (r: ClientBuilder)
        ensures
            r.fields() == base_fields(),
    {
        let mut headers: Vec<HeaderField> = Vec::new();
        headers.push(
            HeaderField {
                name: String::from_str("Accept"),
                value: String::from_str("application/vnd.github.v3.star+json"),
            },
        );
        headers.push(
            HeaderField {
                name: String::from_str("User-Agent"),
                value: String::from_str("supernova/0.1.0"),
            },
        );
        let r = ClientBuilder { headers };
        assert(r.fields() =~= base_fields());
        r
    }

    /// Sets the field `name` to `value`, replacing an earlier value.
    pub fn set_header(&mut self, name: String, value: String)
        ensures
            final(self).fields() == set_field(old(self).fields(), name@, value@),
    {
        let ghost hs = fields_view(self.headers@);
        let mut i: usize = 0;
        while i < self.headers.len() && self.headers[i].name != name
            invariant
                hs == fields_view(self.headers@),
                i <= self.headers@.len(),
                index_named(hs, name@, 0) == index_named(hs, name@, i as int),
            decreases self.headers@.len() - i,
        {
            i += 1;
        }
        let ghost nm = name@;
        let ghost vl = value@;
        if i < self.headers.len() {
            self.headers.set(i, HeaderField { name, value });
        } else {
            self.headers.push(HeaderField { name, value });
        }
        assert(fields_view(self.headers@) =~= set_field(hs, nm, vl));
    }

    /// Adds the bearer authorization for `token`.
    pub fn set_authorization_token(&mut self, token: String)
        ensures
            final(self).fields() == set_field(
                old(self).fields(),
                "Authorization"@,
                bearer_value(token@),
            ),
    {
        let value = String::from_str("Bearer ").concat(token.as_str());
        self.set_header(String::from_str("Authorization"), value);
    }

    /// Hands out the gathered fields and leaves the builder empty, so that a
    /// second build cannot repeat them.
    pub fn build(&mut self) -> (r: Vec<HeaderField>)
        ensures
            fields_view(r@) == old(self).fields(),
            final(self).fields() == Seq::<(Seq<char>, Seq<char>)>::empty(),
    {
        let mut r: Vec<HeaderField> = Vec::new();
        std::mem::swap(&mut self.headers, &mut r);
        assert(fields_view(self.headers@) =~= Seq::<(Seq<char>, Seq<char>)>::empty());
        r
    }
}

/// The header fields of every request made under `config`: the media type,
/// the user agent, and the bearer authorization only when a token is given.
pub fn request_headers(config: &Config) -> (r: Vec<HeaderField>)
    ensures
        fields_view(r@) == request_fields(config.spec_token()),
{
    let mut builder = ClientBuilder::new();
    match config.token() {
        Some(t) => {
            builder.set_authorization_token(t.clone());
            proof {
                reveal_strlit("Accept");
                reveal_strlit("User-Agent");
                reveal_strlit("Authorization");
            }
            assert(base_fields()[0].0 == "Accept"@);
            assert(base_fields()[1].0 == "User-Agent"@);
            assert("Accept"@.len() == 6 && "User-Agent"@.len() == 10);
            assert("Authorization"@.len() == 13);
            assert(index_named(base_fields(), "Authorization"@, 2) == 2);
            assert(index_named(base_fields(), "Authorization"@, 1) == 2);
            assert(index_named(base_fields(), "Authorization"@, 0) == 2);
        },
        None => {},
    }
    builder.build()
}

} // verus!
