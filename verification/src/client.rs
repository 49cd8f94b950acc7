//! The remote service client: credentials and authenticated URL assembly.
//!
//! The URL text itself is produced by the url crate (re-exported by
//! reqwest); this module assembles the input string and the ordered query
//! parameters, with the client's credentials first, and proves that exactly
//! those reach the parser.

use vstd::prelude::*;
use vstd::string::StringExecFns;

verus! {

/// Relies on reqwest::Url (the url crate's Url type), declared here so
/// that assembled URLs can be returned to callers; the library never looks
/// inside a value of it.
#[verifier::external_type_specification]
#[verifier::external_body]
pub struct ExUrl(reqwest::Url);

/// Why a URL could not be assembled.
#[derive(Clone, Copy, PartialEq, Eq, Structural, Debug)]
pub enum UrlError {
    /// The combined host and path do not form a valid absolute URL.
    Invalid,
}

/// The URL that the url crate's parser produces from an input string with
/// the given query pairs appended, where the input is accepted at all.
pub uninterp spec fn url_with_params(input: Seq<char>, params: Seq<(Seq<char>, Seq<char>)>) -> Option<reqwest::Url>;

/// The key/value pairs of a parameter list, as character sequences.
pub open spec fn param_views(ps: Seq<(String, String)>) -> Seq<(Seq<char>, Seq<char>)> {
    Seq::new(ps.len(), |k: int| (ps[k].0@, ps[k].1@))
}

/// The credential parameters that every request URL carries first.
pub open spec fn auth_params(key: Seq<char>, token: Seq<char>) -> Seq<(Seq<char>, Seq<char>)> {
    seq![("key"@, key), ("token"@, token)]
}

/// Relies on reqwest::Url::parse_with_params (the url crate): parsing an
/// input string and appending query pairs is a pure function of the text
/// and the pairs, and fails exactly when the input is not a valid URL.
#[verifier::external_body]
fn parse_url_with_params(input: &String, params: &Vec<(String, String)>) -> (r: Result<
    reqwest::Url,
    UrlError,
>)
    ensures
        (r is Ok) == (url_with_params(input@, param_views(params@)) is Some),
        r is Ok ==> url_with_params(input@, param_views(params@)) == Some(r->Ok_0),
        r is Err ==> r->Err_0 == UrlError::Invalid,
{
    match reqwest::Url::parse_with_params(
        input.as_str(),
        params.iter().map(|p| (p.0.as_str(), p.1.as_str())),
    ) {
        Ok(u) => Ok(u),
        Err(_) => Err(UrlError::Invalid),
    }
}

/// The authenticated client of the remote service.
pub struct Client {
    pub host: String,
    pub token: String,
    pub key: String,
}

impl Client {
    pub fn new(host: &str, token: &str, key: &str) -> (c: Client)
        ensures
            c.host@ == host@,
            c.token@ == token@,
            c.key@ == key@,
    {
        Client { host: host.to_owned(), token: token.to_owned(), key: key.to_owned() }
    }

    /// Gets the resultant URL of the client given some path and additional
    /// parameters.  The authentication credentials are included as the
    /// leading query parameters of the generated URL.
    pub fn get_trello_url(&self, path: &str, params: &Vec<(String, String)>) -> (r: Result<
        reqwest::Url,
        UrlError,
    >)
        ensures
            (r is Ok) == (url_with_params(
                self.host@ + path@,
                auth_params(self.key@, self.token@) + param_views(params@),
            ) is Some),
            r is Ok ==> url_with_params(
                self.host@ + path@,
                auth_params(self.key@, self.token@) + param_views(params@),
            ) == Some(r->Ok_0),
            r is Err ==> r->Err_0 == UrlError::Invalid,
    {
        let mut input = self.host.clone();
        input.append(path);
        let mut full: Vec<(String, String)> = Vec::new();
        full.push(("key".to_owned(), self.key.clone()));
        full.push(("token".to_owned(), self.token.clone()));
        proof {
            assert(param_views(full@) =~= auth_params(self.key@, self.token@));
            assert(params@.subrange(0, 0) =~= Seq::<(String, String)>::empty());
            assert(param_views(Seq::<(String, String)>::empty())
                =~= Seq::<(Seq<char>, Seq<char>)>::empty());
            assert(param_views(full@) =~= auth_params(self.key@, self.token@) + param_views(
                params@.subrange(0, 0),
            ));
        }
        let n: usize = params.len();
        let mut i: usize = 0;
        while i < n
            invariant
                n == params@.len(),
                i <= n,
                input@ == self.host@ + path@,
                param_views(full@) == auth_params(self.key@, self.token@) + param_views(
                    params@.subrange(0, i as int),
                ),
            decreases n - i,
        {
            let p = &params[i];
            let c0 = p.0.clone();
            let c1 = p.1.clone();
            let ghost v0 = c0@;
            let ghost v1 = c1@;
            let ghost prev = full@;
            full.push((c0, c1));
            proof {
                assert(param_views(prev).len() == prev.len());
                assert(prev.len() == i + 2);
                assert(full@ == prev.push(full@.last()));
                assert(full@.last().0@ == v0 && full@.last().1@ == v1);
                assert(v0 == params@[i as int].0@ && v1 == params@[i as int].1@);
                let rhs = auth_params(self.key@, self.token@) + param_views(
                    params@.subrange(0, i + 1),
                );
                assert(rhs.len() == i + 3);
                assert forall|k: int| 0 <= k < full@.len() implies param_views(full@)[k]
                    == rhs[k] by {
                    assert(param_views(full@)[k] == (full@[k].0@, full@[k].1@));
                    if k < prev.len() {
                        assert(full@[k] == prev[k]);
                        assert(param_views(prev)[k] == (prev[k].0@, prev[k].1@));
                        if k >= 2 {
                            assert(param_views(params@.subrange(0, i as int))[k - 2] == (
                                params@.subrange(0, i as int)[k - 2].0@,
                                params@.subrange(0, i as int)[k - 2].1@,
                            ));
                            assert(params@.subrange(0, i as int)[k - 2] == params@[k - 2]);
                            assert(params@.subrange(0, i + 1)[k - 2] == params@[k - 2]);
                            assert(param_views(params@.subrange(0, i + 1))[k - 2] == (
                                params@.subrange(0, i + 1)[k - 2].0@,
                                params@.subrange(0, i + 1)[k - 2].1@,
                            ));
                        }
                    } else {
                        assert(k == i + 2);
                        assert(full@[k].0@ == v0 && full@[k].1@ == v1);
                        assert(params@.subrange(0, i + 1)[i as int] == params@[i as int]);
                        assert(param_views(params@.subrange(0, i + 1))[i as int] == (
                            params@.subrange(0, i + 1)[i as int].0@,
                            params@.subrange(0, i + 1)[i as int].1@,
                        ));
                    }
                }
                assert(param_views(full@).len() == full@.len());
                assert(param_views(full@) =~= rhs);
            }
            i += 1;
        }
        proof {
            assert(params@.subrange(0, n as int) =~= params@);
        }
        parse_url_with_params(&input, &full)
    }
}

} // verus!
