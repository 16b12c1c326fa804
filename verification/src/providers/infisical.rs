//! The Infisical provider's settings and request shaping.
use crate::config::SecretSelector;
use crate::orchestration::without_trailing_slashes;
use crate::text::{chars_of, string_of, trim, trim_bounds, trim_end_char};
use vstd::prelude::*;

verus! {

#[derive(Debug)]
pub struct InfisicalProviderConfig {
    pub api_base_url: String,
    pub project_id: String,
    pub client_id: String,
    pub client_secret: String,
    pub webhook_secret: String,
    pub login_path: String,
    pub secrets_path: String,
}

impl Clone for InfisicalProviderConfig {
    fn clone(&self) -> (r: Self)
        ensures
            r == *self,
    {
        InfisicalProviderConfig {
            api_base_url: self.api_base_url.clone(),
            project_id: self.project_id.clone(),
            client_id: self.client_id.clone(),
            client_secret: self.client_secret.clone(),
            webhook_secret: self.webhook_secret.clone(),
            login_path: self.login_path.clone(),
            secrets_path: self.secrets_path.clone(),
        }
    }
}

/// Base URL used when a provider gives none.
pub fn default_infisical_base_url() -> (r: String)
    ensures
        r@ == "https://app.infisical.com"@,
{
    String::from_str("https://app.infisical.com")
}

/// Login route used when a provider gives none.
pub fn default_login_path() -> (r: String)
    ensures
        r@ == "/api/v1/auth/universal-auth/login"@,
{
    String::from_str("/api/v1/auth/universal-auth/login")
}

/// Secrets route used when a provider gives none.
pub fn default_secrets_path() -> (r: String)
    ensures
        r@ == "/api/v3/secrets/raw"@,
{
    String::from_str("/api/v3/secrets/raw")
}

/// The URL of an API route: the base URL without trailing slashes, then the
/// route.
pub open spec fn spec_api_url(base: Seq<char>, route: Seq<char>) -> Seq<char> {
    trim_end_char(base, '/') + route
}

/// Joins a provider's base URL and one of its API routes.
pub fn api_url(api_base_url: &str, route: &str) -> (r: String)
    ensures
        r@ == spec_api_url(api_base_url@, route@),
{
    let mut r = without_trailing_slashes(api_base_url);
    r.append(route);
    r
}

/// The query of a secrets listing: the project, the selector's environment
/// and normalised path, secret references expanded, folders read
/// recursively, imports included.
pub open spec fn spec_list_secrets_query(project_id: Seq<char>, environment: Seq<char>, secret_path: Seq<char>) -> Seq<
    (Seq<char>, Seq<char>),
> {
    seq![
        ("workspaceId"@, project_id),
        ("environment"@, environment),
        ("secretPath"@, spec_list_secrets_path(secret_path)),
        ("expandSecretReferences"@, "true"@),
        ("recursive"@, "true"@),
        ("include_imports"@, "true"@),
    ]
}

/// The query parameters that list a selector's secrets.
pub fn list_secrets_query(project_id: &str, selector: &SecretSelector) -> (r: Vec<(String, String)>)
    ensures
        r@.map_values(|p: (String, String)| (p.0@, p.1@)) == spec_list_secrets_query(
            project_id@,
            selector.environment@,
            selector.secret_path@,
        ),
{
    let mut q: Vec<(String, String)> = Vec::new();
    q.push((String::from_str("workspaceId"), project_id.to_owned()));
    q.push((String::from_str("environment"), selector.environment.clone()));
    q.push((String::from_str("secretPath"), list_secrets_path(selector.secret_path.as_str())));
    q.push((String::from_str("expandSecretReferences"), String::from_str("true")));
    q.push((String::from_str("recursive"), String::from_str("true")));
    q.push((String::from_str("include_imports"), String::from_str("true")));
    assert(q@.map_values(|p: (String, String)| (p.0@, p.1@)) =~= spec_list_secrets_query(
        project_id@,
        selector.environment@,
        selector.secret_path@,
    ));
    q
}

/// A folder path as the secrets API takes it: trimmed, with a leading `/`,
/// and `/` when nothing is left.
pub open spec fn spec_list_secrets_path(p: Seq<char>) -> Seq<char> {
    let t = trim(p);
    if t.len() == 0 {
        seq!['/']
    } else if t[0] == '/' {
        t
    } else {
        seq!['/'] + t
    }
}

/// Normalises a selector's secret path for the secrets API.
pub fn list_secrets_path(secret_path: &str) -> (r: String)
    ensures
        r@ == spec_list_secrets_path(secret_path@),
{
    let chars = chars_of(secret_path);
    let (a, b) = trim_bounds(&chars, 0, chars.len());
    assert(chars@.subrange(0, chars@.len() as int) =~= secret_path@);
    if a == b {
        let r = String::from_str("/");
        proof {
            reveal_strlit("/");
            assert("/"@ =~= seq!['/']);
        }
        r
    } else if chars[a] == '/' {
        string_of(&chars, a, b)
    } else {
        let mut r = String::from_str("/");
        let t = string_of(&chars, a, b);
        r.append(t.as_str());
        proof {
            reveal_strlit("/");
            assert("/"@ =~= seq!['/']);
        }
        r
    }
}

} // verus!
