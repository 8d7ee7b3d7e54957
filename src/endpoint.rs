//! Requests to a sharing server: the endpoint's base URL, the path of each
//! operation, the query body and the headers.

use vstd::prelude::*;

use crate::error::SharingError;
use crate::protocol::{texts, ProviderConfig, Schema, Share, Table};

verus! {

/// The newest credentials version this library reads.
pub const CREDENTIALS_VERSION: i32 = 1;

#[verifier::external_type_specification]
#[verifier::external_body]
pub struct ExUrlParseError(url::ParseError);

/// The serialization of the URL that `url::Url::parse` makes of `s`, or
/// `None` when it refuses `s`.
pub uninterp spec fn url_parse(s: Seq<char>) -> Option<Seq<char>>;

/// The serialization of the URL that `url::Url::parse(base)` followed by
/// `url::Url::join(target)` makes, or `None` when either step refuses.
pub uninterp spec fn url_join(base: Seq<char>, target: Seq<char>) -> Option<Seq<char>>;

/// The text that `serde_json` writes for the JSON string `s`, quotes and
/// escapes included.
pub uninterp spec fn json_quoted(s: Seq<char>) -> Seq<char>;

/// Relies on `url::Url::parse`, for the serialization of the parsed URL.
#[verifier::external_body]
fn parse_url(s: &str) -> (r: Result<String, url::ParseError>)
    ensures
        r is Ok <==> url_parse(s@) is Some,
        r matches Ok(u) ==> url_parse(s@) == Some(u@),
{
    url::Url::parse(s).map(String::from)
}

/// Relies on `url::Url::join`, for the serialization of `target` resolved
/// against `base` (which is parsed first with `url::Url::parse`).
#[verifier::external_body]
fn join_url(base: &str, target: &str) -> (r: Result<String, url::ParseError>)
    ensures
        r is Ok <==> url_join(base@, target@) is Some,
        r matches Ok(u) ==> url_join(base@, target@) == Some(u@),
{
    match url::Url::parse(base) {
        Ok(u) => u.join(target).map(String::from),
        Err(e) => Err(e),
    }
}

/// Relies on `serde_json`'s `Display` for `Value::String`: the JSON text of
/// a string.
#[verifier::external_body]
fn quote_json(s: &String) -> (r: String)
    ensures
        r@ == json_quoted(s@),
{
    serde_json::Value::String(s.clone()).to_string()
}

/// Relies on `rustc_version_runtime::version`: the version of the compiler
/// that built the program, as text. It depends on the build, so nothing is
/// stated of it.
#[verifier::external_body]
fn rustc_version_text() -> (r: String) {
    rustc_version_runtime::version().to_string()
}

/// `n` in decimal, with a leading `-` when negative.
pub open spec fn decimal_text(n: int) -> Seq<char> {
    if n < 0 {
        seq!['-'] + digits_text(-n)
    } else {
        digits_text(n)
    }
}

/// The decimal digits of `n >= 0`, with no leading zero.
pub open spec fn digits_text(n: int) -> Seq<char>
    decreases n,
{
    if n < 10 {
        seq![(n + 48) as char]
    } else {
        digits_text(n / 10) + seq![((n % 10) + 48) as char]
    }
}

/// Relies on the `Display` of `i32` in std: decimal digits, led by `-` when
/// negative.
#[verifier::external_body]
fn decimal(n: i32) -> (r: String)
    ensures
        r@ == decimal_text(n as int),
{
    n.to_string()
}

/// `s` without the `/` characters that end it.
pub open spec fn trim_slashes(s: Seq<char>) -> Seq<char>
    decreases s.len(),
{
    if s.len() > 0 && s.last() == '/' {
        trim_slashes(s.drop_last())
    } else {
        s
    }
}

/// The base URL made of an endpoint: its trailing slashes trimmed, then one
/// slash added, so that operation paths resolve below it.
pub open spec fn base_url_text(endpoint: Seq<char>) -> Seq<char> {
    trim_slashes(endpoint) + seq!['/']
}

/// A checked provider configuration: the base URL to resolve operation
/// paths against, and the token to present.
pub struct Endpoint {
    base_url: String,
    bearer_token: String,
}

impl Endpoint {
    pub closed spec fn base(&self) -> Seq<char> {
        self.base_url@
    }

    pub closed spec fn token(&self) -> Seq<char> {
        self.bearer_token@
    }

    /// Checks a provider configuration. A credentials version newer than
    /// this library reads, or an endpoint that is not a URL, is a
    /// configuration error.
    pub fn new(config: &ProviderConfig) -> (r: Result<Endpoint, SharingError>)
        ensures
            config.share_credentials_version > CREDENTIALS_VERSION ==> r matches Err(
                SharingError::Config { .. },
            ),
            config.share_credentials_version <= CREDENTIALS_VERSION ==> {
                match url_parse(base_url_text(config.endpoint@)) {
                    Some(u) => r matches Ok(e) && e.base() == u && e.token()
                        == config.bearer_token@,
                    None => r matches Err(SharingError::Config { .. }),
                }
            },
    {
        if config.share_credentials_version > CREDENTIALS_VERSION {
            return Err(
                SharingError::Config {
                    message: String::from_str(
                        "the credentials version of the provider configuration is newer than this library reads",
                    ),
                },
            );
        }
        let endpoint = config.endpoint.as_str();
        let mut end = endpoint.unicode_len();
        proof {
            assert(endpoint@.subrange(0, end as int) =~= endpoint@);
        }
        while end > 0 && endpoint.get_char(end - 1) == '/'
            invariant
                end <= endpoint@.len(),
                trim_slashes(endpoint@) == trim_slashes(endpoint@.subrange(0, end as int)),
            decreases end,
        {
            proof {
                assert(endpoint@.subrange(0, end as int).drop_last() =~= endpoint@.subrange(
                    0,
                    end - 1,
                ));
            }
            end = end - 1;
        }
        let mut base = String::from_str(endpoint.substring_char(0, end));
        base.append("/");
        proof {
            reveal_strlit("/");
            assert(base@ == base_url_text(config.endpoint@));
        }
        match parse_url(base.as_str()) {
            Ok(u) => Ok(Endpoint { base_url: u, bearer_token: config.bearer_token.clone() }),
            Err(e) => Err(SharingError::Config { message: e.to_string() }),
        }
    }

    /// The URL of the operation at `target`, resolved against the base.
    pub fn url_for(&self, target: &String) -> (r: Result<String, SharingError>)
        ensures
            match url_join(self.base(), target@) {
                Some(u) => r matches Ok(s) && s@ == u,
                None => r matches Err(SharingError::Config { .. }),
            },
    {
        match join_url(self.base_url.as_str(), target.as_str()) {
            Ok(u) => Ok(u),
            Err(e) => Err(SharingError::Config { message: e.to_string() }),
        }
    }

    /// The `Authorization` header's value: `Bearer {token}`.
    pub fn authorization(&self) -> (r: String)
        ensures
            r@ == "Bearer "@ + self.token(),
    {
        let mut r = String::from_str("Bearer ");
        r.append(self.bearer_token.as_str());
        r
    }
}

/// The `User-Agent` header's value for a program built by the compiler with
/// version `rust_version`.
pub open spec fn user_agent_text(rust_version: Seq<char>) -> Seq<char> {
    "Delta-Sharing-Rust/1 Rust/"@ + rust_version
}

/// The `User-Agent` header's value, naming this library and `rust_version`.
pub fn user_agent_for(rust_version: &str) -> (r: String)
    ensures
        r@ == user_agent_text(rust_version@),
{
    let mut r = String::from_str("Delta-Sharing-Rust/1 Rust/");
    r.append(rust_version);
    r
}

/// The `User-Agent` header's value, naming this library and the compiler
/// that built the program.
pub fn user_agent() -> (r: String)
    ensures
        exists|v: Seq<char>| r@ == user_agent_text(v),
{
    let v = rustc_version_text();
    user_agent_for(v.as_str())
}

pub open spec fn table_target_text(share: Seq<char>, schema: Seq<char>, name: Seq<char>) -> Seq<char> {
    "shares/"@ + share + "/schemas/"@ + schema + "/tables/"@ + name
}

/// The path of the share listing.
pub fn shares_target() -> (r: String)
    ensures
        r@ == "shares"@,
{
    String::from_str("shares")
}

/// The path of the schema listing of `share`.
pub fn schemas_target(share: &Share) -> (r: String)
    ensures
        r@ == "shares/"@ + share.name@ + "/schemas"@,
{
    let mut r = String::from_str("shares/");
    r.append(share.name.as_str());
    r.append("/schemas");
    r
}

/// The path of the table listing of `schema`.
pub fn tables_target(schema: &Schema) -> (r: String)
    ensures
        r@ == "shares/"@ + schema.share@ + "/schemas/"@ + schema.name@ + "/tables"@,
{
    let mut r = String::from_str("shares/");
    r.append(schema.share.as_str());
    r.append("/schemas/");
    r.append(schema.name.as_str());
    r.append("/tables");
    r
}

/// The path of the listing of every table of `share`.
pub fn all_tables_target(share: &Share) -> (r: String)
    ensures
        r@ == "shares/"@ + share.name@ + "/all-tables"@,
{
    let mut r = String::from_str("shares/");
    r.append(share.name.as_str());
    r.append("/all-tables");
    r
}

/// The path of `table`, where its version is asked for.
pub fn table_target(table: &Table) -> (r: String)
    ensures
        r@ == table_target_text(table.share@, table.schema@, table.name@),
{
    let mut r = String::from_str("shares/");
    r.append(table.share.as_str());
    r.append("/schemas/");
    r.append(table.schema.as_str());
    r.append("/tables/");
    r.append(table.name.as_str());
    r
}

/// The path of `table`'s metadata.
pub fn metadata_target(table: &Table) -> (r: String)
    ensures
        r@ == table_target_text(table.share@, table.schema@, table.name@) + "/metadata"@,
{
    let mut r = table_target(table);
    r.append("/metadata");
    r
}

/// The path of `table`'s query.
pub fn query_target(table: &Table) -> (r: String)
    ensures
        r@ == table_target_text(table.share@, table.schema@, table.name@) + "/query"@,
{
    let mut r = table_target(table);
    r.append("/query");
    r
}

/// The items joined by commas.
pub open spec fn comma_join(items: Seq<Seq<char>>) -> Seq<char>
    decreases items.len(),
{
    if items.len() == 0 {
        Seq::empty()
    } else if items.len() == 1 {
        items[0]
    } else {
        comma_join(items.drop_last()) + seq![','] + items.last()
    }
}

/// The members of a query's body, in key order; a hint left out is not
/// written.
pub open spec fn query_members(
    predicate_hints: Option<Seq<Seq<char>>>,
    limit_hint: Option<i32>,
    version: Option<i32>,
) -> Seq<Seq<char>> {
    let limit = match limit_hint {
        Some(n) => seq!["\"limitHint\":"@ + decimal_text(n as int)],
        None => Seq::empty(),
    };
    let hints = match predicate_hints {
        Some(h) => seq![
            "\"predicateHints\":["@ + comma_join(h.map_values(|x: Seq<char>| json_quoted(x))) + "]"@,
        ],
        None => Seq::empty(),
    };
    let at = match version {
        Some(n) => seq!["\"version\":"@ + decimal_text(n as int)],
        None => Seq::empty(),
    };
    limit + hints + at
}

/// The JSON object a query sends.
pub open spec fn query_body_text(
    predicate_hints: Option<Seq<Seq<char>>>,
    limit_hint: Option<i32>,
    version: Option<i32>,
) -> Seq<char> {
    "{"@ + comma_join(query_members(predicate_hints, limit_hint, version)) + "}"@
}

pub open spec fn opt_texts(v: Option<Vec<String>>) -> Option<Seq<Seq<char>>> {
    match v {
        Some(h) => Some(texts(h@)),
        None => None,
    }
}

/// Joins `items` with commas.
fn join_commas(items: &Vec<String>) -> (r: String)
    ensures
        r@ == comma_join(texts(items@)),
{
    let mut r = String::new();
    let mut i: usize = 0;
    while i < items.len()
        invariant
            i <= items.len(),
            r@ == comma_join(texts(items@.subrange(0, i as int))),
        decreases items.len() - i,
    {
        let ghost before = texts(items@.subrange(0, i as int));
        let ghost after = texts(items@.subrange(0, i + 1));
        proof {
            assert(after.drop_last() =~= before);
            reveal_strlit(",");
        }
        if i > 0 {
            r.append(",");
        } else {
            assert(r@ =~= Seq::<char>::empty());
        }
        r.append(items[i].as_str());
        proof {
            if i == 0 {
                assert(r@ =~= after[0]);
            } else {
                assert(r@ =~= comma_join(before) + seq![','] + after.last());
            }
        }
        i = i + 1;
    }
    proof {
        assert(items@.subrange(0, items.len() as int) =~= items@);
    }
    r
}

/// The JSON body of a query: the hints and the version that are given, under
/// their protocol names.
pub fn query_body(
    predicate_hints: &Option<Vec<String>>,
    limit_hint: Option<i32>,
    version: Option<i32>,
) -> (r: String)
    ensures
        r@ == query_body_text(opt_texts(*predicate_hints), limit_hint, version),
{
    let mut members: Vec<String> = Vec::new();
    let ghost want = query_members(opt_texts(*predicate_hints), limit_hint, version);
    if let Some(n) = limit_hint {
        let mut m = String::from_str("\"limitHint\":");
        m.append(decimal(n).as_str());
        members.push(m);
    }
    if let Some(hints) = predicate_hints {
        let mut quoted: Vec<String> = Vec::new();
        let mut i: usize = 0;
        while i < hints.len()
            invariant
                i <= hints.len(),
                quoted@.len() == i,
                texts(quoted@) == texts(hints@.subrange(0, i as int)).map_values(
                    |x: Seq<char>| json_quoted(x),
                ),
            decreases hints.len() - i,
        {
            let q = quote_json(&hints[i]);
            let ghost prev = quoted@;
            quoted.push(q);
            proof {
                let want = texts(hints@.subrange(0, i + 1)).map_values(|x: Seq<char>| json_quoted(x));
                assert forall|j: int| 0 <= j < i + 1 implies #[trigger] texts(quoted@)[j] == want[j] by {
                    if j < i {
                        assert(quoted@[j] == prev[j]);
                        assert(texts(prev)[j] == texts(hints@.subrange(0, i as int)).map_values(
                            |x: Seq<char>| json_quoted(x),
                        )[j]);
                    }
                }
                assert(texts(quoted@) =~= texts(hints@.subrange(0, i + 1)).map_values(
                    |x: Seq<char>| json_quoted(x),
                ));
            }
            i = i + 1;
        }
        proof {
            assert(hints@.subrange(0, hints.len() as int) =~= hints@);
        }
        let mut m = String::from_str("\"predicateHints\":[");
        m.append(join_commas(&quoted).as_str());
        m.append("]");
        proof {
            reveal_strlit("\"predicateHints\":[");
            reveal_strlit("\"predicateHints\":");
            reveal_strlit("[");
            assert("\"predicateHints\":["@ =~= "\"predicateHints\":"@ + "["@);
        }
        members.push(m);
    }
    if let Some(n) = version {
        let mut m = String::from_str("\"version\":");
        m.append(decimal(n).as_str());
        members.push(m);
    }
    proof {
        assert(texts(members@) =~= want);
    }
    let mut r = String::from_str("{");
    r.append(join_commas(&members).as_str());
    r.append("}");
    r
}

} // verus!
