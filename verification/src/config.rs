//! Runtime configuration, resolved from environment values with defaults for
//! local development.

use vstd::prelude::*;

verus! {

/// Runtime settings.
#[derive(Debug)]
pub struct Settings {
    pub bind_addr: String,
    /// If set, use Postgres; otherwise use the in-memory store.
    pub database_url: Option<String>,
    /// If true, use mock external services.
    pub use_mocks: bool,
    pub anki_endpoint: String,
    pub ai_endpoint: String,
    pub ai_api_key: Option<String>,
    pub ai_model: String,
    pub scraper_url: String,
    pub youtube_api_key: Option<String>,
}

/// A variable's value counts only when it is set and not empty.
pub open spec fn given(v: Option<String>) -> Option<Seq<char>> {
    match v {
        Some(s) => if s@.len() == 0 { None } else { Some(s@) },
        None => None,
    }
}

/// The value of a variable, or `default` when it is unset or empty.
pub open spec fn given_or(v: Option<String>, default: Seq<char>) -> Seq<char> {
    match given(v) {
        Some(s) => s,
        None => default,
    }
}

/// The optional text `o` as text.
pub open spec fn opt_text(o: Option<String>) -> Option<Seq<char>> {
    match o {
        Some(s) => Some(s@),
        None => None,
    }
}

/// Mock services are used unless `USE_MOCKS` is set to something other
/// than "1" or "true".
pub open spec fn mocks_wanted(v: Option<String>) -> bool {
    match given(v) {
        Some(s) => s == "1"@ || s == "true"@,
        None => true,
    }
}

/// Mock services are on when `USE_MOCKS` is unset or empty; when it is set
/// to a non-empty value they are on exactly for "1" and "true", so "0",
/// "false" or any other value turns them off.
pub proof fn law_mocks_wanted(v: Option<String>)
    ensures
        (match v {
            Some(s) => s@.len() > 0 ==> mocks_wanted(v) == (s@ == "1"@ || s@ == "true"@),
            None => true,
        }),
        (match v {
            Some(s) => s@.len() == 0,
            None => true,
        }) ==> mocks_wanted(v),
        (match v {
            Some(s) => (s@ == "0"@ || s@ == "false"@ ==> !mocks_wanted(v)) && (s@ == "1"@ || s@ == "true"@
                ==> mocks_wanted(v)),
            None => true,
        }),
{
    reveal_strlit("0");
    reveal_strlit("1");
    reveal_strlit("true");
    reveal_strlit("false");
    assert("0"@.len() == 1 && "1"@.len() == 1 && "true"@.len() == 4 && "false"@.len() == 5);
    assert("0"@[0] == '0' && "1"@[0] == '1');
    assert("0"@ != "1"@ && "0"@ != "true"@ && "false"@ != "1"@ && "false"@ != "true"@);
}

/// The value, if set and not empty.
fn given_exec(v: Option<String>) -> (r: Option<String>)
    ensures
        opt_text(r) == given(v),
{
    match v {
        Some(s) => if s.as_str().is_empty() {
            None
        } else {
            Some(s)
        },
        None => None,
    }
}

/// The value, if set and not empty, else `default`.
fn given_or_exec(v: Option<String>, default: &str) -> (r: String)
    ensures
        r@ == given_or(v, default@),
{
    match given_exec(v) {
        Some(s) => s,
        None => default.to_owned(),
    }
}

impl Settings {
    /// The settings for the raw values of the variables `BIND_ADDR`,
    /// `DATABASE_URL`, `USE_MOCKS`, `ANKI_ENDPOINT`, `AI_ENDPOINT`,
    /// `AI_API_KEY`, `AI_MODEL`, `SCRAPER_URL` and `YOUTUBE_API_KEY` (`None`
    /// where a variable is unset). Empty values count as unset.
    pub fn from_values(
        bind_addr: Option<String>,
        database_url: Option<String>,
        use_mocks: Option<String>,
        anki_endpoint: Option<String>,
        ai_endpoint: Option<String>,
        ai_api_key: Option<String>,
        ai_model: Option<String>,
        scraper_url: Option<String>,
        youtube_api_key: Option<String>,
    ) -> (r: Settings)
        ensures
            r.bind_addr@ == given_or(bind_addr, "0.0.0.0:8080"@),
            opt_text(r.database_url) == given(database_url),
            r.use_mocks == mocks_wanted(use_mocks),
            (match use_mocks {
                Some(v) => v@.len() > 0 ==> r.use_mocks == (v@ == "1"@ || v@ == "true"@),
                None => true,
            }),
            (match use_mocks {
                Some(v) => v@.len() == 0,
                None => true,
            }) ==> r.use_mocks,
            r.anki_endpoint@ == given_or(anki_endpoint, "http://localhost:8765"@),
            r.ai_endpoint@ == given_or(ai_endpoint, "https://api.openai.com/v1/chat/completions"@),
            opt_text(r.ai_api_key) == given(ai_api_key),
            r.ai_model@ == given_or(ai_model, "gpt-4o-mini"@),
            r.scraper_url@ == given_or(scraper_url, "http://localhost:9200/scrape"@),
            opt_text(r.youtube_api_key) == given(youtube_api_key),
    {
        let mocks = match given_exec(use_mocks) {
            Some(v) => crate::text::text_eq(v.as_str(), "1") || crate::text::text_eq(v.as_str(), "true"),
            None => true,
        };
        Settings {
            bind_addr: given_or_exec(bind_addr, "0.0.0.0:8080"),
            database_url: given_exec(database_url),
            use_mocks: mocks,
            anki_endpoint: given_or_exec(anki_endpoint, "http://localhost:8765"),
            ai_endpoint: given_or_exec(ai_endpoint, "https://api.openai.com/v1/chat/completions"),
            ai_api_key: given_exec(ai_api_key),
            ai_model: given_or_exec(ai_model, "gpt-4o-mini"),
            scraper_url: given_or_exec(scraper_url, "http://localhost:9200/scrape"),
            youtube_api_key: given_exec(youtube_api_key),
        }
    }
}

/// The first step of choosing the application's store.
#[derive(Debug)]
pub enum StorePlan {
    /// Connect to the PostgreSQL database at this URL.
    Connect(String),
    /// Run on the in-memory store.
    Memory,
}

/// The store the application runs on.
#[derive(Debug, PartialEq, Eq, Structural)]
pub enum StoreKind {
    Postgres,
    Memory,
}

/// How to choose the store for a configured `database_url`: connect when
/// one is set, else run in memory.
pub fn store_plan(database_url: &Option<String>) -> (r: StorePlan)
    ensures
        match *database_url {
            Some(u) => r matches StorePlan::Connect(x) && x@ == u@,
            None => r is Memory,
        },
{
    match database_url {
        Some(u) => StorePlan::Connect(u.clone()),
        None => StorePlan::Memory,
    }
}

/// The store once the connection attempt has ended: PostgreSQL when it
/// succeeded, the in-memory store as the fallback when it failed.
pub fn store_after_connect(connected: bool) -> (r: StoreKind)
    ensures
        r == (if connected { StoreKind::Postgres } else { StoreKind::Memory }),
{
    if connected {
        StoreKind::Postgres
    } else {
        StoreKind::Memory
    }
}

} // verus!
