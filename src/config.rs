//! Configuration values of the client and the filter that commands run with.
use vstd::prelude::*;

verus! {

/// The default URL of the Todoist API.
pub const TODOIST_API_URL: &'static str = "https://api.todoist.com/";

/// Default filter when the configuration sets none.
pub const DEFAULT_FILTER: &'static str = "(today | overdue)";

/// The text of [`DEFAULT_FILTER`].
pub open spec fn default_filter_text() -> Seq<char> {
    seq!['(', 't', 'o', 'd', 'a', 'y', ' ', '|', ' ', 'o', 'v', 'e', 'r', 'd', 'u', 'e', ')']
}

/// The filter used when the configuration sets none.
pub fn default_filter() -> (r: String)
    ensures
        r@ == default_filter_text(),
{
    proof {
        reveal_strlit("(today | overdue)");
    }
    DEFAULT_FILTER.to_owned()
}

/// Stores the configuration used by the application.
pub struct Config {
    /// The auth token used to work with the Todoist API.
    pub token: Option<String>,
    /// The filter to use when a command is given none.
    pub default_filter: String,
    /// Overrides the API URL used by all commands.
    pub url: Option<String>,
    /// Overrides the current time, in seconds since the Unix epoch, for display.
    pub override_time: Option<i64>,
    /// A particular location prefix of the configuration.
    pub prefix: Option<String>,
}

impl Default for Config {
    fn default() -> (r: Config)
        ensures
            r.token is None,
            r.default_filter@ == default_filter_text(),
            r.url is None,
            r.override_time is None,
            r.prefix is None,
    {
        Config {
            token: None,
            default_filter: default_filter(),
            url: None,
            override_time: None,
            prefix: None,
        }
    }
}

/// Why the configuration does not allow calling the API.
#[derive(Debug, Clone, Copy, PartialEq, Eq, Structural)]
pub enum ConfigError {
    /// No token is set; `doist auth` registers one.
    NoToken,
}

impl Config {
    /// The token and the base URL to call the API with: the configured URL, or
    /// [`TODOIST_API_URL`]. Fails where no token is set.
    pub fn endpoint(&self) -> (r: Result<(String, String), ConfigError>)
        ensures
            r is Err <==> self.token is None,
            r matches Ok((t, u)) ==> self.token matches Some(token) && t@ == token@ && (
            self.url matches Some(url) ==> u@ == url@) && (self.url is None ==> u@
                == TODOIST_API_URL@),
    {
        let token = match &self.token {
            Some(t) => t.clone(),
            None => return Err(ConfigError::NoToken),
        };
        let url = match &self.url {
            Some(u) => u.clone(),
            None => TODOIST_API_URL.to_owned(),
        };
        Ok((token, url))
    }
}

/// The filter query that selects tasks from the API.
pub struct Filter {
    /// The filter given on the command line, if any.
    pub filter: Option<String>,
}

impl Filter {
    /// A filter from the given query, if any.
    pub fn new(filter: Option<String>) -> (r: Self)
        ensures
            r.filter == filter,
    {
        Filter { filter }
    }

    /// Replaces the query.
    pub fn set_filter(&mut self, filter: Option<&str>)
        ensures
            final(self).filter matches Some(f) ==> filter matches Some(g) && f@ == g@,
            final(self).filter is None <==> filter is None,
    {
        self.filter = match filter {
            Some(f) => Some(f.to_owned()),
            None => None,
        };
    }

    /// The query to run: the one given, else the configured default.
    pub fn select(&self, cfg: &Config) -> (r: String)
        ensures
            self.filter matches Some(f) ==> r@ == f@,
            self.filter is None ==> r@ == cfg.default_filter@,
    {
        match &self.filter {
            Some(f) => f.clone(),
            None => cfg.default_filter.clone(),
        }
    }
}

} // verus!
