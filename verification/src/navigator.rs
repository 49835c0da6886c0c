//! From an address to what is to be opened.

use crate::classify::{classification, classify_input, InputKind, InputType};
use crate::database::Database;
use crate::error::HistoryError;
use vstd::prelude::*;

verus! {

/// What the user has set.
#[derive(Debug, Clone, PartialEq, Eq)]
pub struct ZurlConfig {
    /// The browser to open URLs with, where the user prefers one.
    pub preferred_browser: Option<String>,
}

/// The text of an optional string.
pub open spec fn text_of(value: Option<String>) -> Option<Seq<char>> {
    match value {
        Some(text) => Some(text@),
        None => None,
    }
}

/// What is to be done for an address.
#[derive(Debug, Clone, PartialEq, Eq)]
pub enum OpenStep {
    /// Open `url`, with `browser` where one is preferred.
    Launch { url: String, browser: Option<String> },
    /// The address is a pattern that no record of the history matches.
    NoMatch,
}

/// Why nothing can be done for an address.
#[derive(Debug, Clone, Copy, PartialEq, Eq)]
pub enum OpenError {
    /// No address was given.
    EmptyAddress,
    /// The history could not be asked.
    History(HistoryError),
}

/// Resolves addresses under a configuration.
pub struct App {
    config: ZurlConfig,
}

/// Collects what an [`App`] is made of.
pub struct AppBuilder {
    config: Option<ZurlConfig>,
}

impl AppBuilder {
    /// The browser of the configuration collected so far; nothing where
    /// no configuration was given or it prefers none.
    pub closed spec fn browser(self) -> Option<Seq<char>> {
        match self.config {
            Some(config) => text_of(config.preferred_browser),
            None => None,
        }
    }

    /// Sets the configuration, in place of any given before.
    pub fn with_config(self, config: ZurlConfig) -> (builder: AppBuilder)
        ensures
            builder.browser() == text_of(config.preferred_browser),
    {
        AppBuilder { config: Some(config) }
    }

    /// Makes the [`App`]. Where no configuration was given, none is
    /// assumed: no browser is preferred.
    pub fn build(self) -> (app: App)
        ensures
            app.browser() == self.browser(),
    {
        match self.config {
            Some(config) => App { config },
            None => App { config: ZurlConfig { preferred_browser: None } },
        }
    }
}

impl App {
    /// The preferred browser, where there is one.
    pub closed spec fn browser(self) -> Option<Seq<char>> {
        text_of(self.config.preferred_browser)
    }

    /// A builder that holds nothing yet.
    pub fn builder() -> (builder: AppBuilder)
        ensures
            builder.browser() is None,
    {
        AppBuilder { config: None }
    }

    /// An [`App`] that prefers no browser.
    pub fn new() -> (app: App)
        ensures
            app.browser() is None,
    {
        App::builder().build()
    }

    /// The preferred browser, where there is one.
    pub fn preferred_browser(&self) -> (browser: Option<String>)
        ensures
            text_of(browser) == self.browser(),
    {
        match &self.config.preferred_browser {
            Some(browser) => Some(browser.clone()),
            None => None,
        }
    }

    /// What to do with the history's answer to a pattern: open the URL it
    /// found, say that it found none, or pass its failure on.
    pub fn resolution(&self, found: Result<Option<String>, HistoryError>) -> (outcome: Result<
        OpenStep,
        OpenError,
    >)
        ensures
            match found {
                Ok(Some(found_url)) => outcome matches Ok(OpenStep::Launch { url, browser })
                    && url == found_url && text_of(browser) == self.browser(),
                Ok(None) => outcome == Ok::<OpenStep, OpenError>(OpenStep::NoMatch),
                Err(error) => outcome == Err::<OpenStep, OpenError>(OpenError::History(error)),
            },
    {
        match found {
            Ok(Some(url)) => Ok(OpenStep::Launch { url, browser: self.preferred_browser() }),
            Ok(None) => Ok(OpenStep::NoMatch),
            Err(error) => Err(OpenError::History(error)),
        }
    }

    /// Decides what to open for `address`. An empty address is refused. A
    /// complete URL is opened as it is. A pattern is handed to `history`,
    /// and its answer decides as [`App::resolution`] says: whatever the
    /// history answers, a URL is opened with the preferred browser, and
    /// nothing fails but the storage.
    pub fn handle_open<D: Database>(&self, history: &D, address: &str) -> (outcome: Result<
        OpenStep,
        OpenError,
    >)
        ensures
            address@.len() == 0 <==> outcome == Err::<OpenStep, OpenError>(
                OpenError::EmptyAddress,
            ),
            address@.len() > 0 ==> match classification(address@) {
                InputKind::FullUrl(full) => outcome matches Ok(OpenStep::Launch { url, browser })
                    && url@ == full.serialization && text_of(browser) == self.browser(),
                InputKind::FuzzyPattern(pattern) => match outcome {
                    Ok(OpenStep::Launch { url, browser }) => text_of(browser) == self.browser(),
                    Ok(OpenStep::NoMatch) => true,
                    Err(error) => error == OpenError::History(HistoryError::StorageUnavailable),
                },
            },
    {
        if address.is_empty() {
            return Err(OpenError::EmptyAddress);
        }
        match classify_input(address) {
            InputType::FullUrl(full) => Ok(
                OpenStep::Launch { url: full.serialization, browser: self.preferred_browser() },
            ),
            InputType::FuzzyPattern(pattern) => self.resolution(
                history.get_best_match(pattern.as_slice()),
            ),
        }
    }
}

} // verus!
