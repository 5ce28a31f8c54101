//! The closed error taxonomy of the resolver.
//!
//! Resolution fails in exactly two ways: the configuration references
//! something that does not exist ([`ConfigurationError`], not retryable), or
//! an upstream fetch failed ([`UpstreamError`], retryable by the caller).
//! Either kind aborts resolution of the category at hand — and of any
//! ancestor category that depends on it — without caching a partial result.

use vstd::prelude::*;
use crate::source::{Query, QueryV};

verus! {

/// Specification image of [`ConfigurationError`].
pub ghost enum ConfigurationErrorV {
    NoSuchGame { game_name: Seq<char> },
    NoSuchCategory { game_name: Seq<char>, cat_name: Seq<char> },
    SubcategoryCycle { game_name: Seq<char>, cat_name: Seq<char> },
}

/// A defect in the supplied configuration; retrying cannot help.
#[derive(Debug)]
pub enum ConfigurationError {
    /// The named game has no entry in the configuration.
    NoSuchGame { game_name: String },
    /// The named category has no entry in the game's category map.
    NoSuchCategory { game_name: String, cat_name: String },
    /// Sub-category references of the category nest deeper than the number of
    /// configured categories, which only a reference cycle can cause.
    SubcategoryCycle { game_name: String, cat_name: String },
}

impl View for ConfigurationError {
    type V = ConfigurationErrorV;

    open spec fn view(&self) -> ConfigurationErrorV {
        match self {
            ConfigurationError::NoSuchGame { game_name } => ConfigurationErrorV::NoSuchGame {
                game_name: game_name@,
            },
            ConfigurationError::NoSuchCategory { game_name, cat_name } =>
                ConfigurationErrorV::NoSuchCategory {
                game_name: game_name@,
                cat_name: cat_name@,
            },
            ConfigurationError::SubcategoryCycle { game_name, cat_name } =>
                ConfigurationErrorV::SubcategoryCycle {
                game_name: game_name@,
                cat_name: cat_name@,
            },
        }
    }
}

/// Specification image of [`UpstreamError`].
pub ghost enum UpstreamErrorV {
    Category { id: Seq<char> },
    Game { id: Seq<char> },
    Level { id: Seq<char> },
    Leaderboard { query: QueryV },
}

/// An upstream fetch failed; the caller may retry the whole resolution.
#[derive(Debug)]
pub enum UpstreamError {
    /// Fetching the source category with this id failed.
    Category { id: String },
    /// Fetching the source game with this id failed.
    Game { id: String },
    /// Fetching the level with this id failed.
    Level { id: String },
    /// Fetching the leaderboard for this query failed.
    Leaderboard { query: Query },
}

impl View for UpstreamError {
    type V = UpstreamErrorV;

    open spec fn view(&self) -> UpstreamErrorV {
        match self {
            UpstreamError::Category { id } => UpstreamErrorV::Category { id: id@ },
            UpstreamError::Game { id } => UpstreamErrorV::Game { id: id@ },
            UpstreamError::Level { id } => UpstreamErrorV::Level { id: id@ },
            UpstreamError::Leaderboard { query } => UpstreamErrorV::Leaderboard { query: query@ },
        }
    }
}

/// Specification image of [`Error`].
pub ghost enum ErrorV {
    Configuration(ConfigurationErrorV),
    Upstream(UpstreamErrorV),
}

/// Why a category could not be resolved.
#[derive(Debug)]
pub enum Error {
    Configuration(ConfigurationError),
    Upstream(UpstreamError),
}

impl View for Error {
    type V = ErrorV;

    open spec fn view(&self) -> ErrorV {
        match self {
            Error::Configuration(e) => ErrorV::Configuration(e@),
            Error::Upstream(e) => ErrorV::Upstream(e@),
        }
    }
}

} // verus!
