//! The state that every request handler shares: the store and the limits,
//! fixed when the service starts.

use crate::config::{env_required, env_setting, required_setting, required_value, EnvValue};
use crate::error::{AppError, ErrorView};
use crate::store::{RecordView, Store};
use vstd::prelude::*;

verus! {

/// What the environment holds for each variable that the service reads.
pub struct Environment {
    pub database_url: EnvValue,
    pub database_max_connections: EnvValue,
    pub database_connect_timeout_secs: EnvValue,
    pub observation_window_secs: EnvValue,
    pub observation_window_cap: EnvValue,
    pub observation_default_limit: EnvValue,
    pub observation_max_limit: EnvValue,
}

/// How the connection pool of the durable store is to be set up.
pub struct PoolSettings {
    pub database_url: String,
    pub max_connections: u32,
    pub connect_timeout_secs: u64,
}

/// The pool settings with the connection string as a sequence of characters.
pub struct PoolSettingsView {
    pub database_url: Seq<char>,
    pub max_connections: u32,
    pub connect_timeout_secs: u64,
}

impl View for PoolSettings {
    type V = PoolSettingsView;

    open spec fn view(&self) -> PoolSettingsView {
        PoolSettingsView {
            database_url: self.database_url@,
            max_connections: self.max_connections,
            connect_timeout_secs: self.connect_timeout_secs,
        }
    }
}

/// The limits of the service: the admission window in seconds, its cap, and
/// the default and the largest count of a query.
pub struct Limits {
    pub observation_window: u64,
    pub observation_window_cap: i64,
    pub default_observation_limit: i64,
    pub max_observation_limit: i64,
}

/// The store together with the limits that the handlers go by.
pub struct AppState {
    pub store: Store,
    pub observation_window: u64,
    pub observation_window_cap: i64,
    pub default_observation_limit: i64,
    pub max_observation_limit: i64,
}

/// The pool settings that an environment stands for: the connection string,
/// the largest number of connections and the seconds allowed to connect.
/// All three are required. The first variable that is missing or wrong gives
/// the error.
pub open spec fn pool_settings_of(env: Environment) -> Result<PoolSettingsView, ErrorView> {
    match required_value("DATABASE_URL"@, env.database_url) {
        Err(error) => Err(error),
        Ok(database_url) => match required_setting::<u32>(
            "DATABASE_MAX_CONNECTIONS"@,
            env.database_max_connections,
        ) {
            Err(error) => Err(error),
            Ok(max_connections) => match required_setting::<u64>(
                "DATABASE_CONNECT_TIMEOUT_SECS"@,
                env.database_connect_timeout_secs,
            ) {
                Err(error) => Err(error),
                Ok(connect_timeout_secs) => Ok(
                    PoolSettingsView { database_url, max_connections, connect_timeout_secs },
                ),
            },
        },
    }
}

/// The limits that an environment stands for: the window in seconds, its
/// cap, and the default and the largest count of a query. All four are
/// required. The first variable that is missing or wrong gives the error.
pub open spec fn limits_of(env: Environment) -> Result<Limits, ErrorView> {
    match required_setting::<u64>("OBSERVATION_WINDOW_SECS"@, env.observation_window_secs) {
        Err(error) => Err(error),
        Ok(observation_window) => match required_setting::<i64>(
            "OBSERVATION_WINDOW_CAP"@,
            env.observation_window_cap,
        ) {
            Err(error) => Err(error),
            Ok(observation_window_cap) => match required_setting::<i64>(
                "OBSERVATION_DEFAULT_LIMIT"@,
                env.observation_default_limit,
            ) {
                Err(error) => Err(error),
                Ok(default_observation_limit) => match required_setting::<i64>(
                    "OBSERVATION_MAX_LIMIT"@,
                    env.observation_max_limit,
                ) {
                    Err(error) => Err(error),
                    Ok(max_observation_limit) => Ok(
                        Limits {
                            observation_window,
                            observation_window_cap,
                            default_observation_limit,
                            max_observation_limit,
                        },
                    ),
                },
            },
        },
    }
}

/// An environment that lacks any setting gives no pool settings or no
/// limits, so no state is started from it.
pub proof fn lemma_missing_setting_stops_start(env: Environment)
    requires
        env.database_url is Missing || env.database_max_connections is Missing
            || env.database_connect_timeout_secs is Missing || env.observation_window_secs
            is Missing || env.observation_window_cap is Missing || env.observation_default_limit
            is Missing || env.observation_max_limit is Missing,
    ensures
        pool_settings_of(env) is Err || limits_of(env) is Err,
{
}

/// Reads the settings of the connection pool.
pub fn pool_settings(env: &Environment) -> (result: Result<PoolSettings, AppError>)
    ensures
        match pool_settings_of(*env) {
            Ok(settings) => result is Ok && result->Ok_0@ == settings,
            Err(error) => result is Err && result->Err_0@ == error,
        },
{
    let database_url = match env_required("DATABASE_URL", &env.database_url) {
        Ok(value) => value,
        Err(error) => { return Err(error); },
    };
    let max_connections = match env_setting::<u32>(
        "DATABASE_MAX_CONNECTIONS",
        &env.database_max_connections,
    ) {
        Ok(value) => value,
        Err(error) => { return Err(error); },
    };
    let connect_timeout_secs = match env_setting::<u64>(
        "DATABASE_CONNECT_TIMEOUT_SECS",
        &env.database_connect_timeout_secs,
    ) {
        Ok(value) => value,
        Err(error) => { return Err(error); },
    };
    Ok(PoolSettings { database_url, max_connections, connect_timeout_secs })
}

/// Reads the limits of the service.
pub fn limits(env: &Environment) -> (result: Result<Limits, AppError>)
    ensures
        match limits_of(*env) {
            Ok(limits) => result == Ok::<Limits, AppError>(limits),
            Err(error) => result is Err && result->Err_0@ == error,
        },
{
    let observation_window = match env_setting::<u64>(
        "OBSERVATION_WINDOW_SECS",
        &env.observation_window_secs,
    ) {
        Ok(value) => value,
        Err(error) => { return Err(error); },
    };
    let observation_window_cap = match env_setting::<i64>(
        "OBSERVATION_WINDOW_CAP",
        &env.observation_window_cap,
    ) {
        Ok(value) => value,
        Err(error) => { return Err(error); },
    };
    let default_observation_limit = match env_setting::<i64>(
        "OBSERVATION_DEFAULT_LIMIT",
        &env.observation_default_limit,
    ) {
        Ok(value) => value,
        Err(error) => { return Err(error); },
    };
    let max_observation_limit = match env_setting::<i64>(
        "OBSERVATION_MAX_LIMIT",
        &env.observation_max_limit,
    ) {
        Ok(value) => value,
        Err(error) => { return Err(error); },
    };
    Ok(
        Limits {
            observation_window,
            observation_window_cap,
            default_observation_limit,
            max_observation_limit,
        },
    )
}

impl AppState {
    /// The state is well formed when its store is.
    pub open spec fn wf(&self) -> bool {
        self.store.wf()
    }

    /// The limits that the state was started with.
    pub open spec fn limits(&self) -> Limits {
        Limits {
            observation_window: self.observation_window,
            observation_window_cap: self.observation_window_cap,
            default_observation_limit: self.default_observation_limit,
            max_observation_limit: self.max_observation_limit,
        }
    }

    /// Starts the state from the environment, with an empty store. The
    /// settings of the pool are read first, the limits after them.
    pub fn initialize(env: &Environment) -> (result: Result<AppState, AppError>)
        ensures
            match pool_settings_of(*env) {
                Err(error) => result is Err && result->Err_0@ == error,
                Ok(_) => match limits_of(*env) {
                    Err(error) => result is Err && result->Err_0@ == error,
                    Ok(limits) => {
                        &&& result is Ok
                        &&& result->Ok_0.wf()
                        &&& result->Ok_0.limits() == limits
                        &&& result->Ok_0.store.credentials() == Set::<Seq<u8>>::empty()
                        &&& result->Ok_0.store.records() == Seq::<RecordView>::empty()
                    },
                },
            },
    {
        match pool_settings(env) {
            Ok(_) => {},
            Err(error) => { return Err(error); },
        }
        let limits = match limits(env) {
            Ok(limits) => limits,
            Err(error) => { return Err(error); },
        };
        Ok(
            AppState {
                store: Store::new(),
                observation_window: limits.observation_window,
                observation_window_cap: limits.observation_window_cap,
                default_observation_limit: limits.default_observation_limit,
                max_observation_limit: limits.max_observation_limit,
            },
        )
    }
}

} // verus!
