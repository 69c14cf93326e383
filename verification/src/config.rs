use vstd::prelude::*;

verus! {

/// The editor on the other end of the connection.
#[derive(Clone, Copy, Debug, PartialEq, Eq, Structural)]
pub enum LSPClient {
    VSCode,
    MakepadStudio,
    Other,
}

impl Default for LSPClient {
    fn default() -> (client: Self)
        ensures
            client == LSPClient::Other,
    {
        LSPClient::Other
    }
}

/// How much the analyzer logs.
#[derive(Clone, Copy, Debug, PartialEq, Eq, Structural)]
pub enum LevelFilter {
    Off,
    Error,
    Warn,
    Info,
    Debug,
    Trace,
}

/// The settings for logging.
#[derive(Clone, Copy, Debug, PartialEq, Eq, Structural)]
pub struct LoggingConfig {
    pub level: LevelFilter,
}

impl Default for LoggingConfig {
    fn default() -> (logging: Self)
        ensures
            logging.level == LevelFilter::Off,
    {
        LoggingConfig { level: LevelFilter::Off }
    }
}

/// The settings that the editor hands over when it starts the analyzer.
#[derive(Clone, Copy, Debug, PartialEq, Eq, Structural)]
pub struct Config {
    pub client: LSPClient,
    pub logging: LoggingConfig,
}

impl Default for Config {
    fn default() -> (config: Self)
        ensures
            config.client == LSPClient::Other,
            config.logging.level == LevelFilter::Off,
    {
        Config { client: LSPClient::Other, logging: LoggingConfig { level: LevelFilter::Off } }
    }
}

impl Config {
    /// Whether anything is to be logged at all.
    pub fn wants_logging(&self) -> (wanted: bool)
        ensures
            wanted == (self.logging.level != LevelFilter::Off),
    {
        !matches!(self.logging.level, LevelFilter::Off)
    }

    /// Whether the editor is the studio.
    pub fn is_makepad_studio(&self) -> (studio: bool)
        ensures
            studio == (self.client == LSPClient::MakepadStudio),
    {
        matches!(self.client, LSPClient::MakepadStudio)
    }
}

} // verus!
