//! Settings for the logging subsystem, built up fluently. Installing the
//! subscriber, rolling files daily and deleting old files are host concerns;
//! this type only carries the chosen settings.

use vstd::prelude::*;
use vstd::string::StringExecFns;

verus! {

/// The logging settings: output targets, formats and the cleanup policy.
#[derive(Debug, Clone, PartialEq)]
pub struct LoggerConfig {
    /// Rolling log files carry this prefix, with a date suffix appended.
    pub file_prefix: String,
    /// The directory the log files live in.
    pub log_dir: String,
    /// The timestamp format of each log line.
    pub time_format: String,
    /// The global log level.
    pub level: String,
    /// Whether log lines also go to the console.
    pub console: bool,
    /// Whether log lines go to rolling files.
    pub file: bool,
    /// How many log files to keep; `None` switches cleanup off.
    pub max_files: Option<i16>,
    /// Seconds between cleanup passes.
    pub cleanup_interval_secs: u64,
}

impl Default for LoggerConfig {
    /// The default settings: `app.log` under `./logs`, millisecond
    /// timestamps, level INFO, console and file output on, no cleanup,
    /// hourly cleanup checks once a file count is set.
    fn default() -> (r: LoggerConfig)
        ensures
            r.file_prefix@ == "app.log"@,
            r.log_dir@ == "./logs"@,
            r.time_format@ == "%Y-%m-%d %H:%M:%S%.3f"@,
            r.level@ == "INFO"@,
            r.console,
            r.file,
            r.max_files is None,
            r.cleanup_interval_secs == 3600,
    {
        LoggerConfig {
            file_prefix: String::from_str("app.log"),
            log_dir: String::from_str("./logs"),
            time_format: String::from_str("%Y-%m-%d %H:%M:%S%.3f"),
            level: String::from_str("INFO"),
            console: true,
            file: true,
            max_files: None,
            cleanup_interval_secs: 3600,
        }
    }
}

impl LoggerConfig {
    /// The default settings.
    pub fn new() -> (r: LoggerConfig)
        ensures
            r.file_prefix@ == "app.log"@,
            r.log_dir@ == "./logs"@,
            r.time_format@ == "%Y-%m-%d %H:%M:%S%.3f"@,
            r.level@ == "INFO"@,
            r.console,
            r.file,
            r.max_files is None,
            r.cleanup_interval_secs == 3600,
    {
        Self::default()
    }

    /// The same settings with the file prefix replaced.
    pub fn file_prefix(self, prefix: String) -> (r: LoggerConfig)
        ensures
            r == (LoggerConfig { file_prefix: prefix, ..self }),
    {
        LoggerConfig { file_prefix: prefix, ..self }
    }

    /// The same settings with the log directory replaced.
    pub fn log_dir(self, dir: String) -> (r: LoggerConfig)
        ensures
            r == (LoggerConfig { log_dir: dir, ..self }),
    {
        LoggerConfig { log_dir: dir, ..self }
    }

    /// The same settings with the timestamp format replaced.
    pub fn time_format(self, format: String) -> (r: LoggerConfig)
        ensures
            r == (LoggerConfig { time_format: format, ..self }),
    {
        LoggerConfig { time_format: format, ..self }
    }

    /// The same settings with the log level replaced.
    pub fn level(self, level: String) -> (r: LoggerConfig)
        ensures
            r == (LoggerConfig { level: level, ..self }),
    {
        LoggerConfig { level: level, ..self }
    }

    /// The same settings with console output switched on or off.
    pub fn enable_console(self, enable: bool) -> (r: LoggerConfig)
        ensures
            r == (LoggerConfig { console: enable, ..self }),
    {
        LoggerConfig { console: enable, ..self }
    }

    /// The same settings with file output switched on or off.
    pub fn enable_file(self, enable: bool) -> (r: LoggerConfig)
        ensures
            r == (LoggerConfig { file: enable, ..self }),
    {
        LoggerConfig { file: enable, ..self }
    }

    /// The same settings keeping at most `count` log files.
    pub fn max_files(self, count: i16) -> (r: LoggerConfig)
        ensures
            r == (LoggerConfig { max_files: Some(count), ..self }),
    {
        LoggerConfig { max_files: Some(count), ..self }
    }

    /// The same settings with the cleanup interval replaced, in seconds.
    pub fn cleanup_interval(self, secs: u64) -> (r: LoggerConfig)
        ensures
            r == (LoggerConfig { cleanup_interval_secs: secs, ..self }),
    {
        LoggerConfig { cleanup_interval_secs: secs, ..self }
    }
}

} // verus!
