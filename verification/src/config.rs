//! The configuration, as the environment gives it.

use vstd::prelude::*;
use vstd::string::*;

use crate::decimal::parse_unsigned;
use crate::decimal;
use crate::error::InlineCompactionError;
use crate::parts::trim;
use crate::parts;

verus! {

/// The smallest threshold at which the upstream compacts.
pub const MIN_COMPACTION_THRESHOLD: u64 = 32_768;

/// How many requests of one session may run at once, at most.
pub const MAX_SESSION_CONCURRENCY: usize = 64;

/// The longest wait in a queue, in seconds.
pub const MAX_QUEUE_TIMEOUT_SECS: u64 = 3_600;

/// The wait in a queue where none is configured, in seconds.
pub const DEFAULT_QUEUE_TIMEOUT_SECS: u64 = 300;

/// A path of the file system.
#[verifier::external_type_specification]
#[verifier::external_body]
pub struct ExPathBuf(std::path::PathBuf);

/// The value of an environment variable.
#[derive(Debug)]
pub enum EnvText {
    Text(String),
    NotUnicode,
}

/// Whether the string of a path has a length of zero, as `std::ffi::OsStr::is_empty` tells.
pub uninterp spec fn names_nothing(path: std::path::PathBuf) -> bool;

/// `std::ffi::OsStr::is_empty` on the string of a path: whether its length is zero, which is a
/// function of the path.
#[verifier::external_body]
fn path_is_empty(path: &std::path::PathBuf) -> (empty: bool)
    ensures
        empty == names_nothing(*path),
{
    path.as_os_str().is_empty()
}

/// `std::path::Path::is_absolute`. What it says depends on the platform, so nothing is said of the
/// result.
#[verifier::external_body]
fn path_is_absolute(path: &std::path::PathBuf) -> (absolute: bool) {
    path.is_absolute()
}

/// `std::path::Path::parent`, whether there is one. What it says depends on the platform, so nothing
/// is said of the result.
#[verifier::external_body]
fn path_has_parent(path: &std::path::PathBuf) -> (parented: bool) {
    path.parent().is_some()
}

/// A state directory as it is configured, and what its path tells.
pub struct StateDirectory {
    path: std::path::PathBuf,
    empty: bool,
    absolute: bool,
    parented: bool,
}

impl StateDirectory {
    /// The path of the directory.
    pub closed spec fn spec_path(self) -> std::path::PathBuf {
        self.path
    }

    /// Whether the path was found to be empty.
    pub closed spec fn is_empty(self) -> bool {
        self.empty
    }

    /// Whether the path was found to be absolute.
    pub closed spec fn is_absolute(self) -> bool {
        self.absolute
    }

    /// Whether the path was found to have a parent.
    pub closed spec fn has_parent(self) -> bool {
        self.parented
    }

    /// The directory at `path`. Whether the path is absolute and has a parent depends on the
    /// platform, so nothing is said of these two.
    pub fn of(path: std::path::PathBuf) -> (directory: Self)
        ensures
            directory.spec_path() == path,
            directory.is_empty() == names_nothing(path),
    {
        let empty = path_is_empty(&path);
        let absolute = path_is_absolute(&path);
        let parented = path_has_parent(&path);
        StateDirectory { path, empty, absolute, parented }
    }
}

/// The other settings that inline compaction depends on.
#[derive(Debug, Clone, Copy)]
pub struct TransportSettings {
    pub server_compaction: bool,
    pub previous_response_id: bool,
    pub http_transport: bool,
}

/// An integer that an environment variable was to hold.
#[derive(Debug, Clone, Copy, PartialEq, Eq, Structural)]
pub enum EnvInteger {
    NotUnicode,
    NotInteger,
    Value(u64),
}

/// The integer up to `limit` that an environment variable holds, white space around it aside.
pub open spec fn integer_in(raw: EnvText, limit: u64) -> EnvInteger {
    match raw {
        EnvText::NotUnicode => EnvInteger::NotUnicode,
        EnvText::Text(text) => match decimal::spelled(parts::trimmed(text@), limit as int) {
            Some(value) => EnvInteger::Value(value as u64),
            None => EnvInteger::NotInteger,
        },
    }
}

/// The integer up to `limit` that an environment variable holds.
pub fn read_integer(raw: &EnvText, limit: u64) -> (value: EnvInteger)
    ensures
        value == integer_in(*raw, limit),
        value matches EnvInteger::Value(v) ==> v <= limit,
{
    match raw {
        EnvText::NotUnicode => EnvInteger::NotUnicode,
        EnvText::Text(text) => match parse_unsigned(trim(text.as_str()).as_str(), limit) {
            Some(value) => EnvInteger::Value(value),
            None => EnvInteger::NotInteger,
        },
    }
}

/// The configuration of inline compaction: the threshold that requests demand, and the directory
/// that holds the sidecars.
pub struct InlineCompactionConfig {
    threshold: u64,
    state_dir: std::path::PathBuf,
}

/// Why a configuration of inline compaction is refused.
pub open spec fn config_fault(
    raw_threshold: EnvText,
    state_dir: Option<StateDirectory>,
    settings: TransportSettings,
) -> Option<Seq<char>> {
    match integer_in(raw_threshold, u64::MAX) {
        EnvInteger::NotUnicode => Some("threshold must be valid UTF-8"@),
        EnvInteger::NotInteger => Some("threshold must be an integer"@),
        EnvInteger::Value(threshold) => if threshold < MIN_COMPACTION_THRESHOLD {
            Some("threshold is below the verified upstream minimum"@)
        } else if state_dir is None || state_dir->0.is_empty() {
            Some("state directory is required when inline compaction is enabled"@)
        } else if !state_dir->0.is_absolute() || !state_dir->0.has_parent() {
            Some("state directory must be an absolute non-root path"@)
        } else if settings.server_compaction {
            Some("legacy server compaction must be disabled"@)
        } else if settings.previous_response_id {
            Some("previous_response_id must be disabled"@)
        } else if !settings.http_transport {
            Some("the verified inline compaction path requires HTTP transport"@)
        } else {
            None
        },
    }
}

impl InlineCompactionConfig {
    /// The threshold that requests demand.
    pub closed spec fn spec_threshold(self) -> u64 {
        self.threshold
    }

    /// The directory that holds the sidecars.
    pub closed spec fn spec_state_dir(self) -> std::path::PathBuf {
        self.state_dir
    }

    /// The configuration with the threshold `threshold` and the state directory `state_dir`.
    pub fn new(state_dir: std::path::PathBuf, threshold: u64) -> (config: Self)
        ensures
            config.spec_threshold() == threshold,
            config.spec_state_dir() == state_dir,
    {
        InlineCompactionConfig { threshold, state_dir }
    }

    /// The threshold that requests demand.
    pub fn threshold(&self) -> (threshold: u64)
        ensures
            threshold == self.spec_threshold(),
    {
        self.threshold
    }

    /// The directory that holds the sidecars.
    pub fn state_dir(&self) -> (path: &std::path::PathBuf)
        ensures
            *path == self.spec_state_dir(),
    {
        &self.state_dir
    }

    /// The configuration that the environment gives: none where it names no threshold.
    pub fn from_environment(
        raw_threshold: Option<EnvText>,
        state_dir: Option<StateDirectory>,
        settings: TransportSettings,
    ) -> (result: Result<Option<Self>, InlineCompactionError>)
        ensures
            match raw_threshold {
                None => result == Ok::<Option<Self>, InlineCompactionError>(None),
                Some(raw) => match config_fault(raw, state_dir, settings) {
                    Some(fault) => result matches Err(error) && error.is_config(fault),
                    None => result matches Ok(Some(config)) && integer_in(raw, u64::MAX)
                        == EnvInteger::Value(config.spec_threshold()) && config.spec_state_dir()
                        == state_dir->0.spec_path(),
                },
            },
    {
        let raw = match raw_threshold {
            Some(raw) => raw,
            None => {
                return Ok(None);
            },
        };
        let threshold: u64 = match read_integer(&raw, u64::MAX) {
            EnvInteger::NotUnicode => {
                return Err(InlineCompactionError::Config("threshold must be valid UTF-8"));
            },
            EnvInteger::NotInteger => {
                return Err(InlineCompactionError::Config("threshold must be an integer"));
            },
            EnvInteger::Value(threshold) => threshold,
        };
        if threshold < MIN_COMPACTION_THRESHOLD {
            return Err(
                InlineCompactionError::Config("threshold is below the verified upstream minimum"),
            );
        }
        let directory = match state_dir {
            Some(directory) if !directory.empty => directory,
            _ => {
                return Err(
                    InlineCompactionError::Config(
                        "state directory is required when inline compaction is enabled",
                    ),
                );
            },
        };
        if !directory.absolute || !directory.parented {
            return Err(
                InlineCompactionError::Config("state directory must be an absolute non-root path"),
            );
        }
        if settings.server_compaction {
            return Err(InlineCompactionError::Config("legacy server compaction must be disabled"));
        }
        if settings.previous_response_id {
            return Err(InlineCompactionError::Config("previous_response_id must be disabled"));
        }
        if !settings.http_transport {
            return Err(
                InlineCompactionError::Config(
                    "the verified inline compaction path requires HTTP transport",
                ),
            );
        }
        Ok(Some(InlineCompactionConfig { threshold, state_dir: directory.path }))
    }
}

/// How many requests of one session may run at once, and how long the others wait.
#[derive(Debug, Clone, Copy)]
pub struct SessionConcurrencyConfig {
    max_concurrent: usize,
    wait_timeout_secs: u64,
}

/// The wait that an environment variable gives, in seconds, or why it is refused.
pub open spec fn wait_in(
    raw: Option<EnvText>,
    not_unicode: Seq<char>,
    not_integer: Seq<char>,
    out_of_range: Seq<char>,
) -> Result<u64, Seq<char>> {
    match raw {
        None => Ok(DEFAULT_QUEUE_TIMEOUT_SECS),
        Some(raw) => match integer_in(raw, u64::MAX) {
            EnvInteger::NotUnicode => Err(not_unicode),
            EnvInteger::NotInteger => Err(not_integer),
            EnvInteger::Value(seconds) => if 1 <= seconds <= MAX_QUEUE_TIMEOUT_SECS {
                Ok(seconds)
            } else {
                Err(out_of_range)
            },
        },
    }
}

/// The wait that an environment variable gives, in seconds, or the text that refuses it.
pub fn read_wait(
    raw: &Option<EnvText>,
    not_unicode: &'static str,
    not_integer: &'static str,
    out_of_range: &'static str,
) -> (result: Result<u64, &'static str>)
    ensures
        match result {
            Ok(seconds) => wait_in(*raw, not_unicode@, not_integer@, out_of_range@) == Ok::<
                u64,
                Seq<char>,
            >(seconds),
            Err(fault) => wait_in(*raw, not_unicode@, not_integer@, out_of_range@) == Err::<
                u64,
                Seq<char>,
            >(fault@),
        },
        result matches Ok(seconds) ==> 1 <= seconds <= MAX_QUEUE_TIMEOUT_SECS,
{
    match raw {
        None => Ok(DEFAULT_QUEUE_TIMEOUT_SECS),
        Some(raw) => match read_integer(raw, u64::MAX) {
            EnvInteger::NotUnicode => Err(not_unicode),
            EnvInteger::NotInteger => Err(not_integer),
            EnvInteger::Value(seconds) => if 1 <= seconds && seconds <= MAX_QUEUE_TIMEOUT_SECS {
                Ok(seconds)
            } else {
                Err(out_of_range)
            },
        },
    }
}

/// The wait in the queue of a session.
pub open spec fn session_wait(raw: Option<EnvText>) -> Result<u64, Seq<char>> {
    wait_in(
        raw,
        "session queue timeout must be valid UTF-8"@,
        "session queue timeout must be an integer"@,
        "session queue timeout must be between 1 and 3600 seconds"@,
    )
}

/// Why a configuration of session concurrency is refused.
pub open spec fn session_fault(raw_max: EnvText, raw_timeout: Option<EnvText>) -> Option<Seq<char>> {
    match integer_in(raw_max, usize::MAX as u64) {
        EnvInteger::NotUnicode => Some("session concurrency must be valid UTF-8"@),
        EnvInteger::NotInteger => Some("session concurrency must be an integer"@),
        EnvInteger::Value(max) => if !(1 <= max <= MAX_SESSION_CONCURRENCY) {
            Some("session concurrency must be between 1 and 64"@)
        } else {
            match session_wait(raw_timeout) {
                Err(fault) => Some(fault),
                Ok(_) => None,
            }
        },
    }
}

impl SessionConcurrencyConfig {
    /// How many requests of one session may run at once.
    pub closed spec fn spec_max_concurrent(self) -> usize {
        self.max_concurrent
    }

    /// How long the others wait, in seconds.
    pub closed spec fn spec_wait_timeout_secs(self) -> u64 {
        self.wait_timeout_secs
    }

    /// How many requests of one session may run at once.
    pub fn max_concurrent(&self) -> (max: usize)
        ensures
            max == self.spec_max_concurrent(),
    {
        self.max_concurrent
    }

    /// How long the others wait, in seconds.
    pub fn wait_timeout_secs(&self) -> (seconds: u64)
        ensures
            seconds == self.spec_wait_timeout_secs(),
    {
        self.wait_timeout_secs
    }

    /// The configuration that the environment gives: none where it names no maximum.
    pub fn from_environment(raw_max: Option<EnvText>, raw_timeout: Option<EnvText>) -> (result:
        Result<Option<Self>, InlineCompactionError>)
        ensures
            match raw_max {
                None => result == Ok::<Option<Self>, InlineCompactionError>(None),
                Some(raw) => match session_fault(raw, raw_timeout) {
                    Some(fault) => result matches Err(error) && error.is_config(fault),
                    None => result matches Ok(Some(config)) && integer_in(raw, usize::MAX as u64)
                        == EnvInteger::Value(config.spec_max_concurrent() as u64) && session_wait(
                        raw_timeout,
                    ) == Ok::<u64, Seq<char>>(config.spec_wait_timeout_secs()) && 1
                        <= config.spec_max_concurrent() <= MAX_SESSION_CONCURRENCY,
                },
            },
    {
        let raw = match raw_max {
            Some(raw) => raw,
            None => {
                return Ok(None);
            },
        };
        let max: u64 = match read_integer(&raw, usize::MAX as u64) {
            EnvInteger::NotUnicode => {
                return Err(
                    InlineCompactionError::Config("session concurrency must be valid UTF-8"),
                );
            },
            EnvInteger::NotInteger => {
                return Err(InlineCompactionError::Config("session concurrency must be an integer"));
            },
            EnvInteger::Value(max) => max,
        };
        if max < 1 || max > MAX_SESSION_CONCURRENCY as u64 {
            return Err(
                InlineCompactionError::Config("session concurrency must be between 1 and 64"),
            );
        }
        let wait = read_wait(
            &raw_timeout,
            "session queue timeout must be valid UTF-8",
            "session queue timeout must be an integer",
            "session queue timeout must be between 1 and 3600 seconds",
        );
        match wait {
            Err(fault) => Err(InlineCompactionError::Config(fault)),
            Ok(wait_timeout_secs) => Ok(
                Some(SessionConcurrencyConfig { max_concurrent: max as usize, wait_timeout_secs }),
            ),
        }
    }
}

/// An environment variable holds the integer that is written in it, white space around it aside,
/// where it is not over the limit.
pub proof fn law_integers_are_read_as_written(
    raw: EnvText,
    front: Seq<char>,
    n: nat,
    back: Seq<char>,
    limit: u64,
)
    requires
        raw matches EnvText::Text(text) && text@ == front + decimal::decimal(n) + back,
        forall|i: int| 0 <= i < front.len() ==> parts::is_space(#[trigger] front[i]),
        forall|i: int| 0 <= i < back.len() ==> parts::is_space(#[trigger] back[i]),
    ensures
        n <= limit ==> integer_in(raw, limit) == EnvInteger::Value(n as u64),
        n > limit ==> integer_in(raw, limit) == EnvInteger::NotInteger,
{
    let digits = decimal::decimal(n);
    decimal::lemma_decimal_digits(n);
    decimal::law_numbers_are_read_as_written(n, limit as int);
    decimal::law_other_texts_are_no_numbers(Seq::empty(), 0, limit as int);
    assert(digits.len() > 0);
    assert(decimal::is_digit(digits[0]) && decimal::is_digit(digits[digits.len() - 1]));
    parts::law_trimming_takes_the_space_around(front, digits, back);
}

/// A configuration of inline compaction is accepted exactly where the threshold is an integer from
/// 32768 on, the state directory is named by an absolute path below another, and of the other
/// settings only HTTP transport is on.
pub proof fn law_accepted_configurations(
    raw_threshold: EnvText,
    state_dir: Option<StateDirectory>,
    settings: TransportSettings,
)
    ensures
        config_fault(raw_threshold, state_dir, settings) is None <==> {
            &&& raw_threshold matches EnvText::Text(text)
            &&& decimal::spelled(parts::trimmed(text@), 0xffff_ffff_ffff_ffff) matches Some(n)
            &&& n >= 32768
            &&& state_dir matches Some(directory)
            &&& !directory.is_empty()
            &&& directory.is_absolute()
            &&& directory.has_parent()
            &&& !settings.server_compaction
            &&& !settings.previous_response_id
            &&& settings.http_transport
        },
{
    if let EnvText::Text(text) = raw_threshold {
        decimal::law_read_numbers_are_within_the_limit(
            parts::trimmed(text@),
            0xffff_ffff_ffff_ffff,
        );
    }
}

/// A configuration of inline compaction that is refused is refused for the first of its faults.
pub proof fn law_faults_of_configurations_are_named(
    raw_threshold: EnvText,
    n: int,
    state_dir: Option<StateDirectory>,
    settings: TransportSettings,
    fault: Option<Seq<char>>,
)
    requires
        fault == config_fault(raw_threshold, state_dir, settings),
        raw_threshold matches EnvText::Text(text) ==> decimal::spelled(
            parts::trimmed(text@),
            0xffff_ffff_ffff_ffff,
        ) == if n >= 0 {
            Some(n)
        } else {
            None
        },
    ensures
        raw_threshold is NotUnicode ==> fault == Some("threshold must be valid UTF-8"@),
        raw_threshold is Text && n < 0 ==> fault == Some("threshold must be an integer"@),
        raw_threshold is Text && 0 <= n < 32768 ==> fault == Some(
            "threshold is below the verified upstream minimum"@,
        ),
        raw_threshold is Text && n >= 32768 ==> {
            &&& state_dir is None ==> fault == Some(
                "state directory is required when inline compaction is enabled"@,
            )
            &&& state_dir is Some && state_dir->0.is_empty() ==> fault == Some(
                "state directory is required when inline compaction is enabled"@,
            )
            &&& state_dir is Some && !state_dir->0.is_empty() && !(state_dir->0.is_absolute()
                && state_dir->0.has_parent()) ==> fault == Some(
                "state directory must be an absolute non-root path"@,
            )
            &&& state_dir is Some && !state_dir->0.is_empty() && state_dir->0.is_absolute()
                && state_dir->0.has_parent() ==> {
                &&& settings.server_compaction ==> fault == Some(
                    "legacy server compaction must be disabled"@,
                )
                &&& !settings.server_compaction && settings.previous_response_id ==> fault == Some(
                    "previous_response_id must be disabled"@,
                )
                &&& !settings.server_compaction && !settings.previous_response_id
                    && !settings.http_transport ==> fault == Some(
                    "the verified inline compaction path requires HTTP transport"@,
                )
            }
        },
{
}

/// The wait in the queue of a session is the one that is written, from 1 to 3600 seconds, and 300
/// seconds where none is.
pub proof fn law_session_waits(raw: EnvText, n: int, wait: Result<u64, Seq<char>>)
    requires
        wait == session_wait(Some(raw)),
        raw matches EnvText::Text(text) ==> decimal::spelled(
            parts::trimmed(text@),
            0xffff_ffff_ffff_ffff,
        ) == if n >= 0 {
            Some(n)
        } else {
            None
        },
    ensures
        session_wait(None) == Ok::<u64, Seq<char>>(300),
        raw is NotUnicode ==> wait == Err::<u64, Seq<char>>(
            "session queue timeout must be valid UTF-8"@,
        ),
        raw is Text && n < 0 ==> wait == Err::<u64, Seq<char>>(
            "session queue timeout must be an integer"@,
        ),
        raw is Text && (n == 0 || n > 3600) ==> wait == Err::<u64, Seq<char>>(
            "session queue timeout must be between 1 and 3600 seconds"@,
        ),
        raw is Text && 1 <= n <= 3600 ==> wait == Ok::<u64, Seq<char>>(n as u64),
{
}

/// The concurrency of a session is accepted exactly where it is an integer from 1 to 64 and the wait
/// is accepted; otherwise the first fault is named.
pub proof fn law_session_concurrency(
    raw_max: EnvText,
    n: int,
    raw_timeout: Option<EnvText>,
    fault: Option<Seq<char>>,
)
    requires
        fault == session_fault(raw_max, raw_timeout),
        raw_max matches EnvText::Text(text) ==> decimal::spelled(
            parts::trimmed(text@),
            usize::MAX as int,
        ) == if n >= 0 {
            Some(n)
        } else {
            None
        },
    ensures
        fault is None <==> raw_max is Text && 1 <= n <= 64 && session_wait(raw_timeout) is Ok,
        raw_max is NotUnicode ==> fault == Some("session concurrency must be valid UTF-8"@),
        raw_max is Text && n < 0 ==> fault == Some("session concurrency must be an integer"@),
        raw_max is Text && (n == 0 || n > 64) ==> fault == Some(
            "session concurrency must be between 1 and 64"@,
        ),
        raw_max is Text && 1 <= n <= 64 ==> (session_wait(raw_timeout) matches Err(refused)
            ==> fault == Some(refused)),
{
}

}
