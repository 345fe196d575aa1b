//! The capacity towards the upstream: how many requests may run at once, with a share reserved for
//! control requests.

use vstd::prelude::*;
use vstd::string::*;

use crate::config::{read_integer, read_wait, EnvInteger, EnvText};
use crate::config;
use crate::decimal;
use crate::error::concatenated;
use crate::parts;

verus! {

/// How many requests may run at once, at most.
pub const MAX_CAPACITY: usize = 64;

/// The class of a request.
#[derive(Debug, Clone, Copy, PartialEq, Eq, Structural)]
pub enum UpstreamClass {
    Data,
    Control,
}

impl UpstreamClass {
    /// The name of the class.
    pub open spec fn name(self) -> Seq<char> {
        match self {
            UpstreamClass::Data => "data"@,
            UpstreamClass::Control => "control"@,
        }
    }

    /// The name of the class.
    pub fn as_str(self) -> (name: &'static str)
        ensures
            name@ == self.name(),
    {
        match self {
            UpstreamClass::Data => "data",
            UpstreamClass::Control => "control",
        }
    }
}

/// A failure to get capacity.
#[derive(Debug, Clone)]
pub enum UpstreamCapacityError {
    Config(&'static str),
    QueueTimeout { class: &'static str },
    GateClosed,
}

impl UpstreamCapacityError {
    /// Whether this is the configuration error with the text `text`.
    pub open spec fn is_config(self, text: Seq<char>) -> bool {
        self matches UpstreamCapacityError::Config(message) && message@ == text
    }

    /// The sentence that describes the failure.
    pub open spec fn sentence(self) -> Seq<char> {
        match self {
            UpstreamCapacityError::Config(text) => {
                "Codex upstream capacity configuration error: "@ + text@
            },
            UpstreamCapacityError::QueueTimeout { class } => {
                "request timed out in the Codex upstream "@ + class@ + " queue"@
            },
            UpstreamCapacityError::GateClosed => "Codex upstream capacity gate closed"@,
        }
    }

    /// The sentence that describes the failure.
    pub fn message(&self) -> (text: String)
        ensures
            text@ == self.sentence(),
    {
        match self {
            UpstreamCapacityError::Config(text) => {
                concatenated("Codex upstream capacity configuration error: ", text)
            },
            UpstreamCapacityError::QueueTimeout { class } => {
                let front = concatenated("request timed out in the Codex upstream ", class);
                concatenated(front.as_str(), " queue")
            },
            UpstreamCapacityError::GateClosed => "Codex upstream capacity gate closed".to_owned(),
        }
    }
}

/// The limits: on all requests, on data requests and on control requests, and how long a request
/// waits.
#[derive(Debug, Clone, Copy)]
pub struct UpstreamCapacityConfig {
    pub global_max: usize,
    pub data_max: usize,
    pub control_max: usize,
    pub wait_timeout_ms: u64,
}

impl UpstreamCapacityConfig {
    /// Each class has capacity, and together they have all of it.
    pub open spec fn well_formed(self) -> bool {
        &&& 1 <= self.data_max <= MAX_CAPACITY
        &&& 1 <= self.control_max <= MAX_CAPACITY
        &&& self.global_max <= MAX_CAPACITY
        &&& self.data_max + self.control_max == self.global_max
    }

    /// The limit on requests of the class `class`.
    pub open spec fn class_max(self, class: UpstreamClass) -> usize {
        match class {
            UpstreamClass::Data => self.data_max,
            UpstreamClass::Control => self.control_max,
        }
    }
}

/// The capacity that an environment variable gives, or why it is refused.
pub open spec fn capacity_in(raw: EnvText, not_integer: Seq<char>) -> Result<u64, Seq<char>> {
    match config::integer_in(raw, usize::MAX as u64) {
        EnvInteger::NotUnicode => Err("upstream capacity must be valid UTF-8"@),
        EnvInteger::NotInteger => Err(not_integer),
        EnvInteger::Value(value) => if 1 <= value <= MAX_CAPACITY {
            Ok(value)
        } else {
            Err("upstream capacity must be between 1 and 64"@)
        },
    }
}

/// The capacity that an environment variable gives.
fn parse_capacity(raw: &EnvText, invalid_integer: &'static str) -> (result: Result<
    usize,
    UpstreamCapacityError,
>)
    ensures
        match result {
            Ok(value) => capacity_in(*raw, invalid_integer@) == Ok::<u64, Seq<char>>(value as u64)
                && 1 <= value <= MAX_CAPACITY,
            Err(error) => capacity_in(*raw, invalid_integer@) matches Err(fault)
                && error.is_config(fault),
        },
{
    match read_integer(raw, usize::MAX as u64) {
        EnvInteger::NotUnicode => Err(
            UpstreamCapacityError::Config("upstream capacity must be valid UTF-8"),
        ),
        EnvInteger::NotInteger => Err(UpstreamCapacityError::Config(invalid_integer)),
        EnvInteger::Value(value) => if 1 <= value && value <= MAX_CAPACITY as u64 {
            Ok(value as usize)
        } else {
            Err(UpstreamCapacityError::Config("upstream capacity must be between 1 and 64"))
        },
    }
}

/// The capacity for all requests.
pub open spec fn global_in(raw: EnvText) -> Result<u64, Seq<char>> {
    capacity_in(raw, "global upstream capacity must be an integer"@)
}

/// The capacity for data requests.
pub open spec fn data_in(raw: EnvText) -> Result<u64, Seq<char>> {
    capacity_in(raw, "data upstream capacity must be an integer"@)
}

/// The capacity for control requests.
pub open spec fn control_in(raw: EnvText) -> Result<u64, Seq<char>> {
    capacity_in(raw, "control upstream capacity must be an integer"@)
}

/// The wait in the queue.
pub open spec fn upstream_wait(raw: Option<EnvText>) -> Result<u64, Seq<char>> {
    config::wait_in(
        raw,
        "upstream queue timeout must be valid UTF-8"@,
        "upstream queue timeout must be an integer"@,
        "upstream queue timeout must be between 1 and 3600 seconds"@,
    )
}

/// Why limits that are all given are refused.
pub open spec fn capacity_fault(
    global: EnvText,
    data: EnvText,
    control: EnvText,
    timeout: Option<EnvText>,
) -> Option<Seq<char>> {
    if let Err(fault) = global_in(global) {
        Some(fault)
    } else if let Err(fault) = data_in(data) {
        Some(fault)
    } else if let Err(fault) = control_in(control) {
        Some(fault)
    } else if data_in(data)->Ok_0 + control_in(control)->Ok_0 != global_in(global)->Ok_0 {
        Some("data plus control capacity must equal global capacity"@)
    } else if let Err(fault) = upstream_wait(timeout) {
        Some(fault)
    } else {
        None
    }
}

/// The limits that an environment gives, on all requests, on data requests and on control requests,
/// with the wait in milliseconds, or why it is refused.
pub open spec fn environment_limits(
    global: Option<EnvText>,
    data: Option<EnvText>,
    control: Option<EnvText>,
    timeout: Option<EnvText>,
) -> Result<Option<(u64, u64, u64, int)>, Seq<char>> {
    if global is None && data is None && control is None {
        Ok(None)
    } else if global is None || data is None || control is None {
        Err("global, data, and control limits must be configured together"@)
    } else {
        match capacity_fault(global->0, data->0, control->0, timeout) {
            Some(fault) => Err(fault),
            None => Ok(
                Some(
                    (
                        global_in(global->0)->Ok_0,
                        data_in(data->0)->Ok_0,
                        control_in(control->0)->Ok_0,
                        upstream_wait(timeout)->Ok_0 * 1000,
                    ),
                ),
            ),
        }
    }
}

impl UpstreamCapacityConfig {
    /// The limits that the environment gives: none where it names none.
    pub fn from_environment(
        global: Option<EnvText>,
        data: Option<EnvText>,
        control: Option<EnvText>,
        timeout: Option<EnvText>,
    ) -> (result: Result<Option<Self>, UpstreamCapacityError>)
        ensures
            if global is None && data is None && control is None {
                result == Ok::<Option<Self>, UpstreamCapacityError>(None)
            } else if global is None || data is None || control is None {
                result matches Err(error) && error.is_config(
                    "global, data, and control limits must be configured together"@,
                )
            } else {
                match capacity_fault(global->0, data->0, control->0, timeout) {
                    Some(fault) => result matches Err(error) && error.is_config(fault),
                    None => {
                        &&& result matches Ok(Some(limits))
                        &&& limits.well_formed()
                        &&& global_in(global->0) == Ok::<u64, Seq<char>>(limits.global_max as u64)
                        &&& data_in(data->0) == Ok::<u64, Seq<char>>(limits.data_max as u64)
                        &&& control_in(control->0) == Ok::<u64, Seq<char>>(
                            limits.control_max as u64,
                        )
                        &&& upstream_wait(timeout) matches Ok(seconds)
                        &&& limits.wait_timeout_ms == seconds * 1000
                    },
                }
            },
            match environment_limits(global, data, control, timeout) {
                Err(fault) => result matches Err(error) && error.is_config(fault),
                Ok(None) => result == Ok::<Option<Self>, UpstreamCapacityError>(None),
                Ok(Some(given)) => {
                    &&& result matches Ok(Some(limits))
                    &&& given == (
                        limits.global_max as u64,
                        limits.data_max as u64,
                        limits.control_max as u64,
                        limits.wait_timeout_ms as int,
                    )
                },
            },
    {
        if global.is_none() && data.is_none() && control.is_none() {
            return Ok(None);
        }
        let (global, data, control) = match (global, data, control) {
            (Some(global), Some(data), Some(control)) => (global, data, control),
            _ => {
                return Err(
                    UpstreamCapacityError::Config(
                        "global, data, and control limits must be configured together",
                    ),
                );
            },
        };
        let global_max: usize = match parse_capacity(
            &global,
            "global upstream capacity must be an integer",
        ) {
            Ok(value) => value,
            Err(error) => {
                return Err(error);
            },
        };
        let data_max: usize = match parse_capacity(
            &data,
            "data upstream capacity must be an integer",
        ) {
            Ok(value) => value,
            Err(error) => {
                return Err(error);
            },
        };
        let control_max: usize = match parse_capacity(
            &control,
            "control upstream capacity must be an integer",
        ) {
            Ok(value) => value,
            Err(error) => {
                return Err(error);
            },
        };
        if data_max + control_max != global_max {
            return Err(
                UpstreamCapacityError::Config(
                    "data plus control capacity must equal global capacity",
                ),
            );
        }
        let wait = read_wait(
            &timeout,
            "upstream queue timeout must be valid UTF-8",
            "upstream queue timeout must be an integer",
            "upstream queue timeout must be between 1 and 3600 seconds",
        );
        match wait {
            Err(fault) => Err(UpstreamCapacityError::Config(fault)),
            Ok(seconds) => Ok(
                Some(
                    UpstreamCapacityConfig {
                        global_max,
                        data_max,
                        control_max,
                        wait_timeout_ms: seconds * 1000,
                    },
                ),
            ),
        }
    }
}

/// The step of getting capacity that comes next. The permit of the class is taken first: a data
/// request in the queue does not hold capacity that a control request could use.
#[derive(Debug, Clone, Copy, PartialEq, Eq, Structural)]
pub enum AcquireStep {
    /// Wait for a permit of the class.
    TakeClassPermit,
    /// Wait for a permit of all requests.
    TakeGlobalPermit,
    /// The request may run.
    Granted,
}

/// What waiting for a permit came to.
#[derive(Debug, Clone, Copy, PartialEq, Eq, Structural)]
pub enum PermitEvent {
    Taken,
    Closed,
    TimedOut,
}

impl AcquireStep {
    /// The step that follows a wait, where one does.
    pub open spec fn next(self, event: PermitEvent) -> Option<AcquireStep> {
        if event is Taken {
            if self is TakeClassPermit {
                Some(AcquireStep::TakeGlobalPermit)
            } else {
                Some(AcquireStep::Granted)
            }
        } else {
            None
        }
    }

    /// Decides what follows a wait.
    pub fn advance(self, event: PermitEvent, class: UpstreamClass) -> (result: Result<
        AcquireStep,
        UpstreamCapacityError,
    >)
        requires
            self !is Granted,
        ensures
            match event {
                PermitEvent::Taken => result == Ok::<AcquireStep, UpstreamCapacityError>(
                    if self is TakeClassPermit {
                        AcquireStep::TakeGlobalPermit
                    } else {
                        AcquireStep::Granted
                    },
                ),
                PermitEvent::Closed => result matches Err(error) && error is GateClosed,
                PermitEvent::TimedOut => {
                    &&& result matches Err(error)
                    &&& error matches UpstreamCapacityError::QueueTimeout { class: name }
                    &&& name@ == class.name()
                },
            },
            match self.next(event) {
                Some(step) => result == Ok::<AcquireStep, UpstreamCapacityError>(step),
                None => result is Err,
            },
    {
        match event {
            PermitEvent::Taken => if self == AcquireStep::TakeClassPermit {
                Ok(AcquireStep::TakeGlobalPermit)
            } else {
                Ok(AcquireStep::Granted)
            },
            PermitEvent::Closed => Err(UpstreamCapacityError::GateClosed),
            PermitEvent::TimedOut => Err(
                UpstreamCapacityError::QueueTimeout { class: class.as_str() },
            ),
        }
    }
}

/// The permits that requests hold: of each class, and of all requests.
pub struct Occupancy {
    pub data: nat,
    pub control: nat,
    pub global: nat,
}

impl Occupancy {
    /// Whether the permits held are within the limits, and each request that holds one of all
    /// requests holds one of its class, as it does when the permit of the class is taken first
    /// and both are given back together.
    pub open spec fn within(self, limits: UpstreamCapacityConfig) -> bool {
        &&& self.data <= limits.data_max
        &&& self.control <= limits.control_max
        &&& self.global <= self.data + self.control
    }

    /// The permits of the class `class` that are held.
    pub open spec fn held(self, class: UpstreamClass) -> nat {
        match class {
            UpstreamClass::Data => self.data,
            UpstreamClass::Control => self.control,
        }
    }

    /// Whether a permit of the class is free.
    pub open spec fn has_class_permit(
        self,
        limits: UpstreamCapacityConfig,
        class: UpstreamClass,
    ) -> bool {
        self.held(class) < limits.class_max(class)
    }

    /// The permits held once a request of the class `class` has taken that of its class.
    pub open spec fn with_class_permit(self, class: UpstreamClass) -> Occupancy {
        match class {
            UpstreamClass::Data => Occupancy { data: self.data + 1, ..self },
            UpstreamClass::Control => Occupancy { control: self.control + 1, ..self },
        }
    }

    /// The permits held once a request that holds that of its class has taken that of all requests.
    pub open spec fn with_global_permit(self) -> Occupancy {
        Occupancy { global: self.global + 1, ..self }
    }

    /// The permits held once a request of the class `class` has given both of its back.
    pub open spec fn released(self, class: UpstreamClass) -> Occupancy {
        match class {
            UpstreamClass::Data => Occupancy {
                data: (self.data - 1) as nat,
                global: (self.global - 1) as nat,
                ..self
            },
            UpstreamClass::Control => Occupancy {
                control: (self.control - 1) as nat,
                global: (self.global - 1) as nat,
                ..self
            },
        }
    }
}

/// Taking permits in this order and giving both back keeps the permits held within the limits.
pub proof fn law_permits_stay_within_limits(
    occupancy: Occupancy,
    limits: UpstreamCapacityConfig,
    class: UpstreamClass,
)
    requires
        limits.well_formed(),
        occupancy.within(limits),
    ensures
        occupancy.has_class_permit(limits, class) ==> occupancy.with_class_permit(class).within(
            limits,
        ),
        occupancy.global < occupancy.data + occupancy.control
            ==> occupancy.with_global_permit().within(limits),
        occupancy.held(class) > 0 && occupancy.global > 0 ==> occupancy.released(class).within(
            limits,
        ),
{
}

/// A request that holds the permit of its class finds one of all requests free: nothing but its
/// own class can hold it up.
pub proof fn law_class_permit_suffices(
    occupancy: Occupancy,
    limits: UpstreamCapacityConfig,
    class: UpstreamClass,
)
    requires
        limits.well_formed(),
        occupancy.within(limits),
        occupancy.has_class_permit(limits, class),
    ensures
        occupancy.with_class_permit(class).global < limits.global_max,
{
}

/// Data requests, however many, cannot take the capacity reserved for control requests: as long as
/// those do not use it up themselves, a control request may run at once.
pub proof fn law_control_capacity_is_reserved(occupancy: Occupancy, limits: UpstreamCapacityConfig)
    requires
        limits.well_formed(),
        occupancy.within(limits),
        occupancy.control < limits.control_max,
    ensures
        occupancy.has_class_permit(limits, UpstreamClass::Control),
        occupancy.global < limits.global_max,
{
}

/// The step that a request has come to after the waits `events`, where none has failed.
pub open spec fn step_after(events: Seq<PermitEvent>) -> Option<AcquireStep>
    decreases events.len(),
{
    if events.len() == 0 {
        Some(AcquireStep::TakeClassPermit)
    } else {
        match step_after(events.drop_last()) {
            Some(step) => if step is Granted {
                None
            } else {
                step.next(events.last())
            },
            None => None,
        }
    }
}

/// A request may run once it has taken two permits, and not before: that of its class first, and
/// then that of all requests. A wait that fails ends it.
pub proof fn law_two_permits_are_taken(events: Seq<PermitEvent>, i: int)
    ensures
        step_after(Seq::empty()) == Some(AcquireStep::TakeClassPermit),
        step_after(events) == Some(AcquireStep::TakeGlobalPermit) <==> events == seq![
            PermitEvent::Taken,
        ],
        step_after(events) == Some(AcquireStep::Granted) <==> events == seq![
            PermitEvent::Taken,
            PermitEvent::Taken,
        ],
        0 <= i < events.len() && events[i] !is Taken ==> step_after(events) is None,
    decreases events.len(),
{
    if events.len() > 0 {
        let front = events.drop_last();
        law_two_permits_are_taken(front, i);
        assert(events =~= front.push(events.last()));
        if front.len() == 0 {
            assert(front =~= Seq::empty());
        }
        if front == seq![PermitEvent::Taken] && events.last() is Taken {
            assert(events =~= seq![PermitEvent::Taken, PermitEvent::Taken]);
        }
        if events == seq![PermitEvent::Taken, PermitEvent::Taken] {
            assert(front =~= seq![PermitEvent::Taken]);
        }
        if front.len() == 0 && events.last() is Taken {
            assert(events =~= seq![PermitEvent::Taken]);
        }
        if 0 <= i < front.len() {
            assert(front[i] == events[i]);
        }
    }
}

/// A capacity is the integer that is written, from 1 to 64.
pub proof fn law_capacities(raw: EnvText, n: int)
    requires
        raw matches EnvText::Text(text) ==> decimal::spelled(
            parts::trimmed(text@),
            usize::MAX as int,
        ) == if n >= 0 {
            Some(n)
        } else {
            None
        },
    ensures
        raw is NotUnicode ==> global_in(raw) == Err::<u64, Seq<char>>(
            "upstream capacity must be valid UTF-8"@,
        ) && data_in(raw) == Err::<u64, Seq<char>>("upstream capacity must be valid UTF-8"@)
            && control_in(raw) == Err::<u64, Seq<char>>("upstream capacity must be valid UTF-8"@),
        raw is Text && n < 0 ==> global_in(raw) == Err::<u64, Seq<char>>(
            "global upstream capacity must be an integer"@,
        ) && data_in(raw) == Err::<u64, Seq<char>>("data upstream capacity must be an integer"@)
            && control_in(raw) == Err::<u64, Seq<char>>(
            "control upstream capacity must be an integer"@,
        ),
        raw is Text && (n == 0 || n > 64) ==> global_in(raw) == Err::<u64, Seq<char>>(
            "upstream capacity must be between 1 and 64"@,
        ) && data_in(raw) == Err::<u64, Seq<char>>("upstream capacity must be between 1 and 64"@)
            && control_in(raw) == Err::<u64, Seq<char>>(
            "upstream capacity must be between 1 and 64"@,
        ),
        raw is Text && 1 <= n <= 64 ==> global_in(raw) == Ok::<u64, Seq<char>>(n as u64) && data_in(
            raw,
        ) == Ok::<u64, Seq<char>>(n as u64) && control_in(raw) == Ok::<u64, Seq<char>>(n as u64),
{
}

/// The wait in the queue is the one that is written, from 1 to 3600 seconds, and 300 seconds where
/// none is.
pub proof fn law_upstream_waits(raw: EnvText, n: int, wait: Result<u64, Seq<char>>)
    requires
        wait == upstream_wait(Some(raw)),
        raw matches EnvText::Text(text) ==> decimal::spelled(
            parts::trimmed(text@),
            0xffff_ffff_ffff_ffff,
        ) == if n >= 0 {
            Some(n)
        } else {
            None
        },
    ensures
        upstream_wait(None) == Ok::<u64, Seq<char>>(300),
        raw is NotUnicode ==> wait == Err::<u64, Seq<char>>(
            "upstream queue timeout must be valid UTF-8"@,
        ),
        raw is Text && n < 0 ==> wait == Err::<u64, Seq<char>>(
            "upstream queue timeout must be an integer"@,
        ),
        raw is Text && (n == 0 || n > 3600) ==> wait == Err::<u64, Seq<char>>(
            "upstream queue timeout must be between 1 and 3600 seconds"@,
        ),
        raw is Text && 1 <= n <= 3600 ==> wait == Ok::<u64, Seq<char>>(n as u64),
{
}

/// Limits come all together or not at all, and are accepted exactly where each is and the data and
/// the control limit add up to that of all requests. The wait is then held in milliseconds.
pub proof fn law_limits_add_up(
    global: Option<EnvText>,
    data: Option<EnvText>,
    control: Option<EnvText>,
    timeout: Option<EnvText>,
    given: Result<Option<(u64, u64, u64, int)>, Seq<char>>,
)
    requires
        given == environment_limits(global, data, control, timeout),
    ensures
        given == Ok::<Option<(u64, u64, u64, int)>, Seq<char>>(None) <==> global is None && data
            is None && control is None,
        (global is Some || data is Some || control is Some) && (global is None || data is None
            || control is None) ==> given == Err::<Option<(u64, u64, u64, int)>, Seq<char>>(
            "global, data, and control limits must be configured together"@,
        ),
        given matches Ok(Some(limits)) ==> {
            &&& global matches Some(raw) && global_in(raw) == Ok::<u64, Seq<char>>(limits.0)
            &&& data matches Some(raw) && data_in(raw) == Ok::<u64, Seq<char>>(limits.1)
            &&& control matches Some(raw) && control_in(raw) == Ok::<u64, Seq<char>>(limits.2)
            &&& limits.1 + limits.2 == limits.0
            &&& upstream_wait(timeout) matches Ok(seconds) && limits.3 == 1000 * seconds
        },
        global is Some && data is Some && control is Some ==> {
            let (g, d, c) = (global_in(global->0), data_in(data->0), control_in(control->0));
            &&& g matches Err(fault) ==> given == Err::<Option<(u64, u64, u64, int)>, Seq<char>>(
                fault,
            )
            &&& g is Ok && d is Err ==> given == Err::<Option<(u64, u64, u64, int)>, Seq<char>>(
                d->Err_0,
            )
            &&& g is Ok && d is Ok && c is Err ==> given == Err::<
                Option<(u64, u64, u64, int)>,
                Seq<char>,
            >(c->Err_0)
            &&& g is Ok && d is Ok && c is Ok && d->Ok_0 + c->Ok_0 != g->Ok_0 ==> given == Err::<
                Option<(u64, u64, u64, int)>,
                Seq<char>,
            >("data plus control capacity must equal global capacity"@)
            &&& g is Ok && d is Ok && c is Ok && d->Ok_0 + c->Ok_0 == g->Ok_0 && upstream_wait(
                timeout,
            ) is Err ==> given == Err::<Option<(u64, u64, u64, int)>, Seq<char>>(
                upstream_wait(timeout)->Err_0,
            )
            &&& g is Ok && d is Ok && c is Ok && d->Ok_0 + c->Ok_0 == g->Ok_0 && upstream_wait(
                timeout,
            ) is Ok ==> given matches Ok(Some(_))
        },
{
}

/// Classes and failures are named.
pub proof fn law_capacity_failures_are_named(error: UpstreamCapacityError, class: UpstreamClass)
    ensures
        class is Data <==> class.name() == "data"@,
        class is Control <==> class.name() == "control"@,
        error matches UpstreamCapacityError::Config(text) ==> error.sentence()
            == "Codex upstream capacity configuration error: "@ + text@,
        error matches UpstreamCapacityError::QueueTimeout { class: name } ==> error.sentence()
            == "request timed out in the Codex upstream "@ + name@ + " queue"@,
        error is GateClosed ==> error.sentence() == "Codex upstream capacity gate closed"@,
{
    reveal_strlit("data");
    reveal_strlit("control");
    assert("data"@.len() == 4 && "control"@.len() == 7);
}

}
