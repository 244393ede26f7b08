use vstd::prelude::*;

verus! {

/// Severity of an event or a span, from the most verbose to the least.
#[derive(Clone, Copy, Debug, PartialEq, Eq, Structural)]
pub enum Level {
    Trace,
    Debug,
    Info,
    Warn,
    Error,
}

impl Level {
    /// How verbose a level is: `Trace` is the most verbose, `Error` the least.
    pub open spec fn verbosity(self) -> int {
        match self {
            Level::Trace => 4,
            Level::Debug => 3,
            Level::Info => 2,
            Level::Warn => 1,
            Level::Error => 0,
        }
    }

    /// The canonical short name of the level.
    pub open spec fn name(self) -> Seq<char> {
        match self {
            Level::Trace => "TRACE"@,
            Level::Debug => "DEBUG"@,
            Level::Info => "INFO"@,
            Level::Warn => "WARN"@,
            Level::Error => "ERROR"@,
        }
    }

    /// The numeric value written under `level_value`. The order is not the
    /// order of severity; it is kept as downstream consumers expect it.
    pub open spec fn numeric(self) -> u64 {
        match self {
            Level::Error => 3,
            Level::Warn => 4,
            Level::Info => 5,
            Level::Trace => 6,
            Level::Debug => 7,
        }
    }

    pub fn as_str(&self) -> (r: &'static str)
        ensures
            r@ == self.name(),
    {
        match self {
            Level::Trace => "TRACE",
            Level::Debug => "DEBUG",
            Level::Info => "INFO",
            Level::Warn => "WARN",
            Level::Error => "ERROR",
        }
    }
}

/// Converts a level to the number written under `level_value`.
pub fn level_value(level: &Level) -> (r: u64)
    ensures
        r == level.numeric(),
{
    match level {
        Level::Error => 3,
        Level::Warn => 4,
        Level::Info => 5,
        Level::Trace => 6,
        Level::Debug => 7,
    }
}

/// The `level_value` of ERROR, WARN, INFO, TRACE and DEBUG is 3, 4, 5, 6
/// and 7, whatever the formatter's configuration.
pub proof fn law_level_value_mapping()
    ensures
        Level::Error.numeric() == 3,
        Level::Warn.numeric() == 4,
        Level::Info.numeric() == 5,
        Level::Trace.numeric() == 6,
        Level::Debug.numeric() == 7,
{
}

/// Where the `logger_name` field is taken from.
#[derive(Clone, Copy, Debug, PartialEq, Eq, Structural)]
pub enum LoggerName {
    /// The target of the event itself.
    Event,
    /// The qualified name of the nearest enclosing span, or the event's
    /// target when no span encloses it.
    Span,
}

/// Decides whether a frame (a span, or the event itself) is shown in a
/// stack trace or in the span list.
#[derive(Clone, Copy, Debug, PartialEq, Eq, Structural)]
pub enum DisplayLevelFilter {
    /// No frame is shown.
    Off,
    /// Every frame is shown.
    All,
    /// A frame is shown when its level is at least as verbose as the given one.
    Level(Level),
    /// A frame is shown when its level is the level of the triggering event.
    Event,
}

impl DisplayLevelFilter {
    pub open spec fn enabled(self, event_level: Level, frame_level: Level) -> bool {
        match self {
            DisplayLevelFilter::Off => false,
            DisplayLevelFilter::All => true,
            DisplayLevelFilter::Level(l) => frame_level.verbosity() >= l.verbosity(),
            DisplayLevelFilter::Event => frame_level == event_level,
        }
    }

    pub fn is_enabled(&self, event_level: Level, frame_level: Level) -> (r: bool)
        ensures
            r == self.enabled(event_level, frame_level),
    {
        match self {
            DisplayLevelFilter::Off => false,
            DisplayLevelFilter::All => true,
            DisplayLevelFilter::Level(l) => verbosity(frame_level) >= verbosity(*l),
            DisplayLevelFilter::Event => frame_level == event_level,
        }
    }
}

fn verbosity(level: Level) -> (r: u8)
    ensures
        r as int == level.verbosity(),
{
    match level {
        Level::Trace => 4,
        Level::Debug => 3,
        Level::Info => 2,
        Level::Warn => 1,
        Level::Error => 0,
    }
}

} // verus!
