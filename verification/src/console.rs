//! The lines that the console shows: the latest log records, up to a limit.
use vstd::prelude::*;

verus! {

/// The most lines that the console keeps.
pub const MAX_LOGS: usize = 500;

/// How grave a log record is.
#[derive(Debug, Clone, Copy, PartialEq, Eq, Structural)]
pub enum Level {
    Error,
    Warn,
    Info,
    Debug,
    Trace,
}

/// One line of the console.
#[derive(Debug)]
pub struct LogLine {
    pub level: Level,
    pub text: String,
}

/// A colour, as red, green and blue.
#[derive(Debug, Clone, Copy, PartialEq, Eq, Structural)]
pub struct Rgb {
    pub r: u8,
    pub g: u8,
    pub b: u8,
}

/// The lines after one more came in: the new line stands last, and the
/// oldest line leaves if there would be more than [`MAX_LOGS`].
pub open spec fn with_line(lines: Seq<LogLine>, line: LogLine) -> Seq<LogLine> {
    if lines.len() + 1 > MAX_LOGS {
        lines.push(line).skip(1)
    } else {
        lines.push(line)
    }
}

/// The console: the latest log records, oldest first.
#[derive(Debug)]
pub struct Console {
    logs: Vec<LogLine>,
}

impl Console {
    #[verifier::type_invariant]
    spec fn well_formed(&self) -> bool {
        self.logs@.len() <= MAX_LOGS
    }

    pub closed spec fn view_logs(&self) -> Seq<LogLine> {
        self.logs@
    }

    /// A console without lines.
    pub fn new() -> (console: Console)
        ensures
            console.view_logs() == Seq::<LogLine>::empty(),
    {
        Console { logs: Vec::new() }
    }

    /// Takes a log record in.
    pub fn update(&mut self, line: LogLine)
        ensures
            final(self).view_logs() == with_line(old(self).view_logs(), line),
    {
        proof {
            use_type_invariant(&*self);
        }
        let mut logs: Vec<LogLine> = Vec::new();
        std::mem::swap(&mut self.logs, &mut logs);
        let ghost before = logs@;
        logs.push(line);
        if logs.len() > MAX_LOGS {
            logs.remove(0);
            assert(logs@ =~= before.push(line).skip(1));
        }
        std::mem::swap(&mut self.logs, &mut logs);
    }

    /// The lines, oldest first; never more than [`MAX_LOGS`].
    pub fn logs(&self) -> (logs: &Vec<LogLine>)
        ensures
            logs@ == self.view_logs(),
            logs@.len() <= MAX_LOGS,
    {
        proof {
            use_type_invariant(self);
        }
        &self.logs
    }

    /// The colour in which the level of a line is shown.
    pub fn level_color(level: Level) -> (color: Rgb)
        ensures
            color == match level {
                Level::Error => Rgb { r: 255, g: 51, b: 102 },
                Level::Warn => Rgb { r: 255, g: 204, b: 85 },
                Level::Info => Rgb { r: 68, g: 170, b: 238 },
                _ => Rgb { r: 160, g: 160, b: 160 },
            },
    {
        match level {
            Level::Error => Rgb { r: 255, g: 51, b: 102 },
            Level::Warn => Rgb { r: 255, g: 204, b: 85 },
            Level::Info => Rgb { r: 68, g: 170, b: 238 },
            _ => Rgb { r: 160, g: 160, b: 160 },
        }
    }
}

impl Default for Console {
    fn default() -> (console: Console)
        ensures
            console.view_logs() == Seq::<LogLine>::empty(),
    {
        Console::new()
    }
}

} // verus!
