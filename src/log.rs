use vstd::prelude::*;
use vstd::string::StringExecFns;

verus! {

/// Severity of a log message, from the most to the least severe.
#[derive(Clone, Copy, Debug, PartialEq, Eq, Structural)]
pub enum LogLevel {
    EMERG,
    ALERT,
    CRIT,
    ERR,
    WARNING,
    NOTICE,
    INFO,
    DEBUG,
    TRACE,
}

impl LogLevel {
    /// Numeric severity: 0 for `EMERG` up to 8 for `TRACE`.
    pub open spec fn rank_spec(self) -> nat {
        match self {
            LogLevel::EMERG => 0,
            LogLevel::ALERT => 1,
            LogLevel::CRIT => 2,
            LogLevel::ERR => 3,
            LogLevel::WARNING => 4,
            LogLevel::NOTICE => 5,
            LogLevel::INFO => 6,
            LogLevel::DEBUG => 7,
            LogLevel::TRACE => 8,
        }
    }

    pub fn rank(self) -> (r: u8)
        ensures
            r as nat == self.rank_spec(),
    {
        match self {
            LogLevel::EMERG => 0,
            LogLevel::ALERT => 1,
            LogLevel::CRIT => 2,
            LogLevel::ERR => 3,
            LogLevel::WARNING => 4,
            LogLevel::NOTICE => 5,
            LogLevel::INFO => 6,
            LogLevel::DEBUG => 7,
            LogLevel::TRACE => 8,
        }
    }

    /// The level's name as it appears in a log line.
    pub open spec fn name_spec(self) -> Seq<char> {
        match self {
            LogLevel::EMERG => "EMERG"@,
            LogLevel::ALERT => "ALERT"@,
            LogLevel::CRIT => "CRIT"@,
            LogLevel::ERR => "ERR"@,
            LogLevel::WARNING => "WARNING"@,
            LogLevel::NOTICE => "NOTICE"@,
            LogLevel::INFO => "INFO"@,
            LogLevel::DEBUG => "DEBUG"@,
            LogLevel::TRACE => "TRACE"@,
        }
    }

    pub fn name(self) -> (r: String)
        ensures
            r@ == self.name_spec(),
    {
        match self {
            LogLevel::EMERG => String::from_str("EMERG"),
            LogLevel::ALERT => String::from_str("ALERT"),
            LogLevel::CRIT => String::from_str("CRIT"),
            LogLevel::ERR => String::from_str("ERR"),
            LogLevel::WARNING => String::from_str("WARNING"),
            LogLevel::NOTICE => String::from_str("NOTICE"),
            LogLevel::INFO => String::from_str("INFO"),
            LogLevel::DEBUG => String::from_str("DEBUG"),
            LogLevel::TRACE => String::from_str("TRACE"),
        }
    }

    /// A message at this level reaches a sink whose threshold is `threshold`.
    pub fn passes(self, threshold: LogLevel) -> (r: bool)
        ensures
            r == (self.rank_spec() <= threshold.rank_spec()),
    {
        self.rank() <= threshold.rank()
    }
}

/// Relies on `chrono::Utc::now`, written with `DateTime::format`: the
/// current UTC time as text. Nothing is known of its value.
#[verifier::external_body]
fn utc_now_text() -> (r: String) {
    chrono::Utc::now().format("%Y-%m-%d %H:%M:%S%.3f").to_string()
}

/// One message for the log: when, how severe, who sent it, and what it says.
pub struct LogEntry {
    pub timestamp: String,
    pub level: LogLevel,
    pub sender: String,
    pub message: String,
}

/// The line that `LogEntry::to_string` writes for an entry with these parts.
pub open spec fn entry_line(
    timestamp: Seq<char>,
    level: LogLevel,
    sender: Seq<char>,
    message: Seq<char>,
) -> Seq<char> {
    "["@ + timestamp + "] ["@ + level.name_spec() + "] ["@ + sender + "]: "@ + message
}

impl LogEntry {
    /// An entry stamped with the current UTC time.
    pub fn new(level: LogLevel, sender: String, message: String) -> (r: Self)
        ensures
            r.level == level,
            r.sender@ == sender@,
            r.message@ == message@,
    {
        let timestamp = utc_now_text();
        LogEntry { level, sender, message, timestamp }
    }

    pub fn to_string(&self) -> (r: String)
        ensures
            r@ == entry_line(self.timestamp@, self.level, self.sender@, self.message@),
    {
        let mut line = String::from_str("[");
        line.append(self.timestamp.as_str());
        line.append("] [");
        let name = self.level.name();
        line.append(name.as_str());
        line.append("] [");
        line.append(self.sender.as_str());
        line.append("]: ");
        line.append(self.message.as_str());
        proof {
            assert(line@ =~= entry_line(self.timestamp@, self.level, self.sender@, self.message@));
        }
        line
    }
}

/// The path of the log file that a log started at `stamp` writes into
/// `dir`.
pub open spec fn log_file_path_spec(dir: Seq<char>, stamp: Seq<char>) -> Seq<char> {
    dir + "/log_grade_p_"@ + stamp + ".log"@
}

pub fn log_file_path(dir: &str, stamp: &str) -> (r: String)
    ensures
        r@ == log_file_path_spec(dir@, stamp@),
{
    let mut path = String::from_str(dir);
    path.append("/log_grade_p_");
    path.append(stamp);
    path.append(".log");
    proof {
        assert(path@ =~= log_file_path_spec(dir@, stamp@));
    }
    path
}

} // verus!
