//! The names of the files of a database.

use regex::Regex;
use vstd::prelude::*;
use vstd::string::StringExecFns;

verus! {

/// What a name of the `CURRENT` file looks like.
pub const CURRENT_FILE_PATTERN: &'static str = r"([\w]+)/CURRENT";

/// What a name of a log file looks like.
pub const LOG_FILE_PATTERN: &'static str = r"([\w]+)/([\d]{7})\.log";

/// What a name of a table file looks like.
pub const TABLE_FILE_PATTERN: &'static str = r"([\w]+)/([\d]{7})\.ldb";

/// A file of a database, by its kind, with the text that names the database
/// and, for log and table files, the file's number.
#[derive(Debug, Clone, Copy)]
pub enum FileType<'a> {
    Log(&'a str, u64),
    Current(&'a str),
    Table(&'a str, u64),
}

/// The character of a decimal digit.
pub open spec fn digit_char(d: nat) -> char {
    (48 + d) as char
}

/// The decimal digits of `n`, without leading zeros.
pub open spec fn decimal(n: nat) -> Seq<char>
    decreases n,
{
    if n < 10 {
        seq![digit_char(n)]
    } else {
        decimal(n / 10).push(digit_char(n % 10))
    }
}

/// The decimal digits of `n`, with zeros in front up to `width` characters.
pub open spec fn zero_padded(n: nat, width: nat) -> Seq<char> {
    let digits = decimal(n);
    if digits.len() >= width {
        digits
    } else {
        Seq::new((width - digits.len()) as nat, |i: int| '0') + digits
    }
}

/// The path of the log file `num` of the database `name`.
pub open spec fn log_path(name: Seq<char>, num: u64) -> Seq<char> {
    name + "/"@ + zero_padded(num as nat, 7) + ".log"@
}

/// The path of the `CURRENT` file of the database `name`.
pub open spec fn current_path(name: Seq<char>) -> Seq<char> {
    name + "/CURRENT"@
}

/// The path of the table file `num` of the database `name`.
pub open spec fn table_path(name: Seq<char>, num: u64) -> Seq<char> {
    name + "/"@ + zero_padded(num as nat, 7) + ".ldb"@
}

/// The leftmost match of a regular expression in a text, as the regex crate
/// finds it: the text of the whole match. `None` where the text holds no
/// match or the expression does not compile.
pub uninterp spec fn regex_match(pattern: Seq<char>, text: Seq<char>) -> Option<Seq<char>>;

/// Compiles `pattern` with `Regex::new` of the regex crate, searches `text`
/// with `Regex::captures` and hands back the text of group 0, the whole
/// match, which is a part of `text`.
#[verifier::external_body]
fn whole_match<'h>(pattern: &str, text: &'h str) -> (r: Option<&'h str>)
    ensures
        match r {
            Some(found) => regex_match(pattern@, text@) == Some(found@),
            None => regex_match(pattern@, text@) is None,
        },
{
    let re = match Regex::new(pattern) {
        Ok(re) => re,
        Err(_) => return None,
    };
    match re.captures(text) {
        Some(groups) => match groups.get(0) {
            Some(found) => Some(found.as_str()),
            None => None,
        },
        None => None,
    }
}

/// `u64`'s `Display` with the format `{:0width$}`: the decimal digits of
/// `num`, with zeros in front up to `width` characters. A width is a 16-bit
/// number to the formatter, which panics on a larger one.
#[verifier::external_body]
fn format_zero_padded(num: u64, width: usize) -> (r: String)
    requires
        width <= u16::MAX,
    ensures
        r@ == zero_padded(num as nat, width as nat),
{
    format!("{:0width$}", num, width = width)
}

impl<'a> FileType<'a> {
    /// The path of the file.
    pub open spec fn path(&self) -> Seq<char> {
        match self {
            FileType::Log(name, num) => log_path(name@, *num),
            FileType::Current(name) => current_path(name@),
            FileType::Table(name, num) => table_path(name@, *num),
        }
    }

    /// The kind of file that a name stands for, given what in the name looks
    /// like the name of a `CURRENT` file, of a log file and of a table file:
    /// the first of the three that is there decides, and the file gets that
    /// text and the number 0. `None` where none is there.
    pub fn classify(
        current: Option<&'a str>,
        log: Option<&'a str>,
        table: Option<&'a str>,
    ) -> (r: Option<Self>)
        ensures
            r == match (current, log, table) {
                (Some(name), _, _) => Some(FileType::Current(name)),
                (None, Some(name), _) => Some(FileType::Log(name, 0)),
                (None, None, Some(name)) => Some(FileType::Table(name, 0)),
                (None, None, None) => None,
            },
    {
        if let Some(name) = current {
            Some(FileType::Current(name))
        } else if let Some(name) = log {
            Some(FileType::Log(name, 0))
        } else if let Some(name) = table {
            Some(FileType::Table(name, 0))
        } else {
            None
        }
    }

    /// Tells from a file's name what kind of file it is: the `CURRENT` file
    /// where the name holds a match of its pattern, else a log file, else a
    /// table file, each with the text of the match and the number 0; `None`
    /// where the name holds no match of any of the three.
    pub fn parse_name(filename: &'a str) -> (r: Option<Self>)
        ensures
            match r {
                Some(FileType::Current(name)) => regex_match(CURRENT_FILE_PATTERN@, filename@)
                    == Some(name@),
                Some(FileType::Log(name, num)) => {
                    &&& regex_match(CURRENT_FILE_PATTERN@, filename@) is None
                    &&& regex_match(LOG_FILE_PATTERN@, filename@) == Some(name@)
                    &&& num == 0
                },
                Some(FileType::Table(name, num)) => {
                    &&& regex_match(CURRENT_FILE_PATTERN@, filename@) is None
                    &&& regex_match(LOG_FILE_PATTERN@, filename@) is None
                    &&& regex_match(TABLE_FILE_PATTERN@, filename@) == Some(name@)
                    &&& num == 0
                },
                None => {
                    &&& regex_match(CURRENT_FILE_PATTERN@, filename@) is None
                    &&& regex_match(LOG_FILE_PATTERN@, filename@) is None
                    &&& regex_match(TABLE_FILE_PATTERN@, filename@) is None
                },
            },
    {
        let current = whole_match(CURRENT_FILE_PATTERN, filename);
        let log = whole_match(LOG_FILE_PATTERN, filename);
        let table = whole_match(TABLE_FILE_PATTERN, filename);
        FileType::classify(current, log, table)
    }

    /// Whether this is a log file.
    pub fn is_logfile(&self) -> (r: bool)
        ensures
            r == (self is Log),
    {
        match self {
            FileType::Log(_, _) => true,
            _ => false,
        }
    }

    /// The path of the file.
    pub fn filename(&self) -> (r: String)
        ensures
            r@ == self.path(),
    {
        match self {
            FileType::Log(name, num) => {
                let mut path = String::from_str(name);
                path.append("/");
                path.append(format_zero_padded(*num, 7).as_str());
                path.append(".log");
                path
            },
            FileType::Current(name) => {
                let mut path = String::from_str(name);
                path.append("/CURRENT");
                path
            },
            FileType::Table(name, num) => {
                let mut path = String::from_str(name);
                path.append("/");
                path.append(format_zero_padded(*num, 7).as_str());
                path.append(".ldb");
                path
            },
        }
    }
}

} // verus!
