use vstd::prelude::*;
use vstd::string::*;

verus! {

/// Whether `c` has the Unicode `White_Space` property, the set of characters
/// that separate the tokens of a command line.
pub open spec fn is_whitespace_char(c: char) -> bool {
    let u = c as u32;
    (0x9 <= u <= 0xd) || u == 0x20 || u == 0x85 || u == 0xa0 || u == 0x1680 || (0x2000 <= u
        <= 0x200a) || u == 0x2028 || u == 0x2029 || u == 0x202f || u == 0x205f || u == 0x3000
}

/// The first index at or after `i` that holds no whitespace (or `s.len()`).
pub open spec fn skip_whitespace(s: Seq<char>, i: int) -> int
    decreases s.len() - i,
{
    if i < 0 || i >= s.len() || !is_whitespace_char(s[i]) {
        i
    } else {
        skip_whitespace(s, i + 1)
    }
}

/// The first index at or after `i` that holds whitespace (or `s.len()`).
pub open spec fn skip_word(s: Seq<char>, i: int) -> int
    decreases s.len() - i,
{
    if i < 0 || i >= s.len() || is_whitespace_char(s[i]) {
        i
    } else {
        skip_word(s, i + 1)
    }
}

/// The first whitespace-delimited token of `s`; empty when `s` holds none.
pub open spec fn first_token(s: Seq<char>) -> Seq<char> {
    let start = skip_whitespace(s, 0);
    s.subrange(start, skip_word(s, start))
}

/// Whether `c` is whitespace, as `char::is_whitespace` decides it.
pub fn is_whitespace(c: char) -> (r: bool)
    ensures
        r == is_whitespace_char(c),
{
    let u = c as u32;
    (0x9 <= u && u <= 0xd) || u == 0x20 || u == 0x85 || u == 0xa0 || u == 0x1680 || (0x2000 <= u
        && u <= 0x200a) || u == 0x2028 || u == 0x2029 || u == 0x202f || u == 0x205f || u == 0x3000
}

/// The first whitespace-delimited token of `text`, the empty string when
/// `text` holds nothing but whitespace.
pub fn first_token_of(text: &str) -> (r: String)
    ensures
        r@ == first_token(text@),
{
    let n = text.unicode_len();
    let mut start: usize = 0;
    while start < n && is_whitespace(text.get_char(start))
        invariant
            n == text@.len(),
            0 <= start <= n,
            skip_whitespace(text@, start as int) == skip_whitespace(text@, 0),
        decreases n - start,
    {
        start = start + 1;
    }
    let mut end: usize = start;
    while end < n && !is_whitespace(text.get_char(end))
        invariant
            n == text@.len(),
            start <= end <= n,
            skip_whitespace(text@, 0) == start,
            skip_word(text@, end as int) == skip_word(text@, start as int),
        decreases n - end,
    {
        end = end + 1;
    }
    text.substring_char(start, end).to_owned()
}

/// What a stored command is, as plain values.
pub struct CommandView {
    pub alias: Seq<char>,
    pub executable: Seq<char>,
    pub command: Seq<char>,
    pub description: Option<Seq<char>>,
}

/// The view of an optional text.
pub open spec fn opt_view(s: Option<String>) -> Option<Seq<char>> {
    match s {
        Some(t) => Some(t@),
        None => None,
    }
}

/// A stored shell command: its full text, the executable that leads it, the
/// alias it is found under and an optional description.
#[derive(Debug)]
pub struct Command {
    pub alias: String,
    pub executable: String,
    pub command: String,
    pub description: Option<String>,
}

impl View for Command {
    type V = CommandView;

    open spec fn view(&self) -> CommandView {
        CommandView {
            alias: self.alias@,
            executable: self.executable@,
            command: self.command@,
            description: opt_view(self.description),
        }
    }
}

impl Clone for Command {
    fn clone(&self) -> (r: Command)
        ensures
            r == *self,
    {
        let description = match &self.description {
            Some(d) => Some(d.clone()),
            None => None,
        };
        Command {
            alias: self.alias.clone(),
            executable: self.executable.clone(),
            command: self.command.clone(),
            description,
        }
    }
}

impl Command {
    /// Builds a command from its parts, as given.
    pub fn new(executable: String, command: String, alias: String, description: Option<String>) -> (r:
        Command)
        ensures
            r.executable == executable,
            r.command == command,
            r.alias == alias,
            r.description == description,
    {
        Command { alias, executable, command, description }
    }
}

} // verus!
