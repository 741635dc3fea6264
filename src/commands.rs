//! Parsing of the text commands typed by a user.
//!
//! A line that starts with `/` (after trimming white space) is a command:
//! its first word names it and its second word, where it needs one, is its
//! argument. Any other line is a message.

use vstd::prelude::*;

verus! {

/// A parsed line of user input.
#[derive(Debug, Clone, PartialEq, Eq)]
pub enum Command {
    /// Connect to the server.
    Connect,
    /// Create a room.
    CreateRoom { room_id: u128 },
    /// Join a room.
    JoinRoom { room_id: u128 },
    /// Leave the active room.
    LeaveActiveRoom,
    /// Publish a key package to the server.
    PublishKeyPackage,
    /// Add a member to the active room.
    AddMember { user_id: u64 },
    /// Quit the application.
    Quit,
    /// Send a message to the active room.
    Message { content: String },
    /// A command that is not known; holds the trimmed input.
    Unknown { input: String },
    /// A known command with a missing or invalid argument.
    InvalidArgs { command: String, error: String },
}

/// A command as contracts see it: text as character sequences.
pub enum CommandView {
    Connect,
    CreateRoom { room_id: u128 },
    JoinRoom { room_id: u128 },
    LeaveActiveRoom,
    PublishKeyPackage,
    AddMember { user_id: u64 },
    Quit,
    Message { content: Seq<char> },
    Unknown { input: Seq<char> },
    InvalidArgs { command: Seq<char>, error: Seq<char> },
}

impl View for Command {
    type V = CommandView;

    open spec fn view(&self) -> CommandView {
        match self {
            Command::Connect => CommandView::Connect,
            Command::CreateRoom { room_id } => CommandView::CreateRoom { room_id: *room_id },
            Command::JoinRoom { room_id } => CommandView::JoinRoom { room_id: *room_id },
            Command::LeaveActiveRoom => CommandView::LeaveActiveRoom,
            Command::PublishKeyPackage => CommandView::PublishKeyPackage,
            Command::AddMember { user_id } => CommandView::AddMember { user_id: *user_id },
            Command::Quit => CommandView::Quit,
            Command::Message { content } => CommandView::Message { content: content@ },
            Command::Unknown { input } => CommandView::Unknown { input: input@ },
            Command::InvalidArgs { command, error } => CommandView::InvalidArgs {
                command: command@,
                error: error@,
            },
        }
    }
}

/// Characters with the Unicode `White_Space` property.
pub open spec fn white_space(c: char) -> bool {
    let u = c as u32;
    (0x09 <= u <= 0x0d) || u == 0x20 || u == 0x85 || u == 0xa0 || u == 0x1680 || (0x2000 <= u
        <= 0x200a) || u == 0x2028 || u == 0x2029 || u == 0x202f || u == 0x205f || u == 0x3000
}

/// Whether `c` is white space.
pub fn is_white_space(c: char) -> (r: bool)
    ensures
        r == white_space(c),
{
    let u = c as u32;
    (0x09 <= u && u <= 0x0d) || u == 0x20 || u == 0x85 || u == 0xa0 || u == 0x1680 || (0x2000 <= u
        && u <= 0x200a) || u == 0x2028 || u == 0x2029 || u == 0x202f || u == 0x205f || u == 0x3000
}

/// The first position at or after `i`, and before `e`, that does not hold
/// white space (`e` if there is none).
pub open spec fn skip_space(s: Seq<char>, i: int, e: int) -> int
    decreases e - i,
{
    if i < e && white_space(s[i]) {
        skip_space(s, i + 1, e)
    } else {
        i
    }
}

/// The first position at or after `i`, and before `e`, that holds white
/// space (`e` if there is none).
pub open spec fn skip_word(s: Seq<char>, i: int, e: int) -> int
    decreases e - i,
{
    if i < e && !white_space(s[i]) {
        skip_word(s, i + 1, e)
    } else {
        i
    }
}

/// The end of `s[a..e]` once trailing white space is dropped.
pub open spec fn trim_back(s: Seq<char>, a: int, e: int) -> int
    decreases e - a,
{
    if a < e && white_space(s[e - 1]) {
        trim_back(s, a, e - 1)
    } else {
        e
    }
}

/// `s` without leading and trailing white space.
pub open spec fn trimmed(s: Seq<char>) -> Seq<char> {
    let a = skip_space(s, 0, s.len() as int);
    s.subrange(a, trim_back(s, a, s.len() as int))
}

/// Whether `c` is an ASCII decimal digit.
pub open spec fn is_digit(c: char) -> bool {
    '0' <= c <= '9'
}

/// The number that a sequence of decimal digits denotes.
pub open spec fn digits_value(d: Seq<char>) -> nat
    decreases d.len(),
{
    if d.len() == 0 {
        0
    } else {
        digits_value(d.drop_last()) * 10 + (d.last() as nat - '0' as nat) as nat
    }
}

/// `s` without a leading `+`, if it has one.
pub open spec fn unsigned_digits(s: Seq<char>) -> Seq<char> {
    if s.len() > 0 && s[0] == '+' {
        s.drop_first()
    } else {
        s
    }
}

/// Whether `d` is one or more decimal digits.
pub open spec fn all_digits(d: Seq<char>) -> bool {
    d.len() > 0 && forall|i: int| 0 <= i < d.len() ==> is_digit(#[trigger] d[i])
}

/// The unsigned number that `s` spells: an optional `+`, then one or more
/// decimal digits.
pub open spec fn decimal_value(s: Seq<char>) -> Option<nat> {
    if all_digits(unsigned_digits(s)) {
        Some(digits_value(unsigned_digits(s)))
    } else {
        None
    }
}

/// The command argument `arg` read as a 128-bit unsigned number.
pub open spec fn u128_of(arg: Seq<char>) -> Option<u128> {
    match decimal_value(arg) {
        Some(v) => if v <= u128::MAX {
            Some(v as u128)
        } else {
            None
        },
        None => None,
    }
}

/// The command argument `arg` read as a 64-bit unsigned number.
pub open spec fn u64_of(arg: Seq<char>) -> Option<u64> {
    match decimal_value(arg) {
        Some(v) => if v <= u64::MAX {
            Some(v as u64)
        } else {
            None
        },
        None => None,
    }
}

/// The command that the trimmed line `t`, which starts with `/`, denotes.
pub open spec fn command_of(t: Seq<char>) -> CommandView {
    let e = t.len() as int;
    let name_start = skip_space(t, 1, e);
    let name_end = skip_word(t, name_start, e);
    let arg_start = skip_space(t, name_end, e);
    let arg_end = skip_word(t, arg_start, e);
    let name = t.subrange(name_start, name_end);
    let arg = t.subrange(arg_start, arg_end);
    let has_arg = arg_start < e;
    if name == "connect"@ {
        CommandView::Connect
    } else if name == "create"@ || name == "join"@ {
        if !has_arg {
            CommandView::InvalidArgs {
                command: name,
                error: if name == "create"@ {
                    "Usage: /create <room_id>"@
                } else {
                    "Usage: /join <room_id>"@
                },
            }
        } else {
            match u128_of(arg) {
                Some(id) => if name == "create"@ {
                    CommandView::CreateRoom { room_id: id }
                } else {
                    CommandView::JoinRoom { room_id: id }
                },
                None => CommandView::InvalidArgs { command: name, error: "Invalid room ID"@ },
            }
        }
    } else if name == "leave"@ {
        CommandView::LeaveActiveRoom
    } else if name == "publish"@ {
        CommandView::PublishKeyPackage
    } else if name == "add"@ {
        if !has_arg {
            CommandView::InvalidArgs { command: name, error: "Usage: /add <user_id>"@ }
        } else {
            match u64_of(arg) {
                Some(id) => CommandView::AddMember { user_id: id },
                None => CommandView::InvalidArgs { command: name, error: "Invalid user ID"@ },
            }
        }
    } else if name == "quit"@ || name == "q"@ {
        CommandView::Quit
    } else {
        CommandView::Unknown { input: t }
    }
}

/// The command that a line of input denotes.
pub open spec fn parse_spec(input: Seq<char>) -> CommandView {
    let t = trimmed(input);
    if t.len() == 0 {
        CommandView::Message { content: seq![] }
    } else if t[0] != '/' {
        CommandView::Message { content: t }
    } else {
        command_of(t)
    }
}

/// The first position at or after `i`, before `e`, without white space.
fn skip_space_at(s: &str, i: usize, e: usize) -> (r: usize)
    requires
        i <= e <= s@.len(),
    ensures
        r == skip_space(s@, i as int, e as int),
        i <= r <= e,
{
    let mut j = i;
    while j < e && is_white_space(s.get_char(j))
        invariant
            i <= j <= e <= s@.len(),
            skip_space(s@, j as int, e as int) == skip_space(s@, i as int, e as int),
        decreases e - j,
    {
        j = j + 1;
    }
    j
}

/// The first position at or after `i`, before `e`, with white space.
fn skip_word_at(s: &str, i: usize, e: usize) -> (r: usize)
    requires
        i <= e <= s@.len(),
    ensures
        r == skip_word(s@, i as int, e as int),
        i <= r <= e,
{
    let mut j = i;
    while j < e && !is_white_space(s.get_char(j))
        invariant
            i <= j <= e <= s@.len(),
            skip_word(s@, j as int, e as int) == skip_word(s@, i as int, e as int),
        decreases e - j,
    {
        j = j + 1;
    }
    j
}

/// The end of `s[a..e]` without its trailing white space.
fn trim_back_at(s: &str, a: usize, e: usize) -> (r: usize)
    requires
        a <= e <= s@.len(),
    ensures
        r == trim_back(s@, a as int, e as int),
        a <= r <= e,
{
    let mut j = e;
    while j > a && is_white_space(s.get_char(j - 1))
        invariant
            a <= j <= e <= s@.len(),
            trim_back(s@, a as int, j as int) == trim_back(s@, a as int, e as int),
        decreases j,
    {
        j = j - 1;
    }
    j
}

/// Whether `s[from..to]` is exactly `lit`.
fn segment_is(s: &str, from: usize, to: usize, lit: &str) -> (r: bool)
    requires
        from <= to <= s@.len(),
    ensures
        r == (s@.subrange(from as int, to as int) == lit@),
{
    let n = lit.unicode_len();
    if to - from != n {
        return false;
    }
    let mut i: usize = 0;
    while i < n
        invariant
            i <= n,
            n == lit@.len(),
            to - from == n,
            from <= to <= s@.len(),
            forall|k: int| 0 <= k < i ==> s@[from + k] == lit@[k],
        decreases n - i,
    {
        if s.get_char(from + i) != lit.get_char(i) {
            assert(s@.subrange(from as int, to as int)[i as int] != lit@[i as int]);
            return false;
        }
        i = i + 1;
    }
    assert(s@.subrange(from as int, to as int) =~= lit@);
    true
}

/// Prefixes of a digit sequence never denote more than the whole.
proof fn lemma_digits_monotonic(d: Seq<char>, j: int, k: int)
    requires
        0 <= j <= k <= d.len(),
        forall|i: int| 0 <= i < d.len() ==> is_digit(d[i]),
    ensures
        digits_value(d.subrange(0, j)) <= digits_value(d.subrange(0, k)),
    decreases k - j,
{
    if j < k {
        lemma_digits_monotonic(d, j, k - 1);
        assert(d.subrange(0, k).drop_last() =~= d.subrange(0, k - 1));
    }
}

/// The number that `s[from..to]` spells, if it fits in 128 bits.
fn parse_decimal(s: &str, from: usize, to: usize) -> (r: Option<u128>)
    requires
        from <= to <= s@.len(),
    ensures
        r == u128_of(s@.subrange(from as int, to as int)),
{
    let ghost x = s@.subrange(from as int, to as int);
    let mut start = from;
    if from < to && s.get_char(from) == '+' {
        start = from + 1;
    }
    let ghost d = s@.subrange(start as int, to as int);
    assert(d =~= unsigned_digits(x));
    if start == to {
        return None;
    }
    let mut i = start;
    while i < to
        invariant
            start <= i <= to <= s@.len(),
            d == s@.subrange(start as int, to as int),
            d == unsigned_digits(x),
            x == s@.subrange(from as int, to as int),
            forall|k: int| 0 <= k < i - start ==> is_digit(d[k]),
        decreases to - i,
    {
        let c = s.get_char(i);
        if !('0' <= c && c <= '9') {
            assert(!is_digit(d[i - start]));
            assert(!all_digits(d));
            return None;
        }
        i = i + 1;
    }
    let mut acc: u128 = 0;
    i = start;
    while i < to
        invariant
            start <= i <= to <= s@.len(),
            d == s@.subrange(start as int, to as int),
            d == unsigned_digits(x),
            x == s@.subrange(from as int, to as int),
            forall|k: int| 0 <= k < d.len() ==> is_digit(d[k]),
            acc as nat == digits_value(d.subrange(0, i - start)),
        decreases to - i,
    {
        let c = s.get_char(i);
        assert(is_digit(d[i - start]) && d[i - start] == c);
        let digit = (c as u32 - '0' as u32) as u128;
        assert(d.subrange(0, i + 1 - start).drop_last() =~= d.subrange(0, i - start));
        if acc > (u128::MAX - digit) / 10 {
            proof {
                assert(acc * 10 + digit > u128::MAX) by (nonlinear_arith)
                    requires
                        acc > (u128::MAX - digit) / 10,
                        digit <= 9,
                ;
                lemma_digits_monotonic(d, i + 1 - start, d.len() as int);
                assert(d.subrange(0, d.len() as int) =~= d);
            }
            return None;
        }
        proof {
            assert(acc * 10 + digit <= u128::MAX) by (nonlinear_arith)
                requires
                    acc <= (u128::MAX - digit) / 10,
                    digit <= 9,
            ;
        }
        acc = acc * 10 + digit;
        i = i + 1;
    }
    assert(d.subrange(0, d.len() as int) =~= d);
    Some(acc)
}

/// Parses a line of user input. Lines that start with `/` after trimming
/// are commands; any other line, the empty one included, is a message.
pub fn parse(input: &str) -> (r: Command)
    ensures
        r@ == parse_spec(input@),
{
    let n = input.unicode_len();
    let a = skip_space_at(input, 0, n);
    let b = trim_back_at(input, a, n);
    let t = input.substring_char(a, b);
    let e = t.unicode_len();
    if e == 0 {
        return Command::Message { content: String::new() };
    }
    if t.get_char(0) != '/' {
        return Command::Message { content: String::from_str(t) };
    }
    let name_start = skip_space_at(t, 1, e);
    let name_end = skip_word_at(t, name_start, e);
    let arg_start = skip_space_at(t, name_end, e);
    let arg_end = skip_word_at(t, arg_start, e);
    let has_arg = arg_start < e;
    if segment_is(t, name_start, name_end, "connect") {
        Command::Connect
    } else if segment_is(t, name_start, name_end, "create") {
        if !has_arg {
            Command::InvalidArgs {
                command: String::from_str("create"),
                error: String::from_str("Usage: /create <room_id>"),
            }
        } else {
            match parse_decimal(t, arg_start, arg_end) {
                Some(room_id) => Command::CreateRoom { room_id },
                None => Command::InvalidArgs {
                    command: String::from_str("create"),
                    error: String::from_str("Invalid room ID"),
                },
            }
        }
    } else if segment_is(t, name_start, name_end, "join") {
        if !has_arg {
            Command::InvalidArgs {
                command: String::from_str("join"),
                error: String::from_str("Usage: /join <room_id>"),
            }
        } else {
            match parse_decimal(t, arg_start, arg_end) {
                Some(room_id) => Command::JoinRoom { room_id },
                None => Command::InvalidArgs {
                    command: String::from_str("join"),
                    error: String::from_str("Invalid room ID"),
                },
            }
        }
    } else if segment_is(t, name_start, name_end, "leave") {
        Command::LeaveActiveRoom
    } else if segment_is(t, name_start, name_end, "publish") {
        Command::PublishKeyPackage
    } else if segment_is(t, name_start, name_end, "add") {
        if !has_arg {
            Command::InvalidArgs {
                command: String::from_str("add"),
                error: String::from_str("Usage: /add <user_id>"),
            }
        } else {
            match parse_decimal(t, arg_start, arg_end) {
                Some(v) => if v <= u64::MAX as u128 {
                    Command::AddMember { user_id: v as u64 }
                } else {
                    Command::InvalidArgs {
                        command: String::from_str("add"),
                        error: String::from_str("Invalid user ID"),
                    }
                },
                None => Command::InvalidArgs {
                    command: String::from_str("add"),
                    error: String::from_str("Invalid user ID"),
                },
            }
        }
    } else if segment_is(t, name_start, name_end, "quit") || segment_is(t, name_start, name_end, "q") {
        Command::Quit
    } else {
        Command::Unknown { input: String::from_str(t) }
    }
}

} // verus!
