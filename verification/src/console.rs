//! The operator console: the commands it takes, and how a line of text is
//! read as a command.

use vstd::prelude::*;
use vstd::string::StrSliceExecFns;
use crate::block::Block;
use crate::player::BlockPos;
use crate::scalar::Scalar;

verus! {

/// How serious a log line is.
#[derive(Clone, Copy, Debug, PartialEq, Eq, Structural)]
pub enum LogLevel {
    Debug,
    Info,
    Warn,
    Error,
}

/// A log line for the console.
#[derive(Clone, Debug)]
pub struct Log(pub LogLevel, pub String);

/// The figures the console shows: seconds of uptime, ticks per second,
/// nanoseconds per tick, and players online.
#[derive(Clone, Copy, Debug, PartialEq, Eq, Structural)]
pub struct Stats {
    pub uptime: u64,
    pub tps: u64,
    pub mspt: u64,
    pub players: usize,
}

/// What the server tells the console.
#[derive(Clone, Debug)]
pub enum ToConsoleType {
    Quit,
    Log(Log),
    Stats(Stats),
}

/// A command of the operator.
#[derive(Debug)]
pub enum Command {
    Help,
    Shutdown,
    Mspt,
    Tps,
    Players,
    Kick(u32, String),
    Teleport { id: u32, x: Scalar, y: Scalar },
    Respawn(u32),
    SetBlock { pos: BlockPos },
    GetBlock { x: u32, y: u32 },
    SetSpawn(u32),
    SetSpawnRange(u32),
    InventorySee(u32),
}

/// The arguments that commands take.
#[derive(Clone, Copy, Debug, PartialEq, Eq, Structural)]
pub enum Argument {
    PlayerId,
    Reason,
    X,
    Y,
    Block,
    Range,
}

/// Why an argument could not be read.
#[derive(Clone, Copy, Debug, PartialEq, Eq, Structural)]
pub enum ArgParseError {
    /// It is no whole number that fits 32 bits.
    Int,
    /// It is zero where zero is not allowed.
    ZeroInt,
    /// It is no number.
    Scalar,
    /// It is no block.
    Block,
}

/// Why a line could not be read as a command.
#[derive(Clone, Debug)]
pub enum CommandError {
    /// The line begins with a word that is no command.
    InvalidCommand(String),
    /// The line ends before the argument.
    MissingArgument(Argument),
    /// The argument `arg` could not be read.
    ArgParseError { arg: Argument, err: ArgParseError },
}

/// A command as a mathematical value.
pub enum CommandView {
    Help,
    Shutdown,
    Mspt,
    Tps,
    Players,
    Kick(u32, Seq<char>),
    Teleport { id: u32, x: Scalar, y: Scalar },
    Respawn(u32),
    SetBlock { pos: BlockPos },
    GetBlock { x: u32, y: u32 },
    SetSpawn(u32),
    SetSpawnRange(u32),
    InventorySee(u32),
}

/// A reading error as a mathematical value.
pub enum CommandErrorView {
    InvalidCommand(Seq<char>),
    MissingArgument(Argument),
    ArgParseError { arg: Argument, err: ArgParseError },
}

impl View for Command {
    type V = CommandView;

    open spec fn view(&self) -> CommandView {
        match *self {
            Command::Help => CommandView::Help,
            Command::Shutdown => CommandView::Shutdown,
            Command::Mspt => CommandView::Mspt,
            Command::Tps => CommandView::Tps,
            Command::Players => CommandView::Players,
            Command::Kick(id, reason) => CommandView::Kick(id, reason@),
            Command::Teleport { id, x, y } => CommandView::Teleport { id, x, y },
            Command::Respawn(id) => CommandView::Respawn(id),
            Command::SetBlock { pos } => CommandView::SetBlock { pos },
            Command::GetBlock { x, y } => CommandView::GetBlock { x, y },
            Command::SetSpawn(x) => CommandView::SetSpawn(x),
            Command::SetSpawnRange(range) => CommandView::SetSpawnRange(range),
            Command::InventorySee(id) => CommandView::InventorySee(id),
        }
    }
}

impl View for CommandError {
    type V = CommandErrorView;

    open spec fn view(&self) -> CommandErrorView {
        match *self {
            CommandError::InvalidCommand(word) => CommandErrorView::InvalidCommand(word@),
            CommandError::MissingArgument(arg) => CommandErrorView::MissingArgument(arg),
            CommandError::ArgParseError { arg, err } => CommandErrorView::ArgParseError {
                arg,
                err,
            },
        }
    }
}

/// Whether a character is white space.
pub open spec fn is_space(c: char) -> bool {
    let v = c as u32;
    (0x09 <= v <= 0x0d) || v == 0x20 || v == 0x85 || v == 0xa0 || v == 0x1680 || (0x2000 <= v
        <= 0x200a) || v == 0x2028 || v == 0x2029 || v == 0x202f || v == 0x205f || v == 0x3000
}

/// Where the text begins once white space is dropped from its start,
/// looking from `from` on.
pub open spec fn trim_start_at(s: Seq<char>, from: int) -> int
    decreases s.len() - from,
{
    if 0 <= from < s.len() && is_space(s[from]) {
        trim_start_at(s, from + 1)
    } else {
        from
    }
}

/// Where the text ends once white space is dropped from its end, looking
/// from `to` back and not before `from`.
pub open spec fn trim_end_at(s: Seq<char>, from: int, to: int) -> int
    decreases to,
{
    if 0 <= from < to <= s.len() && is_space(s[to - 1]) {
        trim_end_at(s, from, to - 1)
    } else {
        to
    }
}

/// The text without the white space at its start and end.
pub open spec fn trimmed(s: Seq<char>) -> Seq<char> {
    let from = trim_start_at(s, 0);
    s.subrange(from, trim_end_at(s, from, s.len() as int))
}

/// Where the word that begins at `from` ends: at the next blank, or at the
/// end of the text.
pub open spec fn word_end(s: Seq<char>, from: int) -> int
    decreases s.len() - from,
{
    if 0 <= from < s.len() && s[from] != ' ' {
        word_end(s, from + 1)
    } else {
        from
    }
}

/// The word that begins at `from`, if the text has one there: words are
/// what stands between single blanks, and may be empty.
pub open spec fn word_at(s: Seq<char>, from: int) -> Option<Seq<char>> {
    if 0 <= from <= s.len() {
        Some(s.subrange(from, word_end(s, from)))
    } else {
        None
    }
}

/// Where the word after the one that begins at `from` begins; beyond the
/// end of the text if there is none.
pub open spec fn next_word(s: Seq<char>, from: int) -> int {
    word_end(s, from) + 1
}

/// Whether a character is a decimal digit.
pub open spec fn is_digit(c: char) -> bool {
    '0' <= c <= '9'
}

/// The value of a row of digits.
pub open spec fn digits_value(s: Seq<char>) -> nat
    decreases s.len(),
{
    if s.len() == 0 {
        0
    } else {
        (digits_value(s.drop_last()) * 10 + (s.last() as u32 - '0' as u32)) as nat
    }
}

/// Whether all characters of a text are decimal digits.
pub open spec fn all_digits(s: Seq<char>) -> bool {
    forall|i: int| 0 <= i < s.len() ==> is_digit(#[trigger] s[i])
}

/// A word read as a whole number that fits 32 bits: digits, with or without
/// a plus sign before them.
pub open spec fn read_u32(word: Seq<char>) -> Option<u32> {
    let digits = if word.len() > 0 && word[0] == '+' {
        word.skip(1)
    } else {
        word
    };
    if digits.len() > 0 && all_digits(digits) && digits_value(digits) <= u32::MAX {
        Some(digits_value(digits) as u32)
    } else {
        None
    }
}

/// Ten to the power of `n`.
pub open spec fn pow10(n: nat) -> nat
    decreases n,
{
    if n == 0 {
        1
    } else {
        10 * pow10((n - 1) as nat)
    }
}

/// A word read as a number of blocks, in sub-block units: a sign or none,
/// then digits, a point, more digits; digits before the point or after it, but
/// not both, may be missing. The whole part must fit 32 bits and at most nine
/// digits may follow the point; what they add is rounded down to the unit.
pub open spec fn read_scalar(word: Seq<char>) -> Option<Scalar> {
    let negative = word.len() > 0 && word[0] == '-';
    let body = if word.len() > 0 && (word[0] == '-' || word[0] == '+') {
        word.skip(1)
    } else {
        word
    };
    let point = digits_end(body, 0);
    let whole = body.subrange(0, point);
    let frac = if point < body.len() {
        body.subrange(point + 1, body.len() as int)
    } else {
        Seq::empty()
    };
    if (point < body.len() ==> body[point] == '.') && all_digits(frac) && frac.len() <= 9 && (
    whole.len() > 0 || frac.len() > 0) && digits_value(whole) <= u32::MAX {
        let units = digits_value(whole) * 1_562_500 + (digits_value(frac) * 1_562_500) / pow10(
            frac.len(),
        );
        Some(
            if negative {
                (-units) as i64
            } else {
                units as i64
            },
        )
    } else {
        None
    }
}

/// Where the digits that begin at `from` end.
pub open spec fn digits_end(s: Seq<char>, from: int) -> int
    decreases s.len() - from,
{
    if 0 <= from < s.len() && is_digit(s[from]) {
        digits_end(s, from + 1)
    } else {
        from
    }
}

/// A word read as a block: the name of the block, spelled exactly.
pub open spec fn read_block(word: Seq<char>) -> Option<Block> {
    if word == "Air"@ {
        Some(Block::Air)
    } else if word == "Grass"@ {
        Some(Block::Grass)
    } else if word == "Stone"@ {
        Some(Block::Stone)
    } else if word == "Wood"@ {
        Some(Block::Wood)
    } else if word == "Leaves"@ {
        Some(Block::Leaves)
    } else if word == "Water"@ {
        Some(Block::Water)
    } else if word == "Ore"@ {
        Some(Block::Ore)
    } else {
        None
    }
}

/// The argument `arg` read as a whole number from the word that begins at
/// `from`.
pub open spec fn u32_arg(s: Seq<char>, from: int, arg: Argument) -> Result<u32, CommandErrorView> {
    match word_at(s, from) {
        None => Err(CommandErrorView::MissingArgument(arg)),
        Some(word) => match read_u32(word) {
            None => Err(CommandErrorView::ArgParseError { arg, err: ArgParseError::Int }),
            Some(v) => Ok(v),
        },
    }
}

/// The argument `arg` read as a number of blocks from the word that begins
/// at `from`.
pub open spec fn scalar_arg(s: Seq<char>, from: int, arg: Argument) -> Result<
    Scalar,
    CommandErrorView,
> {
    match word_at(s, from) {
        None => Err(CommandErrorView::MissingArgument(arg)),
        Some(word) => match read_scalar(word) {
            None => Err(CommandErrorView::ArgParseError { arg, err: ArgParseError::Scalar }),
            Some(v) => Ok(v),
        },
    }
}

/// The argument `arg` read as a block from the word that begins at `from`.
pub open spec fn block_arg(s: Seq<char>, from: int, arg: Argument) -> Result<
    Block,
    CommandErrorView,
> {
    match word_at(s, from) {
        None => Err(CommandErrorView::MissingArgument(arg)),
        Some(word) => match read_block(word) {
            None => Err(CommandErrorView::ArgParseError { arg, err: ArgParseError::Block }),
            Some(v) => Ok(v),
        },
    }
}

/// A command that takes a player id, read from the words after the first.
pub open spec fn with_player(s: Seq<char>, make: spec_fn(u32) -> CommandView) -> Result<
    CommandView,
    CommandErrorView,
> {
    match u32_arg(s, next_word(s, 0), Argument::PlayerId) {
        Err(e) => Err(e),
        Ok(id) => Ok(make(id)),
    }
}

/// A trimmed line read as a command. The first word names the command, the
/// words after it are its arguments, in order; words beyond them are ignored.
pub open spec fn read_command(s: Seq<char>) -> Result<CommandView, CommandErrorView> {
    let word = s.subrange(0, word_end(s, 0));
    let a1 = next_word(s, 0);
    let a2 = next_word(s, a1);
    let a3 = next_word(s, a2);
    if word == "help"@ || word == "h"@ || word == "?"@ {
        Ok(CommandView::Help)
    } else if word == "exit"@ || word == "stop"@ {
        Ok(CommandView::Shutdown)
    } else if word == "mspt"@ {
        Ok(CommandView::Mspt)
    } else if word == "tps"@ {
        Ok(CommandView::Tps)
    } else if word == "players"@ || word == "p"@ {
        Ok(CommandView::Players)
    } else if word == "kick"@ {
        match u32_arg(s, a1, Argument::PlayerId) {
            Err(e) => Err(e),
            Ok(id) => match word_at(s, a2) {
                None => Err(CommandErrorView::MissingArgument(Argument::Reason)),
                Some(reason) => Ok(CommandView::Kick(id, reason)),
            },
        }
    } else if word == "respawn"@ {
        with_player(s, |id: u32| CommandView::Respawn(id))
    } else if word == "teleport"@ || word == "tp"@ {
        match u32_arg(s, a1, Argument::PlayerId) {
            Err(e) => Err(e),
            Ok(id) => match scalar_arg(s, a2, Argument::X) {
                Err(e) => Err(e),
                Ok(x) => match scalar_arg(s, a3, Argument::Y) {
                    Err(e) => Err(e),
                    Ok(y) => Ok(CommandView::Teleport { id, x, y }),
                },
            },
        }
    } else if word == "get"@ || word == "block_at"@ {
        match u32_arg(s, a1, Argument::X) {
            Err(e) => Err(e),
            Ok(x) => match u32_arg(s, a2, Argument::Y) {
                Err(e) => Err(e),
                Ok(y) => Ok(CommandView::GetBlock { x, y }),
            },
        }
    } else if word == "set"@ {
        match u32_arg(s, a1, Argument::X) {
            Err(e) => Err(e),
            Ok(x) => match u32_arg(s, a2, Argument::Y) {
                Err(e) => Err(e),
                Ok(y) => match block_arg(s, a3, Argument::Block) {
                    Err(e) => Err(e),
                    Ok(block) => Ok(CommandView::SetBlock { pos: (x, y, block) }),
                },
            },
        }
    } else if word == "spawn"@ {
        match u32_arg(s, a1, Argument::X) {
            Err(e) => Err(e),
            Ok(x) => Ok(CommandView::SetSpawn(x)),
        }
    } else if word == "spawn_range"@ {
        match u32_arg(s, a1, Argument::Range) {
            Err(e) => Err(e),
            Ok(range) => if range == 0 {
                Err(
                    CommandErrorView::ArgParseError {
                        arg: Argument::Range,
                        err: ArgParseError::ZeroInt,
                    },
                )
            } else {
                Ok(CommandView::SetSpawnRange(range))
            },
        }
    } else if word == "invsee"@ || word == "inventorysee"@ {
        with_player(s, |id: u32| CommandView::InventorySee(id))
    } else {
        Err(CommandErrorView::InvalidCommand(word))
    }
}

/// A line read as a command.
pub open spec fn read_line(line: Seq<char>) -> Result<CommandView, CommandErrorView> {
    read_command(trimmed(line))
}


/// The value of a row of digits is at least that of any of its beginnings,
/// and a digit more makes it ten times as large and the digit more.
pub proof fn lemma_digits_grow(s: Seq<char>, k: int)
    requires
        all_digits(s),
        0 <= k <= s.len(),
    ensures
        digits_value(s.take(k)) <= digits_value(s),
    decreases s.len() - k,
{
    if k < s.len() {
        lemma_digits_grow(s, k + 1);
        assert(s.take(k + 1).drop_last() =~= s.take(k));
        assert(is_digit(s[k]));
    } else {
        assert(s.take(k) =~= s);
    }
}

/// Whether a character is white space.
pub fn is_whitespace(c: char) -> (b: bool)
    ensures
        b == is_space(c),
{
    let v: u32 = c as u32;
    (0x09 <= v && v <= 0x0d) || v == 0x20 || v == 0x85 || v == 0xa0 || v == 0x1680 || (0x2000 <= v
        && v <= 0x200a) || v == 0x2028 || v == 0x2029 || v == 0x202f || v == 0x205f || v == 0x3000
}

/// The characters of a text.
pub fn chars_of(text: &str) -> (chars: Vec<char>)
    ensures
        chars@ == text@,
{
    let n: usize = text.unicode_len();
    let mut chars: Vec<char> = Vec::new();
    let mut i: usize = 0;
    while i < n
        invariant
            0 <= i <= n,
            n == text@.len(),
            chars@ == text@.take(i as int),
        decreases n - i,
    {
        chars.push(text.get_char(i));
        assert(text@.take(i + 1) =~= text@.take(i as int).push(text@[i as int]));
        i = i + 1;
    }
    assert(text@.take(n as int) =~= text@);
    chars
}

/// Where the word that begins at `from` ends.
pub fn find_word_end(t: &Vec<char>, from: usize) -> (end: usize)
    requires
        from <= t@.len(),
    ensures
        end == word_end(t@, from as int),
        from <= end <= t@.len(),
{
    let mut end: usize = from;
    while end < t.len() && t[end] != ' '
        invariant
            from <= end <= t@.len(),
            word_end(t@, from as int) == word_end(t@, end as int),
        decreases t@.len() - end,
    {
        end = end + 1;
    }
    end
}

/// Whether the part of `t` from `from` to `to` spells `word`.
pub fn word_is(t: &Vec<char>, from: usize, to: usize, word: &str) -> (b: bool)
    requires
        from <= to <= t@.len(),
    ensures
        b == (t@.subrange(from as int, to as int) == word@),
{
    let n: usize = word.unicode_len();
    if to - from != n {
        return false;
    }
    let mut i: usize = 0;
    while i < n
        invariant
            0 <= i <= n,
            n == word@.len(),
            to - from == n,
            from <= to <= t@.len(),
            forall|k: int| 0 <= k < i ==> t@[from + k] == word@[k],
        decreases n - i,
    {
        if t[from + i] != word.get_char(i) {
            assert(t@.subrange(from as int, to as int)[i as int] != word@[i as int]);
            return false;
        }
        i = i + 1;
    }
    assert(t@.subrange(from as int, to as int) =~= word@);
    true
}

/// The digits of `t` from `from` to `to` read as a number no larger than
/// `limit`.
fn read_digits(t: &Vec<char>, from: usize, to: usize, limit: u64) -> (r: Option<u64>)
    requires
        from <= to <= t@.len(),
        limit <= 0xffff_ffff,
    ensures
        r == (if all_digits(t@.subrange(from as int, to as int)) && digits_value(
            t@.subrange(from as int, to as int),
        ) <= limit {
            Some(digits_value(t@.subrange(from as int, to as int)) as u64)
        } else {
            None
        }),
{
    let ghost digits = t@.subrange(from as int, to as int);
    let mut value: u64 = 0;
    let mut i: usize = from;
    assert(digits.take(0) =~= Seq::<char>::empty());
    while i < to
        invariant
            from <= i <= to <= t@.len(),
            digits == t@.subrange(from as int, to as int),
            limit <= 0xffff_ffff,
            value <= limit,
            value == digits_value(digits.take(i - from)),
            forall|k: int| 0 <= k < i - from ==> is_digit(#[trigger] digits[k]),
        decreases to - i,
    {
        let c: char = t[i];
        assert(c == digits[i - from]);
        if !('0' <= c && c <= '9') {
            return None;
        }
        let d: u64 = (c as u32 - '0' as u32) as u64;
        assert(digits.take(i - from + 1).drop_last() =~= digits.take(i - from));
        value = value * 10 + d;
        if value > limit {
            proof {
                if all_digits(digits) {
                    lemma_digits_grow(digits, i - from + 1);
                }
            }
            return None;
        }
        i = i + 1;
    }
    assert(digits.take(to - from) =~= digits);
    Some(value)
}

/// A word read as a whole number that fits 32 bits.
pub fn parse_u32(t: &Vec<char>, from: usize, to: usize) -> (r: Option<u32>)
    requires
        from <= to <= t@.len(),
    ensures
        r == read_u32(t@.subrange(from as int, to as int)),
{
    let ghost word = t@.subrange(from as int, to as int);
    let start: usize = if from < to && t[from] == '+' {
        from + 1
    } else {
        from
    };
    proof {
        if start > from {
            assert(word[0] == '+');
            assert(word.skip(1) =~= t@.subrange(start as int, to as int));
        } else if word.len() > 0 {
            assert(word[0] == t@[from as int]);
        }
    }
    if start == to {
        return None;
    }
    match read_digits(t, start, to, 0xffff_ffff) {
        Some(v) => Some(v as u32),
        None => None,
    }
}

/// Where the digits that begin at `from` end, not beyond `to`.
fn find_digits_end(t: &Vec<char>, from: usize, to: usize) -> (end: usize)
    requires
        from <= to <= t@.len(),
    ensures
        from <= end <= to,
        end - from == digits_end(t@.subrange(from as int, to as int), 0),
{
    let ghost body = t@.subrange(from as int, to as int);
    let mut end: usize = from;
    while end < to && '0' <= t[end] && t[end] <= '9'
        invariant
            from <= end <= to <= t@.len(),
            body == t@.subrange(from as int, to as int),
            digits_end(body, 0) == digits_end(body, end - from),
        decreases to - end,
    {
        assert(body[end - from] == t@[end as int]);
        end = end + 1;
    }
    proof {
        if end < to {
            assert(body[end - from] == t@[end as int]);
        }
    }
    end
}

/// A word read as a number of blocks, in sub-block units.
pub fn parse_scalar(t: &Vec<char>, from: usize, to: usize) -> (r: Option<Scalar>)
    requires
        from <= to <= t@.len(),
    ensures
        r == read_scalar(t@.subrange(from as int, to as int)),
{
    let ghost word = t@.subrange(from as int, to as int);
    let negative: bool = from < to && t[from] == '-';
    let start: usize = if from < to && (t[from] == '-' || t[from] == '+') {
        from + 1
    } else {
        from
    };
    let ghost body = t@.subrange(start as int, to as int);
    proof {
        if word.len() > 0 {
            assert(word[0] == t@[from as int]);
        }
        if start > from {
            assert(word.skip(1) =~= body);
        } else {
            assert(word =~= body);
        }
    }
    let point: usize = find_digits_end(t, start, to);
    let ghost whole = body.subrange(0, point - start);
    assert(whole =~= t@.subrange(start as int, point as int));
    if point < to {
        assert(body[point - start] == t@[point as int]);
        if t[point] != '.' {
            return None;
        }
    }
    let frac_from: usize = if point < to {
        point + 1
    } else {
        to
    };
    let ghost frac = if point - start < body.len() {
        body.subrange(point - start + 1, body.len() as int)
    } else {
        Seq::<char>::empty()
    };
    assert(frac =~= t@.subrange(frac_from as int, to as int));
    if to - frac_from > 9 || (point == start && frac_from == to) {
        return None;
    }
    let whole_value: u64 = match read_digits(t, start, point, 0xffff_ffff) {
        None => {
            proof {
                assert(all_digits(whole)) by {
                    lemma_digits_end(body, 0);
                }
            }
            return None;
        },
        Some(v) => v,
    };
    let mut scale: u64 = 1;
    let mut k: usize = 0;
    while k < to - frac_from
        invariant
            0 <= k <= to - frac_from <= 9,
            scale == pow10(k as nat),
            1 <= scale <= 1_000_000_000,
        decreases to - frac_from - k,
    {
        proof {
            lemma_pow10_bound((k + 1) as nat);
            assert(pow10((k + 1) as nat) == 10 * pow10(k as nat));
        }
        scale = scale * 10;
        k = k + 1;
    }
    let frac_value: u64 = match read_digits(t, frac_from, to, 0xffff_ffff) {
        None => {
            proof {
                if all_digits(frac) {
                    lemma_digits_bound(frac);
                    lemma_pow10_bound(frac.len());
                }
            }
            return None;
        },
        Some(v) => v,
    };
    let units: u64 = whole_value * 1_562_500 + (frac_value * 1_562_500) / scale;
    proof {
        assert((frac_value * 1_562_500) / (scale as int) <= frac_value * 1_562_500)
            by (nonlinear_arith)
            requires
                scale >= 1,
                frac_value >= 0,
        ;
    }
    if negative {
        Some(-(units as i64))
    } else {
        Some(units as i64)
    }
}

/// The digits that begin at a place are digits.
pub proof fn lemma_digits_end(s: Seq<char>, from: int)
    requires
        0 <= from <= s.len(),
    ensures
        from <= digits_end(s, from) <= s.len(),
        forall|i: int| from <= i < digits_end(s, from) ==> is_digit(#[trigger] s[i]),
        all_digits(s.subrange(from, digits_end(s, from))),
    decreases s.len() - from,
{
    if from < s.len() && is_digit(s[from]) {
        lemma_digits_end(s, from + 1);
    }
}

/// Ten to a power up to nine is at most a thousand millions.
pub proof fn lemma_pow10_bound(n: nat)
    requires
        n <= 9,
    ensures
        1 <= pow10(n) <= 1_000_000_000,
{
    reveal_with_fuel(pow10, 11);
}

/// A row of digits is worth less than ten to the power of its length.
pub proof fn lemma_digits_bound(s: Seq<char>)
    requires
        all_digits(s),
    ensures
        digits_value(s) < pow10(s.len()),
    decreases s.len(),
{
    if s.len() > 0 {
        lemma_digits_bound(s.drop_last());
        assert(is_digit(s[s.len() - 1]));
    }
}

/// A word read as a block.
pub fn parse_block(t: &Vec<char>, from: usize, to: usize) -> (r: Option<Block>)
    requires
        from <= to <= t@.len(),
    ensures
        r == read_block(t@.subrange(from as int, to as int)),
{
    if word_is(t, from, to, "Air") {
        Some(Block::Air)
    } else if word_is(t, from, to, "Grass") {
        Some(Block::Grass)
    } else if word_is(t, from, to, "Stone") {
        Some(Block::Stone)
    } else if word_is(t, from, to, "Wood") {
        Some(Block::Wood)
    } else if word_is(t, from, to, "Leaves") {
        Some(Block::Leaves)
    } else if word_is(t, from, to, "Water") {
        Some(Block::Water)
    } else if word_is(t, from, to, "Ore") {
        Some(Block::Ore)
    } else {
        None
    }
}


/// Whether the result `r` of reading is what the grammar gives as `spec`.
pub open spec fn reads_as<T>(r: Result<T, CommandError>, spec: Result<T, CommandErrorView>) -> bool {
    match r {
        Ok(v) => spec == Ok::<T, CommandErrorView>(v),
        Err(e) => spec == Err::<T, CommandErrorView>(e@),
    }
}

/// Whether `place` stands for the place `pos` in the text `s`: it is that
/// place, or it is `None` and the place lies beyond the text.
pub open spec fn is_place(s: Seq<char>, place: Option<usize>, pos: int) -> bool {
    match place {
        Some(p) => p == pos && p <= s.len(),
        None => pos > s.len(),
    }
}

/// Where the word after the one that begins at `from` begins.
fn step(t: &Vec<char>, from: Option<usize>, Ghost(pos): Ghost<int>) -> (next: Option<usize>)
    requires
        is_place(t@, from, pos),
    ensures
        is_place(t@, next, next_word(t@, pos)),
{
    match from {
        Some(p) => {
            let end: usize = find_word_end(t, p);
            if end < t.len() {
                Some(end + 1)
            } else {
                None
            }
        },
        None => None,
    }
}

/// The argument `arg` read as a whole number from the word that begins at
/// `from`.
fn u32_argument(t: &Vec<char>, from: Option<usize>, Ghost(pos): Ghost<int>, arg: Argument) -> (r:
    Result<u32, CommandError>)
    requires
        is_place(t@, from, pos),
    ensures
        reads_as(r, u32_arg(t@, pos, arg)),
{
    match from {
        None => Err(CommandError::MissingArgument(arg)),
        Some(p) => {
            let end: usize = find_word_end(t, p);
            match parse_u32(t, p, end) {
                None => Err(CommandError::ArgParseError { arg, err: ArgParseError::Int }),
                Some(v) => Ok(v),
            }
        },
    }
}

/// The argument `arg` read as a number of blocks from the word that begins
/// at `from`.
fn scalar_argument(t: &Vec<char>, from: Option<usize>, Ghost(pos): Ghost<int>, arg: Argument) -> (r:
    Result<Scalar, CommandError>)
    requires
        is_place(t@, from, pos),
    ensures
        reads_as(r, scalar_arg(t@, pos, arg)),
{
    match from {
        None => Err(CommandError::MissingArgument(arg)),
        Some(p) => {
            let end: usize = find_word_end(t, p);
            match parse_scalar(t, p, end) {
                None => Err(CommandError::ArgParseError { arg, err: ArgParseError::Scalar }),
                Some(v) => Ok(v),
            }
        },
    }
}

/// The argument `arg` read as a block from the word that begins at `from`.
fn block_argument(t: &Vec<char>, from: Option<usize>, Ghost(pos): Ghost<int>, arg: Argument) -> (r:
    Result<Block, CommandError>)
    requires
        is_place(t@, from, pos),
    ensures
        reads_as(r, block_arg(t@, pos, arg)),
{
    match from {
        None => Err(CommandError::MissingArgument(arg)),
        Some(p) => {
            let end: usize = find_word_end(t, p);
            match parse_block(t, p, end) {
                None => Err(CommandError::ArgParseError { arg, err: ArgParseError::Block }),
                Some(v) => Ok(v),
            }
        },
    }
}

/// Where a text begins and ends once the white space at its start and end
/// is dropped.
fn trim_bounds(chars: &Vec<char>) -> (r: (usize, usize))
    ensures
        r.0 <= r.1 <= chars@.len(),
        chars@.subrange(r.0 as int, r.1 as int) == trimmed(chars@),
{
    let mut from: usize = 0;
    while from < chars.len() && is_whitespace(chars[from])
        invariant
            0 <= from <= chars@.len(),
            trim_start_at(chars@, 0) == trim_start_at(chars@, from as int),
        decreases chars@.len() - from,
    {
        from = from + 1;
    }
    let mut to: usize = chars.len();
    while to > from && is_whitespace(chars[to - 1])
        invariant
            from <= to <= chars@.len(),
            trim_end_at(chars@, from as int, chars@.len() as int) == trim_end_at(
                chars@,
                from as int,
                to as int,
            ),
        decreases to,
    {
        to = to - 1;
    }
    (from, to)
}

impl Command {
    /// Reads a line as a command.
    pub fn parse(line: &str) -> (r: Result<Command, CommandError>)
        ensures
            match r {
                Ok(c) => read_line(line@) == Ok::<CommandView, CommandErrorView>(c@),
                Err(e) => read_line(line@) == Err::<CommandView, CommandErrorView>(e@),
            },
    {
        let chars: Vec<char> = chars_of(line);
        let (lo, hi): (usize, usize) = trim_bounds(&chars);
        let mut t: Vec<char> = Vec::new();
        let mut i: usize = lo;
        while i < hi
            invariant
                lo <= i <= hi <= chars@.len(),
                t@ == chars@.subrange(lo as int, i as int),
            decreases hi - i,
        {
            t.push(chars[i]);
            assert(chars@.subrange(lo as int, i + 1) =~= chars@.subrange(lo as int, i as int).push(
                chars@[i as int],
            ));
            i = i + 1;
        }
        assert(t@ == trimmed(line@));
        let end: usize = find_word_end(&t, 0);
        let ghost first_arg = next_word(t@, 0);
        let ghost second_arg = next_word(t@, first_arg);
        let ghost third_arg = next_word(t@, second_arg);
        let a1: Option<usize> = step(&t, Some(0), Ghost(0));
        let a2: Option<usize> = step(&t, a1, Ghost(first_arg));
        let a3: Option<usize> = step(&t, a2, Ghost(second_arg));
        if word_is(&t, 0, end, "help") || word_is(&t, 0, end, "h") || word_is(&t, 0, end, "?") {
            Ok(Command::Help)
        } else if word_is(&t, 0, end, "exit") || word_is(&t, 0, end, "stop") {
            Ok(Command::Shutdown)
        } else if word_is(&t, 0, end, "mspt") {
            Ok(Command::Mspt)
        } else if word_is(&t, 0, end, "tps") {
            Ok(Command::Tps)
        } else if word_is(&t, 0, end, "players") || word_is(&t, 0, end, "p") {
            Ok(Command::Players)
        } else if word_is(&t, 0, end, "kick") {
            match u32_argument(&t, a1, Ghost(first_arg), Argument::PlayerId) {
                Err(e) => Err(e),
                Ok(id) => match a2 {
                    None => Err(CommandError::MissingArgument(Argument::Reason)),
                    Some(at) => {
                        let reason_end: usize = find_word_end(&t, at);
                        let reason: String = line.substring_char(lo + at, lo + reason_end).to_owned();
                        assert(reason@ =~= t@.subrange(at as int, reason_end as int));
                        Ok(Command::Kick(id, reason))
                    },
                },
            }
        } else if word_is(&t, 0, end, "respawn") {
            match u32_argument(&t, a1, Ghost(first_arg), Argument::PlayerId) {
                Err(e) => Err(e),
                Ok(id) => Ok(Command::Respawn(id)),
            }
        } else if word_is(&t, 0, end, "teleport") || word_is(&t, 0, end, "tp") {
            match u32_argument(&t, a1, Ghost(first_arg), Argument::PlayerId) {
                Err(e) => Err(e),
                Ok(id) => match scalar_argument(&t, a2, Ghost(second_arg), Argument::X) {
                    Err(e) => Err(e),
                    Ok(x) => match scalar_argument(&t, a3, Ghost(third_arg), Argument::Y) {
                        Err(e) => Err(e),
                        Ok(y) => Ok(Command::Teleport { id, x, y }),
                    },
                },
            }
        } else if word_is(&t, 0, end, "get") || word_is(&t, 0, end, "block_at") {
            match u32_argument(&t, a1, Ghost(first_arg), Argument::X) {
                Err(e) => Err(e),
                Ok(x) => match u32_argument(&t, a2, Ghost(second_arg), Argument::Y) {
                    Err(e) => Err(e),
                    Ok(y) => Ok(Command::GetBlock { x, y }),
                },
            }
        } else if word_is(&t, 0, end, "set") {
            match u32_argument(&t, a1, Ghost(first_arg), Argument::X) {
                Err(e) => Err(e),
                Ok(x) => match u32_argument(&t, a2, Ghost(second_arg), Argument::Y) {
                    Err(e) => Err(e),
                    Ok(y) => match block_argument(&t, a3, Ghost(third_arg), Argument::Block) {
                        Err(e) => Err(e),
                        Ok(block) => Ok(Command::SetBlock { pos: (x, y, block) }),
                    },
                },
            }
        } else if word_is(&t, 0, end, "spawn") {
            match u32_argument(&t, a1, Ghost(first_arg), Argument::X) {
                Err(e) => Err(e),
                Ok(x) => Ok(Command::SetSpawn(x)),
            }
        } else if word_is(&t, 0, end, "spawn_range") {
            match u32_argument(&t, a1, Ghost(first_arg), Argument::Range) {
                Err(e) => Err(e),
                Ok(range) => if range == 0 {
                    Err(
                        CommandError::ArgParseError {
                            arg: Argument::Range,
                            err: ArgParseError::ZeroInt,
                        },
                    )
                } else {
                    Ok(Command::SetSpawnRange(range))
                },
            }
        } else if word_is(&t, 0, end, "invsee") || word_is(&t, 0, end, "inventorysee") {
            match u32_argument(&t, a1, Ghost(first_arg), Argument::PlayerId) {
                Err(e) => Err(e),
                Ok(id) => Ok(Command::InventorySee(id)),
            }
        } else {
            let word: String = line.substring_char(lo, lo + end).to_owned();
            assert(word@ =~= t@.subrange(0, end as int));
            Err(CommandError::InvalidCommand(word))
        }
    }
}

impl std::str::FromStr for Command {
    type Err = CommandError;

    /// Reads a line as a command, as [`Command::parse`] does.
    fn from_str(s: &str) -> (r: Result<Command, CommandError>)
        ensures
            match r {
                Ok(c) => read_line(s@) == Ok::<CommandView, CommandErrorView>(c@),
                Err(e) => read_line(s@) == Err::<CommandView, CommandErrorView>(e@),
            },
    {
        Command::parse(s)
    }
}

} // verus!
