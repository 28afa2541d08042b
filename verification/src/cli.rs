//! The commands that steer a board from a line of text.

use crate::game::Game;
use crate::game::board::GameBoard;
use crate::game::board::TileState;
use vstd::prelude::*;

verus! {

/// The interval, in milliseconds, of a ticker that is started without one.
pub const DEFAULT_INTERVAL_MILLIS: u64 = 200;

/// What advances the board when a ticker ticks.
#[derive(Debug, PartialEq, Eq)]
pub enum TickerKind {
    /// The rule of the game.
    Nature,
    /// The network saved at `path`.
    Network { path: String },
}

/// A command, with what it was given.
#[derive(Debug, PartialEq, Eq)]
pub enum Command {
    /// Advance the game by `times` generations.
    Step { times: usize },
    /// Start a ticker under `name`.
    Start { name: String, interval_millis: u64, ticker: TickerKind },
    /// Stop the ticker named `name`.
    Stop { name: String },
    /// Kill every cell.
    Clear,
    /// Give the board a new size.
    Resize { width: usize, height: usize },
    /// Replace the board by one drawn at random.
    Random { alive_count: usize, block_size: usize },
    /// Give every ticker a new interval.
    SetRate { tick_rate_millis: u64 },
    /// Leave.
    Exit,
}

/// Why a line is no command.
#[derive(Debug, PartialEq, Eq)]
pub enum CommandError {
    NoCommand,
    UnknownCommand,
    InvalidNumber,
    NoName,
    NoNetworkPath,
    UnknownTickerType { name: String },
    MissingWidth,
    MissingHeight,
    MissingAliveCount,
    MissingTickRate,
}

/// The digit that a character stands for.
pub open spec fn digit_of(c: char) -> Option<nat> {
    if '0' <= c <= '9' {
        Some((c as nat - '0' as nat) as nat)
    } else {
        None
    }
}

/// Whether every character is a decimal digit.
pub open spec fn all_digits(text: Seq<char>) -> bool {
    forall|i: int| 0 <= i < text.len() ==> digit_of(#[trigger] text[i]) is Some
}

/// The number that decimal digits spell.
pub open spec fn digits_value(text: Seq<char>) -> nat
    decreases text.len(),
{
    if text.len() == 0 {
        0
    } else {
        digits_value(text.drop_last()) * 10 + digit_of(text.last()).unwrap()
    }
}

/// The number that a text spells, if it spells one no greater than `max`: one
/// or more decimal digits, after a plus sign or none.
pub open spec fn unsigned_of(text: Seq<char>, max: nat) -> Option<nat> {
    let digits = if text.len() > 0 && text[0] == '+' {
        text.skip(1)
    } else {
        text
    };
    if digits.len() > 0 && all_digits(digits) && digits_value(digits) <= max {
        Some(digits_value(digits))
    } else {
        None
    }
}

/// The digits spell no smaller a number than any leading part of them.
pub proof fn lemma_digits_grow(text: Seq<char>, k: int)
    requires
        all_digits(text),
        0 <= k <= text.len(),
    ensures
        digits_value(text.take(k)) <= digits_value(text),
    decreases text.len() - k,
{
    if k < text.len() {
        lemma_digits_grow(text, k + 1);
        assert(text.take(k + 1).drop_last() =~= text.take(k));
        assert(digit_of(text[k]) is Some);
    } else {
        assert(text.take(k) =~= text);
    }
}

/// The number that `text` spells, if it spells one no greater than `max`.
pub fn parse_unsigned(text: &str, max: u64) -> (number: Option<u64>)
    ensures
        match unsigned_of(text@, max as nat) {
            Some(value) => number == Some(value as u64),
            None => number is None,
        },
{
    let len: usize = text.unicode_len();
    let start: usize = if len > 0 && text.get_char(0) == '+' {
        1
    } else {
        0
    };
    let ghost digits = if text@.len() > 0 && text@[0] == '+' {
        text@.skip(1)
    } else {
        text@
    };
    proof {
        assert(text@.skip(0) =~= text@);
        assert(digits == text@.skip(start as int));
    }
    if start == len {
        return None;
    }
    let mut value: u64 = 0;
    let mut index: usize = start;
    proof {
        assert(digits.take(0) =~= Seq::<char>::empty());
    }
    while index < len
        invariant
            start <= index <= len,
            len == text@.len(),
            digits == text@.skip(start as int),
            digits == if text@.len() > 0 && text@[0] == '+' {
                text@.skip(1)
            } else {
                text@
            },
            all_digits(digits.take(index - start)),
            value == digits_value(digits.take(index - start)),
            value <= max,
        decreases len - index,
    {
        let c = text.get_char(index);
        proof {
            assert(digits[index - start] == c);
            assert(digits.take(index - start + 1).drop_last() =~= digits.take(index - start));
        }
        if !(c >= '0' && c <= '9') {
            proof {
                assert(digit_of(digits[index - start]) is None);
            }
            return None;
        }
        let digit: u32 = c as u32 - '0' as u32;
        let next: u128 = value as u128 * 10 + digit as u128;
        proof {
            assert(next == digits_value(digits.take(index - start + 1)));
        }
        if next > max as u128 {
            proof {
                if all_digits(digits) {
                    lemma_digits_grow(digits, index - start + 1);
                }
            }
            return None;
        }
        proof {
            assert forall|i: int| 0 <= i < index - start + 1 implies digit_of(
                #[trigger] digits.take(index - start + 1)[i],
            ) is Some by {
                if i < index - start {
                    assert(digits.take(index - start + 1)[i] == digits.take(index - start)[i]);
                }
            }
        }
        value = next as u64;
        index += 1;
    }
    proof {
        assert(digits.take(index - start) =~= digits);
    }
    Some(value)
}

/// Whether the two texts are the same, character by character.
pub fn same_text(a: &str, b: &str) -> (same: bool)
    ensures
        same == (a@ == b@),
{
    let len: usize = a.unicode_len();
    if len != b.unicode_len() {
        return false;
    }
    let mut index: usize = 0;
    while index < len
        invariant
            index <= len,
            len == a@.len(),
            len == b@.len(),
            forall|i: int| 0 <= i < index ==> a@[i] == b@[i],
        decreases len - index,
    {
        if a.get_char(index) != b.get_char(index) {
            return false;
        }
        index += 1;
    }
    proof {
        assert(a@ =~= b@);
    }
    true
}

/// The number that the word at `place` spells, or `fallback` if there is no
/// such word or it spells none.
pub open spec fn number_or(words: Seq<Seq<char>>, place: int, max: nat, fallback: nat) -> nat {
    if place < words.len() {
        match unsigned_of(words[place], max) {
            Some(value) => value,
            None => fallback,
        }
    } else {
        fallback
    }
}

/// Whether `result` is what the words of a line mean.
///
/// The first word names the command. `step` takes a number of generations, one
/// if none is given. `start` takes a name, then an interval, which falls back
/// to the default if it is missing or spells no number, then the kind of
/// ticker: `nature`, or nothing, or `network` and the path of a save. `stop`
/// takes a name. `resize` takes a width and a height. `random` takes a number
/// of live blocks and the side of a block, which falls back to one. `setrate`
/// takes an interval. `clear` and `exit` take nothing.
pub open spec fn parses_to(words: Seq<Seq<char>>, result: Result<Command, CommandError>) -> bool {
    if words.len() == 0 {
        result == Err::<Command, CommandError>(CommandError::NoCommand)
    } else if words[0] == "step"@ {
        let times = if words.len() > 1 {
            unsigned_of(words[1], usize::MAX as nat)
        } else {
            Some(1nat)
        };
        match times {
            Some(value) => result == Ok::<Command, CommandError>(
                Command::Step { times: value as usize },
            ),
            None => result == Err::<Command, CommandError>(CommandError::InvalidNumber),
        }
    } else if words[0] == "start"@ {
        if words.len() < 2 {
            result == Err::<Command, CommandError>(CommandError::NoName)
        } else {
            let interval = number_or(words, 2, u64::MAX as nat, DEFAULT_INTERVAL_MILLIS as nat);
            if words.len() < 4 || words[3] == "nature"@ {
                result matches Ok(Command::Start { name, interval_millis, ticker }) && name@
                    == words[1] && interval_millis == interval && ticker == TickerKind::Nature
            } else if words[3] == "network"@ {
                if words.len() < 5 {
                    result == Err::<Command, CommandError>(CommandError::NoNetworkPath)
                } else {
                    result matches Ok(
                        Command::Start { name, interval_millis, ticker: TickerKind::Network { path } },
                    ) && name@ == words[1] && interval_millis == interval && path@ == words[4]
                }
            } else {
                result matches Err(CommandError::UnknownTickerType { name }) && name@ == words[3]
            }
        }
    } else if words[0] == "stop"@ {
        if words.len() < 2 {
            result == Err::<Command, CommandError>(CommandError::NoName)
        } else {
            result matches Ok(Command::Stop { name }) && name@ == words[1]
        }
    } else if words[0] == "clear"@ {
        result == Ok::<Command, CommandError>(Command::Clear)
    } else if words[0] == "resize"@ {
        if words.len() < 2 {
            result == Err::<Command, CommandError>(CommandError::MissingWidth)
        } else {
            match unsigned_of(words[1], usize::MAX as nat) {
                None => result == Err::<Command, CommandError>(CommandError::InvalidNumber),
                Some(width) => if words.len() < 3 {
                    result == Err::<Command, CommandError>(CommandError::MissingHeight)
                } else {
                    match unsigned_of(words[2], usize::MAX as nat) {
                        None => result == Err::<Command, CommandError>(CommandError::InvalidNumber),
                        Some(height) => result == Ok::<Command, CommandError>(
                            Command::Resize { width: width as usize, height: height as usize },
                        ),
                    }
                },
            }
        }
    } else if words[0] == "random"@ {
        if words.len() < 2 {
            result == Err::<Command, CommandError>(CommandError::MissingAliveCount)
        } else {
            match unsigned_of(words[1], usize::MAX as nat) {
                None => result == Err::<Command, CommandError>(CommandError::InvalidNumber),
                Some(alive_count) => result == Ok::<Command, CommandError>(
                    Command::Random {
                        alive_count: alive_count as usize,
                        block_size: number_or(words, 2, usize::MAX as nat, 1) as usize,
                    },
                ),
            }
        }
    } else if words[0] == "setrate"@ {
        if words.len() < 2 {
            result == Err::<Command, CommandError>(CommandError::MissingTickRate)
        } else {
            match unsigned_of(words[1], u64::MAX as nat) {
                None => result == Err::<Command, CommandError>(CommandError::InvalidNumber),
                Some(rate) => result == Ok::<Command, CommandError>(
                    Command::SetRate { tick_rate_millis: rate as u64 },
                ),
            }
        }
    } else if words[0] == "exit"@ {
        result == Ok::<Command, CommandError>(Command::Exit)
    } else {
        result == Err::<Command, CommandError>(CommandError::UnknownCommand)
    }
}

/// The texts of the words.
pub open spec fn texts_of(words: Seq<String>) -> Seq<Seq<char>> {
    Seq::new(words.len(), |i: int| words[i]@)
}

/// The number that `text` spells, if it can be held as a size.
pub fn parse_size(text: &str) -> (number: Option<usize>)
    ensures
        match unsigned_of(text@, usize::MAX as nat) {
            Some(value) => number == Some(value as usize),
            None => number is None,
        },
{
    match parse_unsigned(text, usize::MAX as u64) {
        Some(value) => Some(value as usize),
        None => None,
    }
}

/// What the words of a line mean.
pub fn parse_command(words: &Vec<String>) -> (result: Result<Command, CommandError>)
    ensures
        parses_to(texts_of(words@), result),
{
    if words.len() == 0 {
        return Err(CommandError::NoCommand);
    }
    let command = words[0].as_str();
    if same_text(command, "step") {
        let times = if words.len() > 1 {
            parse_size(words[1].as_str())
        } else {
            Some(1)
        };
        match times {
            Some(times) => Ok(Command::Step { times }),
            None => Err(CommandError::InvalidNumber),
        }
    } else if same_text(command, "start") {
        if words.len() < 2 {
            return Err(CommandError::NoName);
        }
        let interval_millis: u64 = if words.len() > 2 {
            match parse_unsigned(words[2].as_str(), u64::MAX) {
                Some(interval) => interval,
                None => DEFAULT_INTERVAL_MILLIS,
            }
        } else {
            DEFAULT_INTERVAL_MILLIS
        };
        if words.len() < 4 || same_text(words[3].as_str(), "nature") {
            Ok(
                Command::Start {
                    name: words[1].clone(),
                    interval_millis,
                    ticker: TickerKind::Nature,
                },
            )
        } else if same_text(words[3].as_str(), "network") {
            if words.len() < 5 {
                Err(CommandError::NoNetworkPath)
            } else {
                Ok(
                    Command::Start {
                        name: words[1].clone(),
                        interval_millis,
                        ticker: TickerKind::Network { path: words[4].clone() },
                    },
                )
            }
        } else {
            Err(CommandError::UnknownTickerType { name: words[3].clone() })
        }
    } else if same_text(command, "stop") {
        if words.len() < 2 {
            Err(CommandError::NoName)
        } else {
            Ok(Command::Stop { name: words[1].clone() })
        }
    } else if same_text(command, "clear") {
        Ok(Command::Clear)
    } else if same_text(command, "resize") {
        if words.len() < 2 {
            return Err(CommandError::MissingWidth);
        }
        let width = match parse_size(words[1].as_str()) {
            Some(width) => width,
            None => {
                return Err(CommandError::InvalidNumber);
            },
        };
        if words.len() < 3 {
            return Err(CommandError::MissingHeight);
        }
        match parse_size(words[2].as_str()) {
            Some(height) => Ok(Command::Resize { width, height }),
            None => Err(CommandError::InvalidNumber),
        }
    } else if same_text(command, "random") {
        if words.len() < 2 {
            return Err(CommandError::MissingAliveCount);
        }
        let alive_count = match parse_size(words[1].as_str()) {
            Some(alive_count) => alive_count,
            None => {
                return Err(CommandError::InvalidNumber);
            },
        };
        let block_size: usize = if words.len() > 2 {
            match parse_size(words[2].as_str()) {
                Some(block_size) => block_size,
                None => 1,
            }
        } else {
            1
        };
        Ok(Command::Random { alive_count, block_size })
    } else if same_text(command, "setrate") {
        if words.len() < 2 {
            return Err(CommandError::MissingTickRate);
        }
        match parse_unsigned(words[1].as_str(), u64::MAX) {
            Some(tick_rate_millis) => Ok(Command::SetRate { tick_rate_millis }),
            None => Err(CommandError::InvalidNumber),
        }
    } else if same_text(command, "exit") {
        Ok(Command::Exit)
    } else {
        Err(CommandError::UnknownCommand)
    }
}

/// Advances the game by `times` generations.
pub fn step(game: &mut Game, times: usize)
    requires
        old(game).well_formed(),
    ensures
        old(game).runs_to(final(game), times as nat),
        final(game).well_formed(),
{
    let ghost start = *game;
    let mut done: usize = 0;
    while done < times
        invariant
            done <= times,
            game.well_formed(),
            start.runs_to(game, done as nat),
        decreases times - done,
    {
        let ghost previous = *game;
        game.tick();
        proof {
            assert(previous.steps_to(game));
        }
        done += 1;
    }
}

/// Kills every cell of the board.
pub fn clear(board: &mut GameBoard)
    ensures
        final(board).width == old(board).width,
        final(board).height == old(board).height,
        final(board).tiles@.len() == old(board).tiles@.len(),
        final(board).all_dead(),
{
    let mut index: usize = 0;
    while index < board.tiles.len()
        invariant
            index <= board.tiles@.len(),
            board.width == old(board).width,
            board.height == old(board).height,
            board.tiles@.len() == old(board).tiles@.len(),
            forall|i: int| 0 <= i < index ==> board.tiles@[i] == TileState::Dead,
        decreases board.tiles@.len() - index,
    {
        board.tiles[index] = TileState::Dead;
        index += 1;
    }
}

/// Gives the board a new size: its tiles are cut off, or dead tiles added,
/// until there is one for each cell. The tiles that stay keep their place in
/// the tile order, not on the board.
pub fn resize(board: &mut GameBoard, width: usize, height: usize)
    requires
        width * height <= usize::MAX,
    ensures
        final(board).width == width,
        final(board).height == height,
        final(board).well_formed(),
        forall|i: int|
            0 <= i < final(board).tiles@.len() ==> #[trigger] final(board).tiles@[i] == if i < old(
                board,
            ).tiles@.len() {
                old(board).tiles@[i]
            } else {
                TileState::Dead
            },
{
    let total: usize = width * height;
    let ghost before = board.tiles@;
    board.tiles.truncate(total);
    while board.tiles.len() < total
        invariant
            board.tiles@.len() <= total,
            forall|i: int|
                0 <= i < board.tiles@.len() ==> #[trigger] board.tiles@[i] == if i < before.len() {
                    before[i]
                } else {
                    TileState::Dead
                },
            board.tiles@.len() < before.len() ==> board.tiles@.len() == total,
        decreases total - board.tiles@.len(),
    {
        board.tiles.push(TileState::Dead);
    }
    board.width = width;
    board.height = height;
}

} // verus!
