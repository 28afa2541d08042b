use ml_life_killer::cli::Command;
use ml_life_killer::cli::CommandError;
use ml_life_killer::cli::TickerKind;
use ml_life_killer::cli::clear;
use ml_life_killer::cli::parse_command;
use ml_life_killer::cli::parse_size;
use ml_life_killer::cli::parse_unsigned;
use ml_life_killer::cli::resize;
use ml_life_killer::cli::same_text;
use ml_life_killer::cli::step;
use ml_life_killer::game::Game;
use ml_life_killer::game::board::GameBoard;
use ml_life_killer::game::board::TileState;
use ml_life_killer::game::pos::Position;
use ml_life_killer::game::rule::Rule;

fn parse(line: &str) -> Result<Command, CommandError> {
    let words: Vec<String> = line.split_whitespace().map(|word| word.to_owned()).collect();
    parse_command(&words)
}

#[test]
fn parse_unsigned_agrees_with_the_standard_parser() {
    let texts = [
        "0", "1", "42", "007", "+5", "+0", "+", "", "-1", "-0", " 1", "1 ", "1a", "a1", "١٢",
        "18446744073709551615", "18446744073709551616", "99999999999999999999999", "+18446744073709551615",
        "1_000", "0x10", "4294967295", "4294967296", "++1", "1+",
    ];
    for text in texts {
        assert_eq!(parse_unsigned(text, u64::MAX), text.parse::<u64>().ok(), "{text:?}");
        assert_eq!(parse_size(text), text.parse::<usize>().ok(), "{text:?}");
        assert_eq!(
            parse_unsigned(text, u32::MAX as u64),
            text.parse::<u32>().ok().map(u64::from),
            "{text:?}"
        );
    }
    assert_eq!(parse_unsigned("200", 199), None);
    assert_eq!(parse_unsigned("199", 199), Some(199));
    assert_eq!(parse_unsigned("0", 0), Some(0));
}

#[test]
fn same_text_compares_characters() {
    assert!(same_text("step", "step"));
    assert!(!same_text("step", "stop"));
    assert!(!same_text("step", "steps"));
    assert!(same_text("", ""));
    assert!(same_text("käfer", "käfer"));
}

#[test]
fn empty_line_is_no_command() {
    assert_eq!(parse(""), Err(CommandError::NoCommand));
    assert_eq!(parse("   "), Err(CommandError::NoCommand));
    assert_eq!(parse("dance"), Err(CommandError::UnknownCommand));
    assert_eq!(parse("Step"), Err(CommandError::UnknownCommand));
}

#[test]
fn step_takes_a_count_or_one() {
    assert_eq!(parse("step"), Ok(Command::Step { times: 1 }));
    assert_eq!(parse("step 12"), Ok(Command::Step { times: 12 }));
    assert_eq!(parse("step 0 5"), Ok(Command::Step { times: 0 }));
    assert_eq!(parse("step many"), Err(CommandError::InvalidNumber));
    assert_eq!(parse("step -1"), Err(CommandError::InvalidNumber));
}

#[test]
fn start_takes_name_interval_and_kind() {
    assert_eq!(parse("start"), Err(CommandError::NoName));
    assert_eq!(
        parse("start a"),
        Ok(Command::Start { name: "a".to_owned(), interval_millis: 200, ticker: TickerKind::Nature })
    );
    assert_eq!(
        parse("start a 50"),
        Ok(Command::Start { name: "a".to_owned(), interval_millis: 50, ticker: TickerKind::Nature })
    );
    assert_eq!(
        parse("start a soon nature"),
        Ok(Command::Start { name: "a".to_owned(), interval_millis: 200, ticker: TickerKind::Nature })
    );
    assert_eq!(
        parse("start net 10 network saves/best.json"),
        Ok(Command::Start {
            name: "net".to_owned(),
            interval_millis: 10,
            ticker: TickerKind::Network { path: "saves/best.json".to_owned() },
        })
    );
    assert_eq!(parse("start net 10 network"), Err(CommandError::NoNetworkPath));
    assert_eq!(
        parse("start net 10 magic"),
        Err(CommandError::UnknownTickerType { name: "magic".to_owned() })
    );
}

#[test]
fn stop_clear_and_exit() {
    assert_eq!(parse("stop"), Err(CommandError::NoName));
    assert_eq!(parse("stop a b"), Ok(Command::Stop { name: "a".to_owned() }));
    assert_eq!(parse("clear"), Ok(Command::Clear));
    assert_eq!(parse("clear all"), Ok(Command::Clear));
    assert_eq!(parse("exit"), Ok(Command::Exit));
}

#[test]
fn resize_takes_width_and_height() {
    assert_eq!(parse("resize"), Err(CommandError::MissingWidth));
    assert_eq!(parse("resize 4"), Err(CommandError::MissingHeight));
    assert_eq!(parse("resize x"), Err(CommandError::InvalidNumber));
    assert_eq!(parse("resize x 3"), Err(CommandError::InvalidNumber));
    assert_eq!(parse("resize 4 y"), Err(CommandError::InvalidNumber));
    assert_eq!(parse("resize 4 3"), Ok(Command::Resize { width: 4, height: 3 }));
}

#[test]
fn random_takes_a_count_and_a_block_size_or_one() {
    assert_eq!(parse("random"), Err(CommandError::MissingAliveCount));
    assert_eq!(parse("random few"), Err(CommandError::InvalidNumber));
    assert_eq!(parse("random 9"), Ok(Command::Random { alive_count: 9, block_size: 1 }));
    assert_eq!(parse("random 9 2"), Ok(Command::Random { alive_count: 9, block_size: 2 }));
    assert_eq!(parse("random 9 big"), Ok(Command::Random { alive_count: 9, block_size: 1 }));
}

#[test]
fn setrate_takes_an_interval() {
    assert_eq!(parse("setrate"), Err(CommandError::MissingTickRate));
    assert_eq!(parse("setrate fast"), Err(CommandError::InvalidNumber));
    assert_eq!(parse("setrate 30"), Ok(Command::SetRate { tick_rate_millis: 30 }));
}

#[test]
fn step_advances_the_game() {
    let mut board = GameBoard::new(5, 5);
    for y in 1..4 {
        board.set_tile(Position { x: 2, y }, TileState::Alive);
    }
    let mut game = Game::new(board, Rule::default());
    let start = game.clone();
    step(&mut game, 0);
    assert_eq!(game, start);
    step(&mut game, 1);
    assert_eq!(game.board.tile(Position { x: 1, y: 2 }), Some(&TileState::Alive));
    assert_eq!(game.board.tile(Position { x: 2, y: 1 }), Some(&TileState::Dead));
    step(&mut game, 3);
    assert_eq!(game, start);
}

#[test]
fn clear_kills_every_cell() {
    let mut board = GameBoard::new_random(4, 4, 9, 1);
    clear(&mut board);
    assert_eq!(board, GameBoard::new(4, 4));
}

#[test]
fn resize_cuts_or_pads_the_tiles() {
    let mut board = GameBoard::new(2, 2);
    board.set_tile(Position { x: 1, y: 0 }, TileState::Alive);
    board.set_tile(Position { x: 1, y: 1 }, TileState::Alive);
    resize(&mut board, 3, 2);
    assert_eq!(board.width, 3);
    assert_eq!(board.height, 2);
    assert_eq!(
        board.tiles,
        vec![
            TileState::Dead,
            TileState::Alive,
            TileState::Dead,
            TileState::Alive,
            TileState::Dead,
            TileState::Dead,
        ]
    );
    resize(&mut board, 1, 2);
    assert_eq!(board.tiles, vec![TileState::Dead, TileState::Alive]);
    resize(&mut board, 0, 7);
    assert!(board.tiles.is_empty());
}
