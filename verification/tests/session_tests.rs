use futures_channel::mpsc::{unbounded, UnboundedReceiver};
use std::sync::Arc;
use tictactoe::board::CellOwner;
use tictactoe::message::GameMessageFactory;
use tictactoe::session::{Dispatch, GameSession, GameSessionPhase, Mailbox};
use tokio_tungstenite::tungstenite::protocol::Message;

const YOUR_TURN: &str = "{ \"text\": \"Your turn!\", \"type\": \"INFO\" }";
const OPPONENT_TURN: &str = "{ \"text\": \"Opponent turn!\", \"type\": \"INFO\" }";
const LOST: &str = "{ \"text\": \"You lost!<br><br>Tap here to play again!\", \"type\": \"END\" }";
const WON: &str = "{ \"text\": \"You won!<br><br>Tap here to play again!\", \"type\": \"END\" }";
const TIE: &str = "{ \"text\": \"Tie!<br><br>Tap here to play again!\", \"type\": \"END\" }";
const LEFT: &str =
    "{ \"text\": \"Your opponent left the game!<br><br>Tap here to play again!\", \"type\": \"END\" }";
const FIGURE_X: &str = "{ \"text\": \"x-cell\", \"type\": \"FIGURE\" }";
const FIGURE_O: &str = "{ \"text\": \"o-cell\", \"type\": \"FIGURE\" }";

fn show(cell: &str) -> String {
    format!("{{ \"text\": \"{}\", \"type\": \"SHOW\" }}", cell)
}

fn mailbox() -> (Mailbox, UnboundedReceiver<Message>) {
    let (sender, receiver) = unbounded::<Message>();
    (Arc::new(sender), receiver)
}

fn drain(receiver: &mut UnboundedReceiver<Message>) -> Vec<String> {
    let mut texts = Vec::new();
    while let Ok(Some(message)) = receiver.try_next() {
        texts.push(String::from(message.to_text().unwrap()));
    }
    texts
}

fn click(cell: &str) -> (String, String) {
    (String::from(cell), String::from("CLIENT_CLICK"))
}

fn strings(texts: &[&str]) -> Vec<String> {
    texts.iter().map(|text| String::from(*text)).collect()
}

struct Table {
    factory: GameMessageFactory,
    session: GameSession,
    inbox_a: UnboundedReceiver<Message>,
    inbox_b: UnboundedReceiver<Message>,
}

fn playing() -> Table {
    let factory = GameMessageFactory::new();
    let (sender_a, mut inbox_a) = mailbox();
    let (sender_b, mut inbox_b) = mailbox();
    let mut session = GameSession::new(sender_a);
    session.start_game(sender_b, &factory);
    drain(&mut inbox_a);
    drain(&mut inbox_b);
    Table { factory, session, inbox_a, inbox_b }
}

fn play(table: &mut Table, player: CellOwner, cell: &str) -> Dispatch {
    table.session.process_player_input(player, click(cell), &table.factory)
}

fn nothing_sent(table: &mut Table, sent: &Dispatch) {
    assert!(sent.to_a.is_empty());
    assert!(sent.to_b.is_empty());
    assert!(drain(&mut table.inbox_a).is_empty());
    assert!(drain(&mut table.inbox_b).is_empty());
}

#[test]
fn new_session_waits_in_the_lobby() {
    let (sender_a, mut inbox_a) = mailbox();
    let session = GameSession::new(sender_a);
    assert!(session.phase() == GameSessionPhase::LOBBY);
    assert!(session.turn() == CellOwner::PlayerA);
    for index in 0..9 {
        assert_eq!(session.board().cell(index), Some(CellOwner::Empty));
    }
    assert!(drain(&mut inbox_a).is_empty());
}

#[test]
fn joining_begins_the_game() {
    let factory = GameMessageFactory::new();
    let (sender_a, mut inbox_a) = mailbox();
    let (sender_b, mut inbox_b) = mailbox();
    let mut session = GameSession::new(sender_a);
    let sent = session.start_game(sender_b, &factory);
    assert!(session.phase() == GameSessionPhase::PLAYING);
    assert!(session.turn() == CellOwner::PlayerA);
    assert_eq!(sent.to_a, strings(&[YOUR_TURN]));
    assert_eq!(sent.to_b, strings(&[OPPONENT_TURN]));
    assert_eq!(drain(&mut inbox_a), strings(&[YOUR_TURN]));
    assert_eq!(drain(&mut inbox_b), strings(&[OPPONENT_TURN]));
}

#[test]
fn joining_outside_the_lobby_does_nothing() {
    let mut table = playing();
    assert!(play(&mut table, CellOwner::PlayerA, "4").to_a.len() == 3);
    drain(&mut table.inbox_a);
    drain(&mut table.inbox_b);
    let (late, mut late_inbox) = mailbox();
    let sent = table.session.start_game(late, &table.factory);
    nothing_sent(&mut table, &sent);
    assert!(drain(&mut late_inbox).is_empty());
    assert!(table.session.phase() == GameSessionPhase::PLAYING);
    assert!(table.session.turn() == CellOwner::PlayerB);
    assert_eq!(table.session.board().cell(4), Some(CellOwner::PlayerA));
    // The second player is still the one who joined first.
    let sent = play(&mut table, CellOwner::PlayerB, "0");
    assert_eq!(sent.to_b.len(), 3);
    assert_eq!(drain(&mut table.inbox_b).len(), 3);
    assert!(drain(&mut late_inbox).is_empty());

    table.session.close_session(CellOwner::PlayerA, &table.factory);
    let (later, mut later_inbox) = mailbox();
    let sent = table.session.start_game(later, &table.factory);
    assert!(sent.to_a.is_empty() && sent.to_b.is_empty());
    assert!(drain(&mut later_inbox).is_empty());
    assert!(table.session.phase() == GameSessionPhase::CLOSED);
}

#[test]
fn first_moves_of_a_game() {
    let mut table = playing();
    let sent = play(&mut table, CellOwner::PlayerA, "4");
    assert_eq!(sent.to_a, vec![String::from(FIGURE_X), show("4"), String::from(OPPONENT_TURN)]);
    assert_eq!(sent.to_b, vec![String::from(FIGURE_X), show("4"), String::from(YOUR_TURN)]);
    assert_eq!(drain(&mut table.inbox_a), sent.to_a);
    assert_eq!(drain(&mut table.inbox_b), sent.to_b);
    assert!(table.session.turn() == CellOwner::PlayerB);
    assert!(table.session.phase() == GameSessionPhase::PLAYING);
    assert_eq!(table.session.board().cell(4), Some(CellOwner::PlayerA));

    let sent = play(&mut table, CellOwner::PlayerB, "4");
    nothing_sent(&mut table, &sent);
    assert!(table.session.turn() == CellOwner::PlayerB);
    assert_eq!(table.session.board().cell(4), Some(CellOwner::PlayerA));

    let sent = play(&mut table, CellOwner::PlayerB, "0");
    assert_eq!(sent.to_b, vec![String::from(FIGURE_O), show("0"), String::from(OPPONENT_TURN)]);
    assert_eq!(sent.to_a, vec![String::from(FIGURE_O), show("0"), String::from(YOUR_TURN)]);
    assert_eq!(drain(&mut table.inbox_a), sent.to_a);
    assert_eq!(drain(&mut table.inbox_b), sent.to_b);
    assert!(table.session.turn() == CellOwner::PlayerA);
    assert_eq!(table.session.board().cell(0), Some(CellOwner::PlayerB));
}

#[test]
fn completed_top_row_closes_the_session() {
    let mut table = playing();
    for (player, cell) in [
        (CellOwner::PlayerA, "0"),
        (CellOwner::PlayerB, "3"),
        (CellOwner::PlayerA, "1"),
        (CellOwner::PlayerB, "4"),
    ] {
        assert_eq!(play(&mut table, player, cell).to_a.len(), 3);
    }
    drain(&mut table.inbox_a);
    drain(&mut table.inbox_b);
    let sent = play(&mut table, CellOwner::PlayerA, "2");
    assert!(table.session.phase() == GameSessionPhase::CLOSED);
    assert_eq!(sent.to_a, vec![String::from(FIGURE_X), show("2"), String::from(LOST)]);
    assert_eq!(sent.to_b, vec![String::from(FIGURE_X), show("2"), String::from(WON)]);
    assert_eq!(drain(&mut table.inbox_a), sent.to_a);
    assert_eq!(drain(&mut table.inbox_b), sent.to_b);
    assert!(table.session.turn() == CellOwner::PlayerA);
    assert_eq!(table.session.board().check_winner(), CellOwner::PlayerA);
}

#[test]
fn line_of_the_second_player_closes_the_session() {
    let mut table = playing();
    for (player, cell) in [
        (CellOwner::PlayerA, "0"),
        (CellOwner::PlayerB, "2"),
        (CellOwner::PlayerA, "1"),
        (CellOwner::PlayerB, "4"),
        (CellOwner::PlayerA, "8"),
    ] {
        assert_eq!(play(&mut table, player, cell).to_b.len(), 3);
    }
    drain(&mut table.inbox_a);
    drain(&mut table.inbox_b);
    let sent = play(&mut table, CellOwner::PlayerB, "6");
    assert!(table.session.phase() == GameSessionPhase::CLOSED);
    assert_eq!(sent.to_b, vec![String::from(FIGURE_O), show("6"), String::from(LOST)]);
    assert_eq!(sent.to_a, vec![String::from(FIGURE_O), show("6"), String::from(WON)]);
    assert_eq!(drain(&mut table.inbox_a), sent.to_a);
    assert_eq!(drain(&mut table.inbox_b), sent.to_b);
    assert_eq!(table.session.board().check_winner(), CellOwner::PlayerB);
}

#[test]
fn full_board_without_a_line_is_a_tie() {
    let mut table = playing();
    let cells = ["0", "1", "2", "4", "3", "5", "7", "6"];
    for (count, cell) in cells.iter().enumerate() {
        let player = if count % 2 == 0 { CellOwner::PlayerA } else { CellOwner::PlayerB };
        let sent = play(&mut table, player, cell);
        assert_eq!(sent.to_a.len(), 3);
        assert!(table.session.phase() == GameSessionPhase::PLAYING);
    }
    drain(&mut table.inbox_a);
    drain(&mut table.inbox_b);
    let sent = play(&mut table, CellOwner::PlayerA, "8");
    assert!(table.session.phase() == GameSessionPhase::CLOSED);
    assert_eq!(sent.to_a, vec![String::from(FIGURE_X), show("8"), String::from(TIE)]);
    assert_eq!(sent.to_b, vec![String::from(FIGURE_X), show("8"), String::from(TIE)]);
    assert_eq!(drain(&mut table.inbox_a), sent.to_a);
    assert_eq!(drain(&mut table.inbox_b), sent.to_b);
    assert_eq!(table.session.board().check_winner(), CellOwner::Tie);
}

#[test]
fn move_out_of_turn_is_ignored() {
    let mut table = playing();
    let sent = play(&mut table, CellOwner::PlayerB, "4");
    nothing_sent(&mut table, &sent);
    assert!(table.session.turn() == CellOwner::PlayerA);
    assert!(table.session.phase() == GameSessionPhase::PLAYING);
    assert_eq!(table.session.board().cell(4), Some(CellOwner::Empty));
    for nobody in [CellOwner::Empty, CellOwner::Tie] {
        let sent = play(&mut table, nobody, "4");
        nothing_sent(&mut table, &sent);
        assert_eq!(table.session.board().cell(4), Some(CellOwner::Empty));
    }
    assert_eq!(play(&mut table, CellOwner::PlayerA, "4").to_a.len(), 3);
    drain(&mut table.inbox_a);
    drain(&mut table.inbox_b);
    let sent = play(&mut table, CellOwner::PlayerA, "5");
    nothing_sent(&mut table, &sent);
    assert!(table.session.turn() == CellOwner::PlayerB);
    assert_eq!(table.session.board().cell(5), Some(CellOwner::Empty));
}

#[test]
fn message_that_is_no_click_is_ignored() {
    let mut table = playing();
    for kind in ["INFO", "SHOW", "ERROR", "FIGURE", "END", "", "client_click", "CLIENT_CLICK "] {
        let input = (String::from("4"), String::from(kind));
        let sent = table.session.process_player_input(CellOwner::PlayerA, input, &table.factory);
        nothing_sent(&mut table, &sent);
    }
    assert!(table.session.turn() == CellOwner::PlayerA);
    assert_eq!(table.session.board().cell(4), Some(CellOwner::Empty));
}

#[test]
fn click_that_names_no_cell_is_ignored() {
    let mut table = playing();
    for text in ["", "9", "-1", "four", "4 ", "Unexpected input", "18446744073709551616"] {
        let sent = play(&mut table, CellOwner::PlayerA, text);
        nothing_sent(&mut table, &sent);
    }
    assert!(table.session.turn() == CellOwner::PlayerA);
    for index in 0..9 {
        assert_eq!(table.session.board().cell(index), Some(CellOwner::Empty));
    }
}

#[test]
fn click_with_sign_or_zeros_echoes_the_text() {
    let mut table = playing();
    let sent = play(&mut table, CellOwner::PlayerA, "+04");
    assert_eq!(sent.to_a, vec![String::from(FIGURE_X), show("+04"), String::from(OPPONENT_TURN)]);
    assert_eq!(table.session.board().cell(4), Some(CellOwner::PlayerA));
}

#[test]
fn move_in_the_lobby_is_ignored() {
    let factory = GameMessageFactory::new();
    let (sender_a, mut inbox_a) = mailbox();
    let mut session = GameSession::new(sender_a);
    let sent = session.process_player_input(CellOwner::PlayerA, click("4"), &factory);
    assert!(sent.to_a.is_empty() && sent.to_b.is_empty());
    assert!(drain(&mut inbox_a).is_empty());
    assert!(session.phase() == GameSessionPhase::LOBBY);
    assert_eq!(session.board().cell(4), Some(CellOwner::Empty));
}

#[test]
fn move_after_the_end_is_ignored() {
    let mut table = playing();
    for (player, cell) in [
        (CellOwner::PlayerA, "0"),
        (CellOwner::PlayerB, "3"),
        (CellOwner::PlayerA, "1"),
        (CellOwner::PlayerB, "4"),
        (CellOwner::PlayerA, "2"),
    ] {
        play(&mut table, player, cell);
    }
    drain(&mut table.inbox_a);
    drain(&mut table.inbox_b);
    for player in [CellOwner::PlayerA, CellOwner::PlayerB] {
        let sent = play(&mut table, player, "8");
        nothing_sent(&mut table, &sent);
    }
    assert_eq!(table.session.board().cell(8), Some(CellOwner::Empty));
    assert!(table.session.phase() == GameSessionPhase::CLOSED);
}

#[test]
fn leaving_a_game_tells_the_opponent() {
    let mut table = playing();
    play(&mut table, CellOwner::PlayerA, "4");
    drain(&mut table.inbox_a);
    drain(&mut table.inbox_b);
    let sent = table.session.close_session(CellOwner::PlayerA, &table.factory);
    assert!(table.session.phase() == GameSessionPhase::CLOSED);
    assert!(sent.to_a.is_empty());
    assert_eq!(sent.to_b, strings(&[LEFT]));
    assert!(drain(&mut table.inbox_a).is_empty());
    assert_eq!(drain(&mut table.inbox_b), strings(&[LEFT]));
    assert_eq!(table.session.board().cell(4), Some(CellOwner::PlayerA));
}

#[test]
fn leaving_as_second_player_tells_the_first() {
    let mut table = playing();
    let sent = table.session.close_session(CellOwner::PlayerB, &table.factory);
    assert!(table.session.phase() == GameSessionPhase::CLOSED);
    assert_eq!(sent.to_a, strings(&[LEFT]));
    assert!(sent.to_b.is_empty());
    assert_eq!(drain(&mut table.inbox_a), strings(&[LEFT]));
    assert!(drain(&mut table.inbox_b).is_empty());
}

#[test]
fn leaving_twice_tells_nobody_again() {
    let mut table = playing();
    table.session.close_session(CellOwner::PlayerA, &table.factory);
    drain(&mut table.inbox_a);
    drain(&mut table.inbox_b);
    for player in [CellOwner::PlayerA, CellOwner::PlayerB] {
        let sent = table.session.close_session(player, &table.factory);
        nothing_sent(&mut table, &sent);
        assert!(table.session.phase() == GameSessionPhase::CLOSED);
    }
}

#[test]
fn leaving_the_lobby_tells_nobody() {
    let factory = GameMessageFactory::new();
    let (sender_a, mut inbox_a) = mailbox();
    let mut session = GameSession::new(sender_a);
    let sent = session.close_session(CellOwner::PlayerA, &factory);
    assert!(sent.to_a.is_empty() && sent.to_b.is_empty());
    assert!(drain(&mut inbox_a).is_empty());
    assert!(session.phase() == GameSessionPhase::CLOSED);
}

#[test]
fn leaving_after_the_end_tells_nobody() {
    let mut table = playing();
    for (player, cell) in [
        (CellOwner::PlayerA, "0"),
        (CellOwner::PlayerB, "3"),
        (CellOwner::PlayerA, "1"),
        (CellOwner::PlayerB, "4"),
        (CellOwner::PlayerA, "2"),
    ] {
        play(&mut table, player, cell);
    }
    drain(&mut table.inbox_a);
    drain(&mut table.inbox_b);
    let sent = table.session.close_session(CellOwner::PlayerB, &table.factory);
    nothing_sent(&mut table, &sent);
}

#[test]
fn opponent_whose_reader_is_gone_does_not_stop_the_game() {
    let factory = GameMessageFactory::new();
    let (sender_a, mut inbox_a) = mailbox();
    let (sender_b, inbox_b) = mailbox();
    let mut session = GameSession::new(sender_a);
    session.start_game(sender_b, &factory);
    drop(inbox_b);
    drain(&mut inbox_a);
    let sent = session.process_player_input(CellOwner::PlayerA, click("4"), &factory);
    assert_eq!(sent.to_b.len(), 3);
    assert_eq!(drain(&mut inbox_a).len(), 3);
    assert!(session.turn() == CellOwner::PlayerB);
}
