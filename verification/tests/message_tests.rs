use futures_channel::mpsc::unbounded;
use tictactoe::message::{
    envelope, message_send, multi_message_send, parse_cell_index, GameMessageFactory, MessageType,
};
use tokio_tungstenite::tungstenite::protocol::Message;

fn pair(text: &str, kind: &str) -> (String, String) {
    (String::from(text), String::from(kind))
}

#[test]
fn kinds_are_the_protocol_words() {
    assert_eq!(MessageType::CLIENT_CLICK, "CLIENT_CLICK");
    assert_eq!(MessageType::SHOW, "SHOW");
    assert_eq!(MessageType::INFO, "INFO");
    assert_eq!(MessageType::ERROR, "ERROR");
    assert_eq!(MessageType::FIGURE, "FIGURE");
    assert_eq!(MessageType::END, "END");
}

#[test]
fn plain_message_fills_the_template() {
    assert_eq!(
        GameMessageFactory::build_plain_message("Your turn!", "INFO"),
        "{ \"text\": \"Your turn!\", \"type\": \"INFO\" }"
    );
    assert_eq!(
        GameMessageFactory::build_plain_message("4", MessageType::SHOW),
        "{ \"text\": \"4\", \"type\": \"SHOW\" }"
    );
    assert_eq!(
        GameMessageFactory::build_plain_message("", ""),
        "{ \"text\": \"\", \"type\": \"\" }"
    );
}

#[test]
fn plain_message_with_a_marker_in_the_text() {
    assert_eq!(
        GameMessageFactory::build_plain_message("a$b", "T"),
        "{ \"text\": \"aTb\", \"type\": \"$\" }"
    );
    assert_eq!(
        GameMessageFactory::build_plain_message("$", "INFO"),
        "{ \"text\": \"INFO\", \"type\": \"$\" }"
    );
    assert_eq!(
        GameMessageFactory::build_plain_message("x$y$z", "K"),
        "{ \"text\": \"xKy$z\", \"type\": \"$\" }"
    );
}

#[test]
fn plain_message_with_a_marker_in_the_kind() {
    assert_eq!(
        GameMessageFactory::build_plain_message("x", "$$"),
        "{ \"text\": \"x\", \"type\": \"$$\" }"
    );
}

#[test]
fn plain_message_follows_the_two_replacements() {
    let template = "{ \"text\": \"$\", \"type\": \"$\" }";
    let cases = [("é$ü", "ß"), ("", "$"), ("$$", ""), ("plain", "INFO"), ("日本$語", "x")];
    for (text, kind) in cases {
        let expected = String::from(template).replacen("$", text, 1).replacen("$", kind, 1);
        assert_eq!(GameMessageFactory::build_plain_message(text, kind), expected);
    }
}

#[test]
fn factory_holds_the_nine_prepared_messages() {
    let factory = GameMessageFactory::new();
    let expected: [(usize, &str, &str); 9] = [
        (GameMessageFactory::YOUR_TURN_MESSAGE, "Your turn!", "INFO"),
        (GameMessageFactory::OPPONENT_TURN_MESSAGE, "Opponent turn!", "INFO"),
        (GameMessageFactory::WAITING_MESSAGE, "Waiting for opponent", "INFO"),
        (GameMessageFactory::LOST_MESSAGE, "You lost!<br><br>Tap here to play again!", "END"),
        (GameMessageFactory::WIN_MESSAGE, "You won!<br><br>Tap here to play again!", "END"),
        (GameMessageFactory::TIE_MESSAGE, "Tie!<br><br>Tap here to play again!", "END"),
        (
            GameMessageFactory::WITHDRAWAL_MESSAGE,
            "Your opponent left the game!<br><br>Tap here to play again!",
            "END",
        ),
        (GameMessageFactory::X_FIGURE_MESSAGE, "x-cell", "FIGURE"),
        (GameMessageFactory::O_FIGURE_MESSAGE, "o-cell", "FIGURE"),
    ];
    for (number, (index, text, kind)) in expected.iter().enumerate() {
        assert_eq!(*index, number);
        assert_eq!(
            *factory.get_default(*index),
            format!("{{ \"text\": \"{}\", \"type\": \"{}\" }}", text, kind)
        );
    }
}

#[test]
fn prepared_messages_read_back_as_text_and_kind() {
    let factory = GameMessageFactory::new();
    let lost = factory.get_default(GameMessageFactory::LOST_MESSAGE);
    assert_eq!(
        factory.parse_text(lost),
        pair("You lost!<br><br>Tap here to play again!", "END")
    );
    let figure = factory.get_default(GameMessageFactory::X_FIGURE_MESSAGE);
    assert_eq!(factory.parse_text(figure), pair("x-cell", "FIGURE"));
}

#[test]
fn input_is_read_from_a_text_message() {
    let factory = GameMessageFactory::new();
    let message = Message::Text(String::from("{\"text\":\"4\",\"type\":\"CLIENT_CLICK\"}"));
    assert_eq!(factory.parse_input(&message), pair("4", "CLIENT_CLICK"));
    let message =
        Message::Text(String::from(" { \"type\" : \"INFO\", \"n\": 1, \"text\" : \"a\\\"b\" } "));
    assert_eq!(factory.parse_input(&message), pair("a\"b", "INFO"));
}

#[test]
fn input_is_read_from_a_binary_message_that_is_text() {
    let factory = GameMessageFactory::new();
    let bytes = Vec::from("{\"text\":\"7\",\"type\":\"CLIENT_CLICK\"}".as_bytes());
    assert_eq!(factory.parse_input(&Message::Binary(bytes)), pair("7", "CLIENT_CLICK"));
}

#[test]
fn message_that_is_no_text_is_unexpected() {
    let factory = GameMessageFactory::new();
    let message = Message::Binary(vec![0xff, 0xfe, 0x00]);
    assert_eq!(factory.parse_input(&message), pair("Unexpected input", "ERROR"));
}

#[test]
fn text_that_is_no_document_is_unexpected() {
    let factory = GameMessageFactory::new();
    for text in ["", "{", "{\"text\":\"4\",\"type\":\"CLIENT_CLICK\"", "not json", "{'text':'4'}"] {
        let message = Message::Text(String::from(text));
        assert_eq!(factory.parse_input(&message), pair("Unexpected input", "ERROR"));
        assert_eq!(factory.parse_text(text), pair("Unexpected input", "ERROR"));
    }
    assert_eq!(factory.parse_input(&Message::Close(None)), pair("Unexpected input", "ERROR"));
}

#[test]
fn document_without_both_string_members_is_unexpected() {
    let factory = GameMessageFactory::new();
    for text in [
        "4",
        "\"4\"",
        "null",
        "[\"text\", \"type\"]",
        "{}",
        "{\"text\":\"4\"}",
        "{\"type\":\"CLIENT_CLICK\"}",
        "{\"text\":4,\"type\":\"CLIENT_CLICK\"}",
        "{\"text\":\"4\",\"type\":null}",
        "{\"text\":[\"4\"],\"type\":\"CLIENT_CLICK\"}",
        "{\"Text\":\"4\",\"Type\":\"CLIENT_CLICK\"}",
    ] {
        assert_eq!(factory.parse_text(text), pair("Unexpected input", "ERROR"));
        let message = Message::Text(String::from(text));
        assert_eq!(factory.parse_input(&message), pair("Unexpected input", "ERROR"));
    }
}

#[test]
fn envelope_needs_both_members() {
    assert_eq!(envelope(Some(String::from("4")), Some(String::from("K"))), pair("4", "K"));
    assert_eq!(envelope(None, Some(String::from("K"))), pair("Unexpected input", "ERROR"));
    assert_eq!(envelope(Some(String::from("4")), None), pair("Unexpected input", "ERROR"));
    assert_eq!(envelope(None, None), pair("Unexpected input", "ERROR"));
}

#[test]
fn cell_index_of_the_nine_cells() {
    let names = ["0", "1", "2", "3", "4", "5", "6", "7", "8"];
    for (index, name) in names.iter().enumerate() {
        assert_eq!(parse_cell_index(name), Some(index));
    }
}

#[test]
fn cell_index_with_sign_and_leading_zeros() {
    assert_eq!(parse_cell_index("+4"), Some(4));
    assert_eq!(parse_cell_index("04"), Some(4));
    assert_eq!(parse_cell_index("+008"), Some(8));
    assert_eq!(parse_cell_index("000000000000000000000000000000000000"), Some(0));
    assert_eq!(parse_cell_index("+0"), Some(0));
}

#[test]
fn cell_index_of_other_texts() {
    for text in [
        "", "+", "-", "9", "10", "80", "08 ", " 8", "8\n", "-0", "-1", "++1", "+-1", "1+", "4.0",
        "0x4", "four", "٤", "４", "1_0", "18446744073709551615", "18446744073709551616",
        "99999999999999999999999999999999", "00000000000000000000000000000000009",
    ] {
        assert_eq!(parse_cell_index(text), None);
    }
}

#[test]
fn cell_index_agrees_with_the_parsing_of_numbers() {
    let pieces = ["", "+", "-", "0", "1", "8", "9", "00", "a", " ", "7", "12"];
    for first in pieces {
        for second in pieces {
            for third in pieces {
                let text = format!("{}{}{}", first, second, third);
                let expected = text.parse::<usize>().ok().filter(|index| *index < 9);
                assert_eq!(parse_cell_index(&text), expected);
            }
        }
    }
}

#[test]
fn end_of_the_game_is_told_by_the_kind() {
    let factory = GameMessageFactory::new();
    for index in [
        GameMessageFactory::LOST_MESSAGE,
        GameMessageFactory::WIN_MESSAGE,
        GameMessageFactory::TIE_MESSAGE,
        GameMessageFactory::WITHDRAWAL_MESSAGE,
    ] {
        let message = Message::Text(factory.get_default(index).clone());
        assert!(factory.ends_the_game(&message));
    }
    for index in [
        GameMessageFactory::YOUR_TURN_MESSAGE,
        GameMessageFactory::OPPONENT_TURN_MESSAGE,
        GameMessageFactory::WAITING_MESSAGE,
        GameMessageFactory::X_FIGURE_MESSAGE,
        GameMessageFactory::O_FIGURE_MESSAGE,
    ] {
        let message = Message::Text(factory.get_default(index).clone());
        assert!(!factory.ends_the_game(&message));
    }
    let show = GameMessageFactory::build_plain_message("END", MessageType::SHOW);
    assert!(!factory.ends_the_game(&Message::Text(show)));
    assert!(!factory.ends_the_game(&Message::Text(String::from("END"))));
    assert!(!factory.ends_the_game(&Message::Binary(vec![0xff])));
}

#[test]
fn message_send_puts_a_text_message_in_the_mailbox() {
    let (sender, mut receiver) = unbounded::<Message>();
    message_send(&sender, &String::from("hello"));
    match receiver.try_next() {
        Ok(Some(Message::Text(text))) => assert_eq!(text, "hello"),
        _ => panic!("a text message was expected"),
    }
    assert!(receiver.try_next().is_err());
}

#[test]
fn multi_message_send_keeps_the_order() {
    let (sender, mut receiver) = unbounded::<Message>();
    let first = String::from("one");
    let second = String::from("two");
    let third = String::from("three");
    multi_message_send(&sender, &[&first, &second, &third]);
    multi_message_send(&sender, &[]);
    for expected in ["one", "two", "three"] {
        match receiver.try_next() {
            Ok(Some(message)) => assert_eq!(message.to_text().unwrap(), expected),
            _ => panic!("a message was expected"),
        }
    }
    assert!(receiver.try_next().is_err());
}

#[test]
fn message_send_to_a_reader_that_is_gone_is_swallowed() {
    let (sender, receiver) = unbounded::<Message>();
    drop(receiver);
    message_send(&sender, &String::from("lost"));
    multi_message_send(&sender, &[&String::from("lost"), &String::from("too")]);
}

#[test]
fn sent_message_reads_back() {
    let factory = GameMessageFactory::new();
    let (sender, mut receiver) = unbounded::<Message>();
    message_send(&sender, factory.get_default(GameMessageFactory::TIE_MESSAGE));
    let received = receiver.try_next().unwrap().unwrap();
    assert_eq!(
        factory.parse_input(&received),
        pair("Tie!<br><br>Tap here to play again!", "END")
    );
}
