//! The texts that the server sends, the reading of what a client sent, and
//! the mailbox through which a message leaves.
//!
//! A message on the wire is a JSON object with two string members, `text` and
//! `type`. Outbound messages are written by filling a fixed template; inbound
//! ones are read with `serde_json`.

use futures_channel::mpsc::UnboundedSender;
use serde_json::Value;
use std::collections::HashMap;
use tokio_tungstenite::tungstenite::protocol::Message;
use vstd::prelude::*;
use vstd::string::*;

verus! {

broadcast use vstd::std_specs::hash::group_hash_axioms;

/// The sending half of `futures_channel`'s unbounded channel. Nothing is
/// known of what the channel holds: its other half is read elsewhere.
#[verifier::external_type_specification]
#[verifier::external_body]
#[verifier::reject_recursive_types(T)]
pub struct ExUnboundedSender<T>(UnboundedSender<T>);

/// A websocket message of `tungstenite`.
#[verifier::external_type_specification]
#[verifier::external_body]
pub struct ExMessage(Message);

/// A JSON document of `serde_json`.
#[verifier::external_type_specification]
#[verifier::external_body]
pub struct ExValue(Value);

/// The text that a websocket message carries, as `Message::to_text` gives it:
/// `None` where the payload is no UTF-8 text.
pub uninterp spec fn message_text(message: Message) -> Option<Seq<char>>;

/// The string members of a JSON document: each key of its top-level object
/// whose value is a string, with that string. A document that is no object
/// has none.
pub uninterp spec fn value_members(value: Value) -> Map<Seq<char>, Seq<char>>;

/// What `serde_json::from_str` makes of `text`, seen through the string
/// members of the document: `None` where `text` is no JSON document.
pub uninterp spec fn json_members(text: Seq<char>) -> Option<Map<Seq<char>, Seq<char>>>;

/// Calls `Message::to_text`. The contract gives the result its name,
/// [`message_text`], and claims no more of it.
#[verifier::external_body]
fn text_of(message: &Message) -> (r: Option<String>)
    ensures
        match r {
            Some(text) => message_text(*message) == Some(text@),
            None => message_text(*message) is None,
        },
{
    match message.to_text() {
        Ok(text) => Some(String::from(text)),
        Err(_) => None,
    }
}

/// Calls `serde_json::from_str` for a `Value`. The contract claims that the
/// call succeeds exactly on the texts that [`json_members`] knows, and that
/// the document it returns holds the string members named there.
#[verifier::external_body]
fn parse_json(text: &str) -> (r: Option<Value>)
    ensures
        match r {
            Some(value) => json_members(text@) == Some(value_members(value)),
            None => json_members(text@) is None,
        },
{
    serde_json::from_str::<Value>(text).ok()
}

/// Calls `Value::get` with a key. The contract claims that a string is
/// returned exactly for the string members of the document, and that it is
/// the member's value.
#[verifier::external_body]
fn string_member(value: &Value, key: &str) -> (r: Option<String>)
    ensures
        match r {
            Some(found) => value_members(*value).contains_key(key@) && value_members(*value)[key@]
                == found@,
            None => !value_members(*value).contains_key(key@),
        },
{
    match value.get(key) {
        Some(Value::String(found)) => Some(found.clone()),
        _ => None,
    }
}

/// Calls `UnboundedSender::unbounded_send` with `plain` as a websocket text
/// message. The call never waits. The result tells whether the channel took
/// the message, which it does not once the receiving half is gone: nothing
/// is claimed of it. The call gives up only where the channel holds as many
/// messages as a `usize` counts, which no memory holds.
#[verifier::external_body]
fn enqueue(sender: &UnboundedSender<Message>, plain: &str) -> (taken: bool) {
    sender.unbounded_send(Message::Text(String::from(plain))).is_ok()
}

/// The kinds of message.
#[non_exhaustive]
pub struct MessageType;

impl MessageType {
    pub const CLIENT_CLICK: &'static str = "CLIENT_CLICK";

    pub const SHOW: &'static str = "SHOW";

    pub const INFO: &'static str = "INFO";

    pub const ERROR: &'static str = "ERROR";

    pub const FIGURE: &'static str = "FIGURE";

    pub const END: &'static str = "END";
}

/// The template of an outbound message: the first `$` stands for the text,
/// the second for the kind.
pub open spec fn template() -> Seq<char> {
    "{ \"text\": \"$\", \"type\": \"$\" }"@
}

/// `s` with its first `$` replaced by `with`; `s` itself where it holds none.
pub open spec fn with_marker_replaced(s: Seq<char>, with: Seq<char>) -> Seq<char> {
    match s.index_of_first('$') {
        Some(at) => s.take(at) + with + s.skip(at + 1),
        None => s,
    }
}

/// An outbound message: the template with its first `$` replaced by `text`,
/// and the first `$` of what this gives replaced by `kind`.
pub open spec fn plain_message(text: Seq<char>, kind: Seq<char>) -> Seq<char> {
    with_marker_replaced(with_marker_replaced(template(), text), kind)
}

/// The text of each of the nine prepared messages.
pub open spec fn default_text(index: usize) -> Seq<char> {
    if index == GameMessageFactory::YOUR_TURN_MESSAGE {
        "Your turn!"@
    } else if index == GameMessageFactory::OPPONENT_TURN_MESSAGE {
        "Opponent turn!"@
    } else if index == GameMessageFactory::WAITING_MESSAGE {
        "Waiting for opponent"@
    } else if index == GameMessageFactory::LOST_MESSAGE {
        "You lost!<br><br>Tap here to play again!"@
    } else if index == GameMessageFactory::WIN_MESSAGE {
        "You won!<br><br>Tap here to play again!"@
    } else if index == GameMessageFactory::TIE_MESSAGE {
        "Tie!<br><br>Tap here to play again!"@
    } else if index == GameMessageFactory::WITHDRAWAL_MESSAGE {
        "Your opponent left the game!<br><br>Tap here to play again!"@
    } else if index == GameMessageFactory::X_FIGURE_MESSAGE {
        "x-cell"@
    } else {
        "o-cell"@
    }
}

/// The kind of each of the nine prepared messages: the first three inform,
/// the next four end the game, the last two name a figure.
pub open spec fn default_kind(index: usize) -> Seq<char> {
    if index <= GameMessageFactory::WAITING_MESSAGE {
        MessageType::INFO@
    } else if index <= GameMessageFactory::WITHDRAWAL_MESSAGE {
        MessageType::END@
    } else {
        MessageType::FIGURE@
    }
}

/// The prepared message number `index`.
pub open spec fn default_message(index: usize) -> Seq<char> {
    plain_message(default_text(index), default_kind(index))
}

/// What an unreadable message is read as.
pub open spec fn unexpected_input() -> (Seq<char>, Seq<char>) {
    ("Unexpected input"@, MessageType::ERROR@)
}

/// Text and kind of a message, from the string members of its document.
pub open spec fn envelope_of_members(members: Map<Seq<char>, Seq<char>>) -> (Seq<char>, Seq<char>) {
    if members.contains_key("text"@) && members.contains_key("type"@) {
        (members["text"@], members["type"@])
    } else {
        unexpected_input()
    }
}

/// Text and kind of a message, from what was received.
pub open spec fn envelope_of_text(text: Seq<char>) -> (Seq<char>, Seq<char>) {
    match json_members(text) {
        Some(members) => envelope_of_members(members),
        None => unexpected_input(),
    }
}

/// Text and kind of a websocket message, from the text it carries.
pub open spec fn envelope_of(carried: Option<Seq<char>>) -> (Seq<char>, Seq<char>) {
    match carried {
        Some(text) => envelope_of_text(text),
        None => unexpected_input(),
    }
}

/// The first `$` of a sequence that is put together from two: it is that of
/// the first part where that part holds one, else that of the second.
pub proof fn lemma_first_marker_of_concat(a: Seq<char>, b: Seq<char>)
    ensures
        (a + b).index_of_first('$') == match a.index_of_first('$') {
            Some(at) => Some(at),
            None => match b.index_of_first('$') {
                Some(at) => Some(a.len() + at),
                None => None,
            },
        },
{
    let whole = a + b;
    a.index_of_first_ensures('$');
    b.index_of_first_ensures('$');
    whole.index_of_first_ensures('$');
    match a.index_of_first('$') {
        Some(at) => {
            assert(whole[at] == '$');
            assert(whole.contains('$'));
            let found = whole.index_of_first('$')->0;
            if found < at {
                assert(a[found] == whole[found]);
            }
        },
        None => {
            assert forall|j: int| 0 <= j < a.len() implies whole[j] != '$' by {
                assert(a[j] == whole[j]);
                assert(!a.contains('$'));
            }
            match b.index_of_first('$') {
                Some(at) => {
                    assert(whole[a.len() + at] == b[at]);
                    assert(whole.contains('$'));
                    let found = whole.index_of_first('$')->0;
                    if found < a.len() + at {
                        if found >= a.len() {
                            assert(whole[found] == b[found - a.len()]);
                        }
                    }
                },
                None => {
                    if whole.contains('$') {
                        let found = whole.index_of_first('$')->0;
                        if found >= a.len() {
                            assert(whole[found] == b[found - a.len()]);
                            assert(b.contains('$'));
                        }
                    }
                },
            }
        },
    }
}

/// The template is an opening, a `$` for the text, a middle, a `$` for the
/// kind, and a closing, none of which holds a `$` of its own.
pub proof fn lemma_template_parts()
    ensures
        template() == "{ \"text\": \""@ + seq!['$'] + "\", \"type\": \""@ + seq!['$'] + "\" }"@,
        !"{ \"text\": \""@.contains('$'),
        !"\", \"type\": \""@.contains('$'),
        !"\" }"@.contains('$'),
{
    reveal_strlit("{ \"text\": \"$\", \"type\": \"$\" }");
    reveal_strlit("{ \"text\": \"");
    reveal_strlit("\", \"type\": \"");
    reveal_strlit("\" }");
    assert(template() =~= "{ \"text\": \""@ + seq!['$'] + "\", \"type\": \""@ + seq!['$']
        + "\" }"@);
}

/// A message whose text holds no `$` is the opening, the text, the middle,
/// the kind and the closing, one after the other.
pub proof fn lemma_plain_message_shape(text: Seq<char>, kind: Seq<char>)
    requires
        !text.contains('$'),
    ensures
        plain_message(text, kind) == "{ \"text\": \""@ + text + "\", \"type\": \""@ + kind
            + "\" }"@,
{
    let opening = "{ \"text\": \""@;
    let middle = "\", \"type\": \""@;
    let closing = "\" }"@;
    let marker = seq!['$'];
    lemma_template_parts();
    marker.index_of_first_ensures('$');
    assert(marker[0] == '$');
    assert(marker.index_of_first('$') == Some(0int));
    opening.index_of_first_ensures('$');
    middle.index_of_first_ensures('$');
    closing.index_of_first_ensures('$');
    text.index_of_first_ensures('$');
    // The first replacement meets the `$` that stands for the text.
    let rest = middle + marker + closing;
    assert(template() =~= opening + (marker + rest));
    lemma_first_marker_of_concat(marker, rest);
    lemma_first_marker_of_concat(opening, marker + rest);
    let at = opening.len() as int;
    assert(template().index_of_first('$') == Some(at));
    let filled = with_marker_replaced(template(), text);
    assert(filled =~= opening + text + middle + marker + closing);
    // The second one meets the `$` that stands for the kind.
    let front = opening + text + middle;
    assert(filled =~= front + (marker + closing));
    lemma_first_marker_of_concat(opening, text);
    lemma_first_marker_of_concat(opening + text, middle);
    lemma_first_marker_of_concat(marker, closing);
    lemma_first_marker_of_concat(front, marker + closing);
    assert(filled.index_of_first('$') == Some(front.len() as int));
    assert(plain_message(text, kind) =~= opening + text + middle + kind + closing);
}

/// In a message whose text holds a `$`, the kind takes the place of the
/// first one, and the `$` that stands for the kind is left as it is.
pub proof fn lemma_plain_message_with_marker(text: Seq<char>, kind: Seq<char>)
    requires
        text.contains('$'),
    ensures
        text.index_of_first('$') matches Some(at) && plain_message(text, kind) == "{ \"text\": \""@
            + text.take(at) + kind + text.skip(at + 1) + "\", \"type\": \""@ + seq!['$']
            + "\" }"@,
{
    let opening = "{ \"text\": \""@;
    let middle = "\", \"type\": \""@;
    let closing = "\" }"@;
    let marker = seq!['$'];
    lemma_template_parts();
    marker.index_of_first_ensures('$');
    assert(marker[0] == '$');
    assert(marker.index_of_first('$') == Some(0int));
    opening.index_of_first_ensures('$');
    text.index_of_first_ensures('$');
    let at = text.index_of_first('$')->0;
    // The first replacement meets the `$` that stands for the text.
    let rest = middle + marker + closing;
    assert(template() =~= opening + (marker + rest));
    lemma_first_marker_of_concat(marker, rest);
    lemma_first_marker_of_concat(opening, marker + rest);
    assert(template().index_of_first('$') == Some(opening.len() as int));
    let filled = with_marker_replaced(template(), text);
    assert(filled =~= opening + (text + rest));
    // The second one meets the first `$` of the text.
    lemma_first_marker_of_concat(text, rest);
    lemma_first_marker_of_concat(opening, text + rest);
    assert(filled.index_of_first('$') == Some(opening.len() + at));
    assert(plain_message(text, kind) =~= opening + text.take(at) + kind + text.skip(at + 1) + middle
        + marker + closing);
}

/// One of `0` to `9`.
pub open spec fn is_digit(c: char) -> bool {
    '0' <= c && c <= '9'
}

/// The number that a sequence of decimal digits writes.
pub open spec fn decimal_value(digits: Seq<char>) -> int
    decreases digits.len(),
{
    if digits.len() == 0 {
        0
    } else {
        10 * decimal_value(digits.drop_last()) + (digits.last() as int - '0' as int)
    }
}

/// The text without a leading `+`.
pub open spec fn unsigned_part(text: Seq<char>) -> Seq<char> {
    if text.len() > 0 && text[0] == '+' {
        text.drop_first()
    } else {
        text
    }
}

/// The cell that a move's text names: the text is a decimal number below 9,
/// written with at least one digit, with or without a `+` before it and with
/// any number of leading zeros. Any other text names no cell.
pub open spec fn cell_index_of(text: Seq<char>) -> Option<int> {
    let digits = unsigned_part(text);
    if digits.len() > 0 && (forall|i: int| 0 <= i < digits.len() ==> is_digit(#[trigger] digits[i]))
        && decimal_value(digits) < 9 {
        Some(decimal_value(digits))
    } else {
        None
    }
}

/// None of the texts of the prepared messages holds a `$`.
proof fn lemma_default_texts_plain(index: usize)
    requires
        index < 9,
    ensures
        !default_text(index).contains('$'),
{
    reveal_strlit("Your turn!");
    reveal_strlit("Opponent turn!");
    reveal_strlit("Waiting for opponent");
    reveal_strlit("You lost!<br><br>Tap here to play again!");
    reveal_strlit("You won!<br><br>Tap here to play again!");
    reveal_strlit("Tie!<br><br>Tap here to play again!");
    reveal_strlit("Your opponent left the game!<br><br>Tap here to play again!");
    reveal_strlit("x-cell");
    reveal_strlit("o-cell");
}

/// Each prepared message is the opening, its text, the middle, its kind and
/// the closing.
pub proof fn lemma_default_message_shape(index: usize)
    requires
        index < 9,
    ensures
        default_message(index) == "{ \"text\": \""@ + default_text(index) + "\", \"type\": \""@
            + default_kind(index) + "\" }"@,
{
    lemma_default_texts_plain(index);
    lemma_plain_message_shape(default_text(index), default_kind(index));
}

/// The echo of a move whose text names a cell is the opening, that text, the
/// middle, `SHOW` and the closing.
pub proof fn lemma_show_message_shape(text: Seq<char>)
    requires
        cell_index_of(text) is Some,
    ensures
        plain_message(text, MessageType::SHOW@) == "{ \"text\": \""@ + text + "\", \"type\": \""@
            + MessageType::SHOW@ + "\" }"@,
{
    let digits = unsigned_part(text);
    assert forall|i: int| 0 <= i < text.len() implies text[i] != '$' by {
        if text[0] == '+' {
            if i > 0 {
                assert(is_digit(digits[i - 1]));
            }
        } else {
            assert(is_digit(digits[i]));
        }
    }
    lemma_plain_message_shape(text, MessageType::SHOW@);
}

proof fn lemma_decimal_value_grows(digits: Seq<char>)
    requires
        digits.len() > 0,
        forall|i: int| 0 <= i < digits.len() ==> is_digit(#[trigger] digits[i]),
    ensures
        decimal_value(digits) >= decimal_value(digits.drop_last()) >= 0,
    decreases digits.len(),
{
    let front = digits.drop_last();
    if front.len() > 0 {
        lemma_decimal_value_grows(front);
    }
    assert(is_digit(digits[digits.len() - 1]));
}

/// Reads the cell that a move's text names.
pub fn parse_cell_index(text: &str) -> (r: Option<usize>)
    ensures
        match r {
            Some(index) => cell_index_of(text@) == Some(index as int),
            None => cell_index_of(text@) is None,
        },
{
    let length = text.unicode_len();
    if length == 0 {
        return None;
    }
    let digits = if text.get_char(0) == '+' {
        text.substring_char(1, length)
    } else {
        text
    };
    assert(digits@ =~= unsigned_part(text@));
    let count = digits.unicode_len();
    if count == 0 {
        return None;
    }
    // The value read so far, or 9 once it has reached 9.
    let mut capped: usize = 0;
    let mut seen: usize = 0;
    for c in it: digits.chars()
        invariant
            count == digits@.len(),
            digits@ == unsigned_part(text@),
            seen == it.index(),
            it.seq() == digits@,
            forall|j: int| 0 <= j < seen ==> is_digit(#[trigger] digits@[j]),
            capped <= 9,
            capped < 9 ==> decimal_value(digits@.take(seen as int)) == capped,
            capped == 9 ==> decimal_value(digits@.take(seen as int)) >= 9,
    {
        if !('0' <= c && c <= '9') {
            assert(!is_digit(digits@[seen as int]));
            return None;
        }
        proof {
            let longer = digits@.take(seen as int + 1);
            assert(longer.drop_last() =~= digits@.take(seen as int));
            assert(longer.last() == c);
            assert forall|j: int| 0 <= j < longer.len() implies is_digit(#[trigger] longer[j]) by {
                assert(longer[j] == digits@[j]);
            }
            lemma_decimal_value_grows(longer);
        }
        let digit: usize = (c as u32 - '0' as u32) as usize;
        if capped < 9 {
            let value: usize = 10 * capped + digit;
            capped = if value < 9 {
                value
            } else {
                9
            };
        }
        seen += 1;
    }
    assert(digits@.take(seen as int) =~= digits@);
    if capped < 9 {
        Some(capped)
    } else {
        None
    }
}

/// The position of the first `$` of `s`, or the length of `s` where it holds
/// none.
fn find_marker(s: &str) -> (r: usize)
    ensures
        match s@.index_of_first('$') {
            Some(at) => r == at && at < s@.len(),
            None => r == s@.len(),
        },
{
    let length = s.unicode_len();
    let mut at: usize = 0;
    for c in it: s.chars()
        invariant
            length == s@.len(),
            at == it.index(),
            it.seq() == s@,
            forall|j: int| 0 <= j < at ==> s@[j] != '$',
    {
        if c == '$' {
            proof {
                assert(s@[at as int] == '$');
                s@.index_of_first_ensures('$');
            }
            return at;
        }
        at += 1;
    }
    proof {
        s@.index_of_first_ensures('$');
    }
    at
}

/// `s` with its first `$` replaced by `with`.
fn replace_marker(s: &str, with: &str) -> (r: String)
    ensures
        r@ == with_marker_replaced(s@, with@),
{
    let length = s.unicode_len();
    let at = find_marker(s);
    if at < length {
        let mut out = String::from_str(s.substring_char(0, at));
        out.append(with);
        out.append(s.substring_char(at + 1, length));
        assert(out@ =~= s@.take(at as int) + with@ + s@.skip(at + 1));
        out
    } else {
        String::from_str(s)
    }
}

/// Text and kind of a message whose document was read: both members must be
/// there as strings.
pub fn envelope(text: Option<String>, kind: Option<String>) -> (r: (String, String))
    ensures
        (r.0@, r.1@) == match (text, kind) {
            (Some(t), Some(k)) => (t@, k@),
            _ => unexpected_input(),
        },
{
    match (text, kind) {
        (Some(t), Some(k)) => (t, k),
        _ => (String::from_str("Unexpected input"), String::from_str(MessageType::ERROR)),
    }
}

/// Holds the nine prepared messages, each under its number.
pub struct GameMessageFactory {
    defaults: HashMap<usize, String>,
}

impl GameMessageFactory {
    pub const YOUR_TURN_MESSAGE: usize = 0;

    pub const OPPONENT_TURN_MESSAGE: usize = 1;

    pub const WAITING_MESSAGE: usize = 2;

    pub const LOST_MESSAGE: usize = 3;

    pub const WIN_MESSAGE: usize = 4;

    pub const TIE_MESSAGE: usize = 5;

    pub const WITHDRAWAL_MESSAGE: usize = 6;

    pub const X_FIGURE_MESSAGE: usize = 7;

    pub const O_FIGURE_MESSAGE: usize = 8;

    /// Each of the nine numbers has its message.
    pub closed spec fn wf(&self) -> bool {
        forall|index: usize|
            index < 9 ==> #[trigger] self.defaults@.contains_key(index) && self.defaults@[index]@
                == default_message(index)
    }

    /// Writes the nine prepared messages.
    pub fn new() -> (r: GameMessageFactory)
        ensures
            r.wf(),
    {
        let mut defaults: HashMap<usize, String> = HashMap::new();
        defaults.insert(
            Self::YOUR_TURN_MESSAGE,
            Self::build_plain_message("Your turn!", MessageType::INFO),
        );
        defaults.insert(
            Self::OPPONENT_TURN_MESSAGE,
            Self::build_plain_message("Opponent turn!", MessageType::INFO),
        );
        defaults.insert(
            Self::WAITING_MESSAGE,
            Self::build_plain_message("Waiting for opponent", MessageType::INFO),
        );
        defaults.insert(
            Self::LOST_MESSAGE,
            Self::build_plain_message("You lost!<br><br>Tap here to play again!", MessageType::END),
        );
        defaults.insert(
            Self::WIN_MESSAGE,
            Self::build_plain_message("You won!<br><br>Tap here to play again!", MessageType::END),
        );
        defaults.insert(
            Self::TIE_MESSAGE,
            Self::build_plain_message("Tie!<br><br>Tap here to play again!", MessageType::END),
        );
        defaults.insert(
            Self::WITHDRAWAL_MESSAGE,
            Self::build_plain_message(
                "Your opponent left the game!<br><br>Tap here to play again!",
                MessageType::END,
            ),
        );
        defaults.insert(
            Self::X_FIGURE_MESSAGE,
            Self::build_plain_message("x-cell", MessageType::FIGURE),
        );
        defaults.insert(
            Self::O_FIGURE_MESSAGE,
            Self::build_plain_message("o-cell", MessageType::FIGURE),
        );
        GameMessageFactory { defaults }
    }

    /// The prepared message number `index`.
    pub fn get_default(&self, index: usize) -> (r: &String)
        requires
            self.wf(),
            index < 9,
        ensures
            r@ == default_message(index),
    {
        assert(self.defaults@.contains_key(index));
        match self.defaults.get(&index) {
            Some(value) => value,
            None => unreached(),
        }
    }

    /// Reads text and kind from a websocket message. A message that carries
    /// no text, whose text is no JSON document, or whose document lacks one of
    /// the two string members is read as [`unexpected_input`].
    pub fn parse_input(&self, input: &Message) -> (r: (String, String))
        ensures
            (r.0@, r.1@) == envelope_of(message_text(*input)),
    {
        match text_of(input) {
            Some(text) => self.parse_text(text.as_str()),
            None => envelope(None, None),
        }
    }

    /// Reads text and kind from the text of a message.
    pub fn parse_text(&self, text: &str) -> (r: (String, String))
        ensures
            (r.0@, r.1@) == envelope_of_text(text@),
    {
        match parse_json(text) {
            Some(document) => envelope(
                string_member(&document, "text"),
                string_member(&document, "type"),
            ),
            None => envelope(None, None),
        }
    }

    /// Whether a message that leaves for a player tells that the game is
    /// over: it reads as a message of kind `END`.
    pub fn ends_the_game(&self, message: &Message) -> (r: bool)
        ensures
            r == (envelope_of(message_text(*message)).1 == MessageType::END@),
    {
        let read = self.parse_input(message);
        read.1 == String::from_str(MessageType::END)
    }

    /// Writes an outbound message with text `m` and kind `t`.
    pub fn build_plain_message(m: &str, t: &str) -> (r: String)
        ensures
            r@ == plain_message(m@, t@),
    {
        let template = "{ \"text\": \"$\", \"type\": \"$\" }";
        let with_text = replace_marker(template, m);
        replace_marker(with_text.as_str(), t)
    }
}

/// Hands each of `plain_messages` to the mailbox, in order.
pub fn multi_message_send(sender: &UnboundedSender<Message>, plain_messages: &[&String]) {
    let mut index: usize = 0;
    while index < plain_messages.len()
        invariant
            index <= plain_messages.len(),
        decreases plain_messages.len() - index,
    {
        message_send(sender, plain_messages[index]);
        index += 1;
    }
}

/// Hands a message to the mailbox as a websocket text message. A mailbox
/// whose reader is gone drops it; the sender is not told.
pub fn message_send(sender: &UnboundedSender<Message>, plain_message: &String) {
    let _ = enqueue(sender, plain_message.as_str());
}

} // verus!
