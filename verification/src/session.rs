//! One game between two players, as a state machine.
//!
//! A session starts in the lobby with its first player, is played once a
//! second player has joined, and is closed by a win, a tie or a player's
//! leaving. [`SessionState`] is what a session is to the contracts; each
//! operation is stated as a function from the state before to the state after
//! and to the messages that leave for the two players, the [`Outbox`].

use crate::board::{
    balanced, claim, claimable, count_of, empty_cells, lemma_count_after_update,
    lemma_empty_cells_counts, owns_any_line, valid_cells, winner_of, CellOwner, GameBoard,
};
use crate::message::{
    cell_index_of, default_message, message_send, parse_cell_index, plain_message,
    GameMessageFactory, MessageType,
};
use futures_channel::mpsc::UnboundedSender;
use std::sync::Arc;
use tokio_tungstenite::tungstenite::protocol::Message;
use vstd::prelude::*;
use vstd::string::*;

verus! {

/// The sending half of a player's mailbox. The session shares it with the
/// connection that reads the other half.
pub type Mailbox = Arc<UnboundedSender<Message>>;

/// Where a session stands: it waits for its second player, it is played, or
/// it is over.
#[derive(PartialEq, Eq, Clone, Copy, Debug, Structural)]
pub enum GameSessionPhase {
    LOBBY,
    PLAYING,
    CLOSED,
}

impl GameSessionPhase {
    /// The place of a phase in the order in which a session goes through
    /// them.
    pub open spec fn rank(self) -> int {
        match self {
            GameSessionPhase::LOBBY => 0,
            GameSessionPhase::PLAYING => 1,
            GameSessionPhase::CLOSED => 2,
        }
    }
}

/// A session as the contracts see it.
pub struct SessionState {
    pub board: Seq<CellOwner>,
    pub phase: GameSessionPhase,
    pub turn: CellOwner,
    pub mailbox_a: Mailbox,
    pub mailbox_b: Option<Mailbox>,
}

/// The messages that one operation sends, for each player in the order in
/// which they are sent.
pub struct Outbox {
    pub to_a: Seq<Seq<char>>,
    pub to_b: Seq<Seq<char>>,
}

impl Outbox {
    /// The outbox of an operation that sends nothing.
    pub open spec fn nothing() -> Outbox {
        Outbox { to_a: Seq::empty(), to_b: Seq::empty() }
    }

    /// The outbox in which `to_mover` goes to `mover` and `to_other` to the
    /// other player. A `mover` who is not `PlayerA` is taken for `PlayerB`.
    pub open spec fn addressed(
        mover: CellOwner,
        to_mover: Seq<Seq<char>>,
        to_other: Seq<Seq<char>>,
    ) -> Outbox {
        if mover is PlayerA {
            Outbox { to_a: to_mover, to_b: to_other }
        } else {
            Outbox { to_a: to_other, to_b: to_mover }
        }
    }
}

impl SessionState {
    /// The session that its first player has just opened.
    pub open spec fn opened(mailbox: Mailbox) -> SessionState {
        SessionState {
            board: empty_cells(),
            phase: GameSessionPhase::LOBBY,
            turn: CellOwner::PlayerA,
            mailbox_a: mailbox,
            mailbox_b: None,
        }
    }

    /// What holds of every session: the players have moved in turn; in the
    /// lobby nobody has moved and there is no second mailbox; while the game
    /// is played there is one, the board is undecided, and the player whose
    /// turn it is has made as many moves as the other, or one less if it is
    /// `PlayerB`.
    pub open spec fn valid(self) -> bool {
        &&& valid_cells(self.board)
        &&& balanced(self.board)
        &&& self.turn.is_player()
        &&& self.phase is LOBBY ==> {
            &&& self.board == empty_cells()
            &&& self.turn is PlayerA
            &&& self.mailbox_b is None
        }
        &&& self.phase is PLAYING ==> {
            &&& self.mailbox_b is Some
            &&& winner_of(self.board) is Empty
            &&& count_of(self.board, CellOwner::PlayerA) == count_of(self.board, CellOwner::PlayerB)
                + if self.turn is PlayerB {
                1int
            } else {
                0int
            }
        }
    }

    /// The mailbox of the player who is not `player`, where there is one.
    /// A `player` who is not `PlayerA` is taken for `PlayerB`.
    pub open spec fn opponent_mailbox(self, player: CellOwner) -> Option<Mailbox> {
        if player is PlayerA {
            self.mailbox_b
        } else {
            Some(self.mailbox_a)
        }
    }

    /// A second player's joining is taken in the lobby only.
    pub open spec fn after_join(self, mailbox: Mailbox) -> SessionState {
        if self.phase is LOBBY {
            SessionState {
                phase: GameSessionPhase::PLAYING,
                turn: CellOwner::PlayerA,
                mailbox_b: Some(mailbox),
                ..self
            }
        } else {
            self
        }
    }

    /// When the game begins the first player is told to move and the second
    /// to wait.
    pub open spec fn join_outbox(self) -> Outbox {
        if self.phase is LOBBY {
            Outbox {
                to_a: seq![default_message(GameMessageFactory::YOUR_TURN_MESSAGE)],
                to_b: seq![default_message(GameMessageFactory::OPPONENT_TURN_MESSAGE)],
            }
        } else {
            Outbox::nothing()
        }
    }

    /// The cell that a move claims, where the move is taken: the game is
    /// being played, it is the player's turn, the message is a click, its
    /// text names a cell, and that cell is free.
    pub open spec fn move_target(
        self,
        player: CellOwner,
        text: Seq<char>,
        kind: Seq<char>,
    ) -> Option<int> {
        if self.phase is PLAYING && self.turn == player && kind == MessageType::CLIENT_CLICK@ {
            match cell_index_of(text) {
                Some(index) => if claimable(self.board, index, player) {
                    Some(index)
                } else {
                    None
                },
                None => None,
            }
        } else {
            None
        }
    }

    /// The session after a move. A move that is not taken changes nothing.
    /// One that is taken claims its cell; then the turn passes to the other
    /// player if the board is still undecided, and else the session closes.
    pub open spec fn after_move(
        self,
        player: CellOwner,
        text: Seq<char>,
        kind: Seq<char>,
    ) -> SessionState {
        match self.move_target(player, text, kind) {
            Some(index) => {
                let board = claim(self.board, index, player);
                if winner_of(board) is Empty {
                    SessionState { board, turn: player.other(), ..self }
                } else {
                    SessionState { board, phase: GameSessionPhase::CLOSED, ..self }
                }
            },
            None => self,
        }
    }

    /// The messages after a move. A move that is not taken sends none. After
    /// one that is taken each player gets the mover's figure and the cell,
    /// and then what the outcome has for the mover and for the other player.
    pub open spec fn move_outbox(
        self,
        player: CellOwner,
        text: Seq<char>,
        kind: Seq<char>,
    ) -> Outbox {
        match self.move_target(player, text, kind) {
            Some(index) => {
                let outcome = winner_of(claim(self.board, index, player));
                let figure = figure_of(player);
                let show = plain_message(text, MessageType::SHOW@);
                Outbox::addressed(
                    player,
                    seq![figure, show, default_message(word_for_mover(outcome))],
                    seq![figure, show, default_message(word_for_other(outcome))],
                )
            },
            None => Outbox::nothing(),
        }
    }

    /// The session after a player has left: closed, whatever it was.
    pub open spec fn after_withdraw(self) -> SessionState {
        SessionState { phase: GameSessionPhase::CLOSED, ..self }
    }

    /// When a player leaves a game that is being played, the other player is
    /// told; else nobody is. A `player` who is not `PlayerA` is taken for
    /// `PlayerB`.
    pub open spec fn withdraw_outbox(self, player: CellOwner) -> Outbox {
        if self.phase is PLAYING {
            Outbox::addressed(
                player,
                Seq::empty(),
                seq![default_message(GameMessageFactory::WITHDRAWAL_MESSAGE)],
            )
        } else {
            Outbox::nothing()
        }
    }
}

/// The number of the message that tells the mover how a move came out: that
/// it is the opponent's turn while the board is undecided, that the game is
/// tied, or, after a complete line, the message `LOST_MESSAGE`.
pub open spec fn word_for_mover(outcome: CellOwner) -> usize {
    if outcome is Empty {
        GameMessageFactory::OPPONENT_TURN_MESSAGE
    } else if outcome is Tie {
        GameMessageFactory::TIE_MESSAGE
    } else {
        GameMessageFactory::LOST_MESSAGE
    }
}

/// The number of the message that tells the other player how a move came
/// out: that it is their turn while the board is undecided, that the game is
/// tied, or, after a complete line, the message `WIN_MESSAGE`.
pub open spec fn word_for_other(outcome: CellOwner) -> usize {
    if outcome is Empty {
        GameMessageFactory::YOUR_TURN_MESSAGE
    } else if outcome is Tie {
        GameMessageFactory::TIE_MESSAGE
    } else {
        GameMessageFactory::WIN_MESSAGE
    }
}

/// The message that tells which figure a player draws.
pub open spec fn figure_of(player: CellOwner) -> Seq<char> {
    if player is PlayerA {
        default_message(GameMessageFactory::X_FIGURE_MESSAGE)
    } else {
        default_message(GameMessageFactory::O_FIGURE_MESSAGE)
    }
}

/// The texts of a sequence of strings.
pub open spec fn texts(strings: Seq<String>) -> Seq<Seq<char>> {
    strings.map_values(|s: String| s@)
}

/// The messages that an operation has handed to the two mailboxes.
pub struct Dispatch {
    pub to_a: Vec<String>,
    pub to_b: Vec<String>,
}

impl View for Dispatch {
    type V = Outbox;

    open spec fn view(&self) -> Outbox {
        Outbox { to_a: texts(self.to_a@), to_b: texts(self.to_b@) }
    }
}

impl Dispatch {
    /// The dispatch of an operation that sends nothing.
    pub fn nothing() -> (r: Dispatch)
        ensures
            r@ == Outbox::nothing(),
    {
        Dispatch { to_a: no_messages(), to_b: no_messages() }
    }

    fn addressed(mover: CellOwner, to_mover: Vec<String>, to_other: Vec<String>) -> (r: Dispatch)
        ensures
            r@ == Outbox::addressed(mover, texts(to_mover@), texts(to_other@)),
    {
        if mover == CellOwner::PlayerA {
            Dispatch { to_a: to_mover, to_b: to_other }
        } else {
            Dispatch { to_a: to_other, to_b: to_mover }
        }
    }
}

fn no_messages() -> (r: Vec<String>)
    ensures
        texts(r@) == Seq::<Seq<char>>::empty(),
{
    let r: Vec<String> = Vec::new();
    assert(texts(r@) =~= Seq::empty());
    r
}

fn one_message(only: &String) -> (r: Vec<String>)
    ensures
        texts(r@) == seq![only@],
{
    let mut r: Vec<String> = Vec::new();
    r.push(only.clone());
    assert(texts(r@) =~= seq![only@]);
    r
}

fn three_messages(first: &String, second: &String, third: &String) -> (r: Vec<String>)
    ensures
        texts(r@) == seq![first@, second@, third@],
{
    let mut r: Vec<String> = Vec::new();
    r.push(first.clone());
    r.push(second.clone());
    r.push(third.clone());
    assert(texts(r@) =~= seq![first@, second@, third@]);
    r
}

/// Hands each of `messages` to the mailbox, in order.
fn send_all(mailbox: &Mailbox, messages: &Vec<String>) {
    let mut index: usize = 0;
    while index < messages.len()
        invariant
            index <= messages.len(),
        decreases messages.len() - index,
    {
        message_send(mailbox, &messages[index]);
        index += 1;
    }
}

/// A claim that leaves the board undecided before it can complete a line
/// only for the player who makes it.
pub proof fn lemma_line_is_the_movers(cells: Seq<CellOwner>, index: int, player: CellOwner)
    requires
        valid_cells(cells),
        winner_of(cells) is Empty,
        player.is_player(),
        claimable(cells, index, player),
    ensures
        !owns_any_line(claim(cells, index, player), player.other()),
        winner_of(claim(cells, index, player)) is Empty || winner_of(claim(cells, index, player))
            is Tie || winner_of(claim(cells, index, player)) == player,
{
    let after = claim(cells, index, player);
    let other = player.other();
    assert forall|j: int| 0 <= j < 9 && after[j] == other implies cells[j] == other by {}
}

/// One game: its board, its phase, whose turn it is, and the mailboxes of its
/// two players, of which the second is there once that player has joined.
pub struct GameSession {
    board: GameBoard,
    phase: GameSessionPhase,
    turn: CellOwner,
    sender_a: Mailbox,
    sender_b: Option<Mailbox>,
}

impl View for GameSession {
    type V = SessionState;

    closed spec fn view(&self) -> SessionState {
        SessionState {
            board: self.board@,
            phase: self.phase,
            turn: self.turn,
            mailbox_a: self.sender_a,
            mailbox_b: self.sender_b,
        }
    }
}

impl GameSession {
    /// What holds of every session that this module hands out.
    pub open spec fn wf(&self) -> bool {
        self@.valid()
    }

    /// Opens a session in the lobby for the player who reads `sender_a`.
    pub fn new(sender_a: Mailbox) -> (r: GameSession)
        ensures
            r.wf(),
            r@ == SessionState::opened(sender_a),
    {
        proof {
            lemma_empty_cells_counts(CellOwner::PlayerA);
            lemma_empty_cells_counts(CellOwner::PlayerB);
        }
        GameSession {
            board: GameBoard::new(),
            phase: GameSessionPhase::LOBBY,
            turn: CellOwner::PlayerA,
            sender_a,
            sender_b: None,
        }
    }

    /// Where the session stands.
    pub fn phase(&self) -> (r: GameSessionPhase)
        ensures
            r == self@.phase,
    {
        self.phase
    }

    /// The player who moves next while the game is played.
    pub fn turn(&self) -> (r: CellOwner)
        ensures
            r == self@.turn,
    {
        self.turn
    }

    /// The board as it stands.
    pub fn board(&self) -> (r: &GameBoard)
        ensures
            r@ == self@.board,
    {
        &self.board
    }

    /// Lets the second player in, who reads `sender_b`, and begins the game.
    /// Outside the lobby nothing happens. Returns what was sent.
    pub fn start_game(
        &mut self,
        sender_b: Mailbox,
        game_message_factory: &GameMessageFactory,
    ) -> (sent: Dispatch)
        requires
            old(self).wf(),
            game_message_factory.wf(),
        ensures
            final(self).wf(),
            final(self)@ == old(self)@.after_join(sender_b),
            sent@ == old(self)@.join_outbox(),
    {
        if self.phase != GameSessionPhase::LOBBY {
            return Dispatch::nothing();
        }
        proof {
            lemma_empty_cells_counts(CellOwner::PlayerA);
            lemma_empty_cells_counts(CellOwner::PlayerB);
            assert(empty_cells()[0] is Empty);
        }
        self.sender_b = Some(sender_b);
        self.phase = GameSessionPhase::PLAYING;
        self.turn = CellOwner::PlayerA;
        let sent = Dispatch {
            to_a: one_message(
                game_message_factory.get_default(GameMessageFactory::YOUR_TURN_MESSAGE),
            ),
            to_b: one_message(
                game_message_factory.get_default(GameMessageFactory::OPPONENT_TURN_MESSAGE),
            ),
        };
        self.deliver(&sent);
        sent
    }

    /// Takes a player's message, `input` being its text and its kind. A move
    /// that is not taken changes nothing and sends nothing. Returns what was
    /// sent.
    pub fn process_player_input(
        &mut self,
        player: CellOwner,
        input: (String, String),
        game_message_factory: &GameMessageFactory,
    ) -> (sent: Dispatch)
        requires
            old(self).wf(),
            game_message_factory.wf(),
        ensures
            final(self).wf(),
            final(self)@ == old(self)@.after_move(player, input.0@, input.1@),
            sent@ == old(self)@.move_outbox(player, input.0@, input.1@),
    {
        let ghost before = self@;
        if !self.update_board(player, &input.0, &input.1) {
            return Dispatch::nothing();
        }
        let ghost index = before.move_target(player, input.0@, input.1@)->0;
        proof {
            lemma_count_after_update(before.board, index, player, CellOwner::PlayerA);
            lemma_count_after_update(before.board, index, player, CellOwner::PlayerB);
            lemma_line_is_the_movers(before.board, index, player);
        }
        let figure_message = if player == CellOwner::PlayerA {
            game_message_factory.get_default(GameMessageFactory::X_FIGURE_MESSAGE)
        } else {
            game_message_factory.get_default(GameMessageFactory::O_FIGURE_MESSAGE)
        };
        let show_message = GameMessageFactory::build_plain_message(
            input.0.as_str(),
            MessageType::SHOW,
        );
        let winner = self.board.check_winner();
        let sent = if winner == CellOwner::Empty {
            self.turn = self.turn.opponent();
            Dispatch::addressed(
                player,
                three_messages(
                    figure_message,
                    &show_message,
                    game_message_factory.get_default(GameMessageFactory::OPPONENT_TURN_MESSAGE),
                ),
                three_messages(
                    figure_message,
                    &show_message,
                    game_message_factory.get_default(GameMessageFactory::YOUR_TURN_MESSAGE),
                ),
            )
        } else if winner == CellOwner::Tie {
            self.phase = GameSessionPhase::CLOSED;
            let tie_message = game_message_factory.get_default(GameMessageFactory::TIE_MESSAGE);
            Dispatch::addressed(
                player,
                three_messages(figure_message, &show_message, tie_message),
                three_messages(figure_message, &show_message, tie_message),
            )
        } else {
            self.phase = GameSessionPhase::CLOSED;
            Dispatch::addressed(
                player,
                three_messages(
                    figure_message,
                    &show_message,
                    game_message_factory.get_default(GameMessageFactory::LOST_MESSAGE),
                ),
                three_messages(
                    figure_message,
                    &show_message,
                    game_message_factory.get_default(GameMessageFactory::WIN_MESSAGE),
                ),
            )
        };
        self.deliver(&sent);
        sent
    }

    /// Closes the session because `player` has left. The other player of a
    /// game that is being played is told; a session that is closed stays as
    /// it is. Returns what was sent.
    pub fn close_session(
        &mut self,
        player: CellOwner,
        game_message_factory: &GameMessageFactory,
    ) -> (sent: Dispatch)
        requires
            old(self).wf(),
            game_message_factory.wf(),
        ensures
            final(self).wf(),
            final(self)@ == old(self)@.after_withdraw(),
            sent@ == old(self)@.withdraw_outbox(player),
    {
        if self.phase == GameSessionPhase::CLOSED {
            return Dispatch::nothing();
        }
        let sent = if self.phase == GameSessionPhase::PLAYING {
            let told = game_message_factory.get_default(GameMessageFactory::WITHDRAWAL_MESSAGE);
            Dispatch::addressed(player, no_messages(), one_message(told))
        } else {
            Dispatch::nothing()
        };
        self.phase = GameSessionPhase::CLOSED;
        self.deliver(&sent);
        sent
    }

    /// Hands what an operation sends to the two mailboxes.
    fn deliver(&self, sent: &Dispatch)
        requires
            sent@.to_b.len() > 0 ==> self@.mailbox_b is Some,
    {
        assert(sent@.to_b.len() == sent.to_b@.len());
        if sent.to_b.len() > 0 {
            send_all(&self.opponent_sink(CellOwner::PlayerA), &sent.to_b);
        }
        send_all(&self.opponent_sink(CellOwner::PlayerB), &sent.to_a);
    }

    /// Claims the cell that a move names, where the move is taken.
    fn update_board(
        &mut self,
        player: CellOwner,
        message_text: &String,
        message_type: &String,
    ) -> (ok: bool)
        requires
            old(self).wf(),
        ensures
            ok == (old(self)@.move_target(player, message_text@, message_type@) is Some),
            final(self)@ == (SessionState {
                board: match old(self)@.move_target(player, message_text@, message_type@) {
                    Some(index) => claim(old(self)@.board, index, player),
                    None => old(self)@.board,
                },
                ..old(self)@
            }),
            final(self).board.wf(),
    {
        if self.phase != GameSessionPhase::PLAYING || self.turn != player {
            return false;
        }
        if *message_type != String::from_str(MessageType::CLIENT_CLICK) {
            return false;
        }
        match parse_cell_index(message_text.as_str()) {
            Some(index) => self.board.update_cell(index, player),
            None => false,
        }
    }

    /// The mailbox of the player who is not `player`. A `player` who is not
    /// `PlayerA` is taken for `PlayerB`. `PlayerA` has an opponent only once
    /// the second player has joined.
    fn opponent_sink(&self, player: CellOwner) -> (r: Mailbox)
        requires
            player is PlayerA ==> self@.mailbox_b is Some,
        ensures
            Some(r) == self@.opponent_mailbox(player),
    {
        if player == CellOwner::PlayerA {
            match &self.sender_b {
                Some(sender) => sender.clone(),
                None => unreached(),
            }
        } else {
            self.sender_a.clone()
        }
    }
}

/// A move by the player whose turn it is not is not taken: the session stays
/// as it is and nothing is sent.
pub proof fn lemma_out_of_turn_ignored(
    state: SessionState,
    player: CellOwner,
    text: Seq<char>,
    kind: Seq<char>,
)
    requires
        player != state.turn,
    ensures
        state.after_move(player, text, kind) == state,
        state.move_outbox(player, text, kind) == Outbox::nothing(),
{
}

/// Every operation keeps a session valid and never takes it back to an
/// earlier phase; a closed session stays closed.
pub proof fn lemma_phase_only_advances(
    state: SessionState,
    mailbox: Mailbox,
    player: CellOwner,
    text: Seq<char>,
    kind: Seq<char>,
)
    requires
        state.valid(),
    ensures
        state.after_join(mailbox).valid(),
        state.after_move(player, text, kind).valid(),
        state.after_withdraw().valid(),
        state.after_join(mailbox).phase.rank() >= state.phase.rank(),
        state.after_move(player, text, kind).phase.rank() >= state.phase.rank(),
        state.after_withdraw().phase is CLOSED,
        state.phase is CLOSED ==> state.after_join(mailbox) == state && state.after_move(
            player,
            text,
            kind,
        ) == state && state.after_withdraw() == state,
{
    lemma_empty_cells_counts(CellOwner::PlayerA);
    lemma_empty_cells_counts(CellOwner::PlayerB);
    assert(empty_cells()[0] is Empty);
    match state.move_target(player, text, kind) {
        Some(index) => {
            lemma_count_after_update(state.board, index, player, CellOwner::PlayerA);
            lemma_count_after_update(state.board, index, player, CellOwner::PlayerB);
            lemma_line_is_the_movers(state.board, index, player);
        },
        None => {},
    }
}

} // verus!
