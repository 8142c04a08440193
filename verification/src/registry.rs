//! The sessions that are alive, and the pairing of arriving players.
//!
//! The registry keeps its sessions in the order in which they were opened and
//! gives each a number that is never used again. A player who arrives joins
//! the first session that waits in the lobby, or opens one. Every operation
//! takes the registry by exclusive reference, so that of two arrivals one is
//! dealt with wholly before the other.

use crate::board::CellOwner;
use crate::message::{default_message, message_send, GameMessageFactory};
use crate::session::{Dispatch, GameSession, GameSessionPhase, Mailbox, Outbox, SessionState};
use vstd::prelude::*;

verus! {

/// A session with its number, as the contracts see it.
pub struct Entry {
    pub id: u64,
    pub state: SessionState,
}

/// The registry as the contracts see it: the sessions in the order in which
/// they were opened, and the number that the next one gets.
pub struct RegistryState {
    pub entries: Seq<Entry>,
    pub next_id: u64,
}

/// Where an arriving player was seated, and what was sent on the way.
pub struct Seating {
    pub session: u64,
    pub role: CellOwner,
    pub outbox: Outbox,
}

/// Whether a session is kept when the closed ones are removed.
pub open spec fn alive() -> spec_fn(Entry) -> bool {
    |entry: Entry| !(entry.state.phase is CLOSED)
}

impl RegistryState {
    /// The registry that holds no session yet.
    pub open spec fn empty() -> RegistryState {
        RegistryState { entries: Seq::empty(), next_id: 0 }
    }

    /// Each session is valid, the numbers rise along the sequence, and none
    /// has reached the number that the next session gets.
    pub open spec fn valid(self) -> bool {
        &&& forall|i: int|
            0 <= i < self.entries.len() ==> (#[trigger] self.entries[i]).state.valid()
                && self.entries[i].id < self.next_id
        &&& forall|i: int, j: int|
            0 <= i < j < self.entries.len() ==> (#[trigger] self.entries[i]).id
                < (#[trigger] self.entries[j]).id
    }

    /// The phases of the sessions, in their order.
    pub open spec fn phases(self) -> Seq<GameSessionPhase> {
        self.entries.map_values(|entry: Entry| entry.state.phase)
    }

    /// The numbers of the sessions, in their order.
    pub open spec fn ids(self) -> Seq<u64> {
        self.entries.map_values(|entry: Entry| entry.id)
    }

    /// The place of the first session that waits in the lobby.
    pub open spec fn first_lobby(self) -> Option<int> {
        self.phases().index_of_first(GameSessionPhase::LOBBY)
    }

    /// The place of the session with number `id`.
    pub open spec fn position_of(self, id: u64) -> Option<int> {
        self.ids().index_of_first(id)
    }

    /// The registry in which the session at place `at` has become `state`.
    pub open spec fn with_state(self, at: int, state: SessionState) -> RegistryState {
        RegistryState {
            entries: self.entries.update(at, Entry { id: self.entries[at].id, state }),
            ..self
        }
    }

    /// Where a player who arrives is seated: as `PlayerB` in the first
    /// session that waits in the lobby; where none waits, as `PlayerA` in a
    /// session of their own, which gets the next number and for which the
    /// player is told to wait. Where none waits and the numbers have run out,
    /// the player is not seated.
    pub open spec fn seating(self) -> Option<Seating> {
        match self.first_lobby() {
            Some(at) => Some(
                Seating {
                    session: self.entries[at].id,
                    role: CellOwner::PlayerB,
                    outbox: self.entries[at].state.join_outbox(),
                },
            ),
            None => if self.next_id < u64::MAX {
                Some(
                    Seating {
                        session: self.next_id,
                        role: CellOwner::PlayerA,
                        outbox: Outbox {
                            to_a: seq![default_message(GameMessageFactory::WAITING_MESSAGE)],
                            to_b: Seq::empty(),
                        },
                    },
                )
            } else {
                None
            },
        }
    }

    /// The registry after a player with `mailbox` has arrived.
    pub open spec fn after_arrival(self, mailbox: Mailbox) -> RegistryState {
        match self.first_lobby() {
            Some(at) => self.with_state(at, self.entries[at].state.after_join(mailbox)),
            None => if self.next_id < u64::MAX {
                RegistryState {
                    entries: self.entries.push(
                        Entry { id: self.next_id, state: SessionState::opened(mailbox) },
                    ),
                    next_id: (self.next_id + 1) as u64,
                }
            } else {
                self
            },
        }
    }

    /// The registry without its closed sessions.
    pub open spec fn after_reap(self) -> RegistryState {
        RegistryState { entries: self.entries.filter(alive()), ..self }
    }

    /// The registry after a player's message for session `id`. A session
    /// that the registry does not hold takes no message.
    pub open spec fn after_move(
        self,
        id: u64,
        player: CellOwner,
        text: Seq<char>,
        kind: Seq<char>,
    ) -> RegistryState {
        match self.position_of(id) {
            Some(at) => self.with_state(at, self.entries[at].state.after_move(player, text, kind)),
            None => self,
        }
    }

    /// What is sent after a player's message for session `id`.
    pub open spec fn move_outbox(
        self,
        id: u64,
        player: CellOwner,
        text: Seq<char>,
        kind: Seq<char>,
    ) -> Outbox {
        match self.position_of(id) {
            Some(at) => self.entries[at].state.move_outbox(player, text, kind),
            None => Outbox::nothing(),
        }
    }

    /// The registry after a player has left session `id`.
    pub open spec fn after_withdraw(self, id: u64) -> RegistryState {
        match self.position_of(id) {
            Some(at) => self.with_state(at, self.entries[at].state.after_withdraw()),
            None => self,
        }
    }

    /// What is sent after a player has left session `id`.
    pub open spec fn withdraw_outbox(self, id: u64, player: CellOwner) -> Outbox {
        match self.position_of(id) {
            Some(at) => self.entries[at].state.withdraw_outbox(player),
            None => Outbox::nothing(),
        }
    }
}

/// The first session that waits in the lobby is one that does, with none
/// before it that does; where there is none, no session waits.
pub proof fn lemma_first_lobby(state: RegistryState)
    ensures
        match state.first_lobby() {
            Some(at) => {
                &&& 0 <= at < state.entries.len()
                &&& state.entries[at].state.phase is LOBBY
                &&& forall|j: int|
                    0 <= j < at ==> !((#[trigger] state.entries[j]).state.phase is LOBBY)
            },
            None => forall|j: int|
                0 <= j < state.entries.len() ==> !((#[trigger] state.entries[j]).state.phase
                    is LOBBY),
        },
{
    let phases = state.phases();
    phases.index_of_first_ensures(GameSessionPhase::LOBBY);
    match state.first_lobby() {
        Some(at) => {
            assert forall|j: int| 0 <= j < at implies !((#[trigger] state.entries[j]).state.phase
                is LOBBY) by {
                assert(phases[j] == state.entries[j].state.phase);
            }
        },
        None => {
            assert forall|j: int| 0 <= j < state.entries.len() implies !((
            #[trigger] state.entries[j]).state.phase is LOBBY) by {
                assert(phases[j] == state.entries[j].state.phase);
            }
        },
    }
}

/// In a valid registry a number stands for the one session that has it, and
/// for none where no session has it.
pub proof fn lemma_position_of(state: RegistryState, id: u64)
    requires
        state.valid(),
    ensures
        match state.position_of(id) {
            Some(at) => {
                &&& 0 <= at < state.entries.len()
                &&& state.entries[at].id == id
                &&& forall|j: int|
                    0 <= j < state.entries.len() && j != at ==> (#[trigger] state.entries[j]).id
                        != id
            },
            None => forall|j: int|
                0 <= j < state.entries.len() ==> (#[trigger] state.entries[j]).id != id,
        },
{
    let ids = state.ids();
    ids.index_of_first_ensures(id);
    match state.position_of(id) {
        Some(at) => {
            assert(ids[at] == state.entries[at].id);
        },
        None => {
            assert forall|j: int| 0 <= j < state.entries.len() implies (
            #[trigger] state.entries[j]).id != id by {
                assert(ids[j] == state.entries[j].id);
            }
        },
    }
}

/// A sequence all of whose members pass a filter passes it whole.
proof fn lemma_filter_keeps_all<A>(s: Seq<A>, pred: spec_fn(A) -> bool)
    requires
        forall|i: int| 0 <= i < s.len() ==> pred(#[trigger] s[i]),
    ensures
        s.filter(pred) == s,
    decreases s.len(),
{
    reveal(Seq::filter);
    if s.len() > 0 {
        lemma_filter_keeps_all(s.drop_last(), pred);
        assert(s.drop_last().push(s.last()) =~= s);
    }
}

/// From place `from` up to `upto`, `all` holds sessions that are alive.
spec fn stretch_alive(all: Seq<Entry>, from: int, upto: int) -> bool {
    forall|p: int| from <= p < upto ==> alive()(#[trigger] all[p])
}

/// `places` lists, in rising order, the places below `upto` at which `all`
/// holds a closed session, and no other.
spec fn listed(all: Seq<Entry>, places: Seq<int>, upto: int) -> bool {
    &&& 0 <= upto <= all.len()
    &&& forall|k: int|
        0 <= k < places.len() ==> 0 <= #[trigger] places[k] < upto && !alive()(all[places[k]])
    &&& forall|i: int, j: int|
        0 <= i < j < places.len() ==> #[trigger] places[i] < #[trigger] places[j]
    &&& forall|p: int| 0 <= p < upto && !alive()(#[trigger] all[p]) ==> places.contains(p)
}

/// The place of the `k`-th closed session, or the end of `all` where there
/// are no more than `k`.
spec fn cut_at(all: Seq<Entry>, places: Seq<int>, k: int) -> int {
    if 0 <= k < places.len() {
        places[k]
    } else {
        all.len() as int
    }
}

/// What is left of `all` once the closed sessions among its first `cut` are
/// removed.
spec fn reaped_upto(all: Seq<Entry>, cut: int) -> Seq<Entry> {
    all.take(cut).filter(alive()) + all.skip(cut)
}

proof fn lemma_listed_alive(all: Seq<Entry>, places: Seq<int>, upto: int)
    requires
        listed(all, places, upto),
        upto < all.len(),
        alive()(all[upto]),
    ensures
        listed(all, places, upto + 1),
{
}

proof fn lemma_listed_closed(all: Seq<Entry>, places: Seq<int>, upto: int)
    requires
        listed(all, places, upto),
        upto < all.len(),
        !alive()(all[upto]),
    ensures
        listed(all, places.push(upto), upto + 1),
{
    let longer = places.push(upto);
    assert forall|p: int| 0 <= p < upto + 1 && !alive()(#[trigger] all[p]) implies longer.contains(
        p,
    ) by {
        if p < upto {
            let k = choose|k: int| 0 <= k < places.len() && places[k] == p;
            assert(longer[k] == p);
        } else {
            assert(longer[places.len() as int] == p);
        }
    }
}

/// Between one closed session and the next, and after the last, the sessions
/// are alive.
proof fn lemma_alive_between(all: Seq<Entry>, places: Seq<int>, k: int)
    requires
        listed(all, places, all.len() as int),
        0 <= k <= places.len(),
    ensures
        k == 0 ==> stretch_alive(all, 0, cut_at(all, places, 0)),
        k > 0 ==> places[k - 1] + 1 <= cut_at(all, places, k) && stretch_alive(
            all,
            places[k - 1] + 1,
            cut_at(all, places, k),
        ),
{
    let from = if k == 0 {
        0
    } else {
        places[k - 1] + 1
    };
    let upto = cut_at(all, places, k);
    assert forall|p: int| from <= p < upto implies alive()(#[trigger] all[p]) by {
        if !alive()(all[p]) {
            let j = choose|j: int| 0 <= j < places.len() && places[j] == p;
            if j < k {
                if j < k - 1 {
                    assert(places[j] < places[k - 1]);
                }
            } else {
                if k < j {
                    assert(places[k] < places[j]);
                }
            }
        }
    }
}

/// Over a stretch of sessions that are alive the cut may slide.
proof fn lemma_cut_slides(all: Seq<Entry>, from: int, upto: int)
    requires
        0 <= from <= upto <= all.len(),
        stretch_alive(all, from, upto),
    ensures
        reaped_upto(all, upto) == reaped_upto(all, from),
        all.take(upto).filter(alive()).len() == all.take(from).filter(alive()).len() + (upto
            - from),
{
    let between = all.subrange(from, upto);
    assert forall|i: int| 0 <= i < between.len() implies alive()(#[trigger] between[i]) by {
        assert(between[i] == all[from + i]);
    }
    lemma_filter_keeps_all(between, alive());
    assert(all.take(upto) =~= all.take(from) + between);
    Seq::filter_distributes_over_add(all.take(from), between, alive());
    assert(all.take(from).filter(alive()) + between + all.skip(upto) =~= all.take(from).filter(
        alive(),
    ) + all.skip(from));
}

/// Removing a closed session at the cut moves the cut past it.
proof fn lemma_cut_drops(all: Seq<Entry>, at: int)
    requires
        0 <= at < all.len(),
        !alive()(all[at]),
    ensures
        reaped_upto(all, at).remove(all.take(at).filter(alive()).len() as int) == reaped_upto(
            all,
            at + 1,
        ),
        all.take(at + 1).filter(alive()) == all.take(at).filter(alive()),
{
    let kept = all.take(at).filter(alive());
    let one = seq![all[at]];
    assert(one.filter(alive()) =~= Seq::<Entry>::empty()) by {
        reveal_with_fuel(Seq::filter, 2);
        assert(one.drop_last() =~= Seq::<Entry>::empty());
    }
    assert(all.take(at + 1) =~= all.take(at) + one);
    Seq::filter_distributes_over_add(all.take(at), one, alive());
    assert(all.take(at + 1).filter(alive()) =~= kept);
    assert((kept + all.skip(at)).remove(kept.len() as int) =~= kept + all.skip(at + 1));
}

/// Before the first closed session nothing is to be removed.
proof fn lemma_reap_start(all: Seq<Entry>, places: Seq<int>)
    requires
        listed(all, places, all.len() as int),
    ensures
        reaped_upto(all, cut_at(all, places, 0)) == all,
        all.take(cut_at(all, places, 0)).filter(alive()).len() == cut_at(all, places, 0),
{
    lemma_alive_between(all, places, 0);
    lemma_cut_slides(all, 0, cut_at(all, places, 0));
    assert(all.take(0).filter(alive()) =~= Seq::<Entry>::empty()) by {
        reveal(Seq::filter);
    }
    assert(reaped_upto(all, 0) =~= all);
}

/// Removing the next closed session from what is left after the ones before
/// it gives what is left up to the one after it.
proof fn lemma_reap_step(all: Seq<Entry>, places: Seq<int>, done: int)
    requires
        listed(all, places, all.len() as int),
        0 <= done < places.len(),
        all.take(places[done]).filter(alive()).len() == places[done] - done,
    ensures
        0 <= places[done] - done < reaped_upto(all, places[done]).len(),
        reaped_upto(all, places[done]).remove(places[done] - done) == reaped_upto(
            all,
            cut_at(all, places, done + 1),
        ),
        all.take(cut_at(all, places, done + 1)).filter(alive()).len() == cut_at(
            all,
            places,
            done + 1,
        ) - (done + 1),
{
    let at = places[done];
    lemma_cut_drops(all, at);
    lemma_alive_between(all, places, done + 1);
    lemma_cut_slides(all, at + 1, cut_at(all, places, done + 1));
}

/// Once every closed session is removed, what is left is the filtered
/// sequence.
proof fn lemma_reap_done(all: Seq<Entry>)
    ensures
        reaped_upto(all, all.len() as int) == all.filter(alive()),
{
    assert(all.take(all.len() as int) =~= all);
    assert(all.skip(all.len() as int) =~= Seq::<Entry>::empty());
}

/// Removing the closed sessions keeps the registry valid.
pub proof fn lemma_reap_keeps_valid(state: RegistryState)
    requires
        state.valid(),
    ensures
        state.after_reap().valid(),
    decreases state.entries.len(),
{
    reveal(Seq::filter);
    if state.entries.len() > 0 {
        let front = RegistryState { entries: state.entries.drop_last(), ..state };
        let last = state.entries.last();
        assert forall|i: int| 0 <= i < front.entries.len() implies (#[trigger] front.entries[i])
            == state.entries[i] by {}
        lemma_reap_keeps_valid(front);
        let kept = front.entries.filter(alive());
        assert forall|i: int| 0 <= i < kept.len() implies (#[trigger] kept[i]).id < last.id by {
            assert(kept.contains(kept[i]));
            front.entries.lemma_filter_contains_rev(alive(), kept[i]);
            let j = choose|j: int| 0 <= j < front.entries.len() && front.entries[j] == kept[i];
            assert(state.entries[j].id < state.entries[state.entries.len() - 1].id);
        }
    }
}

/// An arrival keeps the registry valid. The player joins no session but one
/// that waited in the lobby, and a session that is opened comes last.
pub proof fn lemma_arrival_keeps_valid(state: RegistryState, mailbox: Mailbox)
    requires
        state.valid(),
    ensures
        state.after_arrival(mailbox).valid(),
        state.seating() matches Some(seat) ==> match state.first_lobby() {
            Some(at) => {
                &&& seat.role is PlayerB
                &&& state.entries[at].state.phase is LOBBY
                &&& state.after_arrival(mailbox).entries[at].state.phase is PLAYING
                &&& state.after_arrival(mailbox).entries.len() == state.entries.len()
            },
            None => {
                &&& seat.role is PlayerA
                &&& state.after_arrival(mailbox).entries == state.entries.push(
                    Entry { id: seat.session, state: SessionState::opened(mailbox) },
                )
            },
        },
{
    lemma_first_lobby(state);
    let after = state.after_arrival(mailbox);
    match state.first_lobby() {
        Some(at) => {
            let before = state.entries[at].state;
            crate::session::lemma_phase_only_advances(
                before,
                mailbox,
                CellOwner::PlayerA,
                Seq::empty(),
                Seq::empty(),
            );
        },
        None => {
            crate::board::lemma_empty_cells_counts(CellOwner::PlayerA);
            crate::board::lemma_empty_cells_counts(CellOwner::PlayerB);
            if state.next_id < u64::MAX {
                assert forall|i: int| 0 <= i < after.entries.len() implies (
                #[trigger] after.entries[i]).state.valid() && after.entries[i].id
                    < after.next_id by {
                    if i < state.entries.len() {
                        assert(after.entries[i] == state.entries[i]);
                    }
                }
                assert forall|i: int, j: int| 0 <= i < j < after.entries.len() implies (
                #[trigger] after.entries[i]).id < (#[trigger] after.entries[j]).id by {
                    assert(after.entries[i] == state.entries[i]);
                    if j < state.entries.len() {
                        assert(after.entries[j] == state.entries[j]);
                    }
                }
            }
        },
    }
}

/// Of two players who arrive one after the other where no session waits in
/// the lobby, the first opens a session and the second joins it: the registry
/// grows by that one session, in which the first is `PlayerA` and the second
/// `PlayerB`, and no session is left waiting.
pub proof fn lemma_two_arrivals_share_a_session(
    state: RegistryState,
    first: Mailbox,
    second: Mailbox,
)
    requires
        state.valid(),
        state.first_lobby() is None,
        state.next_id < u64::MAX,
    ensures
        ({
            let one = state.after_arrival(first);
            let two = one.after_arrival(second);
            &&& state.seating() matches Some(seat) && seat.role is PlayerA && seat.session
                == state.next_id
            &&& one.seating() matches Some(seat) && seat.role is PlayerB && seat.session
                == state.next_id
            &&& two.entries.len() == state.entries.len() + 1
            &&& two.entries.take(state.entries.len() as int) == state.entries
            &&& two.entries.last().id == state.next_id
            &&& two.entries.last().state.phase is PLAYING
            &&& two.entries.last().state.mailbox_a == first
            &&& two.entries.last().state.mailbox_b == Some(second)
            &&& two.first_lobby() is None
            &&& two.valid()
        }),
{
    let one = state.after_arrival(first);
    let two = one.after_arrival(second);
    let count = state.entries.len() as int;
    lemma_first_lobby(state);
    lemma_first_lobby(one);
    assert(one.entries[count].state.phase is LOBBY);
    assert forall|j: int| 0 <= j < count implies !((#[trigger] one.entries[j]).state.phase
        is LOBBY) by {
        assert(one.entries[j] == state.entries[j]);
    }
    assert(one.first_lobby() == Some(count));
    lemma_first_lobby(two);
    assert forall|j: int| 0 <= j < two.entries.len() implies !((
    #[trigger] two.entries[j]).state.phase is LOBBY) by {
        if j < count {
            assert(two.entries[j] == state.entries[j]);
        }
    }
    assert(two.entries.take(count) =~= state.entries);
    lemma_arrival_keeps_valid(state, first);
    lemma_arrival_keeps_valid(one, second);
}

/// A message for a session, or a player's leaving it, changes that session
/// alone: every other session stays as it was, every session keeps its place
/// and its number, and the registry stays valid.
pub proof fn lemma_other_sessions_untouched(
    state: RegistryState,
    id: u64,
    player: CellOwner,
    text: Seq<char>,
    kind: Seq<char>,
)
    requires
        state.valid(),
    ensures
        state.after_move(id, player, text, kind).valid(),
        state.after_withdraw(id).valid(),
        state.after_move(id, player, text, kind).ids() == state.ids(),
        state.after_withdraw(id).ids() == state.ids(),
        forall|j: int|
            0 <= j < state.entries.len() && (#[trigger] state.entries[j]).id != id
                ==> state.after_move(id, player, text, kind).entries[j] == state.entries[j]
                && state.after_withdraw(id).entries[j] == state.entries[j],
{
    lemma_position_of(state, id);
    match state.position_of(id) {
        Some(at) => {
            let before = state.entries[at].state;
            crate::session::lemma_phase_only_advances(before, before.mailbox_a, player, text, kind);
            assert(state.after_move(id, player, text, kind).ids() =~= state.ids());
            assert(state.after_withdraw(id).ids() =~= state.ids());
        },
        None => {},
    }
}

/// A session with its number.
struct Slot {
    id: u64,
    session: GameSession,
}

impl View for Slot {
    type V = Entry;

    closed spec fn view(&self) -> Entry {
        Entry { id: self.id, state: self.session@ }
    }
}

/// The views of a sequence of slots.
spec fn entries_of(slots: Seq<Slot>) -> Seq<Entry> {
    slots.map_values(|slot: Slot| slot@)
}

/// A seated player: the session's number, the player's role, and what was
/// sent when the player arrived.
pub struct Arrival {
    pub session: u64,
    pub role: CellOwner,
    pub sent: Dispatch,
}

impl View for Arrival {
    type V = Seating;

    open spec fn view(&self) -> Seating {
        Seating { session: self.session, role: self.role, outbox: self.sent@ }
    }
}

/// The sessions that are alive, each with its number.
pub struct Registry {
    slots: Vec<Slot>,
    next_id: u64,
}

impl View for Registry {
    type V = RegistryState;

    closed spec fn view(&self) -> RegistryState {
        RegistryState { entries: entries_of(self.slots@), next_id: self.next_id }
    }
}

impl Registry {
    /// What holds of every registry that this module hands out.
    pub open spec fn wf(&self) -> bool {
        self@.valid()
    }

    /// The registry that holds no session yet.
    pub fn new() -> (r: Registry)
        ensures
            r.wf(),
            r@ == RegistryState::empty(),
    {
        let r = Registry { slots: Vec::new(), next_id: 0 };
        assert(r@.entries =~= Seq::empty());
        r
    }

    /// The number of sessions that the registry holds.
    pub fn len(&self) -> (r: usize)
        ensures
            r == self@.entries.len(),
    {
        self.slots.len()
    }

    /// Session `id`, where the registry holds it.
    pub fn session(&self, id: u64) -> (r: Option<&GameSession>)
        requires
            self.wf(),
        ensures
            match r {
                Some(session) => self@.position_of(id) matches Some(at) && session@
                    == self@.entries[at].state && session.wf(),
                None => self@.position_of(id) is None,
            },
    {
        match self.find(id) {
            Some(at) => Some(&self.slots[at].session),
            None => None,
        }
    }

    /// Seats a player who arrives with `mailbox`: in the first session that
    /// waits in the lobby, whose game then begins, or in a session of the
    /// player's own.
    pub fn find_or_create(
        &mut self,
        mailbox: Mailbox,
        game_message_factory: &GameMessageFactory,
    ) -> (r: Option<Arrival>)
        requires
            old(self).wf(),
            game_message_factory.wf(),
        ensures
            final(self).wf(),
            final(self)@ == old(self)@.after_arrival(mailbox),
            match r {
                Some(arrival) => old(self)@.seating() == Some(arrival@),
                None => old(self)@.seating() is None,
            },
    {
        let ghost before = self@;
        match self.find_lobby() {
            Some(at) => {
                let session = self.slots[at].id;
                let sent = self.slots[at].session.start_game(mailbox, game_message_factory);
                assert(self@.entries =~= before.with_state(
                    at as int,
                    before.entries[at as int].state.after_join(mailbox),
                ).entries);
                Some(Arrival { session, role: CellOwner::PlayerB, sent })
            },
            None => {
                if self.next_id == u64::MAX {
                    return None;
                }
                let session = self.next_id;
                let waiting = game_message_factory.get_default(GameMessageFactory::WAITING_MESSAGE);
                message_send(&mailbox, waiting);
                let mut to_a: Vec<String> = Vec::new();
                to_a.push(waiting.clone());
                let sent = Dispatch { to_a, to_b: Vec::new() };
                assert(sent@.to_a =~= seq![default_message(GameMessageFactory::WAITING_MESSAGE)]);
                assert(sent@.to_b =~= Seq::empty());
                self.slots.push(Slot { id: session, session: GameSession::new(mailbox) });
                self.next_id = session + 1;
                assert(self@.entries =~= before.entries.push(
                    Entry { id: session, state: SessionState::opened(mailbox) },
                ));
                Some(Arrival { session, role: CellOwner::PlayerA, sent })
            },
        }
    }

    /// Removes the closed sessions and returns how many they were.
    pub fn reap(&mut self) -> (removed: usize)
        requires
            old(self).wf(),
        ensures
            final(self).wf(),
            final(self)@ == old(self)@.after_reap(),
            removed == old(self)@.entries.len() - final(self)@.entries.len(),
    {
        let ghost all = self@.entries;
        let total = self.slots.len();
        // The place that each closed session will have when its turn to
        // leave has come: its place now, less the closed ones before it.
        let mut indexes: Vec<usize> = Vec::new();
        let ghost mut places: Seq<int> = Seq::empty();
        let mut counter: usize = 0;
        let mut index: usize = 0;
        while index < total
            invariant
                self@.entries == all,
                total == all.len(),
                total == self.slots@.len(),
                counter <= index <= total,
                indexes@.len() == counter,
                places.len() == counter,
                listed(all, places, index as int),
                forall|k: int| 0 <= k < counter ==> #[trigger] indexes@[k] == places[k] - k,
            decreases total - index,
        {
            assert(all[index as int] == self.slots@[index as int]@);
            if self.slots[index].session.phase() == GameSessionPhase::CLOSED {
                indexes.push(index - counter);
                proof {
                    lemma_listed_closed(all, places, index as int);
                    places = places.push(index as int);
                }
                counter += 1;
            } else {
                proof {
                    lemma_listed_alive(all, places, index as int);
                }
            }
            index += 1;
        }
        proof {
            lemma_reap_start(all, places);
        }
        let mut done: usize = 0;
        while done < counter
            invariant
                total == all.len(),
                done <= counter,
                indexes@.len() == counter,
                places.len() == counter,
                self.next_id == old(self).next_id,
                listed(all, places, total as int),
                forall|k: int| 0 <= k < counter ==> #[trigger] indexes@[k] == places[k] - k,
                self@.entries == reaped_upto(all, cut_at(all, places, done as int)),
                all.take(cut_at(all, places, done as int)).filter(alive()).len() == cut_at(
                    all,
                    places,
                    done as int,
                ) - done,
            decreases counter - done,
        {
            let ghost current = self.slots@;
            proof {
                lemma_reap_step(all, places, done as int);
            }
            let place = indexes[done];
            self.slots.remove(place);
            assert(entries_of(self.slots@) =~= entries_of(current).remove(place as int));
            done += 1;
        }
        proof {
            lemma_reap_done(all);
            lemma_reap_keeps_valid(old(self)@);
        }
        counter
    }

    /// Hands a player's message, `input` being its text and its kind, to
    /// session `session`. A session that the registry does not hold, because
    /// it never did or because it was closed and removed, takes no message.
    /// Returns what was sent.
    pub fn submit_move(
        &mut self,
        session: u64,
        player: CellOwner,
        input: (String, String),
        game_message_factory: &GameMessageFactory,
    ) -> (sent: Dispatch)
        requires
            old(self).wf(),
            game_message_factory.wf(),
        ensures
            final(self).wf(),
            final(self)@ == old(self)@.after_move(session, player, input.0@, input.1@),
            sent@ == old(self)@.move_outbox(session, player, input.0@, input.1@),
    {
        let ghost before = self@;
        match self.find(session) {
            Some(at) => {
                let ghost text = input.0@;
                let ghost kind = input.1@;
                let sent = self.slots[at].session.process_player_input(
                    player,
                    input,
                    game_message_factory,
                );
                assert(self@.entries =~= before.with_state(
                    at as int,
                    before.entries[at as int].state.after_move(player, text, kind),
                ).entries);
                sent
            },
            None => Dispatch::nothing(),
        }
    }

    /// Closes session `session` because `player` has left it. Returns what
    /// was sent.
    pub fn withdraw(
        &mut self,
        session: u64,
        player: CellOwner,
        game_message_factory: &GameMessageFactory,
    ) -> (sent: Dispatch)
        requires
            old(self).wf(),
            game_message_factory.wf(),
        ensures
            final(self).wf(),
            final(self)@ == old(self)@.after_withdraw(session),
            sent@ == old(self)@.withdraw_outbox(session, player),
    {
        let ghost before = self@;
        match self.find(session) {
            Some(at) => {
                let sent = self.slots[at].session.close_session(player, game_message_factory);
                assert(self@.entries =~= before.with_state(
                    at as int,
                    before.entries[at as int].state.after_withdraw(),
                ).entries);
                sent
            },
            None => Dispatch::nothing(),
        }
    }

    /// The place of the first session that waits in the lobby.
    fn find_lobby(&self) -> (r: Option<usize>)
        requires
            self.wf(),
        ensures
            match r {
                Some(at) => self@.first_lobby() == Some(at as int) && at < self@.entries.len(),
                None => self@.first_lobby() is None,
            },
    {
        let ghost phases = self@.phases();
        let mut index: usize = 0;
        while index < self.slots.len()
            invariant
                index <= self.slots@.len(),
                phases == self@.phases(),
                phases.len() == self.slots@.len(),
                forall|j: int| 0 <= j < index ==> phases[j] != GameSessionPhase::LOBBY,
            decreases self.slots@.len() - index,
        {
            assert(phases[index as int] == self.slots@[index as int]@.state.phase);
            if self.slots[index].session.phase() == GameSessionPhase::LOBBY {
                proof {
                    phases.index_of_first_ensures(GameSessionPhase::LOBBY);
                }
                return Some(index);
            }
            index += 1;
        }
        proof {
            phases.index_of_first_ensures(GameSessionPhase::LOBBY);
        }
        None
    }

    /// The place of the session with number `id`.
    fn find(&self, id: u64) -> (r: Option<usize>)
        requires
            self.wf(),
        ensures
            match r {
                Some(at) => self@.position_of(id) == Some(at as int) && at < self@.entries.len(),
                None => self@.position_of(id) is None,
            },
    {
        let ghost ids = self@.ids();
        let mut index: usize = 0;
        while index < self.slots.len()
            invariant
                index <= self.slots@.len(),
                ids == self@.ids(),
                ids.len() == self.slots@.len(),
                forall|j: int| 0 <= j < index ==> ids[j] != id,
            decreases self.slots@.len() - index,
        {
            assert(ids[index as int] == self.slots@[index as int]@.id);
            if self.slots[index].id == id {
                proof {
                    ids.index_of_first_ensures(id);
                }
                return Some(index);
            }
            index += 1;
        }
        proof {
            ids.index_of_first_ensures(id);
        }
        None
    }
}

} // verus!
