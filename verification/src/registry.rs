//! The room registry: the single source of truth mapping join codes to
//! rooms, with capacity-limited joins and collision-checked room creation.

use vstd::prelude::*;
use crate::codes::{generate_code, is_valid_code};

verus! {

// --- Mathematical views of the data ---

/// Ghost view of a player: identifier, display name, score.
#[verifier::ext_equal]
pub struct PlayerView {
    pub id: Seq<char>,
    pub name: Seq<char>,
    pub score: u32,
}

/// Ghost view of a room: its join code, its players in join order, and the
/// progress counter reserved for the question flow.
#[verifier::ext_equal]
pub struct RoomView {
    pub code: Seq<char>,
    pub players: Seq<PlayerView>,
    pub current_question_index: usize,
}

// --- Executable data ---

/// A participant of a room. The first player of a room is its host.
pub struct Player {
    pub id: String,
    pub name: String,
    pub score: u32,
}

impl View for Player {
    type V = PlayerView;

    open spec fn view(&self) -> PlayerView {
        PlayerView { id: self.id@, name: self.name@, score: self.score }
    }
}

/// A matching session keyed by a join code, holding at most two players.
pub struct Room {
    pub code: String,
    pub players: Vec<Player>,
    pub current_question_index: usize,
}

impl View for Room {
    type V = RoomView;

    open spec fn view(&self) -> RoomView {
        RoomView {
            code: self.code@,
            players: Seq::new(self.players@.len(), |i: int| self.players@[i]@),
            current_question_index: self.current_question_index,
        }
    }
}

/// Why a join request was refused.
#[derive(Debug, PartialEq, Eq, Structural)]
pub enum JoinError {
    RoomNotFound,
    RoomFull,
}

/// Why a create request was refused: the bounded retry loop found no free
/// code.
#[derive(Debug, PartialEq, Eq, Structural)]
pub enum CreateError {
    CodeGenerationExhausted,
}

// --- Spec-level registry queries ---

/// No two rooms share a join code.
pub open spec fn codes_unique(rooms: Seq<RoomView>) -> bool {
    forall|i: int, j: int| 0 <= i < j < rooms.len() ==> rooms[i].code != rooms[j].code
}

/// Some room carries the given code.
pub open spec fn contains_code(rooms: Seq<RoomView>, code: Seq<char>) -> bool {
    exists|i: int| 0 <= i < rooms.len() && (#[trigger] rooms[i]).code == code
}

/// The position of the room carrying the given code (meaningful when the
/// code is present and codes are unique).
pub open spec fn index_of_code(rooms: Seq<RoomView>, code: Seq<char>) -> int {
    choose|i: int| 0 <= i < rooms.len() && (#[trigger] rooms[i]).code == code
}

/// The room carrying the given code.
pub open spec fn room_at(rooms: Seq<RoomView>, code: Seq<char>) -> RoomView {
    rooms[index_of_code(rooms, code)]
}

/// The registry with the room carrying the given code replaced.
pub open spec fn replace_room(rooms: Seq<RoomView>, code: Seq<char>, room: RoomView) -> Seq<RoomView> {
    rooms.update(index_of_code(rooms, code), room)
}

/// A room obtained from `room` by appending one fresh player.
pub open spec fn joined_room(room: RoomView, name: Seq<char>, id: Seq<char>) -> RoomView {
    RoomView {
        code: room.code,
        players: room.players.push(PlayerView { id, name, score: 0 }),
        current_question_index: room.current_question_index,
    }
}

/// A room is well formed when its code is valid and it holds one or two
/// players.
pub open spec fn room_wf(room: RoomView) -> bool {
    &&& is_valid_code(room.code)
    &&& 1 <= room.players.len() <= 2
}

/// A join of the given code is admissible: the room exists and has space.
pub open spec fn join_admits(rooms: Seq<RoomView>, code: Seq<char>) -> bool {
    contains_code(rooms, code) && room_at(rooms, code).players.len() < 2
}

/// What one serialized `join` call does to the registry, as far as room
/// membership under the given code is concerned: it succeeds exactly when
/// admissible, a success appends one player to that room, and a failure
/// leaves the registry untouched.
pub open spec fn join_step(pre: Seq<RoomView>, post: Seq<RoomView>, code: Seq<char>, ok: bool) -> bool {
    &&& (ok <==> join_admits(pre, code))
    &&& if ok {
        &&& contains_code(post, code)
        &&& room_at(post, code).players.len() == room_at(pre, code).players.len() + 1
    } else {
        post == pre
    }
}

// --- Lemmas about the spec-level queries ---

/// With unique codes, the room found under a code is the one at any
/// position known to carry that code.
pub proof fn lemma_index_of_code(rooms: Seq<RoomView>, code: Seq<char>, i: int)
    requires
        codes_unique(rooms),
        0 <= i < rooms.len(),
        rooms[i].code == code,
    ensures
        contains_code(rooms, code),
        index_of_code(rooms, code) == i,
        room_at(rooms, code) == rooms[i],
{
    assert(contains_code(rooms, code));
    let j = index_of_code(rooms, code);
    if j != i {
        if j < i {
            assert(rooms[j].code != rooms[i].code);
        } else {
            assert(rooms[i].code != rooms[j].code);
        }
    }
}

/// Appending a room under a fresh code keeps codes unique, and the new room
/// is found again under its own code, unchanged.
pub proof fn lemma_push_fresh(rooms: Seq<RoomView>, room: RoomView)
    requires
        codes_unique(rooms),
        !contains_code(rooms, room.code),
    ensures
        codes_unique(rooms.push(room)),
        contains_code(rooms.push(room), room.code),
        room_at(rooms.push(room), room.code) == room,
        index_of_code(rooms.push(room), room.code) == rooms.len(),
{
    let pushed = rooms.push(room);
    assert forall|i: int, j: int| 0 <= i < j < pushed.len() implies pushed[i].code != pushed[j].code by {
        if j < rooms.len() {
            assert(rooms[i].code != rooms[j].code);
        } else {
            assert(pushed[j] == room);
            assert(pushed[i] == rooms[i]);
            if rooms[i].code == room.code {
                assert(contains_code(rooms, room.code));
            }
        }
    }
    lemma_index_of_code(pushed, room.code, rooms.len() as int);
}

/// Replacing a room by one with the same code keeps codes unique, and the
/// replacement is found under that code.
pub proof fn lemma_replace_same_code(rooms: Seq<RoomView>, code: Seq<char>, room: RoomView, i: int)
    requires
        codes_unique(rooms),
        0 <= i < rooms.len(),
        rooms[i].code == code,
        room.code == code,
    ensures
        codes_unique(rooms.update(i, room)),
        contains_code(rooms.update(i, room), code),
        room_at(rooms.update(i, room), code) == room,
        replace_room(rooms, code, room) == rooms.update(i, room),
{
    let updated = rooms.update(i, room);
    assert forall|p: int, q: int| 0 <= p < q < updated.len() implies updated[p].code != updated[q].code by {
        assert(rooms[p].code != rooms[q].code);
    }
    lemma_index_of_code(rooms, code, i);
    lemma_index_of_code(updated, code, i);
}

/// Number of successful outcomes in a run of join attempts.
pub open spec fn count_true(oks: Seq<bool>) -> nat
    decreases oks.len(),
{
    if oks.len() == 0 {
        0
    } else {
        count_true(oks.drop_last()) + if oks.last() {
            1nat
        } else {
            0nat
        }
    }
}

/// Law: any run of serialized join attempts against the same one-player
/// room admits exactly one success, and the room ends with exactly two
/// players, whatever the interleaving order was. `states` are the registry
/// views between the calls and `oks` the outcomes; every `join` call
/// satisfies `join_step` by its contract, so the law applies to any such
/// run.
pub proof fn lemma_exactly_one_join_succeeds(states: Seq<Seq<RoomView>>, oks: Seq<bool>, code: Seq<char>)
    requires
        states.len() == oks.len() + 1,
        contains_code(states[0], code),
        room_at(states[0], code).players.len() == 1,
        forall|i: int| 0 <= i < oks.len() ==> join_step(#[trigger] states[i], states[i + 1], code, oks[i]),
    ensures
        contains_code(states.last(), code),
        oks.len() == 0 ==> count_true(oks) == 0 && states.last() == states[0],
        oks.len() >= 1 ==> count_true(oks) == 1 && room_at(states.last(), code).players.len() == 2,
    decreases oks.len(),
{
    if oks.len() == 0 {
    } else {
        let spre = states.drop_last();
        let opre = oks.drop_last();
        assert forall|i: int| 0 <= i < opre.len() implies join_step(
            #[trigger] spre[i],
            spre[i + 1],
            code,
            opre[i],
        ) by {
            assert(join_step(states[i], states[i + 1], code, oks[i]));
        }
        lemma_exactly_one_join_succeeds(spre, opre, code);
        let n = opre.len() as int;
        assert(join_step(states[n], states[n + 1], code, oks[n]));
        assert(states.last() == states[n + 1]);
        assert(spre.last() == states[n]);
        if opre.len() == 0 {
            assert(states[n] == states[0]);
            assert(join_admits(states[n], code));
            assert(oks[n]);
        } else {
            assert(room_at(states[n], code).players.len() == 2);
            assert(!join_admits(states[n], code));
            assert(!oks[n]);
        }
    }
}

// --- Trusted source of player identifiers ---

/// Relies on `uuid::Uuid::new_v4` and its `Display` form: a fresh random
/// version-4 UUID rendered in the 36-character hyphenated format. The draw
/// is random, so nothing beyond the length is assumed.
#[verifier::external_body]
fn fresh_player_id() -> (r: String)
    ensures
        r@.len() == 36,
{
    uuid::Uuid::new_v4().to_string()
}

// --- Executable snapshots ---

impl Player {
    /// An independent copy of this player.
    pub fn snapshot(&self) -> (r: Player)
        ensures
            r@ == self@,
    {
        Player { id: self.id.clone(), name: self.name.clone(), score: self.score }
    }
}

impl Room {
    /// An independent copy of this room, for handing to callers without
    /// exposing registry internals.
    pub fn snapshot(&self) -> (r: Room)
        ensures
            r@ == self@,
    {
        let mut players: Vec<Player> = Vec::new();
        let n = self.players.len();
        let mut k: usize = 0;
        while k < n
            invariant
                n == self.players@.len(),
                k <= n,
                players@.len() == k,
                forall|j: int| 0 <= j < k ==> players@[j]@ == self.players@[j]@,
            decreases n - k,
        {
            let p = self.players[k].snapshot();
            players.push(p);
            k += 1;
        }
        let r = Room {
            code: self.code.clone(),
            players,
            current_question_index: self.current_question_index,
        };
        proof {
            assert(r@.players =~= self@.players);
            assert(r@ =~= self@);
        }
        r
    }
}

// --- The registry ---

/// Maximum number of code draws tried before a create request gives up.
pub const MAX_CODE_ATTEMPTS: usize = 16;

/// The process-wide mapping from join code to room. All invariants of the
/// game's lifecycle (unique codes, at most two players per room) live here.
pub struct Registry {
    rooms: Vec<Room>,
}

impl View for Registry {
    type V = Seq<RoomView>;

    closed spec fn view(&self) -> Seq<RoomView> {
        Seq::new(self.rooms@.len(), |i: int| self.rooms@[i]@)
    }
}

impl Registry {
    /// Every room is well formed and no two rooms share a code.
    pub open spec fn wf(&self) -> bool {
        &&& codes_unique(self@)
        &&& forall|i: int| 0 <= i < self@.len() ==> room_wf(#[trigger] self@[i])
    }

    /// A fresh, empty registry.
    pub fn new() -> (r: Registry)
        ensures
            r.wf(),
            r@ =~= Seq::<RoomView>::empty(),
    {
        Registry { rooms: Vec::new() }
    }

    /// The position of the room carrying `code`, if any.
    fn find_index(&self, code: &String) -> (r: Option<usize>)
        requires
            self.wf(),
        ensures
            match r {
                Some(i) => i < self@.len() && self@[i as int].code == code@,
                None => !contains_code(self@, code@),
            },
    {
        let n = self.rooms.len();
        let mut k: usize = 0;
        while k < n
            invariant
                n == self@.len(),
                k <= n,
                forall|j: int| 0 <= j < k ==> (#[trigger] self@[j]).code != code@,
            decreases n - k,
        {
            if self.rooms[k].code == *code {
                return Some(k);
            }
            k += 1;
        }
        None
    }

    /// Read-only snapshot lookup: the room under `code`, if present.
    pub fn get(&self, code: &String) -> (r: Option<Room>)
        requires
            self.wf(),
        ensures
            match r {
                Some(room) => {
                    &&& contains_code(self@, code@)
                    &&& room@ == room_at(self@, code@)
                    &&& room_wf(room@)
                },
                None => !contains_code(self@, code@),
            },
    {
        match self.find_index(code) {
            Some(i) => {
                let room = self.rooms[i].snapshot();
                proof {
                    lemma_index_of_code(self@, code@, i as int);
                }
                Some(room)
            },
            None => None,
        }
    }

    /// A valid code not yet present in the registry, found by a bounded
    /// number of random draws. Every draw colliding takes at least one
    /// room to collide with, so on an empty registry the very first draw
    /// is returned.
    fn fresh_code(&self) -> (r: Option<String>)
        requires
            self.wf(),
        ensures
            match r {
                Some(code) => is_valid_code(code@) && !contains_code(self@, code@),
                None => self@.len() > 0,
            },
    {
        let mut attempt: usize = 0;
        while attempt < MAX_CODE_ATTEMPTS
            invariant
                self.wf(),
                attempt > 0 ==> self@.len() > 0,
            decreases MAX_CODE_ATTEMPTS - attempt,
        {
            let code = generate_code();
            if self.find_index(&code).is_none() {
                return Some(code);
            }
            attempt += 1;
        }
        None
    }

    /// Creates a room under a fresh unique code with the host as its only
    /// player, and returns a snapshot of it. Fails only when the bounded
    /// retry loop found no free code — which takes at least one room to
    /// collide with, so on an empty registry it succeeds — leaving the
    /// registry unchanged.
    pub fn create(&mut self, host_name: String) -> (r: Result<Room, CreateError>)
        requires
            old(self).wf(),
        ensures
            final(self).wf(),
            old(self)@.len() == 0 ==> r is Ok,
            match r {
                Ok(room) => {
                    &&& is_valid_code(room@.code)
                    &&& !contains_code(old(self)@, room@.code)
                    &&& room@.players.len() == 1
                    &&& room@.players[0].name == host_name@
                    &&& room@.players[0].score == 0
                    &&& room@.current_question_index == 0
                    &&& room_wf(room@)
                    &&& final(self)@ == old(self)@.push(room@)
                    &&& contains_code(final(self)@, room@.code)
                    &&& room_at(final(self)@, room@.code) == room@
                },
                Err(e) => e == CreateError::CodeGenerationExhausted && final(self)@ == old(self)@,
            },
    {
        match self.fresh_code() {
            None => Err(CreateError::CodeGenerationExhausted),
            Some(code) => {
                let host = Player { id: fresh_player_id(), name: host_name, score: 0 };
                let mut players: Vec<Player> = Vec::new();
                players.push(host);
                let room = Room { code, players, current_question_index: 0 };
                let snap = room.snapshot();
                proof {
                    assert(room@.players.len() == 1);
                }
                self.rooms.push(room);
                proof {
                    assert(self@ =~= old(self)@.push(snap@));
                    lemma_push_fresh(old(self)@, snap@);
                    assert forall|i: int| 0 <= i < self@.len() implies room_wf(#[trigger] self@[i]) by {
                        if i < old(self)@.len() {
                            assert(room_wf(old(self)@[i]));
                        }
                    }
                }
                Ok(snap)
            },
        }
    }

    /// Appends a player with the given identifier to the room under `code`,
    /// if that room exists and has space; the existence check, the capacity
    /// check and the append happen within this one call. A failed join
    /// leaves the registry exactly as it was.
    pub fn join_with_id(&mut self, code: &String, name: String, id: String) -> (r: Result<Room, JoinError>)
        requires
            old(self).wf(),
        ensures
            final(self).wf(),
            join_step(old(self)@, final(self)@, code@, r is Ok),
            match r {
                Ok(room) => {
                    &&& contains_code(old(self)@, code@)
                    &&& room_at(old(self)@, code@).players.len() < 2
                    &&& room@ == joined_room(room_at(old(self)@, code@), name@, id@)
                    &&& room@.players.len() == 2
                    &&& room_wf(room@)
                    &&& final(self)@ == replace_room(old(self)@, code@, room@)
                    &&& contains_code(final(self)@, code@)
                    &&& room_at(final(self)@, code@) == room@
                },
                Err(JoinError::RoomNotFound) => !contains_code(old(self)@, code@) && final(self)@ == old(self)@,
                Err(JoinError::RoomFull) => {
                    &&& contains_code(old(self)@, code@)
                    &&& room_at(old(self)@, code@).players.len() >= 2
                    &&& final(self)@ == old(self)@
                },
            },
    {
        match self.find_index(code) {
            None => Err(JoinError::RoomNotFound),
            Some(idx) => {
                proof {
                    lemma_index_of_code(old(self)@, code@, idx as int);
                }
                if self.rooms[idx].players.len() >= 2 {
                    return Err(JoinError::RoomFull);
                }
                let mut room = self.rooms.remove(idx);
                let p = Player { id, name, score: 0 };
                room.players.push(p);
                let snap = room.snapshot();
                proof {
                    assert(snap@.players =~= old(self)@[idx as int].players.push(p@));
                    assert(snap@ =~= joined_room(room_at(old(self)@, code@), name@, id@));
                }
                self.rooms.insert(idx, room);
                proof {
                    assert(self@ =~= old(self)@.update(idx as int, snap@));
                    lemma_replace_same_code(old(self)@, code@, snap@, idx as int);
                    assert forall|i: int| 0 <= i < self@.len() implies room_wf(#[trigger] self@[i]) by {
                        assert(room_wf(old(self)@[i]));
                    }
                }
                Ok(snap)
            },
        }
    }

    /// Appends a freshly identified player with the given name to the room
    /// under `code`, if that room exists and has space. A failed join
    /// leaves the registry exactly as it was.
    pub fn join(&mut self, code: &String, name: String) -> (r: Result<Room, JoinError>)
        requires
            old(self).wf(),
        ensures
            final(self).wf(),
            join_step(old(self)@, final(self)@, code@, r is Ok),
            match r {
                Ok(room) => {
                    &&& contains_code(old(self)@, code@)
                    &&& room_at(old(self)@, code@).players.len() < 2
                    &&& room@ == joined_room(room_at(old(self)@, code@), name@, room@.players.last().id)
                    &&& room@.players.last().name == name@
                    &&& room@.players.last().score == 0
                    &&& room@.players.len() == 2
                    &&& room_wf(room@)
                    &&& final(self)@ == replace_room(old(self)@, code@, room@)
                    &&& contains_code(final(self)@, code@)
                    &&& room_at(final(self)@, code@) == room@
                },
                Err(JoinError::RoomNotFound) => !contains_code(old(self)@, code@) && final(self)@ == old(self)@,
                Err(JoinError::RoomFull) => {
                    &&& contains_code(old(self)@, code@)
                    &&& room_at(old(self)@, code@).players.len() >= 2
                    &&& final(self)@ == old(self)@
                },
            },
    {
        let id = fresh_player_id();
        self.join_with_id(code, name, id)
    }
}

} // verus!
