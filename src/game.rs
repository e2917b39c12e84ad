//! The guessing game: one commitment, one guess per participant, and a reveal
//! that names the first guess opening the commitment.
use crate::commitment::{
    commitment_of, digest_views, first_opening, first_opening_from, hash_with_salt,
};
use vstd::prelude::*;

verus! {

/// An already authenticated caller, known by its 32 bytes.
#[derive(Clone, Copy, Debug)]
pub struct AccountId(pub [u8; 32]);

impl View for AccountId {
    type V = Seq<u8>;

    open spec fn view(&self) -> Seq<u8> {
        self.0@
    }
}

impl PartialEq for AccountId {
    fn eq(&self, other: &AccountId) -> (r: bool) {
        let mut i: usize = 0;
        while i < 32
            invariant
                0 <= i <= 32,
                self.0@.len() == 32,
                other.0@.len() == 32,
                forall|j: int| 0 <= j < i ==> self.0@[j] == other.0@[j],
            decreases 32 - i,
        {
            if self.0[i] != other.0[i] {
                return false;
            }
            i += 1;
        }
        assert(self.0@ =~= other.0@);
        true
    }
}

impl vstd::std_specs::cmp::PartialEqSpecImpl for AccountId {
    open spec fn obeys_eq_spec() -> bool {
        true
    }

    open spec fn eq_spec(&self, other: &AccountId) -> bool {
        self@ == other@
    }
}

impl Eq for AccountId {

}

/// Why a guess was turned down.
#[derive(Clone, Copy, Debug, PartialEq, Eq, Structural)]
pub enum GuessError {
    /// A winner has already been named.
    AlreadyResolved,
    /// The caller has already guessed.
    DuplicateParticipant,
}

/// A guess as a value: the caller's bytes, the display name, the guessed byte.
pub type GuessView = (Seq<u8>, Seq<char>, u8);

/// The abstract state of a game.
pub struct GameModel {
    /// The commitment fixed when the game was created.
    pub committed: Seq<u8>,
    /// The accepted guesses, in the order they were made.
    pub guesses: Seq<GuessView>,
    /// The winner's display name, once one has been named.
    pub winner: Option<Seq<char>>,
}

/// A game that has just been created on the commitment `committed`.
pub open spec fn fresh_game(committed: Seq<u8>) -> GameModel {
    GameModel { committed, guesses: Seq::empty(), winner: None }
}

/// Whether the caller `id` has made one of `guesses`.
pub open spec fn has_guessed(guesses: Seq<GuessView>, id: Seq<u8>) -> bool {
    exists|i: int| 0 <= i < guesses.len() && #[trigger] guesses[i].0 == id
}

/// No caller has made two of `guesses`.
pub open spec fn one_guess_each(guesses: Seq<GuessView>) -> bool {
    forall|i: int, j: int|
        0 <= i < j < guesses.len() ==> #[trigger] guesses[i].0 != #[trigger] guesses[j].0
}

/// What a guess by `id` returns in the state `m`.
pub open spec fn guess_outcome(m: GameModel, id: Seq<u8>, name: Seq<char>, value: u8) -> Result<
    (),
    GuessError,
> {
    if m.winner is Some {
        Err(GuessError::AlreadyResolved)
    } else if has_guessed(m.guesses, id) {
        Err(GuessError::DuplicateParticipant)
    } else {
        Ok(())
    }
}

/// The state after a guess by `id` in the state `m`: the guess is appended
/// when it is accepted, and nothing changes when it is turned down.
pub open spec fn after_guess(m: GameModel, id: Seq<u8>, name: Seq<char>, value: u8) -> GameModel {
    if guess_outcome(m, id, name, value) is Ok {
        GameModel { guesses: m.guesses.push((id, name, value)), ..m }
    } else {
        m
    }
}

/// The commitment of each guessed value under `salt`.
pub open spec fn guess_digests(guesses: Seq<GuessView>, salt: Seq<char>) -> Seq<Seq<u8>> {
    guesses.map_values(|g: GuessView| commitment_of(g.2, salt))
}

/// The name of the first guess, in the order they were made, such that both
/// its value and `secret` open the commitment under `salt`; `None` if no guess
/// does.
pub open spec fn revealed_winner(m: GameModel, secret: u8, salt: Seq<char>) -> Option<Seq<char>> {
    match first_opening_from(
        guess_digests(m.guesses, salt),
        commitment_of(secret, salt),
        m.committed,
        0,
    ) {
        Some(i) => Some(m.guesses[i].1),
        None => None,
    }
}

/// The state after revealing `secret` and `salt` in the state `m`. A winner
/// that was already named stays; otherwise the revealed winner, if any, is
/// recorded.
pub open spec fn after_resolve(m: GameModel, secret: u8, salt: Seq<char>) -> GameModel {
    if m.winner is Some {
        m
    } else {
        GameModel { winner: revealed_winner(m, secret, salt), ..m }
    }
}

/// In a new game the first guess of a caller is accepted and is then the only
/// guess; a second guess by the same caller is turned down as a duplicate and
/// leaves the state as it was.
pub proof fn lemma_first_guess_then_repeat(
    committed: Seq<u8>,
    id: Seq<u8>,
    name: Seq<char>,
    value: u8,
    second_name: Seq<char>,
    second_value: u8,
)
    ensures
        guess_outcome(fresh_game(committed), id, name, value) is Ok,
        after_guess(fresh_game(committed), id, name, value).guesses == seq![(id, name, value)],
        guess_outcome(after_guess(fresh_game(committed), id, name, value), id, second_name, second_value)
            == Err::<(), GuessError>(GuessError::DuplicateParticipant),
        after_guess(after_guess(fresh_game(committed), id, name, value), id, second_name, second_value)
            == after_guess(fresh_game(committed), id, name, value),
{
    let m1 = after_guess(fresh_game(committed), id, name, value);
    assert(m1.guesses =~= seq![(id, name, value)]);
    assert(m1.guesses[0].0 == id);
}

/// Once a winner has been named, every guess is turned down with
/// `AlreadyResolved` and the state, its guesses included, stays as it was.
pub proof fn lemma_resolved_game_rejects_guesses(
    m: GameModel,
    id: Seq<u8>,
    name: Seq<char>,
    value: u8,
)
    requires
        m.winner is Some,
    ensures
        guess_outcome(m, id, name, value) == Err::<(), GuessError>(GuessError::AlreadyResolved),
        after_guess(m, id, name, value) == m,
        after_guess(m, id, name, value).guesses.len() == m.guesses.len(),
{
}

/// Revealing the same secret and salt twice has the effect of revealing them
/// once.
pub proof fn lemma_resolve_idempotent(m: GameModel, secret: u8, salt: Seq<char>)
    ensures
        after_resolve(after_resolve(m, secret, salt), secret, salt) == after_resolve(
            m,
            secret,
            salt,
        ),
{
}

/// Every operation keeps the commitment, only ever appends to the guesses, and
/// never replaces a winner that was named.
pub proof fn lemma_state_is_kept(
    m: GameModel,
    id: Seq<u8>,
    name: Seq<char>,
    value: u8,
    secret: u8,
    salt: Seq<char>,
)
    ensures
        after_guess(m, id, name, value).committed == m.committed,
        after_guess(m, id, name, value).guesses == m.guesses || after_guess(
            m,
            id,
            name,
            value,
        ).guesses == m.guesses.push((id, name, value)),
        after_guess(m, id, name, value).winner == m.winner,
        after_resolve(m, secret, salt).committed == m.committed,
        after_resolve(m, secret, salt).guesses == m.guesses,
        m.winner is Some ==> after_resolve(m, secret, salt).winner == m.winner,
{
}

/// Guessing keeps every caller down to one guess.
pub proof fn lemma_guess_keeps_one_guess_each(
    m: GameModel,
    id: Seq<u8>,
    name: Seq<char>,
    value: u8,
)
    requires
        one_guess_each(m.guesses),
    ensures
        one_guess_each(after_guess(m, id, name, value).guesses),
{
    if guess_outcome(m, id, name, value) is Ok {
        let gs = after_guess(m, id, name, value).guesses;
        assert forall|i: int, j: int| 0 <= i < j < gs.len() implies #[trigger] gs[i].0
            != #[trigger] gs[j].0 by {
            if j == gs.len() - 1 {
                assert(m.guesses[i].0 == gs[i].0);
            } else {
                assert(m.guesses[i] == gs[i] && m.guesses[j] == gs[j]);
            }
        }
    }
}

/// A commit-reveal guessing game.
pub struct GuessSecret {
    secret_hash: [u8; 16],
    guesses: Vec<(AccountId, String, u8)>,
    winner: Option<String>,
    participants: Vec<AccountId>,
}

impl View for GuessSecret {
    type V = GameModel;

    closed spec fn view(&self) -> GameModel {
        GameModel {
            committed: self.secret_hash@,
            guesses: self.guesses@.map_values(|g: (AccountId, String, u8)| g@),
            winner: match self.winner {
                Some(w) => Some(w@),
                None => None,
            },
        }
    }
}

impl GuessSecret {
    /// The participant list mirrors the callers of the guesses, and no caller
    /// has guessed twice.
    pub closed spec fn wf(&self) -> bool {
        &&& self.participants@.len() == self.guesses@.len()
        &&& forall|i: int|
            0 <= i < self.guesses@.len() ==> #[trigger] self.participants@[i]@
                == self.guesses@[i].0@
        &&& one_guess_each(self@.guesses)
    }

    /// Creates a game on the commitment `hash`.
    pub fn new(hash: [u8; 16]) -> (r: Self)
        ensures
            r.wf(),
            r@ == fresh_game(hash@),
            r@.winner is None,
            r@.guesses.len() == 0,
    {
        let r = GuessSecret {
            secret_hash: hash,
            guesses: Vec::new(),
            winner: None,
            participants: Vec::new(),
        };
        assert(r@.guesses =~= Seq::<GuessView>::empty());
        r
    }

    /// The guesses made so far, in the order they were made.
    pub fn guesses(&self) -> (r: Vec<(AccountId, String, u8)>)
        ensures
            r@.map_values(|g: (AccountId, String, u8)| g@) == self@.guesses,
    {
        let mut out: Vec<(AccountId, String, u8)> = Vec::new();
        let mut i: usize = 0;
        while i < self.guesses.len()
            invariant
                0 <= i <= self.guesses@.len(),
                out@.len() == i,
                forall|j: int| 0 <= j < i ==> #[trigger] out@[j]@ == self.guesses@[j]@,
            decreases self.guesses@.len() - i,
        {
            let g = &self.guesses[i];
            out.push((g.0, g.1.clone(), g.2));
            i += 1;
        }
        assert(out@.map_values(|g: (AccountId, String, u8)| g@) =~= self@.guesses);
        out
    }

    /// The winner's display name, if one has been named.
    pub fn winner(&self) -> (r: Option<String>)
        ensures
            r is None <==> self@.winner is None,
            r matches Some(w) ==> self@.winner == Some(w@),
    {
        match &self.winner {
            Some(w) => Some(w.clone()),
            None => None,
        }
    }

    /// Whether `id` has guessed already.
    fn has_played(&self, id: &AccountId) -> (r: bool)
        requires
            self.wf(),
        ensures
            r == has_guessed(self@.guesses, id@),
    {
        let mut i: usize = 0;
        while i < self.participants.len()
            invariant
                self.wf(),
                0 <= i <= self.participants@.len(),
                forall|j: int| 0 <= j < i ==> #[trigger] self.participants@[j]@ != id@,
            decreases self.participants@.len() - i,
        {
            if self.participants[i] == *id {
                assert(self@.guesses[i as int].0 == id@);
                return true;
            }
            i += 1;
        }
        assert forall|j: int| 0 <= j < self@.guesses.len() implies #[trigger] self@.guesses[j].0
            != id@ by {
            assert(self.participants@[j]@ != id@);
        }
        false
    }

    /// Reveals the secret and its salt. If no winner has been named yet, the
    /// first guess whose value opens the commitment, while the secret opens it
    /// too, becomes the winner.
    pub fn select_winner(&mut self, secret: u8, salt: String)
        requires
            old(self).wf(),
        ensures
            final(self).wf(),
            final(self)@ == after_resolve(old(self)@, secret, salt@),
    {
        if self.winner.is_some() {
            return ;
        }
        let secret_digest = hash_with_salt(secret, salt.as_str());
        let mut digests: Vec<[u8; 16]> = Vec::new();
        let mut i: usize = 0;
        while i < self.guesses.len()
            invariant
                0 <= i <= self.guesses@.len(),
                digests@.len() == i,
                forall|j: int|
                    0 <= j < i ==> (#[trigger] digests@[j])@ == commitment_of(
                        self.guesses@[j].2,
                        salt@,
                    ),
            decreases self.guesses@.len() - i,
        {
            digests.push(hash_with_salt(self.guesses[i].2, salt.as_str()));
            i += 1;
        }
        assert(digest_views(digests@) =~= guess_digests(self@.guesses, salt@));
        match first_opening(digests.as_slice(), &secret_digest, &self.secret_hash) {
            Some(k) => {
                self.winner = Some(self.guesses[k].1.clone());
            },
            None => {},
        }
    }

    /// Records the guess `guessed_value` of `caller` under the display name
    /// `name`. Fails with `AlreadyResolved` once a winner has been named, and
    /// with `DuplicateParticipant` when `caller` has guessed before; a failed
    /// guess changes nothing.
    pub fn guess(&mut self, caller: AccountId, name: String, guessed_value: u8) -> (r: Result<
        (),
        GuessError,
    >)
        requires
            old(self).wf(),
        ensures
            final(self).wf(),
            r == guess_outcome(old(self)@, caller@, name@, guessed_value),
            final(self)@ == after_guess(old(self)@, caller@, name@, guessed_value),
            one_guess_each(final(self)@.guesses),
    {
        if self.winner.is_some() {
            return Err(GuessError::AlreadyResolved);
        }
        if self.has_played(&caller) {
            return Err(GuessError::DuplicateParticipant);
        }
        let ghost name_view = name@;
        self.participants.push(caller);
        self.guesses.push((caller, name, guessed_value));
        assert(self@.guesses =~= old(self)@.guesses.push((caller@, name_view, guessed_value)));
        Ok(())
    }
}

} // verus!
