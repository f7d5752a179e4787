//! Lobbies: the players gathering for a game, their chat, their choice of
//! deck, and how a lobby moves from gathering to playing.
use vstd::prelude::*;
use crate::action::CardRequiredTarget;
use crate::card::{Card, same_card, card_useless};
use crate::game::{AbilityDetails, ActionType, Attack, Block, FrontendCardTarget, FrontendPileName, FrontendTarget, Game, GameStatus, PlayerStatus, PriorityQueue};
use crate::mana::{ManaPool, ManaType};
use crate::player::Player;
use crate::turn::{Turn, TurnPhase};
use crate::deck::Deck;

verus! {

/// A line of a lobby's chat.
pub struct LobbyChat {
    pub user_id: String,
    pub message: String,
}

impl LobbyChat {
    /// A chat line by the given user.
    pub fn new(user_id: String, message: String) -> (c: Self)
        ensures
            c.user_id == user_id,
            c.message == message,
    {
        Self { user_id, message }
    }
}

/// The ready-made decks a player can pick.
#[derive(Debug, Clone, Copy, PartialEq, Eq, Structural)]
pub enum DeckSelector {
    Angels,
}

/// The messages of the current turn, as the clients are sent them.
pub struct LobbyTurnMessage {
    pub messages: Vec<String>,
}

/// A player's answer to an ability they must use.
pub struct RespondMandatoryAbility {
    pub code: String,
    pub target: Option<FrontendTarget>,
    pub ability_id: String,
}

/// A player's answer to an ability they may use.
pub struct RespondOptionalAbility {
    pub code: String,
    pub target: Option<FrontendTarget>,
    pub ability_id: String,
    pub response: bool,
}

/// A request to use an ability of a card.
pub struct ActionCardArgs {
    pub trigger_id: String,
    pub code: String,
    pub player_index: i32,
    pub in_play_index: i32,
    pub target: Option<FrontendTarget>,
}

/// A request to pick a deck.
pub struct SelectDeckArgs {
    pub code: String,
    pub deck: DeckSelector,
}

/// A request to play a card from the hand.
pub struct PlayCardArgs {
    pub code: String,
    pub in_hand_index: i32,
    pub target: Option<FrontendTarget>,
}

/// A request to list accounts.
pub struct ListAccountArgs {}

/// A request to create an account.
pub struct CreateAccountArgs {
    pub url: String,
    pub issuer: String,
    pub username: String,
}

/// A chat line sent to a lobby.
pub struct LobbyChatArgs {
    pub lobby_id: String,
    pub text: String,
}

/// The requests a client can make of a lobby.
pub struct LobbyController {}

/// A card as the client is shown it: where it lies, its abilities, and the
/// card it is attached to.
pub struct CardWithDetails {
    pub card: Card,
    pub frontend_target: FrontendCardTarget,
    pub abilities: Vec<AbilityDetails>,
    pub attached_to: Option<FrontendCardTarget>,
}

/// A card of a deck and how many copies of it the deck holds.
pub struct CardWithCount {
    pub card: CardWithDetails,
    pub count: i32,
}

/// The cards of a deck, grouped by name.
pub struct DeckDetails {
    pub cards: Vec<CardWithCount>,
}

/// What every player at the table sees of a player.
pub struct PublicPlayerInfo {
    pub hand_size: i32,
    pub cards_in_play: Vec<CardWithDetails>,
    pub spells: Vec<CardWithDetails>,
    pub mana_pool: ManaPool,
    pub health: i16,
    pub luck_tokens: i16,
}

/// What every player sees of the game.
pub struct PublicGameInfo {
    pub current_turn: Option<Turn>,
    pub priority_queue: Option<PriorityQueue>,
    pub attacks: Vec<Attack>,
    pub blocks: Vec<Block>,
}

/// A seat of a lobby: what its player is shown, its status, whether it leads
/// the lobby, its seat at the game table, and the deck it picked.
pub struct PlayerState {
    pub public_info: PublicPlayerInfo,
    pub hand: Vec<CardWithDetails>,
    pub discard_pile: Vec<CardWithDetails>,
    pub status: PlayerStatus,
    pub is_leader: bool,
    pub player_index: i32,
    pub priority_queue: Option<PriorityQueue>,
    pub deck: DeckSelector,
    pub sub: String,
}

/// The seats of a lobby by user id, what is public of the game, where the
/// lobby stands, and its join code.
pub struct GameState {
    pub players: Vec<(String, PlayerState)>,
    pub public_info: PublicGameInfo,
    pub status: GameStatus,
    pub code: String,
}

/// What a lobby shares with its clients.
pub struct LobbyData {
    pub join_code: String,
    pub chat: Vec<LobbyChat>,
    pub game_state: GameState,
}

/// A lobby and the game it runs.
pub struct Lobby {
    pub data: LobbyData,
    pub game: Game,
}

/// An ability a player is asked to use, with the card it belongs to.
pub struct ExecuteAbility {
    pub card: CardWithDetails,
    pub details: AbilityDetails,
    pub player_id: String,
}

/// Cards a player is asked to choose from.
pub struct CardSelectionDetails {
    pub player_id: String,
    pub cards: Vec<CardWithDetails>,
}

/// What a lobby sends its clients.
pub enum LobbyCommand {
    Updated(LobbyData),
    Messages(Vec<String>),
    DebugMessage(String),
    TurnMessages(LobbyTurnMessage),
    AskExecuteAbility(ExecuteAbility),
    MandatoryExecuteAbility(ExecuteAbility),
    ChooseFromSelection(CardSelectionDetails),
}

/// The position of the seat of the given user, if it has one.
pub open spec fn seat_of(players: Seq<(String, PlayerState)>, user: Seq<char>) -> Option<int> {
    if exists|i: int| 0 <= i < players.len() && (#[trigger] players[i]).0@ == user {
        Some(choose|i: int| 0 <= i < players.len() && (#[trigger] players[i]).0@ == user
            && forall|j: int| 0 <= j < i ==> (#[trigger] players[j]).0@ != user)
    } else {
        None
    }
}

/// The first seat of the given user.
fn find_seat(players: &Vec<(String, PlayerState)>, user: &String) -> (r: Option<usize>)
    ensures
        match r {
            Some(i) => i < players@.len() && players@[i as int].0@ == user@
                && forall|j: int| 0 <= j < i ==> (#[trigger] players@[j]).0@ != user@,
            None => forall|j: int| 0 <= j < players@.len() ==> (#[trigger] players@[j]).0@ != user@,
        },
{
    let mut i: usize = 0;
    while i < players.len()
        invariant
            i <= players@.len(),
            forall|j: int| 0 <= j < i ==> (#[trigger] players@[j]).0@ != user@,
        decreases players@.len() - i,
    {
        if players[i].0 == *user {
            return Some(i);
        }
        i = i + 1;
    }
    None
}

/// `d` shows `card` outside the table: placed nowhere, with the abilities it
/// has in play in the main phase.
pub open spec fn shown_outside(d: CardWithDetails, card: Card) -> bool {
    &&& d.card == card
    &&& d.frontend_target.player_id@.len() == 0
    &&& d.frontend_target.pile == FrontendPileName::Deck
    &&& d.frontend_target.card_index == 0
    &&& d.attached_to.is_none()
    &&& d.abilities@.len() == crate::card::ability_positions(card.triggers@, TurnPhase::Main).len()
    &&& forall|k: int| 0 <= k < d.abilities@.len() ==> {
        let i = crate::card::ability_positions(card.triggers@, TurnPhase::Main)[k];
        crate::card::is_trigger_ability(#[trigger] d.abilities@[k], card.triggers@[i], card, TurnPhase::Main, true, None, None, None)
    }
}

impl CardWithDetails {
    /// A card as the client is shown it outside the table: placed nowhere,
    /// with the abilities it has in play in the main phase.
    pub fn from_card(card: Card) -> (d: CardWithDetails)
        ensures
            shown_outside(d, card),
    {
        let abilities = card.abilities(TurnPhase::Main, true, None, None, None);
        CardWithDetails {
            card,
            abilities,
            frontend_target: FrontendCardTarget { player_id: String::new(), pile: FrontendPileName::Deck, card_index: 0 },
            attached_to: None,
        }
    }
}

impl PlayerState {
    /// The seat of a newcomer: a spectator with the angels deck, full
    /// health shown, nothing else.
    pub fn from_player(player_index: i32, sub: String) -> (s: PlayerState)
        ensures
            s.player_index == player_index,
            s.sub == sub,
            s.status == PlayerStatus::Spectator,
            !s.is_leader,
            s.deck == DeckSelector::Angels,
            s.hand@.len() == 0,
            s.discard_pile@.len() == 0,
            s.priority_queue.is_none(),
            s.public_info.health == 20,
            s.public_info.hand_size == 0,
            s.public_info.luck_tokens == 0,
            s.public_info.cards_in_play@.len() == 0,
            s.public_info.spells@.len() == 0,
            s.public_info.mana_pool == ManaPool::empty(),
    {
        PlayerState {
            public_info: PublicPlayerInfo {
                cards_in_play: Vec::new(),
                spells: Vec::new(),
                hand_size: 0,
                mana_pool: ManaPool::new(),
                health: 20,
                luck_tokens: 0,
            },
            deck: DeckSelector::Angels,
            sub,
            hand: Vec::new(),
            discard_pile: Vec::new(),
            status: PlayerStatus::Spectator,
            is_leader: false,
            player_index,
            priority_queue: None,
        }
    }
}

/// One tick of a lobby's status from `s0` to `s1`, and whether the game is
/// to start now: a lobby whose players are all ready, and more than one,
/// starts counting down from five; a counting lobby counts one down and
/// starts its game once it reaches one; nothing else changes.
pub open spec fn status_advanced(s0: GameState, s1: GameState, start: bool) -> bool {
    &&& match s0.status {
        GameStatus::NeedsPlayers => {
            let ready = forall|i: int| 0 <= i < s0.players@.len() ==> (#[trigger] s0.players@[i]).1.status == PlayerStatus::Ready;
            &&& s1.status == (if ready && s0.players@.len() > 1 { GameStatus::WaitingForStart(5) } else { GameStatus::NeedsPlayers })
            &&& !start
        },
        GameStatus::WaitingForStart(d) => {
            &&& start == (d - 1 == 1)
            &&& s1.status == (if d - 1 == 1 { GameStatus::InGame } else { GameStatus::WaitingForStart((d - 1) as i32) })
        },
        GameStatus::InGame => s1.status == GameStatus::InGame && !start,
    }
    &&& s1 == (GameState { status: s1.status, ..s0 })
}

impl GameState {
    /// Moves the lobby on by one tick: a lobby whose players are all ready,
    /// and more than one, starts counting down from five; a counting lobby
    /// counts one down and starts its game once it reaches one. Gives back
    /// whether the game is to start now.
    pub fn advance_status(&mut self) -> (start: bool)
        requires
            match old(self).status {
                GameStatus::WaitingForStart(d) => d > i32::MIN,
                _ => true,
            },
        ensures
            status_advanced(*old(self), *final(self), start),
    {
        match self.status {
            GameStatus::NeedsPlayers => {
                let mut all_ready = true;
                let mut i: usize = 0;
                while i < self.players.len()
                    invariant
                        i <= self.players@.len(),
                        all_ready == forall|j: int| 0 <= j < i ==> (#[trigger] self.players@[j]).1.status == PlayerStatus::Ready,
                    decreases self.players@.len() - i,
                {
                    if self.players[i].1.status != PlayerStatus::Ready {
                        all_ready = false;
                    }
                    i = i + 1;
                }
                if all_ready && self.players.len() > 1 {
                    self.status = GameStatus::WaitingForStart(5);
                }
                false
            },
            GameStatus::WaitingForStart(duration) => {
                self.status = GameStatus::WaitingForStart(duration - 1);
                if duration - 1 == 1 {
                    self.status = GameStatus::InGame;
                    true
                } else {
                    false
                }
            },
            GameStatus::InGame => false,
        }
    }
}

impl Lobby {
    /// A lobby under a fresh join code, joined by the user who opens it.
    pub fn new(user: &String) -> (l: Lobby)
        ensures
            l.data.join_code@.len() == 26,
            l.data.game_state.code@ == l.data.join_code@,
            l.data.chat@.len() == 0,
            l.data.game_state.status == GameStatus::NeedsPlayers,
            l.data.game_state.players@.len() == 1,
            l.data.game_state.players@[0].0@ == user@,
            l.data.game_state.players@[0].1.is_leader,
            l.data.game_state.players@[0].1.player_index == 0,
            l.game.players@.len() == 1,
            l.game.players@[0].name@ == user@,
    {
        let code = crate::rng::new_ulid();
        let mut lobby = Lobby {
            data: LobbyData {
                join_code: code.clone(),
                chat: Vec::new(),
                game_state: GameState {
                    players: Vec::new(),
                    public_info: PublicGameInfo { current_turn: None, priority_queue: None, attacks: Vec::new(), blocks: Vec::new() },
                    status: GameStatus::NeedsPlayers,
                    code,
                },
            },
            game: Game::new(),
        };
        lobby.join(user);
        lobby
    }

    /// Seats the user, unless seated already: a player with the game's
    /// starting health joins the table, and the user's seat records where;
    /// the first seat leads the lobby.
    pub fn join(&mut self, user: &String)
        ensures
            (exists|i: int| 0 <= i < old(self).data.game_state.players@.len() && (#[trigger] old(self).data.game_state.players@[i]).0@ == user@)
                ==> *final(self) == *old(self),
            (forall|i: int| 0 <= i < old(self).data.game_state.players@.len() ==> (#[trigger] old(self).data.game_state.players@[i]).0@ != user@)
                && old(self).game.players@.len() < i32::MAX ==> {
                &&& final(self).game.players@.len() == old(self).game.players@.len() + 1
                &&& final(self).game.players@.drop_last() == old(self).game.players@
                &&& final(self).game.players@.last().name@ == user@
                &&& final(self).game.players@.last().health_at_start_of_round == old(self).game.starting_health
                &&& final(self).data.game_state.players@.len() == old(self).data.game_state.players@.len() + 1
                &&& final(self).data.game_state.players@.drop_last() == old(self).data.game_state.players@
                &&& final(self).data.game_state.players@.last().0@ == user@
                &&& final(self).data.game_state.players@.last().1.player_index == old(self).game.players@.len()
                &&& final(self).data.game_state.players@.last().1.is_leader == (old(self).data.game_state.players@.len() == 0)
                &&& final(self).data.game_state.players@.last().1.status == PlayerStatus::Spectator
                &&& final(self).data.chat == old(self).data.chat
                &&& final(self).data.join_code == old(self).data.join_code
                &&& final(self).data.game_state.status == old(self).data.game_state.status
                &&& final(self).data.game_state.code == old(self).data.game_state.code
            },
    {
        match find_seat(&self.data.game_state.players, user) {
            Some(_) => {},
            None => {
                if self.game.players.len() < 0x7fff_ffff {
                    let player = Player::new(user.as_str(), self.game.starting_health, Vec::new());
                    let index = self.game.add_player(player);
                    let mut state = PlayerState::from_player(index as i32, user.clone());
                    if self.data.game_state.players.len() == 0 {
                        state.is_leader = true;
                    }
                    let ghost before = self.data.game_state.players@;
                    self.data.game_state.players.push((user.clone(), state));
                    proof {
                        assert(self.data.game_state.players@.drop_last() =~= before);
                    }
                }
            },
        }
    }

    /// Records the user's choice of deck.
    pub fn select_deck(&mut self, user: &String, deck: DeckSelector)
        ensures
            final(self).data.game_state.players@.len() == old(self).data.game_state.players@.len(),
            forall|i: int| 0 <= i < old(self).data.game_state.players@.len() ==> {
                let (id, st) = old(self).data.game_state.players@[i];
                #[trigger] final(self).data.game_state.players@[i] == if seat_of(old(self).data.game_state.players@, user@) == Some(i) {
                    (id, PlayerState { deck, ..st })
                } else {
                    (id, st)
                }
            },
            final(self).game == old(self).game,
            final(self).data == (LobbyData {
                game_state: GameState { players: final(self).data.game_state.players, ..old(self).data.game_state },
                ..old(self).data
            }),
    {
        match find_seat(&self.data.game_state.players, user) {
            Some(i) => {
                proof {
                    lemma_seat_of(self.data.game_state.players@, user@, i as int);
                }
                let (id, mut st) = self.data.game_state.players.remove(i);
                st.deck = deck;
                self.data.game_state.players.insert(i, (id, st));
            },
            None => {},
        }
    }

    /// The decks on offer.
    pub fn list_desks(&self) -> (decks: Vec<DeckSelector>)
        ensures
            decks@ == seq![DeckSelector::Angels],
    {
        let mut decks: Vec<DeckSelector> = Vec::new();
        decks.push(DeckSelector::Angels);
        assert(decks@ =~= seq![DeckSelector::Angels]);
        decks
    }

    /// Adds a line to the chat.
    pub fn message(&mut self, user: &String, message: String)
        ensures
            final(self).data.chat@.len() == old(self).data.chat@.len() + 1,
            final(self).data.chat@.drop_last() == old(self).data.chat@,
            final(self).data.chat@.last().user_id@ == user@,
            final(self).data.chat@.last().message == message,
            final(self).game == old(self).game,
            final(self).data.game_state == old(self).data.game_state,
    {
        let ghost before = self.data.chat@;
        self.data.chat.push(LobbyChat::new(user.clone(), message));
        assert(self.data.chat@.drop_last() =~= before);
    }

    /// Marks the user ready and gives their player the picked deck, owned by
    /// them.
    pub fn ready(&mut self, user: &String)
        ensures
            final(self).data.game_state.players@.len() == old(self).data.game_state.players@.len(),
            forall|i: int| 0 <= i < old(self).data.game_state.players@.len() ==> {
                let (id, st) = old(self).data.game_state.players@[i];
                #[trigger] final(self).data.game_state.players@[i] == if seat_of(old(self).data.game_state.players@, user@) == Some(i) {
                    (id, PlayerState { status: PlayerStatus::Ready, ..st })
                } else {
                    (id, st)
                }
            },
            final(self).game.players@.len() == old(self).game.players@.len(),
            forall|pi: int| 0 <= pi < old(self).game.players@.len() ==> {
                let seat = seat_of(old(self).data.game_state.players@, user@);
                let chosen = seat matches Some(i) && old(self).data.game_state.players@[i].1.player_index == pi;
                &&& !chosen ==> #[trigger] final(self).game.players@[pi] == old(self).game.players@[pi]
                &&& chosen ==> final(self).game.players@[pi] == (Player { deck: final(self).game.players@[pi].deck, ..old(self).game.players@[pi] })
                &&& chosen ==> final(self).game.players@[pi].deck.draw_pile@.len() == 13
            },
            final(self).data.chat == old(self).data.chat,
    {
        match find_seat(&self.data.game_state.players, user) {
            Some(i) => {
                proof {
                    lemma_seat_of(self.data.game_state.players@, user@, i as int);
                }
                let (id, mut st) = self.data.game_state.players.remove(i);
                st.status = PlayerStatus::Ready;
                let index = st.player_index;
                let deck_choice = st.deck;
                self.data.game_state.players.insert(i, (id, st));
                if 0 <= index && (index as usize) < self.game.players.len() {
                    let pi = index as usize;
                    let mut p = self.game.players.remove(pi);
                    let mut deck = Deck::new_from_selection(&deck_choice);
                    let name = p.name.clone();
                    deck.set_owner(&name);
                    p.deck = deck;
                    self.game.players.insert(pi, p);
                }
            },
            None => {},
        }
    }
}

pub proof fn lemma_seat_of(players: Seq<(String, PlayerState)>, user: Seq<char>, i: int)
    requires
        0 <= i < players.len(),
        players[i].0@ == user,
        forall|j: int| 0 <= j < i ==> (#[trigger] players[j]).0@ != user,
    ensures
        seat_of(players, user) == Some(i),
{
    let k = choose|k: int| 0 <= k < players.len() && (#[trigger] players[k]).0@ == user
        && forall|j: int| 0 <= j < k ==> (#[trigger] players[j]).0@ != user;
    if k < i {
        assert(players[k].0@ != user);
    } else if i < k {
        assert(players[i].0@ != user);
    }
}

/// Hides from the given user the hands of the other players in a lobby
/// update; other commands pass unchanged.
pub fn personalize_lobby_data_for_player(command: &mut LobbyCommand, user_id: &str)
    ensures
        match *old(command) {
            LobbyCommand::Updated(d0) => *final(command) matches LobbyCommand::Updated(d1) && {
                &&& d1.join_code == d0.join_code
                &&& d1.chat == d0.chat
                &&& d1.game_state.status == d0.game_state.status
                &&& d1.game_state.code == d0.game_state.code
                &&& d1.game_state.players@.len() == d0.game_state.players@.len()
                &&& forall|i: int| 0 <= i < d0.game_state.players@.len() ==> {
                    let (id, st) = d0.game_state.players@[i];
                    &&& (#[trigger] d1.game_state.players@[i]).0 == id
                    &&& d1.game_state.players@[i].1 == PlayerState { hand: d1.game_state.players@[i].1.hand, ..st }
                    &&& if id@ == user_id@ { d1.game_state.players@[i].1.hand == st.hand } else { d1.game_state.players@[i].1.hand@.len() == 0 }
                }
            },
            _ => *final(command) == *old(command),
        },
{
    match command {
        LobbyCommand::Updated(lobby_data) => {
            let uid = user_id.to_string();
            let mut i: usize = 0;
            let ghost p0 = lobby_data.game_state.players@;
            let ghost d0 = *lobby_data;
            while i < lobby_data.game_state.players.len()
                invariant
                    uid@ == user_id@,
                    lobby_data.join_code == d0.join_code,
                    lobby_data.chat == d0.chat,
                    lobby_data.game_state.status == d0.game_state.status,
                    lobby_data.game_state.code == d0.game_state.code,
                    p0 == d0.game_state.players@,
                    i <= lobby_data.game_state.players@.len(),
                    lobby_data.game_state.players@.len() == p0.len(),
                    forall|j: int| i <= j < p0.len() ==> #[trigger] lobby_data.game_state.players@[j] == p0[j],
                    forall|j: int| 0 <= j < i ==> {
                        let (id, st) = p0[j];
                        &&& (#[trigger] lobby_data.game_state.players@[j]).0 == id
                        &&& lobby_data.game_state.players@[j].1 == PlayerState { hand: lobby_data.game_state.players@[j].1.hand, ..st }
                        &&& if id@ == user_id@ { lobby_data.game_state.players@[j].1.hand == st.hand } else { lobby_data.game_state.players@[j].1.hand@.len() == 0 }
                    },
                decreases lobby_data.game_state.players@.len() - i,
            {
                let (id, mut st) = lobby_data.game_state.players.remove(i);
                if id != uid {
                    st.hand = Vec::new();
                }
                lobby_data.game_state.players.insert(i, (id, st));
                i = i + 1;
            }
        },
        _ => {},
    }
}

impl ExecuteAbility {
    /// An ability to put to the given player, shown and marked as the
    /// player's.
    pub fn new(
        player_id: String,
        card: CardWithDetails,
        action_type: ActionType,
        mana_cost: Vec<ManaType>,
        required_target: CardRequiredTarget,
        description: String,
        id: String,
        meets_requirements_except_mana: bool,
        meets_mana_requirements: bool,
        can_pay_mana: bool,
        action: Option<crate::action::CardAction>,
    ) -> (e: Self)
        ensures
            e.player_id == player_id,
            e.card == card,
            e.details == (AbilityDetails {
                mana_cost,
                required_target,
                description,
                action_type,
                show: true,
                id,
                meets_requirements_except_mana,
                meets_mana_requirements,
                can_pay_mana,
                owner_player_id: Some(player_id),
                tap_required: false,
                action,
            }),
    {
        let owner = player_id.clone();
        Self {
            card,
            details: AbilityDetails {
                mana_cost,
                required_target,
                description,
                action_type,
                show: true,
                id,
                meets_requirements_except_mana,
                meets_mana_requirements,
                can_pay_mana,
                owner_player_id: Some(owner),
                tap_required: false,
                action,
            },
            player_id,
        }
    }
}

} // verus!
