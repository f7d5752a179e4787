//! What each seat of a lobby is shown of the game while it is played: its
//! cards, each with where it lies, what it is attached to and the abilities
//! it offers, and its player's mana and health.
use vstd::prelude::*;
use crate::activation::{abilities_are, owner_of, owner_turn};
use crate::card::{Card, owner_counts_costs, same_card};
use crate::game::{FrontendCardTarget, FrontendPileName, Game, GameStatus, holds_card, locates, pile_holds};
use crate::lobby::{CardWithDetails, GameState, Lobby, PlayerState, PublicPlayerInfo, status_advanced};
use crate::public_info::{game_shown, state_showable};
use crate::stat::{StatType, Stats};

verus! {

/// `d` shows the card `c` as it lies in the game `g`: a copy of it, its first
/// place at the table, the place of the card it is attached to when that can
/// be found, and the abilities it offers there in the current phase.
pub open spec fn shown_in_game(g: Game, c: Card, d: CardWithDetails) -> bool {
    &&& same_card(d.card, c)
    &&& locates(g.players@, c.id@, d.frontend_target)
    &&& match c.attached {
        None => d.attached_to is None,
        Some(a) => match d.attached_to {
            Some(t) => locates(g.players@, a@, t),
            None => forall|pi: int| 0 <= pi < g.players@.len() ==> !holds_card(#[trigger] g.players@[pi], a@),
        },
    }
    &&& abilities_are(c, g.current_turn.unwrap().phase, d.frontend_target.pile == FrontendPileName::Play,
        owner_of(g.players@, c), owner_turn(g, c), d.abilities@)
}

/// The card's owner, when at the table, can count the costs of its abilities.
pub open spec fn owner_can_count(g: Game, c: Card) -> bool {
    match owner_of(g.players@, c) {
        Some(p) => owner_counts_costs(c, Some(&p)),
        None => true,
    }
}

/// What `from_card_arc` asks: the turn is under way, someone at the table
/// holds the card, and its owner can count its costs.
pub open spec fn showable_card(g: Game, c: Card) -> bool {
    &&& g.current_turn is Some
    &&& exists|pi: int| 0 <= pi < g.players@.len() && holds_card(#[trigger] g.players@[pi], c.id@)
    &&& owner_can_count(g, c)
}

/// The cards shown one by one as they lie in the game.
pub open spec fn all_shown(g: Game, cs: Seq<Card>, ds: Seq<CardWithDetails>) -> bool {
    &&& ds.len() == cs.len()
    &&& forall|k: int| 0 <= k < cs.len() ==> shown_in_game(g, #[trigger] cs[k], ds[k])
}

impl CardWithDetails {
    /// The card as the client is shown it in the game: where it lies, where
    /// the card it is attached to lies, and the abilities it offers there in
    /// the current phase.
    pub fn from_card_arc(game: &Game, card: &Card) -> (d: CardWithDetails)
        requires
            showable_card(*game, *card),
        ensures
            shown_in_game(*game, *card, d),
    {
        let phase = game.current_phase();
        let frontend_target = match game.frontend_target_from_card(card) {
            Ok(t) => t,
            Err(_) => {
                proof {
                    let pi = choose|pi: int| 0 <= pi < game.players@.len() && holds_card(#[trigger] game.players@[pi], card.id@);
                    assert(!holds_card(game.players@[pi], card.id@));
                }
                FrontendCardTarget { player_id: String::new(), pile: FrontendPileName::Deck, card_index: 0 }
            },
        };
        let attached_to = match &card.attached {
            Some(a) => game.locate_card(a),
            None => None,
        };
        let in_play = frontend_target.pile == FrontendPileName::Play;
        let (owner, is_owner_turn) = game.owner_info(card);
        let abilities = match owner {
            Some(o) => card.abilities(phase, in_play, Some(&game.players[o]), is_owner_turn, None),
            None => card.abilities(phase, in_play, None, is_owner_turn, None),
        };
        proof {
            reveal(abilities_are);
        }
        CardWithDetails { card: card.copy(), frontend_target, abilities, attached_to }
    }
}

/// Shows each of the cards as it lies in the game.
fn show_cards(game: &Game, cards: &Vec<Card>) -> (r: Vec<CardWithDetails>)
    requires
        forall|k: int| 0 <= k < cards@.len() ==> showable_card(*game, #[trigger] cards@[k]),
    ensures
        all_shown(*game, cards@, r@),
{
    let mut r: Vec<CardWithDetails> = Vec::new();
    let mut k: usize = 0;
    while k < cards.len()
        invariant
            k <= cards@.len(),
            forall|k: int| 0 <= k < cards@.len() ==> showable_card(*game, #[trigger] cards@[k]),
            r@.len() == k,
            forall|j: int| 0 <= j < k ==> shown_in_game(*game, #[trigger] cards@[j], r@[j]),
        decreases cards@.len() - k,
    {
        let d = CardWithDetails::from_card_arc(game, &cards[k]);
        r.push(d);
        k = k + 1;
    }
    r
}

/// The seat's view refreshed from the game `g`: its hand, its cards in play
/// and its spells shown as they lie, and the size of its hand and the mana
/// and health of its player; nothing else changes.
pub open spec fn seat_refreshed(g: Game, s0: PlayerState, s1: PlayerState) -> bool {
    let p = g.players@[s0.player_index as int];
    &&& all_shown(g, p.cards_in_hand@, s1.hand@)
    &&& all_shown(g, p.cards_in_play@, s1.public_info.cards_in_play@)
    &&& all_shown(g, p.spells@, s1.public_info.spells@)
    &&& s1 == (PlayerState {
        hand: s1.hand,
        public_info: PublicPlayerInfo {
            cards_in_play: s1.public_info.cards_in_play,
            spells: s1.public_info.spells,
            hand_size: p.cards_in_hand@.len() as i32,
            mana_pool: p.mana_pool,
            health: p.stat_manager.total(StatType::Health) as i16,
            ..s0.public_info
        },
        ..s0
    })
}

/// Every card in the hand, in play and among the spells of the player can be
/// shown, the hand's size fits an `i32`, and the player's health an `i16`.
pub open spec fn player_viewable(g: Game, pi: int) -> bool {
    let p = g.players@[pi];
    &&& p.cards_in_hand@.len() <= i32::MAX
    &&& p.stat_manager.stats@.len() < 0x1_0000_0000
    &&& i16::MIN <= p.stat_manager.total(StatType::Health) <= i16::MAX
    &&& forall|k: int| 0 <= k < p.cards_in_hand@.len() ==> owner_can_count(g, #[trigger] p.cards_in_hand@[k])
    &&& forall|k: int| 0 <= k < p.cards_in_play@.len() ==> owner_can_count(g, #[trigger] p.cards_in_play@[k])
    &&& forall|k: int| 0 <= k < p.spells@.len() ==> owner_can_count(g, #[trigger] p.spells@[k])
}

/// What refreshing a lobby in game asks: the game can be shown, its turn is
/// under way, and every seat names a player at the table whose cards can be
/// shown.
pub open spec fn lobby_viewable(l: Lobby) -> bool {
    &&& state_showable(l.game)
    &&& l.game.current_turn is Some
    &&& forall|i: int| 0 <= i < l.data.game_state.players@.len() ==> {
        let pi = (#[trigger] l.data.game_state.players@[i]).1.player_index;
        &&& 0 <= pi < l.game.players@.len()
        &&& player_viewable(l.game, pi as int)
    }
}

/// A card in a pile of a player at the table can be shown when its owner
/// can count its costs.
proof fn lemma_pile_showable(g: Game, pi: int, cards: Seq<Card>, which: FrontendPileName)
    requires
        0 <= pi < g.players@.len(),
        g.current_turn is Some,
        which == FrontendPileName::Hand || which == FrontendPileName::Play || which == FrontendPileName::Spell,
        cards == crate::game::pile_of(g.players@[pi], which),
        forall|k: int| 0 <= k < cards.len() ==> owner_can_count(g, #[trigger] cards[k]),
    ensures
        forall|k: int| 0 <= k < cards.len() ==> showable_card(g, #[trigger] cards[k]),
{
    assert forall|k: int| 0 <= k < cards.len() implies showable_card(g, #[trigger] cards[k]) by {
        assert(pile_holds(cards, cards[k].id@));
        assert(holds_card(g.players@[pi], cards[k].id@));
    }
}

impl Lobby {
    /// Moves the lobby on by one tick. Before the game, its status advances
    /// as `GameState::advance_status` does, and the result says whether the
    /// game is to start now. In game, what every player is shown of the game
    /// is taken anew, and each seat's view refreshed from its player.
    pub fn update_game_state(&mut self) -> (start: bool)
        requires
            match old(self).data.game_state.status {
                GameStatus::WaitingForStart(d) => d > i32::MIN,
                GameStatus::InGame => lobby_viewable(*old(self)),
                GameStatus::NeedsPlayers => true,
            },
        ensures
            final(self).game == old(self).game,
            final(self).data.join_code == old(self).data.join_code,
            final(self).data.chat == old(self).data.chat,
            !(old(self).data.game_state.status is InGame) ==>
                status_advanced(old(self).data.game_state, final(self).data.game_state, start),
            old(self).data.game_state.status is InGame ==> {
                let s0 = old(self).data.game_state;
                let s1 = final(self).data.game_state;
                &&& !start
                &&& game_shown(old(self).game, s1.public_info)
                &&& s1 == (GameState { players: s1.players, public_info: s1.public_info, ..s0 })
                &&& s1.players@.len() == s0.players@.len()
                &&& forall|i: int| 0 <= i < s0.players@.len() ==> {
                    &&& (#[trigger] s1.players@[i]).0 == s0.players@[i].0
                    &&& seat_refreshed(old(self).game, s0.players@[i].1, s1.players@[i].1)
                }
            },
    {
        match self.data.game_state.status {
            GameStatus::InGame => {},
            _ => {
                return self.data.game_state.advance_status();
            },
        }
        let info = self.get_state();
        self.data.game_state.public_info = info;
        let ghost g = self.game;
        let ghost seats0 = self.data.game_state.players@;
        let n = self.data.game_state.players.len();
        let mut i: usize = 0;
        while i < n
            invariant
                n == seats0.len(),
                i <= n,
                self.game == g,
                lobby_viewable(*old(self)),
                old(self).game == g,
                seats0 == old(self).data.game_state.players@,
                self.data.game_state.players@.len() == n,
                self.data.join_code == old(self).data.join_code,
                self.data.chat == old(self).data.chat,
                game_shown(g, self.data.game_state.public_info),
                self.data.game_state == (GameState { players: self.data.game_state.players, public_info: self.data.game_state.public_info, ..old(self).data.game_state }),
                forall|j: int| 0 <= j < i ==> {
                    &&& (#[trigger] self.data.game_state.players@[j]).0 == seats0[j].0
                    &&& seat_refreshed(g, seats0[j].1, self.data.game_state.players@[j].1)
                },
                forall|j: int| i <= j < n ==> #[trigger] self.data.game_state.players@[j] == seats0[j],
            decreases n - i,
        {
            let (user, mut seat) = self.data.game_state.players.remove(i);
            let ghost s0 = seat;
            proof {
                assert(seats0[i as int] == (user, s0));
                assert(0 <= seats0[i as int].1.player_index < g.players@.len());
            }
            let pi = seat.player_index as usize;
            proof {
                lemma_pile_showable(g, pi as int, g.players@[pi as int].cards_in_hand@, FrontendPileName::Hand);
                lemma_pile_showable(g, pi as int, g.players@[pi as int].cards_in_play@, FrontendPileName::Play);
                lemma_pile_showable(g, pi as int, g.players@[pi as int].spells@, FrontendPileName::Spell);
            }
            let hand = show_cards(&self.game, &self.game.players[pi].cards_in_hand);
            let cards_in_play = show_cards(&self.game, &self.game.players[pi].cards_in_play);
            let spells = show_cards(&self.game, &self.game.players[pi].spells);
            seat.public_info.spells = spells;
            seat.public_info.hand_size = hand.len() as i32;
            seat.public_info.cards_in_play = cards_in_play;
            seat.public_info.mana_pool = self.game.players[pi].mana_pool;
            seat.public_info.health = self.game.players[pi].stat_manager.get_stat_value(StatType::Health);
            seat.hand = hand;
            proof {
                assert(seat_refreshed(g, s0, seat));
            }
            let ghost before = self.data.game_state.players@;
            self.data.game_state.players.insert(i, (user, seat));
            proof {
                assert forall|j: int| 0 <= j < i + 1 implies {
                    &&& (#[trigger] self.data.game_state.players@[j]).0 == seats0[j].0
                    &&& seat_refreshed(g, seats0[j].1, self.data.game_state.players@[j].1)
                } by {
                    if j < i {
                        assert(self.data.game_state.players@[j] == before[j]);
                    }
                }
                assert forall|j: int| i + 1 <= j < n implies #[trigger] self.data.game_state.players@[j] == seats0[j] by {
                    assert(self.data.game_state.players@[j] == before[j - 1]);
                }
            }
            i = i + 1;
        }
        false
    }
}

} // verus!
