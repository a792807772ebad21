//! The mjai vocabulary that the engine crate defines: log events, player
//! actions and tile notation, with the mathematical values they stand for.
use vstd::prelude::*;
use riichienv_core::action::{Action, ActionType};
use riichienv_core::replay::MjaiEvent;

verus! {

/// `riichienv_core::replay::MjaiEvent`, read field by field.
#[verifier::external_type_specification]
pub struct ExMjaiEvent(riichienv_core::replay::MjaiEvent);

/// `riichienv_core::action::ActionType`, read variant by variant.
#[verifier::external_type_specification]
pub struct ExActionType(riichienv_core::action::ActionType);

/// `riichienv_core::action::Action`, read field by field.
#[verifier::external_type_specification]
pub struct ExAction(riichienv_core::action::Action);

/// `riichienv_core::action::Action3P`, read field by field.
#[verifier::external_type_specification]
pub struct ExAction3P(riichienv_core::action::Action3P);

/// What a log event says, with texts as sequences of characters.
#[allow(inconsistent_fields)]
pub enum EventView {
    StartGame { names: Option<Seq<Seq<char>>>, id: Option<Seq<char>> },
    StartKyoku {
        bakaze: Seq<char>,
        kyoku: u8,
        honba: u8,
        kyoutaku: u8,
        oya: u8,
        scores: Seq<i32>,
        dora_marker: Seq<char>,
        tehais: Seq<Seq<Seq<char>>>,
    },
    Tsumo { actor: usize, pai: Seq<char> },
    Dahai { actor: usize, pai: Seq<char>, tsumogiri: bool },
    Pon { actor: usize, target: usize, pai: Seq<char>, consumed: Seq<Seq<char>> },
    Chi { actor: usize, target: usize, pai: Seq<char>, consumed: Seq<Seq<char>> },
    Kan { actor: usize, target: usize, pai: Seq<char>, consumed: Seq<Seq<char>> },
    Kakan { actor: usize, pai: Seq<char> },
    Ankan { actor: usize, consumed: Seq<Seq<char>> },
    Dora { dora_marker: Seq<char> },
    Reach { actor: usize },
    ReachAccepted { actor: usize },
    Hora {
        actor: usize,
        target: usize,
        pai: Option<Seq<char>>,
        uradora_markers: Option<Seq<Seq<char>>>,
        yaku: Option<Seq<(Seq<char>, u32)>>,
        fu: Option<u32>,
        han: Option<u32>,
        scores: Option<Seq<i32>>,
        delta: Option<Seq<i32>>,
    },
    Ryukyoku {
        reason: Option<Seq<char>>,
        tehais: Option<Seq<Seq<Seq<char>>>>,
        delta: Option<Seq<i32>>,
        scores: Option<Seq<i32>>,
    },
    Kita { actor: usize },
    EndGame,
    EndKyoku,
    Other,
}

/// What `ev` says.
pub open spec fn event_view(ev: MjaiEvent) -> EventView {
    match ev {
        MjaiEvent::StartGame { names, id } => EventView::StartGame {
            names: names.deep_view(),
            id: id.deep_view(),
        },
        MjaiEvent::StartKyoku {
            bakaze,
            kyoku,
            honba,
            kyoutaku,
            oya,
            scores,
            dora_marker,
            tehais,
        } => EventView::StartKyoku {
            bakaze: bakaze@,
            kyoku,
            honba,
            kyoutaku,
            oya,
            scores: scores@,
            dora_marker: dora_marker@,
            tehais: tehais.deep_view(),
        },
        MjaiEvent::Tsumo { actor, pai } => EventView::Tsumo { actor, pai: pai@ },
        MjaiEvent::Dahai { actor, pai, tsumogiri } => EventView::Dahai {
            actor,
            pai: pai@,
            tsumogiri,
        },
        MjaiEvent::Pon { actor, target, pai, consumed } => EventView::Pon {
            actor,
            target,
            pai: pai@,
            consumed: consumed.deep_view(),
        },
        MjaiEvent::Chi { actor, target, pai, consumed } => EventView::Chi {
            actor,
            target,
            pai: pai@,
            consumed: consumed.deep_view(),
        },
        MjaiEvent::Kan { actor, target, pai, consumed } => EventView::Kan {
            actor,
            target,
            pai: pai@,
            consumed: consumed.deep_view(),
        },
        MjaiEvent::Kakan { actor, pai } => EventView::Kakan { actor, pai: pai@ },
        MjaiEvent::Ankan { actor, consumed } => EventView::Ankan {
            actor,
            consumed: consumed.deep_view(),
        },
        MjaiEvent::Dora { dora_marker } => EventView::Dora { dora_marker: dora_marker@ },
        MjaiEvent::Reach { actor } => EventView::Reach { actor },
        MjaiEvent::ReachAccepted { actor } => EventView::ReachAccepted { actor },
        MjaiEvent::Hora {
            actor,
            target,
            pai,
            uradora_markers,
            yaku,
            fu,
            han,
            scores,
            delta,
        } => EventView::Hora {
            actor,
            target,
            pai: pai.deep_view(),
            uradora_markers: uradora_markers.deep_view(),
            yaku: yaku.deep_view(),
            fu,
            han,
            scores: scores.deep_view(),
            delta: delta.deep_view(),
        },
        MjaiEvent::Ryukyoku { reason, tehais, delta, scores } => EventView::Ryukyoku {
            reason: reason.deep_view(),
            tehais: tehais.deep_view(),
            delta: delta.deep_view(),
            scores: scores.deep_view(),
        },
        MjaiEvent::Kita { actor } => EventView::Kita { actor },
        MjaiEvent::EndGame => EventView::EndGame,
        MjaiEvent::EndKyoku => EventView::EndKyoku,
        MjaiEvent::Other => EventView::Other,
    }
}

/// What a player does: the kind of action, the tile it is about, the tiles it
/// takes from the hand in ascending order, and the seat.
pub struct ActionView {
    pub kind: ActionType,
    pub tile: Option<u8>,
    pub consumed: Seq<u8>,
    pub actor: Option<u8>,
}

/// What `a` says.
pub open spec fn action_view(a: Action) -> ActionView {
    ActionView {
        kind: a.action_type,
        tile: a.tile,
        consumed: a.consume_tiles@,
        actor: a.actor,
    }
}

/// `s` in ascending order.
pub open spec fn sorted_tiles(s: Seq<u8>) -> Seq<u8> {
    s.sort_by(|x: u8, y: u8| x <= y)
}

/// `riichienv_core::action::Action::new`: keeps the kind, tile and seat it is
/// given, and sorts the consumed tiles.
pub assume_specification[ riichienv_core::action::Action::new ](
    kind: ActionType,
    tile: Option<u8>,
    consume_tiles: Vec<u8>,
    actor: Option<u8>,
) -> (a: Action)
    ensures
        a.action_type == kind,
        a.tile == tile,
        a.consume_tiles@ == sorted_tiles(consume_tiles@),
        a.actor == actor,
;

/// The rank a numeral character stands for.
pub open spec fn rank(c: char) -> Option<int> {
    if '0' <= c <= '9' {
        Some(c as int - '0' as int)
    } else {
        None
    }
}

/// The first tile id of a suit letter's suit.
pub open spec fn suit_base(c: char) -> Option<int> {
    if c == 'm' {
        Some(0)
    } else if c == 'p' {
        Some(36)
    } else if c == 's' {
        Some(72)
    } else {
        None
    }
}

/// The first tile id of an honor letter's tile.
pub open spec fn honor_base(c: char) -> Option<int> {
    if c == 'E' {
        Some(108)
    } else if c == 'S' {
        Some(112)
    } else if c == 'W' {
        Some(116)
    } else if c == 'N' {
        Some(120)
    } else if c == 'P' {
        Some(124)
    } else if c == 'F' {
        Some(128)
    } else if c == 'C' {
        Some(132)
    } else {
        None
    }
}

/// The tile id of a tile in mjai notation, which is the first of the four
/// copies, except that of the fives the first copy is the red one: `5mr` or
/// `0m` is the red five and `5m` the copy after it. Honors are letters or
/// `1z` and on. What follows a rank and a suit letter is not looked at.
pub open spec fn mjai_tile(s: Seq<char>) -> Option<u8> {
    if s.len() == 1 {
        match honor_base(s[0]) {
            Some(b) => Some(b as u8),
            None => None,
        }
    } else if s.len() < 2 {
        None
    } else {
        match (rank(s[0]), suit_base(s[1])) {
            (Some(r), Some(b)) => if r == 0 || s == seq!['5', s[1], 'r'] {
                Some((b + 16) as u8)
            } else if r == 5 {
                Some((b + 17) as u8)
            } else {
                Some((b + (r - 1) * 4) as u8)
            },
            (Some(r), None) => if s[1] == 'z' && r > 0 {
                Some((108 + (r - 1) * 4) as u8)
            } else {
                None
            },
            _ => None,
        }
    }
}

/// `riichienv_core::parser::mjai_to_tid`: the tile id of mjai notation, `None`
/// for a text that is not a tile.
pub assume_specification[ riichienv_core::parser::mjai_to_tid ](mjai: &str) -> (tid: Option<u8>)
    ensures
        tid == mjai_tile(mjai@),
;

/// No text denotes a tile id beyond that of `9z`.
pub proof fn law_mjai_tile_bound(s: Seq<char>)
    ensures
        mjai_tile(s) matches Some(t) ==> t <= 140,
{
}

/// What a log event says is what its fields hold: the seats, and each text by its
/// characters.
pub proof fn law_events_say_what_they_hold(ev: MjaiEvent)
    ensures
        ev matches MjaiEvent::Tsumo { actor, pai } ==> event_view(ev) == (EventView::Tsumo {
            actor,
            pai: pai@,
        }),
        ev matches MjaiEvent::Dahai { actor, pai, tsumogiri } ==> event_view(ev) == (
        EventView::Dahai { actor, pai: pai@, tsumogiri }),
        ev matches MjaiEvent::Pon { actor, target, pai, consumed } ==> event_view(ev) == (
        EventView::Pon { actor, target, pai: pai@, consumed: consumed.deep_view() }),
        ev matches MjaiEvent::Chi { actor, target, pai, consumed } ==> event_view(ev) == (
        EventView::Chi { actor, target, pai: pai@, consumed: consumed.deep_view() }),
        ev matches MjaiEvent::Kan { actor, target, pai, consumed } ==> event_view(ev) == (
        EventView::Kan { actor, target, pai: pai@, consumed: consumed.deep_view() }),
        ev matches MjaiEvent::Kakan { actor, pai } ==> event_view(ev) == (EventView::Kakan {
            actor,
            pai: pai@,
        }),
        ev matches MjaiEvent::Ankan { actor, consumed } ==> event_view(ev) == (EventView::Ankan {
            actor,
            consumed: consumed.deep_view(),
        }),
        ev matches MjaiEvent::Dora { dora_marker } ==> event_view(ev) == (EventView::Dora {
            dora_marker: dora_marker@,
        }),
        ev matches MjaiEvent::Reach { actor } ==> event_view(ev) == (EventView::Reach { actor }),
        ev matches MjaiEvent::ReachAccepted { actor } ==> event_view(ev) == (
        EventView::ReachAccepted { actor }),
        ev matches MjaiEvent::Kita { actor } ==> event_view(ev) == (EventView::Kita { actor }),
        ev is EndGame <==> event_view(ev) is EndGame,
        ev is EndKyoku <==> event_view(ev) is EndKyoku,
        ev is Other <==> event_view(ev) is Other,
{
}

/// The same, of the events that open and close a game and a hand.
pub proof fn law_openings_and_ends_say_what_they_hold(ev: MjaiEvent)
    ensures
        ev matches MjaiEvent::StartGame { names, id } ==> event_view(ev) == (EventView::StartGame {
            names: names.deep_view(),
            id: id.deep_view(),
        }),
        ev matches MjaiEvent::StartKyoku {
            bakaze,
            kyoku,
            honba,
            kyoutaku,
            oya,
            scores,
            dora_marker,
            tehais,
        } ==> event_view(ev) == (EventView::StartKyoku {
            bakaze: bakaze@,
            kyoku,
            honba,
            kyoutaku,
            oya,
            scores: scores@,
            dora_marker: dora_marker@,
            tehais: tehais.deep_view(),
        }),
        ev matches MjaiEvent::Hora {
            actor,
            target,
            pai,
            uradora_markers,
            yaku,
            fu,
            han,
            scores,
            delta,
        } ==> event_view(ev) == (EventView::Hora {
            actor,
            target,
            pai: pai.deep_view(),
            uradora_markers: uradora_markers.deep_view(),
            yaku: yaku.deep_view(),
            fu,
            han,
            scores: scores.deep_view(),
            delta: delta.deep_view(),
        }),
        ev matches MjaiEvent::Ryukyoku { reason, tehais, delta, scores } ==> event_view(ev) == (
        EventView::Ryukyoku {
            reason: reason.deep_view(),
            tehais: tehais.deep_view(),
            delta: delta.deep_view(),
            scores: scores.deep_view(),
        }),
{
}

/// What an action says is what it holds.
pub proof fn law_actions_say_what_they_hold(a: Action)
    ensures
        action_view(a).kind == a.action_type,
        action_view(a).tile == a.tile,
        action_view(a).consumed == a.consume_tiles@,
        action_view(a).actor == a.actor,
{
}

/// Sorting tiles keeps each as often as it was there, and puts no larger one
/// before a smaller one.
pub proof fn law_sorted_tiles_are_the_tiles_in_order(tiles: Seq<u8>)
    ensures
        sorted_tiles(tiles).to_multiset() == tiles.to_multiset(),
        forall|i: int, j: int|
            0 <= i < j < sorted_tiles(tiles).len() ==> #[trigger] sorted_tiles(tiles)[i]
                <= #[trigger] sorted_tiles(tiles)[j],
{
    let leq = |x: u8, y: u8| x <= y;
    tiles.lemma_sort_by_ensures(leq);
    assert forall|i: int, j: int| 0 <= i < j < sorted_tiles(tiles).len() implies #[trigger] sorted_tiles(
        tiles,
    )[i] <= #[trigger] sorted_tiles(tiles)[j] by {
        assert(leq(sorted_tiles(tiles)[i], sorted_tiles(tiles)[j]));
    }
}

/// A suited tile of rank one to nine has the kind of its rank in its suit; five
/// with an `r` behind, or a zero, is the red five, which is of the fives' kind.
pub proof fn law_suited_tiles_have_their_kind(r: char, suit: char, base: int)
    requires
        '1' <= r <= '9',
        (suit == 'm' && base == 0) || (suit == 'p' && base == 9) || (suit == 's' && base == 18),
    ensures
        mjai_tile(seq![r, suit]) is Some,
        mjai_tile(seq![r, suit]).unwrap() / 4 == base + (r as int - '1' as int),
        mjai_tile(seq!['5', suit, 'r']) == Some((4 * (base + 4)) as u8),
        mjai_tile(seq!['0', suit]) == Some((4 * (base + 4)) as u8),
        mjai_tile(seq!['5', suit]) == Some((4 * (base + 4) + 1) as u8),
        r != '5' ==> mjai_tile(seq![r, suit]).unwrap() % 4 == 0,
{
    assert(seq!['5', suit, 'r'] =~= seq!['5', seq!['5', suit, 'r'][1], 'r']);
    assert(seq![r, suit].len() == 2);
    assert(seq!['5', suit].len() == 2);
    assert(seq!['0', suit].len() == 2);
}

} // verus!
