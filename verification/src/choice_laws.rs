//! What each event of a log is as a choice: whose it is, which action it stands
//! for with which tiles and which id, and whether it answers a discard.
use vstd::prelude::*;
use riichienv_core::replay::MjaiEvent;
use crate::action_codec::{action_code, tile_types};
use crate::mjai::{
    event_view, law_sorted_tiles_are_the_tiles_in_order, mjai_tile, sorted_tiles, EventView,
};
use crate::replay::{claimer_of, decision_of, discarder_of, tile_ids};

verus! {

/// The seat that claims a discard is the one that calls pon, chi or an open kan
/// on it, or wins by it; nobody else claims one, nor does whoever wins by draw.
pub proof fn law_whoever_calls_or_wins_claims(ev: EventView)
    ensures
        ev matches EventView::Pon { actor, .. } ==> claimer_of(ev) == Some(actor as u8),
        ev matches EventView::Chi { actor, .. } ==> claimer_of(ev) == Some(actor as u8),
        ev matches EventView::Kan { actor, .. } ==> claimer_of(ev) == Some(actor as u8),
        ev matches EventView::Hora { actor, target, .. } ==> (actor != target ==> claimer_of(ev)
            == Some(actor as u8)) && (actor == target ==> claimer_of(ev) is None),
        claimer_of(ev) is Some ==> ev is Pon || ev is Chi || ev is Kan || ev is Hora,
{
}

/// The same of the events as a log holds them.
pub proof fn law_callers_and_winners_of_a_log_claim(ev: MjaiEvent)
    ensures
        ev matches MjaiEvent::Pon { actor, .. } ==> claimer_of(event_view(ev)) == Some(
            actor as u8,
        ),
        ev matches MjaiEvent::Chi { actor, .. } ==> claimer_of(event_view(ev)) == Some(
            actor as u8,
        ),
        ev matches MjaiEvent::Kan { actor, .. } ==> claimer_of(event_view(ev)) == Some(
            actor as u8,
        ),
        ev matches MjaiEvent::Hora { actor, target, .. } ==> claimer_of(event_view(ev)) == (
        if actor == target {
            None
        } else {
            Some(actor as u8)
        }),
        ev matches MjaiEvent::Dahai { actor, .. } ==> discarder_of(event_view(ev)) == Some(
            actor as u8,
        ),
{
}

/// An event claims a discard exactly where it is the choice of pon, chi, an open
/// kan or a win by discard, and the claimer is whoever makes that choice.
pub proof fn law_claims_are_choices_of_the_claimer(ev: EventView, seat: u8)
    ensures
        claimer_of(ev) == Some(seat) <==> (decision_of(ev) matches Some((who, a)) && who == seat
            && (a.kind is Pon || a.kind is Chi || a.kind is Daiminkan || a.kind is Ron)),
{
}

/// A discard is its actor's, and only a discard is one.
pub proof fn law_discards_are_their_actors(ev: EventView)
    ensures
        ev matches EventView::Dahai { actor, .. } ==> discarder_of(ev) == Some(actor as u8),
        discarder_of(ev) is Some ==> ev is Dahai,
        forall|seat: u8|
            discarder_of(ev) == Some(seat) <==> (decision_of(ev) matches Some((who, a)) && who
                == seat && a.kind is Discard),
{
}

/// A choice is made by the actor of its event, and names that seat as the
/// action's own.
pub proof fn law_choices_are_their_actors(ev: EventView)
    ensures
        decision_of(ev) matches Some((seat, a)) ==> a.actor == Some(seat),
        ev matches EventView::Dahai { actor, .. } ==> decision_of(ev).unwrap().0 == actor as u8,
        ev matches EventView::Reach { actor } ==> decision_of(ev).unwrap().0 == actor as u8,
        ev matches EventView::Pon { actor, .. } ==> decision_of(ev).unwrap().0 == actor as u8,
        ev matches EventView::Chi { actor, .. } ==> decision_of(ev).unwrap().0 == actor as u8,
        ev matches EventView::Kan { actor, .. } ==> decision_of(ev).unwrap().0 == actor as u8,
        ev matches EventView::Kakan { actor, .. } ==> decision_of(ev).unwrap().0 == actor as u8,
        ev matches EventView::Ankan { actor, .. } ==> decision_of(ev).unwrap().0 == actor as u8,
        ev matches EventView::Hora { actor, .. } ==> decision_of(ev).unwrap().0 == actor as u8,
        ev matches EventView::Kita { actor } ==> decision_of(ev).unwrap().0 == actor as u8,
{
}

/// Each kind of event is one kind of action; a win is by draw or by discard
/// according to whom it is won from.
pub proof fn law_each_event_is_one_kind_of_action(ev: EventView)
    ensures
        ev is Dahai <==> (decision_of(ev) matches Some((_, a)) && a.kind is Discard),
        ev is Reach <==> (decision_of(ev) matches Some((_, a)) && a.kind is Riichi),
        ev is Pon <==> (decision_of(ev) matches Some((_, a)) && a.kind is Pon),
        ev is Chi <==> (decision_of(ev) matches Some((_, a)) && a.kind is Chi),
        ev is Kan <==> (decision_of(ev) matches Some((_, a)) && a.kind is Daiminkan),
        ev is Kakan <==> (decision_of(ev) matches Some((_, a)) && a.kind is Kakan),
        ev is Ankan <==> (decision_of(ev) matches Some((_, a)) && a.kind is Ankan),
        ev is Kita <==> (decision_of(ev) matches Some((_, a)) && a.kind is Kita),
        ev matches EventView::Hora { actor, target, .. } ==> decision_of(ev) is Some && (actor
            == target ==> decision_of(ev).unwrap().1.kind is Tsumo) && (actor != target
            ==> decision_of(ev).unwrap().1.kind is Ron),
        decision_of(ev) matches Some((_, a)) && (a.kind is Tsumo || a.kind is Ron) ==> ev is Hora,
{
}

/// The tile of a discard, a pon, a chi, an open kan or an added kan is the one
/// that the event's `pai` denotes.
pub proof fn law_actions_are_about_the_tile_of_the_event(ev: EventView)
    ensures
        ev matches EventView::Dahai { pai, .. } ==> decision_of(ev).unwrap().1.tile == mjai_tile(
            pai,
        ),
        ev matches EventView::Pon { pai, .. } ==> decision_of(ev).unwrap().1.tile == mjai_tile(pai),
        ev matches EventView::Chi { pai, .. } ==> decision_of(ev).unwrap().1.tile == mjai_tile(pai),
        ev matches EventView::Kan { pai, .. } ==> decision_of(ev).unwrap().1.tile == mjai_tile(pai),
        ev matches EventView::Kakan { pai, .. } ==> decision_of(ev).unwrap().1.tile == mjai_tile(
            pai,
        ),
        ev is Reach || ev is Ankan || ev is Hora || ev is Kita ==> decision_of(
            ev,
        ).unwrap().1.tile is None,
{
}

/// The tiles that go into a call are those that the event lists, in order of
/// their ids; into an added kan goes its one tile, into other actions none.
pub proof fn law_actions_consume_the_tiles_of_the_event(ev: EventView)
    ensures
        ev matches EventView::Pon { consumed, .. } ==> decision_of(
            ev,
        ).unwrap().1.consumed.to_multiset() == tile_ids(consumed).to_multiset(),
        ev matches EventView::Chi { consumed, .. } ==> decision_of(
            ev,
        ).unwrap().1.consumed.to_multiset() == tile_ids(consumed).to_multiset(),
        ev matches EventView::Kan { consumed, .. } ==> decision_of(
            ev,
        ).unwrap().1.consumed.to_multiset() == tile_ids(consumed).to_multiset(),
        ev matches EventView::Ankan { consumed, .. } ==> decision_of(
            ev,
        ).unwrap().1.consumed.to_multiset() == tile_ids(consumed).to_multiset(),
        ev matches EventView::Kakan { pai, .. } ==> (mjai_tile(pai) matches Some(t) ==> decision_of(
            ev,
        ).unwrap().1.consumed == seq![t]) && (mjai_tile(pai) is None ==> decision_of(
            ev,
        ).unwrap().1.consumed.len() == 0),
        ev is Dahai || ev is Reach || ev is Hora || ev is Kita ==> decision_of(
            ev,
        ).unwrap().1.consumed.len() == 0,
        decision_of(ev) matches Some((_, a)) ==> forall|i: int, j: int|
            0 <= i < j < a.consumed.len() ==> #[trigger] a.consumed[i] <= #[trigger] a.consumed[j],
{
    match ev {
        EventView::Pon { consumed, .. } => {
            law_sorted_tiles_are_the_tiles_in_order(tile_ids(consumed));
        },
        EventView::Chi { consumed, .. } => {
            law_sorted_tiles_are_the_tiles_in_order(tile_ids(consumed));
        },
        EventView::Kan { consumed, .. } => {
            law_sorted_tiles_are_the_tiles_in_order(tile_ids(consumed));
        },
        EventView::Ankan { consumed, .. } => {
            law_sorted_tiles_are_the_tiles_in_order(tile_ids(consumed));
        },
        EventView::Kakan { pai, .. } => {
            match mjai_tile(pai) {
                Some(t) => {
                    lemma_sorted_one(t);
                },
                None => {
                    lemma_sorted_none();
                },
            }
        },
        _ => {
            lemma_sorted_none();
        },
    }
}

/// Sorting one tile.
proof fn lemma_sorted_one(t: u8)
    ensures
        sorted_tiles(seq![t]) == seq![t],
{
    let s = sorted_tiles(seq![t]);
    law_sorted_tiles_are_the_tiles_in_order(seq![t]);
    seq![t].to_multiset_ensures();
    s.to_multiset_ensures();
    assert(s.len() == seq![t].len());
    assert(s.contains(s[0]));
    assert(s.to_multiset().count(s[0]) > 0);
    assert(seq![t].contains(s[0]));
    assert(s =~= seq![t]);
}

/// Sorting no tile.
proof fn lemma_sorted_none()
    ensures
        sorted_tiles(Seq::empty()).len() == 0,
{
    let none = Seq::<u8>::empty();
    law_sorted_tiles_are_the_tiles_in_order(none);
    none.to_multiset_ensures();
    sorted_tiles(none).to_multiset_ensures();
}

/// The ids of two lists of tiles are those of the one, then those of the other.
pub proof fn law_tile_ids_follow_the_list(a: Seq<Seq<char>>, b: Seq<Seq<char>>)
    ensures
        tile_ids(a + b) == tile_ids(a) + tile_ids(b),
    decreases b.len(),
{
    if b.len() == 0 {
        assert(a + b =~= a);
        assert(tile_ids(a) + tile_ids(b) =~= tile_ids(a));
    } else {
        law_tile_ids_follow_the_list(a, b.drop_last());
        assert((a + b).drop_last() =~= a + b.drop_last());
        assert((a + b).last() == b.last());
        if let Some(t) = mjai_tile(b.last()) {
            assert((tile_ids(a) + tile_ids(b.drop_last())).push(t) =~= tile_ids(a) + tile_ids(
                b.drop_last(),
            ).push(t));
        }
    }
}

/// A tile that is denoted has its id in the list; a text that denotes none has
/// none.
pub proof fn law_tile_ids_are_those_denoted(tiles: Seq<Seq<char>>)
    ensures
        tile_ids(tiles).len() <= tiles.len(),
        (forall|i: int| 0 <= i < tiles.len() ==> mjai_tile(#[trigger] tiles[i]) is Some) ==> (
        tile_ids(tiles).len() == tiles.len() && forall|i: int|
            0 <= i < tiles.len() ==> mjai_tile(tiles[i]) == Some(#[trigger] tile_ids(tiles)[i])),
        (forall|i: int| 0 <= i < tiles.len() ==> mjai_tile(#[trigger] tiles[i]) is None)
            ==> tile_ids(tiles).len() == 0,
    decreases tiles.len(),
{
    if tiles.len() > 0 {
        let rest = tiles.drop_last();
        law_tile_ids_are_those_denoted(rest);
        assert forall|i: int| 0 <= i < rest.len() implies rest[i] == #[trigger] tiles[i] by {}
        if forall|i: int| 0 <= i < tiles.len() ==> mjai_tile(#[trigger] tiles[i]) is Some {
            assert forall|i: int| 0 <= i < rest.len() implies mjai_tile(
                #[trigger] rest[i],
            ) is Some by {
                assert(tiles[i] == rest[i]);
            }
            assert(mjai_tile(tiles[tiles.len() - 1]) is Some);
            assert forall|i: int| 0 <= i < tiles.len() implies mjai_tile(tiles[i]) == Some(
                #[trigger] tile_ids(tiles)[i],
            ) by {
                if i < rest.len() {
                    assert(tiles[i] == rest[i]);
                    assert(tile_ids(tiles)[i] == tile_ids(rest)[i]);
                }
            }
        }
        if forall|i: int| 0 <= i < tiles.len() ==> mjai_tile(#[trigger] tiles[i]) is None {
            assert forall|i: int| 0 <= i < rest.len() implies mjai_tile(
                #[trigger] rest[i],
            ) is None by {
                assert(tiles[i] == rest[i]);
            }
            assert(mjai_tile(tiles[tiles.len() - 1]) is None);
        }
    }
}

/// With four players a discard has the id of its tile's type, an open or added
/// kan forty-two plus that, and riichi, pon and a win have ids of their own.
pub proof fn law_ids_of_choices_with_four(ev: EventView, num_players: u8)
    requires
        num_players != 3,
    ensures
        ev matches EventView::Dahai { pai, .. } ==> mjai_tile(pai) matches Some(t) ==> action_code(
            num_players,
            decision_of(ev).unwrap().1,
        ) == Some((t / 4) as nat),
        ev matches EventView::Kan { pai, .. } ==> mjai_tile(pai) matches Some(t) ==> action_code(
            num_players,
            decision_of(ev).unwrap().1,
        ) == Some((42 + t / 4) as nat),
        ev matches EventView::Kakan { pai, .. } ==> mjai_tile(pai) matches Some(t) ==> action_code(
            num_players,
            decision_of(ev).unwrap().1,
        ) == Some((42 + t / 4) as nat),
        ev is Reach ==> action_code(num_players, decision_of(ev).unwrap().1) == Some(37nat),
        ev is Pon ==> action_code(num_players, decision_of(ev).unwrap().1) == Some(41nat),
        ev is Hora ==> action_code(num_players, decision_of(ev).unwrap().1) == Some(79nat),
        ev is Kita ==> action_code(num_players, decision_of(ev).unwrap().1) is None,
{
    law_actions_consume_the_tiles_of_the_event(ev);
}

/// With three players the types between the first and the last of the first suit
/// are left out, of discards as of kans, and the north-tile call has an id too.
pub proof fn law_ids_of_choices_with_three(ev: EventView)
    ensures
        ev matches EventView::Dahai { pai, .. } ==> mjai_tile(pai) matches Some(t) ==> action_code(
            3,
            decision_of(ev).unwrap().1,
        ) == (if t / 4 == 0 {
            Some(0nat)
        } else if 8 <= t / 4 < 34 {
            Some((t / 4 - 7) as nat)
        } else {
            None
        }),
        ev matches EventView::Kan { pai, .. } ==> mjai_tile(pai) matches Some(t) ==> action_code(
            3,
            decision_of(ev).unwrap().1,
        ) == (if t / 4 == 0 {
            Some(29nat)
        } else if 8 <= t / 4 < 34 {
            Some((29 + t / 4 - 7) as nat)
        } else {
            None
        }),
        ev matches EventView::Kakan { pai, .. } ==> mjai_tile(pai) matches Some(t) ==> action_code(
            3,
            decision_of(ev).unwrap().1,
        ) == (if t / 4 == 0 {
            Some(29nat)
        } else if 8 <= t / 4 < 34 {
            Some((29 + t / 4 - 7) as nat)
        } else {
            None
        }),
        ev is Reach ==> action_code(3, decision_of(ev).unwrap().1) == Some(27nat),
        ev is Pon ==> action_code(3, decision_of(ev).unwrap().1) == Some(28nat),
        ev is Chi ==> action_code(3, decision_of(ev).unwrap().1) is None,
        ev is Hora ==> action_code(3, decision_of(ev).unwrap().1) == Some(56nat),
        ev is Kita ==> action_code(3, decision_of(ev).unwrap().1) == Some(59nat),
{
    law_actions_consume_the_tiles_of_the_event(ev);
}

/// A closed kan of four tiles of one type has forty-two plus that type with four
/// players.
pub proof fn law_ids_of_closed_kans(ev: EventView, consumed: Seq<Seq<char>>, kind: u8)
    requires
        ev matches EventView::Ankan { consumed: c, .. } && c == consumed,
        tile_ids(consumed).len() > 0,
        forall|i: int|
            0 <= i < tile_ids(consumed).len() ==> #[trigger] tile_ids(consumed)[i] / 4 == kind,
    ensures
        action_code(4, decision_of(ev).unwrap().1) == Some((42 + kind) as nat),
        kind == 0 ==> action_code(3, decision_of(ev).unwrap().1) == Some(29nat),
        8 <= kind < 34 ==> action_code(3, decision_of(ev).unwrap().1) == Some(
            (29 + kind - 7) as nat,
        ),
{
    let ids = tile_ids(consumed);
    let s = sorted_tiles(ids);
    law_sorted_tiles_are_the_tiles_in_order(ids);
    ids.to_multiset_ensures();
    s.to_multiset_ensures();
    assert(s.len() == ids.len());
    assert(s.contains(s[0]));
    assert(s.to_multiset().count(s[0]) > 0);
    assert(ids.contains(s[0]));
}

/// A chi of three tile types has thirty-eight plus the number of its own tiles
/// that are of a lower type than the called one.
pub proof fn law_ids_of_chis(ev: EventView, x: u8, y: u8, called: u8)
    requires
        ev matches EventView::Chi { pai, consumed, .. } && mjai_tile(pai) == Some(called)
            && tile_ids(consumed) == seq![x, y],
        x / 4 != y / 4,
        x / 4 != called / 4,
        y / 4 != called / 4,
    ensures
        action_code(4, decision_of(ev).unwrap().1) == Some(
            (38 + (if x / 4 < called / 4 {
                1nat
            } else {
                0nat
            }) + (if y / 4 < called / 4 {
                1nat
            } else {
                0nat
            })) as nat,
        ),
{
    let own = sorted_tiles(seq![x, y]);
    law_sorted_tiles_are_the_tiles_in_order(seq![x, y]);
    seq![x, y].to_multiset_ensures();
    own.to_multiset_ensures();
    assert(own.len() == seq![x, y].len());
    assert(seq![x, y][0] == x && seq![x, y][1] == y);
    assert(seq![x, y].contains(x) && seq![x, y].contains(y));
    assert(own.to_multiset().count(x) > 0 && own.to_multiset().count(y) > 0);
    assert(own.contains(x) && own.contains(y));
    let tiles = own.push(called);
    let kinds = tiles.map_values(|t: u8| (t / 4) as u8);
    let types = tile_types(tiles);
    let (a, b, c) = ((x / 4) as u8, (y / 4) as u8, (called / 4) as u8);
    let (i, j) = (own.index_of(x), own.index_of(y));
    assert(kinds[i] == a && kinds[j] == b && kinds[2] == c);
    assert(types.contains(a) && types.contains(b) && types.contains(c));
    assert forall|k: u8| types.contains(k) implies k == a || k == b || k == c by {
        let n = choose|n: int| 0 <= n < kinds.len() && kinds[n] == k;
        assert(n == i || n == j || n == 2);
    }
    assert(types =~= Set::empty().insert(a).insert(b).insert(c));
    let below = types.filter(|k: u8| k < called / 4);
    let low = Set::<u8>::empty();
    if a < c && b < c {
        assert(below =~= low.insert(a).insert(b));
    } else if a < c {
        assert(below =~= low.insert(a));
    } else if b < c {
        assert(below =~= low.insert(b));
    } else {
        assert(below =~= low);
    }
}

} // verus!
