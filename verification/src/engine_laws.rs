//! What the engine can take: at a table as the game knows it, every seat can be
//! looked at and every event that names seats of the table can be played.
use vstd::prelude::*;
use crate::engine::{
    all_held, all_tiles, answerable, can_answer, copies, count_sum, countable, counts_with, crowd,
    evaluable, event_fits, hand_counts, kans_in, lemma_copies_bound, lemma_copies_one_less,
    look_fits, meld_known, most_dora, next_kind, one_less, scorable, tile_read, tiles_in, winning,
    Engine, MeldView, SeatView, TableView,
};
use crate::mjai::EventView;

verus! {

/// Whether a seat has no more than a seat of the game can have: a hand of at most
/// fourteen tiles, and at most four melds of one to four tiles each.
pub open spec fn usual_seat(s: SeatView) -> bool {
    &&& s.hand.len() <= 14
    &&& s.melds.len() <= 4
    &&& all_tiles(s.hand)
    &&& s.score >= i32::MIN + 1000
    &&& forall|i: int|
        0 <= i < s.melds.len() ==> 1 <= (#[trigger] s.melds[i]).tiles.len() <= 4 && all_tiles(
            s.melds[i].tiles,
        )
}

/// Whether a table is as the game knows it: of three or four such seats, with at
/// most five dora markers, a dealer who sits at it, and counters that are not
/// full.
pub open spec fn usual_table(table: TableView, seats: Seq<SeatView>) -> bool {
    &&& seats.len() == 3 || seats.len() == 4
    &&& forall|i: int| 0 <= i < seats.len() ==> usual_seat(#[trigger] seats[i])
    &&& table.markers.len() <= 5
    &&& all_tiles(table.markers)
    &&& table.oya < seats.len()
    &&& table.drawn matches Some(t) ==> t < 136
    &&& table.turns < u32::MAX
    &&& table.sticks < u32::MAX
}

/// How many tiles are of the first `k` kinds.
spec fn below(tiles: Seq<u8>, k: int) -> nat
    decreases k,
{
    if k <= 0 {
        0
    } else {
        below(tiles, k - 1) + copies(tiles, k - 1)
    }
}

/// One more tile is one more of its own kind.
proof fn lemma_below_push(tiles: Seq<u8>, k: int)
    requires
        tiles.len() > 0,
    ensures
        below(tiles, k) == below(tiles.drop_last(), k) + if tiles.last() / 4 < k {
            1nat
        } else {
            0nat
        },
    decreases k,
{
    if k > 0 {
        lemma_below_push(tiles, k - 1);
    }
}

/// There are no more tiles of some kinds than tiles.
proof fn lemma_below_bound(tiles: Seq<u8>, k: int)
    ensures
        below(tiles, k) <= tiles.len(),
    decreases tiles.len(),
{
    if tiles.len() > 0 {
        lemma_below_push(tiles, k);
        lemma_below_bound(tiles.drop_last(), k);
    } else {
        lemma_below_none(tiles, k);
    }
}

/// No tile is of no kind.
proof fn lemma_below_none(tiles: Seq<u8>, k: int)
    requires
        tiles.len() == 0,
    ensures
        below(tiles, k) == 0,
    decreases k,
{
    if k > 0 {
        lemma_below_none(tiles, k - 1);
    }
}

/// Three different kinds have no more copies than there are tiles.
proof fn lemma_three_kinds(tiles: Seq<u8>, a: int, b: int, c: int)
    requires
        a != b,
        b != c,
        a != c,
    ensures
        copies(tiles, a) + copies(tiles, b) + copies(tiles, c) <= tiles.len(),
    decreases tiles.len(),
{
    if tiles.len() > 0 {
        lemma_three_kinds(tiles.drop_last(), a, b, c);
    }
}

/// A hand counts for no more tiles than it has.
proof fn lemma_hand_counts_sum(hand: Seq<u8>, melds: Seq<MeldView>, k: int)
    requires
        0 <= k <= 34,
        hand.len() <= 255,
    ensures
        count_sum(hand_counts(hand, melds).take(k)) <= below(hand, k),
    decreases k,
{
    let counts = hand_counts(hand, melds);
    if k > 0 {
        lemma_hand_counts_sum(hand, melds, k - 1);
        lemma_copies_bound(hand, k - 1);
        assert(counts.take(k).drop_last() =~= counts.take(k - 1));
        assert(counts.take(k).last() == counts[k - 1]);
    }
}

/// One more copy of a kind adds one to the sum.
proof fn lemma_count_sum_more(counts: Seq<u8>, i: int)
    requires
        0 <= i < counts.len(),
        counts[i] < 255,
    ensures
        count_sum(counts.update(i, (counts[i] + 1) as u8)) == count_sum(counts) + 1,
    decreases counts.len(),
{
    let more = counts.update(i, (counts[i] + 1) as u8);
    if i == counts.len() - 1 {
        assert(more.drop_last() =~= counts.drop_last());
    } else {
        lemma_count_sum_more(counts.drop_last(), i);
        assert(more.drop_last() =~= counts.drop_last().update(i, (counts[i] + 1) as u8));
    }
}

/// A hand and one more tile count for at most one more than the hand has.
proof fn lemma_counts_with_sum(hand: Seq<u8>, melds: Seq<MeldView>, tile: u8)
    requires
        hand.len() <= 14,
    ensures
        count_sum(counts_with(hand, melds, tile)) <= hand.len() + 1,
{
    let counts = hand_counts(hand, melds);
    lemma_hand_counts_sum(hand, melds, 34);
    lemma_below_bound(hand, 34);
    assert(counts.take(34) =~= counts);
    if tile < 136 {
        lemma_copies_bound(hand, tile as int / 4);
        lemma_count_sum_more(counts, tile as int / 4);
    }
}

/// The melds of a seat have at most four tiles each.
proof fn lemma_tiles_in_bound(melds: Seq<MeldView>)
    requires
        forall|i: int| 0 <= i < melds.len() ==> (#[trigger] melds[i]).tiles.len() <= 4,
    ensures
        tiles_in(melds).len() <= 4 * melds.len(),
    decreases melds.len(),
{
    if melds.len() > 0 {
        assert forall|i: int| 0 <= i < melds.drop_last().len() implies (
        #[trigger] melds.drop_last()[i]).tiles.len() <= 4 by {
            assert(melds[i] == melds.drop_last()[i]);
        }
        lemma_tiles_in_bound(melds.drop_last());
        assert(melds[melds.len() - 1].tiles.len() <= 4);
    }
}

/// Each marker points at no more tiles than are held, and one more.
proof fn lemma_most_dora_bound(markers: Seq<u8>, held: Seq<u8>, num_players: nat)
    ensures
        most_dora(markers, held, num_players) <= markers.len() * (held.len() + 1),
    decreases markers.len(),
{
    if markers.len() > 0 {
        let m = markers.len() as int;
        let h = held.len() as int;
        lemma_most_dora_bound(markers.drop_last(), held, num_players);
        lemma_copies_bound(held, next_kind(markers.last() as int / 4, num_players));
        assert((m - 1) * (h + 1) + (h + 1) == m * (h + 1)) by (nonlinear_arith);
    }
}

/// Whatever a usual seat would win with, its win can be worked out.
proof fn lemma_usual_seat_evaluable(
    s: SeatView,
    hand: Seq<u8>,
    markers: Seq<u8>,
    num_players: nat,
    tile: u8,
)
    requires
        usual_seat(s),
        hand.len() <= 14,
        markers.len() <= 5,
        all_tiles(markers),
        tile < 136,
    ensures
        evaluable(s, hand, markers, num_players, tile),
{
    let held = all_held(s);
    let counts = counts_with(hand, s.melds, tile);
    lemma_tiles_in_bound(s.melds);
    assert(held.len() <= 30);
    lemma_copies_bound(held, tile as int / 4);
    lemma_counts_with_sum(hand, s.melds, tile);
    lemma_three_kinds(held, 4, 13, 22);
    lemma_most_dora_bound(markers, held, num_players);
    assert(markers.len() * (held.len() + 1) <= 155) by (nonlinear_arith)
        requires
            markers.len() <= 5,
            held.len() <= 30,
    ;
    assert(scorable(s, counts, markers, num_players, tile));
}

/// The tiles of a usual seat can be counted.
pub proof fn law_usual_seats_are_countable(s: SeatView)
    requires
        usual_seat(s),
    ensures
        countable(s),
{
    let held = all_held(s);
    lemma_tiles_in_bound(s.melds);
    lemma_three_kinds(held, 4, 13, 22);
    assert forall|k: int| 0 <= k < 34 implies #[trigger] copies(held, k) <= 255 by {
        lemma_copies_bound(held, k);
    }
    assert forall|i: int| 0 <= i < s.melds.len() implies meld_known(#[trigger] s.melds[i]) by {
        assert(all_tiles(s.melds[i].tiles));
    }
}

/// At a usual table every seat can be looked at, and only a seat of the table.
pub proof fn law_seats_of_usual_tables_can_be_looked_at(
    table: TableView,
    seats: Seq<SeatView>,
    seat: u8,
)
    requires
        usual_table(table, seats),
    ensures
        look_fits(table, seats, seat) <==> seat < seats.len(),
{
    if seat < seats.len() {
        let s = seats[seat as int];
        law_usual_seats_are_countable(s);
        if let Some(tile) = table.drawn {
            lemma_copies_one_less(s.hand, tile, 0);
            lemma_usual_seat_evaluable(
                s,
                one_less(s.hand, tile),
                table.markers,
                seats.len(),
                tile,
            );
        }
    }
}

/// At a usual table what the others may do about a tile can be worked out.
pub proof fn law_usual_tables_can_answer(
    table: TableView,
    seats: Seq<SeatView>,
    from: int,
    tile: u8,
)
    requires
        usual_table(table, seats),
        tile < 136,
    ensures
        answerable(table, seats, from, tile),
{
    assert forall|i: int| 0 <= i < seats.len() && i != from implies #[trigger] can_answer(
        table,
        seats,
        i,
        tile,
    ) by {
        law_usual_seats_are_countable(seats[i]);
        lemma_usual_seat_evaluable(seats[i], seats[i].hand, table.markers, seats.len(), tile);
    }
}

/// At a usual table every event of a seat of the table is played: draws, discards
/// of tiles that exist, riichi and kans of all kinds, pons and chis with two tiles
/// of one's own, and the north-tile call.
pub proof fn law_usual_tables_play_events_of_their_seats(
    table: TableView,
    seats: Seq<SeatView>,
    ev: EventView,
)
    requires
        usual_table(table, seats),
        ({
            ||| ev matches EventView::Tsumo { actor, .. } && actor < seats.len()
            ||| ev matches EventView::Dahai { actor, pai, .. } && actor < seats.len() && tile_read(
                pai,
            ) < 136
            ||| ev matches EventView::Pon { actor, consumed, .. } && actor < seats.len()
                && consumed.len() == 2
            ||| ev matches EventView::Chi { actor, consumed, .. } && actor < seats.len()
                && consumed.len() == 2
            ||| ev matches EventView::Kan { actor, .. } && actor < seats.len()
            ||| ev matches EventView::Kakan { actor, .. } && actor < seats.len()
            ||| ev matches EventView::Ankan { actor, .. } && actor < seats.len()
            ||| ev matches EventView::Reach { actor } && actor < seats.len()
            ||| ev matches EventView::ReachAccepted { actor } && actor < seats.len()
            ||| ev matches EventView::Kita { actor } && actor < seats.len()
        }),
    ensures
        event_fits(ev, table, seats),
{
    match ev {
        EventView::Dahai { actor, pai, .. } => {
            law_usual_tables_can_answer(table, seats, actor as int, tile_read(pai));
        },
        EventView::Kita { actor } => {
            law_usual_tables_can_answer(table, seats, actor as int, 120);
        },
        EventView::Kakan { actor, .. } => {
            assert(usual_seat(seats[actor as int]));
        },
        EventView::ReachAccepted { actor } => {
            assert(usual_seat(seats[actor as int]));
        },
        _ => {},
    }
}

/// Events that touch no seat's tiles are played at every table, and the start of
/// a hand wherever it lists a score for each seat and no more hands than seats.
pub proof fn law_every_table_plays_openings_and_ends(
    table: TableView,
    seats: Seq<SeatView>,
    ev: EventView,
)
    ensures
        ev is StartGame || ev is Dora || ev is Hora || ev is Ryukyoku || ev is EndKyoku
            || ev is EndGame || ev is Other ==> event_fits(ev, table, seats),
        ev matches EventView::StartKyoku { scores, tehais, .. } ==> (event_fits(ev, table, seats)
            <==> scores.len() >= seats.len() && tehais.len() <= seats.len()),
{
}

/// No table plays an event of a seat that it does not have.
pub proof fn law_no_table_plays_events_of_others(
    table: TableView,
    seats: Seq<SeatView>,
    ev: EventView,
)
    ensures
        ev matches EventView::Tsumo { actor, .. } ==> (event_fits(ev, table, seats) ==> actor
            < seats.len()),
        ev matches EventView::Dahai { actor, .. } ==> (event_fits(ev, table, seats) ==> actor
            < seats.len()),
        ev matches EventView::Pon { actor, .. } ==> (event_fits(ev, table, seats) ==> actor
            < seats.len()),
        ev matches EventView::Chi { actor, .. } ==> (event_fits(ev, table, seats) ==> actor
            < seats.len()),
        ev matches EventView::Kan { actor, .. } ==> (event_fits(ev, table, seats) ==> actor
            < seats.len()),
        ev matches EventView::Kakan { actor, .. } ==> (event_fits(ev, table, seats) ==> actor
            < seats.len()),
        ev matches EventView::Ankan { actor, .. } ==> (event_fits(ev, table, seats) ==> actor
            < seats.len()),
        ev matches EventView::Reach { actor } ==> (event_fits(ev, table, seats) ==> actor
            < seats.len()),
        ev matches EventView::ReachAccepted { actor } ==> (event_fits(ev, table, seats) ==> actor
            < seats.len()),
{
}

/// The same of a game in progress: where its table is as the game knows it, it
/// lets each of its seats look, and plays what its seats do.
pub proof fn law_usual_games_go_on(engine: Engine, ev: EventView, seat: u8)
    requires
        usual_table(engine.laid(), engine.held()),
        ({
            ||| ev matches EventView::Dahai { actor, pai, .. } && actor < engine.seats()
                && tile_read(pai) < 136
            ||| ev matches EventView::Tsumo { actor, .. } && actor < engine.seats()
            ||| ev matches EventView::Pon { actor, consumed, .. } && actor < engine.seats()
                && consumed.len() == 2
            ||| ev matches EventView::Chi { actor, consumed, .. } && actor < engine.seats()
                && consumed.len() == 2
            ||| ev matches EventView::Kan { actor, .. } && actor < engine.seats()
            ||| ev matches EventView::Kakan { actor, .. } && actor < engine.seats()
            ||| ev matches EventView::Ankan { actor, .. } && actor < engine.seats()
            ||| ev matches EventView::Reach { actor } && actor < engine.seats()
            ||| ev matches EventView::ReachAccepted { actor } && actor < engine.seats()
            ||| ev matches EventView::Kita { actor } && actor < engine.seats()
            ||| ev is StartGame || ev is Dora || ev is Hora || ev is Ryukyoku || ev is EndKyoku
                || ev is EndGame || ev is Other
        }),
    ensures
        engine.playable(ev),
        engine.lookable(seat) <==> seat < engine.seats(),
{
    engine.law_seats_stay(ev, seat);
    law_seats_of_usual_tables_can_be_looked_at(engine.laid(), engine.held(), seat);
    law_every_table_plays_openings_and_ends(engine.laid(), engine.held(), ev);
    if !(ev is StartGame || ev is Dora || ev is Hora || ev is Ryukyoku || ev is EndKyoku
        || ev is EndGame || ev is Other) {
        law_usual_tables_play_events_of_their_seats(engine.laid(), engine.held(), ev);
    }
}

/// A marker points at the next kind of its suit, of the winds or of the dragons,
/// and the last of them at the first; with three players the first and the last
/// kind of the first suit point at each other.
pub proof fn law_markers_point_at_the_next(kind: int, num_players: nat)
    requires
        0 <= kind < 34,
    ensures
        kind < 27 && (num_players != 3 || kind >= 9) ==> next_kind(kind, num_players) == 9 * (kind
            / 9) + (kind % 9 + 1) % 9,
        27 <= kind < 31 ==> next_kind(kind, num_players) == 27 + (kind - 27 + 1) % 4,
        31 <= kind ==> next_kind(kind, num_players) == 31 + (kind - 31 + 1) % 3,
        num_players == 3 ==> next_kind(0, num_players) == 8 && next_kind(8, num_players) == 0,
        0 <= next_kind(kind, num_players) < 34,
{
}

/// Copies, melded tiles, counts and kans are counted one by one.
pub proof fn law_what_is_counted(
    tiles: Seq<u8>,
    tile: u8,
    kind: int,
    melds: Seq<MeldView>,
    meld: MeldView,
    counts: Seq<u8>,
    count: u8,
)
    ensures
        copies(Seq::empty(), kind) == 0,
        copies(tiles.push(tile), kind) == copies(tiles, kind) + if tile / 4 == kind {
            1nat
        } else {
            0nat
        },
        tiles_in(Seq::empty()).len() == 0,
        tiles_in(melds.push(meld)) == tiles_in(melds) + meld.tiles,
        count_sum(Seq::empty()) == 0,
        count_sum(counts.push(count)) == count_sum(counts) + count,
        kans_in(Seq::empty()) == 0,
        kans_in(melds.push(meld)) == kans_in(melds) + if meld.kind is Daiminkan || meld.kind is Ankan
            || meld.kind is Kakan {
            1nat
        } else {
            0nat
        },
{
    assert(tiles.push(tile).drop_last() =~= tiles);
    assert(melds.push(meld).drop_last() =~= melds);
    assert(counts.push(count).drop_last() =~= counts);
}

/// A hand with one tile less lacks one copy of that tile, and one without the tile
/// is left as it is.
pub proof fn law_one_tile_less(hand: Seq<u8>, tile: u8)
    ensures
        hand.contains(tile) ==> one_less(hand, tile).to_multiset() == hand.to_multiset().remove(
            tile,
        ) && one_less(hand, tile).len() == hand.len() - 1,
        !hand.contains(tile) ==> one_less(hand, tile) == hand,
    decreases hand.len(),
{
    if hand.len() > 0 {
        let rest = hand.drop_last();
        let last = hand.last();
        assert(hand =~= rest.push(last));
        rest.to_multiset_ensures();
        hand.to_multiset_ensures();
        assert(hand.to_multiset() =~= rest.to_multiset().insert(last));
        if last == tile {
            assert(hand[hand.len() - 1] == tile);
            assert(hand.to_multiset().remove(tile) =~= rest.to_multiset());
        } else {
            law_one_tile_less(rest, tile);
            let less = one_less(rest, tile);
            less.to_multiset_ensures();
            assert(less.push(last).to_multiset() =~= less.to_multiset().insert(last));
            if hand.contains(tile) {
                let i = choose|i: int| 0 <= i < hand.len() && hand[i] == tile;
                assert(rest[i] == tile);
                assert(rest.contains(tile));
                assert(rest.to_multiset().count(tile) > 0);
                assert(hand.to_multiset().remove(tile) =~= rest.to_multiset().remove(tile).insert(
                    last,
                ));
            } else {
                if rest.contains(tile) {
                    let i = choose|i: int| 0 <= i < rest.len() && rest[i] == tile;
                    assert(hand[i] == tile);
                }
                assert(less.push(last) =~= hand);
            }
        }
    }
}

/// Nothing is played that the engine would not find its way through: no discard
/// with the turn counter full, no accepted riichi with the sticks counter full or
/// a score that cannot pay, no pon or chi of fewer than two tiles of one's own, no
/// discard that another seat cannot answer.
pub proof fn law_what_tables_refuse(table: TableView, seats: Seq<SeatView>, ev: EventView, i: int)
    requires
        event_fits(ev, table, seats),
    ensures
        ev is Dahai ==> table.turns < u32::MAX,
        ev matches EventView::Dahai { actor, pai, .. } ==> (0 <= i < seats.len() && i != actor
            ==> can_answer(table, seats, i, tile_read(pai))),
        ev matches EventView::Pon { consumed, .. } ==> consumed.len() >= 2,
        ev matches EventView::Chi { consumed, .. } ==> consumed.len() >= 2,
        ev is ReachAccepted ==> table.sticks < u32::MAX,
        ev matches EventView::ReachAccepted { actor } ==> seats[actor as int].score - 1000
            >= i32::MIN,
{
}

/// A seat that can answer has discarded the kind itself, or can be counted, can be
/// told its wind, and is no more than the engine can search and score.
pub proof fn law_who_can_answer(table: TableView, seats: Seq<SeatView>, i: int, tile: u8)
    requires
        can_answer(table, seats, i, tile),
        copies(seats[i].discards, tile as int / 4) == 0,
    ensures
        ({
            let s = seats[i];
            let counts = counts_with(s.hand, s.melds, tile);
            &&& s.hand.len() + 3 * s.melds.len() <= 255
            &&& forall|k: int| 0 <= k < 34 ==> #[trigger] copies(all_held(s), k) <= 255
            &&& copies(all_held(s), 4) + copies(all_held(s), 13) + copies(all_held(s), 22) <= 255
            &&& table.oya <= i + seats.len()
            &&& count_sum(counts) <= 120 || crowd(counts, 27) <= 6
            &&& winning(counts) ==> {
                &&& count_sum(counts) <= 79 || crowd(counts, 27) <= 1
                &&& most_dora(table.markers, all_held(s), seats.len()) <= 255
                &&& tile < 136 || s.hand.len() <= 13
                &&& count_sum(counts) == 14 ==> 36 + 2 * (count_sum(counts) / 3 + s.melds.len())
                    + copies(all_held(s), 4) + copies(all_held(s), 13) + copies(all_held(s), 22) + 1
                    + most_dora(table.markers, all_held(s), seats.len()) <= 255
            }
        }),
{
}

} // verus!
