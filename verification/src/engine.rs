//! The rules engine that follows a game: a four- or three-player table of the
//! engine crate behind one interface.
use vstd::prelude::*;
use riichienv_core::action::{Action, Action3P, Phase};
use riichienv_core::observation::Observation;
use riichienv_core::observation_3p::Observation3P;
use riichienv_core::parser::mjai_to_tid;
use riichienv_core::replay::MjaiEvent;
use riichienv_core::rule::GameRule;
use riichienv_core::state::GameState;
use riichienv_core::state_3p::GameState3P;
use riichienv_core::types::{Hand, Meld, MeldType};
use crate::action_codec::{action_views, legal_mask, mask_of};
use crate::mjai::{event_view, mjai_tile, ActionView, EventView};

verus! {

/// `riichienv_core::rule::GameRule`, read field by field.
#[verifier::external_type_specification]
pub struct ExGameRule(riichienv_core::rule::GameRule);

/// `riichienv_core::action::Phase`, read variant by variant.
#[verifier::external_type_specification]
pub struct ExPhase(riichienv_core::action::Phase);

/// `riichienv_core::types::MeldType`, read variant by variant.
#[verifier::external_type_specification]
pub struct ExMeldType(riichienv_core::types::MeldType);

/// `riichienv_core::types::Meld`, read field by field.
#[verifier::external_type_specification]
pub struct ExMeld(riichienv_core::types::Meld);

/// `riichienv_core::state::GameState`, a table of four.
#[verifier::external_type_specification]
#[verifier::external_body]
pub struct ExGameState(riichienv_core::state::GameState);

/// `riichienv_core::state_3p::GameState3P`, a table of three.
#[verifier::external_type_specification]
#[verifier::external_body]
pub struct ExGameState3P(riichienv_core::state_3p::GameState3P);

/// `riichienv_core::observation::Observation`, what a seat sees of a table of four.
#[verifier::external_type_specification]
#[verifier::external_body]
pub struct ExObservation(riichienv_core::observation::Observation);

/// `riichienv_core::observation_3p::Observation3P`, what a seat sees of a table of three.
#[verifier::external_type_specification]
#[verifier::external_body]
pub struct ExObservation3P(riichienv_core::observation_3p::Observation3P);

/// A meld as a mathematical value.
pub struct MeldView {
    pub kind: MeldType,
    pub tiles: Seq<u8>,
    pub opened: bool,
    pub from_who: i8,
    pub called_tile: Option<u8>,
}

/// What `m` says.
pub open spec fn meld_view(m: Meld) -> MeldView {
    MeldView {
        kind: m.meld_type,
        tiles: m.tiles@,
        opened: m.opened,
        from_who: m.from_who,
        called_tile: m.called_tile,
    }
}

/// What the engine keeps of a seat and looks up when it works out what the seat
/// may do.
pub struct SeatView {
    pub score: i32,
    pub hand: Seq<u8>,
    pub melds: Seq<MeldView>,
    pub discards: Seq<u8>,
}

/// What the engine keeps of the table as a whole and looks up likewise.
pub struct TableView {
    /// The dora markers.
    pub markers: Seq<u8>,
    /// The tile that was drawn last, until it or another is discarded.
    pub drawn: Option<u8>,
    /// The seat whose turn it is.
    pub current: u8,
    /// The dealer.
    pub oya: u8,
    /// How many discards there were in this hand.
    pub turns: u32,
    /// How many riichi deposits lie on the table.
    pub sticks: u32,
    /// How many tiles can still be drawn.
    pub drawable: u8,
    /// Whether a seat is to act or others are to answer.
    pub phase: Phase,
    /// Whether the hand is over.
    pub done: bool,
}

/// The table of four that `state` becomes when `ev` happens.
pub uninterp spec fn four_after(state: GameState, ev: EventView) -> GameState;

/// What `seat` sees of the table of four.
pub uninterp spec fn four_seen(state: GameState, seat: u8) -> Observation;

/// The table of four that `state` is once `seat` has looked at it.
pub uninterp spec fn four_after_look(state: GameState, seat: u8) -> GameState;

/// The seats that may act at the table of four.
pub uninterp spec fn four_active(state: GameState) -> Seq<u8>;

/// The actions that are legal in what a seat of four sees.
pub uninterp spec fn four_legal(obs: Observation) -> Seq<Action>;

/// What a seat of four has.
pub uninterp spec fn four_seat(state: GameState, seat: u8) -> SeatView;

/// What lies on a table of four.
pub uninterp spec fn four_table(state: GameState) -> TableView;

/// Whether a table of four is one that was just set up with these arguments,
/// and nothing was played at it yet. With no seed, chance picks its wall.
pub uninterp spec fn four_fresh(
    state: GameState,
    game_mode: u8,
    skip_mjai_logging: bool,
    seed: Option<u64>,
    round_wind: u8,
    rule: GameRule,
) -> bool;

/// The table of three that `state` becomes when `ev` happens.
pub uninterp spec fn three_after(state: GameState3P, ev: EventView) -> GameState3P;

/// What `seat` sees of the table of three.
pub uninterp spec fn three_seen(state: GameState3P, seat: u8) -> Observation3P;

/// The table of three that `state` is once `seat` has looked at it.
pub uninterp spec fn three_after_look(state: GameState3P, seat: u8) -> GameState3P;

/// The seats that may act at the table of three.
pub uninterp spec fn three_active(state: GameState3P) -> Seq<u8>;

/// The actions that are legal in what a seat of three sees.
pub uninterp spec fn three_legal(obs: Observation3P) -> Seq<Action3P>;

/// What a seat of three has.
pub uninterp spec fn three_seat(state: GameState3P, seat: u8) -> SeatView;

/// What lies on a table of three.
pub uninterp spec fn three_table(state: GameState3P) -> TableView;

/// Whether a table of three is one that was just set up with these arguments,
/// and nothing was played at it yet. With no seed, chance picks its wall.
pub uninterp spec fn three_fresh(
    state: GameState3P,
    game_mode: u8,
    skip_mjai_logging: bool,
    seed: Option<u64>,
    round_wind: u8,
    rule: GameRule,
) -> bool;

/// What the seats of a table of four have.
pub open spec fn seats_of_four(state: GameState) -> Seq<SeatView> {
    Seq::new(4, |i: int| four_seat(state, i as u8))
}

/// What the seats of a table of three have.
pub open spec fn seats_of_three(state: GameState3P) -> Seq<SeatView> {
    Seq::new(3, |i: int| three_seat(state, i as u8))
}

/// The tiles of some melds, one meld after another.
pub open spec fn tiles_in(melds: Seq<MeldView>) -> Seq<u8>
    decreases melds.len(),
{
    if melds.len() == 0 {
        Seq::empty()
    } else {
        tiles_in(melds.drop_last()) + melds.last().tiles
    }
}

/// How many of some tiles are of a kind: ids go four to a kind.
pub open spec fn copies(tiles: Seq<u8>, kind: int) -> nat
    decreases tiles.len(),
{
    if tiles.len() == 0 {
        0
    } else {
        copies(tiles.drop_last(), kind) + if tiles.last() / 4 == kind {
            1nat
        } else {
            0nat
        }
    }
}

/// All tiles of a seat, those in its hand first.
pub open spec fn all_held(s: SeatView) -> Seq<u8> {
    s.hand + tiles_in(s.melds)
}

/// Whether a meld is a kan.
pub open spec fn is_kan(m: MeldView) -> bool {
    m.kind is Daiminkan || m.kind is Ankan || m.kind is Kakan
}

/// Whether the engine finds the first tile of a meld, that of a kan among the
/// kinds of tiles.
pub open spec fn meld_known(m: MeldView) -> bool {
    m.tiles.len() > 0 && (is_kan(m) ==> m.tiles[0] < 136)
}

/// Whether the engine can count the tiles of a seat. It counts in bytes: the
/// tiles of each kind, the red fives, and the hand with three for each meld.
pub open spec fn countable(s: SeatView) -> bool {
    &&& s.hand.len() + 3 * s.melds.len() <= 255
    &&& forall|k: int| 0 <= k < 34 ==> #[trigger] copies(all_held(s), k) <= 255
    &&& copies(all_held(s), 4) + copies(all_held(s), 13) + copies(all_held(s), 22) <= 255
    &&& forall|i: int| 0 <= i < s.melds.len() ==> meld_known(#[trigger] s.melds[i])
}

/// Whether these are ids of tiles that exist.
pub open spec fn all_tiles(tiles: Seq<u8>) -> bool {
    forall|i: int| 0 <= i < tiles.len() ==> #[trigger] tiles[i] < 136
}

/// Whether one of some melds is a kan of a kind.
pub open spec fn has_kan_of(melds: Seq<MeldView>, kind: int) -> bool {
    exists|i: int|
        0 <= i < melds.len() && is_kan(#[trigger] melds[i]) && melds[i].tiles[0] / 4 == kind
}

/// How many tiles of each kind a hand counts for: four of a kind count for three
/// beside a kan of that kind.
pub open spec fn hand_counts(hand: Seq<u8>, melds: Seq<MeldView>) -> Seq<u8> {
    Seq::new(
        34,
        |k: int|
            if copies(hand, k) == 4 && has_kan_of(melds, k) {
                3u8
            } else {
                copies(hand, k) as u8
            },
    )
}

/// The sum of some counts.
pub open spec fn count_sum(counts: Seq<u8>) -> nat
    decreases counts.len(),
{
    if counts.len() == 0 {
        0
    } else {
        count_sum(counts.drop_last()) + counts.last() as nat
    }
}

/// Whether a hand waits for one more tile: with three for each meld it counts
/// thirteen.
pub open spec fn waits_for_one(hand: Seq<u8>, melds: Seq<MeldView>) -> bool {
    count_sum(hand_counts(hand, melds)) + 3 * melds.len() == 13
}

/// How many tiles of each kind a hand counts for with `tile`, which it takes if
/// it waits for one more.
pub open spec fn counts_with(hand: Seq<u8>, melds: Seq<MeldView>, tile: u8) -> Seq<u8> {
    let counts = hand_counts(hand, melds);
    if waits_for_one(hand, melds) && tile < 136 {
        counts.update(tile as int / 4, (counts[tile as int / 4] + 1) as u8)
    } else {
        counts
    }
}

/// Whether so many tiles of each kind make a winning hand.
pub uninterp spec fn winning(counts: Seq<u8>) -> bool;

/// The smaller of two counts.
pub open spec fn fewer(a: u8, b: u8) -> u8 {
    if a < b {
        a
    } else {
        b
    }
}

/// How many runs the first `k` kinds can start, of those with more than four
/// copies.
pub open spec fn crowd(counts: Seq<u8>, k: int) -> nat
    decreases k,
{
    if k <= 0 {
        0
    } else {
        crowd(counts, k - 1) + if (k - 1) % 9 <= 6 && counts[k - 1] > 4 {
            fewer(counts[k - 1], fewer(counts[k], counts[k + 1])) as nat
        } else {
            0nat
        }
    }
}

/// Whether the search for the sets of a hand comes to an end in reasonable time.
/// It tries triplets and runs in every order, which takes time exponential in the
/// runs of kinds that there are more copies of than the game has. Hands of at
/// most 120 tiles, and hands that such kinds start few runs in, do not take long.
pub open spec fn searchable(counts: Seq<u8>) -> bool {
    count_sum(counts) <= 120 || crowd(counts, 27) <= 6
}

/// Whether there is room for all divisions of a winning hand into sets, which the
/// engine lists, one for each order of triplets and runs.
pub open spec fn divisible(counts: Seq<u8>) -> bool {
    count_sum(counts) <= 79 || crowd(counts, 27) <= 1
}

/// The kind of tile that a marker of a kind points at: the next one of its suit,
/// of the winds or of the dragons, and after the last the first. With three
/// players, the first suit has its first and last kind only.
pub open spec fn next_kind(kind: int, num_players: nat) -> int {
    if num_players == 3 && kind < 9 {
        if kind == 0 {
            8
        } else if kind == 8 {
            0
        } else {
            kind
        }
    } else if kind == 8 {
        0
    } else if kind == 17 {
        9
    } else if kind == 26 {
        18
    } else if kind == 30 {
        27
    } else if kind == 33 {
        31
    } else {
        kind + 1
    }
}

/// The most tiles that markers point at among those that a seat holds and the one
/// that it wins with.
pub open spec fn most_dora(markers: Seq<u8>, held: Seq<u8>, num_players: nat) -> nat
    decreases markers.len(),
{
    if markers.len() == 0 {
        0
    } else {
        most_dora(markers.drop_last(), held, num_players) + copies(
            held,
            next_kind(markers.last() as int / 4, num_players),
        ) + 1
    }
}

/// The most red fives among some tiles and one more.
pub open spec fn most_reds(held: Seq<u8>) -> nat {
    copies(held, 4) + copies(held, 13) + copies(held, 22) + 1
}

/// Whether the engine comes to add up what a winning hand is worth: the winning
/// tile has a part in it, or it is as small as seven pairs.
pub open spec fn comes_to_score(counts: Seq<u8>, tile: u8) -> bool {
    (tile < 136 && counts[tile as int / 4] > 0) || count_sum(counts) == 14
}

/// Whether the engine can work out what a winning hand is worth. It lists the
/// hand's divisions. It counts the tiles that markers point at, which it looks up among the kinds, and adds up fu
/// and han, all in bytes: at most 38 fu, 8 for each set and 32 for each meld,
/// rounded up to tens; at most 36 han, 2 for each set and meld, and one for each
/// red five and each tile that a marker points at. A hand of thirteen orphans and
/// a pair, which has more than thirteen tiles, has it look up the winning tile
/// among the kinds, too.
pub open spec fn scorable(
    s: SeatView,
    counts: Seq<u8>,
    markers: Seq<u8>,
    num_players: nat,
    tile: u8,
) -> bool {
    let groups = count_sum(counts) / 3 + s.melds.len();
    let dora = most_dora(markers, all_held(s), num_players);
    &&& divisible(counts)
    &&& all_tiles(markers)
    &&& dora <= 255
    &&& tile < 136 || s.hand.len() <= 13
    &&& comes_to_score(counts, tile) ==> {
        &&& 38 + 8 * (count_sum(counts) / 3) + 32 * s.melds.len() <= 250
        &&& 36 + 2 * groups + most_reds(all_held(s)) + dora <= 255
    }
}

/// Whether the engine can work out what a seat that it can count would win with
/// `hand` and `tile`: it can take the tile and search the hand, and if that wins,
/// it can add up what the win is worth.
pub open spec fn evaluable(
    s: SeatView,
    hand: Seq<u8>,
    markers: Seq<u8>,
    num_players: nat,
    tile: u8,
) -> bool {
    let counts = counts_with(hand, s.melds, tile);
    &&& waits_for_one(hand, s.melds) && tile < 136 ==> copies(all_held(s), tile as int / 4) < 255
    &&& searchable(counts)
    &&& winning(counts) ==> scorable(s, counts, markers, num_players, tile)
}

/// Whether the engine can work out what seat `i` may do about `tile`. A seat that
/// has discarded the kind itself cannot win on it. The winds are counted from the
/// dealer's seat.
pub open spec fn can_answer(table: TableView, seats: Seq<SeatView>, i: int, tile: u8) -> bool {
    copies(seats[i].discards, tile as int / 4) > 0 || {
        &&& countable(seats[i])
        &&& table.oya <= i + seats.len()
        &&& evaluable(seats[i], seats[i].hand, table.markers, seats.len(), tile)
    }
}

/// Whether the engine can work out what each seat but `from` may do about
/// `tile`.
pub open spec fn answerable(table: TableView, seats: Seq<SeatView>, from: int, tile: u8) -> bool {
    forall|i: int|
        0 <= i < seats.len() && i != from ==> #[trigger] can_answer(table, seats, i, tile)
}

/// A hand without one copy of `tile`, the last.
pub open spec fn one_less(hand: Seq<u8>, tile: u8) -> Seq<u8>
    decreases hand.len(),
{
    if hand.len() == 0 {
        hand
    } else if hand.last() == tile {
        hand.drop_last()
    } else {
        one_less(hand.drop_last(), tile).push(hand.last())
    }
}

/// How many kans there are among some melds.
pub open spec fn kans_in(melds: Seq<MeldView>) -> nat
    decreases melds.len(),
{
    if melds.len() == 0 {
        0
    } else {
        kans_in(melds.drop_last()) + if is_kan(melds.last()) {
            1nat
        } else {
            0nat
        }
    }
}

/// How many kans there are at the table.
pub open spec fn kans(seats: Seq<SeatView>) -> nat
    decreases seats.len(),
{
    if seats.len() == 0 {
        0
    } else {
        kans(seats.drop_last()) + kans_in(seats.last().melds)
    }
}

/// Whether the engine can work out what `seat` may do in its turn with the tile
/// that it drew: what it would win and, while kans are possible, which kinds it
/// has four of.
pub open spec fn turn_fits(table: TableView, seats: Seq<SeatView>, seat: u8, tile: u8) -> bool {
    let s = seats[seat as int];
    &&& table.oya <= seat + seats.len()
    &&& evaluable(s, one_less(s.hand, tile), table.markers, seats.len(), tile)
    &&& table.drawable > 0 && kans(seats) < 4 ==> tile < 136 && all_tiles(s.hand)
}

/// Whether the engine can work out what `seat` sees: it can count the seat's
/// tiles and, in the seat's turn after a draw, what the seat may do.
pub open spec fn look_fits(table: TableView, seats: Seq<SeatView>, seat: u8) -> bool {
    &&& seat < seats.len()
    &&& countable(seats[seat as int])
    &&& !table.done && table.phase is WaitAct && table.current == seat ==> match table.drawn {
        None => true,
        Some(tile) => turn_fits(table, seats, seat, tile),
    }
}

/// The tile that the engine reads in a notation: a text that is no tile it
/// reads as its first tile.
pub open spec fn tile_read(s: Seq<char>) -> u8 {
    match mjai_tile(s) {
        Some(t) => t,
        None => 0,
    }
}

/// Whether there is a north tile in a hand.
pub open spec fn has_north(hand: Seq<u8>) -> bool {
    exists|i: int| 0 <= i < hand.len() && #[trigger] hand[i] / 4 == 30
}

/// Whether a table can take in `ev`: the seats and list entries that the engine
/// looks up are there, its counters have room, and after a discard, or a north
/// tile laid aside, it can work out what the others may do about it.
pub open spec fn event_fits(ev: EventView, table: TableView, seats: Seq<SeatView>) -> bool {
    let n = seats.len();
    match ev {
        EventView::StartKyoku { scores, tehais, .. } => scores.len() >= n && tehais.len() <= n,
        EventView::Tsumo { actor, .. } => actor < n,
        EventView::Dahai { actor, pai, .. } => actor < n && table.turns < u32::MAX && answerable(
            table,
            seats,
            actor as int,
            tile_read(pai),
        ),
        EventView::Pon { actor, consumed, .. } => actor < n && consumed.len() >= 2,
        EventView::Chi { actor, consumed, .. } => actor < n && consumed.len() >= 2,
        EventView::Kan { actor, .. } => actor < n,
        EventView::Kakan { actor, .. } => actor < n && forall|i: int|
            0 <= i < seats[actor as int].melds.len() && (
            #[trigger] seats[actor as int].melds[i]).kind is Pon
                ==> seats[actor as int].melds[i].tiles.len() > 0,
        EventView::Ankan { actor, .. } => actor < n,
        EventView::Reach { actor } => actor < n,
        EventView::ReachAccepted { actor } => actor < n && table.sticks < u32::MAX
            && seats[actor as int].score >= i32::MIN + 1000,
        EventView::Kita { actor } => n == 3 ==> actor < n && (has_north(seats[actor as int].hand)
            ==> answerable(table, seats, actor as int, 120)),
        _ => true,
    }
}

/// The rules of Tenhou.
pub open spec fn tenhou() -> GameRule {
    GameRule {
        allows_ron_on_ankan_for_kokushi_musou: false,
        is_kokushi_musou_13machi_double: false,
        is_suuankou_tanki_double: false,
        is_junsei_chuurenpoutou_double: false,
        is_daisuushii_double: false,
        yakuman_pao_is_liability_only: false,
        sanchaho_is_draw: true,
        kuikae_forbidden: true,
        dealer_first_discard_is_tedashi: false,
    }
}

/// `riichienv_core::rule::GameRule::default_tenhou`: the rules of Tenhou.
pub assume_specification[ riichienv_core::rule::GameRule::default_tenhou ]() -> (rule: GameRule)
    ensures
        rule == tenhou(),
;

/// `riichienv_core::state::GameState::new`: a fresh table of four, set up with
/// these arguments. Without a seed its wall is shuffled by chance, so nothing is
/// said of the wall.
pub assume_specification[ riichienv_core::state::GameState::new ](
    game_mode: u8,
    skip_mjai_logging: bool,
    seed: Option<u64>,
    round_wind: u8,
    rule: GameRule,
) -> (state: GameState)
    ensures
        four_fresh(state, game_mode, skip_mjai_logging, seed, round_wind, rule),
;

/// `riichienv_core::state_3p::GameState3P::new`: a fresh table of three, as of
/// four.
pub assume_specification[ riichienv_core::state_3p::GameState3P::new ](
    game_mode: u8,
    skip_mjai_logging: bool,
    seed: Option<u64>,
    round_wind: u8,
    rule: GameRule,
) -> (state: GameState3P)
    ensures
        three_fresh(state, game_mode, skip_mjai_logging, seed, round_wind, rule),
;

/// `riichienv_core::state::GameState::apply_mjai_event`: the table moves on by
/// an event, in a way that its state and what the event says determine. What the
/// event makes the table look up must exist, and what it makes the table count
/// must fit.
pub assume_specification[ riichienv_core::state::GameState::apply_mjai_event ](
    state: &mut GameState,
    event: MjaiEvent,
)
    requires
        event_fits(event_view(event), four_table(*old(state)), seats_of_four(*old(state))),
    ensures
        *final(state) == four_after(*old(state), event_view(event)),
;

/// `riichienv_core::state_3p::GameState3P::apply_mjai_event`: as at a table of
/// four.
pub assume_specification[ riichienv_core::state_3p::GameState3P::apply_mjai_event ](
    state: &mut GameState3P,
    event: MjaiEvent,
)
    requires
        event_fits(event_view(event), three_table(*old(state)), seats_of_three(*old(state))),
    ensures
        *final(state) == three_after(*old(state), event_view(event)),
;

/// `riichienv_core::state::GameState::get_observation`: what a seat sees, which
/// the table determines; the table notes how far the seat has looked. What
/// the table counts for it must fit.
pub assume_specification[ riichienv_core::state::GameState::get_observation ](
    state: &mut GameState,
    player_id: u8,
) -> (obs: Observation)
    requires
        look_fits(four_table(*old(state)), seats_of_four(*old(state)), player_id),
    ensures
        obs == four_seen(*old(state), player_id),
        *final(state) == four_after_look(*old(state), player_id),
;

/// `riichienv_core::state_3p::GameState3P::get_observation`: as at a table of
/// four.
pub assume_specification[ riichienv_core::state_3p::GameState3P::get_observation ](
    state: &mut GameState3P,
    player_id: u8,
) -> (obs: Observation3P)
    requires
        look_fits(three_table(*old(state)), seats_of_three(*old(state)), player_id),
    ensures
        obs == three_seen(*old(state), player_id),
        *final(state) == three_after_look(*old(state), player_id),
;

/// `riichienv_core::observation::Observation::legal_actions_method`: the legal
/// actions that the observation holds.
pub assume_specification[ riichienv_core::observation::Observation::legal_actions_method ](
    obs: &Observation,
) -> (legal: Vec<Action>)
    ensures
        legal@ == four_legal(*obs),
;

/// `riichienv_core::observation_3p::Observation3P::legal_actions_method`: the
/// legal actions that the observation holds.
pub assume_specification[ riichienv_core::observation_3p::Observation3P::legal_actions_method ](
    obs: &Observation3P,
) -> (legal: Vec<Action3P>)
    ensures
        legal@ == three_legal(*obs),
;

/// The field `active_players` of `riichienv_core::state::GameState`: the seats
/// that may act.
#[verifier::external_body]
fn active_of_four(state: &GameState) -> (seats: Vec<u8>)
    ensures
        seats@ == four_active(*state),
{
    state.active_players.clone()
}

/// The field `active_players` of `riichienv_core::state_3p::GameState3P`: the
/// seats that may act.
#[verifier::external_body]
fn active_of_three(state: &GameState3P) -> (seats: Vec<u8>)
    ensures
        seats@ == three_active(*state),
{
    state.active_players.clone()
}

/// What a seat has, as read off the table.
pub struct SeatFacts {
    pub score: i32,
    pub hand: Vec<u8>,
    pub melds: Vec<Meld>,
    pub discards: Vec<u8>,
}

impl View for SeatFacts {
    type V = SeatView;

    open spec fn view(&self) -> SeatView {
        SeatView {
            score: self.score,
            hand: self.hand@,
            melds: self.melds@.map_values(|m: Meld| meld_view(m)),
            discards: self.discards@,
        }
    }
}

/// What lies on the table, as read off it.
pub struct TableFacts {
    pub markers: Vec<u8>,
    pub drawn: Option<u8>,
    pub current: u8,
    pub oya: u8,
    pub turns: u32,
    pub sticks: u32,
    pub drawable: u8,
    pub phase: Phase,
    pub done: bool,
}

impl View for TableFacts {
    type V = TableView;

    open spec fn view(&self) -> TableView {
        TableView {
            markers: self.markers@,
            drawn: self.drawn,
            current: self.current,
            oya: self.oya,
            turns: self.turns,
            sticks: self.sticks,
            drawable: self.drawable,
            phase: self.phase,
            done: self.done,
        }
    }
}

/// Fields of a player of `riichienv_core::state::GameState`: what the seat has.
#[verifier::external_body]
fn seat_of_four(state: &GameState, seat: u8) -> (r: SeatFacts)
    requires
        seat < 4,
    ensures
        r@ == four_seat(*state, seat),
{
    let p = &state.players[seat as usize];
    SeatFacts {
        score: p.score,
        hand: p.hand.clone(),
        melds: p.melds.clone(),
        discards: p.discards.clone(),
    }
}

/// Fields of `riichienv_core::state::GameState`: what lies on the table.
#[verifier::external_body]
fn table_of_four(state: &GameState) -> (r: TableFacts)
    ensures
        r@ == four_table(*state),
{
    TableFacts {
        markers: state.wall.dora_indicators.clone(),
        drawn: state.drawn_tile,
        current: state.current_player,
        oya: state.oya,
        turns: state.turn_count,
        sticks: state.riichi_sticks,
        drawable: state.wall.drawable_count,
        phase: state.phase,
        done: state.is_done,
    }
}

/// Fields of a player of `riichienv_core::state_3p::GameState3P`: what the seat has.
#[verifier::external_body]
fn seat_of_three(state: &GameState3P, seat: u8) -> (r: SeatFacts)
    requires
        seat < 3,
    ensures
        r@ == three_seat(*state, seat),
{
    let p = &state.players[seat as usize];
    SeatFacts {
        score: p.score,
        hand: p.hand.clone(),
        melds: p.melds.clone(),
        discards: p.discards.clone(),
    }
}

/// Fields of `riichienv_core::state_3p::GameState3P`: what lies on the table.
#[verifier::external_body]
fn table_of_three(state: &GameState3P) -> (r: TableFacts)
    ensures
        r@ == three_table(*state),
{
    TableFacts {
        markers: state.wall.dora_indicators.clone(),
        drawn: state.drawn_tile,
        current: state.current_player,
        oya: state.oya,
        turns: state.turn_count,
        sticks: state.riichi_sticks,
        drawable: state.wall.drawable_count,
        phase: state.phase,
        done: state.is_done,
    }
}

/// What seats say.
pub open spec fn seat_views(seats: Seq<SeatFacts>) -> Seq<SeatView> {
    seats.map_values(|s: SeatFacts| s@)
}

/// `riichienv_core::agari::is_agari`: whether so many tiles of each kind make a
/// winning hand. The counts alone determine it.
#[verifier::external_body]
fn is_winning(counts: &Vec<u8>) -> (r: bool)
    requires
        counts@.len() == 34,
        searchable(counts@),
    ensures
        r == winning(counts@),
{
    let mut hand = Hand::default();
    hand.counts.copy_from_slice(counts);
    riichienv_core::agari::is_agari(&mut hand)
}

/// There are no more copies than tiles.
pub(crate) proof fn lemma_copies_bound(tiles: Seq<u8>, kind: int)
    ensures
        copies(tiles, kind) <= tiles.len(),
    decreases tiles.len(),
{
    if tiles.len() > 0 {
        lemma_copies_bound(tiles.drop_last(), kind);
    }
}

/// The copies in two lists are those in the one and those in the other.
proof fn lemma_copies_add(a: Seq<u8>, b: Seq<u8>, kind: int)
    ensures
        copies(a + b, kind) == copies(a, kind) + copies(b, kind),
    decreases b.len(),
{
    if b.len() > 0 {
        lemma_copies_add(a, b.drop_last(), kind);
        assert((a + b).drop_last() =~= a + b.drop_last());
    } else {
        assert(a + b =~= a);
    }
}

/// A hand with one tile less has no more copies of a kind.
pub(crate) proof fn lemma_copies_one_less(hand: Seq<u8>, tile: u8, kind: int)
    ensures
        copies(one_less(hand, tile), kind) <= copies(hand, kind),
        one_less(hand, tile).len() <= hand.len(),
    decreases hand.len(),
{
    if hand.len() > 0 && hand.last() != tile {
        lemma_copies_one_less(hand.drop_last(), tile, kind);
        let less = one_less(hand.drop_last(), tile);
        assert(less.push(hand.last()).drop_last() =~= less);
    }
}

/// How many of some tiles are of each kind.
fn kind_counts(tiles: &Vec<u8>) -> (counts: Vec<usize>)
    ensures
        counts@.len() == 34,
        forall|k: int| 0 <= k < 34 ==> #[trigger] counts@[k] == copies(tiles@, k),
{
    let mut counts: Vec<usize> = Vec::new();
    counts.resize(34, 0);
    for i in 0..tiles.len()
        invariant
            counts@.len() == 34,
            forall|k: int| 0 <= k < 34 ==> #[trigger] counts@[k] == copies(tiles@.take(i as int), k),
    {
        let kind = (tiles[i] / 4) as usize;
        proof {
            assert(tiles@.take(i + 1).drop_last() =~= tiles@.take(i as int));
            assert(tiles@.take(i + 1).last() == tiles@[i as int]);
            lemma_copies_bound(tiles@.take(i as int), kind as int);
        }
        if kind < 34 {
            let n = counts[kind];
            counts.set(kind, n + 1);
        }
    }
    assert(tiles@.take(tiles@.len() as int) =~= tiles@);
    counts
}

/// Whether some tiles hold one of a kind.
fn holds_kind(tiles: &Vec<u8>, kind: u8) -> (r: bool)
    ensures
        r == (copies(tiles@, kind as int) > 0),
{
    for i in 0..tiles.len()
        invariant
            copies(tiles@.take(i as int), kind as int) == 0,
    {
        proof {
            assert(tiles@.take(i + 1).drop_last() =~= tiles@.take(i as int));
            assert(tiles@.take(i + 1).last() == tiles@[i as int]);
        }
        if tiles[i] / 4 == kind {
            proof {
                lemma_copies_add(tiles@.take(i + 1), tiles@.skip(i + 1), kind as int);
                assert(tiles@.take(i + 1) + tiles@.skip(i + 1) =~= tiles@);
            }
            return true;
        }
    }
    assert(tiles@.take(tiles@.len() as int) =~= tiles@);
    false
}

/// A hand without one copy of `tile`, the last.
fn less_one(hand: &Vec<u8>, tile: u8) -> (r: Vec<u8>)
    ensures
        r@ == one_less(hand@, tile),
{
    let n = hand.len();
    let mut at: usize = n;
    while at > 0 && hand[at - 1] != tile
        invariant
            n == hand@.len(),
            at <= n,
            forall|j: int| at <= j < n ==> #[trigger] hand@[j] != tile,
        decreases at,
    {
        at -= 1;
    }
    let mut r: Vec<u8> = Vec::new();
    for i in 0..n
        invariant
            n == hand@.len(),
            at <= n,
            r@ == (if at == 0 || i < at {
                hand@.take(i as int)
            } else {
                hand@.take(at - 1) + hand@.subrange(at as int, i as int)
            }),
    {
        if at == 0 || i != at - 1 {
            r.push(hand[i]);
        }
    }
    proof {
        lemma_one_less(hand@, tile, at as int);
        assert(hand@.take(n as int) =~= hand@);
        assert(at > 0 ==> hand@.subrange(at as int, n as int) =~= hand@.skip(at as int));
    }
    r
}

/// Where the last copy stands is where it is taken out.
proof fn lemma_one_less(hand: Seq<u8>, tile: u8, at: int)
    requires
        0 <= at <= hand.len(),
        at > 0 ==> hand[at - 1] == tile,
        forall|j: int| at <= j < hand.len() ==> #[trigger] hand[j] != tile,
    ensures
        one_less(hand, tile) == if at == 0 {
            hand
        } else {
            hand.take(at - 1) + hand.skip(at)
        },
    decreases hand.len(),
{
    if hand.len() == 0 {
    } else if at == hand.len() {
        assert(hand.take(at - 1) + hand.skip(at) =~= hand.drop_last());
    } else {
        assert(hand[hand.len() - 1] != tile);
        lemma_one_less(hand.drop_last(), tile, at);
        if at == 0 {
            assert(hand.drop_last().push(hand.last()) =~= hand);
        } else {
            assert((hand.drop_last().take(at - 1) + hand.drop_last().skip(at)).push(hand.last())
                =~= hand.take(at - 1) + hand.skip(at));
        }
    }
}

/// The sum of some counts.
fn sum_counts(counts: &Vec<u8>) -> (r: usize)
    requires
        counts@.len() == 34,
    ensures
        r == count_sum(counts@),
        r <= 34 * 255,
{
    let mut sum: usize = 0;
    for i in 0..counts.len()
        invariant
            counts@.len() == 34,
            sum == count_sum(counts@.take(i as int)),
            sum <= i * 255,
    {
        assert(counts@.take(i + 1).drop_last() =~= counts@.take(i as int));
        sum = sum + counts[i] as usize;
    }
    assert(counts@.take(34) =~= counts@);
    sum
}

/// The smaller of two counts.
fn lesser(a: u8, b: u8) -> (r: u8)
    ensures
        r == fewer(a, b),
{
    if a < b {
        a
    } else {
        b
    }
}

/// How many runs the kinds with more than four copies can start.
fn crowded_runs(counts: &Vec<u8>) -> (r: usize)
    requires
        counts@.len() == 34,
    ensures
        r == crowd(counts@, 27),
{
    let mut runs: usize = 0;
    for k in 0..27
        invariant
            counts@.len() == 34,
            runs == crowd(counts@, k as int),
            runs <= k * 255,
    {
        if k % 9 <= 6 && counts[k] > 4 {
            runs = runs + lesser(counts[k], lesser(counts[k + 1], counts[k + 2])) as usize;
        }
    }
    runs
}

/// Whether the search for the sets of a hand comes to an end in reasonable time.
fn is_searchable(counts: &Vec<u8>) -> (r: bool)
    requires
        counts@.len() == 34,
    ensures
        r == searchable(counts@),
{
    sum_counts(counts) <= 120 || crowded_runs(counts) <= 6
}

/// Whether these are ids of tiles that exist.
fn are_tiles(tiles: &Vec<u8>) -> (r: bool)
    ensures
        r == all_tiles(tiles@),
{
    for i in 0..tiles.len()
        invariant
            forall|j: int| 0 <= j < i ==> #[trigger] tiles@[j] < 136,
    {
        if tiles[i] >= 136 {
            assert(!(tiles@[i as int] < 136));
            return false;
        }
    }
    true
}

/// Whether there is a north tile in a hand.
fn holds_north(hand: &Vec<u8>) -> (r: bool)
    ensures
        r == has_north(hand@),
{
    for i in 0..hand.len()
        invariant
            forall|j: int| 0 <= j < i ==> #[trigger] hand@[j] / 4 != 30,
    {
        if hand[i] / 4 == 30 {
            assert(hand@[i as int] / 4 == 30);
            return true;
        }
    }
    false
}

/// The tile that the engine reads in a notation.
fn read_tile(s: &str) -> (t: u8)
    ensures
        t == tile_read(s@),
{
    match mjai_to_tid(s) {
        Some(t) => t,
        None => 0,
    }
}

/// The kind of tile that a marker of a kind points at.
fn kind_after(kind: usize, num_players: u8) -> (r: usize)
    requires
        kind < 34,
    ensures
        r == next_kind(kind as int, num_players as nat),
        r < 34,
{
    if num_players == 3 && kind < 9 {
        if kind == 0 {
            8
        } else if kind == 8 {
            0
        } else {
            kind
        }
    } else if kind == 8 {
        0
    } else if kind == 17 {
        9
    } else if kind == 26 {
        18
    } else if kind == 30 {
        27
    } else if kind == 33 {
        31
    } else {
        kind + 1
    }
}

/// The first markers point at no more tiles than all of them.
proof fn lemma_most_dora_take(markers: Seq<u8>, held: Seq<u8>, num_players: nat, k: int)
    requires
        0 <= k <= markers.len(),
    ensures
        most_dora(markers.take(k), held, num_players) <= most_dora(markers, held, num_players),
    decreases markers.len() - k,
{
    if k < markers.len() {
        assert(markers.take(k + 1).drop_last() =~= markers.take(k));
        lemma_most_dora_take(markers, held, num_players, k + 1);
    } else {
        assert(markers.take(k) =~= markers);
    }
}

/// The most tiles that markers point at, if they are at most 255.
fn dora_of(
    markers: &Vec<u8>,
    counts: &Vec<usize>,
    held: Ghost<Seq<u8>>,
    num_players: u8,
) -> (r: Option<usize>)
    requires
        all_tiles(markers@),
        counts@.len() == 34,
        forall|k: int| 0 <= k < 34 ==> #[trigger] counts@[k] == copies(held@, k),
        forall|k: int| 0 <= k < 34 ==> #[trigger] copies(held@, k) <= 255,
    ensures
        match r {
            Some(n) => n == most_dora(markers@, held@, num_players as nat) && n <= 255,
            None => most_dora(markers@, held@, num_players as nat) > 255,
        },
{
    let mut sum: usize = 0;
    for i in 0..markers.len()
        invariant
            all_tiles(markers@),
            counts@.len() == 34,
            forall|k: int| 0 <= k < 34 ==> #[trigger] counts@[k] == copies(held@, k),
            forall|k: int| 0 <= k < 34 ==> #[trigger] copies(held@, k) <= 255,
            sum == most_dora(markers@.take(i as int), held@, num_players as nat),
            sum <= 255,
    {
        let kind = kind_after((markers[i] / 4) as usize, num_players);
        proof {
            assert(markers@.take(i + 1).drop_last() =~= markers@.take(i as int));
            assert(markers@.take(i + 1).last() == markers@[i as int]);
            assert(counts@[kind as int] == copies(held@, kind as int));
            lemma_most_dora_take(markers@, held@, num_players as nat, i + 1);
        }
        sum = sum + counts[kind] + 1;
        if sum > 255 {
            return None;
        }
    }
    assert(markers@.take(markers@.len() as int) =~= markers@);
    Some(sum)
}

impl SeatFacts {
    /// All tiles of the seat.
    fn held(&self) -> (r: Vec<u8>)
        ensures
            r@ == all_held(self@),
    {
        let ghost melds = self@.melds;
        let mut r = self.hand.clone();
        assert(r@ =~= self.hand@ + tiles_in(melds.take(0)));
        for i in 0..self.melds.len()
            invariant
                melds == self@.melds,
                r@ == self.hand@ + tiles_in(melds.take(i as int)),
        {
            proof {
                assert(melds.take(i + 1).drop_last() =~= melds.take(i as int));
                assert(melds.take(i + 1).last() == meld_view(self.melds@[i as int]));
            }
            let ghost before = r@;
            r.extend_from_slice(self.melds[i].tiles.as_slice());
            assert(r@ =~= before + self.melds@[i as int].tiles@);
            assert(r@ =~= self.hand@ + tiles_in(melds.take(i + 1)));
        }
        assert(melds.take(melds.len() as int) =~= melds);
        r
    }

    /// Whether the engine can count the seat's tiles.
    fn is_countable(&self) -> (r: bool)
        ensures
            r == countable(self@),
    {
        for i in 0..self.melds.len()
            invariant
                forall|j: int| 0 <= j < i ==> meld_known(#[trigger] self@.melds[j]),
        {
            let m = &self.melds[i];
            assert(self@.melds[i as int] == meld_view(*m));
            let kan = !matches!(m.meld_type, MeldType::Chi | MeldType::Pon);
            if m.tiles.len() == 0 || (kan && m.tiles[0] >= 136) {
                assert(!meld_known(self@.melds[i as int]));
                return false;
            }
        }
        let h = self.hand.len();
        let m = self.melds.len();
        if h > 255 || m > 85 || h + 3 * m > 255 {
            return false;
        }
        let counts = kind_counts(&self.held());
        for k in 0..34
            invariant
                counts@.len() == 34,
                forall|j: int| 0 <= j < 34 ==> #[trigger] counts@[j] == copies(all_held(self@), j),
                forall|j: int| 0 <= j < k ==> #[trigger] copies(all_held(self@), j) <= 255,
        {
            assert(counts@[k as int] == copies(all_held(self@), k as int));
            if counts[k] > 255 {
                return false;
            }
        }
        assert(copies(all_held(self@), 4) <= 255 && copies(all_held(self@), 13) <= 255 && copies(
            all_held(self@),
            22,
        ) <= 255);
        assert(counts@[4] == copies(all_held(self@), 4));
        assert(counts@[13] == copies(all_held(self@), 13));
        assert(counts@[22] == copies(all_held(self@), 22));
        counts[4] + counts[13] + counts[22] <= 255
    }

    /// Whether one of the melds is a kan of a kind.
    fn has_kan(&self, kind: u8) -> (r: bool)
        requires
            countable(self@),
        ensures
            r == has_kan_of(self@.melds, kind as int),
    {
        for i in 0..self.melds.len()
            invariant
                countable(self@),
                forall|j: int|
                    0 <= j < i ==> !(is_kan(#[trigger] self@.melds[j])
                        && self@.melds[j].tiles[0] / 4 == kind),
        {
            let m = &self.melds[i];
            assert(self@.melds[i as int] == meld_view(*m));
            assert(meld_known(self@.melds[i as int]));
            let kan = !matches!(m.meld_type, MeldType::Chi | MeldType::Pon);
            if kan && m.tiles[0] / 4 == kind {
                assert(is_kan(self@.melds[i as int]));
                return true;
            }
        }
        false
    }

    /// How many tiles of each kind `hand` counts for beside the seat's melds.
    fn counts_of(&self, hand: &Vec<u8>) -> (r: Vec<u8>)
        requires
            countable(self@),
            forall|k: int| #[trigger] copies(hand@, k) <= copies(self@.hand, k),
        ensures
            r@ == hand_counts(hand@, self@.melds),
    {
        let counts = kind_counts(hand);
        let mut r: Vec<u8> = Vec::new();
        for k in 0..34
            invariant
                countable(self@),
                forall|j: int| #[trigger] copies(hand@, j) <= copies(self@.hand, j),
                counts@.len() == 34,
                forall|j: int| 0 <= j < 34 ==> #[trigger] counts@[j] == copies(hand@, j),
                r@ == hand_counts(hand@, self@.melds).take(k as int),
        {
            proof {
                assert(counts@[k as int] == copies(hand@, k as int));
                lemma_copies_add(self@.hand, tiles_in(self@.melds), k as int);
                assert(copies(all_held(self@), k as int) <= 255);
            }
            let n = if counts[k] == 4 && self.has_kan(k as u8) {
                3
            } else {
                counts[k] as u8
            };
            r.push(n);
            assert(r@ =~= hand_counts(hand@, self@.melds).take(k + 1));
        }
        assert(hand_counts(hand@, self@.melds).take(34) =~= hand_counts(hand@, self@.melds));
        r
    }

    /// Whether the engine can work out what a winning hand is worth.
    fn is_scorable(&self, counts: &Vec<u8>, markers: &Vec<u8>, num_players: u8, tile: u8) -> (r:
        bool)
        requires
            counts@.len() == 34,
            countable(self@),
        ensures
            r == scorable(self@, counts@, markers@, num_players as nat, tile),
    {
        let sum = sum_counts(counts);
        if !(sum <= 79 || crowded_runs(counts) <= 1) || !are_tiles(markers) {
            return false;
        }
        let held = kind_counts(&self.held());
        let dora = match dora_of(markers, &held, Ghost(all_held(self@)), num_players) {
            None => return false,
            Some(n) => n,
        };
        if tile >= 136 && self.hand.len() > 13 {
            return false;
        }
        if !((tile < 136 && counts[(tile / 4) as usize] > 0) || sum == 14) {
            return true;
        }
        assert(held@[4] == copies(all_held(self@), 4));
        assert(held@[13] == copies(all_held(self@), 13));
        assert(held@[22] == copies(all_held(self@), 22));
        assert(copies(all_held(self@), 4) <= 255);
        assert(copies(all_held(self@), 13) <= 255);
        assert(copies(all_held(self@), 22) <= 255);
        let sets = sum / 3;
        let m = self.melds.len();
        38 + 8 * sets + 32 * m <= 250 && 36 + 2 * (sets + m) + (held[4] + held[13] + held[22] + 1)
            + dora <= 255
    }

    /// Whether the engine can work out what the seat would win with `hand` and
    /// `tile`.
    fn is_evaluable(&self, hand: &Vec<u8>, markers: &Vec<u8>, num_players: u8, tile: u8) -> (r:
        bool)
        requires
            countable(self@),
            forall|k: int| #[trigger] copies(hand@, k) <= copies(self@.hand, k),
        ensures
            r == evaluable(self@, hand@, markers@, num_players as nat, tile),
    {
        let mut counts = self.counts_of(hand);
        let waits = sum_counts(&counts) + 3 * self.melds.len() == 13;
        let kind = (tile / 4) as usize;
        if waits && tile < 136 {
            let held = kind_counts(&self.held());
            assert(held@[kind as int] == copies(all_held(self@), kind as int));
            if held[kind] >= 255 {
                return false;
            }
            proof {
                lemma_copies_add(self@.hand, tiles_in(self@.melds), kind as int);
                assert(copies(hand@, kind as int) <= copies(self@.hand, kind as int));
            }
            let n = counts[kind];
            counts.set(kind, n + 1);
        }
        assert(counts@ =~= counts_with(hand@, self@.melds, tile));
        is_searchable(&counts) && (!is_winning(&counts) || self.is_scorable(
            &counts,
            markers,
            num_players,
            tile,
        ))
    }

    /// Whether the engine can work out what the seat, `i` of `n`, may do about
    /// `tile`.
    fn can_answer(&self, table: &TableFacts, i: usize, n: usize, tile: u8) -> (r: bool)
        requires
            i < n <= 4,
        ensures
            r == (copies(self@.discards, tile as int / 4) > 0 || (countable(self@) && table.oya <= i
                + n && evaluable(self@, self@.hand, table@.markers, n as nat, tile))),
    {
        holds_kind(&self.discards, tile / 4) || (self.is_countable() && table.oya as usize <= i + n
            && self.is_evaluable(&self.hand, &table.markers, n as u8, tile))
    }

    /// How many kans the seat has, or four if it has more.
    fn kans(&self) -> (r: usize)
        ensures
            r <= 4,
            r < 4 ==> r == kans_in(self@.melds),
            r == 4 ==> kans_in(self@.melds) >= 4,
    {
        let ghost melds = self@.melds;
        let mut r: usize = 0;
        for i in 0..self.melds.len()
            invariant
                melds == self@.melds,
                r <= 4,
                r < 4 ==> r == kans_in(melds.take(i as int)),
                r == 4 ==> kans_in(melds.take(i as int)) >= 4,
        {
            proof {
                assert(melds.take(i + 1).drop_last() =~= melds.take(i as int));
                assert(melds.take(i + 1).last() == meld_view(self.melds@[i as int]));
            }
            let kan = !matches!(self.melds[i].meld_type, MeldType::Chi | MeldType::Pon);
            if kan && r < 4 {
                r = r + 1;
            }
        }
        assert(melds.take(melds.len() as int) =~= melds);
        r
    }
}

/// Whether there are fewer than four kans at the table.
fn kans_are_left(seats: &Vec<SeatFacts>) -> (r: bool)
    requires
        seats@.len() <= 4,
    ensures
        r == (kans(seat_views(seats@)) < 4),
{
    let ghost views = seat_views(seats@);
    let mut sum: usize = 0;
    for i in 0..seats.len()
        invariant
            seats@.len() <= 4,
            views == seat_views(seats@),
            sum <= 4 * i,
            sum < 4 ==> sum == kans(views.take(i as int)),
            sum >= 4 ==> kans(views.take(i as int)) >= 4,
    {
        proof {
            assert(views.take(i + 1).drop_last() =~= views.take(i as int));
            assert(views.take(i + 1).last() == seats@[i as int]@);
        }
        sum = sum + seats[i].kans();
    }
    assert(views.take(views.len() as int) =~= views);
    sum < 4
}

/// Whether the engine can work out what each seat but `from` may do about
/// `tile`.
fn is_answerable(table: &TableFacts, seats: &Vec<SeatFacts>, from: usize, tile: u8) -> (r: bool)
    requires
        seats@.len() <= 4,
    ensures
        r == answerable(table@, seat_views(seats@), from as int, tile),
{
    let ghost views = seat_views(seats@);
    for i in 0..seats.len()
        invariant
            seats@.len() <= 4,
            views == seat_views(seats@),
            forall|j: int|
                0 <= j < i && j != from ==> #[trigger] can_answer(table@, views, j, tile),
    {
        assert(views[i as int] == seats@[i as int]@);
        if i != from {
            if !seats[i].can_answer(table, i, seats.len(), tile) {
                assert(!can_answer(table@, views, i as int, tile));
                return false;
            }
            assert(can_answer(table@, views, i as int, tile));
        }
    }
    true
}

/// Whether the engine can work out what `seat` sees.
fn is_look_fit(table: &TableFacts, seats: &Vec<SeatFacts>, seat: u8) -> (r: bool)
    requires
        seats@.len() <= 4,
    ensures
        r == look_fits(table@, seat_views(seats@), seat),
{
    let k = seat as usize;
    if k >= seats.len() {
        return false;
    }
    assert(seat_views(seats@)[k as int] == seats@[k as int]@);
    if !seats[k].is_countable() {
        return false;
    }
    if table.done || !matches!(table.phase, Phase::WaitAct) || table.current != seat {
        return true;
    }
    match table.drawn {
        None => true,
        Some(tile) => {
            let less = less_one(&seats[k].hand, tile);
            proof {
                assert forall|j: int| #[trigger] copies(less@, j) <= copies(
                    seats@[k as int]@.hand,
                    j,
                ) by {
                    lemma_copies_one_less(seats@[k as int].hand@, tile, j);
                }
            }
            table.oya as usize <= k + seats.len() && seats[k].is_evaluable(
                &less,
                &table.markers,
                seats.len() as u8,
                tile,
            ) && (table.drawable == 0 || !kans_are_left(seats) || (tile < 136 && are_tiles(
                &seats[k].hand,
            )))
        },
    }
}

/// Whether each pon among some melds has a tile.
fn pons_have_tiles(melds: &Vec<Meld>) -> (r: bool)
    ensures
        r == forall|i: int|
            0 <= i < melds@.len() && (#[trigger] meld_view(melds@[i])).kind is Pon ==> meld_view(
                melds@[i],
            ).tiles.len() > 0,
{
    for i in 0..melds.len()
        invariant
            forall|j: int|
                0 <= j < i && (#[trigger] meld_view(melds@[j])).kind is Pon ==> meld_view(
                    melds@[j],
                ).tiles.len() > 0,
    {
        if matches!(melds[i].meld_type, MeldType::Pon) && melds[i].tiles.len() == 0 {
            assert(meld_view(melds@[i as int]).kind is Pon);
            return false;
        }
    }
    true
}

/// Whether a table can take in `ev`.
fn is_event_fit(ev: &MjaiEvent, table: &TableFacts, seats: &Vec<SeatFacts>) -> (r: bool)
    requires
        seats@.len() <= 4,
    ensures
        r == event_fits(event_view(*ev), table@, seat_views(seats@)),
{
    let n = seats.len();
    match ev {
        MjaiEvent::StartKyoku { scores, tehais, .. } => scores.len() >= n && tehais.len() <= n,
        MjaiEvent::Tsumo { actor, .. } => *actor < n,
        MjaiEvent::Dahai { actor, pai, .. } => *actor < n && table.turns < u32::MAX
            && is_answerable(table, seats, *actor, read_tile(pai.as_str())),
        MjaiEvent::Pon { actor, consumed, .. } => *actor < n && consumed.len() >= 2,
        MjaiEvent::Chi { actor, consumed, .. } => *actor < n && consumed.len() >= 2,
        MjaiEvent::Kan { actor, .. } => *actor < n,
        MjaiEvent::Kakan { actor, .. } => {
            if *actor >= n {
                return false;
            }
            proof {
                let melds = seats@[*actor as int].melds@;
                let views = seat_views(seats@)[*actor as int].melds;
                assert(forall|i: int|
                    0 <= i < melds.len() ==> #[trigger] views[i] == meld_view(melds[i]));
                assert(forall|i: int|
                    0 <= i < melds.len() ==> #[trigger] meld_view(melds[i]) == views[i]);
            }
            pons_have_tiles(&seats[*actor].melds)
        },
        MjaiEvent::Ankan { actor, .. } => *actor < n,
        MjaiEvent::Reach { actor } => *actor < n,
        MjaiEvent::ReachAccepted { actor } => *actor < n && table.sticks < u32::MAX
            && seats[*actor].score >= i32::MIN + 1000,
        MjaiEvent::Kita { actor } => n != 3 || (*actor < n && (!holds_north(&seats[*actor].hand)
            || is_answerable(table, seats, *actor, 120))),
        _ => true,
    }
}

/// What a seat sees at a decision.
pub enum Snapshot {
    Four(Observation),
    Three(Observation3P),
}

impl Snapshot {
    /// What the legal actions of the seat say.
    pub open spec fn legal_views(self) -> Seq<ActionView> {
        match self {
            Snapshot::Four(obs) => action_views(four_legal(obs)),
            Snapshot::Three(obs) => action_views(
                three_legal(obs).map_values(|a: Action3P| a.0),
            ),
        }
    }

    /// The legal actions of the seat.
    pub fn legal_actions(&self) -> (legal: Vec<Action>)
        ensures
            action_views(legal@) == self.legal_views(),
    {
        match self {
            Snapshot::Four(obs) => obs.legal_actions_method(),
            Snapshot::Three(obs) => {
                let wrapped = obs.legal_actions_method();
                let ghost inner = wrapped@.map_values(|a: Action3P| a.0);
                let mut legal: Vec<Action> = Vec::new();
                for a in it: wrapped
                    invariant
                        it.seq().len() == inner.len(),
                        forall|i: int| 0 <= i < inner.len() ==> inner[i] == #[trigger] it.seq()[i].0,
                        legal@ == inner.take(it.index() as int),
                {
                    legal.push(a.0);
                }
                legal
            },
        }
    }
}

/// What a seat may do is what the table lists for it: every action, in that
/// order, with its kind, its tiles and its actor.
pub proof fn law_legal_actions_are_those_listed(seen: Snapshot)
    ensures
        seen matches Snapshot::Four(obs) ==> seen.legal_views().len() == four_legal(obs).len()
            && forall|i: int|
            0 <= i < four_legal(obs).len() ==> {
                let a = four_legal(obs)[i];
                let v = #[trigger] seen.legal_views()[i];
                v.kind == a.action_type && v.tile == a.tile && v.consumed == a.consume_tiles@
                    && v.actor == a.actor
            },
        seen matches Snapshot::Three(obs) ==> seen.legal_views().len() == three_legal(obs).len()
            && forall|i: int|
            0 <= i < three_legal(obs).len() ==> {
                let a = three_legal(obs)[i].0;
                let v = #[trigger] seen.legal_views()[i];
                v.kind == a.action_type && v.tile == a.tile && v.consumed == a.consume_tiles@
                    && v.actor == a.actor
            },
{
}

/// A table of either size. It is reached from `Engine::new` by events that are
/// playable and by looks of seats that exist.
enum Table {
    Four(Box<GameState>),
    Three(Box<GameState3P>),
}

/// A game in progress.
pub struct Engine {
    table: Table,
}

impl Engine {
    /// The number of seats.
    pub closed spec fn seats(self) -> u8 {
        match self.table {
            Table::Four(_) => 4,
            Table::Three(_) => 3,
        }
    }

    /// The game after `ev`.
    pub closed spec fn after(self, ev: EventView) -> Engine {
        match self.table {
            Table::Four(s) => Engine { table: Table::Four(Box::new(four_after(*s, ev))) },
            Table::Three(s) => Engine { table: Table::Three(Box::new(three_after(*s, ev))) },
        }
    }

    /// What `seat` sees.
    pub closed spec fn seen(self, seat: u8) -> Snapshot {
        match self.table {
            Table::Four(s) => Snapshot::Four(four_seen(*s, seat)),
            Table::Three(s) => Snapshot::Three(three_seen(*s, seat)),
        }
    }

    /// The game once `seat` has looked.
    pub closed spec fn after_look(self, seat: u8) -> Engine {
        match self.table {
            Table::Four(s) => Engine { table: Table::Four(Box::new(four_after_look(*s, seat))) },
            Table::Three(s) => Engine { table: Table::Three(Box::new(three_after_look(*s, seat))) },
        }
    }

    /// What each seat has.
    pub closed spec fn held(self) -> Seq<SeatView> {
        match self.table {
            Table::Four(s) => seats_of_four(*s),
            Table::Three(s) => seats_of_three(*s),
        }
    }

    /// What lies on the table.
    pub closed spec fn laid(self) -> TableView {
        match self.table {
            Table::Four(s) => four_table(*s),
            Table::Three(s) => three_table(*s),
        }
    }

    /// Whether the game can take in `ev`.
    pub open spec fn playable(self, ev: EventView) -> bool {
        event_fits(ev, self.laid(), self.held())
    }

    /// Whether the game can tell what `seat` sees.
    pub open spec fn lookable(self, seat: u8) -> bool {
        look_fits(self.laid(), self.held(), seat)
    }

    /// Whether the game has just been set up, in the mode of a single hand, with
    /// the rules of Tenhou, an unseeded wall and the east wind, and nothing was
    /// played yet.
    pub closed spec fn fresh(self) -> bool {
        match self.table {
            Table::Four(s) => four_fresh(*s, 0, true, None, 0, tenhou()),
            Table::Three(s) => three_fresh(*s, 0, true, None, 0, tenhou()),
        }
    }

    /// Whether this is a game as a log of `num_players` starts with: a fresh one,
    /// of three players for 3, of four for every other number.
    pub open spec fn starts(self, num_players: u8) -> bool {
        &&& self.fresh()
        &&& self.seats() == if num_players == 3 {
            3u8
        } else {
            4u8
        }
    }

    /// The seats that may act.
    pub closed spec fn active(self) -> Seq<u8> {
        match self.table {
            Table::Four(s) => four_active(*s),
            Table::Three(s) => three_active(*s),
        }
    }

    /// The four-player table behind the game, if it is one.
    pub closed spec fn four(self) -> Option<GameState> {
        match self.table {
            Table::Four(s) => Some(*s),
            Table::Three(_) => None,
        }
    }

    /// The three-player table behind the game, if it is one.
    pub closed spec fn three(self) -> Option<GameState3P> {
        match self.table {
            Table::Four(_) => None,
            Table::Three(s) => Some(*s),
        }
    }

    /// A game has one table behind it, of four seats or of three.
    pub proof fn law_one_table(self)
        ensures
            self.four() is Some <==> self.seats() == 4,
            self.three() is Some <==> self.seats() == 3,
            self.four() is Some <==> self.three() is None,
    {
    }

    /// A game of four does and shows what its table does and shows, for the very
    /// event or seat that is asked about.
    pub proof fn law_games_of_four(self, state: GameState, ev: EventView, seat: u8)
        requires
            self.four() == Some(state),
        ensures
            self.after(ev).four() == Some(four_after(state, ev)),
            self.seen(seat) == Snapshot::Four(four_seen(state, seat)),
            self.after_look(seat).four() == Some(four_after_look(state, seat)),
            self.active() == four_active(state),
            self.laid() == four_table(state),
            self.held().len() == 4,
            seat < 4 ==> self.held()[seat as int] == four_seat(state, seat),
            self.fresh() <==> four_fresh(state, 0, true, None, 0, tenhou()),
            self.starts(4) <==> self.fresh(),
            !self.starts(3),
    {
    }

    /// A game of three does and shows what its table does and shows, for the very
    /// event or seat that is asked about.
    pub proof fn law_games_of_three(self, state: GameState3P, ev: EventView, seat: u8)
        requires
            self.three() == Some(state),
        ensures
            self.after(ev).three() == Some(three_after(state, ev)),
            self.seen(seat) == Snapshot::Three(three_seen(state, seat)),
            self.after_look(seat).three() == Some(three_after_look(state, seat)),
            self.active() == three_active(state),
            self.laid() == three_table(state),
            self.held().len() == 3,
            seat < 3 ==> self.held()[seat as int] == three_seat(state, seat),
            self.fresh() <==> three_fresh(state, 0, true, None, 0, tenhou()),
            self.starts(3) <==> self.fresh(),
            !self.starts(4),
    {
    }

    /// Neither an event nor a look changes the number of seats.
    pub proof fn law_seats_stay(self, ev: EventView, seat: u8)
        ensures
            self.after(ev).seats() == self.seats(),
            self.after_look(seat).seats() == self.seats(),
            self.seats() == 3 || self.seats() == 4,
            self.held().len() == self.seats(),
    {
    }

    /// Every number of players but three starts the same games: those of four.
    pub proof fn law_every_number_but_three_starts_four(self, num_players: u8)
        requires
            num_players != 3,
        ensures
            self.starts(num_players) <==> self.starts(4),
    {
    }

    /// A fresh game: of three players for 3, of four for every other number.
    pub fn new(num_players: u8) -> (engine: Engine)
        ensures
            engine.starts(num_players),
    {
        let rule = GameRule::default_tenhou();
        if num_players == 3 {
            Engine { table: Table::Three(Box::new(GameState3P::new(0, true, None, 0, rule))) }
        } else {
            Engine { table: Table::Four(Box::new(GameState::new(0, true, None, 0, rule))) }
        }
    }

    /// The number of seats.
    pub fn num_players(&self) -> (n: u8)
        ensures
            n == self.seats(),
            n == 3 || n == 4,
    {
        match self.table {
            Table::Four(_) => 4,
            Table::Three(_) => 3,
        }
    }

    /// What each seat has.
    fn seat_facts(&self) -> (seats: Vec<SeatFacts>)
        ensures
            seat_views(seats@) == self.held(),
            seats@.len() == self.seats(),
    {
        let n = self.num_players();
        let mut seats: Vec<SeatFacts> = Vec::new();
        for i in 0..n
            invariant
                n == self.seats(),
                seats@.len() == i,
                forall|j: int| 0 <= j < i ==> (#[trigger] seats@[j])@ == self.held()[j],
        {
            let facts = match &self.table {
                Table::Four(s) => seat_of_four(s, i),
                Table::Three(s) => seat_of_three(s, i),
            };
            seats.push(facts);
        }
        assert(seat_views(seats@) =~= self.held());
        seats
    }

    /// What lies on the table.
    fn table_facts(&self) -> (table: TableFacts)
        ensures
            table@ == self.laid(),
    {
        match &self.table {
            Table::Four(s) => table_of_four(s),
            Table::Three(s) => table_of_three(s),
        }
    }

    /// Whether the game can take in `ev`.
    pub fn can_take(&self, ev: &MjaiEvent) -> (r: bool)
        ensures
            r == self.playable(event_view(*ev)),
    {
        is_event_fit(ev, &self.table_facts(), &self.seat_facts())
    }

    /// Whether the game can tell what `seat` sees.
    pub fn can_look(&self, seat: u8) -> (r: bool)
        ensures
            r == self.lookable(seat),
    {
        is_look_fit(&self.table_facts(), &self.seat_facts(), seat)
    }

    /// Moves the game on by an event.
    pub fn apply(&mut self, ev: MjaiEvent)
        requires
            old(self).playable(event_view(ev)),
        ensures
            *final(self) == old(self).after(event_view(ev)),
            final(self).seats() == old(self).seats(),
    {
        match &mut self.table {
            Table::Four(s) => s.apply_mjai_event(ev),
            Table::Three(s) => s.apply_mjai_event(ev),
        }
    }

    /// The seats that may act.
    pub fn active_players(&self) -> (seats: Vec<u8>)
        ensures
            seats@ == self.active(),
    {
        match &self.table {
            Table::Four(s) => active_of_four(s),
            Table::Three(s) => active_of_three(s),
        }
    }

    /// What `seat` sees, and the mask of what it may do.
    pub fn sample_for(&mut self, seat: u8) -> (r: (Snapshot, Vec<u8>))
        requires
            old(self).lookable(seat),
        ensures
            r.0 == old(self).seen(seat),
            r.1@ == mask_of(r.0.legal_views(), old(self).seats()),
            *final(self) == old(self).after_look(seat),
            final(self).seats() == old(self).seats(),
    {
        let n = self.num_players();
        let seen = match &mut self.table {
            Table::Four(s) => Snapshot::Four(s.get_observation(seat)),
            Table::Three(s) => Snapshot::Three(s.get_observation(seat)),
        };
        let mask = legal_mask(&seen.legal_actions(), n);
        (seen, mask)
    }
}

} // verus!
