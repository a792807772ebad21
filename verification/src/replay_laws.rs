//! What holds of every replay: who is said to have passed, which samples are
//! recorded, and what a log's lines and events amount to.
use vstd::prelude::*;
use crate::action_codec::{
    action_code, action_count, law_chi_ids, law_mask_marks_the_legal_ids, mask_of, pass_code,
    win_code,
};
use crate::engine::Engine;
use crate::mjai::{law_mjai_tile_bound, mjai_tile, sorted_tiles, EventView};
use crate::mjai_compat::line_event;
use crate::replay::{
    allows, applied, claimer_of, decision_of, discarder_of, events_of_lines, finished, fresh,
    has_call, log_events, mask_seen, one_or_none, opened, others, passes, recorded, replay_result,
    replayed, settled, stepped, tile_ids, PendingView, ReplayError, ReplayView, SampleView,
};
use crate::text::{blank, law_trimmed_empty_iff_blank};

verus! {

/// An event is a free choice unless it is the game's own progress.
pub proof fn law_progress_is_no_choice(ev: EventView)
    ensures
        decision_of(ev) is None <==> (ev is StartGame || ev is StartKyoku || ev is Tsumo
            || ev is Dora || ev is ReachAccepted || ev is Ryukyoku || ev is EndKyoku
            || ev is EndGame || ev is Other),
{
}

/// Whoever claims a discard or discards has chosen to.
pub proof fn law_claims_and_discards_are_choices(ev: EventView)
    ensures
        claimer_of(ev) matches Some(who) ==> decision_of(ev) matches Some((seat, _)) && seat == who,
        discarder_of(ev) matches Some(who) ==> decision_of(ev) matches Some((seat, _)) && seat
            == who,
{
}

/// Closing the window against an event: whoever claims leaves it, a win adds no
/// pass and keeps the others waiting, any other event says of each of the
/// others, once, that it passed.
pub proof fn law_window_closes(r: ReplayView, ev: EventView)
    ensures
        ({
            let rest = others(r.window, claimer_of(ev));
            let after = settled(r, ev);
            &&& forall|p: PendingView|
                rest.contains(p) <==> (#[trigger] r.window.contains(p) && claimer_of(ev) != Some(
                    p.seat,
                ))
            &&& ev is Hora ==> after.window == rest && after.samples == r.samples
            &&& !(ev is Hora) ==> after.window.len() == 0 && after.samples == r.samples + passes(
                rest,
                r.engine.seats(),
            )
        }),
{
    if let Some(w) = claimer_of(ev) {
        let keep = |p: PendingView| p.seat != w;
        broadcast use vstd::seq_lib::group_filter_ensures;

        assert forall|p: PendingView|
            others(r.window, Some(w)).contains(p) <==> (#[trigger] r.window.contains(p) && p.seat
                != w) by {
            let rest = r.window.filter(keep);
            if rest.contains(p) {
                let i = choose|i: int| 0 <= i < rest.len() && rest[i] == p;
                assert(keep(rest[i]));
                r.window.lemma_filter_contains_rev(keep, p);
            }
            if r.window.contains(p) && p.seat != w {
                let i = choose|i: int| 0 <= i < r.window.len() && r.window[i] == p;
                assert(keep(r.window[i]));
            }
        }
    }
}

/// Whether all of these events are wins.
pub open spec fn all_wins(events: Seq<EventView>) -> bool {
    forall|i: int| 0 <= i < events.len() ==> #[trigger] events[i] is Hora
}

/// Whether `seat` claims in one of these events.
pub open spec fn claims(events: Seq<EventView>, seat: u8) -> bool {
    exists|i: int| 0 <= i < events.len() && claimer_of(#[trigger] events[i]) == Some(seat)
}

/// The window without the seats that claim in these events.
pub open spec fn unclaimed(window: Seq<PendingView>, events: Seq<EventView>) -> Seq<PendingView> {
    window.filter(|p: PendingView| !claims(events, p.seat))
}

/// Taking one more claimer out of the window.
pub(crate) proof fn lemma_unclaimed_push(window: Seq<PendingView>, events: Seq<EventView>)
    requires
        events.len() > 0,
    ensures
        unclaimed(window, events) == others(
            unclaimed(window, events.drop_last()),
            claimer_of(events.last()),
        ),
    decreases window.len(),
{
    reveal(Seq::filter);
    let before = events.drop_last();
    if window.len() > 0 {
        let p = window.last();
        lemma_unclaimed_push(window.drop_last(), events);
        assert(claims(events, p.seat) <==> (claims(before, p.seat) || claimer_of(events.last())
            == Some(p.seat))) by {
            if claims(before, p.seat) {
                let i = choose|i: int|
                    0 <= i < before.len() && claimer_of(#[trigger] before[i]) == Some(p.seat);
                assert(events[i] == before[i]);
            }
            if claims(events, p.seat) {
                let i = choose|i: int|
                    0 <= i < events.len() && claimer_of(#[trigger] events[i]) == Some(p.seat);
                if i < before.len() {
                    assert(before[i] == events[i]);
                }
            }
            assert(events[events.len() - 1] == events.last());
        }
        let kept = unclaimed(window.drop_last(), before);
        if !claims(before, p.seat) {
            assert(unclaimed(window, before) =~= kept.push(p));
            assert(kept.push(p).drop_last() =~= kept);
        } else {
            assert(unclaimed(window, before) =~= kept);
        }
    }
}

/// Nobody has claimed in no events.
pub(crate) proof fn lemma_unclaimed_none(window: Seq<PendingView>)
    ensures
        unclaimed(window, Seq::empty()) == window,
    decreases window.len(),
{
    reveal(Seq::filter);
    if window.len() > 0 {
        lemma_unclaimed_none(window.drop_last());
        assert(window.drop_last().push(window.last()) =~= window);
    } else {
        assert(unclaimed(window, Seq::empty()) =~= window);
    }
}

/// A run of wins, as a double or triple ron is logged, takes the winners out of
/// the window and says of nobody that they passed; at most the first of them is
/// recorded, and it is recorded as a win.
pub proof fn law_wins_leave_the_losers_waiting(
    r: ReplayView,
    wins: Seq<EventView>,
    s: ReplayView,
)
    requires
        all_wins(wins),
        replayed(r, wins) == Ok::<ReplayView, ReplayError>(s),
    ensures
        s.window == unclaimed(r.window, wins),
        s.engine.seats() == r.engine.seats(),
        s.prev_was_hora == (r.prev_was_hora || wins.len() > 0),
        s.samples == r.samples || (!r.prev_was_hora && exists|x: SampleView|
            s.samples == #[trigger] r.samples.push(x) && x.action == win_code(r.engine.seats())),
    decreases wins.len(),
{
    if wins.len() == 0 {
        assert(wins =~= Seq::empty());
        lemma_unclaimed_none(r.window);
    } else {
        let before = wins.drop_last();
        let ev = wins.last();
        assert(wins[wins.len() - 1] is Hora);
        assert(all_wins(before)) by {
            assert forall|i: int| 0 <= i < before.len() implies #[trigger] before[i] is Hora by {
                assert(before[i] == wins[i]);
            }
        }
        let mid = replayed(r, before).unwrap();
        law_wins_leave_the_losers_waiting(r, before, mid);
        lemma_unclaimed_push(r.window, wins);
        let closed = settled(mid, ev);
        let kept = recorded(closed, ev).unwrap();
        mid.engine.law_seats_stay(ev, 0);
        kept.engine.law_seats_stay(ev, 0);
        if !mid.prev_was_hora {
            assert(before.len() == 0);
            let (seat, action) = decision_of(ev).unwrap();
            mid.engine.law_seats_stay(ev, seat);
            if kept.samples.len() > closed.samples.len() {
                assert(kept.samples == r.samples.push(kept.samples.last()));
            }
        }
    }
}

/// After a discard that some seats could have called, however many of them win
/// on it, the next event that is no win says of exactly those who neither won
/// nor claim now that they passed.
pub proof fn law_only_those_who_claim_nothing_pass(
    r: ReplayView,
    wins: Seq<EventView>,
    s: ReplayView,
    ev: EventView,
)
    requires
        all_wins(wins),
        replayed(r, wins) == Ok::<ReplayView, ReplayError>(s),
        !(ev is Hora),
    ensures
        settled(s, ev).window.len() == 0,
        settled(s, ev).samples == s.samples + passes(
            unclaimed(r.window, wins.push(ev)),
            r.engine.seats(),
        ),
{
    law_wins_leave_the_losers_waiting(r, wins, s);
    assert(wins.push(ev).drop_last() =~= wins);
    lemma_unclaimed_push(r.window, wins.push(ev));
}

/// The tiles of a list of notations are ids that a notation has.
proof fn lemma_tile_ids_bound(tiles: Seq<Seq<char>>)
    ensures
        forall|i: int| 0 <= i < tile_ids(tiles).len() ==> #[trigger] tile_ids(tiles)[i] <= 140,
    decreases tiles.len(),
{
    if tiles.len() > 0 {
        let before = tile_ids(tiles.drop_last());
        lemma_tile_ids_bound(tiles.drop_last());
        law_mjai_tile_bound(tiles.last());
        assert forall|i: int| 0 <= i < tile_ids(tiles).len() implies #[trigger] tile_ids(tiles)[i]
            <= 140 by {
            if i < before.len() {
                assert(tile_ids(tiles)[i] == before[i]);
            }
        }
    }
}

/// Sorting tiles adds none.
proof fn lemma_sorted_tiles_bound(tiles: Seq<u8>, bound: u8)
    requires
        forall|i: int| 0 <= i < tiles.len() ==> #[trigger] tiles[i] <= bound,
    ensures
        forall|i: int|
            0 <= i < sorted_tiles(tiles).len() ==> #[trigger] sorted_tiles(tiles)[i] <= bound,
{
    let leq = |x: u8, y: u8| x <= y;
    tiles.lemma_sort_by_ensures(leq);
    assert forall|i: int| 0 <= i < sorted_tiles(tiles).len() implies #[trigger] sorted_tiles(
        tiles,
    )[i] <= bound by {
        let x = sorted_tiles(tiles)[i];
        assert(sorted_tiles(tiles).contains(x));
        assert(tiles.contains(x));
    }
}

/// No choice in a log has the id of passing: passing shows in a log only by
/// what does not happen.
pub proof fn law_no_choice_is_a_pass(ev: EventView, num_players: u8)
    ensures
        decision_of(ev) matches Some((_, action)) ==> action_code(num_players, action) != Some(
            pass_code(num_players),
        ),
{
    match ev {
        EventView::Kan { pai, .. } => {
            law_mjai_tile_bound(pai);
        },
        EventView::Dahai { pai, .. } => {
            law_mjai_tile_bound(pai);
        },
        EventView::Kakan { pai, .. } => {
            law_mjai_tile_bound(pai);
            lemma_sorted_tiles_bound(one_or_none(mjai_tile(pai)), 140);
        },
        EventView::Ankan { consumed, .. } => {
            lemma_tile_ids_bound(consumed);
            lemma_sorted_tiles_bound(tile_ids(consumed), 140);
        },
        EventView::Chi { .. } => {
            law_chi_ids(num_players, decision_of(ev).unwrap().1);
        },
        _ => {},
    }
}

/// Whether a seat of the window could call: its mask is that of what it sees,
/// and allows more than passing.
pub open spec fn waits_rightly(p: PendingView, num_players: u8) -> bool {
    &&& p.seat < num_players
    &&& p.mask == mask_of(p.obs.legal_views(), num_players)
    &&& has_call(p.mask, pass_code(num_players))
}

/// Whether a sample is fit to learn from: its mask is that of what the seat
/// saw, its id is one of the action space, a pass was made where there was
/// something to call, and any other choice was legal.
pub open spec fn sound(x: SampleView, num_players: u8) -> bool {
    &&& x.mask == mask_of(x.obs.legal_views(), num_players)
    &&& x.action < action_count(num_players)
    &&& if x.action == pass_code(num_players) {
        has_call(x.mask, pass_code(num_players))
    } else {
        allows(x.mask, x.action as nat)
    }
}

/// Whether all samples of a replay are sound and all that wait could call.
pub open spec fn all_sound(r: ReplayView) -> bool {
    &&& forall|i: int| 0 <= i < r.samples.len() ==> sound(#[trigger] r.samples[i], r.engine.seats())
    &&& forall|i: int|
        0 <= i < r.window.len() ==> waits_rightly(#[trigger] r.window[i], r.engine.seats())
}

/// Whether one replay has come further than another: same table size, and the
/// samples so far are kept.
pub open spec fn continues(r: ReplayView, s: ReplayView) -> bool {
    &&& s.engine.seats() == r.engine.seats()
    &&& r.samples.is_prefix_of(s.samples)
}

/// The samples of seats that could call are sound.
proof fn lemma_passes_sound(window: Seq<PendingView>, num_players: u8)
    requires
        forall|i: int| 0 <= i < window.len() ==> waits_rightly(#[trigger] window[i], num_players),
    ensures
        forall|i: int|
            0 <= i < window.len() ==> sound(#[trigger] passes(window, num_players)[i], num_players),
{
    assert forall|i: int| 0 <= i < window.len() implies sound(
        #[trigger] passes(window, num_players)[i],
        num_players,
    ) by {
        assert(waits_rightly(window[i], num_players));
    }
}

proof fn lemma_settled_sound(r: ReplayView, ev: EventView)
    requires
        all_sound(r),
    ensures
        all_sound(settled(r, ev)),
        continues(r, settled(r, ev)),
{
    law_window_closes(r, ev);
    let rest = others(r.window, claimer_of(ev));
    let n = r.engine.seats();
    assert forall|i: int| 0 <= i < rest.len() implies waits_rightly(#[trigger] rest[i], n) by {
        assert(rest.contains(rest[i]));
        assert(r.window.contains(rest[i]));
    }
    lemma_passes_sound(rest, n);
    let all = r.samples + passes(rest, n);
    assert forall|i: int| 0 <= i < all.len() implies sound(#[trigger] all[i], n) by {
        if i >= r.samples.len() {
            assert(all[i] == passes(rest, n)[i - r.samples.len()]);
        }
    }
}

proof fn lemma_recorded_sound(r: ReplayView, ev: EventView)
    requires
        all_sound(r),
        recorded(r, ev) is Ok,
    ensures
        all_sound(recorded(r, ev).unwrap()),
        continues(r, recorded(r, ev).unwrap()),
        recorded(r, ev).unwrap().window == r.window,
{
    law_no_choice_is_a_pass(ev, r.engine.seats());
    if let Some((seat, action)) = decision_of(ev) {
        r.engine.law_seats_stay(ev, seat);
        law_mask_marks_the_legal_ids(r.engine.seen(seat).legal_views(), r.engine.seats());
    }
}

proof fn lemma_opened_sound(r: ReplayView, from: u8, seats: Seq<u8>)
    requires
        all_sound(r),
        r.window.len() == 0,
        opened(r, from, seats) is Ok,
    ensures
        all_sound(opened(r, from, seats).unwrap()),
        opened(r, from, seats).unwrap().samples == r.samples,
        opened(r, from, seats).unwrap().engine.seats() == r.engine.seats(),
        forall|i: int|
            0 <= i < opened(r, from, seats).unwrap().window.len() ==> (#[trigger] opened(
                r,
                from,
                seats,
            ).unwrap().window[i]).seat != from && seats.contains(
                opened(r, from, seats).unwrap().window[i].seat,
            ),
    decreases seats.len(),
{
    if seats.len() > 0 {
        let before = seats.drop_last();
        lemma_opened_sound(r, from, before);
        let s = opened(r, from, before).unwrap();
        let t = opened(r, from, seats).unwrap();
        s.engine.law_seats_stay(EventView::EndGame, seats.last());
        assert(seats[seats.len() - 1] == seats.last());
        assert forall|i: int| 0 <= i < t.window.len() implies (#[trigger] t.window[i]).seat != from
            && seats.contains(t.window[i].seat) by {
            if i < s.window.len() {
                assert(t.window[i] == s.window[i]);
                let k = before.index_of(s.window[i].seat);
                assert(before[k] == s.window[i].seat);
                assert(seats[k] == before[k]);
            }
        }
        assert(all_sound(t)) by {
            assert forall|i: int| 0 <= i < t.window.len() implies waits_rightly(
                #[trigger] t.window[i],
                t.engine.seats(),
            ) by {
                if i < s.window.len() {
                    assert(t.window[i] == s.window[i]);
                }
            }
        }
    }
}

/// Every event keeps all samples sound and all that wait able to call; the
/// samples so far stay, and so does the number of players. After a discard, it
/// is other seats that wait, seats that may act; after a win, those that waited
/// before and did not win; after any other event, none.
pub proof fn law_step(r: ReplayView, ev: EventView, s: ReplayView)
    requires
        all_sound(r),
        stepped(r, ev) == Ok::<ReplayView, ReplayError>(s),
    ensures
        all_sound(s),
        continues(r, s),
        discarder_of(ev) matches Some(from) ==> forall|i: int|
            0 <= i < s.window.len() ==> (#[trigger] s.window[i]).seat != from,
        ev is Hora ==> s.window == others(r.window, claimer_of(ev)),
        !(ev is Hora) && discarder_of(ev) is None ==> s.window.len() == 0,
{
    lemma_settled_sound(r, ev);
    let closed = settled(r, ev);
    lemma_recorded_sound(closed, ev);
    let kept = recorded(closed, ev).unwrap();
    let next = applied(kept, ev).unwrap();
    kept.engine.law_seats_stay(ev, 0);
    assert(all_sound(next));
    if let Some(from) = discarder_of(ev) {
        lemma_opened_sound(next, from, next.engine.active());
    }
}

/// After a discard, whoever else may act and could call it waits: each in turn
/// is looked at, and waits exactly if what it sees allows more than passing.
pub proof fn law_whoever_could_call_waits(r: ReplayView, from: u8, seats: Seq<u8>, k: int)
    requires
        opened(r, from, seats) is Ok,
        0 <= k < seats.len(),
        seats[k] != from,
    ensures
        ({
            let s = opened(r, from, seats.take(k)).unwrap();
            let t = opened(r, from, seats.take(k + 1)).unwrap();
            let mask = mask_seen(s.engine, seats[k]);
            let p = PendingView { seat: seats[k], obs: s.engine.seen(seats[k]), mask };
            &&& has_call(mask, pass_code(s.engine.seats())) ==> t.window == s.window.push(p)
                && opened(r, from, seats).unwrap().window.contains(p)
            &&& !has_call(mask, pass_code(s.engine.seats())) ==> t.window == s.window
        }),
{
    lemma_opened_grows(r, from, seats, k + 1);
    let upto = seats.take(k + 1);
    assert(upto.drop_last() =~= seats.take(k));
    let s = opened(r, from, seats.take(k)).unwrap();
    let t = opened(r, from, upto).unwrap();
    let whole = opened(r, from, seats).unwrap().window;
    if t.window.len() > s.window.len() {
        assert(whole[s.window.len() as int] == t.window[s.window.len() as int]);
        assert(whole.contains(t.window.last()));
    }
}

/// Opening the window for more seats keeps those that wait.
proof fn lemma_opened_grows(r: ReplayView, from: u8, seats: Seq<u8>, k: int)
    requires
        opened(r, from, seats) is Ok,
        0 <= k <= seats.len(),
    ensures
        opened(r, from, seats.take(k)) is Ok,
        opened(r, from, seats.take(k)).unwrap().window.is_prefix_of(
            opened(r, from, seats).unwrap().window,
        ),
    decreases seats.len(),
{
    if k < seats.len() {
        lemma_opened_grows(r, from, seats.drop_last(), k);
        assert(seats.drop_last().take(k) =~= seats.take(k));
    } else {
        assert(seats.take(k) =~= seats);
    }
}

/// The same, over any number of events.
proof fn lemma_replayed_sound(r: ReplayView, events: Seq<EventView>, s: ReplayView)
    requires
        all_sound(r),
        replayed(r, events) == Ok::<ReplayView, ReplayError>(s),
    ensures
        all_sound(s),
        continues(r, s),
    decreases events.len(),
{
    if events.len() > 0 {
        let mid = replayed(r, events.drop_last()).unwrap();
        lemma_replayed_sound(r, events.drop_last(), mid);
        law_step(mid, events.last(), s);
    }
}

/// Every sample of every log that can be replayed is sound.
pub proof fn law_every_sample_is_sound(engine: Engine, content: Seq<char>, i: int)
    requires
        replay_result(engine, content) is Ok,
        0 <= i < replay_result(engine, content).unwrap().len(),
    ensures
        sound(replay_result(engine, content).unwrap()[i], engine.seats()),
{
    let events = log_events(content, engine.seats());
    let s = replayed(fresh(engine), events).unwrap();
    lemma_replayed_sound(fresh(engine), events, s);
    lemma_passes_sound(s.window, engine.seats());
    if i >= s.samples.len() {
        assert(finished(s)[i] == passes(s.window, engine.seats())[i - s.samples.len()]);
    }
}

/// A sound sample is of the shape that the trainer expects: a mask with an
/// entry, 0 or 1, per action id, and an id among them.
pub proof fn law_sound_samples_have_a_shape(x: SampleView, num_players: u8)
    requires
        sound(x, num_players),
    ensures
        x.mask.len() == action_count(num_players),
        x.action < x.mask.len(),
        forall|i: int| 0 <= i < x.mask.len() ==> #[trigger] x.mask[i] <= 1,
{
    law_mask_marks_the_legal_ids(x.obs.legal_views(), num_players);
}

/// Replaying a log is replaying its parts one after another, and stops at the
/// first part that is refused.
pub proof fn law_logs_replay_part_by_part(r: ReplayView, a: Seq<EventView>, b: Seq<EventView>)
    ensures
        replayed(r, a + b) == match replayed(r, a) {
            Ok(s) => replayed(s, b),
            Err(e) => Err::<ReplayView, ReplayError>(e),
        },
    decreases b.len(),
{
    if b.len() > 0 {
        law_logs_replay_part_by_part(r, a, b.drop_last());
        assert((a + b).drop_last() =~= a + b.drop_last());
    } else {
        assert(a + b =~= a);
    }
}

/// A line that stands for no event changes nothing, wherever it is put.
pub proof fn law_skipped_lines_change_nothing(
    before: Seq<Seq<char>>,
    line: Seq<char>,
    behind: Seq<Seq<char>>,
    num_players: u8,
)
    requires
        line_event(line, num_players) is None,
    ensures
        events_of_lines(before.push(line) + behind, num_players) == events_of_lines(
            before + behind,
            num_players,
        ),
    decreases behind.len(),
{
    let with = before.push(line) + behind;
    let without = before + behind;
    if behind.len() > 0 {
        law_skipped_lines_change_nothing(before, line, behind.drop_last(), num_players);
        assert(with.drop_last() =~= before.push(line) + behind.drop_last());
        assert(without.drop_last() =~= before + behind.drop_last());
        assert(with.last() == without.last());
    } else {
        assert(with =~= before.push(line));
        assert(with.drop_last() =~= before);
        assert(without =~= before);
    }
}

/// A blank line stands for no event.
pub proof fn law_blank_lines_are_skipped(line: Seq<char>, num_players: u8)
    requires
        blank(line),
    ensures
        line_event(line, num_players) is None,
{
    law_trimmed_empty_iff_blank(line);
}

/// At the end of a log, whoever still waits is said to have passed, after all
/// other samples and in the order of the window.
pub proof fn law_whoever_waits_at_the_end_passed(r: ReplayView)
    ensures
        finished(r).len() == r.samples.len() + r.window.len(),
        r.samples.is_prefix_of(finished(r)),
        forall|i: int|
            0 <= i < r.window.len() ==> (#[trigger] finished(r)[r.samples.len() + i]).obs
                == r.window[i].obs && finished(r)[r.samples.len() + i].action == pass_code(
                r.engine.seats(),
            ),
{
}

} // verus!
