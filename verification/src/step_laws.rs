//! What each part of a step of a replay does: who passes when an event comes,
//! what is recorded of it, how the table moves on, and who waits for a call.
use vstd::prelude::*;
use crate::action_codec::{
    about_tiles, action_code, has_code, law_chi_ids, law_ids_fit_the_action_space,
    law_passing_and_winning_have_ids_of_their_own, mask_of, pass_code,
};
use crate::engine::Engine;
use crate::mjai::{mjai_tile, ActionView, EventView};
use crate::replay::{
    allows, applied, claimer_of, decision_of, events_of_lines, finished, fresh, has_call,
    log_events, mask_seen, opened, others, recorded, replay_result, replayed, settled, stepped,
    watched, PendingView, ReplayError, ReplayView, SampleView,
};
use crate::mjai_compat::line_event;
use crate::text::{law_a_line_ends_at_its_line_feed, text_lines};

verus! {

/// The mask of what a seat sees has one entry per action id, eighty-two with four
/// players and sixty with three: 1 for each id that some legal action has, and 0
/// for every other.
pub proof fn law_masks_mark_what_a_seat_may_do(engine: Engine, seat: u8)
    ensures
        mask_seen(engine, seat).len() == (if engine.seats() == 3 {
            60nat
        } else {
            82nat
        }),
        forall|i: int|
            0 <= i < mask_seen(engine, seat).len() ==> (#[trigger] mask_seen(engine, seat)[i] == 1
                <==> exists|k: int|
                0 <= k < engine.seen(seat).legal_views().len() && action_code(
                    engine.seats(),
                    #[trigger] engine.seen(seat).legal_views()[k],
                ) == Some(i as nat)),
        forall|i: int|
            0 <= i < mask_seen(engine, seat).len() ==> #[trigger] mask_seen(engine, seat)[i] == 0
                || mask_seen(engine, seat)[i] == 1,
{
    let legal = engine.seen(seat).legal_views();
    let mask = mask_seen(engine, seat);
    assert forall|i: int| 0 <= i < mask.len() implies (#[trigger] mask[i] == 1 <==> exists|k: int|
        0 <= k < legal.len() && action_code(engine.seats(), #[trigger] legal[k]) == Some(
            i as nat,
        )) by {
        assert(mask[i] == 1 <==> has_code(legal, engine.seats(), i));
    }
}

/// A seat that is looked at after a discard waits if and only if one of its legal
/// actions has an id other than that of passing; then it waits with what it sees,
/// behind those who wait already.
pub proof fn law_a_seat_waits_iff_it_has_something_to_call(r: ReplayView, seat: u8, t: ReplayView)
    requires
        watched(r, seat) == Ok::<ReplayView, ReplayError>(t),
    ensures
        (exists|k: int|
            0 <= k < r.engine.seen(seat).legal_views().len() && (action_code(
                r.engine.seats(),
                #[trigger] r.engine.seen(seat).legal_views()[k],
            ) matches Some(c) && (if r.engine.seats() == 3 {
                c < 60 && c != 58
            } else {
                c < 82 && c != 81
            }))) ==> t.window.len() == r.window.len() + 1 && t.window.drop_last() == r.window
            && t.window.last().seat == seat && t.window.last().obs == r.engine.seen(seat)
            && t.window.last().mask == mask_seen(r.engine, seat),
        !(exists|k: int|
            0 <= k < r.engine.seen(seat).legal_views().len() && (action_code(
                r.engine.seats(),
                #[trigger] r.engine.seen(seat).legal_views()[k],
            ) matches Some(c) && (if r.engine.seats() == 3 {
                c < 60 && c != 58
            } else {
                c < 82 && c != 81
            }))) ==> t.window == r.window,
        t.samples == r.samples,
        t.prev_was_hora == r.prev_was_hora,
        t.engine == r.engine.after_look(seat),
{
    let n = r.engine.seats();
    let legal = r.engine.seen(seat).legal_views();
    let mask = mask_seen(r.engine, seat);
    law_masks_mark_what_a_seat_may_do(r.engine, seat);
    if has_call(mask, pass_code(n)) {
        let i = choose|i: int| 0 <= i < mask.len() && i != pass_code(n) && #[trigger] mask[i] == 1;
        assert(has_code(legal, n, i));
        let k = choose|k: int|
            0 <= k < legal.len() && action_code(n, #[trigger] legal[k]) == Some(i as nat);
        assert(0 <= k < legal.len() && action_code(n, legal[k]) == Some(i as nat));
        assert(t.window.drop_last() =~= r.window);
    } else if exists|k: int|
        0 <= k < legal.len() && (action_code(n, #[trigger] legal[k]) matches Some(c) && (if n
            == 3 {
            c < 60 && c != 58
        } else {
            c < 82 && c != 81
        })) {
        let k = choose|k: int|
            0 <= k < legal.len() && (action_code(n, #[trigger] legal[k]) matches Some(c) && (if n
                == 3 {
                c < 60 && c != 58
            } else {
                c < 82 && c != 81
            }));
        let c = action_code(n, legal[k]).unwrap() as int;
        assert(has_code(legal, n, c));
        assert(mask[c] == 1);
    }
}

/// Whether one of some legal actions, other than passing, has an id.
pub open spec fn may_call(legal: Seq<ActionView>, num_players: u8) -> bool {
    exists|k: int|
        0 <= k < legal.len() && !((#[trigger] legal[k]).kind is Pass) && action_code(
            num_players,
            legal[k],
        ) is Some
}

/// Where the legal actions are about tiles that exist, a seat that is looked at
/// after a discard waits if and only if one of them has an id and is no pass.
pub proof fn law_a_seat_waits_iff_it_may_call(r: ReplayView, seat: u8, t: ReplayView)
    requires
        watched(r, seat) == Ok::<ReplayView, ReplayError>(t),
        forall|k: int|
            0 <= k < r.engine.seen(seat).legal_views().len() ==> about_tiles(
                #[trigger] r.engine.seen(seat).legal_views()[k],
            ),
    ensures
        t.window.len() == r.window.len() + 1 <==> exists|k: int|
            0 <= k < r.engine.seen(seat).legal_views().len() && !((
            #[trigger] r.engine.seen(seat).legal_views()[k]).kind is Pass) && action_code(
                r.engine.seats(),
                r.engine.seen(seat).legal_views()[k],
            ) is Some,
        may_call(r.engine.seen(seat).legal_views(), r.engine.seats()) ==> t.window
            == r.window.push(
            PendingView {
                seat,
                obs: r.engine.seen(seat),
                mask: mask_of(r.engine.seen(seat).legal_views(), r.engine.seats()),
            },
        ),
        !may_call(r.engine.seen(seat).legal_views(), r.engine.seats()) ==> t.window == r.window,
{
    let n = r.engine.seats();
    let legal = r.engine.seen(seat).legal_views();
    law_a_seat_waits_iff_it_has_something_to_call(r, seat, t);
    assert forall|k: int| 0 <= k < legal.len() implies (!((#[trigger] legal[k]).kind is Pass)
        && action_code(n, legal[k]) is Some <==> (action_code(n, legal[k]) matches Some(c) && (if n
        == 3 {
        c < 60 && c != 58
    } else {
        c < 82 && c != 81
    }))) by {
        law_ids_fit_the_action_space(n, legal[k]);
        law_passing_and_winning_have_ids_of_their_own(n, legal[k]);
    }
    if may_call(legal, n) {
        let k = choose|k: int|
            0 <= k < legal.len() && !((#[trigger] legal[k]).kind is Pass) && action_code(
                n,
                legal[k],
            ) is Some;
        assert(0 <= k < legal.len());
        assert(t.window =~= r.window.push(t.window.last()));
    }
}

/// A single legal call is enough to wait: any pon, any win by discard, a chi of
/// three tile types, an open kan of a tile that has an id.
pub proof fn law_one_call_is_enough(r: ReplayView, seat: u8, t: ReplayView, k: int)
    requires
        watched(r, seat) == Ok::<ReplayView, ReplayError>(t),
        0 <= k < r.engine.seen(seat).legal_views().len(),
        ({
            let a = r.engine.seen(seat).legal_views()[k];
            ||| a.kind is Pon
            ||| a.kind is Ron
            ||| a.kind is Chi && action_code(r.engine.seats(), a) is Some
            ||| a.kind is Daiminkan && action_code(r.engine.seats(), a) is Some && (a.tile matches
                Some(tile) && tile < 136)
        }),
    ensures
        t.window.len() == r.window.len() + 1,
        t.window.last().seat == seat,
        t.window.last().obs == r.engine.seen(seat),
{
    law_chi_ids(r.engine.seats(), r.engine.seen(seat).legal_views()[k]);
    law_a_seat_waits_iff_it_has_something_to_call(r, seat, t);
}

/// A seat is looked at where it exists and can be looked at, and only there.
pub proof fn law_when_a_seat_is_looked_at(r: ReplayView, seat: u8)
    ensures
        watched(r, seat) is Ok <==> seat < r.engine.seats() && r.engine.lookable(seat),
        watched(r, seat) == Err::<ReplayView, ReplayError>(ReplayError::NoSuchSeat) <==> seat
            >= r.engine.seats(),
        watched(r, seat) == Err::<ReplayView, ReplayError>(ReplayError::Unlookable) <==> seat
            < r.engine.seats() && !r.engine.lookable(seat),
{
}

/// After a discard the seats are looked at one after the other, the discarder
/// left out.
pub proof fn law_seats_are_looked_at_in_turn(r: ReplayView, from: u8, seats: Seq<u8>, seat: u8)
    ensures
        opened(r, from, Seq::empty()) == Ok::<ReplayView, ReplayError>(r),
        seat == from ==> opened(r, from, seats.push(seat)) == opened(r, from, seats),
        seat != from ==> (opened(r, from, seats) matches Ok(s) ==> opened(
            r,
            from,
            seats.push(seat),
        ) == watched(s, seat)),
        opened(r, from, seats) is Err ==> opened(r, from, seats.push(seat)) == opened(
            r,
            from,
            seats,
        ),
{
    assert(seats.push(seat).drop_last() =~= seats);
}

/// Whether somebody in a window sits at `seat`.
pub open spec fn waits(window: Seq<PendingView>, seat: u8) -> bool {
    exists|i: int| 0 <= i < window.len() && (#[trigger] window[i]).seat == seat
}

/// When all the seats that may act have been looked at, a seat waits if and only
/// if it is one of them, did not discard, and saw a legal action with an id that
/// is no pass when its turn to be looked at came.
pub proof fn law_who_waits_once_all_are_looked_at(
    r: ReplayView,
    from: u8,
    seats: Seq<u8>,
    s: ReplayView,
)
    requires
        opened(r, from, seats) == Ok::<ReplayView, ReplayError>(s),
        r.window.len() == 0,
        forall|j: int, k: int|
            0 <= j < seats.len() && 0 <= k < opened(
                r,
                from,
                seats.take(j),
            ).unwrap().engine.seen(seats[j]).legal_views().len() ==> about_tiles(
                #[trigger] opened(r, from, seats.take(j)).unwrap().engine.seen(
                    seats[j],
                ).legal_views()[k],
            ),
    ensures
        forall|seat: u8| #[trigger]
            waits(s.window, seat) <==> exists|j: int|
                0 <= j < seats.len() && #[trigger] seats[j] == seat && seat != from && may_call(
                    opened(r, from, seats.take(j)).unwrap().engine.seen(seat).legal_views(),
                    r.engine.seats(),
                ),
        s.engine.seats() == r.engine.seats(),
        s.samples == r.samples,
    decreases seats.len(),
{
    if seats.len() > 0 {
        let n = seats.len() - 1;
        let before = seats.drop_last();
        let last = seats.last();
        assert(before =~= seats.take(n));
        let mid = opened(r, from, before).unwrap();
        assert forall|j: int| 0 <= j < n implies #[trigger] before.take(j) == seats.take(j) by {
            assert(before.take(j) =~= seats.take(j));
        }
        assert forall|j: int, k: int|
            0 <= j < before.len() && 0 <= k < opened(
                r,
                from,
                before.take(j),
            ).unwrap().engine.seen(before[j]).legal_views().len() implies about_tiles(
            #[trigger] opened(r, from, before.take(j)).unwrap().engine.seen(
                before[j],
            ).legal_views()[k],
        ) by {
            assert(before[j] == seats[j]);
            assert(before.take(j) == seats.take(j));
        }
        law_who_waits_once_all_are_looked_at(r, from, before, mid);
        let legal = mid.engine.seen(last).legal_views();
        if last != from {
            assert forall|k: int| 0 <= k < legal.len() implies about_tiles(#[trigger] legal[k]) by {
                assert(seats[n] == last);
                assert(about_tiles(
                    opened(r, from, seats.take(n)).unwrap().engine.seen(seats[n]).legal_views()[k],
                ));
            }
            law_a_seat_waits_iff_it_may_call(mid, last, s);
            mid.engine.law_seats_stay(EventView::EndGame, last);
        }
        assert forall|seat: u8| #[trigger]
            waits(s.window, seat) <==> exists|j: int|
                0 <= j < seats.len() && #[trigger] seats[j] == seat && seat != from && may_call(
                    opened(r, from, seats.take(j)).unwrap().engine.seen(seat).legal_views(),
                    r.engine.seats(),
                ) by {
            if waits(mid.window, seat) {
                let i = choose|i: int|
                    0 <= i < mid.window.len() && (#[trigger] mid.window[i]).seat == seat;
                assert(s.window[i] == mid.window[i]);
                let j = choose|j: int|
                    0 <= j < before.len() && #[trigger] before[j] == seat && seat != from
                        && may_call(
                        opened(r, from, before.take(j)).unwrap().engine.seen(seat).legal_views(),
                        r.engine.seats(),
                    );
                assert(seats[j] == before[j]);
                assert(before.take(j) == seats.take(j));
            }
            if waits(s.window, seat) && !waits(mid.window, seat) {
                let i = choose|i: int|
                    0 <= i < s.window.len() && (#[trigger] s.window[i]).seat == seat;
                if i < mid.window.len() {
                    assert(mid.window[i] == s.window[i]);
                }
                assert(seats[n] == seat);
            }
            if exists|j: int|
                0 <= j < seats.len() && #[trigger] seats[j] == seat && seat != from && may_call(
                    opened(r, from, seats.take(j)).unwrap().engine.seen(seat).legal_views(),
                    r.engine.seats(),
                ) {
                let j = choose|j: int|
                    0 <= j < seats.len() && #[trigger] seats[j] == seat && seat != from
                        && may_call(
                        opened(r, from, seats.take(j)).unwrap().engine.seen(seat).legal_views(),
                        r.engine.seats(),
                    );
                if j < n {
                    assert(before[j] == seat);
                    assert(before.take(j) == seats.take(j));
                    assert(waits(mid.window, seat));
                } else {
                    assert(s.window[mid.window.len() as int].seat == seat);
                }
            }
        }
    } else {
        assert forall|seat: u8| #[trigger] waits(s.window, seat) implies false by {}
    }
}

/// When an event other than a win comes, everybody who waited and did not act on
/// the discard has passed: one sample each, in the order in which they waited,
/// with what they saw and the id of passing. A win settles nobody yet, and the
/// winner waits no longer.
pub proof fn law_those_who_waited_pass(r: ReplayView, ev: EventView, seat: u8) -> (rest: Seq<
    PendingView,
>)
    requires
        ({
            ||| ev matches EventView::Pon { actor, .. } && seat == actor as u8
            ||| ev matches EventView::Chi { actor, .. } && seat == actor as u8
            ||| ev matches EventView::Kan { actor, .. } && seat == actor as u8
            ||| ev matches EventView::Hora { actor, target, .. } && actor != target && seat
                == actor as u8
        }),
    ensures
        rest == r.window.filter(|p: PendingView| p.seat != seat),
        forall|p: PendingView| #[trigger]
            rest.contains(p) <==> r.window.contains(p) && p.seat != seat,
        ev is Hora ==> settled(r, ev).samples == r.samples && settled(r, ev).window == rest,
        !(ev is Hora) ==> settled(r, ev).window.len() == 0 && settled(r, ev).samples.len()
            == r.samples.len() + rest.len(),
        !(ev is Hora) ==> forall|i: int|
            0 <= i < r.samples.len() ==> #[trigger] settled(r, ev).samples[i] == r.samples[i],
        !(ev is Hora) ==> forall|i: int|
            0 <= i < rest.len() ==> {
                let p = #[trigger] rest[i];
                let x = settled(r, ev).samples[r.samples.len() + i];
                x.obs == p.obs && x.mask == p.mask && x.action == (if r.engine.seats() == 3 {
                    58u16
                } else {
                    81u16
                })
            },
        settled(r, ev).engine == r.engine,
        settled(r, ev).prev_was_hora == r.prev_was_hora,
{
    broadcast use vstd::seq_lib::group_filter_ensures;

    let keep = |p: PendingView| p.seat != seat;
    let rest = r.window.filter(keep);
    assert forall|p: PendingView| #[trigger]
        rest.contains(p) <==> r.window.contains(p) && p.seat != seat by {
        if rest.contains(p) {
            r.window.lemma_filter_contains_rev(keep, p);
            let i = choose|i: int| 0 <= i < rest.len() && rest[i] == p;
            assert(keep(rest[i]));
        }
        if r.window.contains(p) && p.seat != seat {
            let i = choose|i: int| 0 <= i < r.window.len() && r.window[i] == p;
            assert(keep(r.window[i]));
        }
    }
    assert(others(r.window, claimer_of(ev)) == rest);
    rest
}

/// Where an event is no answer to a discard, everybody who waited has passed.
pub proof fn law_all_who_waited_pass(r: ReplayView, ev: EventView)
    requires
        !(ev is Pon || ev is Chi || ev is Kan || ev is Hora),
    ensures
        settled(r, ev).window.len() == 0,
        settled(r, ev).samples.len() == r.samples.len() + r.window.len(),
        forall|i: int|
            0 <= i < r.samples.len() ==> #[trigger] settled(r, ev).samples[i] == r.samples[i],
        forall|i: int|
            0 <= i < r.window.len() ==> {
                let p = #[trigger] r.window[i];
                let x = settled(r, ev).samples[r.samples.len() + i];
                x.obs == p.obs && x.mask == p.mask && x.action == (if r.engine.seats() == 3 {
                    58u16
                } else {
                    81u16
                })
            },
        settled(r, ev).engine == r.engine,
        settled(r, ev).prev_was_hora == r.prev_was_hora,
{
}

/// A win by draw leaves everybody who waits waiting.
pub proof fn law_a_win_by_draw_settles_nothing(r: ReplayView, ev: EventView)
    requires
        ev matches EventView::Hora { actor, target, .. } && actor == target,
    ensures
        settled(r, ev) == r,
{
}

/// A choice with an id is recorded exactly where a legal action of the seat has
/// that id: one more sample, with what the seat sees, the mask of what it may do
/// and the id. Otherwise no sample is added.
pub proof fn law_a_choice_is_recorded_iff_it_is_legal(
    r: ReplayView,
    ev: EventView,
    seat: u8,
    a: ActionView,
    code: nat,
    s: ReplayView,
)
    requires
        recorded(r, ev) == Ok::<ReplayView, ReplayError>(s),
        !(ev is Hora && r.prev_was_hora),
        decision_of(ev) == Some((seat, a)),
        action_code(r.engine.seats(), a) == Some(code),
    ensures
        (code < (if r.engine.seats() == 3 {
            60nat
        } else {
            82nat
        }) && exists|k: int|
            0 <= k < r.engine.seen(seat).legal_views().len() && action_code(
                r.engine.seats(),
                #[trigger] r.engine.seen(seat).legal_views()[k],
            ) == Some(code)) ==> s.samples.len() == r.samples.len() + 1 && s.samples.drop_last()
            == r.samples && s.samples.last().obs == r.engine.seen(seat) && s.samples.last().action
            == code && s.samples.last().mask == mask_of(
            r.engine.seen(seat).legal_views(),
            r.engine.seats(),
        ),
        !(code < (if r.engine.seats() == 3 {
            60nat
        } else {
            82nat
        }) && exists|k: int|
            0 <= k < r.engine.seen(seat).legal_views().len() && action_code(
                r.engine.seats(),
                #[trigger] r.engine.seen(seat).legal_views()[k],
            ) == Some(code)) ==> s.samples == r.samples,
        s.window == r.window,
        s.prev_was_hora == r.prev_was_hora,
        s.engine == r.engine.after_look(seat),
{
    let legal = r.engine.seen(seat).legal_views();
    let n = r.engine.seats();
    let mask = mask_seen(r.engine, seat);
    law_masks_mark_what_a_seat_may_do(r.engine, seat);
    assert(has_code(legal, n, code as int) <==> exists|k: int|
        0 <= k < legal.len() && action_code(n, #[trigger] legal[k]) == Some(code));
    if code < mask.len() {
        assert(mask[code as int] == 1 <==> has_code(legal, n, code as int));
    }
    if allows(mask, code) {
        assert(s.samples.drop_last() =~= r.samples);
    }
}

/// What is no choice, or has no id, or is a win right behind another win, is not
/// recorded and not even looked at.
pub proof fn law_what_is_not_recorded(r: ReplayView, ev: EventView)
    ensures
        ev is Hora && r.prev_was_hora ==> recorded(r, ev) == Ok::<ReplayView, ReplayError>(r),
        decision_of(ev) is None ==> recorded(r, ev) == Ok::<ReplayView, ReplayError>(r),
        (decision_of(ev) matches Some((_, a)) && action_code(r.engine.seats(), a) is None)
            ==> recorded(r, ev) == Ok::<ReplayView, ReplayError>(r),
{
}

/// Recording fails only where the seat of a choice with an id does not exist or
/// cannot be looked at.
pub proof fn law_when_recording_fails(r: ReplayView, ev: EventView, seat: u8, a: ActionView)
    requires
        !(ev is Hora && r.prev_was_hora),
        decision_of(ev) == Some((seat, a)),
        action_code(r.engine.seats(), a) is Some,
    ensures
        recorded(r, ev) is Ok <==> seat < r.engine.seats() && r.engine.lookable(seat),
        recorded(r, ev) == Err::<ReplayView, ReplayError>(ReplayError::NoSuchSeat) <==> seat
            >= r.engine.seats(),
        recorded(r, ev) == Err::<ReplayView, ReplayError>(ReplayError::Unlookable) <==> seat
            < r.engine.seats() && !r.engine.lookable(seat),
{
}

/// An event that the table can play is played: the table moves on by it, and
/// nothing else changes but whether the last event was a win. One that it cannot
/// play is refused.
pub proof fn law_events_are_played(r: ReplayView, ev: EventView)
    ensures
        r.engine.playable(ev) <==> applied(r, ev) is Ok,
        !r.engine.playable(ev) ==> applied(r, ev) == Err::<ReplayView, ReplayError>(
            ReplayError::Unplayable,
        ),
        applied(r, ev) matches Ok(t) ==> t.engine == r.engine.after(ev) && t.window == r.window
            && t.samples == r.samples && (t.prev_was_hora <==> ev is Hora),
{
}

/// A step settles who passed, then records the choice on the table as it was,
/// then plays the event, and looks for calls after a discard alone; it fails
/// where one of these does.
pub proof fn law_a_step_is_settle_record_play_look(r: ReplayView, ev: EventView)
    ensures
        recorded(settled(r, ev), ev) matches Err(e) ==> stepped(r, ev) == Err::<
            ReplayView,
            ReplayError,
        >(e),
        recorded(settled(r, ev), ev) matches Ok(s) ==> {
            &&& !s.engine.playable(ev) ==> stepped(r, ev) == Err::<ReplayView, ReplayError>(
                ReplayError::Unplayable,
            )
            &&& s.engine.playable(ev) && !(ev is Dahai) ==> (stepped(r, ev) matches Ok(t) && t.engine
                == s.engine.after(ev) && t.samples == s.samples && t.window == s.window && (
            t.prev_was_hora <==> ev is Hora))
            &&& s.engine.playable(ev) && (ev matches EventView::Dahai { actor, .. }) ==> stepped(
                r,
                ev,
            ) == opened(applied(s, ev).unwrap(), ev->Dahai_actor as u8, s.engine.after(ev).active())
        },
{
}

/// With four players an open kan of a tile that exists is recorded under
/// forty-two plus the tile's type wherever such a kan is legal.
pub proof fn law_legal_open_kans_are_recorded(
    r: ReplayView,
    actor: usize,
    target: usize,
    pai: Seq<char>,
    consumed: Seq<Seq<char>>,
    tile: u8,
    k: int,
    t: ReplayView,
)
    requires
        r.engine.seats() == 4,
        stepped(r, EventView::Kan { actor, target, pai, consumed }) == Ok::<
            ReplayView,
            ReplayError,
        >(t),
        mjai_tile(pai) == Some(tile),
        tile < 136,
        0 <= k < r.engine.seen(actor as u8).legal_views().len(),
        ({
            let a = r.engine.seen(actor as u8).legal_views()[k];
            a.kind is Daiminkan && (a.tile matches Some(x) && x / 4 == tile / 4)
        }),
    ensures
        t.samples.len() > 0,
        t.samples.last().action == 42 + tile / 4,
        t.samples.last().obs == r.engine.seen(actor as u8),
        r.samples.is_prefix_of(t.samples.drop_last()),
{
    let ev = EventView::Kan { actor, target, pai, consumed };
    let s = settled(r, ev);
    let (seat, a) = decision_of(ev).unwrap();
    let code = (42 + tile / 4) as nat;
    assert(action_code(4, a) == Some(code));
    assert(action_code(4, r.engine.seen(seat).legal_views()[k]) == Some(code));
    let m = recorded(s, ev).unwrap();
    law_a_choice_is_recorded_iff_it_is_legal(s, ev, seat, a, code, m);
    assert(t.samples == m.samples);
    assert(r.samples.is_prefix_of(s.samples));
}

/// A replay of no event changes nothing, and one of one event is its step.
pub proof fn law_a_replay_is_its_steps(r: ReplayView, events: Seq<EventView>, ev: EventView)
    ensures
        replayed(r, Seq::empty()) == Ok::<ReplayView, ReplayError>(r),
        replayed(r, events) matches Ok(s) ==> replayed(r, events.push(ev)) == stepped(s, ev),
        replayed(r, events) is Err ==> replayed(r, events.push(ev)) == replayed(r, events),
{
    assert(events.push(ev).drop_last() =~= events);
}

/// A replay starts at the table given, with nobody waiting and no sample.
pub proof fn law_a_replay_starts_with_nothing(engine: Engine)
    ensures
        fresh(engine).engine == engine,
        fresh(engine).window.len() == 0,
        fresh(engine).samples.len() == 0,
        !fresh(engine).prev_was_hora,
{
}

/// At the end whoever still waits has passed, with what they saw.
pub proof fn law_the_end_settles_who_waits(r: ReplayView)
    ensures
        finished(r).len() == r.samples.len() + r.window.len(),
        forall|i: int| 0 <= i < r.samples.len() ==> #[trigger] finished(r)[i] == r.samples[i],
        forall|i: int|
            0 <= i < r.window.len() ==> {
                let p = #[trigger] r.window[i];
                let x = finished(r)[r.samples.len() + i];
                x.obs == p.obs && x.mask == p.mask && x.action == (if r.engine.seats() == 3 {
                    58u16
                } else {
                    81u16
                })
            },
{
}

/// The events of two runs of lines are those of the one, then those of the other.
pub proof fn law_events_follow_the_lines(a: Seq<Seq<char>>, b: Seq<Seq<char>>, num_players: u8)
    ensures
        events_of_lines(a + b, num_players) == events_of_lines(a, num_players) + events_of_lines(
            b,
            num_players,
        ),
    decreases b.len(),
{
    if b.len() == 0 {
        assert(a + b =~= a);
        assert(events_of_lines(a, num_players) + events_of_lines(b, num_players)
            =~= events_of_lines(a, num_players));
    } else {
        law_events_follow_the_lines(a, b.drop_last(), num_players);
        assert((a + b).drop_last() =~= a + b.drop_last());
        assert((a + b).last() == b.last());
        if let Some(ev) = line_event(b.last(), num_players) {
            let (x, y) = (
                events_of_lines(a, num_players),
                events_of_lines(b.drop_last(), num_players),
            );
            assert((x + y).push(ev) =~= x + y.push(ev));
        }
    }
}

/// A line of a log adds the event that it stands for to those of the lines behind
/// it, whether it ends in a line feed or in a carriage return and a line feed.
pub proof fn law_a_line_adds_its_event(line: Seq<char>, rest: Seq<char>, num_players: u8)
    requires
        forall|i: int| 0 <= i < line.len() ==> #[trigger] line[i] != '\n',
    ensures
        ({
            let text = if line.len() > 0 && line.last() == '\r' {
                line.drop_last()
            } else {
                line
            };
            let whole = log_events(line.push('\n') + rest, num_players);
            let behind = log_events(rest, num_players);
            match line_event(text, num_players) {
                Some(ev) => whole.len() == behind.len() + 1 && whole[0] == ev && whole.skip(1)
                    == behind,
                None => whole == behind,
            }
        }),
{
    law_a_line_ends_at_its_line_feed(line, rest);
    let text = if line.len() > 0 && line.last() == '\r' {
        line.drop_last()
    } else {
        line
    };
    let lines = text_lines(line.push('\n') + rest);
    assert forall|j: int| 0 <= j < lines.len() implies lines[j] == #[trigger] (seq![text]
        + text_lines(rest))[j] by {
        if j > 0 {
            let i = j - 1;
            assert(lines[i + 1] == text_lines(rest)[i]);
        }
    }
    assert(lines =~= seq![text] + text_lines(rest));
    law_events_follow_the_lines(seq![text], text_lines(rest), num_players);
    assert(seq![text].drop_last() =~= Seq::<Seq<char>>::empty());
    assert(seq![text].last() == text);
    assert(events_of_lines(Seq::<Seq<char>>::empty(), num_players).len() == 0);
    assert(events_of_lines(seq![text], num_players) =~= match line_event(text, num_players) {
        Some(ev) => seq![ev],
        None => Seq::empty(),
    });
    assert(log_events(line.push('\n') + rest, num_players) =~= events_of_lines(
        seq![text],
        num_players,
    ) + log_events(rest, num_players));
    if line_event(text, num_players) is Some {
        assert(log_events(line.push('\n') + rest, num_players).skip(1) =~= log_events(
            rest,
            num_players,
        ));
    } else {
        assert(log_events(line.push('\n') + rest, num_players) =~= log_events(rest, num_players));
    }
}

/// A log is replayed from a fresh start over its events, at the table's number of
/// players, and comes to what is there at the end; it is refused where one of
/// its steps is.
pub proof fn law_what_a_log_comes_to(engine: Engine, content: Seq<char>)
    ensures
        replayed(fresh(engine), log_events(content, engine.seats())) matches Err(e)
            ==> replay_result(engine, content) == Err::<Seq<SampleView>, ReplayError>(e),
        replayed(fresh(engine), log_events(content, engine.seats())) matches Ok(r)
            ==> replay_result(engine, content) == Ok::<Seq<SampleView>, ReplayError>(finished(r)),
{
}

/// After a discard a seat waits if and only if it may act, is not the one that
/// discarded, and saw a legal action with an id that is no pass when it was looked
/// at.
pub proof fn law_who_waits_after_discarding(
    r: ReplayView,
    ev: EventView,
    from: u8,
    then: ReplayView,
    t: ReplayView,
)
    requires
        ev matches EventView::Dahai { actor, .. } && from == actor as u8,
        stepped(r, ev) == Ok::<ReplayView, ReplayError>(t),
        recorded(settled(r, ev), ev) matches Ok(s) && then.engine == s.engine.after(ev)
            && then.samples == s.samples && then.window.len() == 0 && !then.prev_was_hora,
        forall|j: int, k: int|
            0 <= j < then.engine.active().len() && 0 <= k < opened(
                then,
                from,
                then.engine.active().take(j),
            ).unwrap().engine.seen(then.engine.active()[j]).legal_views().len() ==> about_tiles(
                #[trigger] opened(
                    then,
                    from,
                    then.engine.active().take(j),
                ).unwrap().engine.seen(then.engine.active()[j]).legal_views()[k],
            ),
    ensures
        forall|seat: u8| #[trigger]
            waits(t.window, seat) <==> exists|j: int|
                0 <= j < then.engine.active().len() && #[trigger] then.engine.active()[j] == seat
                    && seat != from && may_call(
                    opened(
                        then,
                        from,
                        then.engine.active().take(j),
                    ).unwrap().engine.seen(seat).legal_views(),
                    then.engine.seats(),
                ),
        t.samples == then.samples,
{
    let s = recorded(settled(r, ev), ev).unwrap();
    assert(s.window.len() == 0);
    assert(then.window =~= s.window);
    assert(applied(s, ev) == Ok::<ReplayView, ReplayError>(then));
    law_who_waits_once_all_are_looked_at(then, from, then.engine.active(), t);
}

} // verus!
