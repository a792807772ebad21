//! What holds of whole logs: which samples each event adds and in what order,
//! who is said to have passed on which discard, and which logs come to the same.
use vstd::prelude::*;
use crate::action_codec::{action_code, law_mask_marks_the_legal_ids, pass_code};
use crate::engine::Engine;
use crate::mjai::EventView;
use crate::mjai_compat::{law_the_fourth_seat_does_not_matter, line_event, same_for_three};
use crate::replay::{
    allows, applied, claimer_of, decision_of, discarder_of, events_of_lines, finished, fresh,
    log_events, mask_seen, opened, others, passes, recorded, replay_result, replayed, settled,
    stepped, PendingView, ReplayError, ReplayView, SampleView,
};
use crate::replay_laws::{
    all_wins, claims, law_no_choice_is_a_pass, lemma_unclaimed_none, lemma_unclaimed_push, unclaimed,
};
use crate::text::{law_a_line_behind_is_one_more_line, text_lines};

verus! {

/// The sample of the choice in `ev` itself, if there is one to record: what the
/// seat saw before `ev`, and the id of what it chose, where that has an id that
/// its mask allows. A win right after a win has none.
pub open spec fn own_sample(r: ReplayView, ev: EventView) -> Seq<SampleView> {
    if ev is Hora && r.prev_was_hora {
        Seq::empty()
    } else {
        match decision_of(ev) {
            None => Seq::empty(),
            Some((seat, action)) => match action_code(r.engine.seats(), action) {
                None => Seq::empty(),
                Some(code) => if allows(mask_seen(r.engine, seat), code) {
                    seq![
                        SampleView {
                            obs: r.engine.seen(seat),
                            action: code as u16,
                            mask: mask_seen(r.engine, seat),
                        },
                    ]
                } else {
                    Seq::empty()
                },
            },
        }
    }
}

/// The passes that `ev` brings to light: of all that wait and do not claim now,
/// unless `ev` is a win.
pub open spec fn passes_at(r: ReplayView, ev: EventView) -> Seq<SampleView> {
    if ev is Hora {
        Seq::empty()
    } else {
        passes(others(r.window, claimer_of(ev)), r.engine.seats())
    }
}

/// An event adds the passes that it brings to light, in the order of the window,
/// and then the sample of its own choice, and nothing else. A win right after a
/// win adds nothing, takes its seat out of the window, and still happens.
pub proof fn law_what_an_event_adds(r: ReplayView, ev: EventView, t: ReplayView)
    requires
        stepped(r, ev) == Ok::<ReplayView, ReplayError>(t),
    ensures
        t.samples == r.samples + passes_at(r, ev) + own_sample(r, ev),
        t.engine.seats() == r.engine.seats(),
        t.prev_was_hora == ev is Hora,
        ev is Hora ==> t.window == others(r.window, claimer_of(ev)),
        ev is Hora && r.prev_was_hora ==> t.samples == r.samples && t.engine == r.engine.after(ev),
        !(ev is Hora) && discarder_of(ev) is None ==> t.window.len() == 0,
{
    let closed = settled(r, ev);
    let kept = recorded(closed, ev).unwrap();
    let next = applied(kept, ev).unwrap();
    r.engine.law_seats_stay(ev, 0);
    kept.engine.law_seats_stay(ev, 0);
    if let Some((seat, action)) = decision_of(ev) {
        r.engine.law_seats_stay(ev, seat);
    }
    assert(closed.samples =~= r.samples + passes_at(r, ev));
    assert(kept.samples =~= closed.samples + own_sample(r, ev));
    if let Some(from) = discarder_of(ev) {
        lemma_opened_keeps(next, from, next.engine.active());
    }
}

/// Opening the window leaves the samples, and the number of seats, as they are.
proof fn lemma_opened_keeps(r: ReplayView, from: u8, seats: Seq<u8>)
    requires
        opened(r, from, seats) is Ok,
    ensures
        opened(r, from, seats).unwrap().samples == r.samples,
        opened(r, from, seats).unwrap().engine.seats() == r.engine.seats(),
        opened(r, from, seats).unwrap().prev_was_hora == r.prev_was_hora,
    decreases seats.len(),
{
    if seats.len() > 0 {
        lemma_opened_keeps(r, from, seats.drop_last());
        let s = opened(r, from, seats.drop_last()).unwrap();
        s.engine.law_seats_stay(EventView::EndGame, seats.last());
    }
}

/// The replay of a log just before its event `k`.
pub open spec fn at_event(engine: Engine, events: Seq<EventView>, k: int) -> ReplayView {
    replayed(fresh(engine), events.take(k)).unwrap()
}

/// A log that can be replayed can be replayed up to each of its events.
proof fn lemma_replayed_upto(engine: Engine, events: Seq<EventView>, k: int)
    requires
        replayed(fresh(engine), events) is Ok,
        0 <= k <= events.len(),
    ensures
        replayed(fresh(engine), events.take(k)) is Ok,
        at_event(engine, events, k).engine.seats() == engine.seats(),
    decreases events.len() - k, k,
{
    if k < events.len() {
        lemma_replayed_upto(engine, events, k + 1);
        assert(events.take(k + 1).drop_last() =~= events.take(k));
    } else {
        assert(events.take(k) =~= events);
    }
    lemma_seats_kept(engine, events.take(k));
}

/// Replaying keeps the number of seats.
proof fn lemma_seats_kept(engine: Engine, events: Seq<EventView>)
    requires
        replayed(fresh(engine), events) is Ok,
    ensures
        replayed(fresh(engine), events).unwrap().engine.seats() == engine.seats(),
    decreases events.len(),
{
    if events.len() > 0 {
        lemma_seats_kept(engine, events.drop_last());
        law_what_an_event_adds(
            replayed(fresh(engine), events.drop_last()).unwrap(),
            events.last(),
            replayed(fresh(engine), events).unwrap(),
        );
    }
}

/// The samples that the first `k` events of a log add, one after another.
pub open spec fn added_by(engine: Engine, events: Seq<EventView>, k: int) -> Seq<SampleView>
    decreases k,
{
    if k <= 0 {
        Seq::empty()
    } else {
        let r = at_event(engine, events, k - 1);
        added_by(engine, events, k - 1) + passes_at(r, events[k - 1]) + own_sample(
            r,
            events[k - 1],
        )
    }
}

/// What the first events add does not depend on those that follow.
proof fn lemma_added_by_take(engine: Engine, events: Seq<EventView>, n: int, k: int)
    requires
        0 <= k <= n <= events.len(),
    ensures
        added_by(engine, events.take(n), k) == added_by(engine, events, k),
    decreases k,
{
    if k > 0 {
        lemma_added_by_take(engine, events, n, k - 1);
        assert(events.take(n).take(k - 1) =~= events.take(k - 1));
    }
}

/// The samples of a log are those that its events add, in order, and then the
/// passes of whoever still waits at its end.
pub proof fn law_samples_of_a_log(engine: Engine, events: Seq<EventView>)
    requires
        replayed(fresh(engine), events) is Ok,
    ensures
        finished(replayed(fresh(engine), events).unwrap()) == added_by(
            engine,
            events,
            events.len() as int,
        ) + passes(replayed(fresh(engine), events).unwrap().window, engine.seats()),
{
    lemma_samples_of_a_log(engine, events);
    lemma_seats_kept(engine, events);
}

proof fn lemma_samples_of_a_log(engine: Engine, events: Seq<EventView>)
    requires
        replayed(fresh(engine), events) is Ok,
    ensures
        replayed(fresh(engine), events).unwrap().samples == added_by(
            engine,
            events,
            events.len() as int,
        ),
    decreases events.len(),
{
    let n = events.len() as int;
    if n > 0 {
        let before = events.drop_last();
        lemma_samples_of_a_log(engine, before);
        let mid = replayed(fresh(engine), before).unwrap();
        law_what_an_event_adds(mid, events.last(), replayed(fresh(engine), events).unwrap());
        assert(events.take(n - 1) =~= before);
        lemma_added_by_take(engine, events, n - 1, n - 1);
    }
}

/// Who waits after event `k` of a log: those who could call it, if it is a
/// discard.
pub open spec fn waiting_after(engine: Engine, events: Seq<EventView>, k: int) -> Seq<
    PendingView,
> {
    if events[k] is Dahai {
        at_event(engine, events, k + 1).window
    } else {
        Seq::empty()
    }
}

/// The events that answer a discard, out of those that follow it: the wins right
/// after it and the first event that is none.
pub open spec fn answers(rest: Seq<EventView>) -> Seq<EventView>
    decreases rest.len(),
{
    if rest.len() == 0 {
        Seq::empty()
    } else if rest[0] is Hora {
        seq![rest[0]] + answers(rest.skip(1))
    } else {
        seq![rest[0]]
    }
}

/// Who declined to call the discard that is event `k` of a log: those who could
/// call it and do not claim it in the events that answer it.
pub open spec fn declined(engine: Engine, events: Seq<EventView>, k: int) -> Seq<PendingView> {
    unclaimed(waiting_after(engine, events, k), answers(events.skip(k + 1)))
}

/// The passes on the discards among the first `k` events of a log: for each
/// discard, in order, one of each seat that declined it.
pub open spec fn passes_on_discards(engine: Engine, events: Seq<EventView>, k: int) -> Seq<
    SampleView,
>
    decreases k,
{
    if k <= 0 {
        Seq::empty()
    } else {
        passes_on_discards(engine, events, k - 1) + passes(
            declined(engine, events, k - 1),
            engine.seats(),
        )
    }
}

/// The samples among `xs` that say of a seat that it passed.
pub open spec fn passes_among(xs: Seq<SampleView>, num_players: u8) -> Seq<SampleView> {
    xs.filter(|x: SampleView| x.action == pass_code(num_players))
}

/// While there are only wins, all of them answer; once there was another event,
/// no more do.
proof fn lemma_answers_push(rest: Seq<EventView>, ev: EventView)
    ensures
        all_wins(rest) ==> answers(rest) == rest && answers(rest.push(ev)) == rest.push(ev),
        !all_wins(rest) ==> answers(rest.push(ev)) == answers(rest),
    decreases rest.len(),
{
    let more = rest.push(ev);
    if rest.len() == 0 {
        assert(more.skip(1) =~= rest);
        assert(answers(rest) =~= rest);
        assert(answers(more) =~= more);
        assert(all_wins(rest));
    } else {
        assert(more[0] == rest[0]);
        if rest[0] is Hora {
            lemma_answers_push(rest.skip(1), ev);
            assert(more.skip(1) =~= rest.skip(1).push(ev));
            assert(seq![rest[0]] + rest.skip(1) =~= rest);
            assert(seq![rest[0]] + rest.skip(1).push(ev) =~= more);
            if all_wins(rest) {
                assert forall|i: int| 0 <= i < rest.skip(1).len() implies #[trigger] rest.skip(
                    1,
                )[i] is Hora by {
                    assert(rest.skip(1)[i] == rest[i + 1]);
                }
            } else {
                let i = choose|i: int| 0 <= i < rest.len() && !(#[trigger] rest[i] is Hora);
                assert(rest.skip(1)[i - 1] == rest[i]);
                assert(!all_wins(rest.skip(1)));
            }
        }
    }
}

/// The last event of a log that is no win, or -1.
spec fn last_plain(events: Seq<EventView>) -> int
    decreases events.len(),
{
    if events.len() == 0 {
        -1
    } else if events.last() is Hora {
        last_plain(events.drop_last())
    } else {
        events.len() - 1
    }
}

proof fn lemma_last_plain(events: Seq<EventView>)
    ensures
        -1 <= last_plain(events) < events.len(),
        last_plain(events) >= 0 ==> !(events[last_plain(events)] is Hora),
        forall|i: int| last_plain(events) < i < events.len() ==> #[trigger] events[i] is Hora,
    decreases events.len(),
{
    if events.len() > 0 && events.last() is Hora {
        lemma_last_plain(events.drop_last());
        assert forall|i: int| last_plain(events) < i < events.len() implies #[trigger] events[i]
            is Hora by {
            if i < events.len() - 1 {
                assert(events.drop_last()[i] == events[i]);
            }
        }
    }
}

/// One more event does not change who declined a discard that is answered.
proof fn lemma_declined_stays(engine: Engine, events: Seq<EventView>, ev: EventView, k: int)
    requires
        0 <= k < events.len(),
        !all_wins(events.skip(k + 1)) || !(events[k] is Dahai),
    ensures
        declined(engine, events.push(ev), k) == declined(engine, events, k),
{
    let more = events.push(ev);
    assert(more.take(k + 1) =~= events.take(k + 1));
    assert(more.skip(k + 1) =~= events.skip(k + 1).push(ev));
    if events[k] is Dahai {
        lemma_answers_push(events.skip(k + 1), ev);
    } else {
        lemma_unclaimed_of_none(answers(events.skip(k + 1)));
        lemma_unclaimed_of_none(answers(more.skip(k + 1)));
    }
}

/// Where nobody waits, nobody is left.
proof fn lemma_unclaimed_of_none(events: Seq<EventView>)
    ensures
        unclaimed(Seq::empty(), events) == Seq::<PendingView>::empty(),
{
    reveal(Seq::filter);
    assert(unclaimed(Seq::empty(), events) =~= Seq::<PendingView>::empty());
}

proof fn lemma_passes_stay(engine: Engine, events: Seq<EventView>, ev: EventView, k: int)
    requires
        0 <= k <= events.len(),
        k <= last_plain(events) || last_plain(events) == -1,
    ensures
        passes_on_discards(engine, events.push(ev), k) == passes_on_discards(engine, events, k),
    decreases k,
{
    if k > 0 {
        lemma_passes_stay(engine, events, ev, k - 1);
        lemma_last_plain(events);
        let q = last_plain(events);
        if q >= 0 {
            assert(events.skip(k)[q - k] == events[q]);
            assert(!all_wins(events.skip(k)));
        } else {
            assert(events[k - 1] is Hora);
        }
        lemma_declined_stays(engine, events, ev, k - 1);
    }
}

/// Wins are no discards: they add no passes.
proof fn lemma_wins_add_no_passes(engine: Engine, events: Seq<EventView>, from: int, k: int)
    requires
        0 <= from <= k <= events.len(),
        forall|i: int| from <= i < k ==> #[trigger] events[i] is Hora,
    ensures
        passes_on_discards(engine, events, k) == passes_on_discards(engine, events, from),
    decreases k,
{
    if from < k {
        lemma_wins_add_no_passes(engine, events, from, k - 1);
        assert(events[k - 1] is Hora);
        lemma_unclaimed_of_none(answers(events.skip(k)));
        assert(passes_on_discards(engine, events, k) =~= passes_on_discards(engine, events, k - 1));
    }
}

/// Who is said to have passed is only in passes; a choice's own sample is none.
proof fn lemma_passes_among(
    xs: Seq<SampleView>,
    r: ReplayView,
    ev: EventView,
    window: Seq<PendingView>,
)
    ensures
        passes_among(xs + passes(window, r.engine.seats()) + own_sample(r, ev), r.engine.seats())
            == passes_among(xs, r.engine.seats()) + passes(window, r.engine.seats()),
        passes_among(xs + passes(window, r.engine.seats()), r.engine.seats()) == passes_among(
            xs,
            r.engine.seats(),
        ) + passes(window, r.engine.seats()),
{
    let n = r.engine.seats();
    let is_pass = |x: SampleView| x.action == pass_code(n);
    let own = own_sample(r, ev);
    let ps = passes(window, n);
    Seq::filter_distributes_over_add(xs + ps, own, is_pass);
    Seq::filter_distributes_over_add(xs, ps, is_pass);
    lemma_filter_all(ps, is_pass);
    assert(own.filter(is_pass) =~= Seq::<SampleView>::empty()) by {
        reveal_with_fuel(Seq::filter, 2);
        law_no_choice_is_a_pass(ev, n);
        if own.len() > 0 {
            let (seat, action) = decision_of(ev).unwrap();
            law_mask_marks_the_legal_ids(r.engine.seen(seat).legal_views(), n);
            assert(own[0].action == action_code(n, action).unwrap());
            assert(!is_pass(own.last()));
            assert(own.drop_last() =~= Seq::<SampleView>::empty());
        }
    }
    assert(passes_among(xs, n) + ps + Seq::<SampleView>::empty() =~= passes_among(xs, n) + ps);
}

/// Where all fit, filtering keeps all.
proof fn lemma_filter_all(xs: Seq<SampleView>, f: spec_fn(SampleView) -> bool)
    requires
        forall|i: int| 0 <= i < xs.len() ==> f(#[trigger] xs[i]),
    ensures
        xs.filter(f) == xs,
    decreases xs.len(),
{
    reveal(Seq::filter);
    if xs.len() > 0 {
        assert forall|i: int| 0 <= i < xs.drop_last().len() implies f(
            #[trigger] xs.drop_last()[i],
        ) by {
            assert(xs.drop_last()[i] == xs[i]);
        }
        lemma_filter_all(xs.drop_last(), f);
        assert(f(xs[xs.len() - 1]));
        assert(xs.drop_last().push(xs.last()) =~= xs);
    } else {
        assert(xs.filter(f) =~= xs);
    }
}

/// Whether a replay of a log stands as it should: the passes on answered discards
/// are recorded, and who waits is who has declined the last discard so far.
spec fn passes_stand(engine: Engine, events: Seq<EventView>, s: ReplayView) -> bool {
    let q = last_plain(events);
    &&& s.engine.seats() == engine.seats()
    &&& q < 0 ==> s.window.len() == 0 && passes_among(s.samples, engine.seats()) == Seq::<
        SampleView,
    >::empty()
    &&& q >= 0 ==> s.window == declined(engine, events, q) && passes_among(
        s.samples,
        engine.seats(),
    ) == passes_on_discards(engine, events, q)
}

/// Who has declined the last discard, once one more event is known, is who had
/// and does not claim it now.
proof fn lemma_declined_next(
    engine: Engine,
    before: Seq<EventView>,
    ev: EventView,
    window: Seq<PendingView>,
)
    requires
        last_plain(before) >= 0 ==> window == declined(engine, before, last_plain(before)),
        last_plain(before) < 0 ==> window.len() == 0,
    ensures
        last_plain(before) >= 0 ==> declined(engine, before.push(ev), last_plain(before))
            == others(window, claimer_of(ev)),
        last_plain(before) < 0 ==> others(window, claimer_of(ev)).len() == 0,
{
    let q = last_plain(before);
    let events = before.push(ev);
    lemma_last_plain(before);
    if q >= 0 {
        let tail = before.skip(q + 1);
        assert(all_wins(tail)) by {
            assert forall|i: int| 0 <= i < tail.len() implies #[trigger] tail[i] is Hora by {
                assert(tail[i] == before[q + 1 + i]);
            }
        }
        lemma_answers_push(tail, ev);
        assert(events.skip(q + 1) =~= tail.push(ev));
        assert(events.take(q + 1) =~= before.take(q + 1));
        assert(events[q] == before[q]);
        assert(tail.push(ev).drop_last() =~= tail);
        lemma_unclaimed_push(waiting_after(engine, events, q), tail.push(ev));
    } else {
        reveal(Seq::filter);
    }
}

/// A win adds no pass.
proof fn lemma_passes_after_win(
    engine: Engine,
    before: Seq<EventView>,
    ev: EventView,
    mid: ReplayView,
    s: ReplayView,
)
    requires
        ev is Hora,
        passes_stand(engine, before, mid),
        s.engine.seats() == engine.seats(),
        s.samples == mid.samples + passes_at(mid, ev) + own_sample(mid, ev),
        s.window == others(mid.window, claimer_of(ev)),
    ensures
        passes_stand(engine, before.push(ev), s),
{
    let n = engine.seats();
    let q = last_plain(before);
    lemma_last_plain(before);
    lemma_declined_next(engine, before, ev, mid.window);
    assert(before.push(ev).drop_last() =~= before);
    lemma_passes_among(mid.samples, mid, ev, Seq::empty());
    let none = passes(Seq::<PendingView>::empty(), n);
    assert(none =~= Seq::<SampleView>::empty());
    assert(passes_at(mid, ev) =~= none);
    assert(passes_among(s.samples, n) == passes_among(mid.samples, n) + none);
    assert(passes_among(mid.samples, n) + none =~= passes_among(mid.samples, n));
    if q >= 0 {
        lemma_passes_stay(engine, before, ev, q);
    }
}

/// Any other event adds the passes of those who declined.
proof fn lemma_passes_after_other(
    engine: Engine,
    before: Seq<EventView>,
    ev: EventView,
    mid: ReplayView,
    s: ReplayView,
)
    requires
        !(ev is Hora),
        passes_stand(engine, before, mid),
        s.engine.seats() == engine.seats(),
        s.samples == mid.samples + passes_at(mid, ev) + own_sample(mid, ev),
        s.window == waiting_after(engine, before.push(ev), before.len() as int),
    ensures
        passes_stand(engine, before.push(ev), s),
{
    let players = engine.seats();
    let events = before.push(ev);
    let n = events.len() as int;
    let q = last_plain(before);
    let rest = others(mid.window, claimer_of(ev));
    lemma_last_plain(before);
    lemma_declined_next(engine, before, ev, mid.window);
    lemma_passes_among(mid.samples, mid, ev, rest);
    assert(events.skip(n) =~= Seq::empty());
    lemma_unclaimed_none(waiting_after(engine, events, n - 1));
    assert forall|i: int| q + 1 <= i < n - 1 implies #[trigger] events[i] is Hora by {
        assert(before[i] == events[i]);
    }
    if q >= 0 {
        lemma_passes_stay(engine, before, ev, q);
        lemma_wins_add_no_passes(engine, events, q + 1, n - 1);
    } else {
        lemma_wins_add_no_passes(engine, events, 0, n - 1);
        assert(passes(rest, players) =~= Seq::<SampleView>::empty());
        assert(passes_among(s.samples, players) =~= Seq::<SampleView>::empty());
    }
}

/// Every log that can be replayed leaves the passes as they should stand.
proof fn lemma_passes_so_far(engine: Engine, events: Seq<EventView>)
    requires
        replayed(fresh(engine), events) is Ok,
    ensures
        passes_stand(engine, events, replayed(fresh(engine), events).unwrap()),
    decreases events.len(),
{
    let s = replayed(fresh(engine), events).unwrap();
    let n = events.len() as int;
    if n == 0 {
        reveal(Seq::filter);
        assert(passes_among(s.samples, engine.seats()) =~= Seq::<SampleView>::empty());
    } else {
        let before = events.drop_last();
        let ev = events.last();
        let mid = replayed(fresh(engine), before).unwrap();
        lemma_passes_so_far(engine, before);
        law_what_an_event_adds(mid, ev, s);
        assert(before.push(ev) =~= events);
        if ev is Hora {
            lemma_passes_after_win(engine, before, ev, mid, s);
        } else {
            assert(events.take(n) =~= events);
            assert(s.window =~= waiting_after(engine, events, n - 1));
            lemma_passes_after_other(engine, before, ev, mid, s);
        }
    }
}

/// The passes in a log's samples are those on its discards, discard by discard:
/// one of each seat that could call it and did not claim it in the events that
/// answer it, with what the seat saw then. The end of the log counts as
/// declining. There is no other pass.
pub proof fn law_passes_of_a_log(engine: Engine, events: Seq<EventView>)
    requires
        replayed(fresh(engine), events) is Ok,
    ensures
        passes_among(finished(replayed(fresh(engine), events).unwrap()), engine.seats())
            == passes_on_discards(engine, events, events.len() as int),
{
    let s = replayed(fresh(engine), events).unwrap();
    let n = events.len() as int;
    let q = last_plain(events);
    lemma_passes_so_far(engine, events);
    lemma_last_plain(events);
    lemma_passes_among(s.samples, s, EventView::EndGame, s.window);
    if q >= 0 {
        lemma_wins_add_no_passes(engine, events, q + 1, n);
    } else {
        lemma_wins_add_no_passes(engine, events, 0, n);
        assert(passes_among(finished(s), engine.seats()) =~= Seq::<SampleView>::empty());
    }
}

/// Who waits after a discard: those found by looking at each seat that may act
/// but the discarder, once the discard has happened.
pub proof fn law_who_waits_after_a_discard(engine: Engine, events: Seq<EventView>, k: int)
    requires
        replayed(fresh(engine), events) is Ok,
        0 <= k < events.len(),
        events[k] is Dahai,
    ensures
        ({
            let r = at_event(engine, events, k);
            let then = applied(recorded(settled(r, events[k]), events[k]).unwrap(), events[k]);
            let from = discarder_of(events[k]).unwrap();
            &&& then is Ok
            &&& then.unwrap().window.len() == 0
            &&& opened(then.unwrap(), from, then.unwrap().engine.active()) is Ok
            &&& waiting_after(engine, events, k) == opened(
                then.unwrap(),
                from,
                then.unwrap().engine.active(),
            ).unwrap().window
        }),
{
    lemma_replayed_upto(engine, events, k + 1);
    lemma_replayed_upto(engine, events, k);
    assert(events.take(k + 1).drop_last() =~= events.take(k));
    assert(events.take(k + 1).last() == events[k]);
}

/// An event that is no choice changes no sample at the end of a log: whoever
/// waits has passed either way.
pub proof fn law_progress_changes_no_sample(r: ReplayView, ev: EventView, t: ReplayView)
    requires
        decision_of(ev) is None,
        stepped(r, ev) == Ok::<ReplayView, ReplayError>(t),
    ensures
        finished(t) == finished(r),
{
    law_what_an_event_adds(r, ev, t);
    assert(finished(t) =~= finished(r));
}

/// One more line with such an event changes nothing in what a log comes to, if
/// the table can take the event in.
pub proof fn law_one_more_line_of_progress(
    engine: Engine,
    content: Seq<char>,
    line: Seq<char>,
    ev: EventView,
)
    requires
        content.len() > 0 ==> content.last() == '\n',
        line.len() > 0,
        forall|i: int| 0 <= i < line.len() ==> #[trigger] line[i] != '\n',
        line_event(line, engine.seats()) == Some(ev),
        decision_of(ev) is None,
        replay_result(engine, content) is Ok,
        at_event(
            engine,
            log_events(content, engine.seats()),
            log_events(content, engine.seats()).len() as int,
        ).engine.playable(ev),
    ensures
        replay_result(engine, content + line) == replay_result(engine, content),
{
    law_a_line_behind_is_one_more_line(content, line);
    let events = log_events(content, engine.seats());
    let more = log_events(content + line, engine.seats());
    assert(text_lines(content + line).drop_last() =~= text_lines(content));
    assert(more == events.push(ev));
    assert(more.drop_last() =~= events);
    assert(events.take(events.len() as int) =~= events);
    let r = replayed(fresh(engine), events).unwrap();
    let t = stepped(r, ev);
    assert(t is Ok);
    law_progress_changes_no_sample(r, ev, t.unwrap());
}

/// Logs whose lines stand for the same events come to the same.
pub proof fn law_same_lines_same_samples(engine: Engine, a: Seq<char>, b: Seq<char>)
    requires
        text_lines(a).len() == text_lines(b).len(),
        forall|i: int|
            #![trigger text_lines(a)[i]]
            0 <= i < text_lines(a).len() ==> line_event(text_lines(a)[i], engine.seats())
                == line_event(text_lines(b)[i], engine.seats()),
    ensures
        replay_result(engine, a) == replay_result(engine, b),
{
    lemma_same_events(text_lines(a), text_lines(b), engine.seats());
}

proof fn lemma_same_events(a: Seq<Seq<char>>, b: Seq<Seq<char>>, num_players: u8)
    requires
        a.len() == b.len(),
        forall|i: int|
            #![trigger a[i]]
            0 <= i < a.len() ==> line_event(a[i], num_players) == line_event(b[i], num_players),
    ensures
        events_of_lines(a, num_players) == events_of_lines(b, num_players),
    decreases a.len(),
{
    if a.len() > 0 {
        assert forall|i: int|
            #![trigger a.drop_last()[i]]
            0 <= i < a.drop_last().len() implies line_event(a.drop_last()[i], num_players)
            == line_event(b.drop_last()[i], num_players) by {
            assert(a.drop_last()[i] == a[i]);
            assert(b.drop_last()[i] == b[i]);
        }
        lemma_same_events(a.drop_last(), b.drop_last(), num_players);
        assert(line_event(a[a.len() - 1], num_players) == line_event(
            b[b.len() - 1],
            num_players,
        ));
    }
}

/// A three-player log comes to the same as Tenhou writes it, with `nukidora` for
/// the north-tile call and a fourth seat in its lists, and with the engine's
/// name for the call and three seats.
pub proof fn law_tenhou_logs_come_to_the_same(engine: Engine, a: Seq<char>, b: Seq<char>)
    requires
        engine.seats() == 3,
        text_lines(a).len() == text_lines(b).len(),
        forall|i: int|
            #![trigger text_lines(a)[i]]
            0 <= i < text_lines(a).len() ==> same_for_three(text_lines(a)[i], text_lines(b)[i]),
    ensures
        replay_result(engine, a) == replay_result(engine, b),
{
    assert forall|i: int|
        #![trigger text_lines(a)[i]]
        0 <= i < text_lines(a).len() implies line_event(text_lines(a)[i], engine.seats())
        == line_event(text_lines(b)[i], engine.seats()) by {
        law_the_fourth_seat_does_not_matter(text_lines(a)[i], text_lines(b)[i]);
    }
    law_same_lines_same_samples(engine, a, b);
}

/// Whether `ev` is `seat` acting on the last discard: a pon, a chi, an open kan,
/// or a win by it.
pub open spec fn acts_on_discard(ev: EventView, seat: u8) -> bool {
    ||| ev matches EventView::Pon { actor, .. } && actor as u8 == seat
    ||| ev matches EventView::Chi { actor, .. } && actor as u8 == seat
    ||| ev matches EventView::Kan { actor, .. } && actor as u8 == seat
    ||| ev matches EventView::Hora { actor, target, .. } && actor != target && actor as u8 == seat
}

/// The answers to a discard: the wins right behind it, and the first event that
/// is none.
proof fn lemma_answers_are_near(rest: Seq<EventView>, j: int)
    requires
        0 <= j < rest.len(),
        forall|i: int| 0 <= i < j ==> #[trigger] rest[i] is Hora,
    ensures
        j < answers(rest).len(),
        answers(rest)[j] == rest[j],
    decreases rest.len(),
{
    if j > 0 {
        assert(rest[0] is Hora);
        assert forall|i: int| 0 <= i < j - 1 implies #[trigger] rest.skip(1)[i] is Hora by {
            assert(rest.skip(1)[i] == rest[i + 1]);
        }
        lemma_answers_are_near(rest.skip(1), j - 1);
    }
}

/// There are no other answers.
proof fn lemma_answers_are_no_others(rest: Seq<EventView>, j: int)
    requires
        0 <= j < answers(rest).len(),
    ensures
        j < rest.len(),
        answers(rest)[j] == rest[j],
        forall|i: int| 0 <= i < j ==> #[trigger] rest[i] is Hora,
    decreases rest.len(),
{
    if rest.len() > 0 && rest[0] is Hora && j > 0 {
        lemma_answers_are_no_others(rest.skip(1), j - 1);
        assert forall|i: int| 0 <= i < j implies #[trigger] rest[i] is Hora by {
            if i > 0 {
                assert(rest.skip(1)[i - 1] == rest[i]);
            }
        }
    }
}

/// No seat that acts on a discard by pon, chi, open kan or a win has declined it:
/// none of the passes on that discard is its own.
pub proof fn law_whoever_acts_on_a_discard_did_not_decline(
    engine: Engine,
    events: Seq<EventView>,
    k: int,
    j: int,
    seat: u8,
)
    requires
        0 <= k < j < events.len(),
        forall|i: int| k < i < j ==> #[trigger] events[i] is Hora,
        ({
            ||| events[j] matches EventView::Pon { actor, .. } && actor as u8 == seat
            ||| events[j] matches EventView::Chi { actor, .. } && actor as u8 == seat
            ||| events[j] matches EventView::Kan { actor, .. } && actor as u8 == seat
            ||| events[j] matches EventView::Hora { actor, target, .. } && actor != target
                && actor as u8 == seat
        }),
    ensures
        forall|i: int|
            0 <= i < declined(engine, events, k).len() ==> (#[trigger] declined(
                engine,
                events,
                k,
            )[i]).seat != seat,
{
    broadcast use vstd::seq_lib::group_filter_ensures;

    let rest = events.skip(k + 1);
    let n = j - k - 1;
    assert forall|i: int| 0 <= i < n implies #[trigger] rest[i] is Hora by {
        assert(rest[i] == events[k + 1 + i]);
    }
    assert(rest[n] == events[j]);
    lemma_answers_are_near(rest, n);
    assert(claimer_of(answers(rest)[n]) == Some(seat));
    assert(claims(answers(rest), seat));
    let window = waiting_after(engine, events, k);
    let keep = |p: PendingView| !claims(answers(rest), p.seat);
    assert forall|i: int| 0 <= i < declined(engine, events, k).len() implies (#[trigger] declined(
        engine,
        events,
        k,
    )[i]).seat != seat by {
        assert(keep(window.filter(keep)[i]));
    }
}

/// Whether event `j` comes right behind event `k`, but for wins in between.
pub open spec fn right_behind(events: Seq<EventView>, k: int, j: int) -> bool {
    k < j < events.len() && forall|i: int| k < i < j ==> #[trigger] events[i] is Hora
}

/// Who claims among the answers to a discard acts right behind it.
proof fn lemma_claims_act(events: Seq<EventView>, k: int, seat: u8) -> (j: int)
    requires
        0 <= k < events.len(),
        claims(answers(events.skip(k + 1)), seat),
    ensures
        right_behind(events, k, j),
        acts_on_discard(events[j], seat),
{
    let rest = events.skip(k + 1);
    let n = choose|n: int|
        0 <= n < answers(rest).len() && claimer_of(#[trigger] answers(rest)[n]) == Some(seat);
    lemma_answers_are_no_others(rest, n);
    let j = k + 1 + n;
    assert(events[j] == rest[n]);
    assert forall|i: int| k < i < j implies #[trigger] events[i] is Hora by {
        assert(rest[i - k - 1] == events[i]);
    }
    j
}

/// Whoever waited after a discard and did not act on it, neither by one of the
/// wins right behind it nor by the first event that is no win, has declined it.
pub proof fn law_whoever_waits_and_does_not_act_declined(
    engine: Engine,
    events: Seq<EventView>,
    k: int,
    p: PendingView,
)
    requires
        0 <= k < events.len(),
        waiting_after(engine, events, k).contains(p),
        forall|j: int| #[trigger]
            right_behind(events, k, j) ==> !acts_on_discard(events[j], p.seat),
    ensures
        declined(engine, events, k).contains(p),
{
    let rest = events.skip(k + 1);
    let window = waiting_after(engine, events, k);
    let keep = |q: PendingView| !claims(answers(rest), q.seat);
    if claims(answers(rest), p.seat) {
        let j = lemma_claims_act(events, k, p.seat);
    }
    assert(keep(p));
    assert(window.filter(keep).contains(p)) by {
        broadcast use vstd::seq_lib::group_filter_ensures;

        let i = choose|i: int| 0 <= i < window.len() && window[i] == p;
        assert(keep(window[i]));
    }
}

/// Only those decline a discard who waited after it.
pub proof fn law_only_those_who_waited_declined(
    engine: Engine,
    events: Seq<EventView>,
    k: int,
    p: PendingView,
)
    requires
        declined(engine, events, k).contains(p),
    ensures
        events[k] is Dahai,
        at_event(engine, events, k + 1).window.contains(p),
{
    let rest = events.skip(k + 1);
    let window = waiting_after(engine, events, k);
    let keep = |q: PendingView| !claims(answers(rest), q.seat);
    window.lemma_filter_contains_rev(keep, p);
}

/// The passes among some samples are those with the id of passing, in order.
pub proof fn law_passes_are_the_samples_with_that_id(
    xs: Seq<SampleView>,
    x: SampleView,
    num_players: u8,
)
    ensures
        passes_among(Seq::empty(), num_players).len() == 0,
        x.action == (if num_players == 3 {
            58u16
        } else {
            81u16
        }) ==> passes_among(xs.push(x), num_players) == passes_among(xs, num_players).push(x),
        x.action != (if num_players == 3 {
            58u16
        } else {
            81u16
        }) ==> passes_among(xs.push(x), num_players) == passes_among(xs, num_players),
{
    reveal(Seq::filter);
    assert(xs.push(x).drop_last() =~= xs);
}

/// The passes on the discards of a log come discard by discard, one for each who
/// declined, with what they saw.
pub proof fn law_passes_come_discard_by_discard(engine: Engine, events: Seq<EventView>, k: int)
    requires
        0 <= k < events.len(),
    ensures
        passes_on_discards(engine, events, 0).len() == 0,
        ({
            let before = passes_on_discards(engine, events, k);
            let upto = passes_on_discards(engine, events, k + 1);
            let who = declined(engine, events, k);
            &&& upto.len() == before.len() + who.len()
            &&& upto.take(before.len() as int) == before
            &&& forall|i: int|
                0 <= i < who.len() ==> {
                    let p = #[trigger] who[i];
                    let x = upto[before.len() + i];
                    x.obs == p.obs && x.mask == p.mask && x.action == (if engine.seats() == 3 {
                        58u16
                    } else {
                        81u16
                    })
                }
        }),
{
}

} // verus!
