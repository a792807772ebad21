//! Replaying an mjai game log into behavior-cloning samples.
//!
//! One log is one game. The engine follows it event by event. Before an event
//! that is a player's free choice is applied, what the player sees is recorded
//! with the id of the choice. After each discard, every other seat that could
//! have called it is kept in a response window; seats that turn out not to
//! claim it are recorded as having passed.
use vstd::prelude::*;
use riichienv_core::action::{Action, ActionType};
use riichienv_core::parser::mjai_to_tid;
use riichienv_core::replay::MjaiEvent;
use crate::action_codec::{action_code, action_index, mask_of, pass_code, pass_index};
use crate::engine::{Engine, Snapshot};
use crate::mjai::{action_view, event_view, mjai_tile, sorted_tiles, ActionView, EventView};
use crate::mjai_compat::{line_event, parse_line};
use crate::text::{lines, text_lines, texts};

verus! {

/// The ids of those of `tiles` that denote a tile, in order.
pub open spec fn tile_ids(tiles: Seq<Seq<char>>) -> Seq<u8>
    decreases tiles.len(),
{
    if tiles.len() == 0 {
        Seq::empty()
    } else {
        let ids = tile_ids(tiles.drop_last());
        match mjai_tile(tiles.last()) {
            Some(t) => ids.push(t),
            None => ids,
        }
    }
}

/// A list with what is there.
pub open spec fn one_or_none(t: Option<u8>) -> Seq<u8> {
    match t {
        Some(x) => seq![x],
        None => Seq::empty(),
    }
}

/// The action of `seat`.
pub open spec fn act(seat: u8, kind: ActionType, tile: Option<u8>, consumed: Seq<u8>) -> Option<
    (u8, ActionView),
> {
    Some((seat, ActionView { kind, tile, consumed: sorted_tiles(consumed), actor: Some(seat) }))
}

/// The seat that chose freely in `ev`, and its action; `None` for events that
/// are the game's own progress.
pub open spec fn decision_of(ev: EventView) -> Option<(u8, ActionView)> {
    match ev {
        EventView::Dahai { actor, pai, .. } => act(
            actor as u8,
            ActionType::Discard,
            mjai_tile(pai),
            Seq::empty(),
        ),
        EventView::Reach { actor } => act(actor as u8, ActionType::Riichi, None, Seq::empty()),
        EventView::Pon { actor, pai, consumed, .. } => act(
            actor as u8,
            ActionType::Pon,
            mjai_tile(pai),
            tile_ids(consumed),
        ),
        EventView::Chi { actor, pai, consumed, .. } => act(
            actor as u8,
            ActionType::Chi,
            mjai_tile(pai),
            tile_ids(consumed),
        ),
        EventView::Kan { actor, pai, consumed, .. } => act(
            actor as u8,
            ActionType::Daiminkan,
            mjai_tile(pai),
            tile_ids(consumed),
        ),
        EventView::Kakan { actor, pai } => act(
            actor as u8,
            ActionType::Kakan,
            mjai_tile(pai),
            one_or_none(mjai_tile(pai)),
        ),
        EventView::Ankan { actor, consumed } => act(
            actor as u8,
            ActionType::Ankan,
            None,
            tile_ids(consumed),
        ),
        EventView::Hora { actor, target, .. } => act(
            actor as u8,
            if actor == target {
                ActionType::Tsumo
            } else {
                ActionType::Ron
            },
            None,
            Seq::empty(),
        ),
        EventView::Kita { actor } => act(actor as u8, ActionType::Kita, None, Seq::empty()),
        _ => None,
    }
}

/// The seat that claims a discard in `ev`, by calling it or by winning on it. A
/// win by self-draw claims none.
pub open spec fn claimer_of(ev: EventView) -> Option<u8> {
    match ev {
        EventView::Pon { actor, .. } => Some(actor as u8),
        EventView::Chi { actor, .. } => Some(actor as u8),
        EventView::Kan { actor, .. } => Some(actor as u8),
        EventView::Hora { actor, target, .. } => if actor != target {
            Some(actor as u8)
        } else {
            None
        },
        _ => None,
    }
}

/// The seat that discards in `ev`.
pub open spec fn discarder_of(ev: EventView) -> Option<u8> {
    match ev {
        EventView::Dahai { actor, .. } => Some(actor as u8),
        _ => None,
    }
}

/// The ids of those of `tiles` that denote a tile.
fn ids_of(tiles: &Vec<String>) -> (ids: Vec<u8>)
    ensures
        ids@ == tile_ids(tiles.deep_view()),
{
    let mut ids: Vec<u8> = Vec::new();
    let ghost all = tiles.deep_view();
    for i in 0..tiles.len()
        invariant
            all == tiles.deep_view(),
            ids@ == tile_ids(all.take(i as int)),
    {
        proof {
            assert(all.take(i + 1).drop_last() =~= all.take(i as int));
            assert(all.take(i + 1).last() == tiles@[i as int]@);
        }
        if let Some(t) = mjai_to_tid(tiles[i].as_str()) {
            ids.push(t);
        }
    }
    assert(all.take(tiles@.len() as int) =~= all);
    ids
}

/// A list with what is there.
fn list_of(t: Option<u8>) -> (v: Vec<u8>)
    ensures
        v@ == one_or_none(t),
{
    let mut v: Vec<u8> = Vec::new();
    if let Some(x) = t {
        v.push(x);
    }
    assert(v@ =~= one_or_none(t));
    v
}

/// The seat that chose freely in `ev`, and its action.
pub fn decision(ev: &MjaiEvent) -> (r: Option<(u8, Action)>)
    ensures
        match r {
            Some((seat, action)) => decision_of(event_view(*ev)) == Some(
                (seat, action_view(action)),
            ),
            None => decision_of(event_view(*ev)) is None,
        },
{
    match ev {
        MjaiEvent::Dahai { actor, pai, .. } => Some(
            (
                *actor as u8,
                Action::new(
                    ActionType::Discard,
                    mjai_to_tid(pai.as_str()),
                    Vec::new(),
                    Some(*actor as u8),
                ),
            ),
        ),
        MjaiEvent::Reach { actor } => Some(
            (
                *actor as u8,
                Action::new(ActionType::Riichi, None, Vec::new(), Some(*actor as u8)),
            ),
        ),
        MjaiEvent::Pon { actor, pai, consumed, .. } => Some(
            (
                *actor as u8,
                Action::new(
                    ActionType::Pon,
                    mjai_to_tid(pai.as_str()),
                    ids_of(consumed),
                    Some(*actor as u8),
                ),
            ),
        ),
        MjaiEvent::Chi { actor, pai, consumed, .. } => Some(
            (
                *actor as u8,
                Action::new(
                    ActionType::Chi,
                    mjai_to_tid(pai.as_str()),
                    ids_of(consumed),
                    Some(*actor as u8),
                ),
            ),
        ),
        MjaiEvent::Kan { actor, pai, consumed, .. } => Some(
            (
                *actor as u8,
                Action::new(
                    ActionType::Daiminkan,
                    mjai_to_tid(pai.as_str()),
                    ids_of(consumed),
                    Some(*actor as u8),
                ),
            ),
        ),
        MjaiEvent::Kakan { actor, pai } => Some(
            (
                *actor as u8,
                Action::new(
                    ActionType::Kakan,
                    mjai_to_tid(pai.as_str()),
                    list_of(mjai_to_tid(pai.as_str())),
                    Some(*actor as u8),
                ),
            ),
        ),
        MjaiEvent::Ankan { actor, consumed } => Some(
            (
                *actor as u8,
                Action::new(ActionType::Ankan, None, ids_of(consumed), Some(*actor as u8)),
            ),
        ),
        MjaiEvent::Hora { actor, target, .. } => Some(
            (
                *actor as u8,
                Action::new(
                    if *actor == *target {
                        ActionType::Tsumo
                    } else {
                        ActionType::Ron
                    },
                    None,
                    Vec::new(),
                    Some(*actor as u8),
                ),
            ),
        ),
        MjaiEvent::Kita { actor } => Some(
            (*actor as u8, Action::new(ActionType::Kita, None, Vec::new(), Some(*actor as u8))),
        ),
        _ => None,
    }
}

/// The seat that claims a discard in `ev`.
pub fn claimer(ev: &MjaiEvent) -> (r: Option<u8>)
    ensures
        r == claimer_of(event_view(*ev)),
{
    match ev {
        MjaiEvent::Pon { actor, .. } => Some(*actor as u8),
        MjaiEvent::Chi { actor, .. } => Some(*actor as u8),
        MjaiEvent::Kan { actor, .. } => Some(*actor as u8),
        MjaiEvent::Hora { actor, target, .. } => if *actor != *target {
            Some(*actor as u8)
        } else {
            None
        },
        _ => None,
    }
}

/// The seat that discards in `ev`, which opens a response window.
pub fn discarder(ev: &MjaiEvent) -> (r: Option<u8>)
    ensures
        r == discarder_of(event_view(*ev)),
{
    match ev {
        MjaiEvent::Dahai { actor, .. } => Some(*actor as u8),
        _ => None,
    }
}

/// One training sample: what a seat saw, the id of what it did, and the mask
/// of what it could have done.
pub struct Sample {
    pub obs: Snapshot,
    pub action: u16,
    pub mask: Vec<u8>,
}

/// A training sample as a mathematical value.
pub struct SampleView {
    pub obs: Snapshot,
    pub action: u16,
    pub mask: Seq<u8>,
}

impl View for Sample {
    type V = SampleView;

    open spec fn view(&self) -> SampleView {
        SampleView { obs: self.obs, action: self.action, mask: self.mask@ }
    }
}

/// A seat of the response window: it could have called the last discard.
pub struct Pending {
    pub seat: u8,
    pub obs: Snapshot,
    pub mask: Vec<u8>,
}

/// A seat of the response window as a mathematical value.
pub struct PendingView {
    pub seat: u8,
    pub obs: Snapshot,
    pub mask: Seq<u8>,
}

impl View for Pending {
    type V = PendingView;

    open spec fn view(&self) -> PendingView {
        PendingView { seat: self.seat, obs: self.obs, mask: self.mask@ }
    }
}

/// Why a log cannot be replayed to its end.
#[derive(Clone, Copy, PartialEq, Eq, Structural, Debug)]
pub enum ReplayError {
    /// A seat is to be looked at that the table does not have.
    NoSuchSeat,
    /// The table cannot work out what a seat sees.
    Unlookable,
    /// The table cannot take in an event: it names a seat or a list entry that
    /// is not there, or makes the table count what it has no room for.
    Unplayable,
}

/// How far a replay has come.
pub struct ReplayView {
    pub engine: Engine,
    pub window: Seq<PendingView>,
    pub prev_was_hora: bool,
    pub samples: Seq<SampleView>,
}

/// The window without `who`.
pub open spec fn others(window: Seq<PendingView>, who: Option<u8>) -> Seq<PendingView> {
    match who {
        Some(w) => window.filter(|p: PendingView| p.seat != w),
        None => window,
    }
}

/// The samples that say of each seat of the window that it passed.
pub open spec fn passes(window: Seq<PendingView>, num_players: u8) -> Seq<SampleView> {
    window.map_values(
        |p: PendingView|
            SampleView { obs: p.obs, action: pass_code(num_players) as u16, mask: p.mask },
    )
}

/// Closes the window against `ev`. Whoever claims leaves it without a sample.
/// A win keeps it open for the others, since the next event may be the win of
/// another seat of it; any other event settles it: the others passed.
pub open spec fn settled(r: ReplayView, ev: EventView) -> ReplayView {
    let rest = others(r.window, claimer_of(ev));
    if ev is Hora {
        ReplayView { window: rest, ..r }
    } else {
        ReplayView {
            window: Seq::empty(),
            samples: r.samples + passes(rest, r.engine.seats()),
            ..r
        }
    }
}

/// Whether the mask allows the id `i`.
pub open spec fn allows(mask: Seq<u8>, i: nat) -> bool {
    i < mask.len() && mask[i as int] == 1
}

/// What `seat` sees, with its mask.
pub open spec fn mask_seen(engine: Engine, seat: u8) -> Seq<u8> {
    mask_of(engine.seen(seat).legal_views(), engine.seats())
}

/// Records the free choice in `ev`, from what its seat sees before `ev` is
/// applied, if the choice has an id and is legal there. A win right after a
/// win is not recorded: the table has moved on since that seat decided.
pub open spec fn recorded(r: ReplayView, ev: EventView) -> Result<ReplayView, ReplayError> {
    if ev is Hora && r.prev_was_hora {
        Ok(r)
    } else {
        match decision_of(ev) {
            None => Ok(r),
            Some((seat, action)) => match action_code(r.engine.seats(), action) {
                None => Ok(r),
                Some(code) => if seat >= r.engine.seats() {
                    Err(ReplayError::NoSuchSeat)
                } else if !r.engine.lookable(seat) {
                    Err(ReplayError::Unlookable)
                } else {
                    let mask = mask_seen(r.engine, seat);
                    let looked = ReplayView { engine: r.engine.after_look(seat), ..r };
                    if allows(mask, code) {
                        Ok(
                            ReplayView {
                                samples: r.samples.push(
                                    SampleView {
                                        obs: r.engine.seen(seat),
                                        action: code as u16,
                                        mask,
                                    },
                                ),
                                ..looked
                            },
                        )
                    } else {
                        Ok(looked)
                    }
                },
            },
        }
    }
}

/// Applies `ev` to the table.
pub open spec fn applied(r: ReplayView, ev: EventView) -> Result<ReplayView, ReplayError> {
    if r.engine.playable(ev) {
        Ok(ReplayView { engine: r.engine.after(ev), prev_was_hora: ev is Hora, ..r })
    } else {
        Err(ReplayError::Unplayable)
    }
}

/// Whether the mask allows anything but passing.
pub open spec fn has_call(mask: Seq<u8>, pass: nat) -> bool {
    exists|i: int| 0 <= i < mask.len() && i != pass && #[trigger] mask[i] == 1
}

/// Looks at `seat` after a discard of another seat, and keeps it in the window
/// if it can call.
pub open spec fn watched(r: ReplayView, seat: u8) -> Result<ReplayView, ReplayError> {
    if seat >= r.engine.seats() {
        Err(ReplayError::NoSuchSeat)
    } else if !r.engine.lookable(seat) {
        Err(ReplayError::Unlookable)
    } else {
        let mask = mask_seen(r.engine, seat);
        let looked = ReplayView { engine: r.engine.after_look(seat), ..r };
        if has_call(mask, pass_code(r.engine.seats())) {
            Ok(
                ReplayView {
                    window: r.window.push(PendingView { seat, obs: r.engine.seen(seat), mask }),
                    ..looked
                },
            )
        } else {
            Ok(looked)
        }
    }
}

/// Looks at each of `seats` but the one that discarded, in order.
pub open spec fn opened(r: ReplayView, from: u8, seats: Seq<u8>) -> Result<ReplayView, ReplayError>
    decreases seats.len(),
{
    if seats.len() == 0 {
        Ok(r)
    } else {
        match opened(r, from, seats.drop_last()) {
            Err(e) => Err(e),
            Ok(s) => if seats.last() == from {
                Ok(s)
            } else {
                watched(s, seats.last())
            },
        }
    }
}

/// Opens the response window if `ev` was a discard.
pub open spec fn answered(r: ReplayView, ev: EventView) -> Result<ReplayView, ReplayError> {
    match discarder_of(ev) {
        None => Ok(r),
        Some(from) => opened(r, from, r.engine.active()),
    }
}

/// The replay after one more event.
pub open spec fn stepped(r: ReplayView, ev: EventView) -> Result<ReplayView, ReplayError> {
    match recorded(settled(r, ev), ev) {
        Err(e) => Err(e),
        Ok(s) => match applied(s, ev) {
            Err(e) => Err(e),
            Ok(t) => answered(t, ev),
        },
    }
}

/// The replay after some more events.
pub open spec fn replayed(r: ReplayView, events: Seq<EventView>) -> Result<ReplayView, ReplayError>
    decreases events.len(),
{
    if events.len() == 0 {
        Ok(r)
    } else {
        match replayed(r, events.drop_last()) {
            Err(e) => Err(e),
            Ok(s) => stepped(s, events.last()),
        }
    }
}

/// The samples of a replay at the end of its log, where whoever is still in
/// the window passed.
pub open spec fn finished(r: ReplayView) -> Seq<SampleView> {
    r.samples + passes(r.window, r.engine.seats())
}

/// The beginning of a replay.
pub open spec fn fresh(engine: Engine) -> ReplayView {
    ReplayView { engine, window: Seq::empty(), prev_was_hora: false, samples: Seq::empty() }
}

/// The events of a log given line by line.
pub open spec fn events_of_lines(log: Seq<Seq<char>>, num_players: u8) -> Seq<EventView>
    decreases log.len(),
{
    if log.len() == 0 {
        Seq::empty()
    } else {
        let before = events_of_lines(log.drop_last(), num_players);
        match line_event(log.last(), num_players) {
            Some(ev) => before.push(ev),
            None => before,
        }
    }
}

/// The events of a log.
pub open spec fn log_events(content: Seq<char>, num_players: u8) -> Seq<EventView> {
    events_of_lines(text_lines(content), num_players)
}

/// The samples of a log that is replayed from a given table.
pub open spec fn replay_result(engine: Engine, content: Seq<char>) -> Result<
    Seq<SampleView>,
    ReplayError,
> {
    match replayed(fresh(engine), log_events(content, engine.seats())) {
        Ok(r) => Ok(finished(r)),
        Err(e) => Err(e),
    }
}

/// What samples say.
pub open spec fn sample_views(samples: Seq<Sample>) -> Seq<SampleView> {
    samples.map_values(|s: Sample| s@)
}

/// What the seats of a window say.
pub open spec fn pending_views(window: Seq<Pending>) -> Seq<PendingView> {
    window.map_values(|p: Pending| p@)
}

/// A replay in progress.
pub struct Replay {
    pub engine: Engine,
    pub window: Vec<Pending>,
    pub prev_was_hora: bool,
    pub samples: Vec<Sample>,
}

impl View for Replay {
    type V = ReplayView;

    open spec fn view(&self) -> ReplayView {
        ReplayView {
            engine: self.engine,
            window: pending_views(self.window@),
            prev_was_hora: self.prev_was_hora,
            samples: sample_views(self.samples@),
        }
    }
}

/// The seats of `window` but `who`.
fn without(window: Vec<Pending>, who: u8) -> (rest: Vec<Pending>)
    ensures
        pending_views(rest@) == others(pending_views(window@), Some(who)),
{
    let ghost all = pending_views(window@);
    let ghost keep = |p: PendingView| p.seat != who;
    let mut rest: Vec<Pending> = Vec::new();
    assert(pending_views(rest@) =~= all.take(0).filter(keep)) by {
        reveal(Seq::filter);
    }
    for p in it: window
        invariant
            all == pending_views(window@),
            keep == (|p: PendingView| p.seat != who),
            it.seq() == window@,
            pending_views(rest@) == all.take(it.index() as int).filter(keep),
    {
        proof {
            let i = it.index() as int;
            reveal(Seq::filter);
            assert(all.take(i + 1).drop_last() =~= all.take(i));
            assert(all.take(i + 1).last() == p@);
            assert(pending_views(rest@.push(p)) =~= pending_views(rest@).push(p@));
        }
        if p.seat != who {
            rest.push(p);
        }
    }
    assert(all.take(all.len() as int) =~= all);
    rest
}

/// Adds a sample for each seat of `window`, saying that it passed.
fn pass_all(window: Vec<Pending>, pass: u16, num_players: u8, samples: &mut Vec<Sample>)
    requires
        pass == pass_code(num_players),
    ensures
        sample_views(final(samples)@) == sample_views(old(samples)@) + passes(
            pending_views(window@),
            num_players,
        ),
{
    let ghost all = passes(pending_views(window@), num_players);
    let ghost before = sample_views(samples@);
    assert(before + all.take(0) =~= before);
    for p in it: window
        invariant
            pass == pass_code(num_players),
            all == passes(pending_views(window@), num_players),
            it.seq() == window@,
            sample_views(samples@) == before + all.take(it.index() as int),
    {
        let ghost i = it.index() as int;
        let ghost now = samples@;
        let sample = Sample { obs: p.obs, action: pass, mask: p.mask };
        proof {
            assert(all[i] == sample@);
            assert(sample_views(now.push(sample)) =~= sample_views(now).push(sample@));
            assert(before + all.take(i + 1) =~= (before + all.take(i)).push(sample@));
        }
        samples.push(sample);
    }
    assert(all.take(all.len() as int) =~= all);
}

/// Whether the mask allows anything but passing.
fn can_call(mask: &Vec<u8>, pass: usize) -> (r: bool)
    ensures
        r == has_call(mask@, pass as nat),
{
    for i in 0..mask.len()
        invariant
            forall|j: int| 0 <= j < i && j != pass ==> #[trigger] mask@[j] != 1,
    {
        if i != pass && mask[i] == 1 {
            assert(mask@[i as int] == 1);
            return true;
        }
    }
    false
}

impl Replay {
    /// The beginning of a replay.
    pub fn new(engine: Engine) -> (r: Replay)
        ensures
            r@ == fresh(engine),
    {
        let r = Replay { engine, window: Vec::new(), prev_was_hora: false, samples: Vec::new() };
        assert(r@.window =~= Seq::empty());
        assert(r@.samples =~= Seq::empty());
        r
    }

    /// Closes the window against `ev`.
    pub fn settle(self, ev: &MjaiEvent) -> (r: Replay)
        ensures
            r@ == settled(self@, event_view(*ev)),
    {
        let n = self.engine.num_players();
        let mut window = self.window;
        if let Some(who) = claimer(ev) {
            window = without(window, who);
        }
        let mut samples = self.samples;
        let is_hora = matches!(ev, MjaiEvent::Hora { .. });
        if !is_hora {
            pass_all(window, pass_index(n) as u16, n, &mut samples);
            window = Vec::new();
        }
        let r = Replay { engine: self.engine, window, prev_was_hora: self.prev_was_hora, samples };
        assert(!is_hora ==> r@.window =~= Seq::empty());
        r
    }

    /// Records the free choice in `ev`, if there is one to record.
    pub fn record(self, ev: &MjaiEvent) -> (r: Result<Replay, ReplayError>)
        ensures
            match r {
                Ok(next) => recorded(self@, event_view(*ev)) == Ok::<ReplayView, ReplayError>(
                    next@,
                ),
                Err(e) => recorded(self@, event_view(*ev)) == Err::<ReplayView, ReplayError>(e),
            },
    {
        let is_hora = matches!(ev, MjaiEvent::Hora { .. });
        if is_hora && self.prev_was_hora {
            return Ok(self);
        }
        let n = self.engine.num_players();
        if let Some((seat, action)) = decision(ev) {
            if let Some(idx) = action_index(&action, n) {
                if seat >= n {
                    return Err(ReplayError::NoSuchSeat);
                }
                if !self.engine.can_look(seat) {
                    return Err(ReplayError::Unlookable);
                }
                let mut r = self;
                let ghost before = r.samples@;
                let (obs, mask) = r.engine.sample_for(seat);
                if idx < mask.len() && mask[idx] == 1 {
                    let sample = Sample { obs, action: idx as u16, mask };
                    assert(sample_views(before.push(sample)) =~= sample_views(before).push(
                        sample@,
                    ));
                    r.samples.push(sample);
                }
                return Ok(r);
            }
        }
        Ok(self)
    }

    /// Applies `ev` to the table.
    pub fn apply(self, ev: MjaiEvent) -> (r: Result<Replay, ReplayError>)
        ensures
            match r {
                Ok(next) => applied(self@, event_view(ev)) == Ok::<ReplayView, ReplayError>(next@),
                Err(e) => applied(self@, event_view(ev)) == Err::<ReplayView, ReplayError>(e),
            },
    {
        if !self.engine.can_take(&ev) {
            return Err(ReplayError::Unplayable);
        }
        let is_hora = matches!(ev, MjaiEvent::Hora { .. });
        let mut r = self;
        r.engine.apply(ev);
        r.prev_was_hora = is_hora;
        Ok(r)
    }

    /// Looks at `seat`, and keeps it in the window if it can call.
    pub fn watch(self, seat: u8) -> (r: Result<Replay, ReplayError>)
        ensures
            match r {
                Ok(next) => watched(self@, seat) == Ok::<ReplayView, ReplayError>(next@),
                Err(e) => watched(self@, seat) == Err::<ReplayView, ReplayError>(e),
            },
    {
        let n = self.engine.num_players();
        if seat >= n {
            return Err(ReplayError::NoSuchSeat);
        }
        if !self.engine.can_look(seat) {
            return Err(ReplayError::Unlookable);
        }
        let mut r = self;
        let ghost before = r.window@;
        let (obs, mask) = r.engine.sample_for(seat);
        if can_call(&mask, pass_index(n)) {
            let pending = Pending { seat, obs, mask };
            assert(pending_views(before.push(pending)) =~= pending_views(before).push(pending@));
            r.window.push(pending);
        }
        Ok(r)
    }

    /// Opens the response window after a discard of `from`.
    pub fn open_window(self, from: u8) -> (r: Result<Replay, ReplayError>)
        ensures
            match r {
                Ok(next) => opened(self@, from, self@.engine.active()) == Ok::<
                    ReplayView,
                    ReplayError,
                >(next@),
                Err(e) => opened(self@, from, self@.engine.active()) == Err::<
                    ReplayView,
                    ReplayError,
                >(e),
            },
    {
        let seats = self.engine.active_players();
        let ghost start = self@;
        let mut r = self;
        for i in 0..seats.len()
            invariant
                start == self@,
                seats@ == start.engine.active(),
                opened(start, from, seats@.take(i as int)) == Ok::<ReplayView, ReplayError>(r@),
        {
            let ghost upto = seats@.take(i + 1);
            proof {
                assert(upto.drop_last() =~= seats@.take(i as int));
                assert(upto.last() == seats@[i as int]);
            }
            if seats[i] != from {
                match r.watch(seats[i]) {
                    Ok(next) => {
                        r = next;
                    },
                    Err(e) => {
                        proof {
                            lemma_opened_stays_refused(start, from, seats@, i + 1, e);
                        }
                        return Err(e);
                    },
                }
            }
        }
        assert(seats@.take(seats@.len() as int) =~= seats@);
        Ok(r)
    }

    /// Takes in one more event.
    pub fn step(self, ev: MjaiEvent) -> (r: Result<Replay, ReplayError>)
        ensures
            match r {
                Ok(next) => stepped(self@, event_view(ev)) == Ok::<ReplayView, ReplayError>(next@),
                Err(e) => stepped(self@, event_view(ev)) == Err::<ReplayView, ReplayError>(e),
            },
    {
        let opened_by = discarder(&ev);
        let recorded = match self.settle(&ev).record(&ev) {
            Ok(next) => next,
            Err(e) => return Err(e),
        };
        let next = match recorded.apply(ev) {
            Ok(next) => next,
            Err(e) => return Err(e),
        };
        match opened_by {
            Some(from) => next.open_window(from),
            None => Ok(next),
        }
    }

    /// The samples at the end of the log.
    pub fn finish(self) -> (samples: Vec<Sample>)
        ensures
            sample_views(samples@) == finished(self@),
    {
        let n = self.engine.num_players();
        let mut samples = self.samples;
        pass_all(self.window, pass_index(n) as u16, n, &mut samples);
        samples
    }
}

/// The samples of the log `content`, replayed from the table `engine`.
pub fn replay_from(engine: Engine, content: &str) -> (r: Result<Vec<Sample>, ReplayError>)
    ensures
        match r {
            Ok(samples) => replay_result(engine, content@) == Ok::<Seq<SampleView>, ReplayError>(
                sample_views(samples@),
            ),
            Err(e) => replay_result(engine, content@) == Err::<Seq<SampleView>, ReplayError>(e),
        },
{
    let n = engine.num_players();
    let log = lines(content);
    let ghost all = text_lines(content@);
    let mut r = Replay::new(engine);
    for i in 0..log.len()
        invariant
            n == engine.seats(),
            all == text_lines(content@),
            texts(log@) == all,
            replayed(fresh(engine), events_of_lines(all.take(i as int), n)) == Ok::<
                ReplayView,
                ReplayError,
            >(r@),
    {
        let ghost upto = all.take(i + 1);
        let ghost before = events_of_lines(all.take(i as int), n);
        proof {
            assert(upto.drop_last() =~= all.take(i as int));
            assert(upto.last() == log@[i as int]@);
        }
        if let Some(ev) = parse_line(log[i].as_str(), n) {
            let ghost now = events_of_lines(upto, n);
            proof {
                assert(now.drop_last() =~= before);
            }
            match r.step(ev) {
                Ok(next) => {
                    r = next;
                },
                Err(e) => {
                    proof {
                        lemma_replayed_stays_refused(fresh(engine), all, n, i + 1, e);
                    }
                    return Err(e);
                },
            }
        }
    }
    assert(all.take(all.len() as int) =~= all);
    Ok(r.finish())
}

/// The samples of one game's log `content`, replayed from a fresh table: of
/// three players for 3, of four for every other number. How many there are is
/// their number.
pub fn replay_game(content: &str, num_players: u8) -> (r: Result<Vec<Sample>, ReplayError>)
    ensures
        exists|engine: Engine|
            engine.starts(num_players) && match r {
                Ok(samples) => #[trigger] replay_result(engine, content@) == Ok::<
                    Seq<SampleView>,
                    ReplayError,
                >(sample_views(samples@)),
                Err(e) => replay_result(engine, content@) == Err::<Seq<SampleView>, ReplayError>(e),
            },
{
    replay_from(Engine::new(num_players), content)
}

/// A log that is refused at some line is refused whatever lines follow.
proof fn lemma_replayed_stays_refused(
    r: ReplayView,
    log: Seq<Seq<char>>,
    num_players: u8,
    k: int,
    e: ReplayError,
)
    requires
        0 <= k <= log.len(),
        replayed(r, events_of_lines(log.take(k), num_players)) == Err::<ReplayView, ReplayError>(e),
    ensures
        replayed(r, events_of_lines(log, num_players)) == Err::<ReplayView, ReplayError>(e),
    decreases log.len() - k,
{
    if k < log.len() {
        let a = events_of_lines(log.take(k), num_players);
        let b = events_of_lines(log.take(k + 1), num_players);
        assert(log.take(k + 1).drop_last() =~= log.take(k));
        if let Some(ev) = line_event(log[k], num_players) {
            assert(b.drop_last() =~= a);
        }
        lemma_replayed_stays_refused(r, log, num_players, k + 1, e);
    } else {
        assert(log.take(k) =~= log);
    }
}

/// A window that cannot be opened for some seats cannot be opened for more.
proof fn lemma_opened_stays_refused(
    r: ReplayView,
    from: u8,
    seats: Seq<u8>,
    k: int,
    e: ReplayError,
)
    requires
        0 <= k <= seats.len(),
        opened(r, from, seats.take(k)) == Err::<ReplayView, ReplayError>(e),
    ensures
        opened(r, from, seats) == Err::<ReplayView, ReplayError>(e),
    decreases seats.len() - k,
{
    if k < seats.len() {
        assert(seats.take(k + 1).drop_last() =~= seats.take(k));
        lemma_opened_stays_refused(r, from, seats, k + 1, e);
    } else {
        assert(seats.take(k) =~= seats);
    }
}

} // verus!
