//! What callers get: the results of the public functions, told from what they
//! were given.
use vstd::prelude::*;
use riichienv_core::action::Action;
use riichienv_core::replay::MjaiEvent;
use serde_json::Value;
use crate::action_codec::{
    about_tiles, action_code, action_index, action_space, legal_mask, pass_index,
};
use crate::api::{
    base_of, check, failure, failure_text, health, is_success, law_what_a_react_body_holds,
    law_what_a_redeem_body_holds, normalize_base, reason, reason_in, redeem, ApiClient, Method,
    Request,
};
use crate::config::bot::{BotConfig, BotFile, NativeApiConfig, DEFAULT_API_BASE_URL};
use crate::config::general::GeneralConfig;
use crate::engine::Engine;
use crate::extract::{
    extract_game, gz_text, is_game_log, law_shards_are_even, plan_shards, read_gz, shard_file,
    sum_of, GameError, GameEvent, Meta, ShardRun,
};
use crate::geometry::{channels, obs_len, tile_dim};
use crate::json::{json_count, json_items, json_members, json_of, json_text};
use crate::mjai::{action_view, event_view, mjai_tile};
use crate::mjai_compat::{event_in, keep_modelled, parse_line, truncate_seats};
use crate::replay::{
    claimer, decision, discarder, finished, opened, recorded, replay_from, replay_game,
    replay_result, sample_views, settled, stepped, Replay, ReplayError, Sample, SampleView,
};
use crate::step_laws::law_a_seat_waits_iff_it_may_call;
use crate::text::{
    decimal, decimal_text, first_chars, is_space, law_a_numeral_stands_for_its_number,
    law_replacing_needs_the_pattern, law_trimmed_is_the_middle, law_without_trailing_is_the_rest,
    lines, replace_all, replaced, text_lines, texts, trim, trim_end_char, trimmed, value_of,
};

verus! {

/// The claimer of a pon, a chi, an open kan or a win by discard is its actor, and
/// no other event has one.
pub proof fn law_claimer_gives_who_acts(ev: MjaiEvent, r: Option<u8>)
    requires
        call_ensures(claimer, (&ev,), r),
    ensures
        ev matches MjaiEvent::Pon { actor, .. } ==> r == Some(actor as u8),
        ev matches MjaiEvent::Chi { actor, .. } ==> r == Some(actor as u8),
        ev matches MjaiEvent::Kan { actor, .. } ==> r == Some(actor as u8),
        ev matches MjaiEvent::Hora { actor, target, .. } ==> (r is Some <==> actor != target) && (
        actor != target ==> r == Some(actor as u8)),
        !(ev is Pon || ev is Chi || ev is Kan || ev is Hora) ==> r is None,
{
}

/// The discarder of a discard is its actor, and no other event has one.
pub proof fn law_discarder_gives_who_discards(ev: MjaiEvent, r: Option<u8>)
    requires
        call_ensures(discarder, (&ev,), r),
    ensures
        ev matches MjaiEvent::Dahai { actor, .. } ==> r == Some(actor as u8),
        !(ev is Dahai) ==> r is None,
{
}

/// The choice in a discard or a call is its actor's, of the kind of the event, and
/// about the tile that the event's `pai` denotes; no event of progress is one.
pub proof fn law_decision_gives_the_action(ev: MjaiEvent, r: Option<(u8, Action)>)
    requires
        call_ensures(decision, (&ev,), r),
    ensures
        ev matches MjaiEvent::Dahai { actor, pai, .. } ==> (r matches Some((seat, a)) && seat
            == actor as u8 && a.actor == Some(actor as u8) && a.action_type is Discard && a.tile
            == mjai_tile(pai@)),
        ev matches MjaiEvent::Pon { actor, pai, .. } ==> (r matches Some((seat, a)) && seat
            == actor as u8 && a.actor == Some(actor as u8) && a.action_type is Pon && a.tile
            == mjai_tile(pai@)),
        ev matches MjaiEvent::Chi { actor, pai, .. } ==> (r matches Some((seat, a)) && seat
            == actor as u8 && a.actor == Some(actor as u8) && a.action_type is Chi && a.tile
            == mjai_tile(pai@)),
        ev matches MjaiEvent::Kan { actor, pai, .. } ==> (r matches Some((seat, a)) && seat
            == actor as u8 && a.actor == Some(actor as u8) && a.action_type is Daiminkan && a.tile
            == mjai_tile(pai@)),
        ev matches MjaiEvent::Kakan { actor, pai } ==> (r matches Some((seat, a)) && seat
            == actor as u8 && a.actor == Some(actor as u8) && a.action_type is Kakan && a.tile
            == mjai_tile(pai@)),
        ev matches MjaiEvent::Ankan { actor, .. } ==> (r matches Some((seat, a)) && seat
            == actor as u8 && a.actor == Some(actor as u8) && a.action_type is Ankan),
        ev matches MjaiEvent::Reach { actor } ==> (r matches Some((seat, a)) && seat == actor as u8
            && a.actor == Some(actor as u8) && a.action_type is Riichi),
        ev matches MjaiEvent::Kita { actor } ==> (r matches Some((seat, a)) && seat == actor as u8
            && a.actor == Some(actor as u8) && a.action_type is Kita),
        ev matches MjaiEvent::Hora { actor, target, .. } ==> (r matches Some((seat, a)) && seat
            == actor as u8 && a.actor == Some(actor as u8) && (if actor == target {
            a.action_type is Tsumo
        } else {
            a.action_type is Ron
        })),
        ev is StartGame || ev is StartKyoku || ev is Tsumo || ev is Dora || ev is ReachAccepted
            || ev is Ryukyoku || ev is EndKyoku || ev is EndGame || ev is Other ==> r is None,
{
    if let Some((_, a)) = r {
        assert(action_view(a).actor == a.actor);
    }
}

/// Cutting to three seats keeps everything about a win but the scores and changes
/// of score of a fourth seat.
pub proof fn law_truncate_seats_keeps_wins(ev: MjaiEvent, r: MjaiEvent)
    requires
        call_ensures(truncate_seats, (ev,), r),
    ensures
        ev is Hora <==> r is Hora,
        ev matches MjaiEvent::Hora { actor, target, fu, han, .. } ==> r matches MjaiEvent::Hora {
            actor: a,
            target: t,
            fu: f,
            han: h,
            ..
        } ==> a == actor && t == target && f == fu && h == han,
        ev is Hora ==> event_view(r)->Hora_pai == event_view(ev)->Hora_pai,
        ev is Hora ==> event_view(r)->uradora_markers == event_view(ev)->uradora_markers,
        ev is Hora ==> event_view(r)->yaku == event_view(ev)->yaku,
{
    assert(ev is Hora <==> event_view(ev) is Hora);
    assert(r is Hora <==> event_view(r) is Hora);
}

/// Cutting to three seats keeps every event that lists no seats.
pub proof fn law_truncate_seats_keeps_other_events(ev: MjaiEvent, r: MjaiEvent)
    requires
        call_ensures(truncate_seats, (ev,), r),
    ensures
        !(ev is StartGame || ev is StartKyoku || ev is Hora || ev is Ryukyoku) ==> event_view(r)
            == event_view(ev),
        ev is StartGame <==> r is StartGame,
        ev is StartKyoku <==> r is StartKyoku,
        ev is Ryukyoku <==> r is Ryukyoku,
        ev matches MjaiEvent::StartKyoku { bakaze, kyoku, honba, kyoutaku, oya, dora_marker, .. }
            ==> r matches MjaiEvent::StartKyoku {
            bakaze: b,
            kyoku: k,
            honba: h,
            kyoutaku: t,
            oya: o,
            dora_marker: d,
            ..
        } ==> b@ == bakaze@ && k == kyoku && h == honba && t == kyoutaku && o == oya && d@
            == dora_marker@,
{
    assert(event_view(ev) is StartGame <==> ev is StartGame);
}

/// Reading a line of a game of four gives the event that its text describes, if it
/// describes one that the engine models.
pub proof fn law_parse_line_reads_events(line: &str, num_players: u8, r: Option<MjaiEvent>)
    requires
        call_ensures(parse_line, (line, num_players), r),
        num_players != 3,
    ensures
        (forall|i: int| 0 <= i < line@.len() ==> is_space(#[trigger] line@[i])) ==> r is None,
        r is Some <==> trimmed(line@).len() > 0 && (event_in(trimmed(line@)) matches Some(ev)
            && !(ev is Other)),
        r matches Some(ev) ==> event_in(trimmed(line@)) == Some(event_view(ev)),
{
    let cut = law_trimmed_is_the_middle(line@);
    if cut.0 < cut.1 {
        assert(!is_space(line@[cut.0]));
    }
}

/// What was parsed is kept, but for what the engine does not model.
pub proof fn law_keep_modelled_keeps_events(
    parsed: Option<MjaiEvent>,
    num_players: u8,
    r: Option<MjaiEvent>,
)
    requires
        call_ensures(keep_modelled, (parsed, num_players), r),
    ensures
        r is Some <==> parsed is Some && !(parsed.unwrap() is Other),
        num_players != 3 && r is Some ==> event_view(r.unwrap()) == event_view(parsed.unwrap()),
{
}

/// A mask has 1 at the id of every legal action, and nowhere else.
pub proof fn law_legal_mask_marks_legal_ids(
    legal: Vec<Action>,
    num_players: u8,
    mask: Vec<u8>,
    i: int,
)
    requires
        call_ensures(legal_mask, (&legal, num_players), mask),
        0 <= i < mask@.len(),
    ensures
        mask@.len() == (if num_players == 3 {
            60nat
        } else {
            82nat
        }),
        mask@[i] == 1 <==> exists|k: int|
            0 <= k < legal@.len() && action_code(num_players, action_view(#[trigger] legal@[k]))
                == Some(i as nat),
        mask@[i] == 0 || mask@[i] == 1,
{
    let views = crate::action_codec::action_views(legal@);
    assert(mask@[i] == 1 <==> crate::action_codec::has_code(views, num_players, i));
    if mask@[i] == 1 {
        let k = choose|k: int|
            0 <= k < views.len() && action_code(num_players, #[trigger] views[k]) == Some(i as nat);
        assert(views[k] == action_view(legal@[k]));
    }
    if exists|k: int|
        0 <= k < legal@.len() && action_code(num_players, action_view(#[trigger] legal@[k]))
            == Some(i as nat) {
        let k = choose|k: int|
            0 <= k < legal@.len() && action_code(num_players, action_view(#[trigger] legal@[k]))
                == Some(i as nat);
        assert(views[k] == action_view(legal@[k]));
    }
}

/// The index of an action is its id, where it has one, and the numbers of ids and
/// the id of passing are those of the game.
pub proof fn law_action_ids(
    action: Action,
    num_players: u8,
    r: Option<usize>,
    space: usize,
    pass: usize,
)
    requires
        call_ensures(action_index, (&action, num_players), r),
        call_ensures(action_space, (num_players,), space),
        call_ensures(pass_index, (num_players,), pass),
    ensures
        r is Some <==> action_code(num_players, action_view(action)) is Some,
        r matches Some(i) ==> action_code(num_players, action_view(action)) == Some(i as nat),
        space == (if num_players == 3 {
            60usize
        } else {
            82usize
        }),
        pass == (if num_players == 3 {
            58usize
        } else {
            81usize
        }),
{
}

/// Looking at a seat adds it to those who wait exactly where it may call, with
/// what it sees.
pub proof fn law_watch_keeps_who_may_call(before: Replay, seat: u8, after: Replay)
    requires
        call_ensures(
            Replay::watch,
            (before, seat),
            Ok::<Replay, ReplayError>(after),
        ),
        forall|k: int|
            0 <= k < before.engine.seen(seat).legal_views().len() ==> about_tiles(
                #[trigger] before.engine.seen(seat).legal_views()[k],
            ),
    ensures
        after.window@.len() == before.window@.len() + 1 <==> exists|k: int|
            0 <= k < before.engine.seen(seat).legal_views().len() && !((
            #[trigger] before.engine.seen(seat).legal_views()[k]).kind is Pass) && action_code(
                before.engine.seats(),
                before.engine.seen(seat).legal_views()[k],
            ) is Some,
        after.window@.len() == before.window@.len() || (after.window@.len() == before.window@.len()
            + 1 && after.window@.last().seat == seat && after.window@.last().obs
            == before.engine.seen(seat)),
        after.samples@.len() == before.samples@.len(),
{
    law_a_seat_waits_iff_it_may_call(before@, seat, after@);
    assert(before@.window.len() == before.window@.len());
    assert(after@.window.len() == after.window@.len());
    assert(before@.samples.len() == before.samples@.len());
    assert(after@.samples.len() == after.samples@.len());
    if after.window@.len() == before.window@.len() + 1 {
        assert(after@.window.last() == after.window@.last()@);
    }
}

/// A replay begins with the table given and nothing else.
pub proof fn law_new_replays_are_empty(engine: Engine, r: Replay)
    requires
        call_ensures(Replay::new, (engine,), r),
    ensures
        r.engine == engine,
        r.window@.len() == 0,
        r.samples@.len() == 0,
        !r.prev_was_hora,
{
    assert(r@.window.len() == r.window@.len());
    assert(r@.samples.len() == r.samples@.len());
}

/// Replaying the same log from the same table comes to the same samples, or to the
/// same refusal.
pub proof fn law_replays_are_repeatable(
    engine: Engine,
    content: &str,
    a: Result<Vec<Sample>, ReplayError>,
    b: Result<Vec<Sample>, ReplayError>,
)
    requires
        call_ensures(replay_from, (engine, content), a),
        call_ensures(replay_from, (engine, content), b),
    ensures
        a is Ok <==> b is Ok,
        a matches Err(e) ==> b matches Err(f) && e == f,
        a is Ok ==> a.unwrap()@.len() == b.unwrap()@.len() && forall|i: int|
            0 <= i < a.unwrap()@.len() ==> (#[trigger] a.unwrap()@[i]).obs == b.unwrap()@[i].obs
                && a.unwrap()@[i].action == b.unwrap()@[i].action && a.unwrap()@[i].mask@
                == b.unwrap()@[i].mask@,
{
    if a is Ok && b is Ok {
        let x = crate::replay::sample_views(a.unwrap()@);
        let y = crate::replay::sample_views(b.unwrap()@);
        assert(x == y);
        assert(x.len() == a.unwrap()@.len());
        assert(y.len() == b.unwrap()@.len());
        assert forall|i: int| 0 <= i < a.unwrap()@.len() implies (#[trigger] a.unwrap()@[i]).obs
            == b.unwrap()@[i].obs && a.unwrap()@[i].action == b.unwrap()@[i].action
            && a.unwrap()@[i].mask@ == b.unwrap()@[i].mask@ by {
            assert(x[i] == a.unwrap()@[i]@);
            assert(y[i] == b.unwrap()@[i]@);
        }
    }
}

/// A base address has no white space around it, no slash at its end, and is
/// otherwise the address given.
pub proof fn law_normalize_base_keeps_the_address(base_url: &str, r: String) -> (cut: (
    int,
    int,
    int,
))
    requires
        call_ensures(normalize_base, (base_url,), r),
    ensures
        0 <= cut.0 <= cut.1 <= cut.2 <= base_url@.len(),
        r@ == base_url@.subrange(cut.0, cut.1),
        forall|i: int| 0 <= i < cut.0 ==> is_space(#[trigger] base_url@[i]),
        forall|i: int| cut.1 <= i < cut.2 ==> #[trigger] base_url@[i] == '/',
        forall|i: int| cut.2 <= i < base_url@.len() ==> is_space(#[trigger] base_url@[i]),
        r@.len() > 0 ==> r@.last() != '/' && !is_space(r@[0]),
        cut.0 < cut.2 ==> !is_space(base_url@[cut.2 - 1]),
{
    crate::api::law_base_is_the_address(base_url@)
}

/// Redeeming posts the trimmed code to the server; the trimmed email and renewal
/// key go along exactly where they are given and not blank, whatever their length.
pub proof fn law_redeem_sends_what_is_given(
    base_url: &str,
    code: &str,
    email: Option<&str>,
    renew_key: Option<&str>,
    r: Request,
)
    requires
        call_ensures(redeem, (base_url, code, email, renew_key), r),
    ensures
        r.method == Method::Post,
        r.url@ == base_of(base_url@) + "/v3/redeem"@,
        r.bearer is None,
        r.timeout_ms == 8000,
        r.what@ == "redeem"@,
        r.body is Some && json_members(r.body.unwrap()) is Some,
        ({
            let m = json_members(r.body.unwrap()).unwrap();
            &&& m.contains_key("code"@) && json_text(m["code"@]) == Some(trimmed(code@))
            &&& m.contains_key("email"@) <==> (email matches Some(t) && exists|i: int|
                0 <= i < t@.len() && !is_space(#[trigger] t@[i]))
            &&& m.contains_key("email"@) ==> json_text(m["email"@]) == Some(
                trimmed(email.unwrap()@),
            )
            &&& m.contains_key("renew_key"@) <==> (renew_key matches Some(t) && exists|i: int|
                0 <= i < t@.len() && !is_space(#[trigger] t@[i]))
            &&& m.contains_key("renew_key"@) ==> json_text(m["renew_key"@]) == Some(
                trimmed(renew_key.unwrap()@),
            )
        }),
{
    law_what_a_redeem_body_holds(r.body.unwrap(), code, email, renew_key);
}

/// Asking for a move posts the seat and the events as given to the server, with
/// the key; the model goes along as given exactly where it is given and not empty.
pub proof fn law_react_sends_what_is_given(
    client: ApiClient,
    model: Option<&str>,
    player_id: u8,
    events: Vec<Value>,
    r: Request,
)
    requires
        call_ensures(ApiClient::react, (&client, model, player_id, events), r),
    ensures
        r.method == Method::Post,
        r.url@ == client.base() + "/v3/react"@,
        r.bearer matches Some(key) && key@ == client.key(),
        r.timeout_ms == 2000,
        r.what@ == "react"@,
        r.body is Some && json_members(r.body.unwrap()) is Some,
        ({
            let m = json_members(r.body.unwrap()).unwrap();
            &&& m.contains_key("player_id"@) && json_count(m["player_id"@]) == Some(
                player_id as u64,
            )
            &&& m.contains_key("events"@) && json_items(m["events"@]) == Some(events@)
            &&& m.contains_key("model"@) <==> (model matches Some(t) && t@.len() > 0)
            &&& m.contains_key("model"@) ==> json_text(m["model"@]) == Some(model.unwrap()@)
        }),
{
    law_what_a_react_body_holds(r.body.unwrap(), model, player_id, events@);
}

/// A client keeps its server's base address and its key without the white space
/// around it; its questions carry both, and health needs no key.
pub proof fn law_questions_carry_the_key(
    base_url: &str,
    key: &str,
    client: ApiClient,
    status: Request,
    models: Request,
    up: Request,
)
    requires
        call_ensures(ApiClient::new, (base_url, key), client),
        call_ensures(ApiClient::key_status, (&client,), status),
        call_ensures(ApiClient::models, (&client,), models),
        call_ensures(health, (base_url,), up),
    ensures
        status.url@ == base_of(base_url@) + "/v3/key"@,
        models.url@ == base_of(base_url@) + "/v3/models"@,
        up.url@ == base_of(base_url@) + "/healthz"@,
        status.bearer matches Some(k) && k@ == trimmed(key@),
        models.bearer matches Some(k) && k@ == trimmed(key@),
        up.bearer is None,
        status.method == Method::Get && models.method == Method::Get && up.method == Method::Get,
        status.body is None && models.body is None && up.body is None,
        status.timeout_ms == 8000 && models.timeout_ms == 8000 && up.timeout_ms == 8000,
        status.what@ == "key status"@,
        models.what@ == "models"@,
        up.what@ == "health"@,
{
}

/// An answer is refused exactly where its status is none of the two hundreds, and
/// the refusal tells what was asked for, the status, the reason, and how long to
/// wait where the server says so.
pub proof fn law_check_refuses_failures(
    status: u16,
    what: &str,
    retry_after: Option<&str>,
    raw: &str,
    r: Result<(), String>,
    ok: bool,
)
    requires
        call_ensures(check, (status, what, retry_after, raw), r),
        call_ensures(is_success, (status,), ok),
    ensures
        r is Ok <==> 200 <= status <= 299,
        ok <==> r is Ok,
        r matches Err(text) ==> retry_after is None ==> text@ == failure_text(
            what@,
            status,
            None,
            reason(json_of(raw@), raw@),
        ),
        r matches Err(text) ==> retry_after matches Some(ra) ==> text@ == failure_text(
            what@,
            status,
            Some(ra@),
            reason(json_of(raw@), raw@),
        ),
{
}

/// The reason of a refusal without the server's own words is no longer than two
/// hundred characters of the answer, and the text of a refusal is put together
/// from the parts given.
pub proof fn law_reasons_and_refusals(
    found: Option<Value>,
    raw: &str,
    msg: String,
    what: &str,
    status: u16,
    text: String,
)
    requires
        call_ensures(reason_in, (found, raw), msg),
        call_ensures(failure, (what, status, None::<&str>, raw), text),
    ensures
        found is None && raw@.len() <= 200 ==> msg@ == raw@,
        found is None && raw@.len() > 200 ==> msg@ == raw@.take(200),
        found matches Some(v) ==> (json_members(v) matches Some(m) ==> (m.contains_key("error"@) ==> (
        json_text(m["error"@]) matches Some(t) ==> msg@ == t))),
        text@ == failure_text(what@, status, None, raw@),
{
}

/// Trimming, numerals and first characters.
pub proof fn law_texts(
    s: &str,
    t: &str,
    n: u64,
    numeral: String,
    k: usize,
    first: String,
) -> (cut: (int, int))
    requires
        call_ensures(trim, (s,), t),
        call_ensures(decimal_text, (n,), numeral),
        call_ensures(first_chars, (s, k), first),
    ensures
        0 <= cut.0 <= cut.1 <= s@.len(),
        t@ == s@.subrange(cut.0, cut.1),
        forall|i: int| 0 <= i < cut.0 ==> is_space(#[trigger] s@[i]),
        forall|i: int| cut.1 <= i < s@.len() ==> is_space(#[trigger] s@[i]),
        t@.len() > 0 ==> !is_space(t@[0]) && !is_space(t@.last()),
        value_of(numeral@) == n,
        s@.len() <= k ==> first@ == s@,
        s@.len() > k ==> first@ == s@.take(k as int),
{
    law_a_numeral_stands_for_its_number(n as nat);
    law_trimmed_is_the_middle(s@)
}

/// Which settings are for three players, and which for every other number.
pub proof fn law_settings_by_players(
    bot: BotConfig,
    api: NativeApiConfig,
    num_players: u8,
    name: &str,
    model: &str,
    active: bool,
)
    requires
        call_ensures(BotConfig::active_for, (&bot, num_players), name),
        call_ensures(NativeApiConfig::model_for, (&api, num_players), model),
        call_ensures(NativeApiConfig::is_active, (&api,), active),
    ensures
        num_players == 3 ==> name@ == bot.active_3p@ && model@ == api.model_3p@,
        num_players != 3 ==> name@ == bot.active_4p@ && model@ == api.model_4p@,
        active <==> api.enabled && (exists|i: int|
            0 <= i < api.base_url@.len() && !is_space(#[trigger] api.base_url@[i])) && (exists|
            i: int,
        |
            0 <= i < api.key@.len() && !is_space(#[trigger] api.key@[i])),
{
}

/// What a settings file says counts; where it is silent a bot is on, syncs, lives
/// in the usual directory, is the built-in one, and asks no server.
pub proof fn law_settings_from_files(file: BotFile, c: BotConfig)
    requires
        call_ensures(BotConfig::from_file, (file,), c),
    ensures
        c.enabled <==> file.enabled != Some(false),
        c.auto_sync <==> file.auto_sync != Some(false),
        c.active@.len() == 0,
        file.active_3p matches Some(s) ==> c.active_3p@ == s@,
        file.active_3p is None ==> c.active_3p@ == "akagi3p"@,
        file.dir matches Some(s) ==> c.dir@ == s@,
        file.dir is None ==> c.dir@ == "mjai_bot"@,
        file.active_4p matches Some(s) ==> (s@.len() > 0 ==> c.active_4p@ == s@),
        file.active_4p is None && file.active is None ==> c.active_4p@ == "akagi4p"@,
        file.active matches Some(older) ==> (older@.len() > 0 && (file.active_4p matches Some(s)
            ==> s@.len() == 0) ==> c.active_4p@ == older@),
        file.api matches Some(api) ==> c.api == api,
        file.api is None ==> !c.api.enabled && c.api.base_url@ == DEFAULT_API_BASE_URL@
            && c.api.key@.len() == 0 && c.api.model_4p@.len() == 0 && c.api.model_3p@.len() == 0,
{
}

/// The wizard has run unless a settings file says that it has not.
pub proof fn law_first_run_from_files(said: Option<bool>, c: GeneralConfig)
    requires
        call_ensures(GeneralConfig::from_file, (said,), c),
    ensures
        c.first_run_completed <==> said != Some(false),
{
}

/// A shard run starts at its first file with no sample, and notes each game once.
pub proof fn law_shard_runs(
    first: usize,
    end: usize,
    fresh: ShardRun,
    run: ShardRun,
    event: GameEvent,
    next: ShardRun,
)
    requires
        call_ensures(ShardRun::new, (first, end), fresh),
        run.can_take(event),
        call_ensures(ShardRun::note, (run, event), next),
    ensures
        fresh.next == first && fresh.end == end && fresh.samples == 0,
        next.next == run.next + 1 && next.end == run.end,
        event is Skipped ==> next.samples == run.samples,
        event matches GameEvent::Written(n) ==> next.samples == run.samples + n,
{
}

/// The plan for some files shares out each of them to one shard, in order and in
/// runs of one size but for the last.
pub proof fn law_plans_share_out_all_files(
    n_files: usize,
    n_threads: usize,
    plan: Vec<(usize, usize)>,
) -> (size: nat)
    requires
        n_threads <= usize::MAX / 4,
        call_ensures(plan_shards, (n_files, n_threads), plan),
    ensures
        n_files == 0 <==> plan@.len() == 0,
        n_files > 0 ==> size > 0 && plan@[0].0 == 0 && plan@.last().1 == n_files,
        forall|k: int| 0 <= k < plan@.len() ==> (#[trigger] plan@[k]).0 < plan@[k].1 <= n_files,
        forall|k: int| 0 <= k < plan@.len() ==> (#[trigger] plan@[k]).0 == k * size,
        forall|k: int, j: int|
            0 <= k < plan@.len() && j == k + 1 && j < plan@.len() ==> (#[trigger] plan@[k]).1 == (
            #[trigger] plan@[j]).0,
{
    let views = crate::extract::runs(plan@);
    assert(views.len() == plan@.len());
    crate::extract::law_shards_partition_the_files(n_files as nat, n_threads as nat);
    assert forall|k: int| 0 <= k < plan@.len() implies (#[trigger] plan@[k]).0 < plan@[k].1
        <= n_files by {
        assert(views[k].0 < views[k].1 <= n_files);
    }
    assert forall|k: int, j: int|
        0 <= k < plan@.len() && j == k + 1 && j < plan@.len() implies (#[trigger] plan@[k]).1 == (
    #[trigger] plan@[j]).0 by {
        assert(views[k].1 == views[k + 1].0);
    }
    if n_files > 0 {
        assert(views[0].0 == plan@[0].0);
        assert(views.last().1 == plan@.last().1);
        let size = law_shards_are_even(n_files as nat, n_threads as nat);
        assert forall|k: int| 0 <= k < plan@.len() implies (#[trigger] plan@[k]).0 == k * size by {
            assert(views[k].0 == k * size);
        }
        size
    } else {
        0
    }
}

/// A file is read as its text where it holds one, and comes to its samples or to
/// what went wrong: to be unreadable, or to be refused.
pub proof fn law_files_are_read_and_replayed(
    raw: &[u8],
    text: Result<String, GameError>,
    num_players: u8,
    samples: Result<Vec<Sample>, GameError>,
)
    requires
        call_ensures(read_gz, (raw,), text),
        call_ensures(extract_game, (raw, num_players), samples),
    ensures
        text is Ok <==> gz_text(raw@) is Some,
        text matches Ok(t) ==> gz_text(raw@) == Some(t@),
        text matches Err(e) ==> e == GameError::Unreadable,
        text is Err <==> samples matches Err(GameError::Unreadable),
{
    crate::extract::law_what_a_game_comes_to(
        gz_text(raw@),
        num_players,
        crate::extract::outcome_view(samples),
    );
}

/// What the shards hold is told shard by shard and in all, with the shape of the
/// samples; only a sum that does not fit has no such account.
pub proof fn law_accounts(num_players: u8, counts: Vec<usize>, r: Option<Meta>)
    requires
        call_ensures(Meta::new, (num_players, counts), r),
    ensures
        r is Some <==> sum_of(counts@) <= usize::MAX,
        r matches Some(m) ==> {
            &&& m.num_players == num_players
            &&& m.total_samples == sum_of(counts@)
            &&& m.num_shards == counts@.len()
            &&& m.shard_samples@ == counts@
            &&& m.channels == (if num_players == 3 {
                37usize
            } else {
                39usize
            })
            &&& m.tile_dim == (if num_players == 3 {
                27usize
            } else {
                34usize
            })
            &&& m.action_space == (if num_players == 3 {
                60usize
            } else {
                82usize
            })
            &&& m.obs_len == m.channels * m.tile_dim
        },
{
}

/// The shape of the samples: so many values are so many channels over so many tile
/// types.
pub proof fn law_sample_shapes(num_players: u8, c: usize, t: usize, n: usize)
    requires
        call_ensures(channels, (num_players,), c),
        call_ensures(tile_dim, (num_players,), t),
        call_ensures(obs_len, (num_players,), n),
    ensures
        n == c * t,
        num_players == 3 ==> c == 37 && t == 27,
        num_players != 3 ==> c == 39 && t == 34,
{
}

/// A file is a game log where its name has `.gz` behind some stem; a shard's file
/// is named by the shard's numeral, a dot and the extension.
pub proof fn law_file_names(name: &str, r: bool, k: usize, ext: &str, file: String)
    requires
        call_ensures(is_game_log, (name,), r),
        call_ensures(shard_file, (k, ext), file),
    ensures
        r <==> name@.len() > 3 && name@[name@.len() - 3] == '.' && name@[name@.len() - 2] == 'g'
            && name@[name@.len() - 1] == 'z',
        file@.len() == decimal(k as nat).len() + 1 + ext@.len(),
        file@.take(decimal(k as nat).len() as int) == decimal(k as nat),
        file@[decimal(k as nat).len() as int] == '.',
        file@.skip(decimal(k as nat).len() as int + 1) == ext@,
{
    let dot = crate::extract::law_how_shard_files_are_named(k as nat, ext@);
    reveal_strlit(".");
    assert(file@.take(decimal(k as nat).len() as int) =~= decimal(k as nat));
    assert(file@.skip(decimal(k as nat).len() as int + 1) =~= ext@);
    let n = name@.len() as int;
    if n > 3 {
        let tail = name@.skip(n - 3);
        assert(tail[0] == name@[n - 3] && tail[1] == name@[n - 2] && tail[2] == name@[n - 1]);
        if tail[0] == '.' && tail[1] == 'g' && tail[2] == 'z' {
            assert(tail =~= seq!['.', 'g', 'z']);
        }
    }
}

/// Settling changes neither the table nor what was recorded: it adds the passes of
/// those who waited and did not act, and nobody waits any longer but after a win.
pub proof fn law_settle_adds_passes(before: Replay, ev: MjaiEvent, after: Replay)
    requires
        call_ensures(Replay::settle, (before, &ev), after),
    ensures
        after@ == settled(before@, event_view(ev)),
        after.engine == before.engine,
        after.prev_was_hora == before.prev_was_hora,
        ev is Hora ==> after.samples@.len() == before.samples@.len(),
        !(ev is Hora) ==> after.window@.len() == 0,
        !(ev is Pon || ev is Chi || ev is Kan || ev is Hora) ==> after.samples@.len()
            == before.samples@.len() + before.window@.len(),
{
    assert(before@.window.len() == before.window@.len());
    assert(after@.window.len() == after.window@.len());
    assert(before@.samples.len() == before.samples@.len());
    assert(after@.samples.len() == after.samples@.len());
    assert(ev is Hora <==> event_view(ev) is Hora);
}

/// Recording, playing, stepping and opening a window come to what they are modelled
/// as, results and refusals alike; finishing adds the passes of those who wait.
pub proof fn law_replays_follow_their_model(
    before: Replay,
    ev: MjaiEvent,
    from: u8,
    record: Result<Replay, ReplayError>,
    apply: Result<Replay, ReplayError>,
    open: Result<Replay, ReplayError>,
    step: Result<Replay, ReplayError>,
    samples: Vec<Sample>,
)
    requires
        call_ensures(Replay::record, (before, &ev), record),
        call_ensures(Replay::apply, (before, ev), apply),
        call_ensures(Replay::open_window, (before, from), open),
        call_ensures(Replay::step, (before, ev), step),
        call_ensures(Replay::finish, (before,), samples),
    ensures
        record is Ok <==> recorded(before@, event_view(ev)) is Ok,
        record matches Ok(t) ==> recorded(before@, event_view(ev)) matches Ok(v) && v == t@,
        record matches Err(e) ==> recorded(before@, event_view(ev)) matches Err(f) && f == e,
        apply is Ok <==> before.engine.playable(event_view(ev)),
        apply matches Ok(t) ==> t.engine == before.engine.after(event_view(ev)) && (t.prev_was_hora
            <==> ev is Hora),
        apply matches Err(e) ==> e == ReplayError::Unplayable,
        open is Ok <==> opened(before@, from, before.engine.active()) is Ok,
        open matches Ok(t) ==> opened(before@, from, before.engine.active()) matches Ok(v) && v
            == t@,
        open matches Err(e) ==> opened(before@, from, before.engine.active()) matches Err(f) && f
            == e,
        step is Ok <==> stepped(before@, event_view(ev)) is Ok,
        step matches Ok(t) ==> stepped(before@, event_view(ev)) matches Ok(v) && v == t@,
        step matches Err(e) ==> stepped(before@, event_view(ev)) matches Err(f) && f == e,
        samples@.len() == before.samples@.len() + before.window@.len(),
        forall|i: int|
            0 <= i < before.samples@.len() ==> (#[trigger] samples@[i])@ == before.samples@[i]@,
{
    assert(before@.window.len() == before.window@.len());
    assert(before@.samples.len() == before.samples@.len());
    let views = sample_views(samples@);
    assert(views.len() == samples@.len());
    assert forall|i: int| 0 <= i < before.samples@.len() implies (#[trigger] samples@[i])@
        == before.samples@[i]@ by {
        assert(views[i] == samples@[i]@);
        assert(before@.samples[i] == before.samples@[i]@);
        assert(finished(before@)[i] == before@.samples[i]);
    }
    assert(ev is Hora <==> event_view(ev) is Hora);
}

/// A log is replayed at a fresh table of its number of players, three for three and
/// four for every other, and comes to what that table makes of it.
pub proof fn law_games_are_replayed_from_fresh_tables(
    content: &str,
    num_players: u8,
    r: Result<Vec<Sample>, ReplayError>,
) -> (engine: Engine)
    requires
        call_ensures(replay_game, (content, num_players), r),
    ensures
        engine.fresh(),
        engine.seats() == (if num_players == 3 {
            3u8
        } else {
            4u8
        }),
        r is Ok <==> replay_result(engine, content@) is Ok,
        r matches Ok(samples) ==> replay_result(engine, content@).unwrap().len()
            == samples@.len() && forall|i: int|
            0 <= i < samples@.len() ==> (#[trigger] samples@[i])@ == replay_result(
                engine,
                content@,
            ).unwrap()[i],
        r matches Err(e) ==> replay_result(engine, content@) matches Err(f) && f == e,
{
    let engine = choose|engine: Engine|
        engine.starts(num_players) && match r {
            Ok(samples) => #[trigger] replay_result(engine, content@) == Ok::<
                Seq<SampleView>,
                ReplayError,
            >(sample_views(samples@)),
            Err(e) => replay_result(engine, content@) == Err::<Seq<SampleView>, ReplayError>(e),
        };
    if let Ok(samples) = r {
        let views = sample_views(samples@);
        assert(views.len() == samples@.len());
        assert forall|i: int| 0 <= i < samples@.len() implies (#[trigger] samples@[i])@
            == views[i] by {}
    }
    engine
}

/// What a game in progress tells of itself: how many play, who may act, which
/// events it can take and which seats can look.
pub proof fn law_what_games_tell(
    num_players: u8,
    fresh: Engine,
    engine: Engine,
    n: u8,
    active: Vec<u8>,
    ev: MjaiEvent,
    takes: bool,
    seat: u8,
    looks: bool,
)
    requires
        call_ensures(Engine::new, (num_players,), fresh),
        call_ensures(Engine::num_players, (&engine,), n),
        call_ensures(Engine::active_players, (&engine,), active),
        call_ensures(Engine::can_take, (&engine, &ev), takes),
        call_ensures(Engine::can_look, (&engine, seat), looks),
    ensures
        fresh.fresh(),
        num_players == 3 <==> fresh.seats() == 3,
        num_players != 3 <==> fresh.seats() == 4,
        n == engine.seats(),
        active@ == engine.active(),
        takes <==> engine.playable(event_view(ev)),
        looks <==> engine.lookable(seat),
{
}

/// The lines of a text come one by one, and replacing and cutting texts give what
/// is modelled.
pub proof fn law_lines_and_replacements(
    content: &str,
    ls: Vec<String>,
    pat: &str,
    with: &str,
    new: String,
    c: char,
    cut: &str,
) -> (hi: int)
    requires
        call_ensures(lines, (content,), ls),
        pat@.len() > 0,
        call_ensures(replace_all, (content, pat, with), new),
        call_ensures(trim_end_char, (content, c), cut),
    ensures
        ls@.len() == text_lines(content@).len(),
        forall|i: int|
            0 <= i < ls@.len() ==> (#[trigger] ls@[i])@ == text_lines(content@)[i],
        (forall|i: int|
            0 <= i <= content@.len() - pat@.len() ==> #[trigger] content@.subrange(
                i,
                i + pat@.len(),
            ) != pat@) ==> new@ == content@,
        new@ == replaced(content@, pat@, with@),
        0 <= hi <= content@.len(),
        cut@ == content@.take(hi),
        forall|i: int| hi <= i < content@.len() ==> #[trigger] content@[i] == c,
        hi > 0 ==> content@[hi - 1] != c,
{
    let views = texts(ls@);
    assert(views.len() == ls@.len());
    assert forall|i: int| 0 <= i < ls@.len() implies (#[trigger] ls@[i])@ == text_lines(
        content@,
    )[i] by {
        assert(views[i] == ls@[i]@);
    }
    if forall|i: int|
        0 <= i <= content@.len() - pat@.len() ==> #[trigger] content@.subrange(i, i + pat@.len())
            != pat@ {
        law_replacing_needs_the_pattern(content@, pat@, with@);
    }
    law_without_trailing_is_the_rest(content@, c)
}

} // verus!
