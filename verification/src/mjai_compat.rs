//! Reading one line of an mjai log, with what three-player logs do their own
//! way: they name the north-tile call otherwise and carry a fourth, empty seat.
use vstd::prelude::*;
use riichienv_core::replay::MjaiEvent;
use crate::mjai::{event_view, EventView};
use crate::text::{
    free_of, law_replacing_is_undone, law_replacing_keeps_trimmed,
    law_replacing_nothing_changes_nothing, quoted, replace_all, replaced, trim, trimmed,
};

verus! {

/// The event that a JSON text describes, if it describes one.
pub uninterp spec fn event_in(text: Seq<char>) -> Option<EventView>;

/// `serde_json::from_str` at `riichienv_core::replay::MjaiEvent`: the event
/// that a JSON text describes, or nothing where the text is not JSON or not an
/// event. The text alone determines which.
#[verifier::external_body]
fn parse_event(text: &str) -> (r: Option<MjaiEvent>)
    ensures
        match r {
            Some(ev) => event_in(text@) == Some(event_view(ev)),
            None => event_in(text@) is None,
        },
{
    serde_json::from_str::<MjaiEvent>(text).ok()
}

/// The first `n` of `s`, or all of them.
pub open spec fn at_most<T>(s: Seq<T>, n: nat) -> Seq<T> {
    if s.len() <= n {
        s
    } else {
        s.take(n as int)
    }
}

/// The first `n` of what is there.
pub open spec fn at_most_of<T>(s: Option<Seq<T>>, n: nat) -> Option<Seq<T>> {
    match s {
        Some(v) => Some(at_most(v, n)),
        None => None,
    }
}

/// `ev` with each list that has an entry per seat cut to three seats.
pub open spec fn three_seats(ev: EventView) -> EventView {
    match ev {
        EventView::StartGame { names, id } => EventView::StartGame {
            names: at_most_of(names, 3),
            id,
        },
        EventView::StartKyoku {
            bakaze,
            kyoku,
            honba,
            kyoutaku,
            oya,
            scores,
            dora_marker,
            tehais,
        } => EventView::StartKyoku {
            bakaze,
            kyoku,
            honba,
            kyoutaku,
            oya,
            scores: at_most(scores, 3),
            dora_marker,
            tehais: at_most(tehais, 3),
        },
        EventView::Hora {
            actor,
            target,
            pai,
            uradora_markers,
            yaku,
            fu,
            han,
            scores,
            delta,
        } => EventView::Hora {
            actor,
            target,
            pai,
            uradora_markers,
            yaku,
            fu,
            han,
            scores: at_most_of(scores, 3),
            delta: at_most_of(delta, 3),
        },
        EventView::Ryukyoku { reason, tehais, delta, scores } => EventView::Ryukyoku {
            reason,
            tehais: at_most_of(tehais, 3),
            delta: at_most_of(delta, 3),
            scores: at_most_of(scores, 3),
        },
        _ => ev,
    }
}

/// The name three-player logs give the north-tile call, as JSON text.
pub open spec fn log_kita() -> Seq<char> {
    "\"nukidora\""@
}

/// The name the engine gives it, as JSON text.
pub open spec fn engine_kita() -> Seq<char> {
    "\"kita\""@
}

/// The event that a line of a log of `num_players` stands for, if any: blank
/// lines, malformed lines and events that the engine does not model stand for
/// none.
pub open spec fn line_event(line: Seq<char>, num_players: u8) -> Option<EventView> {
    let body = trimmed(line);
    let text = if num_players == 3 {
        replaced(body, log_kita(), engine_kita())
    } else {
        body
    };
    if body.len() == 0 {
        None
    } else {
        match event_in(text) {
            None => None,
            Some(EventView::Other) => None,
            Some(ev) => Some(
                if num_players == 3 {
                    three_seats(ev)
                } else {
                    ev
                },
            ),
        }
    }
}

/// Cuts a list to three entries.
fn cut<T: DeepView>(v: Vec<T>) -> (r: Vec<T>)
    ensures
        r@ == at_most(v@, 3),
        r.deep_view() == at_most(v.deep_view(), 3),
{
    let mut w = v;
    w.truncate(3);
    assert(w@ =~= at_most(v@, 3));
    assert(w.deep_view() =~= at_most(v.deep_view(), 3));
    w
}

/// Cuts a list that is there to three entries.
fn cut_some<T: DeepView>(v: Option<Vec<T>>) -> (r: Option<Vec<T>>)
    ensures
        r.deep_view() == at_most_of(v.deep_view(), 3),
{
    match v {
        Some(w) => Some(cut(w)),
        None => None,
    }
}

/// `ev` with each list that has an entry per seat cut to three seats.
pub fn truncate_seats(ev: MjaiEvent) -> (r: MjaiEvent)
    ensures
        event_view(r) == three_seats(event_view(ev)),
{
    match ev {
        MjaiEvent::StartGame { names, id } => MjaiEvent::StartGame { names: cut_some(names), id },
        MjaiEvent::StartKyoku {
            bakaze,
            kyoku,
            honba,
            kyoutaku,
            oya,
            scores,
            dora_marker,
            tehais,
        } => MjaiEvent::StartKyoku {
            bakaze,
            kyoku,
            honba,
            kyoutaku,
            oya,
            scores: cut(scores),
            dora_marker,
            tehais: cut(tehais),
        },
        MjaiEvent::Hora {
            actor,
            target,
            pai,
            uradora_markers,
            yaku,
            fu,
            han,
            scores,
            delta,
        } => MjaiEvent::Hora {
            actor,
            target,
            pai,
            uradora_markers,
            yaku,
            fu,
            han,
            scores: cut_some(scores),
            delta: cut_some(delta),
        },
        MjaiEvent::Ryukyoku { reason, tehais, delta, scores } => MjaiEvent::Ryukyoku {
            reason,
            tehais: cut_some(tehais),
            delta: cut_some(delta),
            scores: cut_some(scores),
        },
        other => other,
    }
}

/// The event that `line` stands for in a log of `num_players`, if any.
pub fn parse_line(line: &str, num_players: u8) -> (r: Option<MjaiEvent>)
    ensures
        match r {
            Some(ev) => line_event(line@, num_players) == Some(event_view(ev)),
            None => line_event(line@, num_players) is None,
        },
{
    let body = trim(line);
    if body.is_empty() {
        return None;
    }
    if num_players == 3 {
        proof {
            reveal_strlit("\"nukidora\"");
        }
        let text = replace_all(body, "\"nukidora\"", "\"kita\"");
        keep_modelled(parse_event(text.as_str()), num_players)
    } else {
        keep_modelled(parse_event(body), num_players)
    }
}

/// What a parsed event comes to: nothing for one that the engine does not
/// model, and three seats at a table of three.
pub fn keep_modelled(parsed: Option<MjaiEvent>, num_players: u8) -> (r: Option<MjaiEvent>)
    ensures
        match parsed {
            None => r is None,
            Some(ev) => match r {
                None => event_view(ev) is Other,
                Some(kept) => !(event_view(ev) is Other) && event_view(kept) == (if num_players == 3 {
                    three_seats(event_view(ev))
                } else {
                    event_view(ev)
                }),
            },
        },
{
    match parsed {
        None => None,
        Some(MjaiEvent::Other) => None,
        Some(ev) => Some(
            if num_players == 3 {
                truncate_seats(ev)
            } else {
                ev
            },
        ),
    }
}

/// Cutting to three seats is done once: what has three seats is left as it is.
pub proof fn law_three_seats_are_kept(ev: EventView)
    ensures
        three_seats(three_seats(ev)) == three_seats(ev),
{
}

/// At a table of three no event lists more seats than there are.
pub proof fn law_three_player_lines_list_three_seats(line: Seq<char>)
    ensures
        line_event(line, 3) matches Some(EventView::StartKyoku { scores, tehais, .. })
            ==> scores.len() <= 3 && tehais.len() <= 3,
        line_event(line, 3) matches Some(EventView::StartGame { names: Some(names), .. })
            ==> names.len() <= 3,
{
}

/// The two names of the north-tile call are quoted words.
proof fn lemma_kita_quoted()
    ensures
        quoted(log_kita()),
        quoted(engine_kita()),
{
    reveal_strlit("\"nukidora\"");
    reveal_strlit("\"kita\"");
    assert(log_kita() =~= seq!['"', 'n', 'u', 'k', 'i', 'd', 'o', 'r', 'a', '"']);
    assert(engine_kita() =~= seq!['"', 'k', 'i', 't', 'a', '"']);
}

/// At a table of three, a line stands for the same event whether it calls the
/// north-tile call by the engine's name or, in its place, by the logs' own.
pub proof fn law_nukidora_reads_as_kita(line: Seq<char>)
    requires
        free_of(trimmed(line), log_kita()),
    ensures
        line_event(replaced(trimmed(line), engine_kita(), log_kita()), 3) == line_event(line, 3),
{
    lemma_kita_quoted();
    let body = trimmed(line);
    law_replacing_keeps_trimmed(line, engine_kita(), log_kita());
    law_replacing_is_undone(body, engine_kita(), log_kita());
    law_replacing_nothing_changes_nothing(body, log_kita(), engine_kita());
}

/// Whether two lines of three-player logs say the same but for the fourth seat:
/// with the north-tile call named as the engine does, both describe no event, or
/// both one, and the two events differ beyond the third seat only.
pub open spec fn same_for_three(a: Seq<char>, b: Seq<char>) -> bool {
    let ra = replaced(trimmed(a), log_kita(), engine_kita());
    let rb = replaced(trimmed(b), log_kita(), engine_kita());
    &&& trimmed(a).len() == 0 <==> trimmed(b).len() == 0
    &&& match (event_in(ra), event_in(rb)) {
        (Some(x), Some(y)) => three_seats(x) == three_seats(y),
        (None, None) => true,
        _ => false,
    }
}

/// Lines that say the same but for the fourth seat stand for the same event at a
/// table of three.
pub proof fn law_the_fourth_seat_does_not_matter(a: Seq<char>, b: Seq<char>)
    requires
        same_for_three(a, b),
    ensures
        line_event(a, 3) == line_event(b, 3),
{
}

/// Cutting a list keeps its first entries as they are: as many as asked for, or
/// all there are.
pub proof fn law_cutting_keeps_the_first<T>(s: Seq<T>, n: nat)
    ensures
        s.len() <= n ==> at_most(s, n) == s,
        s.len() > n ==> at_most(s, n).len() == n,
        forall|i: int| 0 <= i < at_most(s, n).len() ==> #[trigger] at_most(s, n)[i] == s[i],
        at_most_of(Some(s), n) == Some(at_most(s, n)),
        at_most_of(None::<Seq<T>>, n) is None,
{
}

/// Cutting to three seats leaves every event that lists no seats as it is.
pub proof fn law_events_without_seat_lists_stay(ev: EventView)
    requires
        !(ev is StartGame || ev is StartKyoku || ev is Hora || ev is Ryukyoku),
    ensures
        three_seats(ev) == ev,
{
}

/// Cutting the start of a game keeps who reads the log, and the first three names.
pub proof fn law_a_cut_start_of_a_game(ev: EventView)
    requires
        ev is StartGame,
    ensures
        three_seats(ev) is StartGame,
        three_seats(ev)->StartGame_id == ev->StartGame_id,
        ev->names is None <==> three_seats(ev)->names is None,
        ev->names matches Some(names) ==> {
            let kept = three_seats(ev)->names.unwrap();
            &&& kept.len() == (if names.len() <= 3 {
                names.len()
            } else {
                3
            })
            &&& forall|i: int| 0 <= i < kept.len() ==> #[trigger] kept[i] == names[i]
        },
{
}

/// Cutting the start of a hand keeps the round, the dealer and the dora marker,
/// and the first three scores and hands.
pub proof fn law_a_cut_start_of_a_hand(ev: EventView)
    requires
        ev is StartKyoku,
    ensures
        three_seats(ev) is StartKyoku,
        three_seats(ev)->bakaze == ev->bakaze,
        three_seats(ev)->kyoku == ev->kyoku,
        three_seats(ev)->honba == ev->honba,
        three_seats(ev)->kyoutaku == ev->kyoutaku,
        three_seats(ev)->oya == ev->oya,
        three_seats(ev)->StartKyoku_dora_marker == ev->StartKyoku_dora_marker,
        ({
            let (all, kept) = (ev->StartKyoku_scores, three_seats(ev)->StartKyoku_scores);
            &&& kept.len() == (if all.len() <= 3 {
                all.len()
            } else {
                3
            })
            &&& forall|i: int| 0 <= i < kept.len() ==> #[trigger] kept[i] == all[i]
        }),
        ({
            let (all, kept) = (ev->StartKyoku_tehais, three_seats(ev)->StartKyoku_tehais);
            &&& kept.len() == (if all.len() <= 3 {
                all.len()
            } else {
                3
            })
            &&& forall|i: int| 0 <= i < kept.len() ==> #[trigger] kept[i] == all[i]
        }),
{
}

/// Cutting a win keeps who won, from whom, on which tile and for what, and the
/// first three scores and changes of score.
pub proof fn law_a_cut_win(ev: EventView)
    requires
        ev is Hora,
    ensures
        three_seats(ev) is Hora,
        three_seats(ev)->Hora_actor == ev->Hora_actor,
        three_seats(ev)->Hora_target == ev->Hora_target,
        three_seats(ev)->Hora_pai == ev->Hora_pai,
        three_seats(ev)->uradora_markers == ev->uradora_markers,
        three_seats(ev)->yaku == ev->yaku,
        three_seats(ev)->fu == ev->fu,
        three_seats(ev)->han == ev->han,
        ev->Hora_scores is None <==> three_seats(ev)->Hora_scores is None,
        ev->Hora_delta is None <==> three_seats(ev)->Hora_delta is None,
        ev->Hora_scores matches Some(all) ==> {
            let kept = three_seats(ev)->Hora_scores.unwrap();
            &&& kept.len() == (if all.len() <= 3 {
                all.len()
            } else {
                3
            })
            &&& forall|i: int| 0 <= i < kept.len() ==> #[trigger] kept[i] == all[i]
        },
        ev->Hora_delta matches Some(all) ==> {
            let kept = three_seats(ev)->Hora_delta.unwrap();
            &&& kept.len() == (if all.len() <= 3 {
                all.len()
            } else {
                3
            })
            &&& forall|i: int| 0 <= i < kept.len() ==> #[trigger] kept[i] == all[i]
        },
{
}

/// Cutting a drawn hand keeps the reason, and the first three hands, scores and
/// changes of score.
pub proof fn law_a_cut_drawn_hand(ev: EventView)
    requires
        ev is Ryukyoku,
    ensures
        three_seats(ev) is Ryukyoku,
        three_seats(ev)->reason == ev->reason,
        ev->Ryukyoku_tehais is None <==> three_seats(ev)->Ryukyoku_tehais is None,
        ev->Ryukyoku_delta is None <==> three_seats(ev)->Ryukyoku_delta is None,
        ev->Ryukyoku_scores is None <==> three_seats(ev)->Ryukyoku_scores is None,
        ev->Ryukyoku_tehais matches Some(all) ==> {
            let kept = three_seats(ev)->Ryukyoku_tehais.unwrap();
            &&& kept.len() == (if all.len() <= 3 {
                all.len()
            } else {
                3
            })
            &&& forall|i: int| 0 <= i < kept.len() ==> #[trigger] kept[i] == all[i]
        },
        ev->Ryukyoku_delta matches Some(all) ==> {
            let kept = three_seats(ev)->Ryukyoku_delta.unwrap();
            &&& kept.len() == (if all.len() <= 3 {
                all.len()
            } else {
                3
            })
            &&& forall|i: int| 0 <= i < kept.len() ==> #[trigger] kept[i] == all[i]
        },
        ev->Ryukyoku_scores matches Some(all) ==> {
            let kept = three_seats(ev)->Ryukyoku_scores.unwrap();
            &&& kept.len() == (if all.len() <= 3 {
                all.len()
            } else {
                3
            })
            &&& forall|i: int| 0 <= i < kept.len() ==> #[trigger] kept[i] == all[i]
        },
{
}

/// An event whose lists hold no more than three seats is left as it is.
pub proof fn law_events_of_three_seats_stay(ev: EventView)
    requires
        ev matches EventView::StartGame { names: Some(names), .. } ==> names.len() <= 3,
        ev matches EventView::StartKyoku { scores, tehais, .. } ==> scores.len() <= 3
            && tehais.len() <= 3,
        ev matches EventView::Hora { scores: Some(scores), .. } ==> scores.len() <= 3,
        ev matches EventView::Hora { delta: Some(delta), .. } ==> delta.len() <= 3,
        ev matches EventView::Ryukyoku { tehais: Some(tehais), .. } ==> tehais.len() <= 3,
        ev matches EventView::Ryukyoku { delta: Some(delta), .. } ==> delta.len() <= 3,
        ev matches EventView::Ryukyoku { scores: Some(scores), .. } ==> scores.len() <= 3,
    ensures
        three_seats(ev) == ev,
{
}

/// A line stands for the event that its text describes, white space around it
/// aside, wherever it describes one that the engine models; with three players
/// the text is read with the north-tile call renamed, and the event cut to three
/// seats. A line without text stands for none.
pub proof fn law_lines_stand_for_the_event_they_describe(line: Seq<char>, num_players: u8)
    ensures
        trimmed(line).len() == 0 ==> line_event(line, num_players) is None,
        num_players != 3 && trimmed(line).len() > 0 ==> (match event_in(trimmed(line)) {
            Some(ev) => if ev is Other {
                line_event(line, num_players) is None
            } else {
                line_event(line, num_players) == Some(ev)
            },
            None => line_event(line, num_players) is None,
        }),
        num_players == 3 && trimmed(line).len() > 0 ==> (match event_in(
            replaced(trimmed(line), "\"nukidora\""@, "\"kita\""@),
        ) {
            Some(ev) => if ev is Other {
                line_event(line, num_players) is None
            } else {
                line_event(line, num_players) == Some(three_seats(ev))
            },
            None => line_event(line, num_players) is None,
        }),
{
}

} // verus!
