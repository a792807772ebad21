//! Replaying game logs.
use akagi_native::action_codec::{action_space, pass_index};
use akagi_native::engine::{Engine, Snapshot};
use akagi_native::mjai_compat::{keep_modelled, parse_line, truncate_seats};
use akagi_native::replay::{
    claimer, decision, discarder, replay_from, replay_game, Replay, ReplayError, Sample,
};
use riichienv_core::action::ActionType;
use riichienv_core::replay::MjaiEvent;

const AGARI_4P: u16 = 79;
const PASS_4P: u16 = 81;

/// Chinitsu tenpai waiting on 1p (`123p + 456p + 789p + 789p + 55p`).
/// Guaranteed yaku, so riichienv offers Ron on a 1p discard.
const RON_ON_1P: &str = r#"["2p","3p","4p","5p","6p","7p","8p","9p","7p","8p","9p","5p","5p"]"#;
/// Holds 1p to discard it; nothing else claimable.
const DISCARDS_1P: &str = r#"["1p","1m","9m","1s","9s","E","S","W","N","P","F","C","1m"]"#;
/// Holds two 1p, so a 1p discard gives it a pon option it declines.
const CAN_PON_1P: &str = r#"["1p","1p","2m","3m","4m","5m","6m","7m","8m","9m","1s","2s","3s"]"#;

const START_GAME: &str = r#"{"type":"start_game","names":["a","b","c","d"]}"#;

fn start_kyoku(seat_hands: [&str; 4]) -> String {
    let [s0, s1, s2, s3] = seat_hands;
    format!(
        r#"{{"type":"start_kyoku","bakaze":"E","dora_marker":"2m","kyoku":1,"honba":0,"kyotaku":0,"oya":0,"scores":[25000,25000,25000,25000],"tehais":[{s0},{s1},{s2},{s3}]}}"#
    )
}

fn game(seat_hands: [&str; 4], tail: &str) -> String {
    [
        START_GAME,
        &start_kyoku(seat_hands),
        r#"{"type":"tsumo","actor":0,"pai":"9s"}"#,
        r#"{"type":"dahai","actor":0,"pai":"1p","tsumogiri":false}"#,
        tail,
        r#"{"type":"end_kyoku"}"#,
    ]
    .join("\n")
}

fn samples(content: &str, num_players: u8) -> Vec<Sample> {
    match replay_game(content, num_players) {
        Ok(samples) => samples,
        Err(e) => panic!("refused: {e:?}"),
    }
}

/// Replay `content` and tally the emitted action labels.
fn labels(content: &str) -> Vec<u16> {
    samples(content, 4).iter().map(|s| s.action).collect()
}

fn refusal(content: &str, num_players: u8) -> ReplayError {
    match replay_game(content, num_players) {
        Ok(_) => panic!("replayed"),
        Err(e) => e,
    }
}

fn ev(line: &str) -> MjaiEvent {
    parse_line(line, 4).unwrap()
}

#[test]
fn double_ron_does_not_label_the_second_winner_as_pass() {
    let tail = [
        r#"{"type":"hora","actor":1,"target":0,"pai":"1p"}"#,
        r#"{"type":"hora","actor":2,"target":0,"pai":"1p"}"#,
    ]
    .join("\n");
    let content = game([DISCARDS_1P, RON_ON_1P, RON_ON_1P, CAN_PON_1P], &tail);
    let acts = labels(&content);

    let agari = acts.iter().filter(|&&a| a == AGARI_4P).count();
    let passes = acts.iter().filter(|&&a| a == PASS_4P).count();

    // The fixture must really offer Ron, or this test proves nothing.
    assert!(
        agari >= 1,
        "fixture invalid: no agari-labeled sample emitted (labels: {acts:?})"
    );
    assert_eq!(
        passes, 1,
        "exactly one seat (the pon-declining seat 3) may be labeled Pass (labels: {acts:?})"
    );
    assert_eq!(acts, vec![9, AGARI_4P, PASS_4P]);
}

#[test]
fn pon_claim_settles_the_window_for_other_responders() {
    // Seats 1 and 2 hold a ron; seat 3 pons instead. Seats 1 and 2 declined.
    let content = game(
        [DISCARDS_1P, RON_ON_1P, RON_ON_1P, CAN_PON_1P],
        r#"{"type":"pon","actor":3,"target":0,"pai":"1p","consumed":["1p","1p"]}"#,
    );
    let acts = labels(&content);
    let passes = acts.iter().filter(|&&a| a == PASS_4P).count();
    assert_eq!(
        passes, 2,
        "both declining ron seats must be labeled Pass (labels: {acts:?})"
    );
    assert_eq!(acts, vec![9, PASS_4P, PASS_4P, 41]);
}

#[test]
fn single_ron_still_passes_the_remaining_responders() {
    let content = game(
        [DISCARDS_1P, RON_ON_1P, CAN_PON_1P, CAN_PON_1P],
        r#"{"type":"hora","actor":1,"target":0,"pai":"1p"}"#,
    );
    let acts = labels(&content);
    let passes = acts.iter().filter(|&&a| a == PASS_4P).count();
    assert_eq!(
        passes, 2,
        "seats 2 and 3 declined their pon (labels: {acts:?})"
    );
    assert_eq!(acts, vec![9, AGARI_4P, PASS_4P, PASS_4P]);
}

#[test]
fn whoever_still_waits_at_the_end_of_the_log_passed() {
    let content = [
        START_GAME,
        &start_kyoku([DISCARDS_1P, RON_ON_1P, CAN_PON_1P, DISCARDS_1P]),
        r#"{"type":"tsumo","actor":0,"pai":"9s"}"#,
        r#"{"type":"dahai","actor":0,"pai":"1p","tsumogiri":false}"#,
    ]
    .join("\n");
    assert_eq!(labels(&content), vec![9, PASS_4P, PASS_4P]);
}

#[test]
fn every_sample_has_a_mask_that_allows_its_choice() {
    let content = game(
        [DISCARDS_1P, RON_ON_1P, RON_ON_1P, CAN_PON_1P],
        r#"{"type":"pon","actor":3,"target":0,"pai":"1p","consumed":["1p","1p"]}"#,
    );
    for s in samples(&content, 4) {
        assert_eq!(s.mask.len(), action_space(4));
        assert!(s.mask.iter().all(|&m| m == 0 || m == 1));
        if s.action == PASS_4P {
            let calls = s.mask.iter().enumerate();
            assert!(calls
                .filter(|&(i, _)| i != pass_index(4))
                .any(|(_, &m)| m == 1));
        } else {
            assert_eq!(s.mask[s.action as usize], 1);
        }
        assert!(matches!(s.obs, Snapshot::Four(_)));
    }
}

#[test]
fn skipped_lines_change_nothing() {
    let plain = game(
        [DISCARDS_1P, RON_ON_1P, RON_ON_1P, CAN_PON_1P],
        r#"{"type":"hora","actor":1,"target":0,"pai":"1p"}"#,
    );
    let noisy = plain.replace(
        "\n",
        "\r\n\n  \t\nnot json\n{\"type\":\"tsumo\"}\n{\"type\":\"chat\",\"text\":\"hi\"}\n",
    );
    assert_eq!(labels(&noisy), labels(&plain));
}

#[test]
fn an_empty_log_has_no_samples() {
    assert_eq!(labels(""), Vec::<u16>::new());
    assert_eq!(samples("\n\n", 3).len(), 0);
}

#[test]
fn a_seat_that_is_not_there_is_refused() {
    let content = game(
        [DISCARDS_1P, RON_ON_1P, RON_ON_1P, CAN_PON_1P],
        r#"{"type":"reach","actor":7}"#,
    );
    assert_eq!(refusal(&content, 4), ReplayError::NoSuchSeat);
}

#[test]
fn an_event_the_table_cannot_take_in_is_refused() {
    let content = game(
        [DISCARDS_1P, RON_ON_1P, RON_ON_1P, CAN_PON_1P],
        r#"{"type":"tsumo","actor":4,"pai":"1m"}"#,
    );
    assert_eq!(refusal(&content, 4), ReplayError::Unplayable);
    let short = game(
        [DISCARDS_1P, RON_ON_1P, RON_ON_1P, CAN_PON_1P],
        r#"{"type":"pon","actor":3,"target":0,"pai":"1p","consumed":["1p"]}"#,
    );
    assert_eq!(refusal(&short, 4), ReplayError::Unplayable);
}

fn started(seat_hands: [&str; 4]) -> Engine {
    let mut engine = Engine::new(4);
    for line in [START_GAME, &start_kyoku(seat_hands)] {
        let e = ev(line);
        assert!(engine.can_take(&e));
        engine.apply(e);
    }
    engine
}

#[test]
fn what_a_table_can_take_in() {
    let e = started([DISCARDS_1P, RON_ON_1P, RON_ON_1P, CAN_PON_1P]);
    for line in [
        r#"{"type":"tsumo","actor":3,"pai":"1m"}"#,
        r#"{"type":"tsumo","actor":0,"pai":"?"}"#,
        r#"{"type":"tsumo","actor":0,"pai":"9z"}"#,
        r#"{"type":"dora","dora_marker":"9z"}"#,
        r#"{"type":"ankan","actor":0,"consumed":[]}"#,
        r#"{"type":"dahai","actor":0,"pai":"9z","tsumogiri":true}"#,
        r#"{"type":"reach_accepted","actor":0}"#,
        r#"{"type":"kakan","actor":0,"pai":"1p"}"#,
        r#"{"type":"kita","actor":9}"#,
        r#"{"type":"end_game"}"#,
    ] {
        assert!(e.can_take(&ev(line)), "{line}");
    }
    for line in [
        r#"{"type":"tsumo","actor":4,"pai":"1m"}"#,
        r#"{"type":"dahai","actor":4,"pai":"1m","tsumogiri":true}"#,
        r#"{"type":"pon","actor":3,"target":0,"pai":"1p","consumed":["1p"]}"#,
        r#"{"type":"chi","actor":1,"target":0,"pai":"1p","consumed":[]}"#,
        r#"{"type":"kakan","actor":4,"pai":"1p"}"#,
        r#"{"type":"reach","actor":4}"#,
    ] {
        assert!(!e.can_take(&ev(line)), "{line}");
    }
    let three = Engine::new(3);
    assert!(!three.can_take(&ev(r#"{"type":"tsumo","actor":3,"pai":"1m"}"#)));
    assert!(!three.can_take(&ev(r#"{"type":"kita","actor":9}"#)));
    assert!(!three.can_take(&ev(&start_kyoku([DISCARDS_1P, RON_ON_1P, RON_ON_1P, CAN_PON_1P]))));
    assert!(!e.can_look(4));
    assert!((0..4).all(|seat| e.can_look(seat)));
}

#[test]
fn what_the_engine_takes_in_is_not_refused() {
    let hands = [DISCARDS_1P, RON_ON_1P, CAN_PON_1P, DISCARDS_1P];
    let content = [
        START_GAME,
        &start_kyoku(hands),
        r#"{"type":"tsumo","actor":0,"pai":"9s"}"#,
        r#"{"type":"dahai","actor":0,"pai":"1p","tsumogiri":false}"#,
        "",
    ]
    .join("\n");
    assert_eq!(labels(&content), vec![9, PASS_4P, PASS_4P]);
    for line in [
        r#"{"type":"dora","dora_marker":"9z"}"#,
        r#"{"type":"dora","dora_marker":"1m"}"#,
        r#"{"type":"tsumo","actor":1,"pai":"8z"}"#,
        r#"{"type":"reach_accepted","actor":2}"#,
        r#"{"type":"ryukyoku"}"#,
        r#"{"type":"end_kyoku"}"#,
    ] {
        assert_eq!(labels(&format!("{content}{line}")), vec![9, PASS_4P, PASS_4P], "{line}");
    }
    let with_ankan = format!(r#"{content}{{"type":"ankan","actor":1,"consumed":[]}}"#);
    assert_eq!(labels(&with_ankan), vec![9, PASS_4P, PASS_4P]);
    let oya_4 = content.replace(r#""oya":0"#, r#""oya":4"#);
    assert_eq!(labels(&oya_4), vec![9, PASS_4P, PASS_4P]);
    let oya_5 = content.replace(r#""oya":0"#, r#""oya":5"#);
    assert_eq!(refusal(&oya_5, 4), ReplayError::Unlookable);
}

#[test]
fn counters_that_would_overflow_are_refused() {
    let poor = start_kyoku([DISCARDS_1P, RON_ON_1P, RON_ON_1P, CAN_PON_1P])
        .replace("[25000,", "[-2147483648,");
    let content = [START_GAME, &poor, r#"{"type":"reach_accepted","actor":0}"#].join("\n");
    assert_eq!(refusal(&content, 4), ReplayError::Unplayable);
    let other = content.replace(r#""actor":0"#, r#""actor":1"#);
    assert_eq!(labels(&other), Vec::<u16>::new());

    let full = format!("[{}]", vec![r#""1p""#; 256].join(","));
    let content = [
        START_GAME,
        &start_kyoku([DISCARDS_1P, &full, RON_ON_1P, CAN_PON_1P]),
        r#"{"type":"reach","actor":1}"#,
    ]
    .join("\n");
    assert_eq!(refusal(&content, 4), ReplayError::Unlookable);
    let content = [
        START_GAME,
        &start_kyoku([DISCARDS_1P, &full, RON_ON_1P, CAN_PON_1P]),
        r#"{"type":"tsumo","actor":0,"pai":"9s"}"#,
        r#"{"type":"dahai","actor":0,"pai":"9s","tsumogiri":true}"#,
    ]
    .join("\n");
    assert_eq!(refusal(&content, 4), ReplayError::Unplayable);
}

fn after_draws(draws: &[&str], first: &str) -> String {
    let mut lines = vec![
        START_GAME.to_string(),
        start_kyoku([DISCARDS_1P, DISCARDS_1P, DISCARDS_1P, DISCARDS_1P]),
        first.to_string(),
    ];
    for pai in draws {
        lines.push(format!(r#"{{"type":"tsumo","actor":1,"pai":"{pai}"}}"#));
    }
    lines.push(r#"{"type":"tsumo","actor":0,"pai":"9s"}"#.to_string());
    lines.push(r#"{"type":"dahai","actor":0,"pai":"9s","tsumogiri":true}"#.to_string());
    lines.join("\n")
}

#[test]
fn many_draws_in_a_row_are_replayed_where_nobody_wins() {
    let suits = ["m", "p", "s"];
    let varied: Vec<String> = (0..70)
        .map(|i| format!("{}{}", i % 9 + 1, suits[i / 9 % 3]))
        .collect();
    let varied: Vec<&str> = varied.iter().map(|s| s.as_str()).collect();
    for draws in [vec!["E"; 70], vec!["1m"; 72], vec!["?"; 240]] {
        assert_eq!(labels(&after_draws(&draws, "")), vec![26]);
    }
    // Hidden tiles count as copies of the first, which make a winning hand, but the
    // 9s has no part in it.
    let hidden = after_draws(&vec!["?"; 70], r#"{"type":"dora","dora_marker":"1m"}"#).replacen(
        &format!("{DISCARDS_1P},{DISCARDS_1P}"),
        &format!("{DISCARDS_1P},[{}]", vec![r#""?""#; 13].join(",")),
        1,
    );
    assert!(hidden.contains(r#"["?","?""#));
    assert_eq!(labels(&hidden), vec![26]);
    // The wall is used up, so nobody could have called the 9s; a few draws earlier
    // seat 1, which has three of them, could.
    assert_eq!(labels(&after_draws(&varied, "")), vec![26]);
    assert_eq!(labels(&after_draws(&varied[..60], "")), vec![26, PASS_4P]);
}

#[test]
fn a_marker_that_is_no_tile_matters_only_where_a_hand_wins() {
    let marker = r#"{"type":"dora","dora_marker":"8z"}"#;
    assert_eq!(labels(&after_draws(&[], marker)), vec![26]);
    // Seats 1 and 2 would win on the 1p.
    let content = [
        START_GAME,
        &start_kyoku([DISCARDS_1P, RON_ON_1P, RON_ON_1P, CAN_PON_1P]),
        marker,
        r#"{"type":"tsumo","actor":0,"pai":"9s"}"#,
        r#"{"type":"dahai","actor":0,"pai":"1p","tsumogiri":false}"#,
    ]
    .join("\n");
    assert_eq!(refusal(&content, 4), ReplayError::Unplayable);
}

#[test]
fn a_search_without_end_is_refused() {
    let mut draws = Vec::new();
    for pai in ["2s", "3s", "4s"] {
        draws.extend(vec![pai; 60]);
    }
    assert_eq!(refusal(&after_draws(&draws, ""), 4), ReplayError::Unplayable);
}

#[test]
fn a_long_hand_that_the_engine_can_count_is_replayed() {
    // Hidden tiles are read as the first tile, and their discards are not found.
    let hidden = format!("[{}]", vec![r#""?""#; 30].join(","));
    let content = [
        START_GAME,
        &start_kyoku([DISCARDS_1P, &hidden, RON_ON_1P, &hidden]),
        r#"{"type":"tsumo","actor":0,"pai":"9s"}"#,
        r#"{"type":"dahai","actor":0,"pai":"9s","tsumogiri":true}"#,
    ]
    .join("\n");
    assert_eq!(labels(&content), vec![26]);
}

#[test]
fn empty_kans_are_refused_once_they_are_looked_at() {
    let start = [
        START_GAME,
        &start_kyoku([DISCARDS_1P, RON_ON_1P, RON_ON_1P, CAN_PON_1P]),
        r#"{"type":"ankan","actor":1,"consumed":[]}"#,
        "",
    ]
    .join("\n");
    let reach = format!(r#"{start}{{"type":"reach","actor":1}}"#);
    assert_eq!(refusal(&reach, 4), ReplayError::Unlookable);
    let tsumo = format!(r#"{start}{{"type":"tsumo","actor":0,"pai":"1m"}}"#);
    let dahai = format!("{tsumo}\n{}", r#"{"type":"dahai","actor":0,"pai":"1m","tsumogiri":true}"#);
    assert_eq!(refusal(&dahai, 4), ReplayError::Unplayable);
}

#[test]
fn every_number_of_players_but_three_means_four() {
    let content = game(
        [DISCARDS_1P, RON_ON_1P, RON_ON_1P, CAN_PON_1P],
        r#"{"type":"hora","actor":1,"target":0,"pai":"1p"}"#,
    );
    for n in [0, 1, 2, 4, 5, 255] {
        let acts: Vec<u16> = samples(&content, n).iter().map(|s| s.action).collect();
        assert_eq!(acts, labels(&content), "{n}");
    }
}

const SANMA_HAND: &str = r#"["1m","9m","1p","2p","3p","4p","5p","6p","7p","8p","9p","1s","N"]"#;
const SANMA_REST: &str = r#"["1m","9m","1s","9s","E","S","W","P","F","C","2s","4s","6s"]"#;

fn sanma(tail: &str) -> String {
    [
        r#"{"type":"start_game","names":["a","b","c",""]}"#,
        &start_kyoku([SANMA_HAND, SANMA_REST, SANMA_REST, "[]"])
            .replace("[25000,25000,25000,25000]", "[35000,35000,35000,0]"),
        r#"{"type":"tsumo","actor":0,"pai":"9s"}"#,
        tail,
    ]
    .join("\n")
}

#[test]
fn a_three_player_log_says_nukidora() {
    let found = samples(
        &sanma(r#"{"type":"nukidora","actor":0,"pai":"N"}"#),
        3,
    );
    let acts: Vec<u16> = found.iter().map(|s| s.action).collect();
    assert_eq!(acts, vec![59]);
    assert_eq!(found[0].mask.len(), 60);
    assert!(matches!(found[0].obs, Snapshot::Three(_)));
}

#[test]
fn a_tenhou_log_comes_to_the_same_as_one_with_kita_and_three_seats() {
    let tenhou = sanma(r#"{"type":"nukidora","actor":0,"pai":"N"}"#);
    let plain = tenhou
        .replace("nukidora", "kita")
        .replace("[35000,35000,35000,0]", "[35000,35000,35000]")
        .replace(r#""c",""]"#, r#""c"]"#)
        .replace(",[]]", "]");
    assert_ne!(plain, tenhou);
    let acts = |c: &str| -> Vec<u16> { samples(c, 3).iter().map(|s| s.action).collect() };
    assert_eq!(acts(&plain), acts(&tenhou));
    assert_eq!(acts(&plain), vec![59]);
}

#[test]
fn three_player_discards_have_ids_of_their_own() {
    let content = sanma(r#"{"type":"dahai","actor":0,"pai":"9m","tsumogiri":false}"#);
    let acts: Vec<u16> = samples(&content, 3).iter().map(|s| s.action).collect();
    assert_eq!(acts, vec![1]);
}

#[test]
fn replaying_in_parts_is_replaying_the_whole() {
    let content = game(
        [DISCARDS_1P, RON_ON_1P, RON_ON_1P, CAN_PON_1P],
        r#"{"type":"hora","actor":1,"target":0,"pai":"1p"}"#,
    );
    let mut r = Replay::new(Engine::new(4));
    for line in content.lines() {
        if let Some(e) = parse_line(line, 4) {
            r = match r.step(e) {
                Ok(next) => next,
                Err(e) => panic!("refused: {e:?}"),
            };
        }
    }
    let acts: Vec<u16> = r.finish().iter().map(|s| s.action).collect();
    assert_eq!(acts, labels(&content));
    let whole = replay_from(Engine::new(4), &content).ok().unwrap();
    assert_eq!(whole.len(), acts.len());
}

#[test]
fn the_window_opens_and_closes() {
    let log = [
        START_GAME,
        &start_kyoku([DISCARDS_1P, RON_ON_1P, RON_ON_1P, CAN_PON_1P]),
        r#"{"type":"tsumo","actor":0,"pai":"9s"}"#,
        r#"{"type":"dahai","actor":0,"pai":"1p","tsumogiri":false}"#,
    ]
    .join("\n");
    let mut r = Replay::new(Engine::new(4));
    for line in log.lines() {
        r = r.step(ev(line)).ok().unwrap();
    }
    let waiting: Vec<u8> = r.window.iter().map(|p| p.seat).collect();
    assert_eq!(waiting, vec![1, 2, 3]);
    assert!(!r.prev_was_hora);

    let hora = ev(r#"{"type":"hora","actor":2,"target":0,"pai":"1p"}"#);
    let r = r.settle(&hora);
    let waiting: Vec<u8> = r.window.iter().map(|p| p.seat).collect();
    assert_eq!(waiting, vec![1, 3]);
    assert_eq!(r.samples.len(), 1);

    let r = r.settle(&ev(r#"{"type":"end_kyoku"}"#));
    assert!(r.window.is_empty());
    assert_eq!(r.samples.len(), 3);
    assert_eq!(r.samples[2].action, PASS_4P);
}

#[test]
fn choices_of_a_log() {
    let (seat, a) = decision(&ev(r#"{"type":"dahai","actor":2,"pai":"5mr","tsumogiri":true}"#)).unwrap();
    assert_eq!(seat, 2);
    assert_eq!(a.action_type, ActionType::Discard);
    assert_eq!(a.tile, Some(16));
    assert_eq!(a.actor, Some(2));

    let (_, a) = decision(&ev(
        r#"{"type":"chi","actor":1,"target":0,"pai":"4s","consumed":["6s","5s"]}"#,
    ))
    .unwrap();
    assert_eq!(a.action_type, ActionType::Chi);
    assert_eq!(a.tile, Some(84));
    assert_eq!(a.consume_tiles, vec![89, 92]);

    let (_, a) = decision(&ev(r#"{"type":"kakan","actor":1,"pai":"E"}"#)).unwrap();
    assert_eq!(a.action_type, ActionType::Kakan);
    assert_eq!(a.consume_tiles, vec![108]);

    let (_, a) = decision(&ev(
        r#"{"type":"ankan","actor":1,"consumed":["C","?","C","C","C"]}"#,
    ))
    .unwrap();
    assert_eq!(a.action_type, ActionType::Ankan);
    assert_eq!(a.tile, None);
    assert_eq!(a.consume_tiles, vec![132, 132, 132, 132]);

    let (_, a) = decision(&ev(
        r#"{"type":"daiminkan","actor":1,"target":2,"pai":"1m","consumed":["1m","1m","1m"]}"#,
    ))
    .unwrap();
    assert_eq!(a.action_type, ActionType::Daiminkan);

    let (_, a) = decision(&ev(r#"{"type":"reach","actor":1}"#)).unwrap();
    assert_eq!(a.action_type, ActionType::Riichi);
    let (_, a) = decision(&ev(r#"{"type":"kita","actor":1}"#)).unwrap();
    assert_eq!(a.action_type, ActionType::Kita);
    let (_, a) = decision(&ev(r#"{"type":"hora","actor":1,"target":1}"#)).unwrap();
    assert_eq!(a.action_type, ActionType::Tsumo);
    let (_, a) = decision(&ev(r#"{"type":"hora","actor":1,"target":3}"#)).unwrap();
    assert_eq!(a.action_type, ActionType::Ron);
}

#[test]
fn progress_is_no_choice() {
    for line in [
        START_GAME,
        r#"{"type":"tsumo","actor":0,"pai":"1m"}"#,
        r#"{"type":"dora","dora_marker":"1m"}"#,
        r#"{"type":"reach_accepted","actor":0}"#,
        r#"{"type":"ryukyoku"}"#,
        r#"{"type":"end_kyoku"}"#,
        r#"{"type":"end_game"}"#,
    ] {
        let e = ev(line);
        assert!(decision(&e).is_none(), "{line}");
        assert!(claimer(&e).is_none(), "{line}");
        assert!(discarder(&e).is_none(), "{line}");
    }
}

#[test]
fn who_claims_and_who_discards() {
    let pon = ev(r#"{"type":"pon","actor":3,"target":0,"pai":"1p","consumed":["1p","1p"]}"#);
    assert_eq!(claimer(&pon), Some(3));
    assert_eq!(discarder(&pon), None);
    let hora = ev(r#"{"type":"hora","actor":1,"target":3}"#);
    assert_eq!(claimer(&hora), Some(1));
    // A win by self-draw answers no discard.
    let tsumo = ev(r#"{"type":"hora","actor":2,"target":2,"pai":"1p"}"#);
    assert_eq!(claimer(&tsumo), None);
    let dahai = ev(r#"{"type":"dahai","actor":2,"pai":"1m","tsumogiri":true}"#);
    assert_eq!(claimer(&dahai), None);
    assert_eq!(discarder(&dahai), Some(2));
    // A seat number is taken modulo 256.
    let far = ev(r#"{"type":"dahai","actor":258,"pai":"1m","tsumogiri":true}"#);
    assert_eq!(discarder(&far), Some(2));
    // An added or concealed kan claims no discard.
    let kakan = ev(r#"{"type":"kakan","actor":1,"pai":"E"}"#);
    assert_eq!(claimer(&kakan), None);
}

#[test]
fn lines_stand_for_events() {
    assert!(parse_line("", 4).is_none());
    assert!(parse_line(" \t ", 4).is_none());
    assert!(parse_line("{", 4).is_none());
    assert!(parse_line(r#"{"type":"nukidora","actor":1}"#, 4).is_none());
    assert!(matches!(
        parse_line(r#"  {"type":"nukidora","actor":1}  "#, 3),
        Some(MjaiEvent::Kita { actor: 1 })
    ));
    assert!(matches!(
        parse_line(r#"{"type":"kita","actor":2}"#, 4),
        Some(MjaiEvent::Kita { actor: 2 })
    ));
    assert!(keep_modelled(Some(MjaiEvent::Other), 4).is_none());
    assert!(keep_modelled(None, 3).is_none());
}

#[test]
fn three_player_logs_are_cut_to_three_seats() {
    let line = start_kyoku([DISCARDS_1P, RON_ON_1P, CAN_PON_1P, "[]"]);
    match parse_line(&line, 3) {
        Some(MjaiEvent::StartKyoku { scores, tehais, .. }) => {
            assert_eq!(scores, vec![25000, 25000, 25000]);
            assert_eq!(tehais.len(), 3);
            assert_eq!(tehais[2][0], "1p");
        }
        _ => panic!("no start_kyoku"),
    }
    match parse_line(&line, 4) {
        Some(MjaiEvent::StartKyoku { scores, tehais, .. }) => {
            assert_eq!(scores.len(), 4);
            assert_eq!(tehais.len(), 4);
        }
        _ => panic!("no start_kyoku"),
    }
    match parse_line(START_GAME, 3) {
        Some(MjaiEvent::StartGame { names, .. }) => {
            assert_eq!(names.unwrap(), vec!["a", "b", "c"]);
        }
        _ => panic!("no start_game"),
    }
    match truncate_seats(ev(
        r#"{"type":"ryukyoku","delta":[1,2,3,4],"scores":[5,6,7,8]}"#,
    )) {
        MjaiEvent::Ryukyoku { delta, scores, .. } => {
            assert_eq!(delta.unwrap(), vec![1, 2, 3]);
            assert_eq!(scores.unwrap(), vec![5, 6, 7]);
        }
        _ => panic!("no ryukyoku"),
    }
}

#[test]
fn a_fresh_table_has_its_seats() {
    assert_eq!(Engine::new(4).num_players(), 4);
    assert_eq!(Engine::new(3).num_players(), 3);
    assert_eq!(Engine::new(5).num_players(), 4);
    assert_eq!(Engine::new(0).num_players(), 4);
}

#[test]
fn a_seat_sees_what_it_may_do() {
    let mut engine = Engine::new(4);
    engine.apply(ev(START_GAME));
    engine.apply(ev(&start_kyoku([DISCARDS_1P, RON_ON_1P, RON_ON_1P, CAN_PON_1P])));
    engine.apply(ev(r#"{"type":"tsumo","actor":0,"pai":"9s"}"#));
    assert_eq!(engine.active_players(), vec![0]);
    let (seen, mask) = engine.sample_for(0);
    assert_eq!(mask.len(), 82);
    // 1p can be discarded, 2p is not in the hand.
    assert_eq!(mask[9], 1);
    assert_eq!(mask[10], 0);
    assert!(!seen.legal_actions().is_empty());
}
