//! Action ids, masks and tile notation.
use akagi_native::action_codec::{action_index, action_space, legal_mask, pass_index};
use akagi_native::geometry::{channels, obs_len, tile_dim};
use riichienv_core::action::{Action, ActionType};
use riichienv_core::parser::mjai_to_tid;

fn act(kind: ActionType, tile: Option<u8>, consumed: Vec<u8>) -> Action {
    Action::new(kind, tile, consumed, Some(0))
}

#[test]
fn action_spaces() {
    assert_eq!(action_space(4), 82);
    assert_eq!(action_space(3), 60);
    assert_eq!(action_space(7), 82);
    assert_eq!(pass_index(4), 81);
    assert_eq!(pass_index(3), 58);
}

#[test]
fn four_player_ids() {
    let id = |a: Action| action_index(&a, 4);
    assert_eq!(id(act(ActionType::Discard, Some(0), vec![])), Some(0));
    assert_eq!(id(act(ActionType::Discard, Some(135), vec![])), Some(33));
    assert_eq!(id(act(ActionType::Discard, None, vec![])), None);
    assert_eq!(id(act(ActionType::Riichi, None, vec![])), Some(37));
    // 4s called with 5s 6s, 5s with 4s 6s, 6s with 4s 5s.
    assert_eq!(id(act(ActionType::Chi, Some(84), vec![89, 92])), Some(38));
    assert_eq!(id(act(ActionType::Chi, Some(88), vec![84, 92])), Some(39));
    assert_eq!(id(act(ActionType::Chi, Some(92), vec![84, 88])), Some(40));
    assert_eq!(id(act(ActionType::Chi, Some(92), vec![84, 85])), None);
    assert_eq!(id(act(ActionType::Chi, None, vec![84, 88])), None);
    assert_eq!(id(act(ActionType::Pon, Some(4), vec![5, 6])), Some(41));
    assert_eq!(id(act(ActionType::Daiminkan, Some(4), vec![])), Some(43));
    assert_eq!(id(act(ActionType::Daiminkan, None, vec![4])), None);
    assert_eq!(id(act(ActionType::Ankan, None, vec![132, 133])), Some(75));
    assert_eq!(id(act(ActionType::Ankan, None, vec![])), None);
    assert_eq!(id(act(ActionType::Kakan, Some(8), vec![8])), Some(44));
    assert_eq!(id(act(ActionType::Ron, Some(3), vec![])), Some(79));
    assert_eq!(id(act(ActionType::Tsumo, None, vec![])), Some(79));
    assert_eq!(id(act(ActionType::KyushuKyuhai, None, vec![])), Some(80));
    assert_eq!(id(act(ActionType::Pass, None, vec![])), Some(81));
    assert_eq!(id(act(ActionType::Kita, None, vec![])), None);
}

#[test]
fn three_player_ids() {
    let id = |a: Action| action_index(&a, 3);
    assert_eq!(id(act(ActionType::Discard, Some(0), vec![])), Some(0));
    assert_eq!(id(act(ActionType::Discard, Some(4), vec![])), None);
    assert_eq!(id(act(ActionType::Discard, Some(32), vec![])), Some(1));
    assert_eq!(id(act(ActionType::Discard, Some(135), vec![])), Some(26));
    assert_eq!(id(act(ActionType::Riichi, None, vec![])), Some(27));
    assert_eq!(id(act(ActionType::Chi, Some(84), vec![88, 92])), None);
    assert_eq!(id(act(ActionType::Pon, Some(36), vec![37, 38])), Some(28));
    assert_eq!(id(act(ActionType::Daiminkan, Some(0), vec![])), Some(29));
    assert_eq!(id(act(ActionType::Ankan, None, vec![132])), Some(55));
    assert_eq!(id(act(ActionType::Ron, None, vec![])), Some(56));
    assert_eq!(id(act(ActionType::KyushuKyuhai, None, vec![])), Some(57));
    assert_eq!(id(act(ActionType::Pass, None, vec![])), Some(58));
    assert_eq!(id(act(ActionType::Kita, None, vec![])), Some(59));
}

#[test]
fn ids_of_existing_tiles_fit_and_only_passing_passes() {
    for n in [3, 4] {
        for t in 0..136u8 {
            for kind in [ActionType::Discard, ActionType::Daiminkan, ActionType::Ankan] {
                if let Some(i) = action_index(&act(kind, Some(t), vec![t]), n) {
                    assert!(i < action_space(n));
                    assert_ne!(i, pass_index(n));
                }
            }
        }
    }
}

#[test]
fn masks_mark_the_legal_ids() {
    let legal = vec![
        act(ActionType::Discard, Some(16), vec![]),
        act(ActionType::Discard, Some(17), vec![]),
        act(ActionType::Pass, None, vec![]),
        act(ActionType::Kita, None, vec![]),
    ];
    let mask = legal_mask(&legal, 4);
    assert_eq!(mask.len(), 82);
    let ones: Vec<usize> = (0..82).filter(|&i| mask[i] == 1).collect();
    assert_eq!(ones, vec![4, 81]);
    assert!(legal_mask(&Vec::new(), 3).iter().all(|&m| m == 0));
}

#[test]
fn consumed_tiles_are_sorted() {
    let a = act(ActionType::Pon, Some(9), vec![11, 8, 10]);
    assert_eq!(a.consume_tiles, vec![8, 10, 11]);
}

#[test]
fn mjai_notation() {
    let cases = [
        ("1m", Some(0)),
        ("4m", Some(12)),
        ("5m", Some(17)),
        ("5mr", Some(16)),
        ("0m", Some(16)),
        ("6m", Some(20)),
        ("9p", Some(68)),
        ("5sr", Some(88)),
        ("E", Some(108)),
        ("S", Some(112)),
        ("W", Some(116)),
        ("N", Some(120)),
        ("P", Some(124)),
        ("F", Some(128)),
        ("C", Some(132)),
        ("1z", Some(108)),
        ("7z", Some(132)),
        ("9z", Some(140)),
        ("0z", None),
        ("?", None),
        ("", None),
        ("xm", None),
        ("1x", None),
        ("5mx", Some(17)),
    ];
    for (text, tile) in cases {
        assert_eq!(mjai_to_tid(text), tile, "{text}");
    }
}

#[test]
fn observation_shapes() {
    assert_eq!((channels(4), tile_dim(4), obs_len(4)), (39, 34, 1326));
    assert_eq!((channels(3), tile_dim(3), obs_len(3)), (37, 27, 999));
}
