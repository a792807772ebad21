//! Extracting training data.
use std::io::Write;

use akagi_native::extract::{
    extract_game, is_game_log, plan_shards, read_gz, samples_of, shard_file, GameBuffer, GameError,
    GameEvent, Meta, ShardAction, ShardRun,
};
use akagi_native::replay::ReplayError;
use flate2::write::GzEncoder;
use flate2::Compression;

fn gz(bytes: &[u8]) -> Vec<u8> {
    let mut e = GzEncoder::new(Vec::new(), Compression::default());
    e.write_all(bytes).unwrap();
    e.finish().unwrap()
}

#[test]
fn game_logs_by_name() {
    for name in ["a.json.gz", "x.gz", "..gz", "é.gz"] {
        assert!(is_game_log(name), "{name}");
        assert_eq!(
            std::path::Path::new(name).extension().and_then(|e| e.to_str()),
            Some("gz")
        );
    }
    for name in [".gz", "gz", "a.gzip", "a.json", "a.GZ", "", "agz", "a.gz.txt"] {
        assert!(!is_game_log(name), "{name}");
    }
}

#[test]
fn compressed_logs_are_read() {
    assert_eq!(read_gz(&gz(b"hello\n")).unwrap(), "hello\n");
    assert_eq!(read_gz(&gz("é日".as_bytes())).unwrap(), "é日");
    assert_eq!(read_gz(&gz(b"")).unwrap(), "");
}

#[test]
fn what_is_no_compressed_text_is_unreadable() {
    assert_eq!(read_gz(b"hello"), Err(GameError::Unreadable));
    assert_eq!(read_gz(b""), Err(GameError::Unreadable));
    assert_eq!(read_gz(&gz(&[0xff, 0xfe])), Err(GameError::Unreadable));
    let whole = gz(b"hello hello hello");
    assert_eq!(read_gz(&whole[..whole.len() - 9]), Err(GameError::Unreadable));
}

const HAND: &str = r#"["1m","2m","3m","4m","5m","6m","7m","8m","9m","1p","2p","3p","4p"]"#;

fn short_game(last: &str) -> String {
    [
        r#"{"type":"start_game","names":["a","b","c","d"]}"#,
        &format!(
            r#"{{"type":"start_kyoku","bakaze":"E","dora_marker":"2m","kyoku":1,"honba":0,"kyotaku":0,"oya":0,"scores":[25000,25000,25000,25000],"tehais":[{HAND},{HAND},{HAND},{HAND}]}}"#
        ),
        r#"{"type":"tsumo","actor":0,"pai":"5s"}"#,
        last,
    ]
    .join("\n")
}

fn outcome(raw: &[u8]) -> Result<Vec<u16>, GameError> {
    extract_game(raw, 4).map(|samples| samples.iter().map(|s| s.action).collect())
}

#[test]
fn a_game_has_samples_or_a_reason_why_not() {
    let good = short_game(r#"{"type":"dahai","actor":0,"pai":"5s","tsumogiri":true}"#);
    assert_eq!(outcome(&gz(good.as_bytes())), Ok(vec![22]));
    assert_eq!(outcome(b"nonsense"), Err(GameError::Unreadable));
    let bad = short_game(r#"{"type":"tsumo","actor":5,"pai":"5s"}"#);
    assert_eq!(
        outcome(&gz(bad.as_bytes())),
        Err(GameError::Replay(ReplayError::Unplayable))
    );
    let nobody = short_game(r#"{"type":"dahai","actor":5,"pai":"5s","tsumogiri":true}"#);
    assert_eq!(
        outcome(&gz(nobody.as_bytes())),
        Err(GameError::Replay(ReplayError::NoSuchSeat))
    );
    assert!(samples_of(Err(GameError::Unreadable), 4).is_err());
    assert_eq!(samples_of(Ok(good), 4).ok().unwrap().len(), 1);
}

#[test]
fn shards_partition_the_files() {
    for n_files in [0usize, 1, 2, 7, 15, 16, 17, 100, 1001] {
        for n_threads in [0usize, 1, 3, 4, 64] {
            let plan = plan_shards(n_files, n_threads);
            let wanted = (n_threads.max(1) * 4).min(n_files.max(1));
            let size = n_files.div_ceil(wanted.max(1)).max(1);
            let files: Vec<usize> = (0..n_files).collect();
            let expected: Vec<&[usize]> = files.chunks(size).collect();
            let got: Vec<&[usize]> = plan.iter().map(|&(lo, hi)| &files[lo..hi]).collect();
            assert_eq!(got, expected, "{n_files} {n_threads}");
            assert!(plan.len() <= wanted);
        }
    }
    assert_eq!(plan_shards(10, 1), vec![(0, 3), (3, 6), (6, 9), (9, 10)]);
}

#[test]
fn a_shard_reads_its_files_in_order() {
    let mut run = ShardRun::new(3, 6);
    let mut read = Vec::new();
    let mut events = vec![GameEvent::Written(7), GameEvent::Skipped, GameEvent::Written(2)];
    events.reverse();
    while let ShardAction::Read(i) = run.action(0, 100) {
        read.push(i);
        run = run.note(events.pop().unwrap());
    }
    assert_eq!(read, vec![3, 4, 5]);
    assert_eq!(run.samples, 9);
    assert!(events.is_empty());
}

#[test]
fn extraction_stops_at_its_cap() {
    let run = ShardRun::new(0, 2);
    assert_eq!(run.action(0, 1), ShardAction::Read(0));
    assert_eq!(run.action(1, 1), ShardAction::Finish);
    assert_eq!(run.action(0, 0), ShardAction::Finish);
    assert_eq!(run.action(5, usize::MAX), ShardAction::Read(0));
    assert_eq!(ShardRun::new(2, 2).action(0, 9), ShardAction::Finish);
}

#[test]
fn records_are_read_back() {
    let mut b = GameBuffer::new();
    assert_eq!((b.obs.len(), b.act.len(), b.msk.len(), b.count), (0, 0, 0, 0));
    b.emit(&[1, 2, 3], 0x0102, &[0, 1]);
    b.emit(&[4, 5, 6], 81, &[1, 1]);
    assert_eq!(b.obs, vec![1, 2, 3, 4, 5, 6]);
    assert_eq!(b.act, vec![2, 1, 81, 0]);
    assert_eq!(b.msk, vec![0, 1, 1, 1]);
    assert_eq!(b.count, 2);
    assert_eq!(u16::from_le_bytes([b.act[0], b.act[1]]), 0x0102);
}

#[test]
fn meta_describes_the_extraction() {
    let m = Meta::new(4, vec![3, 0, 5]).unwrap();
    assert_eq!(m.num_players, 4);
    assert_eq!((m.channels, m.tile_dim, m.obs_len), (39, 34, 1326));
    assert_eq!(m.action_space, 82);
    assert_eq!(m.num_shards, 3);
    assert_eq!(m.shard_samples, vec![3, 0, 5]);
    assert_eq!(m.total_samples, 8);
    let m = Meta::new(3, Vec::new()).unwrap();
    assert_eq!((m.num_shards, m.total_samples, m.action_space), (0, 0, 60));
    assert!(Meta::new(4, vec![usize::MAX, 1]).is_none());
}

#[test]
fn shard_files_have_names_of_their_own() {
    assert_eq!(shard_file(0, "obs"), "0.obs");
    assert_eq!(shard_file(12, "act"), "12.act");
    assert_ne!(shard_file(1, "msk"), shard_file(2, "msk"));
}
