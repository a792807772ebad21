//! Training-data extraction: which files are game logs, how they are shared out
//! to shards, and the bytes that a game's samples become.
use vstd::prelude::*;
use vstd::string::*;
use std::io::Read;
use flate2::read::GzDecoder;
use crate::action_codec::{action_count, action_space};
use crate::engine::Engine;
use crate::geometry::{channel_count, channels, obs_len, tile_dim, type_count, value_count};
use crate::replay::{replay_game, replay_result, sample_views, ReplayError, Sample, SampleView};
use crate::text::{
    chars_of, decimal, decimal_text, law_a_numeral_stands_for_its_number, law_decimal_digits,
    law_decimal_is_injective, value_of,
};

verus! {

/// Whether a file of this name is a compressed game log: it has the extension
/// `gz`, which needs a name before it.
pub open spec fn game_log(file_name: Seq<char>) -> bool {
    let n = file_name.len();
    n > 3 && file_name.skip(n - 3) == seq!['.', 'g', 'z']
}

/// Whether a file of this name is a compressed game log.
pub fn is_game_log(file_name: &str) -> (r: bool)
    ensures
        r == game_log(file_name@),
{
    let cs = chars_of(file_name);
    let n = cs.len();
    if n <= 3 {
        return false;
    }
    let r = cs[n - 3] == '.' && cs[n - 2] == 'g' && cs[n - 1] == 'z';
    proof {
        let end = file_name@.skip(n - 3);
        assert(end[0] == cs@[n - 3] && end[1] == cs@[n - 2] && end[2] == cs@[n - 1]);
        assert(r ==> end =~= seq!['.', 'g', 'z']);
    }
    r
}

/// The text that a gzip file holds; `None` where it is not gzip, or not text.
pub uninterp spec fn gz_text(raw: Seq<u8>) -> Option<Seq<char>>;

/// `flate2::read::GzDecoder`, read to its end as text: what a gzip file holds,
/// or nothing where the bytes are not gzip or the content is not UTF-8. The
/// bytes alone determine which.
#[verifier::external_body]
fn gunzip(raw: &[u8]) -> (r: Option<String>)
    ensures
        match r {
            Some(text) => gz_text(raw@) == Some(text@),
            None => gz_text(raw@) is None,
        },
{
    let mut text = String::new();
    match GzDecoder::new(raw).read_to_string(&mut text) {
        Ok(_) => Some(text),
        Err(_) => None,
    }
}

/// Why a game has no samples.
#[derive(Clone, Copy, PartialEq, Eq, Structural, Debug)]
pub enum GameError {
    /// The file does not hold compressed text.
    Unreadable,
    /// The log cannot be replayed to its end.
    Replay(ReplayError),
}

/// The text of a compressed log.
pub fn read_gz(raw: &[u8]) -> (r: Result<String, GameError>)
    ensures
        match r {
            Ok(text) => gz_text(raw@) == Some(text@),
            Err(e) => gz_text(raw@) is None && e == GameError::Unreadable,
        },
{
    match gunzip(raw) {
        Some(text) => Ok(text),
        None => Err(GameError::Unreadable),
    }
}

/// Whether `r` is what the text of a log, if there is one, comes to.
pub open spec fn comes_to(
    text: Option<Seq<char>>,
    num_players: u8,
    r: Result<Seq<SampleView>, GameError>,
) -> bool {
    match text {
        None => r == Err::<Seq<SampleView>, GameError>(GameError::Unreadable),
        Some(content) => exists|engine: Engine|
            engine.starts(num_players) && match #[trigger] replay_result(engine, content) {
                Ok(samples) => r == Ok::<Seq<SampleView>, GameError>(samples),
                Err(e) => r == Err::<Seq<SampleView>, GameError>(GameError::Replay(e)),
            },
    }
}

/// The samples of a log as mathematical values.
pub open spec fn outcome_view(r: Result<Vec<Sample>, GameError>) -> Result<
    Seq<SampleView>,
    GameError,
> {
    match r {
        Ok(samples) => Ok(sample_views(samples@)),
        Err(e) => Err(e),
    }
}

/// The samples of one game's text, if it could be read.
pub fn samples_of(text: Result<String, GameError>, num_players: u8) -> (r: Result<
    Vec<Sample>,
    GameError,
>)
    ensures
        match text {
            Ok(content) => comes_to(Some(content@), num_players, outcome_view(r)),
            Err(e) => r == Err::<Vec<Sample>, GameError>(e),
        },
{
    match text {
        Err(e) => Err(e),
        Ok(content) => match replay_game(content.as_str(), num_players) {
            Ok(samples) => Ok(samples),
            Err(e) => Err(GameError::Replay(e)),
        },
    }
}

/// The samples of one game's compressed log. A log that cannot be replayed to
/// its end has none, so no part of it is ever written.
pub fn extract_game(raw: &[u8], num_players: u8) -> (r: Result<Vec<Sample>, GameError>)
    ensures
        comes_to(gz_text(raw@), num_players, outcome_view(r)),
{
    samples_of(read_gz(raw), num_players)
}

/// How many runs of `size` it takes to cover `n`.
pub open spec fn runs_needed(n: nat, size: nat) -> nat
    recommends
        size > 0,
    decreases n,
{
    if n == 0 || size == 0 {
        0
    } else if n <= size {
        1
    } else {
        1 + runs_needed((n - size) as nat, size)
    }
}

/// The larger of two.
pub open spec fn larger(a: nat, b: nat) -> nat {
    if a < b {
        b
    } else {
        a
    }
}

/// The smaller of two.
pub open spec fn smaller(a: nat, b: nat) -> nat {
    if a < b {
        a
    } else {
        b
    }
}

/// How many shards are aimed at: four per thread, but not more than files.
pub open spec fn wanted_shards(n_files: nat, n_threads: nat) -> nat {
    smaller(larger(n_threads, 1) * 4, larger(n_files, 1))
}

/// How many files a shard has, but for the last, which may have fewer.
pub open spec fn files_per_shard(n_files: nat, n_threads: nat) -> nat {
    larger(runs_needed(n_files, wanted_shards(n_files, n_threads)), 1)
}

/// The `k`-th run of `size` files, up to the last file.
pub open spec fn chunk(n_files: nat, size: nat, k: nat) -> (nat, nat) {
    (k * size, smaller((k + 1) * size, n_files))
}

/// The runs of files that the shards get, as first and end index.
pub open spec fn shard_plan(n_files: nat, n_threads: nat) -> Seq<(nat, nat)> {
    let size = files_per_shard(n_files, n_threads);
    Seq::new(runs_needed(n_files, size), |k: int| chunk(n_files, size, k as nat))
}

/// Runs of files as mathematical values.
pub open spec fn runs(plan: Seq<(usize, usize)>) -> Seq<(nat, nat)> {
    plan.map_values(|c: (usize, usize)| (c.0 as nat, c.1 as nat))
}

/// How many runs of `size` it takes to cover `n`.
fn div_up(n: usize, size: usize) -> (r: usize)
    requires
        size > 0,
    ensures
        r == runs_needed(n as nat, size as nat),
{
    let q = n / size;
    let m = n % size;
    proof {
        vstd::arithmetic::div_mod::lemma_fundamental_div_mod(n as int, size as int);
        vstd::arithmetic::mul::lemma_mul_is_commutative(size as int, q as int);
        assert((q + 1) * size == q * size + size) by (nonlinear_arith);
        assert((q - 1) * size == q * size - size) by (nonlinear_arith);
        assert(q <= q * size) by (nonlinear_arith)
            requires
                size > 0,
        ;
        lemma_runs_needed_is(
            n as nat,
            size as nat,
            if m == 0 {
                q as nat
            } else {
                q as nat + 1
            },
        );
    }
    if m == 0 {
        q
    } else {
        q + 1
    }
}

/// A count whose runs of `size` just cover `n` is the number that it takes.
proof fn lemma_runs_needed_is(n: nat, size: nat, k: nat)
    requires
        size > 0,
        n <= k * size,
        k > 0 ==> (k - 1) * size < n,
    ensures
        runs_needed(n, size) == k,
    decreases n,
{
    if n == 0 {
        if k > 0 {
            assert((k - 1) * size >= 0) by (nonlinear_arith)
                requires
                    k > 0,
            ;
        }
    } else {
        assert(k > 0) by {
            if k == 0 {
                assert(k * size == 0) by (nonlinear_arith)
                    requires
                        k == 0,
                ;
            }
        }
        assert(k * size == (k - 1) * size + size) by (nonlinear_arith);
        if n <= size {
            if k > 1 {
                assert((k - 1) * size >= size) by (nonlinear_arith)
                    requires
                        k > 1,
                ;
            }
        } else {
            assert(k > 1) by {
                if k == 1 {
                    assert(k * size == size) by (nonlinear_arith)
                        requires
                            k == 1,
                    ;
                }
            }
            assert((k - 1) * size == (k - 2) * size + size) by (nonlinear_arith);
            lemma_runs_needed_is((n - size) as nat, size, (k - 1) as nat);
        }
    }
}

/// The runs of files that the shards get: one shard takes one run, and the
/// shards are about the same size.
pub fn plan_shards(n_files: usize, n_threads: usize) -> (plan: Vec<(usize, usize)>)
    requires
        n_threads <= usize::MAX / 4,
    ensures
        runs(plan@) == shard_plan(n_files as nat, n_threads as nat),
{
    let threads = if n_threads < 1 {
        1
    } else {
        n_threads
    };
    let at_least_one = if n_files < 1 {
        1
    } else {
        n_files
    };
    let n_shards = if threads * 4 < at_least_one {
        threads * 4
    } else {
        at_least_one
    };
    let per_shard = div_up(n_files, n_shards);
    let size: usize = if per_shard < 1 {
        1
    } else {
        per_shard
    };
    let mut plan: Vec<(usize, usize)> = Vec::new();
    let mut start: usize = 0;
    assert(plan@.len() * size as nat == 0) by (nonlinear_arith)
        requires
            plan@.len() == 0,
    ;
    while start < n_files
        invariant
            size > 0,
            start <= n_files,
            size == files_per_shard(n_files as nat, n_threads as nat),
            start == smaller(plan@.len() * size as nat, n_files as nat),
            plan@.len() > 0 ==> (plan@.len() - 1) * size < n_files,
            forall|k: int|
                0 <= k < plan@.len() ==> (plan@[k].0 as nat, plan@[k].1 as nat) == #[trigger] chunk(
                    n_files as nat,
                    size as nat,
                    k as nat,
                ),
        decreases n_files - start,
    {
        let end = if n_files - start < size {
            n_files
        } else {
            start + size
        };
        let ghost k = plan@.len();
        assert((k + 1) * size == k * size + size) by (nonlinear_arith);
        plan.push((start, end));
        start = end;
    }
    proof {
        lemma_runs_needed_is(n_files as nat, size as nat, plan@.len());
        let whole = shard_plan(n_files as nat, n_threads as nat);
        assert forall|k: int| 0 <= k < plan@.len() implies runs(plan@)[k] == whole[k] by {
            assert(whole[k] == chunk(n_files as nat, size as nat, k as nat));
        }
        assert(runs(plan@) =~= whole);
    }
    plan
}

/// What a shard does next.
#[derive(Clone, Copy, PartialEq, Eq, Structural, Debug)]
pub enum ShardAction {
    /// Read and replay the file of this index.
    Read(usize),
    /// Nothing more: close the shard.
    Finish,
}

/// What came of a file that a shard has read.
#[derive(Clone, Copy, PartialEq, Eq, Structural, Debug)]
pub enum GameEvent {
    /// The file was unreadable or its log refused: nothing was written.
    Skipped,
    /// The game was written, with so many samples.
    Written(usize),
}

/// The number of samples written in `event`.
pub open spec fn written(event: GameEvent) -> nat {
    match event {
        GameEvent::Skipped => 0,
        GameEvent::Written(n) => n as nat,
    }
}

/// The number of samples written in all of `events`.
pub open spec fn written_in(events: Seq<GameEvent>) -> nat
    decreases events.len(),
{
    if events.len() == 0 {
        0
    } else {
        written_in(events.drop_last()) + written(events.last())
    }
}

/// A shard at work on its run of files.
#[derive(Clone, Copy, PartialEq, Eq, Structural, Debug)]
pub struct ShardRun {
    /// The file to read next.
    pub next: usize,
    /// The end of the run.
    pub end: usize,
    /// How many samples the shard has written.
    pub samples: usize,
}

impl ShardRun {
    /// The beginning of the run of files from `first` to before `end`.
    pub fn new(first: usize, end: usize) -> (run: ShardRun)
        ensures
            run == (ShardRun { next: first, end, samples: 0 }),
    {
        ShardRun { next: first, end, samples: 0 }
    }

    /// What to do next, given how many samples all shards have written so far:
    /// read on while there are files and the cap is not reached. The cap is
    /// looked at between games; a game that is taken on is written whole.
    pub fn action(&self, total: usize, max_samples: usize) -> (r: ShardAction)
        ensures
            r == (if self.next < self.end && total < max_samples {
                ShardAction::Read(self.next)
            } else {
                ShardAction::Finish
            }),
    {
        if self.next < self.end && total < max_samples {
            ShardAction::Read(self.next)
        } else {
            ShardAction::Finish
        }
    }

    /// Whether the shard can go on after `event`.
    pub open spec fn can_take(self, event: GameEvent) -> bool {
        self.next < self.end && self.samples + written(event) <= usize::MAX
    }

    /// The shard after `event`.
    pub open spec fn after(self, event: GameEvent) -> ShardRun {
        ShardRun {
            next: (self.next + 1) as usize,
            end: self.end,
            samples: (self.samples + written(event)) as usize,
        }
    }

    /// Notes what came of the file that was read.
    pub fn note(self, event: GameEvent) -> (run: ShardRun)
        requires
            self.can_take(event),
        ensures
            run == self.after(event),
    {
        let n = match event {
            GameEvent::Skipped => 0,
            GameEvent::Written(n) => n,
        };
        ShardRun { next: self.next + 1, end: self.end, samples: self.samples + n }
    }

    /// The shard after `events`.
    pub open spec fn after_all(self, events: Seq<GameEvent>) -> ShardRun
        decreases events.len(),
    {
        if events.len() == 0 {
            self
        } else {
            self.after_all(events.drop_last()).after(events.last())
        }
    }

    /// A shard reads its files in order, each once, and its count is that of
    /// the samples it has written.
    pub proof fn law_shard_counts_what_it_writes(self, events: Seq<GameEvent>)
        requires
            self.next + events.len() <= self.end,
            self.samples + written_in(events) <= usize::MAX,
        ensures
            self.after_all(events).next == self.next + events.len(),
            self.after_all(events).end == self.end,
            self.after_all(events).samples == self.samples + written_in(events),
        decreases events.len(),
    {
        if events.len() > 0 {
            self.law_shard_counts_what_it_writes(events.drop_last());
        }
    }
}

/// One sample ready to be written: the observation in bytes, the action's id
/// and the mask.
pub struct RecordView {
    pub obs: Seq<u8>,
    pub action: u16,
    pub mask: Seq<u8>,
}

/// The two bytes of an action's id, the lesser first.
pub open spec fn action_bytes(action: u16) -> Seq<u8> {
    seq![(action % 256) as u8, (action / 256) as u8]
}

/// Pieces one after another.
pub open spec fn joined(pieces: Seq<Seq<u8>>) -> Seq<u8>
    decreases pieces.len(),
{
    if pieces.len() == 0 {
        Seq::empty()
    } else {
        joined(pieces.drop_last()) + pieces.last()
    }
}

/// The bytes of the observations, one after another.
pub open spec fn obs_bytes(records: Seq<RecordView>) -> Seq<u8> {
    joined(records.map_values(|r: RecordView| r.obs))
}

/// The bytes of the actions' ids, one after another.
pub open spec fn act_bytes(records: Seq<RecordView>) -> Seq<u8> {
    joined(records.map_values(|r: RecordView| action_bytes(r.action)))
}

/// The masks, one after another.
pub open spec fn msk_bytes(records: Seq<RecordView>) -> Seq<u8> {
    joined(records.map_values(|r: RecordView| r.mask))
}

/// One more piece goes to the end.
proof fn lemma_joined_push(records: Seq<RecordView>, r: RecordView, f: spec_fn(RecordView) -> Seq<u8>)
    ensures
        joined(records.push(r).map_values(f)) == joined(records.map_values(f)) + f(r),
{
    assert(records.push(r).map_values(f).drop_last() =~= records.map_values(f));
}

/// Pieces of one size are found again at the multiples of that size.
proof fn lemma_joined_piece(pieces: Seq<Seq<u8>>, size: nat, k: int)
    requires
        forall|i: int| 0 <= i < pieces.len() ==> (#[trigger] pieces[i]).len() == size,
        0 <= k < pieces.len(),
    ensures
        joined(pieces).len() == pieces.len() * size,
        0 <= k * size <= (k + 1) * size <= joined(pieces).len(),
        joined(pieces).subrange(k * size, (k + 1) * size) == pieces[k],
    decreases pieces.len(),
{
    let before = pieces.drop_last();
    let n = before.len();
    assert((n + 1) * size == n * size + size) by (nonlinear_arith);
    assert((k + 1) * size == k * size + size) by (nonlinear_arith);
    assert(k * size >= 0) by (nonlinear_arith)
        requires
            k >= 0,
    ;
    assert(joined(before).len() == n * size) by {
        if n > 0 {
            lemma_joined_piece(before, size, 0);
        } else {
            assert(0 * size == 0);
        }
    }
    if k < n {
        lemma_joined_piece(before, size, k);
        assert(joined(pieces).subrange(k * size, (k + 1) * size) =~= joined(before).subrange(
            k * size,
            (k + 1) * size,
        ));
    } else {
        assert(joined(pieces).subrange(k * size, (k + 1) * size) =~= pieces[k]);
    }
}

/// The bytes that one game adds to the files of a shard. They are collected
/// first and written only when the whole game has been replayed, so that a
/// game that fails midway leaves no torn record.
#[derive(Debug, Clone)]
pub struct GameBuffer {
    pub obs: Vec<u8>,
    pub act: Vec<u8>,
    pub msk: Vec<u8>,
    pub count: usize,
}

impl GameBuffer {
    /// Whether the buffer holds these records and nothing else.
    pub open spec fn holds(self, records: Seq<RecordView>) -> bool {
        &&& self.obs@ == obs_bytes(records)
        &&& self.act@ == act_bytes(records)
        &&& self.msk@ == msk_bytes(records)
        &&& self.count == records.len()
    }

    /// A buffer without records.
    pub fn new() -> (b: GameBuffer)
        ensures
            b.holds(Seq::empty()),
    {
        let b = GameBuffer { obs: Vec::new(), act: Vec::new(), msk: Vec::new(), count: 0 };
        assert(b.obs@ =~= obs_bytes(Seq::empty()));
        assert(b.act@ =~= act_bytes(Seq::empty()));
        assert(b.msk@ =~= msk_bytes(Seq::empty()));
        b
    }

    /// Adds one record.
    pub fn emit(&mut self, obs: &[u8], action: u16, mask: &[u8])
        requires
            old(self).count < usize::MAX,
        ensures
            final(self).obs@ == old(self).obs@ + obs@,
            final(self).act@ == old(self).act@ + action_bytes(action),
            final(self).msk@ == old(self).msk@ + mask@,
            final(self).count == old(self).count + 1,
            forall|records: Seq<RecordView>| #[trigger]
                old(self).holds(records) ==> final(self).holds(
                    records.push(RecordView { obs: obs@, action, mask: mask@ }),
                ),
    {
        self.obs.extend_from_slice(obs);
        self.act.push((action % 256) as u8);
        self.act.push((action / 256) as u8);
        self.msk.extend_from_slice(mask);
        self.count = self.count + 1;
        proof {
            assert(self.obs@ =~= old(self).obs@ + obs@);
            assert(self.act@ =~= old(self).act@ + action_bytes(action));
            assert(self.msk@ =~= old(self).msk@ + mask@);
            assert forall|records: Seq<RecordView>| #[trigger]
                old(self).holds(records) implies self.holds(
                records.push(RecordView { obs: obs@, action, mask: mask@ }),
            ) by {
                let r = RecordView { obs: obs@, action, mask: mask@ };
                lemma_joined_push(records, r, |r: RecordView| r.obs);
                lemma_joined_push(records, r, |r: RecordView| action_bytes(r.action));
                lemma_joined_push(records, r, |r: RecordView| r.mask);
            }
        }
    }
}

/// What is written about a whole extraction.
#[derive(Debug, Clone)]
pub struct Meta {
    pub num_players: u8,
    pub channels: usize,
    pub tile_dim: usize,
    pub action_space: usize,
    pub obs_len: usize,
    pub num_shards: usize,
    pub shard_samples: Vec<usize>,
    pub total_samples: usize,
}

/// The sum of some counts.
pub open spec fn sum_of(counts: Seq<usize>) -> nat
    decreases counts.len(),
{
    if counts.len() == 0 {
        0
    } else {
        sum_of(counts.drop_last()) + counts.last() as nat
    }
}

/// The sum of the first counts is no larger than the whole.
proof fn lemma_sum_of_take(counts: Seq<usize>, k: int)
    requires
        0 <= k <= counts.len(),
    ensures
        sum_of(counts.take(k)) <= sum_of(counts),
    decreases counts.len() - k,
{
    if k < counts.len() {
        assert(counts.take(k + 1).drop_last() =~= counts.take(k));
        lemma_sum_of_take(counts, k + 1);
    } else {
        assert(counts.take(k) =~= counts);
    }
}

impl Meta {
    /// What is written about an extraction whose shards have so many samples
    /// each; nothing where their sum is out of range.
    pub fn new(num_players: u8, shard_samples: Vec<usize>) -> (r: Option<Meta>)
        ensures
            match r {
                Some(m) => {
                    &&& m.num_players == num_players
                    &&& m.channels == channel_count(num_players)
                    &&& m.tile_dim == type_count(num_players)
                    &&& m.action_space == action_count(num_players)
                    &&& m.obs_len == value_count(num_players)
                    &&& m.num_shards == shard_samples@.len()
                    &&& m.shard_samples@ == shard_samples@
                    &&& m.total_samples == sum_of(shard_samples@)
                },
                None => sum_of(shard_samples@) > usize::MAX,
            },
    {
        let mut total: usize = 0;
        for k in 0..shard_samples.len()
            invariant
                total == sum_of(shard_samples@.take(k as int)),
        {
            proof {
                assert(shard_samples@.take(k + 1).drop_last() =~= shard_samples@.take(k as int));
                lemma_sum_of_take(shard_samples@, k + 1);
            }
            match total.checked_add(shard_samples[k]) {
                Some(sum) => {
                    total = sum;
                },
                None => {
                    return None;
                },
            }
        }
        assert(shard_samples@.take(shard_samples@.len() as int) =~= shard_samples@);
        Some(
            Meta {
                num_players,
                channels: channels(num_players),
                tile_dim: tile_dim(num_players),
                action_space: action_space(num_players),
                obs_len: obs_len(num_players),
                num_shards: shard_samples.len(),
                shard_samples,
                total_samples: total,
            },
        )
    }
}

/// The name of a file of shard `k`, by its extension.
pub open spec fn shard_name(k: nat, ext: Seq<char>) -> Seq<char> {
    decimal(k) + "."@ + ext
}

/// The name of a file of shard `k`: `obs` for the observations, `act` for the
/// actions, `msk` for the masks.
pub fn shard_file(k: usize, ext: &str) -> (r: String)
    ensures
        r@ == shard_name(k as nat, ext@),
{
    let mut name = decimal_text(k as u64);
    name.append(".");
    name.append(ext);
    name
}

/// Whether the records have the shape of a game of `num_players`.
pub open spec fn shaped(records: Seq<RecordView>, num_players: u8) -> bool {
    forall|i: int|
        0 <= i < records.len() ==> (#[trigger] records[i]).obs.len() == value_count(num_players)
            && records[i].mask.len() == action_count(num_players)
}

/// A buffer of records of one shape is as long as its number of records
/// declares, and each record is read back from its place in the three files.
pub proof fn law_records_read_back(
    b: GameBuffer,
    records: Seq<RecordView>,
    num_players: u8,
    k: int,
)
    requires
        b.holds(records),
        shaped(records, num_players),
        0 <= k < records.len(),
    ensures
        b.obs@.len() == b.count * value_count(num_players),
        b.act@.len() == b.count * 2,
        b.msk@.len() == b.count * action_count(num_players),
        b.obs@.subrange(
            k * value_count(num_players),
            (k + 1) * value_count(num_players),
        ) == records[k].obs,
        b.act@[2 * k] + 256 * b.act@[2 * k + 1] == records[k].action,
        b.msk@.subrange(
            k * action_count(num_players),
            (k + 1) * action_count(num_players),
        ) == records[k].mask,
{
    lemma_joined_piece(records.map_values(|r: RecordView| r.obs), value_count(num_players), k);
    lemma_joined_piece(records.map_values(|r: RecordView| r.mask), action_count(num_players), k);
    let acts = records.map_values(|r: RecordView| action_bytes(r.action));
    lemma_joined_piece(acts, 2, k);
    assert(acts[k][0] == b.act@[2 * k]);
    assert(acts[k][1] == b.act@[2 * k + 1]);
}

/// The shards partition the files in order: the first starts with the first
/// file, each starts where the one before ends, the last ends with the last
/// file, and none is empty. There are no more of them than are aimed at.
pub proof fn law_shards_partition_the_files(n_files: nat, n_threads: nat)
    ensures
        ({
            let plan = shard_plan(n_files, n_threads);
            &&& plan.len() <= wanted_shards(n_files, n_threads)
            &&& n_files == 0 <==> plan.len() == 0
            &&& n_files > 0 ==> plan[0].0 == 0 && plan.last().1 == n_files
            &&& forall|k: int|
                0 <= k < plan.len() ==> (#[trigger] plan[k]).0 < plan[k].1 <= n_files
            &&& forall|k: int|
                #![trigger plan[k], plan[k + 1]]
                0 <= k < plan.len() - 1 ==> plan[k].1 == plan[k + 1].0
        }),
{
    let wanted = wanted_shards(n_files, n_threads);
    let size = files_per_shard(n_files, n_threads);
    let plan = shard_plan(n_files, n_threads);
    lemma_runs_needed_cover(n_files, wanted);
    lemma_runs_needed_cover(n_files, size);
    let count = plan.len();
    if n_files > 0 {
        let even = runs_needed(n_files, wanted);
        assert(even > 0) by {
            if even == 0 {
                assert(even * wanted == 0) by (nonlinear_arith)
                    requires
                        even == 0,
                ;
            }
        }
        assert(size == even);
        if count > wanted {
            assert((count - 1) * size >= wanted * even) by (nonlinear_arith)
                requires
                    count > wanted,
                    size == even,
            ;
            assert(wanted * even == even * wanted) by (nonlinear_arith);
        }
        assert(count > 0) by {
            if count == 0 {
                assert(count * size == 0) by (nonlinear_arith)
                    requires
                        count == 0,
                ;
            }
        }
        assert(0 * size == 0);
        assert(plan[0] == chunk(n_files, size, 0));
        assert(plan.last() == chunk(n_files, size, (count - 1) as nat));
        assert(((count - 1) as nat + 1) * size == count * size);
    }
    assert forall|k: int| 0 <= k < plan.len() implies (#[trigger] plan[k]).0 < plan[k].1
        <= n_files by {
        assert(plan[k] == chunk(n_files, size, k as nat));
        assert(k * size <= (count - 1) * size) by (nonlinear_arith)
            requires
                k <= count - 1,
        ;
        assert((k + 1) * size == k * size + size) by (nonlinear_arith);
    }
    assert forall|k: int|
        #![trigger plan[k], plan[k + 1]]
        0 <= k < plan.len() - 1 implies plan[k].1 == plan[k + 1].0 by {
        assert(plan[k] == chunk(n_files, size, k as nat));
        assert(plan[k + 1] == chunk(n_files, size, (k + 1) as nat));
        assert((k + 1) * size <= (count - 1) * size) by (nonlinear_arith)
            requires
                k + 1 <= count - 1,
        ;
    }
}

/// The runs that it takes cover `n`, and one fewer would not.
proof fn lemma_runs_needed_cover(n: nat, size: nat)
    requires
        size > 0,
    ensures
        n <= runs_needed(n, size) * size,
        runs_needed(n, size) > 0 ==> (runs_needed(n, size) - 1) * size < n,
        n == 0 ==> runs_needed(n, size) == 0,
    decreases n,
{
    let k = runs_needed(n, size);
    assert(k * size == (k - 1) * size + size) by (nonlinear_arith);
    if n == 0 {
    } else if n <= size {
        assert((k - 1) * size == 0) by (nonlinear_arith)
            requires
                k == 1,
        ;
    } else {
        lemma_runs_needed_cover((n - size) as nat, size);
        assert((k - 1) * size == (k - 2) * size + size) by (nonlinear_arith);
    }
}

/// No two shards share a file.
pub proof fn law_shards_have_files_of_their_own(j: nat, ext_j: Seq<char>, k: nat, ext_k: Seq<char>)
    requires
        shard_name(j, ext_j) == shard_name(k, ext_k),
    ensures
        j == k,
        ext_j == ext_k,
{
    reveal_strlit(".");
    law_decimal_digits(j);
    law_decimal_digits(k);
    let a = decimal(j);
    let b = decimal(k);
    let name = shard_name(j, ext_j);
    assert(name[a.len() as int] == '.');
    assert(name[b.len() as int] == '.');
    assert forall|i: int| 0 <= i < a.len() implies name[i] != '.' by {
        assert(name[i] == a[i]);
    }
    assert forall|i: int| 0 <= i < b.len() implies name[i] != '.' by {
        assert(name[i] == b[i]);
    }
    assert(a.len() == b.len());
    assert(a =~= name.take(a.len() as int));
    assert(b =~= name.take(b.len() as int));
    law_decimal_is_injective(j, k);
    assert(ext_j =~= name.skip(a.len() as int + 1));
    assert(ext_k =~= name.skip(a.len() as int + 1));
}

/// The files of game logs are those whose name has `.gz` behind a stem of at least
/// one character.
pub proof fn law_which_files_are_game_logs(stem: Seq<char>, name: Seq<char>)
    ensures
        stem.len() > 0 ==> game_log(stem + seq!['.', 'g', 'z']),
        game_log(name) ==> name.len() > 3 && name == name.take(name.len() - 3) + seq![
            '.',
            'g',
            'z',
        ],
{
    let named = stem + seq!['.', 'g', 'z'];
    assert(named.skip(named.len() - 3) =~= seq!['.', 'g', 'z']);
    if game_log(name) {
        assert(name =~= name.take(name.len() - 3) + name.skip(name.len() - 3));
    }
}

/// The shards are of one size but for the last, which takes what is left. The
/// size is the least with which four shards per thread are enough, or as many
/// shards as there are files where those are fewer.
pub proof fn law_shards_are_even(n_files: nat, n_threads: nat) -> (size: nat)
    requires
        n_files > 0,
    ensures
        size > 0,
        ({
            let per_thread = if n_threads == 0 {
                4
            } else {
                4 * n_threads
            };
            let most = if n_files < per_thread {
                n_files as int
            } else {
                per_thread as int
            };
            &&& n_files <= size * most
            &&& (size - 1) * most < n_files
            &&& shard_plan(n_files, n_threads).len() <= most
        }),
        forall|k: int|
            0 <= k < shard_plan(n_files, n_threads).len() ==> (#[trigger] shard_plan(
                n_files,
                n_threads,
            )[k]).0 == k * size && shard_plan(n_files, n_threads)[k].1 == (if (k + 1) * size
                <= n_files {
                (k + 1) * size
            } else {
                n_files as int
            }),
        n_files <= shard_plan(n_files, n_threads).len() * size,
        (shard_plan(n_files, n_threads).len() - 1) * size < n_files,
{
    let most = wanted_shards(n_files, n_threads);
    let size = files_per_shard(n_files, n_threads);
    let n = shard_plan(n_files, n_threads).len();
    lemma_runs_needed_cover(n_files, most);
    lemma_runs_needed_cover(n_files, size);
    law_shards_partition_the_files(n_files, n_threads);
    assert(runs_needed(n_files, most) > 0) by {
        if runs_needed(n_files, most) == 0 {
            assert(0 * most == 0) by (nonlinear_arith);
        }
    }
    assert forall|k: int| 0 <= k < n implies (#[trigger] shard_plan(n_files, n_threads)[k]).0 == k
        * size && shard_plan(n_files, n_threads)[k].1 == (if (k + 1) * size <= n_files {
        (k + 1) * size
    } else {
        n_files as int
    }) by {
        assert(0 <= k * size) by (nonlinear_arith)
            requires
                0 <= k,
        ;
    }
    size
}

/// A plan tells for each shard where its files start and end, in order.
pub proof fn law_plans_are_read_shard_by_shard(plan: Seq<(usize, usize)>)
    ensures
        runs(plan).len() == plan.len(),
        forall|k: int|
            0 <= k < plan.len() ==> (#[trigger] runs(plan)[k]).0 == plan[k].0 && runs(plan)[k].1
                == plan[k].1,
{
}

/// A game that was written counts with its samples, one that was skipped with
/// none, and the next file is up either way.
pub proof fn law_a_game_is_counted_once(run: ShardRun, event: GameEvent)
    requires
        run.can_take(event),
    ensures
        event is Skipped ==> run.after(event).samples == run.samples,
        event matches GameEvent::Written(n) ==> run.after(event).samples == run.samples + n,
        run.after(event).next == run.next + 1,
        run.after(event).end == run.end,
{
}

/// A shard takes a game while it has a file left and its count stays a number
/// that fits.
pub proof fn law_when_a_shard_takes_a_game(run: ShardRun, event: GameEvent)
    ensures
        event is Skipped ==> (run.can_take(event) <==> run.next < run.end),
        event matches GameEvent::Written(n) ==> (run.can_take(event) <==> run.next < run.end
            && run.samples + n <= usize::MAX),
{
}

/// Each record adds its own bytes behind those before it: the observation and the
/// mask as they are, the action in two bytes, the low one first.
pub proof fn law_records_follow_one_another(records: Seq<RecordView>, r: RecordView)
    ensures
        obs_bytes(Seq::empty()).len() == 0,
        act_bytes(Seq::empty()).len() == 0,
        msk_bytes(Seq::empty()).len() == 0,
        obs_bytes(records.push(r)) == obs_bytes(records) + r.obs,
        msk_bytes(records.push(r)) == msk_bytes(records) + r.mask,
        act_bytes(records.push(r)).len() == act_bytes(records).len() + 2,
        act_bytes(records.push(r)).take(act_bytes(records).len() as int) == act_bytes(records),
        act_bytes(records.push(r))[act_bytes(records).len() as int] + 256 * act_bytes(
            records.push(r),
        )[act_bytes(records).len() as int + 1] == r.action,
{
    lemma_joined_push(records, r, |x: RecordView| x.obs);
    lemma_joined_push(records, r, |x: RecordView| action_bytes(x.action));
    lemma_joined_push(records, r, |x: RecordView| x.mask);
    assert(act_bytes(records.push(r)).take(act_bytes(records).len() as int) =~= act_bytes(records));
    let none = Seq::<RecordView>::empty();
    assert(none.map_values(|x: RecordView| x.obs).len() == 0);
    assert(none.map_values(|x: RecordView| action_bytes(x.action)).len() == 0);
    assert(none.map_values(|x: RecordView| x.mask).len() == 0);
}

/// The samples of all shards together are those of each, in whatever groups they
/// are counted.
pub proof fn law_counts_add_up(a: Seq<usize>, b: Seq<usize>, n: usize)
    ensures
        sum_of(a + b) == sum_of(a) + sum_of(b),
        sum_of(seq![n]) == n,
        sum_of(Seq::empty()) == 0,
    decreases b.len(),
{
    assert(seq![n].drop_last() =~= Seq::<usize>::empty());
    assert(sum_of(Seq::<usize>::empty()) == 0);
    assert(seq![n].last() == n);
    if b.len() == 0 {
        assert(a + b =~= a);
    } else {
        law_counts_add_up(a, b.drop_last(), n);
        assert((a + b).drop_last() =~= a + b.drop_last());
        assert((a + b).last() == b.last());
    }
}

/// The file of a shard is named by the numeral of the shard, a dot and the
/// extension.
pub proof fn law_how_shard_files_are_named(k: nat, ext: Seq<char>) -> (dot: int)
    ensures
        0 < dot < shard_name(k, ext).len(),
        value_of(shard_name(k, ext).take(dot)) == k,
        shard_name(k, ext).take(dot) == decimal(k),
        shard_name(k, ext)[dot] == '.',
        shard_name(k, ext).skip(dot + 1) == ext,
{
    reveal_strlit(".");
    let dot = decimal(k).len() as int;
    law_a_numeral_stands_for_its_number(k);
    assert(shard_name(k, ext).take(dot) =~= decimal(k));
    assert(shard_name(k, ext).skip(dot + 1) =~= ext);
    dot
}

/// A file that cannot be read comes to that refusal and nothing else; one that can
/// comes to what a table of that many players makes of its text, samples and
/// refusals alike.
pub proof fn law_what_a_game_comes_to(
    text: Option<Seq<char>>,
    num_players: u8,
    r: Result<Seq<SampleView>, GameError>,
)
    requires
        comes_to(text, num_players, r),
    ensures
        text is None <==> r == Err::<Seq<SampleView>, GameError>(GameError::Unreadable),
        text matches Some(content) ==> exists|engine: Engine| #[trigger]
            engine.starts(num_players) && match r {
                Ok(samples) => replay_result(engine, content) == Ok::<
                    Seq<SampleView>,
                    ReplayError,
                >(samples),
                Err(GameError::Replay(e)) => replay_result(engine, content) == Err::<
                    Seq<SampleView>,
                    ReplayError,
                >(e),
                Err(GameError::Unreadable) => false,
            },
{
    if let Some(content) = text {
        let engine = choose|engine: Engine|
            engine.starts(num_players) && match #[trigger] replay_result(engine, content) {
                Ok(samples) => r == Ok::<Seq<SampleView>, GameError>(samples),
                Err(e) => r == Err::<Seq<SampleView>, GameError>(GameError::Replay(e)),
            };
        assert(engine.starts(num_players));
    }
}

/// What the samples of a game say is said sample by sample, and a refusal stays
/// as it is.
pub proof fn law_outcomes_are_read_sample_by_sample(r: Result<Vec<Sample>, GameError>)
    ensures
        r matches Err(e) ==> outcome_view(r) == Err::<Seq<SampleView>, GameError>(e),
        r matches Ok(samples) ==> (outcome_view(r) matches Ok(views) && views.len()
            == samples@.len() && forall|i: int|
            0 <= i < views.len() ==> (#[trigger] views[i]).obs == samples@[i].obs
                && views[i].action == samples@[i].action && views[i].mask == samples@[i].mask@),
{
}

/// A shard goes on to its next file while it has one and the samples of all
/// shards together are not yet as many as wanted; otherwise it is done.
pub proof fn law_when_a_shard_goes_on(
    run: ShardRun,
    total: usize,
    max_samples: usize,
    r: ShardAction,
)
    requires
        call_ensures(ShardRun::action, (&run, total, max_samples), r),
    ensures
        run.next < run.end && total < max_samples ==> r == ShardAction::Read(run.next),
        run.next >= run.end || total >= max_samples ==> r == ShardAction::Finish,
{
}

} // verus!
