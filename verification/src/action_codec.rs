//! The action space of the policy: one id per thing a player can do, and the
//! mask of the ids that are legal at a decision.
use vstd::prelude::*;
use riichienv_core::action::{Action, ActionEncoder, ActionType};
use riichienv_core::errors::RiichiError;
use crate::mjai::{action_view, ActionView};

verus! {

/// `riichienv_core::action::ActionEncoder`, read variant by variant.
#[verifier::external_type_specification]
pub struct ExActionEncoder(riichienv_core::action::ActionEncoder);

/// `riichienv_core::errors::RiichiError`.
#[verifier::external_type_specification]
#[verifier::external_body]
pub struct ExRiichiError(riichienv_core::errors::RiichiError);

/// The number of action ids in a game of `num_players`.
pub open spec fn action_count(num_players: u8) -> nat {
    if num_players == 3 {
        60
    } else {
        82
    }
}

/// The id of declining to call.
pub open spec fn pass_code(num_players: u8) -> nat {
    if num_players == 3 {
        58
    } else {
        81
    }
}

/// The id of winning, by draw or by discard.
pub open spec fn win_code(num_players: u8) -> nat {
    if num_players == 3 {
        56
    } else {
        79
    }
}

/// The tile types of some tiles: ids go four to a type.
pub open spec fn tile_types(tiles: Seq<u8>) -> Set<u8> {
    tiles.map_values(|t: u8| (t / 4) as u8).to_set()
}

/// The three-player index of a tile type: the twenty-seven types that are left
/// without the ranks two to eight of the first suit.
pub open spec fn sanma_type(t: u8) -> Option<nat> {
    if t == 0 {
        Some(0)
    } else if 8 <= t < 34 {
        Some((t - 7) as nat)
    } else {
        None
    }
}

/// The id of an action in a four-player game; `None` where it has none.
pub open spec fn code_4p(a: ActionView) -> Option<nat> {
    match a.kind {
        ActionType::Discard => match a.tile {
            Some(t) => Some((t / 4) as nat),
            None => None,
        },
        ActionType::Riichi => Some(37),
        ActionType::Chi => match a.tile {
            Some(t) => {
                let types = tile_types(a.consumed.push(t));
                if types.len() == 3 {
                    Some(38 + types.filter(|x: u8| x < t / 4).len())
                } else {
                    None
                }
            },
            None => None,
        },
        ActionType::Pon => Some(41),
        ActionType::Daiminkan => match a.tile {
            Some(t) => Some((42 + t / 4) as nat),
            None => None,
        },
        ActionType::Ankan | ActionType::Kakan => if a.consumed.len() > 0 {
            Some((42 + a.consumed[0] / 4) as nat)
        } else {
            None
        },
        ActionType::Ron | ActionType::Tsumo => Some(79),
        ActionType::KyushuKyuhai => Some(80),
        ActionType::Pass => Some(81),
        ActionType::Kita => None,
    }
}

/// `base` plus the three-player index of the type of tile `t`.
pub open spec fn sanma_code(base: nat, t: u8) -> Option<nat> {
    match sanma_type((t / 4) as u8) {
        Some(i) => Some(base + i),
        None => None,
    }
}

/// The id of an action in a three-player game; `None` where it has none.
pub open spec fn code_3p(a: ActionView) -> Option<nat> {
    match a.kind {
        ActionType::Discard => match a.tile {
            Some(t) => sanma_code(0, t),
            None => None,
        },
        ActionType::Riichi => Some(27),
        ActionType::Chi => None,
        ActionType::Pon => Some(28),
        ActionType::Daiminkan => match a.tile {
            Some(t) => sanma_code(29, t),
            None => None,
        },
        ActionType::Ankan | ActionType::Kakan => if a.consumed.len() > 0 {
            sanma_code(29, a.consumed[0])
        } else {
            None
        },
        ActionType::Ron | ActionType::Tsumo => Some(56),
        ActionType::KyushuKyuhai => Some(57),
        ActionType::Pass => Some(58),
        ActionType::Kita => Some(59),
    }
}

/// The id of an action in a game of `num_players`.
pub open spec fn action_code(num_players: u8, a: ActionView) -> Option<nat> {
    if num_players == 3 {
        code_3p(a)
    } else {
        code_4p(a)
    }
}

/// The number of players whose action space `e` is for.
pub open spec fn encoder_players(e: ActionEncoder) -> u8 {
    match e {
        ActionEncoder::FourPlayer => 4,
        ActionEncoder::ThreePlayer => 3,
    }
}

/// `riichienv_core::action::ActionEncoder::from_num_players`: three players
/// have an action space of their own, every other number has that of four.
pub assume_specification[ riichienv_core::action::ActionEncoder::from_num_players ](n: u8) -> (e:
    ActionEncoder)
    ensures
        e == (if n == 3 {
            ActionEncoder::ThreePlayer
        } else {
            ActionEncoder::FourPlayer
        }),
;

/// `riichienv_core::action::ActionEncoder::action_space_size`: how many ids
/// there are.
pub assume_specification[ riichienv_core::action::ActionEncoder::action_space_size ](
    e: &ActionEncoder,
) -> (n: usize)
    ensures
        n == action_count(encoder_players(*e)),
;

/// `riichienv_core::action::ActionEncoder::encode`: the id of an action, an
/// error where the action has none.
pub assume_specification[ riichienv_core::action::ActionEncoder::encode ](
    e: &ActionEncoder,
    action: &Action,
) -> (r: Result<i32, RiichiError>)
    ensures
        match r {
            Ok(code) => code >= 0 && action_code(encoder_players(*e), action_view(*action)) == Some(
                code as nat,
            ),
            Err(_) => action_code(encoder_players(*e), action_view(*action)) is None,
        },
;

/// The number of action ids in a game of `num_players`.
pub fn action_space(num_players: u8) -> (n: usize)
    ensures
        n == action_count(num_players),
{
    ActionEncoder::from_num_players(num_players).action_space_size()
}

/// The id of `action` in a game of `num_players`, if it has one.
pub fn action_index(action: &Action, num_players: u8) -> (r: Option<usize>)
    ensures
        match r {
            Some(i) => action_code(num_players, action_view(*action)) == Some(i as nat),
            None => action_code(num_players, action_view(*action)) is None,
        },
{
    match ActionEncoder::from_num_players(num_players).encode(action) {
        Ok(code) => Some(code as usize),
        Err(_) => None,
    }
}

/// The id of declining to call.
pub fn pass_index(num_players: u8) -> (i: usize)
    ensures
        i == pass_code(num_players),
{
    let pass = Action::new(ActionType::Pass, None, Vec::new(), None);
    action_index(&pass, num_players).unwrap()
}

/// What actions say.
pub open spec fn action_views(actions: Seq<Action>) -> Seq<ActionView> {
    actions.map_values(|a: Action| action_view(a))
}

/// Whether some action of `legal` has the id `i`.
pub open spec fn has_code(legal: Seq<ActionView>, num_players: u8, i: int) -> bool {
    exists|k: int|
        0 <= k < legal.len() && action_code(num_players, #[trigger] legal[k]) == Some(i as nat)
}

/// The mask of `legal`: one entry per action id, 1 where an action has that id.
pub open spec fn mask_of(legal: Seq<ActionView>, num_players: u8) -> Seq<u8> {
    Seq::new(
        action_count(num_players),
        |i: int|
            if has_code(legal, num_players, i) {
                1u8
            } else {
                0u8
            },
    )
}

/// One more action adds its own id to those of the first `k`.
proof fn lemma_has_code_push(legal: Seq<ActionView>, num_players: u8, k: int, i: int)
    requires
        0 <= k < legal.len(),
    ensures
        has_code(legal.take(k + 1), num_players, i) <==> (has_code(
            legal.take(k),
            num_players,
            i,
        ) || action_code(num_players, legal[k]) == Some(i as nat)),
{
    let a = legal.take(k);
    let b = legal.take(k + 1);
    assert(b[k] == legal[k]);
    if has_code(a, num_players, i) {
        let j = choose|j: int|
            0 <= j < a.len() && action_code(num_players, #[trigger] a[j]) == Some(i as nat);
        assert(b[j] == a[j]);
    }
    if has_code(b, num_players, i) {
        let j = choose|j: int|
            0 <= j < b.len() && action_code(num_players, #[trigger] b[j]) == Some(i as nat);
        if j < k {
            assert(a[j] == b[j]);
        }
    }
}

/// The mask of `legal`.
pub fn legal_mask(legal: &Vec<Action>, num_players: u8) -> (mask: Vec<u8>)
    ensures
        mask@ == mask_of(action_views(legal@), num_players),
{
    let n = action_space(num_players);
    let mut mask: Vec<u8> = Vec::new();
    mask.resize(n, 0);
    let ghost views = action_views(legal@);
    assert(mask@ =~= mask_of(views.take(0), num_players));
    for k in 0..legal.len()
        invariant
            n == action_count(num_players),
            views == action_views(legal@),
            mask@ == mask_of(views.take(k as int), num_players),
    {
        let ghost before = mask@;
        let code = action_index(&legal[k], num_players);
        proof {
            assert(views[k as int] == action_view(legal@[k as int]));
            assert forall|i: int| #[trigger] has_code(views.take(k + 1), num_players, i) <==> (
            has_code(views.take(k as int), num_players, i) || action_code(
                num_players,
                views[k as int],
            ) == Some(i as nat)) by {
                lemma_has_code_push(views, num_players, k as int, i);
            }
        }
        if let Some(i) = code {
            if i < n {
                mask.set(i, 1);
            }
        }
        assert(mask@ =~= mask_of(views.take(k + 1), num_players));
    }
    assert(views.take(legal@.len() as int) =~= views);
    mask
}

/// A mask has one entry per action id, each 0 or 1, and allows exactly the ids
/// that legal actions have.
pub proof fn law_mask_marks_the_legal_ids(legal: Seq<ActionView>, num_players: u8)
    ensures
        mask_of(legal, num_players).len() == action_count(num_players),
        forall|i: int|
            0 <= i < action_count(num_players) ==> (#[trigger] mask_of(legal, num_players)[i] == 1
                <==> has_code(legal, num_players, i)) && mask_of(legal, num_players)[i] <= 1,
{
}

/// Whether an action is about tiles that exist.
pub open spec fn about_tiles(a: ActionView) -> bool {
    &&& a.tile matches Some(t) ==> t < 136
    &&& forall|i: int| 0 <= i < a.consumed.len() ==> #[trigger] a.consumed[i] < 136
}

/// The id of an action about tiles that exist is one of the action space.
pub proof fn law_ids_fit_the_action_space(num_players: u8, a: ActionView)
    requires
        about_tiles(a),
    ensures
        action_code(num_players, a) matches Some(code) ==> code < action_count(num_players),
{
    law_chi_ids(num_players, a);
}

/// Among actions about tiles that exist, the id of passing is that of passing
/// alone, and the id of winning that of winning alone.
pub proof fn law_passing_and_winning_have_ids_of_their_own(num_players: u8, a: ActionView)
    requires
        about_tiles(a),
    ensures
        action_code(num_players, a) == Some(pass_code(num_players)) <==> a.kind is Pass,
        action_code(num_players, a) == Some(win_code(num_players)) <==> a.kind is Ron
            || a.kind is Tsumo,
{
    law_chi_ids(num_players, a);
}

/// A chi of three tile types has one of three ids, by the place of the called
/// tile among them.
pub proof fn law_chi_ids(num_players: u8, a: ActionView)
    ensures
        a.kind is Chi && action_code(num_players, a) is Some ==> 38 <= action_code(
            num_players,
            a,
        ).unwrap() <= 40,
{
    if num_players != 3 && a.kind is Chi && a.tile is Some {
        let t = a.tile.unwrap();
        let tiles = a.consumed.push(t);
        let types = tile_types(tiles);
        let below = types.filter(|x: u8| x < t / 4);
        let kinds = tiles.map_values(|t: u8| (t / 4) as u8);
        assert(kinds[tiles.len() - 1] == t / 4);
        assert(kinds.contains((t / 4) as u8));
        kinds.lemma_cardinality_of_set();
        assert(below.subset_of(types.remove((t / 4) as u8)));
        vstd::set_lib::lemma_len_subset(below, types.remove((t / 4) as u8));
    }
}

/// The mask of some legal actions has an entry per action id, eighty-two with
/// four players and sixty with three: 1 at the id of each legal action, and 0
/// wherever no legal action has the id.
pub proof fn law_masks_hold_the_ids_of_all_legal_actions(
    legal: Seq<ActionView>,
    num_players: u8,
    i: int,
)
    requires
        0 <= i < mask_of(legal, num_players).len(),
    ensures
        mask_of(legal, num_players).len() == (if num_players == 3 {
            60nat
        } else {
            82nat
        }),
        (exists|k: int|
            0 <= k < legal.len() && action_code(num_players, #[trigger] legal[k]) == Some(i as nat))
            ==> mask_of(legal, num_players)[i] == 1,
        (forall|k: int|
            0 <= k < legal.len() ==> action_code(num_players, #[trigger] legal[k]) != Some(
                i as nat,
            )) ==> mask_of(legal, num_players)[i] == 0,
{
}

/// The mask of two lots of legal actions allows what one of theirs allows.
pub proof fn law_masks_of_more_actions(
    a: Seq<ActionView>,
    b: Seq<ActionView>,
    num_players: u8,
    i: int,
)
    requires
        0 <= i < mask_of(a + b, num_players).len(),
    ensures
        mask_of(a + b, num_players)[i] == 1 <==> mask_of(a, num_players)[i] == 1 || mask_of(
            b,
            num_players,
        )[i] == 1,
        mask_of(Seq::empty(), num_players)[i] == 0,
{
    let ab = a + b;
    if has_code(a, num_players, i) {
        let k = choose|k: int|
            0 <= k < a.len() && action_code(num_players, #[trigger] a[k]) == Some(i as nat);
        assert(ab[k] == a[k]);
    }
    if has_code(b, num_players, i) {
        let k = choose|k: int|
            0 <= k < b.len() && action_code(num_players, #[trigger] b[k]) == Some(i as nat);
        assert(ab[a.len() + k] == b[k]);
    }
    if has_code(ab, num_players, i) {
        let k = choose|k: int|
            0 <= k < ab.len() && action_code(num_players, #[trigger] ab[k]) == Some(i as nat);
        if k < a.len() {
            assert(a[k] == ab[k]);
        } else {
            assert(b[k - a.len()] == ab[k]);
        }
    }
}

/// What actions say is said action by action, in their order.
pub proof fn law_actions_are_viewed_one_by_one(actions: Seq<Action>)
    ensures
        action_views(actions).len() == actions.len(),
        forall|i: int|
            0 <= i < actions.len() ==> (#[trigger] action_views(actions)[i]).kind
                == actions[i].action_type && action_views(actions)[i].tile == actions[i].tile
                && action_views(actions)[i].consumed == actions[i].consume_tiles@ && action_views(
                actions,
            )[i].actor == actions[i].actor,
{
}

/// Passing has the id that is told as that of passing, whatever else the action
/// says; so have the two wins theirs.
pub proof fn law_ids_of_passing_and_winning(num_players: u8, a: ActionView)
    ensures
        a.kind is Pass ==> action_code(num_players, a) == Some(pass_code(num_players)),
        a.kind is Ron || a.kind is Tsumo ==> action_code(num_players, a) == Some(
            win_code(num_players),
        ),
        pass_code(num_players) < action_count(num_players),
        win_code(num_players) < action_count(num_players),
        pass_code(num_players) != win_code(num_players),
{
}

/// Actions of one kind about tiles of the same type have the same id, and those
/// about tiles of different types, where they have one, different ids: discards
/// and open kans alike.
pub proof fn law_ids_tell_tile_types_apart(num_players: u8, a: ActionView, b: ActionView)
    requires
        a.kind == b.kind,
        a.kind is Discard || a.kind is Daiminkan,
        a.tile is Some,
        b.tile is Some,
        action_code(num_players, a) is Some,
        action_code(num_players, b) is Some,
    ensures
        action_code(num_players, a) == action_code(num_players, b) <==> a.tile.unwrap() / 4
            == b.tile.unwrap() / 4,
{
}

} // verus!
