//! The cup, and the rule by which one unit of liquid is poured from one cup
//! into another.

use crate::liquids::LiquidColors;
use crate::roster::{
    is_rearrangement, is_shuffle_of, is_solved, lemma_moves_rearrange, moves_in_range,
    pour_between, roster_after_moves, roster_view,
};
use std::collections::HashSet;
use vstd::prelude::*;
use vstd::std_specs::hash::*;

verus! {

/// A stack of liquid units, bottom first, with room for `capacity` of them.
#[derive(Debug, Clone)]
pub struct Cup {
    pub capacity: usize,
    pub liquids: Vec<LiquidColors>,
}

/// A cup as a mathematical value: its capacity and its units, bottom first.
pub struct CupView {
    pub capacity: nat,
    pub contents: Seq<LiquidColors>,
}

impl View for Cup {
    type V = CupView;

    open spec fn view(&self) -> CupView {
        CupView { capacity: self.capacity as nat, contents: self.liquids@ }
    }
}

/// How often `color` occurs in `units`.
pub open spec fn count_of(units: Seq<LiquidColors>, color: LiquidColors) -> nat
    decreases units.len(),
{
    if units.len() == 0 {
        0
    } else {
        count_of(units.drop_last(), color) + if units.last() == color {
            1nat
        } else {
            0nat
        }
    }
}

impl CupView {
    /// The cup holds no more than its capacity.
    pub open spec fn wf(self) -> bool {
        self.contents.len() <= self.capacity
    }

    pub open spec fn is_empty(self) -> bool {
        self.contents.len() == 0
    }

    /// The cup holds exactly as many units as it has room for.
    pub open spec fn is_full(self) -> bool {
        self.contents.len() == self.capacity
    }

    /// The unit that was added last, the only one that can move.
    pub open spec fn top(self) -> LiquidColors
        recommends
            !self.is_empty(),
    {
        self.contents.last()
    }

    /// The cup after its top unit was taken away.
    pub open spec fn without_top(self) -> CupView
        recommends
            !self.is_empty(),
    {
        CupView { capacity: self.capacity, contents: self.contents.drop_last() }
    }

    /// The cup after `unit` was put on top.
    pub open spec fn with_top(self, unit: LiquidColors) -> CupView {
        CupView { capacity: self.capacity, contents: self.contents.push(unit) }
    }

    /// How many units of `color` the cup holds.
    pub open spec fn count(self, color: LiquidColors) -> nat {
        count_of(self.contents, color)
    }

    /// All units in the cup have one colour. An empty cup is monochrome.
    pub open spec fn is_monochrome(self) -> bool {
        forall|i: int, j: int|
            0 <= i < self.contents.len() && 0 <= j < self.contents.len()
                ==> self.contents[i] == self.contents[j]
    }
}

/// Which checks a pour is held to.
#[derive(Debug, PartialEq, Eq, Clone, Copy, Structural)]
pub enum PourRule {
    /// The rule of play: a unit may only land on an empty cup or on a unit
    /// of its own colour.
    Restricted,
    /// The rule used for shuffling: a unit may land on any cup with room.
    Unrestricted,
}

/// Why a pour was refused.
#[derive(Debug, PartialEq, Eq, Clone, Copy, Structural)]
pub enum PourError {
    /// Source and destination are one and the same cup.
    SelfPour,
    /// The destination has no room left.
    DestinationFull,
    /// The source holds nothing.
    SourceEmpty,
    /// The destination's top unit has another colour than the source's.
    ColorMismatch,
}

impl PourError {
    /// The text shown to the player for this error.
    pub open spec fn spec_message(self) -> Seq<char> {
        match self {
            PourError::SelfPour => "Cannot pour a cup into itself"@,
            PourError::DestinationFull => "Destination cup has no space x_x"@,
            PourError::SourceEmpty => "Source cup has no liquid to give"@,
            PourError::ColorMismatch => "Source and destination colors do not match"@,
        }
    }

    /// The text shown to the player for this error.
    pub fn message(&self) -> (text: String)
        ensures
            text@ == self.spec_message(),
    {
        match self {
            PourError::SelfPour => "Cannot pour a cup into itself".to_owned(),
            PourError::DestinationFull => "Destination cup has no space x_x".to_owned(),
            PourError::SourceEmpty => "Source cup has no liquid to give".to_owned(),
            PourError::ColorMismatch => "Source and destination colors do not match".to_owned(),
        }
    }

    /// No two errors share a message: the text tells which error it was.
    pub proof fn lemma_message_tells_error(e1: PourError, e2: PourError)
        requires
            e1.spec_message() == e2.spec_message(),
        ensures
            e1 == e2,
    {
        reveal_strlit("Cannot pour a cup into itself");
        reveal_strlit("Destination cup has no space x_x");
        reveal_strlit("Source cup has no liquid to give");
        reveal_strlit("Source and destination colors do not match");
        assert("Cannot pour a cup into itself"@.len() == 29);
        assert("Source and destination colors do not match"@.len() == 42);
        assert("Destination cup has no space x_x"@[0] == 'D');
        assert("Source cup has no liquid to give"@[0] == 'S');
    }
}

/// The first check that a pour from `a` into `b` fails, if any. The checks
/// come in a fixed order: same cup, full destination, empty source and, under
/// the restricted rule only, differing top colours.
pub open spec fn pour_refusal(same_cup: bool, a: CupView, b: CupView, rule: PourRule) -> Option<
    PourError,
> {
    if same_cup {
        Some(PourError::SelfPour)
    } else if b.is_full() {
        Some(PourError::DestinationFull)
    } else if a.is_empty() {
        Some(PourError::SourceEmpty)
    } else if rule == PourRule::Restricted && !b.is_empty() && b.top() != a.top() {
        Some(PourError::ColorMismatch)
    } else {
        None
    }
}

/// What pouring from `a` into `b` gives: the error of the first failed check,
/// or else the two cups after the top unit of `a` has moved onto `b`.
pub open spec fn pour_result(same_cup: bool, a: CupView, b: CupView, rule: PourRule) -> Result<
    (CupView, CupView),
    PourError,
> {
    match pour_refusal(same_cup, a, b, rule) {
        Some(e) => Err(e),
        None => Ok((a.without_top(), b.with_top(a.top()))),
    }
}

/// A cup poured into itself is refused as such, whatever it holds and under
/// either rule.
pub proof fn lemma_self_pour_refused(a: CupView, b: CupView, rule: PourRule)
    ensures
        pour_result(true, a, b, rule) == Err::<(CupView, CupView), PourError>(PourError::SelfPour),
{
}

/// A pour into another cup that is full is refused for want of room,
/// whatever the source holds and under either rule.
pub proof fn lemma_full_destination_refused(a: CupView, b: CupView, rule: PourRule)
    requires
        b.is_full(),
    ensures
        pour_result(false, a, b, rule) == Err::<(CupView, CupView), PourError>(
            PourError::DestinationFull,
        ),
{
}

/// A pour from an empty cup into another cup that has room is refused
/// because the source is empty, whatever the destination holds and under
/// either rule.
pub proof fn lemma_empty_source_refused(a: CupView, b: CupView, rule: PourRule)
    requires
        a.is_empty(),
        !b.is_full(),
    ensures
        pour_result(false, a, b, rule) == Err::<(CupView, CupView), PourError>(
            PourError::SourceEmpty,
        ),
{
}

/// Where the destination is another cup, has room and shows another colour
/// on top than the source, the rule of play refuses the pour for the
/// mismatch, and the unrestricted rule lets the unit move.
pub proof fn lemma_mismatch_refused_in_play_only(a: CupView, b: CupView)
    requires
        !a.is_empty(),
        !b.is_empty(),
        !b.is_full(),
        a.top() != b.top(),
    ensures
        pour_result(false, a, b, PourRule::Restricted) == Err::<(CupView, CupView), PourError>(
            PourError::ColorMismatch,
        ),
        pour_result(false, a, b, PourRule::Unrestricted) == Ok::<(CupView, CupView), PourError>(
            (a.without_top(), b.with_top(a.top())),
        ),
{
}

/// The unrestricted rule never refuses a pour for its colours, and agrees
/// with the rule of play wherever that one does not.
pub proof fn lemma_unrestricted_ignores_colors(same_cup: bool, a: CupView, b: CupView)
    ensures
        pour_result(same_cup, a, b, PourRule::Unrestricted) != Err::<(CupView, CupView), PourError>(
            PourError::ColorMismatch,
        ),
        pour_result(same_cup, a, b, PourRule::Restricted) != Err::<(CupView, CupView), PourError>(
            PourError::ColorMismatch,
        ) ==> pour_result(same_cup, a, b, PourRule::Unrestricted) == pour_result(
            same_cup,
            a,
            b,
            PourRule::Restricted,
        ),
{
}

/// A pour that succeeds moves exactly one unit, the top of the source: the
/// source is one unit shorter, the destination one unit longer with that
/// unit on top, both keep their capacity, a cup that was within its capacity
/// still is, and between them the two hold as many units of each colour as
/// before.
pub proof fn lemma_pour_moves_top(same_cup: bool, a: CupView, b: CupView, rule: PourRule)
    requires
        pour_result(same_cup, a, b, rule) is Ok,
    ensures
        ({
            let (new_a, new_b) = pour_result(same_cup, a, b, rule)->Ok_0;
            &&& new_a.contents.len() == a.contents.len() - 1
            &&& new_b.contents.len() == b.contents.len() + 1
            &&& new_a.contents == a.contents.take(a.contents.len() - 1)
            &&& new_b.contents.take(b.contents.len() as int) == b.contents
            &&& new_b.top() == a.top()
            &&& new_a.capacity == a.capacity
            &&& new_b.capacity == b.capacity
            &&& a.wf() ==> new_a.wf()
            &&& b.wf() ==> new_b.wf()
            &&& forall|color: LiquidColors|
                #![trigger new_a.count(color)]
                #![trigger new_b.count(color)]
                new_a.count(color) + new_b.count(color) == a.count(color) + b.count(color)
        }),
{
    let (new_a, new_b) = pour_result(same_cup, a, b, rule)->Ok_0;
    assert(new_a.contents =~= a.contents.take(a.contents.len() - 1));
    assert(new_b.contents.take(b.contents.len() as int) =~= b.contents);
    assert(new_b.contents.drop_last() =~= b.contents);
}

/// `got` is `expected`, the cups taken by their views.
pub open spec fn pour_agrees(
    got: Result<(Cup, Cup), PourError>,
    expected: Result<(CupView, CupView), PourError>,
) -> bool {
    match (got, expected) {
        (Ok((new_a, new_b)), Ok((a, b))) => new_a@ == a && new_b@ == b,
        (Err(e1), Err(e2)) => e1 == e2,
        _ => false,
    }
}

/// `got` is `expected`, the cups taken by their views and the error by its
/// message.
pub open spec fn pour_agrees_in_words(
    got: Result<(Cup, Cup), String>,
    expected: Result<(CupView, CupView), PourError>,
) -> bool {
    match (got, expected) {
        (Ok((new_a, new_b)), Ok((a, b))) => new_a@ == a && new_b@ == b,
        (Err(text), Err(e)) => text@ == e.spec_message(),
        _ => false,
    }
}

/// A new vector with the first `n` units of `units`.
fn first_units(units: &Vec<LiquidColors>, n: usize) -> (copy: Vec<LiquidColors>)
    requires
        n <= units@.len(),
    ensures
        copy@ == units@.take(n as int),
{
    let mut copy: Vec<LiquidColors> = Vec::new();
    let mut i: usize = 0;
    while i < n
        invariant
            i <= n <= units@.len(),
            copy@ == units@.take(i as int),
        decreases n - i,
    {
        copy.push(units[i]);
        i += 1;
        assert(copy@ =~= units@.take(i as int));
    }
    copy
}

/// Pours one unit from `a` into `b` under `rule`. `same_cup` says whether the
/// two are one and the same cup, which their values alone cannot tell: two
/// cups may hold the same units.
///
/// The arguments are left as they are; on success the two cups as they are
/// after the pour come back.
pub fn pour_one_unit(same_cup: bool, a: &Cup, b: &Cup, rule: PourRule) -> (r: Result<
    (Cup, Cup),
    PourError,
>)
    ensures
        pour_agrees(r, pour_result(same_cup, a@, b@, rule)),
{
    if same_cup {
        return Err(PourError::SelfPour);
    }
    if b.capacity == b.liquids.len() {
        return Err(PourError::DestinationFull);
    }
    if a.liquids.len() == 0 {
        return Err(PourError::SourceEmpty);
    }
    let moving = a.liquids[a.liquids.len() - 1];
    if rule == PourRule::Restricted && b.liquids.len() > 0 && b.liquids[b.liquids.len() - 1]
        != moving {
        return Err(PourError::ColorMismatch);
    }
    let new_a = first_units(&a.liquids, a.liquids.len() - 1);
    let mut new_b = first_units(&b.liquids, b.liquids.len());
    new_b.push(moving);
    proof {
        assert(new_a@ =~= a@.contents.drop_last());
        assert(new_b@ =~= b@.contents.push(a@.top()));
    }
    Ok((Cup { capacity: a.capacity, liquids: new_a }, Cup { capacity: b.capacity, liquids: new_b }))
}

/// Asks `std::ptr::eq` whether the two references point at one and the same
/// cup. The contract claims only what follows when they do: the two then
/// hold the same value. Two cups in different places may hold the same value
/// too, so nothing is claimed when the answer is no.
#[verifier::external_body]
fn same_cup(a: &Cup, b: &Cup) -> (same: bool)
    ensures
        same ==> a@ == b@,
{
    std::ptr::eq(a, b)
}

/// Turns the error of a pour into its message.
fn in_words(r: Result<(Cup, Cup), PourError>) -> (worded: Result<(Cup, Cup), String>)
    ensures
        forall|expected: Result<(CupView, CupView), PourError>|
            pour_agrees(r, expected) ==> pour_agrees_in_words(worded, expected),
{
    match r {
        Ok(cups) => Ok(cups),
        Err(e) => Err(e.message()),
    }
}

/// Pours one unit from `a` into `b` under the rule of play.
///
/// A cup poured into itself is refused with the message of
/// [`PourError::SelfPour`]; the two arguments are one cup when they are the
/// same place in memory, not when they merely hold the same units. Every
/// other outcome is [`pour_result`] for two distinct cups, with an error given
/// by its message.
pub fn pour_a_into_b(a: &Cup, b: &Cup) -> (r: Result<(Cup, Cup), String>)
    ensures
        pour_agrees_in_words(r, pour_result(false, a@, b@, PourRule::Restricted)) || (a@ == b@
            && pour_agrees_in_words(r, pour_result(true, a@, b@, PourRule::Restricted))),
{
    in_words(pour_one_unit(same_cup(a, b), a, b, PourRule::Restricted))
}

/// Pours one unit from `a` into `b` without regard to colours: as
/// [`pour_a_into_b`], but under [`PourRule::Unrestricted`].
pub fn unrestricted_pour_a_into_b(a: &Cup, b: &Cup) -> (r: Result<(Cup, Cup), String>)
    ensures
        pour_agrees_in_words(r, pour_result(false, a@, b@, PourRule::Unrestricted)) || (a@ == b@
            && pour_agrees_in_words(r, pour_result(true, a@, b@, PourRule::Unrestricted))),
{
    in_words(pour_one_unit(same_cup(a, b), a, b, PourRule::Unrestricted))
}

/// How many moves a shuffle tries.
pub const SCRAMBLE_ROUNDS: usize = 10000;

/// Calls `rand::random_range` on the range from 0 up to and without `n`,
/// which draws a number from the thread's generator. The contract claims that
/// the number lies in that range, and asks for `n > 0` because the call
/// panics on an empty range. Which number comes back is not stated.
#[verifier::external_body]
fn random_index(n: usize) -> (i: usize)
    requires
        n > 0,
    ensures
        i < n,
{
    rand::random_range(0..n)
}

/// Shuffles the roster: [`SCRAMBLE_ROUNDS`] times over, two cups are drawn at
/// random, the same one twice at times, and one unit is poured from the
/// first into the second under [`PourRule::Unrestricted`]. A pour that is
/// refused is passed over. A roster without cups comes back as it is.
///
/// Whatever is drawn, the result is what that many tried moves make of the
/// roster, and so a rearrangement of it: as many cups with the capacities
/// they had, and as many units of each colour.
pub fn scramble_cups(cups: Vec<Cup>) -> (scrambled: Vec<Cup>)
    ensures
        cups@.len() == 0 ==> scrambled@ == cups@,
        cups@.len() > 0 ==> is_shuffle_of(
            roster_view(cups@),
            SCRAMBLE_ROUNDS as nat,
            roster_view(scrambled@),
        ),
        is_rearrangement(roster_view(cups@), roster_view(scrambled@)),
{
    let ghost before = roster_view(cups@);
    let mut cups = cups;
    if cups.len() == 0 {
        return cups;
    }
    let ghost mut moves: Seq<(int, int)> = Seq::empty();
    let mut round: usize = 0;
    while round < SCRAMBLE_ROUNDS
        invariant
            round <= SCRAMBLE_ROUNDS,
            cups@.len() == before.len() > 0,
            moves.len() == round,
            moves_in_range(moves, before.len()),
            roster_view(cups@) == roster_after_moves(before, moves),
        decreases SCRAMBLE_ROUNDS - round,
    {
        let src = random_index(cups.len());
        let dst = random_index(cups.len());
        let _ = pour_between(&mut cups, src, dst, PourRule::Unrestricted);
        proof {
            let longer = moves.push((src as int, dst as int));
            assert(longer.drop_last() =~= moves);
            moves = longer;
        }
        round += 1;
    }
    proof {
        lemma_moves_rearrange(before, moves);
    }
    cups
}

/// Whether all units in the cup have one colour.
pub fn is_monochrome(cup: &Cup) -> (mono: bool)
    ensures
        mono == cup@.is_monochrome(),
{
    let n = cup.liquids.len();
    let mut k: usize = 1;
    while k < n
        invariant
            1 <= k,
            n == cup.liquids@.len(),
            forall|m: int| 0 <= m < k && m < n ==> #[trigger] cup.liquids@[m] == cup.liquids@[0],
        decreases n - k,
    {
        if cup.liquids[k] != cup.liquids[k - 1] {
            assert(cup@.contents[k as int] != cup@.contents[k - 1]);
            return false;
        }
        k += 1;
    }
    true
}

/// Whether the puzzle is solved: every cup is monochrome, and no two cups
/// that hold anything show the same colour on top.
pub fn are_cups_solved(cups: &[Cup]) -> (solved: bool)
    ensures
        solved == is_solved(roster_view(cups@)),
{
    broadcast use group_hash_axioms;

    let ghost roster = roster_view(cups@);
    let mut seen_colors: HashSet<u8> = HashSet::new();
    let mut i: usize = 0;
    while i < cups.len()
        invariant
            i <= cups@.len(),
            roster == roster_view(cups@),
            is_solved(roster.take(i as int)),
            forall|x: u8|
                seen_colors@.contains(x) <==> exists|k: int|
                    0 <= k < i && !roster[k].is_empty() && (#[trigger] roster[k]).top().spec_index()
                        == x,
        decreases cups@.len() - i,
    {
        let ghost seen_before = seen_colors@;
        let cup = &cups[i];
        assert(cup@ == roster[i as int]);
        let n = cup.liquids.len();
        if n > 0 {
            let top = cup.liquids[n - 1];
            if seen_colors.contains(&top.index()) {
                proof {
                    let k = choose|k: int|
                        0 <= k < i && !roster[k].is_empty() && (#[trigger] roster[k]).top().spec_index()
                            == top.spec_index();
                    LiquidColors::lemma_index_injective(roster[k].top(), top);
                    assert(roster[k].top() == roster[i as int].top());
                }
                return false;
            }
            seen_colors.insert(top.index());
        }
        if !is_monochrome(cup) {
            return false;
        }
        proof {
            let longer = roster.take(i + 1);
            assert forall|k: int| 0 <= k < longer.len() implies (#[trigger] longer[k]).is_monochrome() by {
                if k < i {
                    assert(roster.take(i as int)[k].is_monochrome());
                }
            }
            assert forall|a: int, b: int|
                #![trigger longer[a], longer[b]]
                0 <= a < b < longer.len() && !longer[a].is_empty() && !longer[b].is_empty() implies longer[a].top()
                != longer[b].top() by {
                if b < i {
                    assert(roster.take(i as int)[a].top() != roster.take(i as int)[b].top());
                } else {
                    assert(!seen_before.contains(roster[b].top().spec_index()));
                }
            }
        }
        i += 1;
    }
    assert(roster.take(i as int) =~= roster);
    true
}

} // verus!
