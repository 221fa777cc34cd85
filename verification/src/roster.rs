//! What holds of a whole roster of cups: how many units of each colour it
//! holds, what a pour between two of its cups changes, and when it is solved.

use crate::cup::{count_of, pour_one_unit, pour_result, Cup, CupView, PourError, PourRule};
use crate::liquids::LiquidColors;
use vstd::prelude::*;

verus! {

/// The cups of a roster as mathematical values, in the roster's order.
pub open spec fn roster_view(cups: Seq<Cup>) -> Seq<CupView> {
    Seq::new(cups.len(), |i: int| cups[i]@)
}

/// How many units of `color` the cups of the roster hold together.
pub open spec fn color_total(roster: Seq<CupView>, color: LiquidColors) -> nat
    decreases roster.len(),
{
    if roster.len() == 0 {
        0
    } else {
        color_total(roster.drop_last(), color) + roster.last().count(color)
    }
}

/// How many units the cups of the roster hold together, whatever their colour.
pub open spec fn unit_total(roster: Seq<CupView>) -> nat
    decreases roster.len(),
{
    if roster.len() == 0 {
        0
    } else {
        unit_total(roster.drop_last()) + roster.last().contents.len()
    }
}

/// The two rosters have as many cups, and each cup has kept its capacity.
pub open spec fn same_capacities(before: Seq<CupView>, after: Seq<CupView>) -> bool {
    &&& after.len() == before.len()
    &&& forall|i: int| 0 <= i < before.len() ==> #[trigger] after[i].capacity == before[i].capacity
}

/// `after` holds the liquid of `before`, moved about: cup for cup the
/// capacity is the same, colour for colour the roster holds as many units,
/// and no cup that kept within its capacity has been filled beyond it.
pub open spec fn is_rearrangement(before: Seq<CupView>, after: Seq<CupView>) -> bool {
    &&& same_capacities(before, after)
    &&& forall|color: LiquidColors| #[trigger]
        color_total(after, color) == color_total(before, color)
    &&& forall|i: int| 0 <= i < before.len() && before[i].wf() ==> #[trigger] after[i].wf()
}

/// What pouring from the cup at `src` into the cup at `dst` gives: the error
/// of [`pour_result`], or else the roster with both cups replaced. The two
/// are the same cup exactly when `src` is `dst`.
pub open spec fn roster_after_pour(
    roster: Seq<CupView>,
    src: int,
    dst: int,
    rule: PourRule,
) -> Result<Seq<CupView>, PourError>
    recommends
        0 <= src < roster.len(),
        0 <= dst < roster.len(),
{
    match pour_result(src == dst, roster[src], roster[dst], rule) {
        Ok((new_src, new_dst)) => Ok(roster.update(src, new_src).update(dst, new_dst)),
        Err(e) => Err(e),
    }
}

/// The roster after a pour from the cup at `src` into the cup at `dst` was
/// tried: as [`roster_after_pour`] says where the pour succeeds, and
/// unchanged where it is refused.
pub open spec fn roster_after_try(
    roster: Seq<CupView>,
    src: int,
    dst: int,
    rule: PourRule,
) -> Seq<CupView> {
    match roster_after_pour(roster, src, dst, rule) {
        Ok(after) => after,
        Err(_) => roster,
    }
}

/// The roster after each of `moves`, a source and a destination index, was
/// tried in turn under [`PourRule::Unrestricted`].
pub open spec fn roster_after_moves(roster: Seq<CupView>, moves: Seq<(int, int)>) -> Seq<CupView>
    decreases moves.len(),
{
    if moves.len() == 0 {
        roster
    } else {
        roster_after_try(
            roster_after_moves(roster, moves.drop_last()),
            moves.last().0,
            moves.last().1,
            PourRule::Unrestricted,
        )
    }
}

/// Every move names two cups of a roster of `cups` cups.
pub open spec fn moves_in_range(moves: Seq<(int, int)>, cups: nat) -> bool {
    forall|k: int|
        0 <= k < moves.len() ==> 0 <= (#[trigger] moves[k]).0 < cups && 0 <= moves[k].1 < cups
}

/// `after` is what `rounds` tried moves between cups of `before` have made of
/// it, for some choice of the moves.
pub open spec fn is_shuffle_of(before: Seq<CupView>, rounds: nat, after: Seq<CupView>) -> bool {
    exists|moves: Seq<(int, int)>|
        moves.len() == rounds && moves_in_range(moves, before.len())
            && #[trigger] roster_after_moves(before, moves) == after
}

/// Every cup of the roster holds no more than its capacity.
pub open spec fn all_wf(roster: Seq<CupView>) -> bool {
    forall|i: int| 0 <= i < roster.len() ==> (#[trigger] roster[i]).wf()
}

/// Every cup of the roster is monochrome.
pub open spec fn all_monochrome(roster: Seq<CupView>) -> bool {
    forall|i: int| 0 <= i < roster.len() ==> (#[trigger] roster[i]).is_monochrome()
}

/// No two cups that hold anything show the same colour on top.
pub open spec fn tops_distinct(roster: Seq<CupView>) -> bool {
    forall|i: int, j: int|
        #![trigger roster[i], roster[j]]
        0 <= i < j < roster.len() && !roster[i].is_empty() && !roster[j].is_empty()
            ==> roster[i].top() != roster[j].top()
}

/// The puzzle is solved: every cup is monochrome, and no two cups that hold
/// anything show the same colour on top.
pub open spec fn is_solved(roster: Seq<CupView>) -> bool {
    all_monochrome(roster) && tops_distinct(roster)
}

/// `color` occurs somewhere in the cup.
pub open spec fn holds_color(cup: CupView, color: LiquidColors) -> bool {
    exists|k: int| 0 <= k < cup.contents.len() && cup.contents[k] == color
}

/// Every colour sits in at most one cup.
pub open spec fn colors_consolidated(roster: Seq<CupView>) -> bool {
    forall|i: int, j: int, color: LiquidColors|
        #![trigger holds_color(roster[i], color), holds_color(roster[j], color)]
        0 <= i < roster.len() && 0 <= j < roster.len() && holds_color(roster[i], color)
            && holds_color(roster[j], color) ==> i == j
}

/// Adding a cup at the end of a roster adds its value at the end of the view.
pub proof fn lemma_roster_view_push(cups: Seq<Cup>, cup: Cup)
    ensures
        roster_view(cups.push(cup)) == roster_view(cups).push(cup@),
{
    assert(roster_view(cups.push(cup)) =~= roster_view(cups).push(cup@));
}

/// Putting a unit on top adds one to the count of its colour and leaves the
/// other counts alone.
pub proof fn lemma_count_push(units: Seq<LiquidColors>, unit: LiquidColors, color: LiquidColors)
    ensures
        count_of(units.push(unit), color) == count_of(units, color) + if unit == color {
            1nat
        } else {
            0nat
        },
{
    assert(units.push(unit).drop_last() =~= units);
}

/// Replacing one cup changes a colour's total by the difference between the
/// new cup's count and the old one's.
pub proof fn lemma_color_total_update(
    roster: Seq<CupView>,
    i: int,
    cup: CupView,
    color: LiquidColors,
)
    requires
        0 <= i < roster.len(),
    ensures
        color_total(roster.update(i, cup), color) == color_total(roster, color) - roster[i].count(
            color,
        ) + cup.count(color),
    decreases roster.len(),
{
    if i == roster.len() - 1 {
        assert(roster.update(i, cup).drop_last() =~= roster.drop_last());
    } else {
        assert(roster.update(i, cup).drop_last() =~= roster.drop_last().update(i, cup));
        lemma_color_total_update(roster.drop_last(), i, cup, color);
    }
}

/// Replacing one cup changes the number of units by the difference between
/// the new cup's length and the old one's.
pub proof fn lemma_unit_total_update(roster: Seq<CupView>, i: int, cup: CupView)
    requires
        0 <= i < roster.len(),
    ensures
        unit_total(roster.update(i, cup)) == unit_total(roster) - roster[i].contents.len()
            + cup.contents.len(),
    decreases roster.len(),
{
    if i == roster.len() - 1 {
        assert(roster.update(i, cup).drop_last() =~= roster.drop_last());
    } else {
        assert(roster.update(i, cup).drop_last() =~= roster.drop_last().update(i, cup));
        lemma_unit_total_update(roster.drop_last(), i, cup);
    }
}

/// A pour that succeeds moves exactly one unit: the source has one unit
/// less, the destination one more, no other cup has changed, and the roster
/// is a rearrangement of what it was, with as many units as before. This
/// holds under either rule.
pub proof fn lemma_pour_moves_one_unit(roster: Seq<CupView>, src: int, dst: int, rule: PourRule)
    requires
        0 <= src < roster.len(),
        0 <= dst < roster.len(),
        roster_after_pour(roster, src, dst, rule) is Ok,
    ensures
        ({
            let after = roster_after_pour(roster, src, dst, rule)->Ok_0;
            &&& src != dst
            &&& after.len() == roster.len()
            &&& after[src].contents.len() == roster[src].contents.len() - 1
            &&& after[dst].contents.len() == roster[dst].contents.len() + 1
            &&& forall|k: int|
                0 <= k < roster.len() && k != src && k != dst ==> #[trigger] after[k] == roster[k]
            &&& unit_total(after) == unit_total(roster)
            &&& is_rearrangement(roster, after)
        }),
{
    let a = roster[src];
    let b = roster[dst];
    let new_a = a.without_top();
    let new_b = b.with_top(a.top());
    let mid = roster.update(src, new_a);
    let after = mid.update(dst, new_b);
    assert(roster_after_pour(roster, src, dst, rule) == Ok::<Seq<CupView>, PourError>(after));
    lemma_unit_total_update(roster, src, new_a);
    lemma_unit_total_update(mid, dst, new_b);
    assert forall|color: LiquidColors| #[trigger]
        color_total(after, color) == color_total(roster, color) by {
        lemma_color_total_update(roster, src, new_a, color);
        lemma_color_total_update(mid, dst, new_b, color);
        lemma_count_push(b.contents, a.top(), color);
    }
}

/// Pouring from a cup of the roster into that same cup is refused as a pour
/// into itself, whatever the cup holds and under either rule.
pub proof fn lemma_same_index_refused(roster: Seq<CupView>, i: int, rule: PourRule)
    ensures
        roster_after_pour(roster, i, i, rule) == Err::<Seq<CupView>, PourError>(
            PourError::SelfPour,
        ),
{
}

/// The units in a cup are its units of each of the six colours, taken
/// together.
pub proof fn lemma_length_by_color(units: Seq<LiquidColors>)
    ensures
        units.len() == count_of(units, LiquidColors::Red) + count_of(units, LiquidColors::Green)
            + count_of(units, LiquidColors::Blue) + count_of(units, LiquidColors::Pink) + count_of(
            units,
            LiquidColors::BabyBlue,
        ) + count_of(units, LiquidColors::Yellow),
    decreases units.len(),
{
    if units.len() > 0 {
        lemma_length_by_color(units.drop_last());
    }
}

/// The units in a roster are its units of each of the six colours, taken
/// together.
pub proof fn lemma_units_by_color(roster: Seq<CupView>)
    ensures
        unit_total(roster) == color_total(roster, LiquidColors::Red) + color_total(
            roster,
            LiquidColors::Green,
        ) + color_total(roster, LiquidColors::Blue) + color_total(roster, LiquidColors::Pink)
            + color_total(roster, LiquidColors::BabyBlue) + color_total(
            roster,
            LiquidColors::Yellow,
        ),
    decreases roster.len(),
{
    if roster.len() > 0 {
        lemma_units_by_color(roster.drop_last());
        lemma_length_by_color(roster.last().contents);
    }
}

/// A rearrangement holds as many units as the roster it rearranges.
pub proof fn lemma_rearrangement_keeps_unit_total(before: Seq<CupView>, after: Seq<CupView>)
    requires
        is_rearrangement(before, after),
    ensures
        unit_total(after) == unit_total(before),
{
    lemma_units_by_color(before);
    lemma_units_by_color(after);
}

/// A roster is solved exactly when every cup is monochrome and every colour
/// sits in at most one cup.
pub proof fn lemma_solved_iff_consolidated(roster: Seq<CupView>)
    ensures
        is_solved(roster) <==> all_monochrome(roster) && colors_consolidated(roster),
{
    if is_solved(roster) {
        assert forall|i: int, j: int, color: LiquidColors|
            #![trigger holds_color(roster[i], color), holds_color(roster[j], color)]
            0 <= i < roster.len() && 0 <= j < roster.len() && holds_color(roster[i], color)
                && holds_color(roster[j], color) implies i == j by {
            let ki = choose|k: int| 0 <= k < roster[i].contents.len() && roster[i].contents[k] == color;
            let kj = choose|k: int| 0 <= k < roster[j].contents.len() && roster[j].contents[k] == color;
            assert(roster[i].is_monochrome());
            assert(roster[j].is_monochrome());
            assert(roster[i].contents[ki] == roster[i].top());
            assert(roster[j].contents[kj] == roster[j].top());
            if i < j {
                assert(roster[i].top() != roster[j].top());
            } else if j < i {
                assert(roster[j].top() != roster[i].top());
            }
        }
    }
    if all_monochrome(roster) && colors_consolidated(roster) {
        assert forall|i: int, j: int|
            #![trigger roster[i], roster[j]]
            0 <= i < j < roster.len() && !roster[i].is_empty() && !roster[j].is_empty() implies roster[i].top()
            != roster[j].top() by {
            let color = roster[i].top();
            assert(roster[i].contents[roster[i].contents.len() - 1] == color);
            assert(holds_color(roster[i], color));
            if roster[j].top() == color {
                assert(roster[j].contents[roster[j].contents.len() - 1] == color);
                assert(holds_color(roster[j], color));
            }
        }
    }
}

/// A cup holds units of a colour exactly when the colour occurs in it, and
/// never more of them than it holds units.
pub proof fn lemma_count_and_holds(cup: CupView, color: LiquidColors)
    ensures
        cup.count(color) > 0 <==> holds_color(cup, color),
        cup.count(color) <= cup.contents.len(),
    decreases cup.contents.len(),
{
    let units = cup.contents;
    if units.len() > 0 {
        let below = cup.without_top();
        lemma_count_and_holds(below, color);
        if holds_color(below, color) {
            let k = choose|k: int| 0 <= k < below.contents.len() && below.contents[k] == color;
            assert(units[k] == color);
        }
        if units.last() == color {
            assert(units[units.len() - 1] == color);
        }
        if holds_color(cup, color) {
            let k = choose|k: int| 0 <= k < units.len() && units[k] == color;
            if k < units.len() - 1 {
                assert(below.contents[k] == color);
            }
        }
    }
}

/// A roster holds at least the units of a colour that any one of its cups
/// holds, and at least those of any two.
pub proof fn lemma_color_total_at_least(roster: Seq<CupView>, i: int, j: int, color: LiquidColors)
    requires
        0 <= i < roster.len(),
        0 <= j < roster.len(),
    ensures
        color_total(roster, color) >= roster[i].count(color),
        i != j ==> color_total(roster, color) >= roster[i].count(color) + roster[j].count(color),
    decreases roster.len(),
{
    let last = roster.len() - 1;
    if i < last && j < last {
        lemma_color_total_at_least(roster.drop_last(), i, j, color);
    } else if i < last {
        lemma_color_total_at_least(roster.drop_last(), i, i, color);
    } else if j < last {
        lemma_color_total_at_least(roster.drop_last(), j, j, color);
    }
}

/// Where every colour sits in at most one cup, a roster holds no more units
/// of a colour than one of its cups can hold.
pub proof fn lemma_consolidated_color_fits_a_cup(
    roster: Seq<CupView>,
    color: LiquidColors,
    bound: nat,
)
    requires
        colors_consolidated(roster),
        forall|i: int| 0 <= i < roster.len() ==> (#[trigger] roster[i]).contents.len() <= bound,
    ensures
        color_total(roster, color) <= bound,
        forall|i: int|
            0 <= i < roster.len() && holds_color(#[trigger] roster[i], color) ==> color_total(
                roster,
                color,
            ) == roster[i].count(color),
    decreases roster.len(),
{
    if roster.len() > 0 {
        let rest = roster.drop_last();
        let last = roster.len() - 1;
        assert forall|i: int, j: int, c: LiquidColors|
            #![trigger holds_color(rest[i], c), holds_color(rest[j], c)]
            0 <= i < rest.len() && 0 <= j < rest.len() && holds_color(rest[i], c) && holds_color(
                rest[j],
                c,
            ) implies i == j by {
            assert(holds_color(roster[i], c) && holds_color(roster[j], c));
        }
        assert forall|i: int| 0 <= i < rest.len() implies (#[trigger] rest[i]).contents.len()
            <= bound by {
            assert(roster[i].contents.len() <= bound);
        }
        lemma_consolidated_color_fits_a_cup(rest, color, bound);
        lemma_count_and_holds(roster[last], color);
        assert(roster[last].contents.len() <= bound);
        assert forall|i: int| 0 <= i < roster.len() && holds_color(
            #[trigger] roster[i],
            color,
        ) implies color_total(roster, color) == roster[i].count(color) by {
            if i < last {
                assert(holds_color(rest[i], color));
                assert(!holds_color(roster[last], color));
            } else {
                assert forall|k: int| 0 <= k < rest.len() implies !holds_color(
                    #[trigger] rest[k],
                    color,
                ) by {
                    assert(rest[k] == roster[k]);
                    if holds_color(roster[k], color) {
                        assert(holds_color(roster[last], color));
                    }
                }
                lemma_absent_color_total(rest, color);
            }
        }
        if holds_color(roster[last], color) {
            assert(color_total(roster, color) == roster[last].count(color));
        }
    }
}

/// A colour that occurs in no cup has no units in the roster.
pub proof fn lemma_absent_color_total(roster: Seq<CupView>, color: LiquidColors)
    requires
        forall|i: int| 0 <= i < roster.len() ==> !holds_color(#[trigger] roster[i], color),
    ensures
        color_total(roster, color) == 0,
    decreases roster.len(),
{
    if roster.len() > 0 {
        let rest = roster.drop_last();
        assert forall|i: int| 0 <= i < rest.len() implies !holds_color(
            #[trigger] rest[i],
            color,
        ) by {
            assert(rest[i] == roster[i]);
        }
        lemma_absent_color_total(rest, color);
        lemma_count_and_holds(roster.last(), color);
        assert(!holds_color(roster[roster.len() - 1], color));
    }
}

/// In a solved roster no colour has more units than one cup can hold: where
/// no cup holds more than `bound` units, no colour has more than `bound`.
pub proof fn lemma_solved_color_fits_a_cup(roster: Seq<CupView>, color: LiquidColors, bound: nat)
    requires
        is_solved(roster),
        forall|i: int| 0 <= i < roster.len() ==> (#[trigger] roster[i]).contents.len() <= bound,
    ensures
        color_total(roster, color) <= bound,
{
    lemma_solved_iff_consolidated(roster);
    lemma_consolidated_color_fits_a_cup(roster, color, bound);
}

/// A pour that is refused changes nothing, so the roster that stays is a
/// rearrangement of itself.
pub proof fn lemma_rearrangement_reflexive(roster: Seq<CupView>)
    ensures
        is_rearrangement(roster, roster),
{
}

/// A rearrangement of a rearrangement is a rearrangement.
pub proof fn lemma_rearrangement_transitive(
    first: Seq<CupView>,
    second: Seq<CupView>,
    third: Seq<CupView>,
)
    requires
        is_rearrangement(first, second),
        is_rearrangement(second, third),
    ensures
        is_rearrangement(first, third),
{
    assert forall|color: LiquidColors| #[trigger]
        color_total(third, color) == color_total(first, color) by {
        assert(color_total(second, color) == color_total(first, color));
    }
    assert forall|i: int| 0 <= i < first.len() implies #[trigger] third[i].capacity
        == first[i].capacity by {
        assert(second[i].capacity == first[i].capacity);
    }
    assert forall|i: int| 0 <= i < first.len() && first[i].wf() implies #[trigger] third[i].wf() by {
        assert(second[i].wf());
    }
}

/// Whatever moves are tried, the roster they leave is a rearrangement of the
/// roster they began with.
pub proof fn lemma_moves_rearrange(roster: Seq<CupView>, moves: Seq<(int, int)>)
    requires
        moves_in_range(moves, roster.len()),
    ensures
        is_rearrangement(roster, roster_after_moves(roster, moves)),
    decreases moves.len(),
{
    if moves.len() > 0 {
        let earlier = roster_after_moves(roster, moves.drop_last());
        let (src, dst) = moves.last();
        assert(moves_in_range(moves.drop_last(), roster.len())) by {
            assert forall|k: int| 0 <= k < moves.drop_last().len() implies 0 <= (
            #[trigger] moves.drop_last()[k]).0 < roster.len() && 0 <= moves.drop_last()[k].1
                < roster.len() by {
                assert(moves.drop_last()[k] == moves[k]);
            }
        }
        lemma_moves_rearrange(roster, moves.drop_last());
        if roster_after_pour(earlier, src, dst, PourRule::Unrestricted) is Ok {
            lemma_pour_moves_one_unit(earlier, src, dst, PourRule::Unrestricted);
        }
        lemma_rearrangement_transitive(
            roster,
            earlier,
            roster_after_moves(roster, moves),
        );
    }
}

/// A shuffle is a rearrangement: it keeps the cups, their capacities and
/// the number of units of each colour, and fills no cup beyond its capacity.
pub proof fn lemma_shuffle_rearranges(before: Seq<CupView>, rounds: nat, after: Seq<CupView>)
    requires
        is_shuffle_of(before, rounds, after),
    ensures
        is_rearrangement(before, after),
        all_wf(before) ==> all_wf(after),
{
    let moves = choose|moves: Seq<(int, int)>|
        moves.len() == rounds && moves_in_range(moves, before.len())
            && #[trigger] roster_after_moves(before, moves) == after;
    lemma_moves_rearrange(before, moves);
}

/// Pours one unit from the cup at `src` into the cup at `dst` and, where the
/// pour succeeds, puts the two new cups in their places. Where it is
/// refused, the roster stays as it is and the error says why.
pub fn pour_between(cups: &mut Vec<Cup>, src: usize, dst: usize, rule: PourRule) -> (r: Result<
    (),
    PourError,
>)
    requires
        src < old(cups)@.len(),
        dst < old(cups)@.len(),
    ensures
        match r {
            Ok(()) => roster_after_pour(roster_view(old(cups)@), src as int, dst as int, rule)
                == Ok::<Seq<CupView>, PourError>(roster_view(final(cups)@)),
            Err(e) => roster_after_pour(roster_view(old(cups)@), src as int, dst as int, rule)
                == Err::<Seq<CupView>, PourError>(e) && final(cups)@ == old(cups)@,
        },
        roster_view(final(cups)@) == roster_after_try(
            roster_view(old(cups)@),
            src as int,
            dst as int,
            rule,
        ),
        is_rearrangement(roster_view(old(cups)@), roster_view(final(cups)@)),
{
    let ghost before = roster_view(cups@);
    match pour_one_unit(src == dst, &cups[src], &cups[dst], rule) {
        Ok((new_src, new_dst)) => {
            let ghost expected = before.update(src as int, new_src@).update(dst as int, new_dst@);
            cups[src] = new_src;
            cups[dst] = new_dst;
            proof {
                assert(roster_view(cups@) =~= expected);
                lemma_pour_moves_one_unit(before, src as int, dst as int, rule);
            }
            Ok(())
        },
        Err(e) => Err(e),
    }
}

} // verus!
