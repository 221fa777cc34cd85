//! The starting layouts: which cups a game of each difficulty begins with.

use crate::cup::{count_of, scramble_cups, Cup, CupView, SCRAMBLE_ROUNDS};
use crate::liquids::LiquidColors;
use crate::roster::{
    all_wf, color_total, is_rearrangement, is_shuffle_of, is_solved, lemma_color_total_at_least,
    lemma_roster_view_push, lemma_shuffle_rearranges, lemma_solved_color_fits_a_cup, roster_view,
};
use vstd::prelude::*;

verus! {

/// The capacity of every cup in a generated layout.
pub const CAPACITY: usize = 5;

/// How hard a generated puzzle is.
#[derive(Debug, PartialEq, Eq, Clone, Copy, Structural)]
pub enum SimpleDifficulties {
    Easy,
    Medium,
    Hard,
}

/// A cup of [`CAPACITY`] filled to the brim with `color`.
pub open spec fn full_cup(color: LiquidColors) -> CupView {
    CupView { capacity: CAPACITY as nat, contents: Seq::new(CAPACITY as nat, |i: int| color) }
}

/// A cup of [`CAPACITY`] that holds nothing.
pub open spec fn empty_cup() -> CupView {
    CupView { capacity: CAPACITY as nat, contents: Seq::empty() }
}

/// The colours of the full cups of a layout, in the order of the cups.
pub open spec fn full_cup_colors(diff: SimpleDifficulties) -> Seq<LiquidColors> {
    match diff {
        SimpleDifficulties::Easy => seq![LiquidColors::Red, LiquidColors::Green],
        SimpleDifficulties::Medium => seq![
            LiquidColors::Red,
            LiquidColors::Green,
            LiquidColors::Blue,
            LiquidColors::BabyBlue,
            LiquidColors::Pink,
            LiquidColors::Yellow,
        ],
        SimpleDifficulties::Hard => seq![
            LiquidColors::Red,
            LiquidColors::Green,
            LiquidColors::Blue,
            LiquidColors::BabyBlue,
            LiquidColors::Pink,
            LiquidColors::Yellow,
            LiquidColors::Green,
            LiquidColors::Pink,
        ],
    }
}

/// How many empty cups a layout has.
pub open spec fn empty_cup_count(diff: SimpleDifficulties) -> nat {
    match diff {
        SimpleDifficulties::Easy => 1,
        SimpleDifficulties::Medium => 2,
        SimpleDifficulties::Hard => 2,
    }
}

/// The layout of a difficulty before it is shuffled: one full cup for each
/// entry of [`full_cup_colors`], then the empty cups.
pub open spec fn sorted_layout(diff: SimpleDifficulties) -> Seq<CupView> {
    Seq::new(full_cup_colors(diff).len(), |i: int| full_cup(full_cup_colors(diff)[i])) + Seq::new(
        empty_cup_count(diff),
        |i: int| empty_cup(),
    )
}

/// `roster` is a puzzle of the given difficulty: what a shuffle has made of
/// the sorted layout.
pub open spec fn is_puzzle(diff: SimpleDifficulties, roster: Seq<CupView>) -> bool {
    is_shuffle_of(sorted_layout(diff), SCRAMBLE_ROUNDS as nat, roster)
}

/// A puzzle has the cups of its sorted layout, each of [`CAPACITY`] and
/// none filled beyond it, and holds as many units of each colour as the
/// sorted layout does.
pub proof fn lemma_puzzle_shape(diff: SimpleDifficulties, roster: Seq<CupView>)
    requires
        is_puzzle(diff, roster),
    ensures
        is_rearrangement(sorted_layout(diff), roster),
        roster.len() == full_cup_colors(diff).len() + empty_cup_count(diff),
        forall|i: int| 0 <= i < roster.len() ==> (#[trigger] roster[i]).capacity == CAPACITY,
        all_wf(roster),
{
    let sorted = sorted_layout(diff);
    assert forall|i: int| 0 <= i < sorted.len() implies (#[trigger] sorted[i]).capacity == CAPACITY
        && sorted[i].wf() by {
        if i < full_cup_colors(diff).len() {
            assert(sorted[i] == full_cup(full_cup_colors(diff)[i]));
        } else {
            assert(sorted[i] == empty_cup());
        }
    }
    lemma_shuffle_rearranges(sorted, SCRAMBLE_ROUNDS as nat, roster);
    assert forall|i: int| 0 <= i < roster.len() implies (#[trigger] roster[i]).capacity
        == CAPACITY by {
        assert(sorted[i].capacity == CAPACITY);
    }
}

/// A full cup holds [`CAPACITY`] units of its colour.
pub proof fn lemma_full_cup_count(color: LiquidColors)
    ensures
        full_cup(color).count(color) == CAPACITY,
{
    let units = full_cup(color).contents;
    let four = units.drop_last();
    let three = four.drop_last();
    let two = three.drop_last();
    let one = two.drop_last();
    assert(count_of(one.drop_last(), color) == 0);
    assert(count_of(one, color) == 1);
    assert(count_of(two, color) == 2);
    assert(count_of(three, color) == 3);
    assert(count_of(four, color) == 4);
}

/// The sorted layouts of the easy and the medium difficulty are solved: a
/// puzzle of either can be brought back to where it came from.
pub proof fn lemma_sorted_layout_solved(diff: SimpleDifficulties)
    requires
        diff != SimpleDifficulties::Hard,
    ensures
        is_solved(sorted_layout(diff)),
{
    let sorted = sorted_layout(diff);
    let colors = full_cup_colors(diff);
    assert forall|i: int| 0 <= i < sorted.len() implies (#[trigger] sorted[i]).is_monochrome() by {
        if i < colors.len() {
            assert(sorted[i] == full_cup(colors[i]));
        } else {
            assert(sorted[i] == empty_cup());
        }
    }
    assert forall|i: int, j: int|
        #![trigger sorted[i], sorted[j]]
        0 <= i < j < sorted.len() && !sorted[i].is_empty() && !sorted[j].is_empty() implies sorted[i].top()
        != sorted[j].top() by {
        if j < colors.len() {
            assert(sorted[i] == full_cup(colors[i]));
            assert(sorted[j] == full_cup(colors[j]));
        } else {
            assert(sorted[j] == empty_cup());
        }
    }
}

/// A hard puzzle never counts as solved. It holds two cups' worth of green,
/// and a solved roster holds each colour in one cup.
pub proof fn lemma_hard_puzzle_never_solved(roster: Seq<CupView>)
    requires
        is_puzzle(SimpleDifficulties::Hard, roster),
    ensures
        !is_solved(roster),
{
    let sorted = sorted_layout(SimpleDifficulties::Hard);
    let green = LiquidColors::Green;
    lemma_puzzle_shape(SimpleDifficulties::Hard, roster);
    assert(sorted[1] == full_cup(green));
    assert(sorted[6] == full_cup(green));
    lemma_full_cup_count(green);
    lemma_color_total_at_least(sorted, 1, 6, green);
    assert(color_total(roster, green) == color_total(sorted, green));
    if is_solved(roster) {
        assert forall|i: int| 0 <= i < roster.len() implies (#[trigger] roster[i]).contents.len()
            <= CAPACITY by {
            assert(roster[i].wf());
        }
        lemma_solved_color_fits_a_cup(roster, green, CAPACITY as nat);
    }
}

/// A cup of [`CAPACITY`] filled to the brim with `color`.
pub fn get_full_cup(color: LiquidColors) -> (cup: Cup)
    ensures
        cup@ == full_cup(color),
{
    let mut liquids: Vec<LiquidColors> = Vec::new();
    let mut i: usize = 0;
    while i < CAPACITY
        invariant
            i <= CAPACITY,
            liquids@ == Seq::new(i as nat, |k: int| color),
        decreases CAPACITY - i,
    {
        liquids.push(color);
        i += 1;
        assert(liquids@ =~= Seq::new(i as nat, |k: int| color));
    }
    Cup { capacity: CAPACITY, liquids }
}

/// A cup of [`CAPACITY`] that holds nothing.
pub fn get_empty_cup() -> (cup: Cup)
    ensures
        cup@ == empty_cup(),
{
    Cup { capacity: CAPACITY, liquids: Vec::new() }
}

/// The colours of the full cups of a layout, in the order of the cups.
fn colors_of_full_cups(diff: SimpleDifficulties) -> (colors: Vec<LiquidColors>)
    ensures
        colors@ == full_cup_colors(diff),
{
    let mut colors: Vec<LiquidColors> = Vec::new();
    colors.push(LiquidColors::Red);
    colors.push(LiquidColors::Green);
    if diff != SimpleDifficulties::Easy {
        colors.push(LiquidColors::Blue);
        colors.push(LiquidColors::BabyBlue);
        colors.push(LiquidColors::Pink);
        colors.push(LiquidColors::Yellow);
    }
    if diff == SimpleDifficulties::Hard {
        colors.push(LiquidColors::Green);
        colors.push(LiquidColors::Pink);
    }
    assert(colors@ =~= full_cup_colors(diff));
    colors
}

/// The cups of a difficulty before they are shuffled: each colour in full
/// cups of its own, then the empty cups.
pub fn sorted_cups(diff: SimpleDifficulties) -> (cups: Vec<Cup>)
    ensures
        roster_view(cups@) == sorted_layout(diff),
{
    let colors = colors_of_full_cups(diff);
    let empties: usize = if diff == SimpleDifficulties::Easy {
        1
    } else {
        2
    };
    let mut cups: Vec<Cup> = Vec::new();
    let mut i: usize = 0;
    while i < colors.len()
        invariant
            i <= colors@.len(),
            colors@ == full_cup_colors(diff),
            roster_view(cups@) == Seq::new(i as nat, |k: int| full_cup(full_cup_colors(diff)[k])),
        decreases colors@.len() - i,
    {
        let cup = get_full_cup(colors[i]);
        proof {
            lemma_roster_view_push(cups@, cup);
        }
        cups.push(cup);
        i += 1;
        assert(roster_view(cups@) =~= Seq::new(
            i as nat,
            |k: int| full_cup(full_cup_colors(diff)[k]),
        ));
    }
    let ghost full = roster_view(cups@);
    let mut j: usize = 0;
    while j < empties
        invariant
            j <= empties,
            roster_view(cups@) == full + Seq::new(j as nat, |k: int| empty_cup()),
        decreases empties - j,
    {
        let cup = get_empty_cup();
        proof {
            lemma_roster_view_push(cups@, cup);
        }
        cups.push(cup);
        j += 1;
        assert(roster_view(cups@) =~= full + Seq::new(j as nat, |k: int| empty_cup()));
    }
    cups
}

/// An easy puzzle: two colours, each enough to fill one cup, and one cup to
/// spare, shuffled.
pub fn generate_easy_cups() -> (cups: Vec<Cup>)
    ensures
        is_puzzle(SimpleDifficulties::Easy, roster_view(cups@)),
{
    scramble_cups(sorted_cups(SimpleDifficulties::Easy))
}

/// A medium puzzle: six colours, each enough to fill one cup, and two cups
/// to spare, shuffled.
pub fn generate_medium_cups() -> (cups: Vec<Cup>)
    ensures
        is_puzzle(SimpleDifficulties::Medium, roster_view(cups@)),
{
    scramble_cups(sorted_cups(SimpleDifficulties::Medium))
}

/// A hard puzzle: six colours, two of them enough to fill two cups and the
/// others one, and two cups to spare, shuffled.
pub fn generate_hard_cups() -> (cups: Vec<Cup>)
    ensures
        is_puzzle(SimpleDifficulties::Hard, roster_view(cups@)),
{
    scramble_cups(sorted_cups(SimpleDifficulties::Hard))
}

/// A puzzle of the given difficulty: its sorted layout, shuffled. Nothing
/// says that the puzzle that comes back can be solved.
pub fn generate_cups(diff: SimpleDifficulties) -> (cups: Vec<Cup>)
    ensures
        is_puzzle(diff, roster_view(cups@)),
{
    match diff {
        SimpleDifficulties::Easy => generate_easy_cups(),
        SimpleDifficulties::Medium => generate_medium_cups(),
        SimpleDifficulties::Hard => generate_hard_cups(),
    }
}

} // verus!
