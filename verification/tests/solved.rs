use terminal_barista::cup::{are_cups_solved, is_monochrome, Cup};
use terminal_barista::liquids::LiquidColors;

fn cup5(liquids: Vec<LiquidColors>) -> Cup {
    Cup {
        capacity: 5,
        liquids,
    }
}

#[test]
fn sorted_colors_with_spare_cups_are_solved() {
    let cups = vec![
        cup5(vec![LiquidColors::Red, LiquidColors::Red]),
        cup5(vec![LiquidColors::Green]),
        cup5(vec![]),
        cup5(vec![]),
    ];
    assert!(are_cups_solved(&cups));
}

#[test]
fn mixed_cup_is_not_solved() {
    let cups = vec![
        cup5(vec![LiquidColors::Red, LiquidColors::Green]),
        cup5(vec![LiquidColors::Red]),
    ];
    assert!(!are_cups_solved(&cups));
}

#[test]
fn color_split_over_two_cups_is_not_solved() {
    let cups = vec![cup5(vec![LiquidColors::Red]), cup5(vec![LiquidColors::Red])];
    assert!(!are_cups_solved(&cups));
}

#[test]
fn no_cups_are_solved() {
    assert!(are_cups_solved(&[]));
}

#[test]
fn empty_cups_are_solved() {
    assert!(are_cups_solved(&[cup5(vec![]), cup5(vec![]), cup5(vec![])]));
}

#[test]
fn mixed_cup_below_a_fresh_top_is_not_solved() {
    let cups = vec![
        cup5(vec![LiquidColors::Blue]),
        cup5(vec![LiquidColors::Pink, LiquidColors::Yellow, LiquidColors::Yellow]),
    ];
    assert!(!are_cups_solved(&cups));
}

#[test]
fn split_color_far_apart_is_not_solved() {
    let cups = vec![
        cup5(vec![LiquidColors::Yellow; 5]),
        cup5(vec![]),
        cup5(vec![LiquidColors::Red; 5]),
        cup5(vec![LiquidColors::Green; 2]),
        cup5(vec![LiquidColors::Yellow]),
    ];
    assert!(!are_cups_solved(&cups));
}

#[test]
fn all_six_colors_sorted_are_solved() {
    let cups = vec![
        cup5(vec![LiquidColors::Red; 5]),
        cup5(vec![LiquidColors::Green; 4]),
        cup5(vec![LiquidColors::Blue; 3]),
        cup5(vec![]),
        cup5(vec![LiquidColors::Pink; 2]),
        cup5(vec![LiquidColors::BabyBlue; 1]),
        cup5(vec![LiquidColors::Yellow; 5]),
    ];
    assert!(are_cups_solved(&cups));
}

#[test]
fn order_of_cups_does_not_matter() {
    let mut cups = vec![
        cup5(vec![LiquidColors::Red; 2]),
        cup5(vec![]),
        cup5(vec![LiquidColors::Green; 3]),
    ];
    assert!(are_cups_solved(&cups));
    cups.reverse();
    assert!(are_cups_solved(&cups));
    cups.push(cup5(vec![LiquidColors::Green]));
    assert!(!are_cups_solved(&cups));
    cups.reverse();
    assert!(!are_cups_solved(&cups));
}

#[test]
fn monochrome_cups() {
    assert!(is_monochrome(&cup5(vec![])));
    assert!(is_monochrome(&cup5(vec![LiquidColors::Pink])));
    assert!(is_monochrome(&cup5(vec![LiquidColors::Pink; 4])));
    assert!(!is_monochrome(&cup5(vec![
        LiquidColors::Pink,
        LiquidColors::Pink,
        LiquidColors::Red
    ])));
    assert!(!is_monochrome(&cup5(vec![
        LiquidColors::Red,
        LiquidColors::Pink,
        LiquidColors::Pink
    ])));
    assert!(!is_monochrome(&cup5(vec![
        LiquidColors::Pink,
        LiquidColors::Red,
        LiquidColors::Pink
    ])));
}
