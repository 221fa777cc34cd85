use terminal_barista::app::{input_for_char, App, CurrentScreen, Flow, Input};
use terminal_barista::cup::Cup;
use terminal_barista::liquids::LiquidColors;

fn game(cups: Vec<Vec<LiquidColors>>) -> App {
    App {
        current_screen: CurrentScreen::Main,
        cups: cups
            .into_iter()
            .map(|liquids| Cup {
                capacity: 5,
                liquids,
            })
            .collect(),
        src_selection: None,
        tooltip: None,
    }
}

fn liquids_of(app: &App) -> Vec<Vec<LiquidColors>> {
    app.cups.iter().map(|c| c.liquids.clone()).collect()
}

fn units(app: &App, color: LiquidColors) -> usize {
    app.cups
        .iter()
        .map(|c| c.liquids.iter().filter(|l| **l == color).count())
        .sum()
}

#[test]
fn first_pick_is_the_source() {
    let mut app = game(vec![vec![LiquidColors::Red], vec![]]);
    app.select(2);
    assert_eq!(app.src_selection, Some(1));
    assert_eq!(app.current_screen, CurrentScreen::Main);
    assert_eq!(app.tooltip, None);
    assert_eq!(liquids_of(&app), vec![vec![LiquidColors::Red], vec![]]);
}

#[test]
fn second_pick_pours() {
    let mut app = game(vec![
        vec![LiquidColors::Red, LiquidColors::Green],
        vec![LiquidColors::Green],
        vec![],
    ]);
    app.select(1);
    app.select(2);
    assert_eq!(app.src_selection, None);
    assert_eq!(app.tooltip, None);
    assert_eq!(
        liquids_of(&app),
        vec![
            vec![LiquidColors::Red],
            vec![LiquidColors::Green, LiquidColors::Green],
            vec![]
        ]
    );
    assert_eq!(app.current_screen, CurrentScreen::Finished);
}

#[test]
fn pour_that_does_not_solve_keeps_playing() {
    let mut app = game(vec![
        vec![LiquidColors::Red, LiquidColors::Green],
        vec![LiquidColors::Green, LiquidColors::Red],
        vec![],
    ]);
    app.select(1);
    app.select(3);
    assert_eq!(
        liquids_of(&app),
        vec![
            vec![LiquidColors::Red],
            vec![LiquidColors::Green, LiquidColors::Red],
            vec![LiquidColors::Green]
        ]
    );
    assert_eq!(app.current_screen, CurrentScreen::Main);
    assert_eq!(app.src_selection, None);
}

#[test]
fn refused_pour_leaves_its_message() {
    let mut app = game(vec![
        vec![LiquidColors::Red],
        vec![LiquidColors::Green],
        vec![],
        vec![LiquidColors::Blue; 5],
    ]);
    let before = liquids_of(&app);

    app.select(1);
    app.select(2);
    assert_eq!(
        app.tooltip.as_deref(),
        Some("Source and destination colors do not match")
    );
    assert_eq!(app.src_selection, None);

    app.select(1);
    assert_eq!(app.tooltip, None);
    app.select(1);
    assert_eq!(app.tooltip.as_deref(), Some("Cannot pour a cup into itself"));
    assert_eq!(app.src_selection, None);

    app.select(3);
    app.select(1);
    assert_eq!(
        app.tooltip.as_deref(),
        Some("Source cup has no liquid to give")
    );

    app.select(1);
    app.select(4);
    assert_eq!(
        app.tooltip.as_deref(),
        Some("Destination cup has no space x_x")
    );

    assert_eq!(liquids_of(&app), before);
    assert_eq!(app.current_screen, CurrentScreen::Main);
}

#[test]
fn refused_pour_on_a_solved_roster_does_not_finish() {
    let mut app = game(vec![vec![LiquidColors::Red], vec![LiquidColors::Green]]);
    app.select(1);
    app.select(2);
    assert_eq!(
        app.tooltip.as_deref(),
        Some("Source and destination colors do not match")
    );
    assert_eq!(app.current_screen, CurrentScreen::Main);
}

#[test]
fn pick_zero_is_passed_over() {
    let mut app = game(vec![vec![LiquidColors::Red], vec![]]);
    app.tooltip = Some("old".to_string());
    app.select(0);
    assert_eq!(app.src_selection, None);
    assert_eq!(app.tooltip, None);
    app.select(1);
    app.tooltip = Some("old".to_string());
    app.select(0);
    assert_eq!(app.src_selection, Some(0));
    assert_eq!(app.tooltip, None);
    app.select(2);
    assert_eq!(liquids_of(&app), vec![vec![], vec![LiquidColors::Red]]);
}

#[test]
fn picks_outside_the_roster_pour_nothing() {
    let mut app = game(vec![
        vec![LiquidColors::Red, LiquidColors::Green],
        vec![LiquidColors::Green],
        vec![],
    ]);
    let before = liquids_of(&app);

    app.select(4);
    assert_eq!(app.src_selection, Some(3));
    app.select(1);
    assert_eq!(app.src_selection, None);
    assert_eq!(app.tooltip, None);
    assert_eq!(liquids_of(&app), before);

    app.select(1);
    app.select(9);
    assert_eq!(app.src_selection, None);
    assert_eq!(app.tooltip, None);
    assert_eq!(liquids_of(&app), before);

    app.select(u32::MAX);
    app.select(u32::MAX);
    assert_eq!(app.src_selection, None);
    assert_eq!(liquids_of(&app), before);

    app.select(1);
    app.select(3);
    assert_eq!(
        liquids_of(&app),
        vec![
            vec![LiquidColors::Red],
            vec![LiquidColors::Green],
            vec![LiquidColors::Green]
        ]
    );
    assert_eq!(app.current_screen, CurrentScreen::Main);
}

#[test]
fn any_run_of_picks_keeps_the_roster_in_shape() {
    let mut app = game(vec![
        vec![LiquidColors::Red, LiquidColors::Green, LiquidColors::Red],
        vec![LiquidColors::Green, LiquidColors::Red],
        vec![LiquidColors::Green],
        vec![],
    ]);
    let mut pick: u32 = 7;
    for _ in 0..2000 {
        pick = (pick * 31 + 11) % 10;
        app.select(pick);
        assert_eq!(app.cups.len(), 4);
        for c in &app.cups {
            assert_eq!(c.capacity, 5);
            assert!(c.liquids.len() <= 5);
        }
        assert_eq!(units(&app, LiquidColors::Red), 3);
        assert_eq!(units(&app, LiquidColors::Green), 3);
        assert_eq!(units(&app, LiquidColors::Blue), 0);
    }
}

#[test]
fn picks_on_an_empty_roster() {
    let mut app = game(vec![]);
    for pick in [1, 0, 5, 1, 1, 9] {
        app.select(pick);
        assert!(app.cups.is_empty());
        assert_eq!(app.tooltip, None);
    }
}

#[test]
fn quit_is_passed_on() {
    let mut app = game(vec![vec![LiquidColors::Red], vec![]]);
    app.src_selection = Some(0);
    app.tooltip = Some("kept".to_string());
    assert_eq!(app.handle_input(Input::Quit), Flow::Quit);
    assert_eq!(app.src_selection, Some(0));
    assert_eq!(app.tooltip.as_deref(), Some("kept"));
    assert_eq!(liquids_of(&app), vec![vec![LiquidColors::Red], vec![]]);
    app.current_screen = CurrentScreen::Finished;
    assert_eq!(app.handle_input(Input::Quit), Flow::Quit);
    assert_eq!(app.current_screen, CurrentScreen::Finished);
}

#[test]
fn picks_count_only_while_playing() {
    for screen in [CurrentScreen::Welcome, CurrentScreen::Finished] {
        let mut app = game(vec![vec![LiquidColors::Red], vec![]]);
        app.current_screen = screen;
        app.tooltip = Some("kept".to_string());
        assert_eq!(app.handle_input(Input::Pick(1)), Flow::Continue);
        assert_eq!(app.handle_input(Input::Pick(2)), Flow::Continue);
        assert_eq!(app.src_selection, None);
        assert_eq!(app.tooltip.as_deref(), Some("kept"));
        assert_eq!(app.current_screen, screen);
        assert_eq!(liquids_of(&app), vec![vec![LiquidColors::Red], vec![]]);
    }
}

#[test]
fn playing_through_inputs_finishes_and_restarts() {
    let mut app = game(vec![
        vec![LiquidColors::Red, LiquidColors::Green],
        vec![LiquidColors::Green],
    ]);
    assert_eq!(app.handle_input(Input::Restart), Flow::Continue);
    assert_eq!(app.cups.len(), 2);
    assert_eq!(app.handle_input(Input::Pick(1)), Flow::Continue);
    assert_eq!(app.src_selection, Some(0));
    assert_eq!(app.handle_input(Input::Pick(2)), Flow::Continue);
    assert_eq!(app.current_screen, CurrentScreen::Finished);

    assert_eq!(app.handle_input(Input::Restart), Flow::Continue);
    assert_eq!(app.current_screen, CurrentScreen::Main);
    assert_eq!(app.src_selection, None);
    assert_eq!(app.tooltip, None);
    assert_eq!(app.cups.len(), 10);
    assert_eq!(units(&app, LiquidColors::Green), 10);
    assert_eq!(units(&app, LiquidColors::Yellow), 5);
}

#[test]
fn new_game_is_a_hard_puzzle() {
    let app = App::new();
    assert_eq!(app.current_screen, CurrentScreen::Main);
    assert_eq!(app.src_selection, None);
    assert_eq!(app.tooltip, None);
    assert_eq!(app.cups.len(), 10);
    for c in &app.cups {
        assert_eq!(c.capacity, 5);
        assert!(c.liquids.len() <= 5);
    }
    assert_eq!(units(&app, LiquidColors::Red), 5);
    assert_eq!(units(&app, LiquidColors::Green), 10);
    assert_eq!(units(&app, LiquidColors::Blue), 5);
    assert_eq!(units(&app, LiquidColors::Pink), 10);
    assert_eq!(units(&app, LiquidColors::BabyBlue), 5);
    assert_eq!(units(&app, LiquidColors::Yellow), 5);
}

#[test]
fn default_game_has_not_begun() {
    let app = App::default();
    assert_eq!(app.current_screen, CurrentScreen::Welcome);
    assert_eq!(CurrentScreen::default(), CurrentScreen::Welcome);
    assert!(app.cups.is_empty());
    assert_eq!(app.src_selection, None);
    assert_eq!(app.tooltip, None);
}

#[test]
fn characters_become_inputs() {
    assert_eq!(input_for_char('q'), Some(Input::Quit));
    assert_eq!(input_for_char('0'), Some(Input::Pick(0)));
    assert_eq!(input_for_char('1'), Some(Input::Pick(1)));
    assert_eq!(input_for_char('7'), Some(Input::Pick(7)));
    assert_eq!(input_for_char('9'), Some(Input::Pick(9)));
    assert_eq!(input_for_char('/'), None);
    assert_eq!(input_for_char(':'), None);
    assert_eq!(input_for_char('Q'), None);
    assert_eq!(input_for_char('x'), None);
    assert_eq!(input_for_char('\u{0663}'), None);
}
