//! The state of a game, and the protocol by which the player's picks become
//! pours: a first pick names the source cup, a second one the destination.

use crate::cup::{are_cups_solved, Cup, CupView, PourRule};
use crate::level_creator::{generate_cups, is_puzzle, SimpleDifficulties};
use crate::roster::{
    is_rearrangement, is_solved, lemma_pour_moves_one_unit, pour_between, roster_after_pour,
    roster_view,
};
use vstd::prelude::*;

verus! {

/// The phase a game is in.
#[derive(Debug, PartialEq, Eq, Clone, Copy, Structural)]
pub enum CurrentScreen {
    Welcome,
    Main,
    Finished,
}

impl Default for CurrentScreen {
    fn default() -> (screen: CurrentScreen)
        ensures
            screen == CurrentScreen::Welcome,
    {
        CurrentScreen::Welcome
    }
}

/// A game: its phase, its cups, the source cup that was picked and waits for
/// a destination, and the message left by the last action.
#[derive(Debug)]
pub struct App {
    pub current_screen: CurrentScreen,
    pub cups: Vec<Cup>,
    /// The index of the pending source cup, counted from 0.
    pub src_selection: Option<u32>,
    pub tooltip: Option<String>,
}

/// A game as a mathematical value.
pub struct AppView {
    pub screen: CurrentScreen,
    pub roster: Seq<CupView>,
    pub selection: Option<u32>,
    pub tooltip: Option<Seq<char>>,
}

impl View for App {
    type V = AppView;

    open spec fn view(&self) -> AppView {
        AppView {
            screen: self.current_screen,
            roster: roster_view(self.cups@),
            selection: self.src_selection,
            tooltip: match self.tooltip {
                Some(text) => Some(text@),
                None => None,
            },
        }
    }
}

/// What reaches the game from the player.
#[derive(Debug, PartialEq, Eq, Clone, Copy, Structural)]
pub enum Input {
    /// A cup was picked by its number, counted from 1 as the player sees
    /// them. 0 names no cup.
    Pick(u32),
    /// A new game was asked for.
    Restart,
    /// The player wants to leave.
    Quit,
}

/// What the program is to do after an input.
#[derive(Debug, PartialEq, Eq, Clone, Copy, Structural)]
pub enum Flow {
    Continue,
    Quit,
}

/// The game after the player has picked cup number `pick`, counted from 1.
///
/// The message of the last action goes in any case. Pick 0 does nothing
/// more. With no source pending, the pick becomes the pending source. With
/// one pending, it is the destination, and no source is pending afterwards:
/// if either of the two lies outside the roster nothing else happens; if not,
/// one unit is poured under the rule of play. A pour that is refused leaves
/// its message, one that succeeds changes the roster and, where that leaves
/// the puzzle solved, finishes the game.
pub open spec fn after_pick(app: AppView, pick: u32) -> AppView {
    if pick == 0 {
        AppView { screen: app.screen, roster: app.roster, selection: app.selection, tooltip: None }
    } else {
        match app.selection {
            None => AppView {
                screen: app.screen,
                roster: app.roster,
                selection: Some((pick - 1) as u32),
                tooltip: None,
            },
            Some(src) => {
                let dst = pick - 1;
                if src >= app.roster.len() || dst >= app.roster.len() {
                    AppView {
                        screen: app.screen,
                        roster: app.roster,
                        selection: None,
                        tooltip: None,
                    }
                } else {
                    match roster_after_pour(app.roster, src as int, dst, PourRule::Restricted) {
                        Ok(roster) => AppView {
                            screen: if is_solved(roster) {
                                CurrentScreen::Finished
                            } else {
                                app.screen
                            },
                            roster,
                            selection: None,
                            tooltip: None,
                        },
                        Err(e) => AppView {
                            screen: app.screen,
                            roster: app.roster,
                            selection: None,
                            tooltip: Some(e.spec_message()),
                        },
                    }
                }
            },
        }
    }
}

/// The game after an input that does not start a new game: a pick counts
/// while the game is played and is passed over in the other phases, a
/// request to leave changes nothing, and a request for a new game is passed
/// over unless the game is finished.
pub open spec fn after_input(app: AppView, input: Input) -> AppView {
    match input {
        Input::Pick(pick) if app.screen == CurrentScreen::Main => after_pick(app, pick),
        _ => app,
    }
}

/// The game is a new one: it is being played, nothing is picked, no message
/// is shown, and the cups are a hard puzzle.
pub open spec fn is_new_game(app: AppView) -> bool {
    &&& app.screen == CurrentScreen::Main
    &&& app.selection.is_none()
    &&& app.tooltip.is_none()
    &&& is_puzzle(SimpleDifficulties::Hard, app.roster)
}

/// Whatever is picked, in range or not, and whatever was picked before, the
/// cups afterwards are a rearrangement of the cups before: none has come or
/// gone or changed its capacity, and no unit of any colour was made or lost.
/// A pick that completes a pair leaves no source pending, whether a pour
/// came of it or not.
pub proof fn lemma_pick_rearranges(app: AppView, pick: u32)
    ensures
        is_rearrangement(app.roster, after_pick(app, pick).roster),
        app.selection.is_some() && pick != 0 ==> after_pick(app, pick).selection.is_none(),
{
    if pick != 0 {
        if let Some(src) = app.selection {
            let dst = pick - 1;
            if src < app.roster.len() && dst < app.roster.len() {
                if roster_after_pour(app.roster, src as int, dst, PourRule::Restricted) is Ok {
                    lemma_pour_moves_one_unit(app.roster, src as int, dst, PourRule::Restricted);
                }
            }
        }
    }
}

/// No input but a request for a new game changes what the cups hold between
/// them: after any other input they are a rearrangement of what they were.
pub proof fn lemma_input_rearranges(app: AppView, input: Input)
    ensures
        is_rearrangement(app.roster, after_input(app, input).roster),
{
    if let Input::Pick(pick) = input {
        lemma_pick_rearranges(app, pick);
    }
}

/// The input that a typed character stands for: `q` asks to leave, a
/// decimal digit picks the cup of that number, and any other character
/// stands for nothing.
pub fn input_for_char(c: char) -> (input: Option<Input>)
    ensures
        input == if c == 'q' {
            Some(Input::Quit)
        } else if '0' <= c <= '9' {
            Some(Input::Pick((c as u32 - '0' as u32) as u32))
        } else {
            None
        },
{
    if c == 'q' {
        Some(Input::Quit)
    } else if '0' <= c && c <= '9' {
        Some(Input::Pick(c as u32 - '0' as u32))
    } else {
        None
    }
}

impl Default for App {
    /// A game that has not begun: no cups, nothing picked, no message.
    fn default() -> (app: App)
        ensures
            app@ == (AppView {
                screen: CurrentScreen::Welcome,
                roster: Seq::empty(),
                selection: None,
                tooltip: None,
            }),
    {
        let app = App {
            current_screen: CurrentScreen::Welcome,
            cups: Vec::new(),
            src_selection: None,
            tooltip: None,
        };
        assert(app@.roster =~= Seq::empty());
        app
    }
}

impl App {
    /// A new game of a hard puzzle.
    pub fn new() -> (app: App)
        ensures
            is_new_game(app@),
    {
        App {
            current_screen: CurrentScreen::Main,
            cups: generate_cups(SimpleDifficulties::Hard),
            src_selection: None,
            tooltip: None,
        }
    }

    /// Takes the player's pick of cup number `pick`, counted from 1: see
    /// [`after_pick`]. No pick, however far outside the roster, reaches
    /// beyond it.
    pub fn select(&mut self, pick: u32)
        ensures
            final(self)@ == after_pick(old(self)@, pick),
    {
        self.tooltip = None;
        if pick == 0 {
            return ;
        }
        let dst = (pick - 1) as usize;
        match self.src_selection {
            None => {
                self.src_selection = Some(pick - 1);
            },
            Some(src) => {
                self.src_selection = None;
                let src = src as usize;
                if src >= self.cups.len() || dst >= self.cups.len() {
                    return ;
                }
                match pour_between(&mut self.cups, src, dst, PourRule::Restricted) {
                    Ok(()) => {
                        if are_cups_solved(self.cups.as_slice()) {
                            self.current_screen = CurrentScreen::Finished;
                        }
                    },
                    Err(e) => {
                        self.tooltip = Some(e.message());
                    },
                }
            },
        }
    }

    /// Takes one input from the player and says whether the program goes on.
    ///
    /// A request to leave is passed on and changes nothing. A request for a
    /// new game, once the game is finished, replaces it by a new one. Every
    /// other input leaves the game as [`after_input`] says.
    pub fn handle_input(&mut self, input: Input) -> (flow: Flow)
        ensures
            flow == Flow::Quit <==> input == Input::Quit,
            input == Input::Restart && old(self)@.screen == CurrentScreen::Finished ==> is_new_game(
                final(self)@,
            ),
            !(input == Input::Restart && old(self)@.screen == CurrentScreen::Finished)
                ==> final(self)@ == after_input(old(self)@, input),
    {
        match input {
            Input::Quit => Flow::Quit,
            Input::Pick(pick) => {
                if self.current_screen == CurrentScreen::Main {
                    self.select(pick);
                }
                Flow::Continue
            },
            Input::Restart => {
                if self.current_screen == CurrentScreen::Finished {
                    *self = App::new();
                }
                Flow::Continue
            },
        }
    }
}

} // verus!
