//! The views of the installer and what they ask of the loop that shows them.

use vstd::prelude::*;
use crate::text::same_text;

verus! {

/// A view of the installer.
#[derive(Debug, Clone, Copy, PartialEq, Eq, Structural)]
pub enum Route {
    Main,
    Keyboard,
    Mirror,
    Locale,
    Timezone,
    Partition,
}

/// Number of the views.
pub const ROUTE_COUNT: usize = 6;

impl Route {
    /// The name under which the main menu lists the view.
    pub open spec fn name(self) -> Seq<char> {
        match self {
            Route::Main => "Main"@,
            Route::Keyboard => "Keyboard layout"@,
            Route::Mirror => "Mirror"@,
            Route::Locale => "Locale"@,
            Route::Timezone => "Timezone"@,
            Route::Partition => "Partition"@,
        }
    }

    /// The view that `text` names.
    pub open spec fn named(text: Seq<char>) -> Option<Route> {
        if text == "Main"@ {
            Some(Route::Main)
        } else if text == "Keyboard layout"@ {
            Some(Route::Keyboard)
        } else if text == "Mirror"@ {
            Some(Route::Mirror)
        } else if text == "Locale"@ {
            Some(Route::Locale)
        } else if text == "Timezone"@ {
            Some(Route::Timezone)
        } else if text == "Partition"@ {
            Some(Route::Partition)
        } else {
            None
        }
    }

    /// The position of the view among the views.
    pub open spec fn position(self) -> int {
        match self {
            Route::Main => 0,
            Route::Keyboard => 1,
            Route::Mirror => 2,
            Route::Locale => 3,
            Route::Timezone => 4,
            Route::Partition => 5,
        }
    }

    /// The view that `text` names, if it names one.
    pub fn from_name(text: &str) -> (route: Option<Route>)
        ensures
            route == Route::named(text@),
    {
        if same_text(text, "Main") {
            Some(Route::Main)
        } else if same_text(text, "Keyboard layout") {
            Some(Route::Keyboard)
        } else if same_text(text, "Mirror") {
            Some(Route::Mirror)
        } else if same_text(text, "Locale") {
            Some(Route::Locale)
        } else if same_text(text, "Timezone") {
            Some(Route::Timezone)
        } else if same_text(text, "Partition") {
            Some(Route::Partition)
        } else {
            None
        }
    }

    /// The position of the view among the views.
    pub fn index(self) -> (index: usize)
        ensures
            index == self.position(),
            index < ROUTE_COUNT,
    {
        match self {
            Route::Main => 0,
            Route::Keyboard => 1,
            Route::Mirror => 2,
            Route::Locale => 3,
            Route::Timezone => 4,
            Route::Partition => 5,
        }
    }
}

/// What the installer does when its views are closed.
#[derive(Debug, Clone, PartialEq, Eq)]
pub enum Operation {
    /// Saves the choices under the given path.
    SaveAs(String),
    Install,
    Quit,
}

/// What a view asks of the loop that shows it.
#[derive(Debug, Clone, PartialEq, Eq)]
pub enum Msg {
    Close(Operation),
    ChangeRoute(Route),
    BackToMain,
}

/// What the loop does with the request of a view.
#[derive(Debug, Clone, PartialEq, Eq)]
pub enum Step {
    /// Shows the given view next.
    Show(Route),
    /// Closes the views and does the operation.
    Finish(Operation),
}

/// What the loop does with the request of a view: it changes to the view asked for,
/// goes back to the main view, or closes.
pub fn next_step(msg: Msg) -> (step: Step)
    ensures
        step == (match msg {
            Msg::ChangeRoute(route) => Step::Show(route),
            Msg::BackToMain => Step::Show(Route::Main),
            Msg::Close(operation) => Step::Finish(operation),
        }),
{
    match msg {
        Msg::ChangeRoute(route) => Step::Show(route),
        Msg::BackToMain => Step::Show(Route::Main),
        Msg::Close(operation) => Step::Finish(operation),
    }
}

} // verus!
