use vstd::prelude::*;

use crate::paths::{is_filled, Credentials};

verus! {

/// The pages of the main window.
#[derive(Debug, Clone, Copy, PartialEq, Eq, Structural)]
pub enum Screen {
    /// Entering the API credentials.
    Setup,
    /// Signed out: the button that signs in through the browser.
    SignIn,
    /// The channel's videos.
    Videos,
}

impl Screen {
    /// The name of the page in the window's stack.
    pub fn page_name(&self) -> (name: &'static str)
        ensures
            name@ == match *self {
                Screen::Setup => "setup"@,
                Screen::SignIn => "auth"@,
                Screen::Videos => "videos"@,
            },
    {
        match self {
            Screen::Setup => "setup",
            Screen::SignIn => "auth",
            Screen::Videos => "videos",
        }
    }
}

/// The page that the window opens on: the credentials form while the
/// credentials are incomplete, then the videos when a saved token was found,
/// and otherwise the signed-out page that offers to sign in.
pub fn startup_screen(creds: &Credentials, token_found: bool) -> (s: Screen)
    ensures
        !(is_filled(creds.client_id) && is_filled(creds.client_secret)) ==> s == Screen::Setup,
        is_filled(creds.client_id) && is_filled(creds.client_secret) && token_found ==> s
            == Screen::Videos,
        is_filled(creds.client_id) && is_filled(creds.client_secret) && !token_found ==> s
            == Screen::SignIn,
{
    if !creds.has_valid_credentials() {
        Screen::Setup
    } else if token_found {
        Screen::Videos
    } else {
        Screen::SignIn
    }
}

} // verus!
