//! The sign-in gate of the app shell: whether the content is held back, and
//! where the shell sends the user.
use vstd::prelude::*;

verus! {

/// Where the user stands with signing in.
#[derive(Debug, Clone, Copy, PartialEq, Eq, Structural)]
pub enum AuthStatus {
    /// Not known yet (the saved session is still being read).
    Pending,
    SignedOut,
    SignedIn,
}

/// Where the shell sends the user.
#[derive(Debug, Clone, Copy, PartialEq, Eq, Structural)]
pub enum ShellStep {
    /// Nothing to do.
    Stay,
    /// Remember the page asked for and show the sign-in page.
    RememberAndGoToLogin,
    /// Signed in on the sign-in page: go to the page remembered.
    GoToRemembered,
    /// Signed in on the sign-in page with nothing remembered: go to the notes.
    GoToNotes,
}

/// Whether the app's pages are hidden until the user signs in.
#[derive(Debug, Clone, Copy, PartialEq, Eq, Structural)]
pub struct RootShellState {
    pub gated: bool,
}

/// Whether pages are hidden, and where the user is sent, for a sign-in
/// status on the sign-in page or elsewhere, with or without a page
/// remembered.  Pages are hidden unless the user is signed in or on the
/// sign-in page; a signed-out user away from it is sent there; a signed-in
/// user on it is sent on.
pub fn shell_gate(status: AuthStatus, on_login: bool, has_remembered: bool) -> (r: (
    RootShellState,
    ShellStep,
))
    ensures
        r.0.gated == (status != AuthStatus::SignedIn && !on_login),
        r.1 == (if status == AuthStatus::SignedOut && !on_login {
            ShellStep::RememberAndGoToLogin
        } else if status == AuthStatus::SignedIn && on_login {
            if has_remembered {
                ShellStep::GoToRemembered
            } else {
                ShellStep::GoToNotes
            }
        } else {
            ShellStep::Stay
        }),
{
    let signed_in = match status {
        AuthStatus::SignedIn => true,
        _ => false,
    };
    let signed_out = match status {
        AuthStatus::SignedOut => true,
        _ => false,
    };
    let step = if signed_out && !on_login {
        ShellStep::RememberAndGoToLogin
    } else if signed_in && on_login {
        if has_remembered {
            ShellStep::GoToRemembered
        } else {
            ShellStep::GoToNotes
        }
    } else {
        ShellStep::Stay
    };
    (RootShellState { gated: !signed_in && !on_login }, step)
}

} // verus!
