//! The compositor actions that keybindings trigger.
use vstd::prelude::*;

verus! {

#[derive(Clone, Copy, Debug, PartialEq, Eq, Structural, Hash)]
pub enum Action {
    Quit,
    SpawnTerminal,
    ZoomIn,
    ZoomOut,
    ResetZoom,
    PanLeft,
    PanRight,
    PanUp,
    PanDown,
    FocusLeft,
    FocusRight,
    FocusUp,
    FocusDown,
    CenterFocused,
    FitAll,
    MoveClusterLeft,
    MoveClusterRight,
    MoveClusterUp,
    MoveClusterDown,
    FitFocusedCluster,
}

/// The configuration name of each action.
pub open spec fn action_name(a: Action) -> Seq<char> {
    match a {
        Action::Quit => "quit"@,
        Action::SpawnTerminal => "spawn_terminal"@,
        Action::ZoomIn => "zoom_in"@,
        Action::ZoomOut => "zoom_out"@,
        Action::ResetZoom => "reset_zoom"@,
        Action::PanLeft => "pan_left"@,
        Action::PanRight => "pan_right"@,
        Action::PanUp => "pan_up"@,
        Action::PanDown => "pan_down"@,
        Action::FocusLeft => "focus_left"@,
        Action::FocusRight => "focus_right"@,
        Action::FocusUp => "focus_up"@,
        Action::FocusDown => "focus_down"@,
        Action::CenterFocused => "center_focused"@,
        Action::FitAll => "fit_all"@,
        Action::MoveClusterLeft => "move_cluster_left"@,
        Action::MoveClusterRight => "move_cluster_right"@,
        Action::MoveClusterUp => "move_cluster_up"@,
        Action::MoveClusterDown => "move_cluster_down"@,
        Action::FitFocusedCluster => "fit_focused_cluster"@,
    }
}

impl Action {
    pub fn name(self) -> (n: &'static str)
        ensures
            n@ == action_name(self),
    {
        match self {
            Action::Quit => "quit",
            Action::SpawnTerminal => "spawn_terminal",
            Action::ZoomIn => "zoom_in",
            Action::ZoomOut => "zoom_out",
            Action::ResetZoom => "reset_zoom",
            Action::PanLeft => "pan_left",
            Action::PanRight => "pan_right",
            Action::PanUp => "pan_up",
            Action::PanDown => "pan_down",
            Action::FocusLeft => "focus_left",
            Action::FocusRight => "focus_right",
            Action::FocusUp => "focus_up",
            Action::FocusDown => "focus_down",
            Action::CenterFocused => "center_focused",
            Action::FitAll => "fit_all",
            Action::MoveClusterLeft => "move_cluster_left",
            Action::MoveClusterRight => "move_cluster_right",
            Action::MoveClusterUp => "move_cluster_up",
            Action::MoveClusterDown => "move_cluster_down",
            Action::FitFocusedCluster => "fit_focused_cluster",
        }
    }
}

} // verus!
