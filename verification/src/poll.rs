//! The per-frame decisions of the polling loop: toggling the profile lock
//! with the Menu+Options combo, pausing for excluded apps, and switching
//! the active profile to the one of the frontmost app.

use vstd::prelude::*;

use crate::text::{contains_str, string_views};

verus! {

/// What the polling loop carries from one frame to the next.
#[derive(Debug, Clone, Copy, PartialEq, Eq)]
pub struct PollState {
    /// Whether the active profile is locked (no switching by frontmost app).
    pub profile_locked: bool,
    /// Whether Menu+Options was held last frame (for edge detection).
    pub lock_combo_was_held: bool,
    /// Index of the active profile.
    pub active_profile: usize,
}

/// What one frame decided.
#[derive(Debug, Clone, Copy, PartialEq, Eq)]
pub struct PollOutcome {
    /// The lock was toggled (its new value is in the state).
    pub lock_toggled: bool,
    /// The active profile was switched (to the one in the state).
    pub switched: bool,
    /// The frame goes on to translate input (the frontmost app is not excluded).
    pub proceed: bool,
}

/// One frame: while the daemon is switched off (`enabled` false) nothing
/// changes and the frame stops; otherwise pressing Menu+Options together
/// (on the frame the combo starts) toggles the lock, and locking makes the first profile active; then an
/// excluded frontmost app stops the frame; otherwise, unless locked, the
/// profile of the frontmost app (the first one when none matches) becomes
/// active.
pub open spec fn poll_step(
    s: PollState,
    enabled: bool,
    menu_held: bool,
    options_held: bool,
    excluded: bool,
    matched_profile: Option<usize>,
) -> (PollState, PollOutcome) {
    let combo = menu_held && options_held;
    let toggled = combo && !s.lock_combo_was_held;
    let locked = if toggled {
        !s.profile_locked
    } else {
        s.profile_locked
    };
    let active1 = if toggled && locked {
        0
    } else {
        s.active_profile
    };
    let s1 = PollState { profile_locked: locked, lock_combo_was_held: combo, active_profile: active1 };
    if !enabled {
        (s, PollOutcome { lock_toggled: false, switched: false, proceed: false })
    } else if excluded {
        (s1, PollOutcome { lock_toggled: toggled, switched: false, proceed: false })
    } else if !locked {
        let target = match matched_profile {
            Some(t) => t,
            None => 0,
        };
        (
            PollState { active_profile: target, ..s1 },
            PollOutcome { lock_toggled: toggled, switched: active1 != target, proceed: true },
        )
    } else {
        (s1, PollOutcome { lock_toggled: toggled, switched: false, proceed: true })
    }
}

impl PollState {
    pub fn new() -> (r: Self)
        ensures
            r == (PollState { profile_locked: false, lock_combo_was_held: false, active_profile: 0 }),
    {
        PollState { profile_locked: false, lock_combo_was_held: false, active_profile: 0 }
    }

    /// Runs the decisions of one frame.
    pub fn step(
        &mut self,
        enabled: bool,
        menu_held: bool,
        options_held: bool,
        excluded: bool,
        matched_profile: Option<usize>,
    ) -> (r: PollOutcome)
        ensures
            (*final(self), r) == poll_step(
                *old(self),
                enabled,
                menu_held,
                options_held,
                excluded,
                matched_profile,
            ),
    {
        if !enabled {
            return PollOutcome { lock_toggled: false, switched: false, proceed: false };
        }
        let combo_held = menu_held && options_held;
        let toggled = combo_held && !self.lock_combo_was_held;
        if toggled {
            self.profile_locked = !self.profile_locked;
            if self.profile_locked {
                self.active_profile = 0;
            }
        }
        self.lock_combo_was_held = combo_held;
        if excluded {
            return PollOutcome { lock_toggled: toggled, switched: false, proceed: false };
        }
        let mut switched = false;
        if !self.profile_locked {
            let target = match matched_profile {
                Some(t) => t,
                None => 0,
            };
            if self.active_profile != target {
                self.active_profile = target;
                switched = true;
            }
        }
        PollOutcome { lock_toggled: toggled, switched, proceed: true }
    }
}

/// The index of the first profile (given by its bundle IDs) that the app
/// `bundle_id` activates.
pub fn profile_for_bundle_id(profiles: &Vec<Vec<String>>, bundle_id: &str) -> (r: Option<usize>)
    ensures
        match r {
            Some(i) => i < profiles@.len() && string_views(profiles@[i as int]@).contains(
                bundle_id@,
            ) && forall|j: int|
                0 <= j < i ==> !string_views(#[trigger] profiles@[j]@).contains(bundle_id@),
            None => forall|j: int|
                0 <= j < profiles@.len() ==> !string_views(#[trigger] profiles@[j]@).contains(
                    bundle_id@,
                ),
        },
{
    let n = profiles.len();
    let mut i: usize = 0;
    while i < n
        invariant
            n == profiles@.len(),
            i <= n,
            forall|j: int|
                0 <= j < i ==> !string_views(#[trigger] profiles@[j]@).contains(bundle_id@),
        decreases n - i,
    {
        if contains_str(&profiles[i], bundle_id) {
            return Some(i);
        }
        i += 1;
    }
    None
}

/// Law: holding Menu+Options over consecutive frames toggles the lock only
/// on the first of them.
pub proof fn lemma_lock_toggles_once(
    s: PollState,
    excluded1: bool,
    matched1: Option<usize>,
    excluded2: bool,
    matched2: Option<usize>,
)
    ensures
        ({
            let (s1, _) = poll_step(s, true, true, true, excluded1, matched1);
            let (s2, o2) = poll_step(s1, true, true, true, excluded2, matched2);
            !o2.lock_toggled && s2.profile_locked == s1.profile_locked
        }),
{
}

/// Law: while the lock holds and the combo does not start, the active
/// profile stays as it is, whatever app is in front.
pub proof fn lemma_locked_profile_stays(
    s: PollState,
    enabled: bool,
    menu_held: bool,
    options_held: bool,
    excluded: bool,
    matched: Option<usize>,
)
    requires
        s.profile_locked,
        !(menu_held && options_held && !s.lock_combo_was_held),
    ensures
        poll_step(s, enabled, menu_held, options_held, excluded, matched).0.active_profile
            == s.active_profile,
        poll_step(s, enabled, menu_held, options_held, excluded, matched).0.profile_locked,
{
}

/// Law: while the daemon is switched off, a frame changes nothing (not even
/// the memory of the combo) and does not go on to translate input.
pub proof fn lemma_disabled_frame_inert(
    s: PollState,
    menu_held: bool,
    options_held: bool,
    excluded: bool,
    matched: Option<usize>,
)
    ensures
        poll_step(s, false, menu_held, options_held, excluded, matched) == (
            s,
            PollOutcome { lock_toggled: false, switched: false, proceed: false },
        ),
{
}

/// Law: on a frame that goes on (switched on, frontmost app not excluded)
/// and leaves the lock off, the active profile becomes the frontmost app's
/// own profile, or the first (default) profile when it has none, whatever
/// was active before; the frame reports a switch exactly when that changed
/// the active profile.
pub proof fn lemma_unlocked_follows_frontmost(
    s: PollState,
    menu_held: bool,
    options_held: bool,
    matched: Option<usize>,
)
    ensures
        ({
            let (s2, o) = poll_step(s, true, menu_held, options_held, false, matched);
            !s2.profile_locked ==> {
                &&& s2.active_profile == (match matched {
                    Some(t) => t,
                    None => 0usize,
                })
                &&& o.proceed
                &&& o.switched == (s2.active_profile != s.active_profile)
            }
        }),
{
}

/// Law: a frame whose frontmost app is excluded does not go on and switches
/// no profile; the active profile changes only when the combo just locked
/// it to the first profile.
pub proof fn lemma_excluded_frame_keeps_profile(
    s: PollState,
    enabled: bool,
    menu_held: bool,
    options_held: bool,
    matched: Option<usize>,
)
    ensures
        ({
            let (s2, o) = poll_step(s, enabled, menu_held, options_held, true, matched);
            &&& !o.proceed
            &&& !o.switched
            &&& s2.active_profile == s.active_profile || (o.lock_toggled && s2.profile_locked
                && s2.active_profile == 0)
        }),
{
}

} // verus!
