use vstd::prelude::*;
use crate::topology::{Snapshot, texts};
use crate::focus::{FocusMove, opt_text, row_target, group_target, move_focus, move_focus_group};
use crate::shadow::{ShadowVolumes, STEPS_PER_PERCENT};
use crate::volume::{
    Command, reconcile, reconciles, set_volume, set_volume_delta, absolute_set_post,
    reference_level, clamp_level, group_at, endpoint_at,
};
use crate::watchdog::{
    Watchdog, LinkStatus, after, suspend_gap, EXPECTED_RESPONSE_MS, SUSPICIOUS_QUIET_MS,
};
use crate::keys::{KeyPress, Action, action_for, map_key};

verus! {

/// One message of a batch from the server.
pub enum Inbound {
    /// A change was applied to the server's state.
    Applied,
    /// The server reported an error.
    Failed(String),
}

/// What handling one event asks of the loop around the dashboard.
pub struct Outcome {
    /// Requests to send to the server, in order.
    pub commands: Vec<Command>,
    /// The view changed and should be drawn again.
    pub redraw: bool,
    /// The dashboard should close.
    pub quit: bool,
}

/// The dashboard's own state.
pub struct AppState {
    /// The focused group or endpoint.
    pub focus: Option<String>,
    /// Shadow volumes of the endpoints.
    pub fractional_volumes: ShadowVolumes,
    /// Errors reported by the server, not yet dismissed.
    pub error_messages: Vec<String>,
    pub watchdog: Watchdog,
}

/// Texts of the failed messages of a batch, in order.
pub open spec fn failed_texts(batch: Seq<Inbound>) -> Seq<Seq<char>>
    decreases batch.len(),
{
    if batch.len() == 0 {
        Seq::empty()
    } else {
        let rest = failed_texts(batch.drop_last());
        match batch.last() {
            Inbound::Failed(t) => rest.push(t@),
            Inbound::Applied => rest,
        }
    }
}

pub open spec fn is_applied(m: Inbound) -> bool {
    m is Applied
}

/// Whether some message of the batch was applied.
pub open spec fn any_applied(batch: Seq<Inbound>) -> bool {
    exists|i: int| 0 <= i < batch.len() && #[trigger] is_applied(batch[i])
}

/// The watchdog after a request went out at `now` (when `sent`).
pub open spec fn rearmed(old: Watchdog, new: Watchdog, sent: bool, now: u64) -> bool {
    if sent {
        new == (Watchdog { response_deadline: Some(after(now, EXPECTED_RESPONSE_MS)), ..old })
    } else {
        new == old
    }
}

/// A move of the focus toward `target`: taken, with a redraw, when the target exists and
/// differs from the focus; otherwise nothing changes.
pub open spec fn applies_move(
    old: Option<Seq<char>>,
    new: Option<Seq<char>>,
    target: Option<Seq<char>>,
    redraw: bool,
) -> bool {
    if target is Some && target != old {
        new == target && redraw
    } else {
        new == old && !redraw
    }
}

/// The commands that toggle the mute flag of the focused group or endpoint.
pub open spec fn toggles(focus: Option<Seq<char>>, s: Snapshot, cmds: Seq<Command>) -> bool {
    match focus {
        None => cmds.len() == 0,
        Some(f) => match group_at(s, f) {
            Some(g) => cmds.len() == 1 && match cmds[0] {
                Command::SetGroupMute { id, muted } => id@ == f && muted == !s.groups@[g].muted,
                _ => false,
            },
            None => match endpoint_at(s, f) {
                Some(i) => cmds.len() == 1 && match cmds[0] {
                    Command::SetEndpointVolume { id, percent, muted } => id@ == f && percent
                        == s.endpoints@[i].percent && muted == !s.endpoints@[i].muted,
                    _ => false,
                },
                None => cmds.len() == 0,
            },
        },
    }
}

/// The step of a relative volume action, in shadow-volume steps.
pub open spec fn volume_step(a: Action) -> int {
    match a {
        Action::ReduceVolume => -(STEPS_PER_PERCENT as int),
        Action::ReduceVolumeMore => -5 * STEPS_PER_PERCENT,
        Action::RaiseVolume => STEPS_PER_PERCENT as int,
        Action::RaiseVolumeMore => 5 * STEPS_PER_PERCENT,
        _ => 0,
    }
}

/// What performing `a` at time `now` does to the state, and what it asks of the loop.
pub open spec fn performs(
    old: AppState,
    new: AppState,
    a: Action,
    now: u64,
    s: Snapshot,
    out: Outcome,
) -> bool {
    let focus = opt_text(old.focus);
    let sent = out.commands@.len() > 0;
    let same_focus = new.focus == old.focus;
    let same_volumes = new.fractional_volumes@ == old.fractional_volumes@;
    let same_errors = new.error_messages@ == old.error_messages@;
    let same_watchdog = new.watchdog == old.watchdog;
    match a {
        Action::Exit => same_focus && same_volumes && same_errors && same_watchdog && out.quit
            && !out.redraw && !sent,
        Action::Dismiss => same_focus && same_volumes && same_watchdog && !sent && if old.error_messages@.len()
            == 0 {
            same_errors && out.quit && !out.redraw
        } else {
            new.error_messages@.len() == 0 && !out.quit && out.redraw
        },
        Action::Prev | Action::Next | Action::PrevGroup | Action::NextGroup => {
            let delta: int = if a is Prev || a is PrevGroup {
                -1
            } else {
                1
            };
            let target = if a is Prev || a is Next {
                row_target(delta, focus, s.flat_order())
            } else {
                group_target(delta, focus, s)
            };
            same_volumes && same_errors && same_watchdog && !sent && !out.quit && applies_move(
                focus,
                opt_text(new.focus),
                target,
                out.redraw,
            )
        },
        Action::ReduceVolume | Action::ReduceVolumeMore | Action::RaiseVolume
        | Action::RaiseVolumeMore => same_focus && same_errors && !out.quit && !out.redraw
            && rearmed(old.watchdog, new.watchdog, sent, now) && match reference_level(
            focus,
            s,
            old.fractional_volumes@,
        ) {
            Some(cur) => absolute_set_post(
                focus,
                s,
                clamp_level(cur + volume_step(a)),
                old.fractional_volumes@,
                new.fractional_volumes@,
                out.commands@,
            ),
            None => same_volumes && !sent,
        },
        Action::SetVolumeTo(p) => same_focus && same_errors && !out.quit && !out.redraw
            && rearmed(old.watchdog, new.watchdog, sent, now) && absolute_set_post(
            focus,
            s,
            clamp_level(p * STEPS_PER_PERCENT),
            old.fractional_volumes@,
            new.fractional_volumes@,
            out.commands@,
        ),
        Action::ToggleMute => same_focus && same_volumes && same_errors && !out.quit
            && !out.redraw && rearmed(old.watchdog, new.watchdog, sent, now) && toggles(
            focus,
            s,
            out.commands@,
        ),
        Action::Nothing => same_focus && same_volumes && same_errors && same_watchdog && !out.quit
            && !out.redraw && !sent,
    }
}

fn request_status() -> (r: Vec<Command>)
    ensures
        r@.len() == 1,
        r@[0] is RequestStatus,
{
    let mut cmds: Vec<Command> = Vec::new();
    cmds.push(Command::RequestStatus);
    cmds
}

impl AppState {
    pub open spec fn well_formed(&self) -> bool {
        self.fractional_volumes.well_formed()
    }

    /// Nothing focused, no shadow volumes, no errors, and a watchdog that starts at
    /// `now_ms` (monotonic) and `wall_ms` (wall clock).
    pub fn new(now_ms: u64, wall_ms: u64) -> (r: Self)
        ensures
            r.well_formed(),
            r.focus is None,
            r.fractional_volumes@ == Map::<Seq<char>, u64>::empty(),
            r.error_messages@.len() == 0,
            r.watchdog == (Watchdog {
                connected: false,
                stale: false,
                reconnect_attempts: 0,
                quiet_deadline: Some(after(now_ms, SUSPICIOUS_QUIET_MS)),
                response_deadline: None,
                last_wall_ms: wall_ms,
            }),
    {
        AppState {
            focus: None,
            fractional_volumes: ShadowVolumes::new(),
            error_messages: Vec::new(),
            watchdog: Watchdog::new(now_ms, wall_ms),
        }
    }

    /// Reconciles the shadow volumes with the server's reported percentages.
    pub fn update_fractional_volumes(&mut self, snapshot: &Snapshot)
        requires
            old(self).well_formed(),
            snapshot.well_formed(),
        ensures
            final(self).well_formed(),
            reconciles(old(self).fractional_volumes@, final(self).fractional_volumes@, *snapshot),
            final(self).focus == old(self).focus,
            final(self).error_messages == old(self).error_messages,
            final(self).watchdog == old(self).watchdog,
    {
        reconcile(&mut self.fractional_volumes, snapshot);
    }

    /// The action of a key in the current state: a connection modal shows while
    /// disconnected or stale, an error modal while errors wait.
    pub fn handle_key(&self, key: KeyPress) -> (r: Action)
        ensures
            r == action_for(
                key,
                !self.watchdog.connected || self.watchdog.stale,
                self.error_messages@.len() > 0,
            ),
    {
        map_key(
            key,
            !self.watchdog.connected || self.watchdog.stale,
            self.error_messages.len() > 0,
        )
    }

    /// A connection-status change. After a connect the server is asked for its status.
    pub fn on_status(&mut self, status: LinkStatus) -> (r: Outcome)
        ensures
            final(self).focus == old(self).focus,
            final(self).fractional_volumes == old(self).fractional_volumes,
            final(self).error_messages == old(self).error_messages,
            final(self).watchdog.stale == old(self).watchdog.stale,
            final(self).watchdog.quiet_deadline == old(self).watchdog.quiet_deadline,
            final(self).watchdog.response_deadline == old(self).watchdog.response_deadline,
            final(self).watchdog.last_wall_ms == old(self).watchdog.last_wall_ms,
            status == LinkStatus::Connected ==> final(self).watchdog.connected
                && final(self).watchdog.reconnect_attempts == 0 && r.commands@.len() == 1
                && r.commands@[0] is RequestStatus,
            status == LinkStatus::Disconnected ==> !final(self).watchdog.connected
                && final(self).watchdog.reconnect_attempts == 1 && r.commands@.len() == 0,
            status == LinkStatus::ReconnectFailed ==> final(self).watchdog.connected == old(
                self,
            ).watchdog.connected && final(self).watchdog.reconnect_attempts
                == crate::watchdog::bumped(old(self).watchdog.reconnect_attempts)
                && r.commands@.len() == 0,
            r.redraw,
            !r.quit,
    {
        let ask = self.watchdog.on_status(status);
        let commands = if ask {
            request_status()
        } else {
            Vec::new()
        };
        Outcome { commands, redraw: true, quit: false }
    }

    /// A batch of messages arrived at `now_ms`: the timers are rearmed, staleness clears,
    /// errors are queued in order, and applied changes reconcile the shadow volumes.
    pub fn on_messages(&mut self, batch: &Vec<Inbound>, now_ms: u64, snapshot: &Snapshot) -> (r: Outcome)
        requires
            old(self).well_formed(),
            snapshot.well_formed(),
        ensures
            final(self).well_formed(),
            final(self).focus == old(self).focus,
            final(self).watchdog == (Watchdog {
                stale: false,
                quiet_deadline: Some(after(now_ms, SUSPICIOUS_QUIET_MS)),
                response_deadline: None,
                ..old(self).watchdog
            }),
            texts(final(self).error_messages@) == texts(old(self).error_messages@) + failed_texts(
                batch@,
            ),
            any_applied(batch@) ==> reconciles(
                old(self).fractional_volumes@,
                final(self).fractional_volumes@,
                *snapshot,
            ),
            !any_applied(batch@) ==> final(self).fractional_volumes@ == old(
                self,
            ).fractional_volumes@,
            r.commands@.len() == 0,
            r.redraw == (old(self).watchdog.stale || batch@.len() > 0),
            !r.quit,
    {
        let was_stale = self.watchdog.on_messages(now_ms);
        let ghost errors0 = texts(self.error_messages@);
        let ghost w = self.watchdog;
        let mut applied = false;
        let n = batch.len();
        let mut i: usize = 0;
        assert(batch@.take(0) =~= Seq::<Inbound>::empty());
        while i < n
            invariant
                n == batch@.len(),
                i <= n,
                self.well_formed(),
                self.focus == old(self).focus,
                self.fractional_volumes == old(self).fractional_volumes,
                self.watchdog == w,
                texts(self.error_messages@) == errors0 + failed_texts(batch@.take(i as int)),
                applied == any_applied(batch@.take(i as int)),
            decreases n - i,
        {
            let ghost prev = self.error_messages@;
            proof {
                let t = batch@.take(i + 1);
                assert(t.drop_last() =~= batch@.take(i as int));
                assert(t.last() == batch@[i as int]);
            }
            match &batch[i] {
                Inbound::Applied => {
                    proof {
                        assert(is_applied(batch@.take(i + 1)[i as int]));
                    }
                    applied = true;
                },
                Inbound::Failed(text) => {
                    self.error_messages.push(text.clone());
                    proof {
                        assert(texts(self.error_messages@) =~= texts(prev).push(text@));
                    }
                    proof {
                        if any_applied(batch@.take(i + 1)) {
                            let j = choose|j: int|
                                0 <= j < i + 1 && #[trigger] is_applied(batch@.take(i + 1)[j]);
                            assert(is_applied(batch@.take(i as int)[j]));
                        }
                    }
                },
            }
            proof {
                if applied && !any_applied(batch@.take(i as int)) {
                    assert(is_applied(batch@.take(i + 1)[i as int]));
                }
                if any_applied(batch@.take(i as int)) {
                    let j = choose|j: int| 0 <= j < i && #[trigger] is_applied(batch@.take(i as int)[j]);
                    assert(is_applied(batch@.take(i + 1)[j]));
                }
            }
            i = i + 1;
        }
        assert(batch@.take(n as int) =~= batch@);
        if applied {
            reconcile(&mut self.fractional_volumes, snapshot);
        }
        Outcome { commands: Vec::new(), redraw: was_stale || n > 0, quit: false }
    }

    /// The quiet timer fired at `now_ms`. While it was armed and watching, the server is
    /// asked for its status and the response timer is armed.
    pub fn on_quiet_timer(&mut self, now_ms: u64) -> (r: Outcome)
        ensures
            final(self).focus == old(self).focus,
            final(self).fractional_volumes == old(self).fractional_volumes,
            final(self).error_messages == old(self).error_messages,
            old(self).watchdog.watching() && old(self).watchdog.quiet_deadline is Some ==> (
            r.commands@.len() == 1 && r.commands@[0] is RequestStatus && final(self).watchdog == (
            Watchdog {
                quiet_deadline: None,
                response_deadline: Some(after(now_ms, EXPECTED_RESPONSE_MS)),
                ..old(self).watchdog
            })),
            !(old(self).watchdog.watching() && old(self).watchdog.quiet_deadline is Some) ==> (
            r.commands@.len() == 0 && final(self).watchdog == old(self).watchdog),
            !r.redraw,
            !r.quit,
    {
        if self.watchdog.on_quiet_timer() {
            self.watchdog.on_sent(now_ms);
            Outcome { commands: request_status(), redraw: false, quit: false }
        } else {
            Outcome { commands: Vec::new(), redraw: false, quit: false }
        }
    }

    /// The response timer fired. While it was armed and watching, the connection turns
    /// stale.
    pub fn on_response_timer(&mut self) -> (r: Outcome)
        ensures
            final(self).focus == old(self).focus,
            final(self).fractional_volumes == old(self).fractional_volumes,
            final(self).error_messages == old(self).error_messages,
            r.redraw == (old(self).watchdog.watching() && old(self).watchdog.response_deadline is Some),
            r.redraw ==> final(self).watchdog == (Watchdog {
                stale: true,
                response_deadline: None,
                ..old(self).watchdog
            }),
            !r.redraw ==> final(self).watchdog == old(self).watchdog,
            r.commands@.len() == 0,
            !r.quit,
    {
        let stale = self.watchdog.on_response_timer();
        Outcome { commands: Vec::new(), redraw: stale, quit: false }
    }

    /// The suspend detector ticked at wall-clock `wall_ms` (monotonic `now_ms`). After a
    /// gap that shows the machine slept, the server is asked for its status.
    pub fn on_suspend_tick(&mut self, wall_ms: u64, now_ms: u64) -> (r: Outcome)
        ensures
            final(self).focus == old(self).focus,
            final(self).fractional_volumes == old(self).fractional_volumes,
            final(self).error_messages == old(self).error_messages,
            suspend_gap(old(self).watchdog.last_wall_ms, wall_ms) ==> r.commands@.len() == 1
                && r.commands@[0] is RequestStatus,
            !suspend_gap(old(self).watchdog.last_wall_ms, wall_ms) ==> r.commands@.len() == 0,
            rearmed(
                Watchdog { last_wall_ms: wall_ms, ..old(self).watchdog },
                final(self).watchdog,
                suspend_gap(old(self).watchdog.last_wall_ms, wall_ms),
                now_ms,
            ),
            !r.redraw,
            !r.quit,
    {
        if self.watchdog.on_suspend_tick(wall_ms) {
            self.watchdog.on_sent(now_ms);
            Outcome { commands: request_status(), redraw: false, quit: false }
        } else {
            Outcome { commands: Vec::new(), redraw: false, quit: false }
        }
    }

    /// The commands that toggle the mute flag of the focused group or endpoint.
    pub fn toggle_mute(&self, snapshot: &Snapshot) -> (r: Vec<Command>)
        requires
            snapshot.well_formed(),
        ensures
            toggles(opt_text(self.focus), *snapshot, r@),
    {
        let mut cmds: Vec<Command> = Vec::new();
        if let Some(id) = &self.focus {
            match crate::volume::find_group(snapshot, id) {
                Some(g) => {
                    let group = &snapshot.groups[g];
                    cmds.push(Command::SetGroupMute { id: group.id.clone(), muted: !group.muted });
                },
                None => match crate::volume::find_endpoint(snapshot, id) {
                    Some(i) => {
                        let e = &snapshot.endpoints[i];
                        cmds.push(
                            Command::SetEndpointVolume {
                                id: e.id.clone(),
                                percent: e.percent,
                                muted: !e.muted,
                            },
                        );
                    },
                    None => {},
                },
            }
        }
        cmds
    }

    fn apply_move(&mut self, m: FocusMove) -> (redraw: bool)
        ensures
            final(self).fractional_volumes == old(self).fractional_volumes,
            final(self).error_messages == old(self).error_messages,
            final(self).watchdog == old(self).watchdog,
            match m {
                FocusMove::Changed(id) => redraw && final(self).focus == Some(id),
                FocusMove::Unchanged => !redraw && final(self).focus == old(self).focus,
            },
    {
        match m {
            FocusMove::Changed(id) => {
                self.focus = Some(id);
                true
            },
            FocusMove::Unchanged => false,
        }
    }

    /// Performs an action at `now_ms`.
    pub fn perform(&mut self, action: Action, now_ms: u64, snapshot: &Snapshot) -> (r: Outcome)
        requires
            old(self).well_formed(),
            snapshot.well_formed(),
        ensures
            final(self).well_formed(),
            performs(*old(self), *final(self), action, now_ms, *snapshot, r),
    {
        let mut commands: Vec<Command> = Vec::new();
        let mut redraw = false;
        let mut quit = false;
        match action {
            Action::Exit => {
                quit = true;
            },
            Action::Dismiss => {
                if self.error_messages.len() == 0 {
                    quit = true;
                } else {
                    self.error_messages.clear();
                    redraw = true;
                }
            },
            Action::Prev => {
                let m = move_focus(-1, &self.focus, snapshot);
                redraw = self.apply_move(m);
            },
            Action::Next => {
                let m = move_focus(1, &self.focus, snapshot);
                redraw = self.apply_move(m);
            },
            Action::PrevGroup => {
                let m = move_focus_group(-1, &self.focus, snapshot);
                redraw = self.apply_move(m);
            },
            Action::NextGroup => {
                let m = move_focus_group(1, &self.focus, snapshot);
                redraw = self.apply_move(m);
            },
            Action::ReduceVolume | Action::ReduceVolumeMore | Action::RaiseVolume
            | Action::RaiseVolumeMore => {
                let step: i64 = match action {
                    Action::ReduceVolume => -1_000_000,
                    Action::ReduceVolumeMore => -5_000_000,
                    Action::RaiseVolume => 1_000_000,
                    _ => 5_000_000,
                };
                commands = set_volume_delta(step, &self.focus, &mut self.fractional_volumes, snapshot);
            },
            Action::SetVolumeTo(p) => {
                let level: i64 = if p > 100 {
                    (100 * STEPS_PER_PERCENT) as i64
                } else {
                    (p * STEPS_PER_PERCENT) as i64
                };
                commands = set_volume(level, &self.focus, &mut self.fractional_volumes, snapshot);
            },
            Action::ToggleMute => {
                commands = self.toggle_mute(snapshot);
            },
            Action::Nothing => {},
        }
        if commands.len() > 0 {
            self.watchdog.on_sent(now_ms);
        }
        Outcome { commands, redraw, quit }
    }

    /// A key was pressed at `now_ms`: performs its action in the current state.
    pub fn on_key(&mut self, key: KeyPress, now_ms: u64, snapshot: &Snapshot) -> (r: Outcome)
        requires
            old(self).well_formed(),
            snapshot.well_formed(),
        ensures
            final(self).well_formed(),
            performs(
                *old(self),
                *final(self),
                action_for(
                    key,
                    !old(self).watchdog.connected || old(self).watchdog.stale,
                    old(self).error_messages@.len() > 0,
                ),
                now_ms,
                *snapshot,
                r,
            ),
    {
        let action = self.handle_key(key);
        self.perform(action, now_ms, snapshot)
    }
}

} // verus!
