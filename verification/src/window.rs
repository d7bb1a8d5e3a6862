//! The decisions of the clock window: what each window message calls for,
//! and where the settings file is looked for and created.

use vstd::prelude::*;

verus! {

/// The virtual-key code of Escape.
pub const ESCAPE_KEY: usize = 0x1B;

/// A message the window procedure receives, reduced to what it decides on.
#[derive(Clone, Copy, Debug, PartialEq, Eq, Structural)]
pub enum WindowEvent {
    /// The one-second timer fired; `minute` is the local time's minute.
    Timer { minute: u16 },
    Paint,
    EraseBackground,
    LeftButtonDown,
    MiddleButtonUp,
    RightButtonUp,
    KeyDown { key: usize },
    Destroy,
    /// Any other message.
    Other,
}

/// What the window procedure does in answer.
#[derive(Clone, Copy, Debug, PartialEq, Eq, Structural)]
pub enum WindowAction {
    /// Render the clock again.
    Redraw,
    /// Nothing beyond the reply.
    Nothing,
    /// Begin and end a paint cycle: the pixels come from the layered update.
    ValidatePaint,
    /// Hand the drag to the window manager's move loop.
    BeginDrag,
    /// Open the settings file in use.
    OpenConfig,
    /// Leave the message loop.
    Quit,
    /// Stop the timer, then leave the message loop.
    StopTimerAndQuit,
    /// Let the default window procedure answer.
    PassOn,
}

/// The answer to one message: what to do, and the result to return unless
/// the action is `PassOn`.
#[derive(Clone, Copy, Debug, PartialEq, Eq, Structural)]
pub struct Reply {
    pub action: WindowAction,
    pub result: isize,
}

/// Which minute is currently on screen; -1 until the first render.
#[derive(Clone, Copy, Debug, PartialEq, Eq, Structural)]
pub struct ClockState {
    pub last_minute: i32,
}

/// The minute on screen after `ev`, and the reply to it.
pub open spec fn spec_handle(last_minute: i32, ev: WindowEvent) -> (i32, Reply) {
    match ev {
        WindowEvent::Timer { minute } => (
            minute as i32,
            Reply {
                action: if last_minute != minute as i32 {
                    WindowAction::Redraw
                } else {
                    WindowAction::Nothing
                },
                result: 0,
            },
        ),
        WindowEvent::Paint => (last_minute, Reply { action: WindowAction::ValidatePaint, result: 0 }),
        WindowEvent::EraseBackground => (last_minute, Reply { action: WindowAction::Nothing, result: 1 }),
        WindowEvent::LeftButtonDown => (last_minute, Reply { action: WindowAction::BeginDrag, result: 0 }),
        WindowEvent::MiddleButtonUp => (last_minute, Reply { action: WindowAction::OpenConfig, result: 0 }),
        WindowEvent::RightButtonUp => (last_minute, Reply { action: WindowAction::Quit, result: 0 }),
        WindowEvent::KeyDown { key } => if key == ESCAPE_KEY {
            (last_minute, Reply { action: WindowAction::Quit, result: 0 })
        } else {
            (last_minute, Reply { action: WindowAction::PassOn, result: 0 })
        },
        WindowEvent::Destroy => (last_minute, Reply { action: WindowAction::StopTimerAndQuit, result: 0 }),
        WindowEvent::Other => (last_minute, Reply { action: WindowAction::PassOn, result: 0 }),
    }
}

impl ClockState {
    /// Nothing rendered yet.
    pub fn new() -> (s: Self)
        ensures
            s.last_minute == -1,
    {
        ClockState { last_minute: -1 }
    }

    /// Decides the answer to one window message. The timer ticks every second
    /// but the display changes once a minute, so a tick redraws only when the
    /// minute differs from the one last rendered.
    pub fn handle(&mut self, ev: WindowEvent) -> (reply: Reply)
        ensures
            (final(self).last_minute, reply) == spec_handle(old(self).last_minute, ev),
    {
        match ev {
            WindowEvent::Timer { minute } => {
                let m = minute as i32;
                let previous = self.last_minute;
                self.last_minute = m;
                if previous != m {
                    Reply { action: WindowAction::Redraw, result: 0 }
                } else {
                    Reply { action: WindowAction::Nothing, result: 0 }
                }
            },
            WindowEvent::Paint => Reply { action: WindowAction::ValidatePaint, result: 0 },
            WindowEvent::EraseBackground => Reply { action: WindowAction::Nothing, result: 1 },
            WindowEvent::LeftButtonDown => Reply { action: WindowAction::BeginDrag, result: 0 },
            WindowEvent::MiddleButtonUp => Reply { action: WindowAction::OpenConfig, result: 0 },
            WindowEvent::RightButtonUp => Reply { action: WindowAction::Quit, result: 0 },
            WindowEvent::KeyDown { key } => {
                if key == ESCAPE_KEY {
                    Reply { action: WindowAction::Quit, result: 0 }
                } else {
                    Reply { action: WindowAction::PassOn, result: 0 }
                }
            },
            WindowEvent::Destroy => Reply { action: WindowAction::StopTimerAndQuit, result: 0 },
            WindowEvent::Other => Reply { action: WindowAction::PassOn, result: 0 },
        }
    }
}

/// Law: the first tick after start-up always draws, and so does every tick
/// whose minute differs from the one on screen; a tick in the minute already on
/// screen draws nothing. After any tick, its minute is the one on screen.
pub proof fn lemma_redraw_once_per_minute(last_minute: i32, minute: u16)
    ensures
        spec_handle(last_minute, WindowEvent::Timer { minute }).0 == minute as i32,
        (spec_handle(last_minute, WindowEvent::Timer { minute }).1.action == WindowAction::Redraw)
            <==> last_minute != minute as i32,
        spec_handle(-1i32, WindowEvent::Timer { minute }).1.action == WindowAction::Redraw,
        spec_handle(
            spec_handle(last_minute, WindowEvent::Timer { minute }).0,
            WindowEvent::Timer { minute },
        ).1.action == WindowAction::Nothing,
{
}

/// Law: only a timer tick changes which minute is on screen.
pub proof fn lemma_only_ticks_change_minute(last_minute: i32, ev: WindowEvent)
    requires
        !(ev is Timer),
    ensures
        spec_handle(last_minute, ev).0 == last_minute,
        spec_handle(last_minute, ev).1.action != WindowAction::Redraw,
{
}

/// Law: a key press quits exactly when the key is Escape (virtual key 0x1B);
/// every other key goes on to the default window procedure, and no key
/// changes the minute on screen.
pub proof fn lemma_only_escape_quits(last_minute: i32, key: usize)
    ensures
        ESCAPE_KEY == 0x1B,
        (spec_handle(last_minute, WindowEvent::KeyDown { key }).1.action == WindowAction::Quit) <==> key
            == 0x1B,
        key != 0x1B ==> spec_handle(last_minute, WindowEvent::KeyDown { key }).1.action
            == WindowAction::PassOn,
        spec_handle(last_minute, WindowEvent::KeyDown { key }).0 == last_minute,
{
}

/// Law: the mouse and window messages get the answers the clock promises: a
/// left press starts a drag, a middle click opens the settings file, a right
/// click quits, destruction stops the timer and quits, a paint cycle is only
/// validated, background erasing is claimed as done (1), and every other
/// message goes to the default window procedure.
pub proof fn lemma_message_answers(last_minute: i32)
    ensures
        spec_handle(last_minute, WindowEvent::LeftButtonDown).1 == (Reply {
            action: WindowAction::BeginDrag,
            result: 0,
        }),
        spec_handle(last_minute, WindowEvent::MiddleButtonUp).1 == (Reply {
            action: WindowAction::OpenConfig,
            result: 0,
        }),
        spec_handle(last_minute, WindowEvent::RightButtonUp).1 == (Reply {
            action: WindowAction::Quit,
            result: 0,
        }),
        spec_handle(last_minute, WindowEvent::Destroy).1 == (Reply {
            action: WindowAction::StopTimerAndQuit,
            result: 0,
        }),
        spec_handle(last_minute, WindowEvent::Paint).1 == (Reply {
            action: WindowAction::ValidatePaint,
            result: 0,
        }),
        spec_handle(last_minute, WindowEvent::EraseBackground).1 == (Reply {
            action: WindowAction::Nothing,
            result: 1,
        }),
        spec_handle(last_minute, WindowEvent::Other).1.action == WindowAction::PassOn,
{
}

/// Where a settings file lives.
#[derive(Clone, Copy, Debug, PartialEq, Eq, Structural)]
pub enum IniLocation {
    /// The path the `TOPCLOCK_CONFIG` environment variable names.
    Override,
    /// `topclock.ini` beside the executable.
    Portable,
    /// `%APPDATA%\topclock\topclock.ini`.
    User,
}

/// One step of looking for the settings file. Each step but `Done` is an
/// action whose success decides the next step.
#[derive(Clone, Copy, Debug, PartialEq, Eq, Structural)]
pub enum IniStep {
    /// Read the override variable; succeeds when it is set.
    CheckOverride,
    /// Succeeds when the portable path is known and the file exists.
    CheckPortable,
    /// Succeeds when the per-user path is known and the file exists.
    CheckUser,
    /// Write the defaults beside the executable; succeeds when written.
    WritePortable,
    /// Succeeds when the per-user path is known and its folder exists or
    /// could be created.
    CreateUserDir,
    /// Write the defaults at the per-user path; succeeds when written.
    WriteUser,
    /// The file to use, or none.
    Done(Option<IniLocation>),
}

/// The step after `step`, given whether it succeeded.
pub open spec fn spec_next_ini_step(step: IniStep, ok: bool) -> IniStep {
    match step {
        IniStep::CheckOverride => if ok {
            IniStep::Done(Some(IniLocation::Override))
        } else {
            IniStep::CheckPortable
        },
        IniStep::CheckPortable => if ok {
            IniStep::Done(Some(IniLocation::Portable))
        } else {
            IniStep::CheckUser
        },
        IniStep::CheckUser => if ok {
            IniStep::Done(Some(IniLocation::User))
        } else {
            IniStep::WritePortable
        },
        IniStep::WritePortable => if ok {
            IniStep::Done(Some(IniLocation::Portable))
        } else {
            IniStep::CreateUserDir
        },
        IniStep::CreateUserDir => if ok {
            IniStep::WriteUser
        } else {
            IniStep::Done(None)
        },
        IniStep::WriteUser => if ok {
            IniStep::Done(Some(IniLocation::User))
        } else {
            IniStep::Done(None)
        },
        IniStep::Done(found) => IniStep::Done(found),
    }
}

/// Picks the settings file step by step, creating one with the defaults if
/// there is none yet: an explicit override wins; then whichever file already
/// exists, portable first; then a new file beside the executable; and when
/// that folder is not writable, a new one in the per-user location.
pub fn next_ini_step(step: IniStep, ok: bool) -> (next: IniStep)
    ensures
        next == spec_next_ini_step(step, ok),
{
    match step {
        IniStep::CheckOverride => if ok {
            IniStep::Done(Some(IniLocation::Override))
        } else {
            IniStep::CheckPortable
        },
        IniStep::CheckPortable => if ok {
            IniStep::Done(Some(IniLocation::Portable))
        } else {
            IniStep::CheckUser
        },
        IniStep::CheckUser => if ok {
            IniStep::Done(Some(IniLocation::User))
        } else {
            IniStep::WritePortable
        },
        IniStep::WritePortable => if ok {
            IniStep::Done(Some(IniLocation::Portable))
        } else {
            IniStep::CreateUserDir
        },
        IniStep::CreateUserDir => if ok {
            IniStep::WriteUser
        } else {
            IniStep::Done(None)
        },
        IniStep::WriteUser => if ok {
            IniStep::Done(Some(IniLocation::User))
        } else {
            IniStep::Done(None)
        },
        IniStep::Done(found) => IniStep::Done(found),
    }
}

/// The steps from `step` on, given the outcomes of each in turn.
pub open spec fn run_ini_steps(step: IniStep, outcomes: Seq<bool>) -> IniStep
    decreases outcomes.len(),
{
    if outcomes.len() == 0 {
        step
    } else {
        run_ini_steps(spec_next_ini_step(step, outcomes[0]), outcomes.drop_first())
    }
}

/// The file chosen when the override is set (`o`), the portable and per-user
/// files exist (`pe`, `ue`), writing beside the executable succeeds (`pw`),
/// the per-user folder is there (`dc`) and writing in it succeeds (`uw`).
pub open spec fn ini_choice(o: bool, pe: bool, ue: bool, pw: bool, dc: bool, uw: bool) -> Option<
    IniLocation,
> {
    if o {
        Some(IniLocation::Override)
    } else if pe {
        Some(IniLocation::Portable)
    } else if ue {
        Some(IniLocation::User)
    } else if pw {
        Some(IniLocation::Portable)
    } else if dc && uw {
        Some(IniLocation::User)
    } else {
        None
    }
}

/// Law: starting from the override, six outcomes always settle the choice, by
/// the priority `ini_choice` states, and once settled it stays settled.
pub proof fn lemma_ini_resolution(o: bool, pe: bool, ue: bool, pw: bool, dc: bool, uw: bool, more: Seq<bool>)
    ensures
        run_ini_steps(IniStep::CheckOverride, seq![o, pe, ue, pw, dc, uw] + more) == IniStep::Done(
            ini_choice(o, pe, ue, pw, dc, uw),
        ),
{
    reveal_with_fuel(run_ini_steps, 7);
    let all = seq![o, pe, ue, pw, dc, uw] + more;
    assert(all[0] == o && all[1] == pe && all[2] == ue && all[3] == pw && all[4] == dc && all[5] == uw);
    assert(all.drop_first().drop_first().drop_first().drop_first().drop_first().drop_first() =~= more);
    lemma_done_stays(ini_choice(o, pe, ue, pw, dc, uw), more);
    lemma_done_stays(ini_choice(o, pe, ue, pw, dc, uw), all.drop_first());
    lemma_done_stays(ini_choice(o, pe, ue, pw, dc, uw), all.drop_first().drop_first());
    lemma_done_stays(ini_choice(o, pe, ue, pw, dc, uw), all.drop_first().drop_first().drop_first());
    lemma_done_stays(
        ini_choice(o, pe, ue, pw, dc, uw),
        all.drop_first().drop_first().drop_first().drop_first(),
    );
    lemma_done_stays(
        ini_choice(o, pe, ue, pw, dc, uw),
        all.drop_first().drop_first().drop_first().drop_first().drop_first(),
    );
}

proof fn lemma_done_stays(found: Option<IniLocation>, outcomes: Seq<bool>)
    ensures
        run_ini_steps(IniStep::Done(found), outcomes) == IniStep::Done(found),
    decreases outcomes.len(),
{
    if outcomes.len() > 0 {
        lemma_done_stays(found, outcomes.drop_first());
    }
}

/// Law: a file is written only when the override is unset and neither file
/// exists, so an existing settings file is never overwritten.
pub proof fn lemma_write_only_when_missing(o: bool, pe: bool, ue: bool)
    ensures
        run_ini_steps(IniStep::CheckOverride, seq![o, pe, ue]) == IniStep::WritePortable <==> (!o
            && !pe && !ue),
        run_ini_steps(IniStep::CheckOverride, seq![o, pe]) != IniStep::WritePortable,
        run_ini_steps(IniStep::CheckOverride, seq![o]) != IniStep::WritePortable,
{
    reveal_with_fuel(run_ini_steps, 4);
    assert(seq![o, pe, ue].drop_first() =~= seq![pe, ue]);
    assert(seq![pe, ue].drop_first() =~= seq![ue]);
    assert(seq![ue].drop_first() =~= Seq::<bool>::empty());
    assert(seq![o, pe].drop_first() =~= seq![pe]);
    assert(seq![pe].drop_first() =~= Seq::<bool>::empty());
    assert(seq![o].drop_first() =~= Seq::<bool>::empty());
}

} // verus!
