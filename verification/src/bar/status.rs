//! The bar: what it knows, and what it draws.

use vstd::prelude::*;

use crate::battery::BatteryInfo;
use crate::clock::{now, two_places};
use crate::ipc::{text_view, Effect, EffectView, WorkspaceState};
use crate::number::{decimal, decimal_text};
use crate::search::{kept, lemma_kept_contains, lemma_kept_step};
use crate::text::views;
use crate::theme::Role;

verus! {

/// How many seconds pass between two looks at the battery.
pub const BATTERY_PERIOD: u32 = 30;

/// The state of a battery as text: a plus sign says that it is charging.
pub open spec fn battery_label(capacity: u8, charging: bool) -> Seq<char> {
    decimal_text(capacity as nat) + (if charging {
        "%+"@
    } else {
        "%"@
    })
}

/// The state of a battery as text: a plus sign says that it is charging.
pub fn format_battery(capacity: u8, charging: bool) -> (r: String)
    ensures
        r@ == battery_label(capacity, charging),
{
    let mut r = decimal(capacity as u64);
    if charging {
        r.append("%+");
    } else {
        r.append("%");
    }
    r
}

/// The colour of the state of a battery.
pub open spec fn battery_role(capacity: u8, charging: bool) -> Role {
    if charging {
        Role::Good
    } else if capacity <= 10 {
        Role::Danger
    } else if capacity <= 25 {
        Role::Warning
    } else {
        Role::Foreground
    }
}

/// The time of day as text.
pub open spec fn clock_label(hour: i32, minute: i32) -> Seq<char> {
    two_places(hour as int) + ":"@ + two_places(minute as int)
}

/// The bar.
pub struct StatusBar {
    pub workspaces: Vec<WorkspaceState>,
    pub layout: String,
    pub show_empty_workspaces: bool,
    pub clock_text: String,
    pub battery_text: String,
    pub battery_charging: bool,
    pub battery_capacity: u8,
    pub has_battery: bool,
    pub menu_address: Option<String>,
}

/// What the bar holds.
pub struct StatusBarView {
    pub workspaces: Seq<WorkspaceState>,
    pub layout: Seq<char>,
    pub show_empty_workspaces: bool,
    pub clock_text: Seq<char>,
    pub battery_text: Seq<char>,
    pub battery_charging: bool,
    pub battery_capacity: u8,
    pub has_battery: bool,
    pub menu_address: Option<Seq<char>>,
}

impl View for StatusBar {
    type V = StatusBarView;

    open spec fn view(&self) -> StatusBarView {
        StatusBarView {
            workspaces: self.workspaces@,
            layout: self.layout@,
            show_empty_workspaces: self.show_empty_workspaces,
            clock_text: self.clock_text@,
            battery_text: self.battery_text@,
            battery_charging: self.battery_charging,
            battery_capacity: self.battery_capacity,
            has_battery: self.has_battery,
            menu_address: text_view(self.menu_address),
        }
    }
}

impl StatusBarView {
    /// The bar after a look at the battery.
    pub open spec fn with_battery(self, info: BatteryInfo) -> Self {
        StatusBarView {
            battery_text: battery_label(info.capacity, info.charging),
            battery_charging: info.charging,
            battery_capacity: info.capacity,
            ..self
        }
    }

    /// The bar after a second.
    pub open spec fn after_second(
        self,
        tick: u32,
        hour: i32,
        minute: i32,
        info: Option<BatteryInfo>,
    ) -> Self {
        let v = StatusBarView { clock_text: clock_label(hour, minute), ..self };
        if tick % BATTERY_PERIOD == 0 && self.has_battery && info is Some {
            v.with_battery(info->0)
        } else {
            v
        }
    }

    /// Whether a workspace has a button.
    pub open spec fn shows(self, w: WorkspaceState) -> bool {
        self.show_empty_workspaces || w.occupied || w.active
    }
}

/// The button of a workspace.
#[derive(Debug, PartialEq)]
pub struct WorkspaceButton {
    pub id: u64,
    pub label: String,
    pub background: Role,
    pub foreground: Role,
}

/// What a button holds.
pub struct WorkspaceButtonView {
    pub id: u64,
    pub label: Seq<char>,
    pub background: Role,
    pub foreground: Role,
}

impl View for WorkspaceButton {
    type V = WorkspaceButtonView;

    open spec fn view(&self) -> WorkspaceButtonView {
        WorkspaceButtonView {
            id: self.id,
            label: self.label@,
            background: self.background,
            foreground: self.foreground,
        }
    }
}

/// The button of a workspace: the active one stands out.
pub open spec fn button_of(w: WorkspaceState) -> WorkspaceButtonView {
    WorkspaceButtonView {
        id: w.id,
        label: decimal_text(w.index as nat),
        background: if w.active {
            Role::Accent
        } else {
            Role::Surface
        },
        foreground: if w.active {
            Role::Background
        } else {
            Role::Foreground
        },
    }
}

/// A part of the state of the system.
#[derive(Debug, PartialEq)]
pub enum Segment {
    Layout(String),
    Tray,
    Clock(String),
    Battery { text: String, color: Role },
    Logout,
    Separator,
}

/// What a part holds.
pub enum SegmentView {
    Layout(Seq<char>),
    Tray,
    Clock(Seq<char>),
    Battery { text: Seq<char>, color: Role },
    Logout,
    Separator,
}

impl View for Segment {
    type V = SegmentView;

    open spec fn view(&self) -> SegmentView {
        match *self {
            Segment::Layout(layout) => SegmentView::Layout(layout@),
            Segment::Tray => SegmentView::Tray,
            Segment::Clock(text) => SegmentView::Clock(text@),
            Segment::Battery { text, color } => SegmentView::Battery { text: text@, color },
            Segment::Logout => SegmentView::Logout,
            Segment::Separator => SegmentView::Separator,
        }
    }
}

/// What the parts of a list hold.
pub open spec fn segment_views(segments: Seq<Segment>) -> Seq<SegmentView> {
    Seq::new(segments.len(), |i: int| segments[i]@)
}

/// A part with a separator after it, where it is shown.
pub open spec fn part(shown: bool, segment: SegmentView) -> Seq<SegmentView> {
    if shown {
        seq![segment, SegmentView::Separator]
    } else {
        Seq::empty()
    }
}

/// The state of the system, as it is drawn: the keyboard layout, the tray, the clock, the battery and
/// the button to log out, with separators between them.
pub open spec fn state_segments(v: StatusBarView, tray_shown: bool) -> Seq<SegmentView> {
    part(v.layout.len() > 0, SegmentView::Layout(v.layout)) + part(tray_shown, SegmentView::Tray)
        + part(true, SegmentView::Clock(v.clock_text)) + part(
        v.has_battery,
        SegmentView::Battery {
            text: v.battery_text,
            color: battery_role(v.battery_capacity, v.battery_charging),
        },
    ) + seq![SegmentView::Logout]
}

fn push_part(out: &mut Vec<Segment>, segment: Segment)
    ensures
        segment_views(final(out)@) == segment_views(old(out)@) + part(true, segment@),
{
    let ghost before = segment_views(out@);
    let ghost added = segment@;
    out.push(segment);
    out.push(Segment::Separator);
    proof {
        assert(segment_views(out@) =~= before + part(true, added));
    }
}

impl StatusBar {
    /// The bar at its start, with a first look at the clock and the battery.
    pub fn new(
        show_empty_workspaces: bool,
        has_battery: bool,
        info: Option<BatteryInfo>,
        hour: i32,
        minute: i32,
    ) -> (r: Self)
        ensures
            ({
                let v = StatusBarView {
                    workspaces: Seq::empty(),
                    layout: Seq::empty(),
                    show_empty_workspaces,
                    clock_text: clock_label(hour, minute),
                    battery_text: Seq::empty(),
                    battery_charging: false,
                    battery_capacity: 100,
                    has_battery,
                    menu_address: None,
                };
                r@ == (if has_battery && info is Some {
                    v.with_battery(info->0)
                } else {
                    v
                })
            }),
    {
        let mut r = StatusBar {
            workspaces: Vec::new(),
            layout: String::new(),
            show_empty_workspaces,
            clock_text: now(hour, minute),
            battery_text: String::new(),
            battery_charging: false,
            battery_capacity: 100,
            has_battery,
            menu_address: None,
        };
        proof {
            assert(r@.layout =~= Seq::empty());
            assert(r@.battery_text =~= Seq::empty());
        }
        if has_battery {
            if let Some(info) = info {
                r.look_at_battery(info);
            }
        }
        r
    }

    fn look_at_battery(&mut self, info: BatteryInfo)
        ensures
            final(self)@ == old(self)@.with_battery(info),
    {
        self.battery_text = format_battery(info.capacity, info.charging);
        self.battery_charging = info.charging;
        self.battery_capacity = info.capacity;
    }

    /// Takes in what the compositor reports.
    pub fn update(&mut self, workspaces: Vec<WorkspaceState>, layout: String)
        ensures
            final(self)@ == (StatusBarView {
                workspaces: workspaces@,
                layout: layout@,
                ..old(self)@
            }),
    {
        self.workspaces = workspaces;
        self.layout = layout;
    }

    /// Whether the battery is to be looked at in a second.
    pub fn is_battery_due(tick: u32) -> (r: bool)
        ensures
            r == (tick % BATTERY_PERIOD == 0),
    {
        tick % BATTERY_PERIOD == 0
    }

    /// Takes in that a second passed: `tick` counts the seconds, and `info` is what was read of the
    /// battery. Gives the count for the next second.
    pub fn second(&mut self, tick: u32, hour: i32, minute: i32, info: Option<BatteryInfo>) -> (r: u32)
        ensures
            final(self)@ == old(self)@.after_second(tick, hour, minute, info),
            r == (if tick == u32::MAX {
                0
            } else {
                tick + 1
            }),
    {
        self.clock_text = now(hour, minute);
        if Self::is_battery_due(tick) && self.has_battery {
            if let Some(info) = info {
                self.look_at_battery(info);
            }
        }
        tick.wrapping_add(1)
    }

    /// The buttons of the workspaces.
    pub fn workspace_buttons(&self) -> (r: Vec<WorkspaceButton>)
        ensures
            ({
                let shown = kept(self@.workspaces, |w: WorkspaceState| self@.shows(w));
                &&& r@.len() == shown.len()
                &&& forall|i: int| 0 <= i < r@.len() ==> (#[trigger] r@[i])@ == button_of(shown[i])
            }),
    {
        let ghost all = self@.workspaces;
        let ghost p = |w: WorkspaceState| self@.shows(w);
        let mut r: Vec<WorkspaceButton> = Vec::new();
        let mut i: usize = 0;
        proof {
            assert(all.take(0) =~= Seq::empty());
        }
        while i < self.workspaces.len()
            invariant
                i <= all.len(),
                all == self.workspaces@,
                p == (|w: WorkspaceState| self@.shows(w)),
                r@.len() == kept(all.take(i as int), p).len(),
                forall|j: int|
                    0 <= j < r@.len() ==> (#[trigger] r@[j])@ == button_of(
                        kept(all.take(i as int), p)[j],
                    ),
            decreases all.len() - i,
        {
            let w = self.workspaces[i];
            proof {
                lemma_kept_step(all, p, i as int);
            }
            if self.show_empty_workspaces || w.occupied || w.active {
                r.push(
                    WorkspaceButton {
                        id: w.id,
                        label: decimal(w.index as u64),
                        background: if w.active {
                            Role::Accent
                        } else {
                            Role::Surface
                        },
                        foreground: if w.active {
                            Role::Background
                        } else {
                            Role::Foreground
                        },
                    },
                );
            }
            i += 1;
        }
        proof {
            assert(all.take(i as int) =~= all);
        }
        r
    }

    /// The colour of the state of the battery.
    pub fn battery_color(&self) -> (r: Role)
        ensures
            r == battery_role(self@.battery_capacity, self@.battery_charging),
    {
        if self.battery_charging {
            Role::Good
        } else if self.battery_capacity <= 10 {
            Role::Danger
        } else if self.battery_capacity <= 25 {
            Role::Warning
        } else {
            Role::Foreground
        }
    }

    /// The state of the system, as it is drawn. `tray_shown` says whether the tray has a button.
    pub fn segments(&self, tray_shown: bool) -> (r: Vec<Segment>)
        ensures
            segment_views(r@) == state_segments(self@, tray_shown),
    {
        let mut r: Vec<Segment> = Vec::new();
        let ghost none = Seq::<SegmentView>::empty();
        proof {
            assert(segment_views(r@) =~= none);
        }
        if !self.layout.as_str().is_empty() {
            push_part(&mut r, Segment::Layout(self.layout.clone()));
        }
        let ghost layout = part(self@.layout.len() > 0, SegmentView::Layout(self@.layout));
        proof {
            assert(segment_views(r@) =~= layout);
        }
        if tray_shown {
            push_part(&mut r, Segment::Tray);
        }
        proof {
            assert(segment_views(r@) =~= layout + part(tray_shown, SegmentView::Tray));
        }
        push_part(&mut r, Segment::Clock(self.clock_text.clone()));
        let ghost before = segment_views(r@);
        let ghost battery = SegmentView::Battery {
            text: self@.battery_text,
            color: battery_role(self@.battery_capacity, self@.battery_charging),
        };
        if self.has_battery {
            push_part(
                &mut r,
                Segment::Battery { text: self.battery_text.clone(), color: self.battery_color() },
            );
        }
        proof {
            assert(segment_views(r@) =~= before + part(self@.has_battery, battery));
        }
        let ghost most = segment_views(r@);
        r.push(Segment::Logout);
        proof {
            assert(segment_views(r@) =~= most + seq![SegmentView::Logout]);
        }
        r
    }

    /// Notes that the menu of an item is open.
    pub fn open_menu(&mut self, address: &str)
        ensures
            final(self)@ == (StatusBarView { menu_address: Some(address@), ..old(self)@ }),
    {
        self.menu_address = Some(address.to_owned());
    }

    /// Notes that no menu is open.
    pub fn close_menu(&mut self)
        ensures
            final(self)@ == (StatusBarView { menu_address: None, ..old(self)@ }),
    {
        self.menu_address = None;
    }
}

/// What logging out runs: the end of the session, or without one the end of everything of the user.
pub open spec fn logout_arguments(session: Option<&str>, user: Option<&str>) -> Seq<Seq<char>> {
    if session is Some && session->0@.len() > 0 {
        seq!["terminate-session"@, session->0@]
    } else {
        seq![
            "terminate-user"@,
            match user {
                Some(u) => u@,
                None => ""@,
            },
        ]
    }
}

/// Logs out: ends the session, or without one everything of the user.
pub fn logout(session: Option<&str>, user: Option<&str>) -> (r: Effect)
    ensures
        r@ == (EffectView::Run {
            program: "loginctl"@,
            arguments: logout_arguments(session, user),
        }),
{
    let mut arguments: Vec<String> = Vec::new();
    let mut ended = false;
    if let Some(id) = session {
        if !id.is_empty() {
            arguments.push("terminate-session".to_owned());
            arguments.push(id.to_owned());
            ended = true;
        }
    }
    if !ended {
        arguments.push("terminate-user".to_owned());
        arguments.push(
            match user {
                Some(u) => u.to_owned(),
                None => "".to_owned(),
            },
        );
    }
    proof {
        assert(views(arguments@) =~= logout_arguments(session, user));
    }
    Effect::Run { program: "loginctl".to_owned(), arguments }
}

/// The active workspace always has a button, and so has every occupied one.
pub proof fn law_active_workspace_is_shown(v: StatusBarView, w: WorkspaceState)
    requires
        v.workspaces.contains(w),
        w.active || w.occupied,
    ensures
        kept(v.workspaces, |x: WorkspaceState| v.shows(x)).contains(w),
{
    lemma_kept_contains(v.workspaces, |x: WorkspaceState| v.shows(x), w);
}

/// Parts and separators take turns, from the first part to the button to log out.
pub proof fn law_separators_stand_between_parts(v: StatusBarView, tray_shown: bool, i: int)
    requires
        0 <= i < state_segments(v, tray_shown).len(),
    ensures
        state_segments(v, tray_shown)[i] is Separator <==> i % 2 == 1,
        state_segments(v, tray_shown).last() is Logout,
        state_segments(v, tray_shown).len() % 2 == 1,
{
    let a = part(v.layout.len() > 0, SegmentView::Layout(v.layout));
    let b = part(tray_shown, SegmentView::Tray);
    let c = part(true, SegmentView::Clock(v.clock_text));
    let d = part(
        v.has_battery,
        SegmentView::Battery {
            text: v.battery_text,
            color: battery_role(v.battery_capacity, v.battery_charging),
        },
    );
    let s = state_segments(v, tray_shown);
    assert(s == a + b + c + d + seq![SegmentView::Logout]);
    assert(a.len() % 2 == 0 && b.len() % 2 == 0 && c.len() == 2 && d.len() % 2 == 0);
}

/// The text of a battery is its capacity in percent, and a plus sign exactly while it charges.
pub proof fn law_battery_text(capacity: u8)
    ensures
        battery_label(capacity, false) == decimal_text(capacity as nat) + seq!['%'],
        battery_label(capacity, true) == battery_label(capacity, false) + seq!['+'],
{
    reveal_strlit("%");
    reveal_strlit("%+");
    assert(battery_label(capacity, false) =~= decimal_text(capacity as nat) + seq!['%']);
    assert(battery_label(capacity, true) =~= battery_label(capacity, false) + seq!['+']);
}

/// The colour of a battery warns up to a quarter and alarms up to a tenth, unless it charges.
pub proof fn law_battery_colour(capacity: u8, charging: bool)
    ensures
        battery_role(capacity, charging) == Role::Good <==> charging,
        battery_role(capacity, charging) == Role::Danger <==> !charging && capacity <= 10,
        battery_role(capacity, charging) == Role::Warning <==> !charging && 10 < capacity <= 25,
        battery_role(capacity, charging) == Role::Foreground <==> !charging && capacity > 25,
{
}

/// Each second sets the clock and nothing else but the battery, and that only every half minute, where
/// there is one and it could be read.
pub proof fn law_seconds(v: StatusBarView, tick: u32, hour: i32, minute: i32, info: Option<BatteryInfo>)
    ensures
        ({
            let w = v.after_second(tick, hour, minute, info);
            &&& w.clock_text == two_places(hour as int) + ":"@ + two_places(minute as int)
            &&& w.workspaces == v.workspaces && w.layout == v.layout && w.menu_address
                == v.menu_address && w.has_battery == v.has_battery && w.show_empty_workspaces
                == v.show_empty_workspaces
            &&& if tick % 30 == 0 && v.has_battery && info is Some {
                &&& w.battery_capacity == info->0.capacity
                &&& w.battery_charging == info->0.charging
                &&& w.battery_text == battery_label(info->0.capacity, info->0.charging)
            } else {
                &&& w.battery_capacity == v.battery_capacity
                &&& w.battery_charging == v.battery_charging
                &&& w.battery_text == v.battery_text
            }
        }),
{
}

/// A workspace has a button unless it is empty, not in use, and empty ones are hidden.
pub proof fn law_hidden_workspaces(v: StatusBarView, w: WorkspaceState)
    requires
        v.workspaces.contains(w),
    ensures
        !kept(v.workspaces, |x: WorkspaceState| v.shows(x)).contains(w) <==> !v.show_empty_workspaces
            && !w.occupied && !w.active,
{
    lemma_kept_contains(v.workspaces, |x: WorkspaceState| v.shows(x), w);
}

/// The button of a workspace has its index as label and switches to it; the active one is drawn in the
/// colour that stands out, all others alike.
pub proof fn law_workspace_buttons(w: WorkspaceState)
    ensures
        button_of(w).id == w.id,
        button_of(w).label == decimal_text(w.index as nat),
        w.active ==> button_of(w).background == Role::Accent && button_of(w).foreground
            == Role::Background,
        !w.active ==> button_of(w).background == Role::Surface && button_of(w).foreground
            == Role::Foreground,
{
}

/// The parts of the state are the layout where there is one, the tray where it is shown, the clock, the
/// battery where there is one, and the button to log out, in this order and no others.
pub proof fn law_parts_of_the_state(v: StatusBarView, tray_shown: bool)
    ensures
        ({
            let s = state_segments(v, tray_shown);
            let a: int = if v.layout.len() > 0 {
                2
            } else {
                0
            };
            let b: int = a + (if tray_shown {
                2int
            } else {
                0
            });
            let d: int = b + 2 + (if v.has_battery {
                2int
            } else {
                0
            });
            &&& v.layout.len() > 0 ==> s[0] == SegmentView::Layout(v.layout)
            &&& tray_shown ==> s[a] == SegmentView::Tray
            &&& s[b] == SegmentView::Clock(v.clock_text)
            &&& v.has_battery ==> s[b + 2] == (SegmentView::Battery {
                text: v.battery_text,
                color: battery_role(v.battery_capacity, v.battery_charging),
            })
            &&& s[d] == SegmentView::Logout
            &&& s.len() == d + 1
        }),
{
}

/// Logging out ends the session that is known by a name, and else everything of the user.
pub proof fn law_logging_out(session: Option<&str>, user: Option<&str>)
    ensures
        logout_arguments(session, user).len() == 2,
        session matches Some(id) && id@.len() > 0 ==> logout_arguments(session, user)[0]
            == "terminate-session"@ && logout_arguments(session, user)[1] == session->0@,
        session is None || session->0@.len() == 0 ==> logout_arguments(session, user)[0]
            == "terminate-user"@,
        (session is None || session->0@.len() == 0) && user is Some ==> logout_arguments(session, user)[1]
            == user->0@,
        (session is None || session->0@.len() == 0) && user is None ==> logout_arguments(
            session,
            user,
        )[1].len() == 0,
{
    reveal_strlit("");
}

} // verus!
