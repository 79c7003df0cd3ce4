//! Pet state machine: states, preemption priority and legal transitions.
use vstd::prelude::*;

use crate::idle::IDLE_BASE;

verus! {

/// Work-area edge the pet can hide behind.
#[derive(Debug, Clone, Copy, PartialEq, Eq, Structural)]
pub enum Edge {
    Left,
    Right,
    Top,
    Bottom,
}

/// Stages of a health reminder, in the order they are played.
#[derive(Debug, Clone, Copy, PartialEq, Eq, Structural)]
pub enum ReminderStage {
    MovingToCenter,
    Showing,
    Feeding,
    Returning,
}

/// What the pet is doing. `Idle` carries the idle clip name.
#[derive(Debug, Clone, PartialEq)]
pub enum PetState {
    Idle(String),
    Watching,
    Reminder(ReminderStage),
    MenuOpen,
    Dragging,
    HiddenAtEdge(Edge),
}

/// The kind of a state, ignoring its payload.
pub open spec fn state_kind(s: PetState) -> int {
    match s {
        PetState::Idle(_) => 0,
        PetState::Watching => 1,
        PetState::Reminder(_) => 2,
        PetState::MenuOpen => 3,
        PetState::Dragging => 4,
        PetState::HiddenAtEdge(_) => 5,
    }
}

/// Display name of each state kind.
pub open spec fn state_name(s: PetState) -> Seq<char> {
    match s {
        PetState::Idle(_) => "Idle"@,
        PetState::Watching => "Watching"@,
        PetState::Reminder(_) => "Reminder"@,
        PetState::MenuOpen => "MenuOpen"@,
        PetState::Dragging => "Dragging"@,
        PetState::HiddenAtEdge(_) => "HiddenAtEdge"@,
    }
}

/// Preemption priority: a higher number is a stronger state.
pub open spec fn priority(s: PetState) -> int {
    match s {
        PetState::Dragging => 100,
        PetState::Reminder(_) => 80,
        PetState::MenuOpen => 70,
        PetState::HiddenAtEdge(_) => 50,
        PetState::Watching => 20,
        PetState::Idle(_) => 10,
    }
}

/// Moves between two different kinds of state that the pet allows.
pub open spec fn cross_kind_allowed(from: PetState, to: PetState) -> bool {
    match (from, to) {
        (PetState::Idle(_), PetState::Dragging) => true,
        (PetState::Idle(_), PetState::Watching) => true,
        (PetState::Idle(_), PetState::HiddenAtEdge(_)) => true,
        (PetState::Idle(_), PetState::MenuOpen) => true,
        (PetState::Idle(_), PetState::Reminder(st)) => st == ReminderStage::MovingToCenter,
        (PetState::Watching, PetState::Idle(_)) => true,
        (PetState::Watching, PetState::Dragging) => true,
        (PetState::Watching, PetState::MenuOpen) => true,
        (PetState::Watching, PetState::Reminder(st)) => st == ReminderStage::MovingToCenter,
        (PetState::Dragging, PetState::Idle(_)) => true,
        (PetState::Dragging, PetState::HiddenAtEdge(_)) => true,
        (PetState::Dragging, PetState::Reminder(st)) => st == ReminderStage::MovingToCenter,
        (PetState::HiddenAtEdge(_), PetState::Idle(_)) => true,
        (PetState::HiddenAtEdge(_), PetState::Dragging) => true,
        (PetState::HiddenAtEdge(_), PetState::MenuOpen) => true,
        (PetState::HiddenAtEdge(_), PetState::Reminder(st)) => st == ReminderStage::MovingToCenter,
        (PetState::Reminder(st), PetState::Idle(_)) => st == ReminderStage::Returning,
        (PetState::Reminder(_), PetState::Dragging) => true,
        (PetState::MenuOpen, PetState::Idle(_)) => true,
        (PetState::MenuOpen, PetState::Dragging) => true,
        _ => false,
    }
}

/// A transition is legal when it keeps the kind of state (a refresh, such as
/// a new idle clip or a new reminder stage) or is one of the allowed moves.
pub open spec fn transition_allowed(from: PetState, to: PetState) -> bool {
    state_kind(from) == state_kind(to) || cross_kind_allowed(from, to)
}

impl PetState {
    pub fn name(&self) -> (r: &'static str)
        ensures
            r@ == state_name(*self),
    {
        match self {
            PetState::Idle(_) => "Idle",
            PetState::Watching => "Watching",
            PetState::Reminder(_) => "Reminder",
            PetState::MenuOpen => "MenuOpen",
            PetState::Dragging => "Dragging",
            PetState::HiddenAtEdge(_) => "HiddenAtEdge",
        }
    }

    pub fn is_idle(&self) -> (r: bool)
        ensures
            r == (*self is Idle),
    {
        matches!(self, PetState::Idle(_))
    }

    pub fn is_reminder(&self) -> (r: bool)
        ensures
            r == (*self is Reminder),
    {
        matches!(self, PetState::Reminder(_))
    }

    /// Whether the reminder window (card and feed button) is up: while the
    /// reminder shows and while the pet is being fed.
    pub fn wants_reminder_window(&self) -> (r: bool)
        ensures
            r == (*self == PetState::Reminder(ReminderStage::Showing) || *self == PetState::Reminder(ReminderStage::Feeding)),
    {
        match self {
            PetState::Reminder(ReminderStage::Showing) | PetState::Reminder(ReminderStage::Feeding) => true,
            _ => false,
        }
    }

    /// Whether the pet is travelling for a reminder: to the centre or back home.
    pub fn is_reminder_moving(&self) -> (r: bool)
        ensures
            r == (*self == PetState::Reminder(ReminderStage::MovingToCenter)
                || *self == PetState::Reminder(ReminderStage::Returning)),
    {
        match self {
            PetState::Reminder(ReminderStage::MovingToCenter) | PetState::Reminder(ReminderStage::Returning) => true,
            _ => false,
        }
    }

    /// Animation clip played in this state: the idle clip it names, or the
    /// clip of the state.
    pub fn clip_name(&self) -> (r: String)
        ensures
            r@ == clip_for(*self),
    {
        match self {
            PetState::Idle(name) => name.clone(),
            PetState::Watching => "idle_watch".to_string(),
            PetState::Dragging => "dragging".to_string(),
            PetState::HiddenAtEdge(_) => "edge_peek".to_string(),
            PetState::Reminder(ReminderStage::Feeding) => "reminder_feed".to_string(),
            PetState::Reminder(_) => "reminder_wave".to_string(),
            PetState::MenuOpen => IDLE_BASE.to_string(),
        }
    }
}

/// Clip name for each state.
pub open spec fn clip_for(s: PetState) -> Seq<char> {
    match s {
        PetState::Idle(name) => name@,
        PetState::Watching => "idle_watch"@,
        PetState::Dragging => "dragging"@,
        PetState::HiddenAtEdge(_) => "edge_peek"@,
        PetState::Reminder(ReminderStage::Feeding) => "reminder_feed"@,
        PetState::Reminder(_) => "reminder_wave"@,
        PetState::MenuOpen => IDLE_BASE@,
    }
}

/// Numeric priority for preemption. Higher = stronger.
pub fn state_priority(state: &PetState) -> (r: u8)
    ensures
        r == priority(*state),
{
    match state {
        PetState::Dragging => 100,
        PetState::Reminder(_) => 80,
        PetState::MenuOpen => 70,
        PetState::HiddenAtEdge(_) => 50,
        PetState::Watching => 20,
        PetState::Idle(_) => 10,
    }
}

/// Whether `proposed` may interrupt `current`.
pub fn can_interrupt(current: &PetState, proposed: &PetState) -> (r: bool)
    ensures
        r == (priority(*proposed) > priority(*current)),
{
    state_priority(proposed) > state_priority(current)
}

fn same_kind(a: &PetState, b: &PetState) -> (r: bool)
    ensures
        r == (state_kind(*a) == state_kind(*b)),
{
    match (a, b) {
        (PetState::Idle(_), PetState::Idle(_)) => true,
        (PetState::Watching, PetState::Watching) => true,
        (PetState::Reminder(_), PetState::Reminder(_)) => true,
        (PetState::MenuOpen, PetState::MenuOpen) => true,
        (PetState::Dragging, PetState::Dragging) => true,
        (PetState::HiddenAtEdge(_), PetState::HiddenAtEdge(_)) => true,
        _ => false,
    }
}

/// Centralized transitions: `Ok(to)` when the move is legal, else `Err(to)`.
pub fn try_transition(from: &PetState, to: PetState) -> (r: Result<PetState, PetState>)
    ensures
        transition_allowed(*from, to) ==> r == Ok::<PetState, PetState>(to),
        !transition_allowed(*from, to) ==> r == Err::<PetState, PetState>(to),
{
    let allowed = match (from, &to) {
        (PetState::Idle(_), PetState::Dragging) => true,
        (PetState::Dragging, PetState::Idle(_)) => true,
        (PetState::Idle(_), PetState::Watching) => true,
        (PetState::Watching, PetState::Idle(_)) => true,
        (PetState::Watching, PetState::Dragging) => true,
        (PetState::Idle(_), PetState::HiddenAtEdge(_)) => true,
        (PetState::HiddenAtEdge(_), PetState::Idle(_)) => true,
        (PetState::HiddenAtEdge(_), PetState::Dragging) => true,
        (PetState::Dragging, PetState::HiddenAtEdge(_)) => true,
        (PetState::Idle(_), PetState::Reminder(ReminderStage::MovingToCenter)) => true,
        (PetState::Watching, PetState::Reminder(ReminderStage::MovingToCenter)) => true,
        (PetState::HiddenAtEdge(_), PetState::Reminder(ReminderStage::MovingToCenter)) => true,
        (PetState::Reminder(ReminderStage::Returning), PetState::Idle(_)) => true,
        (PetState::Reminder(_), PetState::Dragging) => true,
        (PetState::Dragging, PetState::Reminder(ReminderStage::MovingToCenter)) => true,
        (PetState::Idle(_), PetState::MenuOpen) => true,
        (PetState::Watching, PetState::MenuOpen) => true,
        (PetState::MenuOpen, PetState::Idle(_)) => true,
        (PetState::MenuOpen, PetState::Dragging) => true,
        (PetState::HiddenAtEdge(_), PetState::MenuOpen) => true,
        _ => same_kind(from, &to),
    };
    if allowed {
        Ok(to)
    } else {
        Err(to)
    }
}


/// Interruption is a strict order: no state interrupts itself, two states
/// never interrupt each other, and interruption chains compose.
pub proof fn lemma_interrupt_is_strict_order(a: PetState, b: PetState, c: PetState)
    ensures
        !(priority(a) > priority(a)),
        priority(b) > priority(a) ==> !(priority(a) > priority(b)),
        priority(b) > priority(a) && priority(c) > priority(b) ==> priority(c) > priority(a),
{
}

/// Dragging outranks every other kind of state, so a drag may always
/// interrupt; a reminder outranks watching, idling, the menu and edge-hiding.
pub proof fn lemma_drag_and_reminder_priority(s: PetState, st: ReminderStage)
    ensures
        !(s is Dragging) ==> priority(PetState::Dragging) > priority(s),
        !(s is Dragging) && !(s is Reminder) ==> priority(PetState::Reminder(st)) > priority(s),
{
}

/// A reminder plays its stages in order and ends back in idle; a drag may
/// interrupt it at any stage; an idle, watching or hidden pet may start one.
pub proof fn lemma_reminder_flow(st: ReminderStage, clip: String, e: Edge)
    ensures
        transition_allowed(PetState::Idle(clip), PetState::Reminder(ReminderStage::MovingToCenter)),
        transition_allowed(PetState::Watching, PetState::Reminder(ReminderStage::MovingToCenter)),
        transition_allowed(PetState::HiddenAtEdge(e), PetState::Reminder(ReminderStage::MovingToCenter)),
        transition_allowed(PetState::Reminder(ReminderStage::MovingToCenter), PetState::Reminder(ReminderStage::Showing)),
        transition_allowed(PetState::Reminder(ReminderStage::Showing), PetState::Reminder(ReminderStage::Feeding)),
        transition_allowed(PetState::Reminder(ReminderStage::Feeding), PetState::Reminder(ReminderStage::Returning)),
        transition_allowed(PetState::Reminder(ReminderStage::Returning), PetState::Idle(clip)),
        transition_allowed(PetState::Reminder(st), PetState::Dragging),
        st != ReminderStage::Returning ==> !transition_allowed(PetState::Reminder(st), PetState::Idle(clip)),
{
}

/// Refreshing a state with one of the same kind is always legal.
pub proof fn lemma_same_kind_always_allowed(from: PetState, to: PetState)
    requires
        state_kind(from) == state_kind(to),
    ensures
        transition_allowed(from, to),
{
}

/// Which states may move into each kind of state: a drag may start from
/// anywhere; the pet hides at any edge from idling, from a drag (dropped at
/// the border) or from another edge; it watches the cursor only from idling;
/// the menu opens from idling, watching or an edge; idling resumes from
/// anything but a reminder that has not reached its way back; a reminder
/// starts (at its first stage) from anything but the open menu, and moves
/// freely between its own stages.
pub proof fn lemma_transition_entries(from: PetState, clip: String, st: ReminderStage, e: Edge)
    ensures
        transition_allowed(from, PetState::Dragging),
        transition_allowed(from, PetState::HiddenAtEdge(e))
            <==> (from is Idle || from is Dragging || from is HiddenAtEdge),
        transition_allowed(from, PetState::Watching) <==> (from is Idle || from is Watching),
        transition_allowed(from, PetState::MenuOpen)
            <==> (from is Idle || from is Watching || from is HiddenAtEdge || from is MenuOpen),
        transition_allowed(from, PetState::Idle(clip))
            <==> (!(from is Reminder) || from == PetState::Reminder(ReminderStage::Returning)),
        transition_allowed(from, PetState::Reminder(st))
            <==> (from is Reminder || (st == ReminderStage::MovingToCenter && !(from is MenuOpen))),
{
}

/// The preemption order: dragging above a reminder, above the open menu,
/// above hiding at an edge, above watching the cursor, above idling,
/// whatever the payload of each state. So a state interrupts exactly the
/// states below it in this order.
pub proof fn lemma_priority_order(clip: String, st: ReminderStage, e: Edge)
    ensures
        priority(PetState::Dragging) > priority(PetState::Reminder(st)),
        priority(PetState::Reminder(st)) > priority(PetState::MenuOpen),
        priority(PetState::MenuOpen) > priority(PetState::HiddenAtEdge(e)),
        priority(PetState::HiddenAtEdge(e)) > priority(PetState::Watching),
        priority(PetState::Watching) > priority(PetState::Idle(clip)),
        priority(PetState::Idle(clip)) > 0,
{
}

} // verus!
