//! The debounced command-activity interface the core consumes: for each
//! command, whether it is active this tick and whether it was active
//! the previous tick. Mapping physical keys and buttons to commands is
//! a collaborator concern and happens outside the core.

use vstd::prelude::*;

verus! {

/// The commands a player can issue.
#[derive(Clone, Copy, Debug, Eq, Hash, PartialEq, Structural)]
pub enum PlayerCommand {
    MoveLeft,
    MoveRight,
    MoveDown,
    RotUp,
    RotDown,
    Start,
    Quit,
}

/// A stable position for each command in the activity arrays.
pub open spec fn cmd_index(c: PlayerCommand) -> int {
    match c {
        PlayerCommand::MoveLeft => 0,
        PlayerCommand::MoveRight => 1,
        PlayerCommand::MoveDown => 2,
        PlayerCommand::RotUp => 3,
        PlayerCommand::RotDown => 4,
        PlayerCommand::Start => 5,
        PlayerCommand::Quit => 6,
    }
}

fn cmd_slot(c: PlayerCommand) -> (r: usize)
    ensures
        r == cmd_index(c),
{
    match c {
        PlayerCommand::MoveLeft => 0,
        PlayerCommand::MoveRight => 1,
        PlayerCommand::MoveDown => 2,
        PlayerCommand::RotUp => 3,
        PlayerCommand::RotDown => 4,
        PlayerCommand::Start => 5,
        PlayerCommand::Quit => 6,
    }
}

/// The set of commands active in one snapshot.
#[derive(Clone, Copy, Debug)]
pub struct CommandSet {
    flags: [bool; 7],
}

impl CommandSet {
    pub closed spec fn spec_contains(self, c: PlayerCommand) -> bool {
        self.flags[cmd_index(c)]
    }

    pub fn new() -> (r: CommandSet)
        ensures
            forall|c: PlayerCommand| !r.spec_contains(c),
    {
        CommandSet { flags: [false, false, false, false, false, false, false] }
    }

    pub fn activate(&mut self, c: PlayerCommand)
        ensures
            final(self).spec_contains(c),
            forall|d: PlayerCommand|
                d != c ==> final(self).spec_contains(d) == old(self).spec_contains(d),
    {
        let i = cmd_slot(c);
        self.flags[i] = true;
    }

    pub fn deactivate(&mut self, c: PlayerCommand)
        ensures
            !final(self).spec_contains(c),
            forall|d: PlayerCommand|
                d != c ==> final(self).spec_contains(d) == old(self).spec_contains(d),
    {
        let i = cmd_slot(c);
        self.flags[i] = false;
    }

    pub fn contains(&self, c: PlayerCommand) -> (r: bool)
        ensures
            r == self.spec_contains(c),
    {
        self.flags[cmd_slot(c)]
    }
}

/// The current and previous command-activity snapshots, from which
/// edge-triggered queries are answered.
#[derive(Clone, Copy, Debug)]
pub struct InputState {
    pub current: CommandSet,
    pub previous: CommandSet,
}

impl InputState {
    pub open spec fn spec_active(self, c: PlayerCommand) -> bool {
        self.current.spec_contains(c)
    }

    pub open spec fn spec_just_active(self, c: PlayerCommand) -> bool {
        self.current.spec_contains(c) && !self.previous.spec_contains(c)
    }

    pub fn new() -> (r: InputState)
        ensures
            forall|c: PlayerCommand| !r.spec_active(c),
            forall|c: PlayerCommand| !r.previous.spec_contains(c),
    {
        InputState { current: CommandSet::new(), previous: CommandSet::new() }
    }

    /// Saves the current snapshot as the previous one, at the end of a
    /// tick.
    pub fn save_current(&mut self)
        ensures
            final(self).previous == old(self).current,
            final(self).current == old(self).current,
    {
        self.previous = self.current;
    }

    pub fn activate_command(&mut self, c: PlayerCommand)
        ensures
            final(self).current.spec_contains(c),
            forall|d: PlayerCommand|
                d != c ==> final(self).current.spec_contains(d) == old(
                    self,
                ).current.spec_contains(d),
            final(self).previous == old(self).previous,
    {
        self.current.activate(c);
    }

    pub fn deactivate_command(&mut self, c: PlayerCommand)
        ensures
            !final(self).current.spec_contains(c),
            forall|d: PlayerCommand|
                d != c ==> final(self).current.spec_contains(d) == old(
                    self,
                ).current.spec_contains(d),
            final(self).previous == old(self).previous,
    {
        self.current.deactivate(c);
    }

    pub fn active(&self, c: PlayerCommand) -> (r: bool)
        ensures
            r == self.spec_active(c),
    {
        self.current.contains(c)
    }

    pub fn inactive(&self, c: PlayerCommand) -> (r: bool)
        ensures
            r == !self.spec_active(c),
    {
        !self.current.contains(c)
    }

    pub fn just_active(&self, c: PlayerCommand) -> (r: bool)
        ensures
            r == self.spec_just_active(c),
    {
        self.current.contains(c) && !self.previous.contains(c)
    }

    pub fn just_inactive(&self, c: PlayerCommand) -> (r: bool)
        ensures
            r == (self.previous.spec_contains(c) && !self.current.spec_contains(c)),
    {
        self.previous.contains(c) && !self.current.contains(c)
    }
}

} // verus!
