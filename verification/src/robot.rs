//! The decisions of the robot's tasks that do not depend on measurements:
//! which field transform an alliance gets, how the intake reacts to the
//! requested superstructure state, and how messages are paired or echoed.
use vstd::prelude::*;

use crate::text::{ascii_lower, chars_of, contains_exec, contains_seq, to_ascii_lower};

verus! {

// ---------------------------------------------------------------------------
// Driver station
// ---------------------------------------------------------------------------

#[derive(Debug, Clone, Copy, PartialEq, Eq, Structural)]
pub enum Allience {
    RED,
    BLUE,
}

/// What the driver station reports of the robot.
#[derive(Debug, Clone, Copy, PartialEq, Eq, Structural)]
pub enum DSStatus {
    DISCONNECTED,
    DISABLED(Allience),
    ENABLED(Allience),
}

impl Default for DSStatus {
    /// Until the driver station reports, the robot counts as disconnected.
    fn default() -> (r: Self)
        ensures
            r == DSStatus::DISCONNECTED,
    {
        DSStatus::DISCONNECTED
    }
}

/// The acknowledgement the robot sends back for a driver-station command.
#[derive(Debug, Clone, Copy, PartialEq, Eq, Structural)]
pub struct DxRxMsg {
    /// The sequence number of the command acknowledged.
    pub seq: u64,
}

impl DxRxMsg {
    /// The acknowledgement of a command: it echoes the command's sequence
    /// number; without a command there is none.
    pub fn echo(command_seq: Option<u64>) -> (r: Option<DxRxMsg>)
        ensures
            r == (match command_seq {
                Some(seq) => Some(DxRxMsg { seq }),
                None => None,
            }),
    {
        match command_seq {
            Some(seq) => Some(DxRxMsg { seq }),
            None => None,
        }
    }
}

/// The message for a driver-station command that is not newer than the last.
pub open spec fn out_of_order_text() -> Seq<char> {
    "DsTxMsg received out of order; leaving the last command active"@
}

/// The sequence check of the robot's driver-station receiver: a command is
/// taken only when its sequence number is greater than the last one taken,
/// which it then becomes; otherwise it is refused and the last stays.
pub fn accept_command_seq(last_seq: &mut u64, incoming: u64) -> (r: Result<(), String>)
    ensures
        incoming > *old(last_seq) ==> r is Ok && *final(last_seq) == incoming,
        incoming <= *old(last_seq) ==> (r matches Err(m) && m@ == out_of_order_text())
            && *final(last_seq) == *old(last_seq),
{
    if incoming <= *last_seq {
        return Err("DsTxMsg received out of order; leaving the last command active".to_string());
    }
    *last_seq = incoming;
    Ok(())
}

/// What the robot reads of a driver-station command (its gamepad travels beside it).
#[derive(Debug, Clone, Copy, PartialEq, Eq, Structural)]
pub struct DriverCommand {
    pub seq: u64,
    pub alliance: Allience,
    pub enabled: bool,
    pub estop: bool,
}

/// What the robot's driver-station receiver publishes in a cycle.
#[derive(Debug, Clone, Copy, PartialEq, Eq, Structural)]
pub enum ReceiverOutput {
    /// No command for more than half a second: `DSStatus::DISCONNECTED`, no gamepad.
    Disconnected,
    /// The command in force asks for an emergency stop; no gamepad.
    EmergencyStop,
    /// The status the command in force gives, published with its gamepad.
    Command(DSStatus),
}

/// The receiver's state: the last command taken, its sequence number and the
/// time (in nanoseconds) it arrived.
#[derive(Debug, Clone, Copy, PartialEq, Eq, Structural)]
pub struct ReceiverState {
    pub seq: u64,
    pub last: DriverCommand,
    pub last_message_ns: u64,
}

/// How long the receiver waits for a command before it reports a disconnection.
pub const RECEIVER_TIMEOUT_NS: u64 = 500_000_000;

/// What the receiver publishes with `cmd` in force, `elapsed` nanoseconds
/// after the last command arrived.
pub open spec fn receiver_output(cmd: DriverCommand, elapsed: int) -> ReceiverOutput {
    if elapsed > RECEIVER_TIMEOUT_NS {
        ReceiverOutput::Disconnected
    } else if cmd.estop {
        ReceiverOutput::EmergencyStop
    } else if cmd.enabled {
        ReceiverOutput::Command(DSStatus::ENABLED(cmd.alliance))
    } else {
        ReceiverOutput::Command(DSStatus::DISABLED(cmd.alliance))
    }
}

impl ReceiverState {
    /// Nothing received yet: sequence 0, a disabled blue command, time 0.
    pub fn new() -> (r: ReceiverState)
        ensures
            r == (ReceiverState {
                seq: 0,
                last: DriverCommand { seq: 0, alliance: Allience::BLUE, enabled: false, estop: false },
                last_message_ns: 0,
            }),
    {
        ReceiverState {
            seq: 0,
            last: DriverCommand { seq: 0, alliance: Allience::BLUE, enabled: false, estop: false },
            last_message_ns: 0,
        }
    }

    /// One cycle of the receiver at time `now_ns`. A command newer than the
    /// last one taken is taken (with the time it arrived, where that is
    /// known); an older one is refused and nothing changes. Then the command
    /// in force decides what is published (see [`receiver_output`]).
    pub fn receive(&mut self, input: Option<(DriverCommand, Option<u64>)>, now_ns: u64) -> (r: Result<ReceiverOutput, String>)
        requires
            old(self).last_message_ns <= now_ns,
            input matches Some((_, Some(t))) ==> t <= now_ns,
        ensures
            match input {
                Some((cmd, arrived)) => if cmd.seq <= old(self).seq {
                    (r matches Err(m) && m@ == out_of_order_text()) && *final(self) == *old(self)
                } else {
                    &&& final(self).seq == cmd.seq
                    &&& final(self).last == cmd
                    &&& final(self).last_message_ns == (match arrived {
                        Some(t) => t,
                        None => old(self).last_message_ns,
                    })
                    &&& r == Ok::<ReceiverOutput, String>(receiver_output(cmd, now_ns - final(self).last_message_ns))
                },
                None => *final(self) == *old(self)
                    && r == Ok::<ReceiverOutput, String>(receiver_output(old(self).last, now_ns - old(self).last_message_ns)),
            },
    {
        if let Some((cmd, arrived)) = input {
            if accept_command_seq(&mut self.seq, cmd.seq).is_err() {
                return Err("DsTxMsg received out of order; leaving the last command active".to_string());
            }
            if let Some(t) = arrived {
                self.last_message_ns = t;
            }
            self.last = cmd;
        }
        let cmd = self.last;
        let output = if now_ns - self.last_message_ns > RECEIVER_TIMEOUT_NS {
            ReceiverOutput::Disconnected
        } else if cmd.estop {
            ReceiverOutput::EmergencyStop
        } else if cmd.enabled {
            ReceiverOutput::Command(DSStatus::ENABLED(cmd.alliance))
        } else {
            ReceiverOutput::Command(DSStatus::DISABLED(cmd.alliance))
        };
        Ok(output)
    }
}

/// Commands the driver-station window sends to its network worker.
#[derive(Debug, Clone, Copy, PartialEq, Eq, Structural)]
pub enum UiCommand {
    Ping,
}

/// What the network worker reports back to the window.
#[derive(Debug, Clone, Copy, PartialEq, Eq, Structural)]
pub enum RobotStatus {
    Pong,
}

// ---------------------------------------------------------------------------
// Gamepads
// ---------------------------------------------------------------------------

/// A text with its ASCII letters in lower case (as `str::to_ascii_lowercase`).
pub open spec fn ascii_lowercase(s: Seq<char>) -> Seq<char> {
    Seq::new(s.len(), |i: int| ascii_lower(s[i]))
}

/// A gamepad name that, in lower case, says `xbox`, `x-box` or `xinput`.
pub open spec fn xbox_name(name: Seq<char>) -> bool {
    let lower = ascii_lowercase(name);
    contains_seq(lower, "xbox"@) || contains_seq(lower, "x-box"@) || contains_seq(lower, "xinput"@)
}

/// Whether a gamepad's name is that of an Xbox controller (see [`xbox_name`]).
pub fn is_xbox_gamepad(name: &str) -> (r: bool)
    ensures
        r == xbox_name(name@),
{
    let c = chars_of(name);
    let mut lower: Vec<char> = Vec::new();
    let mut i: usize = 0;
    while i < c.len()
        invariant
            i <= c@.len(),
            lower@ == Seq::new(i as nat, |j: int| ascii_lower(c@[j])),
        decreases c.len() - i,
    {
        lower.push(to_ascii_lower(c[i]));
        assert(lower@ =~= Seq::new((i + 1) as nat, |j: int| ascii_lower(c@[j])));
        i = i + 1;
    }
    assert(lower@ =~= ascii_lowercase(name@));
    let a = chars_of("xbox");
    let b = chars_of("x-box");
    let x = chars_of("xinput");
    proof {
        reveal_strlit("xbox");
        reveal_strlit("x-box");
        reveal_strlit("xinput");
    }
    contains_exec(lower.as_slice(), a.as_slice()) || contains_exec(lower.as_slice(), b.as_slice())
        || contains_exec(lower.as_slice(), x.as_slice())
}

/// The first gamepad at or after `k` that is connected and an Xbox controller.
pub open spec fn first_xbox(gamepads: Seq<(bool, String)>, k: int) -> Option<int>
    decreases gamepads.len() - k,
{
    if k < 0 || k >= gamepads.len() {
        None
    } else if gamepads[k].0 && xbox_name(gamepads[k].1@) {
        Some(k)
    } else {
        first_xbox(gamepads, k + 1)
    }
}

/// The first connected Xbox controller among the gamepads, each given by
/// whether it is connected and its name.
pub fn find_xbox_gamepad(gamepads: &Vec<(bool, String)>) -> (r: Option<usize>)
    ensures
        r matches Some(i) ==> i < gamepads@.len() && first_xbox(gamepads@, 0) == Some(i as int),
        r is None ==> first_xbox(gamepads@, 0) is None,
{
    let mut k: usize = 0;
    while k < gamepads.len()
        invariant
            k <= gamepads@.len(),
            first_xbox(gamepads@, k as int) == first_xbox(gamepads@, 0),
        decreases gamepads.len() - k,
    {
        if gamepads[k].0 && is_xbox_gamepad(gamepads[k].1.as_str()) {
            return Some(k);
        }
        k = k + 1;
    }
    None
}

// ---------------------------------------------------------------------------
// Alliance-specific transforms
// ---------------------------------------------------------------------------

/// Selects a field transform by the alliance the driver station reports.
#[derive(Debug)]
pub struct AllianceTransformSelector<T> {
    pub red_transform: T,
    pub blue_transform: T,
}

impl<T> AllianceTransformSelector<T> {
    /// Enabled and disabled statuses select the transform of their alliance;
    /// a disconnected driver station selects none.
    pub fn transform_for_status(&self, status: DSStatus) -> (r: Option<&T>)
        ensures
            status == DSStatus::DISCONNECTED ==> r is None,
            (status == DSStatus::DISABLED(Allience::RED) || status == DSStatus::ENABLED(Allience::RED))
                ==> r == Some(&self.red_transform),
            (status == DSStatus::DISABLED(Allience::BLUE) || status == DSStatus::ENABLED(Allience::BLUE))
                ==> r == Some(&self.blue_transform),
    {
        match status {
            DSStatus::DISCONNECTED => None,
            DSStatus::DISABLED(Allience::RED) | DSStatus::ENABLED(Allience::RED) => Some(&self.red_transform),
            DSStatus::DISABLED(Allience::BLUE) | DSStatus::ENABLED(Allience::BLUE) => Some(&self.blue_transform),
        }
    }
}

// ---------------------------------------------------------------------------
// Turret state
// ---------------------------------------------------------------------------

/// Puts a flywheel speed and a turret position together into a turret state.
#[derive(Debug)]
pub struct TurretStateAssembler {}

/// Puts the flywheel's and the turret's motor readings together into a turret state.
#[derive(Debug)]
pub struct MoteusTurretStateAssembler {}

/// A turret state is produced only when both inputs carry a value.
pub open spec fn both<A, B>(a: Option<A>, b: Option<B>) -> Option<(A, B)> {
    match (a, b) {
        (Some(x), Some(y)) => Some((x, y)),
        _ => None,
    }
}

impl TurretStateAssembler {
    /// The flywheel speed and turret position to assemble, when both arrived.
    pub fn pair<A, B>(&self, flywheel: Option<A>, position: Option<B>) -> (r: Option<(A, B)>)
        ensures
            r == both(flywheel, position),
    {
        match (flywheel, position) {
            (Some(x), Some(y)) => Some((x, y)),
            _ => None,
        }
    }
}

impl MoteusTurretStateAssembler {
    /// The flywheel and turret readings to assemble, when both arrived.
    pub fn pair<A, B>(&self, flywheel: Option<A>, turret: Option<B>) -> (r: Option<(A, B)>)
        ensures
            r == both(flywheel, turret),
    {
        match (flywheel, turret) {
            (Some(x), Some(y)) => Some((x, y)),
            _ => None,
        }
    }
}

// ---------------------------------------------------------------------------
// Intake
// ---------------------------------------------------------------------------

/// The state the superstructure is asked to be in.
#[derive(Debug, Clone, Copy, PartialEq, Eq, Structural)]
pub enum SuperState {
    Disabled,
    Idle,
    Intaking,
    Outtaking,
    Shooting,
    /// Intaking and shooting at the same time.
    WalkAndTalk,
    Climb,
}

impl Default for SuperState {
    /// Without a request the superstructure is disabled.
    fn default() -> (r: Self)
        ensures
            r == SuperState::Disabled,
    {
        SuperState::Disabled
    }
}

#[derive(Debug, Clone, Copy, PartialEq, Eq, Structural)]
pub enum IntakeState {
    IDLE,
    PASS,
    RETRACT,
    INTAKING,
    OUTTAKING,
}

/// How the intake motor is driven: stopped, at the intake speed, or at its opposite.
#[derive(Debug, Clone, Copy, PartialEq, Eq, Structural)]
pub enum IntakeDrive {
    Stop,
    Forward,
    Reverse,
}

/// What one step of the intake does: the drive, the flag sent with it (false
/// only while passing game pieces on), and whether the retract timer starts.
#[derive(Debug, Clone, Copy, PartialEq, Eq, Structural)]
pub struct IntakeStep {
    pub drive: IntakeDrive,
    pub flag: bool,
    pub start_retract: bool,
}

pub open spec fn shooting(cmd: SuperState) -> bool {
    cmd == SuperState::Shooting || cmd == SuperState::WalkAndTalk
}

/// The drive and flag of a state, which it sets before it looks at the command.
pub open spec fn state_output(state: IntakeState) -> (IntakeDrive, bool) {
    match state {
        IntakeState::IDLE => (IntakeDrive::Stop, true),
        IntakeState::INTAKING => (IntakeDrive::Forward, true),
        IntakeState::PASS => (IntakeDrive::Forward, false),
        IntakeState::OUTTAKING => (IntakeDrive::Reverse, true),
        IntakeState::RETRACT => (IntakeDrive::Reverse, true),
    }
}

/// The next state: idle picks up shooting (pass), intaking and outtaking;
/// intaking goes on while asked, passes when shooting, else idles; passing
/// goes on while shooting, else retracts; outtaking goes on while asked,
/// else idles; retracting idles once its time is up.
pub open spec fn next_intake_state(state: IntakeState, cmd: SuperState, retract_expired: bool) -> IntakeState {
    match state {
        IntakeState::IDLE => if shooting(cmd) {
            IntakeState::PASS
        } else if cmd == SuperState::Intaking {
            IntakeState::INTAKING
        } else if cmd == SuperState::Outtaking {
            IntakeState::OUTTAKING
        } else {
            IntakeState::IDLE
        },
        IntakeState::INTAKING => if shooting(cmd) {
            IntakeState::PASS
        } else if cmd == SuperState::Intaking {
            IntakeState::INTAKING
        } else {
            IntakeState::IDLE
        },
        IntakeState::PASS => if shooting(cmd) {
            IntakeState::PASS
        } else {
            IntakeState::RETRACT
        },
        IntakeState::OUTTAKING => if cmd == SuperState::Outtaking {
            IntakeState::OUTTAKING
        } else {
            IntakeState::IDLE
        },
        IntakeState::RETRACT => if retract_expired {
            IntakeState::IDLE
        } else {
            IntakeState::RETRACT
        },
    }
}

/// The intake of the first superstructure version.
#[derive(Debug)]
pub struct S1IntakeStateMachine {
    pub state: IntakeState,
}

impl S1IntakeStateMachine {
    /// An intake at rest.
    pub fn new() -> (r: Self)
        ensures
            r.state == IntakeState::IDLE,
    {
        S1IntakeStateMachine { state: IntakeState::IDLE }
    }

    /// One step: the requested state (`Disabled` when none arrived) and
    /// whether the retract time is over; a retract restarts its timer.
    pub fn process(&mut self, requested: Option<SuperState>, retract_expired: bool) -> (r: IntakeStep)
        ensures
            ({
                let cmd = match requested {
                    Some(c) => c,
                    None => SuperState::Disabled,
                };
                &&& final(self).state == next_intake_state(old(self).state, cmd, retract_expired)
                &&& r.drive == state_output(old(self).state).0
                &&& r.flag == state_output(old(self).state).1
                &&& r.start_retract == (old(self).state == IntakeState::PASS && !shooting(cmd))
            }),
    {
        let cmd = match requested {
            Some(c) => c,
            None => SuperState::Disabled,
        };
        let is_shooting = cmd == SuperState::Shooting || cmd == SuperState::WalkAndTalk;
        match self.state {
            IntakeState::IDLE => {
                if is_shooting {
                    self.state = IntakeState::PASS;
                } else if cmd == SuperState::Intaking {
                    self.state = IntakeState::INTAKING;
                } else if cmd == SuperState::Outtaking {
                    self.state = IntakeState::OUTTAKING;
                }
                IntakeStep { drive: IntakeDrive::Stop, flag: true, start_retract: false }
            },
            IntakeState::INTAKING => {
                if is_shooting {
                    self.state = IntakeState::PASS;
                } else if cmd != SuperState::Intaking {
                    self.state = IntakeState::IDLE;
                }
                IntakeStep { drive: IntakeDrive::Forward, flag: true, start_retract: false }
            },
            IntakeState::PASS => {
                if is_shooting {
                    IntakeStep { drive: IntakeDrive::Forward, flag: false, start_retract: false }
                } else {
                    self.state = IntakeState::RETRACT;
                    IntakeStep { drive: IntakeDrive::Forward, flag: false, start_retract: true }
                }
            },
            IntakeState::OUTTAKING => {
                if cmd != SuperState::Outtaking {
                    self.state = IntakeState::IDLE;
                }
                IntakeStep { drive: IntakeDrive::Reverse, flag: true, start_retract: false }
            },
            IntakeState::RETRACT => {
                if retract_expired {
                    self.state = IntakeState::IDLE;
                }
                IntakeStep { drive: IntakeDrive::Reverse, flag: true, start_retract: false }
            },
        }
    }
}

// ---------------------------------------------------------------------------
// Turret commands
// ---------------------------------------------------------------------------

/// A motor command as the turret task sends it: hold a position (with an
/// optional velocity limit), turn at a velocity, or stop.
#[derive(Debug, Clone, Copy)]
pub enum MotorCommand<V, P> {
    Position(P, Option<V>),
    Velocity(V),
    Stop,
}

/// The turret task: the turret's velocity limit and the flywheel's idle speed.
#[derive(Debug, Clone, Copy)]
pub struct TurretCMD<V> {
    pub max_turret_velocity: Option<V>,
    pub idle_flywheel_speed: V,
}

/// The flywheel's and the turret's commands: both stop when disabled; while
/// shooting the flywheel turns at the measured speed, otherwise at its idle
/// speed, and the turret is held at the measured position.
pub open spec fn turret_commands<V, P>(task: TurretCMD<V>, cmd: SuperState, flywheel: V, position: P) -> (
    MotorCommand<V, P>,
    MotorCommand<V, P>,
) {
    if cmd == SuperState::Disabled {
        (MotorCommand::Stop, MotorCommand::Stop)
    } else if shooting(cmd) {
        (MotorCommand::Velocity(flywheel), MotorCommand::Position(position, task.max_turret_velocity))
    } else {
        (MotorCommand::Velocity(task.idle_flywheel_speed), MotorCommand::Position(position, task.max_turret_velocity))
    }
}

impl<V: Copy> TurretCMD<V> {
    /// The commands for the requested state (`Disabled` when none arrived)
    /// and the measured flywheel speed and turret position (`resting` when
    /// none arrived); see [`turret_commands`].
    pub fn commands<P: Copy>(&self, requested: Option<SuperState>, measured: Option<(V, P)>, resting: (V, P)) -> (r: (
        MotorCommand<V, P>,
        MotorCommand<V, P>,
    ))
        ensures
            ({
                let cmd = match requested {
                    Some(c) => c,
                    None => SuperState::Disabled,
                };
                let state = match measured {
                    Some(m) => m,
                    None => resting,
                };
                r == turret_commands(*self, cmd, state.0, state.1)
            }),
    {
        let cmd = match requested {
            Some(c) => c,
            None => SuperState::Disabled,
        };
        let (flywheel, position) = match measured {
            Some(m) => m,
            None => resting,
        };
        if cmd == SuperState::Disabled {
            (MotorCommand::Stop, MotorCommand::Stop)
        } else if cmd == SuperState::Shooting || cmd == SuperState::WalkAndTalk {
            (MotorCommand::Velocity(flywheel), MotorCommand::Position(position, self.max_turret_velocity))
        } else {
            (MotorCommand::Velocity(self.idle_flywheel_speed), MotorCommand::Position(position, self.max_turret_velocity))
        }
    }
}

// ---------------------------------------------------------------------------
// Servo
// ---------------------------------------------------------------------------

/// A servo with two positions, given by their pulse widths.
#[derive(Debug, Clone, Copy)]
pub struct BinaryServo<D> {
    pub deployed_pulse: D,
    pub undeployed_pulse: D,
}

impl<D: Copy> BinaryServo<D> {
    /// The pulse width to drive for a request: the deployed or the undeployed
    /// one; without a request the servo is left as it is.
    pub fn target_pulse(&self, deployed: Option<bool>) -> (r: Option<D>)
        ensures
            r == match deployed {
                Some(true) => Some(self.deployed_pulse),
                Some(false) => Some(self.undeployed_pulse),
                None => None,
            },
    {
        match deployed {
            Some(true) => Some(self.deployed_pulse),
            Some(false) => Some(self.undeployed_pulse),
            None => None,
        }
    }
}

/// Without an active request the intake winds down: from any state other
/// than a retract it is idle after one step, and a retract ends in idle once
/// its time is up; idle then stays idle.
pub proof fn lemma_intake_winds_down(state: IntakeState, retract_expired: bool)
    ensures
        state != IntakeState::PASS && state != IntakeState::RETRACT ==> next_intake_state(
            state,
            SuperState::Disabled,
            retract_expired,
        ) == IntakeState::IDLE,
        state == IntakeState::PASS ==> next_intake_state(state, SuperState::Disabled, retract_expired)
            == IntakeState::RETRACT,
        next_intake_state(IntakeState::RETRACT, SuperState::Disabled, true) == IntakeState::IDLE,
        next_intake_state(IntakeState::IDLE, SuperState::Disabled, retract_expired) == IntakeState::IDLE,
{
}

/// Passing game pieces on is the only state that does not raise the flag,
/// and it is entered only while shooting is requested.
pub proof fn lemma_flag_down_only_when_shooting(state: IntakeState, cmd: SuperState, retract_expired: bool)
    ensures
        !state_output(state).1 <==> state == IntakeState::PASS,
        next_intake_state(state, cmd, retract_expired) == IntakeState::PASS ==> shooting(cmd),
{
}

/// Whenever shooting is requested (`Shooting` or `WalkAndTalk`), an intake
/// that is idle, intaking or already passing passes game pieces on next.
pub proof fn lemma_shooting_request_passes(state: IntakeState, cmd: SuperState, retract_expired: bool)
    requires
        state == IntakeState::IDLE || state == IntakeState::INTAKING || state == IntakeState::PASS,
        cmd == SuperState::Shooting || cmd == SuperState::WalkAndTalk,
    ensures
        next_intake_state(state, cmd, retract_expired) == IntakeState::PASS,
{
}

/// While intaking is requested an intaking intake keeps intaking, and an idle
/// one starts; a request to outtake starts outtaking from idle.
pub proof fn lemma_intake_requests_are_followed(retract_expired: bool)
    ensures
        next_intake_state(IntakeState::INTAKING, SuperState::Intaking, retract_expired) == IntakeState::INTAKING,
        next_intake_state(IntakeState::IDLE, SuperState::Intaking, retract_expired) == IntakeState::INTAKING,
        next_intake_state(IntakeState::IDLE, SuperState::Outtaking, retract_expired) == IntakeState::OUTTAKING,
        next_intake_state(IntakeState::OUTTAKING, SuperState::Outtaking, retract_expired) == IntakeState::OUTTAKING,
{
}

/// The turret task's commands: with no request (or `Disabled`) both motors
/// stop; while shooting is requested (`Shooting` or `WalkAndTalk`) the
/// flywheel turns at the measured speed; for any other request it turns at
/// the idle speed; whenever not disabled, the turret holds the measured
/// position within the velocity limit.
pub proof fn lemma_turret_commands<V, P>(task: TurretCMD<V>, cmd: SuperState, flywheel: V, position: P)
    ensures
        cmd == SuperState::Disabled ==> turret_commands(task, cmd, flywheel, position) == (
            MotorCommand::<V, P>::Stop,
            MotorCommand::<V, P>::Stop,
        ),
        (cmd == SuperState::Shooting || cmd == SuperState::WalkAndTalk) ==> turret_commands(task, cmd, flywheel, position).0
            == MotorCommand::<V, P>::Velocity(flywheel),
        (cmd == SuperState::Idle || cmd == SuperState::Intaking || cmd == SuperState::Outtaking || cmd == SuperState::Climb)
            ==> turret_commands(task, cmd, flywheel, position).0 == MotorCommand::<V, P>::Velocity(task.idle_flywheel_speed),
        cmd != SuperState::Disabled ==> turret_commands(task, cmd, flywheel, position).1 == MotorCommand::<V, P>::Position(
            position,
            task.max_turret_velocity,
        ),
{
}

} // verus!
