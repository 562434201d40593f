//! Direct control of a MAVLink vehicle: which message each command sends.
//!
//! The number of a flight mode depends on the firmware and comes from the caller. The caller encodes and
//! sends the messages, and waits for their acknowledgement.

use vstd::prelude::*;

verus! {

/// A number in a message. Messages carry 32-bit floating-point numbers.
#[derive(Clone, Copy, PartialEq, Eq, Debug, Structural)]
pub enum Param {
    /// This integer, as the nearest number.
    Whole(i64),
    /// No number. The vehicle keeps what it has.
    NotANumber,
    /// The number with these bits.
    Bits(u32),
}

/// A command of a vehicle.
#[derive(Clone, Copy, PartialEq, Eq, Debug, Structural)]
pub enum Command {
    /// `MAV_CMD_DO_SET_MODE`.
    DoSetMode,
    /// `MAV_CMD_COMPONENT_ARM_DISARM`.
    ComponentArmDisarm,
    /// `MAV_CMD_NAV_TAKEOFF`.
    NavTakeoff,
    /// `MAV_CMD_NAV_LAND`.
    NavLand,
    /// `MAV_CMD_NAV_RETURN_TO_LAUNCH`.
    NavReturnToLaunch,
    /// `MAV_CMD_DO_REPOSITION`.
    DoReposition,
    /// `MAV_CMD_DO_CHANGE_SPEED`.
    DoChangeSpeed,
    /// `MAV_CMD_MISSION_START`.
    MissionStart,
    /// `MAV_CMD_DO_PAUSE_CONTINUE`.
    DoPauseContinue,
    /// `MAV_CMD_DO_SET_MISSION_CURRENT`.
    DoSetMissionCurrent,
    /// `MAV_CMD_DO_SET_HOME`.
    DoSetHome,
    /// `MAV_CMD_DO_GO_AROUND`.
    DoGoAround,
    /// `MAV_CMD_DO_VTOL_TRANSITION`.
    DoVtolTransition,
    /// `MAV_CMD_GUIDED_CHANGE_HEADING`.
    GuidedChangeHeading,
    /// `MAV_CMD_CONDITION_YAW`.
    ConditionYaw,
}

/// What the position in a message refers to.
#[derive(Clone, Copy, PartialEq, Eq, Debug, Structural)]
pub enum Frame {
    /// `MAV_FRAME_GLOBAL`.
    Global,
    /// `MAV_FRAME_GLOBAL_RELATIVE_ALT`.
    GlobalRelativeAlt,
}

/// The number that makes a vehicle skip its checks before it arms.
pub const ARM_FORCE_MAGIC: i64 = 21196;

/// The number that leaves a speed or the throttle to the vehicle.
pub const UNCHANGED: i64 = -1;

/// How many frames hand the control back.
pub const RC_RELEASE_FRAMES: u8 = 5;

/// How long to wait between those frames, in milliseconds. A few frames ride out a lossy link.
pub const RC_RELEASE_INTERVAL_MS: u64 = 50;

/// A message to a vehicle.
#[derive(Debug)]
pub enum Message {
    /// A command with seven numbers.
    Long {
        /// The command.
        command: Command,
        /// Its numbers.
        params: [Param; 7],
    },
    /// A command with a position, which is more precise than the numbers.
    Int {
        /// What the position refers to.
        frame: Frame,
        /// The command.
        command: Command,
        /// Its numbers.
        options: [Param; 4],
        /// The latitude, in degrees times ten million.
        x: i32,
        /// The longitude, in degrees times ten million.
        y: i32,
        /// The altitude, in metres.
        z: Param,
    },
    /// Frames that hand the control of channels back.
    RcRelease {
        /// What the channels were held at, or zero for those that were not held.
        channels: Vec<u16>,
        /// How many frames to send.
        frames: u8,
        /// How long to wait between them, in milliseconds.
        interval_ms: u64,
    },
    /// A new value of a parameter.
    SetParam {
        /// The parameter.
        name: String,
        /// The value.
        value: Param,
    },
}

/// A message and the system that it goes to.
#[derive(Debug)]
pub struct Outgoing {
    /// The system.
    pub sysid: u8,
    /// The message.
    pub message: Message,
}

/// What a message says.
pub enum Content {
    /// A command with seven numbers.
    Long(Command, Seq<Param>),
    /// A command with a position.
    Int(Frame, Command, Seq<Param>, i32, i32, Param),
    /// Frames that hand the control of channels back.
    RcRelease(Seq<u16>, u8, u64),
    /// A new value of a parameter.
    SetParam(Seq<char>, Param),
}

/// What a message says.
pub open spec fn content(message: Message) -> Content {
    match message {
        Message::Long { command, params } => Content::Long(command, params@),
        Message::Int { frame, command, options, x, y, z } => Content::Int(
            frame,
            command,
            options@,
            x,
            y,
            z,
        ),
        Message::RcRelease { channels, frames, interval_ms } => Content::RcRelease(
            channels@,
            frames,
            interval_ms,
        ),
        Message::SetParam { name, value } => Content::SetParam(name@, value),
    }
}

/// The system and what the message to it says, or the error.
pub open spec fn outgoing_view(result: Result<Outgoing, String>) -> Result<
    (u8, Content),
    Seq<char>,
> {
    match result {
        Ok(outgoing) => Ok((outgoing.sysid, content(outgoing.message))),
        Err(message) => Err(message@),
    }
}

/// What this program is connected to.
#[derive(Clone, Copy, PartialEq, Eq, Debug, Structural)]
pub enum Link {
    /// Nothing.
    Disconnected,
    /// A vehicle that does not speak MAVLink.
    Other,
    /// The vehicle with this system id.
    Mavlink {
        /// The system id.
        sysid: u8,
    },
}

/// The system that commands go to.
pub open spec fn target(link: Link) -> Result<u8, Seq<char>> {
    match link {
        Link::Mavlink { sysid } => Ok(sysid),
        Link::Other => Err("FC is not running MAVLink"@),
        Link::Disconnected => Err("Not connected"@),
    }
}

/// What comes of sending a message over a link.
pub open spec fn sent(link: Link, content: Content) -> Result<(u8, Content), Seq<char>> {
    match target(link) {
        Ok(sysid) => Ok((sysid, content)),
        Err(message) => Err(message),
    }
}

/// Finds out which system commands go to.
pub fn mav_handle(link: Link) -> (r: Result<u8, String>)
    ensures
        match r {
            Ok(sysid) => target(link) == Ok::<u8, Seq<char>>(sysid),
            Err(message) => target(link) == Err::<u8, Seq<char>>(message@),
        },
{
    match link {
        Link::Mavlink { sysid } => Ok(sysid),
        Link::Other => Err("FC is not running MAVLink".to_string()),
        Link::Disconnected => Err("Not connected".to_string()),
    }
}

fn send_command_long(link: Link, command: Command, params: [Param; 7]) -> (r: Result<
    Outgoing,
    String,
>)
    ensures
        outgoing_view(r) == sent(link, Content::Long(command, params@)),
{
    match mav_handle(link) {
        Ok(sysid) => Ok(Outgoing { sysid, message: Message::Long { command, params } }),
        Err(message) => Err(message),
    }
}

fn send_command_int(
    link: Link,
    frame: Frame,
    command: Command,
    options: [Param; 4],
    x: i32,
    y: i32,
    z: Param,
) -> (r: Result<Outgoing, String>)
    ensures
        outgoing_view(r) == sent(link, Content::Int(frame, command, options@, x, y, z)),
{
    match mav_handle(link) {
        Ok(sysid) => Ok(
            Outgoing { sysid, message: Message::Int { frame, command, options, x, y, z } },
        ),
        Err(message) => Err(message),
    }
}

/// Numbers, of which the rest are zero.
pub open spec fn padded(params: Seq<Param>) -> Seq<Param> {
    Seq::new(
        7,
        |i: int|
            if i < params.len() {
                params[i]
            } else {
                Param::Whole(0)
            },
    )
}

/// The command whose first number is `first`, and whose other numbers are zero.
fn send_one(link: Link, command: Command, first: Param) -> (r: Result<Outgoing, String>)
    ensures
        outgoing_view(r) == sent(link, Content::Long(command, padded(seq![first]))),
{
    let zero: Param = Param::Whole(0);
    let params: [Param; 7] = [first, zero, zero, zero, zero, zero, zero];
    proof {
        assert(params@ =~= padded(seq![first]));
    }
    send_command_long(link, command, params)
}

/// Sets the flight mode. `main` and `sub` are the parts of the mode's number.
pub fn mav_set_mode(main: u32, sub: u32, link: Link) -> (r: Result<Outgoing, String>)
    ensures
        outgoing_view(r) == sent(
            link,
            Content::Long(
                Command::DoSetMode,
                padded(seq![Param::Whole(1), Param::Whole(main as i64), Param::Whole(sub as i64)]),
            ),
        ),
{
    let zero: Param = Param::Whole(0);
    let main: Param = Param::Whole(main as i64);
    let sub: Param = Param::Whole(sub as i64);
    let params: [Param; 7] = [Param::Whole(1), main, sub, zero, zero, zero, zero];
    proof {
        assert(params@ =~= padded(seq![Param::Whole(1), main, sub]));
    }
    send_command_long(link, Command::DoSetMode, params)
}

/// The numbers that arm or disarm a vehicle.
pub open spec fn arm_params(arm: bool, force: bool) -> Seq<Param> {
    padded(
        seq![
            Param::Whole(
                if arm {
                    1
                } else {
                    0
                },
            ),
            Param::Whole(
                if force {
                    ARM_FORCE_MAGIC
                } else {
                    0
                },
            ),
        ],
    )
}

/// Arms or disarms the vehicle. `force` makes it skip its checks.
pub fn mav_arm(arm: bool, force: bool, link: Link) -> (r: Result<Outgoing, String>)
    ensures
        outgoing_view(r) == sent(
            link,
            Content::Long(Command::ComponentArmDisarm, arm_params(arm, force)),
        ),
{
    let zero: Param = Param::Whole(0);
    let state: i64 = if arm {
        1
    } else {
        0
    };
    let magic: i64 = if force {
        ARM_FORCE_MAGIC
    } else {
        0
    };
    let params: [Param; 7] = [
        Param::Whole(state),
        Param::Whole(magic),
        zero,
        zero,
        zero,
        zero,
        zero,
    ];
    proof {
        assert(params@ =~= arm_params(arm, force));
    }
    send_command_long(link, Command::ComponentArmDisarm, params)
}

/// The number with these bits is finite: its exponent is not the one of infinities and of what is no number.
pub open spec fn finite_bits(bits: u32) -> bool {
    bits % 0x8000_0000 < 0x7f80_0000
}

/// Whether the number with these bits is finite.
pub fn is_finite(bits: u32) -> (r: bool)
    ensures
        r == finite_bits(bits),
{
    bits % 0x8000_0000 < 0x7f80_0000
}

/// The numbers that make a vehicle take off to an altitude. With an altitude above sea level, the optional
/// numbers are no numbers: PX4 takes zeros there for coordinates.
pub open spec fn takeoff_params(altitude: u32, altitude_amsl: Option<u32>) -> Seq<Param> {
    match altitude_amsl {
        Some(bits) => seq![
            Param::NotANumber,
            Param::NotANumber,
            Param::Whole(0),
            Param::NotANumber,
            Param::NotANumber,
            Param::NotANumber,
            Param::Bits(bits),
        ],
        None => padded(Seq::empty()).update(6, Param::Bits(altitude)),
    }
}

/// Takes off, to an altitude above home, or to one above sea level where that is given. Both are the bits of
/// numbers.
pub fn mav_takeoff(altitude: u32, altitude_amsl: Option<u32>, link: Link) -> (r: Result<
    Outgoing,
    String,
>)
    ensures
        target(link) is Ok && altitude_amsl is Some && !finite_bits(altitude_amsl->0) ==> r is Err
            && r->Err_0@ == "PX4 takeoff requires a finite AMSL target"@,
        !(target(link) is Ok && altitude_amsl is Some && !finite_bits(altitude_amsl->0))
            ==> outgoing_view(r) == sent(
            link,
            Content::Long(Command::NavTakeoff, takeoff_params(altitude, altitude_amsl)),
        ),
{
    let zero: Param = Param::Whole(0);
    let sysid: u8 = match mav_handle(link) {
        Ok(sysid) => sysid,
        Err(message) => return Err(message),
    };
    let params: [Param; 7] = match altitude_amsl {
        Some(bits) => {
            if !is_finite(bits) {
                return Err("PX4 takeoff requires a finite AMSL target".to_string());
            }
            let none: Param = Param::NotANumber;
            [none, none, zero, none, none, none, Param::Bits(bits)]
        },
        None => [zero, zero, zero, zero, zero, zero, Param::Bits(altitude)],
    };
    proof {
        assert(params@ =~= takeoff_params(altitude, altitude_amsl));
    }
    Ok(Outgoing { sysid, message: Message::Long { command: Command::NavTakeoff, params } })
}

/// Lands in place.
pub fn mav_land(link: Link) -> (r: Result<Outgoing, String>)
    ensures
        outgoing_view(r) == sent(
            link,
            Content::Long(Command::NavLand, padded(seq![Param::Whole(0)])),
        ),
{
    send_one(link, Command::NavLand, Param::Whole(0))
}

/// Returns to launch.
pub fn mav_rtl(link: Link) -> (r: Result<Outgoing, String>)
    ensures
        outgoing_view(r) == sent(
            link,
            Content::Long(Command::NavReturnToLaunch, padded(seq![Param::Whole(0)])),
        ),
{
    send_one(link, Command::NavReturnToLaunch, Param::Whole(0))
}

/// What this program steers a vehicle with. `M` is a manual control input and `A` an auxiliary one.
#[derive(Debug)]
pub struct RcStream<M, A> {
    /// Whether anything is sent.
    pub enabled: bool,
    /// What the channels are held at, in microseconds, or zero for those that are not held.
    pub mav_override_us: Vec<u16>,
    /// The manual control input.
    pub mav_manual: Option<M>,
    /// Auxiliary inputs that are still to be sent.
    pub aux_pending: Vec<A>,
}

impl<M, A> RcStream<M, A> {
    /// Nothing is sent any more, and nothing is left to be sent.
    pub open spec fn is_stopped(self) -> bool {
        &&& !self.enabled
        &&& self.mav_override_us@.len() == 0
        &&& self.mav_manual is None
        &&& self.aux_pending@.len() == 0
    }
}

/// No channel is held.
pub open spec fn all_released(channels: Seq<u16>) -> bool {
    forall|i: int| 0 <= i < channels.len() ==> channels[i] == 0
}

fn none_held(channels: &Vec<u16>) -> (r: bool)
    ensures
        r == all_released(channels@),
{
    let mut i: usize = 0;
    while i < channels.len()
        invariant
            i <= channels@.len(),
            forall|k: int| 0 <= k < i ==> channels@[k] == 0,
        decreases channels@.len() - i,
    {
        if channels[i] != 0 {
            return false;
        }
        i += 1;
    }
    true
}

/// What comes of handing the control back: nothing to send where no channel was held.
pub open spec fn released(channels: Seq<u16>, link: Link) -> Result<
    Option<(u8, Content)>,
    Seq<char>,
> {
    if all_released(channels) {
        Ok(None)
    } else {
        match sent(
            link,
            Content::RcRelease(channels, RC_RELEASE_FRAMES, RC_RELEASE_INTERVAL_MS),
        ) {
            Ok(outgoing) => Ok(Some(outgoing)),
            Err(message) => Err(message),
        }
    }
}

/// The system and what the message to it says, if there is one, or the error.
pub open spec fn release_view(result: Result<Option<Outgoing>, String>) -> Result<
    Option<(u8, Content)>,
    Seq<char>,
> {
    match result {
        Ok(Some(outgoing)) => Ok(Some((outgoing.sysid, content(outgoing.message)))),
        Ok(None) => Ok(None),
        Err(message) => Err(message@),
    }
}

/// Hands the control of the held channels back on purpose, so that the vehicle does not have to wait for it
/// to time out. The stream is stopped first, so that nothing of it comes between the frames that do so. Where
/// no channel is held there is nothing to hand back, and the stream goes on as it was.
pub fn mav_rc_release<M, A>(rc: &mut RcStream<M, A>, link: Link) -> (r: Result<
    Option<Outgoing>,
    String,
>)
    ensures
        all_released(old(rc).mav_override_us@) ==> *final(rc) == *old(rc),
        !all_released(old(rc).mav_override_us@) ==> final(rc).is_stopped(),
        release_view(r) == released(old(rc).mav_override_us@, link),
{
    if none_held(&rc.mav_override_us) {
        return Ok(None);
    }
    let mut channels: Vec<u16> = Vec::new();
    std::mem::swap(&mut channels, &mut rc.mav_override_us);
    rc.enabled = false;
    rc.mav_manual = None;
    rc.aux_pending = Vec::new();
    match mav_handle(link) {
        Ok(sysid) => Ok(
            Some(
                Outgoing {
                    sysid,
                    message: Message::RcRelease {
                        channels,
                        frames: RC_RELEASE_FRAMES,
                        interval_ms: RC_RELEASE_INTERVAL_MS,
                    },
                },
            ),
        ),
        Err(message) => Err(message),
    }
}

/// A number that was given, or one in its place.
pub open spec fn given_or(bits: Option<u32>, default: Param) -> Param {
    match bits {
        Some(bits) => Param::Bits(bits),
        None => default,
    }
}

fn param_or(bits: Option<u32>, default: Param) -> (r: Param)
    ensures
        r == given_or(bits, default),
{
    match bits {
        Some(bits) => Param::Bits(bits),
        None => default,
    }
}

/// The numbers of a reposition: the ground speed, an unused one, the loiter radius and the heading.
pub open spec fn reposition_options(
    ground_speed: Option<u32>,
    loiter_radius: Option<u32>,
    yaw: Option<u32>,
) -> Seq<Param> {
    seq![
        given_or(ground_speed, Param::Whole(UNCHANGED)),
        Param::Whole(0),
        given_or(loiter_radius, Param::Whole(0)),
        given_or(yaw, Param::NotANumber),
    ]
}

/// Flies to a position. `lat` and `lon` are degrees times ten million; `alt` is the bits of metres above
/// home. The speed, the heading and the radius are bits of numbers; the vehicle keeps its own where they are
/// not given.
pub fn mav_reposition(
    lat: i32,
    lon: i32,
    alt: u32,
    ground_speed: Option<u32>,
    yaw: Option<u32>,
    loiter_radius: Option<u32>,
    link: Link,
) -> (r: Result<Outgoing, String>)
    ensures
        outgoing_view(r) == sent(
            link,
            Content::Int(
                Frame::GlobalRelativeAlt,
                Command::DoReposition,
                seq![
                    given_or(ground_speed, Param::Whole(UNCHANGED)),
                    Param::Whole(0),
                    given_or(loiter_radius, Param::Whole(0)),
                    given_or(yaw, Param::NotANumber),
                ],
                lat,
                lon,
                Param::Bits(alt),
            ),
        ),
        link is Mavlink ==> r is Ok && content(r->Ok_0.message) == Content::Int(
            Frame::GlobalRelativeAlt,
            Command::DoReposition,
            reposition_options(ground_speed, loiter_radius, yaw),
            lat,
            lon,
            Param::Bits(alt),
        ),
{
    let params: [Param; 4] = [
        param_or(ground_speed, Param::Whole(UNCHANGED)),
        Param::Whole(0),
        param_or(loiter_radius, Param::Whole(0)),
        param_or(yaw, Param::NotANumber),
    ];
    proof {
        assert(params@ =~= reposition_options(ground_speed, loiter_radius, yaw));
    }
    send_command_int(
        link,
        Frame::GlobalRelativeAlt,
        Command::DoReposition,
        params,
        lat,
        lon,
        Param::Bits(alt),
    )
}

/// Changes the target speed and leaves the throttle as it is. `speed_type` is 0 for the airspeed and 1 for
/// the ground speed; `speed` is the bits of metres per second.
pub fn mav_change_speed(speed_type: u8, speed: u32, link: Link) -> (r: Result<Outgoing, String>)
    ensures
        outgoing_view(r) == sent(
            link,
            Content::Long(
                Command::DoChangeSpeed,
                padded(
                    seq![Param::Whole(speed_type as i64), Param::Bits(speed), Param::Whole(UNCHANGED)],
                ),
            ),
        ),
{
    let zero: Param = Param::Whole(0);
    let kind: Param = Param::Whole(speed_type as i64);
    let params: [Param; 7] = [
        kind,
        Param::Bits(speed),
        Param::Whole(UNCHANGED),
        zero,
        zero,
        zero,
        zero,
    ];
    proof {
        assert(params@ =~= padded(seq![kind, Param::Bits(speed), Param::Whole(UNCHANGED)]));
    }
    send_command_long(link, Command::DoChangeSpeed, params)
}

/// Starts the mission.
pub fn mav_mission_start(link: Link) -> (r: Result<Outgoing, String>)
    ensures
        outgoing_view(r) == sent(
            link,
            Content::Long(Command::MissionStart, padded(seq![Param::Whole(0)])),
        ),
{
    send_one(link, Command::MissionStart, Param::Whole(0))
}

/// Pauses the mission, or goes on with it.
pub fn mav_mission_pause(pause: bool, link: Link) -> (r: Result<Outgoing, String>)
    ensures
        outgoing_view(r) == sent(
            link,
            Content::Long(
                Command::DoPauseContinue,
                padded(
                    seq![
                        Param::Whole(
                            if pause {
                                0
                            } else {
                                1
                            },
                        ),
                    ],
                ),
            ),
        ),
{
    let state: i64 = if pause {
        0
    } else {
        1
    };
    send_one(link, Command::DoPauseContinue, Param::Whole(state))
}

/// Makes the mission go on at an item.
pub fn mav_mission_set_current(seq: u16, link: Link) -> (r: Result<Outgoing, String>)
    ensures
        outgoing_view(r) == sent(
            link,
            Content::Long(Command::DoSetMissionCurrent, padded(seq![Param::Whole(seq as i64)])),
        ),
{
    send_one(link, Command::DoSetMissionCurrent, Param::Whole(seq as i64))
}

/// Makes the place where the vehicle is its home.
pub fn mav_set_home_here(link: Link) -> (r: Result<Outgoing, String>)
    ensures
        outgoing_view(r) == sent(
            link,
            Content::Long(Command::DoSetHome, padded(seq![Param::Whole(1)])),
        ),
{
    send_one(link, Command::DoSetHome, Param::Whole(1))
}

/// Aborts a landing and climbs to an altitude, given as the bits of metres. Zero is the vehicle's own.
pub fn mav_abort_landing(altitude: u32, link: Link) -> (r: Result<Outgoing, String>)
    ensures
        outgoing_view(r) == sent(
            link,
            Content::Long(Command::DoGoAround, padded(seq![Param::Bits(altitude)])),
        ),
{
    send_one(link, Command::DoGoAround, Param::Bits(altitude))
}

/// Makes a vehicle that takes off vertically fly forward, or hover.
pub fn mav_vtol_transition(to_fw: bool, link: Link) -> (r: Result<Outgoing, String>)
    ensures
        outgoing_view(r) == sent(
            link,
            Content::Long(
                Command::DoVtolTransition,
                padded(
                    seq![
                        Param::Whole(
                            if to_fw {
                                4
                            } else {
                                3
                            },
                        ),
                    ],
                ),
            ),
        ),
{
    let state: i64 = if to_fw {
        4
    } else {
        3
    };
    send_one(link, Command::DoVtolTransition, Param::Whole(state))
}

/// Sets a parameter of the vehicle to the number with these bits.
pub fn mav_set_param(name: String, value: u32, link: Link) -> (r: Result<Outgoing, String>)
    ensures
        outgoing_view(r) == sent(link, Content::SetParam(name@, Param::Bits(value))),
{
    match mav_handle(link) {
        Ok(sysid) => Ok(
            Outgoing { sysid, message: Message::SetParam { name, value: Param::Bits(value) } },
        ),
        Err(message) => Err(message),
    }
}

/// A change of the heading that a fixed-wing vehicle flies on. There is no position in it.
pub open spec fn heading_change(kind: i64, heading: Param) -> Content {
    Content::Int(
        Frame::Global,
        Command::GuidedChangeHeading,
        seq![Param::Whole(kind), heading, Param::Whole(0), Param::Whole(0)],
        0,
        0,
        Param::Whole(0),
    )
}

fn send_heading(link: Link, kind: i64, heading: Param) -> (r: Result<Outgoing, String>)
    ensures
        outgoing_view(r) == sent(link, heading_change(kind, heading)),
{
    let zero: Param = Param::Whole(0);
    let params: [Param; 4] = [Param::Whole(kind), heading, zero, zero];
    proof {
        assert(params@ =~= seq![Param::Whole(kind), heading, zero, zero]);
    }
    send_command_int(link, Frame::Global, Command::GuidedChangeHeading, params, 0, 0, zero)
}

/// Makes a fixed-wing vehicle fly on a course over ground, given as the bits of degrees. ArduPlane carries
/// this command out only as one with a position.
pub fn mav_guided_change_heading(heading: u32, link: Link) -> (r: Result<Outgoing, String>)
    ensures
        outgoing_view(r) == sent(link, heading_change(0, Param::Bits(heading))),
{
    send_heading(link, 0, Param::Bits(heading))
}

/// Makes a fixed-wing vehicle leave that course and go on to its waypoint.
pub fn mav_guided_clear_heading(link: Link) -> (r: Result<Outgoing, String>)
    ensures
        outgoing_view(r) == sent(link, heading_change(2, Param::Whole(0))),
{
    send_heading(link, 2, Param::Whole(0))
}

/// Points the nose of a multirotor to a heading, given as the bits of degrees.
pub fn mav_condition_yaw(heading: u32, link: Link) -> (r: Result<Outgoing, String>)
    ensures
        outgoing_view(r) == sent(
            link,
            Content::Long(Command::ConditionYaw, padded(seq![Param::Bits(heading)])),
        ),
{
    send_one(link, Command::ConditionYaw, Param::Bits(heading))
}

/// Nothing is sent but to a vehicle that speaks MAVLink, and what is sent to it goes to its own system id.
pub proof fn law_only_a_mavlink_vehicle_is_commanded(link: Link, content: Content)
    ensures
        sent(link, content) is Ok <==> link is Mavlink,
        link is Mavlink ==> sent(link, content) == Ok::<(u8, Content), Seq<char>>(
            (link->sysid, content),
        ),
{
}

/// Control that has been handed back is not handed back again: once the stream is stopped, there is nothing
/// to release.
pub proof fn law_release_happens_once<M, A>(rc: RcStream<M, A>, link: Link)
    requires
        rc.is_stopped(),
    ensures
        released(rc.mav_override_us@, link) == Ok::<Option<(u8, Content)>, Seq<char>>(None),
{
}

/// Handing back fails only where a channel was held and the vehicle cannot be told.
pub proof fn law_release_fails_only_without_a_vehicle(channels: Seq<u16>, link: Link)
    ensures
        released(channels, link) is Err <==> !all_released(channels) && !(link is Mavlink),
{
}

/// Taking off to an altitude above sea level names no coordinates: only the altitude and an unused zero are
/// numbers.
pub proof fn law_takeoff_names_no_coordinates(altitude: u32, bits: u32, i: int)
    requires
        0 <= i < 7,
    ensures
        takeoff_params(altitude, Some(bits)).len() == 7,
        takeoff_params(altitude, Some(bits))[i] == Param::NotANumber <==> i != 2 && i != 6,
        takeoff_params(altitude, Some(bits))[6] == Param::Bits(bits),
{
}

/// Arming and disarming differ in the first number alone, and force shows in the second alone.
pub proof fn law_force_is_separate(arm: bool, force: bool, i: int)
    requires
        0 <= i < 7,
    ensures
        arm_params(arm, force)[i] == arm_params(!arm, force)[i] <==> i != 0,
        arm_params(arm, force)[i] == arm_params(arm, !force)[i] <==> i != 1,
{
}

/// A number that is given is sent as it is, whatever its bits, zero among them; the default stands exactly
/// where none was given.
pub proof fn law_given_numbers_are_sent_as_they_are(bits: u32, default: Param)
    ensures
        given_or(Some(bits), default) == Param::Bits(bits),
        given_or(None, default) == default,
{
}

/// A reposition carries the ground speed first, the loiter radius third and the heading fourth, each as it was
/// given, and the vehicle's own exactly where none was given.
pub proof fn law_reposition_carries_what_was_given(
    speed: Option<u32>,
    radius: Option<u32>,
    yaw: Option<u32>,
)
    ensures
        ({
            let options = reposition_options(speed, radius, yaw);
            &&& options.len() == 4
            &&& speed is Some ==> options[0] == Param::Bits(speed->0)
            &&& speed is None ==> options[0] == Param::Whole(-1i64)
            &&& options[1] == Param::Whole(0)
            &&& radius is Some ==> options[2] == Param::Bits(radius->0)
            &&& radius is None ==> options[2] == Param::Whole(0)
            &&& yaw is Some ==> options[3] == Param::Bits(yaw->0)
            &&& yaw is None ==> options[3] == Param::NotANumber
        }),
{
}

/// Numbers are padded with zeros to seven, and none of them is changed.
pub proof fn law_padding_changes_no_number(params: Seq<Param>, i: int)
    requires
        params.len() <= 7,
        0 <= i < 7,
    ensures
        padded(params).len() == 7,
        i < params.len() ==> padded(params)[i] == params[i],
        i >= params.len() ==> padded(params)[i] == Param::Whole(0),
{
}

/// Arming is one and disarming zero, and force is the number that skips the checks.
pub proof fn law_arming_is_one_and_force_is_its_number(arm: bool, force: bool)
    ensures
        arm_params(arm, force).len() == 7,
        arm_params(arm, force)[0] == Param::Whole(
            if arm {
                1
            } else {
                0
            },
        ),
        arm_params(arm, force)[1] == Param::Whole(
            if force {
                21196
            } else {
                0
            },
        ),
        forall|i: int| 2 <= i < 7 ==> #[trigger] arm_params(arm, force)[i] == Param::Whole(0),
{
}

/// Taking off without an altitude above sea level names the one above home last, and zeros before it; with
/// one it is that one which stands last, whatever the other, and the optional numbers are no numbers.
pub proof fn law_takeoff_ends_in_its_altitude(altitude: u32, amsl: u32, i: int)
    requires
        0 <= i < 6,
    ensures
        takeoff_params(altitude, None).len() == 7,
        takeoff_params(altitude, None)[6] == Param::Bits(altitude),
        takeoff_params(altitude, None)[i] == Param::Whole(0),
        takeoff_params(altitude, Some(amsl)).len() == 7,
        takeoff_params(altitude, Some(amsl))[6] == Param::Bits(amsl),
        takeoff_params(altitude, Some(amsl))[i] == if i == 2 {
            Param::Whole(0)
        } else {
            Param::NotANumber
        },
{
}

/// A number is finite exactly where the eight bits of its exponent are not all ones, whatever its sign and its
/// fraction.
pub proof fn law_finite_is_told_by_the_exponent(bits: u32)
    ensures
        finite_bits(bits) <==> (bits / 0x80_0000) % 256 != 255,
{
    assert((bits % 0x8000_0000u32 < 0x7f80_0000u32) <==> ((bits / 0x80_0000u32) % 256u32 != 255u32))
        by (bit_vector);
}

/// A change of heading carries its kind and the heading as they are, no position and nothing else.
pub proof fn law_heading_is_carried_as_it_is(kind: i64, heading: Param)
    ensures
        heading_change(kind, heading) == Content::Int(
            Frame::Global,
            Command::GuidedChangeHeading,
            seq![Param::Whole(kind), heading, Param::Whole(0), Param::Whole(0)],
            0,
            0,
            Param::Whole(0),
        ),
{
}

/// A message says what it holds, and a result is the message with its system or the error, as they are.
pub proof fn law_messages_say_what_they_hold(
    command: Command,
    params: [Param; 7],
    frame: Frame,
    options: [Param; 4],
    place: (i32, i32, Param),
    channels: Vec<u16>,
    frames: u8,
    interval_ms: u64,
    name: String,
    value: Param,
    outgoing: Outgoing,
    message: String,
)
    ensures
        content(Message::Long { command, params }) == Content::Long(command, params@),
        content(
            Message::Int { frame, command, options, x: place.0, y: place.1, z: place.2 },
        ) == Content::Int(frame, command, options@, place.0, place.1, place.2),
        content(Message::RcRelease { channels, frames, interval_ms }) == Content::RcRelease(
            channels@,
            frames,
            interval_ms,
        ),
        content(Message::SetParam { name, value }) == Content::SetParam(name@, value),
        outgoing_view(Ok(outgoing)) == Ok::<(u8, Content), Seq<char>>(
            (outgoing.sysid, content(outgoing.message)),
        ),
        outgoing_view(Err(message)) == Err::<(u8, Content), Seq<char>>(message@),
        release_view(Ok(Some(outgoing))) == Ok::<Option<(u8, Content)>, Seq<char>>(
            Some((outgoing.sysid, content(outgoing.message))),
        ),
        release_view(Ok(None)) == Ok::<Option<(u8, Content)>, Seq<char>>(None),
        release_view(Err(message)) == Err::<Option<(u8, Content)>, Seq<char>>(message@),
{
}

/// Every vehicle is reached under its own system id, and what cannot be reached is told apart.
pub proof fn law_every_vehicle_is_reached(sysid: u8, what: Content)
    ensures
        target(Link::Mavlink { sysid }) == Ok::<u8, Seq<char>>(sysid),
        target(Link::Other) == Err::<u8, Seq<char>>("FC is not running MAVLink"@),
        target(Link::Disconnected) == Err::<u8, Seq<char>>("Not connected"@),
        sent(Link::Mavlink { sysid }, what) == Ok::<(u8, Content), Seq<char>>((sysid, what)),
        sent(Link::Other, what) == Err::<(u8, Content), Seq<char>>("FC is not running MAVLink"@),
        sent(Link::Disconnected, what) == Err::<(u8, Content), Seq<char>>("Not connected"@),
{
}

/// Where any channel is held, all of them are handed back as they were, in five frames with fifty
/// milliseconds between them, or it is said why they cannot be; where none is, nothing is sent, whatever the
/// link.
pub proof fn law_held_channels_are_handed_back(channels: Seq<u16>, sysid: u8, link: Link, i: int)
    ensures
        0 <= i < channels.len() && channels[i] != 0 ==> {
            &&& !all_released(channels)
            &&& released(channels, Link::Mavlink { sysid }) == Ok::<
                Option<(u8, Content)>,
                Seq<char>,
            >(Some((sysid, Content::RcRelease(channels, 5, 50))))
            &&& released(channels, Link::Disconnected) == Err::<Option<(u8, Content)>, Seq<char>>(
                "Not connected"@,
            )
            &&& released(channels, Link::Other) == Err::<Option<(u8, Content)>, Seq<char>>(
                "FC is not running MAVLink"@,
            )
        },
        (forall|k: int| 0 <= k < channels.len() ==> channels[k] == 0) ==> all_released(channels)
            && released(channels, link) == Ok::<Option<(u8, Content)>, Seq<char>>(None),
{
}

/// A stream is stopped exactly where it is switched off, holds no channel, has no manual input and nothing
/// left to send.
pub proof fn law_stopped_stream_sends_nothing<M, A>(rc: RcStream<M, A>)
    ensures
        rc.is_stopped() <==> !rc.enabled && rc.mav_override_us@.len() == 0 && rc.mav_manual is None
            && rc.aux_pending@.len() == 0,
{
}

} // verus!
