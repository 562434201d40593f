use kite::control::{
    is_finite, mav_abort_landing, mav_arm, mav_change_speed, mav_condition_yaw,
    mav_guided_change_heading, mav_guided_clear_heading, mav_handle, mav_land, mav_mission_pause,
    mav_mission_set_current, mav_mission_start, mav_rc_release, mav_reposition, mav_rtl,
    mav_set_home_here, mav_set_mode, mav_set_param, mav_takeoff, mav_vtol_transition, Command,
    Frame, Link, Message, Outgoing, Param, RcStream,
};

const VEHICLE: Link = Link::Mavlink { sysid: 7 };

fn value(param: Param) -> f32 {
    match param {
        Param::Whole(n) => n as f32,
        Param::NotANumber => f32::NAN,
        Param::Bits(bits) => f32::from_bits(bits),
    }
}

/// The command and its numbers.
fn long(outgoing: Result<Outgoing, String>) -> (Command, Vec<f32>) {
    let outgoing = outgoing.unwrap();
    assert_eq!(outgoing.sysid, 7);
    match outgoing.message {
        Message::Long { command, params } => {
            (command, params.iter().map(|p| value(*p)).collect())
        }
        other => panic!("{other:?}"),
    }
}

fn numbers(first: &[f32]) -> Vec<f32> {
    let mut all = first.to_vec();
    all.resize(7, 0.0);
    all
}

#[test]
fn only_a_mavlink_vehicle_is_commanded() {
    assert_eq!(mav_handle(VEHICLE), Ok(7));
    assert_eq!(mav_handle(Link::Other), Err("FC is not running MAVLink".to_string()));
    assert_eq!(mav_handle(Link::Disconnected), Err("Not connected".to_string()));
    assert_eq!(mav_land(Link::Other).unwrap_err(), "FC is not running MAVLink");
    assert_eq!(mav_guided_clear_heading(Link::Disconnected).unwrap_err(), "Not connected");
    assert_eq!(mav_set_param("A".to_string(), 0, Link::Disconnected).unwrap_err(), "Not connected");
}

#[test]
fn commands_carry_their_numbers() {
    assert_eq!(
        long(mav_set_mode(16_777_217, 3, VEHICLE)),
        (Command::DoSetMode, numbers(&[1.0, 16_777_217u32 as f32, 3.0]))
    );
    assert_eq!(long(mav_set_mode(u32::MAX, 0, VEHICLE)).1[1], u32::MAX as f32);
    assert_eq!(long(mav_land(VEHICLE)), (Command::NavLand, numbers(&[])));
    assert_eq!(long(mav_rtl(VEHICLE)), (Command::NavReturnToLaunch, numbers(&[])));
    assert_eq!(long(mav_mission_start(VEHICLE)), (Command::MissionStart, numbers(&[])));
    assert_eq!(
        long(mav_mission_pause(true, VEHICLE)),
        (Command::DoPauseContinue, numbers(&[0.0]))
    );
    assert_eq!(
        long(mav_mission_pause(false, VEHICLE)),
        (Command::DoPauseContinue, numbers(&[1.0]))
    );
    assert_eq!(
        long(mav_mission_set_current(65535, VEHICLE)),
        (Command::DoSetMissionCurrent, numbers(&[65535.0]))
    );
    assert_eq!(long(mav_set_home_here(VEHICLE)), (Command::DoSetHome, numbers(&[1.0])));
    assert_eq!(
        long(mav_abort_landing(30.5f32.to_bits(), VEHICLE)),
        (Command::DoGoAround, numbers(&[30.5]))
    );
    assert_eq!(
        long(mav_vtol_transition(true, VEHICLE)),
        (Command::DoVtolTransition, numbers(&[4.0]))
    );
    assert_eq!(
        long(mav_vtol_transition(false, VEHICLE)),
        (Command::DoVtolTransition, numbers(&[3.0]))
    );
    assert_eq!(
        long(mav_change_speed(1, 12.5f32.to_bits(), VEHICLE)),
        (Command::DoChangeSpeed, numbers(&[1.0, 12.5, -1.0]))
    );
    assert_eq!(
        long(mav_condition_yaw(270.0f32.to_bits(), VEHICLE)),
        (Command::ConditionYaw, numbers(&[270.0]))
    );
}

#[test]
fn arming_can_be_forced() {
    let arm = |arm, force| long(mav_arm(arm, force, VEHICLE));
    assert_eq!(arm(true, false), (Command::ComponentArmDisarm, numbers(&[1.0])));
    assert_eq!(arm(true, true), (Command::ComponentArmDisarm, numbers(&[1.0, 21196.0])));
    assert_eq!(arm(false, false), (Command::ComponentArmDisarm, numbers(&[0.0])));
    assert_eq!(arm(false, true), (Command::ComponentArmDisarm, numbers(&[0.0, 21196.0])));
}

#[test]
fn takeoff_goes_to_an_altitude() {
    let (command, params) = long(mav_takeoff(15.0f32.to_bits(), None, VEHICLE));
    assert_eq!(command, Command::NavTakeoff);
    assert_eq!(params, vec![0.0, 0.0, 0.0, 0.0, 0.0, 0.0, 15.0]);
    let (_, params) = long(mav_takeoff(0, Some(512.25f32.to_bits()), VEHICLE));
    assert_eq!(params[6], 512.25);
    for (i, param) in params.iter().enumerate() {
        assert_eq!(param.is_nan(), i != 2 && i != 6);
    }
    assert_eq!(params[2], 0.0);
}

#[test]
fn takeoff_needs_a_finite_target() {
    for target in [f32::NAN, f32::INFINITY, f32::NEG_INFINITY] {
        assert_eq!(
            mav_takeoff(0, Some(target.to_bits()), VEHICLE).unwrap_err(),
            "PX4 takeoff requires a finite AMSL target"
        );
        assert_eq!(
            mav_takeoff(0, Some(target.to_bits()), Link::Other).unwrap_err(),
            "FC is not running MAVLink"
        );
    }
}

#[test]
fn finite_numbers_are_told_by_their_bits() {
    for value in [0.0, -0.0, 1.5, -3.0e7, f32::MAX, f32::MIN, f32::MIN_POSITIVE, f32::NAN,
        -f32::NAN, f32::INFINITY, f32::NEG_INFINITY]
    {
        assert_eq!(is_finite(value.to_bits()), value.is_finite());
    }
    let mut bits: u32 = 1;
    for _ in 0..1_000_000 {
        bits = bits.wrapping_mul(1_664_525).wrapping_add(1_013_904_223);
        assert_eq!(is_finite(bits), f32::from_bits(bits).is_finite());
    }
}

#[test]
fn a_position_is_flown_to() {
    let outgoing =
        mav_reposition(471_234_567, -81_234_567, 50.0f32.to_bits(), None, None, None, VEHICLE);
    match outgoing.unwrap().message {
        Message::Int { frame, command, options, x, y, z } => {
            assert_eq!(frame, Frame::GlobalRelativeAlt);
            assert_eq!(command, Command::DoReposition);
            assert_eq!([value(options[0]), value(options[1]), value(options[2])], [-1.0, 0.0, 0.0]);
            assert!(value(options[3]).is_nan());
            assert_eq!((x, y, value(z)), (471_234_567, -81_234_567, 50.0));
        }
        other => panic!("{other:?}"),
    }
    let bits = |v: f32| Some(v.to_bits());
    let outgoing = mav_reposition(0, 0, 0, bits(5.0), bits(90.0), bits(60.0), VEHICLE);
    match outgoing.unwrap().message {
        Message::Int { options, .. } => {
            assert_eq!(options.map(value), [5.0, 0.0, 60.0, 90.0]);
        }
        other => panic!("{other:?}"),
    }
}

#[test]
fn a_heading_is_set_and_cleared() {
    for (outgoing, expected) in [
        (mav_guided_change_heading(123.0f32.to_bits(), VEHICLE), [0.0, 123.0, 0.0, 0.0]),
        (mav_guided_clear_heading(VEHICLE), [2.0, 0.0, 0.0, 0.0]),
    ] {
        match outgoing.unwrap().message {
            Message::Int { frame, command, options, x, y, z } => {
                assert_eq!((frame, command), (Frame::Global, Command::GuidedChangeHeading));
                assert_eq!(options.map(value), expected);
                assert_eq!((x, y, value(z)), (0, 0, 0.0));
            }
            other => panic!("{other:?}"),
        }
    }
}

#[test]
fn a_parameter_is_set() {
    let outgoing =
        mav_set_param("WP_LOITER_RAD".to_string(), 80.0f32.to_bits(), VEHICLE).unwrap();
    assert_eq!(outgoing.sysid, 7);
    match outgoing.message {
        Message::SetParam { name, value: param } => {
            assert_eq!(name, "WP_LOITER_RAD");
            assert_eq!(value(param), 80.0);
        }
        other => panic!("{other:?}"),
    }
}

fn stream(channels: Vec<u16>) -> RcStream<(i16, i16), u8> {
    RcStream {
        enabled: true,
        mav_override_us: channels,
        mav_manual: Some((1, 2)),
        aux_pending: vec![1, 2, 3],
    }
}

fn assert_stopped(rc: &RcStream<(i16, i16), u8>) {
    assert!(!rc.enabled);
    assert!(rc.mav_override_us.is_empty());
    assert!(rc.mav_manual.is_none());
    assert!(rc.aux_pending.is_empty());
}

#[test]
fn control_is_handed_back_once() {
    let mut rc = stream(vec![0, 1500, 0]);
    match mav_rc_release(&mut rc, VEHICLE).unwrap().unwrap().message {
        Message::RcRelease { channels, frames, interval_ms } => {
            assert_eq!(channels, vec![0, 1500, 0]);
            assert_eq!((frames, interval_ms), (5, 50));
        }
        other => panic!("{other:?}"),
    }
    assert_stopped(&rc);
    assert!(mav_rc_release(&mut rc, VEHICLE).unwrap().is_none());
}

#[test]
fn nothing_held_is_nothing_to_hand_back() {
    for channels in [vec![], vec![0, 0, 0]] {
        let mut rc = stream(channels.clone());
        assert!(mav_rc_release(&mut rc, Link::Disconnected).unwrap().is_none());
        // The stream goes on as it was.
        assert!(rc.enabled);
        assert_eq!(rc.mav_override_us, channels);
        assert_eq!(rc.mav_manual, Some((1, 2)));
        assert_eq!(rc.aux_pending, vec![1, 2, 3]);
    }
    let mut rc = stream(vec![1000]);
    assert_eq!(mav_rc_release(&mut rc, Link::Disconnected).unwrap_err(), "Not connected");
    assert_stopped(&rc);
}
