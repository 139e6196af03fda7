use evo::robot::{DriverCommand, ReceiverOutput, ReceiverState};
use evo::robot::{
    AllianceTransformSelector, Allience, BinaryServo, DSStatus, DxRxMsg, IntakeDrive, IntakeState,
    MoteusTurretStateAssembler, MotorCommand, S1IntakeStateMachine, SuperState, TurretCMD,
    TurretStateAssembler, find_xbox_gamepad, is_xbox_gamepad,
};

fn selector() -> AllianceTransformSelector<[[f64; 4]; 4]> {
    AllianceTransformSelector {
        red_transform: [
            [1.0, 0.0, 0.0, 1.0],
            [0.0, 1.0, 0.0, 2.0],
            [0.0, 0.0, 1.0, 3.0],
            [0.0, 0.0, 0.0, 1.0],
        ],
        blue_transform: [
            [1.0, 0.0, 0.0, 4.0],
            [0.0, 1.0, 0.0, 5.0],
            [0.0, 0.0, 1.0, 6.0],
            [0.0, 0.0, 0.0, 1.0],
        ],
    }
}

#[test]
fn red_statuses_select_the_red_transform() {
    let selector = selector();
    for status in [DSStatus::ENABLED(Allience::RED), DSStatus::DISABLED(Allience::RED)] {
        assert_eq!(*selector.transform_for_status(status).unwrap(), selector.red_transform);
    }
}

#[test]
fn blue_statuses_select_the_blue_transform() {
    let selector = selector();
    for status in [DSStatus::ENABLED(Allience::BLUE), DSStatus::DISABLED(Allience::BLUE)] {
        assert_eq!(*selector.transform_for_status(status).unwrap(), selector.blue_transform);
    }
}

#[test]
fn disconnected_status_selects_no_transform() {
    assert!(selector().transform_for_status(DSStatus::DISCONNECTED).is_none());
}

#[test]
fn assembles_turret_state_from_the_two_motor_messages() {
    let assembler = MoteusTurretStateAssembler {};
    assert_eq!(assembler.pair(Some(4200.0_f32), Some(135.0_f32)), Some((4200.0, 135.0)));
    assert_eq!(assembler.pair(Some(4200.0_f32), None::<f32>), None);
    assert_eq!(TurretStateAssembler {}.pair(None::<f32>, Some(1.0_f32)), None);
}

#[test]
fn commands_are_acknowledged_with_their_sequence_number() {
    assert_eq!(DxRxMsg::echo(Some(7)), Some(DxRxMsg { seq: 7 }));
    assert_eq!(DxRxMsg::echo(None), None);
}

#[test]
fn the_intake_passes_while_shooting_then_retracts_and_idles() {
    let mut intake = S1IntakeStateMachine::new();
    assert_eq!(intake.state, IntakeState::IDLE);
    let step = intake.process(Some(SuperState::Shooting), false);
    assert_eq!(step.drive, IntakeDrive::Stop);
    assert!(step.flag);
    assert_eq!(intake.state, IntakeState::PASS);
    let step = intake.process(Some(SuperState::WalkAndTalk), false);
    assert_eq!(step.drive, IntakeDrive::Forward);
    assert!(!step.flag);
    assert!(!step.start_retract);
    let step = intake.process(None, false);
    assert!(step.start_retract);
    assert_eq!(intake.state, IntakeState::RETRACT);
    let step = intake.process(None, false);
    assert_eq!(step.drive, IntakeDrive::Reverse);
    assert_eq!(intake.state, IntakeState::RETRACT);
    intake.process(None, true);
    assert_eq!(intake.state, IntakeState::IDLE);
}

#[test]
fn the_intake_follows_intake_and_outtake_requests() {
    let mut intake = S1IntakeStateMachine::new();
    intake.process(Some(SuperState::Intaking), false);
    assert_eq!(intake.state, IntakeState::INTAKING);
    assert_eq!(intake.process(Some(SuperState::Intaking), false).drive, IntakeDrive::Forward);
    intake.process(Some(SuperState::Idle), false);
    assert_eq!(intake.state, IntakeState::IDLE);
    intake.process(Some(SuperState::Outtaking), false);
    assert_eq!(intake.state, IntakeState::OUTTAKING);
    assert_eq!(intake.process(Some(SuperState::Climb), false).drive, IntakeDrive::Reverse);
    assert_eq!(intake.state, IntakeState::IDLE);
}

#[test]
fn the_turret_follows_the_requested_state() {
    let task = TurretCMD { max_turret_velocity: Some(30.0_f32), idle_flywheel_speed: 500.0_f32 };
    let (flywheel, turret) = task.commands(Some(SuperState::Shooting), Some((4200.0, 135.0_f32)), (0.0, 0.0));
    assert!(matches!(flywheel, MotorCommand::Velocity(v) if v == 4200.0));
    assert!(matches!(turret, MotorCommand::Position(p, Some(limit)) if p == 135.0 && limit == 30.0));
    let (flywheel, turret) = task.commands(Some(SuperState::Idle), Some((4200.0, 135.0_f32)), (0.0, 0.0));
    assert!(matches!(flywheel, MotorCommand::Velocity(v) if v == 500.0));
    assert!(matches!(turret, MotorCommand::Position(p, _) if p == 135.0));
    let (flywheel, turret) = task.commands(Some(SuperState::Intaking), None, (0.0, 10.0_f32));
    assert!(matches!(flywheel, MotorCommand::Velocity(v) if v == 500.0));
    assert!(matches!(turret, MotorCommand::Position(p, _) if p == 10.0));
    let (flywheel, turret) = task.commands(None, Some((4200.0, 135.0_f32)), (0.0, 0.0));
    assert!(matches!(flywheel, MotorCommand::Stop));
    assert!(matches!(turret, MotorCommand::Stop));
}

#[test]
fn the_servo_drives_the_pulse_of_the_requested_position() {
    let servo = BinaryServo { deployed_pulse: 2000_u32, undeployed_pulse: 1000_u32 };
    assert_eq!(servo.target_pulse(Some(true)), Some(2000));
    assert_eq!(servo.target_pulse(Some(false)), Some(1000));
    assert_eq!(servo.target_pulse(None), None);
}

#[test]
fn xbox_controllers_are_recognised_by_name() {
    assert!(is_xbox_gamepad("Microsoft X-Box 360 pad"));
    assert!(is_xbox_gamepad("XBOX Wireless Controller"));
    assert!(is_xbox_gamepad("Generic XInput Gamepad"));
    assert!(!is_xbox_gamepad("DualSense Wireless Controller"));
    let gamepads = vec![
        (true, "DualSense".to_string()),
        (false, "Xbox Controller".to_string()),
        (true, "Xbox Series X Controller".to_string()),
    ];
    assert_eq!(find_xbox_gamepad(&gamepads), Some(2));
    assert_eq!(find_xbox_gamepad(&vec![(false, "Xbox".to_string())]), None);
}

#[test]
fn defaults_are_disconnected_and_disabled() {
    assert_eq!(DSStatus::default(), DSStatus::DISCONNECTED);
    assert_eq!(SuperState::default(), SuperState::Disabled);
}

#[test]
fn receiver_reports_timeouts_stops_and_command_status() {
    let command = |seq: u64, enabled: bool, estop: bool| DriverCommand { seq, alliance: Allience::RED, enabled, estop };
    let mut state = ReceiverState::new();
    assert_eq!(
        state.receive(Some((command(1, true, false), Some(1_000))), 2_000),
        Ok(ReceiverOutput::Command(DSStatus::ENABLED(Allience::RED)))
    );
    assert_eq!(state.seq, 1);
    assert_eq!(state.last_message_ns, 1_000);
    let before = state;
    assert!(state.receive(Some((command(1, false, true), Some(3_000))), 3_000).is_err());
    assert_eq!(state, before);
    assert_eq!(state.receive(None, 1_000 + 500_000_000), Ok(ReceiverOutput::Command(DSStatus::ENABLED(Allience::RED))));
    assert_eq!(state.receive(None, 1_001 + 500_000_000), Ok(ReceiverOutput::Disconnected));
    assert_eq!(state.receive(Some((command(2, true, true), None)), 2_000), Ok(ReceiverOutput::EmergencyStop));
    assert_eq!(state.receive(Some((command(3, false, false), Some(2_500))), 3_000), Ok(ReceiverOutput::Command(DSStatus::DISABLED(Allience::RED))));
}
