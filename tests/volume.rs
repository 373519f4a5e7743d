use wol::adjust::{Adjust, Channel, Op, Value};
use wol::cli::{apply_all, channels_in_range};
use wol::device::DeviceState;
use wol::volume::{CommitError, Target, Volume, Write};
use wol::FULL;

fn pct(p: u32) -> u32 {
    p * FULL / 100
}

#[test]
fn unmute_sets_channels_uniformly() {
    let mut v = Volume::new(pct(80), vec![pct(40), pct(80)]);
    v.set_master(0);
    assert_eq!(v.master(), 0);
    assert_eq!(v.channels(), &[0, 0]);
    v.set_master(pct(50));
    assert_eq!(v.master(), pct(50));
    assert_eq!(v.channels(), &[pct(50), pct(50)]);
}

#[test]
fn master_scales_channels_proportionally() {
    let mut v = Volume::new(pct(80), vec![pct(40), pct(80)]);
    v.set_master(pct(40));
    assert_eq!(v.channels(), &[pct(20), pct(40)]);
    assert_eq!(v.master(), pct(40));
}

#[test]
fn proportional_scaling_rounds_down() {
    let mut v = Volume::new(3, vec![1, 3]);
    v.set_master(2);
    assert_eq!(v.channels(), &[0, 2]);
}

#[test]
fn master_is_clamped_to_full_scale() {
    let mut v = Volume::new(pct(50), vec![pct(25), pct(50)]);
    v.set_master(FULL * 3);
    assert_eq!(v.master(), FULL);
    assert_eq!(v.channels(), &[pct(50), FULL]);
}

#[test]
fn channel_edit_makes_master_the_loudest() {
    let mut v = Volume::new(pct(80), vec![pct(40), pct(80)]);
    v.set_channel(0, pct(90));
    assert_eq!(v.master(), pct(90));
    assert_eq!(v.channels(), &[pct(90), pct(80)]);
    v.set_channel(0, pct(10));
    assert_eq!(v.master(), pct(80));
    assert_eq!(v.channel(0), pct(10));
    assert_eq!(v.chan_count(), 2);
}

#[test]
fn unmodified_commit_writes_nothing() {
    let v = Volume::new(pct(30), vec![pct(30), pct(20)]);
    assert_eq!(v.commit(false, true), Ok(vec![]));
    assert_eq!(v.commit(true, false), Ok(vec![]));
}

#[test]
fn master_change_rewrites_every_channel() {
    let mut v = Volume::new(pct(80), vec![pct(40), pct(80)]);
    v.set_master(pct(40));
    let w = v.commit(false, false).unwrap();
    assert_eq!(
        w,
        vec![
            Write { target: Target::Master, level: pct(40) },
            Write { target: Target::Channel(0), level: pct(20) },
            Write { target: Target::Channel(1), level: pct(40) },
        ]
    );
}

#[test]
fn channel_change_writes_only_that_channel() {
    let mut v = Volume::new(pct(80), vec![pct(40), pct(80)]);
    v.set_channel(0, pct(50));
    assert_eq!(v.master(), pct(80));
    assert_eq!(
        v.commit(false, false),
        Ok(vec![Write { target: Target::Channel(0), level: pct(50) }])
    );
}

#[test]
fn guard_refuses_near_silence_with_screen_reader() {
    let mut v = Volume::new(pct(10), vec![pct(10), pct(10)]);
    v.set_master(pct(2));
    assert_eq!(v.master(), pct(2));
    assert!(v.needs_screen_reader_check(false));
    assert_eq!(v.commit(false, true), Err(CommitError::ScreenReader));
}

#[test]
fn forced_commit_proceeds_past_guard() {
    let mut v = Volume::new(pct(10), vec![pct(10), pct(10)]);
    v.set_master(pct(2));
    assert!(!v.needs_screen_reader_check(true));
    assert_eq!(
        v.commit(true, true),
        Ok(vec![
            Write { target: Target::Master, level: pct(2) },
            Write { target: Target::Channel(0), level: pct(2) },
            Write { target: Target::Channel(1), level: pct(2) },
        ])
    );
}

#[test]
fn guard_is_silent_without_screen_reader_or_above_threshold() {
    let mut v = Volume::new(pct(10), vec![pct(10), pct(10)]);
    v.set_master(pct(2));
    assert!(v.commit(false, false).is_ok());
    let mut w = Volume::new(pct(10), vec![pct(10), pct(10)]);
    w.set_master(pct(6));
    assert!(!w.needs_screen_reader_check(false));
    assert!(w.commit(false, true).is_ok());
}

#[test]
fn guard_with_no_channels_compares_full_scale() {
    let mut v = Volume::new(pct(10), vec![]);
    v.set_master(pct(2));
    assert!(!v.needs_screen_reader_check(false));
    assert_eq!(
        v.commit(false, true),
        Ok(vec![Write { target: Target::Master, level: pct(2) }])
    );
}

#[test]
fn guard_message_mentions_force() {
    assert!(CommitError::ScreenReader.message().contains("--force"));
}

#[test]
fn adjustments_apply_in_order_and_read_current_levels() {
    let mut v = Volume::new(pct(80), vec![pct(40), pct(80)]);
    let adjusts = vec![
        Adjust { op: Op::Assign, chan: Channel::N(0), val: Value::N(90) },
        Adjust { op: Op::Assign, chan: Channel::N(1), val: Value::Channel(0) },
    ];
    assert!(channels_in_range(&adjusts, v.chan_count()));
    apply_all(&mut v, &adjusts);
    assert_eq!(v.channels(), &[pct(90), pct(90)]);
    assert_eq!(v.master(), pct(90));
}

#[test]
fn increase_and_decrease_saturate() {
    let mut v = Volume::new(pct(80), vec![pct(40), pct(80)]);
    Adjust { op: Op::Inc, chan: Channel::All, val: Value::N(30) }.apply(&mut v);
    assert_eq!(v.channels(), &[pct(70), FULL]);
    assert_eq!(v.master(), FULL);
    Adjust { op: Op::Dec, chan: Channel::N(0), val: Value::N(100) }.apply(&mut v);
    assert_eq!(v.channel(0), 0);
    Adjust { op: Op::Dec, chan: Channel::Master, val: Value::MasterChannel }.apply(&mut v);
    assert_eq!(v.master(), 0);
    assert_eq!(v.channels(), &[0, 0]);
}

#[test]
fn channel_references_are_range_checked() {
    let one = vec![Adjust { op: Op::Assign, chan: Channel::Master, val: Value::Channel(1) }];
    assert!(!channels_in_range(&one, 1));
    assert!(channels_in_range(&one, 2));
    let two = vec![Adjust { op: Op::Inc, chan: Channel::N(2), val: Value::N(5) }];
    assert!(!channels_in_range(&two, 2));
    assert!(channels_in_range(&two, 3));
}

#[test]
fn device_state_flags() {
    let both = DeviceState(1 | 2);
    assert!(both.has(DeviceState(1)));
    assert!(both.has(DeviceState(2)));
    assert!(!both.has(DeviceState(4)));
    assert!(!DeviceState(1).has(both));
    assert_eq!(DeviceState(1).label(), Some("Active"));
    assert_eq!(DeviceState(2).label(), Some("Disabled"));
    assert_eq!(DeviceState(4).label(), Some("Not Present"));
    assert_eq!(DeviceState(8).label(), Some("Unplugged"));
    assert_eq!(both.label(), None);
}

#[test]
fn guard_message_exact() {
    assert_eq!(
        CommitError::ScreenReader.message(),
        "a screen reader is detected; refusing to set the volume below 5%\nhint: use --force to override this behaviour"
    );
}
