use tronomic::channel::Channel;
use tronomic::dmx::DmxState;
use tronomic::fixtures::{ChannelPurpose, Fixture};
use tronomic::universe::Universe;

#[test]
fn universe_always_holds_512_channels() {
    let un = Universe::new();
    assert_eq!(un.channel_count(), 512);
    let dmx = DmxState::new(3);
    for u in 0..dmx.universe_count() {
        assert_eq!(dmx.universe_channel_count(u), 512);
    }
}

#[test]
fn fresh_universe_is_all_zero() {
    let un = Universe::new();
    for i in 0..512 {
        assert_eq!(un.get(i), 0);
        let c = un.get_channel(i).unwrap();
        assert_eq!(c.val, 0);
        assert_eq!(c.val_ovr, 0);
        assert!(!c.ovr);
    }
    assert!(un.get_channel(512).is_none());
}

#[test]
fn channel_get_routes_by_override_flag() {
    let mut c = Channel { val: 10, val_ovr: 20, ovr: false, purpose: None };
    assert_eq!(c.get(), 10);
    c.ovr = true;
    assert_eq!(c.get(), 20);
}

#[test]
fn channel_set_routes_by_override_flag() {
    let mut c = Channel { val: 0, val_ovr: 0, ovr: false, purpose: None };
    c.set(7);
    assert_eq!(c.val, 7);
    assert_eq!(c.val_ovr, 0);
    c.ovr = true;
    c.set(9);
    assert_eq!(c.val, 7);
    assert_eq!(c.val_ovr, 9);
}

#[test]
fn set_base_never_touches_override() {
    let mut c = Channel { val: 1, val_ovr: 2, ovr: true, purpose: None };
    c.set_base(99);
    assert_eq!(c.val, 99);
    assert_eq!(c.val_ovr, 2);
    assert!(c.ovr);
}

#[test]
fn override_scenario_universe_0_channel_5() {
    let mut dmx = DmxState::new(1);
    dmx.set(0, 5, 100);
    assert_eq!(dmx.get(0, 5), 100);
    dmx.override_with(0, 5, true, 200);
    assert_eq!(dmx.get(0, 5), 200);
    dmx.set(0, 5, 50);
    assert_eq!(dmx.get(0, 5), 50);
    let base = dmx.snapshot(0);
    // the base layer still holds 100 underneath
    dmx.reset_ovr(0, 5);
    assert_eq!(dmx.get(0, 5), 100);
    assert_eq!(base[5], 50);
}

#[test]
fn universe_set_ovr_and_reset() {
    let mut un = Universe::new();
    un.set(3, 42);
    un.set_ovr(3, 77);
    assert_eq!(un.get(3), 77);
    un.reset_ovr(3);
    assert_eq!(un.get(3), 42);
}

#[test]
fn snapshot_reflects_overrides() {
    let mut dmx = DmxState::new(2);
    dmx.set(1, 0, 11);
    dmx.override_with(1, 1, true, 22);
    let snap = dmx.snapshot(1);
    assert_eq!(snap.len(), 512);
    assert_eq!(snap[0], 11);
    assert_eq!(snap[1], 22);
    assert_eq!(snap[2], 0);
}

#[test]
fn fixture_ids_are_monotonic_and_never_reused() {
    let mut dmx = DmxState::new(1);
    let f = Fixture {
        universe_id: 0,
        start: 0,
        channel_purposes: vec![ChannelPurpose::Dimmer, ChannelPurpose::ColR],
    };
    assert_eq!(f.channel_count(), 2);
    let a = dmx.add_fixture(f.clone());
    let b = dmx.add_fixture(f.clone());
    assert_eq!(a, 0);
    assert_eq!(b, 1);
    let removed = dmx.remove_fixture(a);
    assert!(removed.is_some());
    assert_eq!(removed.unwrap().channel_purposes.len(), 2);
    assert!(dmx.remove_fixture(a).is_none());
    // the freed id is not handed out again
    let c = dmx.add_fixture(f);
    assert_eq!(c, 2);
    assert!(dmx.fixture(b).is_some());
    assert!(dmx.fixture(a).is_none());
}

#[test]
fn add_fixture_never_touches_channels() {
    let mut dmx = DmxState::new(1);
    dmx.set(0, 0, 123);
    let f = Fixture { universe_id: 0, start: 0, channel_purposes: vec![ChannelPurpose::Dimmer] };
    dmx.add_fixture(f);
    assert_eq!(dmx.get(0, 0), 123);
}

#[test]
fn fixture_groups_store_members() {
    let mut dmx = DmxState::new(1);
    let f = Fixture { universe_id: 0, start: 4, channel_purposes: vec![ChannelPurpose::Pan] };
    let a = dmx.add_fixture(f.clone());
    let b = dmx.add_fixture(f);
    dmx.set_fixture_group(9, vec![a, b]);
    assert_eq!(dmx.fixture_group(9).unwrap(), &vec![a, b]);
    dmx.set_fixture_group(9, vec![b]);
    assert_eq!(dmx.fixture_group(9).unwrap(), &vec![b]);
    assert!(dmx.fixture_group(8).is_none());
}

#[test]
fn mutable_channel_access_writes_through() {
    let mut un = Universe::new();
    let c = un.get_channel_mut(9);
    c.set_base(77);
    assert_eq!(un.get(9), 77);
    let c = un.get_channel_mut(9);
    c.override_with(true, 5);
    assert_eq!(un.get(9), 5);
}
