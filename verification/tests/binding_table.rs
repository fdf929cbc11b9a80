use dalgi::{
    ActionState, ButtonChange, ButtonUpdateSource, DescribeInputChanges, InputChange, InputDesc,
    InputMap, InputMapper, Key, KeyDesc,
};

#[test]
fn merge_copies_only_unbound_actions() {
    let jump: usize = 0;
    let shoot: usize = 1;

    let mut a: InputMap<usize, usize> = InputMap::new();
    a.add_button(jump, ButtonUpdateSource::Key(KeyDesc::new(Key::Up)));

    let mut b: InputMap<usize, usize> = InputMap::new();
    b.add_button(jump, ButtonUpdateSource::Key(KeyDesc::new(Key::Space)));
    b.add_button(shoot, ButtonUpdateSource::Key(KeyDesc::new(Key::Return)));

    a.add_unbound_buttons_from(&b);

    let jump_sources = a.button_sources(jump);
    assert_eq!(jump_sources.len(), 1);
    assert_eq!(jump_sources[0], ButtonUpdateSource::Key(KeyDesc::new(Key::Up)));

    let shoot_sources = a.button_sources(shoot);
    assert_eq!(shoot_sources.len(), 1);
    assert_eq!(
        shoot_sources[0],
        ButtonUpdateSource::Key(KeyDesc::new(Key::Return))
    );
}

#[test]
fn merge_pulls_every_source_of_an_unbound_action() {
    let shoot: usize = 3;
    let mut a: InputMap<usize, usize> = InputMap::new();
    let mut b: InputMap<usize, usize> = InputMap::new();
    b.add_button(shoot, ButtonUpdateSource::Key(KeyDesc::new(Key::Three)));
    b.add_button(shoot, ButtonUpdateSource::Key(KeyDesc::new(Key::Four)));

    a.add_unbound_buttons_from(&b);
    let sources = a.button_sources(shoot);
    assert_eq!(sources.len(), 2);
    assert!(sources.contains(&ButtonUpdateSource::Key(KeyDesc::new(Key::Three))));
    assert!(sources.contains(&ButtonUpdateSource::Key(KeyDesc::new(Key::Four))));
}

#[test]
fn bound_buttons_lists_each_action_once() {
    let mut map: InputMap<usize, usize> = InputMap::new();
    map.add_button(5, ButtonUpdateSource::Key(KeyDesc::new(Key::One)));
    map.add_button(5, ButtonUpdateSource::Key(KeyDesc::new(Key::Two)));
    map.add_button(9, ButtonUpdateSource::Key(KeyDesc::new(Key::Two)));

    let mut bound = map.bound_buttons();
    bound.sort();
    assert_eq!(bound, vec![5, 9]);
}

#[test]
fn bound_buttons_of_empty_map_is_empty() {
    let map: InputMap<usize, usize> = InputMap::new();
    assert_eq!(map.bound_buttons().len(), 0);
}

#[test]
fn button_sources_reports_every_binding() {
    let mut map: InputMap<usize, usize> = InputMap::new();
    map.add_button(1, ButtonUpdateSource::Key(KeyDesc::new(Key::Left)));
    map.add_button(1, ButtonUpdateSource::Key(KeyDesc::new(Key::Right).scancode()));
    map.add_button(2, ButtonUpdateSource::Key(KeyDesc::new(Key::Down)));

    let sources = map.button_sources(1);
    assert_eq!(sources.len(), 2);
    assert!(sources.contains(&ButtonUpdateSource::Key(KeyDesc::new(Key::Left))));
    assert!(sources.contains(&ButtonUpdateSource::Key(
        KeyDesc::new(Key::Right).scancode()
    )));
    assert_eq!(map.button_sources(7).len(), 0);
}

#[test]
fn try_from_accepts_keys_and_rejects_signals() {
    let kd = KeyDesc::new(Key::Space);
    assert_eq!(
        ButtonUpdateSource::try_from(InputDesc::Key(kd)),
        Some(ButtonUpdateSource::Key(kd))
    );
    assert_eq!(
        ButtonUpdateSource::try_from(InputDesc::Signal(dalgi::Signal::QuitRequest)),
        None
    );
}

#[test]
fn mapper_add_and_map_drive_the_state() {
    let mut mapper: InputMapper<usize, usize> = InputMapper::new();
    mapper.add(0, KeyDesc::new(Key::Up));
    let mut state = ActionState::new(1, 0);

    mapper.map(
        &InputChange::Key(KeyDesc::new(Key::Up), ButtonChange::Pressed),
        &mut state,
    );
    assert_eq!(state.button(0).pressed, true);
    assert_eq!(state.button(0).held, true);
}

#[test]
fn mapper_unbind_silences_a_descriptor() {
    let mut mapper: InputMapper<usize, usize> = InputMapper::new();
    mapper.add(0, KeyDesc::new(Key::Up));
    mapper.unbind(InputDesc::Key(KeyDesc::new(Key::Up)));
    let mut state = ActionState::new(1, 0);

    mapper.map(
        &InputChange::Key(KeyDesc::new(Key::Up), ButtonChange::Pressed),
        &mut state,
    );
    assert_eq!(state.button(0), dalgi::ButtonValue::new());
}

#[test]
fn mapper_routes_notifications() {
    let mut mapper: InputMapper<usize, usize> = InputMapper::new();
    mapper.add_notification(
        0,
        dalgi::NotificationUpdateSource::Notification(dalgi::Notification::QuitRequest),
    );
    let mut state = ActionState::new(0, 1);

    mapper.map(&InputChange::Signal(dalgi::Signal::QuitRequest), &mut state);
    assert_eq!(state.signal(0), true);
}

#[test]
fn an_input_change_describes_itself() {
    let c = InputChange::Key(KeyDesc::new(Key::Up), ButtonChange::Pressed);
    assert_eq!(c.describe_changes(), vec![c]);
}

#[test]
fn notification_converts_to_its_signal() {
    assert_eq!(
        dalgi::Notification::QuitRequest.as_signal(),
        dalgi::Signal::QuitRequest
    );
}

#[test]
fn default_button_value_is_zeroed() {
    let v: dalgi::ButtonValue = Default::default();
    assert_eq!(v, dalgi::ButtonValue::new());
}

#[test]
fn conversions_build_the_expected_descriptions() {
    let kd: KeyDesc = Key::Up.into();
    assert_eq!(kd, KeyDesc::new(Key::Up));

    let d: InputDesc = KeyDesc::new(Key::Space).into();
    assert_eq!(d, InputDesc::Key(KeyDesc::new(Key::Space)));

    let d2: InputDesc = dalgi::Signal::QuitRequest.into();
    assert_eq!(d2, InputDesc::Signal(dalgi::Signal::QuitRequest));

    let c: InputChange = dalgi::Signal::QuitRequest.into();
    assert_eq!(c, InputChange::Signal(dalgi::Signal::QuitRequest));
    assert_eq!(c.input(), d2);

    let bs: ButtonUpdateSource = Key::Left.into();
    assert_eq!(bs, ButtonUpdateSource::Key(KeyDesc::new(Key::Left)));
    assert_eq!(bs.desc(), InputDesc::Key(KeyDesc::new(Key::Left)));

    let ns: dalgi::NotificationUpdateSource = dalgi::Notification::QuitRequest.into();
    assert_eq!(
        ns.desc(),
        InputDesc::Signal(dalgi::Signal::QuitRequest)
    );
}
