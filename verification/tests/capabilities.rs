use evsieve::capability::{
    aggregate_capabilities, input_caps_to_vec, AbsInfo, Capabilities, Capability, CodeCapability,
    InputCapabilities, RepeatInfo,
};
use evsieve::event::{Event, Namespace, EV_ABS, EV_KEY, EV_REL};
use evsieve::key::{keys_match, keys_match_channel, Key, Target, ValueRule};
use evsieve::mapping::{EventMap, Toggle, ToggleMode};
use evsieve::range::Range;
use evsieve::stream::{run_caps, StreamEntry};
use evsieve::hook::Hook;
use evsieve::merge::Merge;

const ABS_X: u16 = 0;
const KEY_A: u16 = 30;

fn abs(min: i32, max: i32) -> AbsInfo {
    AbsInfo { min_value: min, max_value: max, fuzz: 0, flat: 0, resolution: 0 }
}

fn cap(ev_type: u16, code: u16, min: i32, max: i32, namespace: Namespace) -> Capability {
    Capability {
        ev_type,
        code,
        domain: 1,
        namespace,
        value_range: Range::new(min, max),
        abs_info: None,
        rep_info: None,
    }
}

#[test]
fn range_operations() {
    let r = Range::new(-5, 10);
    assert!(r.contains(-5) && r.contains(10) && !r.contains(11) && !r.contains(-6));
    assert!(!r.is_empty());
    assert!(Range::new(3, 2).is_empty());
    assert_eq!(Range::single(4), Range::new(4, 4));
    assert_eq!(Range::everything(), Range::new(i32::MIN, i32::MAX));
    assert_eq!(r.intersect(&Range::new(0, 20)), Range::new(0, 10));
    assert!(r.intersect(&Range::new(11, 20)).is_empty());
    assert_eq!(r.hull(&Range::new(20, 30)), Range::new(-5, 30));
    assert_eq!(r.hull(&Range::new(3, 2)), r);
    assert_eq!(Range::new(3, 2).hull(&r), r);
    assert_eq!(r.bound(100), 10);
    assert_eq!(r.bound(-100), -5);
    assert_eq!(r.bound(7), 7);
    assert_eq!(r.below(&Range::new(0, 3)), Some(Range::new(-5, -1)));
    assert_eq!(r.above(&Range::new(0, 3)), Some(Range::new(4, 10)));
    assert_eq!(r.below(&Range::new(-5, 3)), None);
    assert_eq!(r.above(&Range::new(0, 10)), None);
    assert_eq!(r.below(&Range::new(50, 60)), Some(r));
    assert_eq!(r.above(&Range::new(-60, -50)), Some(r));
    assert_eq!(Range::everything().below(&Range::new(i32::MIN, 0)), None);
    assert_eq!(Range::everything().above(&Range::new(0, i32::MAX)), None);
}

#[test]
fn keys_select_events() {
    let event = Event::new(EV_KEY, KEY_A, 1, 0, 3, Namespace::User);
    let exact = Key {
        ev_type: Some(EV_KEY),
        code: Some(KEY_A),
        value: Range::new(1, 2),
        domain: Some(3),
        namespace: Namespace::User,
    };
    assert!(exact.matches(&event));
    assert!(exact.matches_channel(&Event { value: 0, ..event }));
    assert!(!exact.matches(&Event { value: 0, ..event }));
    assert!(!exact.matches(&Event { domain: 4, ..event }));
    assert!(!exact.matches(&Event { code: 31, ..event }));
    assert!(!exact.matches(&Event { ev_type: EV_REL, ..event }));
    assert!(!exact.matches(&Event { namespace: Namespace::Input, ..event }));
    assert!(Key::any(Namespace::User).matches(&event));
    assert!(!Key::any(Namespace::Output).matches(&event));
    assert!(!Key::any(Namespace::Output).matches(&Event { namespace: Namespace::Output, ..event }));
    assert!(!Key::any(Namespace::Output).matches_channel(&Event { namespace: Namespace::Output, ..event }));
    assert!(Key::for_code(EV_KEY, KEY_A, Namespace::User).matches(&event));
    assert!(keys_match(&vec![Key::any(Namespace::Output), exact], &event));
    assert!(!keys_match(&vec![Key::any(Namespace::Output)], &event));
    assert!(!keys_match(&vec![], &event));
    assert!(keys_match_channel(&vec![exact], &Event { value: 0, ..event }));
}

#[test]
fn targets_rewrite_events() {
    let event = Event::new(EV_KEY, KEY_A, 5, 4, 3, Namespace::User);
    assert_eq!(Target::identity().merge(&event), event);
    assert_eq!(Target::to_namespace(Namespace::Output).merge(&event), Event { namespace: Namespace::Output, ..event });
    let target = Target {
        ev_type: Some(EV_REL),
        code: Some(7),
        value: ValueRule::Fixed(1),
        domain: Some(8),
        namespace: Some(Namespace::Yielded),
    };
    assert_eq!(target.merge(&event), Event::new(EV_REL, 7, 1, 4, 8, Namespace::Yielded));
    assert_eq!(ValueRule::Clamp(Range::new(0, 3)).apply(5), 3);
    assert_eq!(ValueRule::Clamp(Range::new(3, 0)).apply(5), 5);
    assert_eq!(ValueRule::Keep.apply(5), 5);
    assert_eq!(ValueRule::Clamp(Range::new(0, 3)).apply_range(&Range::new(-4, 2)), Range::new(0, 2));
    assert_eq!(ValueRule::Fixed(9).apply_range(&Range::new(-4, 2)), Range::new(9, 9));
    assert_eq!(ValueRule::Keep.apply_range(&Range::new(-4, 2)), Range::new(-4, 2));
    let c = cap(EV_KEY, KEY_A, 0, 2, Namespace::User);
    let moved = target.merge_cap(&c);
    assert_eq!((moved.ev_type, moved.code, moved.domain, moved.namespace), (EV_REL, 7, 8, Namespace::Yielded));
    assert_eq!(moved.value_range, Range::new(1, 1));
}

#[test]
fn key_touches_a_capability_when_some_event_may_match() {
    let key = Key {
        ev_type: Some(EV_ABS),
        code: Some(ABS_X),
        value: Range::new(10, 20),
        domain: None,
        namespace: Namespace::User,
    };
    assert!(key.touches(&cap(EV_ABS, ABS_X, 0, 10, Namespace::User)));
    assert!(!key.touches(&cap(EV_ABS, ABS_X, 0, 9, Namespace::User)));
    assert!(!key.touches(&cap(EV_ABS, 1, 0, 100, Namespace::User)));
    assert!(!key.touches(&cap(EV_ABS, ABS_X, 0, 100, Namespace::Output)));
    let on_output = Key { namespace: Namespace::Output, ..key };
    assert!(!on_output.touches(&cap(EV_ABS, ABS_X, 0, 100, Namespace::Output)));
}

#[test]
fn map_splits_a_capability_at_the_range_of_its_key() {
    let key = Key {
        ev_type: Some(EV_ABS),
        code: Some(ABS_X),
        value: Range::new(10, 20),
        domain: None,
        namespace: Namespace::User,
    };
    let to_key = Target {
        ev_type: Some(EV_KEY),
        code: Some(KEY_A),
        value: ValueRule::Fixed(1),
        domain: None,
        namespace: None,
    };
    let map = EventMap::new(key, vec![to_key]);
    let mut out = Vec::new();
    let untouched = cap(EV_REL, 3, -1, 1, Namespace::User);
    map.apply_to_all_caps(&vec![cap(EV_ABS, ABS_X, 0, 100, Namespace::User), untouched], &mut out);
    assert_eq!(
        out,
        vec![
            cap(EV_KEY, KEY_A, 1, 1, Namespace::User),
            cap(EV_ABS, ABS_X, 0, 9, Namespace::User),
            cap(EV_ABS, ABS_X, 21, 100, Namespace::User),
            untouched,
        ]
    );
}

#[test]
fn toggle_announces_every_branch() {
    let key = Key::for_code(EV_KEY, KEY_A, Namespace::User);
    let branch = |code: u16| {
        vec![Target { ev_type: None, code: Some(code), value: ValueRule::Keep, domain: None, namespace: None }]
    };
    let toggle = Toggle::new(key, vec![branch(40), branch(41)], 0, ToggleMode::Passive);
    assert_eq!(toggle.size(), 2);
    assert_eq!(toggle.state_index(), 0);
    let mut out = Vec::new();
    toggle.apply_to_all_caps(&vec![cap(EV_KEY, KEY_A, 0, 2, Namespace::User)], &mut out);
    assert_eq!(out, vec![cap(EV_KEY, 40, 0, 2, Namespace::User), cap(EV_KEY, 41, 0, 2, Namespace::User)]);
}

#[test]
fn aggregation_leaves_one_capability_per_base() {
    let caps = vec![
        cap(EV_ABS, ABS_X, 0, 10, Namespace::Output),
        cap(EV_KEY, KEY_A, 0, 1, Namespace::Output),
        cap(EV_ABS, ABS_X, 50, 60, Namespace::Output),
        cap(EV_ABS, ABS_X, -3, 2, Namespace::Output),
        cap(EV_ABS, ABS_X, 0, 10, Namespace::User),
        cap(EV_KEY, KEY_A, 2, 2, Namespace::Output),
    ];
    let merged = aggregate_capabilities(caps);
    assert_eq!(
        merged,
        vec![
            cap(EV_ABS, ABS_X, -3, 60, Namespace::Output),
            cap(EV_KEY, KEY_A, 0, 2, Namespace::Output),
            cap(EV_ABS, ABS_X, 0, 10, Namespace::User),
        ]
    );
    for i in 0..merged.len() {
        for j in (i + 1)..merged.len() {
            assert_ne!(merged[i].with_range(Range::single(0)), merged[j].with_range(Range::single(0)));
            assert!(!merged[i].same_base(&merged[j]));
        }
    }
    assert!(aggregate_capabilities(Vec::new()).is_empty());
}

#[test]
fn capabilities_with_other_limits_are_kept_apart() {
    let narrow = Capability { abs_info: Some(abs(0, 10)), ..cap(EV_ABS, ABS_X, 0, 10, Namespace::User) };
    let wide = Capability { abs_info: Some(abs(0, 20)), ..cap(EV_ABS, ABS_X, 0, 20, Namespace::User) };
    assert!(!narrow.same_base(&wide));
    assert_eq!(aggregate_capabilities(vec![narrow, wide]), vec![narrow, wide]);
}

#[test]
fn capability_blow_up_is_held_back() {
    let twice = || {
        StreamEntry::EventMap(EventMap::new(
            Key::for_code(EV_ABS, ABS_X, Namespace::User),
            vec![Target::identity(), Target::identity()],
        ))
    };
    let leave = || {
        StreamEntry::EventMap(EventMap::new(
            Key::any(Namespace::User),
            vec![Target::to_namespace(Namespace::Output)],
        ))
    };
    let mut stream: Vec<StreamEntry> = (0..20).map(|_| twice()).collect();
    stream.push(leave());
    let base = vec![cap(EV_ABS, ABS_X, 0, 255, Namespace::User), cap(EV_KEY, KEY_A, 0, 2, Namespace::User)];
    let expected =
        vec![cap(EV_ABS, ABS_X, 0, 255, Namespace::Output), cap(EV_KEY, KEY_A, 0, 2, Namespace::Output)];
    assert_eq!(run_caps(&stream, base.clone()), expected);

    // Every prefix of the stream stays within twice the base.
    for n in 0..=20 {
        let mut prefix: Vec<StreamEntry> = (0..n).map(|_| twice()).collect();
        prefix.push(leave());
        assert!(run_caps(&prefix, base.clone()).len() <= 2 * base.len());
    }
}

#[test]
fn run_caps_keeps_the_output_namespace_only() {
    let to_output = StreamEntry::EventMap(EventMap::new(
        Key::for_code(EV_KEY, KEY_A, Namespace::User),
        vec![Target::to_namespace(Namespace::Output)],
    ));
    let caps = vec![cap(EV_KEY, KEY_A, 0, 2, Namespace::User), cap(EV_KEY, 31, 0, 2, Namespace::User)];
    assert_eq!(run_caps(&vec![to_output], caps), vec![cap(EV_KEY, KEY_A, 0, 2, Namespace::Output)]);
    assert!(run_caps(&vec![], vec![cap(EV_KEY, KEY_A, 0, 2, Namespace::Input)]).is_empty());
}

#[test]
fn run_caps_does_not_depend_on_what_entries_have_seen() {
    let make = || {
        vec![
            StreamEntry::EventMap(EventMap::new(
                Key::any(Namespace::Input),
                vec![Target::to_namespace(Namespace::User)],
            )),
            StreamEntry::Merge(Merge::new(vec![Key::any(Namespace::User)], 9)),
            StreamEntry::Hook(Hook::new(vec![Key::for_code(EV_KEY, KEY_A, Namespace::User)], vec![], 0)),
            StreamEntry::EventMap(EventMap::new(
                Key::any(Namespace::User),
                vec![Target::to_namespace(Namespace::Output)],
            )),
        ]
    };
    let caps = vec![cap(EV_KEY, KEY_A, 0, 2, Namespace::Input)];
    let fresh = make();
    let mut used = make();
    let mut state = evsieve::state::State::new();
    let mut handle = evsieve::loopback::Loopback::new().get_handle(0);
    let mut staged = Vec::new();
    let mut effects = Vec::new();
    evsieve::stream::run_event(
        Event::new(EV_KEY, KEY_A, 1, 0, 1, Namespace::Input),
        &mut staged,
        &mut used,
        0,
        &mut state,
        &mut handle,
        &mut effects,
    );
    assert_eq!(staged, vec![Event::new(EV_KEY, KEY_A, 1, 0, 9, Namespace::Output)]);
    assert_eq!(run_caps(&used, caps.clone()), run_caps(&fresh, caps.clone()));
    assert_eq!(run_caps(&fresh, caps), vec![cap(EV_KEY, KEY_A, 0, 2, Namespace::Output)]);
}

#[test]
fn device_capabilities_enter_the_stream() {
    let caps = Capabilities {
        codes: vec![
            CodeCapability { ev_type: EV_KEY, code: KEY_A, abs_info: None },
            CodeCapability { ev_type: EV_ABS, code: ABS_X, abs_info: Some(abs(-8, 8)) },
            CodeCapability { ev_type: EV_REL, code: 1, abs_info: None },
        ],
        rep_info: Some(RepeatInfo { delay: 250, period: 33 }),
    };
    let listed = caps.to_vec_from_domain_and_namespace(5, Namespace::Input);
    assert_eq!(listed.len(), 3);
    assert_eq!(listed[0].value_range, Range::new(0, 2));
    assert_eq!(listed[1].value_range, Range::new(-8, 8));
    assert_eq!(listed[1].abs_info, Some(abs(-8, 8)));
    assert_eq!(listed[2].value_range, Range::everything());
    for c in &listed {
        assert_eq!((c.domain, c.namespace), (5, Namespace::Input));
        assert_eq!(c.rep_info, Some(RepeatInfo { delay: 250, period: 33 }));
    }

    let mut input_caps = InputCapabilities::new();
    assert!(input_caps.insert(5, caps.clone()).is_none());
    assert!(input_caps.insert(6, Capabilities::new()).is_none());
    let previous = input_caps.insert(5, Capabilities::new()).unwrap();
    assert_eq!(previous.codes, caps.codes);
    assert!(input_caps_to_vec(&input_caps).is_empty());
    input_caps.insert(6, caps.clone());
    let all = input_caps_to_vec(&input_caps);
    assert_eq!(all.len(), 3);
    assert_eq!(all[0].domain, 6);
}

#[test]
fn compatibility_asks_for_no_new_code_and_no_wider_axis() {
    let code = |code: u16, info: Option<AbsInfo>| CodeCapability { ev_type: EV_ABS, code, abs_info: info };
    let old = Capabilities { codes: vec![code(0, Some(abs(0, 100))), code(1, None)], rep_info: None };
    let same = old.clone();
    assert!(same.is_compatible_with(&old));
    let fewer = Capabilities { codes: vec![code(0, Some(abs(10, 90)))], rep_info: None };
    assert!(fewer.is_compatible_with(&old));
    assert!(!old.is_compatible_with(&fewer));
    let wider = Capabilities { codes: vec![code(0, Some(abs(0, 101)))], rep_info: None };
    assert!(!wider.is_compatible_with(&old));
    let new_code = Capabilities { codes: vec![code(2, None)], rep_info: None };
    assert!(!new_code.is_compatible_with(&old));
    let gained_limits = Capabilities { codes: vec![code(1, Some(abs(0, 1)))], rep_info: None };
    assert!(!gained_limits.is_compatible_with(&old));
    assert!(Capabilities::new().is_compatible_with(&old));

    let union = old.union(&wider);
    assert_eq!(union.codes, vec![code(0, Some(abs(0, 100))), code(1, None), code(0, Some(abs(0, 101)))]);
    assert!(old.is_compatible_with(&union) && wider.is_compatible_with(&union));
    assert_eq!(old.union(&fewer).codes, old.codes);

    let from = Capabilities::from_caps(
        &vec![cap(EV_KEY, KEY_A, 0, 2, Namespace::Output), Capability { domain: 2, ..cap(EV_KEY, 31, 0, 2, Namespace::Output) }],
        1,
    );
    assert_eq!(from.codes, vec![CodeCapability { ev_type: EV_KEY, code: KEY_A, abs_info: None }]);
}
