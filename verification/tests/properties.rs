use taps::properties::{
    rank, CandidateStack, Preference, Property, ProtocolStackCapability, StackId, TransportProperties,
};

fn stack(
    stack: StackId,
    reliability: bool,
    preserve_order: bool,
    multipath: bool,
    congestion_control: bool,
) -> ProtocolStackCapability {
    ProtocolStackCapability { stack, reliability, preserve_order, multipath, congestion_control }
}

fn ids(ranked: &[CandidateStack]) -> Vec<StackId> {
    ranked.iter().map(|candidate| candidate.stack.stack).collect()
}

#[test]
fn default_properties_hold_no_preference() {
    let properties = TransportProperties::default();
    assert_eq!(properties.get(Property::Reliability), None);
    assert_eq!(properties.get(Property::PreserveOrder), None);
    assert_eq!(properties.get(Property::Multipath), None);
    assert_eq!(properties.get(Property::CongestionControl), None);
    assert_eq!(properties, TransportProperties::new());
}

#[test]
fn set_replaces_one_preference_only() {
    let mut properties = TransportProperties::new();
    properties.set(Property::Multipath, Preference::Preferred);
    properties.set(Property::Reliability, Preference::Required);
    properties.set(Property::Multipath, Preference::Avoided);
    assert_eq!(properties.get(Property::Multipath), Some(Preference::Avoided));
    assert_eq!(properties.get(Property::Reliability), Some(Preference::Required));
    assert_eq!(properties.get(Property::PreserveOrder), None);
}

#[test]
fn rank_keeps_registration_order_without_preferences() {
    let stacks = vec![
        stack(StackId::Udp, false, false, false, false),
        stack(StackId::Tcp, true, true, false, true),
    ];
    let ranked = rank(&TransportProperties::default(), &stacks);
    assert_eq!(ids(&ranked), vec![StackId::Udp, StackId::Tcp]);
    assert_eq!(ranked[0].index, 0);
    assert_eq!(ranked[1].index, 1);
    assert_eq!(ranked[0].score, 0);
    assert_eq!(ranked[1].score, 0);
}

#[test]
fn rank_drops_stacks_with_a_prohibited_property() {
    let stacks = ProtocolStackCapability::registry();
    let mut properties = TransportProperties::new();
    properties.set(Property::Multipath, Preference::Prohibited);
    let ranked = rank(&properties, &stacks);
    assert_eq!(ids(&ranked), vec![StackId::Tcp, StackId::Quic, StackId::Udp]);
    for candidate in &ranked {
        assert!(!candidate.stack.multipath);
        assert!(properties.is_admitted(&candidate.stack));
    }
    properties.set(Property::Reliability, Preference::Prohibited);
    assert_eq!(ids(&rank(&properties, &stacks)), vec![StackId::Udp]);
}

#[test]
fn rank_orders_by_preferred_properties_and_is_stable() {
    let stacks = vec![
        stack(StackId::Udp, false, false, false, false),
        stack(StackId::Tcp, true, true, false, true),
        stack(StackId::Quic, true, true, false, true),
        stack(StackId::MultipathTcp, true, true, true, true),
    ];
    let mut properties = TransportProperties::new();
    properties.set(Property::Reliability, Preference::Preferred);
    properties.set(Property::Multipath, Preference::Preferred);
    properties.set(Property::CongestionControl, Preference::Required);
    let ranked = rank(&properties, &stacks);
    assert_eq!(ids(&ranked), vec![StackId::MultipathTcp, StackId::Tcp, StackId::Quic, StackId::Udp]);
    let scores: Vec<usize> = ranked.iter().map(|candidate| candidate.score).collect();
    assert_eq!(scores, vec![2, 1, 1, 0]);
    let indices: Vec<usize> = ranked.iter().map(|candidate| candidate.index).collect();
    assert_eq!(indices, vec![3, 1, 2, 0]);
}

#[test]
fn preferred_score_counts_each_property_once() {
    let mut properties = TransportProperties::new();
    properties.set(Property::Reliability, Preference::Preferred);
    properties.set(Property::PreserveOrder, Preference::Preferred);
    properties.set(Property::Multipath, Preference::Preferred);
    properties.set(Property::CongestionControl, Preference::Preferred);
    assert_eq!(properties.preferred_score(&ProtocolStackCapability::of(StackId::MultipathTcp)), 4);
    assert_eq!(properties.preferred_score(&ProtocolStackCapability::of(StackId::Tcp)), 3);
    assert_eq!(properties.preferred_score(&ProtocolStackCapability::of(StackId::Udp)), 0);
    properties.set(Property::Reliability, Preference::Avoided);
    assert_eq!(properties.preferred_score(&ProtocolStackCapability::of(StackId::Tcp)), 2);
}

#[test]
fn rank_of_no_stack_is_empty() {
    assert!(rank(&TransportProperties::default(), &[]).is_empty());
}

#[test]
fn registry_lists_the_known_protocols() {
    let stacks = ProtocolStackCapability::registry();
    assert_eq!(stacks.len(), 4);
    assert_eq!(stacks[0], stack(StackId::Tcp, true, true, false, true));
    assert_eq!(stacks[1], stack(StackId::MultipathTcp, true, true, true, true));
    assert_eq!(stacks[2], stack(StackId::Quic, true, true, false, true));
    assert_eq!(stacks[3], stack(StackId::Udp, false, false, false, false));
    assert!(stacks[0].offers(Property::Reliability));
    assert!(!stacks[0].offers(Property::Multipath));
}
