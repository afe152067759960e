use taps::endpoint::{IpAddress, SocketAddress};
use taps::establishment::{
    candidates, primary, Attempt, AttemptFailure, AttemptState, CandidatePath, Claim, EstablishmentError,
    FailureReason, Progress, Race,
};
use taps::properties::{rank, Preference, Property, ProtocolStackCapability, StackId, TransportProperties};

fn address(last: u32, port: u16) -> SocketAddress {
    SocketAddress { ip: IpAddress::V4(0x0a00_0000 + last), port }
}

fn path(stack: StackId, last: u32) -> CandidatePath {
    CandidatePath { stack, address: address(last, 80), score: 0 }
}

fn paths(count: u32) -> Vec<CandidatePath> {
    (0..count).map(|i| path(StackId::Tcp, i)).collect()
}

fn states(race: &Race) -> Vec<AttemptState> {
    (0..race.len()).map(|i| race.attempt(i).unwrap().state).collect()
}

fn failure(last: u32, reason: FailureReason) -> AttemptFailure {
    AttemptFailure { path: path(StackId::Tcp, last), reason }
}

#[test]
fn candidates_cross_stacks_and_addresses_stack_first() {
    let mut properties = TransportProperties::new();
    properties.set(Property::Multipath, Preference::Preferred);
    properties.set(Property::Reliability, Preference::Required);
    let stacks = [ProtocolStackCapability::of(StackId::Tcp), ProtocolStackCapability::of(StackId::MultipathTcp)];
    let ranked = rank(&properties, &stacks);
    let addresses = [address(1, 80), address(2, 80), address(3, 80)];
    let crossed = candidates(&ranked, &addresses);
    assert_eq!(
        crossed,
        vec![
            CandidatePath { stack: StackId::MultipathTcp, address: address(1, 80), score: 1 },
            CandidatePath { stack: StackId::MultipathTcp, address: address(2, 80), score: 1 },
            CandidatePath { stack: StackId::MultipathTcp, address: address(3, 80), score: 1 },
            CandidatePath { stack: StackId::Tcp, address: address(1, 80), score: 0 },
            CandidatePath { stack: StackId::Tcp, address: address(2, 80), score: 0 },
            CandidatePath { stack: StackId::Tcp, address: address(3, 80), score: 0 },
        ]
    );
    assert!(candidates(&ranked, &[]).is_empty());
    assert!(candidates(&[], &addresses).is_empty());
}

#[test]
fn a_race_without_paths_does_not_begin() {
    assert!(matches!(Race::begin(&[], 0), Err(EstablishmentError::NoViableStack)));
    assert!(matches!(Race::begin(&[], 3), Err(EstablishmentError::NoViableStack)));
}

#[test]
fn all_attempts_start_at_once_by_default() {
    let race = Race::begin(&paths(3), 0).unwrap();
    assert_eq!(race.len(), 3);
    assert_eq!(race.launched(), 3);
    assert_eq!(states(&race), vec![AttemptState::InFlight; 3]);
    assert_eq!(race.winner(), None);
    assert_eq!(race.attempt(1), Some(Attempt { path: path(StackId::Tcp, 1), state: AttemptState::InFlight }));
    assert_eq!(race.attempt(3), None);
}

#[test]
fn a_batch_starts_when_the_one_before_has_failed() {
    let mut race = Race::begin(&paths(5), 2).unwrap();
    assert_eq!(race.launched(), 2);
    assert_eq!(
        states(&race),
        vec![
            AttemptState::InFlight,
            AttemptState::InFlight,
            AttemptState::Waiting,
            AttemptState::Waiting,
            AttemptState::Waiting
        ]
    );
    assert_eq!(race.failed(1, FailureReason::Refused), Progress::Wait);
    assert_eq!(race.launched(), 2);
    assert_eq!(race.failed(1, FailureReason::TimedOut), Progress::Wait);
    assert_eq!(race.attempt(1).unwrap().state, AttemptState::Failed(FailureReason::Refused));
    assert_eq!(race.failed(0, FailureReason::TimedOut), Progress::Launch { from: 2, to: 4 });
    assert_eq!(race.launched(), 4);
    assert_eq!(race.failed(4, FailureReason::Refused), Progress::Wait);
    assert_eq!(race.failed(9, FailureReason::Refused), Progress::Wait);
    assert_eq!(race.failed(2, FailureReason::Unreachable), Progress::Wait);
    assert_eq!(race.failed(3, FailureReason::Unreachable), Progress::Launch { from: 4, to: 5 });
    assert_eq!(
        states(&race),
        vec![
            AttemptState::Failed(FailureReason::TimedOut),
            AttemptState::Failed(FailureReason::Refused),
            AttemptState::Failed(FailureReason::Unreachable),
            AttemptState::Failed(FailureReason::Unreachable),
            AttemptState::InFlight
        ]
    );
}

#[test]
fn a_batch_larger_than_the_race_starts_everything() {
    let race = Race::begin(&paths(2), 7).unwrap();
    assert_eq!(race.launched(), 2);
    let race = Race::begin(&paths(2), usize::MAX).unwrap();
    assert_eq!(race.launched(), 2);
}

#[test]
fn the_first_to_connect_wins_and_the_rest_is_cancelled() {
    let mut race = Race::begin(&paths(4), 0).unwrap();
    assert_eq!(race.failed(0, FailureReason::Refused), Progress::Wait);
    assert_eq!(race.connected(2), Claim::Won { cancel: vec![1, 3] });
    assert_eq!(race.winner(), Some(2));
    assert_eq!(
        states(&race),
        vec![
            AttemptState::Failed(FailureReason::Refused),
            AttemptState::Cancelled,
            AttemptState::Connected,
            AttemptState::Cancelled
        ]
    );
    let connected = states(&race).iter().filter(|state| **state == AttemptState::Connected).count();
    assert_eq!(connected, 1);
    assert!(!states(&race).contains(&AttemptState::InFlight));
}

#[test]
fn a_late_result_changes_nothing() {
    let mut race = Race::begin(&paths(3), 0).unwrap();
    assert_eq!(race.connected(0), Claim::Won { cancel: vec![1, 2] });
    let settled = states(&race);
    assert_eq!(race.connected(1), Claim::Discard);
    assert_eq!(race.connected(0), Claim::Discard);
    assert_eq!(race.connected(17), Claim::Discard);
    assert_eq!(race.failed(2, FailureReason::TimedOut), Progress::Wait);
    assert_eq!(states(&race), settled);
    assert_eq!(race.winner(), Some(0));
}

#[test]
fn a_win_leaves_waiting_attempts_unstarted() {
    let mut race = Race::begin(&paths(3), 1).unwrap();
    assert_eq!(race.connected(1), Claim::Discard);
    assert_eq!(race.connected(0), Claim::Won { cancel: Vec::new() });
    assert_eq!(
        states(&race),
        vec![AttemptState::Connected, AttemptState::Waiting, AttemptState::Waiting]
    );
    assert_eq!(race.launched(), 1);
}

#[test]
fn a_race_is_lost_when_every_attempt_failed() {
    let mut race = Race::begin(&paths(3), 2).unwrap();
    assert_eq!(race.failed(0, FailureReason::Unreachable), Progress::Wait);
    assert_eq!(race.failed(1, FailureReason::Refused), Progress::Launch { from: 2, to: 3 });
    let lost = race.failed(2, FailureReason::TimedOut);
    let expected = vec![
        failure(0, FailureReason::Unreachable),
        failure(1, FailureReason::Refused),
        failure(2, FailureReason::TimedOut),
    ];
    assert_eq!(lost, Progress::Lost(EstablishmentError::AllFailed(expected.clone())));
    assert_eq!(race.winner(), None);
    assert_eq!(race.failed(2, FailureReason::TimedOut), Progress::Wait);
    assert_eq!(race.connected(2), Claim::Discard);
    assert_eq!(EstablishmentError::AllFailed(expected).primary_failure(), Some(failure(1, FailureReason::Refused)));
}

#[test]
fn the_primary_failure_tells_most_and_is_ranked_last() {
    assert_eq!(primary(&[]), None);
    assert_eq!(primary(&[failure(0, FailureReason::TimedOut)]), Some(0));
    let failures = [
        failure(0, FailureReason::Refused),
        failure(1, FailureReason::TimedOut),
        failure(2, FailureReason::Refused),
        failure(3, FailureReason::Unreachable),
    ];
    assert_eq!(primary(&failures), Some(2));
    let failures = [
        failure(0, FailureReason::Rejected),
        failure(1, FailureReason::Refused),
        failure(2, FailureReason::Refused),
    ];
    assert_eq!(primary(&failures), Some(0));
    assert_eq!(EstablishmentError::NoViableStack.primary_failure(), None);
    assert_eq!(EstablishmentError::AllFailed(Vec::new()).primary_failure(), None);
    assert_eq!(FailureReason::TimedOut.informativeness(), 0);
    assert_eq!(FailureReason::Unreachable.informativeness(), 1);
    assert_eq!(FailureReason::Refused.informativeness(), 2);
    assert_eq!(FailureReason::Rejected.informativeness(), 3);
}
