use mirage::pace::{PaceStep, UpstreamPacer};

#[test]
fn first_request_starts_then_spacing_applies() {
    let mut p = UpstreamPacer::new(300);
    assert_eq!(p.step(1_000), PaceStep::Start);
    assert_eq!(p.last_start, Some(1_000));
    assert_eq!(p.step(1_100), PaceStep::Wait(200));
    assert_eq!(p.last_start, Some(1_000));
    assert_eq!(p.step(1_299), PaceStep::Wait(1));
    assert_eq!(p.step(1_300), PaceStep::Start);
    assert_eq!(p.step(5_000), PaceStep::Start);
    assert_eq!(p.last_start, Some(5_000));
}

#[test]
fn permits_at_least_one() {
    assert_eq!(UpstreamPacer::permits(0), 1);
    assert_eq!(UpstreamPacer::permits(1), 1);
    assert_eq!(UpstreamPacer::permits(8), 8);
}
