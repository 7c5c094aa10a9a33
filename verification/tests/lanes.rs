use blog_app::atoms::lanes::{hue, merged, seat, Ink, Key, Launch, AFTERGLOW, STAT};
use blog_app::atoms::stage::Paint;
use blog_app::atoms::tier::{waving, Flying, LaneTier, Place, Span};

/// A leg of six milliseconds, over four seats.
fn tier() -> LaneTier {
    LaneTier::new(4, 6_000)
}

const REAL: u64 = 1_000_000;

fn sent(from: usize, to: usize) -> Launch {
    Launch {
        from,
        to,
        homeward: false,
        ink: Ink::Sent,
    }
}

fn answered(from: usize, to: usize) -> Launch {
    Launch {
        from,
        to,
        homeward: true,
        ink: Ink::Answer,
    }
}

fn painted(tier: &LaneTier) -> Vec<(Flying, Span)> {
    tier.flying()
        .into_iter()
        .filter_map(|f| {
            let span = f.slot.span(tier.wall, f.homeward)?;
            Some((f, span))
        })
        .collect()
}

fn at(p: Place) -> f64 {
    p.num as f64 / p.den as f64
}

/// A wire keeps its seat while it carries, and a saturated tier refuses new wires without
/// unseating live ones.
#[test]
fn seats_are_sticky_and_bounded() {
    let mut seats: Vec<Option<Key>> = vec![None; 3];
    let a = seat(&mut seats, (0, 1)).expect("an empty tier seats");
    let b = seat(&mut seats, (2, 3)).expect("a second wire seats elsewhere");
    assert_ne!(a, b);
    assert_eq!(
        seat(&mut seats, (0, 1)),
        Some(a),
        "the same wire keeps its seat"
    );
    seat(&mut seats, (4, 5)).expect("the tier fills");
    assert_eq!(seat(&mut seats, (6, 7)), None, "a full tier refuses");
    assert_eq!(
        seat(&mut seats, (2, 3)),
        Some(b),
        "without unseating anyone"
    );
    seats[a] = None;
    assert_eq!(
        seat(&mut seats, (6, 7)),
        Some(a),
        "a freed seat is taken over"
    );
}

/// The front edge is the request: half a leg after it departs, its head is half way along the
/// wire.
#[test]
fn a_front_edge_stands_where_the_leg_has_carried_it() {
    let mut tier = tier();
    tier.frame(&vec![sent(0, 1)], 0, REAL);
    tier.frame(&vec![], 3_000, REAL);

    let picture = painted(&tier);
    let [(_, pulse)] = &picture[..] else {
        panic!("one send is one pulse")
    };
    assert!(
        (at(pulse.to) - 0.5).abs() < 1e-9,
        "half a 6ms leg is half the wire"
    );
    assert_eq!(
        at(pulse.from),
        0.0,
        "and the afterglow is still leaving the near end"
    );
}

/// A pulse home runs the same wire the other way: the head is what reaches the near end.
#[test]
fn a_homeward_pulse_runs_its_wire_backwards() {
    let mut tier = tier();
    tier.frame(&vec![answered(0, 1)], 0, REAL);
    tier.frame(&vec![], 3_000, REAL);

    let picture = painted(&tier);
    let [(_, pulse)] = &picture[..] else {
        panic!("one answer is one pulse")
    };
    assert!(
        (at(pulse.from) - 0.5).abs() < 1e-9,
        "the head has come half way home"
    );
    assert_eq!(at(pulse.to), 1.0);
}

/// The merging rule: everything one wire sent one way in one frame is one pulse, brighter for
/// the crowd on it.
#[test]
fn a_frame_of_sends_on_one_wire_is_one_pulse() {
    let mut tier = tier();
    tier.frame(&vec![sent(0, 1), sent(0, 1), answered(0, 1)], 0, REAL);
    tier.frame(&vec![], 1_000, REAL);

    let shapes = painted(&tier);
    assert_eq!(shapes.len(), 2, "one out, one home");
    assert!(
        shapes[0].0.slot.count > 1,
        "two riders are brighter than one"
    );
}

/// A pause never freezes a request: nothing departs, and what is in the air keeps flying on the
/// reader's clock until the last afterglow has decayed.
#[test]
fn travel_lands_after_the_departures_stop() {
    let mut tier = tier();
    tier.frame(&vec![sent(0, 1)], 0, REAL);
    assert!(tier.airborne());

    tier.frame(&vec![], AFTERGLOW / 2, REAL);
    assert!(tier.airborne(), "still in the air with the sim stopped");
    assert_eq!(painted(&tier).len(), 1);

    tier.frame(&vec![], AFTERGLOW, REAL);
    assert!(!tier.airborne(), "and the loop is free to stop");
    assert!(painted(&tier).is_empty());
}

/// Slow motion stretches the front until it is as long as the afterglow behind it. The pulse
/// stays a pulse: the tail never overtakes the head.
#[test]
fn slow_motion_never_lets_the_afterglow_outrun_the_front() {
    let mut tier = tier();
    tier.frame(&vec![sent(0, 1)], 0, 1_000);
    for _ in 0..40 {
        tier.frame(&vec![], 16_000, 1_000);
        for (_, pulse) in painted(&tier) {
            assert!(at(pulse.from) < at(pulse.to), "{pulse:#?}");
        }
    }
}

/// A quiet wire carries no wave: the crests are rate as texture, and a wire nobody is using has
/// no rate to draw.
#[test]
fn a_quiet_wire_draws_no_crests() {
    let mut tier = tier();
    tier.frame(&vec![sent(0, 1)], 0, REAL);
    tier.frame(&vec![], 1_000, REAL);
    assert_eq!(painted(&tier).len(), 1, "the pulse, and nothing under it");
    assert!(!waving(tier.state[0].rate, tier.speed));
}

/// A busy wire does, both ways.
#[test]
fn a_busy_wire_carries_a_wave_each_way() {
    let mut tier = tier();
    for _ in 0..STAT / 1_000 {
        tier.frame(&vec![sent(0, 1); 20], 1_000, REAL);
    }
    assert!(
        waving(tier.state[0].rate, tier.speed),
        "a wire at 20 000 req/s is textured"
    );
    assert_eq!(hue(false), Ink::Sent.paint());
    assert_eq!(hue(true), Ink::Answer.paint());
    assert_ne!(hue(false), hue(true), "direction survives in hue");
}

#[test]
fn a_launch_is_counted_with_its_like() {
    let buckets = merged(&vec![
        sent(1, 0),
        answered(0, 1),
        sent(0, 1),
        sent(1, 0),
        Launch {
            ink: Ink::Refusal,
            ..answered(0, 1)
        },
    ]);
    let total: usize = buckets.iter().map(|b| b.count).sum();
    assert_eq!(total, 5, "no launch is lost");
    let doubled: Vec<(usize, usize)> = buckets
        .iter()
        .filter(|b| b.count == 2)
        .map(|b| (b.launch.from, b.launch.to))
        .collect();
    assert_eq!(doubled, [(1, 0)]);
    assert_eq!(buckets.len(), 4);
}

#[test]
fn a_full_tier_carries_on_without_a_wire_it_cannot_seat() {
    let mut tier = LaneTier::new(1, 6_000);
    tier.frame(&vec![sent(0, 1), sent(2, 3)], 0, REAL);
    tier.frame(&vec![], 1_000, REAL);
    let seated = painted(&tier);
    assert_eq!(seated.len(), 1);
    assert_eq!((seated[0].0.from, seated[0].0.to), (0, 1));
}

#[test]
fn each_ink_has_its_hue() {
    assert_eq!(Ink::Sent.paint(), Paint::Teal);
    assert_eq!(Ink::Answer.paint(), Paint::Green);
    assert_eq!(Ink::Refusal.paint(), Paint::Amber);
}

/// A frame's departures come out the same whatever order they were listed in.
#[test]
fn a_frame_comes_out_one_way() {
    let (mut a, mut b) = (tier(), tier());
    a.frame(&vec![sent(2, 3), answered(0, 1), sent(0, 1), sent(2, 3)], 0, REAL);
    b.frame(&vec![sent(2, 3), sent(2, 3), sent(0, 1), answered(0, 1)], 0, REAL);
    assert_eq!(a.seats, b.seats);
    assert_eq!(a.flying(), b.flying());
    assert_eq!(a.flying().len(), 3);
}
