use blog_app::atoms::stage::Paint;
use blog_app::atoms::wires::{self, lattice, marks, placed, set_rect, Standing, MARK, WIRE_LEN};
use blog_app::engine::Part;

fn at(hundredths: &[u64]) -> Vec<Part> {
    hundredths
        .iter()
        .map(|&done| Part { done, of: 1000 })
        .collect()
}

/// A dash pattern spans the wire exactly once, so it never repeats and never leaves a mark where
/// no request is — and a wire with nothing on it draws nothing at all.
#[test]
fn marks_cover_the_wire_once() {
    for at in [
        at(&[]),
        at(&[0]),
        at(&[1000]),
        at(&[500]),
        at(&[200, 900]),
        at(&[500, 505]),
        at(&[900, 100]),
    ] {
        let requests = at.len();
        let d = marks(&at);
        let run: Vec<f64> = d
            .split(' ')
            .map(|v| v.parse().expect("a pattern is lengths"))
            .collect();
        assert!(run.len().is_multiple_of(2), "whole dash/gap pairs: {d}");
        let span: f64 = run.iter().sum();
        assert!(
            (span - WIRE_LEN as f64 / 10.0).abs() < 0.05,
            "{d} spans the wire once"
        );
        let ink: f64 = run.iter().step_by(2).sum();
        assert_eq!(
            ink > 0.0,
            requests > 0,
            "ink iff a request put it there: {d}"
        );
        assert!(
            ink <= requests as f64 * MARK as f64 / 10.0 + 0.05,
            "none draws past its own mark: {d}"
        );
    }
}

#[test]
fn a_dash_is_centred_on_its_request_and_overlaps_merge() {
    assert_eq!(marks(&at(&[])), "0 1000.0");
    assert_eq!(marks(&at(&[500])), "0 490.0 20.0 490.0");
    assert_eq!(marks(&at(&[0])), "0 0.0 20.0 980.0");
    assert_eq!(marks(&at(&[500, 505])), "0 490.0 25.0 485.0");
}

#[test]
fn a_rect_with_no_element_is_ignored() {
    let mut slots: Vec<Option<u8>> = vec![None; 2];
    set_rect(&mut slots, 1, 9);
    set_rect(&mut slots, 2, 7);
    assert_eq!(slots, vec![None, Some(9)]);
}

#[test]
fn a_wire_waits_on_both_its_ends() {
    let pairs = vec![(0, 0), (0, 1), (1, 0), (5, 0)];
    let (clients, servers) = (vec![true, false], vec![true, false]);
    assert_eq!(placed(true, &clients, &servers, &pairs), vec![(0, 0)]);
    assert!(placed(false, &clients, &servers, &pairs).is_empty());
}

#[test]
fn a_client_is_wired_to_everything_it_keeps_warm() {
    assert_eq!(
        lattice(&vec![vec![2, 0], vec![], vec![1]]),
        vec![(0, 2), (0, 0), (2, 1)]
    );
}

#[test]
fn what_stands_is_drawn_in_its_own_line() {
    let inks: Vec<Paint> = [Standing::Request, Standing::Shed, Standing::Response]
        .into_iter()
        .map(|s| wires::line(s).ink)
        .collect();
    assert_ne!(inks[0], inks[1]);
    assert!(wires::line(Standing::Idle).width > 0);
}
