use blog_app::hotswap::HotSwap;

#[test]
fn a_load_is_seen_on_the_next_readiness() {
    let (front, mut handle) = HotSwap::new("A");
    let mut svc = front.another();
    svc.ready(&handle);
    assert_eq!(svc.call(), "A");
    handle.load("B");
    svc.ready(&handle);
    assert_eq!(svc.call(), "B");
}

#[test]
fn a_reservation_is_honoured_by_the_inner_that_granted_it() {
    let (front, mut handle) = HotSwap::new("A");
    let mut svc = front.another();
    // Reserve against A…
    svc.ready(&handle);
    // …then swap before calling. The reservation must still resolve on A.
    handle.load("B");
    assert_eq!(
        svc.call(),
        "A",
        "the granted inner honours its own reservation"
    );
}

#[test]
fn a_fresh_clone_adopts_the_latest() {
    let (front, mut handle) = HotSwap::new("A");
    handle.load("B");
    let mut late = front.another();
    late.ready(&handle);
    assert_eq!(late.call(), "B", "a new clone starts current");
}

#[test]
fn a_front_that_is_current_keeps_what_it_holds() {
    let (mut front, mut handle) = HotSwap::new(1u8);
    assert_eq!(front.ready(&handle), 1);
    assert_eq!(front.ready(&handle), 1);
    handle.load(2);
    handle.load(3);
    assert_eq!(front.ready(&handle), 3, "it adopts the last of several loads");
}

/// A generation comes round after the last one there is, and the load is still a new one.
#[test]
fn loading_past_the_last_generation_is_still_seen() {
    let (mut front, mut handle) = HotSwap::new('a');
    handle.generation = u64::MAX;
    assert_eq!(front.ready(&handle), 'a');
    handle.load('b');
    assert_eq!(handle.generation, 0);
    assert_eq!(front.ready(&handle), 'b');
}
