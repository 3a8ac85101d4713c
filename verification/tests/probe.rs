use drm_gfx::drm_render_target::{device_path, probe_step, ProbeStep, DEVICE_COUNT};

#[test]
fn device_nodes_are_tried_in_documented_order() {
    let paths: Vec<&str> = (0..DEVICE_COUNT).map(device_path).collect();
    assert_eq!(
        paths,
        vec![
            "/dev/dri/card0",
            "/dev/dri/card1",
            "/dev/dri/card2",
            "/dev/dri/renderD128",
            "/dev/dri/renderD129",
        ]
    );
}

#[test]
fn an_opened_device_is_used() {
    assert_eq!(probe_step(0, true), ProbeStep::Use(0));
    assert_eq!(probe_step(3, true), ProbeStep::Use(3));
    assert_eq!(probe_step(DEVICE_COUNT - 1, true), ProbeStep::Use(DEVICE_COUNT - 1));
}

#[test]
fn a_failed_device_moves_to_the_next() {
    assert_eq!(probe_step(0, false), ProbeStep::Try(1));
    assert_eq!(probe_step(2, false), ProbeStep::Try(3));
    assert_eq!(probe_step(3, false), ProbeStep::Try(4));
}

#[test]
fn the_search_gives_up_after_the_last_device() {
    assert_eq!(probe_step(DEVICE_COUNT - 1, false), ProbeStep::GiveUp);
}

#[test]
fn a_search_where_nothing_opens_tries_every_device_once() {
    let mut tried = Vec::new();
    let mut i = 0;
    loop {
        tried.push(device_path(i));
        match probe_step(i, false) {
            ProbeStep::Try(next) => i = next,
            ProbeStep::Use(_) => panic!("nothing opened"),
            ProbeStep::GiveUp => break,
        }
    }
    assert_eq!(tried.len(), DEVICE_COUNT);
    assert_eq!(tried[0], "/dev/dri/card0");
    assert_eq!(tried[DEVICE_COUNT - 1], "/dev/dri/renderD129");
}

#[test]
fn a_search_uses_the_first_device_that_opens() {
    let opens = |path: &str| path == "/dev/dri/card2" || path == "/dev/dri/renderD128";
    let mut i = 0;
    let used = loop {
        match probe_step(i, opens(device_path(i))) {
            ProbeStep::Use(k) => break Some(k),
            ProbeStep::Try(next) => i = next,
            ProbeStep::GiveUp => break None,
        }
    };
    assert_eq!(used.map(device_path), Some("/dev/dri/card2"));
}
