use rightkeys::geometry::{anim_frames, frame_geom, max_delta, moveresize_message, ANIM_STEPS};

#[test]
fn linux_max_delta_picks_largest_dimension() {
    assert_eq!(max_delta((0, 0, 100, 100), (5, -30, 140, 100)), 40);
    assert_eq!(max_delta((10, 10, 10, 10), (10, 10, 10, 10)), 0);
}

#[test]
fn linux_frame_geom_grows_client_outward_by_extents() {
    // Client at (10, 20) of size 300×200; a 3/5/30/4 frame (typical
    // title-bar-heavy Linux WM) yields an outer rectangle shifted up-left
    // and grown by the sum of opposing sides.
    let client = (10, 20, 300, 200);
    let extents = (3, 5, 30, 4);
    assert_eq!(frame_geom(client, extents), (7, -10, 308, 234));
}

#[test]
fn linux_moveresize_message_keeps_position_strips_extents_from_size() {
    // Inverse of `frame_geom` on size: the frame rectangle lands where the
    // caller asked, and `_NET_MOVERESIZE_WINDOW` is told the smaller client
    // size so the WM-painted frame reaches the target edges.
    let frame = (7, -10, 308, 234);
    let extents = (3, 5, 30, 4);
    assert_eq!(moveresize_message(frame, extents), (7, -10, 300, 200));
}

#[test]
fn linux_anim_frames_land_exactly_on_target() {
    let frames = anim_frames((0, 0, 0, 0), (1000, 500, 800, 600), ANIM_STEPS);
    assert_eq!(frames.len(), ANIM_STEPS as usize);
    assert_eq!(*frames.last().unwrap(), (1000, 500, 800, 600));
}

#[test]
fn linux_anim_frames_ease_out_so_the_first_step_outruns_linear() {
    // Ease-out cubic moves fast up front: the first frame covers more ground
    // than a constant-speed (linear) step would.
    let frames = anim_frames((0, 0, 0, 0), (1600, 0, 0, 0), ANIM_STEPS);
    let linear_first = 1600 / ANIM_STEPS as i32;
    assert!(frames[0].0 > linear_first, "{} !> {linear_first}", frames[0].0);
}

#[test]
fn mod_max_delta_picks_largest_dimension() {
    assert_eq!(max_delta((0, 0, 100, 100), (5, -30, 140, 100)), 40);
    assert_eq!(max_delta((10, 10, 10, 10), (10, 10, 10, 10)), 0);
}

#[test]
fn mod_frame_geom_grows_client_outward_by_extents() {
    // Client at (10, 20) of size 300×200; a 3/5/30/4 frame (typical
    // title-bar-heavy Linux WM) yields an outer rectangle shifted up-left
    // and grown by the sum of opposing sides.
    let client = (10, 20, 300, 200);
    let extents = (3, 5, 30, 4);
    assert_eq!(frame_geom(client, extents), (7, -10, 308, 234));
}

#[test]
fn mod_moveresize_message_keeps_position_strips_extents_from_size() {
    // Inverse of `frame_geom` on size: the frame rectangle lands where the
    // caller asked, and `_NET_MOVERESIZE_WINDOW` is told the smaller client
    // size so the WM-painted frame reaches the target edges.
    let frame = (7, -10, 308, 234);
    let extents = (3, 5, 30, 4);
    assert_eq!(moveresize_message(frame, extents), (7, -10, 300, 200));
}

#[test]
fn mod_anim_frames_land_exactly_on_target() {
    let frames = anim_frames((0, 0, 0, 0), (1000, 500, 800, 600), ANIM_STEPS);
    assert_eq!(frames.len(), ANIM_STEPS as usize);
    assert_eq!(*frames.last().unwrap(), (1000, 500, 800, 600));
}

#[test]
fn mod_anim_frames_ease_out_so_the_first_step_outruns_linear() {
    // Ease-out cubic moves fast up front: the first frame covers more ground
    // than a constant-speed (linear) step would.
    let frames = anim_frames((0, 0, 0, 0), (1600, 0, 0, 0), ANIM_STEPS);
    let linear_first = 1600 / ANIM_STEPS as i32;
    assert!(frames[0].0 > linear_first, "{} !> {linear_first}", frames[0].0);
}
