use engine::ribbons::{HeadAction, RibbonWorld, MAX_RIBBONS, MAX_RIBBON_POINTS};

// The trail points themselves are held by the caller: a head update says
// whether the head moved at least the point spacing, and after time passes
// the caller reports how many of the oldest points outlived the style's
// lifetime (0.5 s in these tests).

#[test]
fn lifecycle_and_stale_handles() {
    let mut w = RibbonWorld::new();
    let id = w.start().unwrap();
    w.update_head(id, true).unwrap();
    w.stop(id).unwrap();
    assert!(w.update_head(id, false).is_err());
    // 0.6 s later both points have expired.
    w.expire(id.slot as usize, 2);
    assert!(w.stop(id).is_err());
}

#[test]
fn stopped_ribbon_keeps_tail_until_expiry() {
    let mut world = RibbonWorld::new();
    let id = world.start().unwrap();
    world.update_head(id, true).unwrap();
    world.stop(id).unwrap();
    // 0.2 s: nothing has expired yet.
    assert!(!world.expire(id.slot as usize, 0));
    assert_eq!(world.slot(id.slot as usize).points, 2);
    // 0.51 s: both points are past their lifetime.
    assert!(world.expire(id.slot as usize, 2));
    assert_eq!(world.live_count(), 0);
}

#[test]
fn capacity_is_loud() {
    let mut w = RibbonWorld::new();
    for _ in 0..MAX_RIBBONS {
        w.start().unwrap();
    }
    assert!(w.start().is_err());
}

#[test]
fn history_is_bounded_and_expires() {
    let mut w = RibbonWorld::new();
    let id = w.start().unwrap();
    for _ in 1..100 {
        w.update_head(id, true).unwrap();
    }
    assert_eq!(w.slot(id.slot as usize).points as usize, MAX_RIBBON_POINTS);
    w.expire(id.slot as usize, MAX_RIBBON_POINTS as u32);
    assert_eq!(w.slot(id.slot as usize).points, 0);
    assert_eq!(w.live_count(), 1);
}

#[test]
fn head_updates_append_move_or_drop_the_oldest() {
    let mut w = RibbonWorld::new();
    let id = w.start().unwrap();
    assert_eq!(w.update_head(id, false).unwrap(), HeadAction::MoveHead);
    assert_eq!(w.update_head(id, true).unwrap(), HeadAction::Append);
    for _ in 2..MAX_RIBBON_POINTS {
        w.update_head(id, true).unwrap();
    }
    assert_eq!(w.update_head(id, true).unwrap(), HeadAction::AppendDropOldest);
    w.expire(id.slot as usize, MAX_RIBBON_POINTS as u32);
    assert_eq!(w.update_head(id, false).unwrap(), HeadAction::Restart);
    assert_eq!(w.slot(id.slot as usize).points, 1);
}

#[test]
fn a_reused_slot_refuses_the_old_handle() {
    let mut w = RibbonWorld::new();
    let old = w.start().unwrap();
    w.stop(old).unwrap();
    assert!(w.expire(old.slot as usize, 1));
    let new = w.start().unwrap();
    assert_eq!(new.slot, old.slot);
    assert_ne!(new.generation, old.generation);
    assert!(w.update_head(old, true).is_err());
    assert!(w.update_head(new, true).is_ok());
    w.clear();
    assert_eq!(w.live_count(), 0);
    assert!(w.stop(new).is_err());
}
