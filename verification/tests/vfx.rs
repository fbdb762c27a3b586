use engine::entities::EntityRegistry;
use engine::spaces::SpaceId;
use engine::vfx::{palette, EffectHandle, EffectTable, Srgb8, VfxPalette, VisualKind, MAX_ACTIVE_EFFECTS};
use engine::world::EntityId;

// A built effect here is the list of entities its recipe spawned; cleaning
// it up despawns them.
fn build(world: &mut EntityRegistry<()>, layers: usize) -> Vec<EntityId> {
    (0..layers).map(|_| world.spawn_built(SpaceId(0))).collect()
}

fn cleanup(world: &mut EntityRegistry<()>, effect: Vec<EntityId>) {
    for id in effect {
        world.despawn(id);
    }
}

#[test]
fn lifecycle_cleanup_and_stale_handles() {
    let mut w: EntityRegistry<()> = EntityRegistry::new();
    let base = w.entity_count();
    let mut v: EffectTable<Vec<EntityId>> = EffectTable::new();
    v.check_capacity().unwrap();
    let effect = build(&mut w, 3);
    let h = v.insert_built(effect).unwrap();
    assert!(w.entity_count() > base);
    // 1.1 s into a 1 s effect: it has finished and is cleaned up.
    let finished = v.interrupt(h).unwrap();
    cleanup(&mut w, finished);
    assert_eq!(v.active_count(), 0);
    assert_eq!(w.entity_count(), base);
    assert!(v.interrupt(h).is_err());
}

#[test]
fn capacity_of_active_effects_is_loud() {
    let mut v: EffectTable<u8> = EffectTable::new();
    for i in 0..MAX_ACTIVE_EFFECTS {
        assert_eq!(v.insert_built(0).unwrap(), EffectHandle(i as u64 + 1));
    }
    let err = v.check_capacity().unwrap_err();
    assert!(matches!(err, engine::error::EngineError::ResourceLimit(ref m) if m == "active VFX capacity (16) exhausted"));
    assert!(v.insert_built(0).is_err());
    v.interrupt(EffectHandle(3)).unwrap();
    assert_eq!(v.insert_built(0).unwrap(), EffectHandle(17));
}

#[test]
fn a_restored_effect_keeps_its_handle_and_a_reset_clears_all() {
    let mut v: EffectTable<u8> = EffectTable::new();
    let a = v.insert_built(1).unwrap();
    let b = v.insert_built(2).unwrap();
    let e = v.interrupt(a).unwrap();
    assert_eq!(e, 1);
    v.restore(a, e).unwrap();
    assert!(v.is_active(a) && v.is_active(b));
    assert!(v.restore(EffectHandle(9), 0).is_err());
    assert_eq!(v.handles(), vec![b, a]);
    let all = v.take_all();
    assert_eq!(all.len(), 2);
    assert_eq!(v.active_count(), 0);
    v.set_paused(true);
    assert!(v.is_paused());
}

#[test]
fn each_kind_has_its_palette() {
    assert_eq!(palette(VisualKind::Fire), VfxPalette::fire());
    assert_eq!(
        palette(VisualKind::Poison),
        VfxPalette {
            primary: Srgb8 { r: 35, g: 180, b: 45 },
            secondary: Srgb8 { r: 130, g: 240, b: 40 },
            accent: Srgb8 { r: 220, g: 255, b: 80 },
        }
    );
    assert_eq!(palette(VisualKind::Frost).accent, Srgb8 { r: 255, g: 255, b: 255 });
}
