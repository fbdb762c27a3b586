use engine::shadow::material_casts_shadow;
use engine::texture::{MaterialId, WaterMaterialId};
use engine::world::SurfaceMaterialRef;

#[test]
fn terrain_and_water_materials_do_not_cast() {
    assert!(!material_casts_shadow(Some(SurfaceMaterialRef::Terrain(
        MaterialId(1)
    ))));
    assert!(!material_casts_shadow(Some(SurfaceMaterialRef::Water(
        WaterMaterialId(1)
    ))));
    assert!(material_casts_shadow(None));
}
