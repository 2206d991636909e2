use voxygen::anim::{ShootAnimation, ShootVariant};

#[test]
fn fire_rain_has_its_own_pose() {
    assert_eq!(
        ShootAnimation::variant(Some("common.abilities.custom.birdlargefire.firerain")),
        ShootVariant::FireRain
    );
    assert_eq!(ShootAnimation::variant(Some("common.abilities.custom.birdlargefire.fireball")), ShootVariant::Default);
    assert_eq!(ShootAnimation::variant(None), ShootVariant::Default);
}
