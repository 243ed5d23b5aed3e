use pathtracer::aabb::Vector3;
use pathtracer::constant_medium::{clip_segment, scatters_inside};
use pathtracer::integrator::{may_scatter, next_step, Step, MAX_DEPTH};
use pathtracer::material::{dielectric_reflects, Material, ScatterRecord};
use pathtracer::pdf::{component_for, mixture_component, pick_light};
use pathtracer::texture::texel_index;

fn specular() -> Option<ScatterRecord> {
    Some(ScatterRecord { is_specular: true, attenuation: Vector3::new(1, 1, 1) })
}

fn diffuse() -> Option<ScatterRecord> {
    Some(ScatterRecord { is_specular: false, attenuation: Vector3::new(1, 1, 1) })
}

#[test]
fn depth_limit_is_fifty() {
    assert_eq!(MAX_DEPTH, 50);
    assert!(may_scatter(49, MAX_DEPTH));
    assert!(!may_scatter(50, MAX_DEPTH));
    assert!(!may_scatter(51, MAX_DEPTH));
}

#[test]
fn miss_shows_background() {
    assert_eq!(next_step(false, 0, 50, &diffuse()), Step::Background);
    assert_eq!(next_step(false, 50, 50, &specular()), Step::Background);
}

#[test]
fn path_ends_at_depth_limit() {
    assert_eq!(next_step(true, 50, 50, &diffuse()), Step::Emitted);
    assert_eq!(next_step(true, 50, 50, &specular()), Step::Emitted);
    assert_eq!(next_step(true, 0, 0, &specular()), Step::Emitted);
}

#[test]
fn path_ends_when_nothing_scatters() {
    assert_eq!(next_step(true, 3, 50, &None), Step::Emitted);
}

#[test]
fn path_continues_as_scattered() {
    assert_eq!(next_step(true, 0, 50, &specular()), Step::Specular);
    assert_eq!(next_step(true, 49, 50, &diffuse()), Step::Mixture);
}

#[test]
fn no_path_outlives_the_limit() {
    let mut depth = 0;
    while next_step(true, depth, MAX_DEPTH, &specular()) == Step::Specular {
        depth += 1;
    }
    assert_eq!(depth, 50);
}

#[test]
fn scatter_table() {
    let texture = Vector3::new(10, 20, 30);
    let white = Vector3::new(99, 99, 99);
    let all = [
        Material::Lambertian,
        Material::Metal,
        Material::Dielectric,
        Material::DiffuseLight,
        Material::Isotropic,
    ];
    // (scatters when leaving, scatters when entering, specular, attenuation)
    let expected = [
        (true, true, false, [10, 20, 30]),
        (true, false, true, [10, 20, 30]),
        (true, true, true, [99, 99, 99]),
        (false, false, true, [0, 0, 0]),
        (true, true, true, [10, 20, 30]),
    ];
    for (m, e) in all.iter().zip(expected.iter()) {
        let leaving = m.scatter(texture, white, true);
        let entering = m.scatter(texture, white, false);
        assert_eq!(leaving.is_some(), e.0);
        assert_eq!(entering.is_some(), e.1);
        for rec in [leaving, entering].iter().flatten() {
            assert_eq!(rec.is_specular, e.2);
            assert_eq!(rec.attenuation.e, e.3);
        }
    }
}

#[test]
fn lambertian_attenuation_is_the_texture_value() {
    for value in [[0, 0, 0], [1, 2, 3], [i64::MAX, i64::MIN, 7]] {
        let texture = Vector3::new(value[0], value[1], value[2]);
        let rec = Material::Lambertian.scatter(texture, Vector3::new(5, 5, 5), false).unwrap();
        assert_eq!(rec.attenuation.e, value);
        assert!(!rec.is_specular);
    }
}

#[test]
fn only_lights_emit_and_only_from_the_front() {
    let texture = Vector3::new(4, 4, 4);
    let black = Vector3::new(0, 0, 0);
    assert_eq!(Material::DiffuseLight.emitted(texture, black, true).e, [4, 4, 4]);
    assert_eq!(Material::DiffuseLight.emitted(texture, black, false).e, [0, 0, 0]);
    assert_eq!(Material::Lambertian.emitted(texture, black, true).e, [0, 0, 0]);
    assert_eq!(Material::Metal.emitted(texture, black, true).e, [0, 0, 0]);
    assert_eq!(Material::Dielectric.emitted(texture, black, true).e, [0, 0, 0]);
    assert_eq!(Material::Isotropic.emitted(texture, black, true).e, [0, 0, 0]);
}

#[test]
fn medium_segment_is_cut_to_the_window() {
    assert_eq!(clip_segment(2, 9, 0, 100, 0), Some((2, 9)));
    assert_eq!(clip_segment(2, 9, 4, 7, 0), Some((4, 7)));
    assert_eq!(clip_segment(-8, 9, -20, 100, 0), Some((0, 9)));
    assert_eq!(clip_segment(2, 9, 9, 100, 0), None);
    assert_eq!(clip_segment(2, 9, 0, 2, 0), None);
    assert_eq!(clip_segment(5, 5, 0, 100, 0), None);
    assert_eq!(clip_segment(-9, -2, -20, 100, 0), Some((0, -2)));
}

#[test]
fn medium_scatters_when_flight_is_shorter() {
    assert!(scatters_inside(3, 4));
    assert!(!scatters_inside(4, 4));
    assert!(!scatters_inside(5, 4));
}

#[test]
fn only_lambertian_has_a_scattering_density() {
    assert!(Material::Lambertian.has_scattering_pdf());
    assert!(!Material::Metal.has_scattering_pdf());
    assert!(!Material::DiffuseLight.has_scattering_pdf());
}

#[test]
fn dielectric_falls_back_to_reflection() {
    assert!(dielectric_reflects(false, false));
    assert!(dielectric_reflects(false, true));
    assert!(dielectric_reflects(true, true));
    assert!(!dielectric_reflects(true, false));
}

#[test]
fn coin_selects_a_component() {
    assert_eq!(component_for(true), 0);
    assert_eq!(component_for(false), 1);
    let mut seen = [false; 2];
    for _ in 0..200 {
        seen[mixture_component()] = true;
    }
    assert!(seen[0] && seen[1]);
}

#[test]
fn picked_light_is_in_the_list() {
    assert_eq!(pick_light(0), None);
    assert_eq!(pick_light(1), Some(0));
    for count in 1..20 {
        for _ in 0..20 {
            assert!(pick_light(count).unwrap() < count);
        }
    }
}

#[test]
fn texel_coordinate_is_clamped() {
    assert_eq!(texel_index(-5, 10), 0);
    assert_eq!(texel_index(0, 10), 0);
    assert_eq!(texel_index(7, 10), 7);
    assert_eq!(texel_index(9, 10), 9);
    assert_eq!(texel_index(10, 10), 9);
    assert_eq!(texel_index(i64::MAX, 1), 0);
    assert_eq!(texel_index(i64::MIN, u32::MAX), 0);
    assert_eq!(texel_index(i64::MAX, u32::MAX), u32::MAX - 1);
}
