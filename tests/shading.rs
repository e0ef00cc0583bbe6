use im_already_raytracer::{shade_step, Reflection, RenderOptions, ShadeStep, SurfaceFlags};

const MATTE: SurfaceFlags = SurfaceFlags { specular: false, translucent: false, rough: false };
const GLOSSY: SurfaceFlags = SurfaceFlags { specular: true, translucent: false, rough: true };
const MIRROR: SurfaceFlags = SurfaceFlags { specular: true, translucent: false, rough: false };
const GLASS: SurfaceFlags = SurfaceFlags { specular: true, translucent: true, rough: false };

fn options(use_randomness: bool) -> RenderOptions {
    RenderOptions {
        multisampling: 1,
        width: 4,
        height: 4,
        max_ray_depth: 3,
        soft_shadow_resolution: 1,
        use_randomness,
        clamp_colors: true,
    }
}

#[test]
fn spent_depth_is_black() {
    let step = shade_step(&options(false), 3, &vec![Some(1)], &vec![], &vec![MATTE]);
    assert_eq!(step, ShadeStep::Black);
}

#[test]
fn missing_every_shape_is_black() {
    let step = shade_step(&options(false), 0, &vec![None, None], &vec![Some(1)], &vec![MATTE, MATTE]);
    assert_eq!(step, ShadeStep::Black);
}

#[test]
fn nearer_light_is_seen() {
    let step = shade_step(&options(false), 0, &vec![Some(50)], &vec![None, Some(20)], &vec![MATTE]);
    assert_eq!(step, ShadeStep::Light { light: 1 });
}

#[test]
fn light_at_same_distance_is_seen() {
    let step = shade_step(&options(false), 1, &vec![Some(50)], &vec![Some(50)], &vec![MATTE]);
    assert_eq!(step, ShadeStep::Light { light: 0 });
}

#[test]
fn farther_light_leaves_the_surface() {
    let step = shade_step(
        &options(false),
        0,
        &vec![Some(50), Some(40)],
        &vec![Some(60)],
        &vec![MATTE, MATTE],
    );
    assert_eq!(step, ShadeStep::Surface { shape: 1, reflection: None, refraction: false });
}

#[test]
fn rough_reflection_is_perturbed_only_with_randomness() {
    let shapes = vec![Some(10)];
    let step = shade_step(&options(true), 0, &shapes, &vec![], &vec![GLOSSY]);
    assert_eq!(
        step,
        ShadeStep::Surface { shape: 0, reflection: Some(Reflection::Perturbed), refraction: false }
    );
    let step = shade_step(&options(false), 0, &shapes, &vec![], &vec![GLOSSY]);
    assert_eq!(
        step,
        ShadeStep::Surface { shape: 0, reflection: Some(Reflection::Mirror), refraction: false }
    );
    let step = shade_step(&options(true), 0, &shapes, &vec![], &vec![MIRROR]);
    assert_eq!(
        step,
        ShadeStep::Surface { shape: 0, reflection: Some(Reflection::Mirror), refraction: false }
    );
}

#[test]
fn translucent_surface_refracts() {
    let step = shade_step(&options(true), 2, &vec![None, Some(7)], &vec![None], &vec![MATTE, GLASS]);
    assert_eq!(
        step,
        ShadeStep::Surface { shape: 1, reflection: Some(Reflection::Mirror), refraction: true }
    );
}
