use raytrace::{ray_color, Bounce, Lambertian};

// Rays are integers; a color is a per-mille intensity.
fn bounce(ray: u32) -> Bounce<u32, u64> {
    match ray {
        0 => Bounce::Scattered { attenuation: 500, ray: 1 },
        1 => Bounce::Scattered { attenuation: 800, ray: 2 },
        2 => Bounce::Escapes,
        3 => Bounce::Absorbed,
        4 => Bounce::Scattered { attenuation: 900, ray: 4 },
        _ => Bounce::Escapes,
    }
}

fn sky(ray: u32) -> u64 {
    1000 - ray as u64 * 10
}

fn attenuate(a: u64, c: u64) -> u64 {
    a * c / 1000
}

#[test]
fn depth_zero_is_black() {
    for ray in 0..8 {
        assert_eq!(ray_color(ray, 0, 0u64, &bounce, &sky, &attenuate), 0);
    }
}

#[test]
fn escaping_ray_sees_sky() {
    assert_eq!(ray_color(2, 1, 0u64, &bounce, &sky, &attenuate), 980);
    assert_eq!(ray_color(7, 5, 0u64, &bounce, &sky, &attenuate), 930);
}

#[test]
fn escaping_ray_ignores_scene_contents() {
    let everything_absorbs = |ray: u32| if ray == 2 { Bounce::Escapes } else { Bounce::Absorbed };
    assert_eq!(ray_color(2, 3, 0u64, &everything_absorbs, &sky, &attenuate), 980);
}

#[test]
fn absorbed_ray_is_black() {
    assert_eq!(ray_color(3, 10, 0u64, &bounce, &sky, &attenuate), 0);
}

#[test]
fn scattered_rays_are_attenuated() {
    // 500/1000 * 800/1000 * 980
    assert_eq!(ray_color(0, 3, 0u64, &bounce, &sky, &attenuate), 392);
    // one bounce short of the sky
    assert_eq!(ray_color(0, 2, 0u64, &bounce, &sky, &attenuate), 0);
}

#[test]
fn trapped_ray_ends_black() {
    assert_eq!(ray_color(4, 50, 0u64, &bounce, &sky, &attenuate), 0);
    // with a nonzero "black", the bounces it went through show
    assert_eq!(ray_color(4, 3, 1000u64, &bounce, &sky, &attenuate), 729);
}

#[test]
fn lambertian_attenuates_by_albedo() {
    let m = Lambertian::from((0.8f64, 0.6f64, 0.2f64));
    assert_eq!(m.attenuation(), (0.8, 0.6, 0.2));
    assert_eq!(m.albedo, (0.8, 0.6, 0.2));
}
