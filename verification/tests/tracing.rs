use raytracer::camera::{Camera, CameraConfig, CameraLens};
use raytracer::colour::Colour;
use raytracer::fixed::SCALE;
use raytracer::geometry::Geometry;
use raytracer::material::Material;
use raytracer::ray::Ray;
use raytracer::sampler::Sampler;
use raytracer::scene::Scene;
use raytracer::shape::Shape;
use raytracer::vec::Vec3;

fn plain_camera() -> Camera {
    CameraConfig::Orthogonal {
        look_from: Vec3::new((0, 0, 0)),
        look_at: Vec3::new((0, 0, -SCALE)),
        up: Vec3::new((0, SCALE, 0)),
        fov_degrees: 90 * SCALE,
        defocus_angle: 0,
        focus_dist: SCALE,
        image_width: 16,
        image_height: 16,
    }
    .into_camera()
}

fn forward_ray() -> Ray {
    Ray {
        origin: Vec3::new((0, 0, 0)),
        direction: Vec3::new((0, 0, -SCALE)),
    }
}

#[test]
fn sphere_hit_lands_on_the_surface() {
    // Unit sphere three units ahead; ray from the origin.
    let sphere = Shape::Sphere {
        centre: Vec3::new((0, 0, -3 * SCALE)),
        radius: SCALE,
    };
    let ray = forward_ray();
    let hit = sphere.hit_test(&ray, 66, raytracer::ray::HORIZON + 1);
    let (t, normal, front) = hit.expect("the ray aims straight at the sphere");
    assert_eq!(t, 2 * SCALE);
    assert!(front);
    // The reported point sits on the sphere: |point - centre| == radius
    // up to fixed-point rounding (P1 on concrete values).
    let point = ray.at(t);
    let off = point.sub(Vec3::new((0, 0, -3 * SCALE))).length();
    assert!((off - SCALE).abs() <= 4, "surface offset was {off}");
    // The normal faces back along the ray.
    assert_eq!((normal.x(), normal.y(), normal.z()), (0, 0, SCALE));
}

#[test]
fn sphere_miss_reports_nothing() {
    let sphere = Shape::Sphere {
        centre: Vec3::new((10 * SCALE, 0, -3 * SCALE)),
        radius: SCALE,
    };
    assert!(sphere
        .hit_test(&forward_ray(), 66, raytracer::ray::HORIZON + 1)
        .is_none());
}

#[test]
fn background_hits_at_the_horizon() {
    let hit = Shape::Background.hit_test(&forward_ray(), 66, raytracer::ray::HORIZON + 1);
    let (t, _, _) = hit.expect("the background is always struck");
    assert_eq!(t, raytracer::ray::HORIZON);
}

#[test]
fn closest_geometry_wins() {
    let near = Geometry {
        shape: Shape::Sphere { centre: Vec3::new((0, 0, -3 * SCALE)), radius: SCALE },
        material: Material::SolidColour { colour: Colour::new(SCALE, 0, 0) },
    };
    let far = Geometry {
        shape: Shape::Sphere { centre: Vec3::new((0, 0, -8 * SCALE)), radius: SCALE },
        material: Material::SolidColour { colour: Colour::new(0, SCALE, 0) },
    };
    let scene = Scene { camera: plain_camera(), geometries: vec![far, near] };
    let hit = scene.hit_test(&forward_ray()).expect("a sphere is ahead");
    assert_eq!(hit.t, 2 * SCALE);
    assert!(matches!(hit.material, Material::SolidColour { colour } if colour.r() == SCALE));
}

#[test]
fn tie_break_picks_the_earlier_geometry() {
    // Two spheres struck at exactly the same distance: the earlier one
    // in the list supplies the hit (P7).
    let red = Geometry {
        shape: Shape::Sphere { centre: Vec3::new((0, 0, -3 * SCALE)), radius: SCALE },
        material: Material::SolidColour { colour: Colour::new(SCALE, 0, 0) },
    };
    let green = Geometry {
        shape: Shape::Sphere { centre: Vec3::new((0, 0, -3 * SCALE)), radius: SCALE },
        material: Material::SolidColour { colour: Colour::new(0, SCALE, 0) },
    };
    let scene = Scene { camera: plain_camera(), geometries: vec![red, green] };
    let hit = scene.hit_test(&forward_ray()).unwrap();
    assert!(matches!(hit.material, Material::SolidColour { colour } if colour.r() == SCALE));
    let swapped = Scene { camera: plain_camera(), geometries: vec![green, red] };
    let hit2 = swapped.hit_test(&forward_ray()).unwrap();
    assert!(matches!(hit2.material, Material::SolidColour { colour } if colour.g() == SCALE));
}

#[test]
fn solid_colour_returns_exactly_its_colour() {
    // P5: a direct hit on a solid colour is that colour, exactly, with
    // no recursion and no randomness drawn.
    let c = Colour::new(12345, 54321, 9999);
    let scene = Scene {
        camera: plain_camera(),
        geometries: vec![Geometry {
            shape: Shape::Sphere { centre: Vec3::new((0, 0, -3 * SCALE)), radius: 2 * SCALE },
            material: Material::SolidColour { colour: c },
        }],
    };
    let mut s = Sampler::new(5);
    let before = s.state;
    let got = scene.ray_colour(&forward_ray(), 10, &mut s);
    assert_eq!((got.r(), got.g(), got.b()), (c.r(), c.g(), c.b()));
    assert_eq!(s.state, before, "no randomness may be drawn");
}

#[test]
fn missing_everything_yields_the_magenta_sentinel() {
    let scene = Scene { camera: plain_camera(), geometries: vec![] };
    let mut s = Sampler::new(5);
    let got = scene.ray_colour(&forward_ray(), 10, &mut s);
    assert_eq!((got.r(), got.g(), got.b()), (SCALE, 0, SCALE));
}

#[test]
fn background_gradient_has_the_documented_endpoints() {
    // P6: straight down is sky blue (0.5, 0.7, 1.0); straight up is white.
    let scene = Scene {
        camera: plain_camera(),
        geometries: vec![Geometry {
            shape: Shape::Background,
            material: Material::ScreenSpaceGradient,
        }],
    };
    let mut s = Sampler::new(5);
    let down = Ray { origin: Vec3::new((0, 0, 0)), direction: Vec3::new((0, -SCALE, 0)) };
    let up = Ray { origin: Vec3::new((0, 0, 0)), direction: Vec3::new((0, SCALE, 0)) };
    let bottom = scene.ray_colour(&down, 10, &mut s);
    assert_eq!((bottom.r(), bottom.g(), bottom.b()), (32768, 45875, 65536));
    let top = scene.ray_colour(&up, 10, &mut s);
    assert_eq!((top.r(), top.g(), top.b()), (SCALE, SCALE, SCALE));
}

#[test]
fn background_gradient_ignores_horizontal_direction() {
    // Two rays with mirrored horizontal components but the same vertical
    // alignment see the same sky.
    let scene = Scene {
        camera: plain_camera(),
        geometries: vec![Geometry {
            shape: Shape::Background,
            material: Material::ScreenSpaceGradient,
        }],
    };
    let mut s = Sampler::new(5);
    let a = Ray { origin: Vec3::new((0, 0, 0)), direction: Vec3::new((SCALE, 2 * SCALE, -SCALE)) };
    let b = Ray { origin: Vec3::new((0, 0, 0)), direction: Vec3::new((-SCALE, 2 * SCALE, SCALE)) };
    let ca = scene.ray_colour(&a, 10, &mut s);
    let cb = scene.ray_colour(&b, 10, &mut s);
    assert_eq!((ca.r(), ca.g(), ca.b()), (cb.r(), cb.g(), cb.b()));
}

#[test]
fn exhausted_bounce_budget_scatters_to_black() {
    // P8: at depth zero, diffuse, metal and glass all come back black.
    let materials = [
        Material::Lambertian { colour: Colour::new(SCALE, SCALE, SCALE), albedo: SCALE },
        Material::Metal { tint: Colour::new(SCALE, SCALE, SCALE), scatter: 0 },
        Material::Dielectric { ior: 98304 },
    ];
    for material in materials {
        let scene = Scene {
            camera: plain_camera(),
            geometries: vec![Geometry {
                shape: Shape::Sphere {
                    centre: Vec3::new((0, 0, -3 * SCALE)),
                    radius: SCALE,
                },
                material,
            }],
        };
        let mut s = Sampler::new(5);
        let got = scene.ray_colour(&forward_ray(), 0, &mut s);
        assert_eq!((got.r(), got.g(), got.b()), (0, 0, 0));
    }
}

#[test]
fn render_pixel_is_reproducible_from_its_seed() {
    // P4: same scene, coordinate, counts and seed give the same pixel.
    let scene = Scene {
        camera: plain_camera(),
        geometries: vec![
            Geometry {
                shape: Shape::Sphere { centre: Vec3::new((0, 0, -3 * SCALE)), radius: SCALE },
                material: Material::Lambertian {
                    colour: Colour::new(45875, 29491, 19661),
                    albedo: SCALE / 2,
                },
            },
            Geometry { shape: Shape::Background, material: Material::ScreenSpaceGradient },
        ],
    };
    let mut s1 = Sampler::new(99);
    let mut s2 = Sampler::new(99);
    let a = scene.render_pixel((7, 9), 8, 10, &mut s1);
    let b = scene.render_pixel((7, 9), 8, 10, &mut s2);
    assert_eq!((a.r(), a.g(), a.b()), (b.r(), b.g(), b.b()));
    assert_eq!(s1.state, s2.state);
}

#[test]
fn render_pixel_averages_a_flat_scene_exactly() {
    // A solid colour filling the frame: every sample is the same, so the
    // average is exact whatever the sample count.
    let c = Colour::new(5000, 6000, 7000);
    let scene = Scene {
        camera: plain_camera(),
        geometries: vec![Geometry {
            shape: Shape::Sphere {
                centre: Vec3::new((0, 0, -4 * SCALE)),
                radius: 3 * SCALE,
            },
            material: Material::SolidColour { colour: c },
        }],
    };
    let mut s = Sampler::new(3);
    let got = scene.render_pixel((8, 8), 7, 10, &mut s);
    assert_eq!((got.r(), got.g(), got.b()), (c.r(), c.g(), c.b()));
}

#[test]
fn camera_maps_the_centre_pixel_straight_ahead() {
    let cam = plain_camera();
    assert!(matches!(cam.lens, CameraLens::Orthogonal { .. }));
    let mut s = Sampler::new(1);
    let ray = cam.screen_to_world((8, 8), &mut s);
    // Aimed down the negative z axis; the centre pixel's direction has
    // no more than half a pixel of transverse offset.
    assert!(ray.direction.z() < 0);
    let half_pixel = 2 * SCALE / 16;
    assert!(ray.direction.x().abs() <= half_pixel);
    assert!(ray.direction.y().abs() <= half_pixel);
    // A 90 degree field of view at focus one spans a viewport two units
    // tall: the series tangent puts each of 16 pixel steps at an eighth
    // of a unit, to within a small rounding allowance.
    match cam.lens {
        CameraLens::Orthogonal { pixel_delta_v, .. } => {
            assert!((pixel_delta_v.y().abs() - SCALE / 8).abs() <= 16);
        }
    }
}

#[test]
fn metal_reflects_and_glass_refracts_somewhere() {
    // A smoke test that the scattering materials actually trace on:
    // a mirror sphere over a gradient background must not be black.
    let scene = Scene {
        camera: plain_camera(),
        geometries: vec![
            Geometry {
                shape: Shape::Sphere { centre: Vec3::new((0, 0, -3 * SCALE)), radius: SCALE },
                material: Material::Metal {
                    tint: Colour::new(SCALE, SCALE, SCALE),
                    scatter: 0,
                },
            },
            Geometry { shape: Shape::Background, material: Material::ScreenSpaceGradient },
        ],
    };
    let mut s = Sampler::new(17);
    let got = scene.ray_colour(&forward_ray(), 10, &mut s);
    assert!(got.r() > 0 && got.g() > 0 && got.b() > 0);
}
