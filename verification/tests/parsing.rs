use raytracer::colour::Colour;
use raytracer::fixed::SCALE;
use raytracer::parse::Vec3Parser;
use raytracer::pixel::RGB;
use raytracer::sampler::Sampler;
use raytracer::stock::{generate_random_spheres, StockScene};

#[test]
fn parses_integer_triples() {
    let v = Vec3Parser.parse("1,2,3").expect("a plain triple parses");
    assert_eq!((v.x(), v.y(), v.z()), (SCALE, 2 * SCALE, 3 * SCALE));
}

#[test]
fn parses_signs_and_fractions() {
    let v = Vec3Parser.parse("-2.5,0.25,+4").expect("signs and fractions parse");
    assert_eq!((v.x(), v.y(), v.z()), (-(2 * SCALE + SCALE / 2), SCALE / 4, 4 * SCALE));
    let w = Vec3Parser.parse(".5,0.,-0").expect("bare dots parse");
    assert_eq!((w.x(), w.y(), w.z()), (SCALE / 2, 0, 0));
}

#[test]
fn fraction_truncates_to_fixed_point_precision() {
    // 0.1 is not representable: 0.1 * 65536 = 6553.6, truncated to 6553.
    let v = Vec3Parser.parse("0.1,0,0").unwrap();
    assert_eq!(v.x(), 6553);
}

#[test]
fn rejects_malformed_triples() {
    assert!(Vec3Parser.parse("").is_none());
    assert!(Vec3Parser.parse("1,2").is_none());
    assert!(Vec3Parser.parse("1,2,3,4").is_none());
    assert!(Vec3Parser.parse("1,2,x").is_none());
    assert!(Vec3Parser.parse("1,2,").is_none());
    assert!(Vec3Parser.parse("1,2,3.4.5").is_none());
    assert!(Vec3Parser.parse("1,2,-").is_none());
    assert!(Vec3Parser.parse("1,2,.").is_none());
    // The integer part must stay within the coordinate range.
    assert!(Vec3Parser.parse("1,2,40000").is_none());
}

#[test]
fn rgb_quantizes_and_saturates() {
    let mid = RGB::from(Colour::new(SCALE / 2, 0, SCALE));
    assert_eq!(mid.0, [128, 0, 255]);
    let clamped = RGB::from(Colour::new(-SCALE, 2 * SCALE, SCALE - 1));
    assert_eq!(clamped.0, [0, 255, 255]);
    let (r, g, b) = mid.bytes();
    assert_eq!((r, g, b), (128, 0, 255));
}

#[test]
fn stock_scene_has_the_fixed_furniture() {
    let mut s = Sampler::new(2024);
    let geometries = generate_random_spheres(&mut s);
    // Ground first, background last, three large spheres before it, and
    // some number of small grid spheres in between.
    assert!(geometries.len() >= 5);
    let n = geometries.len();
    assert!(matches!(
        geometries[0].material,
        raytracer::material::Material::Lambertian { .. }
    ));
    assert!(matches!(
        geometries[n - 1].shape,
        raytracer::shape::Shape::Background
    ));
    assert!(matches!(
        geometries[n - 2].material,
        raytracer::material::Material::Metal { .. }
    ));
    assert!(matches!(
        geometries[n - 4].material,
        raytracer::material::Material::Dielectric { .. }
    ));
    // The grid is at most 22 x 22 cells.
    assert!(n <= 5 + 484);
}

#[test]
fn stock_scene_is_seed_deterministic() {
    let mut a = Sampler::new(7);
    let mut b = Sampler::new(7);
    let ga = StockScene::RandomSpheres.generate(&mut a);
    let gb = StockScene::RandomSpheres.generate(&mut b);
    assert_eq!(ga.len(), gb.len());
    assert_eq!(a.state, b.state);
    let mut c = Sampler::new(8);
    let gc = StockScene::RandomSpheres.generate(&mut c);
    // A different seed jitters the sphere centres differently.
    assert!(ga.len() != gc.len() || a.state != c.state);
}
