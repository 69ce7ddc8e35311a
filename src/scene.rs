//! A random scene: a ground sphere, a grid of small spheres with random
//! materials, and three large spheres.
use vstd::prelude::*;
use crate::fixed::{lemma_mul_bound, lemma_product_le, mul_fixed, SCALE};
use crate::hitable::HitableList;
use crate::material::{is_color, Dielectric, Lambertian, Material, Metal};
use crate::random::random_fraction;
use crate::sphere::Sphere;
use crate::vec3::Vec3;

verus! {

/// Radius and height of the center of each small sphere (0.2).
pub const SMALL_RADIUS: i64 = 13107;

/// Refractive index of the glass spheres (1.5).
pub const GLASS_INDEX: i64 = 98304;

/// Squared distance (0.9 squared, in squared fixed-point units) that a small
/// sphere keeps from the point (4, 0.2, 0).
pub const CLEARANCE_SQ: i128 = 3478923509;

pub open spec fn ground() -> Sphere {
    Sphere {
        center: Vec3 { x: 0, y: (-65536000) as i64, z: 0 },
        radius: 65536000,
        material: Material::Lambertian(Lambertian { albedo: Vec3 { x: 32768, y: 32768, z: 32768 } }),
    }
}

/// A small sphere of the grid: radius 0.2, resting on the ground, and more
/// than 0.9 away from the point (4, 0.2, 0).
pub open spec fn small_sphere(s: Sphere) -> bool {
    &&& s.wf()
    &&& s.radius == SMALL_RADIUS
    &&& s.center.y == SMALL_RADIUS
    &&& (s.center.x - 4 * SCALE) * (s.center.x - 4 * SCALE) + s.center.z * s.center.z > CLEARANCE_SQ
    &&& -11 <= s.center.x / SCALE < 11
    &&& -11 <= s.center.z / SCALE < 11
    &&& s.center.x % SCALE < CELL_SPAN
    &&& s.center.z % SCALE < CELL_SPAN
    &&& small_material(s.material)
}

/// Part of each unit cell that a small sphere's center may fall in (0.9).
pub const CELL_SPAN: i64 = 58982;

/// The grid cell `(a, b)` holding a small sphere, numbered row by row.
pub open spec fn cell_of(s: Sphere) -> int {
    (s.center.x / SCALE + 11) * 22 + (s.center.z / SCALE + 11)
}

/// The materials of the small spheres: any diffuse color, metal with every
/// channel of its albedo in `[0.5, 1]` and fuzz at most 0.5, or glass of
/// index 1.5.
pub open spec fn small_material(m: Material) -> bool {
    match m {
        Material::Lambertian(l) => is_color(l.albedo),
        Material::Metal(m) => {
            &&& SCALE / 2 <= m.albedo.x <= SCALE
            &&& SCALE / 2 <= m.albedo.y <= SCALE
            &&& SCALE / 2 <= m.albedo.z <= SCALE
            &&& 0 <= m.fuzz <= SCALE / 2
        },
        Material::Dielectric(d) => d.ref_idx == GLASS_INDEX,
    }
}

fn ground_sphere() -> (r: Sphere)
    ensures
        r == ground(),
        r.wf(),
{
    let grey = Vec3::new(32768, 32768, 32768);
    Sphere::new(Vec3::new(0, -65536000, 0), 65536000, Material::Lambertian(Lambertian::new(grey)))
}

/// The product of two uniform draws from `[0, 1)`.
fn random_product() -> (r: i64)
    ensures
        0 <= r <= SCALE,
{
    let a = random_fraction();
    let b = random_fraction();
    proof {
        lemma_product_le(a as int, b as int, SCALE as int);
    }
    mul_fixed(a as i128, b as i128) as i64
}

/// A random material: diffuse with probability 0.8, metal with 0.15, glass
/// otherwise.
fn random_material() -> (r: Material)
    ensures
        r.wf(),
        small_material(r),
{
    let choose = random_fraction();
    if choose < 52428 {
        let albedo = Vec3::new(random_product(), random_product(), random_product());
        Material::Lambertian(Lambertian::new(albedo))
    } else if choose < 62259 {
        let x = (SCALE + random_fraction()) / 2;
        let y = (SCALE + random_fraction()) / 2;
        let z = (SCALE + random_fraction()) / 2;
        let fuzz = random_fraction() / 2;
        Material::Metal(Metal::new(Vec3::new(x, y, z), fuzz))
    } else {
        Material::Dielectric(Dielectric::new(GLASS_INDEX))
    }
}

/// The scene: the ground, a small sphere in each unit cell `(a, b)` with
/// `-11 <= a, b < 11` at a random place inside the cell unless it would come
/// within 0.9 of the point (4, 0.2, 0), and three large spheres of glass,
/// diffuse brown and polished metal.
pub fn random_scene() -> (r: HitableList)
    ensures
        r.wf(),
        r.list@.len() >= 4,
        r.list@[0] == ground(),
        r.list@.len() <= 4 + 22 * 22,
        forall|i: int| 1 <= i < r.list@.len() - 3 ==> #[trigger] small_sphere(r.list@[i]),
        forall|i: int, j: int|
            1 <= i < j < r.list@.len() - 3 ==> cell_of(#[trigger] r.list@[i]) < cell_of(#[trigger] r.list@[j]),
        r.list@[r.list@.len() - 3] == (Sphere {
            center: Vec3 { x: 0, y: 65536, z: 0 },
            radius: 65536,
            material: Material::Dielectric(Dielectric { ref_idx: GLASS_INDEX }),
        }),
        r.list@[r.list@.len() - 2] == (Sphere {
            center: Vec3 { x: (-262144) as i64, y: 65536, z: 0 },
            radius: 65536,
            material: Material::Lambertian(Lambertian { albedo: Vec3 { x: 26214, y: 13107, z: 6553 } }),
        }),
        r.list@[r.list@.len() - 1] == (Sphere {
            center: Vec3 { x: 262144, y: 65536, z: 0 },
            radius: 65536,
            material: Material::Metal(Metal { albedo: Vec3 { x: 45875, y: 39321, z: 32768 }, fuzz: 0 }),
        }),
{
    let mut world = HitableList::new(Vec::new());
    world.push(ground_sphere());
    let mut a: i64 = -11;
    while a < 11
        invariant
            -11 <= a <= 11,
            world.wf(),
            world.list@.len() >= 1,
            world.list@.len() <= 1 + (a + 11) * 22,
            world.list@[0] == ground(),
            forall|i: int| 1 <= i < world.list@.len() ==> #[trigger] small_sphere(world.list@[i]),
            forall|i: int| 1 <= i < world.list@.len() ==> cell_of(#[trigger] world.list@[i]) < (a + 11) * 22,
            forall|i: int, j: int|
                1 <= i < j < world.list@.len() ==> cell_of(#[trigger] world.list@[i]) < cell_of(
                    #[trigger] world.list@[j],
                ),
        decreases 11 - a,
    {
        let mut b: i64 = -11;
        while b < 11
            invariant
                -11 <= a < 11,
                -11 <= b <= 11,
                world.wf(),
                world.list@.len() >= 1,
                world.list@.len() <= 1 + (a + 11) * 22 + (b + 11),
                world.list@[0] == ground(),
                forall|i: int| 1 <= i < world.list@.len() ==> #[trigger] small_sphere(world.list@[i]),
                forall|i: int|
                    1 <= i < world.list@.len() ==> cell_of(#[trigger] world.list@[i]) < (a + 11) * 22 + (b
                        + 11),
                forall|i: int, j: int|
                    1 <= i < j < world.list@.len() ==> cell_of(#[trigger] world.list@[i]) < cell_of(
                        #[trigger] world.list@[j],
                    ),
            decreases 11 - b,
        {
            let material = random_material();
            let gx = random_fraction() * 9 / 10;
            let gz = random_fraction() * 9 / 10;
            let cx = a * SCALE + gx;
            let cz = b * SCALE + gz;
            proof {
                vstd::arithmetic::div_mod::lemma_fundamental_div_mod_converse(
                    cx as int,
                    SCALE as int,
                    a as int,
                    gx as int,
                );
                vstd::arithmetic::div_mod::lemma_fundamental_div_mod_converse(
                    cz as int,
                    SCALE as int,
                    b as int,
                    gz as int,
                );
            }
            let dx = (cx - 4 * SCALE) as i128;
            let dz = cz as i128;
            proof {
                lemma_mul_bound(dx as int, dx as int, 0x100_0000, 0x100_0000);
                lemma_mul_bound(dz as int, dz as int, 0x100_0000, 0x100_0000);
            }
            if dx * dx + dz * dz > CLEARANCE_SQ {
                let s = Sphere::new(Vec3::new(cx, SMALL_RADIUS, cz), SMALL_RADIUS, material);
                let ghost before = world.list@;
                world.push(s);
                assert(small_sphere(world.list@[world.list@.len() - 1]));
                assert(cell_of(s) == (a + 11) * 22 + (b + 11));
                assert forall|i: int| 1 <= i < world.list@.len() implies #[trigger] small_sphere(world.list@[i]) by {
                    if i < before.len() {
                        assert(world.list@[i] == before[i]);
                    }
                }
                assert forall|i: int, j: int|
                    1 <= i < j < world.list@.len() implies cell_of(#[trigger] world.list@[i]) < cell_of(
                        #[trigger] world.list@[j],
                    ) by {
                    assert(world.list@[i] == before[i]);
                    if j < before.len() {
                        assert(world.list@[j] == before[j]);
                    }
                }
            }
            b = b + 1;
        }
        a = a + 1;
    }
    let glass = Material::Dielectric(Dielectric::new(GLASS_INDEX));
    world.push(Sphere::new(Vec3::new(0, 65536, 0), 65536, glass));
    let brown = Material::Lambertian(Lambertian::new(Vec3::new(26214, 13107, 6553)));
    world.push(Sphere::new(Vec3::new(-262144, 65536, 0), 65536, brown));
    let polished = Material::Metal(Metal::new(Vec3::new(45875, 39321, 32768), 0));
    world.push(Sphere::new(Vec3::new(262144, 65536, 0), 65536, polished));
    world
}

} // verus!
