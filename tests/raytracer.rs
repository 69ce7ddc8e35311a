use raytracer::camera::Camera;
use raytracer::fixed::{isqrt, SCALE};
use raytracer::hitable::{Hitable, HitableList};
use raytracer::material::{Dielectric, Lambertian, Material, Metal};
use raytracer::random::{cube_point_in_ball, random_fraction, random_point_in_unit_disk, random_point_in_unit_sphere};
use raytracer::ray::Ray;
use raytracer::render::{background_exec, color, sample_pixel, to_byte, MAX_DEPTH, T_MAX, T_MIN};
use raytracer::sphere::Sphere;
use raytracer::vec3::Vec3;

const S: i64 = SCALE;

fn v(x: i64, y: i64, z: i64) -> Vec3 {
    Vec3::new(x, y, z)
}

fn grey() -> Material {
    Material::Lambertian(Lambertian::new(v(S / 2, S / 2, S / 2)))
}

fn two_sphere_world() -> HitableList {
    let mut world = HitableList::new(Vec::new());
    world.push(Sphere::new(v(0, 0, -S), S / 2, grey()));
    world.push(Sphere::new(v(0, -100 * S - S / 2, -S), 100 * S, grey()));
    world
}

#[test]
fn sky_straight_up_is_blue() {
    let world = HitableList::new(Vec::new());
    let ray = Ray::new(v(0, 0, 0), v(0, 3 * S, 0));
    assert_eq!(color(&ray, &world, 0), v(32768, 45875, 65536));
}

#[test]
fn sky_straight_down_is_white() {
    let world = HitableList::new(Vec::new());
    let ray = Ray::new(v(0, 0, 0), v(0, -S, 0));
    assert_eq!(color(&ray, &world, 0), v(S, S, S));
}

#[test]
fn sky_depends_on_height_only() {
    let a = Ray::new(v(0, 0, 0), v(S, S, 0));
    let b = Ray::new(v(5 * S, -2 * S, 7), v(0, S, S));
    assert_eq!(background_exec(&a), background_exec(&b));
    let world = HitableList::new(Vec::new());
    assert_eq!(color(&a, &world, 0), background_exec(&a));
}

#[test]
fn sky_at_horizon_is_white() {
    let ray = Ray::new(v(0, 0, 0), v(S, 0, 0));
    // t = 1/2: halfway between white and blue.
    assert_eq!(background_exec(&ray), v(S - S / 2 + S / 4, S - S / 2 + 22937, S));
}

#[test]
fn sphere_hit_is_translation_covariant() {
    let s1 = Sphere::new(v(0, 0, -S), S / 2, grey());
    let r1 = Ray::new(v(0, 0, 0), v(S / 10, S / 7, -S));
    let off = v(3 * S, -2 * S, 5 * S);
    let s2 = Sphere::new(s1.center.add(&off), S / 2, grey());
    let r2 = Ray::new(r1.o.add(&off), r1.d);
    let h1 = s1.hit(&r1, T_MIN, T_MAX).unwrap();
    let h2 = s2.hit(&r2, T_MIN, T_MAX).unwrap();
    assert_eq!(h1.t, h2.t);
}

#[test]
fn axis_ray_hits_front_face_at_distance_minus_radius() {
    let s = Sphere::new(v(0, 0, 0), S, grey());
    let ray = Ray::new(v(0, 0, 3 * S), v(0, 0, -S));
    let h = s.hit(&ray, T_MIN, T_MAX).unwrap();
    assert_eq!(h.t, 2 * S);
    assert_eq!(h.p, v(0, 0, S));
    assert_eq!(h.normal, v(0, 0, S));
}

#[test]
fn roots_on_the_bounds_are_rejected() {
    let s = Sphere::new(v(0, 0, 0), S, grey());
    let ray = Ray::new(v(0, 0, 3 * S), v(0, 0, -S));
    // The near root is 2, the far root 4.
    assert_eq!(s.hit(&ray, 2 * S, T_MAX).unwrap().t, 4 * S);
    assert!(s.hit(&ray, 0, 2 * S).is_none());
    assert!(s.hit(&ray, 2 * S, 4 * S).is_none());
}

#[test]
fn tangent_ray_misses() {
    let s = Sphere::new(v(0, 0, 0), S, grey());
    let ray = Ray::new(v(S, 0, 3 * S), v(0, 0, -S));
    assert!(s.hit(&ray, T_MIN, T_MAX).is_none());
}

#[test]
fn negative_radius_flips_normal() {
    let s = Sphere::new(v(0, 0, 0), -S, grey());
    let ray = Ray::new(v(0, 0, 3 * S), v(0, 0, -S));
    let h = s.hit(&ray, T_MIN, T_MAX).unwrap();
    assert_eq!(h.normal, v(0, 0, -S));
}

#[test]
fn zero_direction_meets_nothing() {
    let s = Sphere::new(v(0, 0, 0), S, grey());
    let ray = Ray::new(v(0, 0, 3 * S), v(0, 0, 0));
    assert!(s.hit(&ray, T_MIN, T_MAX).is_none());
}

#[test]
fn metal_without_fuzz_does_not_add_energy() {
    let m = Metal::new(v(S, S / 2, 0), 0);
    let ray = Ray::new(v(0, S, S), v(0, -S, -S));
    let hit = Sphere::new(v(0, -S, 0), S, Material::Metal(m)).hit(&ray, T_MIN, T_MAX).unwrap();
    let (scattered, att) = m.scatter(&ray, &hit).unwrap();
    assert_eq!(att, v(S, S / 2, 0));
    assert_eq!(scattered.o, hit.p);
    let incoming = v(S, S, S / 3);
    let out = att.modulate(&incoming);
    assert!(out.x <= incoming.x && out.y <= incoming.y && out.z <= incoming.z);
    assert_eq!(out, v(S, S / 2, 0));
}

#[test]
fn metal_mirror_reflects_about_the_normal() {
    let m = Metal::new(v(S, S, S), 0);
    let ray = Ray::new(v(0, S, S), v(0, -S, -S));
    let hit = Sphere::new(v(0, -100 * S, 0), 100 * S, Material::Metal(m)).hit(&ray, T_MIN, T_MAX).unwrap();
    assert_eq!(hit.normal, v(0, S, 0));
    let (scattered, _) = m.scatter(&ray, &hit).unwrap();
    let d = scattered.d;
    assert!(d.y > 0 && d.z < 0 && d.x == 0);
    assert!((d.y + d.z).abs() <= 2);
}

#[test]
fn metal_absorbs_rays_leaving_into_the_surface() {
    let m = Metal::new(v(S, S, S), 0);
    let ray = Ray::new(v(0, 0, 0), v(0, -S, 0));
    let hit = raytracer::hitable::HitRecord { t: S, p: v(0, -S, 0), normal: v(0, -S, 0), material: Material::Metal(m) };
    assert!(m.scatter(&ray, &hit).is_none());
}

#[test]
fn lambertian_scatters_from_the_hit_point_with_albedo() {
    let l = Lambertian::new(v(S / 4, S / 2, S));
    let ray = Ray::new(v(0, 0, 3 * S), v(0, 0, -S));
    let hit = Sphere::new(v(0, 0, 0), S, Material::Lambertian(l)).hit(&ray, T_MIN, T_MAX).unwrap();
    for _ in 0..100 {
        let (scattered, att) = l.scatter(&ray, &hit).unwrap();
        assert_eq!(att, v(S / 4, S / 2, S));
        assert_eq!(scattered.o, hit.p);
        assert!(scattered.d.z >= 0);
    }
}

#[test]
fn dielectric_is_colorless_and_never_absorbs() {
    let d = Dielectric::new(3 * S / 2);
    let ray = Ray::new(v(0, S / 3, 3 * S), v(0, 0, -S));
    let hit = Sphere::new(v(0, 0, 0), S, Material::Dielectric(d)).hit(&ray, T_MIN, T_MAX).unwrap();
    for _ in 0..100 {
        let (scattered, att) = d.scatter(&ray, &hit).unwrap();
        assert_eq!(att, v(S, S, S));
        assert_eq!(scattered.o, hit.p);
    }
}

#[test]
fn dielectric_head_on_refracts_straight_through_mostly() {
    let d = Dielectric::new(3 * S / 2);
    let ray = Ray::new(v(0, 0, 3 * S), v(0, 0, -S));
    let hit = Sphere::new(v(0, 0, 0), S, Material::Dielectric(d)).hit(&ray, T_MIN, T_MAX).unwrap();
    let mut through = 0;
    for _ in 0..400 {
        let (scattered, _) = d.scatter(&ray, &hit).unwrap();
        if scattered.d.z < 0 {
            through += 1;
        } else {
            assert_eq!(scattered.d, v(0, 0, S));
        }
    }
    // Schlick's reflectance head on is 4%.
    assert!(through > 300);
}

#[test]
fn points_in_unit_sphere_stay_inside() {
    let n = 4000;
    let (mut sx, mut sy, mut sz) = (0i64, 0i64, 0i64);
    for _ in 0..n {
        let p = random_point_in_unit_sphere();
        assert!(p.dot(&p) < (S as i128) * (S as i128));
        sx += p.x;
        sy += p.y;
        sz += p.z;
    }
    // Uniform in the ball: the mean is near the center, and the ball of half
    // the radius holds an eighth of the draws.
    for s in [sx, sy, sz] {
        assert!((s / n).abs() < S / 10);
    }
    let mut half = 0;
    for _ in 0..n {
        let p = random_point_in_unit_sphere();
        if p.dot(&p) < (S as i128) * (S as i128) / 4 {
            half += 1;
        }
    }
    assert!(half > n / 16 && half < n / 4);
}

#[test]
fn points_in_unit_disk_stay_inside() {
    for _ in 0..1000 {
        let p = random_point_in_unit_disk();
        assert_eq!(p.z, 0);
        assert!(p.dot(&p) < (S as i128) * (S as i128));
    }
}

#[test]
fn random_fraction_is_below_one() {
    let mut distinct = std::collections::HashSet::new();
    for _ in 0..1000 {
        let f = random_fraction();
        assert!((0..S).contains(&f));
        distinct.insert(f);
    }
    assert!(distinct.len() > 10);
}

#[test]
fn depth_ceiling_returns_black_on_hit() {
    let world = two_sphere_world();
    let ray = Ray::new(v(0, 0, 0), v(0, 0, -S));
    assert_eq!(color(&ray, &world, MAX_DEPTH), v(0, 0, 0));
    assert_eq!(color(&ray, &world, MAX_DEPTH + 7), v(0, 0, 0));
    let c = color(&ray, &world, 0);
    assert!(c.x <= S / 2 && c.y <= S / 2 && c.z <= S / 2);
}

#[test]
fn depth_ceiling_keeps_the_sky_on_a_miss() {
    let world = two_sphere_world();
    let ray = Ray::new(v(0, 0, 0), v(0, S, 0));
    assert_eq!(color(&ray, &world, MAX_DEPTH), v(32768, 45875, 65536));
}

#[test]
fn image_center_hits_the_small_sphere_head_on() {
    let world = two_sphere_world();
    let camera = Camera::new();
    let ray = camera.get_ray(S / 2, S / 2);
    assert_eq!(ray.o, v(0, 0, 0));
    assert_eq!(ray.d, v(0, 0, -S));
    let hit = world.hit(&ray, T_MIN, T_MAX).unwrap();
    assert_eq!(hit.t, S / 2);
    assert_eq!(hit.normal, v(0, 0, S));
}

#[test]
fn scene_returns_the_nearer_of_overlapping_spheres() {
    let far = Sphere::new(v(0, 0, -3 * S), S, grey());
    let near = Sphere::new(v(0, 0, -2 * S), S, grey());
    let ray = Ray::new(v(0, 0, 0), v(0, 0, -S));
    for order in [[far, near], [near, far]] {
        let world = HitableList::new(order.to_vec());
        let hit = world.hit(&ray, T_MIN, T_MAX).unwrap();
        assert_eq!(hit.t, S);
        assert_eq!(hit.p, v(0, 0, -S));
    }
}

#[test]
fn empty_scene_always_misses() {
    let world = HitableList::new(Vec::new());
    let ray = Ray::new(v(0, 0, 0), v(S, -S, S));
    assert!(world.hit(&ray, T_MIN, T_MAX).is_none());
}

#[test]
fn ray_at_evaluates_origin_plus_t_direction() {
    let ray = Ray::new(v(S, 2 * S, 3 * S), v(S, 0, -S / 2));
    assert_eq!(ray.origin(), v(S, 2 * S, 3 * S));
    assert_eq!(ray.direction(), v(S, 0, -S / 2));
    assert_eq!(ray.at(2 * S), v(3 * S, 2 * S, 2 * S));
    assert_eq!(ray.at(-S / 2), v(S / 2, 2 * S, 3 * S + S / 4));
}

#[test]
fn vector_operations() {
    assert_eq!(v(3 * S, 4 * S, 0).length(), (5 * S) as u64);
    assert_eq!(v(3 * S, 4 * S, 0).unit(), v(39321, 52428, 0));
    assert_eq!(v(S, 0, 0).cross(&v(0, S, 0)), v(0, 0, S));
    assert_eq!(v(S, 2 * S, 3 * S).dot(&v(S, S, S)), 6 * (S as i128) * (S as i128));
    assert_eq!(v(S, -S, 2).scale(S / 2), v(S / 2, -S / 2, 1));
    assert_eq!(v(S / 2, S, 0).modulate(&v(S / 2, S / 4, S)), v(S / 4, S / 4, 0));
    assert_eq!(Vec3::from_wide(1 << 40, -(1 << 40), 5), v(raytracer::fixed::LIMIT, -raytracer::fixed::LIMIT, 5));
}

#[test]
fn integer_square_root() {
    assert_eq!(isqrt(0), 0);
    assert_eq!(isqrt(15), 3);
    assert_eq!(isqrt(16), 4);
    assert_eq!(isqrt(u128::MAX), u64::MAX);
}

#[test]
fn channels_are_averaged_gamma_corrected_and_scaled() {
    assert_eq!(to_byte(4 * S as u64, 4), 255);
    assert_eq!(to_byte(0, 3), 0);
    assert_eq!(to_byte((S / 4) as u64, 1), 127);
    assert_eq!(to_byte((S / 2) as u64, 2), 127);
}

#[test]
fn default_camera_spans_the_viewport() {
    let camera = Camera::new();
    assert_eq!(camera.get_ray(0, 0).d, v(-116508, -S, -S));
    assert_eq!(camera.get_ray(S, S).d, v(116508, S, -S));
}

#[test]
fn looking_at_rejects_degenerate_views() {
    let up = v(0, S, 0);
    assert!(Camera::looking_at(v(S, S, S), v(S, S, S), up, S, S, 0, S).is_none());
    assert!(Camera::looking_at(v(0, 5 * S, 0), v(0, 0, 0), up, S, S, 0, S).is_none());
}

#[test]
fn looking_at_down_negative_z_matches_default_camera() {
    let c = Camera::looking_at(v(0, 0, 0), v(0, 0, -S), v(0, S, 0), S, raytracer::camera::ASPECT_RATIO, 0, S).unwrap();
    assert_eq!(c, Camera::new());
    let ray = c.get_ray(S / 2, S / 2);
    assert_eq!(ray.d, v(0, 0, -S));
}

#[test]
fn aperture_jitters_the_origin_on_the_lens() {
    let c = Camera::looking_at(v(0, 0, 0), v(0, 0, -S), v(0, S, 0), S, S, S, S).unwrap();
    assert_eq!(c.lens_radius, S / 2);
    for _ in 0..200 {
        let r = c.get_ray(S / 2, S / 2);
        assert_eq!(r.o.z, 0);
        assert!((r.o.x as i128).pow(2) + (r.o.y as i128).pow(2) < (S as i128 / 2).pow(2) + 4 * S as i128);
        // Every ray is aimed at the same point of the focal plane.
        assert_eq!(r.o.add(&r.d), v(0, 0, -S));
    }
}

#[test]
fn pixel_over_the_sky_is_sky_colored() {
    let world = HitableList::new(Vec::new());
    let camera = Camera::new();
    let (r, g, b) = sample_pixel(&camera, &world, 0, 0, 1, 1, 8);
    assert!(r >= 180 && g >= 200 && b == 255);
}

#[test]
fn random_scene_has_ground_grid_and_three_large_spheres() {
    let world = raytracer::scene::random_scene();
    let n = world.list.len();
    assert!(n >= 4 && n <= 4 + 22 * 22);
    assert_eq!(world.list[0].center, v(0, -1000 * S, 0));
    assert_eq!(world.list[0].radius, 1000 * S);
    for s in &world.list[1..n - 3] {
        assert_eq!(s.radius, 13107);
        assert_eq!(s.center.y, 13107);
        let (dx, dz) = ((s.center.x - 4 * S) as i128, s.center.z as i128);
        assert!(dx * dx + dz * dz > 3478923509);
    }
    assert_eq!(world.list[n - 3].center, v(0, S, 0));
    assert_eq!(world.list[n - 3].material, Material::Dielectric(Dielectric::new(98304)));
    assert_eq!(world.list[n - 2].center, v(-4 * S, S, 0));
    assert_eq!(world.list[n - 1].center, v(4 * S, S, 0));
    assert_eq!(world.list[n - 1].material, Material::Metal(Metal::new(v(45875, 39321, 32768), 0)));
}

#[test]
fn rejection_step_keeps_only_points_inside_the_ball() {
    assert_eq!(cube_point_in_ball(S / 2, -S / 2, S / 2), Some(v(S / 2, -S / 2, S / 2)));
    assert_eq!(cube_point_in_ball(-S, 0, 0), None);
    assert_eq!(cube_point_in_ball(S - 1, S - 1, 0), None);
    assert_eq!(cube_point_in_ball(0, 0, 0), Some(v(0, 0, 0)));
}

#[test]
fn crossing_outside_the_coordinate_range_is_not_reported() {
    let lim = raytracer::fixed::LIMIT;
    let s = Sphere::new(v(lim, 0, 0), lim, grey());
    let ray = Ray::new(v(lim, 0, 0), v(S, 0, 0));
    assert!(s.hit(&ray, T_MIN, T_MAX).is_none());
    // Aimed back towards the origin, the far side is in range.
    let back = Ray::new(v(lim, 0, 0), v(-S, 0, 0));
    let h = s.hit(&back, T_MIN, T_MAX).unwrap();
    assert_eq!(h.p, v(0, 0, 0));
    assert_eq!(h.normal, v(-S, 0, 0));
}

#[test]
fn translated_scene_moves_the_hit_point() {
    let s1 = Sphere::new(v(0, 0, -S), S / 2, grey());
    let r1 = Ray::new(v(0, 0, 0), v(S / 10, S / 7, -S));
    let off = v(3 * S, -2 * S, 5 * S);
    let s2 = Sphere::new(s1.center.add(&off), S / 2, grey());
    let r2 = Ray::new(r1.o.add(&off), r1.d);
    let h1 = s1.hit(&r1, T_MIN, T_MAX).unwrap();
    let h2 = s2.hit(&r2, T_MIN, T_MAX).unwrap();
    assert_eq!(h2.p, h1.p.add(&off));
    assert_eq!(h2.normal, h1.normal);
}

#[test]
fn small_spheres_sit_in_distinct_cells_in_order() {
    let world = raytracer::scene::random_scene();
    let n = world.list.len();
    let mut last = -1i64;
    for s in &world.list[1..n - 3] {
        let (a, b) = (s.center.x.div_euclid(S), s.center.z.div_euclid(S));
        assert!((-11..11).contains(&a) && (-11..11).contains(&b));
        assert!(s.center.x.rem_euclid(S) < 58982 && s.center.z.rem_euclid(S) < 58982);
        let cell = (a + 11) * 22 + (b + 11);
        assert!(cell > last);
        last = cell;
        if let Material::Metal(m) = s.material {
            assert!(m.albedo.x >= S / 2 && m.albedo.y >= S / 2 && m.albedo.z >= S / 2 && m.fuzz <= S / 2);
        }
        if let Material::Dielectric(d) = s.material {
            assert_eq!(d.ref_idx, 98304);
        }
    }
}
