use oneiroi::vector::normal_of;

#[test]
fn normal_of_a_flat_triangle_points_up() {
    let at0 = glam::Vec3::new(0.0, 0.0, 0.0);
    let at1 = glam::Vec3::new(0.0, 0.0, 1.0);
    let at2 = glam::Vec3::new(1.0, 0.0, 0.0);
    let n = normal_of(at0, at1, at2);
    assert_eq!(n, glam::Vec3::new(0.0, 1.0, 0.0));
}
