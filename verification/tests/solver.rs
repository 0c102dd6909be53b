use geom2::{
    angular_to_linear2, angular_to_linear3, torque2, torque3, Euler, Frac, Point, Point3, Rk4,
    Var,
};

fn pt(x: i64, y: i64) -> Point {
    Point::new(x, y)
}

#[test]
fn var_accessors() {
    let mut v = Var::new(Frac::from_int(7));
    assert!(v.value().eqv(&Frac::from_int(7)));
    assert!(v.deriv().eqv(&Frac::from_int(0)));

    v.add_deriv(Frac::from_int(2));
    v.add_deriv(Frac::new(1, 2));
    assert!(v.deriv().eqv(&Frac::new(5, 2)));

    *v.value_mut() = Frac::from_int(9);
    assert!(v.value().eqv(&Frac::from_int(9)));
    *v.deriv_mut() = Frac::from_int(0);
    assert!(v.deriv().eqv(&Frac::from_int(0)));

    assert!(v.into_value().eqv(&Frac::from_int(9)));
}

#[test]
fn euler_step() {
    // value 1, derivative 2, half a unit of time: 1 + 2 * (1/2) == 2
    let mut v = Var::new(Frac::from_int(1));
    v.add_deriv(Frac::from_int(2));
    Euler::apply(&mut v, Frac::new(1, 2));
    assert!(v.value().eqv(&Frac::from_int(2)));
    assert!(v.deriv().eqv(&Frac::from_int(0)));
}

#[test]
fn rk4_stage_dt() {
    let dt = Frac::from_int(1);
    assert!(Rk4::stage_dt(0, dt).eqv(&Frac::new(1, 2)));
    assert!(Rk4::stage_dt(1, dt).eqv(&Frac::new(1, 2)));
    assert!(Rk4::stage_dt(2, dt).eqv(&Frac::from_int(1)));
    assert!(Rk4::stage_dt(3, dt).eqv(&Frac::from_int(1)));
}

#[test]
fn rk4_constant_derivative() {
    // With a constant derivative the four-stage combination reduces to one
    // exact Euler step: x + c * dt.
    let mut v = Var::new(Frac::from_int(3));
    let dt = Frac::new(1, 2);
    let c = Frac::from_int(4);
    let mut stage: u32 = 0;
    while stage < 4 {
        v.add_deriv(c);
        Rk4::apply(stage, &mut v, dt);
        stage += 1;
    }
    // 3 + 4 * (1/2) == 5
    assert!(v.value().eqv(&Frac::from_int(5)));
    assert!(v.deriv().eqv(&Frac::from_int(0)));
}

#[test]
fn torque_2d() {
    assert_eq!(torque2(pt(2, 0), pt(0, 3)), 6);
    assert_eq!(torque2(pt(0, 2), pt(3, 0)), -6);
    assert_eq!(torque2(pt(1, 1), pt(2, 2)), 0);
}

#[test]
fn torque_3d() {
    let r = torque3(Point3::new(1, 0, 0), Point3::new(0, 1, 0));
    assert_eq!(r, Point3::new(0, 0, 1));
    let r = torque3(Point3::new(0, 0, 2), Point3::new(3, 0, 0));
    assert_eq!(r, Point3::new(0, 6, 0));
}

#[test]
fn angular_velocity_2d() {
    // positive angular velocity turns the position left
    assert_eq!(angular_to_linear2(2, pt(1, 0)), pt(0, 2));
    assert_eq!(angular_to_linear2(2, pt(0, 1)), pt(-2, 0));
}

#[test]
fn angular_velocity_3d() {
    let r = angular_to_linear3(Point3::new(0, 0, 1), Point3::new(1, 0, 0));
    assert_eq!(r, Point3::new(0, 1, 0));
}
