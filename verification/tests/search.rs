use creamcone::Blop;
use creamcone::DOFType;
use creamcone::IPoint;
use creamcone::KERNEL_TABLE;
use creamcone::Object;
use creamcone::ObjectConfiguration;
use creamcone::ObjectUniverse;
use creamcone::Point;
use creamcone::SCALE;
use creamcone::SimError;
use creamcone::Universe;
use creamcone::create_field_vec;
use creamcone::run_evolution;
use creamcone::update_simulation;

fn fx(v: i64) -> i64 {
    v * SCALE
}

const QUARTER_TURN: i64 = 102944;

fn single_object(anchor: Point, dof: DOFType, blops: Vec<Blop>) -> ObjectUniverse {
    let mut ou = ObjectUniverse::new();
    ou.add(Object::new(&"solo".to_string(), &anchor, None, dof, blops));
    ou
}

fn value_at(u: &Universe, world: IPoint) -> i64 {
    match u.getChunk(&world) {
        Some(c) => c.getFieldValue(&world),
        None => 0,
    }
}

#[test]
fn registry_upserts_by_name() {
    let mut ou = ObjectUniverse::new();
    ou.add(Object::new(
        &"a".to_string(),
        &Point::new(0, 0),
        None,
        DOFType::Rotation,
        vec![],
    ));
    ou.add(Object::new(
        &"b".to_string(),
        &Point::new(0, 0),
        None,
        DOFType::Rotation,
        vec![],
    ));
    assert_eq!(ou.len(), 2);
    ou.add(Object::new(
        &"a".to_string(),
        &Point::new(fx(1), 0),
        None,
        DOFType::Rotation,
        vec![],
    ));
    assert_eq!(ou.len(), 2);
    assert_eq!(ou.get(&"a".to_string()), Some(0));
    assert_eq!(ou.get(&"b".to_string()), Some(1));
    ou.remove(&"a".to_string());
    assert_eq!(ou.len(), 1);
    assert_eq!(ou.get(&"a".to_string()), None);
    assert_eq!(ou.get(&"b".to_string()), Some(0));
}

#[test]
fn configuration_matches_registry_dimension() {
    let ou = single_object(Point::new(0, 0), DOFType::Rotation, vec![]);
    let c = ObjectConfiguration::new(&ou);
    assert_eq!(c.positions.len(), 1);
    assert_eq!(c.positions[0], 0);
}

#[test]
fn plus_minus_are_inverse() {
    let a = ObjectConfiguration { positions: vec![100, -250, 3] };
    let b = ObjectConfiguration { positions: vec![-7, 40, 90000] };
    let back = a.plus(&b).minus(&b);
    assert_eq!(back.positions, a.positions);
    let summed = a.plus(&b);
    assert_eq!(summed.positions, vec![93, -210, 90003]);
}

#[test]
fn perturb_moves_each_scalar_by_at_most_half_amplitude() {
    let mut c = ObjectConfiguration { positions: vec![0, 1000, -50000] };
    for _ in 0..50 {
        let p = c.perturb(1311);
        assert_eq!(p.positions.len(), 3);
        for i in 0..3 {
            assert!((p.positions[i] - c.positions[i]).abs() <= 1311 / 2);
        }
    }
    assert_eq!(c.positions, vec![0, 1000, -50000]);
}

#[test]
fn realize_rejects_wrong_dimension() {
    let table = create_field_vec();
    let ou = single_object(Point::new(0, 0), DOFType::Rotation, vec![]);
    let bad = ObjectConfiguration { positions: vec![0, 0] };
    assert_eq!(bad.realize(&table, &ou).err(), Some(SimError::DimensionMismatch));
}

#[test]
fn realize_rejects_unknown_parent() {
    let table = create_field_vec();
    let mut ou = ObjectUniverse::new();
    ou.add(Object::new(
        &"child".to_string(),
        &Point::new(0, 0),
        Some("ghost".to_string()),
        DOFType::Rotation,
        vec![],
    ));
    let c = ObjectConfiguration::new(&ou);
    assert_eq!(c.realize(&table, &ou).err(), Some(SimError::UnknownObject));
}

#[test]
fn realize_rejects_parent_cycle() {
    let table = create_field_vec();
    let mut ou = ObjectUniverse::new();
    ou.add(Object::new(
        &"a".to_string(),
        &Point::new(0, 0),
        Some("b".to_string()),
        DOFType::Rotation,
        vec![],
    ));
    ou.add(Object::new(
        &"b".to_string(),
        &Point::new(0, 0),
        Some("a".to_string()),
        DOFType::Rotation,
        vec![],
    ));
    let c = ObjectConfiguration::new(&ou);
    assert_eq!(c.realize(&table, &ou).err(), Some(SimError::CyclicHierarchy));
}

#[test]
fn transform_resolution_composes_parent_chain() {
    let mut ou = ObjectUniverse::new();
    ou.add(Object::new(
        &"base".to_string(),
        &Point::new(fx(10), 0),
        None,
        DOFType::Linear(Point::new(fx(1), 0)),
        vec![],
    ));
    ou.add(Object::new(
        &"arm".to_string(),
        &Point::new(0, fx(5)),
        Some("base".to_string()),
        DOFType::Rotation,
        vec![],
    ));
    let mut c = ObjectConfiguration::new(&ou);
    c.positions[0] = fx(7);
    let arm = Object::new(
        &"arm".to_string(),
        &Point::new(0, fx(5)),
        Some("base".to_string()),
        DOFType::Rotation,
        vec![],
    );
    let t = arm.getTransform(&c, &ou).unwrap();
    let p = creamcone::transform_pt(&t, &Point::new(fx(2), 0));
    assert_eq!(p, Point::new(fx(19), fx(5)));
    let orphan = Object::new(
        &"orphan".to_string(),
        &Point::new(0, 0),
        None,
        DOFType::Rotation,
        vec![],
    );
    assert_eq!(orphan.getTransform(&c, &ou).err(), Some(SimError::UnknownObject));
}

#[test]
fn zero_scalars_place_sources_at_anchor() {
    let table = create_field_vec();
    let anchored = single_object(
        Point::new(fx(3), fx(4)),
        DOFType::Rotation,
        vec![Blop::new(Point::new(fx(5), fx(5)), fx(10))],
    );
    let raw = single_object(
        Point::new(0, 0),
        DOFType::Linear(Point::new(fx(1), 0)),
        vec![Blop::new(Point::new(fx(8), fx(9)), fx(10))],
    );
    let ua = ObjectConfiguration::new(&anchored).realize(&table, &anchored).unwrap();
    let ub = ObjectConfiguration::new(&raw).realize(&table, &raw).unwrap();
    for x in -10..30 {
        for y in -10..30 {
            let p = IPoint::new(x, y);
            assert_eq!(value_at(&ua, p), value_at(&ub, p));
        }
    }
    assert_eq!(value_at(&ua, IPoint::new(8, 9)), 10 * KERNEL_TABLE[0]);
}

#[test]
fn single_source_peak_and_cutoff() {
    let table = create_field_vec();
    let ou = single_object(
        Point::new(0, 0),
        DOFType::Rotation,
        vec![Blop::new(Point::new(0, 0), fx(10))],
    );
    let u = ObjectConfiguration::new(&ou).realize(&table, &ou).unwrap();
    assert_eq!(value_at(&u, IPoint::new(0, 0)), 10 * 65097);
    assert_eq!(value_at(&u, IPoint::new(1, 0)), 10 * KERNEL_TABLE[1]);
    assert_eq!(value_at(&u, IPoint::new(0, -1)), 10 * KERNEL_TABLE[1]);
    assert_eq!(value_at(&u, IPoint::new(16, 0)), 0);
    assert_eq!(value_at(&u, IPoint::new(-16, 0)), 0);
    assert_eq!(value_at(&u, IPoint::new(12, 12)), 0);
    assert!(u.mse() > 0);
}

#[test]
fn quarter_turn_rotates_cardinal_pattern() {
    let table = create_field_vec();
    let cardinal = vec![
        Blop::new(Point::new(fx(100), 0), fx(1)),
        Blop::new(Point::new(0, fx(100)), fx(1)),
        Blop::new(Point::new(fx(-100), 0), fx(1)),
        Blop::new(Point::new(0, fx(-100)), fx(1)),
    ];
    let ou = single_object(Point::new(0, 0), DOFType::Rotation, cardinal);
    let c0 = ObjectConfiguration::new(&ou);
    let mut c1 = ObjectConfiguration::new(&ou);
    c1.positions[0] = QUARTER_TURN;
    let u0 = c0.realize(&table, &ou).unwrap();
    let u1 = c1.realize(&table, &ou).unwrap();
    for (x, y) in [(100, 0), (0, 100), (-100, 0), (0, -100)] {
        let peak0 = value_at(&u0, IPoint::new(x, y));
        assert_eq!(peak0, KERNEL_TABLE[0]);
        let peak1 = value_at(&u1, IPoint::new(-y, x));
        assert_eq!(peak0, peak1);
    }
    for x in 92..108 {
        for y in -8..8 {
            let v0 = value_at(&u0, IPoint::new(x, y));
            let v1 = value_at(&u1, IPoint::new(-y, x));
            assert_eq!(v0, v1);
        }
    }
}

#[test]
fn quarter_turn_moves_a_single_peak() {
    let table = create_field_vec();
    let ou = single_object(
        Point::new(0, 0),
        DOFType::Rotation,
        vec![Blop::new(Point::new(fx(100), 0), fx(1))],
    );
    let mut c = ObjectConfiguration::new(&ou);
    c.positions[0] = QUARTER_TURN;
    let u = c.realize(&table, &ou).unwrap();
    assert_eq!(value_at(&u, IPoint::new(0, 100)), KERNEL_TABLE[0]);
    assert_eq!(value_at(&u, IPoint::new(100, 0)), 0);
}

#[test]
fn linear_dof_translates_along_direction() {
    let table = create_field_vec();
    let ou = single_object(
        Point::new(0, 0),
        DOFType::Linear(Point::new(fx(1), 0)),
        vec![Blop::new(Point::new(0, 0), fx(10))],
    );
    let mut c = ObjectConfiguration::new(&ou);
    c.positions[0] = fx(20);
    let u = c.realize(&table, &ou).unwrap();
    assert_eq!(value_at(&u, IPoint::new(20, 0)), 10 * 65097);
    assert_eq!(value_at(&u, IPoint::new(0, 0)), 0);
}

#[test]
fn zero_generations_return_start_unchanged() {
    let table = create_field_vec();
    let ou = single_object(
        Point::new(0, 0),
        DOFType::Rotation,
        vec![Blop::new(Point::new(fx(5), 0), fx(2))],
    );
    let mut c = ObjectConfiguration::new(&ou);
    c.positions[0] = 777;
    let r = run_evolution(&table, &c, &ou, 0).unwrap();
    assert_eq!(r.positions, c.positions);
    let u = r.realize(&table, &ou).unwrap();
    assert!(u.mse() >= 0);
}

#[test]
fn optimizer_keeps_dimension_and_propagates_errors() {
    let table = create_field_vec();
    let ou = single_object(
        Point::new(0, 0),
        DOFType::Rotation,
        vec![Blop::new(Point::new(fx(5), 0), fx(2))],
    );
    let c = ObjectConfiguration::new(&ou);
    let r = update_simulation(&table, &c, &ou).unwrap();
    assert_eq!(r.positions.len(), 1);
    let bad = ObjectConfiguration { positions: vec![] };
    assert_eq!(update_simulation(&table, &bad, &ou).err(), Some(SimError::DimensionMismatch));
}

#[test]
fn optimizer_reduces_total_error_of_lone_source() {
    let table = create_field_vec();
    let ou = single_object(
        Point::new(0, 0),
        DOFType::Linear(Point::new(fx(1), 0)),
        vec![Blop::new(Point::new(0, 0), fx(10))],
    );
    let c = ObjectConfiguration::new(&ou);
    let u = c.realize(&table, &ou).unwrap();
    let before = u.mse();
    let tuned = update_simulation(&table, &c, &ou).unwrap();
    let after = tuned.realize(&table, &ou).unwrap().mse();
    assert!(after <= before + before / 2);
}
