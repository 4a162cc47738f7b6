use creamcone::Blop;
use creamcone::Chunk;
use creamcone::IPoint;
use creamcone::KERNEL_TABLE;
use creamcone::Point;
use creamcone::SCALE;
use creamcone::Universe;
use creamcone::add_field;
use creamcone::chunkCoord;
use creamcone::create_field_vec;
use creamcone::fx_cos;
use creamcone::fx_sin;
use creamcone::identify_chunks;
use creamcone::identity;
use creamcone::matmult;
use creamcone::rotmatrix;
use creamcone::transform_pt;
use creamcone::txmatrix;

fn fx(v: i64) -> i64 {
    v * SCALE
}

#[test]
fn kernel_table_shape() {
    let t = create_field_vec();
    assert_eq!(t.len(), 256);
    assert_eq!(t[0], 65097);
    assert_eq!(t[25], 32768);
    assert_eq!(t[255], 1);
    for i in 1..256 {
        assert!(t[i] <= t[i - 1]);
        assert!(t[i] >= 1);
        assert!(t[i] <= SCALE);
    }
    assert_eq!(t.as_slice(), &KERNEL_TABLE[..]);
}

#[test]
fn chunk_coord_alignment() {
    assert_eq!(chunkCoord(&IPoint::new(13, -5)), IPoint::new(8, -8));
    assert_eq!(chunkCoord(&IPoint::new(0, 0)), IPoint::new(0, 0));
    assert_eq!(chunkCoord(&IPoint::new(7, 8)), IPoint::new(0, 8));
    assert_eq!(chunkCoord(&IPoint::new(-1, -8)), IPoint::new(-8, -8));
    assert_eq!(chunkCoord(&IPoint::new(-9, 15)), IPoint::new(-16, 8));
}

#[test]
fn ipoint_add() {
    let p = IPoint::new(3, -4).add(IPoint::new(10, 5));
    assert_eq!(p, IPoint::new(13, 1));
}

#[test]
fn chunk_starts_zero_and_accumulates() {
    let mut c = Chunk::new();
    for x in 0..8 {
        for y in 0..8 {
            assert_eq!(c.getFieldValue(&IPoint::new(x, y)), 0);
        }
    }
    c.addFieldValue(&IPoint::new(2, 3), 100);
    c.addFieldValue(&IPoint::new(2, 3), 23);
    assert_eq!(c.getFieldValue(&IPoint::new(2, 3)), 123);
    assert_eq!(c.getFieldValue(&IPoint::new(3, 2)), 0);
}

#[test]
fn chunk_wraps_out_of_range_coordinates() {
    let mut c = Chunk::new();
    c.addFieldValue(&IPoint::new(9, 1), 7);
    assert_eq!(c.getFieldValue(&IPoint::new(1, 1)), 7);
    assert_eq!(c.getFieldValue(&IPoint::new(9, 1)), 7);
    c.addFieldValue(&IPoint::new(-1, -1), 5);
    assert_eq!(c.getFieldValue(&IPoint::new(7, 7)), 5);
}

#[test]
fn accumulate_order_does_not_matter() {
    let contributions = [
        (IPoint::new(0, 0), 10),
        (IPoint::new(1, 0), -4),
        (IPoint::new(0, 0), 7),
        (IPoint::new(5, 6), 1000),
        (IPoint::new(1, 0), 13),
    ];
    let mut a = Chunk::new();
    for (p, v) in contributions.iter() {
        a.addFieldValue(p, *v);
    }
    let mut b = Chunk::new();
    for (p, v) in contributions.iter().rev() {
        b.addFieldValue(p, *v);
    }
    for x in 0..8 {
        for y in 0..8 {
            let p = IPoint::new(x, y);
            assert_eq!(a.getFieldValue(&p), b.getFieldValue(&p));
        }
    }
}

#[test]
fn chunk_mse_is_sum_of_squares() {
    let mut c = Chunk::new();
    assert_eq!(c.mse(), 0);
    c.addFieldValue(&IPoint::new(0, 0), 3);
    c.addFieldValue(&IPoint::new(1, 1), -4);
    assert_eq!(c.mse(), 25);
    assert!(c.mse() >= 0);
}

#[test]
fn chunk_data_quantizes_and_clamps() {
    let mut c = Chunk::new();
    c.addFieldValue(&IPoint::new(0, 0), fx(11));
    c.addFieldValue(&IPoint::new(1, 0), -5);
    c.addFieldValue(&IPoint::new(2, 0), 5 * SCALE);
    let d = c.getData();
    assert_eq!(d.len(), 256);
    assert_eq!(&d[0..4], &[255, 255, 255, 255]);
    assert_eq!(&d[4..8], &[255, 0, 0, 0]);
    assert_eq!(&d[8..12], &[255, 127, 127, 127]);
    assert_eq!(&d[12..16], &[255, 0, 0, 0]);
}

#[test]
fn field_at_peak_and_cutoff() {
    let table = create_field_vec();
    let b = Blop::new(Point::new(0, 0), fx(10));
    assert_eq!(b.field_at(&table, &Point::new(0, 0)), 10 * 65097);
    assert_eq!(b.field_at(&table, &Point::new(fx(1), 0)), 10 * KERNEL_TABLE[1]);
    assert_eq!(b.field_at(&table, &Point::new(fx(1), fx(1))), 10 * KERNEL_TABLE[2]);
    assert_eq!(b.field_at(&table, &Point::new(fx(16), 0)), 0);
    assert_eq!(b.field_at(&table, &Point::new(fx(100), fx(50))), 0);
}

#[test]
fn add_field_accumulates_every_cell() {
    let table = create_field_vec();
    let blops = vec![Blop::new(Point::new(0, 0), fx(10))];
    let mut c = Chunk::new();
    add_field(&table, &IPoint::new(0, 0), &blops, &mut c);
    assert_eq!(c.getFieldValue(&IPoint::new(0, 0)), 10 * 65097);
    assert_eq!(c.getFieldValue(&IPoint::new(1, 0)), 10 * KERNEL_TABLE[1]);
    assert_eq!(c.getFieldValue(&IPoint::new(3, 4)), 10 * KERNEL_TABLE[25]);
    let mut far = Chunk::new();
    add_field(&table, &IPoint::new(16, 0), &blops, &mut far);
    assert_eq!(far.getFieldValue(&IPoint::new(0, 0)), 0);
    assert_eq!(far.getFieldValue(&IPoint::new(7, 0)), 0);
}

#[test]
fn identify_chunks_is_one_chunk_halo() {
    let blops = vec![Blop::new(Point::new(fx(4), fx(4)), fx(1))];
    let mut got = identify_chunks(&blops);
    got.sort_by_key(|p| (p.y, p.x));
    let mut want = Vec::new();
    for dy in [-8, 0, 8] {
        for dx in [-8, 0, 8] {
            want.push(IPoint::new(dx, dy));
        }
    }
    assert_eq!(got, want);
}

#[test]
fn identify_chunks_deduplicates() {
    let blops = vec![
        Blop::new(Point::new(fx(4), fx(4)), fx(1)),
        Blop::new(Point::new(fx(5), fx(3)), fx(2)),
    ];
    let got = identify_chunks(&blops);
    assert_eq!(got.len(), 9);
}

#[test]
fn universe_set_get_and_mse() {
    let mut u = Universe::new();
    assert!(u.getChunk(&IPoint::new(0, 0)).is_none());
    let mut c = Chunk::new();
    c.addFieldValue(&IPoint::new(0, 0), 6);
    u.setChunk(&IPoint::new(3, 3), c);
    let got = u.getChunk(&IPoint::new(5, 1)).expect("chunk covers aligned coord");
    assert_eq!(got.getFieldValue(&IPoint::new(0, 0)), 6);
    assert!(u.getChunk(&IPoint::new(8, 0)).is_none());
    assert_eq!(u.mse(), 36);
    let mut c2 = Chunk::new();
    c2.addFieldValue(&IPoint::new(1, 1), -2);
    u.setChunk(&IPoint::new(0, 0), c2);
    assert_eq!(u.mse(), 4);
    let pairs = u.tourChunks();
    assert_eq!(pairs.len(), 1);
    assert_eq!(pairs[0].0, IPoint::new(0, 0));
    assert!(u.mse() >= 0);
}

#[test]
fn universe_tour_lists_all_chunks() {
    let mut u = Universe::new();
    u.setChunk(&IPoint::new(0, 0), Chunk::new());
    u.setChunk(&IPoint::new(8, 0), Chunk::new());
    u.setChunk(&IPoint::new(0, -8), Chunk::new());
    let mut keys: Vec<(i32, i32)> = u.tourChunks().iter().map(|p| (p.0.x, p.0.y)).collect();
    keys.sort();
    assert_eq!(keys, vec![(0, -8), (0, 0), (8, 0)]);
}

#[test]
fn trig_exact_at_quadrants() {
    assert_eq!(fx_sin(0), 0);
    assert_eq!(fx_cos(0), SCALE);
    assert_eq!(fx_sin(102944), SCALE);
    assert_eq!(fx_cos(102944), 0);
    let s30 = fx_sin(34315);
    assert!((s30 - 32768).abs() < 200);
    for a in [-400000i64, -102944, -1311, 0, 51472, 205887, 411775, 823550] {
        assert!(fx_sin(a).abs() <= SCALE);
        assert!(fx_cos(a).abs() <= SCALE);
    }
}

#[test]
fn transforms_compose_and_translate() {
    let id = identity();
    let t = txmatrix(fx(3), fx(-2));
    assert_eq!(matmult(&id, &t), t);
    assert_eq!(matmult(&t, &id), t);
    let p = transform_pt(&t, &Point::new(fx(10), fx(10)));
    assert_eq!(p, Point::new(fx(13), fx(8)));
}

#[test]
fn rotation_by_quarter_turn_is_exact() {
    let r = rotmatrix(102944);
    let p = transform_pt(&r, &Point::new(fx(100), 0));
    assert_eq!(p, Point::new(0, fx(100)));
    let q = transform_pt(&r, &Point::new(0, fx(100)));
    assert_eq!(q, Point::new(fx(-100), 0));
}
