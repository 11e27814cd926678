use counterbalance::hex::{CubePos, Hex, OddrPos};

const ODDR: [(i32, i32); 5] = [(0, 0), (0, 2), (2, 0), (1, 1), (2, 1)];
const CUBE: [(i32, i32, i32); 5] = [(0, 0, 0), (1, 2, 1), (2, 0, -2), (2, 1, -1), (3, 1, -2)];
// 1v1, 1v2, .. 1v5, 2v2, 2v3, .. 2v5, etc.
const DISTS: [i32; 15] = [0, 2, 2, 2, 3, 0, 3, 2, 3, 0, 1, 1, 0, 1, 0];

#[test]
fn convert_from_oddr_to_cube() {
    for (oddr_val, cube_val_expected) in ODDR.into_iter().zip(CUBE.into_iter()) {
        let cube_val = Hex::from_oddr(oddr_val.0, oddr_val.1).to_cube();
        let expected = CubePos {
            x: cube_val_expected.0,
            y: cube_val_expected.1,
            z: cube_val_expected.2,
        };
        assert_eq!(cube_val, expected);
    }
}

#[test]
fn convert_from_cube_to_oddr() {
    for (cube_val, oddr_val_expected) in CUBE.into_iter().zip(ODDR.into_iter()) {
        let oddr_val = Hex::from_cube(cube_val.0, cube_val.1).to_oddr();
        let expected = OddrPos { x: oddr_val_expected.0, y: oddr_val_expected.1 };
        assert_eq!(oddr_val, expected);
    }
}

#[test]
fn distance_oddr() {
    let mut z = 0;
    for i in 0..ODDR.len() {
        for j in i..ODDR.len() {
            let hex1 = Hex::from_oddr(ODDR[i].0, ODDR[i].1);
            let hex2 = Hex::from_oddr(ODDR[j].0, ODDR[j].1);
            let dist_expected = DISTS[z];
            assert_eq!(
                hex1.dist(hex2),
                dist_expected,
                "distance between {hex1:?} and {hex2:?} should be {dist_expected}"
            );
            z += 1;
        }
    }
}

#[test]
fn distance_cube() {
    let mut z = 0;
    for i in 0..CUBE.len() {
        for j in i..CUBE.len() {
            let hex1 = CUBE[i];
            let hex1 = Hex::from_cube(hex1.0, hex1.1);
            let hex2 = CUBE[j];
            let hex2 = Hex::from_cube(hex2.0, hex2.1);
            let dist_expected = DISTS[z];
            assert_eq!(
                hex1.dist(hex2),
                dist_expected,
                "distance between {hex1:?} and {hex2:?} should be {dist_expected}"
            );
            z += 1;
        }
    }
}

#[test]
fn line_draw() {
    let start = Hex::from_oddr(0, 0);
    let end = Hex::from_oddr(5, 2);
    let line = start.line(end);

    let expected = [(0, 0), (1, 0), (1, 1), (2, 1), (3, 1), (4, 2), (5, 2)]
        .into_iter()
        .map(|p| Hex::from_oddr(p.0, p.1))
        .collect::<Vec<_>>();

    assert_eq!(line, expected);
}

#[test]
fn oddr_cube_round_trip_samples() {
    for x in -7..8 {
        for y in -7..8 {
            let c = Hex::from_oddr(x, y).to_cube();
            let back = Hex::from_cube(c.x, c.y).to_oddr();
            assert_eq!((back.x, back.y), (x, y));
        }
    }
}

#[test]
fn dist_symmetry_samples() {
    let pts = [(0, 0), (3, -2), (-4, 5), (7, 7), (1, -6)];
    for a in pts {
        for b in pts {
            let ha = Hex::from_oddr(a.0, a.1);
            let hb = Hex::from_oddr(b.0, b.1);
            assert_eq!(ha.dist(hb), hb.dist(ha));
        }
    }
}

#[test]
fn line_endpoints_and_length() {
    let a = Hex::from_oddr(2, 3);
    let b = Hex::from_oddr(-1, -2);
    let line = a.line(b);
    assert_eq!(line.len() as i32, a.dist(b) + 1);
    assert_eq!(line[0], a);
    assert_eq!(line[line.len() - 1], b);
}

#[test]
fn degenerate_line_is_single_hex() {
    let a = Hex::from_oddr(4, 4);
    let line = a.line(a);
    assert_eq!(line.len(), 1);
    assert_eq!(line[0], a);
}

#[test]
fn mixed_representation_equality() {
    let o = Hex::from_oddr(2, 1);
    let c = Hex::from_cube(3, 1);
    assert_eq!(o, c);
    assert_ne!(o, Hex::from_oddr(2, 2));
}
