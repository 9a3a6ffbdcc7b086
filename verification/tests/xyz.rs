//! Systems read from text in the XYZ format.

use lumol::particle::NO_KIND;
use lumol::universe::Universe;
use lumol::xyz::ReadError;
use std::num::ParseFloatError;

fn bits(text: &str) -> Result<u64, ParseFloatError> {
    text.parse::<f64>().map(f64::to_bits)
}

fn position(universe: &Universe, i: usize) -> [f64; 3] {
    let raw = universe.index(i).position;
    [f64::from_bits(raw.x), f64::from_bits(raw.y), f64::from_bits(raw.z)]
}

#[test]
fn water_file() {
    let content = "3\ncell: 20.0\nO  0.0  0.0  0.0\nH -0.7 -0.7  0.3 ignored\n  H  0.3 -0.3 -0.8\n";
    let universe = Universe::from_xyz(content, &bits).unwrap();
    assert_eq!(universe.size(), 3);
    assert_eq!(universe.index(0).name(), "O");
    assert_eq!(universe.index(1).name(), "H");
    assert_eq!(universe.index(2).name(), "H");
    assert_eq!(position(&universe, 0), [0.0, 0.0, 0.0]);
    assert_eq!(position(&universe, 1), [-0.7, -0.7, 0.3]);
    assert_eq!(position(&universe, 2), [0.3, -0.3, -0.8]);
    let kinds: Vec<u16> = universe.iter().map(|p| p.kind()).collect();
    assert_eq!(kinds, vec![0, 1, 1]);
    assert!(universe.iter().all(|p| p.kind() != NO_KIND && p.mass == 0 && p.charge == 0));
    assert!(universe.cell().is_infinite());
    assert_eq!(universe.try_pairs(0, 1), None);
}

#[test]
fn no_atoms() {
    let universe = Universe::from_xyz("0\nnothing", &bits).unwrap();
    assert_eq!(universe.size(), 0);
    let universe = Universe::from_xyz("0\r\n\r\n", &bits).unwrap();
    assert_eq!(universe.size(), 0);
}

#[test]
fn bad_atom_number() {
    for content in ["2\ncomment\nO 0 0 0\n", "1\ncomment\nO 0 0 0\nH 1 1 1\n", "0", "1\nHe 0 0 0"] {
        match Universe::from_xyz(content, &bits) {
            Err(ReadError::XYZFormatError { err }) => assert_eq!(err, "Bad atom number in file."),
            _ => panic!("the number of atoms passed"),
        }
    }
    let content = format!("{}\ncomment\n", usize::MAX);
    assert!(matches!(
        Universe::from_xyz(&content, &bits),
        Err(ReadError::XYZFormatError { err: "Bad atom number in file." })
    ));
}

#[test]
fn number_of_atoms_is_no_number() {
    for content in ["three\ncomment\n", "-1\ncomment\n", " 1\ncomment\nHe 0 0 0", "\n\n"] {
        assert!(matches!(Universe::from_xyz(content, &bits), Err(ReadError::ParseIntError(_))));
    }
}

#[test]
fn short_line() {
    let content = "2\ncomment\nO 0 0 0\nH 1 1\n";
    match Universe::from_xyz(content, &bits) {
        Err(ReadError::XYZFormatError { err }) => assert_eq!(err, "Line is too short."),
        _ => panic!("the short line passed"),
    }
    // the first line that is wrong tells
    let content = "2\ncomment\nO 0\nH 1 one 1\n";
    assert!(matches!(
        Universe::from_xyz(content, &bits),
        Err(ReadError::XYZFormatError { err: "Line is too short." })
    ));
}

#[test]
fn position_is_no_number() {
    for line in ["H x 1 1", "H 1 y 1", "H 1 1 z", "H x y"] {
        let content = format!("1\ncomment\n{}\n", line);
        let found = Universe::from_xyz(&content, &bits);
        if line == "H x y" {
            assert!(matches!(found, Err(ReadError::XYZFormatError { .. })));
        } else {
            assert!(matches!(found, Err(ReadError::ParseFloatError(_))));
        }
    }
}

#[test]
fn text_without_a_line() {
    assert!(Universe::read_xyz("", &bits).is_none());
    assert!(matches!(Universe::read_xyz("1\n\nAr 1 2 3", &bits), Some(Ok(_))));
    assert!(matches!(Universe::read_xyz("x", &bits), Some(Err(ReadError::ParseIntError(_)))));
}

#[test]
fn errors_from_the_standard_library() {
    let error = "x".parse::<usize>().unwrap_err();
    assert!(matches!(ReadError::from(error), ReadError::ParseIntError(_)));
    let error = "x".parse::<f64>().unwrap_err();
    assert!(matches!(ReadError::from(error), ReadError::ParseFloatError(_)));
    let error = std::io::Error::new(std::io::ErrorKind::NotFound, "no such file");
    assert!(matches!(ReadError::from(error), ReadError::IoError(_)));
}
