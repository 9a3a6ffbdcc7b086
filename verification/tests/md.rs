//! The molecular dynamics propagator, read from the tables of an input.

use lumol::extract::{self, Error};
use lumol::md::{Alternator, Control, Integrator, MolecularDynamics, RemoveRotation};
use lumol::md::{RemoveTranslation, Rewrap, Thermostat};
use toml::{Table, Value};

fn text(s: &str) -> Value {
    Value::String(s.to_string())
}

fn table(entries: Vec<(&str, Value)>) -> Table {
    let mut table = Table::new();
    for (key, value) in entries {
        table.insert(key.to_string(), value);
    }
    table
}

/// A number followed by one of the units `fs`, `K` and `bar`.
fn units(text: &str) -> Result<f64, Error> {
    let mut parts = text.split_whitespace();
    let number = parts.next().and_then(|n| n.parse::<f64>().ok());
    match (number, parts.next()) {
        (Some(number), Some("fs")) | (Some(number), Some("K")) | (Some(number), Some("bar")) => {
            Ok(number)
        }
        _ => Err(Error { message: format!("bad unit in '{}'", text) }),
    }
}

fn from_integer(v: i64) -> f64 {
    v as f64
}

fn as_float(value: &Value) -> Option<f64> {
    value.as_float()
}

fn read(config: &Table) -> Result<MolecularDynamics<f64>, String> {
    MolecularDynamics::from_toml(config, &units, &from_integer, &as_float).map_err(|e| e.message)
}

fn failure(config: &Table) -> String {
    match read(config) {
        Ok(_) => panic!("the input was read"),
        Err(message) => message,
    }
}

#[test]
fn numbers() {
    let config = table(vec![
        ("whole", Value::Integer(3)),
        ("broken", Value::Float(2.5)),
        ("name", text("two")),
    ]);
    let number = |key: &str| {
        extract::number(key, &config, "thermostat", &from_integer, &as_float).map_err(|e| e.message)
    };
    assert_eq!(number("whole"), Ok(3.0));
    assert_eq!(number("broken"), Ok(2.5));
    assert_eq!(number("name"), Err("'name' must be a number in thermostat".to_string()));
    assert_eq!(number("none"), Err("Missing 'none' key in thermostat".to_string()));
}

#[test]
fn controls_from_toml() {
    let config = table(vec![("every", Value::Integer(4))]);
    let control = Alternator::<RemoveTranslation>::from_toml(&config).unwrap();
    assert_eq!(control, Alternator::new(4, RemoveTranslation::new()));
    let control = Alternator::<RemoveRotation>::from_toml(&config).unwrap();
    assert_eq!(control.every, 4);
    let control = Alternator::<Rewrap>::from_toml(&Table::new()).unwrap();
    assert_eq!(control.every, 1);

    let config = table(vec![("every", Value::Integer(-4))]);
    assert_eq!(
        Alternator::<RemoveTranslation>::from_toml(&config).unwrap_err().message,
        "'every' must be a positive integer in RemoveTranslation control"
    );
    assert_eq!(
        Alternator::<RemoveRotation>::from_toml(&config).unwrap_err().message,
        "'every' must be a positive integer in RemoveRotation control"
    );
    let config = table(vec![("every", text("often"))]);
    assert_eq!(
        Alternator::<Rewrap>::from_toml(&config).unwrap_err().message,
        "'every' must be a positive integer in Rewrap control"
    );
}

#[test]
fn timestep_only() {
    let md = read(&table(vec![("timestep", text("1.5 fs"))])).unwrap();
    assert_eq!(md.timestep, 1.5);
    assert!(md.integrator.is_none());
    assert!(md.thermostat.is_none());
    assert!(md.controls.is_empty());

    assert_eq!(failure(&Table::new()), "Missing 'timestep' key in molecular dynamics propagator");
    assert_eq!(
        failure(&table(vec![("timestep", Value::Float(1.5))])),
        "'timestep' must be a string in molecular dynamics propagator"
    );
    assert_eq!(failure(&table(vec![("timestep", text("1.5 m"))])), "bad unit in '1.5 m'");
}

#[test]
fn integrators() {
    let with = |integrator: Table| {
        table(vec![("timestep", text("2 fs")), ("integrator", Value::Table(integrator))])
    };
    for (name, expected) in [("Verlet", 0), ("VelocityVerlet", 1), ("LeapFrog", 2)] {
        let md = read(&with(table(vec![("type", text(name))]))).unwrap();
        let found = match md.integrator {
            Some(Integrator::Verlet { timestep }) => (0, timestep),
            Some(Integrator::VelocityVerlet { timestep }) => (1, timestep),
            Some(Integrator::LeapFrog { timestep }) => (2, timestep),
            _ => (3, 0.0),
        };
        assert_eq!(found, (expected, 2.0));
    }

    let barostat = table(vec![
        ("type", text("BerendsenBarostat")),
        ("pressure", text("100 bar")),
        ("timestep", Value::Integer(1000)),
    ]);
    match read(&with(barostat)).unwrap().integrator {
        Some(Integrator::BerendsenBarostat { timestep, pressure, tau }) => {
            assert_eq!((timestep, pressure, tau), (2.0, 100.0, 1000.0));
        }
        _ => panic!("another integrator"),
    }
    let barostat = table(vec![
        ("type", text("AnisoBerendsenBarostat")),
        ("pressure", text("50 bar")),
        ("timestep", Value::Float(0.5)),
    ]);
    match read(&with(barostat)).unwrap().integrator {
        Some(Integrator::AnisoBerendsenBarostat { timestep, pressure, tau }) => {
            assert_eq!((timestep, pressure, tau), (2.0, 50.0, 0.5));
        }
        _ => panic!("another integrator"),
    }

    assert_eq!(
        failure(&with(table(vec![("type", text("Euler"))]))),
        "Unknown integrator 'Euler'"
    );
    assert_eq!(failure(&with(Table::new())), "Missing 'type' key in integrator");
    assert_eq!(
        failure(&with(table(vec![("type", Value::Integer(1))]))),
        "'type' key must be a string in integrator"
    );
    assert_eq!(
        failure(&table(vec![("timestep", text("2 fs")), ("integrator", text("Verlet"))])),
        "'integrator' must be a table in molecular dynamics"
    );
    assert_eq!(
        failure(&with(table(vec![("type", text("BerendsenBarostat"))]))),
        "Missing 'pressure' key in Berendsen barostat"
    );
    assert_eq!(
        failure(&with(table(vec![
            ("type", text("AnisoBerendsenBarostat")),
            ("pressure", text("1 bar")),
            ("timestep", text("1000")),
        ]))),
        "'timestep' must be a number in anisotropic Berendsen barostat"
    );
    // the timestep is read before the integrator
    assert_eq!(
        failure(&table(vec![("timestep", text("2")), ("integrator", text("Verlet"))])),
        "bad unit in '2'"
    );
}

#[test]
fn thermostats() {
    let with = |thermostat: Table| {
        table(vec![("timestep", text("1 fs")), ("thermostat", Value::Table(thermostat))])
    };
    let berendsen = table(vec![
        ("type", text("Berendsen")),
        ("temperature", text("300 K")),
        ("timestep", Value::Integer(100)),
    ]);
    match read(&with(berendsen)).unwrap().thermostat {
        Some(Thermostat::Berendsen { temperature, tau }) => {
            assert_eq!((temperature, tau), (300.0, 100.0))
        }
        _ => panic!("another thermostat"),
    }
    let rescale = table(vec![("type", text("Rescale")), ("temperature", text("250 K"))]);
    match read(&with(rescale)).unwrap().thermostat {
        Some(Thermostat::Rescale { temperature, tolerance }) => {
            assert_eq!((temperature, tolerance), (250.0, None))
        }
        _ => panic!("another thermostat"),
    }
    let rescale = table(vec![
        ("type", text("Rescale")),
        ("temperature", text("250 K")),
        ("tolerance", text("10 K")),
    ]);
    match read(&with(rescale)).unwrap().thermostat {
        Some(Thermostat::Rescale { temperature, tolerance }) => {
            assert_eq!((temperature, tolerance), (250.0, Some(10.0)))
        }
        _ => panic!("another thermostat"),
    }

    assert_eq!(
        failure(&with(table(vec![
            ("type", text("Rescale")),
            ("temperature", text("250 K")),
            ("tolerance", Value::Integer(10)),
        ]))),
        "'tolerance' must be a string rescale thermostat"
    );
    assert_eq!(
        failure(&with(table(vec![("type", text("Rescale"))]))),
        "Missing 'temperature' key in Berendsen thermostat"
    );
    assert_eq!(
        failure(&with(table(vec![("type", text("Berendsen")), ("temperature", text("1 K"))]))),
        "Missing 'timestep' key in Berendsen thermostat"
    );
    assert_eq!(
        failure(&with(table(vec![("type", text("Andersen")), ("temperature", text("K"))]))),
        "Unknown thermostat type 'Andersen'"
    );
    assert_eq!(
        failure(&table(vec![("timestep", text("1 fs")), ("thermostat", Value::Integer(3))])),
        "'thermostat' must be a table in molecular dynamics"
    );
}

#[test]
fn controls() {
    let with = |controls: Value| table(vec![("timestep", text("1 fs")), ("controls", controls)]);
    let list = Value::Array(vec![
        Value::Table(table(vec![("type", text("RemoveRotation")), ("every", Value::Integer(5))])),
        Value::Table(table(vec![("type", text("Rewrap"))])),
        Value::Table(table(vec![("type", text("RemoveTranslation")), ("every", Value::Integer(2))])),
    ]);
    let md = read(&with(list)).unwrap();
    assert_eq!(
        md.controls,
        vec![
            Control::RemoveRotation(Alternator::new(5, RemoveRotation::new())),
            Control::Rewrap(Alternator::new(1, Rewrap::new())),
            Control::RemoveTranslation(Alternator::new(2, RemoveTranslation::new())),
        ]
    );
    assert!(read(&with(Value::Array(vec![]))).unwrap().controls.is_empty());

    let message = "'controls' must be an array of tables in molecular dynamics";
    assert_eq!(failure(&with(text("Rewrap"))), message);
    assert_eq!(failure(&with(Value::Array(vec![text("Rewrap")]))), message);
    assert_eq!(
        failure(&with(Value::Array(vec![
            Value::Table(table(vec![("type", text("Rewrap"))])),
            Value::Table(table(vec![("type", text("Freeze"))])),
            Value::Integer(1),
        ]))),
        "Unknown control 'Freeze'"
    );
    assert_eq!(
        failure(&with(Value::Array(vec![Value::Table(Table::new())]))),
        "Missing 'type' key in control"
    );
    assert_eq!(
        failure(&with(Value::Array(vec![Value::Table(table(vec![
            ("type", text("Rewrap")),
            ("every", Value::Float(2.0)),
        ]))]))),
        "'every' must be a positive integer in Rewrap control"
    );
}
