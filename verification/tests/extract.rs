//! Values out of the tables of an input file.

use lumol::extract;
use toml::{Table, Value};

fn config() -> Table {
    let mut inner = Table::new();
    inner.insert("type".to_string(), Value::String("Verlet".to_string()));
    let mut table = Table::new();
    table.insert("name".to_string(), Value::String("water".to_string()));
    table.insert("every".to_string(), Value::Integer(7));
    table.insert("below".to_string(), Value::Integer(-3));
    table.insert("zero".to_string(), Value::Integer(0));
    table.insert("flag".to_string(), Value::Boolean(true));
    table.insert("type".to_string(), Value::Integer(4));
    table.insert("integrator".to_string(), Value::Table(inner));
    table.insert(
        "list".to_string(),
        Value::Array(vec![Value::Integer(1), Value::String("two".to_string())]),
    );
    table
}

#[test]
fn tables() {
    let config = config();
    let inner = extract::table("integrator", &config, "molecular dynamics").unwrap();
    assert_eq!(inner.get("type"), Some(&Value::String("Verlet".to_string())));
    assert_eq!(
        extract::table("thermostat", &config, "molecular dynamics").unwrap_err().message,
        "Missing 'thermostat' key in molecular dynamics"
    );
    assert_eq!(
        extract::table("name", &config, "molecular dynamics").unwrap_err().message,
        "'name' must be a table in molecular dynamics"
    );
}

#[test]
fn strings() {
    let config = config();
    assert_eq!(extract::str("name", &config, "system").unwrap(), "water");
    assert_eq!(
        extract::str("file", &config, "system").unwrap_err().message,
        "Missing 'file' key in system"
    );
    assert_eq!(
        extract::str("every", &config, "system").unwrap_err().message,
        "'every' must be a string in system"
    );
}

#[test]
fn unsigned_integers() {
    let config = config();
    assert_eq!(extract::uint("every", &config, "control").unwrap(), 7);
    assert_eq!(extract::uint("zero", &config, "control").unwrap(), 0);
    assert_eq!(
        extract::uint("below", &config, "control").unwrap_err().message,
        "'below' must be a positive integer in control"
    );
    assert_eq!(
        extract::uint("name", &config, "control").unwrap_err().message,
        "'name' must be a positive integer in control"
    );
    assert_eq!(
        extract::uint("often", &config, "control").unwrap_err().message,
        "Missing 'often' key in control"
    );
}

#[test]
fn arrays() {
    let config = config();
    let items = extract::slice("list", &config, "controls").unwrap();
    assert_eq!(items, &[Value::Integer(1), Value::String("two".to_string())]);
    assert_eq!(
        extract::slice("flag", &config, "controls").unwrap_err().message,
        "'flag' must be an array in controls"
    );
    assert_eq!(
        extract::slice("none", &config, "controls").unwrap_err().message,
        "Missing 'none' key in controls"
    );
}

#[test]
fn types() {
    let config = config();
    let inner = extract::table("integrator", &config, "molecular dynamics").unwrap();
    assert_eq!(extract::typ(inner, "integrator").unwrap(), "Verlet");
    assert_eq!(
        extract::typ(&config, "propagator").unwrap_err().message,
        "'type' key must be a string in propagator"
    );
    assert_eq!(
        extract::typ(&Table::new(), "propagator").unwrap_err().message,
        "Missing 'type' key in propagator"
    );
}
