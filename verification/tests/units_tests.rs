use rust_labs::units::{div_unit, mul_unit, mul_units};

#[test]
fn units_combine() {
    assert_eq!(mul_unit("", "km"), "km");
    assert_eq!(mul_unit("km", "h"), "km * h");
    assert_eq!(div_unit("km", "min"), "km / min");
    assert_eq!(div_unit("", "s"), " / s");
    let units = vec!["🍌".to_string(), "🍺".to_string(), "🍺".to_string()];
    assert_eq!(mul_units(&units), "🍌 * 🍺 * 🍺");
    assert_eq!(mul_units(&[]), "");
}
