use opencast::calculator::{parse, unit, CalcError, Dimension, Request, Unit};

fn math(expression: &str) -> Result<Request, CalcError> {
    Ok(Request::Math {
        expression: expression.to_string(),
    })
}

fn convert(expression: &str, from: Unit, to: Unit, target: &str) -> Result<Request, CalcError> {
    Ok(Request::Convert {
        expression: expression.to_string(),
        from,
        to,
        target: target.to_string(),
    })
}

#[test]
fn arithmetic_requests() {
    assert_eq!(parse("(24 + 8) / 2"), math("(24 + 8) / 2"));
    assert_eq!(parse("2^3 + sqrt(144)"), math("2^3 + sqrt(144)"));
    assert_eq!(parse("−2 × 3"), math("-2 * 3"));
    assert_eq!(parse("  = 6 ÷ 3 "), math("6 / 3"));
    assert_eq!(parse("sqrt(-1)"), math("sqrt(-1)"));
    assert_eq!(parse("pi * 2"), math("pi * 2"));
}

#[test]
fn conversion_requests() {
    assert_eq!(parse("10km to mi"), convert("10", Unit::Kilometre, Unit::Mile, "mi"));
    assert_eq!(parse("(2+3) kg to g"), convert("(2+3)", Unit::Kilogram, Unit::Gram, "g"));
    assert_eq!(parse("1 GiB to MiB"), convert("1", Unit::Gibibyte, Unit::Mebibyte, "MiB"));
    assert_eq!(parse("32 f to c"), convert("32", Unit::Fahrenheit, Unit::Celsius, "c"));
    assert_eq!(parse("100 c in f"), convert("100", Unit::Celsius, Unit::Fahrenheit, "f"));
    assert_eq!(parse("90 min to h"), convert("90", Unit::Minute, Unit::Hour, "h"));
    // The last " to " splits the conversion.
    assert_eq!(parse("5 in to to cm"), Err(CalcError::UnknownUnit { name: "in to".to_string() }));
}

#[test]
fn refused_requests() {
    assert_eq!(parse("1 kg to km"), Err(CalcError::DifferentDimensions));
    assert_eq!(
        parse("10 xyz to m"),
        Err(CalcError::UnknownUnit {
            name: "xyz".to_string()
        })
    );
    assert_eq!(
        parse("10 m to xyz"),
        Err(CalcError::UnknownUnit {
            name: "xyz".to_string()
        })
    );
    assert_eq!(parse("km to mi"), Err(CalcError::Shape));
    assert_eq!(parse(&"1".repeat(513)), Err(CalcError::TooLong));
    assert_eq!(parse(&"1".repeat(512)), math(&"1".repeat(512)));
    assert_eq!(parse("report.pdf"), Ok(Request::Skip));
    assert_eq!(parse("   "), Ok(Request::Skip));
    assert_eq!(parse("=="), Ok(Request::Skip));
}

#[test]
fn error_messages() {
    assert_eq!(
        CalcError::TooLong.message(),
        "Expression is too long (maximum 512 characters)."
    );
    assert_eq!(CalcError::Shape.message(), "Try a conversion like 10 km to mi.");
    assert_eq!(
        CalcError::UnknownUnit {
            name: "xyz".to_string()
        }
        .message(),
        "Unknown unit: xyz"
    );
    assert_eq!(
        CalcError::DifferentDimensions.message(),
        "These units measure different things."
    );
}

#[test]
fn unit_names() {
    assert_eq!(unit("KM"), Some(Unit::Kilometre));
    assert_eq!(unit("°F"), Some(Unit::Fahrenheit));
    assert_eq!(unit("Radians"), Some(Unit::Radian));
    assert_eq!(unit("kib"), Some(Unit::Kibibyte));
    assert_eq!(unit("furlong"), None);
    assert_eq!(Unit::Gallon.dimension(), Dimension::Volume);
    assert_eq!(Unit::Kelvin.dimension(), Dimension::Temperature);
}

#[test]
fn to_and_in_and_unit_case() {
    assert_eq!(parse("10 km in mi"), parse("10 km to mi"));
    assert_eq!(parse("= (2+3) kg in g "), parse("(2+3) kg to g"));
    assert_eq!(parse("10 KM to MI"), convert("10", Unit::Kilometre, Unit::Mile, "MI"));
    assert_eq!(unit("GiB"), unit("gib"));
    assert_eq!(unit("CELSIUS"), Some(Unit::Celsius));
}

#[test]
fn keyword_after_only_equals_signs() {
    // Cleaning eats the '=' signs and the blank before the keyword; neither text
    // is then a conversion or arithmetic.
    assert_eq!(parse("= to 5 km"), Ok(Request::Skip));
    assert_eq!(parse("= in 5 km"), Ok(Request::Skip));
    assert_eq!(parse(" 2 m to  cm "), parse(" 2 m in  cm "));
}
