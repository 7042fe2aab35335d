use tilings::geometry::antwerp::{Configuration, ParseError};
use tilings::geometry::notation::{Transformation, TransformationSource, VertexType};

fn sample_plain() -> Configuration {
    Configuration {
        seed: 3,
        phases: vec![],
        transformations: vec![
            Transformation::Reflection(TransformationSource::Origin(Some(30))),
            Transformation::Rotation(TransformationSource::Vertex(VertexType::Edge(2))),
        ],
    }
}

fn sample_one_phase() -> Configuration {
    Configuration {
        seed: 12,
        phases: vec![vec![6, 4]],
        transformations: vec![
            Transformation::Reflection(TransformationSource::Origin(Some(30))),
            Transformation::Rotation(TransformationSource::Vertex(VertexType::Centre(2))),
        ],
    }
}

fn sample_three_rotations() -> Configuration {
    Configuration {
        seed: 6,
        phases: vec![vec![3, 0, 3, 3, 3, 3]],
        transformations: vec![
            Transformation::Rotation(TransformationSource::Vertex(VertexType::Edge(4))),
            Transformation::Rotation(TransformationSource::Vertex(VertexType::Corner(15))),
            Transformation::Rotation(TransformationSource::Vertex(VertexType::Corner(30))),
        ],
    }
}

#[test]
fn antwerp_display() {
    fn test(config: Configuration, expected: &str) {
        let actual = config.to_string();
        assert_eq!(actual, expected);
    }

    test(sample_plain(), "3/m30/r(h2)");
    test(sample_one_phase(), "12-6,4/m30/r(c2)");
    test(sample_three_rotations(), "6-3,0,3,3,3,3/r(h4)/r(v15)/r(v30)");
}

#[test]
fn string_conversion() {
    fn test(config_string: &str, expected: Result<Configuration, &str>) {
        let actual = Configuration::try_from(config_string).map_err(|error| error.message());
        assert_eq!(actual, expected);
    }

    test("3/m30/r(h2)", Ok(sample_plain()));
    test("12-6,4/m30/r(c2)", Ok(sample_one_phase()));
    test("6-3,0,3,3,3,3/r(h4)/r(v15)/r(v30)", Ok(sample_three_rotations()));
    test(
        "3",
        Err("Configuration string must have at least one transformation"),
    );
    test("x/m30/r(h2)", Err("Invalid seed in configuration string"));
    test("3-x/m30/r(h2)", Err("Invalid shape in configuration string"));
    test(
        "3/x30/r(h2)",
        Err("Unknown transformation character in configuration string"),
    );
    test(
        "3/m30/r(x2)",
        Err("Unknown vertex type character in configuration string"),
    );
}

#[test]
fn errors_hold_the_offending_text() {
    fn test(text: &str, expected: ParseError) {
        assert_eq!(Configuration::try_from(text), Err(expected));
    }

    test("3", ParseError::MissingTransformations("3".to_string()));
    test("", ParseError::MissingTransformations(String::new()));
    test("x/m30/r(h2)", ParseError::InvalidSeed("x".to_string()));
    test("/r", ParseError::InvalidSeed(String::new()));
    test("3-x/m30/r(h2)", ParseError::InvalidShape("x".to_string()));
    test("3-4,5x,y/r", ParseError::InvalidShape("5x".to_string()));
    test("3-/r", ParseError::InvalidShape(String::new()));
    test("3-4,/r", ParseError::InvalidShape(String::new()));
    test("3/", ParseError::EmptyTransformation);
    test("3/r//m", ParseError::EmptyTransformation);
    test("3/x30/r(h2)", ParseError::UnknownTransformationChar("x30".to_string()));
    test("3/r()", ParseError::EmptyVertexSpecifier("()".to_string()));
    test("3/rx", ParseError::EmptyVertexSpecifier("x".to_string()));
    test("3/m30/r(x2)", ParseError::UnknownVertexTypeChar("x2".to_string()));
    test("3/r(v)", ParseError::InvalidVertexIndex(String::new()));
    test("3/r(v-1)", ParseError::InvalidVertexIndex("-1".to_string()));
}

#[test]
fn every_error_has_its_message() {
    fn message(text: &str) -> &'static str {
        Configuration::try_from(text).unwrap_err().message()
    }

    assert_eq!(message("3"), "Configuration string must have at least one transformation");
    assert_eq!(message("x/r"), "Invalid seed in configuration string");
    assert_eq!(message("3-x/r"), "Invalid shape in configuration string");
    assert_eq!(message("3/"), "Empty transformation in configuration string");
    assert_eq!(message("3/x"), "Unknown transformation character in configuration string");
    assert_eq!(message("3/r()"), "Empty vertex specifier in configuration string");
    assert_eq!(message("3/r(x2)"), "Unknown vertex type character in configuration string");
    assert_eq!(message("3/r(vx)"), "Invalid vertex index in configuration string");
}

#[test]
fn the_first_failure_is_reported() {
    // The seed and the phases are read before the transformations.
    assert_eq!(
        Configuration::try_from("3-x/q"),
        Err(ParseError::InvalidShape("x".to_string()))
    );
    assert_eq!(
        Configuration::try_from("y-x/q"),
        Err(ParseError::InvalidSeed("y".to_string()))
    );
    // The letter of a transformation is looked at before its source.
    assert_eq!(
        Configuration::try_from("3/x(y2)"),
        Err(ParseError::UnknownTransformationChar("x(y2)".to_string()))
    );
    assert_eq!(
        Configuration::try_from("3/q"),
        Err(ParseError::UnknownTransformationChar("q".to_string()))
    );
    // The letter of a vertex is looked at before its index.
    assert_eq!(
        Configuration::try_from("3/r(xy)"),
        Err(ParseError::UnknownVertexTypeChar("xy".to_string()))
    );
    // Transformations are read from left to right.
    assert_eq!(
        Configuration::try_from("3/r(v)/q"),
        Err(ParseError::InvalidVertexIndex(String::new()))
    );
}

#[test]
fn sources_without_and_with_angle() {
    let parsed = Configuration::try_from("4/r/m/r90").unwrap();
    assert_eq!(parsed.seed, 4);
    assert_eq!(parsed.phases, Vec::<Vec<usize>>::new());
    assert_eq!(
        parsed.transformations,
        vec![
            Transformation::Rotation(TransformationSource::Origin(None)),
            Transformation::Reflection(TransformationSource::Origin(None)),
            Transformation::Rotation(TransformationSource::Origin(Some(90))),
        ]
    );
    assert_eq!(parsed.to_string(), "4/r/m/r90");
}

#[test]
fn several_phases_keep_their_order() {
    let parsed = Configuration::try_from("3-4-6,12-8/m(c0)").unwrap();
    assert_eq!(parsed.seed, 3);
    assert_eq!(parsed.phases, vec![vec![4], vec![6, 12], vec![8]]);
    assert_eq!(
        parsed.transformations,
        vec![Transformation::Reflection(TransformationSource::Vertex(
            VertexType::Centre(0)
        ))]
    );
    assert_eq!(parsed.to_string(), "3-4-6,12-8/m(c0)");
}

#[test]
fn numbers_may_have_a_plus_sign_and_leading_zeros() {
    let parsed = Configuration::try_from("+3-007/r+30").unwrap();
    assert_eq!(parsed.seed, 3);
    assert_eq!(parsed.phases, vec![vec![7]]);
    assert_eq!(
        parsed.transformations,
        vec![Transformation::Rotation(TransformationSource::Origin(Some(30)))]
    );
    // Only the canonical text is written.
    assert_eq!(parsed.to_string(), "3-7/r30");
    assert_eq!(
        Configuration::try_from("+/r"),
        Err(ParseError::InvalidSeed("+".to_string()))
    );
    assert_eq!(
        Configuration::try_from("-3/r"),
        Err(ParseError::InvalidSeed(String::new()))
    );
}

#[test]
fn numbers_beyond_the_machine_word_are_refused() {
    let largest = usize::MAX.to_string();
    let text = format!("{}-{}/r{}", largest, largest, largest);
    let parsed = Configuration::try_from(text.as_str()).unwrap();
    assert_eq!(parsed.seed, usize::MAX);
    assert_eq!(parsed.phases, vec![vec![usize::MAX]]);
    assert_eq!(
        parsed.transformations,
        vec![Transformation::Rotation(TransformationSource::Origin(Some(usize::MAX)))]
    );
    assert_eq!(parsed.to_string(), text);

    let too_large = format!("{}0", largest);
    assert_eq!(
        Configuration::try_from(format!("{}/r", too_large).as_str()),
        Err(ParseError::InvalidSeed(too_large.clone()))
    );
    assert_eq!(
        Configuration::try_from("99999999999999999999999999999999999999999/r"),
        Err(ParseError::InvalidSeed(
            "99999999999999999999999999999999999999999".to_string()
        ))
    );
}

#[test]
fn the_ends_of_a_vertex_source_are_not_looked_at() {
    // One character is taken from each end, whatever it is.
    let parsed = Configuration::try_from("3/r[h2]/m\u{e9}v7\u{e9}").unwrap();
    assert_eq!(
        parsed.transformations,
        vec![
            Transformation::Rotation(TransformationSource::Vertex(VertexType::Edge(2))),
            Transformation::Reflection(TransformationSource::Vertex(VertexType::Corner(7))),
        ]
    );
    assert_eq!(parsed.to_string(), "3/r(h2)/m(v7)");
}

#[test]
fn round_trip_on_chosen_configurations() {
    for configuration in [sample_plain(), sample_one_phase(), sample_three_rotations()] {
        assert!(configuration.is_well_formed());
        let text = configuration.to_string();
        assert_eq!(Configuration::try_from(text.as_str()), Ok(configuration));
    }
    for text in ["0/r", "3/m30/r(h2)", "12-6,4/m30/r(c2)", "8-4-8,8/r(v0)/m/r45"] {
        let parsed = Configuration::try_from(text).unwrap();
        assert!(parsed.is_well_formed());
        assert_eq!(parsed.to_string(), text);
    }
}

#[test]
fn configurations_that_no_text_denotes() {
    let no_transformation = Configuration {
        seed: 3,
        phases: vec![],
        transformations: vec![],
    };
    assert!(!no_transformation.is_well_formed());
    assert_eq!(no_transformation.to_string(), "3/");
    assert_eq!(
        Configuration::try_from("3/"),
        Err(ParseError::EmptyTransformation)
    );

    let empty_phase = Configuration::new(
        3,
        vec![vec![4], vec![]],
        vec![Transformation::Rotation(TransformationSource::Origin(None))],
    );
    assert!(!empty_phase.is_well_formed());
    assert_eq!(empty_phase.to_string(), "3-4-/r");
    assert_eq!(
        Configuration::try_from("3-4-/r"),
        Err(ParseError::InvalidShape(String::new()))
    );
}

#[test]
fn reading_and_writing_are_repeatable() {
    let text = "6-3,0,3,3,3,3/r(h4)/r(v15)/r(v30)";
    assert_eq!(Configuration::try_from(text), Configuration::try_from(text));
    assert_eq!(Configuration::try_from("3-x/r"), Configuration::try_from("3-x/r"));
    assert_eq!(sample_one_phase().to_string(), sample_one_phase().to_string());
}

#[test]
fn parts_have_their_own_text() {
    assert_eq!(VertexType::Corner(15).to_string(), "v15");
    assert_eq!(VertexType::Centre(2).to_string(), "c2");
    assert_eq!(VertexType::Edge(0).to_string(), "h0");
    assert_eq!(TransformationSource::Origin(None).to_string(), "");
    assert_eq!(TransformationSource::Origin(Some(120)).to_string(), "120");
    assert_eq!(
        TransformationSource::Vertex(VertexType::Edge(4)).to_string(),
        "(h4)"
    );
    assert_eq!(
        Transformation::Rotation(TransformationSource::Origin(Some(60))).to_string(),
        "r60"
    );
    assert_eq!(
        Transformation::Reflection(TransformationSource::Vertex(VertexType::Corner(1))).to_string(),
        "m(v1)"
    );
}
