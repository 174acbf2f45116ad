use niri::config::{StackPosition, StageManagerConfig, StageManagerPart};
use niri::config_kdl::{parse_stage_manager_config, ConfigError};

fn parse(text: &str) -> Result<Option<StageManagerConfig>, ConfigError> {
    parse_stage_manager_config(text)
}

fn section(body: &str) -> Result<Option<StageManagerConfig>, ConfigError> {
    parse(&format!("layout {{\n    stage-manager {{\n{body}\n    }}\n}}\n"))
}

fn millionths(v: i64) -> f64 {
    v as f64 / 1e6
}

#[test]
fn stage_manager_parses() {
    let config = parse(
        r#"
            layout {
                stage-manager {
                    proportion 0.7
                }
            }
            "#,
    )
    .unwrap();

    let sm = config.unwrap();
    assert!((millionths(sm.proportion) - 0.7).abs() < f64::EPSILON);
    assert_eq!(sm.max_cast_groups, 6);
    assert!((millionths(sm.thumb_scale) - 0.15).abs() < f64::EPSILON);
    assert!(!sm.stack_by_app);
    assert!(!sm.auto_use_as_main);
    assert_eq!(sm.auto_use_as_main_delay_ms, 2000);
}

#[test]
fn stage_manager_stack_by_app_parses() {
    let config = parse(
        r#"
            layout {
                stage-manager {
                    stack-by-app true
                }
            }
            "#,
    )
    .unwrap();

    assert!(config.unwrap().stack_by_app);
}

#[test]
fn stage_manager_proportion_is_clamped() {
    let config = parse(
        r#"
            layout {
                stage-manager {
                    proportion 0.05
                }
            }
            "#,
    )
    .unwrap();

    let sm = config.unwrap();
    assert!((millionths(sm.proportion) - 0.1).abs() < f64::EPSILON);
}

#[test]
fn stage_manager_stack_position_parses() {
    for (value, expected) in [
        ("left", StackPosition::Left),
        ("right", StackPosition::Right),
        ("top", StackPosition::Top),
        ("bottom", StackPosition::Bottom),
    ] {
        let config = parse(&format!(
            r#"
                layout {{
                    stage-manager {{
                        stack-position "{value}"
                    }}
                }}
                "#
        ))
        .unwrap();

        assert_eq!(config.unwrap().stack_position, expected);
    }
}

#[test]
fn no_stage_manager_section_gives_none() {
    assert_eq!(parse("layout {\n    gaps 16\n}\n"), Ok(None));
    assert_eq!(parse(""), Ok(None));
    assert_eq!(parse("input {\n}\n"), Ok(None));
}

#[test]
fn empty_section_gives_defaults() {
    let sm = section("").unwrap().unwrap();
    assert_eq!(sm, StageManagerConfig::default());
    assert_eq!(sm.stack_position, StackPosition::Left);
    assert_eq!(sm.proportion, 700_000);
    assert_eq!(sm.thumb_scale, 150_000);
}

#[test]
fn all_values_parse() {
    let sm = section(
        "stack-position \"bottom\"\nproportion 0.55\nmax-cast-groups 3\nthumb-scale 0.2\n\
         stack-by-app\nauto-use-as-main false\nauto-use-as-main-delay-ms 750",
    )
    .unwrap()
    .unwrap();
    assert_eq!(sm.stack_position, StackPosition::Bottom);
    assert_eq!(sm.proportion, 550_000);
    assert_eq!(sm.max_cast_groups, 3);
    assert_eq!(sm.thumb_scale, 200_000);
    assert!(sm.stack_by_app);
    assert!(!sm.auto_use_as_main);
    assert_eq!(sm.auto_use_as_main_delay_ms, 750);
}

#[test]
fn integers_and_decimals_are_accepted_for_numbers() {
    assert_eq!(section("proportion 1").unwrap().unwrap().proportion, 900_000);
    assert_eq!(section("max-cast-groups 2.9").unwrap().unwrap().max_cast_groups, 2);
    assert_eq!(section("thumb-scale 0.25").unwrap().unwrap().thumb_scale, 250_000);
    assert_eq!(section("thumb-scale 0.9").unwrap().unwrap().thumb_scale, 300_000);
    assert_eq!(section("proportion 0.1234567").unwrap().unwrap().proportion, 123_456);
    assert_eq!(section("proportion 0x1").unwrap().unwrap().proportion, 900_000);
    assert_eq!(section("proportion 1_0e-1").unwrap().unwrap().proportion, 900_000);
    assert_eq!(section("auto-use-as-main-delay-ms 60000").unwrap().unwrap().auto_use_as_main_delay_ms, 60_000);
    assert_eq!(section("auto-use-as-main-delay-ms 0.5").unwrap().unwrap().auto_use_as_main_delay_ms, 0);
}

#[test]
fn numbers_with_exponents_and_long_digits() {
    assert_eq!(section("proportion 5e-1").unwrap().unwrap().proportion, 500_000);
    assert_eq!(section("thumb-scale 2.5E-1").unwrap().unwrap().thumb_scale, 250_000);
    assert_eq!(section("max-cast-groups 1.2e1").unwrap().unwrap().max_cast_groups, 12);
    assert_eq!(section("auto-use-as-main-delay-ms 6e4").unwrap().unwrap().auto_use_as_main_delay_ms, 60_000);
    assert_eq!(section("auto-use-as-main-delay-ms 6.00001e4"), Err(ConfigError::Invalid));
    assert_eq!(section("proportion 1e5"), Err(ConfigError::Invalid));
    assert_eq!(section("proportion 1e400"), Err(ConfigError::Invalid));
    assert_eq!(section("proportion 1e-400").unwrap().unwrap().proportion, 100_000);
    assert_eq!(section("proportion -0e0").unwrap().unwrap().proportion, 100_000);
    assert_eq!(section("proportion 0000000000000000000.5").unwrap().unwrap().proportion, 500_000);
    assert_eq!(section("proportion 0.50000000000000000000001").unwrap().unwrap().proportion, 500_000);
    assert_eq!(section("proportion 00000000000000000001.0"), Ok(Some(StageManagerConfig {
        proportion: 900_000,
        ..StageManagerConfig::default()
    })));
}

#[test]
fn numbers_out_of_range_are_refused() {
    assert_eq!(section("proportion 1.5"), Err(ConfigError::Invalid));
    assert_eq!(section("proportion 1.0000001"), Err(ConfigError::Invalid));
    assert_eq!(section("proportion -0.0000001"), Err(ConfigError::Invalid));
    assert_eq!(section("proportion 2"), Err(ConfigError::Invalid));
    assert_eq!(section("proportion -1"), Err(ConfigError::Invalid));
    assert_eq!(section("max-cast-groups 0"), Err(ConfigError::Invalid));
    assert_eq!(section("max-cast-groups 13"), Err(ConfigError::Invalid));
    assert_eq!(section("auto-use-as-main-delay-ms 60001"), Err(ConfigError::Invalid));
    assert_eq!(section("thumb-scale 99999999999999999999"), Err(ConfigError::Invalid));
}

#[test]
fn boundary_numbers_are_accepted() {
    assert_eq!(section("proportion 1.0").unwrap().unwrap().proportion, 900_000);
    assert_eq!(section("proportion 0.0000001").unwrap().unwrap().proportion, 100_000);
    assert_eq!(section("proportion -0.0").unwrap().unwrap().proportion, 100_000);
    assert_eq!(section("max-cast-groups 12.0").unwrap().unwrap().max_cast_groups, 12);
}

#[test]
fn values_of_the_wrong_kind_are_refused() {
    assert_eq!(section("proportion \"0.5\""), Err(ConfigError::Invalid));
    assert_eq!(section("proportion true"), Err(ConfigError::Invalid));
    assert_eq!(section("proportion"), Err(ConfigError::Invalid));
    assert_eq!(section("proportion 0.5 0.6"), Err(ConfigError::Invalid));
    assert_eq!(section("proportion 0.5 x=1"), Err(ConfigError::Invalid));
    assert_eq!(section("stack-position \"middle\""), Err(ConfigError::Invalid));
    assert_eq!(section("stack-position 1"), Err(ConfigError::Invalid));
    assert_eq!(section("stack-by-app 1"), Err(ConfigError::Invalid));
    assert_eq!(section("stack-by-app true false"), Err(ConfigError::Invalid));
    assert_eq!(section("stack-by-app { x; }"), Err(ConfigError::Invalid));
}

#[test]
fn unknown_and_duplicate_nodes_are_refused() {
    assert_eq!(section("proportion-vertical 0.5"), Err(ConfigError::Invalid));
    assert_eq!(section("proportion 0.5\nproportion 0.6"), Err(ConfigError::Invalid));
    assert_eq!(section("stack-by-app\nstack-by-app"), Err(ConfigError::Invalid));
    assert_eq!(
        parse("layout {\n stage-manager {\n }\n stage-manager {\n }\n}\n"),
        Err(ConfigError::Invalid)
    );
    assert_eq!(parse("layout {\n stage-manager 1 {\n }\n}\n"), Err(ConfigError::Invalid));
    assert_eq!(parse("layout x=1 {\n stage-manager {\n }\n}\n"), Err(ConfigError::Invalid));
}

#[test]
fn flags_default_to_true() {
    let sm = section("stack-by-app\nauto-use-as-main").unwrap().unwrap();
    assert!(sm.stack_by_app);
    assert!(sm.auto_use_as_main);
    assert!(!section("stack-by-app false").unwrap().unwrap().stack_by_app);
}

#[test]
fn later_layout_section_replaces_earlier() {
    let text = "layout {\n stage-manager {\n max-cast-groups 3\n }\n}\n\
                layout {\n gaps 8\n}\n\
                layout {\n stage-manager {\n proportion 0.5\n }\n}\n";
    let sm = parse(text).unwrap().unwrap();
    assert_eq!(sm.proportion, 500_000);
    assert_eq!(sm.max_cast_groups, 6);

    let text = "layout {\n stage-manager {\n max-cast-groups 3\n }\n}\nlayout {\n gaps 8\n}\n";
    assert_eq!(parse(text).unwrap().unwrap().max_cast_groups, 3);
}

#[test]
fn invalid_kdl_is_a_syntax_error() {
    assert_eq!(parse("layout {"), Err(ConfigError::Syntax));
    assert_eq!(parse("layout { stage-manager { proportion 0.5 } } }"), Err(ConfigError::Syntax));
}

#[test]
fn from_part_clamps_and_defaults() {
    let mut part = StageManagerPart::default();
    assert_eq!(StageManagerConfig::from_part(&part), StageManagerConfig::default());
    part.proportion = Some(50_000);
    part.max_cast_groups = Some(20 * 1_000_000);
    part.thumb_scale = Some(900_000);
    part.auto_use_as_main_delay_ms = Some(1_500_900_000);
    part.stack_position = Some(StackPosition::Top);
    let c = StageManagerConfig::from_part(&part);
    assert_eq!(c.proportion, 100_000);
    assert_eq!(c.max_cast_groups, 12);
    assert_eq!(c.thumb_scale, 300_000);
    assert_eq!(c.auto_use_as_main_delay_ms, 1500);
    assert_eq!(c.stack_position, StackPosition::Top);
    assert!(!c.stack_position.is_vertical());
    assert!(StackPosition::Right.is_vertical());
}
