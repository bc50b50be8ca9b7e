use relativity::palette::{color_of, get_color};
use relativity::scene::{
    parse_clock_type, plan_scene, select_follow, validate_object, BuildError, ClockType,
    ObjectDesc, ObjectStyle,
};

fn desc(n_events: usize, color: &str, clock: Option<&str>, follow: bool) -> ObjectDesc {
    ObjectDesc {
        n_events,
        color: color.to_string(),
        clock: clock.map(|c| c.to_string()),
        follow,
    }
}

#[test]
fn palette_colors() {
    assert_eq!(get_color("red"), 0xff0000);
    assert_eq!(get_color("blue"), 0x0000ff);
    assert_eq!(get_color("green"), 0x00ff00);
    assert_eq!(get_color("yellow"), 0xffff00);
    assert_eq!(get_color("violet"), 0xff00ff);
}

#[test]
fn palette_rejects_unknown_names() {
    assert_eq!(color_of("purple"), None);
    assert_eq!(color_of("Red"), None);
    assert_eq!(color_of(""), None);
    assert_eq!(color_of("red "), None);
}

#[test]
fn clock_tags() {
    assert_eq!(parse_clock_type("once"), Some(ClockType::Once));
    assert_eq!(parse_clock_type("repeat"), Some(ClockType::Repeat));
    assert_eq!(parse_clock_type("twice"), None);
    assert_eq!(parse_clock_type(""), None);
}

#[test]
fn object_validation_errors() {
    assert_eq!(validate_object(1, "red", None), Err(BuildError::TooFewEvents));
    assert_eq!(validate_object(0, "nope", Some("bad")), Err(BuildError::TooFewEvents));
    assert_eq!(validate_object(3, "nope", None), Err(BuildError::UnknownColor));
    assert_eq!(validate_object(3, "blue", Some("sometimes")), Err(BuildError::UnknownClockMode));
}

#[test]
fn object_validation_success() {
    assert_eq!(
        validate_object(2, "green", None),
        Ok(ObjectStyle { color: 0x00ff00, clock: None })
    );
    assert_eq!(
        validate_object(3, "yellow", Some("once")),
        Ok(ObjectStyle { color: 0xffff00, clock: Some(ClockType::Once) })
    );
}

#[test]
fn follow_selection() {
    assert_eq!(select_follow(&vec![false, true, false]), Ok(1));
    assert_eq!(select_follow(&vec![true]), Ok(0));
    assert_eq!(select_follow(&vec![]), Err(BuildError::NoFollow));
    assert_eq!(select_follow(&vec![false, false]), Err(BuildError::NoFollow));
    assert_eq!(select_follow(&vec![true, false, true]), Err(BuildError::MultipleFollow));
}

#[test]
fn scene_plan_success() {
    let descs = vec![
        desc(3, "red", None, false),
        desc(3, "blue", Some("repeat"), true),
        desc(2, "violet", Some("once"), false),
    ];
    let plan = plan_scene(&descs).unwrap();
    assert_eq!(plan.follow, 1);
    assert_eq!(
        plan.styles,
        vec![
            ObjectStyle { color: 0xff0000, clock: None },
            ObjectStyle { color: 0x0000ff, clock: Some(ClockType::Repeat) },
            ObjectStyle { color: 0xff00ff, clock: Some(ClockType::Once) },
        ]
    );
}

#[test]
fn scene_plan_first_error_wins() {
    let descs = vec![
        desc(3, "red", None, true),
        desc(3, "brown", None, false),
        desc(1, "red", None, true),
    ];
    assert_eq!(plan_scene(&descs).unwrap_err(), BuildError::UnknownColor);
}

#[test]
fn scene_plan_follow_errors() {
    let none = vec![desc(3, "red", None, false), desc(2, "blue", None, false)];
    assert_eq!(plan_scene(&none).unwrap_err(), BuildError::NoFollow);
    let two = vec![desc(3, "red", None, true), desc(2, "blue", None, true)];
    assert_eq!(plan_scene(&two).unwrap_err(), BuildError::MultipleFollow);
    assert_eq!(plan_scene(&vec![]).unwrap_err(), BuildError::NoFollow);
}
