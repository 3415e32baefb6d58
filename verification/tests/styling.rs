//! Style directives, the fill-in merge against defaults, and typed
//! property extraction.

use folium::ast::{AbstractElementID, ElementType, GlobalState};
use folium::error::FoliumError;
use folium::interpreter::load;
use folium::layout::SizeSpec;
use folium::style::{
    extract_boolean, extract_colour, extract_number, extract_size_spec, extract_string,
    PropertySet, PropertyValue, StyleMap, StyleTarget,
};

#[test]
fn styled_slide() {
    let mut global = GlobalState::new();
    let source = String::from(r#"[ padding ( text ("joop") ) padding { amount: 10, } ]"#);
    assert_eq!(Ok(()), load(&mut global, source));

    let slide = &global.slides[0];

    let padding_style = slide
        .style_map()
        .styles_for_target(&StyleTarget::Anonymous(ElementType::Padding))
        .unwrap();
    let padding_amount = padding_style.get("amount").unwrap();
    assert_eq!(padding_amount, &PropertyValue::Number(10))
}

#[test]
fn partial_style_override() {
    let mut global = GlobalState::new();
    let source = String::from(r#"[ none () slide { height: 500 } ]"#);
    assert_eq!(Ok(()), load(&mut global, source));

    let slide = &global.slides[0];

    let slide_style = slide
        .style_map()
        .styles_for_target(&StyleTarget::Slide)
        .unwrap();
    let height = slide_style.get("height").unwrap();
    let width = slide_style.get("width").unwrap();
    assert_eq!(height, &PropertyValue::Number(500));
    assert_eq!(width, &PropertyValue::Number(1920));
}

#[test]
fn duplicate_style_target_is_reported() {
    let mut global = GlobalState::new();
    let source = String::from("[ none() slide{width:1} slide{height:2} ]");
    let err = load(&mut global, source).unwrap_err();
    match err {
        FoliumError::DuplicateStyleDefinition { target, .. } => {
            assert_eq!(target, StyleTarget::Slide);
        }
        other => panic!("expected a duplicate-style error, got {:?}", other),
    }
}

#[test]
fn fill_in_is_idempotent() {
    let mut global = GlobalState::new();
    let source = String::from(r#"[ none () slide { height: 500 } joop { size: 3 } ]"#);
    assert_eq!(Ok(()), load(&mut global, source));
    let resolved = global.slides[0].style_map().clone();
    let mut again = resolved.clone();
    again.fill_in(StyleMap::default());
    assert_eq!(again, resolved);
}

#[test]
fn slide_without_styles_gets_the_full_defaults() {
    let mut global = GlobalState::new();
    let source = String::from("[ none() ]");
    assert_eq!(Ok(()), load(&mut global, source));
    let styles = global.slides[0].style_map();
    let slide_style = styles.styles_for_target(&StyleTarget::Slide).unwrap();
    assert_eq!(extract_number(slide_style, "width"), 1920);
    assert_eq!(extract_number(slide_style, "height"), 1080);
    assert_eq!(extract_number(slide_style, "margin"), 64);
    assert_eq!(extract_colour(slide_style, "bg"), (235, 218, 199));
    let row_style = styles
        .styles_for_target(&StyleTarget::Anonymous(ElementType::Row))
        .unwrap();
    assert_eq!(extract_number(row_style, "gap"), 32);
    let text_style = styles
        .styles_for_target(&StyleTarget::Anonymous(ElementType::Text))
        .unwrap();
    assert_eq!(extract_string(text_style, "font"), "Liberation Serif");
    assert_eq!(extract_colour(text_style, "fill"), (0, 0, 0));
    let code_style = styles
        .styles_for_target(&StyleTarget::Anonymous(ElementType::Code))
        .unwrap();
    assert_eq!(extract_string(code_style, "language"), "rs");
    assert_eq!(extract_colour(code_style, "bg"), (30, 30, 30));
}

#[test]
fn named_style_target_is_kept() {
    let mut global = GlobalState::new();
    let source = String::from(r#"[ joop :: none() joop { flag: true, title: "hi" } ]"#);
    assert_eq!(Ok(()), load(&mut global, source));
    let styles = global.slides[0].style_map();
    let named = styles
        .styles_for_target(&StyleTarget::Named(String::from("joop")))
        .unwrap();
    assert_eq!(extract_boolean(named, "flag"), true);
    assert_eq!(extract_string(named, "title"), "hi");
}

#[test]
fn colour_literals_parse_by_hex_pairs() {
    let mut global = GlobalState::new();
    let source = String::from("[ none() slide { bg: #102030 } ]");
    assert_eq!(Ok(()), load(&mut global, source));
    let styles = global.slides[0].style_map();
    let slide_style = styles.styles_for_target(&StyleTarget::Slide).unwrap();
    assert_eq!(extract_colour(slide_style, "bg"), (16, 32, 48));
    // explicit values never clobbered, missing ones filled in
    assert_eq!(extract_number(slide_style, "width"), 1920);
}

#[test]
fn number_too_large_for_u32_is_not_a_value() {
    let mut global = GlobalState::new();
    let source = String::from("[ none() slide { width: 4294967296 } ]");
    let err = load(&mut global, source).unwrap_err();
    assert!(matches!(err, FoliumError::ExpectedReason { .. }));
}

#[test]
fn largest_u32_still_parses() {
    let mut global = GlobalState::new();
    let source = String::from("[ none() slide { width: 4294967295 } ]");
    assert_eq!(Ok(()), load(&mut global, source));
    let styles = global.slides[0].style_map();
    let slide_style = styles.styles_for_target(&StyleTarget::Slide).unwrap();
    assert_eq!(extract_number(slide_style, "width"), u32::MAX);
}

#[test]
fn last_property_needs_no_separator_but_middle_ones_do() {
    let mut global = GlobalState::new();
    let ok = String::from("[ none() slide { width: 10, height: 20 } ]");
    assert_eq!(Ok(()), load(&mut global, ok));
    let styles = global.slides[0].style_map();
    let slide_style = styles.styles_for_target(&StyleTarget::Slide).unwrap();
    assert_eq!(extract_number(slide_style, "width"), 10);
    assert_eq!(extract_number(slide_style, "height"), 20);

    let mut global2 = GlobalState::new();
    let bad = String::from("[ none() slide { width: 10 height: 20 } ]");
    assert!(load(&mut global2, bad).is_err());
}

#[test]
fn extract_size_spec_round_trips() {
    let mut ps = PropertySet::new();
    let spec = SizeSpec {
        width: Some(120),
        height: None,
    };
    ps.insert(String::from("size"), PropertyValue::SizeSpec(spec));
    assert_eq!(extract_size_spec(&ps, "size"), spec);
}

#[test]
fn reify_prefers_the_name() {
    let mut global = GlobalState::new();
    let source = String::from(r#"[ row( joop :: text("a"), text("b") ) ]"#);
    assert_eq!(Ok(()), load(&mut global, source));
    let named = global.get_element_by_id(AbstractElementID(1)).unwrap();
    assert_eq!(
        StyleTarget::reify(&named),
        StyleTarget::Named(String::from("joop"))
    );
    let anonymous = global.get_element_by_id(AbstractElementID(2)).unwrap();
    assert_eq!(
        StyleTarget::reify(&anonymous),
        StyleTarget::Anonymous(ElementType::Text)
    );
}

#[test]
fn string_rep_names_every_type() {
    assert_eq!(ElementType::Row.string_rep(), "row");
    assert_eq!(ElementType::Col.string_rep(), "col");
    assert_eq!(ElementType::Centre.string_rep(), "centre");
    assert_eq!(ElementType::Padding.string_rep(), "padding");
    assert_eq!(ElementType::Text.string_rep(), "text");
    assert_eq!(ElementType::Code.string_rep(), "code");
    assert_eq!(ElementType::Image.string_rep(), "image");
    assert_eq!(ElementType::ElNone.string_rep(), "none");
}

#[test]
fn later_value_wins_for_a_repeated_property() {
    let mut global = GlobalState::new();
    let source = String::from("[ none() slide { width: 1, width: 2 } ]");
    assert_eq!(Ok(()), load(&mut global, source));
    let styles = global.slides[0].style_map();
    let slide_style = styles.styles_for_target(&StyleTarget::Slide).unwrap();
    assert_eq!(extract_number(slide_style, "width"), 2);
}
