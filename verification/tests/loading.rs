//! Loading whole slide sources: content parsing, identifiers, and errors.

use folium::ast::{AbstractElementData, AbstractElementID, GlobalState};
use folium::error::FoliumError;
use folium::interpreter::load;
use folium::lexer::Token;

#[test]
fn none_slide() {
    let mut global = GlobalState::new();
    let source = String::from("[ none() ]");
    assert_eq!(Ok(()), load(&mut global, source));
    let none_el = global.get_element_by_id(AbstractElementID(1)).unwrap();
    assert_eq!(none_el.data(), &AbstractElementData::ElNone);
    assert_eq!(*none_el.name(), None);
}

#[test]
fn named_none_slide() {
    let mut global = GlobalState::new();
    let source = String::from("[ joop :: none() ]");
    assert_eq!(Ok(()), load(&mut global, source));
    let none_el = global.get_element_by_id(AbstractElementID(1)).unwrap();
    assert_eq!(none_el.data(), &AbstractElementData::ElNone);
    assert_eq!(*none_el.name(), Some(String::from("joop")));
}

#[test]
fn text_slide() {
    let mut global = GlobalState::new();
    let source = String::from(r#"[ text("jakob") ]"#);
    assert_eq!(Ok(()), load(&mut global, source));
    let text_el = global.get_element_by_id(AbstractElementID(1)).unwrap();
    assert_eq!(
        text_el.data(),
        &AbstractElementData::Text(String::from("jakob"))
    );
}

#[test]
fn named_text_slide() {
    let mut global = GlobalState::new();
    let source = String::from(r#"[ joop :: text("jakob") ]"#);
    assert_eq!(Ok(()), load(&mut global, source));
    let text_el = global.get_element_by_id(AbstractElementID(1)).unwrap();
    assert_eq!(
        text_el.data(),
        &AbstractElementData::Text(String::from("jakob"))
    );
}

#[test]
fn named_text_slide_with_space() {
    let mut global = GlobalState::new();
    let source = String::from(r#"[ joop :: text("jakob en zonen") ]"#);
    assert_eq!(Ok(()), load(&mut global, source));
    let text_el = global.get_element_by_id(AbstractElementID(1)).unwrap();
    assert_eq!(
        text_el.data(),
        &AbstractElementData::Text(String::from("jakob en zonen"))
    );
}

#[test]
fn col_in_row() {
    let mut global = GlobalState::new();
    let source =
        String::from(r#"[ row ( text("joop"), col ( text("in kolom"), text("in kolom 2") ) ) ]"#);
    assert_eq!(Ok(()), load(&mut global, source));

    let row = global.get_element_by_id(AbstractElementID(5)).unwrap();
    let data = match row.data() {
        AbstractElementData::Row(val) => val,
        _ => panic!(),
    };
    assert_eq!(data.len(), 2);
}

#[test]
fn nested_commas_do_not_split_parent() {
    // the nested column's own separators must not split the row's child list
    let mut global = GlobalState::new();
    let source = String::from(r#"[ row( text("a"), col( text("b"), text("c") ) ) ]"#);
    assert_eq!(Ok(()), load(&mut global, source));
    let row = global.get_element_by_id(AbstractElementID(5)).unwrap();
    let row_children = match row.data() {
        AbstractElementData::Row(val) => val.clone(),
        _ => panic!("root should be a row"),
    };
    assert_eq!(row_children.len(), 2);
    let second = global.get_element_by_id(row_children[1]).unwrap();
    let col_children = match second.data() {
        AbstractElementData::Col(val) => val.clone(),
        _ => panic!("second child should be a column"),
    };
    assert_eq!(col_children.len(), 2);
}

#[test]
fn identifiers_strictly_increase_from_one() {
    let mut global = GlobalState::new();
    let source = String::from(r#"[ row( text("a"), col( text("b"), text("c") ) ) ] [ none() ]"#);
    assert_eq!(Ok(()), load(&mut global, source));
    let elements = [1u32, 2, 3, 4, 5, 7];
    for (i, id) in elements.iter().enumerate() {
        let el = global.get_element_by_id(AbstractElementID(*id)).unwrap();
        assert_eq!(el.id(), AbstractElementID(*id));
        if i > 0 {
            assert!(elements[i - 1] < *id);
        }
    }
    // identifier 0 never names a real element
    assert!(global.get_element_by_id(AbstractElementID(0)).is_none());
}

#[test]
fn two_slides_share_the_identifier_space() {
    let mut global = GlobalState::new();
    let source = String::from("[ none() ] [ none() ]");
    assert_eq!(Ok(()), load(&mut global, source));
    assert_eq!(global.number_of_slides(), 2);
    assert_eq!(global.number_of_elements(), 2);
    assert_eq!(global.slides[0].id(), AbstractElementID(2));
    assert_eq!(global.slides[0].content(), AbstractElementID(1));
    assert_eq!(global.slides[1].id(), AbstractElementID(4));
    assert_eq!(global.slides[1].content(), AbstractElementID(3));
}

#[test]
fn traverse_is_preorder_root_first() {
    let mut global = GlobalState::new();
    let source = String::from(r#"[ row( text("a"), col( text("b"), text("c") ) ) ]"#);
    assert_eq!(Ok(()), load(&mut global, source));
    let order = global.traverse(AbstractElementID(5));
    let expected: Vec<AbstractElementID> = [5u32, 1, 4, 2, 3]
        .iter()
        .map(|n| AbstractElementID(*n))
        .collect();
    assert_eq!(order, expected);
    let elements = global.get_slide_elements(&global.slides[0]);
    assert_eq!(elements.len(), 5);
    assert_eq!(elements[0].id(), AbstractElementID(5));
}

#[test]
fn padding_wraps_its_child() {
    let mut global = GlobalState::new();
    let source = String::from(r#"[ padding( text("x") ) ]"#);
    assert_eq!(Ok(()), load(&mut global, source));
    let padding = global.get_element_by_id(AbstractElementID(2)).unwrap();
    assert_eq!(
        padding.data(),
        &AbstractElementData::Padding(AbstractElementID(1))
    );
}

#[test]
fn centre_wraps_its_child() {
    let mut global = GlobalState::new();
    let source = String::from(r#"[ centre( code("let x = 1;") ) ]"#);
    assert_eq!(Ok(()), load(&mut global, source));
    let centre = global.get_element_by_id(AbstractElementID(2)).unwrap();
    assert_eq!(
        centre.data(),
        &AbstractElementData::Centre(AbstractElementID(1))
    );
    let code = global.get_element_by_id(AbstractElementID(1)).unwrap();
    assert_eq!(
        code.data(),
        &AbstractElementData::Code(String::from("let x = 1;"))
    );
}

#[test]
fn image_keeps_its_path() {
    let mut global = GlobalState::new();
    let source = String::from(r#"[ img("assets/cat.png") ]"#);
    assert_eq!(Ok(()), load(&mut global, source));
    let img = global.get_element_by_id(AbstractElementID(1)).unwrap();
    assert_eq!(
        img.data(),
        &AbstractElementData::Image(String::from("assets/cat.png"))
    );
}

#[test]
fn string_content_is_collected_verbatim() {
    let mut global = GlobalState::new();
    let source = String::from(r#"[ text("a, (b) {c}: d") ]"#);
    assert_eq!(Ok(()), load(&mut global, source));
    let text_el = global.get_element_by_id(AbstractElementID(1)).unwrap();
    assert_eq!(
        text_el.data(),
        &AbstractElementData::Text(String::from("a, (b) {c}: d"))
    );
}

#[test]
fn trailing_comma_adds_no_child() {
    let mut global = GlobalState::new();
    let source = String::from(r#"[ row( text("a"), ) ]"#);
    assert_eq!(Ok(()), load(&mut global, source));
    let row = global.get_element_by_id(AbstractElementID(2)).unwrap();
    let children = match row.data() {
        AbstractElementData::Row(val) => val.clone(),
        _ => panic!("root should be a row"),
    };
    assert_eq!(children.len(), 1);
}

#[test]
fn comment_lines_are_dropped() {
    let mut global = GlobalState::new();
    let source = String::from("// a comment with [ none() ] inside\n[ none() ]\n  // indented too\n");
    assert_eq!(Ok(()), load(&mut global, source));
    assert_eq!(global.number_of_slides(), 1);
    assert_eq!(global.number_of_elements(), 1);
}

#[test]
fn missing_argument_parens_is_reported() {
    let mut global = GlobalState::new();
    let source = String::from("[ joop :: none ]");
    let err = load(&mut global, source).unwrap_err();
    match err {
        FoliumError::UnexpectedFileEndWithToken { expected, .. } => {
            assert_eq!(expected, Token::OpeningArgsParen);
        }
        other => panic!("expected an end-of-input error about `(`, got {:?}", other),
    }
}

#[test]
fn unknown_type_is_reported() {
    let mut global = GlobalState::new();
    let source = String::from("[ joop :: nonsense() ]");
    let err = load(&mut global, source).unwrap_err();
    match err {
        FoliumError::UnknownType {
            offending_token, ..
        } => {
            assert_eq!(offending_token, String::from("nonsense"));
        }
        other => panic!("expected an unknown-type error, got {:?}", other),
    }
}

#[test]
fn type_keyword_cannot_be_a_name() {
    let mut global = GlobalState::new();
    let source = String::from("[ text :: none() ]");
    let err = load(&mut global, source).unwrap_err();
    assert!(matches!(err, FoliumError::UseOfContentTypeName { .. }));
}

#[test]
fn missing_definition_token_is_reported() {
    let mut global = GlobalState::new();
    let source = String::from("[ joop none() ]");
    let err = load(&mut global, source).unwrap_err();
    match err {
        FoliumError::ExpectedToken { expected, got, .. } => {
            assert_eq!(expected, Token::Definition);
            assert!(matches!(got, Token::Ident(_)));
        }
        other => panic!("expected a wrong-token error about `::`, got {:?}", other),
    }
}

#[test]
fn value_cannot_open_a_definition() {
    let mut global = GlobalState::new();
    let source = String::from("[ 5 ]");
    let err = load(&mut global, source).unwrap_err();
    assert!(matches!(err, FoliumError::ExpectedReason { .. }));
}

#[test]
fn input_ending_after_definition_token_is_reported() {
    let mut global = GlobalState::new();
    let source = String::from("[ joop :: ]");
    let err = load(&mut global, source).unwrap_err();
    assert!(matches!(
        err,
        FoliumError::UnexpectedFileEndWithReason { .. }
    ));
}

#[test]
fn text_without_string_argument_is_reported() {
    let mut global = GlobalState::new();
    let source = String::from("[ text(5) ]");
    let err = load(&mut global, source).unwrap_err();
    assert!(matches!(err, FoliumError::ExpectedReason { .. }));
}

#[test]
fn empty_source_loads_no_slides() {
    let mut global = GlobalState::new();
    assert_eq!(Ok(()), load(&mut global, String::new()));
    assert_eq!(global.number_of_slides(), 0);
    assert_eq!(global.number_of_elements(), 0);
}

#[test]
fn empty_slide_is_reported() {
    let mut global = GlobalState::new();
    let err = load(&mut global, String::from("[ ]")).unwrap_err();
    assert!(matches!(
        err,
        FoliumError::UnexpectedFileEndWithReason { .. }
    ));
}
