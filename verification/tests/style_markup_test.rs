use jumpcut::{blank_attributes, p, tr, Element, ElementText::Styled};

#[test]
fn test_parse_with_element() {
    let mut element = Element::Action(p("something"), blank_attributes());
    element.parse_and_convert_markup();
    assert_eq!(
        element,
        Element::Action(Styled(vec![tr("something", vec![])]), blank_attributes())
    );
}

#[test]
fn test_parse_bold_emphasis() {
    let mut element = Element::Action(p("Fuck ***this*** whole place!"), blank_attributes());
    element.parse_and_convert_markup();
    assert_eq!(
        element,
        Element::Action(
            Styled(vec![
                tr("Fuck ", vec![]),
                tr("this", vec!["Bold", "Italic"]),
                tr(" whole place!", vec![]),
            ]),
            blank_attributes()
        )
    );
    element = Element::Action(p("***Fuck*** this whole place!"), blank_attributes());
    element.parse_and_convert_markup();
    assert_eq!(
        element,
        Element::Action(
            Styled(vec![tr("Fuck", vec!["Bold", "Italic"]), tr(" this whole place!", vec![])]),
            blank_attributes()
        )
    );
    element = Element::Action(p("Fuck this whole ***place!***"), blank_attributes());
    element.parse_and_convert_markup();
    assert_eq!(
        element,
        Element::Action(
            Styled(vec![tr("Fuck this whole ", vec![]), tr("place!", vec!["Bold", "Italic"])]),
            blank_attributes()
        )
    );
    element = Element::Action(p("Fuck ***this*** whole ***place!***"), blank_attributes());
    element.parse_and_convert_markup();
    assert_eq!(
        element,
        Element::Action(
            Styled(vec![
                tr("Fuck ", vec![]),
                tr("this", vec!["Bold", "Italic"]),
                tr(" whole ", vec![]),
                tr("place!", vec!["Bold", "Italic"]),
            ]),
            blank_attributes()
        )
    );
    element = Element::Action(p("***Fuck this whole place!***"), blank_attributes());
    element.parse_and_convert_markup();
    assert_eq!(
        element,
        Element::Action(
            Styled(vec![tr("Fuck this whole place!", vec!["Bold", "Italic"])]),
            blank_attributes()
        )
    );
}

#[test]
fn test_parse_emphasis() {
    let mut element = Element::Action(p("Fuck *this* whole place!"), blank_attributes());
    element.parse_and_convert_markup();
    assert_eq!(
        element,
        Element::Action(
            Styled(vec![
                tr("Fuck ", vec![]),
                tr("this", vec!["Italic"]),
                tr(" whole place!", vec![]),
            ]),
            blank_attributes()
        )
    );
    element = Element::Action(p("*Fuck* this whole place!"), blank_attributes());
    element.parse_and_convert_markup();
    assert_eq!(
        element,
        Element::Action(
            Styled(vec![tr("Fuck", vec!["Italic"]), tr(" this whole place!", vec![])]),
            blank_attributes()
        )
    );
    element = Element::Action(p("Fuck this whole *place!*"), blank_attributes());
    element.parse_and_convert_markup();
    assert_eq!(
        element,
        Element::Action(
            Styled(vec![tr("Fuck this whole ", vec![]), tr("place!", vec!["Italic"])]),
            blank_attributes()
        )
    );
    element = Element::Action(p("Fuck *this* whole *place!*"), blank_attributes());
    element.parse_and_convert_markup();
    assert_eq!(
        element,
        Element::Action(
            Styled(vec![
                tr("Fuck ", vec![]),
                tr("this", vec!["Italic"]),
                tr(" whole ", vec![]),
                tr("place!", vec!["Italic"]),
            ]),
            blank_attributes()
        )
    );
    element = Element::Action(p("*Fuck this whole place!*"), blank_attributes());
    element.parse_and_convert_markup();
    assert_eq!(
        element,
        Element::Action(
            Styled(vec![tr("Fuck this whole place!", vec!["Italic"])]),
            blank_attributes()
        )
    );
}

#[test]
fn test_parse_bold() {
    let mut element = Element::Action(p("Fuck **this** whole place!"), blank_attributes());
    element.parse_and_convert_markup();
    assert_eq!(
        element,
        Element::Action(
            Styled(vec![tr("Fuck ", vec![]), tr("this", vec!["Bold"]), tr(" whole place!", vec![])]),
            blank_attributes()
        )
    );
    element = Element::Action(p("**Fuck** this whole place!"), blank_attributes());
    element.parse_and_convert_markup();
    assert_eq!(
        element,
        Element::Action(
            Styled(vec![tr("Fuck", vec!["Bold"]), tr(" this whole place!", vec![])]),
            blank_attributes()
        )
    );
    element = Element::Action(p("Fuck this whole **place!**"), blank_attributes());
    element.parse_and_convert_markup();
    assert_eq!(
        element,
        Element::Action(
            Styled(vec![tr("Fuck this whole ", vec![]), tr("place!", vec!["Bold"])]),
            blank_attributes()
        )
    );
    element = Element::Action(p("Fuck **this** whole **place!**"), blank_attributes());
    element.parse_and_convert_markup();
    assert_eq!(
        element,
        Element::Action(
            Styled(vec![
                tr("Fuck ", vec![]),
                tr("this", vec!["Bold"]),
                tr(" whole ", vec![]),
                tr("place!", vec!["Bold"]),
            ]),
            blank_attributes()
        )
    );
    element = Element::Action(p("**Fuck this whole place!**"), blank_attributes());
    element.parse_and_convert_markup();
    assert_eq!(
        element,
        Element::Action(Styled(vec![tr("Fuck this whole place!", vec!["Bold"])]), blank_attributes())
    );
}

#[test]
fn test_parse_underline() {
    let mut element = Element::Action(p("Fuck _this_ whole place!"), blank_attributes());
    element.parse_and_convert_markup();
    assert_eq!(
        element,
        Element::Action(
            Styled(vec![
                tr("Fuck ", vec![]),
                tr("this", vec!["Underline"]),
                tr(" whole place!", vec![]),
            ]),
            blank_attributes()
        )
    );
    element = Element::Action(p("Fuck _this_ whole _place!_"), blank_attributes());
    element.parse_and_convert_markup();
    assert_eq!(
        element,
        Element::Action(
            Styled(vec![
                tr("Fuck ", vec![]),
                tr("this", vec!["Underline"]),
                tr(" whole ", vec![]),
                tr("place!", vec!["Underline"]),
            ]),
            blank_attributes()
        )
    );
    element = Element::Action(p("_Fuck this whole place!_"), blank_attributes());
    element.parse_and_convert_markup();
    assert_eq!(
        element,
        Element::Action(
            Styled(vec![tr("Fuck this whole place!", vec!["Underline"])]),
            blank_attributes()
        )
    );
}

#[test]
fn test_parse_underline_bold_italic() {
    let mut element = Element::Action(p("Fuck ***_this_*** whole place!"), blank_attributes());
    element.parse_and_convert_markup();
    assert_eq!(
        element,
        Element::Action(
            Styled(vec![
                tr("Fuck ", vec![]),
                tr("this", vec!["Bold", "Italic", "Underline"]),
                tr(" whole place!", vec![]),
            ]),
            blank_attributes()
        )
    );
    element = Element::Action(p("Fuck ***_this_*** whole _***place!***_"), blank_attributes());
    element.parse_and_convert_markup();
    assert_eq!(
        element,
        Element::Action(
            Styled(vec![
                tr("Fuck ", vec![]),
                tr("this", vec!["Bold", "Italic", "Underline"]),
                tr(" whole ", vec![]),
                tr("place!", vec!["Bold", "Italic", "Underline"]),
            ]),
            blank_attributes()
        )
    );
}

#[test]
fn test_parse_overlapping_styles() {
    let mut element = Element::Action(p("_Fuck *this* whole **place!**_"), blank_attributes());
    element.parse_and_convert_markup();
    assert_eq!(
        element,
        Element::Action(
            Styled(vec![
                tr("Fuck ", vec!["Underline"]),
                tr("this", vec!["Italic", "Underline"]),
                tr(" whole ", vec!["Underline"]),
                tr("place!", vec!["Bold", "Underline"]),
            ]),
            blank_attributes()
        )
    );
}

#[test]
fn test_parse_special_cases() {
    let mut element = Element::Action(p("*Fuck this whole place!"), blank_attributes());
    element.parse_and_convert_markup();
    assert_eq!(
        element,
        Element::Action(Styled(vec![tr("*Fuck this whole place!", vec![])]), blank_attributes())
    );
    element = Element::Action(p("He dialed *69 and then *23, and then hung up."), blank_attributes());
    element.parse_and_convert_markup();
    assert_eq!(
        element,
        Element::Action(
            Styled(vec![tr("He dialed *69 and then *23, and then hung up.", vec![])]),
            blank_attributes()
        )
    );
    element =
        Element::Action(p("He dialed *69 and then 23\\*, and then hung up."), blank_attributes());
    element.parse_and_convert_markup();
    assert_eq!(
        element,
        Element::Action(
            Styled(vec![tr("He dialed *69 and then 23*, and then hung up.", vec![])]),
            blank_attributes()
        )
    );
    element =
        Element::Action(p("He dialed _69 and then 23\\_, and then hung up."), blank_attributes());
    element.parse_and_convert_markup();
    assert_eq!(
        element,
        Element::Action(
            Styled(vec![tr("He dialed _69 and then 23_, and then hung up.", vec![])]),
            blank_attributes()
        )
    );
    element = Element::Action(
        p("As he rattles off the long list, Brick and Steel *share a look.\nThis is going to be BAD.*"),
        blank_attributes(),
    );
    element.parse_and_convert_markup();
    assert_eq!(
        element,
        Element::Action(
            Styled(vec![tr(
                "As he rattles off the long list, Brick and Steel *share a look.\nThis is going to be BAD.*",
                vec![]
            )]),
            blank_attributes()
        )
    );
}
