use discmon::command::{
    get_input_text, get_user, ActionRow, CommandError, InputText, ResolvedOption, ResolvedValue,
    RowComponent,
};

fn named(name: &str, value: ResolvedValue) -> ResolvedOption {
    ResolvedOption { name: String::from(name), value }
}

#[test]
fn get_user_finds_the_named_user() {
    let options = vec![
        named("count", ResolvedValue::Integer(3)),
        named("target", ResolvedValue::User(7, Some(9))),
    ];
    assert_eq!(get_user(&options, "target"), Ok((7, Some(9))));
}

#[test]
fn get_user_reports_missing_data() {
    let options = vec![named("count", ResolvedValue::Integer(3))];
    assert_eq!(get_user(&options, "target"), Err(CommandError::MissingData));
    assert_eq!(get_user(&Vec::new(), "target"), Err(CommandError::MissingData));
}

#[test]
fn get_user_reports_invalid_type_at_first_match() {
    let options = vec![
        named("target", ResolvedValue::Text(String::from("not a user"))),
        named("target", ResolvedValue::User(7, None)),
    ];
    assert_eq!(get_user(&options, "target"), Err(CommandError::InvalidType));
}

fn input_row(custom_id: &str, value: &str) -> ActionRow {
    ActionRow {
        components: vec![RowComponent::InputText(InputText {
            custom_id: String::from(custom_id),
            value: String::from(value),
        })],
    }
}

#[test]
fn get_input_text_finds_the_named_text() {
    let rows = vec![
        ActionRow { components: vec![RowComponent::Other] },
        input_row("nickname", "Ash"),
    ];
    assert_eq!(get_input_text(&rows, "nickname").unwrap().as_str(), "Ash");
}

#[test]
fn get_input_text_skips_empty_and_mismatched_inputs() {
    let rows = vec![input_row("nickname", ""), input_row("other", "x")];
    assert_eq!(get_input_text(&rows, "nickname"), Err(CommandError::MissingData));
}

#[test]
fn get_input_text_reads_only_the_first_component_of_a_row() {
    let rows = vec![ActionRow {
        components: vec![
            RowComponent::Other,
            RowComponent::InputText(InputText {
                custom_id: String::from("nickname"),
                value: String::from("Ash"),
            }),
        ],
    }];
    assert_eq!(get_input_text(&rows, "nickname"), Err(CommandError::MissingData));
}
