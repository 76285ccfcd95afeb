use connector_core::model::FieldArity;
use connector_core::steps::{
    CreateDirective, DirectiveLocation, DirectiveLocator, MigrationExpression, MigrationStep,
    Setting, UpdateEnum, UpdateField, UpdateModel,
};

#[test]
fn update_model_reports_whether_any_option_is_set() {
    let unchanged = UpdateModel { model: "Cat".to_string(), new_name: None };
    assert!(!unchanged.is_any_option_set());
    let renamed = UpdateModel {
        model: "Cat".to_string(),
        new_name: Some("Tiger".to_string()),
    };
    assert!(renamed.is_any_option_set());
}

#[test]
fn update_field_reports_whether_any_option_is_set() {
    let unchanged = UpdateField {
        model: "Cat".to_string(),
        field: "owner".to_string(),
        new_name: None,
        tpe: None,
        arity: None,
        default: Setting::Absent,
    };
    assert!(!unchanged.is_any_option_set());

    let cleared_default = UpdateField { default: Setting::SetToNull, ..unchanged.clone() };
    assert!(cleared_default.is_any_option_set());

    let new_default = UpdateField {
        default: Setting::SetTo(MigrationExpression("3".to_string())),
        ..unchanged.clone()
    };
    assert!(new_default.is_any_option_set());

    let new_arity = UpdateField { arity: Some(FieldArity::List), ..unchanged.clone() };
    assert!(new_arity.is_any_option_set());

    let new_type = UpdateField { tpe: Some("String".to_string()), ..unchanged };
    assert!(new_type.is_any_option_set());
}

#[test]
fn update_enum_reports_whether_any_option_is_set() {
    let unchanged = UpdateEnum {
        enum_name: "Color".to_string(),
        new_name: None,
        created_values: vec![],
        deleted_values: vec![],
    };
    assert!(!unchanged.is_any_option_set());

    let with_created = UpdateEnum {
        created_values: vec!["Blue".to_string()],
        ..unchanged.clone()
    };
    assert!(with_created.is_any_option_set());

    let with_deleted = UpdateEnum {
        deleted_values: vec!["Red".to_string()],
        ..unchanged
    };
    assert!(with_deleted.is_any_option_set());
}

#[test]
fn directive_steps_carry_their_location() {
    let create_directive = CreateDirective {
        locator: DirectiveLocator {
            location: DirectiveLocation::Field {
                model: "Cat".to_string(),
                field: "owner".to_string(),
            },
            directive: "status".to_string(),
        },
    };
    let step = MigrationStep::CreateDirective(create_directive.clone());
    match step {
        MigrationStep::CreateDirective(d) => {
            assert_eq!(d, create_directive);
            assert_eq!(d.locator.directive, "status");
            match d.locator.location {
                DirectiveLocation::Field { model, field } => {
                    assert_eq!(model, "Cat");
                    assert_eq!(field, "owner");
                }
                other => panic!("expected a field location, got {:?}", other),
            }
        }
        other => panic!("expected a create-directive step, got {:?}", other),
    }
}
