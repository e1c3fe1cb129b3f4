use phorcys::config::{Configuration, Parameter, ParameterAddress, ParameterDataType};

fn address(name: &str, parameter_type: ParameterDataType) -> ParameterAddress {
    ParameterAddress { address: format!("/avatar/parameters/{}", name), parameter_type }
}

fn sample() -> Configuration {
    Configuration {
        id: "avtr_00000000-0000-0000-0000-000000000000".into(),
        name: "\u{30bb}\u{30d5}\u{30a3}\u{30e9}".into(),
        parameters: vec![
            Parameter {
                name: "VRCLFeatureToggle".into(),
                input: Some(address("VRCLFeatureToggle", ParameterDataType::Int)),
                output: address("VRCLFeatureToggle", ParameterDataType::Int),
            },
            Parameter {
                name: "VRCFaceBlendV".into(),
                input: Some(address("VRCFaceBlendV", ParameterDataType::Float)),
                output: address("VRCFaceBlendV", ParameterDataType::Float),
            },
            Parameter {
                name: "VelocityZ".into(),
                input: None,
                output: address("VelocityZ", ParameterDataType::Float),
            },
            Parameter {
                name: "VRCFaceBlendV".into(),
                input: Some(address("Replaced", ParameterDataType::Bool)),
                output: address("Replaced", ParameterDataType::Bool),
            },
        ],
    }
}

#[test]
fn a_parameter_is_found_by_its_name() {
    let config = sample();
    assert_eq!(config.parameter("VRCLFeatureToggle"), Some(&config.parameters[0]));
    assert_eq!(config.parameter("VelocityZ"), Some(&config.parameters[2]));
    assert_eq!(config.parameter("Missing"), None);
    assert_eq!(config.parameter(""), None);
    assert_eq!(config.parameter("velocityz"), None);
}

#[test]
fn of_parameters_with_one_name_the_last_is_found() {
    let config = sample();
    assert_eq!(config.parameter("VRCFaceBlendV"), Some(&config.parameters[3]));
}

#[test]
fn the_input_address_is_that_of_the_parameter() {
    let config = sample();
    assert_eq!(
        config.input_address("VRCLFeatureToggle"),
        Some(&ParameterAddress {
            address: "/avatar/parameters/VRCLFeatureToggle".into(),
            parameter_type: ParameterDataType::Int,
        })
    );
    assert_eq!(config.input_address("VelocityZ"), None);
    assert_eq!(config.input_address("Missing"), None);
}

#[test]
fn an_empty_configuration_has_no_parameters() {
    let config = Configuration { id: String::new(), name: String::new(), parameters: vec![] };
    assert_eq!(config.parameter("x"), None);
    assert_eq!(config.input_address("x"), None);
}

#[test]
fn a_parameter_address_should_start_with_a_slash() {
    assert!(address("X", ParameterDataType::Bool).starts_with_slash());
    let bare = ParameterAddress { address: "avatar".into(), parameter_type: ParameterDataType::Int };
    assert!(!bare.starts_with_slash());
    let empty = ParameterAddress { address: String::new(), parameter_type: ParameterDataType::Int };
    assert!(!empty.starts_with_slash());
    let wide = ParameterAddress {
        address: "\u{ff0f}avatar".into(),
        parameter_type: ParameterDataType::Float,
    };
    assert!(!wide.starts_with_slash());
}
