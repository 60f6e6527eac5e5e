use rbob::param_value::ParamValue;
use rbob::substitutions::{get_substitutions_cartesian, get_substitutions_normal, ParamMap};
use rbob::yaml::YamlValue;

fn ints(values: &[i64]) -> YamlValue {
    YamlValue::Sequence(values.iter().map(|v| YamlValue::Int(*v)).collect())
}

fn int_at(map: &ParamMap, key: &str) -> ParamValue {
    map.get(key).expect("parameter present").clone()
}

#[test]
fn normal_sim_set() {
    let substitutions = vec![
        ("a".to_owned(), ints(&[1, 2, 3])),
        ("b".to_owned(), ints(&[4, 5, 6])),
    ];
    let s = get_substitutions_normal(&substitutions).unwrap();
    assert_eq!(s.len(), 3);
    assert_eq!(int_at(&s[0], "a"), ParamValue::Int(1));
    assert_eq!(int_at(&s[0], "b"), ParamValue::Int(4));
    assert_eq!(int_at(&s[1], "a"), ParamValue::Int(2));
    assert_eq!(int_at(&s[1], "b"), ParamValue::Int(5));
    assert_eq!(int_at(&s[2], "a"), ParamValue::Int(3));
    assert_eq!(int_at(&s[2], "b"), ParamValue::Int(6));
}

#[test]
fn cartesian_sim_set_config() {
    let substitutions = vec![
        ("a".to_owned(), ints(&[1, 2])),
        ("b".to_owned(), ints(&[3, 4])),
    ];
    let s = get_substitutions_cartesian(&substitutions, None).unwrap();
    assert_eq!(s.len(), 4);
    assert_eq!(int_at(&s[0], "a"), ParamValue::Int(1));
    assert_eq!(int_at(&s[0], "b"), ParamValue::Int(3));

    assert_eq!(int_at(&s[1], "a"), ParamValue::Int(1));
    assert_eq!(int_at(&s[1], "b"), ParamValue::Int(4));

    assert_eq!(int_at(&s[2], "a"), ParamValue::Int(2));
    assert_eq!(int_at(&s[2], "b"), ParamValue::Int(3));

    assert_eq!(int_at(&s[3], "a"), ParamValue::Int(2));
    assert_eq!(int_at(&s[3], "b"), ParamValue::Int(4));
}

#[test]
fn cartesian_sim_set_config_parameter_groups() {
    let substitutions = vec![
        ("a".to_owned(), ints(&[1, 2])),
        ("b".to_owned(), ints(&[3, 4])),
        ("c".to_owned(), ints(&[4, 5])),
    ];
    let s = get_substitutions_cartesian(
        &substitutions,
        Some(vec![
            vec!["a".to_owned(), "c".to_owned()],
            vec!["b".to_owned()],
        ]),
    )
    .unwrap();
    assert_eq!(s.len(), 4);
    assert_eq!(int_at(&s[0], "a"), ParamValue::Int(1));
    assert_eq!(int_at(&s[0], "b"), ParamValue::Int(3));
    assert_eq!(int_at(&s[0], "c"), ParamValue::Int(4));

    assert_eq!(int_at(&s[1], "a"), ParamValue::Int(1));
    assert_eq!(int_at(&s[1], "b"), ParamValue::Int(4));
    assert_eq!(int_at(&s[1], "c"), ParamValue::Int(4));

    assert_eq!(int_at(&s[2], "a"), ParamValue::Int(2));
    assert_eq!(int_at(&s[2], "b"), ParamValue::Int(3));
    assert_eq!(int_at(&s[2], "c"), ParamValue::Int(5));

    assert_eq!(int_at(&s[3], "a"), ParamValue::Int(2));
    assert_eq!(int_at(&s[3], "b"), ParamValue::Int(4));
    assert_eq!(int_at(&s[3], "c"), ParamValue::Int(5));
}

#[test]
fn cartesian_sim_set_config_parameter_groups_wrong_lengths() {
    let substitutions = vec![
        ("a".to_owned(), ints(&[1, 2])),
        ("b".to_owned(), ints(&[3, 4])),
        ("c".to_owned(), ints(&[4, 5, 6])),
    ];
    assert!(get_substitutions_cartesian(
        &substitutions,
        Some(vec![
            vec!["a".to_owned(), "c".to_owned()],
            vec!["b".to_owned()]
        ])
    )
    .is_err());
}
