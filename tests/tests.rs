use plugin_parameters::{Group, Leaf};

fn bits(v: f32) -> u32 {
    v.to_bits()
}

fn value(p: &Group, index: i32) -> f32 {
    f32::from_bits(p.get_parameter(index))
}

fn fixed3(b: u32) -> String {
    format!("{:.3}", f32::from_bits(b))
}

fn params_with_custom_name_and_label() -> Group {
    let mut p = Group::new();
    p.add_leaf(Leaf::new("x", bits(0.5)).with_name("custom name")).unwrap();
    p.add_leaf(Leaf::new("y", bits(0.2)).with_label("label")).unwrap();
    p.add_leaf(Leaf::new("z", bits(0.4))).unwrap();
    p
}

fn xyz(named: bool) -> Group {
    let mut p = Group::new();
    for (ident, v) in [("x", 0.5f32), ("y", 0.2), ("z", 0.4)] {
        let leaf = Leaf::new(ident, bits(v));
        let leaf = if named { leaf.with_name(ident) } else { leaf };
        p.add_leaf(leaf).unwrap();
    }
    p
}

#[test]
fn demo() {
    let p = params_with_custom_name_and_label();
    assert_eq!(p.num_parameters(), 3);

    assert_eq!(p.get_parameter_name(0), "custom name");
    assert_eq!(p.get_parameter_name(1), "y");
    assert_eq!(p.get_parameter_name(2), "z");

    assert_eq!(value(&p, 0), 0.5);
    assert_eq!(value(&p, 1), 0.2);
    assert_eq!(value(&p, 2), 0.4);

    let mut p = Group::new();
    p.add_group(params_with_custom_name_and_label(), None).unwrap();
    p.add_group(params_with_custom_name_and_label(), Some("prefix ")).unwrap();

    assert_eq!(p.get_parameter_name(0), "custom name");
    assert_eq!(p.get_parameter_name(1), "y");
    assert_eq!(p.get_parameter_name(2), "z");
    assert_eq!(p.get_parameter_name(3), "prefix custom name");
    assert_eq!(p.get_parameter_name(4), "prefix y");
    assert_eq!(p.get_parameter_name(5), "prefix z");
}

#[test]
fn it_works() {
    let p = Group::new();
    assert_eq!(p.num_parameters(), 0);
}

#[test]
fn num_single_param() {
    let mut p = Group::new();
    p.add_leaf(Leaf::new("x", bits(0.0))).unwrap();
    assert_eq!(p.num_parameters(), 1);
}

#[test]
fn num_multiple_param() {
    let p = xyz(false);
    assert_eq!(p.num_parameters(), 3);
}

#[test]
fn num_nest_params() {
    let mut p = Group::new();
    p.add_group(xyz(false), None).unwrap();
    p.add_group(xyz(false), None).unwrap();
    p.add_group(xyz(false), None).unwrap();
    assert_eq!(p.num_parameters(), 9);
}

#[test]
fn single_param() {
    let mut p = Group::new();
    p.add_leaf(
        Leaf::new("x", bits(0.5))
            .with_name("some_awesome_name")
            .with_label("label"),
    )
    .unwrap();

    assert_eq!(p.get_parameter_name(0), "some_awesome_name");
    assert_eq!(p.get_parameter_label(0), "label");
    assert_eq!(p.get_parameter_text(0, fixed3), "0.500");
    assert_eq!(value(&p, 0), 0.5);
    p.set_parameter(0, bits(0.0));
    assert_eq!(value(&p, 0), 0.0);

    let mut p = Group::new();
    p.add_leaf(Leaf::new("x", bits(0.5))).unwrap();
    assert_eq!(p.get_parameter_name(0), "x");
}

#[test]
fn multiple_params() {
    let mut p = xyz(true);

    assert_eq!(p.get_parameter_name(0), "x");
    assert_eq!(p.get_parameter_name(1), "y");
    assert_eq!(p.get_parameter_name(2), "z");

    assert_eq!(value(&p, 0), 0.5);
    assert_eq!(value(&p, 1), 0.2);
    assert_eq!(value(&p, 2), 0.4);

    p.set_parameter(0, bits(0.0));
    assert_eq!(value(&p, 0), 0.0);
    p.set_parameter(1, bits(0.0));
    assert_eq!(value(&p, 1), 0.0);
    p.set_parameter(2, bits(0.0));
    assert_eq!(value(&p, 2), 0.0);
}

#[test]
fn nested_params() {
    let mut p = Group::new();
    p.add_group(xyz(true), None).unwrap();
    p.add_group(xyz(true), None).unwrap();
    p.add_group(xyz(true), None).unwrap();

    assert_eq!(p.get_parameter_name(0), "x");
    assert_eq!(p.get_parameter_name(1), "y");
    assert_eq!(p.get_parameter_name(2), "z");
    assert_eq!(p.get_parameter_name(3), "x");
    assert_eq!(p.get_parameter_name(4), "y");
    assert_eq!(p.get_parameter_name(5), "z");
    assert_eq!(p.get_parameter_name(6), "x");
    assert_eq!(p.get_parameter_name(7), "y");
    assert_eq!(p.get_parameter_name(8), "z");

    assert_eq!(value(&p, 0), 0.5);
    assert_eq!(value(&p, 1), 0.2);
    assert_eq!(value(&p, 2), 0.4);
    assert_eq!(value(&p, 3), 0.5);
    assert_eq!(value(&p, 4), 0.2);
    assert_eq!(value(&p, 5), 0.4);
    assert_eq!(value(&p, 6), 0.5);
    assert_eq!(value(&p, 7), 0.2);
    assert_eq!(value(&p, 8), 0.4);

    p.set_parameter(0, bits(0.0));
    assert_eq!(value(&p, 0), 0.0);
    p.set_parameter(1, bits(0.0));
    assert_eq!(value(&p, 1), 0.0);
    p.set_parameter(2, bits(0.0));
    assert_eq!(value(&p, 2), 0.0);
}

#[test]
fn test_prefix() {
    let mut p = Group::new();
    p.add_group(xyz(false), Some("params1 ")).unwrap();
    p.add_group(xyz(false), Some("params2 ")).unwrap();
    p.add_group(xyz(false), Some("params3 ")).unwrap();

    assert_eq!(p.get_parameter_name(0), "params1 x");
    assert_eq!(p.get_parameter_name(1), "params1 y");
    assert_eq!(p.get_parameter_name(2), "params1 z");
    assert_eq!(p.get_parameter_name(3), "params2 x");
    assert_eq!(p.get_parameter_name(4), "params2 y");
    assert_eq!(p.get_parameter_name(5), "params2 z");
    assert_eq!(p.get_parameter_name(6), "params3 x");
    assert_eq!(p.get_parameter_name(7), "params3 y");
    assert_eq!(p.get_parameter_name(8), "params3 z");
}
