use robot_sensing::display::fill_placeholders;

fn chars(s: &str) -> Vec<char> {
    s.chars().collect()
}

fn fill(blueprint: &str, values: &[&str]) -> String {
    let vs: Vec<Vec<char>> = values.iter().map(|v| chars(v)).collect();
    fill_placeholders(&chars(blueprint), &vs).into_iter().collect()
}

#[test]
fn one_value_per_placeholder_in_order() {
    assert_eq!(fill("a {} b {}", &["1", "0.25"]), "a 1 b 0.25");
    assert_eq!(fill("{}{}", &["x", "y"]), "xy");
}

#[test]
fn missing_values_leave_placeholders() {
    assert_eq!(fill("a {} b {}", &["1"]), "a 1 b {}");
    assert_eq!(fill("{}", &[]), "{}");
}

#[test]
fn extra_values_are_not_shown() {
    assert_eq!(fill("a {} b {}", &["1", "2", "3"]), "a 1 b 2");
}

#[test]
fn only_adjacent_braces_are_placeholders() {
    assert_eq!(fill("{ } { {}", &["v"]), "{ } { v");
    assert_eq!(fill("", &["v"]), "");
}
