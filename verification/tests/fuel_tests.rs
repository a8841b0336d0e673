use intcode::fuel::{Fuelable, FuelCalculator, FuelUpper, Module};

#[test]
fn module_calculates_correct_base_fuel_for_mass_of_12() {
    assert_eq!(2, Module::new(12).calculate_base_required_fuel());
}

#[test]
fn module_calculates_correct_base_fuel_for_mass_of_14() {
    assert_eq!(2, Module::new(14).calculate_base_required_fuel());
}

#[test]
fn module_calculates_correct_base_fuel_for_mass_of_1969() {
    assert_eq!(654, Module::new(1969).calculate_base_required_fuel());
}

#[test]
fn module_calculates_correct_base_fuel_for_mass_of_100756() {
    assert_eq!(33583, Module::new(100_756).calculate_base_required_fuel());
}

#[test]
fn module_calculates_correct_total_fuel_for_mass_of_14() {
    assert_eq!(2, Module::new(14).calculate_total_required_fuel());
}

#[test]
fn module_calculates_correct_total_fuel_for_mass_of_1969() {
    assert_eq!(966, Module::new(1969).calculate_total_required_fuel());
}

#[test]
fn module_calculates_correct_total_fuel_for_mass_of_100756() {
    assert_eq!(50346, Module::new(100_756).calculate_total_required_fuel());
}

#[test]
fn light_masses_need_no_fuel() {
    assert_eq!(None, FuelCalculator::required_fuel(8));
    assert_eq!(Some(1), FuelCalculator::required_fuel(9));
    assert_eq!(0, Module::new(2).calculate_total_required_fuel());
}

#[test]
fn fuel_upper_sums_over_modules() {
    let modules = vec![Module::new(12), Module::new(14), Module::new(1969)];
    assert_eq!(
        2 + 2 + 654,
        FuelUpper::determine_total_required_base_fuel(&modules)
    );
    assert_eq!(
        2 + 2 + 966,
        FuelUpper::determine_total_required_fuel(&modules)
    );
}

#[test]
fn input_lines_become_modules() {
    let lines = vec![String::from("12"), String::from("1969")];
    let modules = intcode::fuel::input_to_modules(lines);
    assert_eq!(2, modules.len());
    assert_eq!(654, modules[1].calculate_base_required_fuel());
}
