use sensor_logic::sensor_config::{add, config_sensor, my_runner, CallsFunct};

#[test]
fn it_works() {
    let result = add(2, 2);
    assert_eq!(result, 4);
}

#[test]
fn calls_init() {
    let mut cf = CallsFunct {
        init_sensor_timer: false,
        init_spi: false,
        init_twi: false,
        update_value: false,
        configure_sensor: false,
    };

    config_sensor(&mut cf);

    assert_eq!(cf.configure_sensor, true);
    assert_eq!(cf.init_spi, true);
    assert_eq!(cf.init_sensor_timer, true);
}

#[test]
fn config_sensor_leaves_twi_and_update_alone() {
    let mut cf = CallsFunct {
        init_sensor_timer: false,
        init_spi: false,
        init_twi: true,
        update_value: false,
        configure_sensor: false,
    };
    config_sensor(&mut cf);
    assert!(cf.init_twi);
    assert!(!cf.update_value);
}

#[test]
fn add_largest_sum() {
    assert_eq!(add(200, 55), 255);
    assert_eq!(add(0, 0), 0);
}

#[test]
fn runner_walks_all_tests() {
    let pass = 0i32;
    let fail = 4i32;
    my_runner(&[&pass, &fail]);
    my_runner(&[]);
}
