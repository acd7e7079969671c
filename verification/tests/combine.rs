use samn_common::node::{Actuator, CombineError, LimbType, Sensor};

#[test]
fn battery_readings_average() {
    assert_eq!(
        Sensor::Battery(10).combine(Sensor::Battery(20)),
        Ok(Sensor::Battery(15))
    );
    // The sum of two full batteries does not overflow.
    assert_eq!(
        Sensor::Battery(255).combine(Sensor::Battery(255)),
        Ok(Sensor::Battery(255))
    );
    assert_eq!(
        Sensor::Battery(10).combine(Sensor::Battery(21)),
        Ok(Sensor::Battery(15))
    );
}

#[test]
fn temp_hum_readings_average() {
    assert_eq!(
        Sensor::TempHum((1000, 50)).combine(Sensor::TempHum((2000, 70))),
        Ok(Sensor::TempHum((1500, 60)))
    );
    // Negative temperatures average toward zero, as machine division does.
    assert_eq!(
        Sensor::TempHum((-1000, 50)).combine(Sensor::TempHum((-2001, 50))),
        Ok(Sensor::TempHum((-1500, 50)))
    );
    assert_eq!(
        Sensor::TempHum((-32768, 0)).combine(Sensor::TempHum((-32768, 0))),
        Ok(Sensor::TempHum((-32768, 0)))
    );
}

#[test]
fn current_readings_average() {
    assert_eq!(
        Sensor::Current(65535).combine(Sensor::Current(65533)),
        Ok(Sensor::Current(65534))
    );
}

#[test]
fn mismatched_sensors_do_not_combine() {
    assert_eq!(
        Sensor::Battery(10).combine(Sensor::Current(3)),
        Err(CombineError::VariantMismatch)
    );
    assert_eq!(
        Sensor::TempHum((0, 0)).combine(Sensor::Battery(1)),
        Err(CombineError::VariantMismatch)
    );
}

#[test]
fn lights_latch_on() {
    assert_eq!(
        Actuator::Light(false).combine(Actuator::Light(false)),
        Ok(Actuator::Light(false))
    );
    assert_eq!(
        Actuator::Light(false).combine(Actuator::Light(true)),
        Ok(Actuator::Light(true))
    );
    assert_eq!(
        Actuator::Light(true).combine(Actuator::Light(false)),
        Ok(Actuator::Light(true))
    );
}

#[test]
fn limb_types_combine_by_variant() {
    let a = LimbType::Sensor {
        report_interval: 100,
        data: None,
    };
    let b = LimbType::Sensor {
        report_interval: 300,
        data: Some(Sensor::Battery(80)),
    };
    assert_eq!(
        a.clone().combine(b),
        Ok(LimbType::Sensor {
            report_interval: 200,
            data: Some(Sensor::Battery(80)),
        })
    );
    assert_eq!(
        LimbType::Sensor {
            report_interval: 10,
            data: Some(Sensor::Battery(10)),
        }
        .combine(LimbType::Sensor {
            report_interval: 10,
            data: Some(Sensor::Battery(30)),
        }),
        Ok(LimbType::Sensor {
            report_interval: 10,
            data: Some(Sensor::Battery(20)),
        })
    );
    // An inner sensor mismatch surfaces as the combine error.
    assert_eq!(
        LimbType::Sensor {
            report_interval: 10,
            data: Some(Sensor::Battery(10)),
        }
        .combine(LimbType::Sensor {
            report_interval: 10,
            data: Some(Sensor::Current(9)),
        }),
        Err(CombineError::VariantMismatch)
    );
    assert_eq!(
        a.combine(LimbType::Actuator(Actuator::Light(true))),
        Err(CombineError::VariantMismatch)
    );
}
