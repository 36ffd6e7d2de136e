use procmon::helpers::{
    change_units, format_option, format_option_text, format_option_units, tenths_to_string,
    u64_to_string,
};

#[test]
fn decimal_rendering() {
    assert_eq!(u64_to_string(0), "0");
    assert_eq!(u64_to_string(7), "7");
    assert_eq!(u64_to_string(10), "10");
    assert_eq!(u64_to_string(1234567890), "1234567890");
    assert_eq!(u64_to_string(u64::MAX), "18446744073709551615");
}

#[test]
fn tenths_rendering() {
    assert_eq!(tenths_to_string(0), "0.0");
    assert_eq!(tenths_to_string(205), "20.5");
    assert_eq!(tenths_to_string(1000), "100.0");
}

#[test]
fn scale_bytes_reference_points() {
    assert_eq!(change_units(0), "0.0B");
    assert_eq!(change_units(1536), "1.5KB");
    assert_eq!(change_units(1_048_576), "1.0MB");
}

#[test]
fn scale_bytes_boundaries() {
    assert_eq!(change_units(1023), "1023.0B");
    assert_eq!(change_units(1024), "1.0KB");
    assert_eq!(change_units(1024 * 1024 * 1024), "1.0GB");
    assert_eq!(change_units(5 * 1024 * 1024 * 1024 + 512 * 1024 * 1024), "5.5GB");
}

#[test]
fn scale_bytes_past_the_labels_has_no_suffix() {
    // one full step past GB: the number is still finite and carries no unit
    let tib: u64 = 1024 * 1024 * 1024 * 1024;
    assert_eq!(change_units(tib), "1.0");
    assert_eq!(change_units(u64::MAX), "16.0");
}

#[test]
fn optional_number_formatting() {
    assert_eq!(format_option(None), "--");
    assert_eq!(format_option(Some(3)), "3");
}

#[test]
fn optional_text_formatting() {
    assert_eq!(format_option_text(None), "--");
    assert_eq!(format_option_text(Some("sda1".to_string())), "sda1");
}

#[test]
fn optional_unit_formatting() {
    assert_eq!(format_option_units(None), "--");
    assert_eq!(format_option_units(Some(1536)), "1.5KB");
}
