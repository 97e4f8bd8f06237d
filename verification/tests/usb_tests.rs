use revyos_imager::usb::{not_found_message, sort_by_product, USBDevice};

fn device(name: &str, address: u8) -> USBDevice {
    USBDevice::new(0x2345, 0x7654, Some(name), address)
}

#[test]
fn device_without_a_name_is_unknown() {
    let unnamed = USBDevice::new(1, 2, None, 3);
    assert_eq!(
        unnamed,
        USBDevice { vendor_id: 1, product_id: 2, product_string: "Unknown".to_string(), device_address: 3 }
    );
    assert_eq!(device("USB download gadget", 9).product_string, "USB download gadget");
}

#[test]
fn device_is_found_by_identifiers_and_address() {
    let present = vec![
        USBDevice::new(0x2345, 0x7654, Some("a"), 1),
        USBDevice::new(0x2345, 0x7655, Some("b"), 2),
        USBDevice::new(0x2346, 0x7654, Some("c"), 2),
        USBDevice::new(0x2345, 0x7654, Some("d"), 2),
        USBDevice::new(0x2345, 0x7654, Some("e"), 2),
    ];
    assert_eq!(device("renamed", 2).find_among(&present), Some(3));
    assert_eq!(device("a", 1).find_among(&present), Some(0));
    assert_eq!(device("a", 3).find_among(&present), None);
    assert_eq!(device("a", 1).find_among(&vec![]), None);
    assert!(device("x", 2).is_same(&present[4]));
    assert!(!device("b", 2).is_same(&present[1]));
    assert_eq!(not_found_message(), "Device not found");
}

#[test]
fn devices_are_sorted_by_name_and_stay_in_order_within_a_name() {
    let devices = vec![
        device("b", 1),
        device("a", 2),
        device("b", 3),
        device("", 4),
        device("ab", 5),
        device("a", 6),
        device("B", 7),
        device("é", 8),
        device("z", 9),
    ];
    let sorted = sort_by_product(&devices);
    let seen: Vec<_> = sorted.iter().map(|d| (d.product_string.as_str(), d.device_address)).collect();
    assert_eq!(
        seen,
        vec![("", 4), ("B", 7), ("a", 2), ("a", 6), ("ab", 5), ("b", 1), ("b", 3), ("z", 9), ("é", 8)]
    );
    let mut by_std = devices.clone();
    by_std.sort_by(|a, b| a.product_string.cmp(&b.product_string));
    assert_eq!(sorted, by_std);
    assert!(sort_by_product(&vec![]).is_empty());
}
