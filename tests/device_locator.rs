use ntru_token::{locate_token, PortDescriptor, UsbIdentity};

fn usb(name: &str, vid: u16, pid: u16, m: Option<&str>, p: Option<&str>) -> PortDescriptor {
    PortDescriptor {
        port_name: name.to_string(),
        usb: Some(UsbIdentity {
            vid,
            pid,
            manufacturer: m.map(|s| s.to_string()),
            product: p.map(|s| s.to_string()),
        }),
    }
}

fn token(name: &str) -> PortDescriptor {
    usb(name, 0x0420, 0x2137, Some("ABW"), Some("STM32 NTRU Token"))
}

#[test]
fn locator_finds_nothing_among_other_devices() {
    let ports = vec![
        usb("/dev/ttyUSB0", 0x0420, 0x2137, Some("ABW"), Some("Other")),
        usb("/dev/ttyUSB1", 0x0421, 0x2137, Some("ABW"), Some("STM32 NTRU Token")),
        usb("/dev/ttyUSB2", 0x0420, 0x2138, Some("ABW"), Some("STM32 NTRU Token")),
        usb("/dev/ttyUSB3", 0x0420, 0x2137, None, Some("STM32 NTRU Token")),
        usb("/dev/ttyUSB4", 0x0420, 0x2137, Some("ABW"), None),
        PortDescriptor { port_name: "/dev/ttyS0".to_string(), usb: None },
    ];
    assert_eq!(locate_token(ports), None);
    assert_eq!(locate_token(Vec::new()), None);
}

#[test]
fn locator_finds_the_token() {
    let ports = vec![
        PortDescriptor { port_name: "/dev/ttyS0".to_string(), usb: None },
        token("/dev/ttyACM0"),
        usb("/dev/ttyUSB1", 0x1234, 0x5678, Some("ABW"), Some("STM32 NTRU Token")),
    ];
    assert_eq!(locate_token(ports), Some("/dev/ttyACM0".to_string()));
}

#[test]
fn locator_takes_the_last_listed_token() {
    let ports = vec![token("/dev/ttyACM0"), token("/dev/ttyACM1")];
    assert_eq!(locate_token(ports), Some("/dev/ttyACM1".to_string()));
}
